use vstd::prelude::*;

use crate::delivery::{
    DeliveryOutcome, RetryPolicy, backoff, incremented, lemma_backoff_increasing, saturating_add,
};
use crate::http::ResponseView;
use crate::idempotency::key_error;
use crate::publish::{PublishFailure, PublishOutcomeView, publish_spec};
use crate::store::{
    AdmissionView, FingerprintView, RecordView, StoreView, TaskView, TransactionView,
    after_attempt, claim_spec, eligible, has_task, is_first_record, is_locked,
    lemma_index_of_distinct, lemma_task_index_unique, has_issue, new_tasks, report_spec, rollback_spec,
    save_response_spec, saved_response, staged_issue, store_wf, try_processing_spec, unlock,
    is_first_eligible,
};

verus! {

/// If some record of `fp` exists, a first one does.
proof fn lemma_first_record_exists(records: Seq<RecordView>, fp: FingerprintView, i: int)
    requires
        0 <= i < records.len(),
        records[i].fingerprint == fp,
    ensures
        exists|k: int| is_first_record(records, fp, k),
    decreases i,
{
    if !is_first_record(records, fp, i) {
        let j = choose|j: int| 0 <= j < i && (#[trigger] records[j]).fingerprint == fp;
        lemma_first_record_exists(records, fp, j);
    }
}

/// The first record of a fingerprint that had none is the one just appended.
proof fn lemma_saved_response_first(records: Seq<RecordView>, r: RecordView)
    requires
        saved_response(records, r.fingerprint) is None,
    ensures
        saved_response(records.push(r), r.fingerprint) == Some(r.response),
{
    let fp = r.fingerprint;
    let r2 = records.push(r);
    assert forall|j: int| 0 <= j < records.len() implies (#[trigger] records[j]).fingerprint != fp by {
        if records[j].fingerprint == fp {
            lemma_first_record_exists(records, fp, j);
        }
    }
    assert(is_first_record(r2, fp, records.len() as int));
    let k = choose|k: int| is_first_record(r2, fp, k);
    assert(k == records.len()) by {
        if k < records.len() {
            assert(r2[k] == records[k]);
        }
    }
}

/// Releasing a fingerprint that was just taken restores the held set.
proof fn lemma_unlock_push(locked: Seq<FingerprintView>, fp: FingerprintView)
    requires
        !locked.contains(fp),
        forall|a: int, b: int| 0 <= a < b < locked.len() ==> #[trigger] locked[a] != #[trigger] locked[b],
    ensures
        unlock(locked.push(fp), fp) == locked,
{
    let l2 = locked.push(fp);
    assert forall|a: int, b: int| 0 <= a < b < l2.len() implies #[trigger] l2[a] != #[trigger] l2[b] by {
        if b == locked.len() {
            assert(l2[a] == locked[a]);
        }
    }
    lemma_index_of_distinct(l2, fp, locked.len() as int);
    assert(l2.remove(locked.len() as int) =~= locked);
}

/// Publishing twice with the same user, key and payload: a first call that
/// publishes adds exactly one issue and one task per recipient, and the second
/// call changes nothing and returns the first response byte for byte. A first
/// call that replays changed nothing either, and the second replays the same.
pub proof fn lemma_publish_idempotent(
    s: StoreView,
    user_id: u128,
    key: Seq<char>,
    title: Seq<char>,
    text: Seq<char>,
    html: Seq<char>,
    recipients: Seq<Seq<char>>,
    first_id: u128,
    first_now: u64,
    second_id: u128,
    second_now: u64,
)
    requires
        store_wf(s),
    ensures
        ({
            let (s1, r1) = publish_spec(s, user_id, key, title, text, html, recipients, first_id, first_now);
            let (s2, r2) = publish_spec(s1, user_id, key, title, text, html, recipients, second_id, second_now);
            &&& r1 matches Ok(PublishOutcomeView::Published(resp)) ==> {
                &&& r2 == Ok::<_, PublishFailure>(PublishOutcomeView::Replayed(resp))
                &&& s2 == s1
                &&& s1.issues == s.issues.push(staged_issue(first_id, title, text, html, first_now))
                &&& s1.tasks == s.tasks + new_tasks(
                    recipients.map_values(|r: Seq<char>| (first_id, r)),
                    s.next_task_id,
                )
                &&& s1.tasks.len() == s.tasks.len() + recipients.len()
                &&& forall|i: int| 0 <= i < s.tasks.len() ==> (#[trigger] s1.tasks[i]).issue_id != first_id
                &&& forall|j: int| s.tasks.len() <= j < s1.tasks.len() ==> (#[trigger] s1.tasks[j]).issue_id
                    == first_id && s1.tasks[j].recipient == recipients[j - s.tasks.len()]
            }
            &&& r1 matches Ok(PublishOutcomeView::Replayed(resp)) ==> {
                &&& s1 == s
                &&& r2 == r1
                &&& s2 == s
            }
        }),
{
    let fp = (user_id, key);
    let (s1, r1) = publish_spec(s, user_id, key, title, text, html, recipients, first_id, first_now);
    if key_error(key) is None && !is_locked(s, fp) && saved_response(s.records, fp) is None {
        let (sa, a) = try_processing_spec(s, fp, first_now);
        let tx = a->Start_0;
        if let Ok(PublishOutcomeView::Published(resp)) = r1 {
            let rec = RecordView { fingerprint: fp, response: resp, created_at: first_now };
            assert(s1.records == s.records.push(rec));
            lemma_saved_response_first(s.records, rec);
            lemma_unlock_push(s.locked, fp);
            assert(s1.locked == s.locked);
            assert(!is_locked(s1, fp));
            let ds = Seq::<(u128, Seq<char>)>::empty() + recipients.map_values(|r: Seq<char>| (first_id, r));
            assert(ds =~= recipients.map_values(|r: Seq<char>| (first_id, r)));
            assert(s1.issues =~= s.issues.push(staged_issue(first_id, title, text, html, first_now)));
            assert(!has_issue(s.issues, first_id));
            assert forall|i: int| 0 <= i < s.tasks.len() implies (#[trigger] s1.tasks[i]).issue_id != first_id by {
                assert(s1.tasks[i] == s.tasks[i]);
                assert(has_issue(s.issues, s.tasks[i].issue_id));
            }
        }
    }
}

/// At most one admitted execution per fingerprint: while a transaction holds
/// `fp`, every other admission of `fp` waits and changes nothing; once the
/// holder commits with `resp`, every later admission replays exactly `resp`.
pub proof fn lemma_single_admission(
    s: StoreView,
    fp: FingerprintView,
    now: u64,
    tx: TransactionView,
    resp: ResponseView,
    other_now: u64,
    commit_now: u64,
    later_now: u64,
)
    requires
        store_wf(s),
        tx.fingerprint == fp,
    ensures
        ({
            let (s1, a1) = try_processing_spec(s, fp, now);
            a1 is Start ==> {
                &&& try_processing_spec(s1, fp, other_now) == (s1, AdmissionView::Wait)
                &&& ({
                    let (s3, c) = save_response_spec(s1, tx, resp, commit_now);
                    c is Ok ==> try_processing_spec(s3, fp, later_now) == (
                        s3,
                        AdmissionView::Replay(resp),
                    )
                })
            }
        }),
{
    let (s1, a1) = try_processing_spec(s, fp, now);
    if a1 is Start {
        assert(s1.locked == s.locked.push(fp));
        assert(s1.locked[s.locked.len() as int] == fp);
        assert(is_locked(s1, fp));
        let (s3, c) = save_response_spec(s1, tx, resp, commit_now);
        if c is Ok {
            let rec = RecordView { fingerprint: fp, response: resp, created_at: commit_now };
            lemma_saved_response_first(s.records, rec);
            lemma_unlock_push(s.locked, fp);
            assert(!is_locked(s3, fp));
        }
    }
}

/// All or nothing: an admitted transaction that is abandoned (an error or a
/// crash before commit) leaves the store exactly as it was before admission,
/// and a publish request that fails leaves no issue, task or record behind.
pub proof fn lemma_rollback_leaves_nothing(
    s: StoreView,
    fp: FingerprintView,
    now: u64,
    tx: TransactionView,
    user_id: u128,
    key: Seq<char>,
    title: Seq<char>,
    text: Seq<char>,
    html: Seq<char>,
    recipients: Seq<Seq<char>>,
    issue_id: u128,
)
    requires
        store_wf(s),
        tx.fingerprint == fp,
    ensures
        try_processing_spec(s, fp, now).1 is Start ==> rollback_spec(
            try_processing_spec(s, fp, now).0,
            tx,
        ) == s,
        publish_spec(s, user_id, key, title, text, html, recipients, issue_id, now).1 is Err
            ==> publish_spec(s, user_id, key, title, text, html, recipients, issue_id, now).0
            == s,
{
    if try_processing_spec(s, fp, now).1 is Start {
        lemma_unlock_push(s.locked, fp);
    }
    let fp2 = (user_id, key);
    if key_error(key) is None && try_processing_spec(s, fp2, now).1 is Start {
        lemma_unlock_push(s.locked, fp2);
        let s1 = try_processing_spec(s, fp2, now).0;
        assert(s1.locked[s.locked.len() as int] == fp2);
    }
}

/// If some task is eligible at `now`, a first one is.
proof fn lemma_first_eligible_exists(tasks: Seq<TaskView>, now: u64, i: int)
    requires
        0 <= i < tasks.len(),
        eligible(tasks[i], now),
    ensures
        exists|k: int| is_first_eligible(tasks, now, k),
    decreases i,
{
    if !is_first_eligible(tasks, now, i) {
        let j = choose|j: int| 0 <= j < i && eligible(#[trigger] tasks[j], now);
        lemma_first_eligible_exists(tasks, now, j);
    }
}

/// Partial-failure isolation: whatever is reported for task `a`, every other
/// task keeps its position in the order and its state; a delivered task leaves
/// the queue; a task that failed at `now` is not eligible again at `now`, so a
/// worker claiming again moves on to the others; a claim finds a task whenever
/// one is eligible; a failed task is never handed out again.
pub proof fn lemma_delivery_isolation(
    s: StoreView,
    a: u64,
    o: DeliveryOutcome,
    now: u64,
    p: RetryPolicy,
    i: int,
)
    requires
        store_wf(s),
        p.wf(),
        0 <= i < s.tasks.len(),
        s.tasks[i].id != a,
    ensures
        o != DeliveryOutcome::Delivered && now < u64::MAX ==> forall|m: int|
            has_task(report_spec(s, a, o, now, p).0.tasks, a, m) && report_spec(s, a, o, now, p).1
                is Some ==> !eligible(#[trigger] report_spec(s, a, o, now, p).0.tasks[m], now),
        eligible(s.tasks[i], now) ==> claim_spec(s, now).1 is Some,
        exists|j: int| #![trigger report_spec(s, a, o, now, p).0.tasks[j]]
            0 <= j < report_spec(s, a, o, now, p).0.tasks.len() && report_spec(
                s,
                a,
                o,
                now,
                p,
            ).0.tasks[j] == s.tasks[i],
        o == DeliveryOutcome::Delivered && report_spec(s, a, o, now, p).1 is Some ==> !(exists|
            k: int,
        | has_task(report_spec(s, a, o, now, p).0.tasks, a, k)),
        s.tasks[i].failed ==> claim_spec(s, now).0.tasks[i] == s.tasks[i],
        claim_spec(s, now).1 matches Some(t) ==> !t.failed,
{
    let s2 = report_spec(s, a, o, now, p).0;
    if exists|k: int| has_task(s.tasks, a, k) {
        let k = choose|k: int| has_task(s.tasks, a, k);
        lemma_task_index_unique(s, a, k);
        if s.tasks[k].claimed {
            match after_attempt(p, s.tasks[k], o, now) {
                None => {
                    let j = if i < k { i } else { i - 1 };
                    assert(s2.tasks[j] == s.tasks[i]);
                    assert forall|m: int| !has_task(s2.tasks, a, m) by {
                        if has_task(s2.tasks, a, m) {
                            let m1 = if m < k { m } else { m + 1 };
                            assert(s2.tasks[m] == s.tasks[m1]);
                            assert(m1 != k);
                            if m1 < k {
                                assert(s.tasks[m1].id < s.tasks[k].id);
                            } else {
                                assert(s.tasks[k].id < s.tasks[m1].id);
                            }
                        }
                    }
                },
                Some(t) => {
                    assert(s2.tasks[i] == s.tasks[i]);
                    lemma_backoff_increasing(p.base_delay as nat, 0);
                    if o != DeliveryOutcome::Delivered && now < u64::MAX {
                        assert forall|m: int| has_task(s2.tasks, a, m) implies !eligible(
                            #[trigger] s2.tasks[m],
                            now,
                        ) by {
                            if m != k {
                                assert(s2.tasks[m] == s.tasks[m]);
                                if m < k {
                                    assert(s.tasks[m].id < s.tasks[k].id);
                                } else {
                                    assert(s.tasks[k].id < s.tasks[m].id);
                                }
                            } else {
                                let n = incremented(s.tasks[k].attempts);
                                if !t.failed {
                                    lemma_backoff_pos(p.base_delay as nat, (n - 1) as nat);
                                }
                            }
                        }
                    }
                },
            }
        } else {
            assert(s2.tasks[i] == s.tasks[i]);
        }
    } else {
        assert(s2.tasks[i] == s.tasks[i]);
    }
    if eligible(s.tasks[i], now) {
        lemma_first_eligible_exists(s.tasks, now, i);
    }
    if exists|k: int| is_first_eligible(s.tasks, now, k) {
        let k = choose|k: int| is_first_eligible(s.tasks, now, k);
        assert(eligible(s.tasks[k], now));
        if s.tasks[i].failed {
            assert(k != i);
        }
    }
}

proof fn lemma_backoff_pos(base: nat, k: nat)
    requires
        base > 0,
    ensures
        backoff(base, k) > 0,
{
    lemma_backoff_increasing(base, k);
}

/// A task after failing transiently at each time in `times`, in order.
pub open spec fn fail_transiently(p: RetryPolicy, t: TaskView, times: Seq<u64>) -> TaskView
    decreases times.len(),
{
    if times.len() == 0 {
        t
    } else {
        let t1 = fail_transiently(p, t, times.drop_last());
        match after_attempt(p, t1, DeliveryOutcome::TransientFailure, times.last()) {
            Some(t2) => t2,
            None => t1,
        }
    }
}

/// Retry bound: a fresh task that keeps failing transiently stays retryable
/// for its first `max_attempts - 1` failures, each time after a strictly longer
/// delay than the one before, and is failed for good after exactly
/// `max_attempts` attempts.
pub proof fn lemma_retry_bound(p: RetryPolicy, t: TaskView, times: Seq<u64>)
    requires
        p.wf(),
        t.attempts == 0,
        !t.failed,
        times.len() <= p.max_attempts,
    ensures
        fail_transiently(p, t, times).attempts == times.len(),
        fail_transiently(p, t, times).failed <==> times.len() == p.max_attempts,
        0 < times.len() < p.max_attempts ==> fail_transiently(p, t, times).execute_after
            == saturating_add(times.last(), backoff(p.base_delay as nat, (times.len() - 1) as nat)),
        0 < times.len() < p.max_attempts ==> backoff(p.base_delay as nat, (times.len() - 1) as nat)
            < backoff(p.base_delay as nat, times.len() as nat),
        times.len() == p.max_attempts ==> !eligible(fail_transiently(p, t, times), times.last()),
    decreases times.len(),
{
    if times.len() > 0 {
        lemma_retry_bound(p, t, times.drop_last());
        lemma_backoff_increasing(p.base_delay as nat, (times.len() - 1) as nat);
    }
}

} // verus!
