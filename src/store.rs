use vstd::prelude::*;

use crate::delivery::{
    DeliveryOutcome, RetryPolicy, TaskState, backoff, backoff_delay, incremented, saturating_add,
};
use crate::http::{Response, ResponseView};
use crate::idempotency::IdempotencyKey;

verus! {

/// The identity of a logical action: who asked, and with which key.
#[derive(Debug)]
pub struct Fingerprint {
    pub user_id: u128,
    pub key: IdempotencyKey,
}

pub type FingerprintView = (u128, Seq<char>);

impl View for Fingerprint {
    type V = FingerprintView;

    open spec fn view(&self) -> FingerprintView {
        (self.user_id, self.key@)
    }
}

impl Fingerprint {
    pub fn same_as(&self, other: &Fingerprint) -> (r: bool)
        ensures
            r == (self@ == other@),
    {
        self.user_id == other.user_id && self.key.same_as(&other.key)
    }

    pub fn duplicate(&self) -> (r: Fingerprint)
        ensures
            r@ == self@,
    {
        Fingerprint { user_id: self.user_id, key: self.key.duplicate() }
    }
}

/// A completed idempotency record: the response captured for a fingerprint.
#[derive(Debug)]
pub struct IdempotencyRecord {
    pub fingerprint: Fingerprint,
    pub response: Response,
    pub created_at: u64,
}

pub struct RecordView {
    pub fingerprint: FingerprintView,
    pub response: ResponseView,
    pub created_at: u64,
}

impl View for IdempotencyRecord {
    type V = RecordView;

    open spec fn view(&self) -> RecordView {
        RecordView {
            fingerprint: self.fingerprint@,
            response: self.response@,
            created_at: self.created_at,
        }
    }
}

/// One published broadcast. Never changed once committed.
#[derive(Debug)]
pub struct Issue {
    pub id: u128,
    pub title: String,
    pub text_content: String,
    pub html_content: String,
    pub published_at: u64,
}

pub struct IssueView {
    pub id: u128,
    pub title: Seq<char>,
    pub text_content: Seq<char>,
    pub html_content: Seq<char>,
    pub published_at: u64,
}

impl View for Issue {
    type V = IssueView;

    open spec fn view(&self) -> IssueView {
        IssueView {
            id: self.id,
            title: self.title@,
            text_content: self.text_content@,
            html_content: self.html_content@,
            published_at: self.published_at,
        }
    }
}

impl Issue {
    pub fn duplicate(&self) -> (r: Issue)
        ensures
            r@ == self@,
    {
        Issue {
            id: self.id,
            title: self.title.clone(),
            text_content: self.text_content.clone(),
            html_content: self.html_content.clone(),
            published_at: self.published_at,
        }
    }
}

/// The obligation to deliver one issue to one recipient.
#[derive(Debug)]
pub struct DeliveryTask {
    pub id: u64,
    pub issue_id: u128,
    pub recipient: String,
    /// Delivery attempts made so far.
    pub attempts: u32,
    /// The task may not be claimed before this time.
    pub execute_after: u64,
    /// Terminal: the retry budget is spent or the failure was permanent.
    pub failed: bool,
    /// A worker holds the task.
    pub claimed: bool,
}

pub struct TaskView {
    pub id: u64,
    pub issue_id: u128,
    pub recipient: Seq<char>,
    pub attempts: u32,
    pub execute_after: u64,
    pub failed: bool,
    pub claimed: bool,
}

impl View for DeliveryTask {
    type V = TaskView;

    open spec fn view(&self) -> TaskView {
        TaskView {
            id: self.id,
            issue_id: self.issue_id,
            recipient: self.recipient@,
            attempts: self.attempts,
            execute_after: self.execute_after,
            failed: self.failed,
            claimed: self.claimed,
        }
    }
}

impl DeliveryTask {
    pub fn duplicate(&self) -> (r: DeliveryTask)
        ensures
            r@ == self@,
    {
        DeliveryTask {
            id: self.id,
            issue_id: self.issue_id,
            recipient: self.recipient.clone(),
            attempts: self.attempts,
            execute_after: self.execute_after,
            failed: self.failed,
            claimed: self.claimed,
        }
    }
}

/// A delivery staged in an open transaction, not yet a queued task.
#[derive(Debug)]
pub struct StagedDelivery {
    pub issue_id: u128,
    pub recipient: String,
}

impl View for StagedDelivery {
    type V = (u128, Seq<char>);

    open spec fn view(&self) -> (u128, Seq<char>) {
        (self.issue_id, self.recipient@)
    }
}

/// An open unit of work admitted for one fingerprint. Its writes become visible
/// together when the response is saved, and vanish if it is rolled back.
#[derive(Debug)]
pub struct Transaction {
    fingerprint: Fingerprint,
    started_at: u64,
    issues: Vec<Issue>,
    deliveries: Vec<StagedDelivery>,
}

pub struct TransactionView {
    pub fingerprint: FingerprintView,
    pub started_at: u64,
    pub issues: Seq<IssueView>,
    pub deliveries: Seq<(u128, Seq<char>)>,
}

impl View for Transaction {
    type V = TransactionView;

    closed spec fn view(&self) -> TransactionView {
        TransactionView {
            fingerprint: self.fingerprint@,
            started_at: self.started_at,
            issues: self.issues@.map_values(|i: Issue| i@),
            deliveries: self.deliveries@.map_values(|d: StagedDelivery| d@),
        }
    }
}

/// The shared durable state: completed idempotency records, the fingerprints
/// held by open transactions, committed issues and the delivery queue.
#[derive(Debug)]
pub struct Store {
    records: Vec<IdempotencyRecord>,
    locked: Vec<Fingerprint>,
    issues: Vec<Issue>,
    tasks: Vec<DeliveryTask>,
    next_task_id: u64,
}

pub struct StoreView {
    pub records: Seq<RecordView>,
    pub locked: Seq<FingerprintView>,
    pub issues: Seq<IssueView>,
    pub tasks: Seq<TaskView>,
    pub next_task_id: u64,
}

impl View for Store {
    type V = StoreView;

    closed spec fn view(&self) -> StoreView {
        StoreView {
            records: self.records@.map_values(|r: IdempotencyRecord| r@),
            locked: self.locked@.map_values(|f: Fingerprint| f@),
            issues: self.issues@.map_values(|i: Issue| i@),
            tasks: self.tasks@.map_values(|t: DeliveryTask| t@),
            next_task_id: self.next_task_id,
        }
    }
}

/// `i` is the first record of `fp`.
pub open spec fn is_first_record(records: Seq<RecordView>, fp: FingerprintView, i: int) -> bool {
    &&& 0 <= i < records.len()
    &&& records[i].fingerprint == fp
    &&& forall|j: int| 0 <= j < i ==> (#[trigger] records[j]).fingerprint != fp
}

/// The response saved for `fp`, if its record is complete.
pub open spec fn saved_response(records: Seq<RecordView>, fp: FingerprintView) -> Option<ResponseView> {
    if exists|i: int| is_first_record(records, fp, i) {
        Some(records[choose|i: int| is_first_record(records, fp, i)].response)
    } else {
        None
    }
}

pub open spec fn is_locked(s: StoreView, fp: FingerprintView) -> bool {
    s.locked.contains(fp)
}

/// The state in which a fresh store starts and every operation leaves it.
pub open spec fn store_wf(s: StoreView) -> bool {
    &&& forall|i: int, j: int|
        0 <= i < j < s.locked.len() ==> #[trigger] s.locked[i] != #[trigger] s.locked[j]
    &&& forall|i: int| 0 <= i < s.locked.len() ==> saved_response(s.records, #[trigger] s.locked[i]) is None
    &&& forall|i: int, j: int|
        0 <= i < j < s.tasks.len() ==> (#[trigger] s.tasks[i]).id < (#[trigger] s.tasks[j]).id
    &&& forall|i: int| 0 <= i < s.tasks.len() ==> (#[trigger] s.tasks[i]).id < s.next_task_id
    &&& forall|i: int| 0 <= i < s.tasks.len() && (#[trigger] s.tasks[i]).claimed ==> !s.tasks[i].failed
    &&& forall|i: int| 0 <= i < s.tasks.len() ==> has_issue(s.issues, (#[trigger] s.tasks[i]).issue_id)
}

pub open spec fn empty_store() -> StoreView {
    StoreView {
        records: Seq::empty(),
        locked: Seq::empty(),
        issues: Seq::empty(),
        tasks: Seq::empty(),
        next_task_id: 0,
    }
}

/// What admission decided for a fingerprint.
pub enum NextAction {
    /// No record existed: the caller holds the fingerprint and must finish the
    /// transaction with `save_response` or `rollback`.
    StartProcessing(Transaction),
    /// A completed record existed: its response, to be returned unchanged.
    ReturnSavedResponse(Response),
    /// Another transaction holds the fingerprint; admission must be attempted
    /// again once it has committed or rolled back.
    Wait,
}

pub enum AdmissionView {
    Start(TransactionView),
    Replay(ResponseView),
    Wait,
}

impl View for NextAction {
    type V = AdmissionView;

    open spec fn view(&self) -> AdmissionView {
        match self {
            NextAction::StartProcessing(t) => AdmissionView::Start(t@),
            NextAction::ReturnSavedResponse(r) => AdmissionView::Replay(r@),
            NextAction::Wait => AdmissionView::Wait,
        }
    }
}

pub open spec fn fresh_transaction(fp: FingerprintView, now: u64) -> TransactionView {
    TransactionView {
        fingerprint: fp,
        started_at: now,
        issues: Seq::empty(),
        deliveries: Seq::empty(),
    }
}

/// Admission of `fp` at time `now`: the next state and the decision.
pub open spec fn try_processing_spec(s: StoreView, fp: FingerprintView, now: u64) -> (
    StoreView,
    AdmissionView,
) {
    if is_locked(s, fp) {
        (s, AdmissionView::Wait)
    } else {
        match saved_response(s.records, fp) {
            Some(r) => (s, AdmissionView::Replay(r)),
            None => (
                StoreView { locked: s.locked.push(fp), ..s },
                AdmissionView::Start(fresh_transaction(fp, now)),
            ),
        }
    }
}

/// Storage faults of the transactional writes.
#[derive(Debug, Clone, Copy, PartialEq, Eq, Structural)]
pub enum PersistenceError {
    /// An issue with this identifier already exists.
    DuplicateIssueId,
    /// The queue has run out of task identifiers.
    TaskIdsExhausted,
}

/// Why `save_response` did not commit.
#[derive(Debug, Clone, Copy, PartialEq, Eq, Structural)]
pub enum CommitError {
    /// The transaction no longer holds its fingerprint: it was completed or
    /// rolled back already.
    AlreadyCompleted,
    /// The transaction could not be committed and was rolled back.
    Persistence(PersistenceError),
}

/// Some issue of `issues` has identifier `id`.
pub open spec fn has_issue(issues: Seq<IssueView>, id: u128) -> bool {
    exists|i: int| 0 <= i < issues.len() && (#[trigger] issues[i]).id == id
}

pub open spec fn issue_id_taken(s: StoreView, tx: TransactionView, id: u128) -> bool {
    has_issue(s.issues, id) || has_issue(tx.issues, id)
}

/// Every staged delivery belongs to an issue staged in the same transaction.
pub open spec fn tx_wf(tx: TransactionView) -> bool {
    forall|j: int| 0 <= j < tx.deliveries.len() ==> has_issue(tx.issues, (#[trigger] tx.deliveries[j]).0)
}

pub open spec fn staged_issue(
    id: u128,
    title: Seq<char>,
    text: Seq<char>,
    html: Seq<char>,
    now: u64,
) -> IssueView {
    IssueView { id, title, text_content: text, html_content: html, published_at: now }
}

pub open spec fn enqueue_spec(tx: TransactionView, issue_id: u128, recipients: Seq<Seq<char>>) -> TransactionView {
    TransactionView {
        deliveries: tx.deliveries + recipients.map_values(|r: Seq<char>| (issue_id, r)),
        ..tx
    }
}

/// The queued tasks made from staged deliveries, numbered from `first_id`.
pub open spec fn new_tasks(deliveries: Seq<(u128, Seq<char>)>, first_id: u64) -> Seq<TaskView> {
    Seq::new(
        deliveries.len(),
        |i: int|
            TaskView {
                id: (first_id + i) as u64,
                issue_id: deliveries[i].0,
                recipient: deliveries[i].1,
                attempts: 0,
                execute_after: 0,
                failed: false,
                claimed: false,
            },
    )
}

pub open spec fn unlock(locked: Seq<FingerprintView>, fp: FingerprintView) -> Seq<FingerprintView> {
    if locked.contains(fp) {
        locked.remove(locked.index_of(fp))
    } else {
        locked
    }
}

pub open spec fn rollback_spec(s: StoreView, tx: TransactionView) -> StoreView {
    StoreView { locked: unlock(s.locked, tx.fingerprint), ..s }
}

pub open spec fn commit_fits(s: StoreView, tx: TransactionView) -> bool {
    s.next_task_id + tx.deliveries.len() <= u64::MAX
}

/// Completing `tx` with `response` at time `now`.
pub open spec fn save_response_spec(
    s: StoreView,
    tx: TransactionView,
    response: ResponseView,
    now: u64,
) -> (StoreView, Result<ResponseView, CommitError>) {
    if !is_locked(s, tx.fingerprint) {
        (s, Err(CommitError::AlreadyCompleted))
    } else if !commit_fits(s, tx) {
        (rollback_spec(s, tx), Err(CommitError::Persistence(PersistenceError::TaskIdsExhausted)))
    } else {
        (
            StoreView {
                records: s.records.push(
                    RecordView { fingerprint: tx.fingerprint, response, created_at: now },
                ),
                locked: unlock(s.locked, tx.fingerprint),
                issues: s.issues + tx.issues,
                tasks: s.tasks + new_tasks(tx.deliveries, s.next_task_id),
                next_task_id: (s.next_task_id + tx.deliveries.len()) as u64,
            },
            Ok(response),
        )
    }
}

/// A task a worker may claim at time `now`.
pub open spec fn eligible(t: TaskView, now: u64) -> bool {
    !t.failed && !t.claimed && t.execute_after <= now
}

pub open spec fn is_first_eligible(tasks: Seq<TaskView>, now: u64, i: int) -> bool {
    &&& 0 <= i < tasks.len()
    &&& eligible(tasks[i], now)
    &&& forall|j: int| 0 <= j < i ==> !eligible(#[trigger] tasks[j], now)
}

/// Claiming at `now`: the first eligible task is marked as held and handed out.
pub open spec fn claim_spec(s: StoreView, now: u64) -> (StoreView, Option<TaskView>) {
    if exists|i: int| is_first_eligible(s.tasks, now, i) {
        let i = choose|i: int| is_first_eligible(s.tasks, now, i);
        let t = TaskView { claimed: true, ..s.tasks[i] };
        (StoreView { tasks: s.tasks.update(i, t), ..s }, Some(t))
    } else {
        (s, None)
    }
}

/// The task after an attempt with outcome `o` at `now`; `None` once delivered.
pub open spec fn after_attempt(p: RetryPolicy, t: TaskView, o: DeliveryOutcome, now: u64) -> Option<
    TaskView,
> {
    let a = incremented(t.attempts);
    match o {
        DeliveryOutcome::Delivered => None,
        DeliveryOutcome::PermanentFailure => Some(
            TaskView { attempts: a, failed: true, claimed: false, ..t },
        ),
        DeliveryOutcome::TransientFailure => if a >= p.max_attempts {
            Some(TaskView { attempts: a, failed: true, claimed: false, ..t })
        } else {
            Some(
                TaskView {
                    attempts: a,
                    execute_after: saturating_add(now, backoff(p.base_delay as nat, (a - 1) as nat)),
                    claimed: false,
                    ..t
                },
            )
        },
    }
}

pub open spec fn task_state(t: Option<TaskView>) -> TaskState {
    match t {
        None => TaskState::Delivered,
        Some(t) => if t.failed {
            TaskState::Failed
        } else {
            TaskState::Retrying(t.execute_after)
        },
    }
}

pub open spec fn has_task(tasks: Seq<TaskView>, id: u64, i: int) -> bool {
    0 <= i < tasks.len() && tasks[i].id == id
}

/// The position of the task numbered `id` (meaningful when it exists).
pub open spec fn task_index(tasks: Seq<TaskView>, id: u64) -> int {
    choose|i: int| has_task(tasks, id, i)
}

/// Reporting outcome `o` for the held task `id` at `now`. A task that is not
/// held, or does not exist, is left alone.
pub open spec fn report_spec(
    s: StoreView,
    id: u64,
    o: DeliveryOutcome,
    now: u64,
    p: RetryPolicy,
) -> (StoreView, Option<TaskState>) {
    let i = task_index(s.tasks, id);
    if (exists|i: int| has_task(s.tasks, id, i)) && s.tasks[i].claimed {
        match after_attempt(p, s.tasks[i], o, now) {
            None => (StoreView { tasks: s.tasks.remove(i), ..s }, Some(TaskState::Delivered)),
            Some(t) => (StoreView { tasks: s.tasks.update(i, t), ..s }, Some(task_state(Some(t)))),
        }
    } else {
        (s, None)
    }
}

/// Ids strictly increase along the queue, so one id names one task.
pub proof fn lemma_task_index_unique(s: StoreView, id: u64, i: int)
    requires
        store_wf(s),
        has_task(s.tasks, id, i),
    ensures
        task_index(s.tasks, id) == i,
{
    let k = task_index(s.tasks, id);
    assert(has_task(s.tasks, id, k));
    if k < i {
        assert(s.tasks[k].id < s.tasks[i].id);
    } else if k > i {
        assert(s.tasks[i].id < s.tasks[k].id);
    }
}

/// Replacing a task by one with the same id keeps the store well formed.
pub proof fn lemma_update_task_wf(s: StoreView, i: int, t: TaskView)
    requires
        store_wf(s),
        0 <= i < s.tasks.len(),
        t.id == s.tasks[i].id,
        t.issue_id == s.tasks[i].issue_id,
        t.claimed ==> !t.failed,
    ensures
        store_wf(StoreView { tasks: s.tasks.update(i, t), ..s }),
{
    let s2 = StoreView { tasks: s.tasks.update(i, t), ..s };
    assert forall|a: int, b: int| 0 <= a < b < s2.tasks.len() implies (#[trigger] s2.tasks[a]).id
        < (#[trigger] s2.tasks[b]).id by {
        assert(s.tasks[a].id < s.tasks[b].id);
    }
    assert forall|a: int| 0 <= a < s2.tasks.len() implies (#[trigger] s2.tasks[a]).id
        < s2.next_task_id by {
        assert(s.tasks[a].id < s.next_task_id);
    }
    assert forall|a: int| 0 <= a < s2.tasks.len() && (#[trigger] s2.tasks[a]).claimed implies !s2.tasks[a].failed by {
        if a != i {
            assert(s2.tasks[a] == s.tasks[a]);
        }
    }
    assert forall|a: int| 0 <= a < s2.tasks.len() implies has_issue(s2.issues, (#[trigger] s2.tasks[a]).issue_id) by {
        assert(has_issue(s.issues, s.tasks[a].issue_id));
    }
}

/// Removing a task keeps the store well formed.
pub proof fn lemma_remove_task_wf(s: StoreView, i: int)
    requires
        store_wf(s),
        0 <= i < s.tasks.len(),
    ensures
        store_wf(StoreView { tasks: s.tasks.remove(i), ..s }),
{
    let s2 = StoreView { tasks: s.tasks.remove(i), ..s };
    assert forall|a: int, b: int| 0 <= a < b < s2.tasks.len() implies (#[trigger] s2.tasks[a]).id
        < (#[trigger] s2.tasks[b]).id by {
        let a1 = if a < i { a } else { a + 1 };
        let b1 = if b < i { b } else { b + 1 };
        assert(s.tasks[a1].id < s.tasks[b1].id);
    }
    assert forall|a: int| 0 <= a < s2.tasks.len() implies (#[trigger] s2.tasks[a]).id
        < s2.next_task_id by {
        let a1 = if a < i { a } else { a + 1 };
        assert(s.tasks[a1].id < s.next_task_id);
    }
    assert forall|a: int| 0 <= a < s2.tasks.len() && (#[trigger] s2.tasks[a]).claimed implies !s2.tasks[a].failed by {
        let a1 = if a < i { a } else { a + 1 };
        assert(s2.tasks[a] == s.tasks[a1]);
    }
    assert forall|a: int| 0 <= a < s2.tasks.len() implies has_issue(s2.issues, (#[trigger] s2.tasks[a]).issue_id) by {
        let a1 = if a < i { a } else { a + 1 };
        assert(s2.tasks[a] == s.tasks[a1]);
        assert(has_issue(s.issues, s.tasks[a1].issue_id));
    }
}

impl Transaction {
    pub fn fingerprint(&self) -> (r: &Fingerprint)
        ensures
            r@ == self@.fingerprint,
    {
        &self.fingerprint
    }

    /// Stages one delivery of `issue_id` per entry of `recipients`, in order.
    /// The issue must already be staged in this transaction.
    pub fn enqueue_delivery_tasks(&mut self, issue_id: u128, recipients: &Vec<String>)
        requires
            has_issue(old(self)@.issues, issue_id),
        ensures
            final(self)@ == enqueue_spec(old(self)@, issue_id, recipients@.map_values(|r: String| r@)),
            tx_wf(old(self)@) ==> tx_wf(final(self)@),
    {
        let ghost start = self.deliveries@;
        let n = recipients.len();
        for i in 0..n
            invariant
                n == recipients@.len(),
                self.fingerprint == old(self).fingerprint,
                self.started_at == old(self).started_at,
                self.issues == old(self).issues,
                self.deliveries@.len() == start.len() + i,
                forall|j: int| 0 <= j < start.len() ==> #[trigger] self.deliveries@[j] == start[j],
                forall|j: int|
                    0 <= j < i ==> (#[trigger] self.deliveries@[start.len() + j])@ == (
                        issue_id,
                        recipients@[j]@,
                    ),
        {
            self.deliveries.push(StagedDelivery { issue_id, recipient: recipients[i].clone() });
        }
        proof {
            let rs = recipients@.map_values(|r: String| r@);
            let rhs = old(self)@.deliveries + rs.map_values(|r: Seq<char>| (issue_id, r));
            assert forall|j: int| 0 <= j < rhs.len() implies self@.deliveries[j] == rhs[j] by {
                if j >= start.len() {
                    let k = j - start.len();
                    assert(self.deliveries@[start.len() + k]@ == (issue_id, recipients@[k]@));
                }
            }
            assert(self@.deliveries =~= rhs);
            assert(self@.issues == old(self)@.issues);
            if tx_wf(old(self)@) {
                assert forall|j: int| 0 <= j < self@.deliveries.len() implies has_issue(
                    self@.issues,
                    (#[trigger] self@.deliveries[j]).0,
                ) by {
                    if j >= start.len() {
                        assert(self@.deliveries[j] == rhs[j]);
                    } else {
                        assert(self@.deliveries[j] == old(self)@.deliveries[j]);
                    }
                }
            }
        }
    }
}

impl Store {
    pub fn new() -> (r: Store)
        ensures
            r@ == empty_store(),
            store_wf(r@),
    {
        let r = Store {
            records: Vec::new(),
            locked: Vec::new(),
            issues: Vec::new(),
            tasks: Vec::new(),
            next_task_id: 0,
        };
        assert(r@.records =~= Seq::empty());
        assert(r@.locked =~= Seq::empty());
        assert(r@.issues =~= Seq::empty());
        assert(r@.tasks =~= Seq::empty());
        r
    }

    /// Admission of `fp`: holds it in a fresh transaction when no record exists,
    /// hands back the saved response when one does, and asks the caller to
    /// wait while another transaction holds it.
    pub fn try_processing(&mut self, fp: Fingerprint, now: u64) -> (r: NextAction)
        requires
            store_wf(old(self)@),
        ensures
            (final(self)@, r@) == try_processing_spec(old(self)@, fp@, now),
            store_wf(final(self)@),
    {
        if self.find_lock(&fp).is_some() {
            return NextAction::Wait;
        }
        match self.find_record(&fp) {
            Some(i) => {
                return NextAction::ReturnSavedResponse(self.records[i].response.duplicate());
            },
            None => {},
        }
        let ghost s0 = self@;
        self.locked.push(fp.duplicate());
        let tx = Transaction {
            fingerprint: fp,
            started_at: now,
            issues: Vec::new(),
            deliveries: Vec::new(),
        };
        proof {
            assert(self@.locked =~= s0.locked.push(fp@));
            assert(self@.records == s0.records);
            assert(tx@.issues =~= Seq::empty());
            assert(tx@.deliveries =~= Seq::empty());
            assert(self@ == (StoreView { locked: s0.locked.push(fp@), ..s0 }));
        }
        NextAction::StartProcessing(tx)
    }

    /// Stages the issue row in `tx`. Refused when the identifier is already
    /// used by a committed issue or by one staged in `tx`.
    pub fn insert_newsletter_issue(
        &self,
        tx: &mut Transaction,
        issue_id: u128,
        title: &str,
        text_content: &str,
        html_content: &str,
        now: u64,
    ) -> (r: Result<(), PersistenceError>)
        ensures
            issue_id_taken(self@, old(tx)@, issue_id) ==> r == Err::<(), _>(
                PersistenceError::DuplicateIssueId,
            ) && final(tx)@ == old(tx)@,
            !issue_id_taken(self@, old(tx)@, issue_id) ==> r is Ok && final(tx)@ == (
            TransactionView {
                issues: old(tx)@.issues.push(
                    staged_issue(issue_id, title@, text_content@, html_content@, now),
                ),
                ..old(tx)@
            }),
            tx_wf(old(tx)@) ==> tx_wf(final(tx)@),
    {
        let n = self.issues.len();
        for i in 0..n
            invariant
                n == self.issues@.len(),
                forall|j: int| 0 <= j < i ==> (#[trigger] self@.issues[j]).id != issue_id,
        {
            if self.issues[i].id == issue_id {
                assert(self@.issues[i as int].id == issue_id);
                return Err(PersistenceError::DuplicateIssueId);
            }
        }
        let m = tx.issues.len();
        for i in 0..m
            invariant
                m == tx.issues@.len(),
                forall|j: int| 0 <= j < i ==> (#[trigger] tx@.issues[j]).id != issue_id,
        {
            if tx.issues[i].id == issue_id {
                assert(tx@.issues[i as int].id == issue_id);
                return Err(PersistenceError::DuplicateIssueId);
            }
        }
        tx.issues.push(
            Issue {
                id: issue_id,
                title: String::from_str(title),
                text_content: String::from_str(text_content),
                html_content: String::from_str(html_content),
                published_at: now,
            },
        );
        assert(tx@.issues =~= old(tx)@.issues.push(
            staged_issue(issue_id, title@, text_content@, html_content@, now),
        ));
        proof {
            if tx_wf(old(tx)@) {
                assert forall|j: int| 0 <= j < tx@.deliveries.len() implies has_issue(
                    tx@.issues,
                    (#[trigger] tx@.deliveries[j]).0,
                ) by {
                    let d = old(tx)@.deliveries[j];
                    assert(has_issue(old(tx)@.issues, d.0));
                    let k = choose|k: int|
                        0 <= k < old(tx)@.issues.len() && (#[trigger] old(tx)@.issues[k]).id == d.0;
                    assert(tx@.issues[k] == old(tx)@.issues[k]);
                }
            }
        }
        Ok(())
    }

    /// Abandons `tx`: its fingerprint is released and none of its writes remain.
    pub fn rollback(&mut self, tx: Transaction)
        requires
            store_wf(old(self)@),
        ensures
            final(self)@ == rollback_spec(old(self)@, tx@),
            store_wf(final(self)@),
    {
        match self.find_lock(&tx.fingerprint) {
            Some(i) => {
                let ghost s0 = self@;
                self.locked.remove(i);
                proof {
                    lemma_index_of_distinct(s0.locked, tx@.fingerprint, i as int);
                    assert(self@.locked =~= s0.locked.remove(i as int));
                    assert(self@ == rollback_spec(s0, tx@));
                }
            },
            None => {},
        }
    }

    /// Completes `tx`: the record with `response`, the staged issues and one
    /// queued task per staged delivery become visible together, and the
    /// fingerprint is released. Returns the response to send.
    pub fn save_response(&mut self, tx: Transaction, response: Response, now: u64) -> (r: Result<
        Response,
        CommitError,
    >)
        requires
            store_wf(old(self)@),
            tx_wf(tx@),
        ensures
            final(self)@ == save_response_spec(old(self)@, tx@, response@, now).0,
            r is Ok <==> save_response_spec(old(self)@, tx@, response@, now).1 is Ok,
            r matches Ok(x) ==> save_response_spec(old(self)@, tx@, response@, now).1 == Ok::<
                _,
                CommitError,
            >(x@),
            r matches Err(e) ==> save_response_spec(old(self)@, tx@, response@, now).1 == Err::<
                ResponseView,
                _,
            >(e),
            store_wf(final(self)@),
    {
        let ghost s0 = self@;
        let ghost t0 = tx@;
        let idx = match self.find_lock(&tx.fingerprint) {
            None => {
                return Err(CommitError::AlreadyCompleted);
            },
            Some(i) => i,
        };
        proof {
            lemma_index_of_distinct(s0.locked, t0.fingerprint, idx as int);
        }
        let n = tx.deliveries.len();
        if self.next_task_id > u64::MAX - n as u64 {
            self.rollback(tx);
            return Err(CommitError::Persistence(PersistenceError::TaskIdsExhausted));
        }
        self.locked.remove(idx);
        let Transaction { fingerprint, started_at: _, issues, deliveries } = tx;
        let mut issues = issues;
        self.issues.append(&mut issues);
        assert(self@.locked =~= s0.locked.remove(idx as int));
        assert(self@.issues =~= s0.issues + t0.issues);
        let first = self.next_task_id;
        let ghost tasks0 = self.tasks@;
        let ghost locked1 = self.locked;
        let ghost issues1 = self.issues;
        for i in 0..n
            invariant
                n == deliveries@.len(),
                first == s0.next_task_id,
                first + n <= u64::MAX,
                tasks0.map_values(|t: DeliveryTask| t@) == s0.tasks,
                t0.deliveries == deliveries@.map_values(|d: StagedDelivery| d@),
                self.tasks@.len() == tasks0.len() + i,
                forall|j: int| 0 <= j < tasks0.len() ==> #[trigger] self.tasks@[j] == tasks0[j],
                forall|j: int|
                    0 <= j < i ==> (#[trigger] self.tasks@[tasks0.len() + j])@ == new_tasks(
                        t0.deliveries,
                        first,
                    )[j],
                self.records == old(self).records,
                self.locked == locked1,
                self.issues == issues1,
                self.next_task_id == first,
        {
            let d = &deliveries[i];
            self.tasks.push(
                DeliveryTask {
                    id: first + i as u64,
                    issue_id: d.issue_id,
                    recipient: d.recipient.clone(),
                    attempts: 0,
                    execute_after: 0,
                    failed: false,
                    claimed: false,
                },
            );
            assert(self.tasks@[tasks0.len() + i as int]@ == new_tasks(t0.deliveries, first)[i as int]);
        }
        self.next_task_id = first + n as u64;
        self.records.push(
            IdempotencyRecord { fingerprint, response: response.duplicate(), created_at: now },
        );
        proof {
            let s2 = save_response_spec(s0, t0, response@, now).0;
            assert(self@.tasks =~= s2.tasks) by {
                assert forall|j: int| 0 <= j < s2.tasks.len() implies self@.tasks[j] == s2.tasks[j] by {
                    if j >= s0.tasks.len() {
                        let k = j - tasks0.len();
                        assert(self.tasks@[tasks0.len() + k]@ == new_tasks(t0.deliveries, first)[k]);
                    } else {
                        assert(self.tasks@[j] == tasks0[j]);
                    }
                }
            }
            assert(self@.records =~= s2.records);
            assert(self@.locked =~= s2.locked);
            assert(self@.issues =~= s2.issues);
            assert(self@ == s2);
            lemma_commit_wf(s0, t0, response@, now);
        }
        Ok(response)
    }


    /// Claims the first task that is eligible at `now` and returns it, marked
    /// as held so that no other worker takes it.
    pub fn claim_task(&mut self, now: u64) -> (r: Option<DeliveryTask>)
        requires
            store_wf(old(self)@),
        ensures
            final(self)@ == claim_spec(old(self)@, now).0,
            r matches Some(t) ==> claim_spec(old(self)@, now).1 == Some(t@),
            r is None ==> claim_spec(old(self)@, now).1 is None,
            store_wf(final(self)@),
    {
        let ghost s0 = self@;
        let n = self.tasks.len();
        let mut i: usize = 0;
        while i < n
            invariant
                n == self.tasks@.len(),
                i <= n,
                self@ == s0,
                s0 == old(self)@,
                store_wf(s0),
                forall|j: int| 0 <= j < i ==> !eligible(#[trigger] s0.tasks[j], now),
            decreases n - i,
        {
            let t = &self.tasks[i];
            if !t.failed && !t.claimed && t.execute_after <= now {
                proof {
                    assert(is_first_eligible(s0.tasks, now, i as int));
                    let k = choose|k: int| is_first_eligible(s0.tasks, now, k);
                    assert(k == i) by {
                        if k < i {
                            assert(!eligible(s0.tasks[k], now));
                        } else if k > i {
                            assert(!eligible(s0.tasks[i as int], now));
                        }
                    }
                }
                self.tasks[i].claimed = true;
                proof {
                    let t2 = TaskView { claimed: true, ..s0.tasks[i as int] };
                    assert(self@.tasks =~= s0.tasks.update(i as int, t2));
                    assert(self@ == claim_spec(s0, now).0);
                    lemma_update_task_wf(s0, i as int, t2);
                }
                let r = self.tasks[i].duplicate();
                return Some(r);
            }
            i = i + 1;
        }
        proof {
            assert forall|k: int| !is_first_eligible(s0.tasks, now, k) by {
                if is_first_eligible(s0.tasks, now, k) {
                    assert(!eligible(s0.tasks[k], now));
                }
            }
        }
        None
    }

    /// The position of task `id`, if it is queued.
    fn find_task(&self, id: u64) -> (r: Option<usize>)
        requires
            store_wf(self@),
        ensures
            r matches Some(i) ==> has_task(self@.tasks, id, i as int) && task_index(self@.tasks, id)
                == i,
            r is None ==> !(exists|i: int| has_task(self@.tasks, id, i)),
    {
        let n = self.tasks.len();
        let mut i: usize = 0;
        while i < n
            invariant
                n == self.tasks@.len(),
                i <= n,
                store_wf(self@),
                forall|j: int| 0 <= j < i ==> (#[trigger] self@.tasks[j]).id != id,
            decreases n - i,
        {
            if self.tasks[i].id == id {
                proof {
                    lemma_task_index_unique(self@, id, i as int);
                }
                return Some(i);
            }
            i = i + 1;
        }
        None
    }

    /// Records the outcome of an attempt on the held task `id`: a delivered
    /// task leaves the queue; a permanent failure, or a transient one that
    /// spends the retry budget, marks it failed; another transient failure
    /// puts it back with a doubled delay. Every other task stays as it was.
    pub fn report_outcome(&mut self, id: u64, outcome: DeliveryOutcome, now: u64, policy: &RetryPolicy) -> (r: Option<TaskState>)
        requires
            store_wf(old(self)@),
            policy.wf(),
        ensures
            (final(self)@, r) == report_spec(old(self)@, id, outcome, now, *policy),
            store_wf(final(self)@),
    {
        let ghost s0 = self@;
        let i = match self.find_task(id) {
            None => {
                return None;
            },
            Some(i) => i,
        };
        if !self.tasks[i].claimed {
            return None;
        }
        let attempts = if self.tasks[i].attempts < u32::MAX {
            self.tasks[i].attempts + 1
        } else {
            self.tasks[i].attempts
        };
        match outcome {
            DeliveryOutcome::Delivered => {
                self.tasks.remove(i);
                proof {
                    assert(self@.tasks =~= s0.tasks.remove(i as int));
                    assert(self@ == report_spec(s0, id, outcome, now, *policy).0);
                    lemma_remove_task_wf(s0, i as int);
                }
                Some(TaskState::Delivered)
            },
            _ => {
                let retry = matches!(outcome, DeliveryOutcome::TransientFailure) && attempts
                    < policy.max_attempts;
                self.tasks[i].attempts = attempts;
                self.tasks[i].claimed = false;
                if retry {
                    let delay = backoff_delay(policy, attempts);
                    let after = if now > u64::MAX - delay {
                        u64::MAX
                    } else {
                        now + delay
                    };
                    self.tasks[i].execute_after = after;
                } else {
                    self.tasks[i].failed = true;
                }
                proof {
                    let t2 = after_attempt(*policy, s0.tasks[i as int], outcome, now)->0;
                    assert(self@.tasks[i as int] == t2);
                    assert(self@.tasks =~= s0.tasks.update(i as int, t2));
                    assert(self@ == report_spec(s0, id, outcome, now, *policy).0);
                    lemma_update_task_wf(s0, i as int, t2);
                }
                let st = if retry {
                    TaskState::Retrying(self.tasks[i].execute_after)
                } else {
                    TaskState::Failed
                };
                assert(report_spec(s0, id, outcome, now, *policy).1 == Some(st));
                Some(st)
            },
        }
    }

    pub fn issue_count(&self) -> (r: usize)
        ensures
            r == self@.issues.len(),
    {
        self.issues.len()
    }

    pub fn task_count(&self) -> (r: usize)
        ensures
            r == self@.tasks.len(),
    {
        self.tasks.len()
    }

    pub fn record_count(&self) -> (r: usize)
        ensures
            r == self@.records.len(),
    {
        self.records.len()
    }

    /// The task at position `i` of the queue.
    pub fn task_at(&self, i: usize) -> (r: &DeliveryTask)
        requires
            i < self@.tasks.len(),
        ensures
            r@ == self@.tasks[i as int],
    {
        &self.tasks[i]
    }

    /// The issue at position `i`, in commit order.
    pub fn issue_at(&self, i: usize) -> (r: &Issue)
        requires
            i < self@.issues.len(),
        ensures
            r@ == self@.issues[i as int],
    {
        &self.issues[i]
    }

    /// The queued task numbered `id`, if any.
    pub fn task(&self, id: u64) -> (r: Option<&DeliveryTask>)
        requires
            store_wf(self@),
        ensures
            r matches Some(t) ==> has_task(self@.tasks, id, task_index(self@.tasks, id)) && t@
                == self@.tasks[task_index(self@.tasks, id)],
            r is None ==> !(exists|i: int| has_task(self@.tasks, id, i)),
    {
        match self.find_task(id) {
            Some(i) => Some(&self.tasks[i]),
            None => None,
        }
    }

    /// A committed issue with identifier `id`, if any.
    pub fn issue(&self, id: u128) -> (r: Option<&Issue>)
        ensures
            r matches Some(x) ==> x.id == id && exists|i: int|
                0 <= i < self@.issues.len() && self@.issues[i] == x@,
            r is None ==> forall|i: int| 0 <= i < self@.issues.len() ==> (#[trigger] self@.issues[i]).id != id,
    {
        let n = self.issues.len();
        for i in 0..n
            invariant
                n == self.issues@.len(),
                forall|j: int| 0 <= j < i ==> (#[trigger] self@.issues[j]).id != id,
        {
            if self.issues[i].id == id {
                assert(self@.issues[i as int] == self.issues[i as int]@);
                return Some(&self.issues[i]);
            }
        }
        None
    }

    /// Gives up the hold on task `id` without an outcome, so that another
    /// worker can claim it (a worker that stops before sending).
    pub fn release_task(&mut self, id: u64)
        requires
            store_wf(old(self)@),
        ensures
            store_wf(final(self)@),
            (exists|i: int| has_task(old(self)@.tasks, id, i)) ==> final(self)@ == (StoreView {
                tasks: old(self)@.tasks.update(
                    task_index(old(self)@.tasks, id),
                    TaskView { claimed: false, ..old(self)@.tasks[task_index(old(self)@.tasks, id)] },
                ),
                ..old(self)@
            }),
            !(exists|i: int| has_task(old(self)@.tasks, id, i)) ==> final(self)@ == old(self)@,
    {
        let ghost s0 = self@;
        match self.find_task(id) {
            Some(i) => {
                self.tasks[i].claimed = false;
                proof {
                    let t2 = TaskView { claimed: false, ..s0.tasks[i as int] };
                    assert(self@.tasks =~= s0.tasks.update(i as int, t2));
                    lemma_update_task_wf(s0, i as int, t2);
                }
            },
            None => {},
        }
    }

    /// The index of the first record of `fp`, if any.
    fn find_record(&self, fp: &Fingerprint) -> (r: Option<usize>)
        ensures
            r matches Some(i) ==> is_first_record(self@.records, fp@, i as int),
            r is None ==> saved_response(self@.records, fp@) is None,
            r matches Some(i) ==> saved_response(self@.records, fp@) == Some(self@.records[i as int].response),
    {
        let n = self.records.len();
        let mut i: usize = 0;
        while i < n
            invariant
                n == self.records@.len(),
                i <= n,
                forall|j: int| 0 <= j < i ==> (#[trigger] self@.records[j]).fingerprint != fp@,
            decreases n - i,
        {
            if self.records[i].fingerprint.same_as(fp) {
                assert(is_first_record(self@.records, fp@, i as int));
                let ghost k = choose|k: int| is_first_record(self@.records, fp@, k);
                assert(k == i) by {
                    if k < i {
                        assert(self@.records[k].fingerprint != fp@);
                    } else if k > i {
                        assert(self@.records[i as int].fingerprint != fp@);
                    }
                }
                return Some(i);
            }
            i = i + 1;
        }
        None
    }

    /// The index at which `fp` is held, if it is.
    fn find_lock(&self, fp: &Fingerprint) -> (r: Option<usize>)
        ensures
            r matches Some(i) ==> i < self@.locked.len() && self@.locked[i as int] == fp@,
            r is None <==> !self@.locked.contains(fp@),
    {
        let n = self.locked.len();
        let mut i: usize = 0;
        while i < n
            invariant
                n == self.locked@.len(),
                i <= n,
                forall|j: int| 0 <= j < i ==> #[trigger] self@.locked[j] != fp@,
            decreases n - i,
        {
            if self.locked[i].same_as(fp) {
                assert(self@.locked[i as int] == fp@);
                return Some(i);
            }
            i = i + 1;
        }
        None
    }
}

/// In a sequence without repeats, `index_of` names the one place of `x`.
pub proof fn lemma_index_of_distinct<A>(s: Seq<A>, x: A, i: int)
    requires
        0 <= i < s.len(),
        s[i] == x,
        forall|a: int, b: int| 0 <= a < b < s.len() ==> #[trigger] s[a] != #[trigger] s[b],
    ensures
        s.contains(x),
        s.index_of(x) == i,
{
    let k = s.index_of(x);
    assert(s.contains(x));
    assert(0 <= k < s.len() && s[k] == x);
    if k < i {
        assert(s[k] != s[i]);
    } else if k > i {
        assert(s[i] != s[k]);
    }
}

/// Appending a record of another fingerprint leaves what `fp` has saved as it was.
pub proof fn lemma_saved_response_push(records: Seq<RecordView>, r: RecordView, fp: FingerprintView)
    requires
        r.fingerprint != fp,
    ensures
        saved_response(records.push(r), fp) == saved_response(records, fp),
{
    let r2 = records.push(r);
    if exists|i: int| is_first_record(records, fp, i) {
        let i = choose|i: int| is_first_record(records, fp, i);
        assert(is_first_record(r2, fp, i));
        let k = choose|k: int| is_first_record(r2, fp, k);
        assert(k == i) by {
            if k < i {
                assert(records[k].fingerprint != fp);
            } else if k > i {
                assert(r2[i].fingerprint != fp);
            }
        }
    } else {
        assert forall|k: int| !is_first_record(r2, fp, k) by {
            if is_first_record(r2, fp, k) {
                assert(k != records.len());
                assert forall|j: int| 0 <= j < k implies (#[trigger] records[j]).fingerprint != fp by {
                    assert(r2[j] == records[j]);
                }
                assert(is_first_record(records, fp, k));
            }
        }
    }
}

/// A successful commit keeps the store well formed.
proof fn lemma_commit_wf(s: StoreView, tx: TransactionView, response: ResponseView, now: u64)
    requires
        store_wf(s),
        tx_wf(tx),
        is_locked(s, tx.fingerprint),
        commit_fits(s, tx),
    ensures
        store_wf(save_response_spec(s, tx, response, now).0),
{
    let s2 = save_response_spec(s, tx, response, now).0;
    assert forall|a: int| 0 <= a < s2.tasks.len() implies has_issue(
        s2.issues,
        (#[trigger] s2.tasks[a]).issue_id,
    ) by {
        if a < s.tasks.len() {
            assert(s2.tasks[a] == s.tasks[a]);
            assert(has_issue(s.issues, s.tasks[a].issue_id));
            let k = choose|k: int| 0 <= k < s.issues.len() && (#[trigger] s.issues[k]).id == s.tasks[a].issue_id;
            assert(s2.issues[k] == s.issues[k]);
        } else {
            let b = a - s.tasks.len();
            assert(s2.tasks[a] == new_tasks(tx.deliveries, s.next_task_id)[b]);
            assert(has_issue(tx.issues, tx.deliveries[b].0));
            let k = choose|k: int| 0 <= k < tx.issues.len() && (#[trigger] tx.issues[k]).id == tx.deliveries[b].0;
            assert(s2.issues[s.issues.len() + k] == tx.issues[k]);
        }
    }
    let fp = tx.fingerprint;
    let i = s.locked.index_of(fp);
    lemma_index_of_distinct(s.locked, fp, i);
    assert(s2.locked =~= s.locked.remove(i));
    assert forall|a: int, b: int| 0 <= a < b < s2.locked.len() implies #[trigger] s2.locked[a]
        != #[trigger] s2.locked[b] by {
        let a1 = if a < i { a } else { a + 1 };
        let b1 = if b < i { b } else { b + 1 };
        assert(s2.locked[a] == s.locked[a1]);
        assert(s2.locked[b] == s.locked[b1]);
    }
    assert forall|a: int| 0 <= a < s2.locked.len() implies saved_response(
        s2.records,
        #[trigger] s2.locked[a],
    ) is None by {
        let a1 = if a < i { a } else { a + 1 };
        assert(s2.locked[a] == s.locked[a1]);
        assert(s.locked[a1] != fp);
        let r = RecordView { fingerprint: fp, response, created_at: now };
        lemma_saved_response_push(s.records, r, s2.locked[a]);
    }
}

} // verus!
