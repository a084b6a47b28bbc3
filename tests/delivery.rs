use zero2prod::delivery::{
    backoff_delay, classify_status, classify_transport, DeliveryOutcome, RetryPolicy, TaskState,
    TransportError,
};
use zero2prod::publish::PublishOutcome;
use zero2prod::store::Store;

fn store_with(recipients: &[&str]) -> Store {
    let mut store = Store::new();
    let list: Vec<String> = recipients.iter().map(|s| s.to_string()).collect();
    let r = store.publish_newsletter_with_id(1, "k".to_string(), "T", "txt", "html", &list, 1, 0);
    assert!(matches!(r, Ok(PublishOutcome::Published(_))));
    store
}

#[test]
fn policy_bounds_are_enforced() {
    assert!(RetryPolicy::new(0, 10).is_none());
    assert!(RetryPolicy::new(17, 10).is_none());
    assert!(RetryPolicy::new(3, 0).is_none());
    assert!(RetryPolicy::new(3, 1_099_511_627_777).is_none());
    let p = RetryPolicy::new(16, 1_099_511_627_776).unwrap();
    assert_eq!(p.max_attempts, 16);
}

#[test]
fn backoff_doubles_after_each_failure() {
    let p = RetryPolicy::new(5, 100).unwrap();
    assert_eq!(backoff_delay(&p, 1), 100);
    assert_eq!(backoff_delay(&p, 2), 200);
    assert_eq!(backoff_delay(&p, 3), 400);
    assert_eq!(backoff_delay(&p, 4), 800);
    let big = RetryPolicy::new(16, 1_099_511_627_776).unwrap();
    assert_eq!(backoff_delay(&big, 15), 1_099_511_627_776u64 << 14);
}

#[test]
fn status_codes_are_classified() {
    assert_eq!(classify_status(200), DeliveryOutcome::Delivered);
    assert_eq!(classify_status(204), DeliveryOutcome::Delivered);
    assert_eq!(classify_status(500), DeliveryOutcome::TransientFailure);
    assert_eq!(classify_status(503), DeliveryOutcome::TransientFailure);
    assert_eq!(classify_status(429), DeliveryOutcome::TransientFailure);
    assert_eq!(classify_status(408), DeliveryOutcome::TransientFailure);
    assert_eq!(classify_status(400), DeliveryOutcome::PermanentFailure);
    assert_eq!(classify_status(404), DeliveryOutcome::PermanentFailure);
    assert_eq!(classify_status(302), DeliveryOutcome::PermanentFailure);
}

#[test]
fn claim_hands_out_each_task_once() {
    let mut store = store_with(&["a", "b"]);
    let first = store.claim_task(0).unwrap();
    let second = store.claim_task(0).unwrap();
    assert_ne!(first.id, second.id);
    assert!(first.claimed && second.claimed);
    assert!(store.claim_task(0).is_none());
}

#[test]
fn empty_queue_yields_nothing() {
    let mut store = Store::new();
    assert!(store.claim_task(0).is_none());
}

#[test]
fn released_task_can_be_claimed_again() {
    let mut store = store_with(&["a"]);
    let t = store.claim_task(0).unwrap();
    store.release_task(t.id);
    let again = store.claim_task(0).unwrap();
    assert_eq!(again.id, t.id);
}

#[test]
fn failing_task_does_not_block_a_succeeding_one() {
    let p = RetryPolicy::new(3, 10).unwrap();
    let mut store = store_with(&["a", "b"]);
    let mut now = 0u64;
    let mut attempts_a = 0;
    let mut delivered_b = false;
    for _ in 0..20 {
        match store.claim_task(now) {
            Some(t) if t.recipient == "a" => {
                attempts_a += 1;
                store.report_outcome(t.id, DeliveryOutcome::TransientFailure, now, &p);
            }
            Some(t) => {
                assert_eq!(
                    store.report_outcome(t.id, DeliveryOutcome::Delivered, now, &p),
                    Some(TaskState::Delivered)
                );
                delivered_b = true;
            }
            None => now += 10,
        }
    }
    assert!(delivered_b);
    assert_eq!(attempts_a, 3);
    assert_eq!(store.task_count(), 1);
    let a = store.task_at(0);
    assert_eq!(a.recipient, "a");
    assert!(a.failed);
    assert_eq!(a.attempts, 3);
    assert!(store.claim_task(u64::MAX).is_none());
}

#[test]
fn transient_failures_exhaust_the_budget_with_growing_delays() {
    let p = RetryPolicy::new(4, 100).unwrap();
    let mut store = store_with(&["a"]);
    let mut now = 1000u64;
    let mut delays = Vec::new();
    let mut attempts = 0;
    loop {
        let t = match store.claim_task(now) {
            Some(t) => t,
            None => break,
        };
        attempts += 1;
        match store.report_outcome(t.id, DeliveryOutcome::TransientFailure, now, &p).unwrap() {
            TaskState::Retrying(after) => {
                delays.push(after - now);
                now = after;
            }
            TaskState::Failed => break,
            TaskState::Delivered => panic!("never delivered"),
        }
    }
    assert_eq!(attempts, 4);
    assert_eq!(delays, vec![100, 200, 400]);
    assert!(store.task_at(0).failed);
    assert!(store.claim_task(u64::MAX).is_none());
}

#[test]
fn task_is_not_claimable_before_its_backoff_expires() {
    let p = RetryPolicy::new(3, 50).unwrap();
    let mut store = store_with(&["a"]);
    let t = store.claim_task(100).unwrap();
    assert_eq!(
        store.report_outcome(t.id, DeliveryOutcome::TransientFailure, 100, &p),
        Some(TaskState::Retrying(150))
    );
    assert!(store.claim_task(149).is_none());
    assert!(store.claim_task(150).is_some());
}

#[test]
fn fails_twice_then_succeeds_on_the_third_attempt() {
    let p = RetryPolicy::new(5, 1).unwrap();
    let mut store = store_with(&["a"]);
    let mut now = 0u64;
    let mut attempts = 0;
    while let Some(t) = store.claim_task(now) {
        attempts += 1;
        let outcome = if attempts <= 2 {
            DeliveryOutcome::TransientFailure
        } else {
            DeliveryOutcome::Delivered
        };
        match store.report_outcome(t.id, outcome, now, &p).unwrap() {
            TaskState::Retrying(after) => now = after,
            _ => {}
        }
    }
    assert_eq!(attempts, 3);
    assert_eq!(store.task_count(), 0);
}

#[test]
fn permanent_failure_is_not_retried() {
    let p = RetryPolicy::new(5, 1).unwrap();
    let mut store = store_with(&["not-an-address"]);
    let t = store.claim_task(0).unwrap();
    assert_eq!(
        store.report_outcome(t.id, DeliveryOutcome::PermanentFailure, 0, &p),
        Some(TaskState::Failed)
    );
    assert_eq!(store.task_count(), 1);
    assert!(store.task_at(0).failed);
    assert_eq!(store.task_at(0).attempts, 1);
    assert!(store.claim_task(u64::MAX).is_none());
}

#[test]
fn reporting_an_unclaimed_or_unknown_task_changes_nothing() {
    let p = RetryPolicy::new(5, 1).unwrap();
    let mut store = store_with(&["a"]);
    let id = store.task_at(0).id;
    assert_eq!(store.report_outcome(id, DeliveryOutcome::Delivered, 0, &p), None);
    assert_eq!(store.report_outcome(id + 100, DeliveryOutcome::Delivered, 0, &p), None);
    assert_eq!(store.task_count(), 1);
    assert!(store.task(id).is_some());
    assert!(store.task(id + 100).is_none());
}

#[test]
fn retry_time_saturates_at_the_end_of_time() {
    let p = RetryPolicy::new(3, 10).unwrap();
    let mut store = store_with(&["a"]);
    let t = store.claim_task(u64::MAX - 5).unwrap();
    assert_eq!(
        store.report_outcome(t.id, DeliveryOutcome::TransientFailure, u64::MAX - 5, &p),
        Some(TaskState::Retrying(u64::MAX))
    );
}

#[test]
fn transport_errors_are_classified() {
    assert_eq!(classify_transport(Ok(200)), DeliveryOutcome::Delivered);
    assert_eq!(classify_transport(Ok(502)), DeliveryOutcome::TransientFailure);
    assert_eq!(classify_transport(Ok(422)), DeliveryOutcome::PermanentFailure);
    assert_eq!(
        classify_transport(Err(TransportError::Timeout)),
        DeliveryOutcome::TransientFailure
    );
    assert_eq!(
        classify_transport(Err(TransportError::Connection)),
        DeliveryOutcome::TransientFailure
    );
    assert_eq!(
        classify_transport(Err(TransportError::InvalidRequest)),
        DeliveryOutcome::PermanentFailure
    );
}
