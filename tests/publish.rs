use zero2prod::publish::{PublishFailure, PublishOutcome};
use zero2prod::store::{CommitError, Fingerprint, NextAction, PersistenceError, Store};
use zero2prod::idempotency::{IdempotencyKey, KeyError};

fn recipients(names: &[&str]) -> Vec<String> {
    names.iter().map(|s| s.to_string()).collect()
}

fn fingerprint(user: u128, key: &str) -> Fingerprint {
    Fingerprint { user_id: user, key: IdempotencyKey::parse(key.to_string()).unwrap() }
}

fn published(r: Result<PublishOutcome, PublishFailure>) -> zero2prod::http::Response {
    match r {
        Ok(PublishOutcome::Published(resp)) => resp,
        _ => panic!("expected a fresh publication"),
    }
}

#[test]
fn first_publish_creates_issue_and_one_task_per_recipient() {
    let mut store = Store::new();
    let r = store.publish_newsletter_with_id(
        7, "key-1".to_string(), "T", "txt", "html", &recipients(&["a", "b", "c"]), 99, 1000,
    );
    let resp = published(r);
    assert!(resp.status >= 200 && resp.status < 300);
    assert_eq!(resp.status, 200);
    assert_eq!(resp.headers.len(), 1);
    assert_eq!(resp.headers[0].name, "content-type");
    assert_eq!(resp.headers[0].value, "text/plain; charset=utf-8");
    assert_eq!(
        resp.body,
        b"The newsletter issue has been accepted - emails will go out shortly.".to_vec()
    );
    assert_eq!(store.issue_count(), 1);
    let issue = store.issue(99).unwrap();
    assert_eq!(issue.title, "T");
    assert_eq!(issue.text_content, "txt");
    assert_eq!(issue.html_content, "html");
    assert_eq!(issue.published_at, 1000);
    assert_eq!(store.task_count(), 3);
    let got: Vec<&str> = (0..3).map(|i| store.task_at(i).recipient.as_str()).collect();
    assert_eq!(got, vec!["a", "b", "c"]);
    for i in 0..3 {
        let t = store.task_at(i);
        assert_eq!(t.issue_id, 99);
        assert_eq!(t.attempts, 0);
        assert!(!t.failed && !t.claimed);
    }
    assert_eq!(store.record_count(), 1);
}

#[test]
fn repeated_publish_replays_the_saved_response_and_writes_nothing() {
    let mut store = Store::new();
    let first = published(store.publish_newsletter_with_id(
        7, "key-1".to_string(), "T", "txt", "html", &recipients(&["a", "b", "c"]), 99, 1000,
    ));
    let second = store.publish_newsletter_with_id(
        7, "key-1".to_string(), "T", "txt", "html", &recipients(&["a", "b", "c"]), 100, 2000,
    );
    match second {
        Ok(PublishOutcome::Replayed(resp)) => {
            assert_eq!(resp.status, first.status);
            assert_eq!(resp.headers.len(), first.headers.len());
            for (a, b) in resp.headers.iter().zip(first.headers.iter()) {
                assert_eq!(a.name, b.name);
                assert_eq!(a.value, b.value);
            }
            assert_eq!(resp.body, first.body);
        }
        _ => panic!("expected a replay"),
    }
    assert_eq!(store.issue_count(), 1);
    assert_eq!(store.task_count(), 3);
    assert!(store.issue(100).is_none());
}

#[test]
fn the_same_key_from_another_user_publishes_again() {
    let mut store = Store::new();
    published(store.publish_newsletter_with_id(
        1, "k".to_string(), "T", "t", "h", &recipients(&["a"]), 1, 0,
    ));
    published(store.publish_newsletter_with_id(
        2, "k".to_string(), "T", "t", "h", &recipients(&["a"]), 2, 0,
    ));
    assert_eq!(store.issue_count(), 2);
    assert_eq!(store.task_count(), 2);
}

#[test]
fn invalid_key_fails_before_any_write() {
    let mut store = Store::new();
    let r = store.publish_newsletter_with_id(
        1, String::new(), "T", "t", "h", &recipients(&["a"]), 1, 0,
    );
    assert!(matches!(r, Err(PublishFailure::InvalidKey(KeyError::Empty))));
    assert_eq!(store.issue_count(), 0);
    assert_eq!(store.task_count(), 0);
    assert_eq!(store.record_count(), 0);
}

#[test]
fn concurrent_request_waits_while_the_first_is_in_flight() {
    let mut store = Store::new();
    let mut tx = match store.try_processing(fingerprint(5, "dup"), 10) {
        NextAction::StartProcessing(tx) => tx,
        _ => panic!("first request must be admitted"),
    };
    for _ in 0..3 {
        let r = store.publish_newsletter_with_id(
            5, "dup".to_string(), "T", "t", "h", &recipients(&["x"]), 2, 11,
        );
        assert!(matches!(r, Ok(PublishOutcome::Busy)));
    }
    store.insert_newsletter_issue(&mut tx, 1, "T", "t", "h", 10).unwrap();
    tx.enqueue_delivery_tasks(1, &recipients(&["x", "y"]));
    let saved = store.save_response(tx, zero2prod::http::see_other("/done"), 12).unwrap();
    for _ in 0..3 {
        match store.try_processing(fingerprint(5, "dup"), 13) {
            NextAction::ReturnSavedResponse(r) => {
                assert_eq!(r.status, saved.status);
                assert_eq!(r.headers[0].value, "/done");
            }
            _ => panic!("waiters must see the saved response"),
        }
    }
    assert_eq!(store.issue_count(), 1);
    assert_eq!(store.task_count(), 2);
}

#[test]
fn rollback_leaves_no_issue_task_or_record() {
    let mut store = Store::new();
    let mut tx = match store.try_processing(fingerprint(5, "crash"), 10) {
        NextAction::StartProcessing(tx) => tx,
        _ => panic!("must be admitted"),
    };
    store.insert_newsletter_issue(&mut tx, 1, "T", "t", "h", 10).unwrap();
    tx.enqueue_delivery_tasks(1, &recipients(&["a", "b"]));
    store.rollback(tx);
    assert_eq!(store.issue_count(), 0);
    assert_eq!(store.task_count(), 0);
    assert_eq!(store.record_count(), 0);
    // the key may be used again after the rollback
    published(store.publish_newsletter_with_id(
        5, "crash".to_string(), "T", "t", "h", &recipients(&["a"]), 2, 20,
    ));
    assert_eq!(store.issue_count(), 1);
}

#[test]
fn completing_twice_is_refused() {
    let mut store = Store::new();
    let tx = match store.try_processing(fingerprint(5, "twice"), 10) {
        NextAction::StartProcessing(tx) => tx,
        _ => panic!("must be admitted"),
    };
    let tx2 = match store.try_processing(fingerprint(6, "other"), 10) {
        NextAction::StartProcessing(tx) => tx,
        _ => panic!("must be admitted"),
    };
    store.save_response(tx, zero2prod::http::see_other("/a"), 11).unwrap();
    store.rollback(tx2);
    let again = match store.try_processing(fingerprint(6, "other"), 12) {
        NextAction::StartProcessing(tx) => tx,
        _ => panic!("must be admitted again after rollback"),
    };
    store.save_response(again, zero2prod::http::see_other("/b"), 13).unwrap();
    // a transaction for an already completed fingerprint cannot complete
    let mut other = Store::new();
    let stale = match other.try_processing(fingerprint(5, "twice"), 10) {
        NextAction::StartProcessing(tx) => tx,
        _ => panic!("must be admitted"),
    };
    let r = store.save_response(stale, zero2prod::http::see_other("/c"), 14);
    assert!(matches!(r, Err(CommitError::AlreadyCompleted)));
    assert_eq!(store.record_count(), 2);
}

#[test]
fn duplicate_issue_id_rolls_the_publish_back() {
    let mut store = Store::new();
    published(store.publish_newsletter_with_id(
        1, "a".to_string(), "T", "t", "h", &recipients(&["a"]), 42, 0,
    ));
    let r = store.publish_newsletter_with_id(
        1, "b".to_string(), "T", "t", "h", &recipients(&["a", "b"]), 42, 0,
    );
    assert!(matches!(r, Err(PublishFailure::Persistence(PersistenceError::DuplicateIssueId))));
    assert_eq!(store.issue_count(), 1);
    assert_eq!(store.task_count(), 1);
    assert_eq!(store.record_count(), 1);
    // nothing was saved for the failed key, so it can be retried
    published(store.publish_newsletter_with_id(
        1, "b".to_string(), "T", "t", "h", &recipients(&["a", "b"]), 43, 0,
    ));
    assert_eq!(store.task_count(), 3);
}

#[test]
fn publish_with_random_issue_id_creates_one_issue() {
    let mut store = Store::new();
    published(store.publish_newsletter(
        3, "rand".to_string(), "T", "t", "h", &recipients(&["a", "b"]), 5,
    ));
    assert_eq!(store.issue_count(), 1);
    let id = store.issue_at(0).id;
    assert_eq!(store.task_at(0).issue_id, id);
    assert_eq!(store.task_at(1).issue_id, id);
}

#[test]
fn publish_with_no_recipients_creates_no_tasks() {
    let mut store = Store::new();
    published(store.publish_newsletter_with_id(
        3, "none".to_string(), "T", "t", "h", &Vec::new(), 8, 5,
    ));
    assert_eq!(store.issue_count(), 1);
    assert_eq!(store.task_count(), 0);
}
