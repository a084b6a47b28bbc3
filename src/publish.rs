use vstd::prelude::*;

use crate::http::{Response, ResponseView, ok_text, ok_text_spec};
use crate::idempotency::{IdempotencyKey, KeyError, key_error};
use crate::store::{
    CommitError, Fingerprint, NextAction, PersistenceError, Store, StoreView, AdmissionView,
    enqueue_spec, issue_id_taken, rollback_spec, save_response_spec, staged_issue, store_wf,
    try_processing_spec, TransactionView,
};

verus! {

/// What a publish request produced.
pub enum PublishOutcome {
    /// The issue and its delivery tasks were committed; the response was saved.
    Published(Response),
    /// The fingerprint had a completed record: its saved response, unchanged.
    Replayed(Response),
    /// Another request holds the fingerprint: try again once it has finished.
    Busy,
}

pub enum PublishOutcomeView {
    Published(ResponseView),
    Replayed(ResponseView),
    Busy,
}

impl View for PublishOutcome {
    type V = PublishOutcomeView;

    open spec fn view(&self) -> PublishOutcomeView {
        match self {
            PublishOutcome::Published(r) => PublishOutcomeView::Published(r@),
            PublishOutcome::Replayed(r) => PublishOutcomeView::Replayed(r@),
            PublishOutcome::Busy => PublishOutcomeView::Busy,
        }
    }
}

/// Why a publish request failed. Nothing it wrote remains.
#[derive(Debug, Clone, Copy, PartialEq, Eq, Structural)]
pub enum PublishFailure {
    InvalidKey(KeyError),
    Persistence(PersistenceError),
    AlreadyCompleted,
}

pub open spec fn string_views(v: Seq<String>) -> Seq<Seq<char>> {
    v.map_values(|x: String| x@)
}

/// What the client is told once the issue and its deliveries are queued.
pub open spec fn publish_accepted_message() -> Seq<char> {
    "The newsletter issue has been accepted - emails will go out shortly."@
}

pub open spec fn commit_failure(e: CommitError) -> PublishFailure {
    match e {
        CommitError::AlreadyCompleted => PublishFailure::AlreadyCompleted,
        CommitError::Persistence(p) => PublishFailure::Persistence(p),
    }
}

/// Publishing inside an admitted transaction `tx`: stage the issue and one
/// delivery per recipient, then commit them with the `200 OK` acceptance response.
pub open spec fn publish_in_spec(
    s: StoreView,
    tx: TransactionView,
    title: Seq<char>,
    text: Seq<char>,
    html: Seq<char>,
    recipients: Seq<Seq<char>>,
    issue_id: u128,
    now: u64,
) -> (StoreView, Result<PublishOutcomeView, PublishFailure>) {
    if issue_id_taken(s, tx, issue_id) {
        (rollback_spec(s, tx), Err(PublishFailure::Persistence(PersistenceError::DuplicateIssueId)))
    } else {
        let tx2 = enqueue_spec(
            TransactionView {
                issues: tx.issues.push(staged_issue(issue_id, title, text, html, now)),
                ..tx
            },
            issue_id,
            recipients,
        );
        let (s3, c) = save_response_spec(s, tx2, ok_text_spec(publish_accepted_message()), now);
        match c {
            Ok(r) => (s3, Ok(PublishOutcomeView::Published(r))),
            Err(e) => (s3, Err(commit_failure(e))),
        }
    }
}

/// The whole publish request of `user_id` with idempotency key `key`.
pub open spec fn publish_spec(
    s: StoreView,
    user_id: u128,
    key: Seq<char>,
    title: Seq<char>,
    text: Seq<char>,
    html: Seq<char>,
    recipients: Seq<Seq<char>>,
    issue_id: u128,
    now: u64,
) -> (StoreView, Result<PublishOutcomeView, PublishFailure>) {
    match key_error(key) {
        Some(e) => (s, Err(PublishFailure::InvalidKey(e))),
        None => {
            let (s1, a) = try_processing_spec(s, (user_id, key), now);
            match a {
                AdmissionView::Wait => (s1, Ok(PublishOutcomeView::Busy)),
                AdmissionView::Replay(r) => (s1, Ok(PublishOutcomeView::Replayed(r))),
                AdmissionView::Start(tx) => publish_in_spec(
                    s1,
                    tx,
                    title,
                    text,
                    html,
                    recipients,
                    issue_id,
                    now,
                ),
            }
        },
    }
}

pub open spec fn publish_result_matches(
    r: Result<PublishOutcome, PublishFailure>,
    v: Result<PublishOutcomeView, PublishFailure>,
) -> bool {
    match r {
        Ok(o) => v == Ok::<_, PublishFailure>(o@),
        Err(e) => v == Err::<PublishOutcomeView, _>(e),
    }
}

/// Relies on uuid's `Uuid::new_v4`: a random identifier. Nothing is promised
/// of its value.
#[verifier::external_body]
fn new_issue_id() -> (r: u128) {
    uuid::Uuid::new_v4().as_u128()
}

impl Store {
    /// `publish_newsletter_with_id` under a fresh random issue identifier.
    pub fn publish_newsletter(
        &mut self,
        user_id: u128,
        key: String,
        title: &str,
        text_content: &str,
        html_content: &str,
        recipients: &Vec<String>,
        now: u64,
    ) -> (r: Result<PublishOutcome, PublishFailure>)
        requires
            store_wf(old(self)@),
        ensures
            store_wf(final(self)@),
            exists|issue_id: u128|
                {
                    let (s2, v) = #[trigger] publish_spec(
                        old(self)@,
                        user_id,
                        key@,
                        title@,
                        text_content@,
                        html_content@,
                        string_views(recipients@),
                        issue_id,
                        now,
                    );
                    final(self)@ == s2 && publish_result_matches(r, v)
                },
    {
        let issue_id = new_issue_id();
        self.publish_newsletter_with_id(
            user_id,
            key,
            title,
            text_content,
            html_content,
            recipients,
            issue_id,
            now,
        )
    }

    /// Publishes an issue exactly once per (user, key): validates the key,
    /// admits the request, and commits the issue, its delivery tasks and the
    /// response in one unit. A repeated request gets the saved response back.
    pub fn publish_newsletter_with_id(
        &mut self,
        user_id: u128,
        key: String,
        title: &str,
        text_content: &str,
        html_content: &str,
        recipients: &Vec<String>,
        issue_id: u128,
        now: u64,
    ) -> (r: Result<PublishOutcome, PublishFailure>)
        requires
            store_wf(old(self)@),
        ensures
            store_wf(final(self)@),
            final(self)@ == publish_spec(
                old(self)@,
                user_id,
                key@,
                title@,
                text_content@,
                html_content@,
                string_views(recipients@),
                issue_id,
                now,
            ).0,
            publish_result_matches(
                r,
                publish_spec(
                    old(self)@,
                    user_id,
                    key@,
                    title@,
                    text_content@,
                    html_content@,
                    string_views(recipients@),
                    issue_id,
                    now,
                ).1,
            ),
    {
        let ghost k = key@;
        let key = match IdempotencyKey::parse(key) {
            Ok(k) => k,
            Err(e) => {
                return Err(PublishFailure::InvalidKey(e));
            },
        };
        let fp = Fingerprint { user_id, key };
        let mut tx = match self.try_processing(fp, now) {
            NextAction::StartProcessing(t) => t,
            NextAction::ReturnSavedResponse(saved) => {
                return Ok(PublishOutcome::Replayed(saved));
            },
            NextAction::Wait => {
                return Ok(PublishOutcome::Busy);
            },
        };
        match self.insert_newsletter_issue(&mut tx, issue_id, title, text_content, html_content, now) {
            Ok(()) => {},
            Err(e) => {
                self.rollback(tx);
                return Err(PublishFailure::Persistence(e));
            },
        }
        proof {
            let last = tx@.issues.len() - 1;
            assert(tx@.issues[last].id == issue_id);
        }
        tx.enqueue_delivery_tasks(issue_id, recipients);
        let resp = ok_text("The newsletter issue has been accepted - emails will go out shortly.");
        match self.save_response(tx, resp, now) {
            Ok(saved) => Ok(PublishOutcome::Published(saved)),
            Err(CommitError::AlreadyCompleted) => Err(PublishFailure::AlreadyCompleted),
            Err(CommitError::Persistence(p)) => Err(PublishFailure::Persistence(p)),
        }
    }
}

} // verus!
