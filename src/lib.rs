//! Exactly-once-perceived newsletter publishing: an idempotency layer that
//! deduplicates retried submissions, a transactional outbox that queues one
//! delivery task per recipient, and the retry policy of the delivery worker.

pub mod http;
pub mod idempotency;
pub mod admin;
pub mod authentication;
pub mod delivery;
pub mod domain;
pub mod exit;
pub mod startup;
pub mod store;
pub mod subscriptions;
pub mod publish;
pub mod laws;
pub mod login;
pub mod newsletter;
