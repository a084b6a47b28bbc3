use vstd::prelude::*;

verus! {

/// The largest retry budget a policy may have: a small fixed cap.
pub const MAX_ATTEMPTS_LIMIT: u32 = 16;

/// The largest first delay a policy may have (2^40 time units).
pub const MAX_BASE_DELAY: u64 = 1_099_511_627_776;

/// How often a failing delivery is tried, and how long to wait in between.
#[derive(Debug, Clone, Copy)]
pub struct RetryPolicy {
    /// Attempts a task gets in all before it is marked failed.
    pub max_attempts: u32,
    /// Delay after the first failed attempt; each later delay doubles it.
    pub base_delay: u64,
}

impl RetryPolicy {
    pub open spec fn wf(&self) -> bool {
        &&& 1 <= self.max_attempts <= MAX_ATTEMPTS_LIMIT
        &&& 1 <= self.base_delay <= MAX_BASE_DELAY
    }

    /// A policy with `max_attempts` attempts and a first delay of `base_delay`,
    /// if both lie in the accepted ranges.
    pub fn new(max_attempts: u32, base_delay: u64) -> (r: Option<RetryPolicy>)
        ensures
            r is Some <==> (1 <= max_attempts <= MAX_ATTEMPTS_LIMIT && 1 <= base_delay
                <= MAX_BASE_DELAY),
            r matches Some(p) ==> p.wf() && p.max_attempts == max_attempts && p.base_delay
                == base_delay,
    {
        if 1 <= max_attempts && max_attempts <= MAX_ATTEMPTS_LIMIT && 1 <= base_delay && base_delay
            <= MAX_BASE_DELAY {
            Some(RetryPolicy { max_attempts, base_delay })
        } else {
            None
        }
    }
}

/// The delay after the `k + 1`-th failed attempt: `base * 2^k`.
pub open spec fn backoff(base: nat, k: nat) -> nat
    decreases k,
{
    if k == 0 {
        base
    } else {
        2 * backoff(base, (k - 1) as nat)
    }
}

/// Each delay is twice the one before, so delays strictly increase.
pub proof fn lemma_backoff_increasing(base: nat, k: nat)
    requires
        base > 0,
    ensures
        0 < backoff(base, k) < backoff(base, k + 1),
    decreases k,
{
    if k > 0 {
        lemma_backoff_increasing(base, (k - 1) as nat);
    }
}

proof fn lemma_backoff_monotonic(b1: nat, b2: nat, k1: nat, k2: nat)
    requires
        b1 <= b2,
        k1 <= k2,
    ensures
        backoff(b1, k1) <= backoff(b2, k2),
    decreases k2,
{
    if k2 > k1 {
        lemma_backoff_monotonic(b1, b2, k1, (k2 - 1) as nat);
    } else if k1 > 0 {
        lemma_backoff_monotonic(b1, b2, (k1 - 1) as nat, (k2 - 1) as nat);
    }
}

/// The delay before the next attempt of a task that has failed `attempts`
/// times.
pub fn backoff_delay(p: &RetryPolicy, attempts: u32) -> (d: u64)
    requires
        p.wf(),
        1 <= attempts < MAX_ATTEMPTS_LIMIT,
    ensures
        d == backoff(p.base_delay as nat, (attempts - 1) as nat),
{
    proof {
        lemma_backoff_monotonic(p.base_delay as nat, MAX_BASE_DELAY as nat, 0, 14);
        reveal_with_fuel(backoff, 15);
        assert(backoff(MAX_BASE_DELAY as nat, 14) == 18014398509481984);
    }
    let mut d: u64 = p.base_delay;
    let mut k: u32 = 1;
    while k < attempts
        invariant
            p.wf(),
            1 <= k <= attempts < MAX_ATTEMPTS_LIMIT,
            d == backoff(p.base_delay as nat, (k - 1) as nat),
            backoff(MAX_BASE_DELAY as nat, 14) == 18014398509481984,
        decreases attempts - k,
    {
        proof {
            lemma_backoff_monotonic(
                p.base_delay as nat,
                MAX_BASE_DELAY as nat,
                (k - 1) as nat,
                14,
            );
        }
        d = d * 2;
        k = k + 1;
    }
    d
}

/// What a delivery attempt came to, as the transport reported it.
#[derive(Debug, Clone, Copy, PartialEq, Eq, Structural)]
pub enum DeliveryOutcome {
    Delivered,
    /// Timeout, connection error or server-side failure: worth retrying.
    TransientFailure,
    /// Retrying cannot help (for example a malformed recipient address).
    PermanentFailure,
}

pub open spec fn classify_status_spec(status: u16) -> DeliveryOutcome {
    if 200 <= status < 300 {
        DeliveryOutcome::Delivered
    } else if status == 408 || status == 429 || 500 <= status < 600 {
        DeliveryOutcome::TransientFailure
    } else {
        DeliveryOutcome::PermanentFailure
    }
}

/// Sorts a transport's HTTP status into a delivery outcome: 2xx is delivered;
/// 408, 429 and 5xx are transient; anything else is permanent.
pub fn classify_status(status: u16) -> (r: DeliveryOutcome)
    ensures
        r == classify_status_spec(status),
        200 <= status < 300 ==> r == DeliveryOutcome::Delivered,
        (status == 408 || status == 429 || 500 <= status < 600) ==> r
            == DeliveryOutcome::TransientFailure,
        !(200 <= status < 300 || status == 408 || status == 429 || 500 <= status < 600) ==> r
            == DeliveryOutcome::PermanentFailure,
{
    if 200 <= status && status < 300 {
        DeliveryOutcome::Delivered
    } else if status == 408 || status == 429 || (500 <= status && status < 600) {
        DeliveryOutcome::TransientFailure
    } else {
        DeliveryOutcome::PermanentFailure
    }
}

/// Why the transport produced no HTTP status at all.
#[derive(Debug, Clone, Copy, PartialEq, Eq, Structural)]
pub enum TransportError {
    /// No answer in time.
    Timeout,
    /// The service could not be reached, or the connection broke.
    Connection,
    /// The request could not be built, for example from a malformed address.
    InvalidRequest,
}

/// The outcome of one send: a status is sorted by `classify_status`; a
/// timeout or connection error is transient; a request that cannot be built
/// will never succeed.
pub fn classify_transport(result: Result<u16, TransportError>) -> (r: DeliveryOutcome)
    ensures
        result matches Ok(status) ==> r == classify_status_spec(status),
        result matches Err(e) ==> (r == DeliveryOutcome::PermanentFailure <==> e
            == TransportError::InvalidRequest),
        result matches Err(e) ==> (r == DeliveryOutcome::TransientFailure <==> e
            != TransportError::InvalidRequest),
{
    match result {
        Ok(status) => classify_status(status),
        Err(TransportError::InvalidRequest) => DeliveryOutcome::PermanentFailure,
        Err(_) => DeliveryOutcome::TransientFailure,
    }
}

/// Where a task stands after a reported attempt.
#[derive(Debug, Clone, Copy, PartialEq, Eq, Structural)]
pub enum TaskState {
    /// Delivered: the task is gone from the queue.
    Delivered,
    /// Waiting to be claimed again, not before the given time.
    Retrying(u64),
    /// Terminal: kept in the queue, never claimed again.
    Failed,
}

pub open spec fn saturating_add(a: u64, b: nat) -> u64 {
    if a + b > u64::MAX {
        u64::MAX
    } else {
        (a + b) as u64
    }
}

pub open spec fn incremented(a: u32) -> u32 {
    if a < u32::MAX {
        (a + 1) as u32
    } else {
        a
    }
}

} // verus!
