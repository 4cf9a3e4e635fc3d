//! Bounded retry rules: the readiness probe and session-creation retry.
//!
//! Readiness is probed with a fixed number of no-op pings with fixed
//! backoff; any success short-circuits, exhaustion is fatal to that start
//! call. Session creation retries only on timeout-classified failures,
//! reusing the same client-generated session id, up to a small bound; any
//! other failure propagates immediately.

use vstd::prelude::*;

verus! {

broadcast use vstd::seq::group_seq_axioms;

/// The substring that marks a timeout-classified failure.
pub open spec fn timeout_marker() -> Seq<u8> {
    // Timeout waiting for response
    seq![
        0x54, 0x69, 0x6d, 0x65, 0x6f, 0x75, 0x74, 0x20, 0x77, 0x61, 0x69, 0x74, 0x69, 0x6e,
        0x67, 0x20, 0x66, 0x6f, 0x72, 0x20, 0x72, 0x65, 0x73, 0x70, 0x6f, 0x6e, 0x73, 0x65,
    ]
}

/// `pat` occurs somewhere in `s`.
pub open spec fn sp_contains(s: Seq<u8>, pat: Seq<u8>) -> bool {
    exists|i: int| 0 <= i <= s.len() - pat.len() && #[trigger] s.subrange(i, i + pat.len()) == pat
}

/// Whether `pat` occurs in `s`.
pub fn contains_bytes(s: &[u8], pat: &[u8]) -> (r: bool)
    ensures
        r == sp_contains(s@, pat@),
{
    if pat.len() > s.len() {
        assert(!sp_contains(s@, pat@));
        return false;
    }
    if pat.len() == 0 {
        assert(s@.subrange(0, 0 + pat@.len() as int) =~= pat@);
        return true;
    }
    let mut i: usize = 0;
    let n = s.len();
    let bound = s.len() - pat.len();
    while i <= bound
        invariant
            1 <= pat@.len() <= s@.len(),
            n == s@.len(),
            bound == s@.len() - pat@.len(),
            i <= bound + 1,
            forall|k: int| 0 <= k < i ==> #[trigger] s@.subrange(k, k + pat@.len()) != pat@,
        decreases s@.len() - i,
    {
        assert(i + pat@.len() <= s@.len());
        let w = crate::json::copy_range(s, i, i + pat.len());
        if crate::json::bytes_eq(w.as_slice(), pat) {
            assert(s@.subrange(i as int, i + pat@.len()) == pat@);
            return true;
        }
        i += 1;
    }
    assert(!sp_contains(s@, pat@));
    false
}

/// A timeout-classified failure, the one kind session creation retries.
pub fn is_timeout_error(error: &[u8]) -> (r: bool)
    ensures
        r == sp_contains(error@, timeout_marker()),
{
    let pat = vec![
        0x54u8, 0x69, 0x6d, 0x65, 0x6f, 0x75, 0x74, 0x20, 0x77, 0x61, 0x69, 0x74, 0x69, 0x6e,
        0x67, 0x20, 0x66, 0x6f, 0x72, 0x20, 0x72, 0x65, 0x73, 0x70, 0x6f, 0x6e, 0x73, 0x65,
    ];
    assert(pat@ =~= timeout_marker());
    contains_bytes(error, pat.as_slice())
}

/// What a probe or retry step tells its caller to do next.
pub enum ProbeDecision {
    /// The worker answered: ready, stop probing.
    Ready,
    /// Try again after this many milliseconds of backoff.
    RetryAfterMs(u64),
    /// Attempts exhausted: fail this start call with the last error.
    Failed(Vec<u8>),
}

/// The readiness probe: a bounded number of no-op pings with fixed
/// backoff.
pub struct ReadinessProbe {
    pub attempts_left: u8,
    pub backoff_ms: u64,
}

impl ReadinessProbe {
    pub fn new() -> (r: ReadinessProbe)
        ensures
            r.attempts_left == 3,
            r.backoff_ms == 500,
    {
        ReadinessProbe { attempts_left: 3, backoff_ms: 500 }
    }

    /// Accounts one ping: success short-circuits to ready; a failure backs
    /// off while attempts remain and is fatal on the last one.
    pub fn on_attempt(&mut self, success: bool, error: Vec<u8>) -> (r: ProbeDecision)
        requires
            old(self).attempts_left > 0,
        ensures
            final(self).backoff_ms == old(self).backoff_ms,
            final(self).attempts_left == old(self).attempts_left - 1,
            success ==> r is Ready,
            !success && old(self).attempts_left > 1 ==> r == ProbeDecision::RetryAfterMs(
                old(self).backoff_ms,
            ),
            !success && old(self).attempts_left == 1 ==> (r matches ProbeDecision::Failed(e)
                && e@ == error@),
    {
        self.attempts_left = self.attempts_left - 1;
        if success {
            ProbeDecision::Ready
        } else if self.attempts_left > 0 {
            ProbeDecision::RetryAfterMs(self.backoff_ms)
        } else {
            ProbeDecision::Failed(error)
        }
    }
}

/// Session-creation retry state. The client-generated session id is fixed
/// at creation and reused for every attempt.
pub struct CreateSessionRetry {
    pub session_id: Vec<u8>,
    pub attempts_left: u8,
    pub backoff_ms: u64,
}

impl CreateSessionRetry {
    pub fn new(session_id: Vec<u8>) -> (r: CreateSessionRetry)
        ensures
            r.session_id@ == session_id@,
            r.attempts_left == 3,
            r.backoff_ms == 600,
    {
        CreateSessionRetry { session_id, attempts_left: 3, backoff_ms: 600 }
    }

    /// Accounts one failed attempt: only a timeout-classified failure with
    /// attempts remaining is retried, with the same session id; anything
    /// else gives up at once.
    pub fn on_error(&mut self, error: &[u8]) -> (r: ProbeDecision)
        requires
            old(self).attempts_left > 0,
        ensures
            final(self).session_id@ == old(self).session_id@,
            final(self).backoff_ms == old(self).backoff_ms,
            final(self).attempts_left == old(self).attempts_left - 1,
            sp_contains(error@, timeout_marker()) && old(self).attempts_left > 1 ==> r
                == ProbeDecision::RetryAfterMs(old(self).backoff_ms),
            !(sp_contains(error@, timeout_marker()) && old(self).attempts_left > 1) ==> (r
                matches ProbeDecision::Failed(e) && e@ == error@),
    {
        self.attempts_left = self.attempts_left - 1;
        if is_timeout_error(error) && self.attempts_left > 0 {
            ProbeDecision::RetryAfterMs(self.backoff_ms)
        } else {
            let e = crate::handler::EventHandler::clone_bytes(
                &crate::json::copy_range(error, 0, error.len()),
            );
            ProbeDecision::Failed(e)
        }
    }
}

} // verus!
