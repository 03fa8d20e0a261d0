//! Retrying blob backend operations: which failures are transient, and
//! whether a failed attempt is retried. (The backoff between attempts
//! multiplies a duration by a floating-point factor and is computed by the
//! caller.)

use vstd::prelude::*;
use crate::text::{lowercase, str_chars, to_lowercase};

verus! {

/// `needle` occurs in `hay` at position `i`.
pub open spec fn occurs_at(hay: Seq<char>, needle: Seq<char>, i: int) -> bool {
    0 <= i && i + needle.len() <= hay.len() && hay.subrange(i, i + needle.len()) == needle
}

/// `str::contains` on texts.
pub open spec fn contains_text(hay: Seq<char>, needle: Seq<char>) -> bool {
    exists|i: int| #[trigger] occurs_at(hay, needle, i)
}

fn occurs_at_exec(hay: &Vec<char>, needle: &Vec<char>, i: usize) -> (b: bool)
    requires
        i + needle@.len() <= hay@.len(),
    ensures
        b == occurs_at(hay@, needle@, i as int),
{
    let n = hay.len();
    let mut j: usize = 0;
    while j < needle.len()
        invariant
            n == hay@.len(),
            j <= needle@.len(),
            i + needle@.len() <= hay@.len(),
            forall|k: int| 0 <= k < j ==> hay@[i + k] == needle@[k],
        decreases needle@.len() - j,
    {
        assert(i + j < hay@.len());
        if hay[i + j] != needle[j] {
            assert(hay@.subrange(i as int, i + needle@.len())[j as int] != needle@[j as int]);
            return false;
        }
        j += 1;
    }
    assert(hay@.subrange(i as int, i + needle@.len()) =~= needle@);
    true
}

/// Whether `needle` occurs in `hay`.
pub fn text_contains(hay: &Vec<char>, needle: &str) -> (b: bool)
    ensures
        b == contains_text(hay@, needle@),
{
    let nv = str_chars(needle);
    if nv.len() > hay.len() {
        proof {
            assert forall|i: int| !#[trigger] occurs_at(hay@, needle@, i) by {}
        }
        return false;
    }
    let last = hay.len() - nv.len();
    let mut i: usize = 0;
    loop
        invariant
            i <= last,
            last + nv@.len() == hay@.len(),
            nv@ == needle@,
            forall|k: int| 0 <= k < i ==> !#[trigger] occurs_at(hay@, needle@, k),
        ensures
            forall|k: int| 0 <= k <= last ==> !#[trigger] occurs_at(hay@, needle@, k),
        decreases last - i,
    {
        if occurs_at_exec(hay, &nv, i) {
            return true;
        }
        if i == last {
            break;
        }
        i += 1;
    }
    proof {
        assert forall|k: int| !#[trigger] occurs_at(hay@, needle@, k) by {
            if 0 <= k <= last {
            }
        }
    }
    false
}

/// An error message that reads as transient: a timeout, a connection
/// problem, a 500/503/429 status, a temporary condition, a broken pipe or a
/// reset by the peer (compared in lowercase).
pub open spec fn transient_message(m: Seq<char>) -> bool {
    let l = lowercase(m);
    ||| contains_text(l, "timeout"@)
    ||| contains_text(l, "connection"@)
    ||| contains_text(l, "503"@)
    ||| contains_text(l, "500"@)
    ||| contains_text(l, "429"@)
    ||| contains_text(l, "temporarily"@)
    ||| contains_text(l, "broken pipe"@)
    ||| contains_text(l, "reset by peer"@)
}

/// Whether a failure with this message is likely transient.
pub fn is_retryable(message: &str) -> (b: bool)
    ensures
        b == transient_message(message@),
{
    let lower = to_lowercase(message);
    let l = str_chars(lower.as_str());
    text_contains(&l, "timeout") || text_contains(&l, "connection") || text_contains(&l, "503")
        || text_contains(&l, "500") || text_contains(&l, "429") || text_contains(&l, "temporarily")
        || text_contains(&l, "broken pipe") || text_contains(&l, "reset by peer")
}

/// What follows a failed attempt.
#[derive(Debug, Clone, Copy, PartialEq, Eq)]
pub enum RetryStep {
    /// Wait the current backoff, then make attempt number `n` (counting
    /// retries from 1).
    Retry(u32),
    /// Return the error.
    Fail,
}

/// After `attempt` retries have been spent, a failure is retried while
/// retries remain and the failure is transient.
pub open spec fn after_failure_of(attempt: u32, max_retries: u32, message: Seq<char>) -> RetryStep {
    if attempt < max_retries && transient_message(message) {
        RetryStep::Retry((attempt + 1) as u32)
    } else {
        RetryStep::Fail
    }
}

pub fn after_failure(attempt: u32, max_retries: u32, message: &str) -> (s: RetryStep)
    ensures
        s == after_failure_of(attempt, max_retries, message@),
{
    if attempt < max_retries && is_retryable(message) {
        RetryStep::Retry(attempt + 1)
    } else {
        RetryStep::Fail
    }
}

/// An operation is attempted at most `max_retries + 1` times: a retry is
/// numbered one past the retries already spent and never beyond the
/// maximum, and a failure that is not transient is never retried.
pub proof fn law_retries_bounded(attempt: u32, max_retries: u32, message: Seq<char>)
    ensures
        after_failure_of(attempt, max_retries, message) matches RetryStep::Retry(n) ==> n == attempt + 1
            && n <= max_retries,
        !transient_message(message) ==> after_failure_of(attempt, max_retries, message) == RetryStep::Fail,
{
}

/// Retries of the default policy.
pub const DEFAULT_MAX_RETRIES: u32 = 3;

/// First backoff of the default policy (milliseconds).
pub const DEFAULT_INITIAL_BACKOFF_MS: u64 = 100;

/// Backoff cap of the default policy (milliseconds).
pub const DEFAULT_MAX_BACKOFF_MS: u64 = 10_000;

} // verus!
