//! The retry/backoff protocol for flaky remote fetches.
//!
//! A remote GET is resolved from the status codes and payloads the
//! source answers with: 200 succeeds, 404 is a normal absence, any
//! other status below 500 except 429 fails immediately, and 429, 5xx
//! or a transport-level failure is retried with exponential backoff,
//! up to a fixed budget of additional attempts.
use vstd::prelude::*;

use crate::chunk::LoadError;

verus! {

/// How many times a transient load failure is retried: this many
/// attempts follow the first one.
pub const LOAD_RETRY_LIMIT: u32 = 3;

/// Initial backoff pause, in microseconds (jitter is added on top).
pub const LOAD_RETRY_BASE_WAIT_MICROS: u64 = 50000;

/// The backoff pause grows by this factor after each consecutive
/// failure.
pub const LOAD_RETRY_MULTIPLIER: u64 = 10;

/// What one GET attempt against a remote source came back with.
#[derive(Clone, Debug, PartialEq, Eq)]
pub enum GetEvent {
    /// The source answered with this status code and body.
    Response(u16, Vec<u8>),
    /// The request failed below the HTTP layer (connection, timeout).
    TransportFailure,
}

/// What to do after one GET attempt.
#[derive(Debug, PartialEq, Eq)]
pub enum GetStep {
    /// Status 200: the chunk's bytes were fetched.
    Found(Vec<u8>),
    /// Status 404: the source does not have the chunk, a normal
    /// outcome rather than an error.
    Absent,
    /// Give up with this error, either immediately (non-retryable
    /// status) or because the retry budget is exhausted.
    Fail(LoadError),
    /// Sleep this many microseconds, then retry.
    Backoff(u64),
}

/// A failure after which the fetch is retried: explicit throttling
/// (429), a server-side error (5xx), or a transport-level failure.
pub open spec fn retryable(ev: GetEvent) -> bool {
    match ev {
        GetEvent::Response(code, _) => code == 429 || code >= 500,
        GetEvent::TransportFailure => true,
    }
}

/// The unjittered backoff pause before the retry that follows
/// `failures` consecutive failures.
pub open spec fn backoff_base_micros(failures: nat) -> nat
    decreases failures,
{
    if failures == 0 {
        LOAD_RETRY_BASE_WAIT_MICROS as nat
    } else {
        (LOAD_RETRY_MULTIPLIER as nat) * backoff_base_micros((failures - 1) as nat)
    }
}

/// What stepping the retry machine must produce: the exact decision
/// for every event, with the backoff pause pinned to the unjittered
/// base plus less than one base's worth of random jitter.
pub open spec fn step_result(failures: nat, ev: GetEvent, r: GetStep) -> bool {
    match ev {
        GetEvent::Response(code, body) => if code == 200 {
            r matches GetStep::Found(b) && b@ == body@
        } else if code == 404 {
            r is Absent
        } else if code == 429 || code >= 500 {
            retry_or_give_up(failures, Some(code), r)
        } else {
            r == GetStep::Fail(LoadError::RemoteRequestError { status: code })
        },
        GetEvent::TransportFailure => retry_or_give_up(failures, None, r),
    }
}

/// After a retryable failure: back off while the retry budget lasts,
/// otherwise fail with `RetryLimitExceeded` wrapping the last status.
pub open spec fn retry_or_give_up(failures: nat, status: Option<u16>, r: GetStep) -> bool {
    if failures < LOAD_RETRY_LIMIT {
        r matches GetStep::Backoff(pause) && backoff_base_micros(failures) <= pause
            < 2 * backoff_base_micros(failures)
    } else {
        r == GetStep::Fail(LoadError::RetryLimitExceeded { last_status: status })
    }
}

/// Relies on rand: `random_range(0..bound)` returns a uniform value in
/// `[0, bound)`; nothing more is assumed of a random result.
#[verifier::external_body]
fn random_below(bound: u64) -> (r: u64)
    requires
        bound >= 1,
    ensures
        r < bound,
{
    rand::random_range(0..bound)
}

/// The jittered backoff pause after `failures` consecutive failures:
/// the exponential base pause, plus up to one base's worth of random
/// jitter so that independent clients spread their retries.
pub fn backoff_micros(failures: u32) -> (r: u64)
    requires
        failures < LOAD_RETRY_LIMIT,
    ensures
        backoff_base_micros(failures as nat) <= r < 2 * backoff_base_micros(failures as nat),
{
    let base: u64 = if failures == 0 {
        50000
    } else if failures == 1 {
        500000
    } else {
        5000000
    };
    proof {
        reveal_with_fuel(backoff_base_micros, 4);
    }
    let jitter = random_below(base);
    base + jitter
}

/// One step of the retry machine: decides what to do with the outcome
/// of a single GET attempt, after `failures` failed attempts so far.
pub fn retry_step(failures: u32, ev: &GetEvent) -> (r: GetStep)
    requires
        failures <= LOAD_RETRY_LIMIT,
    ensures
        step_result(failures as nat, *ev, r),
{
    match ev {
        GetEvent::Response(code, body) => {
            let code = *code;
            if code == 200 {
                GetStep::Found(body.clone())
            } else if code == 404 {
                GetStep::Absent
            } else if code == 429 || code >= 500 {
                if failures < LOAD_RETRY_LIMIT {
                    GetStep::Backoff(backoff_micros(failures))
                } else {
                    GetStep::Fail(LoadError::RetryLimitExceeded { last_status: Some(code) })
                }
            } else {
                GetStep::Fail(LoadError::RemoteRequestError { status: code })
            }
        },
        GetEvent::TransportFailure => {
            if failures < LOAD_RETRY_LIMIT {
                GetStep::Backoff(backoff_micros(failures))
            } else {
                GetStep::Fail(LoadError::RetryLimitExceeded { last_status: None })
            }
        },
    }
}

/// The outcome of a whole retry loop, given the source's answer to
/// each attempt in order and the number of failures already consumed:
/// the answer of the first attempt decides, and a retryable failure
/// recurses on the next answer while the budget lasts.
pub open spec fn get_outcome(events: Seq<GetEvent>, failures: nat) -> Result<
    Option<Seq<u8>>,
    LoadError,
>
    decreases events.len(),
{
    if events.len() == 0 {
        Err(LoadError::RetryLimitExceeded { last_status: None })
    } else {
        match events[0] {
            GetEvent::Response(code, body) => if code == 200 {
                Ok(Some(body@))
            } else if code == 404 {
                Ok(None)
            } else if code == 429 || code >= 500 {
                if failures < LOAD_RETRY_LIMIT {
                    get_outcome(events.drop_first(), failures + 1)
                } else {
                    Err(LoadError::RetryLimitExceeded { last_status: Some(code) })
                }
            } else {
                Err(LoadError::RemoteRequestError { status: code })
            },
            GetEvent::TransportFailure => if failures < LOAD_RETRY_LIMIT {
                get_outcome(events.drop_first(), failures + 1)
            } else {
                Err(LoadError::RetryLimitExceeded { last_status: None })
            },
        }
    }
}

/// Resolves one remote GET, given the source's answer to each attempt
/// in order (`events[i]` answers attempt `i`; at most one more than
/// the retry limit is ever consulted).  Pauses between attempts are
/// the caller's: the pause lengths come from [`retry_step`].
///
/// Returns the payload on a 200, `Ok(None)` on a 404, and otherwise
/// the error that [`get_outcome`] assigns to the answer sequence.
pub fn load_from_source(events: &Vec<GetEvent>) -> (r: Result<Option<Vec<u8>>, LoadError>)
    requires
        events@.len() > LOAD_RETRY_LIMIT,
    ensures
        r matches Ok(Some(p)) ==> get_outcome(events@, 0) == Ok::<Option<Seq<u8>>, LoadError>(
            Some(p@),
        ),
        r matches Ok(None) ==> get_outcome(events@, 0) == Ok::<Option<Seq<u8>>, LoadError>(None),
        r matches Err(e) ==> get_outcome(events@, 0) == Err::<Option<Seq<u8>>, LoadError>(e),
{
    let mut i: usize = 0;
    proof {
        assert(events@.skip(0) =~= events@);
    }
    loop
        invariant
            i <= LOAD_RETRY_LIMIT,
            events@.len() > LOAD_RETRY_LIMIT,
            get_outcome(events@, 0) == get_outcome(events@.skip(i as int), i as nat),
        decreases LOAD_RETRY_LIMIT - i,
    {
        let step = retry_step(i as u32, &events[i]);
        proof {
            assert(events@.skip(i as int)[0] == events@[i as int]);
        }
        match step {
            GetStep::Found(p) => {
                return Ok(Some(p));
            },
            GetStep::Absent => {
                return Ok(None);
            },
            GetStep::Fail(e) => {
                return Err(e);
            },
            GetStep::Backoff(_) => {
                proof {
                    assert(events@.skip(i as int).drop_first() =~= events@.skip(i + 1));
                }
                i = i + 1;
            },
        }
    }
}

} // verus!
