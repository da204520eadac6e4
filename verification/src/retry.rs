//! The retry policy around one fetch-and-parse of a page.
//!
//! A fetch is attempted up to a fixed bound. A transport-level or parse
//! failure is retried with nothing remembered; an answer with a
//! non-success HTTP status is retried with only the first such status
//! remembered. Once a parsed document is obtained, any remembered
//! status is discarded. If every attempt fails, the fetch fails with
//! the first remembered status, or none when every failure was at the
//! transport level.

use vstd::prelude::*;

use crate::errors::Error;

verus! {

/// How many attempts a fetch makes before giving up, unless configured
/// otherwise.
pub const DEFAULT_MAX_ATTEMPTS: u64 = 5;

/// What one attempt came back with.
#[derive(Clone, Copy, Debug, PartialEq, Eq, Structural)]
pub enum AttemptOutcome {
    /// The answer was a success status and the document parsed.
    Success,
    /// The answer carried a non-success HTTP status.
    BadStatus(u16),
    /// The attempt failed below HTTP: connection, name lookup,
    /// timeout, or the document did not parse.
    Transport,
}

/// The first non-success HTTP status among the outcomes, if any.
pub open spec fn first_bad_status(outcomes: Seq<AttemptOutcome>) -> Option<u16>
    decreases outcomes.len(),
{
    if outcomes.len() == 0 {
        None
    } else {
        match outcomes[0] {
            AttemptOutcome::BadStatus(s) => Some(s),
            _ => first_bad_status(outcomes.drop_first()),
        }
    }
}

/// Extending the outcomes by one more keeps the first remembered
/// status, or remembers the new one when none was seen before.
proof fn lemma_first_bad_status_extend(outcomes: Seq<AttemptOutcome>, i: int)
    requires
        0 <= i < outcomes.len(),
    ensures
        first_bad_status(outcomes.take(i + 1)) == (match first_bad_status(outcomes.take(i)) {
            Some(st) => Some(st),
            None => (match outcomes[i] {
                AttemptOutcome::BadStatus(s) => Some(s),
                _ => None,
            }),
        }),
    decreases i,
{
    assert(outcomes.take(i + 1)[0] == outcomes[0]);
    if i == 0 {
        assert(outcomes.take(1).drop_first() =~= Seq::<AttemptOutcome>::empty());
        assert(outcomes.take(0) =~= Seq::<AttemptOutcome>::empty());
    } else {
        lemma_first_bad_status_extend(outcomes.drop_first(), i - 1);
        assert(outcomes.take(i + 1).drop_first() =~= outcomes.drop_first().take(i));
        assert(outcomes.take(i).drop_first() =~= outcomes.drop_first().take(i - 1));
        assert(outcomes.drop_first()[i - 1] == outcomes[i]);
    }
}

/// When every attempt fails below HTTP, no status is ever remembered.
pub proof fn lemma_first_bad_status_all_transport(outcomes: Seq<AttemptOutcome>)
    requires
        forall|i: int| 0 <= i < outcomes.len() ==> outcomes[i] is Transport,
    ensures
        first_bad_status(outcomes) is None,
    decreases outcomes.len(),
{
    if outcomes.len() > 0 {
        lemma_first_bad_status_all_transport(outcomes.drop_first());
    }
}

/// The running state of one fetch: how many attempts were made and the
/// first non-success status seen, both local to the call.
pub struct RetryState {
    /// The configured bound on attempts.
    pub max_attempts: u64,
    /// How many attempts have been made.
    pub attempts_used: u64,
    /// The first non-success HTTP status seen, if any.
    pub first_status: Option<u16>,
}

impl RetryState {
    /// A fetch that has not attempted anything yet.
    pub fn new(max_attempts: u64) -> (r: RetryState)
        requires
            max_attempts >= 1,
        ensures
            r.max_attempts == max_attempts,
            r.attempts_used == 0,
            r.first_status is None,
    {
        RetryState { max_attempts, attempts_used: 0, first_status: None }
    }

    /// Whether another attempt may be issued: never more than the
    /// configured bound.
    pub fn should_attempt(&self) -> (r: bool)
        ensures
            r == (self.attempts_used < self.max_attempts),
    {
        self.attempts_used < self.max_attempts
    }

    /// Notes one failed attempt: the attempt counter advances and only
    /// the first non-success status is remembered.
    pub fn note_failure(&mut self, outcome: &AttemptOutcome)
        requires
            old(self).attempts_used < old(self).max_attempts,
            !(outcome is Success),
        ensures
            final (self).max_attempts == old(self).max_attempts,
            final (self).attempts_used == old(self).attempts_used + 1,
            final (self).first_status == (match old(self).first_status {
                Some(st) => Some(st),
                None => (match outcome {
                    AttemptOutcome::BadStatus(s) => Some(*s),
                    _ => None::<u16>,
                }),
            }),
    {
        self.attempts_used = self.attempts_used + 1;
        if self.first_status.is_none() {
            match outcome {
                AttemptOutcome::BadStatus(s) => {
                    self.first_status = Some(*s);
                },
                _ => {},
            }
        }
    }

    /// The error a fetch fails with once every attempt is exhausted:
    /// the first remembered status, or none when every failure was at
    /// the transport level.
    pub fn failure(&self) -> (r: Error)
        requires
            self.attempts_used == self.max_attempts,
        ensures
            r.kind matches crate::errors::ErrorKind::Fetch { status } && status
                == self.first_status,
    {
        Error::fetch(self.first_status)
    }
}

/// Resolves one fetch against the outcomes its attempts would come back
/// with: the index of the first successful attempt, within the bound; or,
/// when no attempt within the bound succeeds, a fetch error carrying the
/// first non-success status among the attempts made — the first, not the
/// last.
pub fn resolve_attempts(outcomes: &Vec<AttemptOutcome>, max_attempts: u64) -> (r: Result<
    usize,
    Error,
>)
    requires
        max_attempts >= 1,
        outcomes@.len() >= max_attempts,
    ensures
        (match r {
            Ok(i) => i < max_attempts && outcomes@[i as int] is Success && (forall|j: int|
                0 <= j < i ==> !(outcomes@[j] is Success)),
            Err(e) => (forall|j: int| 0 <= j < max_attempts ==> !(outcomes@[j] is Success)) && (
            e.kind matches crate::errors::ErrorKind::Fetch { status } && status == first_bad_status(
                outcomes@.take(max_attempts as int),
            )),
        }),
{
    let mut state = RetryState::new(max_attempts);
    let n: usize = outcomes.len();
    let mut i: usize = 0;
    while (i as u64) < max_attempts
        invariant
            0 <= i <= max_attempts,
            n == outcomes@.len(),
            outcomes@.len() >= max_attempts,
            state.max_attempts == max_attempts,
            state.attempts_used == i,
            state.first_status == first_bad_status(outcomes@.take(i as int)),
            forall|j: int| 0 <= j < i ==> !(outcomes@[j] is Success),
        decreases max_attempts - i,
    {
        let outcome = outcomes[i];
        match outcome {
            AttemptOutcome::Success => {
                return Ok(i);
            },
            _ => {
                state.note_failure(&outcome);
                proof {
                    lemma_first_bad_status_extend(outcomes@, i as int);
                }
            },
        }
        i = i + 1;
    }
    Err(state.failure())
}

} // verus!
