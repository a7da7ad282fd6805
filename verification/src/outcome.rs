//! The outcome of a run: whether any invocation failed.

use vstd::prelude::*;
use crate::invocation::Invocation;

verus! {

/// Why an invocation failed.
#[derive(Debug, PartialEq, Eq)]
pub enum ExecutionError {
    /// The command could not be started.
    SpawnFailure { message: String },
    /// The command ran and ended with a failing status; `code` is its exit
    /// code, where it has one.
    NonZeroExit { code: Option<i32>, message: String },
}

impl ExecutionError {
    /// What the executor said about the failure.
    pub fn message(&self) -> (message: &String)
        ensures
            message == match *self {
                ExecutionError::SpawnFailure { message } => message,
                ExecutionError::NonZeroExit { message, .. } => message,
            },
    {
        match self {
            ExecutionError::SpawnFailure { message } => message,
            ExecutionError::NonZeroExit { message, .. } => message,
        }
    }
}

/// The exit code of a run in which every invocation succeeded.
pub const SUCCESS_CODE: i32 = 0;

/// The exit code of a run in which at least one invocation failed.
pub const FAILURE_CODE: i32 = 7;

/// The one error of a run as a whole. It does not say which invocations
/// failed.
#[derive(Debug, PartialEq, Eq)]
pub struct AggregateFailure {
    pub code: i32,
    pub message: String,
}

/// One finished invocation: its arguments and whether it succeeded.
pub struct Attempt {
    pub args: Seq<Seq<char>>,
    pub succeeded: bool,
}

/// How many of `attempts` failed.
pub open spec fn failures(attempts: Seq<Attempt>) -> nat
    decreases attempts.len(),
{
    if attempts.len() == 0 {
        0
    } else {
        failures(attempts.drop_last()) + if attempts.last().succeeded {
            0nat
        } else {
            1nat
        }
    }
}

/// At least one attempt failed exactly when one of them is marked so.
pub proof fn lemma_failures_positive(attempts: Seq<Attempt>)
    ensures
        failures(attempts) <= attempts.len(),
        failures(attempts) > 0 <==> exists|i: int|
            0 <= i < attempts.len() && !(#[trigger] attempts[i]).succeeded,
    decreases attempts.len(),
{
    if attempts.len() > 0 {
        let front = attempts.drop_last();
        lemma_failures_positive(front);
        if failures(front) > 0 {
            let i = choose|i: int| 0 <= i < front.len() && !(#[trigger] front[i]).succeeded;
            assert(!attempts[i].succeeded);
        } else if !attempts.last().succeeded {
            assert(!attempts[attempts.len() - 1].succeeded);
        } else {
            assert forall|i: int| 0 <= i < attempts.len() implies (#[trigger] attempts[i]).succeeded by {
                if i < front.len() {
                    assert(front[i].succeeded);
                }
            }
        }
    }
}

/// What a run has come to so far. At run time it is one flag; the attempts
/// that it was gathered from are kept for the proofs only.
pub struct RunOutcome {
    failed: bool,
    attempts: Ghost<Seq<Attempt>>,
}

impl RunOutcome {
    /// The invocations that have finished, in the order in which they were
    /// recorded.
    pub closed spec fn attempts(&self) -> Seq<Attempt> {
        self.attempts@
    }

    /// Whether at least one invocation failed.
    pub closed spec fn spec_failed(&self) -> bool {
        self.failed
    }

    /// The flag says whether any recorded attempt failed.
    pub closed spec fn wf(&self) -> bool {
        self.failed <==> failures(self.attempts@) > 0
    }

    /// A run has failed exactly if at least one of its attempts failed.
    pub proof fn lemma_failed_iff_failures(&self)
        requires
            self.wf(),
        ensures
            self.failed() <==> failures(self.attempts()) > 0,
            self.failed() <==> exists|i: int|
                0 <= i < self.attempts().len() && !(#[trigger] self.attempts()[i]).succeeded,
            failures(self.attempts()) <= self.attempts().len(),
    {
        lemma_failures_positive(self.attempts@);
    }

    /// The outcome of a run in which nothing has run yet.
    pub fn new() -> (outcome: RunOutcome)
        ensures
            outcome.wf(),
            outcome.attempts() == Seq::<Attempt>::empty(),
            !outcome.failed(),
    {
        RunOutcome { failed: false, attempts: Ghost(Seq::empty()) }
    }

    /// Takes note of how `invocation` ended. A failure stays on record
    /// whatever follows.
    pub fn record(&mut self, invocation: &Invocation, result: &Result<(), ExecutionError>)
        ensures
            final(self).attempts() == old(self).attempts().push(
                Attempt { args: invocation@, succeeded: result is Ok },
            ),
            final(self).failed() == (old(self).failed() || result is Err),
            old(self).wf() ==> final(self).wf(),
    {
        let ghost attempt = Attempt { args: invocation@, succeeded: result is Ok };
        proof {
            assert(self.attempts@.push(attempt).drop_last() =~= self.attempts@);
        }
        if result.is_err() {
            self.failed = true;
        }
        self.attempts = Ghost(self.attempts@.push(attempt));
    }

    /// Whether at least one invocation failed.
    #[verifier::when_used_as_spec(spec_failed)]
    pub fn failed(&self) -> (failed: bool)
        ensures
            failed == self.failed(),
    {
        self.failed
    }

    /// The exit code that the run ends with.
    pub fn exit_code(&self) -> (code: i32)
        ensures
            code == if self.failed() {
                FAILURE_CODE
            } else {
                SUCCESS_CODE
            },
    {
        if self.failed {
            FAILURE_CODE
        } else {
            SUCCESS_CODE
        }
    }

    /// The result of the run as a whole: the aggregate failure if any
    /// invocation failed.
    pub fn into_result(self) -> (result: Result<(), AggregateFailure>)
        ensures
            result is Err <==> self.failed(),
            result matches Err(failure) ==> failure.code == FAILURE_CODE && failure.message@
                == "at least one subcommand failed"@,
    {
        if self.failed {
            Err(
                AggregateFailure {
                    code: FAILURE_CODE,
                    message: "at least one subcommand failed".to_owned(),
                },
            )
        } else {
            Ok(())
        }
    }
}

} // verus!
