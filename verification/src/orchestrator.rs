//! The run orchestrator: one invocation for the baseline and one for each
//! feature set, run in order, with every failure recorded and none of them
//! ending the run.

use vstd::prelude::*;
use crate::feature_set::{feature_sets, lemma_feature_sets_count, FeatureSets};
use crate::invocation::{invocation_args, Invocation};
use crate::outcome::{failures, Attempt, ExecutionError, RunOutcome};

verus! {

/// The invocations of a run over the feature sets `sets`, in order: first
/// the baseline, which has the base arguments alone, then one for each
/// feature set.
pub open spec fn run_plan(base_args: Seq<Seq<char>>, sets: Seq<Seq<char>>) -> Seq<
    Seq<Seq<char>>,
> {
    seq![base_args] + sets.map_values(|set: Seq<char>| invocation_args(base_args, set))
}

/// The baseline always runs, and runs first: the plan holds one invocation
/// more than there are feature sets, so without feature sets it holds the
/// baseline alone.
pub proof fn lemma_baseline_runs(base_args: Seq<Seq<char>>, sets: Seq<Seq<char>>)
    ensures
        run_plan(base_args, sets).len() == 1 + sets.len(),
        run_plan(base_args, sets)[0] == base_args,
        sets.len() == 0 ==> run_plan(base_args, sets) == seq![base_args],
{
    if sets.len() == 0 {
        assert(run_plan(base_args, sets) =~= seq![base_args]);
    }
}

/// For fewer than two features nothing is enumerated, and the run is the
/// baseline alone.
pub proof fn lemma_baseline_runs_alone(base_args: Seq<Seq<char>>, features: Seq<Seq<char>>)
    requires
        features.len() < 2,
    ensures
        run_plan(base_args, feature_sets(features)) == seq![base_args],
{
    lemma_feature_sets_count(features);
    lemma_baseline_runs(base_args, feature_sets(features));
}

/// `attempt` went the whole way through the collaborators: an invocation
/// with the attempt's arguments was announced to `announce` and handed to
/// `exec`, the attempt succeeded exactly if `exec` said so, and where `exec`
/// gave an error, that error was handed to `report`.
pub open spec fn attempt_made_by<Exec, Announce, Report>(
    exec: Exec,
    announce: Announce,
    report: Report,
    attempt: Attempt,
) -> bool where
    Exec: Fn(&Invocation) -> Result<(), ExecutionError>,
    Announce: Fn(&Invocation) -> (),
    Report: Fn(&ExecutionError) -> (),
{
    exists|invocation: Invocation, result: Result<(), ExecutionError>|
        #![trigger call_ensures(exec, (&invocation,), result)]
        {
            &&& invocation@ == attempt.args
            &&& call_ensures(announce, (&invocation,), ())
            &&& call_ensures(exec, (&invocation,), result)
            &&& attempt.succeeded == (result is Ok)
            &&& result matches Err(error) ==> call_ensures(report, (&error,), ())
        }
}

/// The state of a run: the base arguments, the feature sets that are
/// still to come, and whether the baseline has been handed out.
pub struct Orchestrator {
    base_args: Vec<String>,
    sets: FeatureSets,
    baseline_issued: bool,
    /// How many sets the enumerator had handed out before the run got it.
    skipped: Ghost<nat>,
}

impl Orchestrator {
    /// The base arguments of the run.
    pub closed spec fn base_args(&self) -> Seq<Seq<char>> {
        self.base_args.deep_view()
    }

    /// The feature sets that the run was given, in order.
    pub closed spec fn sets(&self) -> Seq<Seq<char>> {
        feature_sets(self.sets.features()).skip(self.skipped@ as int)
    }

    /// The invocations of the run, in order.
    pub open spec fn plan(&self) -> Seq<Seq<Seq<char>>> {
        run_plan(self.base_args(), self.sets())
    }

    /// How many invocations of the plan have been handed out.
    pub closed spec fn issued(&self) -> nat {
        if self.baseline_issued {
            (1 + self.sets.produced() - self.skipped@) as nat
        } else {
            0
        }
    }

    /// The enumerator is sound, and hands out nothing before the baseline.
    pub closed spec fn wf(&self) -> bool {
        &&& self.sets.wf()
        &&& self.skipped@ <= self.sets.produced()
        &&& !self.baseline_issued ==> self.sets.produced() == self.skipped@
    }

    /// No more invocations are handed out than the plan holds.
    pub proof fn lemma_issued_in_range(&self)
        requires
            self.wf(),
        ensures
            self.issued() <= self.plan().len(),
    {
        self.sets.lemma_produced_in_range();
    }

    /// A run that has not started, over the feature sets that `sets` has
    /// still to hand out.
    pub fn new(base_args: Vec<String>, sets: FeatureSets) -> (orchestrator: Orchestrator)
        requires
            sets.wf(),
        ensures
            orchestrator.wf(),
            orchestrator.base_args() == base_args.deep_view(),
            orchestrator.sets() == sets.remaining(),
            orchestrator.issued() == 0,
    {
        let ghost skipped = sets.produced();
        Orchestrator { base_args, sets, baseline_issued: false, skipped: Ghost(skipped) }
    }

    /// Hands out the next invocation of the plan, or `None` once the plan
    /// is through.
    pub fn next_invocation(&mut self) -> (next: Option<Invocation>)
        requires
            old(self).wf(),
        ensures
            final(self).wf(),
            final(self).base_args() == old(self).base_args(),
            final(self).sets() == old(self).sets(),
            match next {
                Some(invocation) => {
                    &&& old(self).issued() < old(self).plan().len()
                    &&& invocation@ == old(self).plan()[old(self).issued() as int]
                    &&& final(self).issued() == old(self).issued() + 1
                },
                None => {
                    &&& old(self).issued() == old(self).plan().len()
                    &&& final(self).issued() == old(self).issued()
                },
            },
    {
        if !self.baseline_issued {
            self.baseline_issued = true;
            return Some(Invocation::baseline(&self.base_args));
        }
        proof {
            self.sets.lemma_produced_in_range();
        }
        match self.sets.next_set() {
            Some(set) => Some(Invocation::new(&self.base_args, set.as_str())),
            None => None,
        }
    }

    /// Runs what is left of the plan, one invocation after the other.
    ///
    /// Each invocation is announced to `announce` and then handed to `exec`.
    /// Where `exec` fails, the error goes to `report` and the run goes on
    /// with the next invocation: the outcome holds one attempt for every
    /// invocation that was left, in the order of the plan, each of them
    /// announced, run and, where it failed, reported, and it has failed
    /// exactly if one of them did.
    pub fn run<Exec, Announce, Report>(
        &mut self,
        exec: Exec,
        announce: Announce,
        report: Report,
    ) -> (outcome: RunOutcome) where
        Exec: Fn(&Invocation) -> Result<(), ExecutionError>,
        Announce: Fn(&Invocation) -> (),
        Report: Fn(&ExecutionError) -> (),
        requires
            old(self).wf(),
            forall|invocation: &Invocation| call_requires(exec, (invocation,)),
            forall|invocation: &Invocation| call_requires(announce, (invocation,)),
            forall|error: &ExecutionError| call_requires(report, (error,)),
        ensures
            final(self).wf(),
            final(self).base_args() == old(self).base_args(),
            final(self).sets() == old(self).sets(),
            final(self).issued() == old(self).plan().len(),
            outcome.wf(),
            outcome.failed() <==> failures(outcome.attempts()) > 0,
            outcome.attempts().len() == old(self).plan().len() - old(self).issued(),
            forall|i: int|
                0 <= i < outcome.attempts().len() ==> (#[trigger] outcome.attempts()[i]).args
                    == old(self).plan()[old(self).issued() + i],
            forall|i: int|
                0 <= i < outcome.attempts().len() ==> attempt_made_by(
                    exec,
                    announce,
                    report,
                    #[trigger] outcome.attempts()[i],
                ),
    {
        let mut outcome = RunOutcome::new();
        let ghost plan = self.plan();
        let ghost start = self.issued() as int;
        proof {
            self.lemma_issued_in_range();
        }
        loop
            invariant
                self.wf(),
                self.base_args() == old(self).base_args(),
                self.sets() == old(self).sets(),
                plan == self.plan(),
                start == old(self).issued(),
                start <= self.issued() <= plan.len(),
                outcome.wf(),
                outcome.attempts().len() == self.issued() - start,
                forall|invocation: &Invocation| call_requires(exec, (invocation,)),
                forall|invocation: &Invocation| call_requires(announce, (invocation,)),
                forall|error: &ExecutionError| call_requires(report, (error,)),
                forall|i: int|
                    0 <= i < outcome.attempts().len() ==> (#[trigger] outcome.attempts()[i]).args
                        == plan[start + i],
                forall|i: int|
                    0 <= i < outcome.attempts().len() ==> attempt_made_by(
                        exec,
                        announce,
                        report,
                        #[trigger] outcome.attempts()[i],
                    ),
            ensures
                self.issued() == plan.len(),
            decreases plan.len() - self.issued(),
        {
            let invocation = match self.next_invocation() {
                Some(invocation) => invocation,
                None => {
                    break ;
                },
            };
            announce(&invocation);
            let result = exec(&invocation);
            if let Err(error) = &result {
                report(error);
            }
            outcome.record(&invocation, &result);
            proof {
                let attempt = Attempt { args: invocation@, succeeded: result is Ok };
                assert(outcome.attempts().last() == attempt);
                assert(attempt_made_by(exec, announce, report, attempt));
            }
        }
        proof {
            outcome.lemma_failed_iff_failures();
        }
        outcome
    }
}

} // verus!
