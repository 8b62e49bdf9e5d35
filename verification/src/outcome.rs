//! What became of each job, and what a phase reports once all of its jobs have
//! ended.
use vstd::prelude::*;

verus! {

/// Why a job failed.
#[derive(Clone, Copy, Debug, PartialEq, Eq, Structural)]
pub enum FailureReason {
    /// The directory that should hold the output could not be created.
    Setup,
    /// The codec tool could not be run, or ended with a failure status.
    Encode,
}

/// The end of one job.
#[derive(Clone, Copy, Debug, PartialEq, Eq, Structural)]
pub enum JobOutcome {
    Succeeded,
    Failed(FailureReason),
}

/// The failure that stands for a failed phase: the position of the job in the
/// phase's job list, and why it failed.
#[derive(Clone, Copy, Debug, PartialEq, Eq, Structural)]
pub struct PhaseFailure {
    pub job: usize,
    pub reason: FailureReason,
}

/// How a phase ended: how many jobs succeeded, how many failed, and the failed
/// job that comes first in the job list, if any failed.
#[derive(Clone, Copy, Debug, PartialEq, Eq, Structural)]
pub struct PhaseSummary {
    pub succeeded: usize,
    pub failed: usize,
    pub first_failure: Option<PhaseFailure>,
}

/// How many of `outcomes` are successes.
pub open spec fn count_succeeded(outcomes: Seq<JobOutcome>) -> nat
    decreases outcomes.len(),
{
    if outcomes.len() == 0 {
        0
    } else {
        count_succeeded(outcomes.drop_last()) + if outcomes.last() is Succeeded {
            1nat
        } else {
            0nat
        }
    }
}

/// Whether `failure` names the first failed job of `outcomes`, with its
/// reason.
pub open spec fn is_first_failure(outcomes: Seq<JobOutcome>, failure: PhaseFailure) -> bool {
    &&& failure.job < outcomes.len()
    &&& outcomes[failure.job as int] == JobOutcome::Failed(failure.reason)
    &&& forall|j: int| 0 <= j < failure.job ==> outcomes[j] is Succeeded
}

/// Whether every job of `outcomes` succeeded.
pub open spec fn all_succeeded(outcomes: Seq<JobOutcome>) -> bool {
    forall|j: int| 0 <= j < outcomes.len() ==> outcomes[j] is Succeeded
}

/// The first failed job of `outcomes` by the order of the list, with its
/// reason, if any job failed.
pub open spec fn first_failure(outcomes: Seq<JobOutcome>) -> Option<PhaseFailure>
    decreases outcomes.len(),
{
    if outcomes.len() == 0 {
        None
    } else {
        match first_failure(outcomes.drop_last()) {
            Some(failure) => Some(failure),
            None => match outcomes.last() {
                JobOutcome::Failed(reason) => Some(
                    PhaseFailure { job: (outcomes.len() - 1) as usize, reason },
                ),
                JobOutcome::Succeeded => None,
            },
        }
    }
}

/// The summary of a phase whose jobs ended as `outcomes`.
pub open spec fn summary_of(outcomes: Seq<JobOutcome>) -> PhaseSummary {
    PhaseSummary {
        succeeded: count_succeeded(outcomes) as usize,
        failed: (outcomes.len() - count_succeeded(outcomes)) as usize,
        first_failure: first_failure(outcomes),
    }
}

/// The first failure names a job of the list.
pub proof fn lemma_first_failure_in_range(outcomes: Seq<JobOutcome>)
    ensures
        first_failure(outcomes) matches Some(failure) ==> failure.job < outcomes.len(),
    decreases outcomes.len(),
{
    if outcomes.len() > 0 {
        lemma_first_failure_in_range(outcomes.drop_last());
    }
}

/// There is a first failure exactly when not every job succeeded, and it is
/// a failed job before which every job succeeded.
pub proof fn lemma_first_failure(outcomes: Seq<JobOutcome>)
    requires
        outcomes.len() <= usize::MAX,
    ensures
        first_failure(outcomes) is None <==> all_succeeded(outcomes),
        first_failure(outcomes) matches Some(failure) ==> is_first_failure(outcomes, failure),
    decreases outcomes.len(),
{
    if outcomes.len() > 0 {
        let front = outcomes.drop_last();
        lemma_first_failure(front);
        match first_failure(front) {
            Some(failure) => {
                assert(front[failure.job as int] == outcomes[failure.job as int]);
                assert(!(outcomes[failure.job as int] is Succeeded));
                assert forall|j: int| 0 <= j < failure.job implies outcomes[j] is Succeeded by {
                    assert(front[j] is Succeeded);
                }
            },
            None => {
                assert forall|j: int| 0 <= j < front.len() implies outcomes[j] is Succeeded by {
                    assert(front[j] is Succeeded);
                }
                if outcomes.last() is Succeeded {
                } else {
                    assert(!(outcomes[outcomes.len() - 1] is Succeeded));
                }
            },
        }
    }
}

/// At most as many jobs succeeded as there are, and all of them did exactly
/// when none failed.
pub proof fn lemma_count_succeeded(outcomes: Seq<JobOutcome>)
    ensures
        count_succeeded(outcomes) <= outcomes.len(),
        count_succeeded(outcomes) == outcomes.len() <==> all_succeeded(outcomes),
    decreases outcomes.len(),
{
    if outcomes.len() > 0 {
        let front = outcomes.drop_last();
        lemma_count_succeeded(front);
        if count_succeeded(outcomes) == outcomes.len() {
            assert forall|j: int| 0 <= j < outcomes.len() implies outcomes[j] is Succeeded by {
                if j < front.len() {
                    assert(front[j] is Succeeded);
                }
            }
        }
        if all_succeeded(outcomes) {
            assert forall|j: int| 0 <= j < front.len() implies front[j] is Succeeded by {
                assert(outcomes[j] is Succeeded);
            }
        }
    }
}

/// Counts the successes and failures of a phase and finds its first failure,
/// by the order of the job list.
pub fn summarize(outcomes: &Vec<JobOutcome>) -> (summary: PhaseSummary)
    ensures
        summary == summary_of(outcomes@),
        summary.succeeded == count_succeeded(outcomes@),
        summary.succeeded + summary.failed == outcomes.len(),
        summary.first_failure is None <==> all_succeeded(outcomes@),
        summary.first_failure matches Some(failure) ==> is_first_failure(outcomes@, failure),
{
    proof {
        lemma_first_failure(outcomes@);
        lemma_count_succeeded(outcomes@);
    }
    let mut succeeded: usize = 0;
    let mut failed: usize = 0;
    let mut first_failure: Option<PhaseFailure> = None;
    let mut i: usize = 0;
    while i < outcomes.len()
        invariant
            i <= outcomes.len(),
            succeeded == count_succeeded(outcomes@.take(i as int)),
            succeeded + failed == i,
            first_failure == self::first_failure(outcomes@.take(i as int)),
        decreases outcomes.len() - i,
    {
        let ghost after = outcomes@.take(i + 1);
        assert(after.drop_last() == outcomes@.take(i as int));
        assert(after.last() == outcomes@[i as int]);
        match outcomes[i] {
            JobOutcome::Succeeded => {
                succeeded += 1;
            },
            JobOutcome::Failed(reason) => {
                failed += 1;
                if first_failure.is_none() {
                    first_failure = Some(PhaseFailure { job: i, reason });
                }
            },
        }
        i += 1;
    }
    assert(outcomes@.take(outcomes.len() as int) == outcomes@);
    PhaseSummary { succeeded, failed, first_failure }
}

/// The verdict on a phase: success only if every job succeeded, else the first
/// failure by the order of the job list.
pub fn phase_result(outcomes: &Vec<JobOutcome>) -> (result: Result<(), PhaseFailure>)
    ensures
        result is Ok <==> all_succeeded(outcomes@),
        result matches Err(failure) ==> is_first_failure(outcomes@, failure) && first_failure(
            outcomes@,
        ) == Some(failure),
{
    match summarize(outcomes).first_failure {
        None => Ok(()),
        Some(failure) => Err(failure),
    }
}

} // verus!
