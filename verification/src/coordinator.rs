//! Fanning an input out into workers, and summing up how they ended.

use crate::input::{InputSpecification, InputView};
use crate::splitter::{SplitError, Splitter, SplitterState, SplitterView};
use vstd::prelude::*;
use vstd::string::*;

verus! {

/// Why no worker could be made for an input.
#[derive(Clone, Copy, Debug, PartialEq, Eq, Structural)]
pub enum IngestionError {
    /// The input is a directory whose entries could not be listed.
    DirectoryUnreadable,
}

/// The paths of a listing, in its order.
pub open spec fn paths_of(entries: Vec<String>) -> Seq<Seq<char>> {
    Seq::new(entries.len() as nat, |i: int| entries[i]@)
}

/// The paths that get a worker each: the input path itself where it is no
/// directory, else every entry of the listing, sub-directories too, in the
/// listing's order. `None` where a directory has no listing.
pub open spec fn planned_paths(input: InputView, listing: Option<Seq<Seq<char>>>) -> Option<
    Seq<Seq<char>>,
> {
    if input.is_directory {
        listing
    } else {
        Some(seq![input.path])
    }
}

/// The workers for `input`, none of them started: one for the input path
/// where it is no directory, else one for each entry of `listing`, in its
/// order. `listing` holds the paths of the directory's immediate entries, or
/// `None` where they could not be listed; for an input that is no directory it
/// is not looked at.
pub fn fan_out(input: &InputSpecification, listing: Option<Vec<String>>) -> (workers: Result<
    Vec<Splitter>,
    IngestionError,
>)
    ensures
        match planned_paths(
            input@,
            match listing {
                Some(entries) => Some(paths_of(entries)),
                None => None,
            },
        ) {
            Some(paths) => {
                &&& workers is Ok
                &&& workers->Ok_0.len() == paths.len()
                &&& forall|i: int|
                    0 <= i < paths.len() ==> (#[trigger] workers->Ok_0[i])@ == SplitterView::initial(
                        paths[i],
                        input@.filter,
                    )
            },
            None => workers is Err && workers->Err_0 == IngestionError::DirectoryUnreadable,
        },
{
    let mut workers: Vec<Splitter> = Vec::new();
    if !input.is_directory() {
        workers.push(Splitter::new(String::from_str(input.path()), String::from_str(input.filter())));
        return Ok(workers);
    }
    match listing {
        None => Err(IngestionError::DirectoryUnreadable),
        Some(entries) => {
            let mut i: usize = 0;
            while i < entries.len()
                invariant
                    i <= entries.len(),
                    workers.len() == i,
                    forall|k: int|
                        0 <= k < i ==> (#[trigger] workers[k])@ == SplitterView::initial(
                            entries[k]@,
                            input@.filter,
                        ),
                decreases entries.len() - i,
            {
                let worker = Splitter::new(entries[i].clone(), String::from_str(input.filter()));
                workers.push(worker);
                i += 1;
            }
            Ok(workers)
        },
    }
}

/// How one worker ended.
#[derive(Clone, Copy, Debug, PartialEq, Eq, Structural)]
pub enum WorkerOutcome {
    /// The capture was split to its end, or its path was passed over.
    Completed,
    /// The worker gave up.
    Failed(SplitError),
    /// The worker was left before it had finished.
    Abandoned,
}

/// How a worker that is left in `state` ended.
pub open spec fn outcome_of(state: SplitterState) -> WorkerOutcome {
    match state {
        SplitterState::Done => WorkerOutcome::Completed,
        SplitterState::Errored(reason) => WorkerOutcome::Failed(reason),
        _ => WorkerOutcome::Abandoned,
    }
}

/// How a worker that is left in `state` ended.
pub fn outcome(state: SplitterState) -> (ended: WorkerOutcome)
    ensures
        ended == outcome_of(state),
{
    match state {
        SplitterState::Done => WorkerOutcome::Completed,
        SplitterState::Errored(reason) => WorkerOutcome::Failed(reason),
        _ => WorkerOutcome::Abandoned,
    }
}

/// How many of `outcomes` are `Completed`.
pub open spec fn completed_among(outcomes: Seq<WorkerOutcome>) -> nat
    decreases outcomes.len(),
{
    if outcomes.len() == 0 {
        0
    } else {
        completed_among(outcomes.drop_last()) + if outcomes.last() is Completed {
            1nat
        } else {
            0nat
        }
    }
}

/// The count of workers that completed and of those that did not.
#[derive(Clone, Copy, Debug, PartialEq, Eq, Structural)]
pub struct RunSummary {
    pub completed: usize,
    pub failed: usize,
}

impl RunSummary {
    /// The process exit code that reports the run: 0 where every worker
    /// completed, 1 where any did not.
    pub fn exit_code(&self) -> (code: i32)
        ensures
            code == if self.failed == 0 {
                0i32
            } else {
                1i32
            },
    {
        if self.failed == 0 {
            0
        } else {
            1
        }
    }
}

/// Sums up a run from how each of its workers ended: every worker is counted
/// once, as completed or as failed.
pub fn summarize(outcomes: &Vec<WorkerOutcome>) -> (summary: RunSummary)
    ensures
        summary.completed == completed_among(outcomes@),
        summary.completed + summary.failed == outcomes.len(),
{
    let mut completed: usize = 0;
    let mut failed: usize = 0;
    let mut i: usize = 0;
    while i < outcomes.len()
        invariant
            i <= outcomes.len(),
            completed == completed_among(outcomes@.take(i as int)),
            completed + failed == i,
        decreases outcomes.len() - i,
    {
        proof {
            assert(outcomes@.take(i + 1).drop_last() =~= outcomes@.take(i as int));
        }
        match outcomes[i] {
            WorkerOutcome::Completed => {
                completed += 1;
            },
            _ => {
                failed += 1;
            },
        }
        i += 1;
    }
    proof {
        assert(outcomes@.take(outcomes.len() as int) =~= outcomes@);
    }
    RunSummary { completed, failed }
}

} // verus!
