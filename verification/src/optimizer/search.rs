//! The course of a search: which step comes next, and when it is over.

use vstd::prelude::*;

verus! {

/// The steps of a search.
#[derive(Debug, Clone, Copy, PartialEq, Eq, Structural)]
pub enum Phase {
    /// The first population is built from the template.
    Initialize,
    /// Every candidate is scored.
    Evaluate,
    /// The candidates are ranked, and the best survive.
    Select,
    /// The survivors have children until the population is full again.
    Reproduce,
    /// The search is over, and the best layout on record is its result.
    Terminate,
}

/// Where a search stands: its step, and how many generations are done.
#[derive(Debug, Clone, Copy, PartialEq, Eq, Structural)]
pub struct Progress {
    pub phase: Phase,
    pub generation: u32,
}

/// The step after `now` in a search of `generation_count` generations.
///
/// A generation is scored, selected from and bred from; with the breeding it
/// is done. The search is over when `generation_count` generations are done,
/// which with a count of zero is right after the first population is built.
/// A search that is over stays so.
pub open spec fn step_after(now: Progress, generation_count: u32) -> Progress {
    match now.phase {
        Phase::Initialize => Progress {
            phase: if now.generation >= generation_count {
                Phase::Terminate
            } else {
                Phase::Evaluate
            },
            generation: now.generation,
        },
        Phase::Evaluate => Progress { phase: Phase::Select, generation: now.generation },
        Phase::Select => Progress { phase: Phase::Reproduce, generation: now.generation },
        Phase::Reproduce => if now.generation >= generation_count {
            Progress { phase: Phase::Terminate, generation: now.generation }
        } else {
            Progress {
                phase: if now.generation + 1 >= generation_count {
                    Phase::Terminate
                } else {
                    Phase::Evaluate
                },
                generation: (now.generation + 1) as u32,
            }
        },
        Phase::Terminate => now,
    }
}

impl Progress {
    /// The start of a search.
    pub fn start() -> (progress: Progress)
        ensures
            progress == (Progress { phase: Phase::Initialize, generation: 0 }),
    {
        Progress { phase: Phase::Initialize, generation: 0 }
    }

    /// The step after this one in a search of `generation_count` generations.
    pub fn advance(&self, generation_count: u32) -> (next: Progress)
        ensures
            next == step_after(*self, generation_count),
    {
        match self.phase {
            Phase::Initialize => Progress {
                phase: if self.generation >= generation_count {
                    Phase::Terminate
                } else {
                    Phase::Evaluate
                },
                generation: self.generation,
            },
            Phase::Evaluate => Progress { phase: Phase::Select, generation: self.generation },
            Phase::Select => Progress { phase: Phase::Reproduce, generation: self.generation },
            Phase::Reproduce => if self.generation >= generation_count {
                Progress { phase: Phase::Terminate, generation: self.generation }
            } else {
                Progress {
                    phase: if self.generation + 1 >= generation_count {
                        Phase::Terminate
                    } else {
                        Phase::Evaluate
                    },
                    generation: self.generation + 1,
                }
            },
            Phase::Terminate => *self,
        }
    }

    /// Whether the search is over.
    pub fn is_over(&self) -> (over: bool)
        ensures
            over == (self.phase == Phase::Terminate),
    {
        self.phase == Phase::Terminate
    }
}

/// The generations that are done are never more than the search has, as
/// long as they were not more to begin with, and they never become fewer.
pub proof fn lemma_generations_stay_in_bounds(now: Progress, generation_count: u32)
    requires
        now.generation <= generation_count,
    ensures
        step_after(now, generation_count).generation <= generation_count,
        step_after(now, generation_count).generation >= now.generation,
{
}

} // verus!
