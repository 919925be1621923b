//! The GJK intersection test of two primitives, as a state machine.
//!
//! The caller holds the simplex and the search direction `d`, which starts as the
//! vector from the left primitive's origin to the right one's. It serves the step that
//! the run asks for and reports what the geometry gave; the run decides what comes
//! next. A hit means that the simplex encloses the origin of the Minkowski difference.
use vstd::prelude::*;
use crate::MAX_ITERATIONS;

verus! {

/// What the caller does next.
#[derive(PartialEq, Eq, Structural, Clone, Copy, Debug)]
pub enum IntersectStep {
    /// Compute the support point of the Minkowski difference along `d` and report
    /// whether it lies beyond the origin (`dot(support, d) > 0`).
    InitialSupport,
    /// Put the support point in the simplex, negate `d`, compute the support point
    /// along the new `d` and report whether it lies beyond the origin.
    FlipThenSupport,
    /// Compute the support point along `d` and report whether it lies beyond the
    /// origin.
    Support,
    /// Put the support point in the simplex, reduce the simplex to its feature closest
    /// to the origin (which updates `d`) and report whether it encloses the origin.
    PushThenReduce,
    /// The primitives intersect: the simplex encloses the origin.
    Hit,
    /// The primitives do not intersect (or no enclosing simplex was found within
    /// `MAX_ITERATIONS` rounds).
    Miss,
}

/// One run of the intersection test.
pub struct IntersectRun {
    step: IntersectStep,
    rounds: u32,
}

impl IntersectRun {
    /// The step the caller serves next.
    pub closed spec fn spec_step(self) -> IntersectStep {
        self.step
    }

    /// Refinement rounds completed without an enclosing simplex.
    pub closed spec fn spec_rounds(self) -> nat {
        self.rounds as nat
    }

    pub closed spec fn wf(self) -> bool {
        match self.step {
            IntersectStep::Hit | IntersectStep::Miss => self.rounds <= MAX_ITERATIONS,
            _ => self.rounds < MAX_ITERATIONS,
        }
    }

    /// An upper bound on the reports the run still takes before it finishes.
    pub open spec fn remaining_reports(self) -> nat {
        let left = (MAX_ITERATIONS - self.spec_rounds()) as nat;
        match self.spec_step() {
            IntersectStep::InitialSupport => 2 * left + 1,
            IntersectStep::FlipThenSupport | IntersectStep::Support => 2 * left,
            IntersectStep::PushThenReduce => (2 * left - 1) as nat,
            _ => 0,
        }
    }

    /// Start a run: the first step is the support point along `d`.
    pub fn new() -> (r: IntersectRun)
        ensures
            r.wf(),
            r.spec_step() == IntersectStep::InitialSupport,
            r.spec_rounds() == 0,
            r.remaining_reports() == 2 * MAX_ITERATIONS + 1,
    {
        IntersectRun { step: IntersectStep::InitialSupport, rounds: 0 }
    }

    /// The step the caller serves next.
    pub fn step(&self) -> (s: IntersectStep)
        ensures
            s == self.spec_step(),
    {
        self.step
    }

    /// Report whether the support point just computed lies beyond the origin along `d`.
    /// If it does not, the origin lies outside the Minkowski difference: a miss.
    pub fn report_support(&mut self, beyond_origin: bool)
        requires
            old(self).wf(),
            old(self).spec_step() is InitialSupport || old(self).spec_step() is FlipThenSupport
                || old(self).spec_step() is Support,
        ensures
            final(self).wf(),
            final(self).spec_rounds() == old(self).spec_rounds(),
            final(self).spec_step() == (if !beyond_origin {
                IntersectStep::Miss
            } else if old(self).spec_step() is InitialSupport {
                IntersectStep::FlipThenSupport
            } else {
                IntersectStep::PushThenReduce
            }),
            final(self).remaining_reports() < old(self).remaining_reports(),
    {
        if !beyond_origin {
            self.step = IntersectStep::Miss;
        } else if self.step == IntersectStep::InitialSupport {
            self.step = IntersectStep::FlipThenSupport;
        } else {
            self.step = IntersectStep::PushThenReduce;
        }
    }

    /// Report whether the reduced simplex encloses the origin. If it does not, the next
    /// round starts, unless `MAX_ITERATIONS` rounds are spent.
    pub fn report_reduction(&mut self, encloses_origin: bool)
        requires
            old(self).wf(),
            old(self).spec_step() is PushThenReduce,
        ensures
            final(self).wf(),
            encloses_origin ==> final(self).spec_step() is Hit && final(self).spec_rounds()
                == old(self).spec_rounds(),
            !encloses_origin ==> {
                &&& final(self).spec_rounds() == old(self).spec_rounds() + 1
                &&& final(self).spec_step() == if old(self).spec_rounds() + 1 < MAX_ITERATIONS {
                    IntersectStep::Support
                } else {
                    IntersectStep::Miss
                }
            },
            final(self).remaining_reports() < old(self).remaining_reports(),
    {
        if encloses_origin {
            self.step = IntersectStep::Hit;
        } else {
            self.rounds = self.rounds + 1;
            if self.rounds < MAX_ITERATIONS {
                self.step = IntersectStep::Support;
            } else {
                self.step = IntersectStep::Miss;
            }
        }
    }
}

} // verus!
