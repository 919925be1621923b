//! The GJK distance computation of two primitives, as a state machine.
//!
//! The caller starts the simplex with the support points of the Minkowski difference
//! along the vector between the primitives' origins and along its opposite, and holds
//! the simplex and the search direction; it serves the step that the run asks for and
//! reports what the geometry gave.
use vstd::prelude::*;
use crate::MAX_ITERATIONS;

verus! {

/// What the caller does next.
#[derive(PartialEq, Eq, Structural, Clone, Copy, Debug)]
pub enum DistanceStep {
    /// Reduce the simplex to its point closest to the origin and report whether that
    /// point is the origin itself (equal to zero within ulps).
    ClosestPoint,
    /// Negate the closest point into the search direction `d`, compute the support
    /// point `p` along `d` and report whether `dot(p, d) - dot(simplex[0], d)` is below
    /// the distance tolerance; if it is not, put `p` in the simplex.
    Support,
    /// The primitives are apart: their distance is the length of `d`.
    Separated,
    /// The closest point is the origin: the primitives touch or overlap, and have no
    /// distance.
    Overlapping,
    /// `MAX_ITERATIONS` rounds passed without convergence: no distance is returned.
    Exhausted,
}

/// One run of the distance computation.
pub struct DistanceRun {
    step: DistanceStep,
    rounds: u32,
}

impl DistanceRun {
    /// The step the caller serves next.
    pub closed spec fn spec_step(self) -> DistanceStep {
        self.step
    }

    /// Rounds completed without convergence.
    pub closed spec fn spec_rounds(self) -> nat {
        self.rounds as nat
    }

    pub closed spec fn wf(self) -> bool {
        match self.step {
            DistanceStep::ClosestPoint | DistanceStep::Support => self.rounds < MAX_ITERATIONS,
            _ => self.rounds <= MAX_ITERATIONS,
        }
    }

    /// An upper bound on the reports the run still takes before it finishes.
    pub open spec fn remaining_reports(self) -> nat {
        let left = (MAX_ITERATIONS - self.spec_rounds()) as nat;
        match self.spec_step() {
            DistanceStep::ClosestPoint => 2 * left,
            DistanceStep::Support => (2 * left - 1) as nat,
            _ => 0,
        }
    }

    /// Start a run: the first step is the closest point of the two-point simplex.
    pub fn new() -> (r: DistanceRun)
        ensures
            r.wf(),
            r.spec_step() == DistanceStep::ClosestPoint,
            r.spec_rounds() == 0,
            r.remaining_reports() == 2 * MAX_ITERATIONS,
    {
        DistanceRun { step: DistanceStep::ClosestPoint, rounds: 0 }
    }

    /// The step the caller serves next.
    pub fn step(&self) -> (s: DistanceStep)
        ensures
            s == self.spec_step(),
    {
        self.step
    }

    /// Report whether the closest point of the simplex is the origin.
    pub fn report_closest(&mut self, at_origin: bool)
        requires
            old(self).wf(),
            old(self).spec_step() is ClosestPoint,
        ensures
            final(self).wf(),
            final(self).spec_rounds() == old(self).spec_rounds(),
            final(self).spec_step() == (if at_origin {
                DistanceStep::Overlapping
            } else {
                DistanceStep::Support
            }),
            final(self).remaining_reports() < old(self).remaining_reports(),
    {
        if at_origin {
            self.step = DistanceStep::Overlapping;
        } else {
            self.step = DistanceStep::Support;
        }
    }

    /// Report whether the new support point advanced less than the tolerance, in which
    /// case the distance is found; otherwise the next round starts, unless
    /// `MAX_ITERATIONS` rounds are spent.
    pub fn report_support(&mut self, converged: bool)
        requires
            old(self).wf(),
            old(self).spec_step() is Support,
        ensures
            final(self).wf(),
            converged ==> final(self).spec_step() is Separated && final(self).spec_rounds()
                == old(self).spec_rounds(),
            !converged ==> {
                &&& final(self).spec_rounds() == old(self).spec_rounds() + 1
                &&& final(self).spec_step() == if old(self).spec_rounds() + 1 < MAX_ITERATIONS {
                    DistanceStep::ClosestPoint
                } else {
                    DistanceStep::Exhausted
                }
            },
            final(self).remaining_reports() < old(self).remaining_reports(),
    {
        if converged {
            self.step = DistanceStep::Separated;
        } else {
            self.rounds = self.rounds + 1;
            if self.rounds < MAX_ITERATIONS {
                self.step = DistanceStep::ClosestPoint;
            } else {
                self.step = DistanceStep::Exhausted;
            }
        }
    }
}

} // verus!
