//! The GJK time-of-impact test of two moving primitives, as a state machine.
//!
//! Both primitives move in a straight line from a start to an end transform; `r` is the
//! difference of their displacements and `lambda` (starting at 0) the time of impact
//! found so far, 1 being the end of the motion. The caller starts the simplex with the
//! support point along `-r` and takes its position as the search direction `d`; it
//! holds the simplex, `d` and `lambda`, serves the step that the run asks for and
//! reports what the geometry gave.
use vstd::prelude::*;
use crate::MAX_ITERATIONS;

verus! {

/// What the caller does next.
#[derive(PartialEq, Eq, Structural, Clone, Copy, Debug)]
pub enum ImpactStep {
    /// Report whether `lambda` is past the end of the motion (`lambda > 1`) and whether
    /// `d` is at the origin (squared length within the tolerance).
    CheckProgress,
    /// Compute the support point `p` along `-d` at the current transforms and report
    /// whether `dot(d, p) > 0` and whether `dot(d, r) >= -tolerance`.
    Support,
    /// When `advance` holds, move `lambda` to `lambda - dot(d, p) / dot(d, r)` and
    /// interpolate both transforms to it; then put `p` in the simplex, reduce it to its
    /// feature closest to the origin (which updates `d`); report whether `lambda` is
    /// past the end of the motion and whether the simplex encloses the origin.
    Reduce { advance: bool },
    /// The primitives meet: the time of impact is `lambda`, which is not past the end
    /// of the motion.
    Impact,
    /// The primitives do not meet during the motion.
    NoImpact,
}

/// One run of the time-of-impact test.
pub struct ImpactRun {
    step: ImpactStep,
    rounds: u32,
}

impl ImpactRun {
    /// The step the caller serves next.
    pub closed spec fn spec_step(self) -> ImpactStep {
        self.step
    }

    /// Rounds completed without a result.
    pub closed spec fn spec_rounds(self) -> nat {
        self.rounds as nat
    }

    pub closed spec fn wf(self) -> bool {
        match self.step {
            ImpactStep::Impact | ImpactStep::NoImpact => self.rounds <= MAX_ITERATIONS,
            _ => self.rounds < MAX_ITERATIONS,
        }
    }

    /// An upper bound on the reports the run still takes before it finishes.
    pub open spec fn remaining_reports(self) -> nat {
        let left = (MAX_ITERATIONS - self.spec_rounds()) as nat;
        match self.spec_step() {
            ImpactStep::CheckProgress => 3 * left,
            ImpactStep::Support => (3 * left - 1) as nat,
            ImpactStep::Reduce { .. } => (3 * left - 2) as nat,
            _ => 0,
        }
    }

    /// Start a run: the first step checks the initial search direction.
    pub fn new() -> (r: ImpactRun)
        ensures
            r.wf(),
            r.spec_step() == ImpactStep::CheckProgress,
            r.spec_rounds() == 0,
            r.remaining_reports() == 3 * MAX_ITERATIONS,
    {
        ImpactRun { step: ImpactStep::CheckProgress, rounds: 0 }
    }

    /// The step the caller serves next.
    pub fn step(&self) -> (s: ImpactStep)
        ensures
            s == self.spec_step(),
    {
        self.step
    }

    /// Report whether `lambda` is past the end of the motion (no impact) and whether `d`
    /// is at the origin (an impact at `lambda`). A time past the end of the motion is a
    /// miss, so the first takes precedence: an impact always lies within the motion.
    pub fn report_progress(&mut self, past_end: bool, at_origin: bool)
        requires
            old(self).wf(),
            old(self).spec_step() is CheckProgress,
        ensures
            final(self).wf(),
            final(self).spec_rounds() == old(self).spec_rounds(),
            final(self).spec_step() == (if past_end {
                ImpactStep::NoImpact
            } else if at_origin {
                ImpactStep::Impact
            } else {
                ImpactStep::Support
            }),
            final(self).spec_step() is Impact ==> !past_end,
            final(self).remaining_reports() < old(self).remaining_reports(),
    {
        if past_end {
            self.step = ImpactStep::NoImpact;
        } else if at_origin {
            self.step = ImpactStep::Impact;
        } else {
            self.step = ImpactStep::Support;
        }
    }

    /// Report whether the support point lies ahead along `d` and whether the relative
    /// motion does not close in along `d`. Both together mean that the primitives
    /// never meet; a support point ahead alone moves `lambda` forward.
    pub fn report_support(&mut self, ahead: bool, not_closing: bool)
        requires
            old(self).wf(),
            old(self).spec_step() is Support,
        ensures
            final(self).wf(),
            final(self).spec_rounds() == old(self).spec_rounds(),
            final(self).spec_step() == (if ahead && not_closing {
                ImpactStep::NoImpact
            } else {
                ImpactStep::Reduce { advance: ahead }
            }),
            final(self).remaining_reports() < old(self).remaining_reports(),
    {
        if ahead && not_closing {
            self.step = ImpactStep::NoImpact;
        } else {
            self.step = ImpactStep::Reduce { advance: ahead };
        }
    }

    /// Report whether `lambda`, once this step has moved it, is past the end of the
    /// motion (no impact) and whether the reduced simplex encloses the origin (an impact
    /// at `lambda`); the first takes precedence. Otherwise the next round starts, unless
    /// `MAX_ITERATIONS` rounds are spent.
    pub fn report_reduction(&mut self, past_end: bool, encloses_origin: bool)
        requires
            old(self).wf(),
            old(self).spec_step() is Reduce,
        ensures
            final(self).wf(),
            past_end ==> final(self).spec_step() is NoImpact && final(self).spec_rounds()
                == old(self).spec_rounds(),
            !past_end && encloses_origin ==> final(self).spec_step() is Impact
                && final(self).spec_rounds() == old(self).spec_rounds(),
            !past_end && !encloses_origin ==> {
                &&& final(self).spec_rounds() == old(self).spec_rounds() + 1
                &&& final(self).spec_step() == if old(self).spec_rounds() + 1 < MAX_ITERATIONS {
                    ImpactStep::CheckProgress
                } else {
                    ImpactStep::NoImpact
                }
            },
            final(self).spec_step() is Impact ==> !past_end,
            final(self).remaining_reports() < old(self).remaining_reports(),
    {
        if past_end {
            self.step = ImpactStep::NoImpact;
        } else if encloses_origin {
            self.step = ImpactStep::Impact;
        } else {
            self.rounds = self.rounds + 1;
            if self.rounds < MAX_ITERATIONS {
                self.step = ImpactStep::CheckProgress;
            } else {
                self.step = ImpactStep::NoImpact;
            }
        }
    }
}

} // verus!
