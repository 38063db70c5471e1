//! Fixed-timestep frame scheduler.
//!
//! The driving loop measures wall-clock time elapsed since the previous
//! frame and hands it to [`FrameScheduler::advance`], which converts the
//! accumulated time debt into a bounded number of discrete simulation
//! steps.  At most `max_steps` steps run per frame; the remaining debt is
//! carried forward, never discarded, so under sustained overload the
//! simulation falls behind wall-clock time instead of stalling.

use vstd::prelude::*;

use vstd::arithmetic::div_mod::lemma_div_by_multiple;
use vstd::arithmetic::div_mod::lemma_div_is_ordered;
use vstd::arithmetic::div_mod::lemma_fundamental_div_mod_converse;
use vstd::math::min;

verus! {

/// Converts wall-clock elapsed time into discrete simulation steps of a
/// fixed size, at most `max_steps` per rendered frame.
///
/// Time is measured in any integer unit the caller likes, as long as
/// `dt_sim` and the elapsed values handed to [`Self::advance`] use the
/// same unit.
pub struct FrameScheduler {
    /// Length of one simulation step.
    pub dt_sim: u64,
    /// Largest number of steps one frame may run.
    pub max_steps: u64,
    /// Accumulated time not yet consumed by simulation steps.
    pub debt: u64,
}

impl FrameScheduler {
    pub open spec fn wf(&self) -> bool {
        self.dt_sim >= 1
    }

    /// The number of steps a frame with total debt `total` runs.
    pub open spec fn spec_steps(total: int, dt_sim: int, max_steps: int) -> int {
        min(max_steps, total / dt_sim)
    }

    pub fn new(dt_sim: u64, max_steps: u64) -> (r: FrameScheduler)
        requires
            dt_sim >= 1,
        ensures
            r.wf(),
            r.dt_sim == dt_sim,
            r.max_steps == max_steps,
            r.debt == 0,
    {
        FrameScheduler { dt_sim, max_steps, debt: 0 }
    }

    /// Adds `elapsed` to the time debt and converts the debt into steps:
    /// the frame runs `min(max_steps, debt / dt_sim)` steps, and exactly
    /// the time those steps consumed leaves the debt — the remainder is
    /// carried forward, never negative and never reset.
    pub fn advance(&mut self, elapsed: u64) -> (steps: u64)
        requires
            old(self).wf(),
            old(self).debt + elapsed <= u64::MAX,
        ensures
            final(self).wf(),
            final(self).dt_sim == old(self).dt_sim,
            final(self).max_steps == old(self).max_steps,
            steps as int == Self::spec_steps(
                old(self).debt + elapsed,
                old(self).dt_sim as int,
                old(self).max_steps as int,
            ),
            steps <= old(self).max_steps,
            final(self).debt == old(self).debt + elapsed - steps * old(self).dt_sim,
    {
        let total: u64 = self.debt + elapsed;
        let mut t: u64 = total;
        let mut steps: u64 = 0;
        while steps < self.max_steps && t >= self.dt_sim
            invariant
                self == old(self),
                self.dt_sim >= 1,
                steps <= self.max_steps,
                t == total - steps * self.dt_sim,
                t >= 0,
            decreases self.max_steps - steps,
        {
            t = t - self.dt_sim;
            steps = steps + 1;
            proof {
                assert(steps * self.dt_sim == (steps - 1) * self.dt_sim + self.dt_sim)
                    by (nonlinear_arith);
            }
        }
        proof {
            let d: int = self.dt_sim as int;
            if t < self.dt_sim {
                lemma_fundamental_div_mod_converse(total as int, d, steps as int, t as int);
                assert(steps as int == total as int / d);
            } else {
                assert(steps == self.max_steps);
                assert((steps as int) * d <= total as int);
                lemma_div_is_ordered((steps as int) * d, total as int, d);
                lemma_div_by_multiple(steps as int, d);
                assert(steps as int <= total as int / d);
            }
        }
        self.debt = t;
        steps
    }
}

} // verus!
