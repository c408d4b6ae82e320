use vstd::prelude::*;

use crate::hunger::min;

verus! {

/// Goal of the points stat that every agent receives.
pub const DEFAULT_POINTS_GOAL: usize = 10;

/// Points an agent has earned, never more than its goal.
#[derive(Clone, Copy, Debug, PartialEq, Eq, Structural)]
pub struct Points {
    current: usize,
    goal: usize,
}

impl Points {
    pub closed spec fn earned(self) -> nat {
        self.current as nat
    }

    pub closed spec fn target(self) -> nat {
        self.goal as nat
    }

    /// `0 <= current <= goal`.
    pub open spec fn wf(self) -> bool {
        self.earned() <= self.target()
    }

    /// No points yet, toward `goal`.
    pub fn new(goal: usize) -> (r: Points)
        ensures
            r.earned() == 0,
            r.target() == goal,
            r.wf(),
    {
        Points { current: 0, goal }
    }

    pub fn current(&self) -> (r: usize)
        ensures
            r == self.earned(),
    {
        self.current
    }

    pub fn goal(&self) -> (r: usize)
        ensures
            r == self.target(),
    {
        self.goal
    }

    /// Adds `monetary_value`, clamped to the goal.
    pub fn earn(&mut self, monetary_value: usize)
        requires
            old(self).wf(),
        ensures
            final(self).earned() == min(old(self).earned() + monetary_value, old(self).target() as int),
            final(self).target() == old(self).target(),
            final(self).wf(),
    {
        let sum = self.current.saturating_add(monetary_value);
        self.current = if sum < self.goal {
            sum
        } else {
            self.goal
        };
    }
}

} // verus!
