use vstd::prelude::*;

verus! {

/// Capacity of the hunger stat that agents receive once hunger is enabled.
pub const DEFAULT_HUNGER_CAPACITY: usize = 10;

/// The smaller of two integers.
pub open spec fn min(a: int, b: int) -> int {
    if a <= b {
        a
    } else {
        b
    }
}

/// How long an agent can go without eating: `remaining` counts down once per hunger
/// tick, and eating refills it up to `capacity`.
#[derive(Clone, Copy, Debug, PartialEq, Eq, Structural)]
pub struct Hunger {
    remaining: usize,
    capacity: usize,
}

impl Hunger {
    pub closed spec fn level(self) -> nat {
        self.remaining as nat
    }

    pub closed spec fn cap(self) -> nat {
        self.capacity as nat
    }

    /// `0 <= remaining <= capacity`.
    pub open spec fn wf(self) -> bool {
        self.level() <= self.cap()
    }

    /// Whether `remaining / capacity < numerator / denominator`.
    pub open spec fn below(self, numerator: nat, denominator: nat) -> bool {
        self.level() * denominator < numerator * self.cap()
    }

    /// A full stat of the given capacity.
    pub fn new(capacity: usize) -> (r: Hunger)
        ensures
            r.level() == capacity,
            r.cap() == capacity,
            r.wf(),
    {
        Hunger { remaining: capacity, capacity }
    }

    pub fn remaining(&self) -> (r: usize)
        ensures
            r == self.level(),
    {
        self.remaining
    }

    pub fn capacity(&self) -> (r: usize)
        ensures
            r == self.cap(),
    {
        self.capacity
    }

    /// Adds `nutritional_value`, clamped to the capacity.
    pub fn eat(&mut self, nutritional_value: usize)
        requires
            old(self).wf(),
        ensures
            final(self).level() == min(old(self).level() + nutritional_value, old(self).cap() as int),
            final(self).cap() == old(self).cap(),
            final(self).wf(),
    {
        let sum = self.remaining.saturating_add(nutritional_value);
        self.remaining = if sum < self.capacity {
            sum
        } else {
            self.capacity
        };
    }

    /// One hunger tick: `remaining` goes down by one (it stays at zero). Returns whether
    /// it is now zero, which means the agent starves.
    pub fn decay(&mut self) -> (starved: bool)
        requires
            old(self).wf(),
        ensures
            final(self).level() == (if old(self).level() > 0 {
                old(self).level() - 1
            } else {
                0
            }),
            final(self).cap() == old(self).cap(),
            final(self).wf(),
            starved == (final(self).level() == 0),
    {
        if self.remaining > 0 {
            self.remaining = self.remaining - 1;
        }
        self.remaining == 0
    }

    /// Whether the fraction of hunger left is below `numerator / denominator`.
    pub fn is_below(&self, numerator: usize, denominator: usize) -> (r: bool)
        ensures
            r == self.below(numerator as nat, denominator as nat),
    {
        proof {
            assert(self.remaining * denominator <= usize::MAX * usize::MAX) by (nonlinear_arith);
            assert(numerator * self.capacity <= usize::MAX * usize::MAX) by (nonlinear_arith);
        }
        (self.remaining as u128) * (denominator as u128) < (numerator as u128) * (self.capacity as u128)
    }
}

} // verus!
