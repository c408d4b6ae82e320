use vstd::prelude::*;

verus! {

/// Period of the movement tick, in nanoseconds.
pub const TICK_DURATION_NANOS: u64 = 600_000_000;

/// Period of the hunger tick, in nanoseconds.
pub const HUNGER_TICK_DURATION_NANOS: u64 = 3_000_000_000;

/// A periodic gate: it admits one sweep each time its period has elapsed. Time is
/// carried over modulo the period; several elapsed periods still admit a single sweep.
#[derive(Clone, Copy, Debug, PartialEq, Eq, Structural)]
pub struct TickGate {
    period: u64,
    elapsed: u64,
}

impl TickGate {
    pub closed spec fn period_spec(self) -> nat {
        self.period as nat
    }

    pub closed spec fn elapsed_spec(self) -> nat {
        self.elapsed as nat
    }

    /// Time since the last admitted sweep stays below the period.
    pub open spec fn wf(self) -> bool {
        0 < self.period_spec() && self.elapsed_spec() < self.period_spec()
    }

    pub fn new(period: u64) -> (r: TickGate)
        requires
            period > 0,
        ensures
            r.period_spec() == period,
            r.elapsed_spec() == 0,
            r.wf(),
    {
        TickGate { period, elapsed: 0 }
    }

    /// Lets `delta` nanoseconds pass; returns whether a sweep is admitted.
    pub fn advance(&mut self, delta: u64) -> (admitted: bool)
        requires
            old(self).wf(),
        ensures
            final(self).wf(),
            final(self).period_spec() == old(self).period_spec(),
            admitted == (old(self).elapsed_spec() + delta >= old(self).period_spec()),
            final(self).elapsed_spec() == (old(self).elapsed_spec() + delta) % (old(
                self,
            ).period_spec() as int),
    {
        let total: u128 = self.elapsed as u128 + delta as u128;
        if total >= self.period as u128 {
            self.elapsed = (total % (self.period as u128)) as u64;
            true
        } else {
            proof {
                vstd::arithmetic::div_mod::lemma_small_mod(total as nat, self.period as nat);
            }
            self.elapsed = total as u64;
            false
        }
    }
}

/// The two gates of the simulation: the movement tick and the slower hunger tick.
#[derive(Clone, Copy, Debug, PartialEq, Eq, Structural)]
pub struct Schedule {
    pub movement: TickGate,
    pub hunger: TickGate,
}

impl Schedule {
    pub open spec fn wf(self) -> bool {
        self.movement.wf() && self.hunger.wf()
    }

    pub fn new() -> (r: Schedule)
        ensures
            r.wf(),
            r.movement.period_spec() == TICK_DURATION_NANOS,
            r.hunger.period_spec() == HUNGER_TICK_DURATION_NANOS,
            r.movement.elapsed_spec() == 0,
            r.hunger.elapsed_spec() == 0,
    {
        Schedule {
            movement: TickGate::new(TICK_DURATION_NANOS),
            hunger: TickGate::new(HUNGER_TICK_DURATION_NANOS),
        }
    }

    /// Lets `delta` nanoseconds pass on both gates; returns which of them admit a sweep
    /// (movement, hunger).
    pub fn advance(&mut self, delta: u64) -> (r: (bool, bool))
        requires
            old(self).wf(),
        ensures
            final(self).wf(),
            r.0 == (old(self).movement.elapsed_spec() + delta >= old(
                self,
            ).movement.period_spec()),
            r.1 == (old(self).hunger.elapsed_spec() + delta >= old(self).hunger.period_spec()),
            final(self).movement.period_spec() == old(self).movement.period_spec(),
            final(self).hunger.period_spec() == old(self).hunger.period_spec(),
            final(self).movement.elapsed_spec() == (old(self).movement.elapsed_spec() + delta)
                % (old(self).movement.period_spec() as int),
            final(self).hunger.elapsed_spec() == (old(self).hunger.elapsed_spec() + delta) % (old(
                self,
            ).hunger.period_spec() as int),
    {
        let m = self.movement.advance(delta);
        let h = self.hunger.advance(delta);
        (m, h)
    }
}

} // verus!
