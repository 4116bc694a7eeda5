//! Adaptive backoff for spin-waits on a latency-critical path: pause hints
//! for the first few steps of a wait, then yielding the time slice, built
//! on the relax strategies of the `spin` crate.
use vstd::prelude::*;
use spin::relax::RelaxStrategy;

verus! {

/// Number of pause-hint steps before a wait starts yielding.
pub const SPIN_LOOPS: u32 = 64;

/// How one step of a wait relaxes.
#[derive(Clone, Copy, Debug, PartialEq, Eq, Structural)]
pub enum Relax {
    /// A CPU pause hint.
    Spin,
    /// Hand the time slice back to the scheduler.
    Yield,
}

/// The relax strategy of the step taken after `steps` steps.
pub open spec fn relax_for(steps: u32) -> Relax {
    if steps < SPIN_LOOPS { Relax::Spin } else { Relax::Yield }
}

/// Calls `spin::relax::Spin::relax`, a CPU pause hint. Nothing is
/// promised of it beyond returning.
#[verifier::external_body]
fn relax_spin() {
    spin::relax::Spin::relax();
}

/// Calls `spin::relax::Yield::relax`, which yields the current time slice
/// to the scheduler. Nothing is promised of it beyond returning.
#[verifier::external_body]
fn relax_yield() {
    spin::relax::Yield::relax();
}

/// Adaptive backoff scoped to a single wait.
pub struct Backoff {
    counter: u32,
}

impl Backoff {
    /// Steps taken so far (wrapping).
    pub closed spec fn spec_steps(&self) -> u32 {
        self.counter
    }

    /// Starts a fresh wait.
    pub fn new() -> (b: Backoff)
        ensures
            b.spec_steps() == 0,
    {
        Backoff { counter: 0 }
    }

    /// The strategy the next step uses.
    pub fn next_relax(&self) -> (r: Relax)
        ensures
            r == relax_for(self.spec_steps()),
    {
        if self.counter < SPIN_LOOPS {
            Relax::Spin
        } else {
            Relax::Yield
        }
    }

    /// Advances the wait by one step: a pause hint while the wait is short,
    /// a yield once it turns long. Call repeatedly until the wait succeeds.
    pub fn wait(&mut self) -> (r: Relax)
        ensures
            r == relax_for(old(self).spec_steps()),
            final(self).spec_steps() == old(self).spec_steps().wrapping_add(1),
    {
        let r = self.next_relax();
        match r {
            Relax::Spin => relax_spin(),
            Relax::Yield => relax_yield(),
        }
        self.counter = self.counter.wrapping_add(1);
        r
    }

    /// How many steps this wait has taken (wrapping).
    pub fn loom_spins(&self) -> (n: u32)
        ensures
            n == self.spec_steps(),
    {
        self.counter
    }
}

} // verus!
