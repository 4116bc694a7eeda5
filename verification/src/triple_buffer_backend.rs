//! A single-slot exchange backed by the `triple_buffer` crate.
//!
//! The producer writes a completed record into the input buffer and
//! publishes it; the drain fetches the latest published value. There is no
//! ring to fill: the only "full" state is a published value the drain has
//! not fetched yet, so a reservation waits, under every policy, until the
//! previous value has been fetched (a single slot has no room a dropped
//! record could free). A commit that bypasses the reservation overwrites an
//! outstanding value: the latest value wins.
use vstd::prelude::*;
use triple_buffer::{Input, Output};
use crate::builder::Backpressure;
use crate::record::MAX_RECORD_SIZE;
use crate::ring::{Reservation, Reserve};

verus! {

/// The two halves of a `triple_buffer` exchange of byte vectors. Held
/// opaquely: the halves share state that no value of either half shows.
#[verifier::external_body]
pub struct TripleBytes {
    input: Input<Vec<u8>>,
    output: Output<Vec<u8>>,
}

/// The value published and not fetched yet, if any.
pub uninterp spec fn tb_pending(t: TripleBytes) -> Option<Seq<u8>>;

/// The value in the output buffer.
pub uninterp spec fn tb_output(t: TripleBytes) -> Seq<u8>;

/// The value in the input buffer.
pub uninterp spec fn tb_input(t: TripleBytes) -> Seq<u8>;

/// Calls `triple_buffer::triple_buffer` with `initial`. Trusted: nothing is
/// pending and the output buffer holds a copy of `initial`.
#[verifier::external_body]
fn tb_new(initial: &Vec<u8>) -> (t: TripleBytes)
    ensures
        tb_pending(t) is None,
        tb_output(t) == initial@,
{
    let (input, output) = triple_buffer::triple_buffer(initial);
    TripleBytes { input, output }
}

/// Calls `Input::consumed`. Trusted: whether the latest published value
/// has been fetched.
#[verifier::external_body]
fn tb_consumed(t: &TripleBytes) -> (b: bool)
    ensures
        b == (tb_pending(*t) is None),
{
    t.input.consumed()
}

/// Calls `Input::input_buffer_mut` and fills the input buffer with `bytes`.
/// Trusted: the input buffer then holds exactly `bytes`; nothing published
/// changes.
#[verifier::external_body]
fn tb_write_input(t: &mut TripleBytes, bytes: &[u8])
    ensures
        tb_input(*final(t)) == bytes@,
        tb_pending(*final(t)) == tb_pending(*old(t)),
        tb_output(*final(t)) == tb_output(*old(t)),
{
    let buf = t.input.input_buffer_mut();
    buf.clear();
    buf.extend_from_slice(bytes);
}

/// Calls `Input::publish`. Trusted: the input buffer's value becomes the
/// pending one (replacing one not fetched yet, which the result reports);
/// the new input buffer's contents are left unsaid.
#[verifier::external_body]
fn tb_publish(t: &mut TripleBytes) -> (overwrote: bool)
    ensures
        tb_pending(*final(t)) == Some(tb_input(*old(t))),
        tb_output(*final(t)) == tb_output(*old(t)),
        overwrote == (tb_pending(*old(t)) is Some),
{
    t.input.publish()
}

/// Calls `Output::update`. Trusted: a pending value, if any, moves to the
/// output buffer and the result says whether one did.
#[verifier::external_body]
fn tb_update(t: &mut TripleBytes) -> (updated: bool)
    ensures
        updated == (tb_pending(*old(t)) is Some),
        tb_pending(*final(t)) is None,
        tb_output(*final(t)) == match tb_pending(*old(t)) {
            Some(v) => v,
            None => tb_output(*old(t)),
        },
{
    t.output.update()
}

/// Calls `Output::updated`. Trusted: whether a value is pending.
#[verifier::external_body]
fn tb_updated(t: &TripleBytes) -> (b: bool)
    ensures
        b == (tb_pending(*t) is Some),
{
    t.output.updated()
}

/// Calls `Output::output_buffer` and copies the output buffer. Trusted: the
/// copy equals the output buffer's value.
#[verifier::external_body]
fn tb_output_bytes(t: &TripleBytes) -> (v: Vec<u8>)
    ensures
        v@ == tb_output(*t),
{
    t.output.output_buffer().clone()
}

/// A single-value exchange of records.
pub struct TripleExchange {
    slot: TripleBytes,
    live: bool,
}

impl TripleExchange {
    /// The record published and not fetched yet, if any.
    pub closed spec fn spec_pending(&self) -> Option<Seq<u8>> {
        tb_pending(self.slot)
    }

    pub closed spec fn spec_live(&self) -> bool {
        self.live
    }

    /// A fresh exchange. `capacity` is accepted for interface parity and has
    /// no effect: there is exactly one slot, whose buffers are preallocated
    /// to the largest record size.
    pub fn with_capacity(capacity: usize) -> (r: TripleExchange)
        ensures
            r.spec_pending() is None,
            r.spec_live(),
    {
        let initial: Vec<u8> = vec![0u8; MAX_RECORD_SIZE];
        TripleExchange { slot: tb_new(&initial), live: true }
    }

    pub fn is_live(&self) -> (b: bool)
        ensures
            b == self.spec_live(),
    {
        self.live
    }

    /// Marks the producer gone.
    pub fn set_dead(&mut self)
        ensures
            !final(self).spec_live(),
            final(self).spec_pending() == old(self).spec_pending(),
    {
        self.live = false;
    }

    /// Reserves the slot: granted once the previous value was fetched;
    /// otherwise a wait while the producer is live, under every policy, and a
    /// refusal at shutdown.
    pub fn reserve(&self, total_size: usize, policy: Backpressure) -> (r: Reserve)
        ensures
            r == (if self.spec_pending() is None {
                Reserve::Slot(Reservation { offset: 0, head: 0 })
            } else if self.spec_live() {
                Reserve::Wait
            } else {
                Reserve::Refused
            }),
    {
        if tb_consumed(&self.slot) {
            Reserve::Slot(Reservation { offset: 0, head: 0 })
        } else if self.live {
            Reserve::Wait
        } else {
            Reserve::Refused
        }
    }

    /// Publishing is a no-op here: the value is published by
    /// [`commit`](Self::commit).
    pub fn publish(&self, r: Reservation) {
    }

    /// Writes `bytes` as the pending value and publishes it, replacing a
    /// value not fetched yet.
    pub fn commit(&mut self, bytes: &[u8])
        ensures
            final(self).spec_pending() == Some(bytes@),
            final(self).spec_live() == old(self).spec_live(),
    {
        tb_write_input(&mut self.slot, bytes);
        let _ = tb_publish(&mut self.slot);
    }

    /// Appends the pending value, if any, to `out` and returns its length;
    /// returns `0` when nothing is pending.
    pub fn pop_available(&mut self, out: &mut Vec<u8>) -> (n: usize)
        ensures
            final(self).spec_pending() is None,
            final(self).spec_live() == old(self).spec_live(),
            match old(self).spec_pending() {
                Some(v) => final(out)@ == old(out)@ + v && n == v.len(),
                None => final(out)@ == old(out)@ && n == 0,
            },
    {
        if tb_update(&mut self.slot) {
            let data = tb_output_bytes(&self.slot);
            let n = data.len();
            if n > 0 {
                crate::format::push_bytes(out, data.as_slice());
            } else {
                proof {
                    assert(old(out)@ + data@ =~= old(out)@);
                }
            }
            n
        } else {
            0
        }
    }

    /// Whether no value is waiting to be fetched.
    pub fn is_empty(&self) -> (b: bool)
        ensures
            b == (self.spec_pending() is None),
    {
        !tb_updated(&self.slot)
    }
}

} // verus!
