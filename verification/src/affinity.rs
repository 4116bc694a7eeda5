//! Pinning the calling thread to a CPU core, on top of `core_affinity`.
//!
//! `core_affinity` pins to a single logical core, so of the requested cores
//! only the first is used. The core is looked up among the cores the OS
//! reports as usable, and only a reported core is handed to the pinning
//! call: an index the OS does not know is reported instead.
use vstd::prelude::*;

verus! {

/// What pinning the calling thread did.
#[derive(Clone, Copy, Debug, PartialEq, Eq, Structural)]
pub enum PinOutcome {
    /// No core was requested; nothing was done.
    NoCore,
    /// The core is not among the cores the OS reports as usable.
    NotListed(usize),
    /// The OS refused to pin the thread to the core.
    Refused(usize),
    /// The thread now runs on the core.
    Pinned(usize),
}

/// The cores the OS reported as usable, as `core_affinity::get_core_ids`
/// returned them. Held opaquely and made only by [`usable_core_ids`], so
/// every core in it is one `core_affinity` itself listed: on Linux an
/// index inside its CPU set, on Windows a bit of its 64-bit mask, which
/// `core_affinity::set_for_current` accepts without overflowing.
#[verifier::external_body]
pub struct UsableCores {
    cores: Vec<core_affinity::CoreId>,
}

/// The indices of the reported cores, in the order reported.
pub uninterp spec fn reported_cores(u: UsableCores) -> Seq<usize>;

/// Calls `core_affinity::get_core_ids` (`None` when the OS could not be
/// asked). Which cores the OS reports is not stated.
#[verifier::external_body]
fn usable_core_ids() -> (r: Option<UsableCores>) {
    core_affinity::get_core_ids().map(|cores| UsableCores { cores })
}

/// The number of reported cores.
#[verifier::external_body]
fn reported_count(u: &UsableCores) -> (n: usize)
    ensures
        n == reported_cores(*u).len(),
{
    u.cores.len()
}

/// The index of the `k`-th reported core (the `id` field of its `CoreId`).
#[verifier::external_body]
fn reported_core(u: &UsableCores, k: usize) -> (id: usize)
    requires
        k < reported_cores(*u).len(),
    ensures
        id == reported_cores(*u)[k as int],
{
    u.cores[k].id
}

/// Calls `core_affinity::set_for_current` with the `k`-th reported core;
/// whether the OS accepted the pin is not stated.
#[verifier::external_body]
fn pin_reported(u: &UsableCores, k: usize) -> (ok: bool)
    requires
        k < reported_cores(*u).len(),
{
    core_affinity::set_for_current(u.cores[k])
}

/// The reported core indices as a list.
fn reported_list(u: &UsableCores) -> (v: Vec<usize>)
    ensures
        v@ == reported_cores(*u),
{
    let n = reported_count(u);
    let mut v: Vec<usize> = Vec::new();
    let mut k: usize = 0;
    while k < n
        invariant
            k <= n,
            n == reported_cores(*u).len(),
            v@ == reported_cores(*u).subrange(0, k as int),
        decreases n - k,
    {
        v.push(reported_core(u, k));
        k = k + 1;
        proof {
            assert(v@ =~= reported_cores(*u).subrange(0, k as int));
        }
    }
    proof {
        assert(v@ =~= reported_cores(*u));
    }
    v
}

/// The first position of `core` in `ids`, if it is there.
pub fn core_position(ids: &[usize], core: usize) -> (r: Option<usize>)
    ensures
        match r {
            Some(k) => k < ids@.len() && ids@[k as int] == core && forall|j: int| 0 <= j < k ==> ids@[j] != core,
            None => !ids@.contains(core),
        },
{
    let mut i: usize = 0;
    while i < ids.len()
        invariant
            i <= ids@.len(),
            forall|j: int| 0 <= j < i ==> ids@[j] != core,
        decreases ids@.len() - i,
    {
        if ids[i] == core {
            return Some(i);
        }
        i = i + 1;
    }
    None
}

/// Decides which reported core to pin to, given the requested `cores` and
/// the core indices the OS reported as usable: the position in the report
/// of the first requested core when the OS listed it; otherwise the
/// outcome to report.
pub fn pin_target(cores: &[usize], usable: &Option<Vec<usize>>) -> (r: Result<usize, PinOutcome>)
    ensures
        cores@.len() == 0 ==> r == Err::<usize, PinOutcome>(PinOutcome::NoCore),
        cores@.len() > 0 ==> match usable {
            Some(v) => if v@.contains(cores@[0]) {
                &&& r is Ok
                &&& r->Ok_0 < v@.len()
                &&& v@[r->Ok_0 as int] == cores@[0]
                &&& forall|j: int| 0 <= j < r->Ok_0 ==> v@[j] != cores@[0]
            } else {
                r == Err::<usize, PinOutcome>(PinOutcome::NotListed(cores@[0]))
            },
            None => r == Err::<usize, PinOutcome>(PinOutcome::NotListed(cores@[0])),
        },
{
    if cores.len() == 0 {
        return Err(PinOutcome::NoCore);
    }
    let first = cores[0];
    match usable {
        Some(v) => match core_position(v.as_slice(), first) {
            Some(k) => Ok(k),
            None => Err(PinOutcome::NotListed(first)),
        },
        None => Err(PinOutcome::NotListed(first)),
    }
}

/// Pins the calling thread to the first core in `cores`; the others are
/// ignored. An empty slice does nothing. A core the OS does not list as
/// usable is reported and never handed to the pinning call; whether the OS
/// then accepts the pin is its own decision.
pub fn pin_thread(cores: &[usize]) -> (r: PinOutcome)
    ensures
        cores@.len() == 0 <==> r == PinOutcome::NoCore,
        cores@.len() > 0 ==> (r == PinOutcome::NotListed(cores@[0]) || r == PinOutcome::Refused(cores@[0])
            || r == PinOutcome::Pinned(cores@[0])),
{
    if cores.len() == 0 {
        return PinOutcome::NoCore;
    }
    let usable = usable_core_ids();
    let listed: Option<Vec<usize>> = match &usable {
        Some(u) => Some(reported_list(u)),
        None => None,
    };
    match pin_target(cores, &listed) {
        Err(o) => o,
        Ok(k) => match &usable {
            Some(u) => {
                if pin_reported(u, k) {
                    PinOutcome::Pinned(cores[0])
                } else {
                    PinOutcome::Refused(cores[0])
                }
            },
            None => PinOutcome::NotListed(cores[0]),
        },
    }
}

} // verus!
