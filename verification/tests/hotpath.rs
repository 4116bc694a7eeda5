use ticklog::backoff::{Backoff, Relax, SPIN_LOOPS};
use ticklog::hotpath::{add, bump, take, tick, Profiler, C_CALLS, L_RESERVE, LANES};

#[test]
fn disabled_profiler_is_a_no_op() {
    let mut p = Profiler::new(false);
    assert_eq!(tick(&p, 1234), 0);
    add(&mut p, L_RESERVE, 10);
    bump(&mut p, C_CALLS);
    assert_eq!(take(&mut p), vec![0u64; LANES]);
}

#[test]
fn enabled_profiler_accumulates_and_take_zeroes() {
    let mut p = Profiler::new(true);
    assert_eq!(tick(&p, 1234), 1234);
    add(&mut p, L_RESERVE, 10);
    add(&mut p, L_RESERVE, u64::MAX);
    bump(&mut p, C_CALLS);
    bump(&mut p, C_CALLS);
    let lanes = take(&mut p);
    assert_eq!(lanes[L_RESERVE], 9);
    assert_eq!(lanes[C_CALLS], 2);
    assert_eq!(take(&mut p), vec![0u64; LANES]);
}

#[test]
fn backoff_spins_then_yields() {
    let mut b = Backoff::new();
    for _ in 0..SPIN_LOOPS {
        assert_eq!(b.wait(), Relax::Spin);
    }
    assert_eq!(b.wait(), Relax::Yield);
    assert_eq!(b.loom_spins(), SPIN_LOOPS + 1);
}
