use baraddur::loop_guard::LoopGuard;

const MS: u64 = 1_000_000;
const SEC: u64 = 1_000_000_000;

fn guard() -> LoopGuard {
    LoopGuard::new(10 * SEC, 5)
}

#[test]
fn does_not_trip_below_threshold() {
    let mut g = guard();
    let t0: u64 = 1_000 * SEC;
    for i in 0..4u64 {
        assert!(!g.record(t0 + i * 100 * MS));
    }
}

#[test]
fn trips_at_threshold_within_window() {
    let mut g = guard();
    let t0: u64 = 1_000 * SEC;
    let mut tripped = false;
    for i in 0..5u64 {
        tripped = g.record(t0 + i * 100 * MS);
    }
    assert!(tripped, "expected the 5th restart in 10s to trip the guard");
}

#[test]
fn does_not_trip_when_spread_beyond_window() {
    let mut g = guard();
    let t0: u64 = 1_000 * SEC;
    for i in 0..10u64 {
        assert!(!g.record(t0 + i * 3 * SEC));
    }
}

#[test]
fn reset_clears_history() {
    let mut g = guard();
    let t0: u64 = 1_000 * SEC;
    for i in 0..4u64 {
        g.record(t0 + i * 100 * MS);
    }
    g.reset();
    assert!(!g.record(t0 + 500 * MS));
}

#[test]
fn evicts_stale_entries_before_counting() {
    let mut g = guard();
    let t0: u64 = 1_000 * SEC;
    for i in 0..4u64 {
        assert!(!g.record(t0 + i * 100 * MS));
    }
    let later = t0 + 30 * SEC;
    for i in 0..4u64 {
        assert!(!g.record(later + i * 100 * MS));
    }
}

#[test]
fn restart_exactly_at_window_edge_still_counts() {
    // A restart exactly `window` old is still inside the window.
    let mut g = LoopGuard::new(10 * SEC, 2);
    assert!(!g.record(0));
    assert!(g.record(10 * SEC));
}

#[test]
fn threshold_of_one_trips_on_every_record() {
    let mut g = LoopGuard::new(SEC, 1);
    assert!(g.record(5));
    g.reset();
    assert!(g.record(7));
}
