use vesper::time::{Duration, Instant};

#[test]
fn a_millisecond_is_a_thousand_ticks() {
    assert_eq!(Duration::from_millis(0), Duration { ticks: 0 });
    assert_eq!(Duration::from_millis(1), Duration { ticks: 1000 });
    assert_eq!(Duration::from_millis(1000), Duration { ticks: 1_000_000 });
}

#[test]
fn spans_add_up() {
    let start = Instant { ticks: 5 };
    assert_eq!(start.after(Duration { ticks: 7 }), Instant { ticks: 12 });
    let late = Instant { ticks: u64::MAX - 1 };
    assert_eq!(late.after(Duration { ticks: 1 }), Instant { ticks: u64::MAX });
}
