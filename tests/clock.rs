use ptraf::clock::{timestamp_of_elapsed, ClockNano, Timestamp};

#[test]
fn timestamp_trunc() {
    let ts = Timestamp::from_secs(3010);
    let ts = ts.trunc(Timestamp::from_secs(1000).as_nanos());
    assert_eq!(ts, Timestamp::from_secs(3000));
}

#[test]
fn timestamp_trunc_on_boundary_is_identity() {
    let ts = Timestamp::from_millis(400);
    assert_eq!(ts.trunc(Timestamp::from_millis(100).as_nanos()), ts);
}

#[test]
fn elapsed_since_saturates() {
    let a = Timestamp::from_millis(10);
    let b = Timestamp::from_millis(30);
    assert_eq!(a.saturating_elapsed_since(&b), 20_000_000);
    assert_eq!(b.saturating_elapsed_since(&a), 0);
}

#[test]
fn wall_time_adds_origin_and_saturates() {
    let clock = ClockNano::new(1_000);
    assert_eq!(clock.wall_time(Timestamp::from_nanos(234)), 1_234);
    let far = ClockNano::new(u128::MAX - 5);
    assert_eq!(far.wall_time(Timestamp::from_nanos(10)), u128::MAX);
}

#[test]
fn clock_now_is_monotonic() {
    let clock = ClockNano::new(0);
    let a = clock.now();
    let b = clock.now();
    assert!(a <= b);
}

#[test]
fn elapsed_nanos_clamp_to_timestamp() {
    assert_eq!(timestamp_of_elapsed(1_500), Timestamp::from_nanos(1_500));
    assert_eq!(timestamp_of_elapsed(u64::MAX as u128), Timestamp::from_nanos(u64::MAX));
    assert_eq!(timestamp_of_elapsed(u64::MAX as u128 + 7), Timestamp::from_nanos(u64::MAX));
}
