use wield::time::Duration;

#[test]
fn durations_hold_seconds_and_nanoseconds() {
    let d = Duration::from_millis(1500);
    assert_eq!(d.as_secs(), 1);
    assert_eq!(d.subsec_nanos(), 500_000_000);
    let carried = Duration::new(2, 1_250_000_000);
    assert_eq!(carried.as_secs(), 3);
    assert_eq!(carried.subsec_nanos(), 250_000_000);
    assert_eq!(Duration::from_secs(300), Duration::new(300, 0));
}

#[test]
fn durations_are_written_as_std_writes_them() {
    assert_eq!(Duration::from_secs(300).debug_text(), "300s");
    assert_eq!(Duration::from_millis(1500).debug_text(), "1.5s");
    assert_eq!(Duration::from_millis(300).debug_text(), "300ms");
    assert_eq!(Duration::new(0, 42).debug_text(), "42ns");
}
