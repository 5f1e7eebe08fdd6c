use raygon::{Counter, Profiler, SplitDuration};

#[test]
fn split_ns_parts() {
    let d = SplitDuration::split_ns(61_001_000_123);
    assert_eq!(d, SplitDuration { minutes: 1, seconds: 1, milliseconds: 1, nanoseconds: 123 });
    let z = SplitDuration::split_ns(0);
    assert_eq!(z, SplitDuration { minutes: 0, seconds: 0, milliseconds: 0, nanoseconds: 0 });
    let m = SplitDuration::split_ns(u64::MAX);
    assert_eq!(m.minutes, 307_445_734);
    assert_eq!(m.seconds, 33);
    assert_eq!(m.milliseconds, 709);
    assert_eq!(m.nanoseconds, 551_615);
}

#[test]
fn split_duration_text() {
    assert_eq!(SplitDuration::split_ns(0).to_string(), "0ns");
    assert_eq!(SplitDuration::split_ns(61_001_000_123).to_string(), "1m 1s 1ms 123ns");
    assert_eq!(SplitDuration::split_ns(5_000_000).to_string(), "5ms");
    assert_eq!(SplitDuration::split_ns(20_000).to_string(), "0ns");
    assert_eq!(SplitDuration::split_ns(120_000_000_042).to_string(), "2m 42ns");
    assert_eq!(SplitDuration::split_ns(3_250_000_000).to_string(), "3s 250ms");
}

#[test]
fn profiler_without_clock() {
    let mut p = Profiler::new(false);
    assert_eq!(p.time(), 0);
    assert_eq!(p.samples(), 0);
    assert_eq!(p.get_average(), 0);
    p.record(100);
    p.record(51);
    assert_eq!(p.samples(), 2);
    assert_eq!(p.total_time(), 151);
    assert_eq!(p.get_average(), 75);
    p.set_active(false);
    assert_eq!(p.samples(), 2);
    p.record(u64::MAX);
    assert_eq!(p.total_time(), u64::MAX);
}

#[test]
fn counter_counts() {
    let c = Counter::new();
    assert_eq!(c.incr(), 0);
    assert_eq!(c.add(5), 1);
    assert_eq!(c.get(), 6);
}
