use rustbits::ping::{
    latency_class, pause_after, port_and_count, split_target, Latency, PingStatus, RoundTrip, DURATION_MAX_NANOS,
};

#[test]
fn fresh_tallies() {
    let s = PingStatus::new();
    assert_eq!((s.successful, s.failed, s.total_time, s.max_time), (0, 0, 0, 0));
    assert_eq!(s.min_time, DURATION_MAX_NANOS);
    assert_eq!(DURATION_MAX_NANOS, std::time::Duration::MAX.as_nanos());
    assert!(s.summary().is_none());
}

#[test]
fn recording_and_summary() {
    let mut s = PingStatus::new();
    s.record_success(30_000_000);
    s.record_failure();
    s.record_success(10_000_000);
    s.record_success(21_000_001);
    let sum = s.summary().unwrap();
    assert_eq!((sum.transmitted, sum.received, sum.lost), (4, 3, 1));
    assert_eq!(sum.rtt, Some(RoundTrip { min: 10_000_000, avg: 20_333_333, max: 30_000_000 }));
}

#[test]
fn only_failures() {
    let mut s = PingStatus::new();
    s.record_failure();
    s.record_failure();
    let sum = s.summary().unwrap();
    assert_eq!((sum.transmitted, sum.received, sum.lost, sum.rtt), (2, 0, 2, None));
}

#[test]
fn average_matches_duration_division() {
    let times: [u64; 4] = [1_999_999_999, 7, 3_000_000_001, 999_999_999];
    let mut s = PingStatus::new();
    let mut total = std::time::Duration::ZERO;
    for t in times {
        s.record_success(t as u128);
        total += std::time::Duration::from_nanos(t);
    }
    let avg = (total / 4).as_nanos();
    let rtt = s.summary().unwrap().rtt.unwrap();
    assert_eq!(rtt.avg, avg);
    assert!(rtt.min <= rtt.avg && rtt.avg <= rtt.max);
}

#[test]
fn latency_bands() {
    assert_eq!(latency_class(0), Latency::Fast);
    assert_eq!(latency_class(49_999_999), Latency::Fast);
    assert_eq!(latency_class(50_000_000), Latency::Moderate);
    assert_eq!(latency_class(149_999_999), Latency::Moderate);
    assert_eq!(latency_class(150_000_000), Latency::Slow);
}

#[test]
fn target_splitting() {
    assert_eq!(split_target("google.com:80"), ("google.com", Some(80)));
    assert_eq!(split_target("google.com"), ("google.com", None));
    assert_eq!(split_target("host:abc"), ("host", None));
    assert_eq!(split_target("a:b:8080"), ("a:b", Some(8080)));
    assert_eq!(split_target("::1"), (":", Some(1)));
    assert_eq!(split_target("h:70000"), ("h", None));
}

fn args(v: &[&str]) -> Vec<String> {
    v.iter().map(|s| s.to_string()).collect()
}

#[test]
fn ports_and_counts() {
    assert_eq!(port_and_count(&args(&["isthere", "google.com"]), None, false), (443, 5));
    assert_eq!(port_and_count(&args(&["isthere", "1.1.1.1"]), None, true), (80, 5));
    assert_eq!(port_and_count(&args(&["isthere", "github.com", "8080", "10"]), None, false), (8080, 10));
    assert_eq!(port_and_count(&args(&["isthere", "google.com:80", "3"]), Some(80), false), (80, 3));
    assert_eq!(port_and_count(&args(&["isthere", "x", "nope", "-2"]), None, true), (80, -2));
    assert_eq!(port_and_count(&args(&["isthere", "x:9", "many"]), Some(9), false), (9, 5));
}

#[test]
fn pauses_between_attempts_only() {
    assert!(pause_after(1, 5, true));
    assert!(pause_after(4, 5, true));
    assert!(!pause_after(5, 5, true));
    assert!(!pause_after(2, 5, false));
    assert!(!pause_after(1, 1, true));
}
