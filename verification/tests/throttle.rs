use ruso_cli::throttle::{host_key, HostSlots, HostThrottle, RateLimiter};

#[test]
fn host_key_extracts_authority() {
    assert_eq!(host_key("https://example.com/a/b"), "example.com");
    assert_eq!(host_key("http://EXAMPLE.com:8080/x"), "example.com:8080");
    assert_eq!(host_key("https://example.com"), "example.com");
    assert_eq!(host_key("https://example.com?q=1"), "example.com");
    assert_eq!(host_key("https://example.com#frag"), "example.com");
}

#[test]
fn host_slots_unbounded_when_zero() {
    let mut slots = HostSlots::new(HostThrottle::new(0));
    for _ in 0..100 {
        assert!(slots.try_acquire("h"));
    }
    assert_eq!(slots.in_flight("h"), 100);
}

#[test]
fn host_slots_bound_per_host_in_flight() {
    let mut slots = HostSlots::new(HostThrottle::new(2));
    let mut peak = 0;
    for _ in 0..20 {
        if slots.try_acquire("host-a") {
            peak = peak.max(slots.in_flight("host-a"));
        }
    }
    assert_eq!(peak, 2);
    slots.release("host-a");
    assert!(slots.try_acquire("host-a"));
    assert!(!slots.try_acquire("host-a"));
}

#[test]
fn host_slots_separate_distinct_hosts() {
    let mut slots = HostSlots::new(HostThrottle::new(1));
    assert!(slots.try_acquire("host-a"));
    assert!(slots.try_acquire("host-b"), "distinct hosts must not share a slot");
    assert!(!slots.try_acquire("host-a"));
    slots.release("host-a");
    slots.release("host-a");
    assert_eq!(slots.in_flight("host-a"), 0);
    assert_eq!(slots.in_flight("host-b"), 1);
}

#[test]
fn rate_limiter_disabled_when_zero() {
    let r = RateLimiter::per_second(0);
    assert_eq!(r.interval_nanos, None);
    assert_eq!(r.reserve(5, 100), (0, 5));
}

#[test]
fn rate_limiter_spaces_launches() {
    // 50 RPS = 20ms interval; five launches at once span four intervals.
    let r = RateLimiter::per_second(50);
    assert_eq!(r.interval_nanos, Some(20_000_000));
    let mut next = 0u64;
    let mut last_start = 0u64;
    for _ in 0..5 {
        let (wait, n) = r.reserve(next, 0);
        last_start = wait;
        next = n;
    }
    assert_eq!(last_start, 80_000_000);
    // An idle caller does not bank budget: arriving late starts right away.
    let (wait, _) = r.reserve(next, 1_000_000_000);
    assert_eq!(wait, 0);
}
