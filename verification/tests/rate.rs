use voicemcu::server::rate::{ConnectionLimiter, IpAddress, TokenBucket};

const START: u64 = 5_000_000_000;
const MILLISECOND: u64 = 1_000_000;
const SECOND: u64 = 1_000_000_000;

#[test]
fn token_bucket_allows_initial_burst() {
    let mut bucket = TokenBucket::new(5, 10, START);
    let now = START;
    for _ in 0..5 {
        assert!(bucket.try_consume(now));
    }
    assert!(!bucket.try_consume(now));
}

#[test]
fn token_bucket_refills_over_time() {
    let mut bucket = TokenBucket::new(2, 100, START);
    let mut now = START;
    assert!(bucket.try_consume(now));
    assert!(bucket.try_consume(now));
    assert!(!bucket.try_consume(now));

    // Let time pass (100ms = 10 tokens at 100/s)
    now += 100 * MILLISECOND;

    assert!(bucket.try_consume(now));
    assert!(bucket.try_consume(now));
}

#[test]
fn token_bucket_caps_at_capacity() {
    let mut bucket = TokenBucket::new(3, 1000, START);
    let mut now = START;
    // Drain all
    for _ in 0..3 {
        assert!(bucket.try_consume(now));
    }
    // Simulate a long wait -- should refill to capacity, not beyond
    now += 10 * SECOND;
    for _ in 0..3 {
        assert!(bucket.try_consume(now));
    }
    assert!(!bucket.try_consume(now));
}

#[test]
fn token_bucket_single_token_capacity() {
    let mut bucket = TokenBucket::new(1, 1, START);
    let mut now = START;
    assert!(bucket.try_consume(now));
    assert!(!bucket.try_consume(now));
    now += 1 * SECOND;
    assert!(bucket.try_consume(now));
}

#[test]
fn token_bucket_fractional_refill() {
    let mut bucket = TokenBucket::new(10, 10, START);
    let mut now = START;
    // Drain all
    for _ in 0..10 {
        assert!(bucket.try_consume(now));
    }
    // 50ms at 10/s = 0.5 tokens -- not enough for one whole token
    now += 50 * MILLISECOND;
    assert!(!bucket.try_consume(now));
    // The failed attempt kept the 0.5 tokens; another 60ms make it 1.1.
    now += 60 * MILLISECOND;
    assert!(bucket.try_consume(now));
}

#[test]
fn token_bucket_is_exact_to_the_nanosecond() {
    let mut bucket = TokenBucket::new(1, 3, 0);
    assert!(bucket.try_consume(0));
    // A third of a second holds 333_333_333 and a third nanoseconds.
    assert!(!bucket.try_consume(333_333_333));
    assert!(bucket.try_consume(333_333_334));
}

#[test]
fn token_bucket_ignores_time_running_backwards() {
    let mut bucket = TokenBucket::new(1, 1, 10 * SECOND);
    assert!(bucket.try_consume(10 * SECOND));
    assert!(!bucket.try_consume(9 * SECOND));
    assert!(bucket.try_consume(10 * SECOND));
}

#[test]
fn token_bucket_admits_no_more_than_its_rate() {
    let mut bucket = TokenBucket::new(20, 10, 0);
    let mut admitted = 0;
    for tick in 0..1000u64 {
        if bucket.try_consume(tick * 5 * MILLISECOND) {
            admitted += 1;
        }
    }
    // 20 at first, and 10 per second for 4.995 seconds.
    assert_eq!(admitted, 20 + 49);
}

#[test]
fn token_bucket_survives_extreme_rates() {
    let mut bucket = TokenBucket::new(u32::MAX, u32::MAX, 0);
    assert!(bucket.try_consume(u64::MAX));
    assert!(bucket.is_full(u64::MAX) == false);
}

#[test]
fn limiter_counts_each_address_alone() {
    let mut limiter = ConnectionLimiter::new(2, 1, 0);
    let a = IpAddress::V4(0x7f00_0001);
    let b = IpAddress::V6(0x7f00_0001);
    assert!(limiter.try_connect(a, 0));
    assert!(limiter.try_connect(a, 0));
    assert!(!limiter.try_connect(a, 0));
    assert!(limiter.try_connect(b, 0));
    assert!(limiter.try_connect(b, 0));
    assert!(!limiter.try_connect(b, 0));
    assert!(limiter.try_connect(a, SECOND));
    assert!(!limiter.try_connect(a, SECOND));
}

#[test]
fn limiter_sweep_is_not_noticed() {
    let mut limiter = ConnectionLimiter::new(3, 1, 0);
    let ip = IpAddress::V4(9);
    for _ in 0..3 {
        assert!(limiter.try_connect(ip, 0));
    }
    // The sweep forgets the bucket, which is full again by now.
    let later = 61 * SECOND;
    assert!(limiter.try_connect(IpAddress::V4(1), later));
    for _ in 0..3 {
        assert!(limiter.try_connect(ip, later));
    }
    assert!(!limiter.try_connect(ip, later));
}

#[test]
fn limiter_sweep_keeps_what_is_not_full() {
    let mut limiter = ConnectionLimiter::new(100, 1, 0);
    let ip = IpAddress::V6(9);
    for _ in 0..100 {
        assert!(limiter.try_connect(ip, 0));
    }
    let later = 61 * SECOND;
    let mut admitted = 0;
    while limiter.try_connect(ip, later) {
        admitted += 1;
    }
    assert_eq!(admitted, 61);
}
