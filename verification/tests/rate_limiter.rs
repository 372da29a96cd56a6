use nexthop::rate_limiter::{Acquire, RateLimiter};

const MS: u64 = 1_000_000;

/// Simulated acquire: retries after each wait the limiter asks for and
/// returns the clock when the tokens were taken.
fn acquire_at(rl: &mut RateLimiter, mut now: u64, n: u64) -> u64 {
    loop {
        match rl.try_acquire(now, n) {
            Acquire::Granted => return now,
            Acquire::Wait { ns } => now += ns,
        }
    }
}

#[test]
fn immediate_acquire_within_burst() {
    let mut rl = RateLimiter::new(1000, 5000);
    assert_eq!(rl.try_acquire(0, 500), Acquire::Granted);
}

#[test]
fn acquire_waits_when_exhausted() {
    let mut rl = RateLimiter::new(10_000, 100);
    acquire_at(&mut rl, 0, 100);
    // The next 100 bytes wait 10 ms at 10 000 B/s.
    assert_eq!(rl.try_acquire(0, 100), Acquire::Wait { ns: 10 * MS });
    assert!(acquire_at(&mut rl, 0, 100) >= 5 * MS);
}

#[test]
fn acquire_zero_bytes_is_immediate() {
    let mut rl = RateLimiter::new(100, 100);
    acquire_at(&mut rl, 0, 100);
    assert_eq!(rl.try_acquire(0, 0), Acquire::Granted);
}

#[test]
fn tokens_do_not_exceed_max() {
    let mut rl = RateLimiter::new(100_000, 500);
    acquire_at(&mut rl, 0, 100);
    // 100 ms would refill 10 000 bytes; the bucket holds at most 500.
    assert_eq!(rl.try_acquire(100 * MS, 500), Acquire::Granted);
    assert_eq!(rl.tokens, 0);
}

#[test]
fn large_burst_initial_acquire() {
    let mut rl = RateLimiter::new(100, 10_000);
    assert_eq!(rl.try_acquire(0, 9_000), Acquire::Granted);
}

#[test]
fn sequential_acquires_respect_rate() {
    let mut rl = RateLimiter::new(10_000, 1_000);
    acquire_at(&mut rl, 0, 1_000);
    let done = acquire_at(&mut rl, 0, 500);
    assert!(done >= 30 * MS, "too fast: {done}");
    assert!(done < 200 * MS, "too slow: {done}");
    assert_eq!(done, 50 * MS);
}

#[test]
fn multiple_small_acquires_stay_within_budget() {
    let mut rl = RateLimiter::new(1_000, 200);
    acquire_at(&mut rl, 0, 200);
    let t1 = acquire_at(&mut rl, 0, 100);
    let t2 = acquire_at(&mut rl, t1, 100);
    assert!(t2 >= 150 * MS, "too fast: {t2}");
    assert_eq!(t2, 200 * MS);
}

#[test]
fn acquire_exactly_burst_is_immediate() {
    let mut rl = RateLimiter::new(1, 512);
    assert_eq!(rl.try_acquire(0, 512), Acquire::Granted);
}

#[test]
fn refill_does_not_exceed_burst() {
    let mut rl = RateLimiter::new(1_000_000, 100);
    acquire_at(&mut rl, 0, 100);
    assert_eq!(rl.try_acquire(500 * MS, 100), Acquire::Granted);
    assert_eq!(rl.try_acquire(500 * MS, 1), Acquire::Wait { ns: 1_000 });
}

#[test]
fn refused_acquire_changes_nothing() {
    let mut rl = RateLimiter::new(10, 5);
    let before = rl;
    assert_eq!(rl.try_acquire(0, 6), Acquire::Wait { ns: 100 * MS });
    assert_eq!(rl, before);
}

#[test]
fn clock_going_back_refills_nothing() {
    let mut rl = RateLimiter::new(100, 100);
    assert_eq!(rl.try_acquire(1_000 * MS, 100), Acquire::Granted);
    assert!(matches!(rl.try_acquire(0, 1), Acquire::Wait { .. }));
    assert_eq!(rl.last_ns, 1_000 * MS);
}
