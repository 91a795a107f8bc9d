use mail_laser::webhook::{after_attempt, backoff_ms, Admission, AttemptOutcome, Dispatcher};

/// Runs one delivery against a sequence of webhook results; returns the number
/// of requests made and the waits between them.
fn deliver(d: &mut Dispatcher, results: &[bool], now: u64) -> (usize, Vec<u64>) {
    let mut requests = 0;
    let mut waits = Vec::new();
    if d.submit(now) == Admission::Drop {
        return (0, waits);
    }
    let mut attempt: u32 = 0;
    loop {
        let ok = results[requests];
        requests += 1;
        match after_attempt(d.max_retries(), attempt, ok) {
            AttemptOutcome::Delivered => {
                d.finish(true, now);
                break;
            }
            AttemptOutcome::Exhausted => {
                d.finish(false, now);
                break;
            }
            AttemptOutcome::RetryAfter(ms) => {
                waits.push(ms);
                attempt += 1;
            }
        }
    }
    (requests, waits)
}

#[test]
fn test_webhook_retry_on_failure() {
    let mut d = Dispatcher::new(3, 5, 60);
    let (requests, waits) = deliver(&mut d, &[false, false, true], 0);
    assert_eq!(requests, 3, "Expected 3 webhook requests (2 failures + 1 success), got {}", requests);
    assert_eq!(waits, vec![100, 200]);
    assert_eq!(d.state().total_forwarded, 1);
    assert_eq!(d.state().total_failed, 0);
    assert_eq!(d.state().consecutive_failures, 0);
}

#[test]
fn test_circuit_breaker_opens() {
    let mut d = Dispatcher::new(0, 3, 60);
    let mut requests = 0;
    for i in 0..3 {
        requests += deliver(&mut d, &[false], i).0;
    }
    assert!(d.state().circuit_open);
    requests += deliver(&mut d, &[false], 3).0;
    assert!(requests <= 3, "Expected at most 3 webhook requests (4th dropped by circuit breaker), got {}", requests);
    assert_eq!(requests, 3);
    assert_eq!(d.state().total_failed, 4);
    assert!(d.is_drained());
}

#[test]
fn half_open_probe_after_reset() {
    let mut d = Dispatcher::new(0, 1, 60);
    deliver(&mut d, &[false], 100);
    assert!(d.state().circuit_open);
    assert_eq!(d.state().circuit_opened_at, 100);
    assert_eq!(d.submit(159), Admission::Drop);
    assert_eq!(d.submit(160), Admission::Attempt);
    assert!(!d.state().circuit_open);
    assert_eq!(d.state().consecutive_failures, 0);
    d.finish(false, 161);
    assert!(d.state().circuit_open);
    assert_eq!(d.state().circuit_opened_at, 161);
    assert_eq!(d.total_submitted(), 3);
    assert_eq!(d.state().total_failed + d.state().total_forwarded, 3);
}

#[test]
fn success_clears_failure_run() {
    let mut d = Dispatcher::new(0, 10, 60);
    deliver(&mut d, &[false], 0);
    deliver(&mut d, &[false], 0);
    assert_eq!(d.state().consecutive_failures, 2);
    deliver(&mut d, &[true], 0);
    assert_eq!(d.state().consecutive_failures, 0);
    assert_eq!(d.state().total_forwarded, 1);
    assert_eq!(d.state().total_failed, 2);
}

#[test]
fn exhausting_retries_counts_one_failure() {
    let mut d = Dispatcher::new(2, 5, 60);
    let (requests, waits) = deliver(&mut d, &[false, false, false], 0);
    assert_eq!(requests, 3);
    assert_eq!(waits, vec![100, 200]);
    assert_eq!(d.state().total_failed, 1);
    assert_eq!(d.state().consecutive_failures, 1);
}

#[test]
fn in_flight_tracking() {
    let mut d = Dispatcher::new(0, 5, 60);
    assert_eq!(d.submit(0), Admission::Attempt);
    assert_eq!(d.submit(0), Admission::Attempt);
    assert_eq!(d.in_flight(), 2);
    assert!(!d.is_drained());
    d.finish(true, 0);
    d.finish(false, 0);
    assert!(d.is_drained());
    assert_eq!(d.state().total_forwarded + d.state().total_failed, d.total_submitted());
}

#[test]
fn backoff_doubles_and_saturates() {
    assert_eq!(backoff_ms(0), 100);
    assert_eq!(backoff_ms(1), 200);
    assert_eq!(backoff_ms(2), 400);
    assert_eq!(backoff_ms(10), 102_400);
    assert_eq!(backoff_ms(57), 100 * (1u64 << 57));
    assert_eq!(backoff_ms(58), u64::MAX);
    assert_eq!(backoff_ms(u32::MAX), u64::MAX);
}
