use std::time::Duration;
use std::time::Instant;

use block_poller::interval_ensurer::IntervalEnsurer;
use block_poller::scheduling::remaining_sleep;

#[test]
fn remaining_sleep_exact_values() {
    assert_eq!(remaining_sleep(50, Some(0)), 50);
    assert_eq!(remaining_sleep(50, Some(20)), 30);
    assert_eq!(remaining_sleep(50, Some(49)), 1);
    assert_eq!(remaining_sleep(50, Some(50)), 0);
    assert_eq!(remaining_sleep(50, Some(200)), 0);
    assert_eq!(remaining_sleep(0, Some(0)), 0);
}

#[test]
fn remaining_sleep_full_period_on_clock_error() {
    assert_eq!(remaining_sleep(50, None), 50);
    assert_eq!(remaining_sleep(1, None), 1);
}

#[test]
fn interval_ensurer_fires_first_then_waits() {
    let mut gate = IntervalEnsurer::new(100);
    assert!(gate.poll_at(5));
    assert!(!gate.poll_at(104));
    assert!(gate.poll_at(105));
    assert!(!gate.poll_at(204));
    assert!(gate.poll_at(300));
}

fn current_thread_runtime() -> tokio::runtime::Runtime {
    tokio::runtime::Builder::new_current_thread()
        .enable_time()
        .build()
        .unwrap()
}

#[test]
fn scheduler_cadence_with_instant_action() {
    // An instant action with a 50 ms period: over 530 ms the loop runs
    // once per period, between floor(530 / 50) and ceil(530 / 50) + 1
    // times.
    let runtime = current_thread_runtime();
    runtime.block_on(async {
        let period: u64 = 50;
        let run_start = Instant::now();
        let mut invocations: u32 = 0;
        while run_start.elapsed() < Duration::from_millis(530) {
            let beginning = Instant::now();
            invocations += 1;
            let elapsed = u64::try_from(beginning.elapsed().as_millis()).ok();
            tokio::time::sleep(Duration::from_millis(remaining_sleep(period, elapsed))).await;
        }
        assert!(
            (10..=12).contains(&invocations),
            "expected 10 to 12 invocations, got {}",
            invocations
        );
    });
}

#[test]
fn scheduler_does_not_catch_up_after_slow_action() {
    // One 200 ms action under a 50 ms period: the next iteration starts
    // immediately, and the following iterations fall back to the normal
    // cadence instead of firing in a burst.
    let runtime = current_thread_runtime();
    runtime.block_on(async {
        let period: u64 = 50;
        let mut starts: Vec<Instant> = Vec::new();
        for round in 0..4u32 {
            let beginning = Instant::now();
            starts.push(beginning);
            if round == 0 {
                tokio::time::sleep(Duration::from_millis(200)).await;
            }
            let elapsed = u64::try_from(beginning.elapsed().as_millis()).ok();
            tokio::time::sleep(Duration::from_millis(remaining_sleep(period, elapsed))).await;
        }
        let after_slow = starts[1] - starts[0];
        assert!(
            after_slow >= Duration::from_millis(200) && after_slow < Duration::from_millis(245),
            "slow iteration must be followed immediately, gap was {:?}",
            after_slow
        );
        for gaps in starts[1..].windows(2) {
            let gap = gaps[1] - gaps[0];
            assert!(
                gap >= Duration::from_millis(45),
                "no catch-up burst may follow a slow iteration, gap was {:?}",
                gap
            );
        }
    });
}
