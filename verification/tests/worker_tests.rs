use autoclicker::worker::WorkerStep;
use autoclicker::worker::worker_step;
use autoclicker::worker::IDLE_POLL_MS;

#[test]
fn inactive_idles_a_short_quantum() {
    let step = worker_step(1000, 1234, false, 60);
    assert_eq!(step, WorkerStep::Idle { sleep_ms: IDLE_POLL_MS });
}

#[test]
fn fresh_interval_sleeps_the_whole_interval() {
    let step = worker_step(1000, 1000, true, 60);
    assert_eq!(step, WorkerStep::Fire { sleep_ms: 60, fire_at_ms: 1060 });
}

#[test]
fn partial_elapse_sleeps_the_remainder() {
    // woken 40 ms into a 60 ms interval: sleep the remaining 20 ms, so the
    // injection lands exactly one interval after the previous one
    let step = worker_step(1000, 1040, true, 60);
    assert_eq!(step, WorkerStep::Fire { sleep_ms: 20, fire_at_ms: 1060 });
}

#[test]
fn overdue_interval_fires_immediately() {
    let step = worker_step(1000, 1100, true, 60);
    assert_eq!(step, WorkerStep::Fire { sleep_ms: 0, fire_at_ms: 1100 });
}

#[test]
fn zero_interval_is_clamped_to_one() {
    let step = worker_step(1000, 1000, true, 0);
    assert_eq!(step, WorkerStep::Fire { sleep_ms: 1, fire_at_ms: 1001 });
}

#[test]
fn cadence_does_not_drift_over_many_iterations() {
    // run a thousand active iterations, waking a little late each time; the
    // injections still land exactly 60 ms apart, so the deviation after a
    // thousand iterations is zero, not a thousand times the wake delay
    let interval: u64 = 60;
    let mut last_tick: u64 = 5000;
    for i in 0..1000u64 {
        let wake = last_tick + 7;  // woken 7 ms after the previous injection
        let step = worker_step(last_tick, wake, true, interval);
        match step {
            WorkerStep::Fire { sleep_ms, fire_at_ms } => {
                assert_eq!(fire_at_ms, 5000 + (i + 1) * interval);
                assert_eq!(sleep_ms, interval - 7);
                last_tick = fire_at_ms;
            },
            WorkerStep::Idle { .. } => panic!("active step must fire"),
        }
    }
    assert_eq!(last_tick, 5000 + 1000 * interval);
}

#[test]
fn activation_waits_a_full_fresh_interval() {
    // an idle poll at 5000 sees the flag false and sleeps its quantum
    let idle = worker_step(0, 5000, false, 60);
    assert_eq!(idle, WorkerStep::Idle { sleep_ms: IDLE_POLL_MS });
    // the flag toggles on at 5020, during that sleep; the loop wakes at 5050
    // and restarts the baseline from the clock it reads then
    let toggle_at: u64 = 5020;
    let baseline: u64 = 5050;
    assert!(toggle_at <= baseline);
    // the next iteration observes the flag true at 5052; the first injection
    // waits out a whole interval from the wake, so it lands after the toggle
    // plus a full interval — never an immediate fire from stale state
    let step = worker_step(baseline, 5052, true, 60);
    match step {
        WorkerStep::Fire { sleep_ms, fire_at_ms } => {
            assert_eq!(fire_at_ms, 5110);
            assert_eq!(sleep_ms, 58);
            assert!(fire_at_ms >= toggle_at + 60);
            assert!(fire_at_ms >= baseline + 60);
        },
        WorkerStep::Idle { .. } => panic!("active step must fire"),
    }
}
