//! Action-loop scheduling: when the next injection happens and how long the
//! loop sleeps, computed from wall-clock times so sleep overhead does not
//! accumulate as drift. The loop itself (sleeping, injecting) runs outside
//! the library and follows the step this module computes.

use vstd::prelude::*;

verus! {

/// Milliseconds the loop sleeps between polls while inactive.
pub const IDLE_POLL_MS: u64 = 50;

/// The interval actually used: the requested interval clamped to at least 1 ms.
pub open spec fn effective_interval(interval_ms: u64) -> u64 {
    if interval_ms == 0 {
        1u64
    } else {
        interval_ms
    }
}

/// Wall-clock time of the next injection: one full effective interval after
/// the previous one, or right now if that deadline has already passed.
pub open spec fn next_fire_at(last_tick_ms: int, now_ms: int, interval_ms: u64) -> int {
    let deadline = last_tick_ms + effective_interval(interval_ms);
    if now_ms >= deadline {
        now_ms
    } else {
        deadline
    }
}

/// What one iteration of the action loop should do.
#[derive(Clone, Copy, Debug, PartialEq, Eq, Structural)]
pub enum WorkerStep {
    /// Inactive: sleep a short quantum, then restart the interval baseline at
    /// the clock value read on waking — the moment the loop next observes the
    /// active flag — so that turning active always begins a fresh interval,
    /// never a stale one left over from before the idle sleep.
    Idle { sleep_ms: u64 },
    /// Active: sleep `sleep_ms`, inject once at `fire_at_ms`, and make that
    /// time the new baseline.
    Fire { sleep_ms: u64, fire_at_ms: u64 },
}

/// Plan one iteration of the action loop from the current baseline, the
/// current time, the active flag, and the configured interval.
pub fn worker_step(last_tick_ms: u64, now_ms: u64, active: bool, interval_ms: u64) -> (r: WorkerStep)
    requires
        last_tick_ms <= now_ms,
        now_ms + effective_interval(interval_ms) <= u64::MAX,
    ensures
        !active ==> r == (WorkerStep::Idle { sleep_ms: IDLE_POLL_MS }),
        active ==> (r matches WorkerStep::Fire { sleep_ms, fire_at_ms }
            && fire_at_ms == now_ms + sleep_ms
            && fire_at_ms == next_fire_at(last_tick_ms as int, now_ms as int, interval_ms)
            && sleep_ms <= effective_interval(interval_ms)),
{
    if !active {
        WorkerStep::Idle { sleep_ms: IDLE_POLL_MS }
    } else {
        let interval: u64 = if interval_ms == 0 {
            1
        } else {
            interval_ms
        };
        let elapsed: u64 = now_ms - last_tick_ms;
        let sleep_ms: u64 = if elapsed < interval {
            interval - elapsed
        } else {
            0
        };
        WorkerStep::Fire { sleep_ms, fire_at_ms: now_ms + sleep_ms }
    }
}

/// A fire never comes early: the next injection is at least one effective
/// interval after the previous one, never before the current time, and —
/// when the loop is woken within the interval — exactly on the deadline.
pub proof fn lemma_injection_spacing(last_tick_ms: int, now_ms: int, interval_ms: u64)
    requires
        last_tick_ms <= now_ms,
    ensures
        next_fire_at(last_tick_ms, now_ms, interval_ms) >= last_tick_ms + effective_interval(
            interval_ms,
        ),
        next_fire_at(last_tick_ms, now_ms, interval_ms) >= now_ms,
        now_ms <= last_tick_ms + effective_interval(interval_ms) ==> next_fire_at(
            last_tick_ms,
            now_ms,
            interval_ms,
        ) == last_tick_ms + effective_interval(interval_ms),
{
}

/// The baseline after feeding a sequence of loop-wake times through
/// `next_fire_at`, one active iteration per wake.
pub open spec fn run_fire_times(last_tick_ms: int, wakes: Seq<int>, interval_ms: u64) -> int
    decreases wakes.len(),
{
    if wakes.len() == 0 {
        last_tick_ms
    } else {
        run_fire_times(next_fire_at(last_tick_ms, wakes[0], interval_ms), wakes.skip(1), interval_ms)
    }
}

/// Unfolding `run_fire_times` over a prefix: running the first `j` wakes is
/// the same as taking one step on the first wake and running the next
/// `j - 1` wakes from there.
proof fn lemma_run_take_succ(last_tick_ms: int, wakes: Seq<int>, interval_ms: u64, j: int)
    requires
        1 <= j <= wakes.len(),
    ensures
        run_fire_times(last_tick_ms, wakes.take(j), interval_ms) == run_fire_times(
            next_fire_at(last_tick_ms, wakes[0], interval_ms),
            wakes.skip(1).take(j - 1),
            interval_ms,
        ),
{
    let prefix = wakes.take(j);
    assert(prefix[0] == wakes[0]);
    assert(prefix.skip(1) =~= wakes.skip(1).take(j - 1));
}

/// Interval fidelity: the loop's own sleep ends at the deadline, so each
/// wake normally lands between the previous injection and one effective
/// interval after it — late only by scheduling overhead. Under that
/// hypothesis (each wake within one interval of the running baseline, clock
/// monotone) injections land exactly one effective interval apart: after `n`
/// iterations the baseline has advanced by exactly `n` intervals, so sleep
/// overhead never accumulates as drift. A wake later than a whole interval
/// delays that one injection; `lemma_spacing_chain` bounds even those runs
/// from below.
pub proof fn lemma_interval_fidelity(last_tick_ms: int, wakes: Seq<int>, interval_ms: u64)
    requires
        forall|i: int|
            0 <= i < wakes.len() ==> run_fire_times(last_tick_ms, wakes.take(i), interval_ms)
                <= #[trigger] wakes[i] && wakes[i] <= run_fire_times(
                last_tick_ms,
                wakes.take(i),
                interval_ms,
            ) + effective_interval(interval_ms),
    ensures
        run_fire_times(last_tick_ms, wakes, interval_ms) == last_tick_ms + wakes.len()
            * effective_interval(interval_ms),
    decreases wakes.len(),
{
    let eff = effective_interval(interval_ms) as int;
    if wakes.len() == 0 {
    } else {
        assert(wakes.take(0) =~= Seq::<int>::empty());
        assert(run_fire_times(last_tick_ms, wakes.take(0), interval_ms) == last_tick_ms);
        assert(last_tick_ms <= wakes[0] <= last_tick_ms + eff);
        let next = next_fire_at(last_tick_ms, wakes[0], interval_ms);
        assert(next == last_tick_ms + eff);
        let tail = wakes.skip(1);
        assert forall|i: int| 0 <= i < tail.len() implies run_fire_times(next, tail.take(i), interval_ms)
            <= #[trigger] tail[i] && tail[i] <= run_fire_times(next, tail.take(i), interval_ms)
            + effective_interval(interval_ms) by {
            assert(wakes[i + 1] == tail[i]);
            lemma_run_take_succ(last_tick_ms, wakes, interval_ms, i + 1);
            assert(run_fire_times(last_tick_ms, wakes.take(i + 1), interval_ms) == run_fire_times(
                next,
                tail.take(i),
                interval_ms,
            ));
        }
        lemma_interval_fidelity(next, tail, interval_ms);
        assert(wakes.take(wakes.len() as int) =~= wakes);
        assert(run_fire_times(last_tick_ms, wakes, interval_ms) == next + tail.len() * eff);
        assert(last_tick_ms + eff + tail.len() * eff == last_tick_ms + (tail.len() + 1) * eff) by {
            assert((tail.len() + 1) * eff == tail.len() * eff + eff) by (nonlinear_arith);
        }
    }
}

/// Injections never crowd together, whatever the wake times: every active
/// iteration advances the baseline by at least one effective interval, so
/// after `n` iterations consecutive injections are at least `n` intervals
/// apart in total.
pub proof fn lemma_spacing_chain(last_tick_ms: int, wakes: Seq<int>, interval_ms: u64)
    ensures
        run_fire_times(last_tick_ms, wakes, interval_ms) >= last_tick_ms + wakes.len()
            * effective_interval(interval_ms),
    decreases wakes.len(),
{
    let eff = effective_interval(interval_ms) as int;
    if wakes.len() > 0 {
        let next = next_fire_at(last_tick_ms, wakes[0], interval_ms);
        let tail = wakes.skip(1);
        lemma_spacing_chain(next, tail, interval_ms);
        assert(last_tick_ms + eff + tail.len() * eff == last_tick_ms + (tail.len() + 1) * eff) by {
            assert((tail.len() + 1) * eff == tail.len() * eff + eff) by (nonlinear_arith);
        }
    }
}

/// Fresh interval after idling: the idle step restarts the baseline at the
/// clock value the loop reads when it wakes, so any toggle of the active
/// flag that happened by that moment (`toggle_ms <= rebase_ms`) gets a full
/// fresh interval: the next injection comes no sooner than one effective
/// interval after the toggle — never an immediate fire from timing state
/// that predates it.
pub proof fn lemma_fresh_interval_after_idle(
    toggle_ms: int,
    rebase_ms: int,
    wake_ms: int,
    interval_ms: u64,
)
    requires
        toggle_ms <= rebase_ms,
        rebase_ms <= wake_ms,
    ensures
        next_fire_at(rebase_ms, wake_ms, interval_ms) >= toggle_ms + effective_interval(
            interval_ms,
        ),
        next_fire_at(rebase_ms, wake_ms, interval_ms) >= wake_ms,
{
}

} // verus!
