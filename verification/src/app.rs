//! UI-side application state: the in-memory settings, the two recording
//! flags, and the last-save-error line. Edits are applied in memory first;
//! the result of the following save is recorded afterwards, so a failed save
//! never rolls an edit back. The surrounding GUI owns the widgets, performs
//! the actual file write, and forwards its outcome here.

use vstd::prelude::*;
use crate::settings::Settings;
use crate::settings::default_settings;

verus! {

/// Smallest interval the interval editor accepts, in ms.
pub const MIN_INTERVAL_MS: u64 = 1;

/// Largest interval the interval editor accepts, in ms.
pub const MAX_INTERVAL_MS: u64 = 10000;

/// Clicks per second, in tenths, shown for an interval: 10000 / interval,
/// rounded to the nearest tenth. 500 ms shows as 20 tenths (2.0 cps).
pub open spec fn cps_tenths_of(interval_ms: u64) -> int {
    (20000 + interval_ms) / (2 * interval_ms as int)
}

/// Interval derived from an edited cps value (in tenths, clamped to
/// 1..=10000, i.e. 0.1..=1000.0 cps): 10000 / cps_tenths, rounded to the
/// nearest ms. 100 tenths (10 cps) gives 100 ms.
pub open spec fn interval_of_cps_tenths(tenths: u64) -> int {
    let t = clamped_tenths(tenths);
    (20000 + t) / (2 * t)
}

/// An edited cps value clamped to the accepted range, in tenths.
pub open spec fn clamped_tenths(tenths: u64) -> int {
    if tenths < 1 {
        1
    } else if tenths > 10000 {
        10000
    } else {
        tenths as int
    }
}

/// Clamp an edited interval to the accepted 1..=10000 ms range.
pub fn clamp_interval_ms(interval_ms: u64) -> (r: u64)
    ensures
        r == if interval_ms < MIN_INTERVAL_MS {
            MIN_INTERVAL_MS
        } else if interval_ms > MAX_INTERVAL_MS {
            MAX_INTERVAL_MS
        } else {
            interval_ms
        },
        MIN_INTERVAL_MS <= r <= MAX_INTERVAL_MS,
{
    if interval_ms < MIN_INTERVAL_MS {
        MIN_INTERVAL_MS
    } else if interval_ms > MAX_INTERVAL_MS {
        MAX_INTERVAL_MS
    } else {
        interval_ms
    }
}

/// The cps field shown beside an interval, in tenths of a click per second.
pub fn cps_tenths_for_interval(interval_ms: u64) -> (r: u64)
    requires
        MIN_INTERVAL_MS <= interval_ms <= MAX_INTERVAL_MS,
    ensures
        r == cps_tenths_of(interval_ms),
        1 <= r <= 10000,
{
    proof {
        lemma_ratio_in_range(interval_ms as int);
    }
    (20000 + interval_ms) / (2 * interval_ms)
}

/// For a divisor in the accepted range, the rounded ratio 10000/x (in
/// tenths) stays in the accepted cps range.
proof fn lemma_ratio_in_range(x: int)
    requires
        1 <= x <= 10000,
    ensures
        1 <= (20000 + x) / (2 * x) <= 10000,
{
    assert(1 <= (20000 + x) / (2 * x) <= 10000) by (nonlinear_arith)
        requires 1 <= x <= 10000;
}

/// The interval stored after the cps field is edited, in ms.
pub fn interval_for_cps_tenths(tenths: u64) -> (r: u64)
    ensures
        r == interval_of_cps_tenths(tenths),
        MIN_INTERVAL_MS <= r <= MAX_INTERVAL_MS,
{
    let t: u64 = if tenths < 1 {
        1
    } else if tenths > 10000 {
        10000
    } else {
        tenths
    };
    proof {
        lemma_ratio_in_range(t as int);
    }
    (20000 + t) / (2 * t)
}

/// The application's UI-side state.
#[derive(Clone, Debug)]
pub struct AutoClickerApp {
    /// In-memory settings; the value the background threads read a copy of.
    pub settings: Settings,
    /// The hotkey row is waiting for the next key press to become the combo.
    pub recording_hotkey: bool,
    /// The action row is waiting for the next key press to become the action key.
    pub recording_action_key: bool,
    /// The message of the most recent failed save, until a save succeeds.
    pub last_save_error: Option<String>,
}

impl AutoClickerApp {
    /// Fresh application state over the default settings: not recording,
    /// no save error.
    pub fn new() -> (r: Self)
        ensures
            r.settings == default_settings(),
            !r.recording_hotkey,
            !r.recording_action_key,
            r.last_save_error is None,
    {
        Self {
            settings: Settings::default(),
            recording_hotkey: false,
            recording_action_key: false,
            last_save_error: None,
        }
    }

    /// Fresh application state over settings already loaded from disk.
    pub fn with_settings(settings: Settings) -> (r: Self)
        ensures
            r.settings == settings,
            !r.recording_hotkey,
            !r.recording_action_key,
            r.last_save_error is None,
    {
        Self { settings, recording_hotkey: false, recording_action_key: false, last_save_error: None }
    }

    /// Apply an edit to the in-memory settings. The caller then saves the
    /// new value and reports the outcome through `record_save_result`.
    pub fn apply_edit(&mut self, new_settings: Settings)
        ensures
            final(self).settings == new_settings,
            final(self).recording_hotkey == old(self).recording_hotkey,
            final(self).recording_action_key == old(self).recording_action_key,
            final(self).last_save_error == old(self).last_save_error,
    {
        self.settings = new_settings;
    }

    /// Record the outcome of saving the current settings. A failure keeps
    /// the edit and surfaces its message; a success clears any earlier
    /// failure. Returns whether the action loop should be woken (only after
    /// a successful save, as a failed one changed nothing on disk).
    pub fn record_save_result(&mut self, error: Option<String>) -> (wake: bool)
        ensures
            final(self).last_save_error == error,
            final(self).settings == old(self).settings,
            final(self).recording_hotkey == old(self).recording_hotkey,
            final(self).recording_action_key == old(self).recording_action_key,
            wake == (error is None),
    {
        match error {
            None => {
                self.last_save_error = None;
                true
            },
            Some(e) => {
                self.last_save_error = Some(e);
                false
            },
        }
    }
}

} // verus!
