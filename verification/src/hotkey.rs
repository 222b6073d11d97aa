//! Global-hotkey observer logic: modifier tracking and the debounce latch
//! that makes a held combo toggle the active flag exactly once. The OS-wide
//! hook that produces raw key events runs outside the library and feeds each
//! event through `ObserverState::on_event`.

use vstd::prelude::*;
use crate::settings::Hotkey;
use crate::settings::Key;
use crate::settings::hotkey_matches;

verus! {

/// The modifier role a raw key can play.
#[derive(Clone, Copy, Debug, PartialEq, Eq)]
pub enum ModifierKey {
    Ctrl,
    Alt,
    Shift,
    Meta,
}

/// One raw key event, already mapped onto the library's vocabulary: whether
/// the key went down or up, which modifier it is (if any), and which symbolic
/// key it maps to (if it is a recognized non-modifier key). Unrecognized keys
/// carry `None` in both fields and only their press/release is seen.
#[derive(Clone, Copy, Debug, PartialEq, Eq)]
pub struct KeyEvent {
    pub pressed: bool,
    pub modifier: Option<ModifierKey>,
    pub key: Option<Key>,
}

/// Live state of the observer: the four tracked modifier flags and the
/// debounce latch that is set while a satisfied combo is being held.
#[derive(Clone, Copy, Debug, PartialEq, Eq, Structural)]
pub struct ObserverState {
    pub ctrl: bool,
    pub alt: bool,
    pub shift: bool,
    pub meta: bool,
    pub latched: bool,
}

/// The observer's starting state: no modifier held, latch clear.
pub open spec fn initial_observer() -> ObserverState {
    ObserverState { ctrl: false, alt: false, shift: false, meta: false, latched: false }
}

/// Modifier flags after an event: if the key is a modifier, its flag takes
/// the press state; the latch is untouched here.
pub open spec fn mods_after(s: ObserverState, ev: KeyEvent) -> ObserverState {
    match ev.modifier {
        Some(ModifierKey::Ctrl) => ObserverState { ctrl: ev.pressed, ..s },
        Some(ModifierKey::Alt) => ObserverState { alt: ev.pressed, ..s },
        Some(ModifierKey::Shift) => ObserverState { shift: ev.pressed, ..s },
        Some(ModifierKey::Meta) => ObserverState { meta: ev.pressed, ..s },
        None => s,
    }
}

/// Whether this event toggles the active flag: a press of a recognized key
/// that, together with the updated modifier flags, exactly matches the combo,
/// while the latch is not yet set.
pub open spec fn observer_toggles(s: ObserverState, hot: Hotkey, ev: KeyEvent) -> bool {
    let m = mods_after(s, ev);
    &&& ev.pressed
    &&& !s.latched
    &&& ev.key matches Some(k) && hotkey_matches(hot, m.ctrl, m.alt, m.shift, m.meta, k)
}

/// The observer state after one event. A press sets the latch when it
/// toggles. A release clears the latch when it releases the combo's own main
/// key, or when it leaves all four modifier flags clear.
pub open spec fn observer_step(s: ObserverState, hot: Hotkey, ev: KeyEvent) -> ObserverState {
    let m = mods_after(s, ev);
    if ev.pressed {
        ObserverState { latched: s.latched || observer_toggles(s, hot, ev), ..m }
    } else {
        let released_main = ev.key matches Some(k) && k == hot.key;
        let latched = if released_main {
            false
        } else {
            s.latched
        };
        let latched = if !m.ctrl && !m.alt && !m.shift && !m.meta {
            false
        } else {
            latched
        };
        ObserverState { latched, ..m }
    }
}

impl ObserverState {
    /// Fresh observer: no modifier held, latch clear.
    pub fn new() -> (r: Self)
        ensures
            r == initial_observer(),
    {
        Self { ctrl: false, alt: false, shift: false, meta: false, latched: false }
    }

    /// Feed one raw key event; returns whether the active flag toggles now.
    pub fn on_event(&mut self, hotkey: &Hotkey, ev: &KeyEvent) -> (toggled: bool)
        ensures
            *final(self) == observer_step(*old(self), *hotkey, *ev),
            toggled == observer_toggles(*old(self), *hotkey, *ev),
    {
        match ev.modifier {
            Some(ModifierKey::Ctrl) => self.ctrl = ev.pressed,
            Some(ModifierKey::Alt) => self.alt = ev.pressed,
            Some(ModifierKey::Shift) => self.shift = ev.pressed,
            Some(ModifierKey::Meta) => self.meta = ev.pressed,
            None => (),
        }
        if ev.pressed {
            if let Some(k) = ev.key {
                if hotkey.matches_combo(self.ctrl, self.alt, self.shift, self.meta, &k)
                    && !self.latched {
                    self.latched = true;
                    return true;
                }
            }
            false
        } else {
            if let Some(k) = ev.key {
                if k == hotkey.key {
                    self.latched = false;
                }
            }
            if !self.ctrl && !self.alt && !self.shift && !self.meta {
                self.latched = false;
            }
            false
        }
    }
}

/// The observer state after a whole sequence of events.
pub open spec fn run_observer(s: ObserverState, hot: Hotkey, evs: Seq<KeyEvent>) -> ObserverState
    decreases evs.len(),
{
    if evs.len() == 0 {
        s
    } else {
        run_observer(observer_step(s, hot, evs[0]), hot, evs.skip(1))
    }
}

/// How many events of a sequence toggle the active flag.
pub open spec fn toggle_count(s: ObserverState, hot: Hotkey, evs: Seq<KeyEvent>) -> nat
    decreases evs.len(),
{
    if evs.len() == 0 {
        0
    } else {
        (if observer_toggles(s, hot, evs[0]) {
            1nat
        } else {
            0nat
        }) + toggle_count(observer_step(s, hot, evs[0]), hot, evs.skip(1))
    }
}

/// Debounce, held part: while the latch is set, press events — OS key
/// repeats of the held combo included — never toggle again and never clear
/// the latch; only a release can.
pub proof fn lemma_latch_blocks_repeats(s: ObserverState, hot: Hotkey, evs: Seq<KeyEvent>)
    requires
        s.latched,
        forall|i: int| 0 <= i < evs.len() ==> (#[trigger] evs[i]).pressed,
    ensures
        toggle_count(s, hot, evs) == 0,
        run_observer(s, hot, evs).latched,
    decreases evs.len(),
{
    if evs.len() > 0 {
        lemma_latch_blocks_repeats(observer_step(s, hot, evs[0]), hot, evs.skip(1));
    }
}

/// No modifier flag is held.
pub open spec fn mods_clear(s: ObserverState) -> bool {
    !s.ctrl && !s.alt && !s.shift && !s.meta
}

/// Debounce, clearing part: a release of the combo's own main key clears
/// the latch, and so does any release that leaves all four modifier flags
/// clear; the next satisfied press may toggle again.
pub proof fn lemma_release_clears_latch(s: ObserverState, hot: Hotkey, ev: KeyEvent)
    requires
        !ev.pressed,
    ensures
        ev.key == Some(hot.key) ==> !observer_step(s, hot, ev).latched,
        mods_clear(mods_after(s, ev)) ==> !observer_step(s, hot, ev).latched,
{
}

/// Debounce, whole hold: from an unlatched state, a press that satisfies the
/// combo toggles, and across the rest of the hold — any further presses,
/// repeats included — the flag toggles exactly once in total.
pub proof fn lemma_toggles_once_per_hold(s: ObserverState, hot: Hotkey, evs: Seq<KeyEvent>)
    requires
        !s.latched,
        evs.len() > 0,
        forall|i: int| 0 <= i < evs.len() ==> (#[trigger] evs[i]).pressed,
        observer_toggles(s, hot, evs[0]),
    ensures
        toggle_count(s, hot, evs) == 1,
        run_observer(s, hot, evs).latched,
{
    lemma_latch_blocks_repeats(observer_step(s, hot, evs[0]), hot, evs.skip(1));
}

} // verus!
