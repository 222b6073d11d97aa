use autoclicker::hotkey::KeyEvent;
use autoclicker::hotkey::ModifierKey;
use autoclicker::hotkey::ObserverState;
use autoclicker::settings::Hotkey;
use autoclicker::settings::Key;

fn press_mod(m: ModifierKey) -> KeyEvent {
    KeyEvent { pressed: true, modifier: Some(m), key: None }
}

fn release_mod(m: ModifierKey) -> KeyEvent {
    KeyEvent { pressed: false, modifier: Some(m), key: None }
}

fn press_key(k: Key) -> KeyEvent {
    KeyEvent { pressed: true, modifier: None, key: Some(k) }
}

fn release_key(k: Key) -> KeyEvent {
    KeyEvent { pressed: false, modifier: None, key: Some(k) }
}

fn ctrl_f8() -> Hotkey {
    Hotkey { ctrl: true, alt: false, shift: false, meta: false, key: Key::F8 }
}

#[test]
fn toggles_once_per_hold_despite_repeats() {
    let hot = ctrl_f8();
    let mut obs = ObserverState::new();
    assert!(!obs.on_event(&hot, &press_mod(ModifierKey::Ctrl)));
    // first press of the combo toggles
    assert!(obs.on_event(&hot, &press_key(Key::F8)));
    // OS key repeats of the held key do not toggle again
    assert!(!obs.on_event(&hot, &press_key(Key::F8)));
    assert!(!obs.on_event(&hot, &press_key(Key::F8)));
    // releasing the main key clears the latch; the next press toggles again
    assert!(!obs.on_event(&hot, &release_key(Key::F8)));
    assert!(obs.on_event(&hot, &press_key(Key::F8)));
}

#[test]
fn releasing_all_modifiers_clears_the_latch() {
    let hot = ctrl_f8();
    let mut obs = ObserverState::new();
    assert!(!obs.on_event(&hot, &press_mod(ModifierKey::Ctrl)));
    assert!(obs.on_event(&hot, &press_key(Key::F8)));
    // Ctrl goes up while F8 stays down: all modifiers clear, latch clears
    assert!(!obs.on_event(&hot, &release_mod(ModifierKey::Ctrl)));
    assert!(!obs.latched);
    // but a repeat of F8 alone no longer matches the combo
    assert!(!obs.on_event(&hot, &press_key(Key::F8)));
    // pressing Ctrl again completes the combo once more
    assert!(!obs.on_event(&hot, &press_mod(ModifierKey::Ctrl)));
    assert!(obs.on_event(&hot, &press_key(Key::F8)));
}

#[test]
fn superset_of_modifiers_does_not_toggle() {
    let hot = ctrl_f8();
    let mut obs = ObserverState::new();
    assert!(!obs.on_event(&hot, &press_mod(ModifierKey::Ctrl)));
    assert!(!obs.on_event(&hot, &press_mod(ModifierKey::Shift)));
    assert!(!obs.on_event(&hot, &press_key(Key::F8)));
    // dropping the extra modifier makes the combo exact again
    assert!(!obs.on_event(&hot, &release_mod(ModifierKey::Shift)));
    assert!(obs.on_event(&hot, &press_key(Key::F8)));
}

#[test]
fn unrelated_keys_do_not_disturb_the_latch() {
    let hot = ctrl_f8();
    let mut obs = ObserverState::new();
    assert!(!obs.on_event(&hot, &press_mod(ModifierKey::Ctrl)));
    assert!(obs.on_event(&hot, &press_key(Key::F8)));
    // pressing and releasing another key in between leaves the latch set
    assert!(!obs.on_event(&hot, &press_key(Key::Char('a'))));
    assert!(!obs.on_event(&hot, &release_key(Key::Char('a'))));
    assert!(obs.latched);
    assert!(!obs.on_event(&hot, &press_key(Key::F8)));
}

#[test]
fn modifier_state_tracks_press_and_release() {
    let hot = ctrl_f8();
    let mut obs = ObserverState::new();
    obs.on_event(&hot, &press_mod(ModifierKey::Alt));
    obs.on_event(&hot, &press_mod(ModifierKey::Meta));
    assert!(obs.alt && obs.meta && !obs.ctrl && !obs.shift);
    obs.on_event(&hot, &release_mod(ModifierKey::Alt));
    assert!(!obs.alt && obs.meta);
}

#[test]
fn unrecognized_events_are_ignored() {
    let hot = ctrl_f8();
    let mut obs = ObserverState::new();
    let unknown = KeyEvent { pressed: true, modifier: None, key: None };
    assert!(!obs.on_event(&hot, &unknown));
    assert_eq!(obs, ObserverState::new());
}
