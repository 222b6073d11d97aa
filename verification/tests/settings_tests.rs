use autoclicker::settings::Action;
use autoclicker::settings::Hotkey;
use autoclicker::settings::Key;
use autoclicker::settings::MouseButton;
use autoclicker::settings::Settings;

#[test]
fn default_settings_values() {
    let s = Settings::default();
    assert_eq!(s.hotkey, Hotkey { ctrl: true, alt: false, shift: false, meta: false, key: Key::F8 });
    assert_eq!(s.action, Action::Mouse(MouseButton::Left));
    assert_eq!(s.interval_ms, 60);
}

#[test]
fn default_toggle_is_ctrl_f8() {
    let h = Hotkey::default_toggle();
    assert!(h.ctrl);
    assert!(!h.alt);
    assert!(!h.shift);
    assert!(!h.meta);
    assert_eq!(h.key, Key::F8);
}

#[test]
fn combo_matches_exact_state_only() {
    let h = Hotkey { ctrl: true, alt: false, shift: false, meta: false, key: Key::F8 };
    assert!(h.matches_combo(true, false, false, false, &Key::F8));
    // a superset of the required modifiers does not match
    assert!(!h.matches_combo(true, true, false, false, &Key::F8));
    assert!(!h.matches_combo(true, false, true, false, &Key::F8));
    assert!(!h.matches_combo(true, false, false, true, &Key::F8));
    // a subset does not match either
    assert!(!h.matches_combo(false, false, false, false, &Key::F8));
    // the main key must be equal
    assert!(!h.matches_combo(true, false, false, false, &Key::F9));
    assert!(!h.matches_combo(true, false, false, false, &Key::Char('a')));
}

#[test]
fn combo_matches_with_all_modifiers() {
    let h = Hotkey { ctrl: true, alt: true, shift: true, meta: true, key: Key::Space };
    assert!(h.matches_combo(true, true, true, true, &Key::Space));
    assert!(!h.matches_combo(true, true, true, false, &Key::Space));
}

#[test]
fn char_keys_compare_by_value() {
    let h = Hotkey { ctrl: false, alt: false, shift: false, meta: false, key: Key::Char('x') };
    assert!(h.matches_combo(false, false, false, false, &Key::Char('x')));
    assert!(!h.matches_combo(false, false, false, false, &Key::Char('y')));
}

#[test]
fn key_names() {
    assert_eq!(Key::F6.to_str(), "F6");
    assert_eq!(Key::F7.to_str(), "F7");
    assert_eq!(Key::F8.to_str(), "F8");
    assert_eq!(Key::F9.to_str(), "F9");
    assert_eq!(Key::F10.to_str(), "F10");
    assert_eq!(Key::F11.to_str(), "F11");
    assert_eq!(Key::F12.to_str(), "F12");
    assert_eq!(Key::Space.to_str(), "Space");
    assert_eq!(Key::Enter.to_str(), "Enter");
    assert_eq!(Key::Escape.to_str(), "Escape");
}

#[test]
fn char_key_names_are_upper_case() {
    assert_eq!(Key::Char('a').to_str(), "A");
    assert_eq!(Key::Char('A').to_str(), "A");
    assert_eq!(Key::Char('z').to_str(), "Z");
    assert_eq!(Key::Char('q').to_str(), "Q");
    assert_eq!(Key::Char('0').to_str(), "0");
    assert_eq!(Key::Char('9').to_str(), "9");
}

#[test]
fn unknown_char_key_name_is_question_mark() {
    assert_eq!(Key::Char(';').to_str(), "?");
    assert_eq!(Key::Char('é').to_str(), "?");
}

#[test]
fn hotkey_labels() {
    let h = Hotkey { ctrl: true, alt: false, shift: false, meta: false, key: Key::F8 };
    assert_eq!(h.label(), "Ctrl+F8");
    let h2 = Hotkey { ctrl: true, alt: true, shift: true, meta: true, key: Key::Space };
    assert_eq!(h2.label(), "Ctrl+Alt+Shift+Meta+Space");
    let h3 = Hotkey { ctrl: false, alt: false, shift: false, meta: false, key: Key::F6 };
    assert_eq!(h3.label(), "F6");
    let h4 = Hotkey { ctrl: false, alt: true, shift: false, meta: false, key: Key::Char('k') };
    assert_eq!(h4.label(), "Alt+K");
}
