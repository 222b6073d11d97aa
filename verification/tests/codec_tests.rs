use autoclicker::codec::decode_or_default;
use autoclicker::codec::settings_from_bytes;
use autoclicker::codec::settings_to_bytes;
use autoclicker::settings::Action;
use autoclicker::settings::Hotkey;
use autoclicker::settings::Key;
use autoclicker::settings::MouseButton;
use autoclicker::settings::Settings;

fn settings(hotkey: Hotkey, action: Action, interval_ms: u64) -> Settings {
    Settings { hotkey, action, interval_ms }
}

fn round_trips(s: &Settings) {
    let bytes = settings_to_bytes(s);
    assert_eq!(settings_from_bytes(&bytes), Some(s.clone()));
    assert_eq!(decode_or_default(&bytes), s.clone());
}

#[test]
fn default_settings_file_text() {
    let bytes = settings_to_bytes(&Settings::default());
    let expected = b"ctrl = true\nalt = false\nshift = false\nmeta = false\n\
key = F8\naction = Mouse-Left\ninterval_ms = 60\n";
    assert_eq!(bytes, expected.to_vec());
}

#[test]
fn char_key_file_text() {
    let s = settings(
        Hotkey { ctrl: false, alt: true, shift: false, meta: false, key: Key::Char('a') },
        Action::Keyboard(Key::Char('z')),
        1234,
    );
    let bytes = settings_to_bytes(&s);
    let expected = b"ctrl = false\nalt = true\nshift = false\nmeta = false\n\
key = Char-97\naction = Key-Char-122\ninterval_ms = 1234\n";
    assert_eq!(bytes, expected.to_vec());
}

#[test]
fn round_trip_default() {
    round_trips(&Settings::default());
}

#[test]
fn round_trip_every_fixed_key() {
    let keys = [
        Key::F6,
        Key::F7,
        Key::F8,
        Key::F9,
        Key::F10,
        Key::F11,
        Key::F12,
        Key::Space,
        Key::Enter,
        Key::Escape,
    ];
    for k in keys.iter() {
        let s = settings(
            Hotkey { ctrl: true, alt: false, shift: true, meta: false, key: k.clone() },
            Action::Keyboard(k.clone()),
            60,
        );
        round_trips(&s);
    }
}

#[test]
fn round_trip_char_keys() {
    for c in ['a', 'z', 'A', 'Z', '0', '9', 'k'] {
        let s = settings(
            Hotkey { ctrl: false, alt: false, shift: false, meta: true, key: Key::Char(c) },
            Action::Keyboard(Key::Char(c)),
            500,
        );
        round_trips(&s);
    }
}

#[test]
fn round_trip_every_mouse_button() {
    for b in [MouseButton::Left, MouseButton::Right, MouseButton::Middle] {
        let s = settings(Hotkey::default_toggle(), Action::Mouse(b), 60);
        round_trips(&s);
    }
}

#[test]
fn round_trip_every_flag_combination() {
    for bits in 0u32..16 {
        let s = settings(
            Hotkey {
                ctrl: bits & 1 != 0,
                alt: bits & 2 != 0,
                shift: bits & 4 != 0,
                meta: bits & 8 != 0,
                key: Key::F11,
            },
            Action::Mouse(MouseButton::Right),
            60,
        );
        round_trips(&s);
    }
}

#[test]
fn round_trip_interval_extremes() {
    for n in [0u64, 1, 10, 99, 100, 10000, u64::MAX] {
        let s = settings(Hotkey::default_toggle(), Action::Mouse(MouseButton::Left), n);
        round_trips(&s);
    }
}

#[test]
fn corrupt_file_yields_default() {
    let cases: [&[u8]; 6] = [
        b"",
        b"this is not a settings file",
        b"ctrl = maybe\nalt = false\nshift = false\nmeta = false\nkey = F8\naction = Mouse-Left\ninterval_ms = 60\n",
        b"ctrl = true\nalt = false\nshift = false\nmeta = false\nkey = F13\naction = Mouse-Left\ninterval_ms = 60\n",
        b"ctrl = true\nalt = false\nshift = false\nmeta = false\nkey = F8\naction = Mouse-Sideways\ninterval_ms = 60\n",
        b"ctrl = true\nalt = false\nshift = false\nmeta = false\nkey = F8\naction = Mouse-Left\ninterval_ms = sixty\n",
    ];
    for c in cases.iter() {
        assert_eq!(settings_from_bytes(c), None);
        assert_eq!(decode_or_default(c), Settings::default());
    }
}

#[test]
fn non_canonical_text_is_rejected() {
    // a leading zero in the interval
    let a = b"ctrl = true\nalt = false\nshift = false\nmeta = false\nkey = F8\naction = Mouse-Left\ninterval_ms = 060\n";
    assert_eq!(settings_from_bytes(a), None);
    // trailing bytes after the last line
    let b = b"ctrl = true\nalt = false\nshift = false\nmeta = false\nkey = F8\naction = Mouse-Left\ninterval_ms = 60\nx";
    assert_eq!(settings_from_bytes(b), None);
    // a truncated file
    let c = b"ctrl = true\nalt = false\nshift = false\n";
    assert_eq!(settings_from_bytes(c), None);
    // lines in another order
    let d = b"alt = false\nctrl = true\nshift = false\nmeta = false\nkey = F8\naction = Mouse-Left\ninterval_ms = 60\n";
    assert_eq!(settings_from_bytes(d), None);
    // an interval too large for the type
    let e = b"ctrl = true\nalt = false\nshift = false\nmeta = false\nkey = F8\naction = Mouse-Left\ninterval_ms = 18446744073709551616\n";
    assert_eq!(settings_from_bytes(e), None);
}

#[test]
fn non_alphanumeric_char_key_is_rejected() {
    // a semicolon's code is 59: not an alphanumeric character key
    let a = b"ctrl = true\nalt = false\nshift = false\nmeta = false\nkey = Char-59\naction = Mouse-Left\ninterval_ms = 60\n";
    assert_eq!(settings_from_bytes(a), None);
    assert_eq!(decode_or_default(a), Settings::default());
}

#[test]
fn parse_is_exact_about_keys() {
    let good = b"ctrl = false\nalt = false\nshift = false\nmeta = false\nkey = Char-107\naction = Key-F12\ninterval_ms = 250\n";
    let parsed = settings_from_bytes(good).expect("canonical text must parse");
    assert_eq!(parsed.hotkey.key, Key::Char('k'));
    assert_eq!(parsed.action, Action::Keyboard(Key::F12));
    assert_eq!(parsed.interval_ms, 250);
}
