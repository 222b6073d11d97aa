//! Configuration data model: the symbolic key set, hotkey combos, actions,
//! and the persisted settings record.

use vstd::prelude::*;
use vstd::string::StringExecFns;

verus! {

/// The closed set of symbolic keys a hotkey or keyboard action can use:
/// function keys F6 through F12, Space, Enter, Escape, or a single
/// alphanumeric character.
#[derive(Clone, Copy, Debug, PartialEq, Eq, Structural)]
pub enum Key {
    F6,
    F7,
    F8,
    F9,
    F10,
    F11,
    F12,
    Space,
    Enter,
    Escape,
    Char(char),
}

/// A `Char` key is well formed when it holds an ASCII alphanumeric
/// character; the other variants always are.
pub open spec fn key_wf(k: Key) -> bool {
    match k {
        Key::Char(c) => char_is_alnum(c),
        _ => true,
    }
}

/// ASCII digit, lower-case letter, or upper-case letter.
pub open spec fn char_is_alnum(c: char) -> bool {
    (48 <= c as u32 && c as u32 <= 57)  // '0'..='9'
    || (65 <= c as u32 && c as u32 <= 90)  // 'A'..='Z'
    || (97 <= c as u32 && c as u32 <= 122)  // 'a'..='z'
}

/// Canonical short display name of a key.
pub open spec fn key_name(k: Key) -> Seq<char> {
    match k {
        Key::F6 => "F6"@,
        Key::F7 => "F7"@,
        Key::F8 => "F8"@,
        Key::F9 => "F9"@,
        Key::F10 => "F10"@,
        Key::F11 => "F11"@,
        Key::F12 => "F12"@,
        Key::Space => "Space"@,
        Key::Enter => "Enter"@,
        Key::Escape => "Escape"@,
        Key::Char(c) => char_display(c),
    }
}

/// Display name of a character key: letters are shown upper-case, digits as
/// themselves, anything else as "?".
pub open spec fn char_display(c: char) -> Seq<char> {
    match c {
        'a' | 'A' => "A"@,
        'b' | 'B' => "B"@,
        'c' | 'C' => "C"@,
        'd' | 'D' => "D"@,
        'e' | 'E' => "E"@,
        'f' | 'F' => "F"@,
        'g' | 'G' => "G"@,
        'h' | 'H' => "H"@,
        'i' | 'I' => "I"@,
        'j' | 'J' => "J"@,
        'k' | 'K' => "K"@,
        'l' | 'L' => "L"@,
        'm' | 'M' => "M"@,
        'n' | 'N' => "N"@,
        'o' | 'O' => "O"@,
        'p' | 'P' => "P"@,
        'q' | 'Q' => "Q"@,
        'r' | 'R' => "R"@,
        's' | 'S' => "S"@,
        't' | 'T' => "T"@,
        'u' | 'U' => "U"@,
        'v' | 'V' => "V"@,
        'w' | 'W' => "W"@,
        'x' | 'X' => "X"@,
        'y' | 'Y' => "Y"@,
        'z' | 'Z' => "Z"@,
        '0' => "0"@,
        '1' => "1"@,
        '2' => "2"@,
        '3' => "3"@,
        '4' => "4"@,
        '5' => "5"@,
        '6' => "6"@,
        '7' => "7"@,
        '8' => "8"@,
        '9' => "9"@,
        _ => "?"@,
    }
}

impl Key {
    /// Canonical short display name, e.g. "F8" or "Space".
    pub fn to_str(&self) -> (r: &'static str)
        ensures
            r@ == key_name(*self),
    {
        match self {
            Key::F6 => "F6",
            Key::F7 => "F7",
            Key::F8 => "F8",
            Key::F9 => "F9",
            Key::F10 => "F10",
            Key::F11 => "F11",
            Key::F12 => "F12",
            Key::Space => "Space",
            Key::Enter => "Enter",
            Key::Escape => "Escape",
            Key::Char(c) => match c {
                'a' | 'A' => "A",
                'b' | 'B' => "B",
                'c' | 'C' => "C",
                'd' | 'D' => "D",
                'e' | 'E' => "E",
                'f' | 'F' => "F",
                'g' | 'G' => "G",
                'h' | 'H' => "H",
                'i' | 'I' => "I",
                'j' | 'J' => "J",
                'k' | 'K' => "K",
                'l' | 'L' => "L",
                'm' | 'M' => "M",
                'n' | 'N' => "N",
                'o' | 'O' => "O",
                'p' | 'P' => "P",
                'q' | 'Q' => "Q",
                'r' | 'R' => "R",
                's' | 'S' => "S",
                't' | 'T' => "T",
                'u' | 'U' => "U",
                'v' | 'V' => "V",
                'w' | 'W' => "W",
                'x' | 'X' => "X",
                'y' | 'Y' => "Y",
                'z' | 'Z' => "Z",
                '0' => "0",
                '1' => "1",
                '2' => "2",
                '3' => "3",
                '4' => "4",
                '5' => "5",
                '6' => "6",
                '7' => "7",
                '8' => "8",
                '9' => "9",
                _ => "?",
            },
        }
    }
}

/// A hotkey combo: four modifier flags plus one non-modifier key. The combo
/// matches only an exact modifier state, never a subset or superset.
#[derive(Clone, Copy, Debug, PartialEq, Eq, Structural)]
pub struct Hotkey {
    pub ctrl: bool,
    pub alt: bool,
    pub shift: bool,
    pub meta: bool,
    pub key: Key,
}

/// Exact-match test of a combo against a live modifier state and pressed key.
pub open spec fn hotkey_matches(h: Hotkey, ctrl: bool, alt: bool, shift: bool, meta: bool, k: Key) -> bool {
    h.ctrl == ctrl && h.alt == alt && h.shift == shift && h.meta == meta && h.key == k
}

/// Canonical display string of a combo: each set modifier followed by "+",
/// then the key name, e.g. "Ctrl+F8".
pub open spec fn hotkey_label(h: Hotkey) -> Seq<char> {
    (if h.ctrl { "Ctrl+"@ } else { Seq::<char>::empty() })
    + (if h.alt { "Alt+"@ } else { Seq::<char>::empty() })
    + (if h.shift { "Shift+"@ } else { Seq::<char>::empty() })
    + (if h.meta { "Meta+"@ } else { Seq::<char>::empty() })
    + key_name(h.key)
}

impl Hotkey {
    /// The default toggle combo, Ctrl+F8.
    pub fn default_toggle() -> (r: Self)
        ensures
            r == (Hotkey { ctrl: true, alt: false, shift: false, meta: false, key: Key::F8 }),
    {
        Self { ctrl: true, alt: false, shift: false, meta: false, key: Key::F8 }
    }

    /// A combo matches if and only if every modifier flag equals the live
    /// state and the main key equals the pressed key.
    #[must_use]
    pub fn matches_combo(&self, ctrl: bool, alt: bool, shift: bool, meta: bool, key: &Key) -> (r: bool)
        ensures
            r <==> hotkey_matches(*self, ctrl, alt, shift, meta, *key),
    {
        self.ctrl == ctrl && self.alt == alt && self.shift == shift && self.meta == meta
            && self.key == *key
    }

    /// Display string of the combo, e.g. "Ctrl+F8".
    pub fn label(&self) -> (r: String)
        ensures
            r@ == hotkey_label(*self),
    {
        let mut out = String::new();
        if self.ctrl {
            out.append("Ctrl+");
        }
        if self.alt {
            out.append("Alt+");
        }
        if self.shift {
            out.append("Shift+");
        }
        if self.meta {
            out.append("Meta+");
        }
        out.append(self.key.to_str());
        out
    }
}

/// A mouse button the action can click.
#[derive(Clone, Copy, Debug, PartialEq, Eq, Structural)]
pub enum MouseButton {
    Left,
    Right,
    Middle,
}

/// The injected action: a mouse click or a key press.
#[derive(Clone, Copy, Debug, PartialEq, Eq, Structural)]
pub enum Action {
    Mouse(MouseButton),
    Keyboard(Key),
}

/// A keyboard action is well formed when its key is; mouse actions always are.
pub open spec fn action_wf(a: Action) -> bool {
    match a {
        Action::Keyboard(k) => key_wf(k),
        Action::Mouse(_) => true,
    }
}

/// The persisted configuration: hotkey combo, injected action, and the
/// injection interval in milliseconds.
#[derive(Clone, Copy, Debug, PartialEq, Eq, Structural)]
pub struct Settings {
    pub hotkey: Hotkey,
    pub action: Action,
    pub interval_ms: u64,
}

/// A settings record is well formed when every key it holds is.
pub open spec fn settings_wf(s: Settings) -> bool {
    key_wf(s.hotkey.key) && action_wf(s.action)
}

/// The default configuration: Ctrl+F8 toggles a left mouse click every 60 ms.
pub open spec fn default_settings() -> Settings {
    Settings {
        hotkey: Hotkey { ctrl: true, alt: false, shift: false, meta: false, key: Key::F8 },
        action: Action::Mouse(MouseButton::Left),
        interval_ms: 60,
    }
}

impl Default for Settings {
    /// Hotkey Ctrl+F8, action Mouse(Left), interval 60 ms.
    fn default() -> (r: Self)
        ensures
            r == default_settings(),
    {
        Self {
            hotkey: Hotkey::default_toggle(),
            action: Action::Mouse(MouseButton::Left),
            interval_ms: 60,
        }
    }
}

} // verus!
