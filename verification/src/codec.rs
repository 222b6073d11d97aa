//! The on-disk settings format: a small line-based text file, one
//! `name = value` line per field, e.g.
//!
//! ```text
//! ctrl = true
//! alt = false
//! shift = false
//! meta = false
//! key = F8
//! action = Mouse-Left
//! interval_ms = 60
//! ```
//!
//! `encoded` is the canonical byte sequence of a settings record; the
//! serializer produces exactly it, and the parser accepts exactly it, so
//! decoding a serialized record gives the record back, and anything else
//! falls back to the defaults. Character keys are written as `Char-` plus
//! the decimal character code, and only ASCII alphanumeric codes are read
//! back.

use vstd::prelude::*;
use crate::settings::Action;
use crate::settings::Hotkey;
use crate::settings::Key;
use crate::settings::MouseButton;
use crate::settings::Settings;
use crate::settings::action_wf;
use crate::settings::default_settings;
use crate::settings::key_wf;
use crate::settings::settings_wf;

verus! {

// ---------------------------------------------------------------------------
// The byte-level format.
// ---------------------------------------------------------------------------

/// "ctrl = "
pub open spec fn ctrl_label() -> Seq<u8> {
    seq![99u8, 116u8, 114u8, 108u8, 32u8, 61u8, 32u8]
}

/// "alt = "
pub open spec fn alt_label() -> Seq<u8> {
    seq![97u8, 108u8, 116u8, 32u8, 61u8, 32u8]
}

/// "shift = "
pub open spec fn shift_label() -> Seq<u8> {
    seq![115u8, 104u8, 105u8, 102u8, 116u8, 32u8, 61u8, 32u8]
}

/// "meta = "
pub open spec fn meta_label() -> Seq<u8> {
    seq![109u8, 101u8, 116u8, 97u8, 32u8, 61u8, 32u8]
}

/// "key = "
pub open spec fn key_label() -> Seq<u8> {
    seq![107u8, 101u8, 121u8, 32u8, 61u8, 32u8]
}

/// "action = "
pub open spec fn action_label() -> Seq<u8> {
    seq![97u8, 99u8, 116u8, 105u8, 111u8, 110u8, 32u8, 61u8, 32u8]
}

/// "interval_ms = "
pub open spec fn interval_label() -> Seq<u8> {
    seq![105u8, 110u8, 116u8, 101u8, 114u8, 118u8, 97u8, 108u8, 95u8, 109u8, 115u8, 32u8, 61u8, 32u8]
}

/// "true" or "false".
pub open spec fn bool_token(b: bool) -> Seq<u8> {
    if b {
        seq![116u8, 114u8, 117u8, 101u8]
    } else {
        seq![102u8, 97u8, 108u8, 115u8, 101u8]
    }
}

/// The decimal digits of `n`, most significant first, no leading zeros.
pub open spec fn dec_token(n: u64) -> Seq<u8>
    decreases n,
{
    if n < 10 {
        seq![(48 + n) as u8]
    } else {
        dec_token(n / 10) + seq![(48 + n % 10) as u8]
    }
}

/// "Char-"
pub open spec fn char_prefix() -> Seq<u8> {
    seq![67u8, 104u8, 97u8, 114u8, 45u8]
}

/// The file token of a key: its name, or `Char-` plus the character code.
pub open spec fn key_token(k: Key) -> Seq<u8> {
    match k {
        Key::F6 => seq![70u8, 54u8],
        Key::F7 => seq![70u8, 55u8],
        Key::F8 => seq![70u8, 56u8],
        Key::F9 => seq![70u8, 57u8],
        Key::F10 => seq![70u8, 49u8, 48u8],
        Key::F11 => seq![70u8, 49u8, 49u8],
        Key::F12 => seq![70u8, 49u8, 50u8],
        Key::Space => seq![83u8, 112u8, 97u8, 99u8, 101u8],
        Key::Enter => seq![69u8, 110u8, 116u8, 101u8, 114u8],
        Key::Escape => seq![69u8, 115u8, 99u8, 97u8, 112u8, 101u8],
        Key::Char(c) => char_prefix() + dec_token(c as u64),
    }
}

/// "Key-"
pub open spec fn keyboard_prefix() -> Seq<u8> {
    seq![75u8, 101u8, 121u8, 45u8]
}

/// The file token of an action: a mouse-button name, or `Key-` plus a key token.
pub open spec fn action_token(a: Action) -> Seq<u8> {
    match a {
        Action::Mouse(MouseButton::Left) => seq![
            77u8, 111u8, 117u8, 115u8, 101u8, 45u8, 76u8, 101u8, 102u8, 116u8,
        ],
        Action::Mouse(MouseButton::Right) => seq![
            77u8, 111u8, 117u8, 115u8, 101u8, 45u8, 82u8, 105u8, 103u8, 104u8, 116u8,
        ],
        Action::Mouse(MouseButton::Middle) => seq![
            77u8, 111u8, 117u8, 115u8, 101u8, 45u8, 77u8, 105u8, 100u8, 100u8, 108u8, 101u8,
        ],
        Action::Keyboard(k) => keyboard_prefix() + key_token(k),
    }
}

/// One file line: label, token, line feed.
pub open spec fn line_of(label: Seq<u8>, token: Seq<u8>) -> Seq<u8> {
    label + token + seq![10u8]
}

/// The seven lines of the file.
pub open spec fn ctrl_line(b: bool) -> Seq<u8> {
    line_of(ctrl_label(), bool_token(b))
}

pub open spec fn alt_line(b: bool) -> Seq<u8> {
    line_of(alt_label(), bool_token(b))
}

pub open spec fn shift_line(b: bool) -> Seq<u8> {
    line_of(shift_label(), bool_token(b))
}

pub open spec fn meta_line(b: bool) -> Seq<u8> {
    line_of(meta_label(), bool_token(b))
}

pub open spec fn key_line(k: Key) -> Seq<u8> {
    line_of(key_label(), key_token(k))
}

pub open spec fn action_line(a: Action) -> Seq<u8> {
    line_of(action_label(), action_token(a))
}

pub open spec fn interval_line(n: u64) -> Seq<u8> {
    line_of(interval_label(), dec_token(n))
}

/// The first five lines of the file: the hotkey combo.
pub open spec fn hotkey_bytes(h: Hotkey) -> Seq<u8> {
    ctrl_line(h.ctrl) + alt_line(h.alt) + shift_line(h.shift) + meta_line(h.meta) + key_line(h.key)
}

/// The canonical byte encoding of a settings record.
pub open spec fn encoded(s: Settings) -> Seq<u8> {
    hotkey_bytes(s.hotkey) + action_line(s.action) + interval_line(s.interval_ms)
}

// ---------------------------------------------------------------------------
// Facts about the tokens.
// ---------------------------------------------------------------------------

/// Every byte of a decimal token is a digit, and the token is non-empty.
pub proof fn lemma_dec_token_digits(n: u64)
    ensures
        dec_token(n).len() >= 1,
        forall|i: int| 0 <= i < dec_token(n).len() ==> 48 <= #[trigger] dec_token(n)[i] <= 57,
    decreases n,
{
    if n >= 10 {
        lemma_dec_token_digits(n / 10);
    }
}

/// The numeric value of a digit string, most significant digit first.
pub open spec fn dec_value(s: Seq<u8>) -> int
    decreases s.len(),
{
    if s.len() == 0 {
        0
    } else {
        dec_value(s.drop_last()) * 10 + (s.last() - 48)
    }
}

/// Reading the decimal token of `n` back gives `n`.
pub proof fn lemma_dec_token_value(n: u64)
    ensures
        dec_value(dec_token(n)) == n,
    decreases n,
{
    if n < 10 {
        assert(dec_value(Seq::<u8>::empty()) == 0);
        assert(dec_token(n).drop_last() =~= Seq::<u8>::empty());
        assert(dec_token(n).last() == (48 + n) as u8);
        assert((48 + n) as u8 == 48 + n);
    } else {
        lemma_dec_token_value(n / 10);
        assert(dec_token(n).drop_last() =~= dec_token(n / 10));
        assert(dec_token(n).last() == (48 + n % 10) as u8);
        assert((48 + n % 10) as u8 == 48 + n % 10);
    }
}

/// Every prefix of a decimal token reads back as a value no larger than the
/// whole: the value of the first `j` digits of `dec_token(n)` is `n` with the
/// remaining digits divided away.
pub proof fn lemma_dec_token_prefix(n: u64, j: int)
    requires
        0 <= j <= dec_token(n).len(),
    ensures
        0 <= dec_value(dec_token(n).take(j)) <= n,
    decreases n,
{
    let t = dec_token(n);
    if j == t.len() {
        lemma_dec_token_value(n);
        assert(t.take(j) =~= t);
    } else if n < 10 {
        assert(t.take(j) =~= Seq::<u8>::empty());
    } else {
        assert(t.take(j) =~= dec_token(n / 10).take(j));
        lemma_dec_token_prefix(n / 10, j);
    }
}

/// No token of the format contains a line feed.
pub proof fn lemma_token_no_lf(k: Key, a: Action, n: u64)
    ensures
        forall|i: int| 0 <= i < bool_token(true).len() ==> #[trigger] bool_token(true)[i] != 10,
        forall|i: int| 0 <= i < bool_token(false).len() ==> #[trigger] bool_token(false)[i] != 10,
        forall|i: int| 0 <= i < dec_token(n).len() ==> #[trigger] dec_token(n)[i] != 10,
        forall|i: int| 0 <= i < key_token(k).len() ==> #[trigger] key_token(k)[i] != 10,
        forall|i: int| 0 <= i < action_token(a).len() ==> #[trigger] action_token(a)[i] != 10,
{
    lemma_dec_token_digits(n);
    match k {
        Key::Char(c) => {
            lemma_dec_token_digits(c as u64);
        },
        _ => {},
    }
    match a {
        Action::Keyboard(k2) => {
            match k2 {
                Key::Char(c) => {
                    lemma_dec_token_digits(c as u64);
                },
                _ => {},
            }
        },
        _ => {},
    }
}

// ---------------------------------------------------------------------------
// Serializing.
// ---------------------------------------------------------------------------

/// Append a literal byte slice.
fn push_bytes(out: &mut Vec<u8>, bytes: &[u8])
    ensures
        final(out)@ == old(out)@ + bytes@,
{
    let n = bytes.len();
    let mut i: usize = 0;
    while i < n
        invariant
            i <= n,
            n == bytes@.len(),
            out@ == old(out)@ + bytes@.take(i as int),
        decreases n - i,
    {
        out.push(bytes[i]);
        proof {
            assert(bytes@.take(i + 1) =~= bytes@.take(i as int) + seq![bytes@[i as int]]);
            assert(out@ =~= old(out)@ + bytes@.take(i + 1));
        }
        i += 1;
    }
    proof {
        assert(bytes@.take(n as int) =~= bytes@);
    }
}

/// Append "true" or "false".
fn push_bool(out: &mut Vec<u8>, b: bool)
    ensures
        final(out)@ == old(out)@ + bool_token(b),
{
    if b {
        let t: [u8; 4] = [116, 114, 117, 101];
        push_bytes(out, t.as_slice());
        proof {
            assert(t@ =~= bool_token(true));
        }
    } else {
        let t: [u8; 5] = [102, 97, 108, 115, 101];
        push_bytes(out, t.as_slice());
        proof {
            assert(t@ =~= bool_token(false));
        }
    }
}

/// Append the decimal digits of `n`, most significant first.
fn push_dec(out: &mut Vec<u8>, n: u64)
    ensures
        final(out)@ == old(out)@ + dec_token(n),
    decreases n,
{
    if n < 10 {
        out.push(48 + n as u8);
    } else {
        push_dec(out, n / 10);
        out.push(48 + (n % 10) as u8);
        proof {
            assert(out@ =~= old(out)@ + dec_token(n));
        }
    }
}

/// Append the file token of a key.
fn push_key(out: &mut Vec<u8>, k: &Key)
    ensures
        final(out)@ == old(out)@ + key_token(*k),
{
    match k {
        Key::F6 => {
            let t: [u8; 2] = [70, 54];
            push_bytes(out, t.as_slice());
            proof {
                assert(t@ =~= key_token(Key::F6));
            }
        },
        Key::F7 => {
            let t: [u8; 2] = [70, 55];
            push_bytes(out, t.as_slice());
            proof {
                assert(t@ =~= key_token(Key::F7));
            }
        },
        Key::F8 => {
            let t: [u8; 2] = [70, 56];
            push_bytes(out, t.as_slice());
            proof {
                assert(t@ =~= key_token(Key::F8));
            }
        },
        Key::F9 => {
            let t: [u8; 2] = [70, 57];
            push_bytes(out, t.as_slice());
            proof {
                assert(t@ =~= key_token(Key::F9));
            }
        },
        Key::F10 => {
            let t: [u8; 3] = [70, 49, 48];
            push_bytes(out, t.as_slice());
            proof {
                assert(t@ =~= key_token(Key::F10));
            }
        },
        Key::F11 => {
            let t: [u8; 3] = [70, 49, 49];
            push_bytes(out, t.as_slice());
            proof {
                assert(t@ =~= key_token(Key::F11));
            }
        },
        Key::F12 => {
            let t: [u8; 3] = [70, 49, 50];
            push_bytes(out, t.as_slice());
            proof {
                assert(t@ =~= key_token(Key::F12));
            }
        },
        Key::Space => {
            let t: [u8; 5] = [83, 112, 97, 99, 101];
            push_bytes(out, t.as_slice());
            proof {
                assert(t@ =~= key_token(Key::Space));
            }
        },
        Key::Enter => {
            let t: [u8; 5] = [69, 110, 116, 101, 114];
            push_bytes(out, t.as_slice());
            proof {
                assert(t@ =~= key_token(Key::Enter));
            }
        },
        Key::Escape => {
            let t: [u8; 6] = [69, 115, 99, 97, 112, 101];
            push_bytes(out, t.as_slice());
            proof {
                assert(t@ =~= key_token(Key::Escape));
            }
        },
        Key::Char(c) => {
            let t: [u8; 5] = [67, 104, 97, 114, 45];
            push_bytes(out, t.as_slice());
            proof {
                assert(t@ =~= char_prefix());
            }
            push_dec(out, *c as u64);
            proof {
                assert(out@ =~= old(out)@ + key_token(*k));
            }
        },
    }
}

/// Append the file token of an action.
fn push_action(out: &mut Vec<u8>, a: &Action)
    ensures
        final(out)@ == old(out)@ + action_token(*a),
{
    match a {
        Action::Mouse(MouseButton::Left) => {
            let t: [u8; 10] = [77, 111, 117, 115, 101, 45, 76, 101, 102, 116];
            push_bytes(out, t.as_slice());
            proof {
                assert(t@ =~= action_token(Action::Mouse(MouseButton::Left)));
            }
        },
        Action::Mouse(MouseButton::Right) => {
            let t: [u8; 11] = [77, 111, 117, 115, 101, 45, 82, 105, 103, 104, 116];
            push_bytes(out, t.as_slice());
            proof {
                assert(t@ =~= action_token(Action::Mouse(MouseButton::Right)));
            }
        },
        Action::Mouse(MouseButton::Middle) => {
            let t: [u8; 12] = [77, 111, 117, 115, 101, 45, 77, 105, 100, 100, 108, 101];
            push_bytes(out, t.as_slice());
            proof {
                assert(t@ =~= action_token(Action::Mouse(MouseButton::Middle)));
            }
        },
        Action::Keyboard(k) => {
            let t: [u8; 4] = [75, 101, 121, 45];
            push_bytes(out, t.as_slice());
            proof {
                assert(t@ =~= keyboard_prefix());
            }
            push_key(out, k);
            proof {
                assert(out@ =~= old(out)@ + action_token(*a));
            }
        },
    }
}

/// Serialize a settings record into its canonical byte encoding.
#[verifier::rlimit(50)]
pub fn settings_to_bytes(s: &Settings) -> (out: Vec<u8>)
    ensures
        out@ == encoded(*s),
{
    let mut out: Vec<u8> = Vec::new();
    let ctrl_lab: [u8; 7] = [99, 116, 114, 108, 32, 61, 32];
    proof {
        assert(ctrl_lab@ =~= ctrl_label());
    }
    push_bytes(&mut out, ctrl_lab.as_slice());
    push_bool(&mut out, s.hotkey.ctrl);
    out.push(10);
    proof {
        assert(out@ =~= ctrl_line(s.hotkey.ctrl));
    }

    let alt_lab: [u8; 6] = [97, 108, 116, 32, 61, 32];
    proof {
        assert(alt_lab@ =~= alt_label());
    }
    push_bytes(&mut out, alt_lab.as_slice());
    push_bool(&mut out, s.hotkey.alt);
    out.push(10);
    proof {
        assert(out@ =~= ctrl_line(s.hotkey.ctrl) + alt_line(s.hotkey.alt));
    }

    let shift_lab: [u8; 8] = [115, 104, 105, 102, 116, 32, 61, 32];
    proof {
        assert(shift_lab@ =~= shift_label());
    }
    push_bytes(&mut out, shift_lab.as_slice());
    push_bool(&mut out, s.hotkey.shift);
    out.push(10);
    proof {
        assert(out@ =~= ctrl_line(s.hotkey.ctrl) + alt_line(s.hotkey.alt) + shift_line(
            s.hotkey.shift,
        ));
    }

    let meta_lab: [u8; 7] = [109, 101, 116, 97, 32, 61, 32];
    proof {
        assert(meta_lab@ =~= meta_label());
    }
    push_bytes(&mut out, meta_lab.as_slice());
    push_bool(&mut out, s.hotkey.meta);
    out.push(10);
    proof {
        assert(out@ =~= ctrl_line(s.hotkey.ctrl) + alt_line(s.hotkey.alt) + shift_line(
            s.hotkey.shift,
        ) + meta_line(s.hotkey.meta));
    }

    let key_lab: [u8; 6] = [107, 101, 121, 32, 61, 32];
    proof {
        assert(key_lab@ =~= key_label());
    }
    push_bytes(&mut out, key_lab.as_slice());
    push_key(&mut out, &s.hotkey.key);
    out.push(10);
    proof {
        assert(out@ =~= hotkey_bytes(s.hotkey));
    }

    let action_lab: [u8; 9] = [97, 99, 116, 105, 111, 110, 32, 61, 32];
    proof {
        assert(action_lab@ =~= action_label());
    }
    push_bytes(&mut out, action_lab.as_slice());
    push_action(&mut out, &s.action);
    out.push(10);
    proof {
        assert(out@ =~= hotkey_bytes(s.hotkey) + action_line(s.action));
    }

    let interval_lab: [u8; 14] = [105, 110, 116, 101, 114, 118, 97, 108, 95, 109, 115, 32, 61, 32];
    proof {
        assert(interval_lab@ =~= interval_label());
    }
    push_bytes(&mut out, interval_lab.as_slice());
    push_dec(&mut out, s.interval_ms);
    out.push(10);

    proof {
        assert(out@ =~= encoded(*s));
    }
    out
}


// ---------------------------------------------------------------------------
// Parsing helpers.
// ---------------------------------------------------------------------------

/// Whether `lit` occurs in `input` exactly at position `pos`.
fn bytes_at(input: &[u8], pos: usize, lit: &[u8]) -> (r: bool)
    ensures
        r <==> (pos + lit@.len() <= input@.len() && input@.subrange(
            pos as int,
            pos + lit@.len(),
        ) == lit@),
{
    if pos > input.len() || input.len() - pos < lit.len() {
        return false;
    }
    let ilen = input.len();
    let n = lit.len();
    let mut i: usize = 0;
    while i < n
        invariant
            i <= n,
            n == lit@.len(),
            ilen == input@.len(),
            pos + n <= ilen,
            forall|j: int| 0 <= j < i ==> input@[pos + j] == lit@[j],
        decreases n - i,
    {
        if input[pos + i] != lit[i] {
            proof {
                assert(input@.subrange(pos as int, pos + lit@.len())[i as int] == input@[pos + i]);
            }
            return false;
        }
        i += 1;
    }
    proof {
        assert(input@.subrange(pos as int, pos + lit@.len()) =~= lit@);
    }
    true
}

/// Whether the token `input[ts..te]` is exactly `lit`.
fn token_is(input: &[u8], ts: usize, te: usize, lit: &[u8]) -> (r: bool)
    requires
        ts <= te <= input@.len(),
    ensures
        r <==> input@.subrange(ts as int, te as int) == lit@,
{
    if te - ts != lit.len() {
        return false;
    }
    let r = bytes_at(input, ts, lit);
    proof {
        assert(ts + lit@.len() == te as int);
    }
    r
}

/// Position of the first line feed at or after `pos`.
fn find_lf(input: &[u8], pos: usize) -> (r: Option<usize>)
    requires
        pos <= input@.len(),
    ensures
        r matches Some(j) ==> pos <= j < input@.len() && input@[j as int] == 10 && (forall|t: int|
            pos <= t < j ==> input@[t] != 10),
        r is None ==> forall|t: int| pos <= t < input@.len() ==> input@[t] != 10,
{
    let mut i: usize = pos;
    while i < input.len()
        invariant
            pos <= i <= input@.len(),
            forall|t: int| pos <= t < i ==> input@[t] != 10,
        decreases input@.len() - i,
    {
        if input[i] == 10 {
            return Some(i);
        }
        i += 1;
    }
    None
}

/// A line `label  token  LF` stands in `inp` at position `pos`.
pub open spec fn line_at(inp: Seq<u8>, pos: int, label: Seq<u8>, token: Seq<u8>) -> bool {
    &&& 0 <= pos
    &&& pos + label.len() + token.len() + 1 <= inp.len()
    &&& inp.subrange(pos, pos + label.len() + token.len() + 1) == line_of(label, token)
}

/// Read one line frame at `pos`: match the label, then scan to the line
/// feed. Returns the token range's start and the position past the line.
/// Succeeds on — and pins down — every line whose token is free of line
/// feeds, whatever the token's value.
fn read_line_frame(input: &[u8], pos: usize, label: &[u8]) -> (r: Option<(usize, usize)>)
    requires
        pos <= input@.len(),
    ensures
        r matches Some((ts, np)) ==> {
            &&& ts == pos + label@.len()
            &&& ts < np <= input@.len()
            &&& input@.subrange(pos as int, ts as int) == label@
            &&& input@[np - 1] == 10
            &&& (forall|t: int| ts <= t < np - 1 ==> input@[t] != 10)
            &&& input@.subrange(pos as int, np as int) == line_of(
                label@,
                input@.subrange(ts as int, np - 1),
            )
        },
        forall|token: Seq<u8>|
            (line_at(input@, pos as int, label@, token) && (forall|u: int|
                0 <= u < token.len() ==> token[u] != 10)) ==> (r matches Some((ts, np))
                && np == pos + label@.len() + token.len() + 1 && input@.subrange(
                ts as int,
                np - 1,
            ) == token),
{
    if !bytes_at(input, pos, label) {
        proof {
            assert forall|token: Seq<u8>| !line_at(input@, pos as int, label@, token) by {
                if line_at(input@, pos as int, label@, token) {
                    let ll = label@.len() as int;
                    let tl = token.len() as int;
                    assert(input@.subrange(pos as int, pos + ll) =~= input@.subrange(
                        pos as int,
                        pos + ll + tl + 1,
                    ).subrange(0, ll));
                    assert(line_of(label@, token).subrange(0, ll) =~= label@);
                }
            }
        }
        return None;
    }
    let ilen = input.len();
    let ts = pos + label.len();
    let found = find_lf(input, ts);
    match found {
        None => {
            proof {
                assert forall|token: Seq<u8>|
                    !(line_at(input@, pos as int, label@, token) && (forall|u: int|
                        0 <= u < token.len() ==> token[u] != 10)) by {
                    if line_at(input@, pos as int, label@, token) {
                        let ll = label@.len() as int;
                        let tl = token.len() as int;
                        assert(input@.subrange(pos as int, pos + ll + tl + 1)[ll + tl]
                            == input@[pos + ll + tl]);
                        assert(line_of(label@, token)[ll + tl] == 10);
                        assert(input@[ts + tl] == 10);
                    }
                }
            }
            None
        },
        Some(j) => {
            proof {
                assert(input@.subrange(pos as int, j + 1) =~= line_of(
                    label@,
                    input@.subrange(ts as int, j as int),
                ));
                assert forall|token: Seq<u8>|
                    (line_at(input@, pos as int, label@, token) && (forall|u: int|
                        0 <= u < token.len() ==> token[u] != 10)) implies (j + 1 == pos
                    + label@.len() + token.len() + 1 && input@.subrange(ts as int, j as int)
                    == token) by {
                    let ll = label@.len() as int;
                    let tl = token.len() as int;
                    let lineseq = input@.subrange(pos as int, pos + ll + tl + 1);
                    // every token byte sits at ts + u and is not a line feed
                    assert forall|t: int| ts <= t < ts + tl implies input@[t] != 10 by {
                        let u = t - ts;
                        assert(lineseq[ll + u] == input@[pos + ll + u]);
                        assert(line_of(label@, token)[ll + u] == token[u]);
                    }
                    assert(lineseq[ll + tl] == input@[pos + ll + tl]);
                    assert(line_of(label@, token)[ll + tl] == 10);
                    assert(input@[ts + tl] == 10);
                    // j is the first line feed, so it is exactly ts + tl
                    if j < ts + tl {
                        assert(input@[ts + (j - ts)] != 10);
                    }
                    assert(j == ts + tl);
                    assert forall|u: int| 0 <= u < tl implies input@.subrange(
                        ts as int,
                        j as int,
                    )[u] == token[u] by {
                        assert(lineseq[ll + u] == input@[pos + ll + u]);
                        assert(line_of(label@, token)[ll + u] == token[u]);
                    }
                    assert(input@.subrange(ts as int, j as int) =~= token);
                }
            }
            Some((ts, j + 1))
        },
    }
}

/// Parse a decimal token: accepts exactly the canonical decimal digits of a
/// `u64` value, and returns that value.
fn parse_dec_token(input: &[u8], ts: usize, te: usize) -> (r: Option<u64>)
    requires
        ts <= te <= input@.len(),
    ensures
        r matches Some(n) ==> input@.subrange(ts as int, te as int) == dec_token(n),
        forall|n: u64| input@.subrange(ts as int, te as int) == dec_token(n) ==> r == Some(n),
{
    let ghost tok = input@.subrange(ts as int, te as int);
    if ts == te {
        proof {
            assert forall|n: u64| tok != dec_token(n) by {
                lemma_dec_token_digits(n);
            }
        }
        return None;
    }
    let mut acc: u64 = 0;
    let mut i: usize = ts;
    while i < te
        invariant
            ts <= i <= te <= input@.len(),
            tok == input@.subrange(ts as int, te as int),
            acc == dec_value(input@.subrange(ts as int, i as int)),
        decreases te - i,
    {
        let d = input[i];
        if d < 48 || d > 57 {
            proof {
                assert forall|n: u64| tok != dec_token(n) by {
                    lemma_dec_token_digits(n);
                    if tok == dec_token(n) {
                        assert(tok[i - ts] == input@[i as int]);
                    }
                }
            }
            return None;
        }
        let dv = (d - 48) as u64;
        if acc > (u64::MAX - dv) / 10 {
            proof {
                assert forall|n: u64| tok != dec_token(n) by {
                    if tok == dec_token(n) {
                        let j = i - ts;
                        lemma_dec_token_prefix(n, j + 1);
                        assert(tok.take(j) =~= input@.subrange(ts as int, i as int));
                        assert(tok.take(j + 1).drop_last() =~= tok.take(j));
                        assert(tok.take(j + 1).last() == tok[j]);
                        assert(tok[j] == input@[i as int]);
                        assert(dec_value(tok.take(j + 1)) == acc * 10 + dv);
                        assert(acc * 10 + dv <= u64::MAX);
                        assert(acc <= (u64::MAX - dv) / 10) by (nonlinear_arith)
                            requires
                                acc * 10 + dv <= u64::MAX,
                                0 <= dv <= 9,
                        ;
                    }
                }
            }
            return None;
        }
        proof {
            assert(acc * 10 + dv <= u64::MAX) by (nonlinear_arith)
                requires
                    acc <= (u64::MAX - dv) / 10,
                    0 <= dv <= 9,
            ;
        }
        acc = acc * 10 + dv;
        proof {
            assert(input@.subrange(ts as int, i + 1).drop_last() =~= input@.subrange(
                ts as int,
                i as int,
            ));
            assert(input@.subrange(ts as int, i + 1).last() == input@[i as int]);
        }
        i += 1;
    }
    let mut canon: Vec<u8> = Vec::new();
    push_dec(&mut canon, acc);
    let ok = token_is(input, ts, te, canon.as_slice());
    if ok {
        proof {
            assert forall|n: u64| tok == dec_token(n) implies Some(acc) == Some::<u64>(n) by {
                lemma_dec_token_value(n);
            }
        }
        Some(acc)
    } else {
        proof {
            assert forall|n: u64| tok != dec_token(n) by {
                if tok == dec_token(n) {
                    lemma_dec_token_value(n);
                    assert(acc == n);
                }
            }
        }
        None
    }
}


/// Length and leading bytes of each key token: enough to tell any two
/// well-formed key tokens apart.
proof fn lemma_key_token_facts(k: Key)
    ensures
        key_token(k).len() >= 2,
        k matches Key::F6 ==> key_token(k).len() == 2 && key_token(k)[0] == 70 && key_token(k)[1]
            == 54,
        k matches Key::F7 ==> key_token(k).len() == 2 && key_token(k)[0] == 70 && key_token(k)[1]
            == 55,
        k matches Key::F8 ==> key_token(k).len() == 2 && key_token(k)[0] == 70 && key_token(k)[1]
            == 56,
        k matches Key::F9 ==> key_token(k).len() == 2 && key_token(k)[0] == 70 && key_token(k)[1]
            == 57,
        k matches Key::F10 ==> key_token(k).len() == 3 && key_token(k)[0] == 70 && key_token(k)[2]
            == 48,
        k matches Key::F11 ==> key_token(k).len() == 3 && key_token(k)[0] == 70 && key_token(k)[2]
            == 49,
        k matches Key::F12 ==> key_token(k).len() == 3 && key_token(k)[0] == 70 && key_token(k)[2]
            == 50,
        k matches Key::Space ==> key_token(k).len() == 5 && key_token(k)[0] == 83,
        k matches Key::Enter ==> key_token(k).len() == 5 && key_token(k)[0] == 69,
        k matches Key::Escape ==> key_token(k).len() == 6 && key_token(k)[0] == 69 && key_token(
            k,
        )[1] == 115,
        k matches Key::Char(c) ==> key_token(k)[0] == 67 && key_token(k).len() >= 6 && key_token(
            k,
        ).subrange(0, 5) == char_prefix() && key_token(k).subrange(5, key_token(k).len() as int)
            == dec_token(c as u64),
{
    match k {
        Key::Char(c) => {
            lemma_dec_token_digits(c as u64);
            assert(key_token(k).subrange(0, 5) =~= char_prefix());
            assert(key_token(k).subrange(5, key_token(k).len() as int) =~= dec_token(c as u64));
        },
        _ => {},
    }
}

/// Length and leading byte of each action token: enough to tell any two
/// well-formed action tokens apart.
proof fn lemma_action_token_facts(a: Action)
    ensures
        action_token(a).len() >= 6,
        a matches Action::Mouse(MouseButton::Left) ==> action_token(a).len() == 10 && action_token(
            a,
        )[0] == 77,
        a matches Action::Mouse(MouseButton::Right) ==> action_token(a).len() == 11
            && action_token(a)[0] == 77,
        a matches Action::Mouse(MouseButton::Middle) ==> action_token(a).len() == 12
            && action_token(a)[0] == 77,
        a matches Action::Keyboard(k) ==> action_token(a)[0] == 75 && action_token(a).len() >= 6
            && action_token(a).subrange(0, 4) == keyboard_prefix() && action_token(a).subrange(
            4,
            action_token(a).len() as int,
        ) == key_token(k),
{
    match a {
        Action::Keyboard(k) => {
            lemma_key_token_facts(k);
            assert(action_token(a).subrange(0, 4) =~= keyboard_prefix());
            assert(action_token(a).subrange(4, action_token(a).len() as int) =~= key_token(k));
        },
        _ => {},
    }
}

/// Parse a key token: accepts exactly the well-formed key tokens.
fn parse_key_token(input: &[u8], ts: usize, te: usize) -> (r: Option<Key>)
    requires
        ts <= te <= input@.len(),
    ensures
        r matches Some(k) ==> input@.subrange(ts as int, te as int) == key_token(k) && key_wf(k),
        forall|k: Key| key_wf(k) && input@.subrange(ts as int, te as int) == key_token(k) ==> r
            == Some(k),
{
    let ghost tok = input@.subrange(ts as int, te as int);
    let t_f6: [u8; 2] = [70, 54];
    let t_f7: [u8; 2] = [70, 55];
    let t_f8: [u8; 2] = [70, 56];
    let t_f9: [u8; 2] = [70, 57];
    let t_f10: [u8; 3] = [70, 49, 48];
    let t_f11: [u8; 3] = [70, 49, 49];
    let t_f12: [u8; 3] = [70, 49, 50];
    let t_space: [u8; 5] = [83, 112, 97, 99, 101];
    let t_enter: [u8; 5] = [69, 110, 116, 101, 114];
    let t_escape: [u8; 6] = [69, 115, 99, 97, 112, 101];
    proof {
        assert(t_f6@ =~= key_token(Key::F6));
        assert(t_f7@ =~= key_token(Key::F7));
        assert(t_f8@ =~= key_token(Key::F8));
        assert(t_f9@ =~= key_token(Key::F9));
        assert(t_f10@ =~= key_token(Key::F10));
        assert(t_f11@ =~= key_token(Key::F11));
        assert(t_f12@ =~= key_token(Key::F12));
        assert(t_space@ =~= key_token(Key::Space));
        assert(t_enter@ =~= key_token(Key::Enter));
        assert(t_escape@ =~= key_token(Key::Escape));
    }
    if token_is(input, ts, te, t_f6.as_slice()) {
        proof {
            assert forall|k: Key| key_wf(k) && tok == key_token(k) implies k == Key::F6 by {
                lemma_key_token_facts(k);
            }
        }
        return Some(Key::F6);
    }
    if token_is(input, ts, te, t_f7.as_slice()) {
        proof {
            assert forall|k: Key| key_wf(k) && tok == key_token(k) implies k == Key::F7 by {
                lemma_key_token_facts(k);
            }
        }
        return Some(Key::F7);
    }
    if token_is(input, ts, te, t_f8.as_slice()) {
        proof {
            assert forall|k: Key| key_wf(k) && tok == key_token(k) implies k == Key::F8 by {
                lemma_key_token_facts(k);
            }
        }
        return Some(Key::F8);
    }
    if token_is(input, ts, te, t_f9.as_slice()) {
        proof {
            assert forall|k: Key| key_wf(k) && tok == key_token(k) implies k == Key::F9 by {
                lemma_key_token_facts(k);
            }
        }
        return Some(Key::F9);
    }
    if token_is(input, ts, te, t_f10.as_slice()) {
        proof {
            assert forall|k: Key| key_wf(k) && tok == key_token(k) implies k == Key::F10 by {
                lemma_key_token_facts(k);
            }
        }
        return Some(Key::F10);
    }
    if token_is(input, ts, te, t_f11.as_slice()) {
        proof {
            assert forall|k: Key| key_wf(k) && tok == key_token(k) implies k == Key::F11 by {
                lemma_key_token_facts(k);
            }
        }
        return Some(Key::F11);
    }
    if token_is(input, ts, te, t_f12.as_slice()) {
        proof {
            assert forall|k: Key| key_wf(k) && tok == key_token(k) implies k == Key::F12 by {
                lemma_key_token_facts(k);
            }
        }
        return Some(Key::F12);
    }
    if token_is(input, ts, te, t_space.as_slice()) {
        proof {
            assert forall|k: Key| key_wf(k) && tok == key_token(k) implies k == Key::Space by {
                lemma_key_token_facts(k);
            }
        }
        return Some(Key::Space);
    }
    if token_is(input, ts, te, t_enter.as_slice()) {
        proof {
            assert forall|k: Key| key_wf(k) && tok == key_token(k) implies k == Key::Enter by {
                lemma_key_token_facts(k);
            }
        }
        return Some(Key::Enter);
    }
    if token_is(input, ts, te, t_escape.as_slice()) {
        proof {
            assert forall|k: Key| key_wf(k) && tok == key_token(k) implies k == Key::Escape by {
                lemma_key_token_facts(k);
            }
        }
        return Some(Key::Escape);
    }
    let pre: [u8; 5] = [67, 104, 97, 114, 45];
    proof {
        assert(pre@ =~= char_prefix());
    }
    if te - ts > 5 && bytes_at(input, ts, pre.as_slice()) {
        let code_opt = parse_dec_token(input, ts + 5, te);
        match code_opt {
            Some(code) => {
                if (48 <= code && code <= 57) || (65 <= code && code <= 90) || (97 <= code && code
                    <= 122) {
                    let c = (code as u8) as char;
                    proof {
                        assert(c as u64 == code);
                        assert(tok.subrange(0, 5) =~= input@.subrange(ts as int, ts + 5));
                        assert(tok.subrange(5, tok.len() as int) =~= input@.subrange(
                            ts + 5,
                            te as int,
                        ));
                        assert(tok =~= char_prefix() + dec_token(code));
                        assert(tok == key_token(Key::Char(c)));
                        assert forall|k: Key| key_wf(k) && tok == key_token(k) implies k
                            == Key::Char(c) by {
                            lemma_key_token_facts(k);
                            if let Key::Char(c2) = k {
                                assert(key_token(k).subrange(5, key_token(k).len() as int)
                                    == dec_token(c2 as u64));
                                assert(dec_token(c2 as u64) == dec_token(code));
                                lemma_dec_token_value(c2 as u64);
                                lemma_dec_token_value(code);
                                assert(c2 as u64 == code);
                            }
                        }
                    }
                    return Some(Key::Char(c));
                }
                proof {
                    assert(input@.subrange(ts + 5, te as int) == dec_token(code));
                    assert forall|k: Key| !(key_wf(k) && tok == key_token(k)) by {
                        lemma_key_token_facts(k);
                        if key_wf(k) && tok == key_token(k) {
                            if let Key::Char(c2) = k {
                                assert(tok.subrange(5, tok.len() as int) =~= input@.subrange(
                                    ts + 5,
                                    te as int,
                                ));
                                lemma_dec_token_value(c2 as u64);
                                lemma_dec_token_value(code);
                                assert(c2 as u64 == code);
                            }
                        }
                    }
                }
                return None;
            },
            None => {
                proof {
                    assert forall|k: Key| !(key_wf(k) && tok == key_token(k)) by {
                        lemma_key_token_facts(k);
                        if key_wf(k) && tok == key_token(k) {
                            if let Key::Char(c2) = k {
                                assert(tok.subrange(5, tok.len() as int) =~= input@.subrange(
                                    ts + 5,
                                    te as int,
                                ));
                                assert(input@.subrange(ts + 5, te as int) == dec_token(c2 as u64));
                            }
                        }
                    }
                }
                return None;
            },
        }
    }
    proof {
        assert forall|k: Key| !(key_wf(k) && tok == key_token(k)) by {
            lemma_key_token_facts(k);
            if key_wf(k) && tok == key_token(k) {
                if let Key::Char(c2) = k {
                    assert(tok.subrange(0, 5) =~= input@.subrange(ts as int, ts + 5));
                    assert(tok.subrange(0, 5) == char_prefix());
                    assert(te - ts >= 6);
                }
            }
        }
    }
    None
}

/// Parse an action token: accepts exactly the well-formed action tokens.
fn parse_action_token(input: &[u8], ts: usize, te: usize) -> (r: Option<Action>)
    requires
        ts <= te <= input@.len(),
    ensures
        r matches Some(a) ==> input@.subrange(ts as int, te as int) == action_token(a)
            && action_wf(a),
        forall|a: Action| action_wf(a) && input@.subrange(ts as int, te as int) == action_token(a)
            ==> r == Some(a),
{
    let ghost tok = input@.subrange(ts as int, te as int);
    let t_left: [u8; 10] = [77, 111, 117, 115, 101, 45, 76, 101, 102, 116];
    let t_right: [u8; 11] = [77, 111, 117, 115, 101, 45, 82, 105, 103, 104, 116];
    let t_middle: [u8; 12] = [77, 111, 117, 115, 101, 45, 77, 105, 100, 100, 108, 101];
    proof {
        assert(t_left@ =~= action_token(Action::Mouse(MouseButton::Left)));
        assert(t_right@ =~= action_token(Action::Mouse(MouseButton::Right)));
        assert(t_middle@ =~= action_token(Action::Mouse(MouseButton::Middle)));
    }
    if token_is(input, ts, te, t_left.as_slice()) {
        proof {
            assert forall|a: Action| action_wf(a) && tok == action_token(a) implies a
                == Action::Mouse(MouseButton::Left) by {
                lemma_action_token_facts(a);
            }
        }
        return Some(Action::Mouse(MouseButton::Left));
    }
    if token_is(input, ts, te, t_right.as_slice()) {
        proof {
            assert forall|a: Action| action_wf(a) && tok == action_token(a) implies a
                == Action::Mouse(MouseButton::Right) by {
                lemma_action_token_facts(a);
            }
        }
        return Some(Action::Mouse(MouseButton::Right));
    }
    if token_is(input, ts, te, t_middle.as_slice()) {
        proof {
            assert forall|a: Action| action_wf(a) && tok == action_token(a) implies a
                == Action::Mouse(MouseButton::Middle) by {
                lemma_action_token_facts(a);
            }
        }
        return Some(Action::Mouse(MouseButton::Middle));
    }
    let pre: [u8; 4] = [75, 101, 121, 45];
    proof {
        assert(pre@ =~= keyboard_prefix());
    }
    if te - ts > 4 && bytes_at(input, ts, pre.as_slice()) {
        let key_opt = parse_key_token(input, ts + 4, te);
        match key_opt {
            Some(k) => {
                proof {
                    assert(tok.subrange(0, 4) =~= input@.subrange(ts as int, ts + 4));
                    assert(tok.subrange(4, tok.len() as int) =~= input@.subrange(ts + 4, te as int));
                    assert(tok =~= keyboard_prefix() + key_token(k));
                    assert forall|a: Action| action_wf(a) && tok == action_token(a) implies a
                        == Action::Keyboard(k) by {
                        lemma_action_token_facts(a);
                        if let Action::Keyboard(k2) = a {
                            assert(tok.subrange(4, tok.len() as int) == key_token(k2));
                            assert(input@.subrange(ts + 4, te as int) == key_token(k2));
                        }
                    }
                }
                return Some(Action::Keyboard(k));
            },
            None => {
                proof {
                    assert forall|a: Action| !(action_wf(a) && tok == action_token(a)) by {
                        lemma_action_token_facts(a);
                        if action_wf(a) && tok == action_token(a) {
                            if let Action::Keyboard(k2) = a {
                                assert(tok.subrange(4, tok.len() as int) =~= input@.subrange(
                                    ts + 4,
                                    te as int,
                                ));
                                assert(input@.subrange(ts + 4, te as int) == key_token(k2));
                            }
                        }
                    }
                }
                return None;
            },
        }
    }
    proof {
        assert forall|a: Action| !(action_wf(a) && tok == action_token(a)) by {
            lemma_action_token_facts(a);
            if action_wf(a) && tok == action_token(a) {
                if let Action::Keyboard(k2) = a {
                    assert(tok.subrange(0, 4) =~= input@.subrange(ts as int, ts + 4));
                    assert(tok.subrange(0, 4) == keyboard_prefix());
                    assert(te - ts >= 6);
                }
            }
        }
    }
    None
}


/// Parse one `label  true|false  LF` line.
fn parse_bool_line(input: &[u8], pos: usize, label: &[u8]) -> (r: Option<(bool, usize)>)
    requires
        pos <= input@.len(),
    ensures
        r matches Some((b, np)) ==> pos < np <= input@.len() && input@.subrange(
            pos as int,
            np as int,
        ) == line_of(label@, bool_token(b)),
        forall|b: bool| line_at(input@, pos as int, label@, bool_token(b)) ==> (r matches Some(
            (b2, np),
        ) && b2 == b && np == pos + label@.len() + bool_token(b).len() + 1),
{
    proof {
        lemma_token_no_lf(Key::F6, Action::Mouse(MouseButton::Left), 0);
    }
    let frame = read_line_frame(input, pos, label);
    match frame {
        None => None,
        Some((ts, np)) => {
            let t_true: [u8; 4] = [116, 114, 117, 101];
            let t_false: [u8; 5] = [102, 97, 108, 115, 101];
            proof {
                assert(t_true@ =~= bool_token(true));
                assert(t_false@ =~= bool_token(false));
            }
            if token_is(input, ts, np - 1, t_true.as_slice()) {
                Some((true, np))
            } else if token_is(input, ts, np - 1, t_false.as_slice()) {
                Some((false, np))
            } else {
                None
            }
        },
    }
}

/// Parse one `label  key-token  LF` line.
fn parse_key_line(input: &[u8], pos: usize, label: &[u8]) -> (r: Option<(Key, usize)>)
    requires
        pos <= input@.len(),
    ensures
        r matches Some((k, np)) ==> pos < np <= input@.len() && input@.subrange(
            pos as int,
            np as int,
        ) == line_of(label@, key_token(k)) && key_wf(k),
        forall|k: Key| key_wf(k) && line_at(input@, pos as int, label@, key_token(k)) ==> (
        r matches Some((k2, np)) && k2 == k && np == pos + label@.len() + key_token(k).len() + 1),
{
    let frame = read_line_frame(input, pos, label);
    match frame {
        None => {
            proof {
                assert forall|k: Key| !(key_wf(k) && line_at(
                    input@,
                    pos as int,
                    label@,
                    key_token(k),
                )) by {
                    lemma_token_no_lf(k, Action::Mouse(MouseButton::Left), 0);
                }
            }
            None
        },
        Some((ts, np)) => {
            let parsed = parse_key_token(input, ts, np - 1);
            match parsed {
                Some(k) => {
                    proof {
                        assert forall|k2: Key| key_wf(k2) && line_at(
                            input@,
                            pos as int,
                            label@,
                            key_token(k2),
                        ) implies k2 == k && np == pos + label@.len() + key_token(k2).len() + 1 by {
                            lemma_token_no_lf(k2, Action::Mouse(MouseButton::Left), 0);
                        }
                    }
                    Some((k, np))
                },
                None => {
                    proof {
                        assert forall|k2: Key| !(key_wf(k2) && line_at(
                            input@,
                            pos as int,
                            label@,
                            key_token(k2),
                        )) by {
                            lemma_token_no_lf(k2, Action::Mouse(MouseButton::Left), 0);
                        }
                    }
                    None
                },
            }
        },
    }
}

/// Parse one `label  action-token  LF` line.
fn parse_action_line(input: &[u8], pos: usize, label: &[u8]) -> (r: Option<(Action, usize)>)
    requires
        pos <= input@.len(),
    ensures
        r matches Some((a, np)) ==> pos < np <= input@.len() && input@.subrange(
            pos as int,
            np as int,
        ) == line_of(label@, action_token(a)) && action_wf(a),
        forall|a: Action| action_wf(a) && line_at(input@, pos as int, label@, action_token(a))
            ==> (r matches Some((a2, np)) && a2 == a && np == pos + label@.len() + action_token(
            a,
        ).len() + 1),
{
    let frame = read_line_frame(input, pos, label);
    match frame {
        None => {
            proof {
                assert forall|a: Action| !(action_wf(a) && line_at(
                    input@,
                    pos as int,
                    label@,
                    action_token(a),
                )) by {
                    lemma_token_no_lf(Key::F6, a, 0);
                }
            }
            None
        },
        Some((ts, np)) => {
            let parsed = parse_action_token(input, ts, np - 1);
            match parsed {
                Some(a) => {
                    proof {
                        assert forall|a2: Action| action_wf(a2) && line_at(
                            input@,
                            pos as int,
                            label@,
                            action_token(a2),
                        ) implies a2 == a && np == pos + label@.len() + action_token(a2).len()
                            + 1 by {
                            lemma_token_no_lf(Key::F6, a2, 0);
                        }
                    }
                    Some((a, np))
                },
                None => {
                    proof {
                        assert forall|a2: Action| !(action_wf(a2) && line_at(
                            input@,
                            pos as int,
                            label@,
                            action_token(a2),
                        )) by {
                            lemma_token_no_lf(Key::F6, a2, 0);
                        }
                    }
                    None
                },
            }
        },
    }
}

/// Parse one `label  decimal  LF` line.
fn parse_dec_line(input: &[u8], pos: usize, label: &[u8]) -> (r: Option<(u64, usize)>)
    requires
        pos <= input@.len(),
    ensures
        r matches Some((n, np)) ==> pos < np <= input@.len() && input@.subrange(
            pos as int,
            np as int,
        ) == line_of(label@, dec_token(n)),
        forall|n: u64| line_at(input@, pos as int, label@, dec_token(n)) ==> (r matches Some(
            (n2, np),
        ) && n2 == n && np == pos + label@.len() + dec_token(n).len() + 1),
{
    let frame = read_line_frame(input, pos, label);
    match frame {
        None => {
            proof {
                assert forall|n: u64| !line_at(input@, pos as int, label@, dec_token(n)) by {
                    lemma_token_no_lf(Key::F6, Action::Mouse(MouseButton::Left), n);
                }
            }
            None
        },
        Some((ts, np)) => {
            let parsed = parse_dec_token(input, ts, np - 1);
            match parsed {
                Some(n) => {
                    proof {
                        assert forall|n2: u64| line_at(
                            input@,
                            pos as int,
                            label@,
                            dec_token(n2),
                        ) implies n2 == n && np == pos + label@.len() + dec_token(n2).len() + 1 by {
                            lemma_token_no_lf(Key::F6, Action::Mouse(MouseButton::Left), n2);
                        }
                    }
                    Some((n, np))
                },
                None => {
                    proof {
                        assert forall|n2: u64| !line_at(input@, pos as int, label@, dec_token(n2)) by {
                            lemma_token_no_lf(Key::F6, Action::Mouse(MouseButton::Left), n2);
                        }
                    }
                    None
                },
            }
        },
    }
}

/// The five hotkey lines stand at the start of `inp`.
pub open spec fn hotkey_at(inp: Seq<u8>, h: Hotkey) -> bool {
    &&& hotkey_bytes(h).len() <= inp.len()
    &&& inp.subrange(0, hotkey_bytes(h).len() as int) == hotkey_bytes(h)
}

/// The four modifier-flag lines.
pub open spec fn flags_bytes(c: bool, a: bool, sh: bool, m: bool) -> Seq<u8> {
    ctrl_line(c) + alt_line(a) + shift_line(sh) + meta_line(m)
}

/// The four modifier-flag lines stand at the start of `inp`.
pub open spec fn flags_at(inp: Seq<u8>, c: bool, a: bool, sh: bool, m: bool) -> bool {
    &&& flags_bytes(c, a, sh, m).len() <= inp.len()
    &&& inp.subrange(0, flags_bytes(c, a, sh, m).len() as int) == flags_bytes(c, a, sh, m)
}

/// Where each modifier-flag line stands within the flag block.
#[verifier::rlimit(100)]
proof fn lemma_flags_lines(inp: Seq<u8>, c: bool, a: bool, sh: bool, m: bool)
    requires
        flags_at(inp, c, a, sh, m),
    ensures
        line_at(inp, 0, ctrl_label(), bool_token(c)),
        line_at(inp, ctrl_line(c).len() as int, alt_label(), bool_token(a)),
        line_at(inp, ctrl_line(c).len() + alt_line(a).len() as int, shift_label(), bool_token(sh)),
        line_at(
            inp,
            ctrl_line(c).len() + alt_line(a).len() + shift_line(sh).len() as int,
            meta_label(),
            bool_token(m),
        ),
        flags_bytes(c, a, sh, m).len() == ctrl_line(c).len() + alt_line(a).len() + shift_line(
            sh,
        ).len() + meta_line(m).len(),
{
    let e = flags_bytes(c, a, sh, m);
    assert forall|i: int| 0 <= i < e.len() implies inp[i] == e[i] by {
        assert(inp.subrange(0, e.len() as int)[i] == inp[i]);
    }
    let o1 = ctrl_line(c).len() as int;
    let o2 = o1 + alt_line(a).len() as int;
    let o3 = o2 + shift_line(sh).len() as int;
    let o4 = o3 + meta_line(m).len() as int;
    assert(inp.subrange(0, o1) =~= ctrl_line(c));
    assert(inp.subrange(o1, o2) =~= alt_line(a));
    assert(inp.subrange(o2, o3) =~= shift_line(sh));
    assert(inp.subrange(o3, o4) =~= meta_line(m));
}

/// The flag block and the key line of the hotkey part, each in place.
#[verifier::rlimit(100)]
proof fn lemma_hotkey_parts(inp: Seq<u8>, h: Hotkey)
    requires
        hotkey_at(inp, h),
    ensures
        flags_at(inp, h.ctrl, h.alt, h.shift, h.meta),
        line_at(
            inp,
            flags_bytes(h.ctrl, h.alt, h.shift, h.meta).len() as int,
            key_label(),
            key_token(h.key),
        ),
        hotkey_bytes(h).len() == flags_bytes(h.ctrl, h.alt, h.shift, h.meta).len() + key_line(
            h.key,
        ).len(),
{
    let e = hotkey_bytes(h);
    assert forall|i: int| 0 <= i < e.len() implies inp[i] == e[i] by {
        assert(inp.subrange(0, e.len() as int)[i] == inp[i]);
    }
    let fl = flags_bytes(h.ctrl, h.alt, h.shift, h.meta).len() as int;
    assert(inp.subrange(0, fl) =~= flags_bytes(h.ctrl, h.alt, h.shift, h.meta));
    assert(inp.subrange(fl, e.len() as int) =~= key_line(h.key));
}

/// The hotkey part, the action line and the interval line of an encoded
/// settings record, each in place.
#[verifier::rlimit(100)]
proof fn lemma_encoded_parts(s: Settings)
    ensures
        hotkey_at(encoded(s), s.hotkey),
        line_at(encoded(s), hotkey_bytes(s.hotkey).len() as int, action_label(), action_token(
            s.action,
        )),
        line_at(
            encoded(s),
            hotkey_bytes(s.hotkey).len() + action_line(s.action).len() as int,
            interval_label(),
            dec_token(s.interval_ms),
        ),
        encoded(s).len() == hotkey_bytes(s.hotkey).len() + action_line(s.action).len()
            + interval_line(s.interval_ms).len(),
{
    let e = encoded(s);
    let hl = hotkey_bytes(s.hotkey).len() as int;
    let al = action_line(s.action).len() as int;
    assert(e.subrange(0, hl) =~= hotkey_bytes(s.hotkey));
    assert(e.subrange(hl, hl + al) =~= action_line(s.action));
    assert(e.subrange(hl + al, e.len() as int) =~= interval_line(s.interval_ms));
}

/// Parse the four modifier-flag lines at the start of the input.
#[verifier::rlimit(100)]
fn parse_flags_part(input: &[u8]) -> (r: Option<(bool, bool, bool, bool, usize)>)
    ensures
        r matches Some((c, a, sh, m, p)) ==> p <= input@.len() && input@.subrange(0, p as int)
            == flags_bytes(c, a, sh, m) && p == flags_bytes(c, a, sh, m).len(),
        forall|c: bool, a: bool, sh: bool, m: bool|
            flags_at(input@, c, a, sh, m) ==> (r matches Some((c2, a2, sh2, m2, p)) && c2 == c
                && a2 == a && sh2 == sh && m2 == m && p == flags_bytes(c, a, sh, m).len()),
{
    let ctrl_lab: [u8; 7] = [99, 116, 114, 108, 32, 61, 32];
    let alt_lab: [u8; 6] = [97, 108, 116, 32, 61, 32];
    let shift_lab: [u8; 8] = [115, 104, 105, 102, 116, 32, 61, 32];
    let meta_lab: [u8; 7] = [109, 101, 116, 97, 32, 61, 32];
    proof {
        assert(ctrl_lab@ =~= ctrl_label());
        assert(alt_lab@ =~= alt_label());
        assert(shift_lab@ =~= shift_label());
        assert(meta_lab@ =~= meta_label());
    }
    let r1 = parse_bool_line(input, 0, ctrl_lab.as_slice());
    let (ctrl, p1) = match r1 {
        Some(x) => x,
        None => {
            proof {
                assert forall|c: bool, a: bool, sh: bool, m: bool|
                    !flags_at(input@, c, a, sh, m) by {
                    if flags_at(input@, c, a, sh, m) {
                        lemma_flags_lines(input@, c, a, sh, m);
                    }
                }
            }
            return None;
        },
    };
    let r2 = parse_bool_line(input, p1, alt_lab.as_slice());
    let (alt, p2) = match r2 {
        Some(x) => x,
        None => {
            proof {
                assert forall|c: bool, a: bool, sh: bool, m: bool|
                    !flags_at(input@, c, a, sh, m) by {
                    if flags_at(input@, c, a, sh, m) {
                        lemma_flags_lines(input@, c, a, sh, m);
                    }
                }
            }
            return None;
        },
    };
    let r3 = parse_bool_line(input, p2, shift_lab.as_slice());
    let (shift, p3) = match r3 {
        Some(x) => x,
        None => {
            proof {
                assert forall|c: bool, a: bool, sh: bool, m: bool|
                    !flags_at(input@, c, a, sh, m) by {
                    if flags_at(input@, c, a, sh, m) {
                        lemma_flags_lines(input@, c, a, sh, m);
                    }
                }
            }
            return None;
        },
    };
    let r4 = parse_bool_line(input, p3, meta_lab.as_slice());
    let (meta, p4) = match r4 {
        Some(x) => x,
        None => {
            proof {
                assert forall|c: bool, a: bool, sh: bool, m: bool|
                    !flags_at(input@, c, a, sh, m) by {
                    if flags_at(input@, c, a, sh, m) {
                        lemma_flags_lines(input@, c, a, sh, m);
                    }
                }
            }
            return None;
        },
    };
    proof {
        assert(input@.subrange(0, p4 as int) =~= flags_bytes(ctrl, alt, shift, meta)) by {
            assert(input@.subrange(0, p1 as int) =~= ctrl_line(ctrl));
            assert(input@.subrange(0, p2 as int) =~= ctrl_line(ctrl) + alt_line(alt));
            assert(input@.subrange(0, p3 as int) =~= ctrl_line(ctrl) + alt_line(alt) + shift_line(
                shift,
            ));
        }
        assert forall|c: bool, a: bool, sh: bool, m: bool|
            flags_at(input@, c, a, sh, m) implies c == ctrl && a == alt && sh == shift && m == meta
            && flags_bytes(c, a, sh, m).len() == p4 by {
            lemma_flags_lines(input@, c, a, sh, m);
        }
    }
    Some((ctrl, alt, shift, meta, p4))
}

/// Gluing the flag block and the key line back together gives the hotkey
/// part of the encoding.
#[verifier::rlimit(100)]
proof fn lemma_hotkey_assemble(inp: Seq<u8>, h: Hotkey, p4: int, p5: int)
    requires
        0 <= p4 <= p5 <= inp.len(),
        inp.subrange(0, p4) == flags_bytes(h.ctrl, h.alt, h.shift, h.meta),
        p4 == flags_bytes(h.ctrl, h.alt, h.shift, h.meta).len(),
        inp.subrange(p4, p5) == key_line(h.key),
        p5 == p4 + key_line(h.key).len(),
    ensures
        inp.subrange(0, p5) == hotkey_bytes(h),
        p5 == hotkey_bytes(h).len(),
{
    assert(inp.subrange(0, p5) =~= flags_bytes(h.ctrl, h.alt, h.shift, h.meta) + key_line(h.key));
}

/// Parse the five hotkey lines at the start of the input; returns the combo
/// and the position just past its last line.
#[verifier::rlimit(100)]
fn parse_hotkey_part(input: &[u8]) -> (r: Option<(Hotkey, usize)>)
    ensures
        r matches Some((h, p)) ==> p <= input@.len() && input@.subrange(0, p as int)
            == hotkey_bytes(h) && p == hotkey_bytes(h).len() && key_wf(h.key),
        forall|h: Hotkey| key_wf(h.key) && hotkey_at(input@, h) ==> (r matches Some((h2, p))
            && h2 == h && p == hotkey_bytes(h).len()),
{
    let key_lab: [u8; 6] = [107, 101, 121, 32, 61, 32];
    proof {
        assert(key_lab@ =~= key_label());
    }
    let rf = parse_flags_part(input);
    let (ctrl, alt, shift, meta, p4) = match rf {
        Some(x) => x,
        None => {
            proof {
                assert forall|h: Hotkey| !(key_wf(h.key) && hotkey_at(input@, h)) by {
                    if key_wf(h.key) && hotkey_at(input@, h) {
                        lemma_hotkey_parts(input@, h);
                    }
                }
            }
            return None;
        },
    };
    let r5 = parse_key_line(input, p4, key_lab.as_slice());
    let (key, p5) = match r5 {
        Some(x) => x,
        None => {
            proof {
                assert forall|h: Hotkey| !(key_wf(h.key) && hotkey_at(input@, h)) by {
                    if key_wf(h.key) && hotkey_at(input@, h) {
                        lemma_hotkey_parts(input@, h);
                    }
                }
            }
            return None;
        },
    };
    let parsed = Hotkey { ctrl, alt, shift, meta, key };
    proof {
        lemma_hotkey_assemble(input@, parsed, p4 as int, p5 as int);
        assert forall|h: Hotkey| key_wf(h.key) && hotkey_at(input@, h) implies h == parsed && p5
            == hotkey_bytes(h).len() by {
            lemma_hotkey_parts(input@, h);
            assert(h.ctrl == ctrl && h.alt == alt && h.shift == shift && h.meta == meta);
            assert(flags_bytes(h.ctrl, h.alt, h.shift, h.meta).len() == p4);
            assert(h.key == key);
        }
    }
    Some((parsed, p5))
}

/// Parse the canonical encoding of a settings record; returns `None` on any
/// other input. Together with `settings_to_bytes` this is the round trip:
/// decoding a serialized record — every well-formed record — yields the
/// record itself, and nothing else decodes.
#[verifier::rlimit(100)]
pub fn settings_from_bytes(input: &[u8]) -> (r: Option<Settings>)
    ensures
        r matches Some(s) ==> input@ == encoded(s) && settings_wf(s),
        forall|s: Settings| settings_wf(s) && input@ == encoded(s) ==> r == Some(s),
{
    let action_lab: [u8; 9] = [97, 99, 116, 105, 111, 110, 32, 61, 32];
    let interval_lab: [u8; 14] = [105, 110, 116, 101, 114, 118, 97, 108, 95, 109, 115, 32, 61, 32];
    proof {
        assert(action_lab@ =~= action_label());
        assert(interval_lab@ =~= interval_label());
    }
    let rh = parse_hotkey_part(input);
    let (hotkey, p5) = match rh {
        Some(x) => x,
        None => {
            proof {
                assert forall|s: Settings| !(settings_wf(s) && input@ == encoded(s)) by {
                    if settings_wf(s) && input@ == encoded(s) {
                        lemma_encoded_parts(s);
                    }
                }
            }
            return None;
        },
    };
    let r6 = parse_action_line(input, p5, action_lab.as_slice());
    let (action, p6) = match r6 {
        Some(x) => x,
        None => {
            proof {
                assert forall|s: Settings| !(settings_wf(s) && input@ == encoded(s)) by {
                    if settings_wf(s) && input@ == encoded(s) {
                        lemma_encoded_parts(s);
                    }
                }
            }
            return None;
        },
    };
    let r7 = parse_dec_line(input, p6, interval_lab.as_slice());
    let (interval_ms, p7) = match r7 {
        Some(x) => x,
        None => {
            proof {
                assert forall|s: Settings| !(settings_wf(s) && input@ == encoded(s)) by {
                    if settings_wf(s) && input@ == encoded(s) {
                        lemma_encoded_parts(s);
                    }
                }
            }
            return None;
        },
    };
    if p7 != input.len() {
        proof {
            assert forall|s: Settings| !(settings_wf(s) && input@ == encoded(s)) by {
                if settings_wf(s) && input@ == encoded(s) {
                    lemma_encoded_parts(s);
                }
            }
        }
        return None;
    }
    let parsed = Settings { hotkey, action, interval_ms };
    proof {
        assert(input@ == encoded(parsed)) by {
            assert(input@.subrange(0, p6 as int) =~= hotkey_bytes(hotkey) + action_line(action));
            assert(input@.subrange(0, p7 as int) =~= encoded(parsed));
            assert(input@.subrange(0, p7 as int) =~= input@);
        }
        assert forall|s: Settings| settings_wf(s) && input@ == encoded(s) implies Some(parsed)
            == Some::<Settings>(s) by {
            lemma_encoded_parts(s);
        }
    }
    Some(parsed)
}

/// Decode a settings file: the canonical encoding of a well-formed settings
/// record yields that record; anything else — a corrupt or foreign file —
/// yields the default settings, never an error.
pub fn decode_or_default(input: &[u8]) -> (r: Settings)
    ensures
        forall|s: Settings| settings_wf(s) && input@ == encoded(s) ==> r == s,
        (forall|s: Settings| settings_wf(s) ==> input@ != encoded(s)) ==> r == default_settings(),
        settings_wf(r),
{
    match settings_from_bytes(input) {
        Some(s) => s,
        None => Settings::default(),
    }
}

} // verus!
