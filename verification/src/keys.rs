//! Keys: what the user presses, what a shell gets of it, and the prefix key of the commands.
use crate::text::{
    bytes_of, decimal, is_number, law_decimal_is_read_back, number_of, to_decimal, uppercase,
    uppercase_text,
};
use vstd::prelude::*;
use vstd::utf8::*;

verus! {

/// The modifiers held while a key is pressed.
#[derive(Debug, Clone, Copy, PartialEq, Eq, Structural)]
pub struct KeyModifiers {
    pub shift: bool,
    pub control: bool,
    pub alt: bool,
    pub super_key: bool,
    pub hyper: bool,
    pub meta: bool,
}

/// A key. [`KeyCode::Unused`] stands for every key that nothing here is bound to.
#[derive(Debug, Clone, Copy, PartialEq, Eq, Structural)]
pub enum KeyCode {
    Backspace,
    Enter,
    Left,
    Right,
    Up,
    Down,
    Home,
    End,
    PageUp,
    PageDown,
    Tab,
    Delete,
    F(u8),
    Char(char),
    Esc,
    Unused,
}

/// What happens to a key.
#[derive(Debug, Clone, Copy, PartialEq, Eq, Structural)]
pub enum KeyEventKind {
    Press,
    Repeat,
    Release,
}

/// A key, and what happens to it.
#[derive(Debug, Clone, Copy, PartialEq, Eq, Structural)]
pub struct KeyEvent {
    pub code: KeyCode,
    pub modifiers: KeyModifiers,
    pub kind: KeyEventKind,
}

/// Something that happens to the client, at its terminal or on its connection.
/// [`Event::Disconnected`]: the daemon has closed the connection. [`Event::Unused`] stands for all
/// that the client does not react to.
#[derive(Debug, Clone, Copy, PartialEq, Eq, Structural)]
pub enum Event {
    Key(KeyEvent),
    Resize(u16, u16),
    Disconnected,
    Unused,
}

/// The key that starts a command, together with [`prefix_modifiers`].
pub const PREFIX_KEY: char = 'b';

/// No modifier.
#[verifier::allow_in_spec]
pub fn no_modifiers() -> (m: KeyModifiers)
    returns
        (KeyModifiers {
            shift: false,
            control: false,
            alt: false,
            super_key: false,
            hyper: false,
            meta: false,
        }),
{
    KeyModifiers {
        shift: false,
        control: false,
        alt: false,
        super_key: false,
        hyper: false,
        meta: false,
    }
}

/// The control key alone.
#[verifier::allow_in_spec]
pub fn control_only() -> (m: KeyModifiers)
    returns
        (KeyModifiers { control: true, ..no_modifiers() }),
{
    KeyModifiers { control: true, ..no_modifiers() }
}

/// The alt key alone.
#[verifier::allow_in_spec]
pub fn alt_only() -> (m: KeyModifiers)
    returns
        (KeyModifiers { alt: true, ..no_modifiers() }),
{
    KeyModifiers { alt: true, ..no_modifiers() }
}

/// The modifiers of the prefix key.
#[verifier::allow_in_spec]
pub fn prefix_modifiers() -> (m: KeyModifiers)
    returns
        control_only(),
{
    control_only()
}

/// Whether the key is the prefix key.
#[verifier::allow_in_spec]
pub fn is_prefix_key(key: KeyEvent) -> (r: bool)
    returns
        (key.code == KeyCode::Char(PREFIX_KEY) && key.modifiers == prefix_modifiers()),
{
    key.code == KeyCode::Char(PREFIX_KEY) && key.modifiers == prefix_modifiers()
}

/// The lowest eight bits of a character's number.
pub open spec fn low_byte(c: char) -> u8 {
    (c as int % 256) as u8
}

/// An ASCII capital letter made small, any other byte as it is.
pub open spec fn small(b: u8) -> u8 {
    if 65 <= b <= 90 {
        (b + 32) as u8
    } else {
        b
    }
}

fn small_low_byte(c: char) -> (b: u8)
    ensures
        b == small(low_byte(c)),
{
    let n: u32 = c as u32;
    let b: u8 = (n % 256) as u8;
    if 65 <= b && b <= 90 {
        b + 32
    } else {
        b
    }
}

/// What a shell gets of a character pressed with the control key: for a letter its place in the
/// alphabet, else nothing. Only the lowest eight bits of the character count.
pub open spec fn control_bytes(c: char) -> Option<Seq<u8>> {
    let b = small(low_byte(c));
    if 97 <= b <= 122 {
        Some(seq![(b - 96) as u8])
    } else {
        None
    }
}

/// What a shell gets of a function key.
pub open spec fn function_key_bytes(n: u8) -> Seq<u8> {
    if n == 1 {
        seq![0x1b, 0x4f, 0x50]
    } else if n == 2 {
        seq![0x1b, 0x4f, 0x51]
    } else if n == 3 {
        seq![0x1b, 0x4f, 0x52]
    } else if n == 4 {
        seq![0x1b, 0x4f, 0x53]
    } else {
        seq![0x1b, 0x5b] + encode_utf8(decimal((n + 10) as nat)) + seq![0x7e]
    }
}

/// What a shell gets of a key.
pub open spec fn key_bytes(key: KeyEvent) -> Option<Seq<u8>> {
    match key.code {
        KeyCode::Char(c) => if key.modifiers.control {
            control_bytes(c)
        } else {
            Some(encode_utf8(seq![c]))
        },
        KeyCode::Enter => Some(seq![0x0d]),
        KeyCode::Backspace => Some(seq![0x7f]),
        KeyCode::Esc => Some(seq![0x1b]),
        KeyCode::Tab => Some(seq![0x09]),
        KeyCode::Up => Some(seq![0x1b, 0x5b, 0x41]),
        KeyCode::Down => Some(seq![0x1b, 0x5b, 0x42]),
        KeyCode::Right => Some(seq![0x1b, 0x5b, 0x43]),
        KeyCode::Left => Some(seq![0x1b, 0x5b, 0x44]),
        KeyCode::Home => Some(seq![0x1b, 0x5b, 0x48]),
        KeyCode::End => Some(seq![0x1b, 0x5b, 0x46]),
        KeyCode::Delete => Some(seq![0x1b, 0x5b, 0x33, 0x7e]),
        KeyCode::PageUp => Some(seq![0x1b, 0x5b, 0x35, 0x7e]),
        KeyCode::PageDown => Some(seq![0x1b, 0x5b, 0x36, 0x7e]),
        KeyCode::F(n) => Some(function_key_bytes(n)),
        KeyCode::Unused => None,
    }
}

/// The number that a function key is sent by fits in a byte.
pub open spec fn key_in_range(key: KeyEvent) -> bool {
    key.code matches KeyCode::F(n) ==> n <= 245
}

/// The bytes of an optional byte string.
pub open spec fn opt_bytes(o: Option<Vec<u8>>) -> Option<Seq<u8>> {
    match o {
        Some(v) => Some(v@),
        None => None,
    }
}

/// The bytes `ESC`, `a`, `b`.
fn escape2(a: u8, b: u8) -> (v: Vec<u8>)
    ensures
        v@ == seq![0x1bu8, a, b],
{
    let mut v: Vec<u8> = Vec::new();
    v.push(0x1b);
    v.push(a);
    v.push(b);
    assert(v@ =~= seq![0x1bu8, a, b]);
    v
}

/// The bytes `ESC [ a ~`.
fn escape_tilde(a: u8) -> (v: Vec<u8>)
    ensures
        v@ == seq![0x1bu8, 0x5b, a, 0x7e],
{
    let mut v = escape2(0x5b, a);
    v.push(0x7e);
    assert(v@ =~= seq![0x1bu8, 0x5b, a, 0x7e]);
    v
}

fn single(a: u8) -> (v: Vec<u8>)
    ensures
        v@ == seq![a],
{
    let mut v: Vec<u8> = Vec::new();
    v.push(a);
    assert(v@ =~= seq![a]);
    v
}

/// The bytes of a function key.
fn function_key(n: u8) -> (v: Vec<u8>)
    requires
        n <= 245,
    ensures
        v@ == function_key_bytes(n),
{
    if n == 1 {
        escape2(0x4f, 0x50)
    } else if n == 2 {
        escape2(0x4f, 0x51)
    } else if n == 3 {
        escape2(0x4f, 0x52)
    } else if n == 4 {
        escape2(0x4f, 0x53)
    } else {
        let number = to_decimal((n + 10) as u128);
        let mut digits = bytes_of(number.as_str());
        let mut v: Vec<u8> = Vec::new();
        v.push(0x1b);
        v.push(0x5b);
        v.append(&mut digits);
        v.push(0x7e);
        assert(v@ =~= function_key_bytes(n));
        v
    }
}

/// The bytes to be typed into a shell for a key, where there are any.
pub fn key_to_bytes(key: KeyEvent) -> (r: Option<Vec<u8>>)
    requires
        key_in_range(key),
    ensures
        opt_bytes(r) == key_bytes(key),
        match key.code {
            KeyCode::Char(c) => {
                &&& !key.modifiers.control ==> (r matches Some(v) && v@ == encode_utf8(seq![c]))
                &&& key.modifiers.control && 'a' <= c <= 'z' ==> (r matches Some(v) && v@ == seq![
                    (c as int - 'a' as int + 1) as u8,
                ])
            },
            KeyCode::Unused => r is None,
            _ => r is Some,
        },
{
    match key.code {
        KeyCode::Char(c) => if key.modifiers.control {
            let b: u8 = small_low_byte(c);
            if 97 <= b && b <= 122 {
                Some(single(b - 96))
            } else {
                None
            }
        } else {
            let mut s = String::new();
            s.push(c);
            assert(s@ =~= seq![c]);
            Some(bytes_of(s.as_str()))
        },
        KeyCode::Enter => Some(single(0x0d)),
        KeyCode::Backspace => Some(single(0x7f)),
        KeyCode::Esc => Some(single(0x1b)),
        KeyCode::Tab => Some(single(0x09)),
        KeyCode::Up => Some(escape2(0x5b, 0x41)),
        KeyCode::Down => Some(escape2(0x5b, 0x42)),
        KeyCode::Right => Some(escape2(0x5b, 0x43)),
        KeyCode::Left => Some(escape2(0x5b, 0x44)),
        KeyCode::Home => Some(escape2(0x5b, 0x48)),
        KeyCode::End => Some(escape2(0x5b, 0x46)),
        KeyCode::Delete => Some(escape_tilde(0x33)),
        KeyCode::PageUp => Some(escape_tilde(0x35)),
        KeyCode::PageDown => Some(escape_tilde(0x36)),
        KeyCode::F(n) => Some(function_key(n)),
        KeyCode::Unused => None,
    }
}

/// The byte that stands for a prefix key when it is typed into a shell.
pub open spec fn prefix_value(key: char, modifiers: KeyModifiers) -> u8 {
    if key == 'b' && modifiers == control_only() {
        0x02
    } else {
        let b = small(low_byte(key));
        if b < 97 {
            1
        } else {
            (b - 96) as u8
        }
    }
}

/// The byte that stands for a prefix key when it is typed into a shell.
pub fn prefix_byte(key: char, modifiers: KeyModifiers) -> (b: u8)
    ensures
        b == prefix_value(key, modifiers),
{
    if key == 'b' && modifiers == control_only() {
        0x02
    } else {
        let b: u8 = small_low_byte(key);
        if b < 97 {
            1
        } else {
            b - 96
        }
    }
}

/// How a prefix key is written, given its key's upper case.
pub open spec fn prefix_name(key: char, upper: Seq<char>, modifiers: KeyModifiers) -> Seq<char> {
    if modifiers == control_only() {
        "^"@ + upper
    } else if modifiers == alt_only() {
        "M-"@ + seq![key]
    } else {
        seq![key]
    }
}

/// How a prefix key is written, given its key's upper case.
pub fn prefix_text(key: char, upper: &str, modifiers: KeyModifiers) -> (s: String)
    ensures
        s@ == prefix_name(key, upper@, modifiers),
{
    if modifiers == control_only() {
        let mut s = "^".to_string();
        s.push_str(upper);
        s
    } else if modifiers == alt_only() {
        let mut s = "M-".to_string();
        s.push(key);
        assert(s@ =~= "M-"@ + seq![key]);
        s
    } else {
        let mut s = String::new();
        s.push(key);
        assert(s@ =~= seq![key]);
        s
    }
}

/// How a prefix key is written.
pub fn prefix_display(key: char, modifiers: KeyModifiers) -> (s: String)
    ensures
        s@ == prefix_name(key, uppercase(key), modifiers),
        'a' <= key <= 'z' ==> s@ == prefix_name(key, seq![(key as int - 32) as char], modifiers),
{
    let upper = uppercase_text(key);
    prefix_text(key, upper.as_str(), modifiers)
}

/// The prefix key, typed into a shell, is what the shell gets of that key when it is pressed,
/// for every letter and the control key.
pub proof fn law_prefix_byte_is_its_key(key: char, kind: KeyEventKind)
    requires
        'a' <= key <= 'z' || 'A' <= key <= 'Z',
    ensures
        key_bytes(KeyEvent { code: KeyCode::Char(key), modifiers: control_only(), kind }) == Some(
            seq![prefix_value(key, control_only())],
        ),
{
}

/// A character key pressed without the control key is typed as the character's UTF-8 bytes,
/// whatever else is held.
pub proof fn law_character_is_typed_as_utf8(c: char, modifiers: KeyModifiers, kind: KeyEventKind)
    requires
        !modifiers.control,
    ensures
        key_bytes(KeyEvent { code: KeyCode::Char(c), modifiers, kind }) == Some(
            encode_utf8(seq![c]),
        ),
{
}

/// A character key pressed with the control key, whatever else is held, is typed as one byte where
/// the lowest eight bits of the character are those of an ASCII letter: its place in the alphabet,
/// from one, in either case. Else nothing is typed.
pub proof fn law_control_character_is_its_place(
    c: char,
    modifiers: KeyModifiers,
    kind: KeyEventKind,
)
    requires
        modifiers.control,
    ensures
        ({
            let typed = key_bytes(KeyEvent { code: KeyCode::Char(c), modifiers, kind });
            let low = c as int % 256;
            if 0x41 <= low <= 0x5a || 0x61 <= low <= 0x7a {
                typed matches Some(v) && v.len() == 1 && (v[0] == low - 0x40 || v[0] == low - 0x60)
                    && 1 <= v[0] <= 26
            } else {
                typed is None
            }
        }),
{
}

/// A key that is no character is typed alike whatever modifiers are held.
pub proof fn law_other_keys_ignore_modifiers(a: KeyEvent, b: KeyEvent)
    requires
        a.code == b.code,
        a.code !is Char,
    ensures
        key_bytes(a) == key_bytes(b),
{
}

/// What each key is typed as that is neither a character nor a function key: a control character
/// of ASCII, or the sequence that terminals send for it.
pub proof fn law_named_keys_are_typed_as_their_sequences(m: KeyModifiers, kind: KeyEventKind)
    ensures
        ({
            let typed = |code: KeyCode| key_bytes(KeyEvent { code, modifiers: m, kind });
            let esc = '\x1b' as u8;
            &&& typed(KeyCode::Enter) == Some(seq!['\r' as u8])
            &&& typed(KeyCode::Tab) == Some(seq!['\t' as u8])
            &&& typed(KeyCode::Backspace) == Some(seq![127u8])
            &&& typed(KeyCode::Esc) == Some(seq![esc])
            &&& typed(KeyCode::Up) == Some(seq![esc, '[' as u8, 'A' as u8])
            &&& typed(KeyCode::Down) == Some(seq![esc, '[' as u8, 'B' as u8])
            &&& typed(KeyCode::Right) == Some(seq![esc, '[' as u8, 'C' as u8])
            &&& typed(KeyCode::Left) == Some(seq![esc, '[' as u8, 'D' as u8])
            &&& typed(KeyCode::Home) == Some(seq![esc, '[' as u8, 'H' as u8])
            &&& typed(KeyCode::End) == Some(seq![esc, '[' as u8, 'F' as u8])
            &&& typed(KeyCode::Delete) == Some(seq![esc, '[' as u8, '3' as u8, '~' as u8])
            &&& typed(KeyCode::PageUp) == Some(seq![esc, '[' as u8, '5' as u8, '~' as u8])
            &&& typed(KeyCode::PageDown) == Some(seq![esc, '[' as u8, '6' as u8, '~' as u8])
            &&& typed(KeyCode::Unused) is None
        }),
{
}

/// The first four function keys are typed as `ESC O` and the letters from `P` on, every other as
/// `ESC [`, its number raised by ten, written in decimal, and `~`.
pub proof fn law_function_keys_are_typed_by_number(n: u8, m: KeyModifiers, kind: KeyEventKind)
    ensures
        ({
            let typed = key_bytes(KeyEvent { code: KeyCode::F(n), modifiers: m, kind });
            let esc = '\x1b' as u8;
            if 1 <= n <= 4 {
                typed == Some(seq![esc, 'O' as u8, ('P' as int + n - 1) as u8])
            } else {
                &&& typed matches Some(v)
                &&& v.len() >= 4
                &&& v[0] == esc && v[1] == '[' as u8 && v.last() == '~' as u8
                &&& exists|digits: Seq<char>|
                    #![auto]
                    v.subrange(2, v.len() - 1) == encode_utf8(digits) && number_of(digits) == n
                        + 10 && is_number(digits)
            }
        }),
{
    if n == 0 || n > 4 {
        let v = function_key_bytes(n);
        let digits = decimal((n + 10) as nat);
        let middle = encode_utf8(digits);
        law_decimal_is_read_back((n + 10) as nat);
        encode_utf8_first_scalar(digits);
        assert(v.subrange(2, v.len() - 1) =~= middle);
        assert(is_ascii_chars(digits));
        is_ascii_chars_encode_utf8(digits);
        assert(v.subrange(2, v.len() - 1) == encode_utf8(digits) && number_of(digits) == n + 10
            && is_number(digits));
    }
}

/// The prefix key is `b` with the control key and no other.
pub proof fn law_prefix_key_is_control_b(key: KeyEvent)
    ensures
        is_prefix_key(key) <==> key.code == KeyCode::Char('b') && key.modifiers == (KeyModifiers {
            shift: false,
            control: true,
            alt: false,
            super_key: false,
            hyper: false,
            meta: false,
        }),
{
}

/// A prefix key is written with `^` and its upper case where only the control key is held, with
/// `M-` where only the alt key is, and else as it is.
pub proof fn law_prefix_is_written_with_its_modifier(
    key: char,
    upper: Seq<char>,
    m: KeyModifiers,
)
    ensures
        ({
            let others = m.shift || m.super_key || m.hyper || m.meta;
            let written = prefix_name(key, upper, m);
            &&& m.control && !m.alt && !others ==> written == "^"@ + upper
            &&& m.alt && !m.control && !others ==> written == "M-"@ + seq![key]
            &&& m.alt == m.control || others ==> written == seq![key]
        }),
{
}

/// The byte that stands for a prefix key is that of the letter which the lowest eight bits of the
/// key make, in either case: its place in the alphabet, whatever modifiers there are. What lies
/// before the letters gives one, and what lies behind them counts on.
pub proof fn law_prefix_byte_counts_from_a(key: char, m: KeyModifiers)
    ensures
        ({
            let low = key as int % 256;
            let b = prefix_value(key, m);
            &&& 0x41 <= low <= 0x5a ==> b == low - 0x40
            &&& low >= 0x61 ==> b == low - 0x60
            &&& low < 0x41 || 0x5a < low < 0x61 ==> b == 1
        }),
{
}

} // verus!
