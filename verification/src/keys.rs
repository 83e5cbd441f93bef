//! Keys, and the bytes that a terminal sends to a shell for them.

use vstd::prelude::*;
use vstd::utf8::{decode_utf8, encode_utf8, valid_utf8};

use crate::osc7::ESC;

verus! {

/// A key, apart from the modifiers that are held down with it.
#[derive(Clone, Copy, Debug)]
pub enum KeyCode {
    Backspace,
    Enter,
    Left,
    Right,
    Up,
    Down,
    Home,
    End,
    PageUp,
    PageDown,
    Tab,
    Delete,
    Esc,
    Char(char),
    F(u8),
    /// Any other key.
    Other,
}

/// The modifiers that matter for a key.
#[derive(Clone, Copy, Debug)]
pub struct KeyModifiers {
    pub control: bool,
    pub alt: bool,
}

/// A key press.
#[derive(Clone, Copy, Debug)]
pub struct KeyEvent {
    pub code: KeyCode,
    pub modifiers: KeyModifiers,
}

/// The code point of a character, with the letters of ASCII in upper case.
pub open spec fn ascii_uppercase(c: char) -> int {
    if 'a' <= c <= 'z' {
        c as int - 32
    } else {
        c as int
    }
}

/// The control character that a character gives together with Control. It is taken from the low
/// eight bits of the code point, which must lie in the columns of ASCII from `@` to `_`.
pub open spec fn control_byte(c: char) -> Option<u8> {
    let low = ascii_uppercase(c) % 256;
    if '@' as int <= low <= '_' as int {
        Some((low - '@' as int) as u8)
    } else {
        None
    }
}

/// The bytes of an escape sequence that begins with `ESC [`.
pub open spec fn escape_sequence(rest: Seq<u8>) -> Seq<u8> {
    seq![ESC, '[' as u8] + rest
}

/// The bytes that the shell gets for a key, where it gets any.
pub open spec fn key_bytes(key: KeyEvent) -> Option<Seq<u8>> {
    match key.code {
        KeyCode::Enter => Some(seq![0x0du8]),
        KeyCode::Backspace => Some(seq![0x7fu8]),
        KeyCode::Tab => Some(seq![0x09u8]),
        KeyCode::Esc => Some(seq![ESC]),
        KeyCode::Up => Some(escape_sequence(seq!['A' as u8])),
        KeyCode::Down => Some(escape_sequence(seq!['B' as u8])),
        KeyCode::Right => Some(escape_sequence(seq!['C' as u8])),
        KeyCode::Left => Some(escape_sequence(seq!['D' as u8])),
        KeyCode::Home => Some(escape_sequence(seq!['H' as u8])),
        KeyCode::End => Some(escape_sequence(seq!['F' as u8])),
        KeyCode::PageUp => Some(escape_sequence(seq!['5' as u8, '~' as u8])),
        KeyCode::PageDown => Some(escape_sequence(seq!['6' as u8, '~' as u8])),
        KeyCode::Delete => Some(escape_sequence(seq!['3' as u8, '~' as u8])),
        KeyCode::Char(c) => {
            if key.modifiers.control {
                match control_byte(c) {
                    Some(b) => Some(seq![b]),
                    None => None,
                }
            } else if key.modifiers.alt {
                Some(seq![ESC] + encode_utf8(seq![c]))
            } else {
                Some(encode_utf8(seq![c]))
            }
        },
        KeyCode::F(_) => None,
        KeyCode::Other => None,
    }
}

fn bracket_one(a: u8) -> (bytes: Vec<u8>)
    ensures
        bytes@ == escape_sequence(seq![a]),
{
    let bytes: Vec<u8> = vec![ESC, '[' as u8, a];
    assert(bytes@ == escape_sequence(seq![a]));
    bytes
}

fn bracket_two(a: u8, b: u8) -> (bytes: Vec<u8>)
    ensures
        bytes@ == escape_sequence(seq![a, b]),
{
    let bytes: Vec<u8> = vec![ESC, '[' as u8, a, b];
    assert(bytes@ == escape_sequence(seq![a, b]));
    bytes
}

fn control_bytes(c: char) -> (bytes: Option<Vec<u8>>)
    ensures
        bytes matches Some(b) ==> control_byte(c) is Some && b@ == seq![control_byte(c)->0],
        bytes is None ==> control_byte(c) is None,
{
    let code: u32 = c as u32;
    let upper: u32 = if 'a' <= c && c <= 'z' {
        code - 32
    } else {
        code
    };
    let low: u8 = (upper % 256) as u8;
    if '@' as u8 <= low && low <= '_' as u8 {
        let control: u8 = low - '@' as u8;
        Some(vec![control])
    } else {
        None
    }
}

/// Gives the bytes that the shell gets for a key, where it gets any.
pub fn key_to_bytes(key: &KeyEvent) -> (bytes: Option<Vec<u8>>)
    ensures
        bytes matches Some(b) ==> key_bytes(*key) == Some(b@),
        bytes is None ==> key_bytes(*key) is None,
{
    match key.code {
        KeyCode::Enter => Some(vec![0x0du8]),
        KeyCode::Backspace => Some(vec![0x7fu8]),
        KeyCode::Tab => Some(vec![0x09u8]),
        KeyCode::Esc => Some(vec![ESC]),
        KeyCode::Up => Some(bracket_one('A' as u8)),
        KeyCode::Down => Some(bracket_one('B' as u8)),
        KeyCode::Right => Some(bracket_one('C' as u8)),
        KeyCode::Left => Some(bracket_one('D' as u8)),
        KeyCode::Home => Some(bracket_one('H' as u8)),
        KeyCode::End => Some(bracket_one('F' as u8)),
        KeyCode::PageUp => Some(bracket_two('5' as u8, '~' as u8)),
        KeyCode::PageDown => Some(bracket_two('6' as u8, '~' as u8)),
        KeyCode::Delete => Some(bracket_two('3' as u8, '~' as u8)),
        KeyCode::Char(c) => {
            if key.modifiers.control {
                control_bytes(c)
            } else {
                let mut text = String::new();
                text.push(c);
                assert(text@ == seq![c]);
                let mut bytes: Vec<u8> = Vec::new();
                if key.modifiers.alt {
                    bytes.push(ESC);
                }
                let ghost before = bytes@;
                bytes.extend_from_slice(text.as_str().as_bytes());
                assert(bytes@ == before + encode_utf8(seq![c]));
                assert(seq![ESC] == Seq::<u8>::empty().push(ESC));
                assert(Seq::<u8>::empty() + encode_utf8(seq![c]) == encode_utf8(seq![c]));
                Some(bytes)
            }
        },
        KeyCode::F(_) => None,
        KeyCode::Other => None,
    }
}

/// Characters typed without Control reach the shell, different ones as different bytes.
pub proof fn law_typed_characters_are_told_apart(a: char, b: char, modifiers: KeyModifiers)
    requires
        !modifiers.control,
    ensures
        key_bytes(KeyEvent { code: KeyCode::Char(a), modifiers }) is Some,
        key_bytes(KeyEvent { code: KeyCode::Char(a), modifiers }) == key_bytes(
            KeyEvent { code: KeyCode::Char(b), modifiers },
        ) ==> a == b,
{
    let x = encode_utf8(seq![a]);
    let y = encode_utf8(seq![b]);
    vstd::utf8::encode_utf8_decode_utf8(seq![a]);
    vstd::utf8::encode_utf8_decode_utf8(seq![b]);
    assert((seq![ESC] + x).skip(1) == x);
    assert((seq![ESC] + y).skip(1) == y);
    if x == y {
        assert(seq![a][0] == seq![b][0]);
    }
}

/// Control with a letter gives the same control character for both cases of the letter, numbered
/// by the letter's place in the alphabet.
pub proof fn law_control_letter(letter: int)
    requires
        0 <= letter < 26,
    ensures
        control_byte(('a' as int + letter) as char) == Some((letter + 1) as u8),
        control_byte(('A' as int + letter) as char) == Some((letter + 1) as u8),
{
}

/// What is typed is what arrives: without Control the bytes of a character are UTF-8 for that one
/// character, with an `ESC` before them where Alt is held down.
pub proof fn law_what_is_typed_arrives(c: char, alt: bool)
    ensures
        ({
            let typed = key_bytes(
                KeyEvent {
                    code: KeyCode::Char(c),
                    modifiers: KeyModifiers { control: false, alt },
                },
            );
            &&& typed is Some
            &&& !alt ==> valid_utf8(typed->0) && decode_utf8(typed->0) == seq![c]
            &&& alt ==> {
                &&& typed->0.len() > 0 && typed->0[0] == 0x1b
                &&& valid_utf8(typed->0.skip(1)) && decode_utf8(typed->0.skip(1)) == seq![c]
            }
        }),
{
    let x = encode_utf8(seq![c]);
    vstd::utf8::encode_utf8_valid_utf8(seq![c]);
    vstd::utf8::encode_utf8_decode_utf8(seq![c]);
    assert((seq![ESC] + x).skip(1) =~= x);
}

/// With Control a character sends one byte below 32 or none, whether or not Alt is held down. The
/// byte has the low five bits of the character, whose low eight bits are 64 more than it, or 96
/// more for a small letter of ASCII; any character of that kind sends it.
pub proof fn law_control_characters(c: char, alt: bool, b: u8)
    ensures
        ({
            let sent = key_bytes(
                KeyEvent { code: KeyCode::Char(c), modifiers: KeyModifiers { control: true, alt } },
            );
            &&& sent is Some ==> sent->0.len() == 1 && sent->0[0] < 32
            &&& sent == Some(seq![b]) <==> b < 32 && (c as int % 256 == b + 64 && !(97 <= c as int
                <= 122) || (97 <= c as int <= 122 && c as int == b + 96))
        }),
{
    let sent = key_bytes(
        KeyEvent { code: KeyCode::Char(c), modifiers: KeyModifiers { control: true, alt } },
    );
    if sent is Some {
        assert(sent->0 =~= seq![sent->0[0]]);
        if sent == Some(seq![b]) {
            assert(sent->0[0] == seq![b][0]);
        }
    }
}

/// The keys that are no characters send these bytes, whatever is held down with them, and all other
/// keys send nothing.
pub proof fn law_keys_that_are_no_characters(code: KeyCode, modifiers: KeyModifiers)
    requires
        !(code is Char),
    ensures
        ({
            let sent = key_bytes(KeyEvent { code, modifiers });
            &&& code is Enter ==> sent == Some(seq![0x0du8])
            &&& code is Backspace ==> sent == Some(seq![0x7fu8])
            &&& code is Tab ==> sent == Some(seq![0x09u8])
            &&& code is Esc ==> sent == Some(seq![0x1bu8])
            &&& code is Up ==> sent == Some(seq![0x1bu8, 0x5bu8, 0x41u8])
            &&& code is Down ==> sent == Some(seq![0x1bu8, 0x5bu8, 0x42u8])
            &&& code is Right ==> sent == Some(seq![0x1bu8, 0x5bu8, 0x43u8])
            &&& code is Left ==> sent == Some(seq![0x1bu8, 0x5bu8, 0x44u8])
            &&& code is Home ==> sent == Some(seq![0x1bu8, 0x5bu8, 0x48u8])
            &&& code is End ==> sent == Some(seq![0x1bu8, 0x5bu8, 0x46u8])
            &&& code is PageUp ==> sent == Some(seq![0x1bu8, 0x5bu8, 0x35u8, 0x7eu8])
            &&& code is PageDown ==> sent == Some(seq![0x1bu8, 0x5bu8, 0x36u8, 0x7eu8])
            &&& code is Delete ==> sent == Some(seq![0x1bu8, 0x5bu8, 0x33u8, 0x7eu8])
            &&& code is F || code is Other ==> sent is None
        }),
{
    let sent = key_bytes(KeyEvent { code, modifiers });
    if code is Up {
        assert(sent->0 =~= seq![0x1bu8, 0x5bu8, 0x41u8]);
    } else if code is Down {
        assert(sent->0 =~= seq![0x1bu8, 0x5bu8, 0x42u8]);
    } else if code is Right {
        assert(sent->0 =~= seq![0x1bu8, 0x5bu8, 0x43u8]);
    } else if code is Left {
        assert(sent->0 =~= seq![0x1bu8, 0x5bu8, 0x44u8]);
    } else if code is Home {
        assert(sent->0 =~= seq![0x1bu8, 0x5bu8, 0x48u8]);
    } else if code is End {
        assert(sent->0 =~= seq![0x1bu8, 0x5bu8, 0x46u8]);
    } else if code is PageUp {
        assert(sent->0 =~= seq![0x1bu8, 0x5bu8, 0x35u8, 0x7eu8]);
    } else if code is PageDown {
        assert(sent->0 =~= seq![0x1bu8, 0x5bu8, 0x36u8, 0x7eu8]);
    } else if code is Delete {
        assert(sent->0 =~= seq![0x1bu8, 0x5bu8, 0x33u8, 0x7eu8]);
    }
}

} // verus!
