//! Text: characters, white space, prefixes of bounded length, UTF-8.

use vstd::prelude::*;
use vstd::utf8::{encode_utf8, valid_utf8};

verus! {

/// `String::push`: appends one character to the end of the string.
pub assume_specification[ String::push ](s: &mut String, ch: char)
    ensures
        final(s)@ == old(s)@.push(ch),
;

/// Reads bytes as text with `std::str::from_utf8`: there is a text exactly where the bytes are
/// valid UTF-8, and it is then the one that the bytes encode.
#[verifier::external_body]
pub(crate) fn from_utf8(bytes: &[u8]) -> (text: Option<&str>)
    ensures
        text is Some <==> valid_utf8(bytes@),
        text matches Some(s) ==> encode_utf8(s@) == bytes@,
{
    std::str::from_utf8(bytes).ok()
}

/// The text in lower case, as `str::to_lowercase` gives it.
pub uninterp spec fn lowercase(text: Seq<char>) -> Seq<char>;

/// Calls `str::to_lowercase`, which maps each character by the Unicode tables and depends on the
/// text alone.
#[verifier::external_body]
pub(crate) fn to_lowercase(text: &str) -> (lower: String)
    ensures
        lower@ == lowercase(text@),
{
    text.to_lowercase()
}

/// The characters of a text.
pub fn chars_of(text: &str) -> (chars: Vec<char>)
    ensures
        chars@ == text@,
{
    let mut chars: Vec<char> = Vec::new();
    for c in it: text.chars()
        invariant
            it.seq() == text@,
            chars@ == text@.take(it.index() as int),
    {
        chars.push(c);
    }
    assert(text@.take(text@.len() as int) == text@);
    chars
}

/// The text made of the first `n` of the given characters.
pub fn text_of(chars: &[char], n: usize) -> (text: String)
    requires
        n <= chars@.len(),
    ensures
        text@ == chars@.take(n as int),
{
    let mut text = String::new();
    let mut i: usize = 0;
    while i < n
        invariant
            i <= n <= chars@.len(),
            text@ == chars@.take(i as int),
        decreases n - i,
    {
        text.push(chars[i]);
        i += 1;
        assert(chars@.take(i as int) == chars@.take(i - 1).push(chars@[i - 1]));
    }
    text
}

/// The character that stands for what a shortened text leaves out.
pub const ELLIPSIS: char = '\u{2026}';

/// A text shortened to `max` characters: the text itself where it is no longer than that, else
/// its beginning with an ellipsis as the last character.
pub open spec fn truncated(text: Seq<char>, max: nat) -> Seq<char> {
    if text.len() <= max {
        text
    } else if max == 0 {
        seq![ELLIPSIS]
    } else {
        text.take(max - 1).push(ELLIPSIS)
    }
}

/// Shortens a text to `max` characters.
pub fn truncate(s: &str, max: usize) -> (short: String)
    ensures
        short@ == truncated(s@, max as nat),
{
    let chars = chars_of(s);
    if chars.len() <= max {
        assert(chars@.take(chars@.len() as int) == s@);
        return text_of(&chars, chars.len());
    }
    let kept: usize = if max == 0 {
        0
    } else {
        max - 1
    };
    let mut out = text_of(&chars, kept);
    out.push(ELLIPSIS);
    assert(chars@.take(0).push(ELLIPSIS) == seq![ELLIPSIS]);
    out
}

/// A shortened text has at most `max` characters, where `max` leaves room for any at all.
pub proof fn law_truncated_fits(text: Seq<char>, max: nat)
    requires
        max > 0,
    ensures
        truncated(text, max).len() <= max,
{
}

/// Shortening a text twice to the same length is shortening it once.
pub proof fn law_truncate_idempotent(text: Seq<char>, max: nat)
    ensures
        truncated(truncated(text, max), max) == truncated(text, max),
{
}

/// The characters that Unicode calls white space.
pub open spec fn is_white_space(c: char) -> bool {
    ||| '\u{9}' <= c <= '\u{d}'
    ||| c == ' '
    ||| c == '\u{85}'
    ||| c == '\u{a0}'
    ||| c == '\u{1680}'
    ||| '\u{2000}' <= c <= '\u{200a}'
    ||| c == '\u{2028}'
    ||| c == '\u{2029}'
    ||| c == '\u{202f}'
    ||| c == '\u{205f}'
    ||| c == '\u{3000}'
}

/// Tells whether a character is white space.
pub fn white_space(c: char) -> (white: bool)
    ensures
        white == is_white_space(c),
{
    ('\u{9}' <= c && c <= '\u{d}') || c == ' ' || c == '\u{85}' || c == '\u{a0}' || c == '\u{1680}'
        || ('\u{2000}' <= c && c <= '\u{200a}') || c == '\u{2028}' || c == '\u{2029}'
        || c == '\u{202f}' || c == '\u{205f}' || c == '\u{3000}'
}

/// A text without the white space at its end.
pub open spec fn trimmed_end(text: Seq<char>) -> Seq<char>
    decreases text.len(),
{
    if text.len() > 0 && is_white_space(text.last()) {
        trimmed_end(text.drop_last())
    } else {
        text
    }
}

/// Removes the white space at the end of a text.
pub fn trim_end(text: &str) -> (trimmed: String)
    ensures
        trimmed@ == trimmed_end(text@),
{
    let chars = chars_of(text);
    let mut n: usize = chars.len();
    assert(chars@.take(n as int) == text@);
    while n > 0 && white_space(chars[n - 1])
        invariant
            n <= chars@.len(),
            trimmed_end(text@) == trimmed_end(chars@.take(n as int)),
        decreases n,
    {
        assert(chars@.take(n as int).drop_last() == chars@.take(n - 1));
        n -= 1;
    }
    text_of(&chars, n)
}

/// Whether a text holds nothing but white space.
pub open spec fn is_blank(text: Seq<char>) -> bool {
    forall|i: int| 0 <= i < text.len() ==> is_white_space(#[trigger] text[i])
}

/// Tells whether a text holds nothing but white space.
pub fn blank(text: &str) -> (blank: bool)
    ensures
        blank == is_blank(text@),
{
    let chars = chars_of(text);
    let mut i: usize = 0;
    while i < chars.len()
        invariant
            chars@ == text@,
            i <= chars@.len(),
            forall|k: int| 0 <= k < i ==> is_white_space(#[trigger] text@[k]),
        decreases chars@.len() - i,
    {
        if !white_space(chars[i]) {
            assert(!is_white_space(text@[i as int]));
            return false;
        }
        i += 1;
    }
    true
}

/// A text that is short enough is kept; of a longer one the beginning is kept, as much as leaves
/// room for the ellipsis behind it.
pub proof fn law_truncated_keeps_the_beginning(text: Seq<char>, max: nat)
    ensures
        text.len() <= max ==> truncated(text, max) == text,
        text.len() > max ==> {
            let short = truncated(text, max);
            &&& short.len() == if max == 0 {
                1
            } else {
                max
            }
            &&& short.last() == '\u{2026}'
            &&& forall|i: int| 0 <= i < short.len() - 1 ==> short[i] == text[i]
        },
{
}

/// What is left of a text is its beginning, it does not end in white space, and all that was
/// removed is white space.
pub proof fn law_trimming_removes_white_space_alone(text: Seq<char>)
    ensures
        ({
            let rest = trimmed_end(text);
            &&& rest.len() <= text.len()
            &&& rest == text.take(rest.len() as int)
            &&& rest.len() > 0 ==> !is_white_space(rest.last())
            &&& forall|i: int| rest.len() <= i < text.len() ==> is_white_space(#[trigger] text[i])
        }),
    decreases text.len(),
{
    if text.len() > 0 && is_white_space(text.last()) {
        let shorter = text.drop_last();
        law_trimming_removes_white_space_alone(shorter);
        let rest = trimmed_end(text);
        assert(rest =~= text.take(rest.len() as int));
        assert forall|i: int| rest.len() <= i < text.len() implies is_white_space(
            #[trigger] text[i],
        ) by {
            if i < text.len() - 1 {
                assert(shorter[i] == text[i]);
            }
        }
    } else {
        assert(text =~= text.take(text.len() as int));
    }
}

/// A text holds nothing but white space exactly where nothing is left of it without the white space
/// at its end.
pub proof fn law_blank_text_leaves_nothing(text: Seq<char>)
    ensures
        is_blank(text) <==> trimmed_end(text).len() == 0,
{
    law_trimming_removes_white_space_alone(text);
    let rest = trimmed_end(text);
    if rest.len() > 0 {
        assert(rest.last() == text[rest.len() - 1]);
    }
}

} // verus!
