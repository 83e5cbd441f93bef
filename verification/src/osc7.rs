//! The reports in which a shell names its working directory.
//!
//! A report is the terminal sequence `ESC ] 7 ; payload` ended by `BEL` or by `ESC \`. Its payload
//! is a URL `file://host/path` with bytes of the path written as `%` and two hexadecimal digits.

use vstd::prelude::*;
use vstd::utf8::{decode_utf8, encode_utf8, valid_utf8};

use vstd::slice::slice_subrange;

use crate::text::from_utf8;

verus! {

pub const ESC: u8 = 0x1b;

pub const BEL: u8 = 0x07;

/// The value of a hexadecimal digit in ASCII, in either case.
pub open spec fn hex_value(b: u8) -> Option<u8> {
    if '0' as u8 <= b <= '9' as u8 {
        Some((b - '0' as u8) as u8)
    } else if 'a' as u8 <= b <= 'f' as u8 {
        Some((b - 'a' as u8 + 10) as u8)
    } else if 'A' as u8 <= b <= 'F' as u8 {
        Some((b - 'A' as u8 + 10) as u8)
    } else {
        None
    }
}

/// Reads a hexadecimal digit.
pub fn from_hex(b: u8) -> (value: Option<u8>)
    ensures
        value == hex_value(b),
{
    if '0' as u8 <= b && b <= '9' as u8 {
        Some(b - '0' as u8)
    } else if 'a' as u8 <= b && b <= 'f' as u8 {
        Some(b - 'a' as u8 + 10)
    } else if 'A' as u8 <= b && b <= 'F' as u8 {
        Some(b - 'A' as u8 + 10)
    } else {
        None
    }
}

/// Whether the bytes begin with `%` and two hexadecimal digits.
pub open spec fn starts_escape(input: Seq<u8>) -> bool {
    &&& input.len() >= 3
    &&& input[0] == '%' as u8
    &&& hex_value(input[1]) is Some
    &&& hex_value(input[2]) is Some
}

/// The bytes that a percent-encoded byte string stands for: each `%` with two hexadecimal digits
/// behind it is the byte of that value, and every other byte is itself.
pub open spec fn percent_decoded(input: Seq<u8>) -> Seq<u8>
    decreases input.len(),
{
    if input.len() == 0 {
        seq![]
    } else if starts_escape(input) {
        seq![(hex_value(input[1])->0 * 16 + hex_value(input[2])->0) as u8] + percent_decoded(input.skip(3))
    } else {
        seq![input[0]] + percent_decoded(input.skip(1))
    }
}

/// Decodes a percent-encoded byte string.
pub fn percent_decode(input: &[u8]) -> (out: Vec<u8>)
    ensures
        out@ == percent_decoded(input@),
{
    let mut out: Vec<u8> = Vec::with_capacity(input.len());
    let mut i: usize = 0;
    assert(input@.skip(0) == input@);
    while i < input.len()
        invariant
            i <= input.len(),
            percent_decoded(input@) == out@ + percent_decoded(input@.skip(i as int)),
        decreases input@.len() - i,
    {
        let ghost rest = input@.skip(i as int);
        if input[i] == '%' as u8 && input.len() - i > 2 {
            let h1 = from_hex(input[i + 1]);
            let h2 = from_hex(input[i + 2]);
            if let (Some(a), Some(b)) = (h1, h2) {
                assert((a << 4) | b == a * 16 + b) by (bit_vector)
                    requires
                        a < 16,
                        b < 16,
                ;
                out.push((a << 4) | b);
                assert(rest.skip(3) == input@.skip(i + 3));
                i += 3;
                continue;
            }
        }
        assert(rest.skip(1) == input@.skip(i + 1));
        out.push(input[i]);
        i += 1;
    }
    out
}

/// The beginning of a URL that names a file.
pub const FILE_SCHEME: [u8; 7] = [0x66, 0x69, 0x6c, 0x65, 0x3a, 0x2f, 0x2f];

/// The position of the first `/` at or after `from`, or the length where there is none.
pub open spec fn next_slash(url: Seq<u8>, from: int) -> int
    decreases url.len() - from,
{
    if from >= url.len() || url[from] == '/' as u8 {
        from
    } else {
        next_slash(url, from + 1)
    }
}

/// The path that the payload of a report names. There is none where the payload is not a `file://`
/// URL in valid UTF-8 with a `/` behind the host, or where the decoded path is not valid UTF-8.
pub open spec fn path_of_url(url: Seq<u8>) -> Option<Seq<char>> {
    let slash = next_slash(url, FILE_SCHEME@.len() as int);
    let path = percent_decoded(url.skip(slash));
    if valid_utf8(url) && FILE_SCHEME@.is_prefix_of(url) && slash < url.len() && valid_utf8(path) {
        Some(decode_utf8(path))
    } else {
        None
    }
}

/// Reads the path out of the payload of a report.
pub fn report_path(url: &[u8]) -> (path: Option<String>)
    ensures
        path matches Some(p) ==> path_of_url(url@) == Some(p@),
        path is None ==> path_of_url(url@) is None,
{
    let scheme: [u8; 7] = FILE_SCHEME;
    if from_utf8(url).is_none() || url.len() < 7 {
        return None;
    }
    let mut k: usize = 0;
    while k < 7
        invariant
            k <= 7 <= url.len(),
            scheme@ == FILE_SCHEME@,
            forall|m: int| 0 <= m < k ==> url@[m] == FILE_SCHEME@[m],
        decreases 7 - k,
    {
        if url[k] != scheme[k] {
            assert(!FILE_SCHEME@.is_prefix_of(url@));
            return None;
        }
        k += 1;
    }
    assert(FILE_SCHEME@.is_prefix_of(url@));
    let mut slash: usize = 7;
    while slash < url.len() && url[slash] != '/' as u8
        invariant
            7 <= slash <= url.len(),
            next_slash(url@, 7) == next_slash(url@, slash as int),
        decreases url.len() - slash,
    {
        slash += 1;
    }
    if slash == url.len() {
        return None;
    }
    let decoded = percent_decode(slice_subrange(url, slash, url.len()));
    assert(url@.subrange(slash as int, url@.len() as int) == url@.skip(slash as int));
    match from_utf8(&decoded) {
        Some(text) => {
            proof {
                vstd::utf8::encode_utf8_decode_utf8(text@);
            }
            Some(text.to_owned())
        },
        None => None,
    }
}

/// Whether a report begins at a position.
pub open spec fn opens_at(bytes: Seq<u8>, at: int) -> bool {
    &&& 0 <= at
    &&& at + 4 <= bytes.len()
    &&& bytes[at] == ESC
    &&& bytes[at + 1] == ']' as u8
    &&& bytes[at + 2] == '7' as u8
    &&& bytes[at + 3] == ';' as u8
}

/// Whether a report that began earlier ends at a position.
pub open spec fn closes_at(bytes: Seq<u8>, at: int) -> bool {
    &&& 0 <= at < bytes.len()
    &&& bytes[at] == BEL || (at + 1 < bytes.len() && bytes[at] == ESC && bytes[at + 1] == '\\' as u8)
}

/// The first position at or after `from` at which a report ends, or the length where there is none.
pub open spec fn next_close(bytes: Seq<u8>, from: int) -> int
    decreases bytes.len() - from,
{
    if from >= bytes.len() || closes_at(bytes, from) {
        from
    } else {
        next_close(bytes, from + 1)
    }
}

/// The end of a report lies behind its beginning.
pub proof fn lemma_next_close(bytes: Seq<u8>, from: int)
    requires
        0 <= from <= bytes.len(),
    ensures
        from <= next_close(bytes, from) <= bytes.len(),
    decreases bytes.len() - from,
{
    if from < bytes.len() && !closes_at(bytes, from) {
        lemma_next_close(bytes, from + 1);
    }
}

/// The payloads of the reports that begin at or after `from`, in order. What stands between the
/// beginning and the end of a report begins no other.
pub open spec fn payloads(bytes: Seq<u8>, from: int) -> Seq<Seq<u8>>
    decreases bytes.len() - from,
{
    if from < 0 || from + 4 >= bytes.len() {
        seq![]
    } else {
        let end = next_close(bytes, from + 4);
        if opens_at(bytes, from) && end < bytes.len() {
            proof {
                lemma_next_close(bytes, from + 4);
            }
            seq![bytes.subrange(from + 4, end)] + payloads(bytes, end + 1)
        } else {
            payloads(bytes, from + 1)
        }
    }
}

/// The path of the last payload that names one.
pub open spec fn last_path(urls: Seq<Seq<u8>>) -> Option<Seq<char>>
    decreases urls.len(),
{
    if urls.len() == 0 {
        None
    } else {
        match path_of_url(urls.last()) {
            Some(path) => Some(path),
            None => last_path(urls.drop_last()),
        }
    }
}

/// The path that a chunk of the shell's output last reports.
pub open spec fn last_report(bytes: Seq<u8>) -> Option<Seq<char>> {
    last_path(payloads(bytes, 0))
}

/// Finds the end of a report whose payload begins at `from`.
fn find_close(bytes: &[u8], from: usize) -> (end: Option<usize>)
    requires
        from <= bytes@.len(),
    ensures
        end matches Some(e) ==> e < bytes@.len() && next_close(bytes@, from as int) == e,
        end is None ==> next_close(bytes@, from as int) == bytes@.len(),
{
    let mut j: usize = from;
    while j < bytes.len()
        invariant
            from <= j <= bytes.len(),
            next_close(bytes@, from as int) == next_close(bytes@, j as int),
        decreases bytes.len() - j,
    {
        if bytes[j] == BEL {
            return Some(j);
        }
        if bytes.len() - j > 1 && bytes[j] == ESC && bytes[j + 1] == '\\' as u8 {
            return Some(j);
        }
        j += 1;
    }
    None
}

/// Finds the working directory that a chunk of the shell's output last reports.
pub fn last_osc7_path(bytes: &[u8]) -> (path: Option<String>)
    ensures
        path matches Some(p) ==> last_report(bytes@) == Some(p@),
        path is None ==> last_report(bytes@) is None,
{
    let mut out: Option<String> = None;
    let mut i: usize = 0;
    let ghost mut seen: Seq<Seq<u8>> = seq![];
    while bytes.len() - i > 4
        invariant
            i <= bytes.len(),
            payloads(bytes@, 0) == seen + payloads(bytes@, i as int),
            out matches Some(p) ==> last_path(seen) == Some(p@),
            out is None ==> last_path(seen) is None,
        decreases bytes.len() - i,
    {
        if bytes[i] == ESC && bytes[i + 1] == ']' as u8 && bytes[i + 2] == '7' as u8 && bytes[i + 3]
            == ';' as u8 {
            if let Some(end) = find_close(bytes, i + 4) {
                proof {
                    lemma_next_close(bytes@, i + 4);
                }
                let found = report_path(slice_subrange(bytes, i + 4, end));
                proof {
                    let url = bytes@.subrange(i + 4, end as int);
                    assert(seen.push(url).drop_last() == seen);
                    assert(seen + (seq![url] + payloads(bytes@, end + 1)) == seen.push(url) + payloads(
                        bytes@,
                        end + 1,
                    ));
                    seen = seen.push(url);
                }
                if found.is_some() {
                    out = found;
                }
                i = end + 1;
                continue;
            }
        }
        i += 1;
    }
    assert(seen + payloads(bytes@, i as int) == seen);
    out
}

/// A byte string in which nothing stands for another byte decodes to itself.
pub proof fn law_plain_bytes_decode_to_themselves(input: Seq<u8>)
    requires
        forall|i: int| 0 <= i < input.len() ==> !starts_escape(#[trigger] input.skip(i)),
    ensures
        percent_decoded(input) == input,
    decreases input.len(),
{
    if input.len() > 0 {
        assert(input.skip(0) == input);
        let rest = input.skip(1);
        assert forall|i: int| 0 <= i < rest.len() implies !starts_escape(#[trigger] rest.skip(i)) by {
            assert(rest.skip(i) == input.skip(i + 1));
        }
        law_plain_bytes_decode_to_themselves(rest);
        assert(seq![input[0]] + rest == input);
    }
}

/// The hexadecimal digit of a value below 16, in upper case.
pub open spec fn hex_digit(value: int) -> u8 {
    if value < 10 {
        ('0' as u8 + value) as u8
    } else {
        ('A' as u8 + (value - 10)) as u8
    }
}

/// A byte string with every byte written as `%` and two hexadecimal digits.
pub open spec fn percent_encoded(bytes: Seq<u8>) -> Seq<u8>
    decreases bytes.len(),
{
    if bytes.len() == 0 {
        seq![]
    } else {
        seq!['%' as u8, hex_digit(bytes[0] as int / 16), hex_digit(bytes[0] as int % 16)]
            + percent_encoded(bytes.skip(1))
    }
}

/// Decoding gives back every byte string that was encoded.
pub proof fn law_decode_undoes_encode(bytes: Seq<u8>)
    ensures
        percent_decoded(percent_encoded(bytes)) == bytes,
    decreases bytes.len(),
{
    if bytes.len() > 0 {
        let code = percent_encoded(bytes);
        law_decode_undoes_encode(bytes.skip(1));
        assert(code.skip(3) == percent_encoded(bytes.skip(1)));
        assert(starts_escape(code));
        assert(seq![bytes[0]] + bytes.skip(1) == bytes);
    }
}

/// Decoding never makes a byte string longer.
pub proof fn law_decode_never_grows(input: Seq<u8>)
    ensures
        percent_decoded(input).len() <= input.len(),
    decreases input.len(),
{
    if input.len() > 0 {
        if starts_escape(input) {
            law_decode_never_grows(input.skip(3));
        } else {
            law_decode_never_grows(input.skip(1));
        }
    }
}

/// A path that a payload names is absolute.
pub proof fn law_reported_path_is_absolute(url: Seq<u8>)
    ensures
        path_of_url(url) matches Some(path) ==> path.len() > 0 && path[0] == '/',
{
    if path_of_url(url) is Some {
        let slash = next_slash(url, 7);
        lemma_next_slash(url, 7);
        let decoded = percent_decoded(url.skip(slash));
        assert(decoded[0] == '/' as u8);
        let first = decoded[0];
        assert(first & 0x7f == first) by (bit_vector)
            requires
                first < 0x80,
        ;
        assert(decode_utf8(decoded)[0] == vstd::utf8::decode_first_scalar(decoded) as char);
    }
}

proof fn lemma_next_slash(url: Seq<u8>, from: int)
    requires
        0 <= from <= url.len(),
    ensures
        from <= next_slash(url, from) <= url.len(),
        next_slash(url, from) < url.len() ==> url[next_slash(url, from)] == '/' as u8,
    decreases url.len() - from,
{
    if from < url.len() && url[from] != '/' as u8 {
        lemma_next_slash(url, from + 1);
    }
}

proof fn lemma_next_slash_is(url: Seq<u8>, from: int, at: int)
    requires
        0 <= from <= at < url.len(),
        url[at] == '/' as u8,
        forall|i: int| from <= i < at ==> url[i] != '/' as u8,
    ensures
        next_slash(url, from) == at,
    decreases at - from,
{
    if from < at {
        lemma_next_slash_is(url, from + 1, at);
    }
}

proof fn lemma_next_close_is(bytes: Seq<u8>, from: int, at: int)
    requires
        0 <= from <= at < bytes.len(),
        closes_at(bytes, at),
        forall|i: int| from <= i < at ==> !closes_at(bytes, i),
    ensures
        next_close(bytes, from) == at,
    decreases at - from,
{
    if from < at {
        lemma_next_close_is(bytes, from + 1, at);
    }
}

/// Positions at which no report begins add no payload.
proof fn lemma_skip_to(bytes: Seq<u8>, from: int, to: int)
    requires
        0 <= from <= to <= bytes.len(),
        forall|i: int| from <= i < to ==> !opens_at(bytes, i),
    ensures
        payloads(bytes, from) == payloads(bytes, to),
    decreases to - from,
{
    if from < to {
        lemma_skip_to(bytes, from + 1, to);
    }
}

/// A chunk in which no report begins reports nothing.
pub proof fn law_no_report_no_path(bytes: Seq<u8>)
    requires
        forall|i: int| !opens_at(bytes, i),
    ensures
        last_report(bytes) is None,
{
    lemma_skip_to(bytes, 0, bytes.len() as int);
}

/// A report as the shell's prompt hook prints it: `ESC ] 7 ; file://`, the host, the path, `BEL`.
pub open spec fn hook_report(host: Seq<u8>, path: Seq<u8>) -> Seq<u8> {
    seq![ESC, ']' as u8, '7' as u8, ';' as u8] + FILE_SCHEME@ + host + path + seq![BEL]
}

/// What the prompt hook reports is what is read. The last report of a chunk gives its path,
/// decoded, whatever other output stands before and after it.
pub proof fn law_hook_report_is_read(before: Seq<u8>, host: Seq<u8>, path: Seq<u8>, after: Seq<u8>)
    requires
        valid_utf8(host),
        valid_utf8(path),
        valid_utf8(percent_decoded(path)),
        forall|i: int| 0 <= i < host.len() ==> host[i] != '/' as u8,
        path.len() > 0 && path[0] == '/' as u8,
        forall|i: int| !closes_at(host + path, i),
        ({
            let report = hook_report(host, path);
            let chunk = before + report + after;
            forall|i: int|
                i < before.len() || i >= before.len() + report.len() ==> !opens_at(chunk, i)
        }),
    ensures
        last_report(before + hook_report(host, path) + after) == Some(
            decode_utf8(percent_decoded(path)),
        ),
{
    let chunk = before + hook_report(host, path) + after;
    let at = before.len() as int;
    let url = FILE_SCHEME@ + host + path;
    let end = at + 4 + url.len();
    lemma_skip_to(chunk, 0, at);
    assert(opens_at(chunk, at));
    assert(chunk[end] == BEL);
    assert(chunk.subrange(at + 4, end) == url);
    assert forall|i: int| at + 4 <= i < end implies !closes_at(chunk, i) by {
        let k = i - (at + 4);
        assert(chunk[i] == url[k]);
        if k < 7 {
            assert(url[k] == FILE_SCHEME@[k]);
        } else {
            let m = k - 7;
            assert(!closes_at(host + path, m));
            assert((host + path)[m] == url[k]);
            if m + 1 < (host + path).len() {
                assert((host + path)[m + 1] == chunk[i + 1]);
            }
        }
    }
    lemma_next_close_is(chunk, at + 4, end);
    lemma_skip_to(chunk, end + 1, chunk.len() as int);
    assert(payloads(chunk, end + 1) == Seq::<Seq<u8>>::empty());
    assert(payloads(chunk, 0) == seq![url]);
    lemma_scheme_valid_utf8();
    vstd::utf8::valid_utf8_concat(FILE_SCHEME@, host);
    vstd::utf8::valid_utf8_concat(FILE_SCHEME@ + host, path);
    assert(url[7 + host.len() as int] == path[0]);
    lemma_next_slash_is(url, 7, 7 + host.len() as int);
    assert(url.skip(7 + host.len() as int) == path);
    assert(FILE_SCHEME@.is_prefix_of(url));
    assert(seq![url].last() == url);
}

proof fn lemma_scheme_valid_utf8()
    ensures
        valid_utf8(FILE_SCHEME@),
{
    let chars: Seq<char> = seq!['f', 'i', 'l', 'e', ':', '/', '/'];
    vstd::utf8::is_ascii_chars_encode_utf8(chars);
    assert(encode_utf8(chars) =~= FILE_SCHEME@);
    vstd::utf8::encode_utf8_valid_utf8(chars);
}

/// The working directory itself is read where its text holds no byte escape.
pub proof fn law_hook_report_of_plain_path(
    before: Seq<u8>,
    host: Seq<u8>,
    path: Seq<char>,
    after: Seq<u8>,
)
    requires
        valid_utf8(host),
        forall|i: int| 0 <= i < host.len() ==> host[i] != '/' as u8,
        path.len() > 0 && path[0] == '/',
        forall|i: int|
            0 <= i < encode_utf8(path).len() ==> !starts_escape(#[trigger] encode_utf8(path).skip(i)),
        forall|i: int| !closes_at(host + encode_utf8(path), i),
        ({
            let report = hook_report(host, encode_utf8(path));
            let chunk = before + report + after;
            forall|i: int|
                i < before.len() || i >= before.len() + report.len() ==> !opens_at(chunk, i)
        }),
    ensures
        last_report(before + hook_report(host, encode_utf8(path)) + after) == Some(path),
{
    let bytes = encode_utf8(path);
    vstd::utf8::encode_utf8_valid_utf8(path);
    vstd::utf8::encode_utf8_decode_utf8(path);
    law_plain_bytes_decode_to_themselves(bytes);
    assert(bytes[0] == '/' as u8) by {
        vstd::utf8::encode_utf8_first_scalar(path);
        assert(0x2fu32 & 0x7f == 0x2f) by (bit_vector);
    }
    law_hook_report_is_read(before, host, bytes, after);
}

/// Decoding goes on behind every escape: a byte string that is cut where no escape is cut in two
/// decodes to what its two parts decode to.
pub proof fn law_parts_decode_by_themselves(a: Seq<u8>, b: Seq<u8>)
    requires
        forall|i: int|
            #![trigger (a + b)[i]]
            0 <= i < a.len() <= i + 2 < a.len() + b.len() ==> !((a + b)[i] == '%' as u8
                && is_hex_digit((a + b)[i + 1]) && is_hex_digit((a + b)[i + 2])),
    ensures
        percent_decoded(a + b) == percent_decoded(a) + percent_decoded(b),
    decreases a.len(),
{
    let all = a + b;
    if a.len() == 0 {
        assert(all == b);
        assert(percent_decoded(a) + percent_decoded(b) == percent_decoded(b));
    } else {
        assert(all[0] == a[0]);
        if a.len() >= 3 {
            assert(all[1] == a[1] && all[2] == a[2]);
        }
        let n: int = if starts_escape(a) {
            3
        } else {
            1
        };
        if !starts_escape(a) && starts_escape(all) {
            assert(a.len() < 3);
            let i: int = 0;
            assert(all[i] == '%' as u8);
            assert(is_hex_digit(all[i + 1]) && is_hex_digit(all[i + 2]));
        }
        let rest = a.skip(n);
        assert(all.skip(n) =~= rest + b);
        assert forall|i: int|
            #![trigger (rest + b)[i]]
            0 <= i < rest.len() <= i + 2 < rest.len() + b.len() implies !((rest + b)[i]
            == '%' as u8 && is_hex_digit((rest + b)[i + 1]) && is_hex_digit((rest + b)[i + 2])) by {
            assert(all[i + n] == (rest + b)[i]);
            assert(all[i + n + 1] == (rest + b)[i + 1]);
            assert(all[i + n + 2] == (rest + b)[i + 2]);
        }
        law_parts_decode_by_themselves(rest, b);
        assert(percent_decoded(all) =~= percent_decoded(a) + percent_decoded(b));
    }
}

/// Whether a byte is one of the digits from `0` to `9`, `a` to `f` and `A` to `F`.
pub open spec fn is_hex_digit(b: u8) -> bool {
    0x30 <= b <= 0x39 || 0x61 <= b <= 0x66 || 0x41 <= b <= 0x46
}

/// The digits have the values from 0 to 15, in both cases, and no other byte is a digit.
pub proof fn law_values_of_digits(b: u8)
    ensures
        hex_value(b) is Some <==> is_hex_digit(b),
        0x30 <= b <= 0x39 ==> hex_value(b)->0 == b - 0x30,
        0x61 <= b <= 0x66 ==> hex_value(b)->0 == 10 + (b - 0x61),
        0x41 <= b <= 0x46 ==> hex_value(b)->0 == 10 + (b - 0x41),
{
}

/// A byte string in which some bytes are written as `%` and two hexadecimal digits, of which each
/// may be in either case, and the others as they are.
pub open spec fn partly_encoded(bytes: Seq<u8>, escaped: Seq<bool>, upper: Seq<(bool, bool)>) -> Seq<
    u8,
>
    decreases bytes.len(),
{
    if bytes.len() == 0 {
        seq![]
    } else {
        let (b, rest) = (bytes[0], partly_encoded(bytes.skip(1), escaped.skip(1), upper.skip(1)));
        if escaped[0] {
            seq![
                0x25u8,
                cased_digit(b as int / 16, upper[0].0),
                cased_digit(b as int % 16, upper[0].1),
            ] + rest
        } else {
            seq![b] + rest
        }
    }
}

/// The hexadecimal digit of a value below 16, in a given case.
pub open spec fn cased_digit(value: int, upper: bool) -> u8 {
    (if value < 10 {
        0x30 + value
    } else if upper {
        0x41 + (value - 10)
    } else {
        0x61 + (value - 10)
    }) as u8
}

/// Decoding gives back every byte string of which any bytes, and among them every `%`, were
/// written as escapes.
pub proof fn law_decode_undoes_partial_encode(
    bytes: Seq<u8>,
    escaped: Seq<bool>,
    upper: Seq<(bool, bool)>,
)
    requires
        escaped.len() == bytes.len(),
        upper.len() == bytes.len(),
        forall|i: int| 0 <= i < bytes.len() && #[trigger] bytes[i] == 0x25 ==> escaped[i],
    ensures
        percent_decoded(partly_encoded(bytes, escaped, upper)) == bytes,
    decreases bytes.len(),
{
    if bytes.len() > 0 {
        let code = partly_encoded(bytes, escaped, upper);
        let later = bytes.skip(1);
        assert forall|i: int| 0 <= i < later.len() && #[trigger] later[i] == 0x25 implies escaped.skip(
            1,
        )[i] by {
            assert(bytes[i + 1] == 0x25);
        }
        law_decode_undoes_partial_encode(later, escaped.skip(1), upper.skip(1));
        let rest = partly_encoded(later, escaped.skip(1), upper.skip(1));
        if escaped[0] {
            assert(starts_escape(code));
            assert(code.skip(3) =~= rest);
        } else {
            assert(bytes[0] != 0x25);
            assert(!starts_escape(code));
            assert(code.skip(1) =~= rest);
        }
        assert(seq![bytes[0]] + later =~= bytes);
    }
}

/// The bytes of `file://`.
proof fn lemma_scheme_bytes()
    ensures
        FILE_SCHEME@ == seq![0x66u8, 0x69u8, 0x6cu8, 0x65u8, 0x3au8, 0x2fu8, 0x2fu8],
{
}

/// A `file://` URL names what stands behind its host, decoded, where both are valid UTF-8.
pub proof fn law_url_names_what_follows_the_host(host: Seq<u8>, path: Seq<u8>)
    requires
        forall|i: int| 0 <= i < host.len() ==> host[i] != 0x2f,
        path.len() > 0 && path[0] == 0x2f,
    ensures
        ({
            let url = seq![0x66u8, 0x69u8, 0x6cu8, 0x65u8, 0x3au8, 0x2fu8, 0x2fu8] + host + path;
            path_of_url(url) == if valid_utf8(url) && valid_utf8(percent_decoded(path)) {
                Some(decode_utf8(percent_decoded(path)))
            } else {
                None
            }
        }),
{
    lemma_scheme_bytes();
    let url = FILE_SCHEME@ + host + path;
    let at = 7 + host.len() as int;
    assert(url[at] == path[0]);
    lemma_next_slash_is(url, 7, at);
    assert(url.skip(at) =~= path);
    assert(FILE_SCHEME@.is_prefix_of(url));
}

/// Only a URL of that form names a path.
pub proof fn law_only_file_urls_name_a_path(url: Seq<u8>)
    requires
        path_of_url(url) is Some,
    ensures
        valid_utf8(url),
        url.len() > 7,
        url.take(7) == seq![0x66u8, 0x69u8, 0x6cu8, 0x65u8, 0x3au8, 0x2fu8, 0x2fu8],
        exists|at: int| 7 <= at < url.len() && #[trigger] url[at] == 0x2f,
{
    lemma_scheme_bytes();
    lemma_next_slash(url, 7);
    assert forall|i: int| 0 <= i < 7 implies url[i] == FILE_SCHEME@[i] by {
        assert(url.subrange(0, 7)[i] == FILE_SCHEME@[i]);
    }
    assert(url.take(7) =~= FILE_SCHEME@);
    assert(url[next_slash(url, 7)] == 0x2f);
}

/// A report begins with `ESC ] 7 ;` and nothing else, and ends at a `BEL` or an `ESC \\` and nothing
/// else.
pub proof fn law_beginning_and_end_of_a_report(bytes: Seq<u8>, at: int)
    requires
        0 <= at < bytes.len(),
    ensures
        opens_at(bytes, at) <==> at + 4 <= bytes.len() && bytes.subrange(at, at + 4) == seq![
            0x1bu8,
            0x5du8,
            0x37u8,
            0x3bu8,
        ],
        closes_at(bytes, at) <==> bytes[at] == 0x07 || (at + 2 <= bytes.len() && bytes.subrange(
            at,
            at + 2,
        ) == seq![0x1bu8, 0x5cu8]),
{
    if at + 4 <= bytes.len() {
        let four = bytes.subrange(at, at + 4);
        let want = seq![0x1bu8, 0x5du8, 0x37u8, 0x3bu8];
        if opens_at(bytes, at) {
            assert(four =~= want);
        }
        if four == want {
            assert(four[0] == want[0] && four[1] == want[1] && four[2] == want[2] && four[3]
                == want[3]);
        }
    }
    if at + 2 <= bytes.len() {
        let two = bytes.subrange(at, at + 2);
        let want = seq![0x1bu8, 0x5cu8];
        if bytes[at] == ESC && bytes[at + 1] == '\\' as u8 {
            assert(two =~= want);
        }
        if two == want {
            assert(two[0] == want[0] && two[1] == want[1]);
        }
    }
}

/// Reports that end before a position count by themselves, whatever follows.
proof fn lemma_payloads_concat(before: Seq<u8>, rest: Seq<u8>, from: int)
    requires
        0 <= from <= before.len(),
        forall|i: int|
            from <= i < before.len() && #[trigger] opens_at(before + rest, i) ==> exists|j: int|
                i + 4 <= j < before.len() && closes_at(before, j),
    ensures
        payloads(before + rest, from) == payloads(before, from) + payloads(
            before + rest,
            before.len() as int,
        ),
    decreases before.len() - from,
{
    let all = before + rest;
    if from == before.len() {
        assert(payloads(before, from) == Seq::<Seq<u8>>::empty());
        assert(payloads(before, from) + payloads(all, from) == payloads(all, from));
    } else if opens_at(all, from) {
        let j = choose|j: int| from + 4 <= j < before.len() && closes_at(before, j);
        lemma_next_close_bound(before, from + 4, j);
        let end = next_close(before, from + 4);
        lemma_next_close(before, from + 4);
        lemma_next_close_ends(before, from + 4);
        assert forall|i: int| from + 4 <= i < end implies !closes_at(all, i) by {
            lemma_none_closes_before(before, from + 4, i);
        }
        assert(closes_at(all, end));
        lemma_next_close_is(all, from + 4, end);
        assert(opens_at(before, from));
        assert(all.subrange(from + 4, end) =~= before.subrange(from + 4, end));
        lemma_payloads_concat(before, rest, end + 1);
        let head = seq![before.subrange(from + 4, end)];
        let tail = payloads(all, before.len() as int);
        assert(head + (payloads(before, end + 1) + tail) =~= (head + payloads(before, end + 1))
            + tail);
    } else {
        assert(!opens_at(before, from)) by {
            if opens_at(before, from) {
                assert(opens_at(all, from));
            }
        }
        lemma_payloads_concat(before, rest, from + 1);
        assert(payloads(all, from) == payloads(all, from + 1)) by {
            if from + 4 >= all.len() {
                assert(payloads(all, from + 1) == Seq::<Seq<u8>>::empty());
            }
        }
        assert(payloads(before, from) == payloads(before, from + 1)) by {
            if from + 4 >= before.len() {
                assert(payloads(before, from + 1) == Seq::<Seq<u8>>::empty());
            }
        }
    }
}

proof fn lemma_next_close_bound(bytes: Seq<u8>, from: int, at: int)
    requires
        0 <= from <= at < bytes.len(),
        closes_at(bytes, at),
    ensures
        next_close(bytes, from) <= at,
    decreases at - from,
{
    if !closes_at(bytes, from) {
        lemma_next_close_bound(bytes, from + 1, at);
    }
}

proof fn lemma_next_close_ends(bytes: Seq<u8>, from: int)
    requires
        0 <= from <= bytes.len(),
        next_close(bytes, from) < bytes.len(),
    ensures
        closes_at(bytes, next_close(bytes, from)),
    decreases bytes.len() - from,
{
    if from < bytes.len() && !closes_at(bytes, from) {
        lemma_next_close_ends(bytes, from + 1);
    }
}

proof fn lemma_none_closes_before(bytes: Seq<u8>, from: int, at: int)
    requires
        0 <= from <= at < next_close(bytes, from),
        at < bytes.len(),
    ensures
        !closes_at(bytes, at),
    decreases at - from,
{
    if from < at {
        lemma_none_closes_before(bytes, from + 1, at);
    }
}

/// Reports that never end add no payload.
proof fn lemma_open_reports_add_nothing(bytes: Seq<u8>, from: int)
    requires
        0 <= from <= bytes.len(),
        forall|i: int, j: int|
            from <= i && #[trigger] opens_at(bytes, i) && i + 4 <= j ==> !#[trigger] closes_at(
                bytes,
                j,
            ),
    ensures
        payloads(bytes, from) == Seq::<Seq<u8>>::empty(),
    decreases bytes.len() - from,
{
    if from + 4 < bytes.len() {
        if opens_at(bytes, from) {
            lemma_next_close(bytes, from + 4);
            if next_close(bytes, from + 4) < bytes.len() {
                lemma_next_close_ends(bytes, from + 4);
            }
        }
        lemma_open_reports_add_nothing(bytes, from + 1);
    }
}

/// The last report of a chunk decides: the chunk reports the path that its payload names, and where
/// it names none, what was reported before. Earlier reports must have ended, output behind it must
/// hold no report that ends, and the payload must not hold the end of a report.
pub proof fn law_last_report_decides(
    before: Seq<u8>,
    url: Seq<u8>,
    end: Seq<u8>,
    after: Seq<u8>,
)
    requires
        end == seq![0x07u8] || end == seq![0x1bu8, 0x5cu8],
        ({
            let report = seq![0x1bu8, 0x5du8, 0x37u8, 0x3bu8] + url + end;
            let chunk = before + report + after;
            let stop = before.len() + 4 + url.len();
            &&& forall|i: int|
                0 <= i < before.len() && #[trigger] opens_at(chunk, i) ==> exists|j: int|
                    i + 4 <= j < before.len() && closes_at(before, j)
            &&& forall|i: int| before.len() + 4 <= i < stop ==> !#[trigger] closes_at(chunk, i)
            &&& forall|i: int, j: int|
                stop < i && #[trigger] opens_at(chunk, i) && i + 4 <= j ==> !#[trigger] closes_at(
                    chunk,
                    j,
                )
        }),
    ensures
        ({
            let report = seq![0x1bu8, 0x5du8, 0x37u8, 0x3bu8] + url + end;
            last_report(before + report + after) == match path_of_url(url) {
                Some(path) => Some(path),
                None => last_report(before),
            }
        }),
{
    let report = seq![0x1bu8, 0x5du8, 0x37u8, 0x3bu8] + url + end;
    let chunk = before + report + after;
    let rest = report + after;
    let at = before.len() as int;
    let stop = at + 4 + url.len();
    assert(chunk =~= before + rest);
    lemma_payloads_concat(before, rest, 0);
    assert(opens_at(chunk, at));
    assert(chunk[stop] == end[0]);
    if end.len() == 2 {
        assert(chunk[stop + 1] == end[1]);
    }
    assert(closes_at(chunk, stop));
    lemma_next_close_is(chunk, at + 4, stop);
    assert(chunk.subrange(at + 4, stop) =~= url);
    lemma_open_reports_add_nothing(chunk, stop + 1);
    let earlier = payloads(before, 0);
    assert(payloads(chunk, at) =~= seq![url]);
    assert(payloads(chunk, 0) =~= earlier.push(url));
    assert(earlier.push(url).drop_last() =~= earlier);
}

/// A chunk in which no report comes to its end reports nothing.
pub proof fn law_unfinished_reports_name_nothing(bytes: Seq<u8>)
    requires
        forall|i: int, j: int|
            #[trigger] opens_at(bytes, i) && i + 4 <= j ==> !#[trigger] closes_at(bytes, j),
    ensures
        last_report(bytes) is None,
{
    lemma_open_reports_add_nothing(bytes, 0);
}

} // verus!
