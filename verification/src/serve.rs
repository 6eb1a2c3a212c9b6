//! The request-facing rules of the server: URL decoding and normalising,
//! percent-encoding, content types, entity tags and conditional requests,
//! headed-environment detection and the directory listing policy.

use crate::paths::{
    component_is_normal, components, is_normal, path_components, strip_components, stripped,
};
use crate::text::{
    chars_are, chars_eq, chars_of, is_white_space_char, join_chars, join_with, lower_hex,
    lowercase_of, push_lower_hex, split_chars, split_on, trim_chars, trimmed, views_of,
};
use vstd::prelude::*;
use vstd::string::*;
use vstd::utf8::*;

verus! {

/// The largest file that is read and served: 16 MiB.
pub const MAX_FILE_SIZE: u64 = 16 * 1024 * 1024;

/// The most consecutive ports that a bind is tried on.
pub const MAX_PORT_ATTEMPTS: u16 = 100;

// ---------------------------------------------------------------------------
// Percent-decoding
// ---------------------------------------------------------------------------

/// The value of an ASCII hexadecimal digit, in either case.
pub open spec fn hex_value(b: u8) -> Option<u8> {
    if 0x30 <= b <= 0x39 {
        Some((b - 0x30) as u8)
    } else if 0x61 <= b <= 0x66 {
        Some((b - 0x61 + 10) as u8)
    } else if 0x41 <= b <= 0x46 {
        Some((b - 0x41 + 10) as u8)
    } else {
        None
    }
}

/// The bytes that a percent-encoded byte string stands for: `%XY` becomes the
/// byte with hexadecimal digits `X` and `Y`, every other byte stands for
/// itself. `None` where a `%` is not followed by two hexadecimal digits.
pub open spec fn percent_decoded(b: Seq<u8>) -> Option<Seq<u8>>
    decreases b.len(),
{
    if b.len() == 0 {
        Some(Seq::<u8>::empty())
    } else if b[0] == 0x25 {
        if b.len() < 3 {
            None
        } else {
            match (hex_value(b[1]), hex_value(b[2]), percent_decoded(b.skip(3))) {
                (Some(hi), Some(lo), Some(rest)) => Some(seq![(hi * 16 + lo) as u8] + rest),
                _ => None,
            }
        }
    } else {
        match percent_decoded(b.skip(1)) {
            Some(rest) => Some(seq![b[0]] + rest),
            None => None,
        }
    }
}

/// The text that a percent-encoded URL path stands for, where it stands for
/// one: the decoded bytes, read as UTF-8.
pub open spec fn percent_decoded_text(encoded: Seq<char>) -> Option<Seq<char>> {
    match percent_decoded(encode_utf8(encoded)) {
        Some(bytes) => if valid_utf8(bytes) {
            Some(decode_utf8(bytes))
        } else {
            None
        },
        None => None,
    }
}

/// `String::from_utf8` succeeds exactly on valid UTF-8, and then gives the
/// text that the bytes encode.
#[verifier::external_body]
fn string_from_utf8(bytes: Vec<u8>) -> (r: Option<String>)
    ensures
        r is Some <==> valid_utf8(bytes@),
        r matches Some(s) ==> s@ == decode_utf8(bytes@),
{
    match String::from_utf8(bytes) {
        Ok(s) => Some(s),
        Err(_) => None,
    }
}

/// The value of one hexadecimal digit, or an error for any other byte.
pub fn hex_digit(b: u8) -> (r: Result<u8, ()>)
    ensures
        r is Ok <==> hex_value(b) is Some,
        r matches Ok(v) ==> hex_value(b) == Some(v) && v < 16,
{
    if 0x30 <= b && b <= 0x39 {
        Ok(b - 0x30)
    } else if 0x61 <= b && b <= 0x66 {
        Ok(b - 0x61 + 10)
    } else if 0x41 <= b && b <= 0x46 {
        Ok(b - 0x41 + 10)
    } else {
        Err(())
    }
}

/// Percent-decodes a URL path byte by byte. Fails on a `%` that is not
/// followed by two hexadecimal digits and on decoded bytes that are not UTF-8.
pub fn percent_decode(encoded: &str) -> (r: Result<String, ()>)
    ensures
        r is Ok <==> percent_decoded_text(encoded@) is Some,
        r matches Ok(s) ==> Some(s@) == percent_decoded_text(encoded@),
{
    let bytes = encoded.as_bytes();
    let mut out: Vec<u8> = Vec::new();
    let mut i: usize = 0;
    let ghost all = bytes@;
    proof {
        assert(all.skip(0) == all);
        assert forall|rest: Seq<u8>| out@ + rest == rest by {
            assert(out@ + rest =~= rest);
        }
    }
    while i < bytes.len()
        invariant
            i <= bytes.len(),
            all == bytes@,
            all == encode_utf8(encoded@),
            percent_decoded(all) == match percent_decoded(all.skip(i as int)) {
                Some(rest) => Some(out@ + rest),
                None => None,
            },
        decreases bytes.len() - i,
    {
        let ghost tail = all.skip(i as int);
        let ghost prev = out@;
        assert(tail[0] == all[i as int]);
        if bytes[i] == 0x25 {
            if bytes.len() - i < 3 {
                return Err(());
            }
            assert(tail[1] == all[i + 1] && tail[2] == all[i + 2]);
            let hi = match hex_digit(bytes[i + 1]) {
                Ok(v) => v,
                Err(_) => {
                    return Err(());
                },
            };
            let lo = match hex_digit(bytes[i + 2]) {
                Ok(v) => v,
                Err(_) => {
                    return Err(());
                },
            };
            out.push(hi * 16 + lo);
            i += 3;
            proof {
                assert(tail.skip(3) == all.skip(i as int));
                assert forall|rest: Seq<u8>| prev + (seq![(hi * 16 + lo) as u8] + rest) == out@
                    + rest by {
                    assert(prev + (seq![(hi * 16 + lo) as u8] + rest) =~= out@ + rest);
                }
            }
        } else {
            out.push(bytes[i]);
            i += 1;
            proof {
                assert(tail.skip(1) == all.skip(i as int));
                assert forall|rest: Seq<u8>| prev + (seq![tail[0]] + rest) == out@ + rest by {
                    assert(prev + (seq![tail[0]] + rest) =~= out@ + rest);
                }
            }
        }
    }
    proof {
        assert(all.skip(i as int).len() == 0);
        assert(out@ + Seq::<u8>::empty() == out@);
    }
    match string_from_utf8(out) {
        Some(s) => Ok(s),
        None => Err(()),
    }
}


// ---------------------------------------------------------------------------
// URL path normalising
// ---------------------------------------------------------------------------

/// The stack of names left after walking `segs` from the left: an empty piece
/// and `.` change nothing, `..` removes the last name, any other piece is
/// added. `None` as soon as `..` meets an empty stack.
pub open spec fn normalized_segments(segs: Seq<Seq<char>>) -> Option<Seq<Seq<char>>>
    decreases segs.len(),
{
    if segs.len() == 0 {
        Some(Seq::<Seq<char>>::empty())
    } else {
        match normalized_segments(segs.drop_last()) {
            None => None,
            Some(stack) => {
                let s = segs.last();
                if s.len() == 0 || s == seq!['.'] {
                    Some(stack)
                } else if s == seq!['.', '.'] {
                    if stack.len() == 0 {
                        None
                    } else {
                        Some(stack.drop_last())
                    }
                } else {
                    Some(stack.push(s))
                }
            },
        }
    }
}

/// The relative logical path of a decoded URL path: its normalised names
/// joined by `/`. `None` where the path climbs above the root.
pub open spec fn normalized_path(decoded: Seq<char>) -> Option<Seq<char>> {
    match normalized_segments(split_on(decoded, '/')) {
        Some(stack) => Some(join_with(stack, '/')),
        None => None,
    }
}

/// Normalises a decoded URL path. The result has no leading slash; the root
/// `/` gives the empty path. `None` signals an attempt to climb above the root.
pub fn normalize_path(decoded: &str) -> (r: Option<String>)
    ensures
        r is Some <==> normalized_path(decoded@) is Some,
        r matches Some(p) ==> Some(p@) == normalized_path(decoded@),
{
    let cs = chars_of(decoded);
    let segs = split_chars(&cs, '/');
    let mut stack: Vec<Vec<char>> = Vec::new();
    let mut i: usize = 0;
    proof {
        assert(views_of(segs@).take(0) =~= Seq::<Seq<char>>::empty());
        assert(views_of(stack@) =~= Seq::<Seq<char>>::empty());
    }
    while i < segs.len()
        invariant
            i <= segs.len(),
            views_of(segs@) == split_on(decoded@, '/'),
            normalized_segments(views_of(segs@).take(i as int)) == Some(views_of(stack@)),
        decreases segs.len() - i,
    {
        let ghost all = views_of(segs@);
        let ghost before = views_of(stack@);
        proof {
            assert(all.take(i + 1).drop_last() == all.take(i as int));
            assert(all.take(i + 1).last() == segs@[i as int]@);
        }
        let seg = &segs[i];
        let is_dot = seg.len() == 1 && seg[0] == '.';
        let is_dotdot = seg.len() == 2 && seg[0] == '.' && seg[1] == '.';
        proof {
            if is_dot {
                assert(seg@ =~= seq!['.']);
            }
            if is_dotdot {
                assert(seg@ =~= seq!['.', '.']);
            }
        }
        if seg.len() == 0 || is_dot {
        } else if is_dotdot {
            if stack.len() == 0 {
                proof {
                    lemma_normalized_none_extends(all, i + 1);
                }
                return None;
            }
            stack.pop();
            proof {
                assert(views_of(stack@) =~= before.drop_last());
            }
        } else {
            stack.push(seg.clone());
            proof {
                assert(views_of(stack@) =~= before.push(seg@));
            }
        }
        i += 1;
    }
    proof {
        assert(views_of(segs@).take(segs.len() as int) == views_of(segs@));
    }
    Some(join_chars(&stack, '/'))
}

/// Once a prefix of the pieces has climbed above the root, so has the whole.
proof fn lemma_normalized_none_extends(segs: Seq<Seq<char>>, n: int)
    requires
        0 <= n <= segs.len(),
        normalized_segments(segs.take(n)) is None,
    ensures
        normalized_segments(segs) is None,
    decreases segs.len() - n,
{
    if n < segs.len() {
        assert(segs.take(n + 1).drop_last() == segs.take(n));
        lemma_normalized_none_extends(segs, n + 1);
    } else {
        assert(segs.take(n) == segs);
    }
}

// ---------------------------------------------------------------------------
// Content types
// ---------------------------------------------------------------------------

/// The content type for a lower-case file extension. Anything not in the
/// table is `application/octet-stream`, so that no browser sniffs it.
pub open spec fn mime_of(ext: Seq<char>) -> Seq<char> {
    if ext == "md"@ || ext == "html"@ || ext == "htm"@ {
        "text/html; charset=utf-8"@
    } else if ext == "css"@ {
        "text/css"@
    } else if ext == "js"@ {
        "text/javascript"@
    } else if ext == "png"@ {
        "image/png"@
    } else if ext == "jpg"@ || ext == "jpeg"@ {
        "image/jpeg"@
    } else if ext == "svg"@ {
        "image/svg+xml"@
    } else if ext == "gif"@ {
        "image/gif"@
    } else if ext == "ico"@ {
        "image/x-icon"@
    } else if ext == "woff2"@ {
        "font/woff2"@
    } else if ext == "pdf"@ {
        "application/pdf"@
    } else {
        "application/octet-stream"@
    }
}

/// The content type for an extension that is already in lower case.
pub fn mime_for_lowercase_ext(ext: &str) -> (r: &'static str)
    ensures
        r@ == mime_of(ext@),
{
    let e = chars_of(ext);
    if chars_are(&e, "md") || chars_are(&e, "html") || chars_are(&e, "htm") {
        "text/html; charset=utf-8"
    } else if chars_are(&e, "css") {
        "text/css"
    } else if chars_are(&e, "js") {
        "text/javascript"
    } else if chars_are(&e, "png") {
        "image/png"
    } else if chars_are(&e, "jpg") || chars_are(&e, "jpeg") {
        "image/jpeg"
    } else if chars_are(&e, "svg") {
        "image/svg+xml"
    } else if chars_are(&e, "gif") {
        "image/gif"
    } else if chars_are(&e, "ico") {
        "image/x-icon"
    } else if chars_are(&e, "woff2") {
        "font/woff2"
    } else if chars_are(&e, "pdf") {
        "application/pdf"
    } else {
        "application/octet-stream"
    }
}

/// The content type for a file extension, whatever its case.
pub fn mime_for_ext(ext: &str) -> (r: &'static str)
    ensures
        r@ == mime_of(lowercase_of(ext@)),
{
    let lower = ext.to_lowercase();
    mime_for_lowercase_ext(lower.as_str())
}

// ---------------------------------------------------------------------------
// Percent-encoding
// ---------------------------------------------------------------------------

/// The bytes that stand for themselves in a URL path segment: ASCII letters
/// and digits, `-`, `_`, `.` and `~`.
pub open spec fn is_unreserved(b: u8) -> bool {
    (0x30 <= b <= 0x39) || (0x41 <= b <= 0x5a) || (0x61 <= b <= 0x7a) || b == 0x2d || b == 0x5f
        || b == 0x2e || b == 0x7e
}

/// The upper-case hexadecimal digit for a value below sixteen, as a byte.
pub open spec fn upper_hex(d: int) -> u8 {
    if d < 10 {
        (0x30 + d) as u8
    } else {
        (0x41 + d - 10) as u8
    }
}

/// One byte, percent-encoded: itself where unreserved, else `%` and two
/// upper-case hexadecimal digits.
pub open spec fn encoded_byte(b: u8) -> Seq<u8> {
    if is_unreserved(b) {
        seq![b]
    } else {
        seq![0x25u8, upper_hex(b as int / 16), upper_hex(b as int % 16)]
    }
}

/// A byte string, percent-encoded byte by byte.
pub open spec fn percent_encoded(bytes: Seq<u8>) -> Seq<u8>
    decreases bytes.len(),
{
    if bytes.len() == 0 {
        Seq::<u8>::empty()
    } else {
        encoded_byte(bytes[0]) + percent_encoded(bytes.skip(1))
    }
}

/// The percent-encoding of a text, as text.
pub open spec fn percent_encoded_text(s: Seq<char>) -> Seq<char> {
    ascii_text(percent_encoded(encode_utf8(s)))
}

/// ASCII bytes read as characters.
pub open spec fn ascii_text(bytes: Seq<u8>) -> Seq<char> {
    Seq::new(bytes.len(), |i: int| bytes[i] as char)
}

/// Encoding a byte string in pieces gives the pieces' encodings in a row.
pub proof fn lemma_percent_encoded_push(bytes: Seq<u8>, b: u8)
    ensures
        percent_encoded(bytes.push(b)) == percent_encoded(bytes) + encoded_byte(b),
    decreases bytes.len(),
{
    if bytes.len() == 0 {
        assert(bytes.push(b).skip(1) =~= Seq::<u8>::empty());
        assert(bytes.push(b)[0] == b);
        assert(percent_encoded(bytes.push(b).skip(1)) =~= Seq::<u8>::empty());
        assert(percent_encoded(bytes.push(b)) =~= encoded_byte(b) + Seq::<u8>::empty());
        assert(percent_encoded(bytes) + encoded_byte(b) =~= encoded_byte(b));
        assert(encoded_byte(b) + Seq::<u8>::empty() =~= encoded_byte(b));
    } else {
        assert(bytes.push(b).skip(1) =~= bytes.skip(1).push(b));
        lemma_percent_encoded_push(bytes.skip(1), b);
        assert(encoded_byte(bytes[0]) + (percent_encoded(bytes.skip(1)) + encoded_byte(b))
            =~= (encoded_byte(bytes[0]) + percent_encoded(bytes.skip(1))) + encoded_byte(b));
    }
}

fn upper_hex_digit(d: u8) -> (r: u8)
    requires
        d < 16,
    ensures
        r == upper_hex(d as int),
        r < 128,
{
    if d < 10 {
        0x30 + d
    } else {
        0x41 + d - 10
    }
}

/// Percent-encodes one URL path segment. Every byte outside the unreserved
/// set becomes `%XX` in upper-case hexadecimal; a multi-byte character is
/// encoded byte by byte.
pub fn percent_encode_segment(s: &str) -> (out: String)
    ensures
        out@ == percent_encoded_text(s@),
{
    let bytes = s.as_bytes();
    let mut out = String::new();
    let mut i: usize = 0;
    proof {
        assert(bytes@.take(0) =~= Seq::<u8>::empty());
        assert(out@ =~= ascii_text(percent_encoded(bytes@.take(0))));
    }
    while i < bytes.len()
        invariant
            i <= bytes.len(),
            bytes@ == encode_utf8(s@),
            out@ == ascii_text(percent_encoded(bytes@.take(i as int))),
        decreases bytes.len() - i,
    {
        let b = bytes[i];
        proof {
            lemma_percent_encoded_push(bytes@.take(i as int), b);
            assert(bytes@.take(i + 1) =~= bytes@.take(i as int).push(b));
        }
        let unreserved = (0x30 <= b && b <= 0x39) || (0x41 <= b && b <= 0x5a) || (0x61 <= b && b
            <= 0x7a) || b == 0x2d || b == 0x5f || b == 0x2e || b == 0x7e;
        if unreserved {
            out.push(b as char);
            proof {
                assert(out@ =~= ascii_text(percent_encoded(bytes@.take(i as int)) + seq![b]));
            }
        } else {
            let hi = upper_hex_digit(b / 16);
            let lo = upper_hex_digit(b % 16);
            out.push('%');
            out.push(hi as char);
            out.push(lo as char);
            proof {
                assert(0x25u8 as char == '%');
                assert(out@ =~= ascii_text(
                    percent_encoded(bytes@.take(i as int)) + seq![0x25u8, hi, lo],
                ));
            }
        }
        i += 1;
    }
    proof {
        assert(bytes@.take(bytes.len() as int) == bytes@);
    }
    out
}

/// Every byte of a percent-encoding is ASCII.
pub proof fn lemma_percent_encoded_is_ascii(bytes: Seq<u8>)
    ensures
        forall|i: int|
            0 <= i < percent_encoded(bytes).len() ==> (#[trigger] percent_encoded(bytes)[i]) < 128,
    decreases bytes.len(),
{
    if bytes.len() > 0 {
        lemma_percent_encoded_is_ascii(bytes.skip(1));
        let head = encoded_byte(bytes[0]);
        let tail = percent_encoded(bytes.skip(1));
        assert forall|i: int| 0 <= i < (head + tail).len() implies (#[trigger] (head + tail)[i])
            < 128 by {
            if i >= head.len() {
                assert((head + tail)[i] == tail[i - head.len()]);
            }
        }
    }
}

/// ASCII bytes, read as text and encoded as UTF-8, are the same bytes again.
pub proof fn lemma_ascii_text_bytes(bytes: Seq<u8>)
    requires
        forall|i: int| 0 <= i < bytes.len() ==> (#[trigger] bytes[i]) < 128,
    ensures
        encode_utf8(ascii_text(bytes)) == bytes,
{
    let chars = ascii_text(bytes);
    assert(is_ascii_chars(chars)) by {
        assert forall|i: int| 0 <= i < chars.len() implies '\0' <= #[trigger] chars[i]
            <= '\u{7f}' by {
            assert(bytes[i] < 128);
        }
    }
    is_ascii_chars_encode_utf8(chars);
    assert(encode_utf8(chars) =~= bytes) by {
        assert forall|i: int| 0 <= i < bytes.len() implies encode_utf8(chars)[i] == bytes[i] by {
            assert(chars[i] as u8 == encode_utf8(chars)[i]);
            assert(bytes[i] < 128);
        }
    }
}

/// Decoding undoes encoding, byte string for byte string.
pub proof fn lemma_decode_undoes_encode(bytes: Seq<u8>)
    ensures
        percent_decoded(percent_encoded(bytes)) == Some(bytes),
    decreases bytes.len(),
{
    if bytes.len() > 0 {
        let b = bytes[0];
        let rest = bytes.skip(1);
        lemma_decode_undoes_encode(rest);
        let tail = percent_encoded(rest);
        let all = percent_encoded(bytes);
        if is_unreserved(b) {
            assert(all =~= seq![b] + tail);
            assert(all[0] == b);
            assert(all.skip(1) =~= tail);
            assert(seq![b] + rest =~= bytes);
        } else {
            let hi = upper_hex(b as int / 16);
            let lo = upper_hex(b as int % 16);
            assert(all =~= seq![0x25u8, hi, lo] + tail);
            assert(all[0] == 0x25 && all[1] == hi && all[2] == lo);
            assert(all.skip(3) =~= tail);
            assert(hex_value(hi) == Some((b / 16) as u8));
            assert(hex_value(lo) == Some((b % 16) as u8));
            assert(((b / 16) * 16 + b % 16) as u8 == b);
            assert(seq![b] + rest =~= bytes);
        }
    }
}

/// Percent-decoding the percent-encoding of a segment gives the segment
/// back, whatever the segment holds.
pub proof fn lemma_percent_round_trip(s: Seq<char>)
    ensures
        percent_decoded_text(percent_encoded_text(s)) == Some(s),
{
    let bytes = encode_utf8(s);
    lemma_percent_encoded_is_ascii(bytes);
    lemma_ascii_text_bytes(percent_encoded(bytes));
    lemma_decode_undoes_encode(bytes);
    encode_utf8_valid_utf8(s);
    encode_utf8_decode_utf8(s);
}

/// A segment of unreserved bytes is its own percent-encoding.
pub proof fn lemma_unreserved_encodes_to_itself(bytes: Seq<u8>)
    requires
        forall|i: int| 0 <= i < bytes.len() ==> is_unreserved(#[trigger] bytes[i]),
    ensures
        percent_encoded(bytes) == bytes,
    decreases bytes.len(),
{
    if bytes.len() > 0 {
        assert forall|i: int| 0 <= i < bytes.skip(1).len() implies is_unreserved(
            #[trigger] bytes.skip(1)[i],
        ) by {
            assert(bytes.skip(1)[i] == bytes[i + 1]);
        }
        lemma_unreserved_encodes_to_itself(bytes.skip(1));
        assert(is_unreserved(bytes[0]));
        assert(seq![bytes[0]] + bytes.skip(1) =~= bytes);
    }
}

/// A space is encoded as `%20`, and a byte that is not ASCII as `%` and its
/// two hexadecimal digits.
pub proof fn lemma_encoded_byte_examples(b: u8)
    ensures
        encoded_byte(0x20) == seq![0x25u8, 0x32u8, 0x30u8],
        b >= 128 ==> encoded_byte(b) == seq![0x25u8, upper_hex(b as int / 16), upper_hex(b as int % 16)],
{
}

// ---------------------------------------------------------------------------
// The entry document's URL
// ---------------------------------------------------------------------------

/// The components that name something, each percent-encoded.
pub open spec fn encoded_names(cs: Seq<Seq<char>>) -> Seq<Seq<char>>
    decreases cs.len(),
{
    if cs.len() == 0 {
        Seq::<Seq<char>>::empty()
    } else if is_normal(cs.last()) {
        encoded_names(cs.drop_last()).push(percent_encoded_text(cs.last()))
    } else {
        encoded_names(cs.drop_last())
    }
}

/// The URL path of a file that lies `rest` below the root: `/`, then the
/// encoded names joined by `/`.
pub open spec fn url_path_of(rest: Seq<Seq<char>>) -> Seq<char> {
    seq!['/'] + join_with(encoded_names(rest), '/')
}

/// The message for an entry that does not lie under the root.
pub open spec fn outside_root_message(entry: Seq<char>, root: Seq<char>) -> Seq<char> {
    "entry '"@ + entry + "' is outside serve root '"@ + root + "'"@
}

/// Derives the URL path of `entry_file` relative to `canonical_root`: the
/// names below the root, each percent-encoded, joined by `/`, after a
/// leading `/`. An entry equal to the root gives `/`. Fails where the entry
/// does not lie under the root.
pub fn derive_entry_url_path(entry_file: &str, canonical_root: &str) -> (r: Result<String, String>)
    ensures
        match stripped(entry_file@, canonical_root@) {
            Some(rest) => r matches Ok(p) && p@ == url_path_of(rest),
            None => r matches Err(m) && m@ == outside_root_message(
                entry_file@,
                canonical_root@,
            ),
        },
{
    let pc = path_components(entry_file);
    let bc = path_components(canonical_root);
    match strip_components(&pc, &bc) {
        None => {
            let mut m = String::new();
            m.append("entry '");
            m.append(entry_file);
            m.append("' is outside serve root '");
            m.append(canonical_root);
            m.append("'");
            proof {
                assert(m@ =~= outside_root_message(entry_file@, canonical_root@));
            }
            Err(m)
        },
        Some(start) => {
            let ghost rest = views_of(pc@).skip(start as int);
            let mut names: Vec<Vec<char>> = Vec::new();
            let mut i: usize = start;
            proof {
                assert(rest.take(0) =~= Seq::<Seq<char>>::empty());
                assert(views_of(names@) =~= Seq::<Seq<char>>::empty());
            }
            while i < pc.len()
                invariant
                    start <= i <= pc.len(),
                    rest == views_of(pc@).skip(start as int),
                    views_of(names@) == encoded_names(rest.take(i - start)),
                decreases pc.len() - i,
            {
                let ghost before = views_of(names@);
                proof {
                    assert(rest.take(i - start + 1).drop_last() == rest.take(i - start));
                    assert(rest.take(i - start + 1).last() == pc@[i as int]@);
                }
                if component_is_normal(&pc[i]) {
                    let name = crate::text::string_of(&pc[i]);
                    let enc = percent_encode_segment(name.as_str());
                    let enc_chars = chars_of(enc.as_str());
                    names.push(enc_chars);
                    proof {
                        assert(views_of(names@) =~= before.push(enc@));
                    }
                }
                i += 1;
            }
            proof {
                assert(rest.take(pc.len() - start) == rest);
            }
            let joined = join_chars(&names, '/');
            let mut out = String::new();
            out.push('/');
            out.append(joined.as_str());
            proof {
                assert(out@ =~= url_path_of(rest));
            }
            Ok(out)
        },
    }
}


// ---------------------------------------------------------------------------
// Entity tags
// ---------------------------------------------------------------------------

/// The offset basis of 64-bit FNV-1a.
pub const FNV_OFFSET_BASIS: u64 = 14695981039346656037;

/// The prime of 64-bit FNV-1a.
pub const FNV_PRIME: u64 = 1099511628211;

/// One round of FNV-1a: xor the byte in, then multiply by the prime, modulo
/// two to the sixty-fourth.
pub open spec fn fnv_step(h: u64, b: u8) -> u64 {
    (h ^ (b as u64)).wrapping_mul(FNV_PRIME)
}

/// The 64-bit FNV-1a hash of `data`.
pub open spec fn fnv1a(data: Seq<u8>) -> u64
    decreases data.len(),
{
    if data.len() == 0 {
        FNV_OFFSET_BASIS
    } else {
        fnv_step(fnv1a(data.drop_last()), data.last())
    }
}

/// Computes the 64-bit FNV-1a hash of `data`. It serves cache validation
/// only and has no cryptographic strength.
pub fn fnv1a_64(data: &[u8]) -> (h: u64)
    ensures
        h == fnv1a(data@),
{
    let mut hash: u64 = FNV_OFFSET_BASIS;
    let mut i: usize = 0;
    proof {
        assert(data@.take(0) =~= Seq::<u8>::empty());
    }
    while i < data.len()
        invariant
            i <= data.len(),
            hash == fnv1a(data@.take(i as int)),
        decreases data.len() - i,
    {
        proof {
            assert(data@.take(i + 1).drop_last() == data@.take(i as int));
            assert(data@.take(i + 1).last() == data@[i as int]);
        }
        hash = (hash ^ (data[i] as u64)).wrapping_mul(FNV_PRIME);
        i += 1;
    }
    proof {
        assert(data@.take(data.len() as int) == data@);
    }
    hash
}

/// The strong entity tag for a hash: sixteen lower-case hexadecimal digits
/// between double quotes.
pub open spec fn etag_text(h: u64) -> Seq<char> {
    seq!['"'] + lower_hex(h as nat, 16) + seq!['"']
}

/// The strong entity tag of `data`: its FNV-1a hash as sixteen lower-case
/// hexadecimal digits between double quotes.
pub fn compute_etag(data: &[u8]) -> (tag: String)
    ensures
        tag@ == etag_text(fnv1a(data@)),
        tag@.len() == 18,
{
    let h = fnv1a_64(data);
    let mut tag = String::new();
    tag.push('"');
    push_lower_hex(&mut tag, h, 16);
    tag.push('"');
    proof {
        assert(tag@ =~= etag_text(h));
        lemma_lower_hex_len(h as nat, 16);
    }
    tag
}

/// `lower_hex` gives as many digits as were asked for.
pub proof fn lemma_lower_hex_len(n: nat, width: nat)
    ensures
        lower_hex(n, width).len() == width,
    decreases width,
{
    if width > 0 {
        lemma_lower_hex_len(n / 16, (width - 1) as nat);
    }
}

/// Whether one of the comma-separated tags of `list`, trimmed, is `etag`.
pub open spec fn etag_listed(list: Seq<char>, etag: Seq<char>) -> bool {
    exists|i: int|
        0 <= i < split_on(list, ',').len() && trimmed(#[trigger] split_on(list, ',')[i]) == etag
}

/// No hexadecimal digit is a comma or white space.
proof fn lemma_lower_hex_chars(n: nat, width: nat)
    ensures
        forall|i: int|
            0 <= i < lower_hex(n, width).len() ==> (#[trigger] lower_hex(n, width)[i]) != ','
                && !is_white_space_char(lower_hex(n, width)[i]),
    decreases width,
{
    if width > 0 {
        lemma_lower_hex_chars(n / 16, (width - 1) as nat);
        let head = lower_hex(n / 16, (width - 1) as nat);
        let c = crate::text::lower_hex_char((n % 16) as int);
        assert(c != ',' && !is_white_space_char(c));
        assert forall|i: int| 0 <= i < lower_hex(n, width).len() implies (#[trigger] lower_hex(
            n,
            width,
        )[i]) != ',' && !is_white_space_char(lower_hex(n, width)[i]) by {
            if i < head.len() {
                assert(lower_hex(n, width)[i] == head[i]);
            } else {
                assert(lower_hex(n, width)[i] == c);
            }
        }
    }
}

/// A text without the separator is its own single piece.
proof fn lemma_split_without_separator(s: Seq<char>, sep: char)
    requires
        forall|i: int| 0 <= i < s.len() ==> s[i] != sep,
    ensures
        split_on(s, sep) == seq![s],
    decreases s.len(),
{
    if s.len() > 0 {
        lemma_split_without_separator(s.drop_last(), sep);
        assert(s.last() == s[s.len() - 1]);
        assert(split_on(s, sep) =~= seq![s.drop_last().push(s.last())]);
        assert(s.drop_last().push(s.last()) =~= s);
    } else {
        assert(s =~= Seq::<char>::empty());
    }
}

/// An entity tag holds no comma, and trimming leaves it as it is.
pub proof fn lemma_tag_is_one_trimmed_piece(h: u64)
    ensures
        trimmed(etag_text(h)) == etag_text(h),
        split_on(etag_text(h), ',') == seq![etag_text(h)],
        etag_text(h) != "*"@,
{
    let t = etag_text(h);
    lemma_lower_hex_len(h as nat, 16);
    lemma_lower_hex_chars(h as nat, 16);
    assert(t.len() == 18);
    assert(t[0] == '"');
    assert(t.last() == '"');
    assert forall|i: int| 0 <= i < t.len() implies t[i] != ',' by {
        if 0 < i < 17 {
            assert(t[i] == lower_hex(h as nat, 16)[i - 1]);
        }
    }
    lemma_split_without_separator(t, ',');
    assert("*"@.len() == 1) by {
        reveal_strlit("*");
    }
}

/// A client that sends back the tag it was given is told that its copy is
/// still good: the tag covers itself.
pub proof fn lemma_echoed_tag_matches(h: u64)
    ensures
        etag_covered(etag_text(h), etag_text(h)),
{
    lemma_tag_is_one_trimmed_piece(h);
    let t = etag_text(h);
    assert(split_on(t, ',')[0] == t);
}

/// Whether an `If-None-Match` value covers `etag`: trimmed, it is `*` or a
/// comma-separated list that holds the tag.
pub open spec fn etag_covered(if_none_match: Seq<char>, etag: Seq<char>) -> bool {
    trimmed(if_none_match) == "*"@ || etag_listed(trimmed(if_none_match), etag)
}

/// Whether the `If-None-Match` header says that the client already holds the
/// representation tagged `etag`.
pub fn etag_matches(if_none_match: &str, etag: &str) -> (r: bool)
    ensures
        r == etag_covered(if_none_match@, etag@),
{
    let raw = chars_of(if_none_match);
    let t = trim_chars(&raw);
    if chars_are(&t, "*") {
        return true;
    }
    let want = chars_of(etag);
    let parts = split_chars(&t, ',');
    let mut i: usize = 0;
    while i < parts.len()
        invariant
            i <= parts.len(),
            views_of(parts@) == split_on(t@, ','),
            want@ == etag@,
            t@ == trimmed(if_none_match@),
            forall|j: int| 0 <= j < i ==> trimmed(#[trigger] split_on(t@, ',')[j]) != etag@,
        decreases parts.len() - i,
    {
        let piece = trim_chars(&parts[i]);
        proof {
            assert(views_of(parts@)[i as int] == parts@[i as int]@);
        }
        if chars_eq(&piece, &want) {
            return true;
        }
        i += 1;
    }
    false
}

// ---------------------------------------------------------------------------
// HTTP dates
// ---------------------------------------------------------------------------

/// The first second that no HTTP-date can express: the start of year 10000.
pub const HTTP_DATE_LIMIT: u64 = 253402300800;

/// The HTTP-date for a time given in whole seconds since the Unix epoch, as
/// `httpdate::fmt_http_date` writes it.
pub uninterp spec fn http_date_text(secs: u64) -> Seq<char>;

/// The time that `httpdate::parse_http_date` reads from a header value, in
/// whole seconds since the Unix epoch; `None` where it reads no date.
pub uninterp spec fn parsed_http_date(s: Seq<char>) -> Option<u64>;

/// `httpdate::fmt_http_date`, which formats any time from the Unix epoch up
/// to the end of year 9999 and panics on a later one.
#[verifier::external_body]
fn fmt_http_date(secs: u64) -> (r: String)
    requires
        secs < HTTP_DATE_LIMIT,
    ensures
        r@ == http_date_text(secs),
{
    httpdate::fmt_http_date(std::time::UNIX_EPOCH + std::time::Duration::from_secs(secs))
}

/// `httpdate::parse_http_date`. A date that it accepts is a whole number of
/// seconds at or after the Unix epoch.
#[verifier::external_body]
fn read_http_date(s: &str) -> (r: Option<u64>)
    ensures
        r == parsed_http_date(s@),
{
    match httpdate::parse_http_date(s) {
        Ok(t) => t.duration_since(std::time::UNIX_EPOCH).ok().map(|d| d.as_secs()),
        Err(_) => None,
    }
}

/// Formats a time, in seconds since the Unix epoch, as an HTTP-date. `None`
/// for a time past the year 9999, which no HTTP-date expresses.
pub fn format_http_date(secs: u64) -> (r: Option<String>)
    ensures
        r is Some <==> secs < HTTP_DATE_LIMIT,
        r matches Some(s) ==> s@ == http_date_text(secs),
{
    if secs < HTTP_DATE_LIMIT {
        Some(fmt_http_date(secs))
    } else {
        None
    }
}

/// Parses an HTTP-date into seconds since the Unix epoch. `None` on any
/// parse failure.
pub fn parse_http_date(s: &str) -> (r: Option<u64>)
    ensures
        r == parsed_http_date(s@),
{
    read_http_date(s)
}

/// Whether a resource last modified at `mtime_secs` is unchanged for a client
/// whose `If-Modified-Since` date parsed to `since`: the date was read and the
/// modification is no later.
pub fn unmodified_since(since: Option<u64>, mtime_secs: u64) -> (r: bool)
    ensures
        r == (since matches Some(t) && mtime_secs <= t),
{
    match since {
        Some(t) => mtime_secs <= t,
        None => false,
    }
}

/// Whether the `If-Modified-Since` header means that the resource, last
/// modified at `mtime_secs` whole seconds since the Unix epoch, has not
/// changed. A header that does not parse never matches.
pub fn not_modified_since(ims_header: &str, mtime_secs: u64) -> (r: bool)
    ensures
        r == (parsed_http_date(ims_header@) matches Some(t) && mtime_secs <= t),
{
    unmodified_since(parse_http_date(ims_header), mtime_secs)
}

// ---------------------------------------------------------------------------
// Headed environments and the browser
// ---------------------------------------------------------------------------

/// The platform that the server runs on.
#[derive(Debug, Clone, Copy, PartialEq, Eq, Structural)]
pub enum RuntimePlatform {
    MacOs,
    Linux,
    Other,
}

/// Which of the environment variables that bear on headed detection are set
/// and not empty.
#[derive(Debug, Clone, Copy)]
pub struct EnvSnapshot {
    pub ssh_connection: bool,
    pub ssh_tty: bool,
    pub display: bool,
    pub wayland_display: bool,
    pub ci: bool,
    pub github_actions: bool,
}

/// When opening a browser can be expected to work. macOS: no SSH variable is
/// set. Linux: a display is set, and no SSH or CI variable. Elsewhere: never.
pub open spec fn headed(platform: RuntimePlatform, env: EnvSnapshot) -> bool {
    match platform {
        RuntimePlatform::MacOs => !env.ssh_connection && !env.ssh_tty,
        RuntimePlatform::Linux => (env.display || env.wayland_display) && !env.ssh_connection
            && !env.ssh_tty && !env.ci && !env.github_actions,
        RuntimePlatform::Other => false,
    }
}

/// Whether the environment is one in which a browser can be opened.
pub fn is_headed_for(platform: RuntimePlatform, env: &EnvSnapshot) -> (r: bool)
    ensures
        r == headed(platform, *env),
{
    match platform {
        RuntimePlatform::MacOs => !env.ssh_connection && !env.ssh_tty,
        RuntimePlatform::Linux => {
            (env.display || env.wayland_display) && !env.ssh_connection && !env.ssh_tty && !env.ci
                && !env.github_actions
        },
        RuntimePlatform::Other => false,
    }
}

/// Whether to try to open the browser: the user did not opt out and the
/// environment is headed.
pub fn should_attempt_open(no_open: bool, headed: bool) -> (r: bool)
    ensures
        r == (!no_open && headed),
{
    !no_open && headed
}

/// The command that opens a URL in the default browser, by platform; empty
/// where there is none.
pub open spec fn open_command(platform: RuntimePlatform) -> Seq<char> {
    match platform {
        RuntimePlatform::MacOs => "open"@,
        RuntimePlatform::Linux => "xdg-open"@,
        RuntimePlatform::Other => ""@,
    }
}

/// The platform's command for opening a URL in the default browser.
pub fn default_open_command(platform: RuntimePlatform) -> (r: &'static str)
    ensures
        r@ == open_command(platform),
{
    match platform {
        RuntimePlatform::MacOs => "open",
        RuntimePlatform::Linux => "xdg-open",
        RuntimePlatform::Other => "",
    }
}

/// The command to open the browser with: the override where one is given,
/// even an empty one, else the platform's default.
pub fn resolve_open_cmd(env_override: Option<&str>, platform: RuntimePlatform) -> (r: String)
    ensures
        r@ == match env_override {
            Some(c) => c@,
            None => open_command(platform),
        },
{
    match env_override {
        Some(c) => c.to_owned(),
        None => default_open_command(platform).to_owned(),
    }
}

// ---------------------------------------------------------------------------
// Query strings
// ---------------------------------------------------------------------------

/// Whether one of the `&`-separated parameters of `query` is exactly `raw=1`.
pub open spec fn has_raw_param(query: Seq<char>) -> bool {
    exists|i: int|
        0 <= i < split_on(query, '&').len() && #[trigger] split_on(query, '&')[i] == "raw=1"@
}

/// Whether the query string asks for the markdown source: it holds the exact
/// parameter `raw=1`.
pub fn is_raw_mode(query: &str) -> (r: bool)
    ensures
        r == has_raw_param(query@),
{
    let q = chars_of(query);
    let parts = split_chars(&q, '&');
    let mut i: usize = 0;
    while i < parts.len()
        invariant
            i <= parts.len(),
            views_of(parts@) == split_on(query@, '&'),
            forall|j: int| 0 <= j < i ==> #[trigger] split_on(query@, '&')[j] != "raw=1"@,
        decreases parts.len() - i,
    {
        proof {
            assert(views_of(parts@)[i as int] == parts@[i as int]@);
        }
        if chars_are(&parts[i], "raw=1") {
            return true;
        }
        i += 1;
    }
    false
}


// ---------------------------------------------------------------------------
// Diagnostics
// ---------------------------------------------------------------------------

/// Makes a diagnostic line only where diagnostics are on: the line is not
/// even put together otherwise.
pub fn vlog<F: FnOnce() -> String>(verbose: bool, make: F) -> (r: Option<String>)
    requires
        verbose ==> make.requires(()),
    ensures
        verbose <==> r is Some,
        r matches Some(line) ==> make.ensures((), line),
{
    if verbose {
        Some(make())
    } else {
        None
    }
}

} // verus!
