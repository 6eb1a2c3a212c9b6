//! The backlinks index: which documents link to which. Keys are root-relative
//! URL paths with a leading slash, built by one function for both the indexing
//! and the lookup side.

use crate::markdown::{event_stream, markdown_events, MdEvent, MdEventKind, MdTag, MdTagEnd};
use crate::paths::{
    components, components_text, components_to_text, cur_dir, extension_of, extension_text,
    join_path, joined, parent_dir, parent_of, parent_text, path_components, root_marker,
    strip_components, stripped,
};
use crate::text::{
    chars_are, chars_of, decimal, first_of, has_prefix, lowercase_of, push_chars, push_decimal,
    starts_with, str_eq, string_of, trim_chars, trimmed, views_of,
};
use vstd::prelude::*;
use vstd::string::*;
use vstd::utf8::*;

verus! {

/// A reference to a document from another document.
#[derive(Debug, Clone)]
pub struct BacklinkRef {
    /// Root-relative URL path of the linking document, with its leading slash.
    pub source_url_path: String,
    /// The linking document's first top-level heading, or else its relative path.
    pub source_display: String,
    /// A short plain-text context around the link.
    pub snippet: String,
    /// The fragment of the link, without `#`, where it has one.
    pub target_fragment: Option<String>,
}

/// The URL key of a root-relative path: the path after a `/`.
pub open spec fn url_key(rel: Seq<char>) -> Seq<char> {
    seq!['/'] + rel
}

/// Builds the URL key for a root-relative path that has no leading slash.
/// Indexing and lookup both go through this function.
pub fn url_key_from_rel_path(rel: &str) -> (key: String)
    ensures
        key@ == url_key(rel@),
        key@.len() > 0 && key@[0] == '/',
{
    let mut key = String::new();
    key.push('/');
    key.append(rel);
    proof {
        assert(key@ =~= url_key(rel@));
    }
    key
}


/// A link out of a source document, found while the index is built.
#[derive(Debug, Clone)]
pub struct OutboundRef {
    /// URL key of the link's target.
    pub target_url_path: String,
    /// The fragment of the link, without `#`, where it has one.
    pub target_fragment: Option<String>,
    /// A short plain-text context around the link.
    pub snippet: String,
}

/// What one source document contributes to the index.
#[derive(Debug, Default)]
pub struct DocExtractResult {
    /// The text of the first top-level heading, if there is one.
    pub title: Option<String>,
    /// The local links of the document whose targets lie under the root.
    pub outbound_refs: Vec<OutboundRef>,
}

// ---------------------------------------------------------------------------
// Snippets
// ---------------------------------------------------------------------------

/// The most bytes that a snippet takes.
pub const SNIPPET_MAX_BYTES: usize = 200;

/// How many bytes of source a snippet takes in on each side of its link.
pub const SNIPPET_REACH: usize = 80;

/// The text of a markdown fragment without its markup: text and code spans,
/// a space before each but the first, and a space for each line break.
pub open spec fn plain_text(events: Seq<MdEvent>) -> Seq<char>
    decreases events.len(),
{
    if events.len() == 0 {
        Seq::<char>::empty()
    } else {
        let before = plain_text(events.drop_last());
        match events.last().kind {
            MdEventKind::Text(t) => if before.len() > 0 {
                before.push(' ') + t@
            } else {
                t@
            },
            MdEventKind::Code(t) => if before.len() > 0 {
                before.push(' ') + t@
            } else {
                t@
            },
            MdEventKind::SoftBreak => before.push(' '),
            MdEventKind::HardBreak => before.push(' '),
            _ => before,
        }
    }
}

/// ASCII white space: space, tab, line feed, form feed, carriage return.
pub open spec fn is_ascii_space(c: char) -> bool {
    c == ' ' || c == '\t' || c == '\n' || c == '\x0C' || c == '\r'
}

/// `s` with every run of ASCII white space between two words turned into one
/// space, and none left at either end.
pub open spec fn collapsed(s: Seq<char>) -> Seq<char>
    decreases s.len(),
{
    if s.len() == 0 {
        Seq::<char>::empty()
    } else {
        let before = collapsed(s.drop_last());
        let c = s.last();
        if is_ascii_space(c) {
            before
        } else if s.len() >= 2 && is_ascii_space(s[s.len() - 2]) && before.len() > 0 {
            before.push(' ').push(c)
        } else {
            before.push(c)
        }
    }
}

/// How many bytes the UTF-8 encoding of `c` takes.
pub open spec fn utf8_width(c: char) -> nat {
    if (c as u32) < 0x80 {
        1
    } else if (c as u32) < 0x800 {
        2
    } else if (c as u32) < 0x10000 {
        3
    } else {
        4
    }
}

/// How many characters at the start of `s` fit, whole, into `max` bytes of
/// UTF-8.
pub open spec fn fitting_len(s: Seq<char>, max: nat) -> nat
    decreases s.len(),
{
    if s.len() == 0 || utf8_width(s[0]) > max {
        0
    } else {
        1 + fitting_len(s.skip(1), (max - utf8_width(s[0])) as nat)
    }
}

/// The snippet that a stream of events makes: its plain text, white space
/// collapsed, cut at a character boundary to at most `max` bytes.
pub open spec fn snippet_of(events: Seq<MdEvent>, max: nat) -> Seq<char> {
    let c = collapsed(plain_text(events));
    c.take(fitting_len(c, max) as int)
}

/// The snippet of a markdown fragment.
pub open spec fn plain_snippet(raw: Seq<char>, max: nat) -> Seq<char> {
    snippet_of(event_stream(raw, true, true, false), max)
}

fn is_ascii_space_char(c: char) -> (r: bool)
    ensures
        r == is_ascii_space(c),
{
    c == ' ' || c == '\t' || c == '\n' || c == '\x0C' || c == '\r'
}

fn width_of(c: char) -> (w: usize)
    ensures
        w == utf8_width(c),
        1 <= w <= 4,
{
    let v = c as u32;
    if v < 0x80 {
        1
    } else if v < 0x800 {
        2
    } else if v < 0x10000 {
        3
    } else {
        4
    }
}

/// Builds the snippet for a stream of events that was read from a fragment
/// of markdown.
pub fn snippet_from_events(events: &Vec<MdEvent>, max_bytes: usize) -> (out: String)
    ensures
        out@ == snippet_of(events@, max_bytes as nat),
{
    let mut plain: Vec<char> = Vec::new();
    let mut i: usize = 0;
    proof {
        assert(events@.take(0) =~= Seq::<MdEvent>::empty());
    }
    while i < events.len()
        invariant
            i <= events.len(),
            plain@ == plain_text(events@.take(i as int)),
        decreases events.len() - i,
    {
        proof {
            assert(events@.take(i + 1).drop_last() == events@.take(i as int));
            assert(events@.take(i + 1).last() == events@[i as int]);
        }
        match &events[i].kind {
            MdEventKind::Text(t) => {
                if plain.len() > 0 {
                    plain.push(' ');
                }
                let mut cs = chars_of(t.as_str());
                plain.append(&mut cs);
            },
            MdEventKind::Code(t) => {
                if plain.len() > 0 {
                    plain.push(' ');
                }
                let mut cs = chars_of(t.as_str());
                plain.append(&mut cs);
            },
            MdEventKind::SoftBreak => {
                plain.push(' ');
            },
            MdEventKind::HardBreak => {
                plain.push(' ');
            },
            _ => {},
        }
        i += 1;
    }
    proof {
        assert(events@.take(events.len() as int) == events@);
    }
    let mut c: Vec<char> = Vec::new();
    let mut j: usize = 0;
    proof {
        assert(plain@.take(0) =~= Seq::<char>::empty());
    }
    while j < plain.len()
        invariant
            j <= plain.len(),
            c@ == collapsed(plain@.take(j as int)),
        decreases plain.len() - j,
    {
        proof {
            assert(plain@.take(j + 1).drop_last() == plain@.take(j as int));
            assert(plain@.take(j + 1).last() == plain@[j as int]);
            if j >= 1 {
                assert(plain@.take(j + 1)[j - 1] == plain@[j - 1]);
            }
        }
        let ch = plain[j];
        if !is_ascii_space_char(ch) {
            if j >= 1 && is_ascii_space_char(plain[j - 1]) && c.len() > 0 {
                c.push(' ');
            }
            c.push(ch);
        }
        j += 1;
    }
    proof {
        assert(plain@.take(plain.len() as int) == plain@);
    }
    let mut k: usize = 0;
    let mut left: usize = max_bytes;
    proof {
        assert(c@.skip(0) == c@);
    }
    while k < c.len() && width_of(c[k]) <= left
        invariant
            k <= c.len(),
            fitting_len(c@, max_bytes as nat) == k + fitting_len(c@.skip(k as int), left as nat),
        decreases c.len() - k,
    {
        proof {
            assert(c@.skip(k as int)[0] == c@[k as int]);
            assert(c@.skip(k as int).skip(1) == c@.skip(k + 1));
        }
        left -= width_of(c[k]);
        k += 1;
    }
    proof {
        if k < c.len() {
            assert(c@.skip(k as int)[0] == c@[k as int]);
        }
    }
    let mut out = String::new();
    push_chars(&mut out, &c, 0, k);
    proof {
        assert(c@.subrange(0, k as int) == c@.take(k as int));
    }
    out
}

/// Renders a fragment of markdown to plain text: markup dropped, white space
/// collapsed, at most `max_bytes` bytes, cut at a character boundary.
pub fn strip_markdown_to_plain(raw: &str, max_bytes: usize) -> (out: String)
    ensures
        out@ == plain_snippet(raw@, max_bytes as nat),
{
    let events = markdown_events(raw, true, true, false);
    snippet_from_events(&events, max_bytes)
}

/// The nearest character boundary at or before byte `from`.
pub open spec fn boundary_at_or_before(bytes: Seq<u8>, from: int) -> int
    decreases from,
{
    if from <= 0 {
        0
    } else if is_char_boundary(bytes, from) {
        from
    } else {
        boundary_at_or_before(bytes, from - 1)
    }
}

/// The nearest character boundary at or after byte `from`.
pub open spec fn boundary_at_or_after(bytes: Seq<u8>, from: int) -> int
    decreases bytes.len() - from,
{
    if from >= bytes.len() {
        bytes.len() as int
    } else if is_char_boundary(bytes, from) {
        from
    } else {
        boundary_at_or_after(bytes, from + 1)
    }
}

/// Where the snippet window of a link begins: eighty bytes before the link,
/// moved back to a character boundary.
pub open spec fn window_start(bytes: Seq<u8>, link_start: int) -> int {
    boundary_at_or_before(
        bytes,
        if link_start >= SNIPPET_REACH {
            link_start - SNIPPET_REACH
        } else {
            0
        },
    )
}

/// Where the snippet window of a link ends: eighty bytes after the link,
/// moved forward to a character boundary.
pub open spec fn window_end(bytes: Seq<u8>, link_end: int) -> int {
    boundary_at_or_after(
        bytes,
        if link_end + SNIPPET_REACH <= bytes.len() {
            link_end + SNIPPET_REACH
        } else {
            bytes.len() as int
        },
    )
}

/// The stretch of source around a link that its snippet is made from.
pub open spec fn window_text(src: Seq<char>, link_start: int, link_end: int) -> Seq<char> {
    let bytes = encode_utf8(src);
    decode_utf8(bytes.subrange(window_start(bytes, link_start), window_end(bytes, link_end)))
}

/// A character boundary of a text is one of each prefix that reaches it.
proof fn lemma_boundary_in_prefix(bytes: Seq<u8>, a: int, b: int)
    requires
        valid_utf8(bytes),
        0 <= a <= b <= bytes.len(),
        is_char_boundary(bytes, a),
        is_char_boundary(bytes, b),
    ensures
        valid_utf8(bytes.subrange(0, b)),
        is_char_boundary(bytes.subrange(0, b), a),
{
    valid_utf8_split(bytes, b);
    let head = bytes.subrange(0, b);
    if a == 0 {
    } else if a == b {
        is_char_boundary_start_end_of_seq(head);
    } else {
        is_char_boundary_iff_not_is_continuation_byte(bytes, a);
        is_char_boundary_iff_not_is_continuation_byte(head, a);
    }
}

/// Cuts the snippet window of the link at bytes `link_start..link_end` out of
/// the source.
pub fn snippet_window<'a>(src: &'a str, link_start: usize, link_end: usize) -> (raw: &'a str)
    requires
        link_start <= link_end <= encode_utf8(src@).len(),
    ensures
        raw@ == window_text(src@, link_start as int, link_end as int),
{
    broadcast use encode_utf8_valid_utf8, encode_utf8_decode_utf8;

    let len = src.as_bytes().len();
    let ghost bytes = encode_utf8(src@);
    let mut a: usize = if link_start >= SNIPPET_REACH {
        link_start - SNIPPET_REACH
    } else {
        0
    };
    while a > 0 && !src.is_char_boundary(a)
        invariant
            a <= link_start,
            bytes == encode_utf8(src@),
            window_start(bytes, link_start as int) == boundary_at_or_before(bytes, a as int),
        decreases a,
    {
        a -= 1;
    }
    let mut b: usize = if len - link_end >= SNIPPET_REACH {
        link_end + SNIPPET_REACH
    } else {
        len
    };
    while b < len && !src.is_char_boundary(b)
        invariant
            link_end <= b <= len,
            len == bytes.len(),
            bytes == encode_utf8(src@),
            window_end(bytes, link_end as int) == boundary_at_or_after(bytes, b as int),
        decreases len - b,
    {
        b += 1;
    }
    proof {
        is_char_boundary_start_end_of_seq(bytes);
        assert(is_char_boundary(bytes, a as int));
        assert(is_char_boundary(bytes, b as int));
        lemma_boundary_in_prefix(bytes, a as int, b as int);
    }
    let (head, _) = src.split_at(b);
    let (_, raw) = head.split_at(a);
    proof {
        assert(bytes.subrange(0, b as int).subrange(a as int, b as int) =~= bytes.subrange(
            a as int,
            b as int,
        ));
    }
    raw
}


// ---------------------------------------------------------------------------
// Title
// ---------------------------------------------------------------------------

/// Where the search for the title stands after a stretch of events.
pub struct TitleScan {
    /// Inside the first top-level heading.
    pub in_h1: bool,
    /// The first top-level heading has ended.
    pub done: bool,
    /// The text gathered inside it so far.
    pub buf: Seq<char>,
    /// The title, once the heading has ended.
    pub title: Option<Seq<char>>,
}

/// The search for the title, run over `events` from the left: the first
/// heading of level 1 opens it, text events inside it are gathered, and its
/// end settles the title as the gathered text, trimmed.
pub open spec fn title_scan(events: Seq<MdEvent>) -> TitleScan
    decreases events.len(),
{
    if events.len() == 0 {
        TitleScan { in_h1: false, done: false, buf: Seq::<char>::empty(), title: None }
    } else {
        let st = title_scan(events.drop_last());
        match events.last().kind {
            MdEventKind::Start(MdTag::Heading(level)) => if level == 1 && !st.done {
                TitleScan { in_h1: true, buf: Seq::<char>::empty(), ..st }
            } else {
                st
            },
            MdEventKind::Text(t) => if st.in_h1 {
                TitleScan { buf: st.buf + t@, ..st }
            } else {
                st
            },
            MdEventKind::End(MdTagEnd::Heading(level)) => if level == 1 && st.in_h1 {
                TitleScan { in_h1: false, done: true, title: Some(trimmed(st.buf)), ..st }
            } else {
                st
            },
            _ => st,
        }
    }
}

/// The title of a document: the text of its first top-level heading.
pub open spec fn document_title(events: Seq<MdEvent>) -> Option<Seq<char>> {
    title_scan(events).title
}

/// Finds the title of a document in its event stream.
pub fn title_from_events(events: &Vec<MdEvent>) -> (r: Option<String>)
    ensures
        r is Some <==> document_title(events@) is Some,
        r matches Some(t) ==> Some(t@) == document_title(events@),
{
    let mut in_h1 = false;
    let mut done = false;
    let mut buf: Vec<char> = Vec::new();
    let mut title: Option<String> = None;
    let mut i: usize = 0;
    proof {
        assert(events@.take(0) =~= Seq::<MdEvent>::empty());
    }
    while i < events.len()
        invariant
            i <= events.len(),
            in_h1 == title_scan(events@.take(i as int)).in_h1,
            done == title_scan(events@.take(i as int)).done,
            buf@ == title_scan(events@.take(i as int)).buf,
            title is Some <==> title_scan(events@.take(i as int)).title is Some,
            title matches Some(t) ==> Some(t@) == title_scan(events@.take(i as int)).title,
        decreases events.len() - i,
    {
        proof {
            assert(events@.take(i + 1).drop_last() == events@.take(i as int));
            assert(events@.take(i + 1).last() == events@[i as int]);
        }
        match &events[i].kind {
            MdEventKind::Start(MdTag::Heading(level)) => {
                if *level == 1 && !done {
                    in_h1 = true;
                    buf = Vec::new();
                }
            },
            MdEventKind::Text(t) => {
                if in_h1 {
                    let mut cs = chars_of(t.as_str());
                    buf.append(&mut cs);
                }
            },
            MdEventKind::End(MdTagEnd::Heading(level)) => {
                if *level == 1 && in_h1 {
                    let t = trim_chars(&buf);
                    title = Some(string_of(&t));
                    in_h1 = false;
                    done = true;
                }
            },
            _ => {},
        }
        i += 1;
    }
    proof {
        assert(events@.take(events.len() as int) == events@);
    }
    title
}

// ---------------------------------------------------------------------------
// Links
// ---------------------------------------------------------------------------

/// A link of the source: the bytes it covers and where it points.
#[derive(Debug)]
pub struct LinkSpan {
    /// Byte offset at which the link begins.
    pub start: usize,
    /// Byte offset just past the link.
    pub end: usize,
    /// The link's destination as written.
    pub dest: String,
}

/// The link that is open after a stretch of events: where it began and its
/// destination.
pub open spec fn pending_link(events: Seq<MdEvent>) -> Option<(usize, String)>
    decreases events.len(),
{
    if events.len() == 0 {
        None
    } else {
        match events.last().kind {
            MdEventKind::Start(MdTag::Link { link_type, dest_url }) => Some(
                (events.last().start, dest_url),
            ),
            MdEventKind::End(MdTagEnd::Link) => None,
            _ => pending_link(events.drop_last()),
        }
    }
}

/// The links of a document in order: each from the start of its opening
/// event to the end of its closing one.
pub open spec fn link_spans(events: Seq<MdEvent>) -> Seq<LinkSpan>
    decreases events.len(),
{
    if events.len() == 0 {
        Seq::<LinkSpan>::empty()
    } else {
        let before = link_spans(events.drop_last());
        match events.last().kind {
            MdEventKind::End(MdTagEnd::Link) => match pending_link(events.drop_last()) {
                Some((start, dest)) => before.push(
                    LinkSpan { start, end: events.last().end, dest },
                ),
                None => before,
            },
            _ => before,
        }
    }
}

/// Collects the links of a document from its event stream.
pub fn links_from_events(events: &Vec<MdEvent>) -> (out: Vec<LinkSpan>)
    ensures
        out@ == link_spans(events@),
{
    let mut out: Vec<LinkSpan> = Vec::new();
    let mut pending: Option<(usize, String)> = None;
    let mut i: usize = 0;
    proof {
        assert(events@.take(0) =~= Seq::<MdEvent>::empty());
    }
    while i < events.len()
        invariant
            i <= events.len(),
            out@ == link_spans(events@.take(i as int)),
            pending == pending_link(events@.take(i as int)),
        decreases events.len() - i,
    {
        proof {
            assert(events@.take(i + 1).drop_last() == events@.take(i as int));
            assert(events@.take(i + 1).last() == events@[i as int]);
        }
        match &events[i].kind {
            MdEventKind::Start(MdTag::Link { link_type, dest_url }) => {
                pending = Some((events[i].start, dest_url.clone()));
            },
            MdEventKind::End(MdTagEnd::Link) => {
                match pending {
                    Some((start, dest)) => {
                        out.push(LinkSpan { start, end: events[i].end, dest });
                    },
                    None => {},
                }
                pending = None;
            },
            _ => {},
        }
        i += 1;
    }
    proof {
        assert(events@.take(events.len() as int) == events@);
    }
    out
}


// ---------------------------------------------------------------------------
// Link targets
// ---------------------------------------------------------------------------

/// The links that are never indexed: those with an `http`, `https`, `mailto`
/// or `ftp` scheme in any case, protocol-relative links, which begin with
/// `//`, and pure fragments.
pub open spec fn is_external_link(dest: Seq<char>) -> bool {
    has_prefix(lowercase_of(dest), "http:"@) || has_prefix(lowercase_of(dest), "https:"@)
        || has_prefix(lowercase_of(dest), "mailto:"@) || has_prefix(lowercase_of(dest), "ftp:"@)
        || has_prefix(dest, "//"@) || has_prefix(dest, "#"@)
}

/// Where the fragment of a link begins: at its first `#`, or at its end.
pub open spec fn fragment_start(dest: Seq<char>) -> int {
    match first_of(dest, '#', '#', 0) {
        Some(i) => i,
        None => dest.len() as int,
    }
}

/// The path of a link: what precedes its first `#`.
pub open spec fn link_path(dest: Seq<char>) -> Seq<char> {
    dest.take(fragment_start(dest))
}

/// The fragment of a link: what follows its first `#`, where that is not empty.
pub open spec fn link_fragment(dest: Seq<char>) -> Option<Seq<char>> {
    if fragment_start(dest) + 1 < dest.len() {
        Some(dest.skip(fragment_start(dest) + 1))
    } else {
        None
    }
}

/// `s` without the slashes at its start.
pub open spec fn without_leading_slashes(s: Seq<char>) -> Seq<char>
    decreases s.len(),
{
    if s.len() > 0 && s[0] == '/' {
        without_leading_slashes(s.skip(1))
    } else {
        s
    }
}

/// The directory that relative links of a source document start from: the
/// document's parent, or the document's own path where it has none.
pub open spec fn source_dir(source_path: Seq<char>) -> Seq<char> {
    match parent_text(source_path) {
        Some(p) => p,
        None => source_path,
    }
}

/// The file-system path that the path of a link stands for, before `.` and
/// `..` are resolved: under the root for a link that starts with `/`, else
/// under the source document's directory.
pub open spec fn link_raw_path(path_part: Seq<char>, source_path: Seq<char>, serve_root: Seq<char>) -> Seq<
    char,
> {
    if path_part.len() > 0 && path_part[0] == '/' {
        joined(serve_root, without_leading_slashes(path_part))
    } else {
        joined(source_dir(source_path), path_part)
    }
}

/// The names left after walking components from the left, and whether the
/// root was seen: `.` changes nothing, `..` removes the last name. `None` as
/// soon as `..` finds no name to remove.
pub open spec fn abs_walk(cs: Seq<Seq<char>>) -> Option<(bool, Seq<Seq<char>>)>
    decreases cs.len(),
{
    if cs.len() == 0 {
        Some((false, Seq::<Seq<char>>::empty()))
    } else {
        match abs_walk(cs.drop_last()) {
            None => None,
            Some((rooted, parts)) => {
                let c = cs.last();
                if c == root_marker() {
                    Some((true, parts))
                } else if c == cur_dir() {
                    Some((rooted, parts))
                } else if c == parent_dir() {
                    if parts.len() == 0 {
                        None
                    } else {
                        Some((rooted, parts.drop_last()))
                    }
                } else {
                    Some((rooted, parts.push(c)))
                }
            },
        }
    }
}

/// The components of a path with `.` and `..` resolved; `None` where the path
/// climbs above its start.
pub open spec fn normalized_abs(path: Seq<char>) -> Option<Seq<Seq<char>>> {
    match abs_walk(components(path)) {
        Some((rooted, parts)) => Some(
            if rooted {
                seq![root_marker()] + parts
            } else {
                parts
            },
        ),
        None => None,
    }
}

/// `s` with every backslash turned into a slash.
pub open spec fn backslashes_to_slashes(s: Seq<char>) -> Seq<char> {
    Seq::new(
        s.len(),
        |i: int|
            if s[i] == '\\' {
                '/'
            } else {
                s[i]
            },
    )
}

/// The URL key of the document that a link points at. `None` for a link that
/// is not indexed: an external one, one without a path, one that climbs above
/// the file system's root, or one whose target lies outside the served root.
pub open spec fn link_target_key(dest: Seq<char>, source_path: Seq<char>, serve_root: Seq<char>) -> Option<
    Seq<char>,
> {
    if is_external_link(dest) || link_path(dest).len() == 0 {
        None
    } else {
        match normalized_abs(link_raw_path(link_path(dest), source_path, serve_root)) {
            None => None,
            Some(cs) => {
                let root = components(serve_root);
                if root.len() <= cs.len() && cs.take(root.len() as int) == root {
                    Some(
                        url_key(
                            backslashes_to_slashes(components_text(cs.skip(root.len() as int))),
                        ),
                    )
                } else {
                    None
                }
            },
        }
    }
}

/// Resolves `.` and `..` in a path without touching the file system. `None`
/// where a `..` would climb above the path's start.
pub fn normalize_abs_path(path: &str) -> (r: Option<Vec<Vec<char>>>)
    ensures
        r is Some <==> normalized_abs(path@) is Some,
        r matches Some(cs) ==> Some(views_of(cs@)) == normalized_abs(path@),
{
    let cs = path_components(path);
    let mut parts: Vec<Vec<char>> = Vec::new();
    let mut rooted = false;
    let mut i: usize = 0;
    proof {
        assert(views_of(cs@).take(0) =~= Seq::<Seq<char>>::empty());
        assert(views_of(parts@) =~= Seq::<Seq<char>>::empty());
    }
    while i < cs.len()
        invariant
            i <= cs.len(),
            views_of(cs@) == components(path@),
            abs_walk(views_of(cs@).take(i as int)) == Some((rooted, views_of(parts@))),
        decreases cs.len() - i,
    {
        let ghost all = views_of(cs@);
        let ghost before = views_of(parts@);
        proof {
            assert(all.take(i + 1).drop_last() == all.take(i as int));
            assert(all.take(i + 1).last() == cs@[i as int]@);
        }
        let c = &cs[i];
        let is_root = c.len() == 1 && c[0] == '/';
        let is_dot = c.len() == 1 && c[0] == '.';
        let is_dotdot = c.len() == 2 && c[0] == '.' && c[1] == '.';
        proof {
            if is_root {
                assert(c@ =~= root_marker());
            }
            if is_dot {
                assert(c@ =~= cur_dir());
            }
            if is_dotdot {
                assert(c@ =~= parent_dir());
            }
        }
        if is_root {
            rooted = true;
        } else if is_dot {
        } else if is_dotdot {
            if parts.len() == 0 {
                proof {
                    lemma_abs_walk_none_extends(all, i + 1);
                }
                return None;
            }
            parts.pop();
            proof {
                assert(views_of(parts@) =~= before.drop_last());
            }
        } else {
            parts.push(c.clone());
            proof {
                assert(views_of(parts@) =~= before.push(c@));
            }
        }
        i += 1;
    }
    proof {
        assert(views_of(cs@).take(cs.len() as int) == views_of(cs@));
    }
    if rooted {
        let mut out: Vec<Vec<char>> = Vec::new();
        let mut root: Vec<char> = Vec::new();
        root.push('/');
        out.push(root);
        let ghost names = views_of(parts@);
        out.append(&mut parts);
        proof {
            assert(out@[0]@ =~= root_marker());
            assert(views_of(out@) =~= seq![root_marker()] + names);
        }
        Some(out)
    } else {
        Some(parts)
    }
}

/// Once a prefix of the components has climbed too far, so has the whole.
proof fn lemma_abs_walk_none_extends(cs: Seq<Seq<char>>, n: int)
    requires
        0 <= n <= cs.len(),
        abs_walk(cs.take(n)) is None,
    ensures
        abs_walk(cs) is None,
    decreases cs.len() - n,
{
    if n < cs.len() {
        assert(cs.take(n + 1).drop_last() == cs.take(n));
        lemma_abs_walk_none_extends(cs, n + 1);
    } else {
        assert(cs.take(n) == cs);
    }
}

fn find_fragment_start(dest: &Vec<char>) -> (k: usize)
    ensures
        k == fragment_start(dest@),
        k <= dest.len(),
{
    let mut i: usize = 0;
    while i < dest.len()
        invariant
            i <= dest.len(),
            first_of(dest@, '#', '#', 0) == first_of(dest@, '#', '#', i as int),
        decreases dest.len() - i,
    {
        if dest[i] == '#' {
            return i;
        }
        i += 1;
    }
    i
}

/// Computes the URL key of the document that the link `dest`, found in
/// `source_path`, points at.
pub fn link_target(dest: &str, source_path: &str, serve_root: &str) -> (r: Option<String>)
    ensures
        r is Some <==> link_target_key(dest@, source_path@, serve_root@) is Some,
        r matches Some(k) ==> Some(k@) == link_target_key(dest@, source_path@, serve_root@),
{
    let d = chars_of(dest);
    let lowered = dest.to_lowercase();
    let low = chars_of(lowered.as_str());
    if starts_with(&low, "http:") || starts_with(&low, "https:") || starts_with(&low, "mailto:")
        || starts_with(&low, "ftp:") || starts_with(&d, "//") || starts_with(&d, "#") {
        return None;
    }
    let k = find_fragment_start(&d);
    if k == 0 {
        return None;
    }
    let mut path_part = String::new();
    push_chars(&mut path_part, &d, 0, k);
    proof {
        assert(d@.subrange(0, k as int) == link_path(dest@));
    }
    let raw = if d[0] == '/' {
        let mut s: usize = 0;
        proof {
            assert(path_part@.skip(0) == path_part@);
        }
        while s < k && d[s] == '/'
            invariant
                s <= k <= d.len(),
                path_part@ == d@.take(k as int),
                without_leading_slashes(path_part@) == without_leading_slashes(
                    path_part@.skip(s as int),
                ),
            decreases k - s,
        {
            proof {
                assert(path_part@.skip(s as int)[0] == d@[s as int]);
                assert(path_part@.skip(s as int).skip(1) == path_part@.skip(s + 1));
            }
            s += 1;
        }
        proof {
            if s < k {
                assert(path_part@.skip(s as int)[0] == d@[s as int]);
            }
        }
        let mut rest = String::new();
        push_chars(&mut rest, &d, s, k);
        proof {
            assert(d@.subrange(s as int, k as int) == path_part@.skip(s as int));
        }
        join_path(serve_root, rest.as_str())
    } else {
        let dir = match parent_of(source_path) {
            Some(p) => p,
            None => source_path.to_owned(),
        };
        join_path(dir.as_str(), path_part.as_str())
    };
    proof {
        assert(raw@ == link_raw_path(link_path(dest@), source_path@, serve_root@));
    }
    let resolved = match normalize_abs_path(raw.as_str()) {
        Some(cs) => cs,
        None => {
            return None;
        },
    };
    let root = path_components(serve_root);
    match strip_components(&resolved, &root) {
        None => None,
        Some(n) => {
            let rel = components_to_text(&resolved, n);
            let rc = chars_of(rel.as_str());
            let mut key = String::new();
            key.push('/');
            let mut i: usize = 0;
            while i < rc.len()
                invariant
                    i <= rc.len(),
                    key@ == seq!['/'] + backslashes_to_slashes(rc@).take(i as int),
                decreases rc.len() - i,
            {
                let c = if rc[i] == '\\' {
                    '/'
                } else {
                    rc[i]
                };
                key.push(c);
                proof {
                    assert(backslashes_to_slashes(rc@).take(i + 1) =~= backslashes_to_slashes(
                        rc@,
                    ).take(i as int).push(c));
                }
                i += 1;
            }
            proof {
                assert(backslashes_to_slashes(rc@).take(rc.len() as int) =~= backslashes_to_slashes(
                    rc@,
                ));
                assert(key@ =~= url_key(backslashes_to_slashes(rc@)));
            }
            Some(key)
        },
    }
}

/// What a link contributes to the index: the target's URL key, the link's
/// fragment and the snippet around it. `None` for a link that is not indexed
/// and for a span that does not lie within the source.
pub open spec fn outbound_for(
    span: LinkSpan,
    src: Seq<char>,
    source_path: Seq<char>,
    serve_root: Seq<char>,
) -> Option<(Seq<char>, Option<Seq<char>>, Seq<char>)> {
    match link_target_key(span.dest@, source_path, serve_root) {
        Some(key) => if span.start <= span.end <= encode_utf8(src).len() {
            Some(
                (
                    key,
                    link_fragment(span.dest@),
                    plain_snippet(
                        window_text(src, span.start as int, span.end as int),
                        SNIPPET_MAX_BYTES as nat,
                    ),
                ),
            )
        } else {
            None
        },
        None => None,
    }
}

/// An outbound reference as plain text.
pub open spec fn outbound_view(r: OutboundRef) -> (Seq<char>, Option<Seq<char>>, Seq<char>) {
    (
        r.target_url_path@,
        match r.target_fragment {
            Some(f) => Some(f@),
            None => None,
        },
        r.snippet@,
    )
}

/// Builds the outbound reference for one link of `src`.
pub fn outbound_ref_for(span: &LinkSpan, src: &str, source_path: &str, serve_root: &str) -> (r:
    Option<OutboundRef>)
    ensures
        r is Some <==> outbound_for(*span, src@, source_path@, serve_root@) is Some,
        r matches Some(o) ==> Some(outbound_view(o)) == outbound_for(
            *span,
            src@,
            source_path@,
            serve_root@,
        ),
{
    let key = match link_target(span.dest.as_str(), source_path, serve_root) {
        Some(k) => k,
        None => {
            return None;
        },
    };
    if !(span.start <= span.end && span.end <= src.as_bytes().len()) {
        return None;
    }
    let d = chars_of(span.dest.as_str());
    let k = find_fragment_start(&d);
    let fragment = if k < d.len() && k + 1 < d.len() {
        let mut f = String::new();
        push_chars(&mut f, &d, k + 1, d.len());
        proof {
            assert(d@.subrange(k + 1, d.len() as int) == d@.skip(k + 1));
        }
        Some(f)
    } else {
        None
    };
    let raw = snippet_window(src, span.start, span.end);
    let snippet = strip_markdown_to_plain(raw, SNIPPET_MAX_BYTES);
    Some(OutboundRef { target_url_path: key, target_fragment: fragment, snippet })
}

/// The outbound references of a document, link by link.
pub open spec fn outbound_refs(
    spans: Seq<LinkSpan>,
    src: Seq<char>,
    source_path: Seq<char>,
    serve_root: Seq<char>,
) -> Seq<(Seq<char>, Option<Seq<char>>, Seq<char>)>
    decreases spans.len(),
{
    if spans.len() == 0 {
        Seq::empty()
    } else {
        let before = outbound_refs(spans.drop_last(), src, source_path, serve_root);
        match outbound_for(spans.last(), src, source_path, serve_root) {
            Some(o) => before.push(o),
            None => before,
        }
    }
}

/// A list of outbound references as plain text.
pub open spec fn outbound_views(refs: Seq<OutboundRef>) -> Seq<
    (Seq<char>, Option<Seq<char>>, Seq<char>),
> {
    Seq::new(refs.len(), |i: int| outbound_view(refs[i]))
}

/// Extracts the title and the outbound references of a document from its
/// event stream.
pub fn extract_from_events(
    events: &Vec<MdEvent>,
    src: &str,
    source_path: &str,
    serve_root: &str,
) -> (r: DocExtractResult)
    ensures
        r.title is Some <==> document_title(events@) is Some,
        r.title matches Some(t) ==> Some(t@) == document_title(events@),
        outbound_views(r.outbound_refs@) == outbound_refs(
            link_spans(events@),
            src@,
            source_path@,
            serve_root@,
        ),
{
    let title = title_from_events(events);
    let spans = links_from_events(events);
    let mut refs: Vec<OutboundRef> = Vec::new();
    let mut i: usize = 0;
    proof {
        assert(spans@.take(0) =~= Seq::<LinkSpan>::empty());
        assert(outbound_views(refs@) =~= Seq::empty());
    }
    while i < spans.len()
        invariant
            i <= spans.len(),
            outbound_views(refs@) == outbound_refs(
                spans@.take(i as int),
                src@,
                source_path@,
                serve_root@,
            ),
        decreases spans.len() - i,
    {
        let ghost before = outbound_views(refs@);
        proof {
            assert(spans@.take(i + 1).drop_last() == spans@.take(i as int));
            assert(spans@.take(i + 1).last() == spans@[i as int]);
        }
        match outbound_ref_for(&spans[i], src, source_path, serve_root) {
            Some(o) => {
                refs.push(o);
                proof {
                    assert(outbound_views(refs@) =~= before.push(outbound_view(o)));
                }
            },
            None => {},
        }
        i += 1;
    }
    proof {
        assert(spans@.take(spans.len() as int) == spans@);
    }
    DocExtractResult { title, outbound_refs: refs }
}

/// Extracts the first top-level heading and the local links of a markdown
/// document. `source_path` is the document's own path and `serve_root` the
/// served root; links whose targets lie outside the root are dropped. A link
/// to the document itself is kept here and left to the index to drop.
pub fn extract_outbound_links(src: &str, source_path: &str, serve_root: &str) -> (r:
    DocExtractResult)
    ensures
        r.title is Some <==> document_title(event_stream(src@, true, true, false)) is Some,
        r.title matches Some(t) ==> Some(t@) == document_title(
            event_stream(src@, true, true, false),
        ),
        outbound_views(r.outbound_refs@) == outbound_refs(
            link_spans(event_stream(src@, true, true, false)),
            src@,
            source_path@,
            serve_root@,
        ),
{
    let events = markdown_events(src, true, true, false);
    extract_from_events(&events, src, source_path, serve_root)
}


// ---------------------------------------------------------------------------
// The index
// ---------------------------------------------------------------------------

/// A backlink as plain text: source URL path, source display, snippet, and
/// the link's fragment.
pub type BacklinkText = (Seq<char>, Seq<char>, Seq<char>, Option<Seq<char>>);

/// A backlink as plain text.
pub open spec fn backlink_view(b: BacklinkRef) -> BacklinkText {
    (
        b.source_url_path@,
        b.source_display@,
        b.snippet@,
        match b.target_fragment {
            Some(f) => Some(f@),
            None => None,
        },
    )
}

/// A list of backlinks as plain text.
pub open spec fn backlink_views(bs: Seq<BacklinkRef>) -> Seq<BacklinkText> {
    Seq::new(bs.len(), |i: int| backlink_view(bs[i]))
}

/// The backlinks index: for each URL key, the references to that document in
/// the order in which they were found. It is built once and then only read.
/// An index that is `wf` has one entry per key.
#[derive(Debug)]
pub struct BacklinksIndex {
    /// One entry per key that has a reference, in the order of first use.
    pub entries: Vec<(String, Vec<BacklinkRef>)>,
}

/// The position of the first entry for `key`, at or after `from`.
pub open spec fn entry_position(
    entries: Seq<(String, Vec<BacklinkRef>)>,
    key: Seq<char>,
    from: int,
) -> Option<int>
    decreases entries.len() - from,
{
    if from < 0 || from >= entries.len() {
        None
    } else if entries[from].0@ == key {
        Some(from)
    } else {
        entry_position(entries, key, from + 1)
    }
}

/// Whether no two of the entries have the same key.
pub open spec fn distinct_keys(entries: Seq<(String, Vec<BacklinkRef>)>) -> bool {
    forall|i: int, j: int|
        0 <= i < j < entries.len() ==> (#[trigger] entries[i]).0@ != (#[trigger] entries[j]).0@
}

impl BacklinksIndex {
    /// Whether the index is as it should be: one entry per key. Then `len`
    /// counts the documents that have references, and every entry is found
    /// under its key.
    pub open spec fn wf(&self) -> bool {
        distinct_keys(self.entries@)
    }

    /// Whether the index has an entry for `key`.
    pub open spec fn has_key(&self, key: Seq<char>) -> bool {
        entry_position(self.entries@, key, 0) is Some
    }

    /// The references to the document with URL key `key`, as plain text;
    /// empty where the index has no entry for it.
    pub open spec fn lookup(&self, key: Seq<char>) -> Seq<BacklinkText> {
        match entry_position(self.entries@, key, 0) {
            Some(i) => backlink_views(self.entries@[i].1@),
            None => Seq::empty(),
        }
    }

    /// An index without entries.
    pub fn new() -> (r: Self)
        ensures
            r.wf(),
            forall|k: Seq<char>| !r.has_key(k),
            r.entries@.len() == 0,
    {
        BacklinksIndex { entries: Vec::new() }
    }

    fn position(&self, key: &str) -> (r: Option<usize>)
        ensures
            r is Some <==> self.has_key(key@),
            r matches Some(i) ==> entry_position(self.entries@, key@, 0) == Some(i as int) && i
                < self.entries.len(),
    {
        let mut i: usize = 0;
        while i < self.entries.len()
            invariant
                i <= self.entries.len(),
                entry_position(self.entries@, key@, 0) == entry_position(
                    self.entries@,
                    key@,
                    i as int,
                ),
            decreases self.entries.len() - i,
        {
            if str_eq(self.entries[i].0.as_str(), key) {
                return Some(i);
            }
            i += 1;
        }
        None
    }

    /// The references to the document with URL key `key`, if it has any entry.
    pub fn get(&self, key: &str) -> (r: Option<&Vec<BacklinkRef>>)
        ensures
            r is Some <==> self.has_key(key@),
            r matches Some(v) ==> backlink_views(v@) == self.lookup(key@),
    {
        match self.position(key) {
            Some(i) => Some(&self.entries[i].1),
            None => None,
        }
    }

    /// Whether the index has an entry for `key`.
    pub fn contains_key(&self, key: &str) -> (r: bool)
        ensures
            r == self.has_key(key@),
    {
        self.position(key).is_some()
    }

    /// Whether the index has no entry at all.
    pub fn is_empty(&self) -> (r: bool)
        ensures
            r == (self.entries@.len() == 0),
    {
        self.entries.len() == 0
    }

    /// Sets the references to the document with URL key `key`, and hands
    /// back those that it had.
    pub fn insert(&mut self, key: String, refs: Vec<BacklinkRef>) -> (had: Option<Vec<BacklinkRef>>)
        ensures
            old(self).wf() ==> final(self).wf(),
            final(self).entries@.len() == old(self).entries@.len() + if old(self).has_key(key@) {
                0int
            } else {
                1int
            },
            final(self).has_key(key@),
            final(self).lookup(key@) == backlink_views(refs@),
            had is Some <==> old(self).has_key(key@),
            had matches Some(v) ==> backlink_views(v@) == old(self).lookup(key@),
            forall|k: Seq<char>|
                k != key@ ==> final(self).has_key(k) == old(self).has_key(k)
                    && final(self).lookup(k) == old(self).lookup(k),
    {
        let ghost before = self.entries@;
        match self.position(key.as_str()) {
            Some(i) => {
                let (name, old_refs) = self.entries.remove(i);
                self.entries.insert(i, (name, refs));
                proof {
                    let after = self.entries@;
                    assert forall|j: int| 0 <= j < after.len() implies (#[trigger] after[j]).0
                        == before[j].0 by {}
                    lemma_same_keys_distinct(before, after);
                    assert forall|k: Seq<char>|
                        entry_position(after, k, 0) == entry_position(before, k, 0) by {
                        lemma_same_keys_same_position(before, after, k, 0);
                    }
                    lemma_position_in_range(before, key@, 0);
                    assert forall|k: Seq<char>| k != key@ implies self.has_key(k) == old(
                        self,
                    ).has_key(k) && self.lookup(k) == old(self).lookup(k) by {
                        lemma_position_in_range(before, k, 0);
                        match entry_position(before, k, 0) {
                            Some(p) => {
                                assert(p != i);
                                assert(after[p] == before[p]);
                            },
                            None => {},
                        }
                    }
                }
                Some(old_refs)
            },
            None => {
                let ghost kv = key@;
                self.entries.push((key, refs));
                proof {
                    let after = self.entries@;
                    lemma_push_distinct(before, after, kv);
                    assert forall|k: Seq<char>|
                        entry_position(after, k, 0) == (if entry_position(before, k, 0) is Some {
                            entry_position(before, k, 0)
                        } else if k == kv {
                            Some(before.len() as int)
                        } else {
                            None
                        }) by {
                        lemma_position_after_push(before, after, k, 0);
                    }
                    assert forall|k: Seq<char>| k != kv implies self.has_key(k) == old(
                        self,
                    ).has_key(k) && self.lookup(k) == old(self).lookup(k) by {
                        lemma_position_in_range(before, k, 0);
                        match entry_position(before, k, 0) {
                            Some(p) => {
                                assert(after[p] == before[p]);
                            },
                            None => {},
                        }
                    }
                }
                None
            },
        }
    }

    /// How many entries the index has; in an index that is `wf` that is the
    /// number of documents that have references.
    pub fn len(&self) -> (n: usize)
        ensures
            n == self.entries@.len(),
    {
        self.entries.len()
    }

    /// Adds a reference to the document with URL key `key`, after those that
    /// it already has.
    pub fn push_ref(&mut self, key: &str, r: BacklinkRef)
        ensures
            old(self).wf() ==> final(self).wf(),
            final(self).has_key(key@),
            final(self).lookup(key@) == old(self).lookup(key@).push(backlink_view(r)),
            forall|k: Seq<char>|
                k != key@ ==> final(self).has_key(k) == old(self).has_key(k)
                    && final(self).lookup(k) == old(self).lookup(k),
    {
        let ghost before = self.entries@;
        match self.position(key) {
            Some(i) => {
                let mut refs: Vec<BacklinkRef> = Vec::new();
                let (name, mut have) = self.entries.remove(i);
                let ghost had = have@;
                refs.append(&mut have);
                refs.push(r);
                self.entries.insert(i, (name, refs));
                proof {
                    let after = self.entries@;
                    assert(after.len() == before.len());
                    assert forall|j: int| 0 <= j < after.len() implies (#[trigger] after[j]).0
                        == before[j].0 by {}
                    lemma_same_keys_distinct(before, after);
                    assert forall|j: int| 0 <= j < after.len() && j != i implies after[j]
                        == before[j] by {}
                    assert(backlink_views(after[i as int].1@) =~= backlink_views(had).push(
                        backlink_view(r),
                    ));
                    assert forall|k: Seq<char>|
                        entry_position(after, k, 0) == entry_position(before, k, 0) by {
                        lemma_same_keys_same_position(before, after, k, 0);
                    }
                    lemma_position_in_range(before, key@, 0);
                    assert forall|k: Seq<char>| k != key@ implies self.has_key(k) == old(
                        self,
                    ).has_key(k) && self.lookup(k) == old(self).lookup(k) by {
                        lemma_position_in_range(before, k, 0);
                        match entry_position(before, k, 0) {
                            Some(p) => {
                                assert(p != i);
                                assert(after[p] == before[p]);
                            },
                            None => {},
                        }
                    }
                    lemma_position_in_range(before, key@, 0);
                }
            },
            None => {
                let mut refs: Vec<BacklinkRef> = Vec::new();
                refs.push(r);
                self.entries.push((key.to_owned(), refs));
                proof {
                    let after = self.entries@;
                    lemma_push_distinct(before, after, key@);
                    assert(backlink_views(after[before.len() as int].1@) =~= Seq::<
                        BacklinkText,
                    >::empty().push(backlink_view(r)));
                    assert forall|k: Seq<char>|
                        entry_position(after, k, 0) == (if entry_position(before, k, 0) is Some {
                            entry_position(before, k, 0)
                        } else if k == key@ {
                            Some(before.len() as int)
                        } else {
                            None
                        }) by {
                        lemma_position_after_push(before, after, k, 0);
                    }
                    assert forall|k: Seq<char>| k != key@ implies self.has_key(k) == old(
                        self,
                    ).has_key(k) && self.lookup(k) == old(self).lookup(k) by {
                        lemma_position_in_range(before, k, 0);
                        match entry_position(before, k, 0) {
                            Some(p) => {
                                assert(after[p] == before[p]);
                            },
                            None => {},
                        }
                    }
                }
            },
        }
    }
}

/// A position that is found lies within the entries and holds the key.
proof fn lemma_position_in_range(entries: Seq<(String, Vec<BacklinkRef>)>, key: Seq<char>, from: int)
    ensures
        entry_position(entries, key, from) matches Some(p) ==> from <= p < entries.len()
            && entries[p].0@ == key,
    decreases entries.len() - from,
{
    if 0 <= from < entries.len() && entries[from].0@ != key {
        lemma_position_in_range(entries, key, from + 1);
    }
}

/// A key that is not found stands in no entry.
proof fn lemma_absent_key(entries: Seq<(String, Vec<BacklinkRef>)>, key: Seq<char>, from: int)
    requires
        0 <= from,
        entry_position(entries, key, from) is None,
    ensures
        forall|j: int| from <= j < entries.len() ==> (#[trigger] entries[j]).0@ != key,
    decreases entries.len() - from,
{
    if from < entries.len() {
        lemma_absent_key(entries, key, from + 1);
    }
}

/// Entries with the same keys have distinct keys together.
proof fn lemma_same_keys_distinct(
    a: Seq<(String, Vec<BacklinkRef>)>,
    b: Seq<(String, Vec<BacklinkRef>)>,
)
    requires
        a.len() == b.len(),
        forall|j: int| 0 <= j < a.len() ==> (#[trigger] b[j]).0 == a[j].0,
    ensures
        distinct_keys(a) ==> distinct_keys(b),
{
    if distinct_keys(a) {
        assert forall|i: int, j: int| 0 <= i < j < b.len() implies (#[trigger] b[i]).0@ != (
        #[trigger] b[j]).0@ by {
            assert(b[i].0 == a[i].0 && b[j].0 == a[j].0);
        }
    }
}

/// An entry under a key that was not there keeps the keys distinct.
proof fn lemma_push_distinct(
    a: Seq<(String, Vec<BacklinkRef>)>,
    b: Seq<(String, Vec<BacklinkRef>)>,
    key: Seq<char>,
)
    requires
        b.len() == a.len() + 1,
        forall|j: int| 0 <= j < a.len() ==> (#[trigger] b[j]) == a[j],
        b[a.len() as int].0@ == key,
        entry_position(a, key, 0) is None,
    ensures
        distinct_keys(a) ==> distinct_keys(b),
{
    lemma_absent_key(a, key, 0);
    if distinct_keys(a) {
        assert forall|i: int, j: int| 0 <= i < j < b.len() implies (#[trigger] b[i]).0@ != (
        #[trigger] b[j]).0@ by {
            assert(b[i] == a[i]);
            if j < a.len() {
                assert(b[j] == a[j]);
            }
        }
    }
}

/// Entries with the same keys are found at the same positions.
proof fn lemma_same_keys_same_position(
    a: Seq<(String, Vec<BacklinkRef>)>,
    b: Seq<(String, Vec<BacklinkRef>)>,
    key: Seq<char>,
    from: int,
)
    requires
        a.len() == b.len(),
        forall|j: int| 0 <= j < a.len() ==> (#[trigger] b[j]).0 == a[j].0,
    ensures
        entry_position(b, key, from) == entry_position(a, key, from),
    decreases a.len() - from,
{
    if 0 <= from < a.len() {
        assert(b[from].0 == a[from].0);
        lemma_same_keys_same_position(a, b, key, from + 1);
    }
}

/// Where a key is found after one more entry was added at the end.
proof fn lemma_position_after_push(
    a: Seq<(String, Vec<BacklinkRef>)>,
    b: Seq<(String, Vec<BacklinkRef>)>,
    key: Seq<char>,
    from: int,
)
    requires
        b.len() == a.len() + 1,
        forall|j: int| 0 <= j < a.len() ==> (#[trigger] b[j]) == a[j],
        0 <= from <= a.len(),
    ensures
        entry_position(b, key, from) == (if entry_position(a, key, from) is Some {
            entry_position(a, key, from)
        } else if b[a.len() as int].0@ == key {
            Some(a.len() as int)
        } else {
            None
        }),
    decreases a.len() - from,
{
    if from < a.len() {
        assert(b[from] == a[from]);
        lemma_position_after_push(a, b, key, from + 1);
    } else {
        assert(entry_position(b, key, from + 1) is None);
        assert(entry_position(a, key, from) is None);
    }
}

/// Whether one of `refs` points at `target`.
pub open spec fn targets(refs: Seq<(Seq<char>, Option<Seq<char>>, Seq<char>)>, target: Seq<char>) -> bool {
    exists|j: int| 0 <= j < refs.len() && (#[trigger] refs[j]).0 == target
}

/// The edges that a source document adds to the index: of its outbound
/// references, in order, the first to each target other than the source
/// itself.
pub open spec fn edges_of(
    refs: Seq<(Seq<char>, Option<Seq<char>>, Seq<char>)>,
    source_key: Seq<char>,
) -> Seq<(Seq<char>, Option<Seq<char>>, Seq<char>)>
    decreases refs.len(),
{
    if refs.len() == 0 {
        Seq::empty()
    } else {
        let before = edges_of(refs.drop_last(), source_key);
        if refs.last().0 == source_key || targets(refs.drop_last(), refs.last().0) {
            before
        } else {
            before.push(refs.last())
        }
    }
}

/// The references that the edges of one source add under `key`.
pub open spec fn added_under(
    edges: Seq<(Seq<char>, Option<Seq<char>>, Seq<char>)>,
    key: Seq<char>,
    source_key: Seq<char>,
    display: Seq<char>,
) -> Seq<BacklinkText>
    decreases edges.len(),
{
    if edges.len() == 0 {
        Seq::empty()
    } else {
        let before = added_under(edges.drop_last(), key, source_key, display);
        if edges.last().0 == key {
            before.push((source_key, display, edges.last().2, edges.last().1))
        } else {
            before
        }
    }
}

/// How a source document is shown: by its title, or else by its path
/// relative to the root.
pub open spec fn display_of(title: Option<Seq<char>>, source_rel: Seq<char>) -> Seq<char> {
    match title {
        Some(t) => t,
        None => source_rel,
    }
}

/// The text of an optional string.
pub open spec fn optional_text(s: Option<String>) -> Option<Seq<char>> {
    match s {
        Some(t) => Some(t@),
        None => None,
    }
}

fn target_seen(refs: &Vec<OutboundRef>, upto: usize, target: &str) -> (r: bool)
    requires
        upto <= refs.len(),
    ensures
        r == targets(outbound_views(refs@).take(upto as int), target@),
{
    let ghost head = outbound_views(refs@).take(upto as int);
    let mut j: usize = 0;
    while j < upto
        invariant
            j <= upto <= refs.len(),
            head == outbound_views(refs@).take(upto as int),
            forall|k: int| 0 <= k < j ==> (#[trigger] head[k]).0 != target@,
        decreases upto - j,
    {
        if str_eq(refs[j].target_url_path.as_str(), target) {
            proof {
                assert(head[j as int].0 == target@);
            }
            return true;
        }
        j += 1;
    }
    false
}

/// Enters the edges of one source document into the index. A link to the
/// document itself adds nothing, and of several links to one target only the
/// first counts. Returns the number of edges added.
pub fn index_document(index: &mut BacklinksIndex, source_rel: &str, extracted: &DocExtractResult) -> (added:
    usize)
    ensures
        old(index).wf() ==> final(index).wf(),
        added == edges_of(outbound_views(extracted.outbound_refs@), url_key(source_rel@)).len(),
        forall|k: Seq<char>|
            final(index).lookup(k) == old(index).lookup(k) + added_under(
                edges_of(outbound_views(extracted.outbound_refs@), url_key(source_rel@)),
                k,
                url_key(source_rel@),
                display_of(optional_text(extracted.title), source_rel@),
            ),
        forall|k: Seq<char>|
            final(index).has_key(k) <==> old(index).has_key(k) || added_under(
                edges_of(outbound_views(extracted.outbound_refs@), url_key(source_rel@)),
                k,
                url_key(source_rel@),
                display_of(optional_text(extracted.title), source_rel@),
            ).len() > 0,
{
    let source_key = url_key_from_rel_path(source_rel);
    let refs = &extracted.outbound_refs;
    let ghost all = outbound_views(refs@);
    let ghost display = display_of(optional_text(extracted.title), source_rel@);
    let mut added: usize = 0;
    let mut i: usize = 0;
    proof {
        assert(all.take(0) =~= Seq::empty());
        assert forall|k: Seq<char>|
            index.lookup(k) == old(index).lookup(k) + added_under(
                edges_of(all.take(0), source_key@),
                k,
                source_key@,
                display,
            ) by {
            assert(old(index).lookup(k) + Seq::<BacklinkText>::empty() =~= old(index).lookup(k));
        }
    }
    while i < refs.len()
        invariant
            i <= refs.len(),
            refs == &extracted.outbound_refs,
            all == outbound_views(refs@),
            source_key@ == url_key(source_rel@),
            display == display_of(optional_text(extracted.title), source_rel@),
            added == edges_of(all.take(i as int), source_key@).len(),
            added <= i,
            old(index).wf() ==> index.wf(),
            forall|k: Seq<char>|
                index.lookup(k) == old(index).lookup(k) + added_under(
                    edges_of(all.take(i as int), source_key@),
                    k,
                    source_key@,
                    display,
                ),
            forall|k: Seq<char>|
                index.has_key(k) <==> old(index).has_key(k) || added_under(
                    edges_of(all.take(i as int), source_key@),
                    k,
                    source_key@,
                    display,
                ).len() > 0,
        decreases refs.len() - i,
    {
        let o = &refs[i];
        let ghost before_index = *index;
        let ghost before_edges = edges_of(all.take(i as int), source_key@);
        proof {
            assert(all.take(i + 1).drop_last() == all.take(i as int));
            assert(all.take(i + 1).last() == outbound_view(*o));
        }
        let is_self = str_eq(o.target_url_path.as_str(), source_key.as_str());
        if !is_self && !target_seen(refs, i, o.target_url_path.as_str()) {
            let shown = match &extracted.title {
                Some(t) => t.clone(),
                None => source_rel.to_owned(),
            };
            let r = BacklinkRef {
                source_url_path: source_key.clone(),
                source_display: shown,
                snippet: o.snippet.clone(),
                target_fragment: o.target_fragment.clone(),
            };
            index.push_ref(o.target_url_path.as_str(), r);
            added += 1;
            proof {
                let e = outbound_view(*o);
                assert(backlink_view(r) == (source_key@, display, e.2, e.1));
                let after_edges = edges_of(all.take(i + 1), source_key@);
                assert(after_edges == before_edges.push(e));
                assert(after_edges.drop_last() == before_edges);
                assert forall|k: Seq<char>|
                    index.lookup(k) == old(index).lookup(k) + added_under(
                        after_edges,
                        k,
                        source_key@,
                        display,
                    ) by {
                    let base = old(index).lookup(k);
                    let had = added_under(before_edges, k, source_key@, display);
                    if k == e.0 {
                        assert(base + had.push(backlink_view(r)) =~= (base + had).push(
                            backlink_view(r),
                        ));
                    }
                }
                assert forall|k: Seq<char>|
                    index.has_key(k) <==> old(index).has_key(k) || added_under(
                        after_edges,
                        k,
                        source_key@,
                        display,
                    ).len() > 0 by {
                    let had = added_under(before_edges, k, source_key@, display);
                    if k == e.0 {
                        assert(added_under(after_edges, k, source_key@, display) == had.push(
                            backlink_view(r),
                        ));
                    } else {
                        assert(before_index.has_key(k) == index.has_key(k));
                    }
                }
            }
        }
        i += 1;
    }
    proof {
        assert(all.take(refs.len() as int) == all);
    }
    added
}


// ---------------------------------------------------------------------------
// Building the index
// ---------------------------------------------------------------------------

/// A markdown file that was read from the served tree.
#[derive(Debug, Clone)]
pub struct SourceFile {
    /// The file's path, as the root's path extended by the names below it.
    pub path: String,
    /// The file's text.
    pub contents: String,
}

/// The hint that the server prints once the index stands.
pub const INDEX_HINT: &'static str =
    "backlinks: startup-indexed; restart server after file edits to pick up changes";

/// The directories that the walk never enters.
pub open spec fn is_skipped_dir_name(name: Seq<char>) -> bool {
    name == ".git"@ || name == "node_modules"@ || name == ".jj"@
}

/// Whether the walk over the served tree passes a directory of this name by.
pub fn is_skipped_dir(name: &str) -> (r: bool)
    ensures
        r == is_skipped_dir_name(name@),
{
    let n = chars_of(name);
    chars_are(&n, ".git") || chars_are(&n, "node_modules") || chars_are(&n, ".jj")
}

/// The files that are indexed: those with the extension `md` or `markdown`,
/// in exactly that case.
pub open spec fn is_indexed_path(path: Seq<char>) -> bool {
    extension_text(path) == Some("md"@) || extension_text(path) == Some("markdown"@)
}

/// Whether a file of this path is read for the index.
pub fn is_indexed_file(path: &str) -> (r: bool)
    ensures
        r == is_indexed_path(path@),
{
    match extension_of(path) {
        Some(e) => {
            let c = chars_of(e.as_str());
            chars_are(&c, "md") || chars_are(&c, "markdown")
        },
        None => false,
    }
}

/// The path of a source file relative to the root, with `/` between names;
/// empty where the file does not lie under the root.
pub open spec fn source_rel_of(path: Seq<char>, serve_root: Seq<char>) -> Seq<char> {
    match stripped(path, serve_root) {
        Some(rest) => backslashes_to_slashes(components_text(rest)),
        None => Seq::<char>::empty(),
    }
}

/// Computes the path of a source file relative to the root.
pub fn source_rel_path(path: &str, serve_root: &str) -> (out: String)
    ensures
        out@ == source_rel_of(path@, serve_root@),
{
    let pc = path_components(path);
    let rc = path_components(serve_root);
    match strip_components(&pc, &rc) {
        None => String::new(),
        Some(n) => {
            let rel = components_to_text(&pc, n);
            let cs = chars_of(rel.as_str());
            let mut out = String::new();
            let mut i: usize = 0;
            proof {
                assert(out@ =~= backslashes_to_slashes(cs@).take(0));
            }
            while i < cs.len()
                invariant
                    i <= cs.len(),
                    out@ == backslashes_to_slashes(cs@).take(i as int),
                decreases cs.len() - i,
            {
                let c = if cs[i] == '\\' {
                    '/'
                } else {
                    cs[i]
                };
                out.push(c);
                proof {
                    assert(backslashes_to_slashes(cs@).take(i + 1) =~= backslashes_to_slashes(
                        cs@,
                    ).take(i as int).push(c));
                }
                i += 1;
            }
            proof {
                assert(backslashes_to_slashes(cs@).take(cs.len() as int) =~= backslashes_to_slashes(
                    cs@,
                ));
            }
            out
        },
    }
}

/// What one file adds under `key` when the index is built.
pub open spec fn file_adds(f: SourceFile, serve_root: Seq<char>, key: Seq<char>) -> Seq<BacklinkText> {
    let events = event_stream(f.contents@, true, true, false);
    let rel = source_rel_of(f.path@, serve_root);
    added_under(
        edges_of(
            outbound_refs(link_spans(events), f.contents@, f.path@, serve_root),
            url_key(rel),
        ),
        key,
        url_key(rel),
        display_of(document_title(events), rel),
    )
}

/// The references under `key` in the index built from `files`: what each
/// file adds, file after file.
pub open spec fn built_lookup(files: Seq<SourceFile>, serve_root: Seq<char>, key: Seq<char>) -> Seq<
    BacklinkText,
>
    decreases files.len(),
{
    if files.len() == 0 {
        Seq::empty()
    } else {
        built_lookup(files.drop_last(), serve_root, key) + file_adds(files.last(), serve_root, key)
    }
}

/// Builds the backlinks index from the markdown files of the served tree.
/// Each file is searched for local links; each link becomes a reference
/// under its target's URL key, except links of a file to itself and repeated
/// links of one file to one target.
pub fn build_backlinks_index(serve_root: &str, files: &Vec<SourceFile>) -> (index: BacklinksIndex)
    ensures
        index.wf(),
        forall|k: Seq<char>| index.lookup(k) == built_lookup(files@, serve_root@, k),
        forall|k: Seq<char>| index.has_key(k) <==> built_lookup(files@, serve_root@, k).len() > 0,
{
    let mut index = BacklinksIndex::new();
    let mut i: usize = 0;
    proof {
        assert(files@.take(0) =~= Seq::<SourceFile>::empty());
    }
    while i < files.len()
        invariant
            i <= files.len(),
            index.wf(),
            forall|k: Seq<char>|
                index.lookup(k) == built_lookup(files@.take(i as int), serve_root@, k),
            forall|k: Seq<char>|
                index.has_key(k) <==> built_lookup(files@.take(i as int), serve_root@, k).len()
                    > 0,
        decreases files.len() - i,
    {
        let f = &files[i];
        proof {
            assert(files@.take(i + 1).drop_last() == files@.take(i as int));
            assert(files@.take(i + 1).last() == files@[i as int]);
        }
        let extracted = extract_outbound_links(f.contents.as_str(), f.path.as_str(), serve_root);
        let rel = source_rel_path(f.path.as_str(), serve_root);
        let _ = index_document(&mut index, rel.as_str(), &extracted);
        proof {
            assert(optional_text(extracted.title) == document_title(
                event_stream(f.contents@, true, true, false),
            ));
        }
        i += 1;
    }
    proof {
        assert(files@.take(files.len() as int) == files@);
    }
    index
}

/// The number of references in the index, up to the largest `usize`.
pub open spec fn edge_total(entries: Seq<(String, Vec<BacklinkRef>)>) -> nat
    decreases entries.len(),
{
    if entries.len() == 0 {
        0
    } else {
        edge_total(entries.drop_last()) + entries.last().1@.len()
    }
}

/// Counts the references in the index; the count stops at `usize::MAX`.
pub fn edge_count(index: &BacklinksIndex) -> (n: usize)
    ensures
        n == if edge_total(index.entries@) <= usize::MAX {
            edge_total(index.entries@)
        } else {
            usize::MAX as nat
        },
{
    let mut n: usize = 0;
    let mut i: usize = 0;
    proof {
        assert(index.entries@.take(0) =~= Seq::empty());
    }
    while i < index.entries.len()
        invariant
            i <= index.entries.len(),
            n == if edge_total(index.entries@.take(i as int)) <= usize::MAX {
                edge_total(index.entries@.take(i as int))
            } else {
                usize::MAX as nat
            },
        decreases index.entries.len() - i,
    {
        proof {
            assert(index.entries@.take(i + 1).drop_last() == index.entries@.take(i as int));
            assert(index.entries@.take(i + 1).last() == index.entries@[i as int]);
        }
        let m = index.entries[i].1.len();
        n = if n > usize::MAX - m {
            usize::MAX
        } else {
            n + m
        };
        i += 1;
    }
    proof {
        assert(index.entries@.take(index.entries.len() as int) == index.entries@);
    }
    n
}

/// The diagnostic line that sums the build up.
pub open spec fn index_summary_text(files: nat, edges: nat) -> Seq<char> {
    "[backlinks] indexed files="@ + decimal(files) + " edges="@ + decimal(edges)
}

/// Builds the diagnostic line that sums the build up.
pub fn index_summary(files: usize, edges: usize) -> (out: String)
    ensures
        out@ == index_summary_text(files as nat, edges as nat),
{
    let mut out = String::new();
    out.append("[backlinks] indexed files=");
    push_decimal(&mut out, files as u64);
    out.append(" edges=");
    push_decimal(&mut out, edges as u64);
    proof {
        assert(out@ =~= index_summary_text(files as nat, edges as nat));
    }
    out
}

// ---------------------------------------------------------------------------
// What holds of every index
// ---------------------------------------------------------------------------

/// No source adds an edge to itself, and every edge comes from the source's
/// own references.
pub proof fn lemma_edges_exclude_source(
    refs: Seq<(Seq<char>, Option<Seq<char>>, Seq<char>)>,
    source_key: Seq<char>,
)
    ensures
        forall|i: int|
            0 <= i < edges_of(refs, source_key).len() ==> (#[trigger] edges_of(
                refs,
                source_key,
            )[i]).0 != source_key && targets(refs, edges_of(refs, source_key)[i].0),
    decreases refs.len(),
{
    if refs.len() > 0 {
        lemma_edges_exclude_source(refs.drop_last(), source_key);
        let before = edges_of(refs.drop_last(), source_key);
        let all = edges_of(refs, source_key);
        assert forall|i: int| 0 <= i < all.len() implies (#[trigger] all[i]).0 != source_key
            && targets(refs, all[i].0) by {
            if i < before.len() {
                let j = choose|j: int|
                    0 <= j < refs.drop_last().len() && (#[trigger] refs.drop_last()[j]).0
                        == before[i].0;
                assert(refs[j].0 == all[i].0);
            } else {
                assert(refs[refs.len() - 1].0 == all[i].0);
            }
        }
    }
}

/// A source that links to a target any number of times adds exactly one
/// reference under that target, and none under its own key or under a key
/// that it does not link to.
pub proof fn lemma_one_edge_per_target(
    refs: Seq<(Seq<char>, Option<Seq<char>>, Seq<char>)>,
    source_key: Seq<char>,
    display: Seq<char>,
    target: Seq<char>,
)
    ensures
        added_under(edges_of(refs, source_key), target, source_key, display).len() == if target
            != source_key && targets(refs, target) {
            1nat
        } else {
            0nat
        },
    decreases refs.len(),
{
    if refs.len() > 0 {
        let head = refs.drop_last();
        lemma_one_edge_per_target(head, source_key, display, target);
        let last = refs.last();
        if last.0 == source_key || targets(head, last.0) {
            if targets(refs, target) && !targets(head, target) {
                let j = choose|j: int| 0 <= j < refs.len() && (#[trigger] refs[j]).0 == target;
                if j < head.len() {
                    assert(head[j].0 == target);
                }
            }
            if targets(head, target) {
                let j = choose|j: int| 0 <= j < head.len() && (#[trigger] head[j]).0 == target;
                assert(refs[j].0 == target);
            }
        } else {
            let edges = edges_of(refs, source_key);
            assert(edges.drop_last() == edges_of(head, source_key));
            if last.0 == target {
                assert(refs[refs.len() - 1].0 == target);
            } else {
                if targets(refs, target) {
                    let j = choose|j: int| 0 <= j < refs.len() && (#[trigger] refs[j]).0 == target;
                    assert(head[j].0 == target);
                }
                if targets(head, target) {
                    let j = choose|j: int| 0 <= j < head.len() && (#[trigger] head[j]).0 == target;
                    assert(refs[j].0 == target);
                }
            }
        }
    }
}

/// Every reference that the edges of a source add carries that source, and
/// none of them stands under the source's own key.
pub proof fn lemma_added_under_source(
    edges: Seq<(Seq<char>, Option<Seq<char>>, Seq<char>)>,
    key: Seq<char>,
    source_key: Seq<char>,
    display: Seq<char>,
)
    requires
        forall|i: int| 0 <= i < edges.len() ==> (#[trigger] edges[i]).0 != source_key,
    ensures
        forall|i: int|
            0 <= i < added_under(edges, key, source_key, display).len() ==> (#[trigger] added_under(
                edges,
                key,
                source_key,
                display,
            )[i]).0 == source_key && source_key != key,
    decreases edges.len(),
{
    if edges.len() > 0 {
        assert forall|i: int| 0 <= i < edges.drop_last().len() implies (#[trigger] edges.drop_last()[i]).0
            != source_key by {
            assert(edges.drop_last()[i] == edges[i]);
        }
        lemma_added_under_source(edges.drop_last(), key, source_key, display);
        assert(edges[edges.len() - 1].0 != source_key);
        let before = added_under(edges.drop_last(), key, source_key, display);
        let all = added_under(edges, key, source_key, display);
        assert forall|i: int| 0 <= i < all.len() implies (#[trigger] all[i]).0 == source_key
            && source_key != key by {
            if i < before.len() {
                assert(all[i] == before[i]);
            }
        }
    }
}

/// The index never holds a self-edge: no reference under a key comes from
/// the document with that key.
pub proof fn lemma_no_self_edge(files: Seq<SourceFile>, serve_root: Seq<char>, key: Seq<char>)
    ensures
        forall|i: int|
            0 <= i < built_lookup(files, serve_root, key).len() ==> (#[trigger] built_lookup(
                files,
                serve_root,
                key,
            )[i]).0 != key,
    decreases files.len(),
{
    if files.len() > 0 {
        lemma_no_self_edge(files.drop_last(), serve_root, key);
        let f = files.last();
        let events = event_stream(f.contents@, true, true, false);
        let rel = source_rel_of(f.path@, serve_root);
        let refs = outbound_refs(link_spans(events), f.contents@, f.path@, serve_root);
        lemma_edges_exclude_source(refs, url_key(rel));
        lemma_added_under_source(
            edges_of(refs, url_key(rel)),
            key,
            url_key(rel),
            display_of(document_title(events), rel),
        );
        let before = built_lookup(files.drop_last(), serve_root, key);
        let adds = file_adds(f, serve_root, key);
        let all = built_lookup(files, serve_root, key);
        assert forall|i: int| 0 <= i < all.len() implies (#[trigger] all[i]).0 != key by {
            if i < before.len() {
                assert(all[i] == before[i]);
            } else {
                assert(all[i] == adds[i - before.len()]);
            }
        }
    }
}


/// How many of the references come from the document with URL key `source`.
pub open spec fn count_from(refs: Seq<BacklinkText>, source: Seq<char>) -> nat
    decreases refs.len(),
{
    if refs.len() == 0 {
        0
    } else {
        count_from(refs.drop_last(), source) + if refs.last().0 == source {
            1nat
        } else {
            0nat
        }
    }
}

/// References in a row are counted row by row.
pub proof fn lemma_count_from_concat(a: Seq<BacklinkText>, b: Seq<BacklinkText>, source: Seq<char>)
    ensures
        count_from(a + b, source) == count_from(a, source) + count_from(b, source),
    decreases b.len(),
{
    if b.len() == 0 {
        assert(a + b =~= a);
    } else {
        assert((a + b).drop_last() =~= a + b.drop_last());
        lemma_count_from_concat(a, b.drop_last(), source);
    }
}

/// Every reference that a source adds carries that source's key.
pub proof fn lemma_added_count(
    edges: Seq<(Seq<char>, Option<Seq<char>>, Seq<char>)>,
    key: Seq<char>,
    source_key: Seq<char>,
    display: Seq<char>,
    counted: Seq<char>,
)
    ensures
        count_from(added_under(edges, key, source_key, display), counted) == if counted
            == source_key {
            added_under(edges, key, source_key, display).len()
        } else {
            0
        },
    decreases edges.len(),
{
    if edges.len() > 0 {
        lemma_added_count(edges.drop_last(), key, source_key, display, counted);
        if edges.last().0 == key {
            let all = added_under(edges, key, source_key, display);
            assert(all.drop_last() =~= added_under(edges.drop_last(), key, source_key, display));
        }
    }
}

/// The URL key of a source file.
pub open spec fn source_key_of(f: SourceFile, serve_root: Seq<char>) -> Seq<char> {
    url_key(source_rel_of(f.path@, serve_root))
}

/// Whether the file at `index` links to the document with URL key `target`.
pub open spec fn file_links_to(f: SourceFile, serve_root: Seq<char>, target: Seq<char>) -> bool {
    targets(
        outbound_refs(
            link_spans(event_stream(f.contents@, true, true, false)),
            f.contents@,
            f.path@,
            serve_root,
        ),
        target,
    )
}

/// In an index built from files with different URL keys, a target holds
/// exactly one reference from a source that links to it, however often the
/// source does so, and none from a source that does not or that is the
/// target itself.
pub proof fn lemma_one_reference_per_source_and_target(
    files: Seq<SourceFile>,
    serve_root: Seq<char>,
    source: int,
    target: Seq<char>,
)
    requires
        0 <= source < files.len(),
        forall|i: int, j: int|
            0 <= i < j < files.len() ==> source_key_of(files[i], serve_root) != source_key_of(
                files[j],
                serve_root,
            ),
    ensures
        count_from(
            built_lookup(files, serve_root, target),
            source_key_of(files[source], serve_root),
        ) == if target != source_key_of(files[source], serve_root) && file_links_to(
            files[source],
            serve_root,
            target,
        ) {
            1nat
        } else {
            0nat
        },
    decreases files.len(),
{
    let f = files.last();
    let head = files.drop_last();
    let counted = source_key_of(files[source], serve_root);
    let events = event_stream(f.contents@, true, true, false);
    let rel = source_rel_of(f.path@, serve_root);
    let refs = outbound_refs(link_spans(events), f.contents@, f.path@, serve_root);
    let display = display_of(document_title(events), rel);
    lemma_count_from_concat(
        built_lookup(head, serve_root, target),
        file_adds(f, serve_root, target),
        counted,
    );
    lemma_added_count(edges_of(refs, url_key(rel)), target, url_key(rel), display, counted);
    lemma_one_edge_per_target(refs, url_key(rel), display, target);
    if source == files.len() - 1 {
        lemma_no_reference_from_absent(head, serve_root, target, counted);
    } else {
        assert(head[source] == files[source]);
        assert forall|i: int, j: int| 0 <= i < j < head.len() implies source_key_of(
            head[i],
            serve_root,
        ) != source_key_of(head[j], serve_root) by {
            assert(head[i] == files[i] && head[j] == files[j]);
        }
        lemma_one_reference_per_source_and_target(head, serve_root, source, target);
        assert(source_key_of(f, serve_root) != counted);
    }
}

/// Every outbound reference points at a URL key, which begins with a slash.
pub proof fn lemma_outbound_targets_are_keys(
    spans: Seq<LinkSpan>,
    src: Seq<char>,
    source_path: Seq<char>,
    serve_root: Seq<char>,
)
    ensures
        forall|i: int|
            0 <= i < outbound_refs(spans, src, source_path, serve_root).len() ==> {
                let target = (#[trigger] outbound_refs(spans, src, source_path, serve_root)[i]).0;
                target.len() > 0 && target[0] == '/'
            },
    decreases spans.len(),
{
    if spans.len() > 0 {
        lemma_outbound_targets_are_keys(spans.drop_last(), src, source_path, serve_root);
        let before = outbound_refs(spans.drop_last(), src, source_path, serve_root);
        let all = outbound_refs(spans, src, source_path, serve_root);
        assert forall|i: int| 0 <= i < all.len() implies (#[trigger] all[i]).0.len() > 0
            && all[i].0[0] == '/' by {
            if i < before.len() {
                assert(all[i] == before[i]);
            } else {
                let o = outbound_for(spans.last(), src, source_path, serve_root);
                assert(o is Some && all[i] == o->0);
                assert(link_target_key(spans.last().dest@, source_path, serve_root) is Some);
            }
        }
    }
}

/// Every key under which the index holds a reference begins with a slash.
pub proof fn lemma_keys_begin_with_slash(
    files: Seq<SourceFile>,
    serve_root: Seq<char>,
    key: Seq<char>,
)
    requires
        built_lookup(files, serve_root, key).len() > 0,
    ensures
        key.len() > 0 && key[0] == '/',
    decreases files.len(),
{
    if files.len() > 0 {
        let f = files.last();
        if file_adds(f, serve_root, key).len() > 0 {
            let events = event_stream(f.contents@, true, true, false);
            let rel = source_rel_of(f.path@, serve_root);
            let refs = outbound_refs(link_spans(events), f.contents@, f.path@, serve_root);
            lemma_one_edge_per_target(
                refs,
                url_key(rel),
                display_of(document_title(events), rel),
                key,
            );
            lemma_outbound_targets_are_keys(link_spans(events), f.contents@, f.path@, serve_root);
            let j = choose|j: int| 0 <= j < refs.len() && (#[trigger] refs[j]).0 == key;
            assert(refs[j].0 == key);
        } else {
            lemma_keys_begin_with_slash(files.drop_last(), serve_root, key);
        }
    }
}

/// A document that is not among the files has no reference in the index.
pub proof fn lemma_no_reference_from_absent(
    files: Seq<SourceFile>,
    serve_root: Seq<char>,
    target: Seq<char>,
    counted: Seq<char>,
)
    requires
        forall|i: int| 0 <= i < files.len() ==> source_key_of(#[trigger] files[i], serve_root) != counted,
    ensures
        count_from(built_lookup(files, serve_root, target), counted) == 0,
    decreases files.len(),
{
    if files.len() > 0 {
        let f = files.last();
        let head = files.drop_last();
        let events = event_stream(f.contents@, true, true, false);
        let rel = source_rel_of(f.path@, serve_root);
        let refs = outbound_refs(link_spans(events), f.contents@, f.path@, serve_root);
        assert forall|i: int| 0 <= i < head.len() implies source_key_of(
            #[trigger] head[i],
            serve_root,
        ) != counted by {
            assert(head[i] == files[i]);
        }
        lemma_no_reference_from_absent(head, serve_root, target, counted);
        lemma_count_from_concat(
            built_lookup(head, serve_root, target),
            file_adds(f, serve_root, target),
            counted,
        );
        lemma_added_count(
            edges_of(refs, url_key(rel)),
            target,
            url_key(rel),
            display_of(document_title(events), rel),
            counted,
        );
        assert(source_key_of(files[files.len() - 1], serve_root) != counted);
    }
}

} // verus!
