//! Positions in a rendered document, and what the viewer decides from them:
//! the heading in view, the search match to jump to, which links leave the
//! viewer.

use crate::backlinks::utf8_width;
use crate::parse::{BlockKind, ContentBlock, InlineLink, ParsedDocument};
use crate::text::{
    chars_of, has_prefix, is_white_space_char, push_chars, starts_with, string_of, trim_chars,
    trimmed, views_of,
};
use crate::viewer::{capped_sum, floored_difference, least};
use vstd::prelude::*;
use vstd::string::*;

verus! {

/// Where a heading stands in the rendered output.
#[derive(Debug, Clone)]
pub struct HeadingPosition {
    /// Line of the rendered output, counted from 0.
    pub rendered_line: usize,
    /// Heading level, 1 to 6.
    pub level: u8,
    /// Text of the heading.
    pub text: String,
}

/// Where a link stands in the rendered output.
#[derive(Debug, Clone)]
pub struct LinkPosition {
    /// Line of the rendered output, counted from 0.
    pub rendered_line: usize,
    /// Column at which the link text starts, counted from 0.
    pub column_start: usize,
    /// Column just past the link text.
    pub column_end: usize,
    /// Destination URL.
    pub url: String,
    /// Text of the link.
    pub text: String,
}

/// Where a search match stands in the rendered output.
#[derive(Debug, Clone, Copy)]
pub struct SearchMatch {
    /// Line of the rendered output, counted from 0.
    pub rendered_line: usize,
    /// Byte column at which the match starts.
    pub column_start: usize,
    /// Byte column just past the match.
    pub column_end: usize,
}

/// A search in progress.
#[derive(Debug, Clone)]
pub struct SearchState {
    /// What is searched for.
    pub query: String,
    /// Whether the query is still being typed.
    pub typing: bool,
    /// Every match in the document.
    pub matches: Vec<SearchMatch>,
    /// The match in focus.
    pub current_match: Option<usize>,
    /// The scroll offset from before the search, to go back to.
    pub saved_scroll: usize,
}

/// The marker that is shown before a heading of a level: as many `#` as the
/// level says, one for a level that is none of 1 to 6, and a space.
pub open spec fn heading_marker(level: u8) -> Seq<char> {
    match level {
        2 => "## "@,
        3 => "### "@,
        4 => "#### "@,
        5 => "##### "@,
        6 => "###### "@,
        _ => "# "@,
    }
}

/// The marker that is shown before a heading of a level.
pub fn heading_prefix(level: u8) -> (r: &'static str)
    ensures
        r@ == heading_marker(level),
{
    match level {
        2 => "## ",
        3 => "### ",
        4 => "#### ",
        5 => "##### ",
        6 => "###### ",
        _ => "# ",
    }
}

/// The index of the last heading at or before line `scroll_offset`.
pub open spec fn heading_in_view(heading_lines: Seq<HeadingPosition>, scroll_offset: usize) -> Option<
    int,
>
    decreases heading_lines.len(),
{
    if heading_lines.len() == 0 {
        None
    } else if heading_lines.last().rendered_line <= scroll_offset {
        Some(heading_lines.len() - 1)
    } else {
        heading_in_view(heading_lines.drop_last(), scroll_offset)
    }
}

/// Finds the heading that the view is under: the last one that starts at or
/// before the scroll offset.
pub fn current_heading_context(heading_lines: &[HeadingPosition], scroll_offset: usize) -> (r:
    Option<&HeadingPosition>)
    ensures
        r is Some <==> heading_in_view(heading_lines@, scroll_offset) is Some,
        r matches Some(h) ==> *h == heading_lines@[heading_in_view(
            heading_lines@,
            scroll_offset,
        )->0],
{
    let mut n: usize = heading_lines.len();
    proof {
        assert(heading_lines@.take(n as int) == heading_lines@);
    }
    while n > 0
        invariant
            n <= heading_lines.len(),
            heading_in_view(heading_lines@, scroll_offset) == heading_in_view(
                heading_lines@.take(n as int),
                scroll_offset,
            ),
        decreases n,
    {
        proof {
            assert(heading_lines@.take(n as int).drop_last() == heading_lines@.take(n - 1));
            assert(heading_lines@.take(n as int).last() == heading_lines@[n - 1]);
        }
        if heading_lines[n - 1].rendered_line <= scroll_offset {
            return Some(&heading_lines[n - 1]);
        }
        n -= 1;
    }
    None
}

/// The index of the first match at or after line `scroll_offset`, from
/// `from` on.
pub open spec fn first_match_from(matches: Seq<SearchMatch>, scroll_offset: usize, from: int) -> Option<
    int,
>
    decreases matches.len() - from,
{
    if from < 0 || from >= matches.len() {
        None
    } else if matches[from].rendered_line >= scroll_offset {
        Some(from)
    } else {
        first_match_from(matches, scroll_offset, from + 1)
    }
}

/// Finds the match to jump to: the first at or after the scroll offset, the
/// very first where all lie before it, none where there is no match.
pub fn nearest_match_from(matches: &[SearchMatch], scroll_offset: usize) -> (r: Option<usize>)
    ensures
        matches@.len() == 0 ==> r is None,
        matches@.len() > 0 ==> r == Some(
            match first_match_from(matches@, scroll_offset, 0) {
                Some(i) => i as usize,
                None => 0usize,
            },
        ),
{
    if matches.len() == 0 {
        return None;
    }
    let mut i: usize = 0;
    while i < matches.len()
        invariant
            i <= matches.len(),
            first_match_from(matches@, scroll_offset, 0) == first_match_from(
                matches@,
                scroll_offset,
                i as int,
            ),
        decreases matches.len() - i,
    {
        if matches[i].rendered_line >= scroll_offset {
            return Some(i);
        }
        i += 1;
    }
    Some(0)
}

/// The match in focus after a step forward or backward through `count`
/// matches, around the ends.
pub open spec fn stepped_match(current: Option<usize>, count: usize, forward: bool) -> usize {
    if forward {
        match current {
            Some(i) => ((i + 1) % (count as int)) as usize,
            None => 0,
        }
    } else {
        match current {
            Some(i) => if i == 0 {
                (count - 1) as usize
            } else {
                (i - 1) as usize
            },
            None => (count - 1) as usize,
        }
    }
}

/// Moves the focus of a search to the next or the previous match, around the
/// ends. Nothing changes without a search or without matches.
pub fn advance_search_match(search: &mut Option<SearchState>, forward: bool)
    ensures
        match *old(search) {
            Some(s) => if s.matches.len() == 0 {
                *final(search) == *old(search)
            } else {
                *final(search) matches Some(t) && t.current_match == Some(
                    stepped_match(s.current_match, s.matches.len(), forward),
                ) && t.matches == s.matches && t.query == s.query && t.typing == s.typing
                    && t.saved_scroll == s.saved_scroll
            },
            None => *final(search) is None,
        },
{
    match search {
        Some(s) => {
            let count = s.matches.len();
            if count == 0 {
                return;
            }
            let next = if forward {
                match s.current_match {
                    Some(i) => {
                        proof {
                            vstd::arithmetic::div_mod::lemma_add_mod_noop(
                                i as int,
                                1,
                                count as int,
                            );
                            if count > 1 {
                                vstd::arithmetic::div_mod::lemma_small_mod(1, count as nat);
                            }
                        }
                        (i % count + 1) % count
                    },
                    None => 0,
                }
            } else {
                match s.current_match {
                    Some(i) => if i == 0 {
                        count - 1
                    } else {
                        i - 1
                    },
                    None => count - 1,
                }
            };
            s.current_match = Some(next);
        },
        None => {},
    }
}

/// Whether a URL leaves the viewer: it starts with `http://`, `https://` or
/// `mailto:`.
pub fn is_external_url(url: &str) -> (r: bool)
    ensures
        r == (has_prefix(url@, "http://"@) || has_prefix(url@, "https://"@) || has_prefix(
            url@,
            "mailto:"@,
        )),
{
    let cs = chars_of(url);
    starts_with(&cs, "http://") || starts_with(&cs, "https://") || starts_with(&cs, "mailto:")
}


// ---------------------------------------------------------------------------
// Text by bytes
// ---------------------------------------------------------------------------

/// How many bytes of UTF-8 a text takes.
pub open spec fn width_of(s: Seq<char>) -> nat
    decreases s.len(),
{
    if s.len() == 0 {
        0
    } else {
        width_of(s.drop_last()) + utf8_width(s.last())
    }
}

/// How many characters of `s` end at or before byte `offset`.
pub open spec fn chars_within(s: Seq<char>, offset: nat) -> nat
    decreases s.len(),
{
    if s.len() == 0 || utf8_width(s[0]) > offset {
        0
    } else {
        1 + chars_within(s.skip(1), (offset - utf8_width(s[0])) as nat)
    }
}

/// The characters of `s` between the bytes `from` and `to`; nothing where
/// `to` lies before `from`. A byte offset inside a character counts as the
/// start of that character.
pub open spec fn byte_slice(s: Seq<char>, from: nat, to: nat) -> Seq<char> {
    if from <= to {
        s.subrange(chars_within(s, from) as int, chars_within(s, to) as int)
    } else {
        Seq::empty()
    }
}

fn char_width(c: char) -> (w: usize)
    ensures
        w == utf8_width(c),
        1 <= w <= 4,
{
    let v = c as u32;
    if v < 0x80 {
        1
    } else if v < 0x800 {
        2
    } else if v < 0x10000 {
        3
    } else {
        4
    }
}

/// The width of a text in bytes, up to the largest `usize`.
fn text_width(s: &Vec<char>) -> (w: usize)
    ensures
        w == if width_of(s@) <= usize::MAX {
            width_of(s@)
        } else {
            usize::MAX as nat
        },
{
    let mut w: usize = 0;
    let mut i: usize = 0;
    proof {
        assert(s@.take(0) =~= Seq::<char>::empty());
    }
    while i < s.len()
        invariant
            i <= s.len(),
            w == if width_of(s@.take(i as int)) <= usize::MAX {
                width_of(s@.take(i as int))
            } else {
                usize::MAX as nat
            },
        decreases s.len() - i,
    {
        proof {
            assert(s@.take(i + 1).drop_last() == s@.take(i as int));
            assert(s@.take(i + 1).last() == s@[i as int]);
        }
        let cw = char_width(s[i]);
        w = if w > usize::MAX - cw {
            usize::MAX
        } else {
            w + cw
        };
        i += 1;
    }
    proof {
        assert(s@.take(s.len() as int) == s@);
    }
    w
}

/// The number of characters that end at or before a byte offset never
/// exceeds the number of characters.
pub proof fn lemma_chars_within_bound(s: Seq<char>, offset: nat)
    ensures
        chars_within(s, offset) <= s.len(),
    decreases s.len(),
{
    if s.len() > 0 && utf8_width(s[0]) <= offset {
        lemma_chars_within_bound(s.skip(1), (offset - utf8_width(s[0])) as nat);
    }
}

/// More bytes hold no fewer characters.
pub proof fn lemma_chars_within_monotone(s: Seq<char>, a: nat, b: nat)
    requires
        a <= b,
    ensures
        chars_within(s, a) <= chars_within(s, b),
    decreases s.len(),
{
    if s.len() > 0 && utf8_width(s[0]) <= a {
        lemma_chars_within_monotone(
            s.skip(1),
            (a - utf8_width(s[0])) as nat,
            (b - utf8_width(s[0])) as nat,
        );
    }
}

fn char_index(s: &Vec<char>, offset: usize) -> (k: usize)
    ensures
        k == chars_within(s@, offset as nat),
        k <= s.len(),
{
    let mut k: usize = 0;
    let mut left: usize = offset;
    proof {
        assert(s@.skip(0) == s@);
        lemma_chars_within_bound(s@, offset as nat);
    }
    while k < s.len() && char_width(s[k]) <= left
        invariant
            k <= s.len(),
            chars_within(s@, offset as nat) == k + chars_within(s@.skip(k as int), left as nat),
        decreases s.len() - k,
    {
        proof {
            assert(s@.skip(k as int)[0] == s@[k as int]);
            assert(s@.skip(k as int).skip(1) == s@.skip(k + 1));
        }
        left -= char_width(s[k]);
        k += 1;
    }
    proof {
        if k < s.len() {
            assert(s@.skip(k as int)[0] == s@[k as int]);
        }
    }
    k
}

/// Cuts the characters between two byte offsets out of a text.
pub fn slice_by_bytes(s: &Vec<char>, from: usize, to: usize) -> (out: Vec<char>)
    ensures
        out@ == byte_slice(s@, from as nat, to as nat),
{
    let mut out: Vec<char> = Vec::new();
    if from > to {
        return out;
    }
    let a = char_index(s, from);
    let b = char_index(s, to);
    proof {
        lemma_chars_within_monotone(s@, from as nat, to as nat);
    }
    let mut i: usize = a;
    while i < b
        invariant
            a <= i <= b <= s.len(),
            out@ == s@.subrange(a as int, i as int),
        decreases b - i,
    {
        out.push(s[i]);
        i += 1;
        assert(s@.subrange(a as int, i as int) == s@.subrange(a as int, i - 1).push(s@[i - 1]));
    }
    out
}

/// The lines of a text: the pieces that a line feed ends, each without a
/// carriage return before that line feed, and what follows the last line
/// feed where that is not empty.
pub open spec fn lines_of(s: Seq<char>) -> Seq<Seq<char>> {
    let pieces = crate::text::split_on(s, '\n');
    Seq::new(
        if pieces.last().len() == 0 {
            (pieces.len() - 1) as nat
        } else {
            pieces.len()
        },
        |i: int|
            if i < pieces.len() - 1 {
                without_carriage_return(pieces[i])
            } else {
                pieces[i]
            },
    )
}

/// A line without the carriage return at its end.
pub open spec fn without_carriage_return(line: Seq<char>) -> Seq<char> {
    if line.len() > 0 && line.last() == '\r' {
        line.drop_last()
    } else {
        line
    }
}

/// Splits a text into its lines.
pub fn text_lines(s: &Vec<char>) -> (out: Vec<Vec<char>>)
    ensures
        crate::text::views_of(out@) == lines_of(s@),
{
    let pieces = crate::text::split_chars(s, '\n');
    let ghost all = crate::text::views_of(pieces@);
    let n = pieces.len();
    let count = if pieces[n - 1].len() == 0 {
        n - 1
    } else {
        n
    };
    proof {
        assert(all.last() == pieces@[n - 1]@);
    }
    let mut out: Vec<Vec<char>> = Vec::new();
    let mut i: usize = 0;
    while i < count
        invariant
            i <= count <= n,
            n == pieces.len(),
            all == crate::text::views_of(pieces@),
            out.len() == i,
            forall|k: int|
                0 <= k < i ==> (#[trigger] out@[k])@ == (if k < n - 1 {
                    without_carriage_return(all[k])
                } else {
                    all[k]
                }),
        decreases count - i,
    {
        let line = &pieces[i];
        let len = line.len();
        let end = if i < n - 1 && len > 0 && line[len - 1] == '\r' {
            len - 1
        } else {
            len
        };
        let mut copy: Vec<char> = Vec::new();
        let mut j: usize = 0;
        while j < end
            invariant
                j <= end <= line.len(),
                copy@ == line@.take(j as int),
            decreases end - j,
        {
            copy.push(line[j]);
            j += 1;
            assert(line@.take(j as int) == line@.take(j - 1).push(line@[j - 1]));
        }
        proof {
            assert(line@.take(line.len() as int) == line@);
            assert(line@.take(len - 1) == line@.drop_last());
            assert(all[i as int] == line@);
        }
        out.push(copy);
        i += 1;
    }
    proof {
        assert(crate::text::views_of(out@) =~= lines_of(s@));
    }
    out
}


// ---------------------------------------------------------------------------
// Layout
// ---------------------------------------------------------------------------

/// What a stretch of text is, for the caller to style.
#[derive(Debug, Clone, Copy, PartialEq, Eq, Structural)]
pub enum SpanRole {
    /// Running text.
    Plain,
    /// A heading of this level, marker included.
    Heading(u8),
    /// The text of a link.
    Link,
    /// The bullet before a list item.
    Bullet,
    /// The bar before a quoted line.
    QuoteBar,
    /// Quoted text.
    QuoteText,
    /// The frame of a code block.
    CodeBorder,
    /// A line of code.
    CodeText,
    /// A thematic break.
    Rule,
    /// A row of a table.
    Table,
}

/// A stretch of text of one role.
#[derive(Debug, Clone)]
pub struct StyledSpan {
    pub text: String,
    pub role: SpanRole,
}

/// A line of the rendered document.
#[derive(Debug, Clone)]
pub struct StyledLine {
    pub spans: Vec<StyledSpan>,
}

impl StyledLine {
    /// The text of the line, spans in a row.
    pub fn text(&self) -> (out: String)
        ensures
            out@ == line_text(span_views(self.spans@)),
    {
        let mut out = String::new();
        let mut i: usize = 0;
        let ghost all = span_views(self.spans@);
        proof {
            assert(all.take(0) =~= Seq::<SpanText>::empty());
        }
        while i < self.spans.len()
            invariant
                i <= self.spans.len(),
                all == span_views(self.spans@),
                out@ == line_text(all.take(i as int)),
            decreases self.spans.len() - i,
        {
            proof {
                assert(all.take(i + 1).drop_last() == all.take(i as int));
                assert(all.take(i + 1).last() == (self.spans@[i as int].text@, self.spans@[i as int].role));
            }
            out.append(self.spans[i].text.as_str());
            i += 1;
        }
        proof {
            assert(all.take(self.spans.len() as int) == all);
        }
        out
    }
}

/// A document laid out in lines, with the places of its headings and links.
#[derive(Debug)]
pub struct RenderedDocument {
    pub lines: Vec<StyledLine>,
    pub heading_lines: Vec<HeadingPosition>,
    pub link_positions: Vec<LinkPosition>,
}

/// The bullet that stands before a list item.
pub const BULLET: &'static str = "  \u{2022} ";

/// The bar that stands before a quoted line.
pub const QUOTE_BAR: &'static str = "  \u{258c} ";

/// The top of the frame of a code block.
pub const CODE_TOP: &'static str = "\u{250c}\u{2500}\u{2500}\u{2500}";

/// The side of the frame of a code block.
pub const CODE_SIDE: &'static str = "\u{2502} ";

/// The bottom of the frame of a code block.
pub const CODE_BOTTOM: &'static str = "\u{2514}\u{2500}\u{2500}\u{2500}";

/// A thematic break.
pub const RULE: &'static str =
    "\u{2500}\u{2500}\u{2500}\u{2500}\u{2500}\u{2500}\u{2500}\u{2500}\u{2500}\u{2500}\u{2500}\u{2500}\u{2500}\u{2500}\u{2500}\u{2500}\u{2500}\u{2500}\u{2500}\u{2500}\u{2500}\u{2500}\u{2500}\u{2500}\u{2500}\u{2500}\u{2500}\u{2500}\u{2500}\u{2500}\u{2500}\u{2500}\u{2500}\u{2500}\u{2500}\u{2500}\u{2500}\u{2500}\u{2500}\u{2500}";

/// The columns that a bullet or a quote bar takes.
pub const PREFIX_COLUMNS: usize = 4;

/// A span as plain text.
pub type SpanText = (Seq<char>, SpanRole);

/// A link position as plain text: line, first column, column past the
/// last, URL and text.
pub type LinkPlace = (usize, usize, usize, Seq<char>, Seq<char>);

/// The text of spans in a row.
pub open spec fn line_text(spans: Seq<SpanText>) -> Seq<char>
    decreases spans.len(),
{
    if spans.len() == 0 {
        Seq::<char>::empty()
    } else {
        line_text(spans.drop_last()) + spans.last().0
    }
}

/// Spans as plain text.
pub open spec fn span_views(v: Seq<StyledSpan>) -> Seq<SpanText> {
    Seq::new(v.len(), |i: int| (v[i].text@, v[i].role))
}

/// Link positions as plain text.
pub open spec fn place_views(v: Seq<LinkPosition>) -> Seq<LinkPlace> {
    Seq::new(
        v.len(),
        |i: int| (v[i].rendered_line, v[i].column_start, v[i].column_end, v[i].url@, v[i].text@),
    )
}

/// The width of a text in bytes, as far as a `usize` counts.
pub open spec fn capped_width(s: Seq<char>) -> usize {
    if width_of(s) <= usize::MAX {
        width_of(s) as usize
    } else {
        usize::MAX
    }
}

/// Where the splitting of a line stands after some of the block's links.
pub struct SplitState {
    /// The spans so far.
    pub spans: Seq<SpanText>,
    /// The places of the links so far.
    pub places: Seq<LinkPlace>,
    /// The byte of the block's content up to which the line is covered.
    pub pos: usize,
}

/// Whether a link reaches into the bytes `start..end` of the content.
pub open spec fn reaches_into(link: InlineLink, start: usize, end: usize) -> bool {
    link.start < end && link.end > start
}

/// The larger of two numbers.
pub open spec fn greatest(a: usize, b: usize) -> usize {
    if a >= b {
        a
    } else {
        b
    }
}

/// The splitting of a line that starts at byte `line_start` of its block's
/// content, link after link: each link that reaches into the line gives a
/// span for the text before it, where there is any, and a span with its
/// place for the part of the link that lies on the line.
pub open spec fn split_state(
    line: Seq<char>,
    line_start: usize,
    links: Seq<InlineLink>,
    base: SpanRole,
    column_offset: usize,
    rendered_line: usize,
) -> SplitState
    decreases links.len(),
{
    if links.len() == 0 {
        SplitState { spans: Seq::empty(), places: Seq::empty(), pos: line_start }
    } else {
        let st = split_state(line, line_start, links.drop_last(), base, column_offset, rendered_line);
        let link = links.last();
        let line_end = capped_sum(line_start, capped_width(line));
        if !reaches_into(link, line_start, line_end) {
            st
        } else {
            let from = greatest(link.start, line_start);
            let to = least(link.end, line_end);
            let before = byte_slice(
                line,
                floored_difference(st.pos, line_start) as nat,
                (from - line_start) as nat,
            );
            let text = byte_slice(line, (from - line_start) as nat, (to - line_start) as nat);
            let column = capped_sum(column_offset, (from - line_start) as usize);
            SplitState {
                spans: (if from > st.pos {
                    st.spans.push((before, base))
                } else {
                    st.spans
                }).push((text, SpanRole::Link)),
                places: st.places.push(
                    (rendered_line, column, capped_sum(column, capped_width(text)), link.url@, text),
                ),
                pos: to,
            }
        }
    }
}

/// The spans of a line: the line as one span where no link reaches into
/// it, else the spans of its splitting and a span for what follows the last
/// link.
pub open spec fn split_spans(
    line: Seq<char>,
    line_start: usize,
    links: Seq<InlineLink>,
    base: SpanRole,
    column_offset: usize,
    rendered_line: usize,
) -> Seq<SpanText> {
    let st = split_state(line, line_start, links, base, column_offset, rendered_line);
    let line_end = capped_sum(line_start, capped_width(line));
    if st.spans.len() == 0 {
        seq![(line, base)]
    } else if st.pos < line_end {
        st.spans.push(
            (
                byte_slice(
                    line,
                    floored_difference(st.pos, line_start) as nat,
                    capped_width(line) as nat,
                ),
                base,
            ),
        )
    } else {
        st.spans
    }
}

/// Splits a line at the links of its block. The spans are returned and the
/// places of the links added to `link_positions`. Offsets and columns count
/// bytes.
pub fn split_line_at_links(
    line_text: &Vec<char>,
    line_content_offset: usize,
    inline_links: &Vec<InlineLink>,
    base: SpanRole,
    column_offset: usize,
    rendered_line_idx: usize,
    link_positions: &mut Vec<LinkPosition>,
) -> (spans: Vec<StyledSpan>)
    ensures
        span_views(spans@) == split_spans(
            line_text@,
            line_content_offset,
            inline_links@,
            base,
            column_offset,
            rendered_line_idx,
        ),
        place_views(final(link_positions)@) == place_views(old(link_positions)@) + split_state(
            line_text@,
            line_content_offset,
            inline_links@,
            base,
            column_offset,
            rendered_line_idx,
        ).places,
{
    let line_start = line_content_offset;
    let width = text_width(line_text);
    let line_end = if line_start > usize::MAX - width {
        usize::MAX
    } else {
        line_start + width
    };
    let mut spans: Vec<StyledSpan> = Vec::new();
    let mut pos: usize = line_start;
    let ghost had = place_views(link_positions@);
    let mut i: usize = 0;
    proof {
        assert(inline_links@.take(0) =~= Seq::<InlineLink>::empty());
        assert(span_views(spans@) =~= Seq::<SpanText>::empty());
        assert(had + Seq::<LinkPlace>::empty() =~= had);
    }
    while i < inline_links.len()
        invariant
            i <= inline_links.len(),
            width == capped_width(line_text@),
            line_start == line_content_offset,
            line_end == capped_sum(line_start, width),
            span_views(spans@) == split_state(
                line_text@,
                line_start,
                inline_links@.take(i as int),
                base,
                column_offset,
                rendered_line_idx,
            ).spans,
            place_views(link_positions@) == had + split_state(
                line_text@,
                line_start,
                inline_links@.take(i as int),
                base,
                column_offset,
                rendered_line_idx,
            ).places,
            pos == split_state(
                line_text@,
                line_start,
                inline_links@.take(i as int),
                base,
                column_offset,
                rendered_line_idx,
            ).pos,
        decreases inline_links.len() - i,
    {
        let link = &inline_links[i];
        let ghost before_spans = span_views(spans@);
        let ghost before_places = place_views(link_positions@);
        proof {
            assert(inline_links@.take(i + 1).drop_last() == inline_links@.take(i as int));
            assert(inline_links@.take(i + 1).last() == inline_links@[i as int]);
        }
        if link.start < line_end && link.end > line_start {
            let from = if link.start >= line_start {
                link.start
            } else {
                line_start
            };
            let to = if link.end <= line_end {
                link.end
            } else {
                line_end
            };
            if from > pos {
                let rel = if pos >= line_start {
                    pos - line_start
                } else {
                    0
                };
                let before = slice_by_bytes(line_text, rel, from - line_start);
                let span = StyledSpan { text: string_of(&before), role: base };
                spans.push(span);
                proof {
                    assert(span_views(spans@) =~= before_spans.push((span.text@, span.role)));
                }
            }
            let ghost mid_spans = span_views(spans@);
            let text = slice_by_bytes(line_text, from - line_start, to - line_start);
            let text_bytes = text_width(&text);
            let span = StyledSpan { text: string_of(&text), role: SpanRole::Link };
            spans.push(span);
            let column = if column_offset > usize::MAX - (from - line_start) {
                usize::MAX
            } else {
                column_offset + (from - line_start)
            };
            let column_end = if column > usize::MAX - text_bytes {
                usize::MAX
            } else {
                column + text_bytes
            };
            let place = LinkPosition {
                rendered_line: rendered_line_idx,
                column_start: column,
                column_end,
                url: link.url.clone(),
                text: string_of(&text),
            };
            link_positions.push(place);
            pos = to;
            proof {
                assert(span_views(spans@) =~= mid_spans.push((span.text@, span.role)));
                assert(place_views(link_positions@) =~= before_places.push(
                    (
                        place.rendered_line,
                        place.column_start,
                        place.column_end,
                        place.url@,
                        place.text@,
                    ),
                ));
            }
        }
        i += 1;
    }
    proof {
        assert(inline_links@.take(inline_links.len() as int) == inline_links@);
    }
    if spans.len() == 0 {
        let span = StyledSpan { text: string_of(line_text), role: base };
        spans.push(span);
        proof {
            assert(span_views(spans@) =~= seq![(line_text@, base)]);
        }
    } else if pos < line_end {
        let ghost before_spans = span_views(spans@);
        let rel = if pos >= line_start {
            pos - line_start
        } else {
            0
        };
        let after = slice_by_bytes(line_text, rel, width);
        let span = StyledSpan { text: string_of(&after), role: base };
        spans.push(span);
        proof {
            assert(span_views(spans@) =~= before_spans.push((span.text@, span.role)));
        }
    }
    spans
}


/// How many of the lines hold more than white space.
pub open spec fn filled_lines(lines: Seq<Seq<char>>) -> nat
    decreases lines.len(),
{
    if lines.len() == 0 {
        0
    } else {
        filled_lines(lines.drop_last()) + if trimmed(lines.last()).len() > 0 {
            1nat
        } else {
            0nat
        }
    }
}

/// How many lines a block takes in the layout: a line per line of its
/// content, for a list or a table per line that is not blank; two more for
/// the frame of a code block; one for a thematic break.
pub open spec fn block_height(block: ContentBlock) -> nat {
    match block.kind {
        BlockKind::CodeBlock => lines_of(block.content@).len() + 2,
        BlockKind::List => filled_lines(lines_of(block.content@)),
        BlockKind::Table => filled_lines(lines_of(block.content@)),
        BlockKind::ThematicBreak => 1,
        _ => lines_of(block.content@).len(),
    }
}

/// How many lines the blocks take, with a blank line between every two.
pub open spec fn blocks_height(blocks: Seq<ContentBlock>) -> nat
    decreases blocks.len(),
{
    if blocks.len() == 0 {
        0
    } else if blocks.len() == 1 {
        block_height(blocks[0])
    } else {
        blocks_height(blocks.drop_last()) + 1 + block_height(blocks.last())
    }
}

/// The line on which the block at `index` starts.
pub open spec fn block_start(blocks: Seq<ContentBlock>, index: int) -> nat {
    if index <= 0 {
        0
    } else {
        blocks_height(blocks.take(index)) + 1
    }
}

/// A heading position as plain text: line, level and text.
pub type HeadingPlace = (usize, u8, Seq<char>);

/// Heading positions as plain text.
pub open spec fn heading_place_views(v: Seq<HeadingPosition>) -> Seq<HeadingPlace> {
    Seq::new(v.len(), |i: int| (v[i].rendered_line, v[i].level, v[i].text@))
}

/// The places of the headings among the blocks: each heading block with the
/// line on which it starts.
pub open spec fn heading_places(blocks: Seq<ContentBlock>) -> Seq<HeadingPlace>
    decreases blocks.len(),
{
    if blocks.len() == 0 {
        Seq::empty()
    } else {
        let before = heading_places(blocks.drop_last());
        match blocks.last().kind {
            BlockKind::Heading(level) => before.push(
                (
                    block_start(blocks, blocks.len() - 1) as usize,
                    level,
                    blocks.last().content@,
                ),
            ),
            _ => before,
        }
    }
}

/// Lines as plain text: the spans of each.
pub open spec fn line_views(v: Seq<StyledLine>) -> Seq<Seq<SpanText>> {
    Seq::new(v.len(), |i: int| span_views(v[i].spans@))
}

/// The lines of a layout and the places of the links on them, as plain text.
pub struct Layout {
    pub lines: Seq<Seq<SpanText>>,
    pub places: Seq<LinkPlace>,
}

/// The byte of a block's content at which the line `n` of its lines starts:
/// every line before it counts with its width and one byte for its end.
pub open spec fn line_offset(all: Seq<Seq<char>>, n: int) -> usize
    decreases n,
{
    if n <= 0 {
        0
    } else {
        capped_sum(capped_sum(line_offset(all, n - 1), capped_width(all[n - 1])), 1)
    }
}

/// How many characters of white space `s` starts with.
pub open spec fn white_run(s: Seq<char>) -> nat
    decreases s.len(),
{
    if s.len() > 0 && is_white_space_char(s[0]) {
        1 + white_run(s.skip(1))
    } else {
        0
    }
}

/// The first `n` lines of running text laid out from line `at` of the
/// output on: every line split at the block's links, behind `prefix` where
/// there is one.
pub open spec fn text_layout(
    all: Seq<Seq<char>>,
    n: int,
    links: Seq<InlineLink>,
    prefix: Option<SpanText>,
    base: SpanRole,
    column_offset: usize,
    at: usize,
) -> Layout
    decreases n,
{
    if n <= 0 {
        Layout { lines: Seq::empty(), places: Seq::empty() }
    } else {
        let before = text_layout(all, n - 1, links, prefix, base, column_offset, at);
        let row = (at + n - 1) as usize;
        let start = line_offset(all, n - 1);
        let spans = split_spans(all[n - 1], start, links, base, column_offset, row);
        Layout {
            lines: before.lines.push(
                match prefix {
                    Some(p) => seq![p] + spans,
                    None => spans,
                },
            ),
            places: before.places + split_state(
                all[n - 1],
                start,
                links,
                base,
                column_offset,
                row,
            ).places,
        }
    }
}

/// The first `n` lines of a list laid out from line `at` of the output on:
/// every line that is not blank, trimmed and split at the block's links,
/// behind a bullet.
pub open spec fn list_layout(all: Seq<Seq<char>>, n: int, links: Seq<InlineLink>, at: usize) -> Layout
    decreases n,
{
    if n <= 0 {
        Layout { lines: Seq::empty(), places: Seq::empty() }
    } else {
        let before = list_layout(all, n - 1, links, at);
        let line = all[n - 1];
        if trimmed(line).len() == 0 {
            before
        } else {
            let row = (at + before.lines.len()) as usize;
            let start = capped_sum(
                line_offset(all, n - 1),
                capped_width(line.take(white_run(line) as int)),
            );
            Layout {
                lines: before.lines.push(
                    seq![(BULLET@, SpanRole::Bullet)] + split_spans(
                        trimmed(line),
                        start,
                        links,
                        SpanRole::Plain,
                        PREFIX_COLUMNS,
                        row,
                    ),
                ),
                places: before.places + split_state(
                    trimmed(line),
                    start,
                    links,
                    SpanRole::Plain,
                    PREFIX_COLUMNS,
                    row,
                ).places,
            }
        }
    }
}

/// The first `n` lines of a code block, each behind the side of the frame.
pub open spec fn code_rows(all: Seq<Seq<char>>, n: int) -> Seq<Seq<SpanText>>
    decreases n,
{
    if n <= 0 {
        Seq::empty()
    } else {
        code_rows(all, n - 1).push(
            seq![(CODE_SIDE@, SpanRole::CodeBorder), (all[n - 1], SpanRole::CodeText)],
        )
    }
}

/// A code block laid out: its lines between the top and the bottom of a
/// frame.
pub open spec fn code_layout(all: Seq<Seq<char>>) -> Seq<Seq<SpanText>> {
    (seq![seq![(CODE_TOP@, SpanRole::CodeBorder)]] + code_rows(all, all.len() as int)).push(
        seq![(CODE_BOTTOM@, SpanRole::CodeBorder)],
    )
}

/// The first `n` lines of a table laid out: every line that is not blank,
/// trimmed, behind two spaces.
pub open spec fn table_layout(all: Seq<Seq<char>>, n: int) -> Seq<Seq<SpanText>>
    decreases n,
{
    if n <= 0 {
        Seq::empty()
    } else if trimmed(all[n - 1]).len() == 0 {
        table_layout(all, n - 1)
    } else {
        table_layout(all, n - 1).push(seq![("  "@ + trimmed(all[n - 1]), SpanRole::Table)])
    }
}

/// A block laid out from line `at` of the output on. A heading stands behind
/// its marker, a quoted line behind a bar, a list item behind a bullet, code
/// in a frame, and a thematic break is one line.
pub open spec fn block_layout(block: ContentBlock, at: usize) -> Layout {
    let all = lines_of(block.content@);
    let n = all.len() as int;
    let links = block.inline_links@;
    match block.kind {
        BlockKind::Heading(level) => text_layout(
            all,
            n,
            links,
            Some((heading_marker(level), SpanRole::Heading(level))),
            SpanRole::Heading(level),
            capped_width(heading_marker(level)),
            at,
        ),
        BlockKind::Paragraph => text_layout(all, n, links, None, SpanRole::Plain, 0, at),
        BlockKind::HtmlBlock => text_layout(all, n, links, None, SpanRole::Plain, 0, at),
        BlockKind::BlockQuote => text_layout(
            all,
            n,
            links,
            Some((QUOTE_BAR@, SpanRole::QuoteBar)),
            SpanRole::QuoteText,
            PREFIX_COLUMNS,
            at,
        ),
        BlockKind::CodeBlock => Layout { lines: code_layout(all), places: Seq::empty() },
        BlockKind::List => list_layout(all, n, links, at),
        BlockKind::Table => Layout { lines: table_layout(all, n), places: Seq::empty() },
        BlockKind::ThematicBreak => Layout {
            lines: seq![seq![(RULE@, SpanRole::Rule)]],
            places: Seq::empty(),
        },
    }
}

/// The blocks of a document laid out one after the other, with an empty line
/// between every two.
pub open spec fn document_layout(blocks: Seq<ContentBlock>) -> Layout
    decreases blocks.len(),
{
    if blocks.len() == 0 {
        Layout { lines: Seq::empty(), places: Seq::empty() }
    } else {
        let before = document_layout(blocks.drop_last());
        let above = if blocks.len() > 1 {
            before.lines.push(Seq::empty())
        } else {
            before.lines
        };
        let block = block_layout(blocks.last(), above.len() as usize);
        Layout { lines: above + block.lines, places: before.places + block.places }
    }
}

fn one_span(text: &str, role: SpanRole) -> (spans: Vec<StyledSpan>)
    ensures
        span_views(spans@) == seq![(text@, role)],
{
    let mut spans: Vec<StyledSpan> = Vec::new();
    spans.push(StyledSpan { text: text.to_owned(), role });
    proof {
        assert(span_views(spans@) =~= seq![(text@, role)]);
    }
    spans
}

fn push_line(lines: &mut Vec<StyledLine>, spans: Vec<StyledSpan>)
    ensures
        final(lines)@.len() == old(lines)@.len() + 1,
        line_views(final(lines)@) == line_views(old(lines)@).push(span_views(spans@)),
{
    lines.push(StyledLine { spans });
    proof {
        assert(line_views(lines@) =~= line_views(old(lines)@).push(span_views(spans@)));
    }
}

fn add_capped_usize(a: usize, b: usize) -> (r: usize)
    ensures
        r == capped_sum(a, b),
{
    if a > usize::MAX - b {
        usize::MAX
    } else {
        a + b
    }
}

/// A prefix as plain text.
pub open spec fn prefix_text(prefix: Option<(&str, SpanRole)>) -> Option<SpanText> {
    match prefix {
        Some((p, role)) => Some((p@, role)),
        None => None,
    }
}

/// Lays the lines of a block of running text out: every line split at the
/// block's links, behind `prefix` where there is one.
fn layout_text(
    content: &Vec<char>,
    links: &Vec<InlineLink>,
    prefix: Option<(&str, SpanRole)>,
    base: SpanRole,
    column_offset: usize,
    lines: &mut Vec<StyledLine>,
    link_positions: &mut Vec<LinkPosition>,
)
    ensures
        final(lines)@.len() == old(lines)@.len() + lines_of(content@).len(),
        line_views(final(lines)@) == line_views(old(lines)@) + text_layout(
            lines_of(content@),
            lines_of(content@).len() as int,
            links@,
            prefix_text(prefix),
            base,
            column_offset,
            old(lines)@.len() as usize,
        ).lines,
        place_views(final(link_positions)@) == place_views(old(link_positions)@) + text_layout(
            lines_of(content@),
            lines_of(content@).len() as int,
            links@,
            prefix_text(prefix),
            base,
            column_offset,
            old(lines)@.len() as usize,
        ).places,
{
    let text = text_lines(content);
    let first = lines.len();
    let ghost all = views_of(text@);
    let ghost at = first;
    let ghost lead = prefix_text(prefix);
    let mut offset: usize = 0;
    let mut i: usize = 0;
    proof {
        assert(line_views(lines@) =~= line_views(old(lines)@) + text_layout(
            all,
            0,
            links@,
            lead,
            base,
            column_offset,
            at,
        ).lines);
        assert(place_views(link_positions@) =~= place_views(old(link_positions)@) + text_layout(
            all,
            0,
            links@,
            lead,
            base,
            column_offset,
            at,
        ).places);
    }
    while i < text.len()
        invariant
            i <= text.len(),
            all == views_of(text@),
            all == lines_of(content@),
            at == old(lines)@.len(),
            lead == prefix_text(prefix),
            offset == line_offset(all, i as int),
            lines@.len() == at + i,
            line_views(lines@) == line_views(old(lines)@) + text_layout(
                all,
                i as int,
                links@,
                lead,
                base,
                column_offset,
                at,
            ).lines,
            place_views(link_positions@) == place_views(old(link_positions)@) + text_layout(
                all,
                i as int,
                links@,
                lead,
                base,
                column_offset,
                at,
            ).places,
        decreases text.len() - i,
    {
        let ghost laid = text_layout(all, i as int, links@, lead, base, column_offset, at);
        let mut spans: Vec<StyledSpan> = match prefix {
            Some((p, role)) => one_span(p, role),
            None => Vec::new(),
        };
        let ghost head = span_views(spans@);
        let mut rest = split_line_at_links(
            &text[i],
            offset,
            links,
            base,
            column_offset,
            lines.len(),
            link_positions,
        );
        let ghost tail = span_views(rest@);
        spans.append(&mut rest);
        proof {
            assert(span_views(spans@) =~= head + tail);
            assert(all[i as int] == text@[i as int]@);
            assert(head + tail =~= match lead {
                Some(p) => seq![p] + tail,
                None => tail,
            });
        }
        push_line(lines, spans);
        proof {
            let next = text_layout(all, i + 1, links@, lead, base, column_offset, at);
            assert(next.lines =~= laid.lines.push(head + tail));
            assert(line_views(lines@) =~= line_views(old(lines)@) + next.lines);
            assert(place_views(link_positions@) =~= place_views(old(link_positions)@)
                + next.places);
        }
        offset = add_capped_usize(add_capped_usize(offset, text_width(&text[i])), 1);
        i += 1;
    }
}

/// The width in bytes of the white space that a line starts with.
fn leading_width(line: &Vec<char>) -> (lead: usize)
    ensures
        lead == capped_width(line@.take(white_run(line@) as int)),
{
    let mut lead: usize = 0;
    let mut w: usize = 0;
    proof {
        assert(line@.skip(0) == line@);
        assert(line@.take(0) =~= Seq::<char>::empty());
    }
    while w < line.len() && line[w].is_whitespace()
        invariant
            w <= line.len(),
            white_run(line@) == w + white_run(line@.skip(w as int)),
            lead == capped_width(line@.take(w as int)),
        decreases line.len() - w,
    {
        proof {
            assert(line@.skip(w as int)[0] == line@[w as int]);
            assert(line@.skip(w as int).skip(1) == line@.skip(w + 1));
            assert(line@.take(w + 1).drop_last() == line@.take(w as int));
            assert(line@.take(w + 1).last() == line@[w as int]);
        }
        lead = add_capped_usize(lead, char_width(line[w]));
        w += 1;
    }
    proof {
        if w < line.len() {
            assert(line@.skip(w as int)[0] == line@[w as int]);
        }
    }
    lead
}

/// Lays the items of a list out: every line that is not blank, trimmed,
/// behind a bullet.
fn layout_list(
    content: &Vec<char>,
    links: &Vec<InlineLink>,
    lines: &mut Vec<StyledLine>,
    link_positions: &mut Vec<LinkPosition>,
)
    ensures
        final(lines)@.len() == old(lines)@.len() + filled_lines(lines_of(content@)),
        line_views(final(lines)@) == line_views(old(lines)@) + list_layout(
            lines_of(content@),
            lines_of(content@).len() as int,
            links@,
            old(lines)@.len() as usize,
        ).lines,
        place_views(final(link_positions)@) == place_views(old(link_positions)@) + list_layout(
            lines_of(content@),
            lines_of(content@).len() as int,
            links@,
            old(lines)@.len() as usize,
        ).places,
{
    let text = text_lines(content);
    let first = lines.len();
    let ghost all = views_of(text@);
    let ghost at = first;
    let mut offset: usize = 0;
    let mut i: usize = 0;
    proof {
        assert(all.take(0) =~= Seq::<Seq<char>>::empty());
        assert(line_views(lines@) =~= line_views(old(lines)@) + list_layout(
            all,
            0,
            links@,
            at,
        ).lines);
        assert(place_views(link_positions@) =~= place_views(old(link_positions)@) + list_layout(
            all,
            0,
            links@,
            at,
        ).places);
    }
    while i < text.len()
        invariant
            i <= text.len(),
            all == views_of(text@),
            all == lines_of(content@),
            at == old(lines)@.len(),
            offset == line_offset(all, i as int),
            lines@.len() == at + filled_lines(all.take(i as int)),
            list_layout(all, i as int, links@, at).lines.len() == filled_lines(all.take(i as int)),
            line_views(lines@) == line_views(old(lines)@) + list_layout(
                all,
                i as int,
                links@,
                at,
            ).lines,
            place_views(link_positions@) == place_views(old(link_positions)@) + list_layout(
                all,
                i as int,
                links@,
                at,
            ).places,
        decreases text.len() - i,
    {
        proof {
            assert(all.take(i + 1).drop_last() == all.take(i as int));
            assert(all.take(i + 1).last() == text@[i as int]@);
            assert(all[i as int] == text@[i as int]@);
        }
        let ghost laid = list_layout(all, i as int, links@, at);
        let line = &text[i];
        let inner = trim_chars(line);
        if inner.len() > 0 {
            let lead = leading_width(line);
            let mut spans: Vec<StyledSpan> = one_span(BULLET, SpanRole::Bullet);
            let ghost head = span_views(spans@);
            let mut rest = split_line_at_links(
                &inner,
                add_capped_usize(offset, lead),
                links,
                SpanRole::Plain,
                PREFIX_COLUMNS,
                lines.len(),
                link_positions,
            );
            let ghost tail = span_views(rest@);
            spans.append(&mut rest);
            proof {
                assert(span_views(spans@) =~= head + tail);
            }
            push_line(lines, spans);
            proof {
                let next = list_layout(all, i + 1, links@, at);
                assert(next.lines =~= laid.lines.push(head + tail));
                assert(line_views(lines@) =~= line_views(old(lines)@) + next.lines);
                assert(place_views(link_positions@) =~= place_views(old(link_positions)@)
                    + next.places);
            }
        }
        offset = add_capped_usize(add_capped_usize(offset, text_width(line)), 1);
        i += 1;
    }
    proof {
        assert(all.take(text.len() as int) == all);
    }
}

/// Lays a code block out: its lines between the top and the bottom of a
/// frame, each behind the frame's side.
fn layout_code(content: &Vec<char>, lines: &mut Vec<StyledLine>)
    ensures
        final(lines)@.len() == old(lines)@.len() + lines_of(content@).len() + 2,
        line_views(final(lines)@) == line_views(old(lines)@) + code_layout(lines_of(content@)),
{
    let text = text_lines(content);
    let ghost all = views_of(text@);
    let ghost top = seq![seq![(CODE_TOP@, SpanRole::CodeBorder)]];
    push_line(lines, one_span(CODE_TOP, SpanRole::CodeBorder));
    proof {
        assert(line_views(lines@) =~= line_views(old(lines)@) + (top + code_rows(all, 0)));
    }
    let mut i: usize = 0;
    while i < text.len()
        invariant
            i <= text.len(),
            all == views_of(text@),
            all == lines_of(content@),
            top == seq![seq![(CODE_TOP@, SpanRole::CodeBorder)]],
            lines@.len() == old(lines)@.len() + 1 + i,
            line_views(lines@) == line_views(old(lines)@) + (top + code_rows(all, i as int)),
        decreases text.len() - i,
    {
        let mut spans: Vec<StyledSpan> = one_span(CODE_SIDE, SpanRole::CodeBorder);
        let ghost side = span_views(spans@);
        let code = StyledSpan { text: string_of(&text[i]), role: SpanRole::CodeText };
        spans.push(code);
        proof {
            assert(all[i as int] == text@[i as int]@);
            assert(span_views(spans@) =~= side.push((code.text@, code.role)));
            assert(span_views(spans@) =~= seq![
                (CODE_SIDE@, SpanRole::CodeBorder),
                (all[i as int], SpanRole::CodeText),
            ]);
        }
        push_line(lines, spans);
        proof {
            assert(line_views(lines@) =~= line_views(old(lines)@) + (top + code_rows(
                all,
                i + 1,
            )));
        }
        i += 1;
    }
    push_line(lines, one_span(CODE_BOTTOM, SpanRole::CodeBorder));
    proof {
        assert(line_views(lines@) =~= line_views(old(lines)@) + code_layout(all));
    }
}

/// Lays a table out: every line that is not blank, trimmed, behind two
/// spaces.
fn layout_table(content: &Vec<char>, lines: &mut Vec<StyledLine>)
    ensures
        final(lines)@.len() == old(lines)@.len() + filled_lines(lines_of(content@)),
        line_views(final(lines)@) == line_views(old(lines)@) + table_layout(
            lines_of(content@),
            lines_of(content@).len() as int,
        ),
{
    let text = text_lines(content);
    let ghost all = views_of(text@);
    let mut i: usize = 0;
    proof {
        assert(all.take(0) =~= Seq::<Seq<char>>::empty());
        assert(line_views(lines@) =~= line_views(old(lines)@) + table_layout(all, 0));
    }
    while i < text.len()
        invariant
            i <= text.len(),
            all == views_of(text@),
            all == lines_of(content@),
            lines@.len() == old(lines)@.len() + filled_lines(all.take(i as int)),
            line_views(lines@) == line_views(old(lines)@) + table_layout(all, i as int),
        decreases text.len() - i,
    {
        proof {
            assert(all.take(i + 1).drop_last() == all.take(i as int));
            assert(all.take(i + 1).last() == text@[i as int]@);
            assert(all[i as int] == text@[i as int]@);
        }
        let inner = trim_chars(&text[i]);
        if inner.len() > 0 {
            let mut row = String::new();
            row.append("  ");
            push_chars(&mut row, &inner, 0, inner.len());
            proof {
                assert(inner@.subrange(0, inner.len() as int) == inner@);
                assert(row@ =~= "  "@ + trimmed(all[i as int]));
            }
            push_line(lines, one_span(row.as_str(), SpanRole::Table));
            proof {
                assert(line_views(lines@) =~= line_views(old(lines)@) + table_layout(all, i + 1));
            }
        }
        i += 1;
    }
    proof {
        assert(all.take(text.len() as int) == all);
    }
}

/// Lays one block out behind the lines that are there, and adds the places
/// of its links.
pub fn layout_block(
    block: &ContentBlock,
    lines: &mut Vec<StyledLine>,
    link_positions: &mut Vec<LinkPosition>,
)
    ensures
        final(lines)@.len() == old(lines)@.len() + block_height(*block),
        line_views(final(lines)@) == line_views(old(lines)@) + block_layout(
            *block,
            old(lines)@.len() as usize,
        ).lines,
        place_views(final(link_positions)@) == place_views(old(link_positions)@) + block_layout(
            *block,
            old(lines)@.len() as usize,
        ).places,
{
    let content = chars_of(block.content.as_str());
    match block.kind {
        BlockKind::Heading(level) => {
            let prefix = heading_prefix(level);
            let columns = text_width(&chars_of(prefix));
            layout_text(
                &content,
                &block.inline_links,
                Some((prefix, SpanRole::Heading(level))),
                SpanRole::Heading(level),
                columns,
                lines,
                link_positions,
            );
        },
        BlockKind::Paragraph => {
            layout_text(
                &content,
                &block.inline_links,
                None,
                SpanRole::Plain,
                0,
                lines,
                link_positions,
            );
        },
        BlockKind::HtmlBlock => {
            layout_text(
                &content,
                &block.inline_links,
                None,
                SpanRole::Plain,
                0,
                lines,
                link_positions,
            );
        },
        BlockKind::CodeBlock => {
            layout_code(&content, lines);
            proof {
                assert(place_views(link_positions@) =~= place_views(old(link_positions)@)
                    + Seq::<LinkPlace>::empty());
            }
        },
        BlockKind::List => {
            layout_list(&content, &block.inline_links, lines, link_positions);
        },
        BlockKind::BlockQuote => {
            layout_text(
                &content,
                &block.inline_links,
                Some((QUOTE_BAR, SpanRole::QuoteBar)),
                SpanRole::QuoteText,
                PREFIX_COLUMNS,
                lines,
                link_positions,
            );
        },
        BlockKind::ThematicBreak => {
            push_line(lines, one_span(RULE, SpanRole::Rule));
            proof {
                assert(line_views(lines@) =~= line_views(old(lines)@) + seq![
                    seq![(RULE@, SpanRole::Rule)],
                ]);
                assert(place_views(link_positions@) =~= place_views(old(link_positions)@)
                    + Seq::<LinkPlace>::empty());
            }
        },
        BlockKind::Table => {
            layout_table(&content, lines);
            proof {
                assert(place_views(link_positions@) =~= place_views(old(link_positions)@)
                    + Seq::<LinkPlace>::empty());
            }
        },
    }
}

/// Lays a parsed document out in lines: block after block with a blank line
/// between every two, each heading with the line on which it starts, each
/// link with the place of its text.
pub fn render_document(doc: &ParsedDocument) -> (out: RenderedDocument)
    ensures
        out.lines@.len() == blocks_height(doc.blocks@),
        line_views(out.lines@) == document_layout(doc.blocks@).lines,
        place_views(out.link_positions@) == document_layout(doc.blocks@).places,
        heading_place_views(out.heading_lines@) == heading_places(doc.blocks@),
{
    let mut lines: Vec<StyledLine> = Vec::new();
    let mut heading_lines: Vec<HeadingPosition> = Vec::new();
    let mut link_positions: Vec<LinkPosition> = Vec::new();
    let mut i: usize = 0;
    proof {
        assert(doc.blocks@.take(0) =~= Seq::<ContentBlock>::empty());
        assert(heading_place_views(heading_lines@) =~= Seq::<HeadingPlace>::empty());
        assert(line_views(lines@) =~= Seq::<Seq<SpanText>>::empty());
        assert(place_views(link_positions@) =~= Seq::<LinkPlace>::empty());
    }
    while i < doc.blocks.len()
        invariant
            i <= doc.blocks.len(),
            lines@.len() == blocks_height(doc.blocks@.take(i as int)),
            line_views(lines@) == document_layout(doc.blocks@.take(i as int)).lines,
            place_views(link_positions@) == document_layout(doc.blocks@.take(i as int)).places,
            heading_place_views(heading_lines@) == heading_places(doc.blocks@.take(i as int)),
        decreases doc.blocks.len() - i,
    {
        let block = &doc.blocks[i];
        let ghost head = doc.blocks@.take(i as int);
        let ghost next = doc.blocks@.take(i + 1);
        proof {
            assert(next.drop_last() == head);
            assert(next.last() == *block);
            assert(next.take(i as int) == head);
            assert(next[0] == doc.blocks@[0]);
        }
        if i > 0 {
            push_line(&mut lines, Vec::new());
            proof {
                assert(span_views(Seq::<StyledSpan>::empty()) =~= Seq::<SpanText>::empty());
            }
        }
        let ghost above = line_views(lines@);
        match block.kind {
            BlockKind::Heading(level) => {
                let ghost before = heading_place_views(heading_lines@);
                let place = HeadingPosition {
                    rendered_line: lines.len(),
                    level,
                    text: block.content.clone(),
                };
                heading_lines.push(place);
                proof {
                    assert(heading_place_views(heading_lines@) =~= before.push(
                        (place.rendered_line, place.level, place.text@),
                    ));
                }
            },
            _ => {},
        }
        layout_block(block, &mut lines, &mut link_positions);
        proof {
            assert(above.len() == lines@.len() - block_height(*block));
            assert(line_views(lines@) =~= document_layout(next).lines);
            assert(place_views(link_positions@) =~= document_layout(next).places);
        }
        i += 1;
    }
    proof {
        assert(doc.blocks@.take(doc.blocks.len() as int) == doc.blocks@);
    }
    RenderedDocument { lines, heading_lines, link_positions }
}

} // verus!
