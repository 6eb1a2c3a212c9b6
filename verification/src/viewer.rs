//! The terminal viewer's decisions: what a key press does to the scroll
//! position, the focused link, the outline, the search and the help, and
//! what the caller has to do next. Nothing here draws or reads a key.

use crate::render::{
    advance_search_match, first_match_from, is_external_url, nearest_match_from, stepped_match,
    HeadingPosition, LinkPosition, SearchMatch, SearchState,
};
use crate::paths::{
    extension_of, extension_text, file_name_of, file_name_text, join_path, joined, parent_of,
    parent_text,
};
use crate::text::{
    chars_are, chars_of, decimal, find_first, first_occurrence, first_of, has_prefix,
    lowercase_of, push_chars, push_decimal,
};
use vstd::prelude::*;
use vstd::string::*;
use vstd::utf8::*;

verus! {

/// The key that was pressed.
#[derive(Debug, Clone, Copy, PartialEq, Eq, Structural)]
pub enum KeyCode {
    Char(char),
    Esc,
    Enter,
    Backspace,
    Up,
    Down,
    Home,
    End,
    PageUp,
    PageDown,
    Tab,
    BackTab,
    /// Any other key.
    Other,
}

/// A key press: the key, and whether Control was held.
#[derive(Debug, Clone, Copy)]
pub struct KeyPress {
    pub code: KeyCode,
    pub ctrl: bool,
}

/// The outline while it is open.
#[derive(Debug, Clone, Copy)]
pub struct OutlineState {
    /// The index of the selected heading.
    pub selected: usize,
    /// The scroll offset from before the outline opened, to go back to.
    pub saved_scroll: usize,
}

/// The help while it is open.
#[derive(Debug, Clone)]
pub struct HelpState {
    /// What the shortcuts are filtered by.
    pub filter: String,
    /// How far the help is scrolled.
    pub scroll_offset: usize,
    /// The scroll offset from before the help opened, to go back to.
    pub saved_scroll: usize,
}

/// Where the viewer was before it followed a link.
#[derive(Debug, Clone)]
pub struct NavigationEntry {
    pub file_path: String,
    pub scroll_offset: usize,
    pub focused_link: Option<usize>,
}

/// The largest scroll offset: what the document has more lines than the
/// viewport.
pub open spec fn max_scroll_of(total_lines: usize, viewport_height: usize) -> usize {
    if total_lines >= viewport_height {
        (total_lines - viewport_height) as usize
    } else {
        0
    }
}

/// The largest scroll offset for a document and a viewport.
pub fn max_scroll(total_lines: usize, viewport_height: usize) -> (r: usize)
    ensures
        r == max_scroll_of(total_lines, viewport_height),
{
    if total_lines >= viewport_height {
        total_lines - viewport_height
    } else {
        0
    }
}

/// The smaller of two numbers.
pub open spec fn least(a: usize, b: usize) -> usize {
    if a <= b {
        a
    } else {
        b
    }
}

fn min_of(a: usize, b: usize) -> (r: usize)
    ensures
        r == least(a, b),
{
    if a <= b {
        a
    } else {
        b
    }
}

/// `a + b`, or the largest `usize` where the sum is larger.
pub open spec fn capped_sum(a: usize, b: usize) -> usize {
    if a + b <= usize::MAX {
        (a + b) as usize
    } else {
        usize::MAX
    }
}

fn add_capped(a: usize, b: usize) -> (r: usize)
    ensures
        r == capped_sum(a, b),
{
    if a <= usize::MAX - b {
        a + b
    } else {
        usize::MAX
    }
}

/// `a - b`, or zero where `b` is larger.
pub open spec fn floored_difference(a: usize, b: usize) -> usize {
    if a >= b {
        (a - b) as usize
    } else {
        0
    }
}

fn sub_floored(a: usize, b: usize) -> (r: usize)
    ensures
        r == floored_difference(a, b),
{
    if a >= b {
        a - b
    } else {
        0
    }
}

/// The scroll offset that shows `line`: unchanged where the line is in view,
/// else such that the line stands a third of the viewport below the top, as
/// far as the document allows.
pub open spec fn scrolled_to_show(
    line: usize,
    scroll_offset: usize,
    viewport_height: usize,
    max_scroll: usize,
) -> usize {
    if line < scroll_offset || line >= capped_sum(scroll_offset, viewport_height) {
        least(floored_difference(line, (viewport_height / 3) as usize), max_scroll)
    } else {
        scroll_offset
    }
}

/// Scrolls so that `line` is in view.
pub fn scroll_to_show(line: usize, scroll_offset: usize, viewport_height: usize, max_scroll: usize) -> (r:
    usize)
    ensures
        r == scrolled_to_show(line, scroll_offset, viewport_height, max_scroll),
{
    if line < scroll_offset || line >= add_capped(scroll_offset, viewport_height) {
        min_of(sub_floored(line, viewport_height / 3), max_scroll)
    } else {
        scroll_offset
    }
}

/// The index of the first heading below line `scroll_offset`, from `from` on.
pub open spec fn heading_after(hs: Seq<HeadingPosition>, scroll_offset: usize, from: int) -> Option<int>
    decreases hs.len() - from,
{
    if from < 0 || from >= hs.len() {
        None
    } else if hs[from].rendered_line > scroll_offset {
        Some(from)
    } else {
        heading_after(hs, scroll_offset, from + 1)
    }
}

/// The index of the last heading above line `scroll_offset`.
pub open spec fn heading_before(hs: Seq<HeadingPosition>, scroll_offset: usize) -> Option<int>
    decreases hs.len(),
{
    if hs.len() == 0 {
        None
    } else if hs.last().rendered_line < scroll_offset {
        Some(hs.len() - 1)
    } else {
        heading_before(hs.drop_last(), scroll_offset)
    }
}

/// The index of the last heading at or above line `scroll_offset`; the first
/// heading where there is none.
pub open spec fn heading_at_or_before(hs: Seq<HeadingPosition>, scroll_offset: usize) -> int
    decreases hs.len(),
{
    if hs.len() == 0 {
        0
    } else if hs.last().rendered_line <= scroll_offset {
        hs.len() - 1
    } else {
        heading_at_or_before(hs.drop_last(), scroll_offset)
    }
}

/// Finds the first heading below the scroll offset.
pub fn next_heading(hs: &Vec<HeadingPosition>, scroll_offset: usize) -> (r: Option<usize>)
    ensures
        r is Some <==> heading_after(hs@, scroll_offset, 0) is Some,
        r matches Some(i) ==> heading_after(hs@, scroll_offset, 0) == Some(i as int) && i < hs.len(),
{
    let mut i: usize = 0;
    while i < hs.len()
        invariant
            i <= hs.len(),
            heading_after(hs@, scroll_offset, 0) == heading_after(hs@, scroll_offset, i as int),
        decreases hs.len() - i,
    {
        if hs[i].rendered_line > scroll_offset {
            return Some(i);
        }
        i += 1;
    }
    None
}

/// Finds the last heading above the scroll offset.
pub fn previous_heading(hs: &Vec<HeadingPosition>, scroll_offset: usize) -> (r: Option<usize>)
    ensures
        r is Some <==> heading_before(hs@, scroll_offset) is Some,
        r matches Some(i) ==> heading_before(hs@, scroll_offset) == Some(i as int) && i < hs.len(),
{
    let mut n: usize = hs.len();
    proof {
        assert(hs@.take(n as int) == hs@);
    }
    while n > 0
        invariant
            n <= hs.len(),
            heading_before(hs@, scroll_offset) == heading_before(hs@.take(n as int), scroll_offset),
        decreases n,
    {
        proof {
            assert(hs@.take(n as int).drop_last() == hs@.take(n - 1));
            assert(hs@.take(n as int).last() == hs@[n - 1]);
        }
        if hs[n - 1].rendered_line < scroll_offset {
            return Some(n - 1);
        }
        n -= 1;
    }
    None
}

/// Finds the heading that the outline opens on.
pub fn outline_start(hs: &Vec<HeadingPosition>, scroll_offset: usize) -> (r: usize)
    ensures
        r == heading_at_or_before(hs@, scroll_offset),
        hs.len() > 0 ==> r < hs.len(),
{
    let mut n: usize = hs.len();
    proof {
        assert(hs@.take(n as int) == hs@);
    }
    while n > 0
        invariant
            n <= hs.len(),
            heading_at_or_before(hs@, scroll_offset) == heading_at_or_before(
                hs@.take(n as int),
                scroll_offset,
            ),
        decreases n,
    {
        proof {
            assert(hs@.take(n as int).drop_last() == hs@.take(n - 1));
            assert(hs@.take(n as int).last() == hs@[n - 1]);
        }
        if hs[n - 1].rendered_line <= scroll_offset {
            return n - 1;
        }
        n -= 1;
    }
    0
}

/// The index of the first link at or below line `scroll_offset`, from `from`
/// on.
pub open spec fn link_at_or_after(links: Seq<LinkPosition>, scroll_offset: usize, from: int) -> Option<
    int,
>
    decreases links.len() - from,
{
    if from < 0 || from >= links.len() {
        None
    } else if links[from].rendered_line >= scroll_offset {
        Some(from)
    } else {
        link_at_or_after(links, scroll_offset, from + 1)
    }
}

/// The index of the last link above line `end`.
pub open spec fn link_before(links: Seq<LinkPosition>, end: usize) -> Option<int>
    decreases links.len(),
{
    if links.len() == 0 {
        None
    } else if links.last().rendered_line < end {
        Some(links.len() - 1)
    } else {
        link_before(links.drop_last(), end)
    }
}

/// The link that Tab moves the focus to: the one after the focused link,
/// around the end; without a focus the first link at or below the top of
/// the view, or the first of all.
pub open spec fn link_after_tab(links: Seq<LinkPosition>, focused: Option<usize>, scroll_offset: usize) -> usize {
    match focused {
        Some(i) => ((i + 1) % (links.len() as int)) as usize,
        None => match link_at_or_after(links, scroll_offset, 0) {
            Some(i) => i as usize,
            None => 0,
        },
    }
}

/// The link that Shift-Tab moves the focus to: the one before the focused
/// link, around the start; without a focus the last link above the bottom of
/// the view, or the last of all.
pub open spec fn link_after_back_tab(
    links: Seq<LinkPosition>,
    focused: Option<usize>,
    scroll_offset: usize,
    viewport_height: usize,
) -> usize {
    match focused {
        Some(i) => if i == 0 {
            (links.len() - 1) as usize
        } else {
            (i - 1) as usize
        },
        None => match link_before(links, capped_sum(scroll_offset, viewport_height)) {
            Some(i) => i as usize,
            None => (links.len() - 1) as usize,
        },
    }
}

/// Moves the focus to the next link.
pub fn focus_next_link(links: &Vec<LinkPosition>, focused: Option<usize>, scroll_offset: usize) -> (r:
    usize)
    requires
        links.len() > 0,
    ensures
        r == link_after_tab(links@, focused, scroll_offset),
        r < links.len(),
{
    match focused {
        Some(i) => {
            let n = links.len();
            proof {
                vstd::arithmetic::div_mod::lemma_add_mod_noop(i as int, 1, n as int);
                if n > 1 {
                    vstd::arithmetic::div_mod::lemma_small_mod(1, n as nat);
                }
            }
            (i % n + 1) % n
        },
        None => {
            let mut i: usize = 0;
            while i < links.len()
                invariant
                    i <= links.len(),
                    focused is None,
                    link_at_or_after(links@, scroll_offset, 0) == link_at_or_after(
                        links@,
                        scroll_offset,
                        i as int,
                    ),
                decreases links.len() - i,
            {
                if links[i].rendered_line >= scroll_offset {
                    return i;
                }
                i += 1;
            }
            0
        },
    }
}

/// Moves the focus to the previous link.
pub fn focus_previous_link(
    links: &Vec<LinkPosition>,
    focused: Option<usize>,
    scroll_offset: usize,
    viewport_height: usize,
) -> (r: usize)
    requires
        links.len() > 0,
    ensures
        r == link_after_back_tab(links@, focused, scroll_offset, viewport_height),
{
    match focused {
        Some(i) => {
            if i == 0 {
                links.len() - 1
            } else {
                i - 1
            }
        },
        None => {
            let end = add_capped(scroll_offset, viewport_height);
            let mut n: usize = links.len();
            proof {
                assert(links@.take(n as int) == links@);
            }
            while n > 0
                invariant
                    n <= links.len(),
                    focused is None,
                    end == capped_sum(scroll_offset, viewport_height),
                    link_before(links@, end) == link_before(links@.take(n as int), end),
                decreases n,
            {
                proof {
                    assert(links@.take(n as int).drop_last() == links@.take(n - 1));
                    assert(links@.take(n as int).last() == links@[n - 1]);
                }
                if links[n - 1].rendered_line < end {
                    return n - 1;
                }
                n -= 1;
            }
            links.len() - 1
        },
    }
}

/// What the status bar says of the scroll position.
pub enum ScrollPosition {
    /// The document has no lines.
    Empty,
    /// The whole document is in view.
    All,
    /// The view is at the top.
    Top,
    /// The view is at the bottom.
    Bottom,
    /// The view starts after this many hundredths of the document.
    Percent(usize),
}

/// The scroll position of a view: the whole document, its top, its
/// bottom, or how many hundredths of the document lie above the view.
pub open spec fn scroll_position_of(
    scroll_offset: usize,
    total_lines: usize,
    viewport_height: usize,
) -> ScrollPosition {
    if total_lines == 0 {
        ScrollPosition::Empty
    } else if total_lines <= viewport_height {
        ScrollPosition::All
    } else if scroll_offset == 0 {
        ScrollPosition::Top
    } else if scroll_offset >= total_lines - viewport_height {
        ScrollPosition::Bottom
    } else {
        ScrollPosition::Percent(((scroll_offset * 100) / (total_lines as int)) as usize)
    }
}

/// The scroll position for the status bar.
pub fn scroll_position(scroll_offset: usize, total_lines: usize, viewport_height: usize) -> (r:
    ScrollPosition)
    ensures
        r == scroll_position_of(scroll_offset, total_lines, viewport_height),
{
    if total_lines == 0 {
        ScrollPosition::Empty
    } else if total_lines <= viewport_height {
        ScrollPosition::All
    } else if scroll_offset == 0 {
        ScrollPosition::Top
    } else if scroll_offset >= total_lines - viewport_height {
        ScrollPosition::Bottom
    } else {
        let wide = (scroll_offset as u128) * 100 / (total_lines as u128);
        proof {
            assert(scroll_offset < total_lines);
            assert((scroll_offset * 100) / (total_lines as int) < 100) by (nonlinear_arith)
                requires
                    0 <= scroll_offset < total_lines,
            ;
        }
        ScrollPosition::Percent(wide as usize)
    }
}


// ---------------------------------------------------------------------------
// Search
// ---------------------------------------------------------------------------

/// Whether `needle` stands in `hay` at byte `at`.
pub open spec fn bytes_at(hay: Seq<u8>, needle: Seq<u8>, at: int) -> bool {
    0 <= at && at + needle.len() <= hay.len() && hay.subrange(at, at + needle.len()) == needle
}

/// The matches of `needle` in the line `hay` that start before byte `n`, in
/// rising order; matches may overlap.
pub open spec fn line_matches(line: usize, hay: Seq<u8>, needle: Seq<u8>, n: int) -> Seq<SearchMatch>
    decreases n,
{
    if n <= 0 {
        Seq::empty()
    } else if bytes_at(hay, needle, n - 1) {
        line_matches(line, hay, needle, n - 1).push(
            SearchMatch {
                rendered_line: line,
                column_start: (n - 1) as usize,
                column_end: (n - 1 + needle.len()) as usize,
            },
        )
    } else {
        line_matches(line, hay, needle, n - 1)
    }
}

/// The bytes of a text in lower case.
pub open spec fn lowered_bytes(s: Seq<char>) -> Seq<u8> {
    encode_utf8(lowercase_of(s))
}

/// Every place where `query` occurs in the lines, case ignored: line by
/// line, within a line from left to right, each with the byte columns that
/// it covers in the lower-cased line. An empty query occurs nowhere.
pub open spec fn matches_in(lines: Seq<String>, query: Seq<char>) -> Seq<SearchMatch>
    decreases lines.len(),
{
    if lines.len() == 0 || query.len() == 0 {
        Seq::empty()
    } else {
        matches_in(lines.drop_last(), query) + line_matches(
            (lines.len() - 1) as usize,
            lowered_bytes(lines.last()@),
            lowered_bytes(query),
            lowered_bytes(lines.last()@).len() as int,
        )
    }
}

fn bytes_match_at(hay: &[u8], needle: &[u8], at: usize) -> (r: bool)
    requires
        at <= hay.len(),
    ensures
        r == bytes_at(hay@, needle@, at as int),
{
    if needle.len() > hay.len() - at {
        return false;
    }
    let mut i: usize = 0;
    while i < needle.len()
        invariant
            i <= needle.len(),
            at + needle.len() <= hay.len(),
            hay@.subrange(at as int, at + i) == needle@.take(i as int),
        decreases needle.len() - i,
    {
        if hay[at + i] != needle[i] {
            assert(hay@.subrange(at as int, at + needle.len())[i as int] != needle@[i as int]);
            return false;
        }
        i += 1;
        assert(hay@.subrange(at as int, at + i) == hay@.subrange(at as int, at + i - 1).push(
            hay@[at + i - 1],
        ));
        assert(needle@.take(i as int) == needle@.take(i - 1).push(needle@[i - 1]));
    }
    assert(needle@.take(needle.len() as int) == needle@);
    true
}

/// Finds every occurrence of `query` in the lines, case ignored.
pub fn find_matches(lines: &Vec<String>, query: &str) -> (out: Vec<SearchMatch>)
    ensures
        out@ == matches_in(lines@, query@),
{
    let mut out: Vec<SearchMatch> = Vec::new();
    if query.is_empty() {
        return out;
    }
    let query_lower = query.to_lowercase();
    let needle = query_lower.as_str().as_bytes();
    let mut l: usize = 0;
    proof {
        assert(lines@.take(0) =~= Seq::<String>::empty());
    }
    while l < lines.len()
        invariant
            l <= lines.len(),
            query@.len() > 0,
            needle@ == lowered_bytes(query@),
            out@ == matches_in(lines@.take(l as int), query@),
        decreases lines.len() - l,
    {
        let text_lower = lines[l].as_str().to_lowercase();
        let hay = text_lower.as_str().as_bytes();
        let ghost before = out@;
        proof {
            assert(lines@.take(l + 1).drop_last() == lines@.take(l as int));
            assert(lines@.take(l + 1).last() == lines@[l as int]);
        }
        let mut pos: usize = 0;
        proof {
            assert(before + Seq::<SearchMatch>::empty() =~= before);
        }
        while pos < hay.len()
            invariant
                pos <= hay.len(),
                l < lines.len(),
                hay@ == lowered_bytes(lines@[l as int]@),
                needle@ == lowered_bytes(query@),
                out@ == before + line_matches(l, hay@, needle@, pos as int),
            decreases hay.len() - pos,
        {
            if bytes_match_at(hay, needle, pos) {
                let m = SearchMatch {
                    rendered_line: l,
                    column_start: pos,
                    column_end: pos + needle.len(),
                };
                out.push(m);
                proof {
                    assert(out@ =~= before + line_matches(l, hay@, needle@, pos as int).push(m));
                }
            }
            pos += 1;
        }
        l += 1;
    }
    proof {
        assert(lines@.take(lines.len() as int) == lines@);
    }
    out
}


// ---------------------------------------------------------------------------
// The viewer
// ---------------------------------------------------------------------------

/// The viewer's state.
#[derive(Debug)]
pub struct Viewer {
    /// The file in view.
    pub current_path: String,
    /// The text of each rendered line.
    pub lines: Vec<String>,
    /// Where the headings stand.
    pub heading_lines: Vec<HeadingPosition>,
    /// Where the links stand.
    pub link_positions: Vec<LinkPosition>,
    /// The first line in view.
    pub scroll_offset: usize,
    /// The link in focus.
    pub focused_link: Option<usize>,
    /// The outline, while it is open.
    pub outline: Option<OutlineState>,
    /// The search, while there is one.
    pub search: Option<SearchState>,
    /// The help, while it is open.
    pub help: Option<HelpState>,
    /// Where the viewer came from, link by link.
    pub nav_stack: Vec<NavigationEntry>,
}

/// What the caller has to do after a key press.
#[derive(Debug)]
pub enum ViewerAction {
    /// Nothing but to draw again.
    Continue,
    /// Leave the viewer.
    Quit,
    /// Open this URL in the browser.
    OpenExternal(String),
    /// Find the file that this link of the current file points at, and
    /// where it can be read hand it to `open_document`.
    FollowLink(String),
    /// Read the file of this entry again, and where it can be read hand it
    /// to `restore_document`.
    GoBack(NavigationEntry),
}

/// What a key press leaves as it is in every case: the document.
pub open spec fn same_document(b: Viewer, a: Viewer) -> bool {
    &&& a.current_path == b.current_path
    &&& a.lines == b.lines
    &&& a.heading_lines == b.heading_lines
    &&& a.link_positions == b.link_positions
}

/// The match that a search jumps to from line `scroll_offset`.
pub open spec fn nearest_match(matches: Seq<SearchMatch>, scroll_offset: usize) -> Option<usize> {
    if matches.len() == 0 {
        None
    } else {
        Some(
            match first_match_from(matches, scroll_offset, 0) {
                Some(i) => i as usize,
                None => 0usize,
            },
        )
    }
}

/// The scroll offset after the view followed the search to its match.
pub open spec fn scrolled_to_match(
    search: Option<SearchState>,
    scroll_offset: usize,
    viewport_height: usize,
    max_scroll: usize,
) -> usize {
    match search {
        Some(s) => match s.current_match {
            Some(i) => if i < s.matches.len() {
                scrolled_to_show(
                    s.matches@[i as int].rendered_line,
                    scroll_offset,
                    viewport_height,
                    max_scroll,
                )
            } else {
                scroll_offset
            },
            None => scroll_offset,
        },
        None => scroll_offset,
    }
}

/// What a key does while the help is open: Escape and `?` close it and go
/// back to where the view was; Backspace and characters edit the filter;
/// the arrows scroll the help.
pub open spec fn help_effect(b: Viewer, a: Viewer, key: KeyPress) -> bool {
    let h = b.help->0;
    &&& same_document(b, a)
    &&& a.nav_stack@ == b.nav_stack@
    &&& a.outline == b.outline
    &&& a.search == b.search
    &&& a.focused_link == b.focused_link
    &&& match key.code {
        KeyCode::Esc => a.help is None && a.scroll_offset == h.saved_scroll,
        KeyCode::Backspace => a.scroll_offset == b.scroll_offset && a.help is Some
            && a.help->0.filter@ == (if h.filter@.len() > 0 {
            h.filter@.drop_last()
        } else {
            h.filter@
        }) && a.help->0.scroll_offset == 0 && a.help->0.saved_scroll == h.saved_scroll,
        KeyCode::Down => a.scroll_offset == b.scroll_offset && a.help is Some && a.help->0.filter
            == h.filter && a.help->0.scroll_offset == capped_sum(h.scroll_offset, 1)
            && a.help->0.saved_scroll == h.saved_scroll,
        KeyCode::Up => a.scroll_offset == b.scroll_offset && a.help is Some && a.help->0.filter
            == h.filter && a.help->0.scroll_offset == floored_difference(h.scroll_offset, 1)
            && a.help->0.saved_scroll == h.saved_scroll,
        KeyCode::Char(c) => if c == '?' {
            a.help is None && a.scroll_offset == h.saved_scroll
        } else {
            a.scroll_offset == b.scroll_offset && a.help is Some && a.help->0.filter@
                == h.filter@.push(c) && a.help->0.scroll_offset == 0 && a.help->0.saved_scroll
                == h.saved_scroll
        },
        _ => a.scroll_offset == b.scroll_offset && a.help == b.help,
    }
}

/// What a key does while the outline is open: `j`, `k`, `g`, `G` and the
/// keys that stand for them move the selection and the view with it; Enter
/// closes the outline where the selection is; Escape, `q` and `o` close it
/// and go back to where the view was.
pub open spec fn outline_effect(b: Viewer, a: Viewer, key: KeyPress, viewport_height: usize) -> bool {
    let o = b.outline->0;
    let n = b.heading_lines.len();
    let ms = max_scroll_of(b.lines.len(), viewport_height);
    let moved = |selected: usize|
        a.outline == Some(OutlineState { selected, saved_scroll: o.saved_scroll })
            && a.scroll_offset == least(b.heading_lines@[selected as int].rendered_line, ms);
    let down = key.code == KeyCode::Char('j') || key.code == KeyCode::Down;
    let up = key.code == KeyCode::Char('k') || key.code == KeyCode::Up;
    let first = key.code == KeyCode::Char('g') || key.code == KeyCode::Home;
    let last = key.code == KeyCode::Char('G') || key.code == KeyCode::End;
    let back = key.code == KeyCode::Esc || key.code == KeyCode::Char('q') || key.code
        == KeyCode::Char('o');
    &&& same_document(b, a)
    &&& a.nav_stack@ == b.nav_stack@
    &&& a.help == b.help
    &&& a.search == b.search
    &&& a.focused_link == b.focused_link
    &&& if down {
        moved(least(capped_sum(o.selected, 1), (n - 1) as usize))
    } else if up {
        moved(floored_difference(o.selected, 1))
    } else if first {
        moved(0)
    } else if last {
        moved((n - 1) as usize)
    } else if key.code == KeyCode::Enter {
        a.outline is None && a.scroll_offset == b.scroll_offset
    } else if back {
        a.outline is None && a.scroll_offset == o.saved_scroll
    } else {
        a.outline == b.outline && a.scroll_offset == b.scroll_offset
    }
}

/// The search after a key while its query is being typed, before the view
/// follows it: Enter ends the typing, or the search where nothing was found;
/// Escape ends the search; Backspace and characters edit the query and look
/// again; Control-n and Control-p step through the matches.
pub open spec fn typed_search(b: Viewer, key: KeyPress, after: Option<SearchState>) -> bool {
    let s = b.search->0;
    let edited = |query: Seq<char>|
        after is Some && after->0.query@ == query && after->0.typing == s.typing
            && after->0.matches@ == matches_in(b.lines@, query) && after->0.current_match
            == nearest_match(matches_in(b.lines@, query), s.saved_scroll)
            && after->0.saved_scroll == s.saved_scroll;
    let stepped = |forward: bool|
        if s.matches.len() == 0 {
            after == b.search
        } else {
            after is Some && after->0.current_match == Some(
                stepped_match(s.current_match, s.matches.len(), forward),
            ) && after->0.matches == s.matches && after->0.query == s.query && after->0.typing
                == s.typing && after->0.saved_scroll == s.saved_scroll
        };
    match key.code {
        KeyCode::Enter => if s.matches.len() == 0 {
            after is None
        } else {
            after is Some && !after->0.typing && after->0.query == s.query && after->0.matches
                == s.matches && after->0.current_match == s.current_match
                && after->0.saved_scroll == s.saved_scroll
        },
        KeyCode::Esc => after is None,
        KeyCode::Backspace => edited(
            if s.query@.len() > 0 {
                s.query@.drop_last()
            } else {
                s.query@
            },
        ),
        KeyCode::Char(c) => if c == 'n' && key.ctrl {
            stepped(true)
        } else if c == 'p' && key.ctrl {
            stepped(false)
        } else {
            edited(s.query@.push(c))
        },
        _ => after == b.search,
    }
}

/// What a key does while the query of a search is being typed: the search
/// changes as `typed_search` says, Escape goes back to where the view was,
/// and the view follows the search to its match.
pub open spec fn search_effect(b: Viewer, a: Viewer, key: KeyPress, viewport_height: usize) -> bool {
    let s = b.search->0;
    let ms = max_scroll_of(b.lines.len(), viewport_height);
    &&& same_document(b, a)
    &&& a.nav_stack@ == b.nav_stack@
    &&& a.help == b.help
    &&& a.outline == b.outline
    &&& a.focused_link == b.focused_link
    &&& typed_search(b, key, a.search)
    &&& a.scroll_offset == scrolled_to_match(
        a.search,
        if key.code == KeyCode::Esc {
            s.saved_scroll
        } else {
            b.scroll_offset
        },
        viewport_height,
        ms,
    )
}

/// The viewer can take a key: the selection of the outline is a heading and
/// the match of the search is a match.
pub open spec fn viewer_wf(v: Viewer) -> bool {
    &&& v.outline matches Some(o) ==> o.selected < v.heading_lines.len()
    &&& v.search matches Some(s) ==> (s.current_match matches Some(i) ==> i < s.matches.len())
}

impl Viewer {
    /// A viewer on a document, at its top.
    pub fn new(
        current_path: String,
        lines: Vec<String>,
        heading_lines: Vec<HeadingPosition>,
        link_positions: Vec<LinkPosition>,
    ) -> (v: Self)
        ensures
            viewer_wf(v),
            v.current_path == current_path,
            v.lines == lines,
            v.heading_lines == heading_lines,
            v.link_positions == link_positions,
            v.scroll_offset == 0,
            v.focused_link is None,
            v.outline is None,
            v.search is None,
            v.help is None,
            v.nav_stack@.len() == 0,
    {
        Viewer {
            current_path,
            lines,
            heading_lines,
            link_positions,
            scroll_offset: 0,
            focused_link: None,
            outline: None,
            search: None,
            help: None,
            nav_stack: Vec::new(),
        }
    }

    /// Whether the viewer can take a key.
    pub fn is_well_formed(&self) -> (r: bool)
        ensures
            r == viewer_wf(*self),
    {
        let outline_ok = match self.outline {
            Some(o) => o.selected < self.heading_lines.len(),
            None => true,
        };
        let search_ok = match &self.search {
            Some(s) => match s.current_match {
                Some(i) => i < s.matches.len(),
                None => true,
            },
            None => true,
        };
        outline_ok && search_ok
    }

    /// Keeps the view within the document, whatever the size of the
    /// viewport has become.
    pub fn clamp_scroll(&mut self, viewport_height: usize)
        ensures
            final(self).scroll_offset == least(
                old(self).scroll_offset,
                max_scroll_of(old(self).lines.len(), viewport_height),
            ),
            same_document(*old(self), *final(self)),
            final(self).nav_stack@ == old(self).nav_stack@,
            final(self).focused_link == old(self).focused_link,
            final(self).outline == old(self).outline,
            final(self).search == old(self).search,
            final(self).help == old(self).help,
    {
        self.scroll_offset = min_of(self.scroll_offset, max_scroll(self.lines.len(), viewport_height));
    }

    fn help_key(&mut self, key: KeyPress)
        requires
            old(self).help is Some,
            viewer_wf(*old(self)),
        ensures
            help_effect(*old(self), *final(self), key),
            viewer_wf(*final(self)),
    {
        let mut h = self.help.take().unwrap();
        match key.code {
            KeyCode::Esc => {
                self.scroll_offset = h.saved_scroll;
            },
            KeyCode::Backspace => {
                let _ = h.filter.pop();
                h.scroll_offset = 0;
                self.help = Some(h);
            },
            KeyCode::Down => {
                h.scroll_offset = add_capped(h.scroll_offset, 1);
                self.help = Some(h);
            },
            KeyCode::Up => {
                h.scroll_offset = sub_floored(h.scroll_offset, 1);
                self.help = Some(h);
            },
            KeyCode::Char(c) => {
                if c == '?' {
                    self.scroll_offset = h.saved_scroll;
                } else {
                    h.filter.push(c);
                    h.scroll_offset = 0;
                    self.help = Some(h);
                }
            },
            _ => {
                self.help = Some(h);
            },
        }
    }

    fn outline_key(&mut self, key: KeyPress, viewport_height: usize)
        requires
            old(self).outline is Some,
            viewer_wf(*old(self)),
        ensures
            outline_effect(*old(self), *final(self), key, viewport_height),
            viewer_wf(*final(self)),
    {
        let o = self.outline.unwrap();
        let n = self.heading_lines.len();
        let ms = max_scroll(self.lines.len(), viewport_height);
        let target: Option<usize> = match key.code {
            KeyCode::Char('j') => Some(min_of(add_capped(o.selected, 1), n - 1)),
            KeyCode::Down => Some(min_of(add_capped(o.selected, 1), n - 1)),
            KeyCode::Char('k') => Some(sub_floored(o.selected, 1)),
            KeyCode::Up => Some(sub_floored(o.selected, 1)),
            KeyCode::Char('g') => Some(0),
            KeyCode::Home => Some(0),
            KeyCode::Char('G') => Some(n - 1),
            KeyCode::End => Some(n - 1),
            _ => None,
        };
        match target {
            Some(selected) => {
                self.outline = Some(OutlineState { selected, saved_scroll: o.saved_scroll });
                self.scroll_offset = min_of(self.heading_lines[selected].rendered_line, ms);
            },
            None => {
                match key.code {
                    KeyCode::Enter => {
                        self.outline = None;
                    },
                    KeyCode::Esc => {
                        self.scroll_offset = o.saved_scroll;
                        self.outline = None;
                    },
                    KeyCode::Char('q') => {
                        self.scroll_offset = o.saved_scroll;
                        self.outline = None;
                    },
                    KeyCode::Char('o') => {
                        self.scroll_offset = o.saved_scroll;
                        self.outline = None;
                    },
                    _ => {},
                }
            },
        }
    }

    fn follow_search(&mut self, viewport_height: usize)
        requires
            viewer_wf(*old(self)),
        ensures
            final(self).scroll_offset == scrolled_to_match(
                old(self).search,
                old(self).scroll_offset,
                viewport_height,
                max_scroll_of(old(self).lines.len(), viewport_height),
            ),
            same_document(*old(self), *final(self)),
            final(self).nav_stack@ == old(self).nav_stack@,
            final(self).focused_link == old(self).focused_link,
            final(self).outline == old(self).outline,
            final(self).search == old(self).search,
            final(self).help == old(self).help,
    {
        let ms = max_scroll(self.lines.len(), viewport_height);
        match &self.search {
            Some(s) => match s.current_match {
                Some(i) => {
                    if i < s.matches.len() {
                        let line = s.matches[i].rendered_line;
                        self.scroll_offset = scroll_to_show(
                            line,
                            self.scroll_offset,
                            viewport_height,
                            ms,
                        );
                    }
                },
                None => {},
            },
            None => {},
        }
    }

    fn search_again(&mut self, s: SearchState)
        ensures
            final(self).search is Some,
            final(self).search->0.query == s.query,
            final(self).search->0.typing == s.typing,
            final(self).search->0.matches@ == matches_in(old(self).lines@, s.query@),
            final(self).search->0.current_match == nearest_match(
                matches_in(old(self).lines@, s.query@),
                s.saved_scroll,
            ),
            final(self).search->0.saved_scroll == s.saved_scroll,
            same_document(*old(self), *final(self)),
            final(self).nav_stack@ == old(self).nav_stack@,
            final(self).focused_link == old(self).focused_link,
            final(self).outline == old(self).outline,
            final(self).help == old(self).help,
            final(self).scroll_offset == old(self).scroll_offset,
    {
        let matches = find_matches(&self.lines, s.query.as_str());
        let current_match = nearest_match_from(matches.as_slice(), s.saved_scroll);
        self.search = Some(
            SearchState {
                query: s.query,
                typing: s.typing,
                matches,
                current_match,
                saved_scroll: s.saved_scroll,
            },
        );
    }

    fn search_key(&mut self, key: KeyPress, viewport_height: usize)
        requires
            old(self).search is Some,
            viewer_wf(*old(self)),
            old(self).outline is None,
        ensures
            search_effect(*old(self), *final(self), key, viewport_height),
            viewer_wf(*final(self)),
    {
        match key.code {
            KeyCode::Enter => {
                let mut s = self.search.take().unwrap();
                if s.matches.len() > 0 {
                    s.typing = false;
                    self.search = Some(s);
                }
            },
            KeyCode::Esc => {
                let s = self.search.take().unwrap();
                self.scroll_offset = s.saved_scroll;
            },
            KeyCode::Backspace => {
                let mut s = self.search.take().unwrap();
                let _ = s.query.pop();
                self.search_again(s);
            },
            KeyCode::Char(c) => {
                if c == 'n' && key.ctrl {
                    advance_search_match(&mut self.search, true);
                } else if c == 'p' && key.ctrl {
                    advance_search_match(&mut self.search, false);
                } else {
                    let mut s = self.search.take().unwrap();
                    s.query.push(c);
                    self.search_again(s);
                }
            },
            _ => {},
        }
        proof {
            if old(self).search->0.matches.len() > 0 {
                lemma_stepped_in_range(
                    old(self).search->0.current_match,
                    old(self).search->0.matches.len(),
                    true,
                );
                lemma_stepped_in_range(
                    old(self).search->0.current_match,
                    old(self).search->0.matches.len(),
                    false,
                );
            }
            lemma_nearest_in_range(self.lines@, old(self).search->0.saved_scroll);
        }
        self.follow_search(viewport_height);
    }
}

/// What a key does while neither the help nor the outline is open and no
/// query is being typed.
pub open spec fn normal_effect(
    b: Viewer,
    a: Viewer,
    key: KeyPress,
    viewport_height: usize,
    action: ViewerAction,
) -> bool {
    let ms = max_scroll_of(b.lines.len(), viewport_height);
    let half = (viewport_height / 2) as usize;
    let rest_same = a.outline == b.outline && a.search == b.search && a.help == b.help
        && a.nav_stack@ == b.nav_stack@;
    let unchanged = rest_same && a.scroll_offset == b.scroll_offset && a.focused_link
        == b.focused_link && action is Continue;
    let unfocused_at = |scroll: usize|
        rest_same && a.scroll_offset == scroll && a.focused_link is None && action is Continue;
    let to_heading = |found: Option<int>|
        unfocused_at(
            match found {
                Some(i) => least(b.heading_lines@[i].rendered_line, ms),
                None => b.scroll_offset,
            },
        );
    let stepped = |forward: bool|
        a.outline == b.outline && a.help == b.help && a.nav_stack@ == b.nav_stack@
            && a.focused_link is None && action is Continue && (if b.search->0.matches.len()
            == 0 {
            a.search == b.search
        } else {
            a.search is Some && a.search->0.current_match == Some(
                stepped_match(b.search->0.current_match, b.search->0.matches.len(), forward),
            ) && a.search->0.matches == b.search->0.matches && a.search->0.query
                == b.search->0.query && a.search->0.typing == b.search->0.typing
                && a.search->0.saved_scroll == b.search->0.saved_scroll
        }) && a.scroll_offset == scrolled_to_match(a.search, b.scroll_offset, viewport_height, ms);
    let focused_on = |link: usize|
        rest_same && a.focused_link == Some(link) && action is Continue && a.scroll_offset == (if link
            < b.link_positions.len() {
            scrolled_to_show(
                b.link_positions@[link as int].rendered_line,
                b.scroll_offset,
                viewport_height,
                ms,
            )
        } else {
            b.scroll_offset
        });
    &&& same_document(b, a)
    &&& match key.code {
        KeyCode::Char(c) => if c == 'q' {
            rest_same && a.scroll_offset == b.scroll_offset && a.focused_link == b.focused_link
                && action is Quit
        } else if c == 'o' {
            if b.heading_lines.len() > 0 {
                a.outline == Some(
                    OutlineState {
                        selected: heading_at_or_before(b.heading_lines@, b.scroll_offset) as usize,
                        saved_scroll: b.scroll_offset,
                    },
                ) && a.search == b.search && a.help == b.help && a.nav_stack@ == b.nav_stack@
                    && a.scroll_offset == b.scroll_offset && a.focused_link is None
                    && action is Continue
            } else {
                unchanged
            }
        } else if c == 'j' {
            unfocused_at(least(capped_sum(b.scroll_offset, 1), ms))
        } else if c == 'k' {
            unfocused_at(floored_difference(b.scroll_offset, 1))
        } else if c == 'd' && key.ctrl {
            unfocused_at(least(capped_sum(b.scroll_offset, half), ms))
        } else if c == 'u' && key.ctrl {
            unfocused_at(floored_difference(b.scroll_offset, half))
        } else if c == 'g' {
            unfocused_at(0)
        } else if c == 'G' {
            unfocused_at(ms)
        } else if c == 'n' {
            if key.ctrl && b.search is Some {
                stepped(true)
            } else {
                to_heading(heading_after(b.heading_lines@, b.scroll_offset, 0))
            }
        } else if c == 'p' {
            if key.ctrl && b.search is Some {
                stepped(false)
            } else {
                to_heading(heading_before(b.heading_lines@, b.scroll_offset))
            }
        } else if c == '?' {
            a.help is Some && a.help->0.filter@.len() == 0 && a.help->0.scroll_offset == 0
                && a.help->0.saved_scroll == b.scroll_offset && a.outline == b.outline && a.search
                == b.search && a.nav_stack@ == b.nav_stack@ && a.scroll_offset == b.scroll_offset
                && a.focused_link is None && action is Continue
        } else if c == '/' {
            a.search is Some && a.search->0.query@.len() == 0 && a.search->0.typing
                && a.search->0.matches@.len() == 0 && a.search->0.current_match is None
                && a.search->0.saved_scroll == b.scroll_offset && a.outline == b.outline && a.help
                == b.help && a.nav_stack@ == b.nav_stack@ && a.scroll_offset == b.scroll_offset
                && a.focused_link is None && action is Continue
        } else {
            unchanged
        },
        KeyCode::Down => unfocused_at(least(capped_sum(b.scroll_offset, 1), ms)),
        KeyCode::Up => unfocused_at(floored_difference(b.scroll_offset, 1)),
        KeyCode::PageDown => unfocused_at(least(capped_sum(b.scroll_offset, half), ms)),
        KeyCode::PageUp => unfocused_at(floored_difference(b.scroll_offset, half)),
        KeyCode::Home => unfocused_at(0),
        KeyCode::End => unfocused_at(ms),
        KeyCode::Tab => if b.link_positions.len() > 0 {
            focused_on(link_after_tab(b.link_positions@, b.focused_link, b.scroll_offset))
        } else {
            unchanged
        },
        KeyCode::BackTab => if b.link_positions.len() > 0 {
            focused_on(
                link_after_back_tab(
                    b.link_positions@,
                    b.focused_link,
                    b.scroll_offset,
                    viewport_height,
                ),
            )
        } else {
            unchanged
        },
        KeyCode::Enter => rest_same && a.scroll_offset == b.scroll_offset && a.focused_link
            == b.focused_link && match b.focused_link {
            Some(i) => if i < b.link_positions.len() {
                if leaves_viewer(b.link_positions@[i as int].url@) {
                    (action matches ViewerAction::OpenExternal(url) && url@
                        == b.link_positions@[i as int].url@)
                } else {
                    (action matches ViewerAction::FollowLink(url) && url@
                        == b.link_positions@[i as int].url@)
                }
            } else {
                action is Continue
            },
            None => action is Continue,
        },
        KeyCode::Backspace => a.outline == b.outline && a.search == b.search && a.help == b.help
            && a.scroll_offset == b.scroll_offset && a.focused_link == b.focused_link && (if b.nav_stack.len()
            > 0 {
            a.nav_stack@ == b.nav_stack@.drop_last() && (action matches ViewerAction::GoBack(
                entry,
            ) && entry == b.nav_stack@.last())
        } else {
            a.nav_stack@ == b.nav_stack@ && action is Continue
        }),
        KeyCode::Esc => a.outline == b.outline && a.help == b.help && a.nav_stack@ == b.nav_stack@
            && a.scroll_offset == b.scroll_offset && action is Continue && (if b.search is Some {
            a.search is None && a.focused_link == b.focused_link
        } else {
            a.search is None && a.focused_link is None
        }),
        KeyCode::Other => unchanged,
    }
}

/// Whether a link leaves the viewer for the browser.
pub open spec fn leaves_viewer(url: Seq<char>) -> bool {
    has_prefix(url, "http://"@) || has_prefix(url, "https://"@) || has_prefix(url, "mailto:"@)
}

/// What a key does, by the mode that the viewer is in: the help comes
/// first, then the outline, then a search whose query is being typed.
pub open spec fn key_effect(
    b: Viewer,
    a: Viewer,
    key: KeyPress,
    viewport_height: usize,
    action: ViewerAction,
) -> bool {
    if b.help is Some {
        help_effect(b, a, key) && action is Continue
    } else if b.outline is Some {
        outline_effect(b, a, key, viewport_height) && action is Continue
    } else if b.search is Some && b.search->0.typing {
        search_effect(b, a, key, viewport_height) && action is Continue
    } else {
        normal_effect(b, a, key, viewport_height, action)
    }
}


impl Viewer {
    fn scroll_unfocused(&mut self, scroll: usize)
        ensures
            final(self).scroll_offset == scroll,
            final(self).focused_link is None,
            same_document(*old(self), *final(self)),
            final(self).nav_stack@ == old(self).nav_stack@,
            final(self).outline == old(self).outline,
            final(self).search == old(self).search,
            final(self).help == old(self).help,
    {
        self.scroll_offset = scroll;
        self.focused_link = None;
    }

    fn focus(&mut self, link: usize, viewport_height: usize)
        ensures
            final(self).focused_link == Some(link),
            final(self).scroll_offset == (if link < old(self).link_positions.len() {
                scrolled_to_show(
                    old(self).link_positions@[link as int].rendered_line,
                    old(self).scroll_offset,
                    viewport_height,
                    max_scroll_of(old(self).lines.len(), viewport_height),
                )
            } else {
                old(self).scroll_offset
            }),
            same_document(*old(self), *final(self)),
            final(self).nav_stack@ == old(self).nav_stack@,
            final(self).outline == old(self).outline,
            final(self).search == old(self).search,
            final(self).help == old(self).help,
    {
        self.focused_link = Some(link);
        if link < self.link_positions.len() {
            let ms = max_scroll(self.lines.len(), viewport_height);
            self.scroll_offset = scroll_to_show(
                self.link_positions[link].rendered_line,
                self.scroll_offset,
                viewport_height,
                ms,
            );
        }
    }

    fn step_search(&mut self, forward: bool, viewport_height: usize)
        requires
            old(self).search is Some,
            viewer_wf(*old(self)),
        ensures
            viewer_wf(*final(self)),
            same_document(*old(self), *final(self)),
            final(self).nav_stack@ == old(self).nav_stack@,
            final(self).outline == old(self).outline,
            final(self).help == old(self).help,
            final(self).focused_link is None,
            if old(self).search->0.matches.len() == 0 {
                final(self).search == old(self).search
            } else {
                final(self).search is Some && final(self).search->0.current_match == Some(
                    stepped_match(
                        old(self).search->0.current_match,
                        old(self).search->0.matches.len(),
                        forward,
                    ),
                ) && final(self).search->0.matches == old(self).search->0.matches
                    && final(self).search->0.query == old(self).search->0.query
                    && final(self).search->0.typing == old(self).search->0.typing
                    && final(self).search->0.saved_scroll == old(self).search->0.saved_scroll
            },
            final(self).scroll_offset == scrolled_to_match(
                final(self).search,
                old(self).scroll_offset,
                viewport_height,
                max_scroll_of(old(self).lines.len(), viewport_height),
            ),
    {
        advance_search_match(&mut self.search, forward);
        proof {
            if old(self).search->0.matches.len() > 0 {
                lemma_stepped_in_range(
                    old(self).search->0.current_match,
                    old(self).search->0.matches.len(),
                    forward,
                );
            }
        }
        self.follow_search(viewport_height);
        self.focused_link = None;
    }

    fn char_key(&mut self, c: char, ctrl: bool, viewport_height: usize) -> (action: ViewerAction)
        requires
            viewer_wf(*old(self)),
            old(self).help is None,
            old(self).outline is None,
        ensures
            viewer_wf(*final(self)),
            normal_effect(
                *old(self),
                *final(self),
                KeyPress { code: KeyCode::Char(c), ctrl },
                viewport_height,
                action,
            ),
    {
        let ms = max_scroll(self.lines.len(), viewport_height);
        let half = viewport_height / 2;
        if c == 'q' {
            return ViewerAction::Quit;
        } else if c == 'o' {
            if self.heading_lines.len() > 0 {
                let selected = outline_start(&self.heading_lines, self.scroll_offset);
                self.outline = Some(OutlineState { selected, saved_scroll: self.scroll_offset });
                self.focused_link = None;
            }
        } else if c == 'j' {
            self.scroll_unfocused(min_of(add_capped(self.scroll_offset, 1), ms));
        } else if c == 'k' {
            self.scroll_unfocused(sub_floored(self.scroll_offset, 1));
        } else if c == 'd' && ctrl {
            self.scroll_unfocused(min_of(add_capped(self.scroll_offset, half), ms));
        } else if c == 'u' && ctrl {
            self.scroll_unfocused(sub_floored(self.scroll_offset, half));
        } else if c == 'g' {
            self.scroll_unfocused(0);
        } else if c == 'G' {
            self.scroll_unfocused(ms);
        } else if c == 'n' {
            if ctrl && self.search.is_some() {
                self.step_search(true, viewport_height);
            } else {
                let scroll = match next_heading(&self.heading_lines, self.scroll_offset) {
                    Some(i) => min_of(self.heading_lines[i].rendered_line, ms),
                    None => self.scroll_offset,
                };
                self.scroll_unfocused(scroll);
            }
        } else if c == 'p' {
            if ctrl && self.search.is_some() {
                self.step_search(false, viewport_height);
            } else {
                let scroll = match previous_heading(&self.heading_lines, self.scroll_offset) {
                    Some(i) => min_of(self.heading_lines[i].rendered_line, ms),
                    None => self.scroll_offset,
                };
                self.scroll_unfocused(scroll);
            }
        } else if c == '?' {
            self.help = Some(
                HelpState { filter: String::new(), scroll_offset: 0, saved_scroll: self.scroll_offset },
            );
            self.focused_link = None;
        } else if c == '/' {
            self.search = Some(
                SearchState {
                    query: String::new(),
                    typing: true,
                    matches: Vec::new(),
                    current_match: None,
                    saved_scroll: self.scroll_offset,
                },
            );
            self.focused_link = None;
        }
        ViewerAction::Continue
    }

    fn normal_key(&mut self, key: KeyPress, viewport_height: usize) -> (action: ViewerAction)
        requires
            viewer_wf(*old(self)),
            old(self).help is None,
            old(self).outline is None,
        ensures
            viewer_wf(*final(self)),
            normal_effect(*old(self), *final(self), key, viewport_height, action),
    {
        let ms = max_scroll(self.lines.len(), viewport_height);
        let half = viewport_height / 2;
        match key.code {
            KeyCode::Char(c) => {
                return self.char_key(c, key.ctrl, viewport_height);
            },
            KeyCode::Down => {
                self.scroll_unfocused(min_of(add_capped(self.scroll_offset, 1), ms));
            },
            KeyCode::Up => {
                self.scroll_unfocused(sub_floored(self.scroll_offset, 1));
            },
            KeyCode::PageDown => {
                self.scroll_unfocused(min_of(add_capped(self.scroll_offset, half), ms));
            },
            KeyCode::PageUp => {
                self.scroll_unfocused(sub_floored(self.scroll_offset, half));
            },
            KeyCode::Home => {
                self.scroll_unfocused(0);
            },
            KeyCode::End => {
                self.scroll_unfocused(ms);
            },
            KeyCode::Tab => {
                if self.link_positions.len() > 0 {
                    let link = focus_next_link(
                        &self.link_positions,
                        self.focused_link,
                        self.scroll_offset,
                    );
                    self.focus(link, viewport_height);
                }
            },
            KeyCode::BackTab => {
                if self.link_positions.len() > 0 {
                    let link = focus_previous_link(
                        &self.link_positions,
                        self.focused_link,
                        self.scroll_offset,
                        viewport_height,
                    );
                    self.focus(link, viewport_height);
                }
            },
            KeyCode::Enter => {
                match self.focused_link {
                    Some(i) => {
                        if i < self.link_positions.len() {
                            let url = self.link_positions[i].url.clone();
                            if is_external_url(url.as_str()) {
                                return ViewerAction::OpenExternal(url);
                            } else {
                                return ViewerAction::FollowLink(url);
                            }
                        }
                    },
                    None => {},
                }
            },
            KeyCode::Backspace => {
                match self.nav_stack.pop() {
                    Some(entry) => {
                        return ViewerAction::GoBack(entry);
                    },
                    None => {},
                }
            },
            KeyCode::Esc => {
                if self.search.is_some() {
                    self.search = None;
                } else {
                    self.focused_link = None;
                }
            },
            KeyCode::Other => {},
        }
        ViewerAction::Continue
    }

    /// Takes a key press. The view should have been kept within the
    /// document by `clamp_scroll` first.
    pub fn handle_key(&mut self, key: KeyPress, viewport_height: usize) -> (action: ViewerAction)
        requires
            viewer_wf(*old(self)),
        ensures
            viewer_wf(*final(self)),
            key_effect(*old(self), *final(self), key, viewport_height, action),
    {
        if self.help.is_some() {
            self.help_key(key);
            ViewerAction::Continue
        } else if self.outline.is_some() {
            self.outline_key(key, viewport_height);
            ViewerAction::Continue
        } else {
            let typing = match &self.search {
                Some(s) => s.typing,
                None => false,
            };
            if typing {
                self.search_key(key, viewport_height);
                ViewerAction::Continue
            } else {
                self.normal_key(key, viewport_height)
            }
        }
    }

    /// Goes to another document after a link was followed: where the viewer
    /// was is remembered, and the new document is shown from its top.
    pub fn open_document(
        &mut self,
        path: String,
        lines: Vec<String>,
        heading_lines: Vec<HeadingPosition>,
        link_positions: Vec<LinkPosition>,
    )
        ensures
            viewer_wf(*final(self)),
            final(self).nav_stack@ == old(self).nav_stack@.push(
                NavigationEntry {
                    file_path: old(self).current_path,
                    scroll_offset: old(self).scroll_offset,
                    focused_link: old(self).focused_link,
                },
            ),
            final(self).current_path == path,
            final(self).lines == lines,
            final(self).heading_lines == heading_lines,
            final(self).link_positions == link_positions,
            final(self).scroll_offset == 0,
            final(self).focused_link is None,
            final(self).outline is None,
            final(self).search is None,
            final(self).help == old(self).help,
    {
        let mut current = path;
        std::mem::swap(&mut self.current_path, &mut current);
        self.nav_stack.push(
            NavigationEntry {
                file_path: current,
                scroll_offset: self.scroll_offset,
                focused_link: self.focused_link,
            },
        );
        self.lines = lines;
        self.heading_lines = heading_lines;
        self.link_positions = link_positions;
        self.scroll_offset = 0;
        self.focused_link = None;
        self.outline = None;
        self.search = None;
    }

    /// Goes back to a document that the viewer came from, to where it was.
    pub fn restore_document(
        &mut self,
        entry: NavigationEntry,
        lines: Vec<String>,
        heading_lines: Vec<HeadingPosition>,
        link_positions: Vec<LinkPosition>,
    )
        ensures
            viewer_wf(*final(self)),
            final(self).nav_stack@ == old(self).nav_stack@,
            final(self).current_path == entry.file_path,
            final(self).lines == lines,
            final(self).heading_lines == heading_lines,
            final(self).link_positions == link_positions,
            final(self).scroll_offset == entry.scroll_offset,
            final(self).focused_link == entry.focused_link,
            final(self).outline is None,
            final(self).search is None,
            final(self).help == old(self).help,
    {
        self.current_path = entry.file_path;
        self.lines = lines;
        self.heading_lines = heading_lines;
        self.link_positions = link_positions;
        self.scroll_offset = entry.scroll_offset;
        self.focused_link = entry.focused_link;
        self.outline = None;
        self.search = None;
    }
}

/// A step through the matches ends on a match.
pub proof fn lemma_stepped_in_range(current: Option<usize>, count: usize, forward: bool)
    requires
        current matches Some(i) ==> i < count,
        count > 0,
    ensures
        stepped_match(current, count, forward) < count,
{
    if forward {
        if let Some(i) = current {
            assert((i + 1) % (count as int) < count);
        }
    }
}

/// The match that a search jumps to is a match.
pub proof fn lemma_nearest_in_range(lines: Seq<String>, scroll_offset: usize)
    ensures
        forall|matches: Seq<SearchMatch>|
            #![trigger nearest_match(matches, scroll_offset)]
            nearest_match(matches, scroll_offset) matches Some(i) ==> i < matches.len(),
{
    assert forall|matches: Seq<SearchMatch>|
        #![trigger nearest_match(matches, scroll_offset)]
        nearest_match(matches, scroll_offset) is Some implies nearest_match(
            matches,
            scroll_offset,
        )->0 < matches.len() by {
        lemma_first_match_in_range(matches, scroll_offset, 0);
    }
}

/// The first match from a line on is a match.
pub proof fn lemma_first_match_in_range(matches: Seq<SearchMatch>, scroll_offset: usize, from: int)
    ensures
        first_match_from(matches, scroll_offset, from) matches Some(i) ==> from <= i < matches.len(),
    decreases matches.len() - from,
{
    if 0 <= from < matches.len() && matches[from].rendered_line < scroll_offset {
        lemma_first_match_in_range(matches, scroll_offset, from + 1);
    }
}


// ---------------------------------------------------------------------------
// The bars
// ---------------------------------------------------------------------------

/// The word for a scroll position.
pub open spec fn position_text(p: ScrollPosition) -> Seq<char> {
    match p {
        ScrollPosition::Empty => "Empty"@,
        ScrollPosition::All => "All"@,
        ScrollPosition::Top => "Top"@,
        ScrollPosition::Bottom => "Bot"@,
        ScrollPosition::Percent(n) => decimal(n as nat) + "%"@,
    }
}

/// What the bars say of a search: the number of the match in focus and the
/// number of matches, or that there are none.
pub open spec fn match_count_text(s: SearchState) -> Seq<char> {
    if s.matches.len() == 0 {
        "[No matches]"@
    } else {
        "["@ + decimal(
            match s.current_match {
                Some(i) => capped_sum(i, 1) as nat,
                None => 0,
            },
        ) + "/"@ + decimal(s.matches.len() as nat) + "]"@
    }
}

fn push_match_count(out: &mut String, s: &SearchState)
    ensures
        final(out)@ == old(out)@ + match_count_text(*s),
{
    if s.matches.len() == 0 {
        out.append("[No matches]");
    } else {
        out.append("[");
        let current = match s.current_match {
            Some(i) => add_capped(i, 1),
            None => 0,
        };
        push_decimal(out, current as u64);
        out.append("/");
        push_decimal(out, s.matches.len() as u64);
        out.append("]");
        proof {
            assert(out@ =~= old(out)@ + match_count_text(*s));
        }
    }
}

/// The bar in which the query of a search is typed: `/`, the query, a
/// cursor, and the count of matches once there is a query or a match.
pub open spec fn search_bar_text(s: SearchState) -> Seq<char> {
    "/"@ + s.query@ + "|"@ + if s.matches.len() == 0 && s.query@.len() == 0 {
        Seq::<char>::empty()
    } else {
        " "@ + match_count_text(s)
    }
}

/// Writes the bar in which the query of a search is typed.
pub fn search_bar(s: &SearchState) -> (out: String)
    ensures
        out@ == search_bar_text(*s),
{
    let mut out = String::new();
    out.append("/");
    out.append(s.query.as_str());
    out.append("|");
    if !(s.matches.len() == 0 && s.query.as_str().is_empty()) {
        out.append(" ");
        push_match_count(&mut out, s);
    }
    proof {
        assert(out@ =~= search_bar_text(*s));
    }
    out
}

/// The start of the status bar: the line in view, the number of lines and
/// the scroll position.
pub open spec fn status_lead(v: Viewer, viewport_height: usize) -> Seq<char> {
    " Line "@ + decimal(capped_sum(v.scroll_offset, 1) as nat) + "/"@ + decimal(
        v.lines.len() as nat,
    ) + " \u{2014} "@ + position_text(
        scroll_position_of(v.scroll_offset, v.lines.len(), viewport_height),
    )
}

/// What the status bar says of the way back: the name of the file in view,
/// where the viewer came from another.
pub open spec fn status_way_back(v: Viewer) -> Seq<char> {
    if v.nav_stack.len() > 0 {
        "  \u{2190} "@ + match file_name_text(v.current_path@) {
            Some(name) => name,
            None => "?"@,
        }
    } else {
        Seq::<char>::empty()
    }
}

/// What the status bar says of the heading in view.
pub open spec fn status_heading(v: Viewer) -> Seq<char> {
    match crate::render::heading_in_view(v.heading_lines@, v.scroll_offset) {
        Some(i) => " \u{00a7} "@ + v.heading_lines@[i].text@,
        None => Seq::<char>::empty(),
    }
}

/// What the status bar says of the link in focus.
pub open spec fn status_link(v: Viewer) -> Seq<char> {
    match v.focused_link {
        Some(i) => if i < v.link_positions.len() {
            " -> "@ + v.link_positions@[i as int].url@
        } else {
            Seq::<char>::empty()
        },
        None => Seq::<char>::empty(),
    }
}

/// What the status bar says of the search.
pub open spec fn status_search(v: Viewer) -> Seq<char> {
    match v.search {
        Some(s) => "  /"@ + s.query@ + " "@ + match_count_text(s),
        None => Seq::<char>::empty(),
    }
}

/// The status bar: the line in view and the number of lines, the scroll
/// position, then, each where there is one, the file that Backspace goes
/// back from, the heading in view, the link in focus and the search.
pub open spec fn status_text(v: Viewer, viewport_height: usize) -> Seq<char> {
    status_lead(v, viewport_height) + status_way_back(v) + status_heading(v) + status_link(v)
        + status_search(v)
}

fn write_status_lead(v: &Viewer, viewport_height: usize) -> (out: String)
    ensures
        out@ == status_lead(*v, viewport_height),
{
    let position = scroll_position(v.scroll_offset, v.lines.len(), viewport_height);
    let mut out = String::new();
    out.append(" Line ");
    push_decimal(&mut out, add_capped(v.scroll_offset, 1) as u64);
    out.append("/");
    push_decimal(&mut out, v.lines.len() as u64);
    out.append(" \u{2014} ");
    let ghost lead = out@;
    match position {
        ScrollPosition::Empty => {
            out.append("Empty");
        },
        ScrollPosition::All => {
            out.append("All");
        },
        ScrollPosition::Top => {
            out.append("Top");
        },
        ScrollPosition::Bottom => {
            out.append("Bot");
        },
        ScrollPosition::Percent(n) => {
            push_decimal(&mut out, n as u64);
            out.append("%");
        },
    }
    proof {
        assert(out@ =~= lead + position_text(position));
        assert(out@ =~= status_lead(*v, viewport_height));
    }
    out
}

fn write_status_way_back(v: &Viewer) -> (out: String)
    ensures
        out@ == status_way_back(*v),
{
    let mut out = String::new();
    if v.nav_stack.len() > 0 {
        out.append("  \u{2190} ");
        match file_name_of(v.current_path.as_str()) {
            Some(name) => {
                push_chars(&mut out, &name, 0, name.len());
                proof {
                    assert(name@.subrange(0, name.len() as int) == name@);
                }
            },
            None => {
                out.append("?");
            },
        }
        proof {
            assert(out@ =~= status_way_back(*v));
        }
    }
    out
}

fn write_status_heading(v: &Viewer) -> (out: String)
    ensures
        out@ == status_heading(*v),
{
    let mut out = String::new();
    match crate::render::current_heading_context(v.heading_lines.as_slice(), v.scroll_offset) {
        Some(h) => {
            out.append(" \u{00a7} ");
            out.append(h.text.as_str());
            proof {
                assert(out@ =~= status_heading(*v));
            }
        },
        None => {},
    }
    out
}

fn write_status_link(v: &Viewer) -> (out: String)
    ensures
        out@ == status_link(*v),
{
    let mut out = String::new();
    match v.focused_link {
        Some(i) => {
            if i < v.link_positions.len() {
                out.append(" -> ");
                out.append(v.link_positions[i].url.as_str());
                proof {
                    assert(out@ =~= status_link(*v));
                }
            }
        },
        None => {},
    }
    out
}

fn write_status_search(v: &Viewer) -> (out: String)
    ensures
        out@ == status_search(*v),
{
    let mut out = String::new();
    match &v.search {
        Some(s) => {
            out.append("  /");
            out.append(s.query.as_str());
            out.append(" ");
            push_match_count(&mut out, s);
            proof {
                assert(out@ =~= status_search(*v));
            }
        },
        None => {},
    }
    out
}

/// Writes the status bar.
pub fn status_line(v: &Viewer, viewport_height: usize) -> (out: String)
    ensures
        out@ == status_text(*v, viewport_height),
{
    let mut out = write_status_lead(v, viewport_height);
    let way_back = write_status_way_back(v);
    out.append(way_back.as_str());
    let heading = write_status_heading(v);
    out.append(heading.as_str());
    let link = write_status_link(v);
    out.append(link.as_str());
    let search = write_status_search(v);
    out.append(search.as_str());
    out
}

// ---------------------------------------------------------------------------
// The outline
// ---------------------------------------------------------------------------

/// How far the outline is scrolled so that the selected heading is in
/// view, about in the middle.
pub open spec fn outline_scrolled(headings: usize, selected: usize, inner_height: usize) -> usize {
    if headings == 0 || inner_height == 0 {
        0
    } else {
        least(
            floored_difference(selected, (inner_height / 2) as usize),
            floored_difference(headings, inner_height),
        )
    }
}

/// Computes how far the outline is scrolled.
pub fn outline_scroll(headings: usize, selected: usize, inner_height: usize) -> (r: usize)
    ensures
        r == outline_scrolled(headings, selected, inner_height),
{
    if headings == 0 || inner_height == 0 {
        0
    } else {
        min_of(sub_floored(selected, inner_height / 2), sub_floored(headings, inner_height))
    }
}

/// `count` times the text `piece`.
pub open spec fn repeated(piece: Seq<char>, count: nat) -> Seq<char>
    decreases count,
{
    if count == 0 {
        Seq::<char>::empty()
    } else {
        repeated(piece, (count - 1) as nat) + piece
    }
}

fn push_repeated(out: &mut String, piece: &str, count: usize)
    ensures
        final(out)@ == old(out)@ + repeated(piece@, count as nat),
{
    let mut i: usize = 0;
    proof {
        assert(out@ =~= old(out)@ + repeated(piece@, 0));
    }
    while i < count
        invariant
            i <= count,
            out@ == old(out)@ + repeated(piece@, i as nat),
        decreases count - i,
    {
        out.append(piece);
        i += 1;
        proof {
            assert(out@ =~= old(out)@ + (repeated(piece@, (i - 1) as nat) + piece@));
        }
    }
}

/// The line of a heading in the outline: two spaces for each level below
/// the first, as many `#` as the level says, a space, and the text.
pub open spec fn outline_text(h: HeadingPosition) -> Seq<char> {
    repeated("  "@, floored_difference(h.level as usize, 1) as nat) + repeated(
        "#"@,
        h.level as nat,
    ) + " "@ + h.text@
}

/// Writes the line of a heading in the outline.
pub fn outline_line(h: &HeadingPosition) -> (out: String)
    ensures
        out@ == outline_text(*h),
{
    let mut out = String::new();
    push_repeated(&mut out, "  ", sub_floored(h.level as usize, 1));
    push_repeated(&mut out, "#", h.level as usize);
    out.append(" ");
    out.append(h.text.as_str());
    proof {
        assert(out@ =~= outline_text(*h));
    }
    out
}

// ---------------------------------------------------------------------------
// The window of the outline and the help
// ---------------------------------------------------------------------------

/// A rectangle of the terminal.
#[derive(Debug, Clone, Copy, PartialEq, Eq, Structural)]
pub struct Area {
    pub x: u16,
    pub y: u16,
    pub width: u16,
    pub height: u16,
}

/// The size of a window along one side of `size` cells: `percent` of the
/// side, at least `least_size` cells, at most the side.
pub open spec fn window_size(size: u16, percent: u16, least_size: u16) -> u16 {
    let share = (size * percent) / 100;
    if share >= size || least_size >= size {
        size
    } else if share >= least_size {
        share as u16
    } else {
        least_size
    }
}

fn side(size: u16, percent: u16, least_size: u16) -> (r: u16)
    ensures
        r == window_size(size, percent, least_size),
        r <= size,
{
    assert((size as u32) * (percent as u32) <= 0xFFFF * 0xFFFF) by (nonlinear_arith)
        requires
            size <= 0xFFFF,
            percent <= 0xFFFF,
    ;
    let share: u32 = (size as u32) * (percent as u32) / 100;
    if share >= size as u32 || least_size >= size {
        size
    } else if share >= least_size as u32 {
        share as u16
    } else {
        least_size
    }
}

/// `a + b`, or the largest `u16` where the sum is larger.
pub open spec fn capped_u16(a: u16, b: u16) -> u16 {
    if a + b <= u16::MAX {
        (a + b) as u16
    } else {
        u16::MAX
    }
}

/// A window in the middle of `area` that takes the given shares of its
/// width and height, but at least thirty columns and five rows where the
/// area has them.
pub fn centered_rect(percent_x: u16, percent_y: u16, area: Area) -> (r: Area)
    ensures
        r.width == window_size(area.width, percent_x, 30),
        r.height == window_size(area.height, percent_y, 5),
        r.x == capped_u16(area.x, ((area.width - r.width) / 2) as u16),
        r.y == capped_u16(area.y, ((area.height - r.height) / 2) as u16),
{
    let width = side(area.width, percent_x, 30);
    let height = side(area.height, percent_y, 5);
    let dx = (area.width - width) / 2;
    let dy = (area.height - height) / 2;
    Area {
        x: if area.x > u16::MAX - dx {
            u16::MAX
        } else {
            area.x + dx
        },
        y: if area.y > u16::MAX - dy {
            u16::MAX
        } else {
            area.y + dy
        },
        width,
        height,
    }
}

// ---------------------------------------------------------------------------
// Files and links
// ---------------------------------------------------------------------------

/// The extensions of the files that the viewer shows.
pub open spec fn is_viewable_extension(ext: Seq<char>) -> bool {
    ext == "md"@ || ext == "markdown"@ || ext == "mdx"@ || ext == "mdown"@ || ext == "mkd"@ || ext
        == "mkdn"@
}

/// Whether a file extension is one of markdown.
pub fn viewable_extension(ext: &str) -> (r: bool)
    ensures
        r == is_viewable_extension(ext@),
{
    let e = chars_of(ext);
    chars_are(&e, "md") || chars_are(&e, "markdown") || chars_are(&e, "mdx") || chars_are(
        &e,
        "mdown",
    ) || chars_are(&e, "mkd") || chars_are(&e, "mkdn")
}

/// The file that a link of `current_file` points at, where it is a local
/// link to a markdown file: the link's path, without its fragment, under
/// the directory of the current file.
pub open spec fn link_file(current_file: Seq<char>, url: Seq<char>) -> Option<Seq<char>> {
    let cut = match first_of(url, '#', '#', 0) {
        Some(i) => i,
        None => url.len() as int,
    };
    if cut == 0 {
        None
    } else {
        match parent_text(current_file) {
            None => None,
            Some(dir) => match extension_text(joined(dir, url.take(cut))) {
                Some(ext) => if is_viewable_extension(ext) {
                    Some(joined(dir, url.take(cut)))
                } else {
                    None
                },
                None => None,
            },
        }
    }
}

/// Finds the file that a link points at. Whether the file exists is for the
/// caller to find out.
pub fn link_file_path(current_file: &str, url: &str) -> (r: Option<String>)
    ensures
        r is Some <==> link_file(current_file@, url@) is Some,
        r matches Some(p) ==> Some(p@) == link_file(current_file@, url@),
{
    let u = chars_of(url);
    let mut cut: usize = 0;
    while cut < u.len() && u[cut] != '#'
        invariant
            cut <= u.len(),
            first_of(u@, '#', '#', 0) == first_of(u@, '#', '#', cut as int),
        decreases u.len() - cut,
    {
        cut += 1;
    }
    if cut == 0 {
        return None;
    }
    let mut path_part = String::new();
    push_chars(&mut path_part, &u, 0, cut);
    proof {
        assert(u@.subrange(0, cut as int) == u@.take(cut as int));
    }
    let dir = match parent_of(current_file) {
        Some(d) => d,
        None => {
            return None;
        },
    };
    let target = join_path(dir.as_str(), path_part.as_str());
    match extension_of(target.as_str()) {
        Some(ext) => {
            if viewable_extension(ext.as_str()) {
                Some(target)
            } else {
                None
            }
        },
        None => None,
    }
}

// ---------------------------------------------------------------------------
// The help
// ---------------------------------------------------------------------------

/// A keyboard shortcut and what it does.
#[derive(Debug, Clone, Copy)]
pub struct ShortcutEntry {
    pub key: &'static str,
    pub description: &'static str,
}

/// A group of shortcuts.
#[derive(Debug, Clone)]
pub struct ShortcutCategory {
    pub name: &'static str,
    pub entries: Vec<ShortcutEntry>,
}

fn category(name: &'static str, entries: Vec<ShortcutEntry>) -> (c: ShortcutCategory)
    ensures
        c.name == name,
        c.entries == entries,
{
    ShortcutCategory { name, entries }
}

fn shortcut(key: &'static str, description: &'static str) -> (e: ShortcutEntry)
    ensures
        e.key == key,
        e.description == description,
{
    ShortcutEntry { key, description }
}

/// A shortcut as plain text: its key and what it does.
pub open spec fn entry_text(e: ShortcutEntry) -> (Seq<char>, Seq<char>) {
    (e.key@, e.description@)
}

/// A group as plain text: its name and its shortcuts.
pub open spec fn category_text(c: ShortcutCategory) -> (Seq<char>, Seq<(Seq<char>, Seq<char>)>) {
    (c.name@, Seq::new(c.entries@.len(), |i: int| entry_text(c.entries@[i])))
}

/// The groups as plain text.
pub open spec fn categories_text(cs: Seq<ShortcutCategory>) -> Seq<
    (Seq<char>, Seq<(Seq<char>, Seq<char>)>),
> {
    Seq::new(cs.len(), |i: int| category_text(cs[i]))
}

/// The shortcuts that the help lists, group by group.
pub open spec fn shortcut_table() -> Seq<(Seq<char>, Seq<(Seq<char>, Seq<char>)>)> {
    seq![
        (
            "Navigation"@,
            seq![
                ("j / \u{2193}"@, "Scroll down one line"@),
                ("k / \u{2191}"@, "Scroll up one line"@),
                ("Ctrl-d / PgDn"@, "Scroll down half page"@),
                ("Ctrl-u / PgUp"@, "Scroll up half page"@),
                ("g / Home"@, "Jump to top"@),
                ("G / End"@, "Jump to bottom"@),
            ],
        ),
        (
            "Headings"@,
            seq![
                ("n"@, "Next heading"@),
                ("p"@, "Previous heading"@),
                ("o"@, "Open outline"@),
            ],
        ),
        (
            "Search"@,
            seq![
                ("/"@, "Start search"@),
                ("Ctrl-n"@, "Next search match"@),
                ("Ctrl-p"@, "Previous search match"@),
                ("Enter"@, "Confirm search"@),
                ("Esc"@, "Cancel search"@),
            ],
        ),
        (
            "Links"@,
            seq![
                ("Tab"@, "Next link"@),
                ("Shift-Tab"@, "Previous link"@),
                ("Enter"@, "Follow focused link"@),
                ("Backspace"@, "Navigate back"@),
            ],
        ),
        (
            "General"@,
            seq![
                ("?"@, "Toggle this help"@),
                ("q"@, "Quit"@),
                ("Esc"@, "Clear search or link focus"@),
            ],
        ),
    ]
}

/// The shortcuts of the viewer, group by group.
pub fn shortcut_categories() -> (out: Vec<ShortcutCategory>)
    ensures
        categories_text(out@) == shortcut_table(),
{
    let mut out: Vec<ShortcutCategory> = Vec::new();
    let mut navigation: Vec<ShortcutEntry> = Vec::new();
    navigation.push(shortcut("j / \u{2193}", "Scroll down one line"));
    navigation.push(shortcut("k / \u{2191}", "Scroll up one line"));
    navigation.push(shortcut("Ctrl-d / PgDn", "Scroll down half page"));
    navigation.push(shortcut("Ctrl-u / PgUp", "Scroll up half page"));
    navigation.push(shortcut("g / Home", "Jump to top"));
    navigation.push(shortcut("G / End", "Jump to bottom"));
    let first = category("Navigation", navigation);
    proof {
        assert(category_text(first).1 =~= shortcut_table()[0].1);
    }
    out.push(first);
    let mut headings: Vec<ShortcutEntry> = Vec::new();
    headings.push(shortcut("n", "Next heading"));
    headings.push(shortcut("p", "Previous heading"));
    headings.push(shortcut("o", "Open outline"));
    let second = category("Headings", headings);
    proof {
        assert(category_text(second).1 =~= shortcut_table()[1].1);
    }
    out.push(second);
    let mut search: Vec<ShortcutEntry> = Vec::new();
    search.push(shortcut("/", "Start search"));
    search.push(shortcut("Ctrl-n", "Next search match"));
    search.push(shortcut("Ctrl-p", "Previous search match"));
    search.push(shortcut("Enter", "Confirm search"));
    search.push(shortcut("Esc", "Cancel search"));
    let third = category("Search", search);
    proof {
        assert(category_text(third).1 =~= shortcut_table()[2].1);
    }
    out.push(third);
    let mut links: Vec<ShortcutEntry> = Vec::new();
    links.push(shortcut("Tab", "Next link"));
    links.push(shortcut("Shift-Tab", "Previous link"));
    links.push(shortcut("Enter", "Follow focused link"));
    links.push(shortcut("Backspace", "Navigate back"));
    let fourth = category("Links", links);
    proof {
        assert(category_text(fourth).1 =~= shortcut_table()[3].1);
    }
    out.push(fourth);
    let mut general: Vec<ShortcutEntry> = Vec::new();
    general.push(shortcut("?", "Toggle this help"));
    general.push(shortcut("q", "Quit"));
    general.push(shortcut("Esc", "Clear search or link focus"));
    let fifth = category("General", general);
    proof {
        assert(category_text(fifth).1 =~= shortcut_table()[4].1);
    }
    out.push(fifth);
    proof {
        assert(categories_text(out@) =~= shortcut_table());
    }
    out
}

/// Whether `needle` occurs in `hay`.
pub open spec fn occurs_in(hay: Seq<char>, needle: Seq<char>) -> bool {
    first_occurrence(hay, needle, 0) is Some
}

/// Whether a shortcut is shown under a filter that is already in lower
/// case: the filter is empty, or it occurs in the lower-cased key,
/// description or name of the group.
pub open spec fn shortcut_shown(
    filter_lower: Seq<char>,
    key_lower: Seq<char>,
    description_lower: Seq<char>,
    name_lower: Seq<char>,
) -> bool {
    filter_lower.len() == 0 || occurs_in(key_lower, filter_lower) || occurs_in(
        description_lower,
        filter_lower,
    ) || occurs_in(name_lower, filter_lower)
}

/// Decides whether a shortcut is shown, from texts that are already in
/// lower case.
pub fn shortcut_matches(
    filter_lower: &str,
    key_lower: &str,
    description_lower: &str,
    name_lower: &str,
) -> (r: bool)
    ensures
        r == shortcut_shown(filter_lower@, key_lower@, description_lower@, name_lower@),
{
    let f = chars_of(filter_lower);
    if f.len() == 0 {
        return true;
    }
    let k = chars_of(key_lower);
    let d = chars_of(description_lower);
    let n = chars_of(name_lower);
    find_first(&k, &f).is_some() || find_first(&d, &f).is_some() || find_first(&n, &f).is_some()
}

/// The shortcuts among `entries` that are shown under `filter` in a group
/// called `name`, in order. An empty filter shows all; any other is looked for
/// without regard to case in the key, the description and the group's name.
pub open spec fn shown_entries(entries: Seq<ShortcutEntry>, filter: Seq<char>, name: Seq<char>) -> Seq<
    ShortcutEntry,
>
    decreases entries.len(),
{
    if entries.len() == 0 {
        Seq::<ShortcutEntry>::empty()
    } else {
        let before = shown_entries(entries.drop_last(), filter, name);
        let e = entries.last();
        if filter.len() == 0 || shortcut_shown(
            lowercase_of(filter),
            lowercase_of(e.key@),
            lowercase_of(e.description@),
            lowercase_of(name),
        ) {
            before.push(e)
        } else {
            before
        }
    }
}

/// The shortcuts of a group that are shown under a filter, in order.
pub fn visible_shortcuts(group: &ShortcutCategory, filter: &str) -> (out: Vec<ShortcutEntry>)
    ensures
        out@ == shown_entries(group.entries@, filter@, group.name@),
{
    let filter_lower = filter.to_lowercase();
    let name_lower = group.name.to_lowercase();
    let show_all = filter.is_empty();
    let mut out: Vec<ShortcutEntry> = Vec::new();
    let mut i: usize = 0;
    proof {
        assert(group.entries@.take(0) =~= Seq::<ShortcutEntry>::empty());
    }
    while i < group.entries.len()
        invariant
            i <= group.entries.len(),
            show_all == (filter@.len() == 0),
            filter_lower@ == lowercase_of(filter@),
            name_lower@ == lowercase_of(group.name@),
            out@ == shown_entries(group.entries@.take(i as int), filter@, group.name@),
        decreases group.entries.len() - i,
    {
        proof {
            assert(group.entries@.take(i + 1).drop_last() == group.entries@.take(i as int));
            assert(group.entries@.take(i + 1).last() == group.entries@[i as int]);
        }
        let e = group.entries[i];
        if show_all {
            out.push(e);
        } else {
            let key_lower = e.key.to_lowercase();
            let description_lower = e.description.to_lowercase();
            if shortcut_matches(
                filter_lower.as_str(),
                key_lower.as_str(),
                description_lower.as_str(),
                name_lower.as_str(),
            ) {
                out.push(e);
            }
        }
        i += 1;
    }
    proof {
        assert(group.entries@.take(group.entries.len() as int) == group.entries@);
    }
    out
}

/// The key of a shortcut as the help shows it: behind three spaces and
/// filled with spaces to sixteen characters.
pub open spec fn padded_key(key: Seq<char>) -> Seq<char> {
    "   "@ + key + repeated(" "@, floored_difference(16, key.len() as usize) as nat)
}

/// Writes the key of a shortcut as the help shows it.
pub fn shortcut_key_column(key: &str) -> (out: String)
    ensures
        out@ == padded_key(key@),
{
    let k = chars_of(key);
    let mut out = String::new();
    out.append("   ");
    out.append(key);
    push_repeated(&mut out, " ", sub_floored(16, k.len()));
    proof {
        assert(out@ =~= padded_key(key@));
    }
    out
}

} // verus!
