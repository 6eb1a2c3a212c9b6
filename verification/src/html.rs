//! What surrounds a rendered document: escaping, heading anchors, the table
//! of contents, link rewriting and the page shell.

use crate::ast::{
    document_nodes, edit_view, edit_views, edited_html, format_edited, read_document, DocNode,
    EditText, InlineText, NodeEdit,
};
use crate::backlinks::BacklinkRef;
use crate::paths::{
    components, components_text, components_to_text, cur_dir, file_stem_of, file_stem_text,
    parent_dir, parent_of, parent_text, path_components, root_marker, strip_components,
};
use crate::text::{
    chars_are, chars_eq, chars_of, decimal, digit_char, first_of, has_prefix, is_alphanumeric_char,
    is_white_space_char, lowercase_of, push_chars, push_decimal, replace_first, replaced_first,
    split_chars, split_on, starts_with, string_of, trimmed_start, views_of,
};
use vstd::prelude::*;
use vstd::string::*;

verus! {

/// A heading of a document, for the table of contents.
#[derive(Debug, Clone, PartialEq, Eq)]
pub struct HeadingEntry {
    /// Heading level, 1 to 6.
    pub level: u8,
    /// Plain text of the heading.
    pub text: String,
    /// URL-safe anchor, unique within the document.
    pub anchor_id: String,
}

// ---------------------------------------------------------------------------
// Escaping
// ---------------------------------------------------------------------------

/// One character as HTML text: `&`, `<`, `>`, `"` and `'` become entities.
pub open spec fn escaped_char(c: char) -> Seq<char> {
    if c == '&' {
        "&amp;"@
    } else if c == '<' {
        "&lt;"@
    } else if c == '>' {
        "&gt;"@
    } else if c == '"' {
        "&quot;"@
    } else if c == '\'' {
        "&#39;"@
    } else {
        seq![c]
    }
}

/// A text with every character escaped for HTML.
pub open spec fn html_escaped(s: Seq<char>) -> Seq<char>
    decreases s.len(),
{
    if s.len() == 0 {
        Seq::<char>::empty()
    } else {
        html_escaped(s.drop_last()) + escaped_char(s.last())
    }
}

/// Appends `s`, escaped for HTML, to `out`.
pub fn push_escaped(out: &mut String, s: &str)
    ensures
        final(out)@ == old(out)@ + html_escaped(s@),
{
    let cs = chars_of(s);
    let mut i: usize = 0;
    proof {
        assert(cs@.take(0) =~= Seq::<char>::empty());
        assert(out@ =~= old(out)@ + html_escaped(cs@.take(0)));
    }
    while i < cs.len()
        invariant
            i <= cs.len(),
            cs@ == s@,
            out@ == old(out)@ + html_escaped(cs@.take(i as int)),
        decreases cs.len() - i,
    {
        let c = cs[i];
        let ghost prev = out@;
        proof {
            assert(cs@.take(i + 1).drop_last() == cs@.take(i as int));
            assert(cs@.take(i + 1).last() == c);
        }
        if c == '&' {
            out.append("&amp;");
        } else if c == '<' {
            out.append("&lt;");
        } else if c == '>' {
            out.append("&gt;");
        } else if c == '"' {
            out.append("&quot;");
        } else if c == '\'' {
            out.append("&#39;");
        } else {
            out.push(c);
            proof {
                assert(out@ =~= prev + seq![c]);
            }
        }
        proof {
            assert(out@ =~= old(out)@ + (html_escaped(cs@.take(i as int)) + escaped_char(c)));
        }
        i += 1;
    }
    proof {
        assert(cs@.take(cs.len() as int) == cs@);
    }
}

/// Escapes `s` for use as HTML text or as an attribute value.
pub fn html_escape(s: &str) -> (out: String)
    ensures
        out@ == html_escaped(s@),
{
    let mut out = String::new();
    push_escaped(&mut out, s);
    proof {
        assert(Seq::<char>::empty() + html_escaped(s@) =~= html_escaped(s@));
    }
    out
}

// ---------------------------------------------------------------------------
// Table of contents
// ---------------------------------------------------------------------------

/// The list item of one heading in the table of contents.
pub open spec fn toc_item(h: HeadingEntry) -> Seq<char> {
    "<li class=\"toc-h"@ + decimal(h.level as nat) + "\"><a href=\"#"@ + h.anchor_id@ + "\">"@
        + html_escaped(h.text@) + "</a></li>\n"@
}

/// The list items of the headings, in order.
pub open spec fn toc_items(hs: Seq<HeadingEntry>) -> Seq<char>
    decreases hs.len(),
{
    if hs.len() == 0 {
        Seq::<char>::empty()
    } else {
        toc_items(hs.drop_last()) + toc_item(hs.last())
    }
}

/// The table of contents: empty without headings, else a flat list.
pub open spec fn toc_html(hs: Seq<HeadingEntry>) -> Seq<char> {
    if hs.len() == 0 {
        Seq::<char>::empty()
    } else {
        "<ul>\n"@ + toc_items(hs) + "</ul>\n"@
    }
}

/// Builds the list for the table-of-contents sidebar: one item per heading,
/// with class `toc-hN` and a link to the heading's anchor.
pub fn build_toc_html(headings: &[HeadingEntry]) -> (out: String)
    ensures
        out@ == toc_html(headings@),
{
    let mut out = String::new();
    if headings.len() == 0 {
        return out;
    }
    out.append("<ul>\n");
    let mut i: usize = 0;
    proof {
        assert(headings@.take(0) =~= Seq::<HeadingEntry>::empty());
        assert(out@ =~= "<ul>\n"@ + toc_items(headings@.take(0)));
    }
    while i < headings.len()
        invariant
            i <= headings.len(),
            out@ == "<ul>\n"@ + toc_items(headings@.take(i as int)),
        decreases headings.len() - i,
    {
        let h = &headings[i];
        let ghost prev = out@;
        proof {
            assert(headings@.take(i + 1).drop_last() == headings@.take(i as int));
            assert(headings@.take(i + 1).last() == headings@[i as int]);
        }
        out.append("<li class=\"toc-h");
        push_decimal(&mut out, h.level as u64);
        out.append("\"><a href=\"#");
        out.append(h.anchor_id.as_str());
        out.append("\">");
        push_escaped(&mut out, h.text.as_str());
        out.append("</a></li>\n");
        proof {
            assert(out@ =~= prev + toc_item(*h));
            assert(out@ =~= "<ul>\n"@ + (toc_items(headings@.take(i as int)) + toc_item(*h)));
        }
        i += 1;
    }
    out.append("</ul>\n");
    proof {
        assert(headings@.take(headings.len() as int) == headings@);
    }
    out
}


// ---------------------------------------------------------------------------
// Heading ids
// ---------------------------------------------------------------------------

/// The open tag that the renderer writes for a heading of `level`.
pub open spec fn heading_tag(level: u8) -> Seq<char> {
    "<h"@ + decimal(level as nat) + ">"@
}

/// The open tag of a heading with its anchor as `id`.
pub open spec fn heading_tag_with_id(h: HeadingEntry) -> Seq<char> {
    "<h"@ + decimal(h.level as nat) + " id=\""@ + h.anchor_id@ + "\">"@
}

/// The fragment after one injection per heading, in document order: each
/// replaces the first open tag of the heading's level that has no id yet.
pub open spec fn with_heading_ids(html: Seq<char>, hs: Seq<HeadingEntry>) -> Seq<char>
    decreases hs.len(),
{
    if hs.len() == 0 {
        html
    } else {
        replaced_first(
            with_heading_ids(html, hs.drop_last()),
            heading_tag(hs.last().level),
            heading_tag_with_id(hs.last()),
        )
    }
}

/// Injects `id` attributes into the heading tags of a rendered fragment, one
/// per heading entry, by first-occurrence replacement in document order.
pub fn inject_heading_ids(html: &str, headings: &[HeadingEntry]) -> (out: String)
    ensures
        out@ == with_heading_ids(html@, headings@),
{
    let mut cur = chars_of(html);
    let mut i: usize = 0;
    proof {
        assert(headings@.take(0) =~= Seq::<HeadingEntry>::empty());
    }
    while i < headings.len()
        invariant
            i <= headings.len(),
            cur@ == with_heading_ids(html@, headings@.take(i as int)),
        decreases headings.len() - i,
    {
        let h = &headings[i];
        proof {
            assert(headings@.take(i + 1).drop_last() == headings@.take(i as int));
            assert(headings@.take(i + 1).last() == headings@[i as int]);
        }
        let mut tag = String::new();
        tag.append("<h");
        push_decimal(&mut tag, h.level as u64);
        tag.append(">");
        let mut with_id = String::new();
        with_id.append("<h");
        push_decimal(&mut with_id, h.level as u64);
        with_id.append(" id=\"");
        with_id.append(h.anchor_id.as_str());
        with_id.append("\">");
        proof {
            assert(tag@ =~= heading_tag(h.level));
            assert(with_id@ =~= heading_tag_with_id(*h));
        }
        let tag_chars = chars_of(tag.as_str());
        let with_chars = chars_of(with_id.as_str());
        cur = replace_first(&cur, &tag_chars, &with_chars);
        i += 1;
    }
    proof {
        assert(headings@.take(headings.len() as int) == headings@);
    }
    string_of(&cur)
}

// ---------------------------------------------------------------------------
// Mermaid fences
// ---------------------------------------------------------------------------

/// How many characters at the start of `s` are not white space.
pub open spec fn token_len(s: Seq<char>) -> nat
    decreases s.len(),
{
    if s.len() == 0 || is_white_space_char(s[0]) {
        0
    } else {
        1 + token_len(s.skip(1))
    }
}

/// The first white-space-delimited token of `s`; empty where it has none.
pub open spec fn first_token(s: Seq<char>) -> Seq<char> {
    trimmed_start(s).take(token_len(trimmed_start(s)) as int)
}

/// An ASCII capital letter as its small letter; any other character unchanged.
pub open spec fn ascii_lower_char(c: char) -> char {
    if 'A' <= c && c <= 'Z' {
        ((c as u8) + 32) as char
    } else {
        c
    }
}

/// A text with its ASCII capital letters made small.
pub open spec fn ascii_lowered(s: Seq<char>) -> Seq<char> {
    Seq::new(s.len(), |i: int| ascii_lower_char(s[i]))
}

/// Whether the info string of a fenced code block asks for Mermaid: its
/// first token is `mermaid`, in any mix of ASCII case.
pub open spec fn names_mermaid(info: Seq<char>) -> bool {
    ascii_lowered(first_token(info)) == "mermaid"@
}

/// A text without white space is its own first token.
pub proof fn lemma_text_without_white_space_is_one_token(s: Seq<char>)
    requires
        forall|i: int| 0 <= i < s.len() ==> !is_white_space_char(#[trigger] s[i]),
    ensures
        token_len(s) == s.len(),
        first_token(s) == s,
    decreases s.len(),
{
    if s.len() > 0 {
        assert(!is_white_space_char(s[0]));
        assert forall|i: int| 0 <= i < s.skip(1).len() implies !is_white_space_char(
            #[trigger] s.skip(1)[i],
        ) by {
            assert(s.skip(1)[i] == s[i + 1]);
        }
        lemma_text_without_white_space_is_one_token(s.skip(1));
    }
    assert(s.take(s.len() as int) =~= s);
}

/// An info string that spells `mermaid` in any mix of capital and small
/// letters names Mermaid.
pub proof fn lemma_mermaid_in_any_case(info: Seq<char>)
    requires
        ascii_lowered(info) == "mermaid"@,
    ensures
        names_mermaid(info),
{
    reveal_strlit("mermaid");
    let m = "mermaid"@;
    assert(info.len() == m.len());
    assert forall|i: int| 0 <= i < info.len() implies !is_white_space_char(#[trigger] info[i]) by {
        assert(ascii_lowered(info)[i] == ascii_lower_char(info[i]));
        assert(ascii_lower_char(info[i]) == m[i]);
    }
    lemma_text_without_white_space_is_one_token(info);
}

/// The info string `MERMAID` names Mermaid.
pub proof fn lemma_upper_case_mermaid()
    ensures
        names_mermaid("MERMAID"@),
{
    reveal_strlit("mermaid");
    reveal_strlit("MERMAID");
    assert(ascii_lowered("MERMAID"@) =~= "mermaid"@);
    lemma_mermaid_in_any_case("MERMAID"@);
}

/// Whether a fenced code block with this info string is a Mermaid diagram.
pub fn is_mermaid_info(info: &str) -> (r: bool)
    ensures
        r == names_mermaid(info@),
{
    let cs = chars_of(info);
    let mut start: usize = 0;
    proof {
        assert(cs@.skip(0) == cs@);
    }
    while start < cs.len() && cs[start].is_whitespace()
        invariant
            start <= cs.len(),
            trimmed_start(cs@) == trimmed_start(cs@.skip(start as int)),
        decreases cs.len() - start,
    {
        proof {
            assert(cs@.skip(start as int).skip(1) == cs@.skip(start + 1));
        }
        start += 1;
    }
    let ghost rest = cs@.skip(start as int);
    let mut end: usize = start;
    let mut lowered: Vec<char> = Vec::new();
    proof {
        assert(rest.skip(0) == rest);
        assert(trimmed_start(cs@) == rest);
    }
    while end < cs.len() && !cs[end].is_whitespace()
        invariant
            start <= end <= cs.len(),
            rest == cs@.skip(start as int),
            token_len(rest) == (end - start) + token_len(rest.skip(end - start)),
            lowered@ == ascii_lowered(rest.take(end - start)),
        decreases cs.len() - end,
    {
        let c = cs[end];
        proof {
            assert(rest.skip(end - start)[0] == c);
            assert(rest.skip(end - start).skip(1) == rest.skip(end - start + 1));
        }
        let lc = if 'A' <= c && c <= 'Z' {
            ((c as u8) + 32) as char
        } else {
            c
        };
        lowered.push(lc);
        proof {
            assert(rest.take(end - start + 1) =~= rest.take(end - start).push(c));
            assert(lowered@ =~= ascii_lowered(rest.take(end - start + 1)));
        }
        end += 1;
    }
    proof {
        if end < cs.len() {
            assert(rest.skip(end - start)[0] == cs@[end as int]);
        }
        assert(token_len(rest.skip(end - start)) == 0);
    }
    chars_are(&lowered, "mermaid")
}

/// The placeholder that stands in for a Mermaid fence: the diagram source,
/// escaped, in a `pre` of class `mermaid`.
pub open spec fn mermaid_html(literal: Seq<char>) -> Seq<char> {
    "<pre class=\"mermaid\">"@ + html_escaped(literal) + "</pre>\n"@
}

/// Builds the placeholder for a Mermaid fence. The diagram source is escaped
/// and so never reaches the page as markup.
pub fn mermaid_placeholder(literal: &str) -> (out: String)
    ensures
        out@ == mermaid_html(literal@),
{
    let mut out = String::new();
    out.append("<pre class=\"mermaid\">");
    push_escaped(&mut out, literal);
    out.append("</pre>\n");
    proof {
        assert(out@ =~= mermaid_html(literal@));
    }
    out
}

// ---------------------------------------------------------------------------
// Link rewriting
// ---------------------------------------------------------------------------

/// Where the query string or fragment of a URL begins: at its first `?` or
/// `#`, or at its end.
pub open spec fn suffix_start(url: Seq<char>) -> int {
    match first_of(url, '?', '#', 0) {
        Some(i) => i,
        None => url.len() as int,
    }
}

fn find_suffix_start(url: &Vec<char>) -> (k: usize)
    ensures
        k == suffix_start(url@),
        k <= url.len(),
{
    let mut i: usize = 0;
    while i < url.len()
        invariant
            i <= url.len(),
            first_of(url@, '?', '#', 0) == first_of(url@, '?', '#', i as int),
        decreases url.len() - i,
    {
        if url[i] == '?' || url[i] == '#' {
            return i;
        }
        i += 1;
    }
    i
}

/// Splits a URL into its path and what trails it: the query string or
/// fragment, from the first `?` or `#` on.
pub fn split_url_suffix(url: &str) -> (r: (String, String))
    ensures
        r.0@ == url@.take(suffix_start(url@)),
        r.1@ == url@.skip(suffix_start(url@)),
{
    let cs = chars_of(url);
    let k = find_suffix_start(&cs);
    let mut base = String::new();
    push_chars(&mut base, &cs, 0, k);
    let mut suffix = String::new();
    push_chars(&mut suffix, &cs, k, cs.len());
    proof {
        assert(cs@.subrange(0, k as int) == cs@.take(k as int));
        assert(cs@.subrange(k as int, cs.len() as int) == cs@.skip(k as int));
    }
    (base, suffix)
}

/// The components reached from `start` by walking the pieces `segs`: an empty
/// piece and `.` change nothing, `..` drops the last component unless only
/// the root or nothing is left, any other piece is added.
pub open spec fn walked(start: Seq<Seq<char>>, segs: Seq<Seq<char>>) -> Seq<Seq<char>>
    decreases segs.len(),
{
    if segs.len() == 0 {
        start
    } else {
        let at = walked(start, segs.drop_last());
        let s = segs.last();
        if s.len() == 0 || s == cur_dir() {
            at
        } else if s == parent_dir() {
            if at.len() == 0 || at.last() == root_marker() {
                at
            } else {
                at.drop_last()
            }
        } else {
            at.push(s)
        }
    }
}

/// The components of `rel` resolved against the directory `file_dir`.
pub open spec fn resolved(file_dir: Seq<char>, rel: Seq<char>) -> Seq<Seq<char>> {
    walked(components(file_dir), split_on(rel, '/'))
}

fn resolve_components(file_dir: &str, rel: &Vec<char>) -> (out: Vec<Vec<char>>)
    ensures
        views_of(out@) == resolved(file_dir@, rel@),
{
    let mut out = path_components(file_dir);
    let segs = split_chars(rel, '/');
    let mut i: usize = 0;
    proof {
        assert(views_of(segs@).take(0) =~= Seq::<Seq<char>>::empty());
    }
    while i < segs.len()
        invariant
            i <= segs.len(),
            views_of(out@) == walked(components(file_dir@), views_of(segs@).take(i as int)),
        decreases segs.len() - i,
    {
        let ghost all = views_of(segs@);
        let ghost before = views_of(out@);
        proof {
            assert(all.take(i + 1).drop_last() == all.take(i as int));
            assert(all.take(i + 1).last() == segs@[i as int]@);
        }
        let seg = &segs[i];
        let is_dot = seg.len() == 1 && seg[0] == '.';
        let is_dotdot = seg.len() == 2 && seg[0] == '.' && seg[1] == '.';
        proof {
            if is_dot {
                assert(seg@ =~= cur_dir());
            }
            if is_dotdot {
                assert(seg@ =~= parent_dir());
            }
        }
        if seg.len() == 0 || is_dot {
        } else if is_dotdot {
            let n = out.len();
            if n > 0 {
                let last = &out[n - 1];
                let at_root = last.len() == 1 && last[0] == '/';
                proof {
                    assert(before.last() == out@[n - 1]@);
                    if at_root {
                        assert(last@ =~= root_marker());
                    }
                }
                if !at_root {
                    out.pop();
                    proof {
                        assert(views_of(out@) =~= before.drop_last());
                    }
                }
            }
        } else {
            out.push(seg.clone());
            proof {
                assert(views_of(out@) =~= before.push(seg@));
            }
        }
        i += 1;
    }
    proof {
        assert(views_of(segs@).take(segs.len() as int) == views_of(segs@));
    }
    out
}

/// Resolves a relative URL path against `file_dir` without touching the file
/// system: `.` is skipped, `..` steps up but never above the root.
pub fn resolve_relative_path(file_dir: &str, rel: &str) -> (out: String)
    ensures
        out@ == components_text(resolved(file_dir@, rel@)),
{
    let r = chars_of(rel);
    let cs = resolve_components(file_dir, &r);
    let out = components_to_text(&cs, 0);
    proof {
        assert(views_of(cs@).skip(0) == views_of(cs@));
    }
    out
}

/// The URLs that are never rewritten: absolute `http` and `https` URLs,
/// protocol-relative ones, `mailto:`, pure fragments and root-absolute paths.
pub open spec fn is_left_alone(url: Seq<char>) -> bool {
    has_prefix(url, "http://"@) || has_prefix(url, "https://"@) || has_prefix(url, "//"@)
        || has_prefix(url, "mailto:"@) || has_prefix(url, "#"@) || has_prefix(url, "/"@)
}

/// The root-relative form of a local link found in a file of directory
/// `file_dir`: `/`, the link's target relative to the root, and the link's
/// query string or fragment as it was. `None` where the link is left alone,
/// has no path, or points outside the root.
pub open spec fn rewritten_url(url: Seq<char>, file_dir: Seq<char>, serve_root: Seq<char>) -> Option<
    Seq<char>,
> {
    let k = suffix_start(url);
    let target = resolved(file_dir, url.take(k));
    let root = components(serve_root);
    if is_left_alone(url) || k == 0 {
        None
    } else if root.len() <= target.len() && target.take(root.len() as int) == root {
        Some(seq!['/'] + components_text(target.skip(root.len() as int)) + url.skip(k))
    } else {
        None
    }
}

/// Rewrites one link URL to a root-relative one. `None` means: leave the URL
/// as it is.
pub fn rewrite_url(url: &str, file_dir: &str, serve_root: &str) -> (r: Option<String>)
    ensures
        r is Some <==> rewritten_url(url@, file_dir@, serve_root@) is Some,
        r matches Some(u) ==> Some(u@) == rewritten_url(url@, file_dir@, serve_root@),
{
    let cs = chars_of(url);
    if starts_with(&cs, "http://") || starts_with(&cs, "https://") || starts_with(&cs, "//")
        || starts_with(&cs, "mailto:") || starts_with(&cs, "#") || starts_with(&cs, "/") {
        return None;
    }
    let k = find_suffix_start(&cs);
    if k == 0 {
        return None;
    }
    let mut base: Vec<char> = Vec::new();
    let mut i: usize = 0;
    while i < k
        invariant
            i <= k <= cs.len(),
            base@ == cs@.take(i as int),
        decreases k - i,
    {
        base.push(cs[i]);
        i += 1;
        assert(cs@.take(i as int) == cs@.take(i - 1).push(cs@[i - 1]));
    }
    let target = resolve_components(file_dir, &base);
    let root = path_components(serve_root);
    match strip_components(&target, &root) {
        None => None,
        Some(n) => {
            let rel = components_to_text(&target, n);
            let mut out = String::new();
            out.push('/');
            out.append(rel.as_str());
            push_chars(&mut out, &cs, k, cs.len());
            proof {
                assert(cs@.subrange(k as int, cs.len() as int) == cs@.skip(k as int));
                assert(out@ =~= seq!['/'] + components_text(
                    views_of(target@).skip(n as int),
                ) + cs@.skip(k as int));
            }
            Some(out)
        },
    }
}


// ---------------------------------------------------------------------------
// Slugs and anchors
// ---------------------------------------------------------------------------

/// What a character of a heading contributes to its slug.
pub enum SlugPiece {
    /// A letter or digit, kept as it is.
    Keep(char),
    /// A space, hyphen or underscore: a hyphen, unless one was just written.
    Hyphen,
    /// Anything else: nothing.
    Skip,
}

/// The contribution of one lower-cased character.
pub open spec fn slug_piece(c: char) -> SlugPiece {
    if is_alphanumeric_char(c) {
        SlugPiece::Keep(c)
    } else if c == ' ' || c == '-' || c == '_' {
        SlugPiece::Hyphen
    } else {
        SlugPiece::Skip
    }
}

/// The contributions of a text, character by character.
pub open spec fn slug_pieces(s: Seq<char>) -> Seq<SlugPiece> {
    Seq::new(s.len(), |i: int| slug_piece(s[i]))
}

/// The slug before its ends are trimmed: runs of hyphens are collapsed.
pub open spec fn slug_body(pieces: Seq<SlugPiece>) -> Seq<char>
    decreases pieces.len(),
{
    if pieces.len() == 0 {
        Seq::<char>::empty()
    } else {
        let before = slug_body(pieces.drop_last());
        match pieces.last() {
            SlugPiece::Keep(c) => before.push(c),
            SlugPiece::Hyphen => if before.len() > 0 && before.last() == '-' {
                before
            } else {
                before.push('-')
            },
            SlugPiece::Skip => before,
        }
    }
}

/// `s` without the hyphens at its end.
pub open spec fn without_trailing_hyphens(s: Seq<char>) -> Seq<char>
    decreases s.len(),
{
    if s.len() > 0 && s.last() == '-' {
        without_trailing_hyphens(s.drop_last())
    } else {
        s
    }
}

/// `s` without the hyphens at its start.
pub open spec fn without_leading_hyphens(s: Seq<char>) -> Seq<char>
    decreases s.len(),
{
    if s.len() > 0 && s[0] == '-' {
        without_leading_hyphens(s.skip(1))
    } else {
        s
    }
}

/// The slug that a sequence of contributions makes.
pub open spec fn slug_from(pieces: Seq<SlugPiece>) -> Seq<char> {
    without_leading_hyphens(without_trailing_hyphens(slug_body(pieces)))
}

/// The slug of a heading text: the lower-cased text mapped character by
/// character, hyphen runs collapsed, hyphens at both ends removed.
pub open spec fn slug_of(text: Seq<char>) -> Seq<char> {
    slug_from(slug_pieces(lowercase_of(text)))
}

/// Classifies one lower-cased character of a heading.
pub fn classify_slug_char(c: char) -> (p: SlugPiece)
    ensures
        p == slug_piece(c),
{
    if c.is_alphanumeric() {
        SlugPiece::Keep(c)
    } else if c == ' ' || c == '-' || c == '_' {
        SlugPiece::Hyphen
    } else {
        SlugPiece::Skip
    }
}

/// Builds the slug from classified characters.
pub fn slug_from_pieces(pieces: &Vec<SlugPiece>) -> (out: String)
    ensures
        out@ == slug_from(pieces@),
{
    let mut body: Vec<char> = Vec::new();
    let mut i: usize = 0;
    proof {
        assert(pieces@.take(0) =~= Seq::<SlugPiece>::empty());
    }
    while i < pieces.len()
        invariant
            i <= pieces.len(),
            body@ == slug_body(pieces@.take(i as int)),
        decreases pieces.len() - i,
    {
        proof {
            assert(pieces@.take(i + 1).drop_last() == pieces@.take(i as int));
            assert(pieces@.take(i + 1).last() == pieces@[i as int]);
        }
        match pieces[i] {
            SlugPiece::Keep(c) => {
                body.push(c);
            },
            SlugPiece::Hyphen => {
                if !(body.len() > 0 && body[body.len() - 1] == '-') {
                    body.push('-');
                }
            },
            SlugPiece::Skip => {},
        }
        i += 1;
    }
    proof {
        assert(pieces@.take(pieces.len() as int) == pieces@);
    }
    let mut end: usize = body.len();
    proof {
        assert(body@.take(end as int) == body@);
    }
    while end > 0 && body[end - 1] == '-'
        invariant
            end <= body.len(),
            without_trailing_hyphens(body@) == without_trailing_hyphens(body@.take(end as int)),
        decreases end,
    {
        proof {
            assert(body@.take(end as int).drop_last() == body@.take(end - 1));
        }
        end -= 1;
    }
    let mut start: usize = 0;
    proof {
        assert(body@.take(end as int).skip(0) == body@.take(end as int));
    }
    while start < end && body[start] == '-'
        invariant
            start <= end <= body.len(),
            without_trailing_hyphens(body@) == body@.take(end as int),
            slug_from(pieces@) == without_leading_hyphens(
                body@.take(end as int).skip(start as int),
            ),
        decreases end - start,
    {
        proof {
            assert(body@.take(end as int).skip(start as int).skip(1) == body@.take(
                end as int,
            ).skip(start + 1));
        }
        start += 1;
    }
    let mut out = String::new();
    push_chars(&mut out, &body, start, end);
    proof {
        assert(body@.take(end as int).skip(start as int) == body@.subrange(
            start as int,
            end as int,
        ));
    }
    out
}

/// Converts a heading text to its URL-safe slug.
pub fn slugify(text: &str) -> (out: String)
    ensures
        out@ == slug_of(text@),
{
    let lower = text.to_lowercase();
    let cs = chars_of(lower.as_str());
    let mut pieces: Vec<SlugPiece> = Vec::new();
    let mut i: usize = 0;
    while i < cs.len()
        invariant
            i <= cs.len(),
            pieces@ == slug_pieces(cs@.take(i as int)),
        decreases cs.len() - i,
    {
        pieces.push(classify_slug_char(cs[i]));
        proof {
            assert(pieces@ =~= slug_pieces(cs@.take(i + 1)));
        }
        i += 1;
    }
    proof {
        assert(cs@.take(cs.len() as int) == cs@);
    }
    slug_from_pieces(&pieces)
}

/// How many of `slugs` equal `s`.
pub open spec fn count_of(slugs: Seq<Seq<char>>, s: Seq<char>) -> nat
    decreases slugs.len(),
{
    if slugs.len() == 0 {
        0
    } else {
        count_of(slugs.drop_last(), s) + if slugs.last() == s {
            1nat
        } else {
            0nat
        }
    }
}

/// The anchor of a heading whose slug occurred `earlier` times before it in
/// the document: the bare slug the first time, then the slug with `-1`, `-2`, …
pub open spec fn anchor_for(base: Seq<char>, earlier: nat) -> Seq<char> {
    if earlier == 0 {
        base
    } else {
        base + seq!['-'] + decimal(earlier)
    }
}

/// The anchor of the heading at `i`, given the slugs of all headings in
/// document order. Headings of every level share one count per slug.
pub open spec fn anchor_at(bases: Seq<Seq<char>>, i: int) -> Seq<char> {
    anchor_for(bases[i], count_of(bases.take(i), bases[i]))
}

/// The views of a list of strings.
pub open spec fn slugs_of(v: Seq<String>) -> Seq<Seq<char>> {
    Seq::new(v.len(), |i: int| v[i]@)
}

/// Assigns each heading its anchor, given the headings' slugs in document
/// order: the first heading with a slug gets the slug itself, the next ones
/// the slug with a running number.
pub fn anchor_ids(bases: &Vec<String>) -> (out: Vec<String>)
    ensures
        out.len() == bases.len(),
        forall|i: int| 0 <= i < bases.len() ==> (#[trigger] out@[i])@ == anchor_at(slugs_of(bases@), i),
{
    let mut out: Vec<String> = Vec::new();
    let mut i: usize = 0;
    while i < bases.len()
        invariant
            i <= bases.len(),
            out.len() == i,
            forall|k: int| 0 <= k < i ==> (#[trigger] out@[k])@ == anchor_at(slugs_of(bases@), k),
        decreases bases.len() - i,
    {
        let ghost all = slugs_of(bases@);
        let me = chars_of(bases[i].as_str());
        let mut n: u64 = 0;
        let mut j: usize = 0;
        proof {
            assert(all.take(i as int).take(0) =~= Seq::<Seq<char>>::empty());
        }
        while j < i
            invariant
                j <= i < bases.len(),
                all == slugs_of(bases@),
                me@ == all[i as int],
                n == count_of(all.take(i as int).take(j as int), all[i as int]),
                n <= j,
            decreases i - j,
        {
            let other = chars_of(bases[j].as_str());
            proof {
                let head = all.take(i as int);
                assert(head.take(j + 1).drop_last() == head.take(j as int));
                assert(head.take(j + 1).last() == bases@[j as int]@);
            }
            if chars_eq(&other, &me) {
                n += 1;
            }
            j += 1;
        }
        proof {
            assert(all.take(i as int).take(i as int) == all.take(i as int));
        }
        let mut id = String::new();
        id.append(bases[i].as_str());
        if n > 0 {
            id.push('-');
            push_decimal(&mut id, n);
        }
        proof {
            assert(id@ =~= anchor_at(all, i as int));
        }
        out.push(id);
        i += 1;
    }
    out
}

/// The headings of a document with their anchors, from each heading's level
/// and flattened text in document order.
pub fn heading_entries(found: Vec<(u8, String)>) -> (out: Vec<HeadingEntry>)
    ensures
        out.len() == found.len(),
        forall|i: int|
            0 <= i < found.len() ==> {
                &&& (#[trigger] out@[i]).level == found@[i].0
                &&& out@[i].text@ == found@[i].1@
                &&& out@[i].anchor_id@ == anchor_at(heading_slugs(found@), i)
            },
        anchors_assigned(out@),
{
    let mut bases: Vec<String> = Vec::new();
    let mut i: usize = 0;
    while i < found.len()
        invariant
            i <= found.len(),
            bases.len() == i,
            forall|k: int| 0 <= k < i ==> (#[trigger] bases@[k])@ == slug_of(found@[k].1@),
        decreases found.len() - i,
    {
        bases.push(slugify(found[i].1.as_str()));
        i += 1;
    }
    proof {
        assert(slugs_of(bases@) =~= heading_slugs(found@));
    }
    let ids = anchor_ids(&bases);
    let mut out: Vec<HeadingEntry> = Vec::new();
    let mut k: usize = 0;
    while k < found.len()
        invariant
            k <= found.len(),
            out.len() == k,
            ids.len() == found.len(),
            forall|i: int|
                0 <= i < found.len() ==> (#[trigger] ids@[i])@ == anchor_at(
                    heading_slugs(found@),
                    i,
                ),
            forall|i: int|
                0 <= i < k ==> {
                    &&& (#[trigger] out@[i]).level == found@[i].0
                    &&& out@[i].text@ == found@[i].1@
                    &&& out@[i].anchor_id@ == anchor_at(heading_slugs(found@), i)
                },
        decreases found.len() - k,
    {
        out.push(
            HeadingEntry {
                level: found[k].0,
                text: found[k].1.clone(),
                anchor_id: ids[k].clone(),
            },
        );
        k += 1;
    }
    proof {
        assert(entry_slugs(out@) =~= heading_slugs(found@));
    }
    out
}

/// The slugs of the texts of heading entries.
pub open spec fn entry_slugs(hs: Seq<HeadingEntry>) -> Seq<Seq<char>> {
    Seq::new(hs.len(), |i: int| slug_of(hs[i].text@))
}

/// Every heading carries the anchor that its text and the texts of the
/// headings before it give.
pub open spec fn anchors_assigned(hs: Seq<HeadingEntry>) -> bool {
    forall|i: int| 0 <= i < hs.len() ==> (#[trigger] hs[i]).anchor_id@ == anchor_at(entry_slugs(hs), i)
}

/// The slugs of the headings found in a document.
pub open spec fn heading_slugs(found: Seq<(u8, String)>) -> Seq<Seq<char>> {
    Seq::new(found.len(), |i: int| slug_of(found[i].1@))
}


// ---------------------------------------------------------------------------
// Backlinks panel
// ---------------------------------------------------------------------------

/// Opens the backlinks section, up to the count.
pub const BACKLINKS_OPEN: &'static str =
    "<section class=\"backlinks-panel\" aria-label=\"Backlinks\">\n<h2 class=\"backlinks-header\">Backlinks (";

/// Follows the count and opens the list.
pub const BACKLINKS_LIST_OPEN: &'static str = ")</h2>\n<ul class=\"backlinks-list\">\n";

/// Closes the list and the section.
pub const BACKLINKS_CLOSE: &'static str = "</ul>\n</section>\n";

/// The link target of a backlink: the source's URL path and, where the link
/// had one, `#` and its fragment, both escaped.
pub open spec fn backlink_href(b: BacklinkRef) -> Seq<char> {
    match b.target_fragment {
        Some(f) => html_escaped(b.source_url_path@) + "#"@ + html_escaped(f@),
        None => html_escaped(b.source_url_path@),
    }
}

/// The hint that names the fragment a backlink points at.
pub open spec fn backlink_fragment_hint(b: BacklinkRef) -> Seq<char> {
    match b.target_fragment {
        Some(f) => "<span class=\"backlinks-fragment\"> \u{00a7} "@ + html_escaped(f@)
            + "</span>"@,
        None => Seq::<char>::empty(),
    }
}

/// The list item of one backlink. The snippet is escaped once, as it is stored.
pub open spec fn backlink_item(b: BacklinkRef) -> Seq<char> {
    "<li class=\"backlinks-item\">\n<a class=\"backlinks-source\" href=\""@ + backlink_href(b)
        + "\">"@ + html_escaped(b.source_display@) + "</a>"@ + backlink_fragment_hint(b)
        + "\n<p class=\"backlinks-snippet\">"@ + html_escaped(b.snippet@) + "</p>\n</li>\n"@
}

/// The list items of the backlinks, in order.
pub open spec fn backlink_items(bs: Seq<BacklinkRef>) -> Seq<char>
    decreases bs.len(),
{
    if bs.len() == 0 {
        Seq::<char>::empty()
    } else {
        backlink_items(bs.drop_last()) + backlink_item(bs.last())
    }
}

/// The backlinks section: nothing at all without backlinks, else a headed
/// list with their number.
pub open spec fn backlinks_html(bs: Seq<BacklinkRef>) -> Seq<char> {
    if bs.len() == 0 {
        Seq::<char>::empty()
    } else {
        BACKLINKS_OPEN@ + decimal(bs.len()) + BACKLINKS_LIST_OPEN@ + backlink_items(bs)
            + BACKLINKS_CLOSE@
    }
}

fn push_backlink_href(out: &mut String, b: &BacklinkRef)
    ensures
        final(out)@ == old(out)@ + backlink_href(*b),
{
    push_escaped(out, b.source_url_path.as_str());
    match &b.target_fragment {
        Some(f) => {
            out.append("#");
            push_escaped(out, f.as_str());
            proof {
                assert(out@ =~= old(out)@ + backlink_href(*b));
            }
        },
        None => {},
    }
}

fn push_backlink_hint(out: &mut String, b: &BacklinkRef)
    ensures
        final(out)@ == old(out)@ + backlink_fragment_hint(*b),
{
    match &b.target_fragment {
        Some(f) => {
            out.append("<span class=\"backlinks-fragment\"> \u{00a7} ");
            push_escaped(out, f.as_str());
            out.append("</span>");
            proof {
                assert(out@ =~= old(out)@ + backlink_fragment_hint(*b));
            }
        },
        None => {
            proof {
                assert(out@ =~= old(out)@ + backlink_fragment_hint(*b));
            }
        },
    }
}

fn push_backlink_item(out: &mut String, b: &BacklinkRef)
    ensures
        final(out)@ == old(out)@ + backlink_item(*b),
{
    out.append("<li class=\"backlinks-item\">\n<a class=\"backlinks-source\" href=\"");
    push_backlink_href(out, b);
    out.append("\">");
    push_escaped(out, b.source_display.as_str());
    out.append("</a>");
    push_backlink_hint(out, b);
    out.append("\n<p class=\"backlinks-snippet\">");
    push_escaped(out, b.snippet.as_str());
    out.append("</p>\n</li>\n");
    proof {
        assert(out@ =~= old(out)@ + backlink_item(*b));
    }
}

/// Builds the backlinks section of a page.
pub fn build_backlinks_html(backlinks: &[BacklinkRef]) -> (out: String)
    ensures
        out@ == backlinks_html(backlinks@),
{
    let mut out = String::new();
    if backlinks.len() == 0 {
        return out;
    }
    out.append(BACKLINKS_OPEN);
    push_decimal(&mut out, backlinks.len() as u64);
    out.append(BACKLINKS_LIST_OPEN);
    let ghost lead = out@;
    let mut i: usize = 0;
    proof {
        assert(backlinks@.take(0) =~= Seq::<BacklinkRef>::empty());
        assert(lead =~= BACKLINKS_OPEN@ + decimal(backlinks@.len()) + BACKLINKS_LIST_OPEN@);
        assert(out@ =~= lead + backlink_items(backlinks@.take(0)));
    }
    while i < backlinks.len()
        invariant
            i <= backlinks.len(),
            out@ == lead + backlink_items(backlinks@.take(i as int)),
        decreases backlinks.len() - i,
    {
        proof {
            assert(backlinks@.take(i + 1).drop_last() == backlinks@.take(i as int));
            assert(backlinks@.take(i + 1).last() == backlinks@[i as int]);
        }
        push_backlink_item(&mut out, &backlinks[i]);
        proof {
            assert(out@ =~= lead + (backlink_items(backlinks@.take(i as int)) + backlink_item(
                backlinks@[i as int],
            )));
        }
        i += 1;
    }
    out.append(BACKLINKS_CLOSE);
    proof {
        assert(backlinks@.take(backlinks.len() as int) == backlinks@);
        assert(out@ =~= backlinks_html(backlinks@));
    }
    out
}

// ---------------------------------------------------------------------------
// Page shell
// ---------------------------------------------------------------------------

/// What a page is assembled with besides its content.
pub struct PageShellContext<'a> {
    /// The documents that link to this page; empty where there are none.
    pub backlinks: &'a [BacklinkRef],
    /// The file's modification time in whole seconds since the Unix epoch.
    pub file_mtime_secs: Option<u64>,
    /// The page's root-relative URL path, for the freshness poller.
    pub page_url_path: Option<&'a str>,
}

/// The pinned URL of the Mermaid script.
pub const MERMAID_CDN_URL: &'static str = "https://cdn.jsdelivr.net/npm/mermaid@10.9.3/dist/mermaid.min.js";

/// The script that applies the stored theme before the first paint.
pub const THEME_INIT_SCRIPT: &'static str =
    "<script>(function(){var s=localStorage.getItem('mdmd-theme');var dark=s==='dark'||(!s&&window.matchMedia('(prefers-color-scheme:dark)').matches);if(dark)document.documentElement.setAttribute('data-theme','dark');}());</script>";

/// The moon icon of the theme toggle.
pub const ICON_MOON: &'static str =
    "<svg class=\"icon-moon\" xmlns=\"http://www.w3.org/2000/svg\" width=\"16\" height=\"16\" viewBox=\"0 0 24 24\" fill=\"none\" stroke=\"currentColor\" stroke-width=\"2\" stroke-linecap=\"round\" stroke-linejoin=\"round\" aria-hidden=\"true\"><path d=\"M21 12.79A9 9 0 1 1 11.21 3 7 7 0 0 0 21 12.79z\"/></svg>";

/// The sun icon of the theme toggle.
pub const ICON_SUN: &'static str =
    "<svg class=\"icon-sun\" xmlns=\"http://www.w3.org/2000/svg\" width=\"16\" height=\"16\" viewBox=\"0 0 24 24\" fill=\"none\" stroke=\"currentColor\" stroke-width=\"2\" stroke-linecap=\"round\" stroke-linejoin=\"round\" aria-hidden=\"true\"><circle cx=\"12\" cy=\"12\" r=\"5\"/><line x1=\"12\" y1=\"1\" x2=\"12\" y2=\"3\"/><line x1=\"12\" y1=\"21\" x2=\"12\" y2=\"23\"/><line x1=\"4.22\" y1=\"4.22\" x2=\"5.64\" y2=\"5.64\"/><line x1=\"18.36\" y1=\"18.36\" x2=\"19.78\" y2=\"19.78\"/><line x1=\"1\" y1=\"12\" x2=\"3\" y2=\"12\"/><line x1=\"21\" y1=\"12\" x2=\"23\" y2=\"12\"/><line x1=\"4.22\" y1=\"19.78\" x2=\"5.64\" y2=\"18.36\"/><line x1=\"18.36\" y1=\"5.64\" x2=\"19.78\" y2=\"4.22\"/></svg>";

/// The document up to the title text.
pub const SHELL_OPEN: &'static str =
    "<!DOCTYPE html>\n<html lang=\"en\">\n<head>\n<meta charset=\"utf-8\">\n<meta name=\"viewport\" content=\"width=device-width, initial-scale=1\">\n<title>";

/// What follows the title text.
pub const SHELL_TITLE_CLOSE: &'static str = " \u{b7} mdmd serve</title>\n";

/// From the stylesheet link to the theme toggle's icons.
pub const SHELL_BODY_OPEN: &'static str =
    "\n<link rel=\"stylesheet\" href=\"/assets/mdmd.css\">\n</head>\n<body>\n<button id=\"theme-toggle\" class=\"theme-toggle\" aria-label=\"Toggle dark mode\">";

/// From the end of the theme toggle to the start of the table of contents:
/// the hidden notice that the file changed, and the layout.
pub const SHELL_LAYOUT_OPEN: &'static str =
    "</button>\n<div id=\"mdmd-change-notice\" class=\"change-notice\" hidden>\nThis file has changed on disk.\n<button class=\"change-notice-reload\" onclick=\"location.reload()\">Load latest</button>\n</div>\n<div class=\"layout\">\n<nav class=\"toc-sidebar\">\n";

/// Between the table of contents and the content.
pub const SHELL_MAIN_OPEN: &'static str = "</nav>\n<main class=\"content\">\n";

/// From the end of the content to the Mermaid script's URL.
pub const SHELL_MAIN_CLOSE: &'static str = "</main>\n</div>\n<script src=\"";

/// The end of the document.
pub const SHELL_CLOSE: &'static str =
    "\"></script>\n<script src=\"/assets/mdmd.js\"></script>\n</body>\n</html>\n";

/// The text of the first heading of level 1, if there is one.
pub open spec fn first_h1(hs: Seq<HeadingEntry>) -> Option<Seq<char>>
    decreases hs.len(),
{
    if hs.len() == 0 {
        None
    } else if hs[0].level == 1 {
        Some(hs[0].text@)
    } else {
        first_h1(hs.skip(1))
    }
}

/// The page title before escaping: the first level-1 heading, else the
/// file's stem, else `Document`.
pub open spec fn page_title(hs: Seq<HeadingEntry>, file_path: Seq<char>) -> Seq<char> {
    match first_h1(hs) {
        Some(t) => t,
        None => match file_stem_text(file_path) {
            Some(stem) => stem,
            None => "Document"@,
        },
    }
}

/// The meta tag that carries the file's modification time.
pub open spec fn mtime_meta(mtime: Option<u64>) -> Seq<char> {
    match mtime {
        Some(secs) => "<meta name=\"mdmd-mtime\" content=\""@ + decimal(secs as nat) + "\">\n"@,
        None => Seq::<char>::empty(),
    }
}

/// The meta tag that carries the page's URL path.
pub open spec fn path_meta(path: Option<&str>) -> Seq<char> {
    match path {
        Some(p) => "<meta name=\"mdmd-path\" content=\""@ + html_escaped(p@) + "\">\n"@,
        None => Seq::<char>::empty(),
    }
}

/// The complete HTML document for a rendered fragment.
pub open spec fn page_shell(
    body_html: Seq<char>,
    hs: Seq<HeadingEntry>,
    file_path: Seq<char>,
    ctx: PageShellContext,
) -> Seq<char> {
    SHELL_OPEN@ + html_escaped(page_title(hs, file_path)) + SHELL_TITLE_CLOSE@ + mtime_meta(
        ctx.file_mtime_secs,
    ) + path_meta(ctx.page_url_path) + THEME_INIT_SCRIPT@ + SHELL_BODY_OPEN@ + ICON_MOON@
        + ICON_SUN@ + SHELL_LAYOUT_OPEN@ + toc_html(hs) + SHELL_MAIN_OPEN@ + with_heading_ids(
        body_html,
        hs,
    ) + backlinks_html(ctx.backlinks@) + SHELL_MAIN_CLOSE@ + MERMAID_CDN_URL@ + SHELL_CLOSE@
}

fn find_first_h1(headings: &[HeadingEntry]) -> (r: Option<usize>)
    ensures
        r is Some <==> first_h1(headings@) is Some,
        r matches Some(i) ==> i < headings.len() && first_h1(headings@) == Some(
            headings@[i as int].text@,
        ),
{
    let mut i: usize = 0;
    proof {
        assert(headings@.skip(0) == headings@);
    }
    while i < headings.len()
        invariant
            i <= headings.len(),
            first_h1(headings@) == first_h1(headings@.skip(i as int)),
        decreases headings.len() - i,
    {
        proof {
            assert(headings@.skip(i as int)[0] == headings@[i as int]);
            assert(headings@.skip(i as int).skip(1) == headings@.skip(i + 1));
        }
        if headings[i].level == 1 {
            return Some(i);
        }
        i += 1;
    }
    None
}

/// Builds the complete page around a rendered fragment: head with title and
/// freshness meta tags, theme toggle, change notice, table of contents, the
/// content with heading ids, the backlinks section, and the scripts.
/// `serve_root` is accepted for symmetry with the renderer and is not read.
pub fn build_page_shell(
    body_html: &str,
    headings: &[HeadingEntry],
    file_path: &str,
    serve_root: &str,
    ctx: &PageShellContext,
) -> (out: String)
    ensures
        out@ == page_shell(body_html@, headings@, file_path@, *ctx),
{
    let mut out = String::new();
    out.append(SHELL_OPEN);
    match find_first_h1(headings) {
        Some(i) => {
            push_escaped(&mut out, headings[i].text.as_str());
        },
        None => match file_stem_of(file_path) {
            Some(stem) => {
                push_escaped(&mut out, stem.as_str());
            },
            None => {
                push_escaped(&mut out, "Document");
            },
        },
    }
    proof {
        assert(out@ =~= SHELL_OPEN@ + html_escaped(page_title(headings@, file_path@)));
    }
    out.append(SHELL_TITLE_CLOSE);
    let ghost g1 = out@;
    match ctx.file_mtime_secs {
        Some(secs) => {
            out.append("<meta name=\"mdmd-mtime\" content=\"");
            push_decimal(&mut out, secs);
            out.append("\">\n");
        },
        None => {},
    }
    proof {
        assert(out@ =~= g1 + mtime_meta(ctx.file_mtime_secs));
    }
    let ghost g2 = out@;
    match ctx.page_url_path {
        Some(p) => {
            out.append("<meta name=\"mdmd-path\" content=\"");
            push_escaped(&mut out, p);
            out.append("\">\n");
        },
        None => {},
    }
    proof {
        assert(out@ =~= g2 + path_meta(ctx.page_url_path));
    }
    out.append(THEME_INIT_SCRIPT);
    out.append(SHELL_BODY_OPEN);
    out.append(ICON_MOON);
    out.append(ICON_SUN);
    out.append(SHELL_LAYOUT_OPEN);
    let toc = build_toc_html(headings);
    out.append(toc.as_str());
    out.append(SHELL_MAIN_OPEN);
    let content = inject_heading_ids(body_html, headings);
    out.append(content.as_str());
    let panel = build_backlinks_html(ctx.backlinks);
    out.append(panel.as_str());
    out.append(SHELL_MAIN_CLOSE);
    out.append(MERMAID_CDN_URL);
    out.append(SHELL_CLOSE);
    proof {
        assert(out@ =~= page_shell(body_html@, headings@, file_path@, *ctx));
    }
    out
}


// ---------------------------------------------------------------------------
// Rendering
// ---------------------------------------------------------------------------

/// What takes the place of a code block: the Mermaid placeholder for a
/// fenced block whose info string names Mermaid, nothing for any other.
pub fn fence_replacement(fenced: bool, info: &str, literal: &str) -> (r: Option<String>)
    ensures
        r is Some <==> fenced && names_mermaid(info@),
        r matches Some(h) ==> h@ == mermaid_html(literal@),
{
    if fenced && is_mermaid_info(info) {
        Some(mermaid_placeholder(literal))
    } else {
        None
    }
}

/// The text that inline nodes spell: text and code spans as they are, a
/// space for each line break.
pub open spec fn flattened(pieces: Seq<InlineText>) -> Seq<char>
    decreases pieces.len(),
{
    if pieces.len() == 0 {
        Seq::<char>::empty()
    } else {
        let before = flattened(pieces.drop_last());
        match pieces.last() {
            InlineText::Text(s) => before + s@,
            InlineText::Code(s) => before + s@,
            InlineText::Break => before.push(' '),
            InlineText::Other => before,
        }
    }
}

/// Flattens the inline nodes of a heading into its plain text.
pub fn flatten_inline(pieces: &Vec<InlineText>) -> (out: String)
    ensures
        out@ == flattened(pieces@),
{
    let mut out = String::new();
    let mut i: usize = 0;
    proof {
        assert(pieces@.take(0) =~= Seq::<InlineText>::empty());
    }
    while i < pieces.len()
        invariant
            i <= pieces.len(),
            out@ == flattened(pieces@.take(i as int)),
        decreases pieces.len() - i,
    {
        proof {
            assert(pieces@.take(i + 1).drop_last() == pieces@.take(i as int));
            assert(pieces@.take(i + 1).last() == pieces@[i as int]);
        }
        match &pieces[i] {
            InlineText::Text(s) => {
                out.append(s.as_str());
            },
            InlineText::Code(s) => {
                out.append(s.as_str());
            },
            InlineText::Break => {
                out.push(' ');
            },
            InlineText::Other => {},
        }
        i += 1;
    }
    proof {
        assert(pieces@.take(pieces.len() as int) == pieces@);
    }
    out
}

/// The level and the plain text of each heading among `nodes`, in document
/// order.
pub open spec fn heading_texts(nodes: Seq<DocNode>) -> Seq<(u8, Seq<char>)>
    decreases nodes.len(),
{
    if nodes.len() == 0 {
        Seq::<(u8, Seq<char>)>::empty()
    } else {
        let before = heading_texts(nodes.drop_last());
        match nodes.last() {
            DocNode::Heading { level, pieces } => before.push((level, flattened(pieces@))),
            _ => before,
        }
    }
}

/// Levels and texts as plain values.
pub open spec fn found_texts(found: Seq<(u8, String)>) -> Seq<(u8, Seq<char>)> {
    Seq::new(found.len(), |i: int| (found[i].0, found[i].1@))
}

/// Picks the headings out of the nodes of a document, each with its level
/// and its plain text.
pub fn headings_found(nodes: &Vec<DocNode>) -> (found: Vec<(u8, String)>)
    ensures
        found_texts(found@) == heading_texts(nodes@),
{
    let mut found: Vec<(u8, String)> = Vec::new();
    let mut i: usize = 0;
    proof {
        assert(nodes@.take(0) =~= Seq::<DocNode>::empty());
        assert(found_texts(found@) =~= heading_texts(nodes@.take(0)));
    }
    while i < nodes.len()
        invariant
            i <= nodes.len(),
            found_texts(found@) == heading_texts(nodes@.take(i as int)),
        decreases nodes.len() - i,
    {
        proof {
            assert(nodes@.take(i + 1).drop_last() == nodes@.take(i as int));
            assert(nodes@.take(i + 1).last() == nodes@[i as int]);
        }
        let ghost before = found@;
        match &nodes[i] {
            DocNode::Heading { level, pieces } => {
                found.push((*level, flatten_inline(pieces)));
                proof {
                    assert(found_texts(found@) =~= found_texts(before).push(
                        (*level, flattened(pieces@)),
                    ));
                }
            },
            _ => {},
        }
        i += 1;
    }
    proof {
        assert(nodes@.take(nodes.len() as int) == nodes@);
    }
    found
}

/// What happens to a node: a Mermaid fence becomes its placeholder, a link
/// or an image whose URL is local and stays inside `serve_root` gets the
/// root-relative URL, and every other node stays as it is.
pub open spec fn edit_of(node: DocNode, file_dir: Seq<char>, serve_root: Seq<char>) -> EditText {
    match node {
        DocNode::CodeBlock { fenced, info, literal } => if fenced && names_mermaid(info@) {
            EditText::Raw(mermaid_html(literal@))
        } else {
            EditText::Keep
        },
        DocNode::Link { url } => match rewritten_url(url@, file_dir, serve_root) {
            Some(u) => EditText::Url(u),
            None => EditText::Keep,
        },
        _ => EditText::Keep,
    }
}

/// Decides what happens to a node.
pub fn node_edit(node: &DocNode, file_dir: &str, serve_root: &str) -> (r: NodeEdit)
    ensures
        edit_view(r) == edit_of(*node, file_dir@, serve_root@),
{
    match node {
        DocNode::CodeBlock { fenced, info, literal } => {
            match fence_replacement(*fenced, info.as_str(), literal.as_str()) {
                Some(html) => NodeEdit::Raw(html),
                None => NodeEdit::Keep,
            }
        },
        DocNode::Link { url } => {
            match rewrite_url(url.as_str(), file_dir, serve_root) {
                Some(new_url) => NodeEdit::Url(new_url),
                None => NodeEdit::Keep,
            }
        },
        _ => NodeEdit::Keep,
    }
}

/// What happens to each of the nodes of a document, in order.
pub open spec fn edits_of(nodes: Seq<DocNode>, file_dir: Seq<char>, serve_root: Seq<char>) -> Seq<
    EditText,
> {
    Seq::new(nodes.len(), |i: int| edit_of(nodes[i], file_dir, serve_root))
}

/// Decides what happens to each of the nodes of a document.
pub fn plan_edits(nodes: &Vec<DocNode>, file_dir: &str, serve_root: &str) -> (edits: Vec<NodeEdit>)
    ensures
        edits.len() == nodes.len(),
        edit_views(edits@) == edits_of(nodes@, file_dir@, serve_root@),
{
    let mut edits: Vec<NodeEdit> = Vec::new();
    let mut i: usize = 0;
    while i < nodes.len()
        invariant
            i <= nodes.len(),
            edits.len() == i,
            forall|k: int|
                0 <= k < i ==> edit_view(#[trigger] edits@[k]) == edit_of(
                    nodes@[k],
                    file_dir@,
                    serve_root@,
                ),
        decreases nodes.len() - i,
    {
        edits.push(node_edit(&nodes[i], file_dir, serve_root));
        i += 1;
    }
    proof {
        assert(edit_views(edits@) =~= edits_of(nodes@, file_dir@, serve_root@));
    }
    edits
}

/// The slugs of heading texts.
pub open spec fn text_slugs(found: Seq<(u8, Seq<char>)>) -> Seq<Seq<char>> {
    Seq::new(found.len(), |i: int| slug_of(found[i].1))
}

/// `hs` lists the headings `found`, each with its level, its text and the
/// anchor that its place among them gives.
pub open spec fn lists_headings(hs: Seq<HeadingEntry>, found: Seq<(u8, Seq<char>)>) -> bool {
    &&& hs.len() == found.len()
    &&& forall|i: int|
        0 <= i < hs.len() ==> {
            &&& (#[trigger] hs[i]).level == found[i].0
            &&& hs[i].text@ == found[i].1
            &&& hs[i].anchor_id@ == anchor_at(text_slugs(found), i)
        }
}

/// The directory of a file, or nothing for a path without a parent.
pub open spec fn directory_of(file_path: Seq<char>) -> Seq<char> {
    match parent_text(file_path) {
        Some(d) => d,
        None => Seq::empty(),
    }
}

/// The HTML fragment for a markdown source: what the engine writes, with
/// tables, strikethrough, autolinks and task lists on, after every node of
/// the document got its edit.
pub open spec fn rendered_fragment(input: Seq<char>, file_path: Seq<char>, serve_root: Seq<char>) -> Seq<
    char,
> {
    edited_html(
        input,
        true,
        true,
        true,
        true,
        edits_of(document_nodes(input, true, true, true, true), directory_of(file_path), serve_root),
    )
}

/// The level and the plain text of each heading of a markdown source, in
/// document order.
pub open spec fn rendered_headings(input: Seq<char>) -> Seq<(u8, Seq<char>)> {
    heading_texts(document_nodes(input, true, true, true, true))
}

/// Renders markdown to an HTML fragment and lists its headings. Tables,
/// strikethrough, task lists and autolinks are on; raw HTML of the source
/// does not reach the output. Mermaid fences become placeholders, local links
/// and images are rewritten relative to `serve_root`, and every heading gets
/// the anchor that its text and the headings before it give.
pub fn render_markdown(input: &str, file_path: &str, serve_root: &str) -> (r: (
    String,
    Vec<HeadingEntry>,
))
    ensures
        r.0@ == rendered_fragment(input@, file_path@, serve_root@),
        lists_headings(r.1@, rendered_headings(input@)),
        anchors_assigned(r.1@),
{
    let nodes = read_document(input, true, true, true, true);
    let file_dir = match parent_of(file_path) {
        Some(d) => d,
        None => String::new(),
    };
    let edits = plan_edits(&nodes, file_dir.as_str(), serve_root);
    proof {
        assert forall|i: int| 0 <= i < edits@.len() && edits@[i] is Raw implies i < nodes@.len()
            && nodes@[i] is CodeBlock by {
            assert(edit_views(edits@)[i] == edit_view(edits@[i]));
            assert(edits_of(nodes@, file_dir@, serve_root@)[i] == edit_of(
                nodes@[i],
                file_dir@,
                serve_root@,
            ));
        }
    }
    let html = format_edited(input, true, true, true, true, &edits);
    let found = headings_found(&nodes);
    let ghost texts = found_texts(found@);
    let headings = heading_entries(found);
    proof {
        assert(text_slugs(texts) =~= heading_slugs(found@));
        assert(lists_headings(headings@, texts));
    }
    (html, headings)
}


// ---------------------------------------------------------------------------
// What holds of every page
// ---------------------------------------------------------------------------

/// Whether two lists of headings agree in levels, texts and anchors.
pub open spec fn same_headings(a: Seq<HeadingEntry>, b: Seq<HeadingEntry>) -> bool {
    &&& a.len() == b.len()
    &&& forall|i: int|
        0 <= i < a.len() ==> (#[trigger] a[i]).level == b[i].level && a[i].text@ == b[i].text@
            && a[i].anchor_id@ == b[i].anchor_id@
}

/// Headings that list the same levels and texts agree in their anchors too.
pub proof fn lemma_listed_headings_agree(
    a: Seq<HeadingEntry>,
    b: Seq<HeadingEntry>,
    found: Seq<(u8, Seq<char>)>,
)
    requires
        lists_headings(a, found),
        lists_headings(b, found),
    ensures
        same_headings(a, b),
{
}

proof fn lemma_toc_items_by_text(a: Seq<HeadingEntry>, b: Seq<HeadingEntry>)
    requires
        same_headings(a, b),
    ensures
        toc_items(a) == toc_items(b),
    decreases a.len(),
{
    if a.len() > 0 {
        assert(same_headings(a.drop_last(), b.drop_last())) by {
            assert forall|i: int| 0 <= i < a.drop_last().len() implies (#[trigger] a.drop_last()[i]).level
                == b.drop_last()[i].level && a.drop_last()[i].text@ == b.drop_last()[i].text@
                && a.drop_last()[i].anchor_id@ == b.drop_last()[i].anchor_id@ by {
                assert(a.drop_last()[i] == a[i]);
                assert(b.drop_last()[i] == b[i]);
            }
        }
        lemma_toc_items_by_text(a.drop_last(), b.drop_last());
        assert(a.last() == a[a.len() - 1]);
        assert(b.last() == b[a.len() - 1]);
    }
}

proof fn lemma_heading_ids_by_text(html: Seq<char>, a: Seq<HeadingEntry>, b: Seq<HeadingEntry>)
    requires
        same_headings(a, b),
    ensures
        with_heading_ids(html, a) == with_heading_ids(html, b),
    decreases a.len(),
{
    if a.len() > 0 {
        assert(same_headings(a.drop_last(), b.drop_last())) by {
            assert forall|i: int| 0 <= i < a.drop_last().len() implies (#[trigger] a.drop_last()[i]).level
                == b.drop_last()[i].level && a.drop_last()[i].text@ == b.drop_last()[i].text@
                && a.drop_last()[i].anchor_id@ == b.drop_last()[i].anchor_id@ by {
                assert(a.drop_last()[i] == a[i]);
                assert(b.drop_last()[i] == b[i]);
            }
        }
        lemma_heading_ids_by_text(html, a.drop_last(), b.drop_last());
        assert(a.last() == a[a.len() - 1]);
        assert(b.last() == b[a.len() - 1]);
    }
}

proof fn lemma_first_h1_by_text(a: Seq<HeadingEntry>, b: Seq<HeadingEntry>)
    requires
        same_headings(a, b),
    ensures
        first_h1(a) == first_h1(b),
    decreases a.len(),
{
    if a.len() > 0 {
        assert(a[0].level == b[0].level && a[0].text@ == b[0].text@);
        if a[0].level != 1 {
            assert(same_headings(a.skip(1), b.skip(1))) by {
                assert forall|i: int| 0 <= i < a.skip(1).len() implies (#[trigger] a.skip(1)[i]).level
                    == b.skip(1)[i].level && a.skip(1)[i].text@ == b.skip(1)[i].text@ && a.skip(
                    1,
                )[i].anchor_id@ == b.skip(1)[i].anchor_id@ by {
                    assert(a.skip(1)[i] == a[i + 1]);
                    assert(b.skip(1)[i] == b[i + 1]);
                }
            }
            lemma_first_h1_by_text(a.skip(1), b.skip(1));
        }
    }
}

/// What a page shows of its headings depends on their levels, texts and
/// anchors alone: the title, the table of contents and where the ids go.
pub proof fn lemma_headings_by_text(
    html: Seq<char>,
    file_path: Seq<char>,
    a: Seq<HeadingEntry>,
    b: Seq<HeadingEntry>,
)
    requires
        same_headings(a, b),
    ensures
        toc_html(a) == toc_html(b),
        with_heading_ids(html, a) == with_heading_ids(html, b),
        page_title(a, file_path) == page_title(b, file_path),
{
    lemma_toc_items_by_text(a, b);
    lemma_heading_ids_by_text(html, a, b);
    lemma_first_h1_by_text(a, b);
}

proof fn lemma_backlink_items_by_text(a: Seq<BacklinkRef>, b: Seq<BacklinkRef>)
    requires
        crate::backlinks::backlink_views(a) == crate::backlinks::backlink_views(b),
    ensures
        backlink_items(a) == backlink_items(b),
    decreases a.len(),
{
    let va = crate::backlinks::backlink_views(a);
    let vb = crate::backlinks::backlink_views(b);
    assert(a.len() == va.len() && b.len() == vb.len());
    if a.len() > 0 {
        assert(crate::backlinks::backlink_views(a.drop_last()) =~= va.drop_last());
        assert(crate::backlinks::backlink_views(b.drop_last()) =~= vb.drop_last());
        lemma_backlink_items_by_text(a.drop_last(), b.drop_last());
        assert(va.last() == crate::backlinks::backlink_view(a.last()));
        assert(vb.last() == crate::backlinks::backlink_view(b.last()));
    }
}

/// The backlinks section depends on the texts of the backlinks alone.
pub proof fn lemma_backlinks_by_text(a: Seq<BacklinkRef>, b: Seq<BacklinkRef>)
    requires
        crate::backlinks::backlink_views(a) == crate::backlinks::backlink_views(b),
    ensures
        backlinks_html(a) == backlinks_html(b),
{
    assert(a.len() == crate::backlinks::backlink_views(a).len());
    assert(b.len() == crate::backlinks::backlink_views(b).len());
    lemma_backlink_items_by_text(a, b);
}

// ---------------------------------------------------------------------------
// What holds of every document's anchors
// ---------------------------------------------------------------------------

/// A decimal number has at least one digit, and only digits.
pub proof fn lemma_decimal_digits(n: nat)
    ensures
        decimal(n).len() >= 1,
        forall|i: int| 0 <= i < decimal(n).len() ==> (#[trigger] decimal(n)[i]) != '-',
    decreases n,
{
    if n >= 10 {
        lemma_decimal_digits(n / 10);
        let head = decimal(n / 10);
        assert forall|i: int| 0 <= i < decimal(n).len() implies (#[trigger] decimal(n)[i])
            != '-' by {
            if i < head.len() {
                assert(decimal(n)[i] == head[i]);
            }
        }
    }
}

/// Two numbers with the same decimal form are the same number.
pub proof fn lemma_decimal_injective(a: nat, b: nat)
    requires
        decimal(a) == decimal(b),
    ensures
        a == b,
    decreases a,
{
    lemma_decimal_digits(a / 10);
    lemma_decimal_digits(b / 10);
    if a < 10 && b < 10 {
        assert(decimal(a)[0] == digit_char(a as int));
        assert(decimal(b)[0] == digit_char(b as int));
        lemma_digit_injective(a as int, b as int);
    } else if a >= 10 && b >= 10 {
        assert(decimal(a).drop_last() =~= decimal(a / 10));
        assert(decimal(b).drop_last() =~= decimal(b / 10));
        lemma_decimal_injective(a / 10, b / 10);
        assert(decimal(a).last() == digit_char((a % 10) as int));
        assert(decimal(b).last() == digit_char((b % 10) as int));
        lemma_digit_injective((a % 10) as int, (b % 10) as int);
    } else {
        assert(decimal(a).len() != decimal(b).len());
    }
}

/// Two digits with the same character are the same digit.
proof fn lemma_digit_injective(x: int, y: int)
    requires
        0 <= x < 10,
        0 <= y < 10,
        digit_char(x) == digit_char(y),
    ensures
        x == y,
{
}

/// A slug with a number behind a hyphen tells slug and number apart: two
/// such anchors are equal only where both parts are.
pub proof fn lemma_numbered_anchor_parts(x: Seq<char>, a: nat, y: Seq<char>, b: nat)
    requires
        x + seq!['-'] + decimal(a) == y + seq!['-'] + decimal(b),
    ensures
        x == y,
        a == b,
{
    let left = x + seq!['-'] + decimal(a);
    let right = y + seq!['-'] + decimal(b);
    lemma_decimal_digits(a);
    lemma_decimal_digits(b);
    let xh = x + seq!['-'];
    let yh = y + seq!['-'];
    assert(left.len() == x.len() + 1 + decimal(a).len());
    assert(right.len() == y.len() + 1 + decimal(b).len());
    if x.len() < y.len() {
        assert(right[y.len() as int] == yh[y.len() as int]);
        assert(left[y.len() as int] == decimal(a)[y.len() - xh.len()]);
    } else if y.len() < x.len() {
        assert(left[x.len() as int] == xh[x.len() as int]);
        assert(right[x.len() as int] == decimal(b)[x.len() - yh.len()]);
    }
    assert(x.len() == y.len());
    assert(x =~= y) by {
        assert forall|i: int| 0 <= i < x.len() implies x[i] == y[i] by {
            assert(left[i] == xh[i]);
            assert(right[i] == yh[i]);
        }
    }
    assert(decimal(a) =~= decimal(b)) by {
        assert(decimal(a).len() == decimal(b).len()) by {
            assert(left.len() == right.len());
        }
        assert forall|i: int| 0 <= i < decimal(a).len() implies decimal(a)[i] == decimal(b)[i] by {
            assert(left[xh.len() + i] == decimal(a)[i]);
            assert(right[yh.len() + i] == decimal(b)[i]);
        }
    }
    lemma_decimal_injective(a, b);
}

/// A slug is counted at least once more after a heading that has it.
pub proof fn lemma_count_grows(bases: Seq<Seq<char>>, i: int, j: int)
    requires
        0 <= i < j <= bases.len(),
    ensures
        count_of(bases.take(j), bases[i]) >= count_of(bases.take(i), bases[i]) + 1,
    decreases j - i,
{
    assert(bases.take(j).drop_last() =~= bases.take(j - 1));
    if j == i + 1 {
        assert(bases.take(j).last() == bases[i]);
    } else {
        lemma_count_grows(bases, i, j - 1);
    }
}

/// The first heading with a slug gets the bare slug.
pub proof fn lemma_first_occurrence_is_bare(bases: Seq<Seq<char>>, i: int)
    requires
        0 <= i < bases.len(),
        count_of(bases.take(i), bases[i]) == 0,
    ensures
        anchor_at(bases, i) == bases[i],
{
}

/// Anchors are unique within a document, unless the slug of one heading is
/// the numbered anchor of another: where `Foo` occurs twice, so that the
/// second gets `foo-1`, a heading `Foo 1` has the slug `foo-1` too.
pub proof fn lemma_anchors_unique(bases: Seq<Seq<char>>, i: int, j: int)
    requires
        0 <= i < j < bases.len(),
        forall|p: int, q: int|
            0 <= p < bases.len() && 0 <= q < bases.len() && count_of(bases.take(q), bases[q]) > 0
                ==> bases[p] != anchor_at(bases, q),
    ensures
        anchor_at(bases, i) != anchor_at(bases, j),
{
    let ci = count_of(bases.take(i), bases[i]);
    let cj = count_of(bases.take(j), bases[j]);
    if bases[i] == bases[j] {
        lemma_count_grows(bases, i, j);
        lemma_decimal_digits(cj);
        if ci == 0 {
            assert(anchor_at(bases, j).len() > bases[i].len());
        } else {
            if anchor_at(bases, i) == anchor_at(bases, j) {
                lemma_numbered_anchor_parts(bases[i], ci, bases[j], cj);
            }
        }
    } else {
        if ci == 0 && cj == 0 {
        } else if ci == 0 {
            assert(bases[i] != anchor_at(bases, j));
        } else if cj == 0 {
            assert(bases[j] != anchor_at(bases, i));
        } else {
            if anchor_at(bases, i) == anchor_at(bases, j) {
                lemma_numbered_anchor_parts(bases[i], ci, bases[j], cj);
            }
        }
    }
}

/// In the heading list of a document no two headings share an anchor, and a
/// heading whose slug none before it has carries the bare slug. The first
/// holds unless the slug of one heading is the numbered anchor of another.
pub proof fn lemma_document_anchors(
    hs: Seq<HeadingEntry>,
    found: Seq<(u8, Seq<char>)>,
    i: int,
    j: int,
)
    requires
        lists_headings(hs, found),
        0 <= i < j < hs.len(),
    ensures
        count_of(text_slugs(found).take(i), slug_of(found[i].1)) == 0 ==> hs[i].anchor_id@
            == slug_of(found[i].1),
        (forall|p: int, q: int|
            0 <= p < found.len() && 0 <= q < found.len() && count_of(
                text_slugs(found).take(q),
                text_slugs(found)[q],
            ) > 0 ==> text_slugs(found)[p] != anchor_at(text_slugs(found), q))
            ==> hs[i].anchor_id@ != hs[j].anchor_id@,
{
    let bases = text_slugs(found);
    assert(hs[i].anchor_id@ == anchor_at(bases, i));
    assert(hs[j].anchor_id@ == anchor_at(bases, j));
    if forall|p: int, q: int|
        0 <= p < bases.len() && 0 <= q < bases.len() && count_of(bases.take(q), bases[q]) > 0
            ==> bases[p] != anchor_at(bases, q) {
        lemma_anchors_unique(bases, i, j);
    }
}

} // verus!
