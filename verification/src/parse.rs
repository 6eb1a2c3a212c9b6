//! A markdown document as the viewer reads it: its top-level blocks with
//! their line ranges and flattened text, its headings, and its links.

use crate::markdown::{event_stream, markdown_events, LinkType, MdEvent, MdEventKind, MdTag, MdTagEnd};
use crate::text::chars_of;
use vstd::prelude::*;
use vstd::string::*;
use vstd::utf8::*;

verus! {

/// The kind of a top-level block.
#[derive(Debug, Clone, Copy, PartialEq, Eq, Structural)]
pub enum BlockKind {
    Paragraph,
    Heading(u8),
    CodeBlock,
    List,
    BlockQuote,
    ThematicBreak,
    HtmlBlock,
    Table,
}

/// A link whose text lies within the content of a block.
#[derive(Debug, Clone, PartialEq, Eq)]
pub struct InlineLink {
    /// Byte offset of the start of the link text within the block's content.
    pub start: usize,
    /// Byte offset just past the link text within the block's content.
    pub end: usize,
    /// Destination URL.
    pub url: String,
}

/// A top-level block of the document.
#[derive(Debug, Clone, PartialEq, Eq)]
pub struct ContentBlock {
    pub kind: BlockKind,
    /// First line of the block, counted from 1.
    pub line_start: usize,
    /// Last line of the block, counted from 1.
    pub line_end: usize,
    /// Flattened text of the block.
    pub content: String,
    /// The links whose text lies within `content`.
    pub inline_links: Vec<InlineLink>,
}

/// A heading of the document.
#[derive(Debug, Clone, PartialEq, Eq)]
pub struct Heading {
    /// Heading level, 1 to 6.
    pub level: u8,
    /// Flattened text of the heading.
    pub text: String,
    /// The line of the heading, counted from 1.
    pub line: usize,
}

/// The kind of a link.
#[derive(Debug, Clone, Copy, PartialEq, Eq, Structural)]
pub enum LinkKind {
    Inline,
    Reference,
    Autolink,
    Email,
    Collapsed,
    Shortcut,
    Image,
}

/// A link or image of the document.
#[derive(Debug, Clone, PartialEq, Eq)]
pub struct Link {
    /// Visible text of the link.
    pub text: String,
    /// Destination URL.
    pub url: String,
    /// The line of the link, counted from 1.
    pub line: usize,
    pub kind: LinkKind,
}

/// The parsed form of a markdown document.
#[derive(Debug, Clone)]
pub struct ParsedDocument {
    pub blocks: Vec<ContentBlock>,
    pub headings: Vec<Heading>,
    pub links: Vec<Link>,
}

// ---------------------------------------------------------------------------
// Lines
// ---------------------------------------------------------------------------

/// The byte offsets of the line feeds among the first `n` bytes.
pub open spec fn newline_offsets(bytes: Seq<u8>, n: int) -> Seq<usize>
    decreases n,
{
    if n <= 0 {
        Seq::empty()
    } else if n <= bytes.len() && bytes[n - 1] == 0x0a {
        newline_offsets(bytes, n - 1).push((n - 1) as usize)
    } else {
        newline_offsets(bytes, n - 1)
    }
}

/// How many of `offsets` lie before `offset`.
pub open spec fn count_before(offsets: Seq<usize>, offset: usize) -> nat
    decreases offsets.len(),
{
    if offsets.len() == 0 {
        0
    } else {
        count_before(offsets.drop_last(), offset) + if offsets.last() < offset {
            1nat
        } else {
            0nat
        }
    }
}

/// The line of a byte offset, counted from 1: one more than the number of
/// line feeds before it. The count stops at the largest `usize`.
pub open spec fn line_of(offsets: Seq<usize>, offset: usize) -> usize {
    if count_before(offsets, offset) < usize::MAX {
        (count_before(offsets, offset) + 1) as usize
    } else {
        usize::MAX
    }
}

/// Maps byte offsets of a source to line numbers.
pub struct LineIndex {
    /// Byte offsets of the line feeds of the source, in rising order.
    pub newline_offsets: Vec<usize>,
}

/// Offsets in strictly rising order.
pub open spec fn rising(offsets: Seq<usize>) -> bool {
    forall|i: int, j: int|
        0 <= i < j < offsets.len() ==> (#[trigger] offsets[i]) < (#[trigger] offsets[j])
}

/// Every line feed among the first `n` bytes lies before `n`, and they rise.
proof fn lemma_newline_offsets_rising(bytes: Seq<u8>, n: int)
    requires
        n <= bytes.len() <= usize::MAX,
    ensures
        rising(newline_offsets(bytes, n)),
        forall|i: int|
            0 <= i < newline_offsets(bytes, n).len() ==> (#[trigger] newline_offsets(bytes, n)[i])
                < n,
    decreases n,
{
    if n > 0 {
        lemma_newline_offsets_rising(bytes, n - 1);
        let before = newline_offsets(bytes, n - 1);
        let all = newline_offsets(bytes, n);
        assert forall|i: int| 0 <= i < all.len() implies (#[trigger] all[i]) < n by {
            if i < before.len() {
                assert(all[i] == before[i]);
            }
        }
        assert forall|i: int, j: int| 0 <= i < j < all.len() implies (#[trigger] all[i]) < (
        #[trigger] all[j]) by {
            assert(all[i] == before[i]);
            if j < before.len() {
                assert(all[j] == before[j]);
            }
        }
    }
}

/// In rising offsets, the number before `offset` is the position of the
/// first that is not.
proof fn lemma_count_before_split(offsets: Seq<usize>, offset: usize, k: int)
    requires
        rising(offsets),
        0 <= k <= offsets.len(),
        forall|i: int| 0 <= i < k ==> offsets[i] < offset,
        forall|i: int| k <= i < offsets.len() ==> offsets[i] >= offset,
    ensures
        count_before(offsets, offset) == k,
    decreases offsets.len(),
{
    if offsets.len() > 0 {
        let head = offsets.drop_last();
        if k == offsets.len() {
            lemma_count_before_split(head, offset, k - 1);
        } else {
            lemma_count_before_split(head, offset, k);
        }
    }
}

impl LineIndex {
    /// The index is that of a source: its offsets rise.
    pub open spec fn wf(&self) -> bool {
        rising(self.newline_offsets@)
    }

    /// Builds the index of a source.
    pub fn new(source: &str) -> (r: Self)
        ensures
            r.wf(),
            r.newline_offsets@ == newline_offsets(encode_utf8(source@), encode_utf8(source@).len() as int),
    {
        let bytes = source.as_bytes();
        let mut offsets: Vec<usize> = Vec::new();
        let mut i: usize = 0;
        while i < bytes.len()
            invariant
                i <= bytes.len(),
                bytes@ == encode_utf8(source@),
                offsets@ == newline_offsets(bytes@, i as int),
            decreases bytes.len() - i,
        {
            if bytes[i] == 0x0a {
                offsets.push(i);
            }
            i += 1;
        }
        proof {
            lemma_newline_offsets_rising(bytes@, bytes@.len() as int);
        }
        LineIndex { newline_offsets: offsets }
    }

    /// The line of a byte offset, counted from 1.
    pub fn line_at(&self, offset: usize) -> (line: usize)
        requires
            self.wf(),
        ensures
            line == line_of(self.newline_offsets@, offset),
    {
        let mut lo: usize = 0;
        let mut hi: usize = self.newline_offsets.len();
        while lo < hi
            invariant
                lo <= hi <= self.newline_offsets.len(),
                self.wf(),
                forall|i: int| 0 <= i < lo ==> self.newline_offsets@[i] < offset,
                forall|i: int|
                    hi <= i < self.newline_offsets.len() ==> self.newline_offsets@[i] >= offset,
            decreases hi - lo,
        {
            let mid = lo + (hi - lo) / 2;
            if self.newline_offsets[mid] < offset {
                proof {
                    assert forall|i: int| 0 <= i < mid + 1 implies self.newline_offsets@[i]
                        < offset by {
                        if i < mid {
                            assert(self.newline_offsets@[i] < self.newline_offsets@[mid as int]);
                        }
                    }
                }
                lo = mid + 1;
            } else {
                proof {
                    assert forall|i: int|
                        mid <= i < self.newline_offsets.len() implies self.newline_offsets@[i]
                        >= offset by {
                        if i > mid {
                            assert(self.newline_offsets@[mid as int] < self.newline_offsets@[i]);
                        }
                    }
                }
                hi = mid;
            }
        }
        proof {
            lemma_count_before_split(self.newline_offsets@, offset, lo as int);
        }
        if lo < usize::MAX {
            lo + 1
        } else {
            usize::MAX
        }
    }
}

/// The kind of a link of the given type; an image is always `Image`.
pub open spec fn link_kind_of(lt: LinkType, is_image: bool) -> LinkKind {
    if is_image {
        LinkKind::Image
    } else {
        match lt {
            LinkType::Inline => LinkKind::Inline,
            LinkType::Reference => LinkKind::Reference,
            LinkType::ReferenceUnknown => LinkKind::Reference,
            LinkType::Autolink => LinkKind::Autolink,
            LinkType::Email => LinkKind::Email,
            LinkType::Collapsed => LinkKind::Collapsed,
            LinkType::CollapsedUnknown => LinkKind::Collapsed,
            LinkType::Shortcut => LinkKind::Shortcut,
            LinkType::ShortcutUnknown => LinkKind::Shortcut,
            LinkType::WikiLink => LinkKind::Inline,
        }
    }
}

/// Maps the type of a link to its kind.
pub fn link_type_to_kind(lt: LinkType, is_image: bool) -> (k: LinkKind)
    ensures
        k == link_kind_of(lt, is_image),
{
    if is_image {
        return LinkKind::Image;
    }
    match lt {
        LinkType::Inline => LinkKind::Inline,
        LinkType::Reference => LinkKind::Reference,
        LinkType::ReferenceUnknown => LinkKind::Reference,
        LinkType::Autolink => LinkKind::Autolink,
        LinkType::Email => LinkKind::Email,
        LinkType::Collapsed => LinkKind::Collapsed,
        LinkType::CollapsedUnknown => LinkKind::Collapsed,
        LinkType::Shortcut => LinkKind::Shortcut,
        LinkType::ShortcutUnknown => LinkKind::Shortcut,
        LinkType::WikiLink => LinkKind::Inline,
    }
}

/// Whether an element is a block: every one but the five spans.
pub open spec fn is_block_tag(tag: MdTag) -> bool {
    !(tag is Emphasis || tag is Strong || tag is Strikethrough || tag is Link || tag is Image)
}

/// Whether an element that closes is a block.
pub open spec fn is_block_end(tag: MdTagEnd) -> bool {
    !(tag is Emphasis || tag is Strong || tag is Strikethrough || tag is Link || tag is Image)
}

/// The kind of block that an element opens at the top level, if any.
pub open spec fn block_kind_of(tag: MdTag) -> Option<BlockKind> {
    match tag {
        MdTag::Paragraph => Some(BlockKind::Paragraph),
        MdTag::Heading(level) => Some(BlockKind::Heading(level)),
        MdTag::CodeBlock => Some(BlockKind::CodeBlock),
        MdTag::BlockQuote => Some(BlockKind::BlockQuote),
        MdTag::List => Some(BlockKind::List),
        MdTag::Table => Some(BlockKind::Table),
        _ => None,
    }
}


// ---------------------------------------------------------------------------
// The document as plain text
// ---------------------------------------------------------------------------

/// An inline link as plain text.
pub struct InlineLinkText {
    pub start: usize,
    pub end: usize,
    pub url: Seq<char>,
}

/// A block as plain text.
pub struct BlockText {
    pub kind: BlockKind,
    pub line_start: usize,
    pub line_end: usize,
    pub content: Seq<char>,
    pub inline_links: Seq<InlineLinkText>,
}

/// A heading as plain text.
pub struct HeadingText {
    pub level: u8,
    pub text: Seq<char>,
    pub line: usize,
}

/// A link as plain text.
pub struct LinkText {
    pub text: Seq<char>,
    pub url: Seq<char>,
    pub line: usize,
    pub kind: LinkKind,
}

/// Inline links as plain text.
pub open spec fn inline_views(v: Seq<InlineLink>) -> Seq<InlineLinkText> {
    Seq::new(v.len(), |i: int| InlineLinkText { start: v[i].start, end: v[i].end, url: v[i].url@ })
}

/// A block as plain text.
pub open spec fn block_view(b: ContentBlock) -> BlockText {
    BlockText {
        kind: b.kind,
        line_start: b.line_start,
        line_end: b.line_end,
        content: b.content@,
        inline_links: inline_views(b.inline_links@),
    }
}

/// Blocks as plain text.
pub open spec fn block_views(v: Seq<ContentBlock>) -> Seq<BlockText> {
    Seq::new(v.len(), |i: int| block_view(v[i]))
}

/// Headings as plain text.
pub open spec fn heading_views(v: Seq<Heading>) -> Seq<HeadingText> {
    Seq::new(v.len(), |i: int| HeadingText { level: v[i].level, text: v[i].text@, line: v[i].line })
}

/// Links as plain text.
pub open spec fn link_views(v: Seq<Link>) -> Seq<LinkText> {
    Seq::new(
        v.len(),
        |i: int| LinkText { text: v[i].text@, url: v[i].url@, line: v[i].line, kind: v[i].kind },
    )
}

// ---------------------------------------------------------------------------
// Reading the event stream
// ---------------------------------------------------------------------------

/// Where the reading of a document stands after a stretch of events.
pub struct ParseState {
    /// How many blocks are open.
    pub depth: usize,
    /// The kind of the open top-level block and the offset where it began.
    pub current: Option<(BlockKind, usize)>,
    /// The text gathered for the open top-level block.
    pub text: Seq<char>,
    /// The level of the open heading.
    pub heading: Option<u8>,
    /// The line of the open heading.
    pub heading_line: usize,
    /// The text gathered for the open heading.
    pub heading_text: Seq<char>,
    /// URL and kind of the open link.
    pub link: Option<(Seq<char>, LinkKind)>,
    /// The line of the open link.
    pub link_line: usize,
    /// The text gathered for the open link.
    pub link_text: Seq<char>,
    /// The length in bytes that the block's text had when the link opened.
    pub link_start: usize,
    /// The links that closed within the open top-level block.
    pub inline: Seq<InlineLinkText>,
    /// The blocks that are complete.
    pub blocks: Seq<BlockText>,
    /// The headings that are complete.
    pub headings: Seq<HeadingText>,
    /// The links that are complete.
    pub links: Seq<LinkText>,
}

/// Before the first event.
pub open spec fn initial_state() -> ParseState {
    ParseState {
        depth: 0,
        current: None,
        text: Seq::empty(),
        heading: None,
        heading_line: 0,
        heading_text: Seq::empty(),
        link: None,
        link_line: 0,
        link_text: Seq::empty(),
        link_start: 0,
        inline: Seq::empty(),
        blocks: Seq::empty(),
        headings: Seq::empty(),
        links: Seq::empty(),
    }
}

/// The length of a text in bytes of UTF-8.
pub open spec fn byte_len(s: Seq<char>) -> usize {
    encode_utf8(s).len() as usize
}

/// The last line of a stretch of source from `start` to just before `end`.
pub open spec fn last_line(offsets: Seq<usize>, start: usize, end: usize) -> usize {
    line_of(
        offsets,
        if end >= 1 && end - 1 >= start {
            (end - 1) as usize
        } else {
            start
        },
    )
}

/// The text gathered for the block, the heading and the link, each where
/// one is open, with `t` added.
pub open spec fn with_text(st: ParseState, t: Seq<char>) -> ParseState {
    ParseState {
        text: st.text + t,
        heading_text: if st.heading is Some {
            st.heading_text + t
        } else {
            st.heading_text
        },
        link_text: if st.link is Some {
            st.link_text + t
        } else {
            st.link_text
        },
        ..st
    }
}

/// The state after an element opened at byte `start`.
pub open spec fn after_start(st: ParseState, tag: MdTag, start: usize, offsets: Seq<usize>) -> ParseState {
    let opened = if is_block_tag(tag) && st.depth == 0 && block_kind_of(tag) is Some {
        ParseState { current: Some((block_kind_of(tag)->0, start)), text: Seq::empty(), ..st }
    } else {
        st
    };
    let broken = if is_block_tag(tag) && st.depth >= 1 && (tag is Item || tag is TableRow)
        && opened.text.len() > 0 && opened.text.last() != '\n' {
        ParseState { text: opened.text.push('\n'), ..opened }
    } else {
        opened
    };
    let deeper = if is_block_tag(tag) && st.depth < usize::MAX {
        ParseState { depth: (st.depth + 1) as usize, ..broken }
    } else {
        broken
    };
    let headed = match tag {
        MdTag::Heading(level) => ParseState {
            heading: Some(level),
            heading_line: line_of(offsets, start),
            heading_text: Seq::empty(),
            ..deeper
        },
        _ => deeper,
    };
    match tag {
        MdTag::Link { link_type, dest_url } => ParseState {
            link: Some((dest_url@, link_kind_of(link_type, false))),
            link_line: line_of(offsets, start),
            link_text: Seq::empty(),
            link_start: byte_len(headed.text),
            ..headed
        },
        MdTag::Image { link_type, dest_url } => ParseState {
            link: Some((dest_url@, link_kind_of(link_type, true))),
            link_line: line_of(offsets, start),
            link_text: Seq::empty(),
            link_start: byte_len(headed.text),
            ..headed
        },
        _ => headed,
    }
}

/// The state after an element closed at byte `end`.
pub open spec fn after_end(st: ParseState, tag: MdTagEnd, end: usize, offsets: Seq<usize>) -> ParseState {
    let depth = if st.depth > 0 {
        (st.depth - 1) as usize
    } else {
        0usize
    };
    let closed = if is_block_end(tag) {
        if depth == 0 {
            match st.current {
                Some((kind, began)) => ParseState {
                    depth,
                    current: None,
                    text: Seq::empty(),
                    inline: Seq::empty(),
                    blocks: st.blocks.push(
                        BlockText {
                            kind,
                            line_start: line_of(offsets, began),
                            line_end: last_line(offsets, began, end),
                            content: st.text,
                            inline_links: st.inline,
                        },
                    ),
                    ..st
                },
                None => ParseState { depth, text: Seq::empty(), ..st },
            }
        } else {
            ParseState { depth, ..st }
        }
    } else {
        st
    };
    let headed = if tag is Heading {
        match closed.heading {
            Some(level) => ParseState {
                heading: None,
                heading_text: Seq::empty(),
                headings: closed.headings.push(
                    HeadingText { level, text: closed.heading_text, line: closed.heading_line },
                ),
                ..closed
            },
            None => closed,
        }
    } else {
        closed
    };
    if tag is Link || tag is Image {
        match headed.link {
            Some((url, kind)) => ParseState {
                link: None,
                link_text: Seq::empty(),
                inline: if headed.depth > 0 {
                    headed.inline.push(
                        InlineLinkText {
                            start: headed.link_start,
                            end: byte_len(headed.text),
                            url,
                        },
                    )
                } else {
                    headed.inline
                },
                links: headed.links.push(
                    LinkText { text: headed.link_text, url, line: headed.link_line, kind },
                ),
                ..headed
            },
            None => ParseState { link_text: Seq::empty(), ..headed },
        }
    } else {
        headed
    }
}

/// A block that stands alone: a thematic break or a block of raw HTML.
pub open spec fn lone_block(
    kind: BlockKind,
    start: usize,
    end: usize,
    content: Seq<char>,
    offsets: Seq<usize>,
) -> BlockText {
    BlockText {
        kind,
        line_start: line_of(offsets, start),
        line_end: last_line(offsets, start, end),
        content,
        inline_links: Seq::empty(),
    }
}

/// The state after one more event.
pub open spec fn parse_step(st: ParseState, ev: MdEvent, offsets: Seq<usize>) -> ParseState {
    match ev.kind {
        MdEventKind::Start(tag) => after_start(st, tag, ev.start, offsets),
        MdEventKind::End(tag) => after_end(st, tag, ev.end, offsets),
        MdEventKind::Text(t) => with_text(st, t@),
        MdEventKind::Code(t) => with_text(st, t@),
        MdEventKind::SoftBreak => with_text(st, seq!['\n']),
        MdEventKind::HardBreak => with_text(st, seq!['\n']),
        MdEventKind::Html(h) => if st.depth == 0 {
            ParseState {
                blocks: st.blocks.push(
                    lone_block(BlockKind::HtmlBlock, ev.start, ev.end, h@, offsets),
                ),
                ..st
            }
        } else {
            ParseState { text: st.text + h@, ..st }
        },
        MdEventKind::InlineHtml(h) => ParseState { text: st.text + h@, ..st },
        MdEventKind::Rule => ParseState {
            blocks: st.blocks.push(
                lone_block(BlockKind::ThematicBreak, ev.start, ev.start, Seq::empty(), offsets),
            ),
            ..st
        },
        MdEventKind::Other => st,
    }
}

/// The state after a stretch of events.
pub open spec fn parse_state(events: Seq<MdEvent>, offsets: Seq<usize>) -> ParseState
    decreases events.len(),
{
    if events.len() == 0 {
        initial_state()
    } else {
        parse_step(parse_state(events.drop_last(), offsets), events.last(), offsets)
    }
}

/// What reads the event stream.
pub struct DocumentBuilder {
    depth: usize,
    current: Option<(BlockKind, usize)>,
    text: String,
    heading: Option<u8>,
    heading_line: usize,
    heading_text: String,
    link: Option<(String, LinkKind)>,
    link_line: usize,
    link_text: String,
    link_start: usize,
    inline: Vec<InlineLink>,
    blocks: Vec<ContentBlock>,
    headings: Vec<Heading>,
    links: Vec<Link>,
}

impl DocumentBuilder {
    /// Where the reading stands.
    pub closed spec fn view(&self) -> ParseState {
        ParseState {
            depth: self.depth,
            current: self.current,
            text: self.text@,
            heading: self.heading,
            heading_line: self.heading_line,
            heading_text: self.heading_text@,
            link: match self.link {
                Some((url, kind)) => Some((url@, kind)),
                None => None,
            },
            link_line: self.link_line,
            link_text: self.link_text@,
            link_start: self.link_start,
            inline: inline_views(self.inline@),
            blocks: block_views(self.blocks@),
            headings: heading_views(self.headings@),
            links: link_views(self.links@),
        }
    }

    /// A builder that has read nothing.
    pub fn new() -> (b: Self)
        ensures
            b@ == initial_state(),
    {
        let b = DocumentBuilder {
            depth: 0,
            current: None,
            text: String::new(),
            heading: None,
            heading_line: 0,
            heading_text: String::new(),
            link: None,
            link_line: 0,
            link_text: String::new(),
            link_start: 0,
            inline: Vec::new(),
            blocks: Vec::new(),
            headings: Vec::new(),
            links: Vec::new(),
        };
        proof {
            assert(inline_views(b.inline@) =~= Seq::empty());
            assert(block_views(b.blocks@) =~= Seq::empty());
            assert(heading_views(b.headings@) =~= Seq::empty());
            assert(link_views(b.links@) =~= Seq::empty());
        }
        b
    }

    fn add_text(&mut self, t: &str)
        ensures
            final(self)@ == with_text(old(self)@, t@),
    {
        self.text.append(t);
        if self.heading.is_some() {
            self.heading_text.append(t);
        }
        if self.link.is_some() {
            self.link_text.append(t);
        }
    }

    fn add_lone_block(&mut self, kind: BlockKind, start: usize, end: usize, content: &str, index: &LineIndex)
        requires
            index.wf(),
        ensures
            final(self)@ == (ParseState {
                blocks: old(self)@.blocks.push(
                    lone_block(kind, start, end, content@, index.newline_offsets@),
                ),
                ..old(self)@
            }),
    {
        let ghost before = block_views(self.blocks@);
        let last = if end >= 1 && end - 1 >= start {
            end - 1
        } else {
            start
        };
        let block = ContentBlock {
            kind,
            line_start: index.line_at(start),
            line_end: index.line_at(last),
            content: content.to_owned(),
            inline_links: Vec::new(),
        };
        proof {
            assert(inline_views(block.inline_links@) =~= Seq::empty());
        }
        self.blocks.push(block);
        proof {
            assert(block_views(self.blocks@) =~= before.push(block_view(block)));
        }
    }

    fn open(&mut self, tag: &MdTag, start: usize, index: &LineIndex)
        requires
            index.wf(),
        ensures
            final(self)@ == after_start(old(self)@, *tag, start, index.newline_offsets@),
    {
        let block = !matches!(
            tag,
            MdTag::Emphasis | MdTag::Strong | MdTag::Strikethrough | MdTag::Link { .. }
                | MdTag::Image { .. }
        );
        if block {
            if self.depth == 0 {
                let kind = match tag {
                    MdTag::Paragraph => Some(BlockKind::Paragraph),
                    MdTag::Heading(level) => Some(BlockKind::Heading(*level)),
                    MdTag::CodeBlock => Some(BlockKind::CodeBlock),
                    MdTag::BlockQuote => Some(BlockKind::BlockQuote),
                    MdTag::List => Some(BlockKind::List),
                    MdTag::Table => Some(BlockKind::Table),
                    _ => None,
                };
                match kind {
                    Some(k) => {
                        self.current = Some((k, start));
                        self.text = String::new();
                    },
                    None => {},
                }
            } else {
                let row = matches!(tag, MdTag::Item | MdTag::TableRow);
                if row {
                    let cs = chars_of(self.text.as_str());
                    if cs.len() > 0 && cs[cs.len() - 1] != '\n' {
                        self.text.push('\n');
                    }
                }
            }
            if self.depth < usize::MAX {
                self.depth = self.depth + 1;
            }
        }
        match tag {
            MdTag::Heading(level) => {
                self.heading = Some(*level);
                self.heading_line = index.line_at(start);
                self.heading_text = String::new();
            },
            _ => {},
        }
        match tag {
            MdTag::Link { link_type, dest_url } => {
                self.link = Some((dest_url.clone(), link_type_to_kind(*link_type, false)));
                self.link_line = index.line_at(start);
                self.link_text = String::new();
                self.link_start = self.text.as_str().as_bytes().len();
            },
            MdTag::Image { link_type, dest_url } => {
                self.link = Some((dest_url.clone(), link_type_to_kind(*link_type, true)));
                self.link_line = index.line_at(start);
                self.link_text = String::new();
                self.link_start = self.text.as_str().as_bytes().len();
            },
            _ => {},
        }
    }

    fn close(&mut self, tag: MdTagEnd, end: usize, index: &LineIndex)
        requires
            index.wf(),
        ensures
            final(self)@ == after_end(old(self)@, tag, end, index.newline_offsets@),
    {
        let block = !matches!(
            tag,
            MdTagEnd::Emphasis | MdTagEnd::Strong | MdTagEnd::Strikethrough | MdTagEnd::Link
                | MdTagEnd::Image
        );
        if block {
            self.depth = if self.depth > 0 {
                self.depth - 1
            } else {
                0
            };
            if self.depth == 0 {
                match self.current {
                    Some((kind, began)) => {
                        let ghost before = block_views(self.blocks@);
                        let last = if end >= 1 && end - 1 >= began {
                            end - 1
                        } else {
                            began
                        };
                        let mut links: Vec<InlineLink> = Vec::new();
                        let ghost had = inline_views(self.inline@);
                        links.append(&mut self.inline);
                        let block = ContentBlock {
                            kind,
                            line_start: index.line_at(began),
                            line_end: index.line_at(last),
                            content: self.text.clone(),
                            inline_links: links,
                        };
                        proof {
                            assert(inline_views(block.inline_links@) =~= had);
                            assert(inline_views(self.inline@) =~= Seq::empty());
                        }
                        self.blocks.push(block);
                        self.current = None;
                        proof {
                            assert(block_views(self.blocks@) =~= before.push(block_view(block)));
                        }
                    },
                    None => {},
                }
                self.text = String::new();
            }
        }
        if matches!(tag, MdTagEnd::Heading(_)) {
            match self.heading {
                Some(level) => {
                    let ghost before = heading_views(self.headings@);
                    let h = Heading {
                        level,
                        text: self.heading_text.clone(),
                        line: self.heading_line,
                    };
                    self.headings.push(h);
                    self.heading = None;
                    self.heading_text = String::new();
                    proof {
                        assert(heading_views(self.headings@) =~= before.push(
                            HeadingText { level: h.level, text: h.text@, line: h.line },
                        ));
                    }
                },
                None => {},
            }
        }
        if matches!(tag, MdTagEnd::Link | MdTagEnd::Image) {
            let open = self.link.take();
            match open {
                Some((url, kind)) => {
                    if self.depth > 0 {
                        let ghost before = inline_views(self.inline@);
                        let l = InlineLink {
                            start: self.link_start,
                            end: self.text.as_str().as_bytes().len(),
                            url: url.clone(),
                        };
                        self.inline.push(l);
                        proof {
                            assert(inline_views(self.inline@) =~= before.push(
                                InlineLinkText { start: l.start, end: l.end, url: l.url@ },
                            ));
                        }
                    }
                    let ghost before = link_views(self.links@);
                    let l = Link { text: self.link_text.clone(), url, line: self.link_line, kind };
                    self.links.push(l);
                    proof {
                        assert(link_views(self.links@) =~= before.push(
                            LinkText { text: l.text@, url: l.url@, line: l.line, kind: l.kind },
                        ));
                    }
                },
                None => {},
            }
            self.link_text = String::new();
        }
    }

    /// Reads one event.
    pub fn read(&mut self, ev: &MdEvent, index: &LineIndex)
        requires
            index.wf(),
        ensures
            final(self)@ == parse_step(old(self)@, *ev, index.newline_offsets@),
    {
        match &ev.kind {
            MdEventKind::Start(tag) => {
                self.open(tag, ev.start, index);
            },
            MdEventKind::End(tag) => {
                self.close(*tag, ev.end, index);
            },
            MdEventKind::Text(t) => {
                self.add_text(t.as_str());
            },
            MdEventKind::Code(t) => {
                self.add_text(t.as_str());
            },
            MdEventKind::SoftBreak => {
                self.add_text("\n");
                proof {
                    reveal_strlit("\n");
                    assert("\n"@ =~= seq!['\n']);
                }
            },
            MdEventKind::HardBreak => {
                self.add_text("\n");
                proof {
                    reveal_strlit("\n");
                    assert("\n"@ =~= seq!['\n']);
                }
            },
            MdEventKind::Html(h) => {
                if self.depth == 0 {
                    self.add_lone_block(BlockKind::HtmlBlock, ev.start, ev.end, h.as_str(), index);
                } else {
                    self.text.append(h.as_str());
                }
            },
            MdEventKind::InlineHtml(h) => {
                self.text.append(h.as_str());
            },
            MdEventKind::Rule => {
                self.add_lone_block(BlockKind::ThematicBreak, ev.start, ev.start, "", index);
                proof {
                    reveal_strlit("");
                    assert(""@ =~= Seq::<char>::empty());
                }
            },
            MdEventKind::Other => {},
        }
    }

    /// The document that was read.
    pub fn finish(self) -> (doc: ParsedDocument)
        ensures
            block_views(doc.blocks@) == self@.blocks,
            heading_views(doc.headings@) == self@.headings,
            link_views(doc.links@) == self@.links,
    {
        ParsedDocument { blocks: self.blocks, headings: self.headings, links: self.links }
    }
}

/// Builds the document from the event stream of a source.
pub fn parse_events(events: &Vec<MdEvent>, source: &str) -> (doc: ParsedDocument)
    ensures
        block_views(doc.blocks@) == parse_state(events@, source_newlines(source@)).blocks,
        heading_views(doc.headings@) == parse_state(events@, source_newlines(source@)).headings,
        link_views(doc.links@) == parse_state(events@, source_newlines(source@)).links,
{
    let index = LineIndex::new(source);
    let mut builder = DocumentBuilder::new();
    let mut i: usize = 0;
    proof {
        assert(events@.take(0) =~= Seq::<MdEvent>::empty());
    }
    while i < events.len()
        invariant
            i <= events.len(),
            index.wf(),
            index.newline_offsets@ == source_newlines(source@),
            builder@ == parse_state(events@.take(i as int), source_newlines(source@)),
        decreases events.len() - i,
    {
        proof {
            assert(events@.take(i + 1).drop_last() == events@.take(i as int));
            assert(events@.take(i + 1).last() == events@[i as int]);
        }
        builder.read(&events[i], &index);
        i += 1;
    }
    proof {
        assert(events@.take(events.len() as int) == events@);
    }
    builder.finish()
}

/// The byte offsets of the line feeds of a source.
pub open spec fn source_newlines(source: Seq<char>) -> Seq<usize> {
    newline_offsets(encode_utf8(source), encode_utf8(source).len() as int)
}

/// Parses a markdown source into its blocks, headings and links. Tables,
/// strikethrough and task lists are read as such.
pub fn parse(source: &str) -> (doc: ParsedDocument)
    ensures
        block_views(doc.blocks@) == parse_state(
            event_stream(source@, true, true, true),
            source_newlines(source@),
        ).blocks,
        heading_views(doc.headings@) == parse_state(
            event_stream(source@, true, true, true),
            source_newlines(source@),
        ).headings,
        link_views(doc.links@) == parse_state(
            event_stream(source@, true, true, true),
            source_newlines(source@),
        ).links,
{
    let events = markdown_events(source, true, true, true);
    parse_events(&events, source)
}

} // verus!
