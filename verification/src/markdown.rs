//! The markdown event stream. The tokenizer is `pulldown_cmark`; this module
//! turns each of its events into a value of the library's own, so that what
//! reads the stream works on plain data.

use pulldown_cmark::{Event, LinkType as SourceLinkType, Options, Parser, Tag, TagEnd};
use vstd::prelude::*;

verus! {

/// How a link was written in the source.
#[derive(Debug, Clone, Copy, PartialEq, Eq)]
pub enum LinkType {
    Inline,
    Reference,
    ReferenceUnknown,
    Collapsed,
    CollapsedUnknown,
    Shortcut,
    ShortcutUnknown,
    Autolink,
    Email,
    WikiLink,
}

/// What an element of the document is, as its opening event tells.
#[derive(Debug, Clone)]
pub enum MdTag {
    Paragraph,
    /// A heading with its level, 1 to 6.
    Heading(u8),
    BlockQuote,
    CodeBlock,
    List,
    Item,
    Table,
    TableRow,
    /// Any other element that is not one of the five spans below.
    OtherBlock,
    Emphasis,
    Strong,
    Strikethrough,
    Link { link_type: LinkType, dest_url: String },
    Image { link_type: LinkType, dest_url: String },
}

/// What an element of the document is, as its closing event tells.
#[derive(Debug, Clone, Copy, PartialEq, Eq)]
pub enum MdTagEnd {
    /// A heading with its level, 1 to 6.
    Heading(u8),
    Emphasis,
    Strong,
    Strikethrough,
    Link,
    Image,
    /// Any other element.
    OtherBlock,
}

/// One event of the stream.
#[derive(Debug, Clone)]
pub enum MdEventKind {
    Start(MdTag),
    End(MdTagEnd),
    Text(String),
    Code(String),
    Html(String),
    InlineHtml(String),
    SoftBreak,
    HardBreak,
    Rule,
    /// An event that nothing in this library reads.
    Other,
}

/// An event with the byte range of the source that it covers.
#[derive(Debug, Clone)]
pub struct MdEvent {
    pub kind: MdEventKind,
    /// Byte offset at which the event's source begins.
    pub start: usize,
    /// Byte offset just past the event's source.
    pub end: usize,
}

/// The variants of an event, without their contents.
#[derive(Debug, Clone, Copy, PartialEq, Eq)]
pub enum EventClass {
    Start,
    End,
    Text,
    Code,
    Html,
    InlineHtml,
    SoftBreak,
    HardBreak,
    Rule,
    Other,
}

/// The variants of an element, without their contents.
#[derive(Debug, Clone, Copy, PartialEq, Eq)]
pub enum TagClass {
    Paragraph,
    Heading,
    BlockQuote,
    CodeBlock,
    List,
    Item,
    Table,
    TableRow,
    Emphasis,
    Strong,
    Strikethrough,
    Link,
    Image,
    Other,
}

/// An event of `pulldown_cmark`, carried through and read only by the
/// functions below.
#[verifier::external_type_specification]
#[verifier::external_body]
pub struct ExEvent<'a>(Event<'a>);

/// Tells the variants of `pulldown_cmark::Event` apart. Nothing is claimed of
/// the answer.
#[verifier::external_body]
fn event_class(e: &Event<'_>) -> EventClass {
    match e {
        Event::Start(_) => EventClass::Start,
        Event::End(_) => EventClass::End,
        Event::Text(_) => EventClass::Text,
        Event::Code(_) => EventClass::Code,
        Event::Html(_) => EventClass::Html,
        Event::InlineHtml(_) => EventClass::InlineHtml,
        Event::SoftBreak => EventClass::SoftBreak,
        Event::HardBreak => EventClass::HardBreak,
        Event::Rule => EventClass::Rule,
        _ => EventClass::Other,
    }
}

/// The text that a `Text`, `Code`, `Html` or `InlineHtml` event of
/// `pulldown_cmark` carries; empty for any other event. Nothing is claimed of
/// the answer.
#[verifier::external_body]
fn event_text(e: &Event<'_>) -> String {
    match e {
        Event::Text(t) | Event::Code(t) | Event::Html(t) | Event::InlineHtml(t) => t.to_string(),
        _ => String::new(),
    }
}

/// Tells the block-level variants of `pulldown_cmark::Tag` in a `Start` event
/// apart. Nothing is claimed of the answer.
#[verifier::external_body]
fn start_block_class(e: &Event<'_>) -> TagClass {
    match e {
        Event::Start(Tag::Paragraph) => TagClass::Paragraph,
        Event::Start(Tag::Heading { .. }) => TagClass::Heading,
        Event::Start(Tag::BlockQuote(_)) => TagClass::BlockQuote,
        Event::Start(Tag::CodeBlock(_)) => TagClass::CodeBlock,
        Event::Start(Tag::List(_)) => TagClass::List,
        Event::Start(Tag::Item) => TagClass::Item,
        Event::Start(Tag::Table(_)) => TagClass::Table,
        Event::Start(Tag::TableRow) => TagClass::TableRow,
        _ => TagClass::Other,
    }
}

/// Tells the span-level variants of `pulldown_cmark::Tag` in a `Start` event
/// apart. Nothing is claimed of the answer.
#[verifier::external_body]
fn start_span_class(e: &Event<'_>) -> TagClass {
    match e {
        Event::Start(Tag::Emphasis) => TagClass::Emphasis,
        Event::Start(Tag::Strong) => TagClass::Strong,
        Event::Start(Tag::Strikethrough) => TagClass::Strikethrough,
        Event::Start(Tag::Link { .. }) => TagClass::Link,
        Event::Start(Tag::Image { .. }) => TagClass::Image,
        _ => TagClass::Other,
    }
}

/// Tells the variants of `pulldown_cmark::TagEnd` in an `End` event apart.
/// Nothing is claimed of the answer.
#[verifier::external_body]
fn end_class(e: &Event<'_>) -> TagClass {
    match e {
        Event::End(TagEnd::Heading(_)) => TagClass::Heading,
        Event::End(TagEnd::Emphasis) => TagClass::Emphasis,
        Event::End(TagEnd::Strong) => TagClass::Strong,
        Event::End(TagEnd::Strikethrough) => TagClass::Strikethrough,
        Event::End(TagEnd::Link) => TagClass::Link,
        Event::End(TagEnd::Image) => TagClass::Image,
        _ => TagClass::Other,
    }
}

/// The level of the heading that an event of `pulldown_cmark` opens or
/// closes, as the number that `HeadingLevel` stands for; zero for any other
/// event. Nothing is claimed of the answer.
#[verifier::external_body]
fn heading_level(e: &Event<'_>) -> u8 {
    match e {
        Event::Start(Tag::Heading { level, .. }) => *level as u8,
        Event::End(TagEnd::Heading(level)) => *level as u8,
        _ => 0,
    }
}

/// The destination of the link or image that an event of `pulldown_cmark`
/// opens; empty for any other event. Nothing is claimed of the answer.
#[verifier::external_body]
fn link_destination(e: &Event<'_>) -> String {
    match e {
        Event::Start(Tag::Link { dest_url, .. }) => dest_url.to_string(),
        Event::Start(Tag::Image { dest_url, .. }) => dest_url.to_string(),
        _ => String::new(),
    }
}

/// The `pulldown_cmark::LinkType` of the link or image that an event opens,
/// variant for variant; `Inline` for any other event. Nothing is claimed of
/// the answer.
#[verifier::external_body]
fn link_type(e: &Event<'_>) -> LinkType {
    match e {
        Event::Start(Tag::Link { link_type, .. } | Tag::Image { link_type, .. }) => match link_type {
            SourceLinkType::Inline => LinkType::Inline,
            SourceLinkType::Reference => LinkType::Reference,
            SourceLinkType::ReferenceUnknown => LinkType::ReferenceUnknown,
            SourceLinkType::Collapsed => LinkType::Collapsed,
            SourceLinkType::CollapsedUnknown => LinkType::CollapsedUnknown,
            SourceLinkType::Shortcut => LinkType::Shortcut,
            SourceLinkType::ShortcutUnknown => LinkType::ShortcutUnknown,
            SourceLinkType::Autolink => LinkType::Autolink,
            SourceLinkType::Email => LinkType::Email,
            SourceLinkType::WikiLink { .. } => LinkType::WikiLink,
        },
        _ => LinkType::Inline,
    }
}

/// The element that a `Start` event opens, from what was read of the event.
pub fn to_md_tag(
    span: TagClass,
    block: TagClass,
    level: u8,
    link_type: LinkType,
    dest_url: String,
) -> (r: MdTag)
    ensures
        r == start_tag_of(span, block, level, link_type, dest_url),
{
    match span {
        TagClass::Emphasis => MdTag::Emphasis,
        TagClass::Strong => MdTag::Strong,
        TagClass::Strikethrough => MdTag::Strikethrough,
        TagClass::Link => MdTag::Link { link_type, dest_url },
        TagClass::Image => MdTag::Image { link_type, dest_url },
        _ => match block {
            TagClass::Paragraph => MdTag::Paragraph,
            TagClass::Heading => MdTag::Heading(level),
            TagClass::BlockQuote => MdTag::BlockQuote,
            TagClass::CodeBlock => MdTag::CodeBlock,
            TagClass::List => MdTag::List,
            TagClass::Item => MdTag::Item,
            TagClass::Table => MdTag::Table,
            TagClass::TableRow => MdTag::TableRow,
            _ => MdTag::OtherBlock,
        },
    }
}

/// The element that an `End` event closes, from what was read of the event.
pub fn to_md_tag_end(class: TagClass, level: u8) -> (r: MdTagEnd)
    ensures
        r == end_tag_of(class, level),
{
    match class {
        TagClass::Heading => MdTagEnd::Heading(level),
        TagClass::Emphasis => MdTagEnd::Emphasis,
        TagClass::Strong => MdTagEnd::Strong,
        TagClass::Strikethrough => MdTagEnd::Strikethrough,
        TagClass::Link => MdTagEnd::Link,
        TagClass::Image => MdTagEnd::Image,
        _ => MdTagEnd::OtherBlock,
    }
}

/// The element that a `Start` event opens, from what was read of the event:
/// the span, where `span` is one of the five spans; else the block that
/// `block` names; else `OtherBlock`. A heading carries `level`, a link or an
/// image carries `link_type` and `dest_url`.
pub open spec fn start_tag_of(
    span: TagClass,
    block: TagClass,
    level: u8,
    link_type: LinkType,
    dest_url: String,
) -> MdTag {
    match span {
        TagClass::Emphasis => MdTag::Emphasis,
        TagClass::Strong => MdTag::Strong,
        TagClass::Strikethrough => MdTag::Strikethrough,
        TagClass::Link => MdTag::Link { link_type, dest_url },
        TagClass::Image => MdTag::Image { link_type, dest_url },
        _ => match block {
            TagClass::Paragraph => MdTag::Paragraph,
            TagClass::Heading => MdTag::Heading(level),
            TagClass::BlockQuote => MdTag::BlockQuote,
            TagClass::CodeBlock => MdTag::CodeBlock,
            TagClass::List => MdTag::List,
            TagClass::Item => MdTag::Item,
            TagClass::Table => MdTag::Table,
            TagClass::TableRow => MdTag::TableRow,
            _ => MdTag::OtherBlock,
        },
    }
}

/// The element that an `End` event closes, from what was read of the event:
/// a heading with `level`, one of the five spans, or `OtherBlock` for
/// anything else.
pub open spec fn end_tag_of(class: TagClass, level: u8) -> MdTagEnd {
    match class {
        TagClass::Heading => MdTagEnd::Heading(level),
        TagClass::Emphasis => MdTagEnd::Emphasis,
        TagClass::Strong => MdTagEnd::Strong,
        TagClass::Strikethrough => MdTagEnd::Strikethrough,
        TagClass::Link => MdTagEnd::Link,
        TagClass::Image => MdTagEnd::Image,
        _ => MdTagEnd::OtherBlock,
    }
}

/// The event of a class: a `Start` event carries `tag`, an `End` event
/// `tag_end`, and a `Text`, `Code`, `Html` or `InlineHtml` event `text`.
pub open spec fn event_kind_of(class: EventClass, text: String, tag: MdTag, tag_end: MdTagEnd) -> MdEventKind {
    match class {
        EventClass::Start => MdEventKind::Start(tag),
        EventClass::End => MdEventKind::End(tag_end),
        EventClass::Text => MdEventKind::Text(text),
        EventClass::Code => MdEventKind::Code(text),
        EventClass::Html => MdEventKind::Html(text),
        EventClass::InlineHtml => MdEventKind::InlineHtml(text),
        EventClass::SoftBreak => MdEventKind::SoftBreak,
        EventClass::HardBreak => MdEventKind::HardBreak,
        EventClass::Rule => MdEventKind::Rule,
        EventClass::Other => MdEventKind::Other,
    }
}

/// Puts an event together from what was read of the tokenizer's event and
/// the bytes `start..end` of the source that it covers.
pub fn md_event_from(
    class: EventClass,
    text: String,
    tag: MdTag,
    tag_end: MdTagEnd,
    start: usize,
    end: usize,
) -> (r: MdEvent)
    ensures
        r.kind == event_kind_of(class, text, tag, tag_end),
        r.start == start,
        r.end == end,
{
    let kind = match class {
        EventClass::Start => MdEventKind::Start(tag),
        EventClass::End => MdEventKind::End(tag_end),
        EventClass::Text => MdEventKind::Text(text),
        EventClass::Code => MdEventKind::Code(text),
        EventClass::Html => MdEventKind::Html(text),
        EventClass::InlineHtml => MdEventKind::InlineHtml(text),
        EventClass::SoftBreak => MdEventKind::SoftBreak,
        EventClass::HardBreak => MdEventKind::HardBreak,
        EventClass::Rule => MdEventKind::Rule,
        EventClass::Other => MdEventKind::Other,
    };
    MdEvent { kind, start, end }
}

/// The library's value for an event of the tokenizer that covers the bytes
/// `start..end` of the source. What the event holds is read here, piece by
/// piece; `md_event_from` says what becomes of the pieces.
pub(crate) fn to_md_event(e: &Event<'_>, start: usize, end: usize) -> (r: MdEvent)
    ensures
        r.start == start,
        r.end == end,
{
    let level = heading_level(e);
    let tag = to_md_tag(
        start_span_class(e),
        start_block_class(e),
        level,
        link_type(e),
        link_destination(e),
    );
    let tag_end = to_md_tag_end(end_class(e), level);
    md_event_from(event_class(e), event_text(e), tag, tag_end, start, end)
}

/// The events that the tokenizer yields for `src` with the given extensions
/// switched on or off, each as `to_md_event` gives it, in document order.
pub uninterp spec fn event_stream(
    src: Seq<char>,
    tables: bool,
    strikethrough: bool,
    tasklists: bool,
) -> Seq<MdEvent>;

/// Runs `pulldown_cmark::Parser::new_ext` over `src` and collects what
/// `into_offset_iter` yields. The stream is a function of the source and the
/// three options alone.
#[verifier::external_body]
pub(crate) fn markdown_events(src: &str, tables: bool, strikethrough: bool, tasklists: bool) -> (r:
    Vec<MdEvent>)
    ensures
        r@ == event_stream(src@, tables, strikethrough, tasklists),
{
    let mut options = Options::empty();
    options.set(Options::ENABLE_TABLES, tables);
    options.set(Options::ENABLE_STRIKETHROUGH, strikethrough);
    options.set(Options::ENABLE_TASKLISTS, tasklists);
    Parser::new_ext(src, options).into_offset_iter().map(
        |(e, r)| to_md_event(&e, r.start, r.end),
    ).collect()
}

} // verus!
