//! The document tree behind the renderer. The markdown engine is `comrak`.
//! Its tree never leaves this module: what the renderer decides on is read
//! out of it as plain values, and what the renderer decided goes back in as
//! plain values before the tree is written out as HTML.

use comrak::nodes::{AstNode, NodeValue};
use vstd::prelude::*;

verus! {

/// What an inline node contributes to the text of a heading.
#[derive(Debug, Clone)]
pub enum InlineText {
    /// Plain text.
    Text(String),
    /// The contents of a code span.
    Code(String),
    /// A soft or hard line break.
    Break,
    /// A node that carries no text of its own.
    Other,
}

/// What the renderer reads of one node of the tree.
#[derive(Debug, Clone)]
pub enum DocNode {
    /// A code block: whether it is fenced, its info string and its contents.
    CodeBlock { fenced: bool, info: String, literal: String },
    /// A link or an image, with its URL.
    Link { url: String },
    /// A heading, with its level and the inline nodes below it in document
    /// order.
    Heading { level: u8, pieces: Vec<InlineText> },
    /// Any other node.
    Other,
}

/// What the renderer does to a node before the tree is written out.
#[derive(Debug, Clone)]
pub enum NodeEdit {
    /// The node stays as it is.
    Keep,
    /// The node becomes raw HTML.
    Raw(String),
    /// The node, a link or an image, gets this URL.
    Url(String),
}

/// What is done to a node, as plain text.
pub enum EditText {
    Keep,
    Raw(Seq<char>),
    Url(Seq<char>),
}

/// An edit as plain text.
pub open spec fn edit_view(e: NodeEdit) -> EditText {
    match e {
        NodeEdit::Keep => EditText::Keep,
        NodeEdit::Raw(html) => EditText::Raw(html@),
        NodeEdit::Url(url) => EditText::Url(url@),
    }
}

/// Edits as plain text.
pub open spec fn edit_views(edits: Seq<NodeEdit>) -> Seq<EditText> {
    Seq::new(edits.len(), |i: int| edit_view(edits[i]))
}

/// A tree node of `comrak`.
#[verifier::external_type_specification]
#[verifier::external_body]
#[verifier::reject_recursive_types(T)]
pub struct ExTreeNode<'a, T: 'a>(comrak::arena_tree::Node<'a, T>);

/// What a tree node of `comrak` holds.
#[verifier::external_type_specification]
#[verifier::external_body]
pub struct ExAst(comrak::nodes::Ast);

/// The cell of std in which a node holds it.
#[verifier::external_type_specification]
#[verifier::external_body]
#[verifier::reject_recursive_types(T)]
pub struct ExRefCell<T: ?Sized>(std::cell::RefCell<T>);

/// The nodes of the tree that the engine builds for `input` with the four
/// extensions switched on or off, in document order, a parent before its
/// children, each as `read_node` gives it.
pub uninterp spec fn document_nodes(
    input: Seq<char>,
    strikethrough: bool,
    table: bool,
    autolink: bool,
    tasklist: bool,
) -> Seq<DocNode>;

/// `comrak::parse_document` with the default options but for the four
/// extensions, which are switched on or off; raw HTML stays switched off, as
/// it is by default. Returns what `read_node` gives for each node that
/// `descendants` yields from the root. The list is a function of the source
/// and the four switches alone.
#[verifier::external_body]
pub(crate) fn read_document(
    input: &str,
    strikethrough: bool,
    table: bool,
    autolink: bool,
    tasklist: bool,
) -> (r: Vec<DocNode>)
    ensures
        r@ == document_nodes(input@, strikethrough, table, autolink, tasklist),
{
    let arena = comrak::Arena::new();
    let mut options = comrak::Options::default();
    options.extension.strikethrough = strikethrough;
    options.extension.table = table;
    options.extension.autolink = autolink;
    options.extension.tasklist = tasklist;
    comrak::parse_document(&arena, input, &options).descendants().map(|n| read_node(n)).collect()
}

/// The HTML that the engine writes for `input`, parsed with the four
/// extensions switched on or off, after the node at each place in document
/// order got the edit at that place in `edits`. Nodes past the end of `edits`
/// stay as they are.
pub uninterp spec fn edited_html(
    input: Seq<char>,
    strikethrough: bool,
    table: bool,
    autolink: bool,
    tasklist: bool,
    edits: Seq<EditText>,
) -> Seq<char>;

/// `comrak::parse_document` as in `read_document`, then `apply_edit` on each
/// node that `descendants` yields with the edit at its place, then
/// `comrak::format_html` into a string. Writing into a string does not fail.
/// Only a code block may be made raw: a code block has no children, while the
/// formatter still writes the children of any other node behind the raw
/// text, and stops on a table row or a node with children that was made raw.
/// The text is a function of the source, the four switches and the edits
/// alone.
#[verifier::external_body]
pub(crate) fn format_edited(
    input: &str,
    strikethrough: bool,
    table: bool,
    autolink: bool,
    tasklist: bool,
    edits: &Vec<NodeEdit>,
) -> (r: String)
    requires
        forall|i: int|
            0 <= i < edits@.len() && edits@[i] is Raw ==> i < document_nodes(
                input@,
                strikethrough,
                table,
                autolink,
                tasklist,
            ).len() && document_nodes(input@, strikethrough, table, autolink, tasklist)[i]
                is CodeBlock,
    ensures
        r@ == edited_html(input@, strikethrough, table, autolink, tasklist, edit_views(edits@)),
{
    let arena = comrak::Arena::new();
    let mut options = comrak::Options::default();
    options.extension.strikethrough = strikethrough;
    options.extension.table = table;
    options.extension.autolink = autolink;
    options.extension.tasklist = tasklist;
    let root = comrak::parse_document(&arena, input, &options);
    root.descendants().zip(edits.iter()).for_each(|(n, e)| apply_edit(n, e));
    let mut out = String::new();
    let _ = comrak::format_html(root, &options, &mut out);
    out
}

/// `Node::descendants`: the node and all nodes below it, in document order,
/// a parent before its children. Nothing is claimed of the list.
#[verifier::external_body]
pub(crate) fn descendants_of<'a>(node: &'a AstNode<'a>) -> Vec<&'a AstNode<'a>> {
    node.descendants().collect()
}

/// For a code block: whether it is fenced, its info string and its contents.
/// `None` for any other node. Nothing is claimed of the answer.
#[verifier::external_body]
pub(crate) fn code_block_of<'a>(node: &'a AstNode<'a>) -> Option<(bool, String, String)> {
    match &node.data.borrow().value {
        NodeValue::CodeBlock(b) => Some((b.fenced, b.info.clone(), b.literal.clone())),
        _ => None,
    }
}

/// For a link or an image: its URL. `None` for any other node. Nothing is
/// claimed of the answer.
#[verifier::external_body]
pub(crate) fn link_url_of<'a>(node: &'a AstNode<'a>) -> Option<String> {
    match &node.data.borrow().value {
        NodeValue::Link(l) => Some(l.url.clone()),
        NodeValue::Image(l) => Some(l.url.clone()),
        _ => None,
    }
}

/// For a heading: its level. `None` for any other node. Nothing is claimed
/// of the answer.
#[verifier::external_body]
pub(crate) fn heading_level_of<'a>(node: &'a AstNode<'a>) -> Option<u8> {
    match &node.data.borrow().value {
        NodeValue::Heading(h) => Some(h.level),
        _ => None,
    }
}

/// Tells text, code spans and line breaks apart from the other nodes, and
/// hands out the text that the first two carry. Nothing is claimed of the
/// answer.
#[verifier::external_body]
pub(crate) fn inline_text_of<'a>(node: &'a AstNode<'a>) -> InlineText {
    match &node.data.borrow().value {
        NodeValue::Text(s) => InlineText::Text(s.to_string()),
        NodeValue::Code(c) => InlineText::Code(c.literal.clone()),
        NodeValue::SoftBreak => InlineText::Break,
        NodeValue::LineBreak => InlineText::Break,
        _ => InlineText::Other,
    }
}

/// Makes the node a raw node that holds `html`, which the formatter writes
/// out as it is.
#[verifier::external_body]
pub(crate) fn replace_with_raw<'a>(node: &'a AstNode<'a>, html: String) {
    node.data.borrow_mut().value = NodeValue::Raw(html);
}

/// Sets the URL of a link or an image; any other node is left as it is.
#[verifier::external_body]
pub(crate) fn set_link_url<'a>(node: &'a AstNode<'a>, url: String) {
    match &mut node.data.borrow_mut().value {
        NodeValue::Link(l) => l.url = url,
        NodeValue::Image(l) => l.url = url,
        _ => {},
    }
}

/// Reads out of a node, piece by piece, what the renderer decides on: for a
/// heading its level and the inline nodes below it. See `node_from_parts`.
pub(crate) fn read_node<'a>(node: &'a AstNode<'a>) -> DocNode {
    let heading = match heading_level_of(node) {
        Some(level) => {
            let below = descendants_of(node);
            let mut pieces: Vec<InlineText> = Vec::new();
            let mut j: usize = 1;
            while j < below.len()
                invariant
                    1 <= j,
                decreases below.len() - j,
            {
                pieces.push(inline_text_of(below[j]));
                j += 1;
            }
            Some((level, pieces))
        },
        None => None,
    };
    node_from_parts(code_block_of(node), link_url_of(node), heading)
}

/// What the renderer reads of a node, from the pieces that were read of it:
/// a code block where there is one, else a link or an image, else a heading,
/// else any other node.
pub open spec fn node_of_parts(
    code: Option<(bool, String, String)>,
    url: Option<String>,
    heading: Option<(u8, Vec<InlineText>)>,
) -> DocNode {
    match code {
        Some((fenced, info, literal)) => DocNode::CodeBlock { fenced, info, literal },
        None => match url {
            Some(url) => DocNode::Link { url },
            None => match heading {
                Some((level, pieces)) => DocNode::Heading { level, pieces },
                None => DocNode::Other,
            },
        },
    }
}

/// Puts together what the renderer reads of a node from the pieces that were
/// read of it.
pub fn node_from_parts(
    code: Option<(bool, String, String)>,
    url: Option<String>,
    heading: Option<(u8, Vec<InlineText>)>,
) -> (r: DocNode)
    ensures
        r == node_of_parts(code, url, heading),
{
    match code {
        Some((fenced, info, literal)) => DocNode::CodeBlock { fenced, info, literal },
        None => match url {
            Some(url) => DocNode::Link { url },
            None => match heading {
                Some((level, pieces)) => DocNode::Heading { level, pieces },
                None => DocNode::Other,
            },
        },
    }
}

/// Does to a node what an edit says.
pub(crate) fn apply_edit<'a>(node: &'a AstNode<'a>, edit: &NodeEdit) {
    match edit {
        NodeEdit::Keep => {},
        NodeEdit::Raw(html) => {
            replace_with_raw(node, html.clone());
        },
        NodeEdit::Url(url) => {
            set_link_url(node, url.clone());
        },
    }
}

} // verus!
