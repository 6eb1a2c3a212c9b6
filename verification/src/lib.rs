//! The core of a markdown viewer with two faces. For the local server: URL
//! path resolution, cache validation, link rewriting, heading anchors, the
//! backlinks index, and the HTML that wraps rendered documents and directory
//! listings. For the terminal: the parsed document, its layout in lines, and
//! what each key does to the view.

pub mod text;
pub mod serve;
pub mod paths;
pub mod backlinks;
pub mod html;
pub mod ast;
pub mod markdown;
pub mod listing;
pub mod handler;
pub mod startup;
pub mod parse;
pub mod render;
pub mod viewer;
