//! The event alphabet consumed by the tree builder, and the errors the
//! builder can report.

use vstd::prelude::*;

verus! {

/// One unit of a tokenized markup stream.
///
/// An element start carries the local tag name and the attribute list in
/// document order; duplicate attribute names are allowed here and resolved
/// by the builder (first occurrence wins). Comments, CDATA markers,
/// whitespace-only runs and processing instructions all arrive as
/// [`Event::Trivia`]: the builder ignores them uniformly.
#[derive(Clone, Debug, PartialEq)]
pub enum Event {
    StartDocument,
    EndDocument,
    StartElement { name: String, attributes: Vec<(String, String)> },
    EndElement { name: String },
    Text(String),
    Trivia,
}

/// Why a parse failed. The first violation aborts the whole parse; no
/// partial tree is ever returned.
#[derive(Clone, Debug, PartialEq)]
pub enum ParseError {
    /// The upstream tokenizer could not produce a well-formed event
    /// stream; carries the tokenizer's diagnostic.
    TokenizeFailure(String),
    /// A document-start marker appeared after the document had already
    /// started (a second one at any nesting level).
    UnexpectedDocumentStart,
    /// A document-end marker appeared while an element was still open.
    UnexpectedDocumentBoundary,
    /// Character data appeared at the top level, outside any element.
    TextOutsideElement,
    /// An element-end appeared with no corresponding open element.
    UnmatchedEndElement,
    /// An element-end's name does not match the currently open element.
    MismatchedEndElement { expected: String, found: String },
    /// The event sequence was exhausted while an element was still open,
    /// or before a document-end was ever read.
    PrematureEnd,
    /// Element nesting went deeper than the builder's fixed bound.
    DepthExceeded,
}

} // verus!
