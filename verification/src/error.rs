//! Error types for the collections, the document buffer, and the
//! server runtime.

use vstd::prelude::*;

verus! {

/// Error raised by the order-statistic aggregate tree.
#[derive(Debug, PartialEq, Eq, Structural)]
pub enum AggAvlTreeError {
    IndexOutOfBounds,
}

/// Error raised by the rope.
#[derive(Debug, PartialEq, Eq, Structural)]
pub enum RopeError {
    IndexOutOfBounds,
}

/// Error raised by the document buffer.
#[derive(Debug, PartialEq, Eq, Structural)]
pub enum DocumentError {
    IndexOutOfBounds,
    RowOutOfBounds,
    ColOutOfBounds,
}

/// Error surfaced by a handler at run time; the dispatch layer turns
/// these into protocol errors for requests and logs them for
/// notifications.
#[derive(Debug)]
pub enum RuntimeError {
    /// A frame declared an encoding this server does not accept.
    UnknownEncoding(String),
    /// A document operation failed.
    DocumentError(DocumentError),
    /// An edit arrived for a document that is not open.
    EditUnopenedDocument(String),
    /// A required member was absent from the payload.
    UnexpectedNone,
    /// A failure with no better classification, such as a document
    /// outgrowing the machine's address range.
    InternalError,
    /// A document URI that does not name a local file.
    UriToPathError(String),
}

} // verus!
