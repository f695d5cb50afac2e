//! The library's error type.

use vstd::prelude::*;

use crate::prompt::Prompt;

verus! {

/// Everything a vault operation can fail with.
///
/// Configuration errors ([`Error::NoAIDriver`]) and path-domain errors
/// ([`Error::PathNotInVaultRoot`], [`Error::VaultAlreadyContainsPath`],
/// [`Error::PathNotFound`]) are precondition-style failures; I/O and cache
/// errors are surfaced by the unverified shell that performs the actual
/// filesystem work.
#[derive(Clone, Debug)]
pub enum Error {
    /// A filesystem operation failed; the payload describes it.
    Io(String),
    /// The cache snapshot could not be decoded.
    CacheCorrupt(String),
    /// No parser is registered for the file's extension; the payload is the
    /// offending path.
    UnsupportedFileType(String),
    /// The path (first payload) is not strictly inside the vault root
    /// (second payload).
    PathNotInVaultRoot(String, String),
    /// An entry already exists for the path.
    VaultAlreadyContainsPath(String),
    /// No embedding provider is attached to the vault.
    NoAIDriver,
    /// No entry exists for the path.
    PathNotFound(String),
    /// The entry carries no embedding.
    NoEmbedding(String),
    /// The entry's content type carries no embedding concept.
    NotEmbeddable(String),
    /// A placeholder key had no binding in the context.
    InvalidContextKey(String),
    /// The provider's embedding response could not be decoded.
    InvalidEmbeddingResponse(String),
    /// The prompt's character budget exceeds the model's token limit.
    PromptExceedsModelTokenLimit(Prompt),
}

/// The mathematical model of an error.
pub ghost enum ErrorView {
    Io(Seq<char>),
    CacheCorrupt(Seq<char>),
    UnsupportedFileType(Seq<char>),
    PathNotInVaultRoot(Seq<char>, Seq<char>),
    VaultAlreadyContainsPath(Seq<char>),
    NoAIDriver,
    PathNotFound(Seq<char>),
    NoEmbedding(Seq<char>),
    NotEmbeddable(Seq<char>),
    InvalidContextKey(Seq<char>),
    InvalidEmbeddingResponse(Seq<char>),
    PromptExceedsModelTokenLimit(crate::prompt::PromptView),
}

impl View for Error {
    type V = ErrorView;

    open spec fn view(&self) -> ErrorView {
        match self {
            Error::Io(s) => ErrorView::Io(s@),
            Error::CacheCorrupt(s) => ErrorView::CacheCorrupt(s@),
            Error::UnsupportedFileType(s) => ErrorView::UnsupportedFileType(s@),
            Error::PathNotInVaultRoot(p, r) => ErrorView::PathNotInVaultRoot(p@, r@),
            Error::VaultAlreadyContainsPath(s) => ErrorView::VaultAlreadyContainsPath(s@),
            Error::NoAIDriver => ErrorView::NoAIDriver,
            Error::PathNotFound(s) => ErrorView::PathNotFound(s@),
            Error::NoEmbedding(s) => ErrorView::NoEmbedding(s@),
            Error::NotEmbeddable(s) => ErrorView::NotEmbeddable(s@),
            Error::InvalidContextKey(s) => ErrorView::InvalidContextKey(s@),
            Error::InvalidEmbeddingResponse(s) => ErrorView::InvalidEmbeddingResponse(s@),
            Error::PromptExceedsModelTokenLimit(p) => ErrorView::PromptExceedsModelTokenLimit(p@),
        }
    }
}

} // verus!
