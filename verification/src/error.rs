//! Error taxonomy. Every error is terminal for the run: the first one stops
//! the remaining checks and the remaining commits.

use vstd::prelude::*;

verus! {

/// Why a single commit message was rejected.
#[derive(Debug, Clone, PartialEq, Eq)]
pub enum CheckError {
    /// The plain grammar was handed an empty message.
    EmptyMessage,
    /// The header does not match `type[(scope)][!]: description`, or the
    /// header is not separated from the body by a blank line.
    Grammar,
    /// The subject does not begin with an uppercase letter.
    Capitalization { subject: String },
    /// The subject holds more grapheme clusters than the limit allows.
    SubjectLength { actual: usize, limit: usize },
    /// Some line holds more grapheme clusters than the limit allows.
    LineLength { actual: usize, limit: usize },
}

/// Why a whole run over a revision expression failed.
#[derive(Debug, Clone, PartialEq, Eq)]
pub enum RunError {
    /// The revision expression does not resolve to commits of the repository.
    Revision { expression: String },
    /// The first commit whose message failed a check, and how.
    Commit { id: String, error: CheckError },
}

} // verus!
