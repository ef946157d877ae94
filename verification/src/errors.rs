use vstd::prelude::*;

verus! {

/// The ways compiling a pattern, running a match, or reading a result can
/// fail. A subject that simply does not match is not one of them: that is an
/// ordinary result, reported through `MatchResult::matched`.
#[derive(Debug, PartialEq, Eq)]
pub enum Error {
    /// The engine rejected the pattern's syntax: its message, and the byte
    /// offset into the pattern that it points at (zero when it gives none).
    CompileError { message: String, offset: usize },
    /// A capture accessor that needs a successful match was used on a result
    /// that holds none.
    NoMatch,
    /// The requested position does not exist in this result's extracted
    /// substring sequence.
    IndexOutOfRange,
    /// The pattern has no capturing group of the requested name.
    UnknownGroupName,
    /// The engine reported offsets that do not fit the subject: out of
    /// bounds, reversed, or splitting a multi-byte character.
    ExtractionError,
}

} // verus!
