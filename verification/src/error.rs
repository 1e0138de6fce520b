//! What can go wrong while text is taken apart, and the mathematical view of
//! each failure that the contracts speak of.

use vstd::prelude::*;

verus! {

/// The input breaks the grammar at some point. Each variant carries what is
/// needed to locate the fault.
#[derive(Debug, PartialEq, Eq)]
pub enum FormatError {
    /// A block was expected, and the text does not begin with `{`.
    MissingOpeningBrace,
    /// The text ended inside a block; `missing` closing braces would have
    /// been needed to end it.
    UnbalancedBlock { missing: usize },
    /// Text that should hold a pair holds no `=`.
    MissingAssignment,
    /// Nothing but whitespace stands before a `=`.
    EmptyKey,
    /// A key was given a value twice in one scan.
    DuplicateKey { key: String, first: String, second: String },
    /// A token is not the decimal form of an unsigned 32-bit integer.
    InvalidInteger { token: String },
    /// A token is not the decimal form of an unsigned 8-bit integer.
    InvalidByte { token: String },
    /// A record line holds fewer than four fields; `line` counts from zero.
    NotEnoughFields { line: usize },
}

/// The view of a [`FormatError`]: the same fault over sequences of
/// characters and mathematical integers.
pub enum FormatFault {
    MissingOpeningBrace,
    UnbalancedBlock { missing: int },
    MissingAssignment,
    EmptyKey,
    DuplicateKey { key: Seq<char>, first: Seq<char>, second: Seq<char> },
    InvalidInteger { token: Seq<char> },
    InvalidByte { token: Seq<char> },
    NotEnoughFields { line: int },
}

impl View for FormatError {
    type V = FormatFault;

    open spec fn view(&self) -> FormatFault {
        match *self {
            FormatError::MissingOpeningBrace => FormatFault::MissingOpeningBrace,
            FormatError::UnbalancedBlock { missing } => FormatFault::UnbalancedBlock {
                missing: missing as int,
            },
            FormatError::MissingAssignment => FormatFault::MissingAssignment,
            FormatError::EmptyKey => FormatFault::EmptyKey,
            FormatError::DuplicateKey { key, first, second } => FormatFault::DuplicateKey {
                key: key@,
                first: first@,
                second: second@,
            },
            FormatError::InvalidInteger { token } => FormatFault::InvalidInteger { token: token@ },
            FormatError::InvalidByte { token } => FormatFault::InvalidByte { token: token@ },
            FormatError::NotEnoughFields { line } => FormatFault::NotEnoughFields {
                line: line as int,
            },
        }
    }
}

/// Why no list of provinces could be extracted from a text.
#[derive(Debug, PartialEq, Eq)]
pub enum ExtractError {
    /// The text, or a value inside it, breaks the grammar.
    Format(FormatError),
    /// The syntax was sound, but a key that the extraction needs is absent.
    MissingKey { key: String },
}

/// The view of an [`ExtractError`].
pub enum ExtractFault {
    Format(FormatFault),
    MissingKey { key: Seq<char> },
}

impl View for ExtractError {
    type V = ExtractFault;

    open spec fn view(&self) -> ExtractFault {
        match *self {
            ExtractError::Format(e) => ExtractFault::Format(e@),
            ExtractError::MissingKey { key } => ExtractFault::MissingKey { key: key@ },
        }
    }
}

} // verus!
