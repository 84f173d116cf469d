//! Error taxonomy of the engine.
//!
//! Parse errors abort template registration; resolution and type errors abort
//! the render call in which they occur. No error is recovered from inside the
//! engine: every one is surfaced to the caller.

use vstd::prelude::*;

verus! {

/// Every failure the engine can report, for both parsing and rendering.
#[derive(Debug)]
pub enum FinchError {
    /// A specific character was required but another one was found.
    ExpectedFound(char, char),
    /// A specific character was required but the input ended.
    Expected(char),
    /// A character that cannot start or continue the construct being parsed.
    Unexpected(char),
    /// A dotted path ended in a dot with no property name after it.
    MissingPropName,
    /// A numeric literal with no digits.
    InvalidNumber,
    /// The input ended where more text was required.
    EndOfText,
    /// A close tag named a block that is not open.
    UnexpectedClose(String),
    /// A variable or path segment was not found in the data source.
    PropNotExist(String),
    /// A named template was rendered or included but never registered.
    TemplateNotExist(String),
    /// A block helper parameter is missing or of the wrong kind.
    InvalidArg(i32),
    /// A block name had no helper registered under it.
    HelperNotFound(String),
    /// A path descended through a value that is not an object, or a value
    /// that had to be an object was not one.
    ExpectedObject,
    /// The named block requires a body but none was given.
    ExpectedBody(String),
    /// The named block must not have a body but one was given.
    UnexpectedBody(String),
    /// A chained block follows an `if` but is neither `if` nor `else`;
    /// the unexpected name is carried.
    UnexpectedChain(String),
    /// A called name resolved to a value that is not a function.
    NotCallable(String),
    /// The host reported a failure while running the named function.
    ErrInFunction(String),
    /// The host reported a failure outside any named function; the host's
    /// message is carried.
    External(String),
    /// An ordering comparison was applied to values that are not both numbers.
    NotNumbers,
    /// Template inclusion nested deeper than the render call's depth bound.
    RecursionLimit,
}

/// The mathematical image of a [`FinchError`]: the same cases over sequences
/// of characters, used by contracts.
pub enum ErrV {
    ExpectedFound(char, char),
    Expected(char),
    Unexpected(char),
    MissingPropName,
    InvalidNumber,
    EndOfText,
    UnexpectedClose(Seq<char>),
    PropNotExist(Seq<char>),
    TemplateNotExist(Seq<char>),
    InvalidArg(int),
    HelperNotFound(Seq<char>),
    ExpectedObject,
    ExpectedBody(Seq<char>),
    UnexpectedBody(Seq<char>),
    UnexpectedChain(Seq<char>),
    NotCallable(Seq<char>),
    ErrInFunction(Seq<char>),
    External(Seq<char>),
    NotNumbers,
    RecursionLimit,
}

impl View for FinchError {
    type V = ErrV;

    open spec fn view(&self) -> ErrV {
        match self {
            FinchError::ExpectedFound(e, f) => ErrV::ExpectedFound(*e, *f),
            FinchError::Expected(e) => ErrV::Expected(*e),
            FinchError::Unexpected(c) => ErrV::Unexpected(*c),
            FinchError::MissingPropName => ErrV::MissingPropName,
            FinchError::InvalidNumber => ErrV::InvalidNumber,
            FinchError::EndOfText => ErrV::EndOfText,
            FinchError::UnexpectedClose(n) => ErrV::UnexpectedClose(n@),
            FinchError::PropNotExist(n) => ErrV::PropNotExist(n@),
            FinchError::TemplateNotExist(n) => ErrV::TemplateNotExist(n@),
            FinchError::InvalidArg(i) => ErrV::InvalidArg(*i as int),
            FinchError::HelperNotFound(n) => ErrV::HelperNotFound(n@),
            FinchError::ExpectedObject => ErrV::ExpectedObject,
            FinchError::ExpectedBody(n) => ErrV::ExpectedBody(n@),
            FinchError::UnexpectedBody(n) => ErrV::UnexpectedBody(n@),
            FinchError::UnexpectedChain(n) => ErrV::UnexpectedChain(n@),
            FinchError::NotCallable(n) => ErrV::NotCallable(n@),
            FinchError::ErrInFunction(n) => ErrV::ErrInFunction(n@),
            FinchError::External(m) => ErrV::External(m@),
            FinchError::NotNumbers => ErrV::NotNumbers,
            FinchError::RecursionLimit => ErrV::RecursionLimit,
        }
    }
}

} // verus!
