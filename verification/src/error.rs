//! The errors of the library.

use vstd::prelude::*;
use crate::key::PublicKey;
use crate::token::Token;

verus! {

/// What was met where something else was expected.
#[derive(Debug, PartialEq, Eq)]
pub enum Found {
    /// A token of a Script program.
    Token(Token),
    /// A name of the textual form, as its bytes.
    Name(Vec<u8>),
}

/// A limit that an input went beyond.
#[derive(Clone, Copy, Debug, PartialEq, Eq)]
pub enum Context {
    /// Fragments are nested deeper than `MAX_DEPTH`.
    Depth,
    /// A script is longer than a push can hold.
    ScriptSize,
}

/// Why an input was refused, or why a fragment could not be satisfied.
#[derive(Debug, PartialEq, Eq)]
pub enum Error {
    /// A token or a name that no fragment admits at its place.
    Unexpected(Found),
    /// The input ended inside a push, a fragment or an expression.
    EarlyEnd,
    /// The textual form lacks this character.
    ExpectedChar(u8),
    /// A name with more than one `:`.
    MultiColon(Vec<u8>),
    /// A fragment that cannot stand at the top of a script.
    NonTopLevel(Vec<u8>),
    /// Text after a complete expression.
    Trailing(Vec<u8>),
    /// A byte outside printable ASCII.
    Unprintable(u8),
    /// A data push that a shorter opcode could have made.
    NonMinimalPush,
    /// A data push of a length or content that no token has.
    InvalidPush,
    /// A number that is not in its shortest encoding.
    NonMinimalNumber,
    /// A number too large for 32 bits.
    NumberOverflow,
    /// An opcode outside the subset that fragments use.
    InvalidOpcode(u8),
    /// A known fragment with the wrong number or type of children.
    TypeCheck(Vec<u8>),
    /// A wrapper prefix with nothing behind its `:`.
    MissingExt,
    /// A name that holds `@`.
    AtOutsideOr(Vec<u8>),
    /// An envelope where a fragment was expected.
    BadDescriptor,
    /// A multisignature over more than 20 keys.
    CmsTooManyKeys(u32),
    /// A limit of the library was exceeded.
    ContextError(Context),
    /// The satisfier holds too little to satisfy the fragment.
    CouldNotSatisfy,
    /// The satisfier holds no signature for the single key of an envelope.
    MissingSig(PublicKey),
}

/// `Found` with its text as a sequence.
pub enum FoundView {
    Token(Token),
    Name(Seq<u8>),
}

/// `Error` with its texts as sequences.
pub enum ErrorView {
    Unexpected(FoundView),
    EarlyEnd,
    ExpectedChar(u8),
    MultiColon(Seq<u8>),
    NonTopLevel(Seq<u8>),
    Trailing(Seq<u8>),
    Unprintable(u8),
    NonMinimalPush,
    InvalidPush,
    NonMinimalNumber,
    NumberOverflow,
    InvalidOpcode(u8),
    TypeCheck(Seq<u8>),
    MissingExt,
    AtOutsideOr(Seq<u8>),
    BadDescriptor,
    CmsTooManyKeys(u32),
    ContextError(Context),
    CouldNotSatisfy,
    MissingSig(PublicKey),
}

impl View for Found {
    type V = FoundView;

    open spec fn view(&self) -> FoundView {
        match self {
            Found::Token(t) => FoundView::Token(*t),
            Found::Name(n) => FoundView::Name(n@),
        }
    }
}

impl View for Error {
    type V = ErrorView;

    open spec fn view(&self) -> ErrorView {
        match self {
            Error::Unexpected(f) => ErrorView::Unexpected(f@),
            Error::EarlyEnd => ErrorView::EarlyEnd,
            Error::ExpectedChar(c) => ErrorView::ExpectedChar(*c),
            Error::MultiColon(s) => ErrorView::MultiColon(s@),
            Error::NonTopLevel(s) => ErrorView::NonTopLevel(s@),
            Error::Trailing(s) => ErrorView::Trailing(s@),
            Error::Unprintable(b) => ErrorView::Unprintable(*b),
            Error::NonMinimalPush => ErrorView::NonMinimalPush,
            Error::InvalidPush => ErrorView::InvalidPush,
            Error::NonMinimalNumber => ErrorView::NonMinimalNumber,
            Error::NumberOverflow => ErrorView::NumberOverflow,
            Error::InvalidOpcode(op) => ErrorView::InvalidOpcode(*op),
            Error::TypeCheck(s) => ErrorView::TypeCheck(s@),
            Error::MissingExt => ErrorView::MissingExt,
            Error::AtOutsideOr(s) => ErrorView::AtOutsideOr(s@),
            Error::BadDescriptor => ErrorView::BadDescriptor,
            Error::CmsTooManyKeys(n) => ErrorView::CmsTooManyKeys(*n),
            Error::ContextError(c) => ErrorView::ContextError(*c),
            Error::CouldNotSatisfy => ErrorView::CouldNotSatisfy,
            Error::MissingSig(k) => ErrorView::MissingSig(*k),
        }
    }
}

} // verus!
