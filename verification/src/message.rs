//! The errors as text: one line for each, which callers may show and
//! compare.

use vstd::prelude::*;
use vstd::string::StringSliceAdditionalSpecFns;
use crate::bytes::extend;
use crate::error::{Context, Error, ErrorView, Found, FoundView};
use crate::text::{decimal, hex, text_chars, to_text, write_decimal, write_hex};

verus! {

/// What was found, as text: a name as it is, a token as the hexadecimal
/// digits of its bytes.
pub open spec fn found_text(f: FoundView) -> Seq<u8> {
    match f {
        FoundView::Token(t) => hex(t.bytes()),
        FoundView::Name(n) => n,
    }
}

/// The line of text for an error.
pub open spec fn message(e: ErrorView) -> Seq<u8> {
    match e {
        ErrorView::Unexpected(f) => "unexpected ".spec_bytes() + found_text(f),
        ErrorView::EarlyEnd => "unexpected end of input".spec_bytes(),
        ErrorView::ExpectedChar(c) => "expected ".spec_bytes() + seq![c],
        ErrorView::MultiColon(s) => "multiple instances of : in ".spec_bytes() + s,
        ErrorView::NonTopLevel(s) => "not a top-level fragment: ".spec_bytes() + s,
        ErrorView::Trailing(s) => "trailing text: ".spec_bytes() + s,
        ErrorView::Unprintable(b) => "unprintable character 0x".spec_bytes() + hex(seq![b]),
        ErrorView::NonMinimalPush => "non-minimal push".spec_bytes(),
        ErrorView::InvalidPush => "invalid push".spec_bytes(),
        ErrorView::NonMinimalNumber => "non-minimal number".spec_bytes(),
        ErrorView::NumberOverflow => "number too large".spec_bytes(),
        ErrorView::InvalidOpcode(op) => "invalid opcode ".spec_bytes() + decimal(op as nat),
        ErrorView::TypeCheck(s) => "typecheck: ".spec_bytes() + s,
        ErrorView::MissingExt => "wrapper without a fragment".spec_bytes(),
        ErrorView::AtOutsideOr(s) => "@ outside a disjunction in ".spec_bytes() + s,
        ErrorView::BadDescriptor => "could not create a descriptor".spec_bytes(),
        ErrorView::CmsTooManyKeys(n) => "checkmultisig with ".spec_bytes() + decimal(n as nat)
            + " keys".spec_bytes(),
        ErrorView::ContextError(c) => match c {
            Context::Depth => "fragments nested too deep".spec_bytes(),
            Context::ScriptSize => "script too long for a push".spec_bytes(),
        },
        ErrorView::CouldNotSatisfy => "could not satisfy".spec_bytes(),
        ErrorView::MissingSig(k) => "missing signature for key ".spec_bytes() + hex(k.bytes@),
    }
}

/// A vector with the bytes of `s`.
fn start(s: &str) -> (r: Vec<u8>)
    ensures
        r@ == s.spec_bytes(),
{
    let mut out: Vec<u8> = Vec::new();
    extend(&mut out, s.as_bytes());
    out
}

/// The bytes of `s` with `tail` behind them.
fn with_tail(s: &str, tail: &[u8]) -> (r: Vec<u8>)
    ensures
        r@ == s.spec_bytes() + tail@,
{
    let mut out = start(s);
    extend(&mut out, tail);
    out
}

impl Error {
    /// The line of text for the error, in bytes.
    pub fn message(&self) -> (r: Vec<u8>)
        ensures
            r@ == message(self@),
    {
        match self {
            Error::Unexpected(f) => match f {
                Found::Token(t) => {
                    let mut bytes: Vec<u8> = Vec::new();
                    t.write(&mut bytes);
                    let mut out = start("unexpected ");
                    write_hex(&mut out, bytes.as_slice());
                    out
                },
                Found::Name(n) => with_tail("unexpected ", n.as_slice()),
            },
            Error::EarlyEnd => start("unexpected end of input"),
            Error::ExpectedChar(c) => {
                let mut out = start("expected ");
                out.push(*c);
                out
            },
            Error::MultiColon(s) => with_tail("multiple instances of : in ", s.as_slice()),
            Error::NonTopLevel(s) => with_tail("not a top-level fragment: ", s.as_slice()),
            Error::Trailing(s) => with_tail("trailing text: ", s.as_slice()),
            Error::Unprintable(b) => {
                let mut out = start("unprintable character 0x");
                let mut one: Vec<u8> = Vec::new();
                one.push(*b);
                write_hex(&mut out, one.as_slice());
                out
            },
            Error::NonMinimalPush => start("non-minimal push"),
            Error::InvalidPush => start("invalid push"),
            Error::NonMinimalNumber => start("non-minimal number"),
            Error::NumberOverflow => start("number too large"),
            Error::InvalidOpcode(op) => {
                let mut out = start("invalid opcode ");
                write_decimal(&mut out, *op as u32);
                out
            },
            Error::TypeCheck(s) => with_tail("typecheck: ", s.as_slice()),
            Error::MissingExt => start("wrapper without a fragment"),
            Error::AtOutsideOr(s) => with_tail("@ outside a disjunction in ", s.as_slice()),
            Error::BadDescriptor => start("could not create a descriptor"),
            Error::CmsTooManyKeys(n) => {
                let mut out = start("checkmultisig with ");
                write_decimal(&mut out, *n);
                extend(&mut out, " keys".as_bytes());
                out
            },
            Error::ContextError(c) => match c {
                Context::Depth => start("fragments nested too deep"),
                Context::ScriptSize => start("script too long for a push"),
            },
            Error::CouldNotSatisfy => start("could not satisfy"),
            Error::MissingSig(k) => {
                let mut out = start("missing signature for key ");
                write_hex(&mut out, k.bytes.as_slice());
                out
            },
        }
    }

    /// The line of text for the error.
    pub fn to_string(&self) -> (r: String)
        ensures
            r@ == text_chars(message(self@)),
    {
        to_text(self.message())
    }
}

} // verus!
