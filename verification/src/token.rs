//! The tokens of a Script program and the lexer that reads them.
//!
//! A token stands for one opcode, or for an opcode together with the data it
//! pushes. Every token has exactly one encoding, so a program that the lexer
//! accepts is the concatenation of the encodings of its tokens.

use vstd::prelude::*;
use crate::bytes::{array20, array32, array_of, lemma_array_of, lemma_array_of_view, slice_eq};
use crate::error::Error;
use crate::key::PublicKey;
use crate::primitives::is_curve_point;
use crate::script::{
    number_bytes, number_to_bytes, push_number, write_number, OP_0, OP_0NOTEQUAL, OP_1, OP_16,
    OP_ADD, OP_BOOLAND, OP_BOOLOR, OP_CHECKMULTISIG, OP_CHECKMULTISIGVERIFY, OP_CHECKSIG,
    OP_CHECKSIGVERIFY, OP_CLTV, OP_CSV, OP_DROP, OP_DUP, OP_ELSE, OP_ENDIF, OP_EQUAL,
    OP_EQUALVERIFY, OP_FROMALTSTACK, OP_HASH256, OP_IF, OP_IFDUP, OP_NOTIF, OP_PUSHDATA1,
    OP_PUSHDATA2, OP_PUSHDATA4, OP_SIZE, OP_SWAP, OP_TOALTSTACK, OP_TUCK, OP_VERIFY,
};

verus! {

/// One token of a Script program.
#[derive(Clone, Copy, Debug, PartialEq, Eq)]
pub enum Token {
    BoolAnd,
    BoolOr,
    Add,
    Equal,
    EqualVerify,
    CheckSig,
    CheckSigVerify,
    CheckMultiSig,
    CheckMultiSigVerify,
    CheckSequenceVerify,
    CheckLockTimeVerify,
    FromAltStack,
    ToAltStack,
    Drop,
    Dup,
    If,
    IfDup,
    NotIf,
    Else,
    EndIf,
    ZeroNotEqual,
    Size,
    Swap,
    Tuck,
    Verify,
    /// `OP_HASH256` followed by the push of a 32-byte hash.
    Hash256([u8; 32]),
    /// A number below 2^31, pushed in its shortest form.
    Number(u32),
    /// The push of a compressed public key.
    Pubkey(PublicKey),
    /// The push of 20 bytes.
    Hash20([u8; 20]),
    /// The push of 32 bytes that no `OP_HASH256` precedes.
    Hash32([u8; 32]),
}

/// The token of an opcode that stands for itself.
pub open spec fn op_token(op: u8) -> Option<Token> {
    if op == OP_BOOLAND {
        Some(Token::BoolAnd)
    } else if op == OP_BOOLOR {
        Some(Token::BoolOr)
    } else if op == OP_ADD {
        Some(Token::Add)
    } else if op == OP_EQUAL {
        Some(Token::Equal)
    } else if op == OP_EQUALVERIFY {
        Some(Token::EqualVerify)
    } else if op == OP_CHECKSIG {
        Some(Token::CheckSig)
    } else if op == OP_CHECKSIGVERIFY {
        Some(Token::CheckSigVerify)
    } else if op == OP_CHECKMULTISIG {
        Some(Token::CheckMultiSig)
    } else if op == OP_CHECKMULTISIGVERIFY {
        Some(Token::CheckMultiSigVerify)
    } else if op == OP_CSV {
        Some(Token::CheckSequenceVerify)
    } else if op == OP_CLTV {
        Some(Token::CheckLockTimeVerify)
    } else if op == OP_FROMALTSTACK {
        Some(Token::FromAltStack)
    } else if op == OP_TOALTSTACK {
        Some(Token::ToAltStack)
    } else if op == OP_DROP {
        Some(Token::Drop)
    } else if op == OP_DUP {
        Some(Token::Dup)
    } else if op == OP_IF {
        Some(Token::If)
    } else if op == OP_IFDUP {
        Some(Token::IfDup)
    } else if op == OP_NOTIF {
        Some(Token::NotIf)
    } else if op == OP_ELSE {
        Some(Token::Else)
    } else if op == OP_ENDIF {
        Some(Token::EndIf)
    } else if op == OP_0NOTEQUAL {
        Some(Token::ZeroNotEqual)
    } else if op == OP_SIZE {
        Some(Token::Size)
    } else if op == OP_SWAP {
        Some(Token::Swap)
    } else if op == OP_TUCK {
        Some(Token::Tuck)
    } else if op == OP_VERIFY {
        Some(Token::Verify)
    } else {
        None
    }
}

impl Token {
    /// The bytes of the token in a program.
    pub open spec fn bytes(self) -> Seq<u8> {
        match self {
            Token::BoolAnd => seq![OP_BOOLAND],
            Token::BoolOr => seq![OP_BOOLOR],
            Token::Add => seq![OP_ADD],
            Token::Equal => seq![OP_EQUAL],
            Token::EqualVerify => seq![OP_EQUALVERIFY],
            Token::CheckSig => seq![OP_CHECKSIG],
            Token::CheckSigVerify => seq![OP_CHECKSIGVERIFY],
            Token::CheckMultiSig => seq![OP_CHECKMULTISIG],
            Token::CheckMultiSigVerify => seq![OP_CHECKMULTISIGVERIFY],
            Token::CheckSequenceVerify => seq![OP_CSV],
            Token::CheckLockTimeVerify => seq![OP_CLTV],
            Token::FromAltStack => seq![OP_FROMALTSTACK],
            Token::ToAltStack => seq![OP_TOALTSTACK],
            Token::Drop => seq![OP_DROP],
            Token::Dup => seq![OP_DUP],
            Token::If => seq![OP_IF],
            Token::IfDup => seq![OP_IFDUP],
            Token::NotIf => seq![OP_NOTIF],
            Token::Else => seq![OP_ELSE],
            Token::EndIf => seq![OP_ENDIF],
            Token::ZeroNotEqual => seq![OP_0NOTEQUAL],
            Token::Size => seq![OP_SIZE],
            Token::Swap => seq![OP_SWAP],
            Token::Tuck => seq![OP_TUCK],
            Token::Verify => seq![OP_VERIFY],
            Token::Hash256(h) => seq![OP_HASH256, 32u8] + h@,
            Token::Number(n) => push_number(n as nat),
            Token::Pubkey(k) => seq![33u8] + k.bytes@,
            Token::Hash20(h) => seq![20u8] + h@,
            Token::Hash32(h) => seq![32u8] + h@,
        }
    }

    /// A number that tells the tokens without data apart: the first byte of
    /// the token.
    pub open spec fn spec_code(self) -> u8 {
        match self {
            Token::Number(_) => 0,
            _ => self.bytes()[0],
        }
    }

    /// Whether the token is an opcode alone.
    pub open spec fn is_op(self) -> bool {
        match self {
            Token::Hash256(_) | Token::Number(_) | Token::Pubkey(_) | Token::Hash20(_)
            | Token::Hash32(_) => false,
            _ => true,
        }
    }

    /// Opcodes are told apart by their code.
    pub proof fn lemma_code(self, other: Token)
        requires
            other.is_op(),
        ensures
            (self == other) <==> (self.is_op() && self.spec_code() == other.spec_code()),
    {
    }

    /// Whether the token is an opcode alone.
    pub fn op(&self) -> (r: bool)
        ensures
            r == self.is_op(),
    {
        match self {
            Token::Hash256(_) | Token::Number(_) | Token::Pubkey(_) | Token::Hash20(_)
            | Token::Hash32(_) => false,
            _ => true,
        }
    }

    /// The first byte of the token, 0 for a number.
    pub fn code(&self) -> (r: u8)
        ensures
            r == self.spec_code(),
    {
        match self {
            Token::BoolAnd => OP_BOOLAND,
            Token::BoolOr => OP_BOOLOR,
            Token::Add => OP_ADD,
            Token::Equal => OP_EQUAL,
            Token::EqualVerify => OP_EQUALVERIFY,
            Token::CheckSig => OP_CHECKSIG,
            Token::CheckSigVerify => OP_CHECKSIGVERIFY,
            Token::CheckMultiSig => OP_CHECKMULTISIG,
            Token::CheckMultiSigVerify => OP_CHECKMULTISIGVERIFY,
            Token::CheckSequenceVerify => OP_CSV,
            Token::CheckLockTimeVerify => OP_CLTV,
            Token::FromAltStack => OP_FROMALTSTACK,
            Token::ToAltStack => OP_TOALTSTACK,
            Token::Drop => OP_DROP,
            Token::Dup => OP_DUP,
            Token::If => OP_IF,
            Token::IfDup => OP_IFDUP,
            Token::NotIf => OP_NOTIF,
            Token::Else => OP_ELSE,
            Token::EndIf => OP_ENDIF,
            Token::ZeroNotEqual => OP_0NOTEQUAL,
            Token::Size => OP_SIZE,
            Token::Swap => OP_SWAP,
            Token::Tuck => OP_TUCK,
            Token::Verify => OP_VERIFY,
            Token::Hash256(_) => OP_HASH256,
            Token::Number(_) => 0,
            Token::Pubkey(_) => 33,
            Token::Hash20(_) => 20,
            Token::Hash32(_) => 32,
        }
    }

    /// Appends the token to a program.
    pub fn write(&self, out: &mut Vec<u8>)
        ensures
            final(out)@ == old(out)@ + self.bytes(),
    {
        let ghost before = out@;
        match self {
            Token::BoolAnd => out.push(OP_BOOLAND),
            Token::BoolOr => out.push(OP_BOOLOR),
            Token::Add => out.push(OP_ADD),
            Token::Equal => out.push(OP_EQUAL),
            Token::EqualVerify => out.push(OP_EQUALVERIFY),
            Token::CheckSig => out.push(OP_CHECKSIG),
            Token::CheckSigVerify => out.push(OP_CHECKSIGVERIFY),
            Token::CheckMultiSig => out.push(OP_CHECKMULTISIG),
            Token::CheckMultiSigVerify => out.push(OP_CHECKMULTISIGVERIFY),
            Token::CheckSequenceVerify => out.push(OP_CSV),
            Token::CheckLockTimeVerify => out.push(OP_CLTV),
            Token::FromAltStack => out.push(OP_FROMALTSTACK),
            Token::ToAltStack => out.push(OP_TOALTSTACK),
            Token::Drop => out.push(OP_DROP),
            Token::Dup => out.push(OP_DUP),
            Token::If => out.push(OP_IF),
            Token::IfDup => out.push(OP_IFDUP),
            Token::NotIf => out.push(OP_NOTIF),
            Token::Else => out.push(OP_ELSE),
            Token::EndIf => out.push(OP_ENDIF),
            Token::ZeroNotEqual => out.push(OP_0NOTEQUAL),
            Token::Size => out.push(OP_SIZE),
            Token::Swap => out.push(OP_SWAP),
            Token::Tuck => out.push(OP_TUCK),
            Token::Verify => out.push(OP_VERIFY),
            Token::Hash256(h) => {
                out.push(OP_HASH256);
                out.push(32u8);
                crate::bytes::extend(out, h.as_slice());
            },
            Token::Number(n) => {
                write_number(out, *n);
            },
            Token::Pubkey(k) => {
                out.push(33u8);
                crate::bytes::extend(out, k.bytes.as_slice());
            },
            Token::Hash20(h) => {
                out.push(20u8);
                crate::bytes::extend(out, h.as_slice());
            },
            Token::Hash32(h) => {
                out.push(32u8);
                crate::bytes::extend(out, h.as_slice());
            },
        }
        assert(out@ =~= before + self.bytes());
    }
}

/// The program made of the tokens `ts`.
pub open spec fn tokens_bytes(ts: Seq<Token>) -> Seq<u8>
    decreases ts.len(),
{
    if ts.len() == 0 {
        Seq::empty()
    } else {
        tokens_bytes(ts.drop_last()) + ts.last().bytes()
    }
}

/// The program of a concatenation is the concatenation of the programs.
pub proof fn lemma_tokens_bytes_concat(a: Seq<Token>, b: Seq<Token>)
    ensures
        tokens_bytes(a + b) == tokens_bytes(a) + tokens_bytes(b),
    decreases b.len(),
{
    if b.len() == 0 {
        assert(a + b == a);
    } else {
        lemma_tokens_bytes_concat(a, b.drop_last());
        assert((a + b).drop_last() == a + b.drop_last());
        assert((a + b).last() == b.last());
    }
}

/// The program of a single token.
pub proof fn lemma_tokens_bytes_one(t: Token)
    ensures
        tokens_bytes(seq![t]) == t.bytes(),
{
    assert(seq![t].drop_last() == Seq::<Token>::empty());
    assert(tokens_bytes(seq![t]) == tokens_bytes(Seq::<Token>::empty()) + t.bytes());
}

/// Writes the program made of `ts`.
pub fn write_tokens(ts: &[Token]) -> (r: Vec<u8>)
    ensures
        r@ == tokens_bytes(ts@),
{
    let mut out: Vec<u8> = Vec::new();
    let mut i: usize = 0;
    while i < ts.len()
        invariant
            i <= ts.len(),
            out@ == tokens_bytes(ts@.subrange(0, i as int)),
        decreases ts.len() - i,
    {
        ts[i].write(&mut out);
        assert(ts@.subrange(0, i + 1).drop_last() == ts@.subrange(0, i as int));
        i += 1;
    }
    assert(ts@.subrange(0, i as int) == ts@);
    out
}

/// The number that up to four bytes spell, least significant byte first.
pub open spec fn le_value(d: Seq<u8>) -> nat {
    (if d.len() > 0 {
        d[0] as nat
    } else {
        0
    }) + (if d.len() > 1 {
        d[1] as nat * 0x100
    } else {
        0
    }) + (if d.len() > 2 {
        d[2] as nat * 0x10000
    } else {
        0
    }) + (if d.len() > 3 {
        d[3] as nat * 0x1000000
    } else {
        0
    })
}

/// The token of a data push of `d`, where `1 <= d.len() < 0x4c`.
pub open spec fn push_token(d: Seq<u8>) -> Result<Token, Error> {
    if d.len() == 20 {
        Ok(Token::Hash20(array_of::<20>(d)))
    } else if d.len() == 32 {
        Ok(Token::Hash32(array_of::<32>(d)))
    } else if d.len() == 33 {
        if is_curve_point(d) {
            Ok(Token::Pubkey(PublicKey::of(d)))
        } else {
            Err(Error::InvalidPush)
        }
    } else if 1 <= d.len() <= 4 {
        if d.last() >= 0x80 {
            Err(Error::InvalidPush)
        } else if le_value(d) > 16 && number_bytes(le_value(d)) == d {
            Ok(Token::Number(le_value(d) as u32))
        } else {
            Err(Error::NonMinimalNumber)
        }
    } else {
        Err(Error::InvalidPush)
    }
}

/// The token that starts at byte `i` of `s`, with the number of bytes it
/// takes after its first.
pub open spec fn lex_one(s: Seq<u8>, i: int) -> Result<(Token, nat), Error> {
    let op = s[i];
    let rest = s.len() - i - 1;
    if op == OP_0 {
        Ok((Token::Number(0), 0nat))
    } else if op < OP_PUSHDATA1 {
        if rest < op {
            Err(Error::EarlyEnd)
        } else {
            match push_token(s.subrange(i + 1, i + 1 + op)) {
                Ok(t) => Ok((t, op as nat)),
                Err(e) => Err(e),
            }
        }
    } else if op == OP_PUSHDATA1 {
        if rest < 1 {
            Err(Error::EarlyEnd)
        } else if s[i + 1] < 0x4c {
            Err(Error::NonMinimalPush)
        } else if rest < 1 + s[i + 1] {
            Err(Error::EarlyEnd)
        } else {
            Err(Error::InvalidPush)
        }
    } else if op == OP_PUSHDATA2 {
        if rest < 2 {
            Err(Error::EarlyEnd)
        } else if s[i + 2] == 0 {
            Err(Error::NonMinimalPush)
        } else if rest < 2 + s[i + 1] + s[i + 2] * 0x100 {
            Err(Error::EarlyEnd)
        } else {
            Err(Error::InvalidPush)
        }
    } else if op == OP_PUSHDATA4 {
        if rest < 4 {
            Err(Error::EarlyEnd)
        } else if s[i + 3] == 0 && s[i + 4] == 0 {
            Err(Error::NonMinimalPush)
        } else if rest < 4 + s[i + 1] + s[i + 2] * 0x100 + s[i + 3] * 0x10000 + s[i + 4]
            * 0x1000000 {
            Err(Error::EarlyEnd)
        } else {
            Err(Error::InvalidPush)
        }
    } else if OP_1 <= op <= OP_16 {
        Ok((Token::Number((op - 0x50) as u32), 0nat))
    } else if op == OP_HASH256 {
        if rest >= 1 && s[i + 1] == 32 {
            if rest < 33 {
                Err(Error::EarlyEnd)
            } else {
                Ok((Token::Hash256(array_of::<32>(s.subrange(i + 2, i + 34))), 33nat))
            }
        } else {
            Err(Error::InvalidOpcode(op))
        }
    } else {
        match op_token(op) {
            Some(t) => Ok((t, 0nat)),
            None => Err(Error::InvalidOpcode(op)),
        }
    }
}

/// The tokens of `s` from byte `i` on, or the first error met.
pub open spec fn lex_from(s: Seq<u8>, i: int) -> Result<Seq<Token>, Error>
    decreases s.len() - i,
{
    if i < 0 || i >= s.len() {
        Ok(Seq::empty())
    } else {
        match lex_one(s, i) {
            Err(e) => Err(e),
            Ok((t, extra)) => match lex_from(s, i + 1 + extra) {
                Err(e) => Err(e),
                Ok(rest) => Ok(seq![t] + rest),
            },
        }
    }
}

/// The tokens of the program `s`, or why it has none.
pub open spec fn lex_tokens(s: Seq<u8>) -> Result<Seq<Token>, Error> {
    lex_from(s, 0)
}

/// `ts` followed by the tokens that `r` holds, or the error of `r`.
pub open spec fn prepend(ts: Seq<Token>, r: Result<Seq<Token>, Error>) -> Result<
    Seq<Token>,
    Error,
> {
    match r {
        Ok(rest) => Ok(ts + rest),
        Err(e) => Err(e),
    }
}

/// A token that the lexer reads spells exactly the bytes it was read from.
pub proof fn lemma_lex_one_sound(s: Seq<u8>, i: int)
    requires
        0 <= i < s.len(),
        lex_one(s, i) is Ok,
    ensures
        i + 1 + lex_one(s, i)->Ok_0.1 <= s.len(),
        lex_one(s, i)->Ok_0.0.bytes() == s.subrange(i, i + 1 + lex_one(s, i)->Ok_0.1),
{
    let op = s[i];
    let (t, extra) = lex_one(s, i)->Ok_0;
    if op == OP_0 {
        assert(t.bytes() =~= s.subrange(i, i + 1));
    } else if op < OP_PUSHDATA1 {
        let d = s.subrange(i + 1, i + 1 + op);
        if d.len() == 20 {
            lemma_array_of_view::<20>(d);
        } else if d.len() == 32 {
            lemma_array_of_view::<32>(d);
        } else if d.len() == 33 {
            lemma_array_of_view::<33>(d);
        } else {
        }
        assert(t.bytes() =~= s.subrange(i, i + 1 + extra));
    } else if OP_1 <= op <= OP_16 {
        assert(t.bytes() =~= s.subrange(i, i + 1));
    } else if op == OP_HASH256 {
        lemma_array_of_view::<32>(s.subrange(i + 2, i + 34));
        assert(t.bytes() =~= s.subrange(i, i + 34));
    } else {
        assert(t.bytes() =~= s.subrange(i, i + 1));
    }
}

/// Bit-exactness of the lexer: the tokens it reads from byte `i` on spell
/// exactly those bytes.
pub proof fn lemma_lex_from_sound(s: Seq<u8>, i: int)
    requires
        0 <= i <= s.len(),
        lex_from(s, i) is Ok,
    ensures
        tokens_bytes(lex_from(s, i)->Ok_0) == s.subrange(i, s.len() as int),
    decreases s.len() - i,
{
    if i >= s.len() {
        assert(s.subrange(i, s.len() as int) =~= Seq::<u8>::empty());
    } else {
        let (t, extra) = lex_one(s, i)->Ok_0;
        let next = i + 1 + extra;
        lemma_lex_one_sound(s, i);
        lemma_lex_from_sound(s, next);
        let rest = lex_from(s, next)->Ok_0;
        lemma_tokens_bytes_concat(seq![t], rest);
        lemma_tokens_bytes_one(t);
        assert(s.subrange(i, next) + s.subrange(next, s.len() as int) =~= s.subrange(
            i,
            s.len() as int,
        ));
    }
}

/// Reads the token of a data push.
fn lex_push(d: &[u8]) -> (r: Result<Token, Error>)
    requires
        1 <= d.len() < 0x4c,
    ensures
        r == push_token(d@),
{
    let len = d.len();
    if len == 20 {
        let a = array20(d, 0);
        assert(d@.subrange(0, 20) == d@);
        proof {
            lemma_array_of::<20>(a);
        }
        Ok(Token::Hash20(a))
    } else if len == 32 {
        let a = array32(d, 0);
        assert(d@.subrange(0, 32) == d@);
        proof {
            lemma_array_of::<32>(a);
        }
        Ok(Token::Hash32(a))
    } else if len == 33 {
        match PublicKey::from_slice(d) {
            Some(k) => Ok(Token::Pubkey(k)),
            None => Err(Error::InvalidPush),
        }
    } else if len <= 4 {
        if d[len - 1] >= 0x80 {
            return Err(Error::InvalidPush);
        }
        let mut n: u32 = d[0] as u32;
        if len > 1 {
            n = n + (d[1] as u32) * 0x100;
        }
        if len > 2 {
            n = n + (d[2] as u32) * 0x10000;
        }
        if len > 3 {
            n = n + (d[3] as u32) * 0x1000000;
        }
        assert(n == le_value(d@));
        if n <= 16 {
            return Err(Error::NonMinimalNumber);
        }
        let canonical = number_to_bytes(n);
        if slice_eq(canonical.as_slice(), d) {
            Ok(Token::Number(n))
        } else {
            Err(Error::NonMinimalNumber)
        }
    } else {
        Err(Error::InvalidPush)
    }
}

/// The token of an opcode that stands for itself.
fn lex_op(op: u8) -> (r: Option<Token>)
    ensures
        r == op_token(op),
{
    if op == OP_BOOLAND {
        Some(Token::BoolAnd)
    } else if op == OP_BOOLOR {
        Some(Token::BoolOr)
    } else if op == OP_ADD {
        Some(Token::Add)
    } else if op == OP_EQUAL {
        Some(Token::Equal)
    } else if op == OP_EQUALVERIFY {
        Some(Token::EqualVerify)
    } else if op == OP_CHECKSIG {
        Some(Token::CheckSig)
    } else if op == OP_CHECKSIGVERIFY {
        Some(Token::CheckSigVerify)
    } else if op == OP_CHECKMULTISIG {
        Some(Token::CheckMultiSig)
    } else if op == OP_CHECKMULTISIGVERIFY {
        Some(Token::CheckMultiSigVerify)
    } else if op == OP_CSV {
        Some(Token::CheckSequenceVerify)
    } else if op == OP_CLTV {
        Some(Token::CheckLockTimeVerify)
    } else if op == OP_FROMALTSTACK {
        Some(Token::FromAltStack)
    } else if op == OP_TOALTSTACK {
        Some(Token::ToAltStack)
    } else if op == OP_DROP {
        Some(Token::Drop)
    } else if op == OP_DUP {
        Some(Token::Dup)
    } else if op == OP_IF {
        Some(Token::If)
    } else if op == OP_IFDUP {
        Some(Token::IfDup)
    } else if op == OP_NOTIF {
        Some(Token::NotIf)
    } else if op == OP_ELSE {
        Some(Token::Else)
    } else if op == OP_ENDIF {
        Some(Token::EndIf)
    } else if op == OP_0NOTEQUAL {
        Some(Token::ZeroNotEqual)
    } else if op == OP_SIZE {
        Some(Token::Size)
    } else if op == OP_SWAP {
        Some(Token::Swap)
    } else if op == OP_TUCK {
        Some(Token::Tuck)
    } else if op == OP_VERIFY {
        Some(Token::Verify)
    } else {
        None
    }
}

/// Reads the token that starts at byte `i`.
fn lex_step(script: &[u8], i: usize) -> (r: Result<(Token, usize), Error>)
    requires
        i < script.len(),
    ensures
        match r {
            Ok((t, extra)) => lex_one(script@, i as int) == Ok::<(Token, nat), Error>(
                (t, extra as nat),
            ) && i + 1 + extra <= script.len(),
            Err(e) => lex_one(script@, i as int) == Err::<(Token, nat), Error>(e),
        },
{
    let op = script[i];
    let rest: usize = script.len() - i - 1;
    if op == OP_0 {
        Ok((Token::Number(0), 0))
    } else if op < OP_PUSHDATA1 {
        let n: usize = op as usize;
        if rest < n {
            Err(Error::EarlyEnd)
        } else {
            let d = vstd::slice::slice_subrange(script, i + 1, i + 1 + n);
            match lex_push(d) {
                Ok(t) => Ok((t, n)),
                Err(e) => Err(e),
            }
        }
    } else if op == OP_PUSHDATA1 {
        if rest < 1 {
            Err(Error::EarlyEnd)
        } else if script[i + 1] < 0x4c {
            Err(Error::NonMinimalPush)
        } else if rest < 1 + script[i + 1] as usize {
            Err(Error::EarlyEnd)
        } else {
            Err(Error::InvalidPush)
        }
    } else if op == OP_PUSHDATA2 {
        if rest < 2 {
            Err(Error::EarlyEnd)
        } else if script[i + 2] == 0 {
            Err(Error::NonMinimalPush)
        } else if (rest as u64) < 2 + script[i + 1] as u64 + script[i + 2] as u64 * 0x100 {
            Err(Error::EarlyEnd)
        } else {
            Err(Error::InvalidPush)
        }
    } else if op == OP_PUSHDATA4 {
        if rest < 4 {
            Err(Error::EarlyEnd)
        } else if script[i + 3] == 0 && script[i + 4] == 0 {
            Err(Error::NonMinimalPush)
        } else if (rest as u64) < 4 + script[i + 1] as u64 + script[i + 2] as u64 * 0x100
            + script[i + 3] as u64 * 0x10000 + script[i + 4] as u64 * 0x1000000 {
            Err(Error::EarlyEnd)
        } else {
            Err(Error::InvalidPush)
        }
    } else if OP_1 <= op && op <= OP_16 {
        Ok((Token::Number((op - 0x50) as u32), 0))
    } else if op == OP_HASH256 {
        if rest >= 1 && script[i + 1] == 32 {
            if rest < 33 {
                Err(Error::EarlyEnd)
            } else {
                let a = array32(script, i + 2);
                proof {
                    lemma_array_of::<32>(a);
                }
                Ok((Token::Hash256(a), 33))
            }
        } else {
            Err(Error::InvalidOpcode(op))
        }
    } else {
        match lex_op(op) {
            Some(t) => Ok((t, 0)),
            None => Err(Error::InvalidOpcode(op)),
        }
    }
}

/// Reads a Script program as tokens.
///
/// The result is that of `lex_tokens`: the tokens in order, or the first
/// error from the left. Where it is `Ok`, the program is byte for byte the
/// concatenation of the encodings of the tokens, so a program with a
/// non-minimal push or number anywhere is never accepted.
pub fn lex(script: &[u8]) -> (r: Result<Vec<Token>, Error>)
    ensures
        match r {
            Ok(v) => lex_tokens(script@) == Ok::<Seq<Token>, Error>(v@),
            Err(e) => lex_tokens(script@) == Err::<Seq<Token>, Error>(e),
        },
        r matches Ok(v) ==> tokens_bytes(v@) == script@,
{
    let mut out: Vec<Token> = Vec::new();
    let mut i: usize = 0;
    assert(Seq::<Token>::empty() + lex_from(script@, 0)->Ok_0 =~= lex_from(script@, 0)->Ok_0);
    while i < script.len()
        invariant
            i <= script.len(),
            lex_from(script@, 0) == prepend(out@, lex_from(script@, i as int)),
        decreases script.len() - i,
    {
        match lex_step(script, i) {
            Err(e) => {
                return Err(e);
            },
            Ok((t, extra)) => {
                let ghost before = out@;
                out.push(t);
                proof {
                    let next = lex_from(script@, i + 1 + extra);
                    if next is Ok {
                        assert(before + (seq![t] + next->Ok_0) =~= out@ + next->Ok_0);
                    }
                }
                i = i + 1 + extra;
            },
        }
    }
    proof {
        assert(out@ + Seq::<Token>::empty() =~= out@);
        lemma_lex_from_sound(script@, 0);
        assert(script@.subrange(0, script@.len() as int) =~= script@);
    }
    Ok(out)
}

} // verus!
