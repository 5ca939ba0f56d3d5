//! The typed tree of Script fragments.
//!
//! There are four types of fragment. An `E` leaves 0 or 1 on the stack, a
//! `W` does the same one place below the top, a `V` leaves nothing and
//! aborts where it fails, and a `T` leaves a non-zero value where it
//! succeeds and stands at the top of a script. Each variant takes children
//! of fixed types and has one template of tokens.

use vstd::prelude::*;
use crate::key::PublicKey;
use crate::list::List;
use crate::token::{tokens_bytes, write_tokens, Token};

verus! {

/// A fragment that leaves 0 or 1 on the stack.
#[derive(Debug, PartialEq, Eq)]
pub enum E<K> {
    /// `<key> CHECKSIG`
    CheckSig(K),
    /// `<k> <key>... <n> CHECKMULTISIG`
    CheckMultiSig(u32, List<K>),
    /// `DUP IF <n> CSV DROP ENDIF`
    Time(u32),
    /// `[E] ([W] ADD)... <k> EQUAL`
    Threshold(u32, Box<E<K>>, List<W<K>>),
    /// `[E] [W] BOOLAND`
    ParallelAnd(Box<E<K>>, Box<W<K>>),
    /// `[E] NOTIF 0 ELSE [T] ENDIF`
    CascadeAnd(Box<E<K>>, Box<T<K>>),
    /// `[E] [W] BOOLOR`
    ParallelOr(Box<E<K>>, Box<W<K>>),
    /// `[E] IFDUP NOTIF [T] ENDIF`
    CascadeOr(Box<E<K>>, Box<T<K>>),
    /// `IF [E] ELSE [T] ENDIF`
    SwitchOrLeft(Box<E<K>>, Box<T<K>>),
    /// `IF [T] ELSE [E] ENDIF`
    SwitchOrRight(Box<E<K>>, Box<T<K>>),
    /// `IF 0 ELSE [T] ENDIF`
    Likely(Box<T<K>>),
    /// `IF [T] ELSE 0 ENDIF`
    Unlikely(Box<T<K>>),
}

/// A fragment that leaves 0 or 1 one place below the top of the stack.
#[derive(Debug, PartialEq, Eq)]
pub enum W<K> {
    /// `SWAP <key> CHECKSIG`
    CheckSig(K),
    /// `SWAP SIZE 0NOTEQUAL IF SIZE <32> EQUALVERIFY HASH256 <h> EQUALVERIFY 1 ENDIF`
    HashEqual([u8; 32]),
    /// `SWAP DUP IF <n> CSV DROP ENDIF`
    Time(u32),
    /// `TOALTSTACK [E] FROMALTSTACK`
    CastE(Box<E<K>>),
}

/// A fragment that leaves nothing and aborts the script where it fails.
#[derive(Debug, PartialEq, Eq)]
pub enum V<K> {
    /// `<key> CHECKSIGVERIFY`
    CheckSig(K),
    /// `<k> <key>... <n> CHECKMULTISIGVERIFY`
    CheckMultiSig(u32, List<K>),
    /// `<n> CSV DROP`
    Time(u32),
    /// `SIZE <32> EQUALVERIFY HASH256 <h> EQUALVERIFY`
    HashEqual([u8; 32]),
    /// `[V] [V]`
    And(Box<V<K>>, Box<V<K>>),
    /// `IF [V] ELSE [V] ENDIF`
    SwitchOr(Box<V<K>>, Box<V<K>>),
    /// `IF [T] ELSE [T] ENDIF VERIFY`
    SwitchOrT(Box<T<K>>, Box<T<K>>),
    /// `[E] NOTIF [V] ENDIF`
    CascadeOr(Box<E<K>>, Box<V<K>>),
    /// `[E] ([W] ADD)... <k> EQUALVERIFY`
    Threshold(u32, Box<E<K>>, List<W<K>>),
}

/// A fragment that stands at the top of a script.
#[derive(Debug, PartialEq, Eq)]
pub enum T<K> {
    /// `<n> CSV`
    Time(u32),
    /// `<n> CLTV`
    After(u32),
    /// `SIZE <32> EQUALVERIFY HASH256 <h> EQUAL`
    HashEqual([u8; 32]),
    /// `[V] [T]`
    And(Box<V<K>>, Box<T<K>>),
    /// `[E] [W] BOOLOR`
    ParallelOr(Box<E<K>>, Box<W<K>>),
    /// `[E] IFDUP NOTIF [T] ENDIF`
    CascadeOr(Box<E<K>>, Box<T<K>>),
    /// `IF [T] ELSE [T] ENDIF`
    SwitchOr(Box<T<K>>, Box<T<K>>),
    /// `IF [V] ELSE [V] ENDIF 1`
    SwitchOrV(Box<V<K>>, Box<V<K>>),
    /// `[E]`
    CastE(Box<E<K>>),
}

/// The pushes of the keys of a multisignature.
pub open spec fn key_tokens(keys: List<PublicKey>) -> Seq<Token>
    decreases keys,
{
    match keys {
        List::Nil => Seq::empty(),
        List::Cons(k, rest) => seq![Token::Pubkey(k)] + key_tokens(*rest),
    }
}

/// The tokens of the later children of a threshold, each followed by `ADD`.
pub open spec fn ws_tokens(ws: List<W<PublicKey>>) -> Seq<Token>
    decreases ws,
{
    match ws {
        List::Nil => Seq::empty(),
        List::Cons(w, rest) => w.tokens() + seq![Token::Add] + ws_tokens(*rest),
    }
}

/// A count as the number that is pushed for it: itself, or the largest
/// number where it is larger than that.
pub open spec fn count_number(n: nat) -> u32 {
    if n <= u32::MAX {
        n as u32
    } else {
        u32::MAX
    }
}

/// The tokens of a multisignature up to its last opcode.
pub open spec fn multisig_tokens(k: u32, keys: List<PublicKey>) -> Seq<Token> {
    seq![Token::Number(k)] + key_tokens(keys) + seq![
        Token::Number(count_number(keys.seq().len())),
    ]
}

/// The tokens of a hash comparison up to its last opcode.
pub open spec fn hash_tokens(h: [u8; 32]) -> Seq<Token> {
    seq![Token::Size, Token::Number(32), Token::EqualVerify, Token::Hash256(h)]
}

impl E<PublicKey> {
    /// The template of the fragment, filled in.
    pub open spec fn tokens(self) -> Seq<Token>
        decreases self,
    {
        match self {
            E::CheckSig(k) => seq![Token::Pubkey(k), Token::CheckSig],
            E::CheckMultiSig(k, keys) => multisig_tokens(k, keys) + seq![Token::CheckMultiSig],
            E::Time(n) => seq![
                Token::Dup,
                Token::If,
                Token::Number(n),
                Token::CheckSequenceVerify,
                Token::Drop,
                Token::EndIf,
            ],
            E::Threshold(k, e, ws) => e.tokens() + ws_tokens(ws) + seq![
                Token::Number(k),
                Token::Equal,
            ],
            E::ParallelAnd(l, r) => l.tokens() + r.tokens() + seq![Token::BoolAnd],
            E::CascadeAnd(l, r) => l.tokens() + seq![Token::NotIf, Token::Number(0), Token::Else]
                + r.tokens() + seq![Token::EndIf],
            E::ParallelOr(l, r) => l.tokens() + r.tokens() + seq![Token::BoolOr],
            E::CascadeOr(l, r) => l.tokens() + seq![Token::IfDup, Token::NotIf] + r.tokens()
                + seq![Token::EndIf],
            E::SwitchOrLeft(l, r) => seq![Token::If] + l.tokens() + seq![Token::Else]
                + r.tokens() + seq![Token::EndIf],
            E::SwitchOrRight(l, r) => seq![Token::If] + r.tokens() + seq![Token::Else]
                + l.tokens() + seq![Token::EndIf],
            E::Likely(t) => seq![Token::If, Token::Number(0), Token::Else] + t.tokens() + seq![
                Token::EndIf,
            ],
            E::Unlikely(t) => seq![Token::If] + t.tokens() + seq![
                Token::Else,
                Token::Number(0),
                Token::EndIf,
            ],
        }
    }
}

impl W<PublicKey> {
    /// The template of the fragment, filled in.
    pub open spec fn tokens(self) -> Seq<Token>
        decreases self,
    {
        match self {
            W::CheckSig(k) => seq![Token::Swap, Token::Pubkey(k), Token::CheckSig],
            W::HashEqual(h) => seq![Token::Swap, Token::Size, Token::ZeroNotEqual, Token::If]
                + hash_tokens(h) + seq![Token::EqualVerify, Token::Number(1), Token::EndIf],
            W::Time(n) => seq![
                Token::Swap,
                Token::Dup,
                Token::If,
                Token::Number(n),
                Token::CheckSequenceVerify,
                Token::Drop,
                Token::EndIf,
            ],
            W::CastE(e) => seq![Token::ToAltStack] + e.tokens() + seq![Token::FromAltStack],
        }
    }
}

impl V<PublicKey> {
    /// The template of the fragment, filled in.
    pub open spec fn tokens(self) -> Seq<Token>
        decreases self,
    {
        match self {
            V::CheckSig(k) => seq![Token::Pubkey(k), Token::CheckSigVerify],
            V::CheckMultiSig(k, keys) => multisig_tokens(k, keys) + seq![
                Token::CheckMultiSigVerify,
            ],
            V::Time(n) => seq![Token::Number(n), Token::CheckSequenceVerify, Token::Drop],
            V::HashEqual(h) => hash_tokens(h) + seq![Token::EqualVerify],
            V::And(l, r) => l.tokens() + r.tokens(),
            V::SwitchOr(l, r) => seq![Token::If] + l.tokens() + seq![Token::Else] + r.tokens()
                + seq![Token::EndIf],
            V::SwitchOrT(l, r) => seq![Token::If] + l.tokens() + seq![Token::Else] + r.tokens()
                + seq![Token::EndIf, Token::Verify],
            V::CascadeOr(l, r) => l.tokens() + seq![Token::NotIf] + r.tokens() + seq![
                Token::EndIf,
            ],
            V::Threshold(k, e, ws) => e.tokens() + ws_tokens(ws) + seq![
                Token::Number(k),
                Token::EqualVerify,
            ],
        }
    }
}

impl T<PublicKey> {
    /// The template of the fragment, filled in.
    pub open spec fn tokens(self) -> Seq<Token>
        decreases self,
    {
        match self {
            T::Time(n) => seq![Token::Number(n), Token::CheckSequenceVerify],
            T::After(n) => seq![Token::Number(n), Token::CheckLockTimeVerify],
            T::HashEqual(h) => hash_tokens(h) + seq![Token::Equal],
            T::And(l, r) => l.tokens() + r.tokens(),
            T::ParallelOr(l, r) => l.tokens() + r.tokens() + seq![Token::BoolOr],
            T::CascadeOr(l, r) => l.tokens() + seq![Token::IfDup, Token::NotIf] + r.tokens()
                + seq![Token::EndIf],
            T::SwitchOr(l, r) => seq![Token::If] + l.tokens() + seq![Token::Else] + r.tokens()
                + seq![Token::EndIf],
            T::SwitchOrV(l, r) => seq![Token::If] + l.tokens() + seq![Token::Else] + r.tokens()
                + seq![Token::EndIf, Token::Number(1)],
            T::CastE(e) => e.tokens(),
        }
    }

    /// The Script program of the fragment.
    pub open spec fn script(self) -> Seq<u8> {
        tokens_bytes(self.tokens())
    }
}

/// The bounds that a multisignature keeps: at most 20 keys, and no more
/// signatures asked for than there are keys.
pub open spec fn multisig_wf<K>(k: u32, keys: List<K>) -> bool {
    k <= keys.seq().len() <= 20
}

/// The bound that a relative or absolute locktime keeps.
pub open spec fn time_wf(n: u32) -> bool {
    1 <= n < 0x8000_0000
}

/// All later children of a threshold are well formed.
pub open spec fn ws_wf<K>(ws: List<W<K>>) -> bool
    decreases ws,
{
    match ws {
        List::Nil => true,
        List::Cons(w, rest) => w.wf() && ws_wf(*rest),
    }
}

/// The bounds that a threshold keeps: at least one child is asked for, and
/// no more than there are.
pub open spec fn threshold_wf<K>(k: u32, ws: List<W<K>>) -> bool {
    1 <= k <= 1 + ws.seq().len() && k < 0x8000_0000
}

impl<K> E<K> {
    /// The invariant of the tree: every number in it is in its range.
    pub open spec fn wf(self) -> bool
        decreases self,
    {
        match self {
            E::CheckSig(_) => true,
            E::CheckMultiSig(k, keys) => multisig_wf(k, keys),
            E::Time(n) => time_wf(n),
            E::Threshold(k, e, ws) => threshold_wf(k, ws) && e.wf() && ws_wf(ws),
            E::ParallelAnd(l, r) => l.wf() && r.wf(),
            E::CascadeAnd(l, r) => l.wf() && r.wf(),
            E::ParallelOr(l, r) => l.wf() && r.wf(),
            E::CascadeOr(l, r) => l.wf() && r.wf(),
            E::SwitchOrLeft(l, r) => l.wf() && r.wf(),
            E::SwitchOrRight(l, r) => l.wf() && r.wf(),
            E::Likely(t) => t.wf(),
            E::Unlikely(t) => t.wf(),
        }
    }
}

impl<K> W<K> {
    /// The invariant of the tree: every number in it is in its range.
    pub open spec fn wf(self) -> bool
        decreases self,
    {
        match self {
            W::CheckSig(_) => true,
            W::HashEqual(_) => true,
            W::Time(n) => time_wf(n),
            W::CastE(e) => e.wf(),
        }
    }
}

impl<K> V<K> {
    /// The invariant of the tree: every number in it is in its range.
    pub open spec fn wf(self) -> bool
        decreases self,
    {
        match self {
            V::CheckSig(_) => true,
            V::CheckMultiSig(k, keys) => multisig_wf(k, keys),
            V::Time(n) => time_wf(n),
            V::HashEqual(_) => true,
            V::And(l, r) => l.wf() && r.wf(),
            V::SwitchOr(l, r) => l.wf() && r.wf(),
            V::SwitchOrT(l, r) => l.wf() && r.wf(),
            V::CascadeOr(l, r) => l.wf() && r.wf(),
            V::Threshold(k, e, ws) => threshold_wf(k, ws) && e.wf() && ws_wf(ws),
        }
    }
}

impl<K> T<K> {
    /// The invariant of the tree: every number in it is in its range.
    pub open spec fn wf(self) -> bool
        decreases self,
    {
        match self {
            T::Time(n) => time_wf(n),
            T::After(n) => time_wf(n),
            T::HashEqual(_) => true,
            T::And(l, r) => l.wf() && r.wf(),
            T::ParallelOr(l, r) => l.wf() && r.wf(),
            T::CascadeOr(l, r) => l.wf() && r.wf(),
            T::SwitchOr(l, r) => l.wf() && r.wf(),
            T::SwitchOrV(l, r) => l.wf() && r.wf(),
            T::CastE(e) => e.wf(),
        }
    }
}

/// Whether all later children of a threshold are well formed.
fn ws_is_wf<K>(ws: &List<W<K>>) -> (r: bool)
    ensures
        r == ws_wf(*ws),
    decreases ws,
{
    match ws {
        List::Nil => true,
        List::Cons(w, rest) => w.is_wf() && ws_is_wf(rest),
    }
}

/// Whether a multisignature keeps its bounds.
fn multisig_is_wf<K>(k: u32, keys: &List<K>) -> (r: bool)
    ensures
        r == multisig_wf(k, *keys),
{
    let n = keys.len_capped(20);
    k as usize <= n && n <= 20
}

/// Whether a threshold keeps its bounds.
pub(crate) fn threshold_is_wf<K>(k: u32, ws: &List<W<K>>) -> (r: bool)
    ensures
        r == threshold_wf(k, *ws),
{
    if k < 1 || k >= 0x8000_0000 {
        return false;
    }
    ws.len_capped((k - 1) as usize) + 1 >= k as usize
}

/// Whether a locktime is in its range.
fn time_is_wf(n: u32) -> (r: bool)
    ensures
        r == time_wf(n),
{
    1 <= n && n < 0x8000_0000
}

impl<K> E<K> {
    /// Whether every number in the tree is in its range.
    pub fn is_wf(&self) -> (r: bool)
        ensures
            r == self.wf(),
        decreases self,
    {
        match self {
            E::CheckSig(_) => true,
            E::CheckMultiSig(a, b) => multisig_is_wf(*a, b),
            E::Time(a) => time_is_wf(*a),
            E::Threshold(a, b, c) => threshold_is_wf(*a, c) && b.is_wf() && ws_is_wf(c),
            E::ParallelAnd(a, b) => a.is_wf() && b.is_wf(),
            E::CascadeAnd(a, b) => a.is_wf() && b.is_wf(),
            E::ParallelOr(a, b) => a.is_wf() && b.is_wf(),
            E::CascadeOr(a, b) => a.is_wf() && b.is_wf(),
            E::SwitchOrLeft(a, b) => a.is_wf() && b.is_wf(),
            E::SwitchOrRight(a, b) => a.is_wf() && b.is_wf(),
            E::Likely(a) => a.is_wf(),
            E::Unlikely(a) => a.is_wf(),
        }
    }
}

impl<K> W<K> {
    /// Whether every number in the tree is in its range.
    pub fn is_wf(&self) -> (r: bool)
        ensures
            r == self.wf(),
        decreases self,
    {
        match self {
            W::CheckSig(_) => true,
            W::HashEqual(_) => true,
            W::Time(a) => time_is_wf(*a),
            W::CastE(a) => a.is_wf(),
        }
    }
}

impl<K> V<K> {
    /// Whether every number in the tree is in its range.
    pub fn is_wf(&self) -> (r: bool)
        ensures
            r == self.wf(),
        decreases self,
    {
        match self {
            V::CheckSig(_) => true,
            V::CheckMultiSig(a, b) => multisig_is_wf(*a, b),
            V::Time(a) => time_is_wf(*a),
            V::HashEqual(_) => true,
            V::And(a, b) => a.is_wf() && b.is_wf(),
            V::SwitchOr(a, b) => a.is_wf() && b.is_wf(),
            V::SwitchOrT(a, b) => a.is_wf() && b.is_wf(),
            V::CascadeOr(a, b) => a.is_wf() && b.is_wf(),
            V::Threshold(a, b, c) => threshold_is_wf(*a, c) && b.is_wf() && ws_is_wf(c),
        }
    }
}

impl<K> T<K> {
    /// Whether every number in the tree is in its range.
    pub fn is_wf(&self) -> (r: bool)
        ensures
            r == self.wf(),
        decreases self,
    {
        match self {
            T::Time(a) => time_is_wf(*a),
            T::After(a) => time_is_wf(*a),
            T::HashEqual(_) => true,
            T::And(a, b) => a.is_wf() && b.is_wf(),
            T::ParallelOr(a, b) => a.is_wf() && b.is_wf(),
            T::CascadeOr(a, b) => a.is_wf() && b.is_wf(),
            T::SwitchOr(a, b) => a.is_wf() && b.is_wf(),
            T::SwitchOrV(a, b) => a.is_wf() && b.is_wf(),
            T::CastE(a) => a.is_wf(),
        }
    }
}

/// Appends the pushes of `keys`.
fn emit_keys(keys: &List<PublicKey>, out: &mut Vec<Token>)
    ensures
        final(out)@ == old(out)@ + key_tokens(*keys),
    decreases keys,
{
    let ghost before = out@;
    match keys {
        List::Nil => {},
        List::Cons(k, rest) => {
            out.push(Token::Pubkey(*k));
            emit_keys(rest, out);
        },
    }
    assert(out@ =~= before + key_tokens(*keys));
}

/// Appends a multisignature up to its last opcode.
fn emit_multisig(k: u32, keys: &List<PublicKey>, out: &mut Vec<Token>)
    ensures
        final(out)@ == old(out)@ + multisig_tokens(k, *keys),
{
    let ghost before = out@;
    out.push(Token::Number(k));
    emit_keys(keys, out);
    let n = keys.len_capped(0xffff_fffe);
    out.push(Token::Number(n as u32));
    assert(out@ =~= before + multisig_tokens(k, *keys));
}

/// Appends a hash comparison up to its last opcode.
fn emit_hash(h: &[u8; 32], out: &mut Vec<Token>)
    ensures
        final(out)@ == old(out)@ + hash_tokens(*h),
{
    let ghost before = out@;
    out.push(Token::Size);
    out.push(Token::Number(32));
    out.push(Token::EqualVerify);
    out.push(Token::Hash256(*h));
    assert(out@ =~= before + hash_tokens(*h));
}

/// Appends the later children of a threshold, each followed by `ADD`.
fn emit_ws(ws: &List<W<PublicKey>>, out: &mut Vec<Token>)
    ensures
        final(out)@ == old(out)@ + ws_tokens(*ws),
    decreases ws,
{
    let ghost before = out@;
    match ws {
        List::Nil => {},
        List::Cons(w, rest) => {
            w.emit(out);
            out.push(Token::Add);
            emit_ws(rest, out);
        },
    }
    assert(out@ =~= before + ws_tokens(*ws));
}

impl E<PublicKey> {
    /// Appends the tokens of the fragment.
    pub fn emit(&self, out: &mut Vec<Token>)
        ensures
            final(out)@ == old(out)@ + self.tokens(),
        decreases self,
    {
        let ghost before = out@;
        match self {
            E::CheckSig(k) => {
                out.push(Token::Pubkey(*k));
                out.push(Token::CheckSig);
            },
            E::CheckMultiSig(k, keys) => {
                emit_multisig(*k, keys, out);
                out.push(Token::CheckMultiSig);
            },
            E::Time(n) => {
                out.push(Token::Dup);
                out.push(Token::If);
                out.push(Token::Number(*n));
                out.push(Token::CheckSequenceVerify);
                out.push(Token::Drop);
                out.push(Token::EndIf);
            },
            E::Threshold(k, e, ws) => {
                e.emit(out);
                emit_ws(ws, out);
                out.push(Token::Number(*k));
                out.push(Token::Equal);
            },
            E::ParallelAnd(l, r) => {
                l.emit(out);
                r.emit(out);
                out.push(Token::BoolAnd);
            },
            E::CascadeAnd(l, r) => {
                l.emit(out);
                out.push(Token::NotIf);
                out.push(Token::Number(0));
                out.push(Token::Else);
                r.emit(out);
                out.push(Token::EndIf);
            },
            E::ParallelOr(l, r) => {
                l.emit(out);
                r.emit(out);
                out.push(Token::BoolOr);
            },
            E::CascadeOr(l, r) => {
                l.emit(out);
                out.push(Token::IfDup);
                out.push(Token::NotIf);
                r.emit(out);
                out.push(Token::EndIf);
            },
            E::SwitchOrLeft(l, r) => {
                out.push(Token::If);
                l.emit(out);
                out.push(Token::Else);
                r.emit(out);
                out.push(Token::EndIf);
            },
            E::SwitchOrRight(l, r) => {
                out.push(Token::If);
                r.emit(out);
                out.push(Token::Else);
                l.emit(out);
                out.push(Token::EndIf);
            },
            E::Likely(t) => {
                out.push(Token::If);
                out.push(Token::Number(0));
                out.push(Token::Else);
                t.emit(out);
                out.push(Token::EndIf);
            },
            E::Unlikely(t) => {
                out.push(Token::If);
                t.emit(out);
                out.push(Token::Else);
                out.push(Token::Number(0));
                out.push(Token::EndIf);
            },
        }
        assert(out@ =~= before + self.tokens());
    }
}

impl W<PublicKey> {
    /// Appends the tokens of the fragment.
    pub fn emit(&self, out: &mut Vec<Token>)
        ensures
            final(out)@ == old(out)@ + self.tokens(),
        decreases self,
    {
        let ghost before = out@;
        match self {
            W::CheckSig(k) => {
                out.push(Token::Swap);
                out.push(Token::Pubkey(*k));
                out.push(Token::CheckSig);
            },
            W::HashEqual(h) => {
                out.push(Token::Swap);
                out.push(Token::Size);
                out.push(Token::ZeroNotEqual);
                out.push(Token::If);
                emit_hash(h, out);
                out.push(Token::EqualVerify);
                out.push(Token::Number(1));
                out.push(Token::EndIf);
            },
            W::Time(n) => {
                out.push(Token::Swap);
                out.push(Token::Dup);
                out.push(Token::If);
                out.push(Token::Number(*n));
                out.push(Token::CheckSequenceVerify);
                out.push(Token::Drop);
                out.push(Token::EndIf);
            },
            W::CastE(e) => {
                out.push(Token::ToAltStack);
                e.emit(out);
                out.push(Token::FromAltStack);
            },
        }
        assert(out@ =~= before + self.tokens());
    }
}

impl V<PublicKey> {
    /// Appends the tokens of the fragment.
    pub fn emit(&self, out: &mut Vec<Token>)
        ensures
            final(out)@ == old(out)@ + self.tokens(),
        decreases self,
    {
        let ghost before = out@;
        match self {
            V::CheckSig(k) => {
                out.push(Token::Pubkey(*k));
                out.push(Token::CheckSigVerify);
            },
            V::CheckMultiSig(k, keys) => {
                emit_multisig(*k, keys, out);
                out.push(Token::CheckMultiSigVerify);
            },
            V::Time(n) => {
                out.push(Token::Number(*n));
                out.push(Token::CheckSequenceVerify);
                out.push(Token::Drop);
            },
            V::HashEqual(h) => {
                emit_hash(h, out);
                out.push(Token::EqualVerify);
            },
            V::And(l, r) => {
                l.emit(out);
                r.emit(out);
            },
            V::SwitchOr(l, r) => {
                out.push(Token::If);
                l.emit(out);
                out.push(Token::Else);
                r.emit(out);
                out.push(Token::EndIf);
            },
            V::SwitchOrT(l, r) => {
                out.push(Token::If);
                l.emit(out);
                out.push(Token::Else);
                r.emit(out);
                out.push(Token::EndIf);
                out.push(Token::Verify);
            },
            V::CascadeOr(l, r) => {
                l.emit(out);
                out.push(Token::NotIf);
                r.emit(out);
                out.push(Token::EndIf);
            },
            V::Threshold(k, e, ws) => {
                e.emit(out);
                emit_ws(ws, out);
                out.push(Token::Number(*k));
                out.push(Token::EqualVerify);
            },
        }
        assert(out@ =~= before + self.tokens());
    }
}

impl T<PublicKey> {
    /// Appends the tokens of the fragment.
    pub fn emit(&self, out: &mut Vec<Token>)
        ensures
            final(out)@ == old(out)@ + self.tokens(),
        decreases self,
    {
        let ghost before = out@;
        match self {
            T::Time(n) => {
                out.push(Token::Number(*n));
                out.push(Token::CheckSequenceVerify);
            },
            T::After(n) => {
                out.push(Token::Number(*n));
                out.push(Token::CheckLockTimeVerify);
            },
            T::HashEqual(h) => {
                emit_hash(h, out);
                out.push(Token::Equal);
            },
            T::And(l, r) => {
                l.emit(out);
                r.emit(out);
            },
            T::ParallelOr(l, r) => {
                l.emit(out);
                r.emit(out);
                out.push(Token::BoolOr);
            },
            T::CascadeOr(l, r) => {
                l.emit(out);
                out.push(Token::IfDup);
                out.push(Token::NotIf);
                r.emit(out);
                out.push(Token::EndIf);
            },
            T::SwitchOr(l, r) => {
                out.push(Token::If);
                l.emit(out);
                out.push(Token::Else);
                r.emit(out);
                out.push(Token::EndIf);
            },
            T::SwitchOrV(l, r) => {
                out.push(Token::If);
                l.emit(out);
                out.push(Token::Else);
                r.emit(out);
                out.push(Token::EndIf);
                out.push(Token::Number(1));
            },
            T::CastE(e) => {
                e.emit(out);
            },
        }
        assert(out@ =~= before + self.tokens());
    }

    /// The Script program of the fragment, every push and number in its
    /// shortest form.
    pub fn encode(&self) -> (r: Vec<u8>)
        ensures
            r@ == self.script(),
    {
        let mut tokens: Vec<Token> = Vec::new();
        self.emit(&mut tokens);
        assert(tokens@ =~= self.tokens());
        write_tokens(tokens.as_slice())
    }
}

} // verus!
