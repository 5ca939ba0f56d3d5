//! Output descriptors: a script or a key in one of the forms in which an
//! output commits to it, with the scriptPubKey, the address and the input
//! that spends it.

use vstd::prelude::*;
use crate::bytes::extend;
use crate::descript::Descript;
use crate::descript::descript_of;
use crate::error::{Context, Error, ErrorView};
use crate::expression::{lemma_trees_model, parse_text, Tree, TreeView, LPAREN, RPAREN};
use crate::names::{classify, key_of, name_of, read_key_arg, Name};
use crate::ascii_laws::lemma_ascii_descriptor;
use crate::text::{ascii_chars, hex, to_text, write_hex};
use vstd::string::StringSliceAdditionalSpecFns;
use crate::key::PublicKey;
use crate::primitives::{
    address_of_script, hash160, hash160_of, is_address_template, script_address, sha256,
    sha256_of, varint_len, varint_size, Network,
};
use crate::satisfy::Satisfier;
use crate::script::{
    push_data, push_element, push_header, write_element, write_push, OP_0, OP_CHECKSIG, OP_DUP,
    OP_EQUAL, OP_EQUALVERIFY, OP_HASH160,
};
use crate::sizes::{clip, count_costs, exactly, size_costs};
use crate::stack::stack_view;

verus! {

/// The output that an input spends.
#[derive(Clone, Copy, Debug, PartialEq, Eq)]
pub struct OutPoint {
    pub txid: [u8; 32],
    pub vout: u32,
}

/// A transaction input.
#[derive(Clone, Debug, PartialEq, Eq)]
pub struct TxIn {
    pub previous_output: OutPoint,
    pub script_sig: Vec<u8>,
    pub sequence: u32,
    pub witness: Vec<Vec<u8>>,
}

/// Script descriptor
#[derive(Debug, PartialEq, Eq)]
pub enum Descriptor<K> {
    /// A raw scriptpubkey
    Bare(Descript<K>),
    /// Pay-to-Pubkey
    Pk(K),
    /// Pay-to-PubKey-Hash
    Pkh(K),
    /// Pay-to-Witness-PubKey-Hash
    Wpkh(K),
    /// Pay-to-Witness-PubKey-Hash inside P2SH
    ShWpkh(K),
    /// Pay-to-ScriptHash
    Sh(Descript<K>),
    /// Pay-to-Witness-ScriptHash
    Wsh(Descript<K>),
    /// P2SH-P2WSH
    ShWsh(Descript<K>),
}

/// `<key> CHECKSIG`
pub open spec fn pk_script(key: Seq<u8>) -> Seq<u8> {
    push_data(key) + seq![OP_CHECKSIG]
}

/// `DUP HASH160 <hash> EQUALVERIFY CHECKSIG`
pub open spec fn p2pkh_script(hash: Seq<u8>) -> Seq<u8> {
    seq![OP_DUP, OP_HASH160] + push_data(hash) + seq![OP_EQUALVERIFY, OP_CHECKSIG]
}

/// `HASH160 <hash> EQUAL`
pub open spec fn p2sh_script(hash: Seq<u8>) -> Seq<u8> {
    seq![OP_HASH160] + push_data(hash) + seq![OP_EQUAL]
}

/// `0 <program>`
pub open spec fn v0_script(program: Seq<u8>) -> Seq<u8> {
    seq![OP_0] + push_data(program)
}

/// The scriptSig that pushes the elements of `st`, bottom first.
pub open spec fn script_sig_of(st: Seq<Seq<u8>>) -> Seq<u8>
    decreases st.len(),
{
    if st.len() == 0 {
        Seq::empty()
    } else {
        script_sig_of(st.drop_last()) + push_element(st.last())
    }
}

/// The longest script that a single push can hold.
pub const MAX_PUSH: usize = 0xffff_ffff;

/// Every element of the stack can be pushed.
pub open spec fn pushable(st: Seq<Seq<u8>>) -> bool {
    forall|i: int| 0 <= i < st.len() ==> (#[trigger] st[i]).len() <= MAX_PUSH
}

impl<K> Descriptor<K> {
    /// The invariant of the script in the descriptor, if it has one.
    pub open spec fn wf(self) -> bool {
        match self {
            Descriptor::Bare(d) | Descriptor::Sh(d) | Descriptor::Wsh(d) | Descriptor::ShWsh(d) => {
                d.wf()
            },
            _ => true,
        }
    }

    /// Whether the script in the descriptor, if it has one, is well formed.
    pub fn is_wf(&self) -> (r: bool)
        ensures
            r == self.wf(),
    {
        match self {
            Descriptor::Bare(d) | Descriptor::Sh(d) | Descriptor::Wsh(d) | Descriptor::ShWsh(d) => {
                d.is_wf()
            },
            _ => true,
        }
    }

    /// `out` is this descriptor with every key replaced by one that `f` can
    /// return for it.
    pub open spec fn translates<Q, Er, F: Fn(&K) -> Result<Q, Er>>(
        self,
        out: Descriptor<Q>,
        f: F,
    ) -> bool {
        match (self, out) {
            (Descriptor::Bare(a), Descriptor::Bare(b)) => a.0.translates(b.0, f),
            (Descriptor::Pk(a), Descriptor::Pk(b)) => call_ensures(f, (&a,), Ok::<Q, Er>(b)),
            (Descriptor::Pkh(a), Descriptor::Pkh(b)) => call_ensures(f, (&a,), Ok::<Q, Er>(b)),
            (Descriptor::Wpkh(a), Descriptor::Wpkh(b)) => call_ensures(f, (&a,), Ok::<Q, Er>(b)),
            (Descriptor::ShWpkh(a), Descriptor::ShWpkh(b)) => call_ensures(
                f,
                (&a,),
                Ok::<Q, Er>(b),
            ),
            (Descriptor::Sh(a), Descriptor::Sh(b)) => a.0.translates(b.0, f),
            (Descriptor::Wsh(a), Descriptor::Wsh(b)) => a.0.translates(b.0, f),
            (Descriptor::ShWsh(a), Descriptor::ShWsh(b)) => a.0.translates(b.0, f),
            _ => false,
        }
    }

    /// `f` may be called on every key of the descriptor.
    pub open spec fn can_translate<Q, Er, F: Fn(&K) -> Result<Q, Er>>(self, f: F) -> bool {
        match self {
            Descriptor::Bare(d) | Descriptor::Sh(d) | Descriptor::Wsh(d) | Descriptor::ShWsh(d) => {
                d.0.can_translate(f)
            },
            Descriptor::Pk(k) | Descriptor::Pkh(k) | Descriptor::Wpkh(k) | Descriptor::ShWpkh(
                k,
            ) => call_requires(f, (&k,)),
        }
    }

    /// `f` can fail with `e` on a key of the descriptor.
    pub open spec fn fails_with<Q, Er, F: Fn(&K) -> Result<Q, Er>>(self, f: F, e: Er) -> bool {
        match self {
            Descriptor::Bare(d) | Descriptor::Sh(d) | Descriptor::Wsh(d) | Descriptor::ShWsh(d) => {
                d.0.fails_with(f, e)
            },
            Descriptor::Pk(k) | Descriptor::Pkh(k) | Descriptor::Wpkh(k) | Descriptor::ShWpkh(
                k,
            ) => call_ensures(f, (&k,), Err::<Q, Er>(e)),
        }
    }

    /// Convert a descriptor using abstract keys to one using specific keys.
    ///
    /// The result is of the same form, with the same numbers and hashes,
    /// and every key in it is what `translatefpk` returned for the key at
    /// its place; the first error of `translatefpk` is returned as it is.
    pub fn translate_pk<Q, Er, F: Fn(&K) -> Result<Q, Er>>(&self, translatefpk: &F) -> (r: Result<
        Descriptor<Q>,
        Er,
    >)
        requires
            self.can_translate(*translatefpk),
        ensures
            match r {
                Ok(out) => self.translates(out, *translatefpk),
                Err(e) => self.fails_with(*translatefpk, e),
            },
    {
        match self {
            Descriptor::Bare(ms) => Ok(Descriptor::Bare(ms.translate(translatefpk)?)),
            Descriptor::Pk(pk) => Ok(Descriptor::Pk(translatefpk(pk)?)),
            Descriptor::Pkh(pk) => Ok(Descriptor::Pkh(translatefpk(pk)?)),
            Descriptor::Wpkh(pk) => Ok(Descriptor::Wpkh(translatefpk(pk)?)),
            Descriptor::ShWpkh(pk) => Ok(Descriptor::ShWpkh(translatefpk(pk)?)),
            Descriptor::Sh(ms) => Ok(Descriptor::Sh(ms.translate(translatefpk)?)),
            Descriptor::Wsh(ms) => Ok(Descriptor::Wsh(ms.translate(translatefpk)?)),
            Descriptor::ShWsh(ms) => Ok(Descriptor::ShWsh(ms.translate(translatefpk)?)),
        }
    }
}

impl<K: Copy> Descriptor<K> {
    /// A copy of the descriptor.
    pub fn duplicate(&self) -> (r: Descriptor<K>)
        ensures
            r == *self,
    {
        match self {
            Descriptor::Bare(d) => Descriptor::Bare(d.duplicate()),
            Descriptor::Pk(k) => Descriptor::Pk(*k),
            Descriptor::Pkh(k) => Descriptor::Pkh(*k),
            Descriptor::Wpkh(k) => Descriptor::Wpkh(*k),
            Descriptor::ShWpkh(k) => Descriptor::ShWpkh(*k),
            Descriptor::Sh(d) => Descriptor::Sh(d.duplicate()),
            Descriptor::Wsh(d) => Descriptor::Wsh(d.duplicate()),
            Descriptor::ShWsh(d) => Descriptor::ShWsh(d.duplicate()),
        }
    }
}

/// Writes `<key> CHECKSIG`.
fn write_pk_script(key: &PublicKey) -> (r: Vec<u8>)
    ensures
        r@ == pk_script(key.bytes@),
{
    let mut out: Vec<u8> = Vec::new();
    write_push(&mut out, key.bytes.as_slice());
    out.push(OP_CHECKSIG);
    out
}

/// Writes `DUP HASH160 <hash> EQUALVERIFY CHECKSIG`.
fn write_p2pkh(hash: &[u8; 20]) -> (r: Vec<u8>)
    ensures
        r@ == p2pkh_script(hash@),
        is_address_template(r@),
{
    let mut out: Vec<u8> = Vec::new();
    out.push(OP_DUP);
    out.push(OP_HASH160);
    let ghost head = out@;
    write_push(&mut out, hash.as_slice());
    let ghost mid = out@;
    out.push(OP_EQUALVERIFY);
    out.push(OP_CHECKSIG);
    assert(head =~= seq![OP_DUP, OP_HASH160]);
    assert(out@ =~= mid + seq![OP_EQUALVERIFY, OP_CHECKSIG]);
    out
}

/// Writes `HASH160 <hash> EQUAL`.
fn write_p2sh(hash: &[u8; 20]) -> (r: Vec<u8>)
    ensures
        r@ == p2sh_script(hash@),
        is_address_template(r@),
{
    let mut out: Vec<u8> = Vec::new();
    out.push(OP_HASH160);
    write_push(&mut out, hash.as_slice());
    out.push(OP_EQUAL);
    out
}

/// Writes `0 <program>`.
fn write_v0(program: &[u8]) -> (r: Vec<u8>)
    requires
        program.len() == 20 || program.len() == 32,
    ensures
        r@ == v0_script(program@),
        is_address_template(r@),
{
    let mut out: Vec<u8> = Vec::new();
    out.push(OP_0);
    write_push(&mut out, program);
    out
}

/// Writes the scriptSig that pushes the elements of `st`.
fn write_script_sig(st: &Vec<Vec<u8>>) -> (r: Vec<u8>)
    requires
        pushable(stack_view(st@)),
    ensures
        r@ == script_sig_of(stack_view(st@)),
{
    let mut out: Vec<u8> = Vec::new();
    let mut i: usize = 0;
    while i < st.len()
        invariant
            i <= st.len(),
            pushable(stack_view(st@)),
            out@ == script_sig_of(stack_view(st@).subrange(0, i as int)),
        decreases st.len() - i,
    {
        let ghost v = stack_view(st@);
        assert(v.subrange(0, i + 1).drop_last() =~= v.subrange(0, i as int));
        assert(v.subrange(0, i + 1).last() == st@[i as int]@);
        assert(v[i as int].len() <= MAX_PUSH);
        write_element(&mut out, st[i].as_slice());
        i += 1;
    }
    assert(stack_view(st@).subrange(0, i as int) =~= stack_view(st@));
    out
}

impl Descriptor<PublicKey> {
    /// The scriptPubKey of the output, form by form.
    pub open spec fn spec_script_pubkey(self) -> Seq<u8> {
        match self {
            Descriptor::Bare(d) => d.0.script(),
            Descriptor::Pk(pk) => pk_script(pk.bytes@),
            Descriptor::Pkh(pk) => p2pkh_script(hash160(pk.bytes@)),
            Descriptor::Wpkh(pk) => v0_script(hash160(pk.bytes@)),
            Descriptor::ShWpkh(pk) => p2sh_script(hash160(v0_script(hash160(pk.bytes@)))),
            Descriptor::Sh(d) => p2sh_script(hash160(d.0.script())),
            Descriptor::Wsh(d) => v0_script(sha256(d.0.script())),
            Descriptor::ShWsh(d) => p2sh_script(hash160(v0_script(sha256(d.0.script())))),
        }
    }

    /// The script that a signature commits to, form by form.
    pub open spec fn spec_witness_script(self) -> Seq<u8> {
        match self {
            Descriptor::Bare(d) => d.0.script(),
            Descriptor::Pk(pk) => pk_script(pk.bytes@),
            Descriptor::Pkh(pk) => p2pkh_script(hash160(pk.bytes@)),
            Descriptor::Wpkh(pk) => p2pkh_script(hash160(pk.bytes@)),
            Descriptor::ShWpkh(pk) => v0_script(hash160(pk.bytes@)),
            Descriptor::Sh(d) => d.0.script(),
            Descriptor::Wsh(d) => d.0.script(),
            Descriptor::ShWsh(d) => d.0.script(),
        }
    }

    /// The scriptSig of an input before it is signed, form by form.
    pub open spec fn spec_unsigned_script_sig(self) -> Seq<u8> {
        match self {
            Descriptor::ShWpkh(pk) => push_data(v0_script(hash160(pk.bytes@))),
            Descriptor::ShWsh(d) => push_data(v0_script(sha256(d.0.script()))),
            _ => Seq::empty(),
        }
    }

    /// The address of the output on `network`, form by form.
    pub open spec fn spec_address(self, network: Network) -> Option<Seq<char>> {
        match self {
            Descriptor::Bare(_) => None,
            Descriptor::Pk(_) => None,
            _ => script_address(self.spec_script_pubkey(), network),
        }
    }

    /// Computes the scriptpubkey of the descriptor.
    pub fn script_pubkey(&self) -> (r: Vec<u8>)
        ensures
            r@ == self.spec_script_pubkey(),
            !(self is Bare || self is Pk) ==> is_address_template(r@),
    {
        match self {
            Descriptor::Bare(d) => d.serialize(),
            Descriptor::Pk(pk) => write_pk_script(pk),
            Descriptor::Pkh(pk) => write_p2pkh(&hash160_of(pk.bytes.as_slice())),
            Descriptor::Wpkh(pk) => write_v0(hash160_of(pk.bytes.as_slice()).as_slice()),
            Descriptor::ShWpkh(pk) => {
                let inner = write_v0(hash160_of(pk.bytes.as_slice()).as_slice());
                write_p2sh(&hash160_of(inner.as_slice()))
            },
            Descriptor::Sh(d) => write_p2sh(&hash160_of(d.serialize().as_slice())),
            Descriptor::Wsh(d) => write_v0(sha256_of(d.serialize().as_slice()).as_slice()),
            Descriptor::ShWsh(d) => {
                let inner = write_v0(sha256_of(d.serialize().as_slice()).as_slice());
                write_p2sh(&hash160_of(inner.as_slice()))
            },
        }
    }

    /// Computes the Bitcoin address of the descriptor, if one exists: none
    /// for a bare script or key, one for every other form.
    pub fn address(&self, network: Network) -> (r: Option<String>)
        ensures
            match r {
                Some(a) => self.spec_address(network) == Some(a@),
                None => self.spec_address(network) is None,
            },
            r is Some <==> !(self is Bare || self is Pk),
    {
        match self {
            Descriptor::Bare(_) => None,
            Descriptor::Pk(_) => None,
            _ => {
                let script = self.script_pubkey();
                address_of_script(script.as_slice(), network)
            },
        }
    }

    /// Computes the scriptSig that will be in place for an unsigned input
    /// spending an output with this descriptor: the push of the witness
    /// program where segwit is wrapped in P2SH, and nothing in every other
    /// form.
    pub fn unsigned_script_sig(&self) -> (r: Vec<u8>)
        ensures
            r@ == self.spec_unsigned_script_sig(),
    {
        match self {
            Descriptor::ShWpkh(pk) => {
                let redeem_script = write_v0(hash160_of(pk.bytes.as_slice()).as_slice());
                let mut out: Vec<u8> = Vec::new();
                write_push(&mut out, redeem_script.as_slice());
                out
            },
            Descriptor::ShWsh(d) => {
                let witness_script = d.serialize();
                let program = write_v0(sha256_of(witness_script.as_slice()).as_slice());
                let mut out: Vec<u8> = Vec::new();
                write_push(&mut out, program.as_slice());
                out
            },
            _ => Vec::new(),
        }
    }

    /// Computes the "witness script" of the descriptor, i.e. the underlying
    /// script before any hashing is done.
    pub fn witness_script(&self) -> (r: Vec<u8>)
        ensures
            r@ == self.spec_witness_script(),
    {
        match self {
            Descriptor::Bare(d) => d.serialize(),
            Descriptor::Pk(pk) => write_pk_script(pk),
            Descriptor::Pkh(pk) => write_p2pkh(&hash160_of(pk.bytes.as_slice())),
            Descriptor::Wpkh(pk) => write_p2pkh(&hash160_of(pk.bytes.as_slice())),
            Descriptor::ShWpkh(pk) => write_v0(hash160_of(pk.bytes.as_slice()).as_slice()),
            Descriptor::Sh(d) => d.serialize(),
            Descriptor::Wsh(d) => d.serialize(),
            Descriptor::ShWsh(d) => d.serialize(),
        }
    }
}

/// The stack with `script` put on top.
fn push_script(st: Vec<Vec<u8>>, script: Vec<u8>) -> (r: Vec<Vec<u8>>)
    ensures
        stack_view(r@) == stack_view(st@).push(script@),
        r@.len() == st@.len() + 1,
        forall|i: int| 0 <= i < st@.len() ==> r@[i] == st@[i],
        r@[st@.len() as int] == script,
{
    let mut st = st;
    let ghost before = stack_view(st@);
    st.push(script);
    assert(stack_view(st@) =~= before.push(script@));
    st
}

/// The push of `data` alone.
fn push_of(data: &[u8]) -> (r: Vec<u8>)
    requires
        data.len() <= MAX_PUSH,
    ensures
        r@ == push_data(data@),
{
    let mut out: Vec<u8> = Vec::new();
    write_push(&mut out, data);
    out
}

/// The stack of a signature alone.
fn sig_alone(sig: Vec<u8>) -> (r: Vec<Vec<u8>>)
    ensures
        stack_view(r@) == seq![sig@],
{
    let mut st: Vec<Vec<u8>> = Vec::new();
    st.push(sig);
    assert(stack_view(st@) =~= seq![sig@]);
    st
}

/// The stack of a signature and the key it is made for.
fn key_witness(sig: Vec<u8>, key: &PublicKey) -> (r: Vec<Vec<u8>>)
    ensures
        stack_view(r@) == seq![sig@, key.bytes@],
{
    let mut st: Vec<Vec<u8>> = Vec::new();
    st.push(sig);
    st.push(key.to_bytes());
    assert(stack_view(st@) =~= seq![sig@, key.bytes@]);
    st
}

/// A stack with nothing on it.
fn no_witness() -> (r: Vec<Vec<u8>>)
    ensures
        stack_view(r@) == Seq::<Seq<u8>>::empty(),
{
    let st: Vec<Vec<u8>> = Vec::new();
    assert(stack_view(st@) =~= Seq::<Seq<u8>>::empty());
    st
}

/// The bytes that announce the push of a script of `len` bytes.
pub open spec fn push_size(len: nat) -> nat {
    push_header(len).len()
}

/// The sum of two numbers that may have grown too large.
fn sum(a: Option<usize>, b: Option<usize>, Ghost(x): Ghost<nat>, Ghost(y): Ghost<nat>) -> (r:
    Option<usize>)
    requires
        a == clip(x),
        b == clip(y),
    ensures
        r == clip(x + y),
{
    match (a, b) {
        (Some(u), Some(v)) => u.checked_add(v),
        _ => None,
    }
}

/// Four times a number that may have grown too large.
fn fourfold(a: Option<usize>, Ghost(x): Ghost<nat>) -> (r: Option<usize>)
    requires
        a == clip(x),
    ensures
        r == clip(4 * x),
{
    match a {
        Some(v) => v.checked_mul(4),
        None => None,
    }
}

/// The size of the variable-length encoding of a number that may have
/// grown too large.
fn varint_of(a: Option<usize>, Ghost(x): Ghost<nat>) -> (r: Option<usize>)
    requires
        a == clip(x),
    ensures
        r == clip(varint_size(x)),
{
    match a {
        Some(v) => Some(varint_len(v as u64)),
        None => Some(9),
    }
}

/// The weight of a scriptSig of `len` bytes with its length in front.
fn script_sig_weight(len: Option<usize>, Ghost(n): Ghost<nat>) -> (r: Option<usize>)
    requires
        len == clip(n),
    ensures
        r == clip(4 * (varint_size(n) + n)),
{
    let v = varint_of(len, Ghost(n));
    let total = sum(v, len, Ghost(varint_size(n)), Ghost(n));
    fourfold(total, Ghost(varint_size(n) + n))
}

/// The weight of a witness that holds a script of `ss` bytes beside at
/// most `count` elements of at most `size` bytes, after `base` for the
/// scriptSig.
fn witness_weight(
    base: usize,
    ss: usize,
    count: Option<usize>,
    size: Option<usize>,
    Ghost(c): Ghost<nat>,
    Ghost(z): Ghost<nat>,
) -> (r: Option<usize>)
    requires
        base <= 1000,
        count == clip(c),
        size == clip(z),
    ensures
        r == clip(base as nat + varint_size(ss as nat) + ss as nat + varint_size(c) + z),
{
    let ghost b0: nat = base as nat;
    let ghost vs: nat = varint_size(ss as nat);
    let ghost script_len: nat = ss as nat;
    let a = sum(Some(base), Some(varint_len(ss as u64)), Ghost(b0), Ghost(vs));
    let b = sum(a, Some(ss), Ghost(b0 + vs), Ghost(script_len));
    let v = varint_of(count, Ghost(c));
    let d = sum(b, v, Ghost(b0 + vs + script_len), Ghost(varint_size(c)));
    sum(d, size, Ghost(b0 + vs + script_len + varint_size(c)), Ghost(z))
}

impl Descriptor<PublicKey> {
    /// The scriptSig and the witness that spend the output with what `s`
    /// holds, or why there are none: the script, where there is one, asks
    /// for more than `s` holds, or `s` has no signature for the single key.
    pub open spec fn spec_satisfy(self, s: &Satisfier) -> Result<(Seq<u8>, Seq<Seq<u8>>), Error> {
        match self {
            Descriptor::Bare(d) => match d.0.satisfaction(s) {
                Some(w) => Ok((script_sig_of(w), Seq::empty())),
                None => Err(Error::CouldNotSatisfy),
            },
            Descriptor::Pk(pk) => match s.sig(pk) {
                Some(sig) => Ok((script_sig_of(seq![sig]), Seq::empty())),
                None => Err(Error::MissingSig(pk)),
            },
            Descriptor::Pkh(pk) => match s.sig(pk) {
                Some(sig) => Ok((script_sig_of(seq![sig, pk.bytes@]), Seq::empty())),
                None => Err(Error::MissingSig(pk)),
            },
            Descriptor::Wpkh(pk) => match s.sig(pk) {
                Some(sig) => Ok((Seq::empty(), seq![sig, pk.bytes@])),
                None => Err(Error::MissingSig(pk)),
            },
            Descriptor::ShWpkh(pk) => match s.sig(pk) {
                Some(sig) => Ok(
                    (push_data(v0_script(hash160(pk.bytes@))), seq![sig, pk.bytes@]),
                ),
                None => Err(Error::MissingSig(pk)),
            },
            Descriptor::Sh(d) => match d.0.satisfaction(s) {
                Some(w) => if d.0.script().len() > MAX_PUSH {
                    Err(Error::ContextError(Context::ScriptSize))
                } else {
                    Ok((script_sig_of(w.push(d.0.script())), Seq::empty()))
                },
                None => Err(Error::CouldNotSatisfy),
            },
            Descriptor::Wsh(d) => match d.0.satisfaction(s) {
                Some(w) => Ok((Seq::empty(), w.push(d.0.script()))),
                None => Err(Error::CouldNotSatisfy),
            },
            Descriptor::ShWsh(d) => match d.0.satisfaction(s) {
                Some(w) => Ok(
                    (push_data(v0_script(sha256(d.0.script()))), w.push(d.0.script())),
                ),
                None => Err(Error::CouldNotSatisfy),
            },
        }
    }

    /// The bound on the weight of a satisfaction, form by form.
    pub open spec fn spec_max_satisfaction_weight(self) -> nat {
        match self {
            Descriptor::Bare(d) => {
                let n = d.0.max_sat(size_costs(1));
                4 * (varint_size(n) + n)
            },
            Descriptor::Pk(_) => 4 * (1 + 73),
            Descriptor::Pkh(_) => 4 * (1 + 73 + 34),
            Descriptor::Wpkh(_) => 4 + 1 + 73 + 34,
            Descriptor::ShWpkh(_) => 4 * 24 + 1 + 73 + 34,
            Descriptor::Sh(d) => {
                let ss = d.0.script().len();
                let n = push_size(ss) + ss + d.0.max_sat(size_costs(1));
                4 * (varint_size(n) + n)
            },
            Descriptor::Wsh(d) => {
                let ss = d.0.script().len();
                4 + varint_size(ss) + ss + varint_size(d.0.max_sat(count_costs())) + d.0.max_sat(
                    size_costs(2),
                )
            },
            Descriptor::ShWsh(d) => {
                let ss = d.0.script().len();
                4 * 36 + varint_size(ss) + ss + varint_size(d.0.max_sat(count_costs()))
                    + d.0.max_sat(size_costs(2))
            },
        }
    }

    /// Attempts to produce a satisfying witness and scriptSig to spend an
    /// output controlled by the given descriptor; add the data to a given
    /// `TxIn` output.
    ///
    /// A bare script, a key and P2SH take the stack as pushes of the
    /// scriptSig, P2SH with the script as the last push; the witness forms
    /// take it as the witness, with the script as its last element, and
    /// leave the scriptSig empty or, inside P2SH, with the push of the
    /// witness program. Nothing else of the input changes, and nothing at
    /// all where the result is an error.
    pub fn satisfy(&self, txin: &mut TxIn, satisfier: &Satisfier) -> (r: Result<(), Error>)
        requires
            satisfier.wf(),
        ensures
            match r {
                Ok(_) => self.spec_satisfy(satisfier) == Ok::<(Seq<u8>, Seq<Seq<u8>>), Error>(
                    (final(txin).script_sig@, stack_view(final(txin).witness@)),
                ) && final(txin).previous_output == old(txin).previous_output
                    && final(txin).sequence == old(txin).sequence,
                Err(e) => self.spec_satisfy(satisfier) == Err::<(Seq<u8>, Seq<Seq<u8>>), Error>(e)
                    && *final(txin) == *old(txin),
            },
    {
        match self {
            Descriptor::Bare(d) => {
                let wit = match d.0.satisfy(satisfier) {
                    Some(wit) => wit,
                    None => return Err(Error::CouldNotSatisfy),
                };
                txin.script_sig = write_script_sig(&wit);
                txin.witness = no_witness();
                Ok(())
            },
            Descriptor::Pk(pk) => {
                match satisfier.lookup_sig(pk) {
                    Some(sig) => {
                        txin.script_sig = write_script_sig(&sig_alone(sig));
                        txin.witness = no_witness();
                        Ok(())
                    },
                    None => Err(Error::MissingSig(*pk)),
                }
            },
            Descriptor::Pkh(pk) => {
                match satisfier.lookup_sig(pk) {
                    Some(sig) => {
                        txin.script_sig = write_script_sig(&key_witness(sig, pk));
                        txin.witness = no_witness();
                        Ok(())
                    },
                    None => Err(Error::MissingSig(*pk)),
                }
            },
            Descriptor::Wpkh(pk) => {
                match satisfier.lookup_sig(pk) {
                    Some(sig) => {
                        txin.script_sig = Vec::new();
                        txin.witness = key_witness(sig, pk);
                        Ok(())
                    },
                    None => Err(Error::MissingSig(*pk)),
                }
            },
            Descriptor::ShWpkh(pk) => {
                match satisfier.lookup_sig(pk) {
                    Some(sig) => {
                        let redeem_script = write_v0(
                            hash160_of(pk.bytes.as_slice()).as_slice(),
                        );
                        txin.script_sig = push_of(redeem_script.as_slice());
                        txin.witness = key_witness(sig, pk);
                        Ok(())
                    },
                    None => Err(Error::MissingSig(*pk)),
                }
            },
            Descriptor::Sh(d) => {
                let witness = match d.0.satisfy(satisfier) {
                    Some(wit) => wit,
                    None => return Err(Error::CouldNotSatisfy),
                };
                let script = d.serialize();
                if script.len() > MAX_PUSH {
                    return Err(Error::ContextError(Context::ScriptSize));
                }
                let witness = push_script(witness, script);
                txin.script_sig = write_script_sig(&witness);
                txin.witness = no_witness();
                Ok(())
            },
            Descriptor::Wsh(d) => {
                let witness = match d.0.satisfy(satisfier) {
                    Some(wit) => wit,
                    None => return Err(Error::CouldNotSatisfy),
                };
                let witness = push_script(witness, d.serialize());
                txin.script_sig = Vec::new();
                txin.witness = witness;
                Ok(())
            },
            Descriptor::ShWsh(d) => {
                let witness = match d.0.satisfy(satisfier) {
                    Some(wit) => wit,
                    None => return Err(Error::CouldNotSatisfy),
                };
                let witness_script = d.serialize();
                let program = write_v0(sha256_of(witness_script.as_slice()).as_slice());
                txin.script_sig = push_of(program.as_slice());
                txin.witness = push_script(witness, witness_script);
                Ok(())
            },
        }
    }

    /// Computes an upper bound on the weight of a satisfying witness to the
    /// transaction. Assumes all signatures are 73 bytes, including push
    /// opcode and sighash suffix. Includes the weight of the VarInts
    /// encoding the scriptSig and witness stack length. `None` where the
    /// bound is more than the machine counts.
    pub fn max_satisfaction_weight(&self) -> (r: Option<usize>)
        ensures
            r == clip(self.spec_max_satisfaction_weight()),
    {
        match self {
            Descriptor::Bare(ms) => {
                let scriptsig_len = ms.0.max_satisfaction_size(1);
                script_sig_weight(scriptsig_len, Ghost(ms.0.max_sat(size_costs(1))))
            },
            Descriptor::Pk(_) => exactly(4 * (1 + 73)),
            Descriptor::Pkh(_) => exactly(4 * (1 + 73 + 34)),
            Descriptor::Wpkh(_) => exactly(4 + 1 + 73 + 34),
            Descriptor::ShWpkh(_) => exactly(4 * 24 + 1 + 73 + 34),
            Descriptor::Sh(ms) => {
                let ss = ms.0.script_size();
                let push_size: usize = if ss < 76 {
                    1
                } else if ss < 0x100 {
                    2
                } else if ss < 0x10000 {
                    3
                } else {
                    5
                };
                let ghost z = ms.0.max_sat(size_costs(1));
                let with_push = sum(
                    Some(push_size),
                    Some(ss),
                    Ghost(push_size as nat),
                    Ghost(ss as nat),
                );
                let scriptsig_len = sum(
                    with_push,
                    ms.0.max_satisfaction_size(1),
                    Ghost((push_size + ss) as nat),
                    Ghost(z),
                );
                script_sig_weight(scriptsig_len, Ghost((push_size + ss + z) as nat))
            },
            Descriptor::Wsh(ms) => witness_weight(
                4,
                ms.0.script_size(),
                ms.0.max_satisfaction_witness_elements(),
                ms.0.max_satisfaction_size(2),
                Ghost(ms.0.max_sat(count_costs())),
                Ghost(ms.0.max_sat(size_costs(2))),
            ),
            Descriptor::ShWsh(ms) => witness_weight(
                4 * 36,
                ms.0.script_size(),
                ms.0.max_satisfaction_witness_elements(),
                ms.0.max_satisfaction_size(2),
                Ghost(ms.0.max_sat(count_costs())),
                Ghost(ms.0.max_sat(size_costs(2))),
            ),
        }
    }
}

/// `name(inner)`
pub open spec fn call_text(name: Name, inner: Seq<u8>) -> Seq<u8> {
    name.bytes() + seq![LPAREN] + inner + seq![RPAREN]
}

/// Writes `name(` in front of what `inner` writes and `)` behind it.
fn write_call(name: Name, inner: Vec<u8>) -> (r: Vec<u8>)
    ensures
        r@ == call_text(name, inner@),
{
    let mut out: Vec<u8> = Vec::new();
    extend(&mut out, name.text().as_bytes());
    out.push(LPAREN);
    extend(&mut out, inner.as_slice());
    out.push(RPAREN);
    assert(out@ =~= call_text(name, inner@));
    out
}

/// The hexadecimal digits of a key.
fn key_hex(key: &PublicKey) -> (r: Vec<u8>)
    ensures
        r@ == hex(key.bytes@),
{
    let mut out: Vec<u8> = Vec::new();
    write_hex(&mut out, key.bytes.as_slice());
    out
}

/// The descriptor that `make` makes of the key that an argument spells.
pub open spec fn with_key(
    a: TreeView,
    make: spec_fn(PublicKey) -> Descriptor<PublicKey>,
) -> Result<Descriptor<PublicKey>, ErrorView> {
    match key_of(a) {
        Ok(k) => Ok(make(k)),
        Err(e) => Err(e),
    }
}

/// The descriptor that `make` makes of the script that an expression
/// spells.
pub open spec fn with_script(
    a: TreeView,
    make: spec_fn(Descript<PublicKey>) -> Descriptor<PublicKey>,
) -> Result<Descriptor<PublicKey>, ErrorView> {
    match descript_of(a) {
        Ok(t) => Ok(make(Descript(t))),
        Err(e) => Err(e),
    }
}

/// The name that the expression applies to a single argument; `Unknown`
/// where it has none or several.
pub open spec fn called(t: TreeView) -> Name {
    if t.args.len() == 1 {
        classify(t.name)
    } else {
        Name::Unknown
    }
}

/// The descriptor that an expression spells: one of the envelopes around a
/// key or a script, or a bare script.
pub open spec fn descriptor_of(top: TreeView) -> Result<Descriptor<PublicKey>, ErrorView> {
    match called(top) {
        Name::Pk => with_key(top.args[0], |k: PublicKey| Descriptor::Pk(k)),
        Name::Pkh => with_key(top.args[0], |k: PublicKey| Descriptor::Pkh(k)),
        Name::Wpkh => with_key(top.args[0], |k: PublicKey| Descriptor::Wpkh(k)),
        Name::Sh => match called(top.args[0]) {
            Name::Wsh => with_script(
                top.args[0].args[0],
                |d: Descript<PublicKey>| Descriptor::ShWsh(d),
            ),
            Name::Wpkh => with_key(top.args[0].args[0], |k: PublicKey| Descriptor::ShWpkh(k)),
            _ => with_script(top.args[0], |d: Descript<PublicKey>| Descriptor::Sh(d)),
        },
        Name::Wsh => with_script(top.args[0], |d: Descript<PublicKey>| Descriptor::Wsh(d)),
        _ => with_script(top, |d: Descript<PublicKey>| Descriptor::Bare(d)),
    }
}

/// The descriptor that a text spells.
pub open spec fn descriptor_of_text(s: Seq<u8>) -> Result<Descriptor<PublicKey>, ErrorView> {
    match parse_text(s) {
        Ok(t) => descriptor_of(t),
        Err(e) => Err(e),
    }
}

/// The name that the expression applies to a single argument.
fn call_name(t: &Tree) -> (r: Name)
    ensures
        r == called(t.model()),
{
    proof {
        lemma_trees_model(t.args@);
    }
    if t.args.len() == 1 {
        name_of(t.name.as_slice())
    } else {
        Name::Unknown
    }
}

impl Descriptor<PublicKey> {
    /// The descriptor in the textual form.
    pub open spec fn text(self) -> Seq<u8> {
        match self {
            Descriptor::Bare(d) => d.0.text(),
            Descriptor::Pk(k) => call_text(Name::Pk, hex(k.bytes@)),
            Descriptor::Pkh(k) => call_text(Name::Pkh, hex(k.bytes@)),
            Descriptor::Wpkh(k) => call_text(Name::Wpkh, hex(k.bytes@)),
            Descriptor::ShWpkh(k) => call_text(Name::Sh, call_text(Name::Wpkh, hex(k.bytes@))),
            Descriptor::Sh(d) => call_text(Name::Sh, d.0.text()),
            Descriptor::Wsh(d) => call_text(Name::Wsh, d.0.text()),
            Descriptor::ShWsh(d) => call_text(Name::Sh, call_text(Name::Wsh, d.0.text())),
        }
    }

    /// Parse an expression tree into a descriptor. The answer is that of
    /// `descriptor_of`, and the script of a descriptor that is returned is
    /// well formed.
    pub fn from_tree(top: &Tree) -> (r: Result<Descriptor<PublicKey>, Error>)
        ensures
            match r {
                Ok(d) => descriptor_of(top.model()) == Ok::<Descriptor<PublicKey>, ErrorView>(d),
                Err(e) => descriptor_of(top.model()) == Err::<Descriptor<PublicKey>, ErrorView>(
                    e@,
                ),
            },
            r matches Ok(d) ==> d.wf(),
    {
        proof {
            lemma_trees_model(top.args@);
        }
        match call_name(top) {
            Name::Pk => Ok(Descriptor::Pk(read_key_arg(&top.args[0])?)),
            Name::Pkh => Ok(Descriptor::Pkh(read_key_arg(&top.args[0])?)),
            Name::Wpkh => Ok(Descriptor::Wpkh(read_key_arg(&top.args[0])?)),
            Name::Sh => {
                let newtop = &top.args[0];
                proof {
                    lemma_trees_model(newtop.args@);
                }
                match call_name(newtop) {
                    Name::Wsh => Ok(Descriptor::ShWsh(Descript::from_tree(&newtop.args[0])?)),
                    Name::Wpkh => Ok(Descriptor::ShWpkh(read_key_arg(&newtop.args[0])?)),
                    _ => Ok(Descriptor::Sh(Descript::from_tree(newtop)?)),
                }
            },
            Name::Wsh => Ok(Descriptor::Wsh(Descript::from_tree(&top.args[0])?)),
            _ => Ok(Descriptor::Bare(Descript::from_tree(top)?)),
        }
    }

    /// Reads a descriptor from its text. The answer is that of
    /// `descriptor_of_text`: the error of the expression where the text is
    /// none, and else what `from_tree` makes of the expression.
    pub fn from_str(s: &str) -> (r: Result<Descriptor<PublicKey>, Error>)
        ensures
            match r {
                Ok(d) => descriptor_of_text(s.spec_bytes()) == Ok::<
                    Descriptor<PublicKey>,
                    ErrorView,
                >(d),
                Err(e) => descriptor_of_text(s.spec_bytes()) == Err::<
                    Descriptor<PublicKey>,
                    ErrorView,
                >(e@),
            },
            r matches Ok(d) ==> d.wf(),
    {
        let top = Tree::from_str(s)?;
        Descriptor::from_tree(&top)
    }

    /// The descriptor in the textual form.
    pub fn to_bytes(&self) -> (r: Vec<u8>)
        ensures
            r@ == self.text(),
    {
        match self {
            Descriptor::Bare(d) => d.to_bytes(),
            Descriptor::Pk(k) => write_call(Name::Pk, key_hex(k)),
            Descriptor::Pkh(k) => write_call(Name::Pkh, key_hex(k)),
            Descriptor::Wpkh(k) => write_call(Name::Wpkh, key_hex(k)),
            Descriptor::ShWpkh(k) => write_call(Name::Sh, write_call(Name::Wpkh, key_hex(k))),
            Descriptor::Sh(d) => write_call(Name::Sh, d.to_bytes()),
            Descriptor::Wsh(d) => write_call(Name::Wsh, d.to_bytes()),
            Descriptor::ShWsh(d) => write_call(Name::Sh, write_call(Name::Wsh, d.to_bytes())),
        }
    }

    /// The descriptor in the textual form, as a string.
    pub fn to_string(&self) -> (r: String)
        ensures
            r@ == ascii_chars(self.text()),
    {
        proof {
            lemma_ascii_descriptor(*self);
        }
        to_text(self.to_bytes())
    }
}

} // verus!
