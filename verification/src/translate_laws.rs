//! What a change of keys that keeps the bytes of every key does to a
//! script: nothing.

use vstd::prelude::*;
use crate::astelem::{E, T, V, W};
use crate::bytes::lemma_array_eq;
use crate::descriptor::Descriptor;
use crate::key::PublicKey;
use crate::list::List;
use crate::translate::{keys_translate, ws_translate};

verus! {

/// Whatever `f` returns for a key has the bytes of that key.
pub open spec fn keeps_bytes<Er, F: Fn(&PublicKey) -> Result<PublicKey, Er>>(f: F) -> bool {
    forall|k: PublicKey, q: PublicKey| #[trigger]
        call_ensures(f, (&k,), Ok::<PublicKey, Er>(q)) ==> q.bytes@ == k.bytes@
}

proof fn lemma_same_key<Er, F: Fn(&PublicKey) -> Result<PublicKey, Er>>(
    k: PublicKey,
    q: PublicKey,
    f: F,
)
    requires
        keeps_bytes(f),
        call_ensures(f, (&k,), Ok::<PublicKey, Er>(q)),
    ensures
        q == k,
{
    lemma_array_eq(q.bytes, k.bytes);
}

proof fn lemma_same_keys<Er, F: Fn(&PublicKey) -> Result<PublicKey, Er>>(
    ks: List<PublicKey>,
    qs: List<PublicKey>,
    f: F,
)
    requires
        keeps_bytes(f),
        keys_translate(ks, qs, f),
    ensures
        qs == ks,
    decreases ks,
{
    match (ks, qs) {
        (List::Cons(k, rest), List::Cons(q, more)) => {
            lemma_same_key(k, q, f);
            lemma_same_keys(*rest, *more, f);
        },
        _ => {},
    }
}

proof fn lemma_same_ws<Er, F: Fn(&PublicKey) -> Result<PublicKey, Er>>(
    ws: List<W<PublicKey>>,
    out: List<W<PublicKey>>,
    f: F,
)
    requires
        keeps_bytes(f),
        ws_translate(ws, out, f),
    ensures
        out == ws,
    decreases ws,
{
    match (ws, out) {
        (List::Cons(w, rest), List::Cons(x, more)) => {
            lemma_same_w(w, x, f);
            lemma_same_ws(*rest, *more, f);
        },
        _ => {},
    }
}

proof fn lemma_same_e<Er, F: Fn(&PublicKey) -> Result<PublicKey, Er>>(
    x: E<PublicKey>,
    y: E<PublicKey>,
    f: F,
)
    requires
        keeps_bytes(f),
        x.translates(y, f),
    ensures
        y == x,
    decreases x,
{
    match (x, y) {
        (E::CheckSig(a), E::CheckSig(a2)) => {
            lemma_same_key(a, a2, f);
        },
        (E::CheckMultiSig(_, b), E::CheckMultiSig(_, b2)) => {
            lemma_same_keys(b, b2, f);
        },
        (E::Threshold(_, b, c), E::Threshold(_, b2, c2)) => {
            lemma_same_e(*b, *b2, f);
            lemma_same_ws(c, c2, f);
        },
        (E::ParallelAnd(a, b), E::ParallelAnd(a2, b2)) => {
            lemma_same_e(*a, *a2, f);
            lemma_same_w(*b, *b2, f);
        },
        (E::CascadeAnd(a, b), E::CascadeAnd(a2, b2)) => {
            lemma_same_e(*a, *a2, f);
            lemma_same_t(*b, *b2, f);
        },
        (E::ParallelOr(a, b), E::ParallelOr(a2, b2)) => {
            lemma_same_e(*a, *a2, f);
            lemma_same_w(*b, *b2, f);
        },
        (E::CascadeOr(a, b), E::CascadeOr(a2, b2)) => {
            lemma_same_e(*a, *a2, f);
            lemma_same_t(*b, *b2, f);
        },
        (E::SwitchOrLeft(a, b), E::SwitchOrLeft(a2, b2)) => {
            lemma_same_e(*a, *a2, f);
            lemma_same_t(*b, *b2, f);
        },
        (E::SwitchOrRight(a, b), E::SwitchOrRight(a2, b2)) => {
            lemma_same_e(*a, *a2, f);
            lemma_same_t(*b, *b2, f);
        },
        (E::Likely(a), E::Likely(a2)) => {
            lemma_same_t(*a, *a2, f);
        },
        (E::Unlikely(a), E::Unlikely(a2)) => {
            lemma_same_t(*a, *a2, f);
        },
        _ => {},
    }
}

proof fn lemma_same_w<Er, F: Fn(&PublicKey) -> Result<PublicKey, Er>>(
    x: W<PublicKey>,
    y: W<PublicKey>,
    f: F,
)
    requires
        keeps_bytes(f),
        x.translates(y, f),
    ensures
        y == x,
    decreases x,
{
    match (x, y) {
        (W::CheckSig(a), W::CheckSig(a2)) => {
            lemma_same_key(a, a2, f);
        },
        (W::CastE(a), W::CastE(a2)) => {
            lemma_same_e(*a, *a2, f);
        },
        _ => {},
    }
}

proof fn lemma_same_v<Er, F: Fn(&PublicKey) -> Result<PublicKey, Er>>(
    x: V<PublicKey>,
    y: V<PublicKey>,
    f: F,
)
    requires
        keeps_bytes(f),
        x.translates(y, f),
    ensures
        y == x,
    decreases x,
{
    match (x, y) {
        (V::CheckSig(a), V::CheckSig(a2)) => {
            lemma_same_key(a, a2, f);
        },
        (V::CheckMultiSig(_, b), V::CheckMultiSig(_, b2)) => {
            lemma_same_keys(b, b2, f);
        },
        (V::And(a, b), V::And(a2, b2)) => {
            lemma_same_v(*a, *a2, f);
            lemma_same_v(*b, *b2, f);
        },
        (V::SwitchOr(a, b), V::SwitchOr(a2, b2)) => {
            lemma_same_v(*a, *a2, f);
            lemma_same_v(*b, *b2, f);
        },
        (V::SwitchOrT(a, b), V::SwitchOrT(a2, b2)) => {
            lemma_same_t(*a, *a2, f);
            lemma_same_t(*b, *b2, f);
        },
        (V::CascadeOr(a, b), V::CascadeOr(a2, b2)) => {
            lemma_same_e(*a, *a2, f);
            lemma_same_v(*b, *b2, f);
        },
        (V::Threshold(_, b, c), V::Threshold(_, b2, c2)) => {
            lemma_same_e(*b, *b2, f);
            lemma_same_ws(c, c2, f);
        },
        _ => {},
    }
}

proof fn lemma_same_t<Er, F: Fn(&PublicKey) -> Result<PublicKey, Er>>(
    x: T<PublicKey>,
    y: T<PublicKey>,
    f: F,
)
    requires
        keeps_bytes(f),
        x.translates(y, f),
    ensures
        y == x,
    decreases x,
{
    match (x, y) {
        (T::And(a, b), T::And(a2, b2)) => {
            lemma_same_v(*a, *a2, f);
            lemma_same_t(*b, *b2, f);
        },
        (T::ParallelOr(a, b), T::ParallelOr(a2, b2)) => {
            lemma_same_e(*a, *a2, f);
            lemma_same_w(*b, *b2, f);
        },
        (T::CascadeOr(a, b), T::CascadeOr(a2, b2)) => {
            lemma_same_e(*a, *a2, f);
            lemma_same_t(*b, *b2, f);
        },
        (T::SwitchOr(a, b), T::SwitchOr(a2, b2)) => {
            lemma_same_t(*a, *a2, f);
            lemma_same_t(*b, *b2, f);
        },
        (T::SwitchOrV(a, b), T::SwitchOrV(a2, b2)) => {
            lemma_same_v(*a, *a2, f);
            lemma_same_v(*b, *b2, f);
        },
        (T::CastE(a), T::CastE(a2)) => {
            lemma_same_e(*a, *a2, f);
        },
        _ => {},
    }
}

/// A translation that keeps the bytes of every key commutes with
/// encoding: the result has the Script program of what was translated.
pub proof fn law_translate_encode<Er, F: Fn(&PublicKey) -> Result<PublicKey, Er>>(
    x: T<PublicKey>,
    y: T<PublicKey>,
    f: F,
)
    requires
        keeps_bytes(f),
        x.translates(y, f),
    ensures
        y.script() == x.script(),
        y.wf() == x.wf(),
{
    lemma_same_t(x, y, f);
}

/// A translation that keeps the bytes of every key leaves the
/// scriptPubKey of a descriptor as it is.
pub proof fn law_translate_script_pubkey<Er, F: Fn(&PublicKey) -> Result<PublicKey, Er>>(
    x: Descriptor<PublicKey>,
    y: Descriptor<PublicKey>,
    f: F,
)
    requires
        keeps_bytes(f),
        x.translates(y, f),
    ensures
        y.spec_script_pubkey() == x.spec_script_pubkey(),
{
    match (x, y) {
        (Descriptor::Bare(a), Descriptor::Bare(b)) => lemma_same_t(a.0, b.0, f),
        (Descriptor::Sh(a), Descriptor::Sh(b)) => lemma_same_t(a.0, b.0, f),
        (Descriptor::Wsh(a), Descriptor::Wsh(b)) => lemma_same_t(a.0, b.0, f),
        (Descriptor::ShWsh(a), Descriptor::ShWsh(b)) => lemma_same_t(a.0, b.0, f),
        (Descriptor::Pk(a), Descriptor::Pk(b)) => lemma_same_key(a, b, f),
        (Descriptor::Pkh(a), Descriptor::Pkh(b)) => lemma_same_key(a, b, f),
        (Descriptor::Wpkh(a), Descriptor::Wpkh(b)) => lemma_same_key(a, b, f),
        (Descriptor::ShWpkh(a), Descriptor::ShWpkh(b)) => lemma_same_key(a, b, f),
        _ => {},
    }
}

} // verus!
