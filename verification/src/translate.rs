//! The keys of a tree, and the change of a tree's keys by a function.

use vstd::prelude::*;
use crate::astelem::{E, T, V, W};
use crate::descript::Descript;
use crate::list::List;

verus! {

/// The keys of the later children of a threshold, in order.
pub open spec fn ws_keys<K>(ws: List<W<K>>) -> Seq<K>
    decreases ws,
{
    match ws {
        List::Nil => Seq::empty(),
        List::Cons(w, rest) => w.keys() + ws_keys(*rest),
    }
}

/// The hashes of the later children of a threshold, in order.
pub open spec fn ws_hashes<K>(ws: List<W<K>>) -> Seq<[u8; 32]>
    decreases ws,
{
    match ws {
        List::Nil => Seq::empty(),
        List::Cons(w, rest) => w.hashes() + ws_hashes(*rest),
    }
}

/// Appends the hashes under `ws`.
fn collect_ws_hashes<K>(ws: &List<W<K>>, out: &mut Vec<[u8; 32]>)
    ensures
        final(out)@ == old(out)@ + ws_hashes(*ws),
    decreases ws,
{
    let ghost before = out@;
    match ws {
        List::Nil => {},
        List::Cons(w, rest) => {
            w.collect_hashes(out);
            collect_ws_hashes(rest, out);
        },
    }
    assert(out@ =~= before + ws_hashes(*ws));
}

/// `f` can turn every key of `ks` into one of `qs`, place by place.
pub open spec fn keys_translate<K, Q, Er, F: Fn(&K) -> Result<Q, Er>>(
    ks: List<K>,
    qs: List<Q>,
    f: F,
) -> bool
    decreases ks,
{
    match (ks, qs) {
        (List::Nil, List::Nil) => true,
        (List::Cons(k, rest), List::Cons(q, more)) => call_ensures(f, (&k,), Ok::<Q, Er>(q))
            && keys_translate(*rest, *more, f),
        _ => false,
    }
}

/// `f` may be called on every key of `ks`.
pub open spec fn keys_can<K, Q, Er, F: Fn(&K) -> Result<Q, Er>>(ks: List<K>, f: F) -> bool
    decreases ks,
{
    match ks {
        List::Nil => true,
        List::Cons(k, rest) => call_requires(f, (&k,)) && keys_can(*rest, f),
    }
}

/// `f` can fail with `e` on a key of `ks`.
pub open spec fn keys_fail<K, Q, Er, F: Fn(&K) -> Result<Q, Er>>(ks: List<K>, f: F, e: Er) -> bool
    decreases ks,
{
    match ks {
        List::Nil => false,
        List::Cons(k, rest) => call_ensures(f, (&k,), Err::<Q, Er>(e)) || keys_fail(*rest, f, e),
    }
}

/// `f` can turn every key under `ws` into the key at its place under `out`,
/// and the two lists are alike in everything else.
pub open spec fn ws_translate<K, Q, Er, F: Fn(&K) -> Result<Q, Er>>(
    ws: List<W<K>>,
    out: List<W<Q>>,
    f: F,
) -> bool
    decreases ws,
{
    match (ws, out) {
        (List::Nil, List::Nil) => true,
        (List::Cons(w, rest), List::Cons(x, more)) => w.translates(x, f) && ws_translate(
            *rest,
            *more,
            f,
        ),
        _ => false,
    }
}

/// `f` may be called on every key under `ws`.
pub open spec fn ws_can<K, Q, Er, F: Fn(&K) -> Result<Q, Er>>(ws: List<W<K>>, f: F) -> bool
    decreases ws,
{
    match ws {
        List::Nil => true,
        List::Cons(w, rest) => w.can_translate(f) && ws_can(*rest, f),
    }
}

/// `f` can fail with `e` on a key under `ws`.
pub open spec fn ws_fail<K, Q, Er, F: Fn(&K) -> Result<Q, Er>>(
    ws: List<W<K>>,
    f: F,
    e: Er,
) -> bool
    decreases ws,
{
    match ws {
        List::Nil => false,
        List::Cons(w, rest) => w.fails_with(f, e) || ws_fail(*rest, f, e),
    }
}

/// A copy of a list of keys.
fn duplicate_list<K: Copy>(keys: &List<K>) -> (r: List<K>)
    ensures
        r == *keys,
    decreases keys,
{
    match keys {
        List::Nil => List::Nil,
        List::Cons(k, rest) => List::Cons(*k, Box::new(duplicate_list(rest))),
    }
}

/// A copy of the later children of a threshold.
fn duplicate_ws<K: Copy>(ws: &List<W<K>>) -> (r: List<W<K>>)
    ensures
        r == *ws,
    decreases ws,
{
    match ws {
        List::Nil => List::Nil,
        List::Cons(w, rest) => List::Cons(w.duplicate(), Box::new(duplicate_ws(rest))),
    }
}

/// Appends the keys of `keys`.
fn collect_list<K: Copy>(keys: &List<K>, out: &mut Vec<K>)
    ensures
        final(out)@ == old(out)@ + keys.seq(),
    decreases keys,
{
    let ghost before = out@;
    match keys {
        List::Nil => {},
        List::Cons(k, rest) => {
            out.push(*k);
            collect_list(rest, out);
        },
    }
    assert(out@ =~= before + keys.seq());
}

/// Appends the keys under `ws`.
fn collect_ws<K: Copy>(ws: &List<W<K>>, out: &mut Vec<K>)
    ensures
        final(out)@ == old(out)@ + ws_keys(*ws),
    decreases ws,
{
    let ghost before = out@;
    match ws {
        List::Nil => {},
        List::Cons(w, rest) => {
            w.collect_keys(out);
            collect_ws(rest, out);
        },
    }
    assert(out@ =~= before + ws_keys(*ws));
}

/// Translates a list of keys.
fn translate_list<K, Q, Er, F: Fn(&K) -> Result<Q, Er>>(keys: &List<K>, f: &F) -> (r: Result<
    List<Q>,
    Er,
>)
    requires
        keys_can(*keys, *f),
    ensures
        match r {
            Ok(out) => keys_translate(*keys, out, *f),
            Err(e) => keys_fail(*keys, *f, e),
        },
    decreases keys,
{
    match keys {
        List::Nil => Ok(List::Nil),
        List::Cons(k, rest) => {
            let q = f(k)?;
            let more = translate_list(rest, f)?;
            Ok(List::Cons(q, Box::new(more)))
        },
    }
}

/// Translates the later children of a threshold.
fn translate_ws<K, Q, Er, F: Fn(&K) -> Result<Q, Er>>(ws: &List<W<K>>, f: &F) -> (r: Result<
    List<W<Q>>,
    Er,
>)
    requires
        ws_can(*ws, *f),
    ensures
        match r {
            Ok(out) => ws_translate(*ws, out, *f),
            Err(e) => ws_fail(*ws, *f, e),
        },
    decreases ws,
{
    match ws {
        List::Nil => Ok(List::Nil),
        List::Cons(w, rest) => {
            let x = w.translate(f)?;
            let more = translate_ws(rest, f)?;
            Ok(List::Cons(x, Box::new(more)))
        },
    }
}

impl<K> E<K> {
    /// The keys of the fragment, variant by variant in the order of its fields.
    pub open spec fn keys(self) -> Seq<K>
        decreases self,
    {
        match self {
            E::CheckSig(a) => seq![a],
            E::CheckMultiSig(a, b) => b.seq(),
            E::Time(a) => Seq::empty(),
            E::Threshold(a, b, c) => b.keys() + ws_keys(c),
            E::ParallelAnd(a, b) => a.keys() + b.keys(),
            E::CascadeAnd(a, b) => a.keys() + b.keys(),
            E::ParallelOr(a, b) => a.keys() + b.keys(),
            E::CascadeOr(a, b) => a.keys() + b.keys(),
            E::SwitchOrLeft(a, b) => a.keys() + b.keys(),
            E::SwitchOrRight(a, b) => a.keys() + b.keys(),
            E::Likely(a) => a.keys(),
            E::Unlikely(a) => a.keys(),
        }
    }

    /// The hashes of the fragment, variant by variant in the order of its fields.
    pub open spec fn hashes(self) -> Seq<[u8; 32]>
        decreases self,
    {
        match self {
            E::CheckSig(_) => Seq::empty(),
            E::CheckMultiSig(_, _) => Seq::empty(),
            E::Time(_) => Seq::empty(),
            E::Threshold(_, b, c) => b.hashes() + ws_hashes(c),
            E::ParallelAnd(a, b) => a.hashes() + b.hashes(),
            E::CascadeAnd(a, b) => a.hashes() + b.hashes(),
            E::ParallelOr(a, b) => a.hashes() + b.hashes(),
            E::CascadeOr(a, b) => a.hashes() + b.hashes(),
            E::SwitchOrLeft(a, b) => a.hashes() + b.hashes(),
            E::SwitchOrRight(a, b) => a.hashes() + b.hashes(),
            E::Likely(a) => a.hashes(),
            E::Unlikely(a) => a.hashes(),
        }
    }

    /// Appends the hashes of the fragment.
    pub fn collect_hashes(&self, out: &mut Vec<[u8; 32]>)
        ensures
            final(out)@ == old(out)@ + self.hashes(),
        decreases self,
    {
        let ghost before = out@;
        match self {
            E::CheckSig(_) => {
            },
            E::CheckMultiSig(_, _) => {
            },
            E::Time(_) => {
            },
            E::Threshold(_, b, c) => {
                b.collect_hashes(out);
                collect_ws_hashes(c, out);
            },
            E::ParallelAnd(a, b) => {
                a.collect_hashes(out);
                b.collect_hashes(out);
            },
            E::CascadeAnd(a, b) => {
                a.collect_hashes(out);
                b.collect_hashes(out);
            },
            E::ParallelOr(a, b) => {
                a.collect_hashes(out);
                b.collect_hashes(out);
            },
            E::CascadeOr(a, b) => {
                a.collect_hashes(out);
                b.collect_hashes(out);
            },
            E::SwitchOrLeft(a, b) => {
                a.collect_hashes(out);
                b.collect_hashes(out);
            },
            E::SwitchOrRight(a, b) => {
                a.collect_hashes(out);
                b.collect_hashes(out);
            },
            E::Likely(a) => {
                a.collect_hashes(out);
            },
            E::Unlikely(a) => {
                a.collect_hashes(out);
            },
        }
        assert(out@ =~= before + self.hashes());
    }

    /// `out` is this fragment with every key replaced by one that `f` can
    /// return for it.
    pub open spec fn translates<Q, Er, F: Fn(&K) -> Result<Q, Er>>(self, out: E<Q>, f: F) -> bool
        decreases self,
    {
        match (self, out) {
            (E::CheckSig(a), E::CheckSig(a2)) => call_ensures(f, (&a,), Ok::<Q, Er>(a2)),
            (E::CheckMultiSig(a, b), E::CheckMultiSig(a2, b2)) => a == a2 && keys_translate(
                b,
                b2,
                f,
            ),
            (E::Time(a), E::Time(a2)) => a == a2,
            (E::Threshold(a, b, c), E::Threshold(a2, b2, c2)) => {
                a == a2
                    && b.translates(*b2, f)
                    && ws_translate(c, c2, f)
            },
            (E::ParallelAnd(a, b), E::ParallelAnd(a2, b2)) => a.translates(*a2, f) && b.translates(
                *b2,
                f,
            ),
            (E::CascadeAnd(a, b), E::CascadeAnd(a2, b2)) => a.translates(*a2, f) && b.translates(
                *b2,
                f,
            ),
            (E::ParallelOr(a, b), E::ParallelOr(a2, b2)) => a.translates(*a2, f) && b.translates(
                *b2,
                f,
            ),
            (E::CascadeOr(a, b), E::CascadeOr(a2, b2)) => a.translates(*a2, f) && b.translates(
                *b2,
                f,
            ),
            (E::SwitchOrLeft(a, b), E::SwitchOrLeft(a2, b2)) => {
                a.translates(*a2, f)
                    && b.translates(*b2, f)
            },
            (E::SwitchOrRight(a, b), E::SwitchOrRight(a2, b2)) => {
                a.translates(*a2, f)
                    && b.translates(*b2, f)
            },
            (E::Likely(a), E::Likely(a2)) => a.translates(*a2, f),
            (E::Unlikely(a), E::Unlikely(a2)) => a.translates(*a2, f),
            _ => false,
        }
    }

    /// `f` may be called on every key of the fragment.
    pub open spec fn can_translate<Q, Er, F: Fn(&K) -> Result<Q, Er>>(self, f: F) -> bool
        decreases self,
    {
        match self {
            E::CheckSig(a) => call_requires(f, (&a,)),
            E::CheckMultiSig(a, b) => keys_can(b, f),
            E::Time(a) => true,
            E::Threshold(a, b, c) => b.can_translate(f) && ws_can(c, f),
            E::ParallelAnd(a, b) => a.can_translate(f) && b.can_translate(f),
            E::CascadeAnd(a, b) => a.can_translate(f) && b.can_translate(f),
            E::ParallelOr(a, b) => a.can_translate(f) && b.can_translate(f),
            E::CascadeOr(a, b) => a.can_translate(f) && b.can_translate(f),
            E::SwitchOrLeft(a, b) => a.can_translate(f) && b.can_translate(f),
            E::SwitchOrRight(a, b) => a.can_translate(f) && b.can_translate(f),
            E::Likely(a) => a.can_translate(f),
            E::Unlikely(a) => a.can_translate(f),
        }
    }

    /// `f` can fail with `e` on a key of the fragment.
    pub open spec fn fails_with<Q, Er, F: Fn(&K) -> Result<Q, Er>>(self, f: F, e: Er) -> bool
        decreases self,
    {
        match self {
            E::CheckSig(a) => call_ensures(f, (&a,), Err::<Q, Er>(e)),
            E::CheckMultiSig(a, b) => keys_fail(b, f, e),
            E::Time(a) => false,
            E::Threshold(a, b, c) => b.fails_with(f, e) || ws_fail(c, f, e),
            E::ParallelAnd(a, b) => a.fails_with(f, e) || b.fails_with(f, e),
            E::CascadeAnd(a, b) => a.fails_with(f, e) || b.fails_with(f, e),
            E::ParallelOr(a, b) => a.fails_with(f, e) || b.fails_with(f, e),
            E::CascadeOr(a, b) => a.fails_with(f, e) || b.fails_with(f, e),
            E::SwitchOrLeft(a, b) => a.fails_with(f, e) || b.fails_with(f, e),
            E::SwitchOrRight(a, b) => a.fails_with(f, e) || b.fails_with(f, e),
            E::Likely(a) => a.fails_with(f, e),
            E::Unlikely(a) => a.fails_with(f, e),
        }
    }

    /// Replaces every key by what `f` returns for it; the first error of `f`
    /// ends the walk.
    pub fn translate<Q, Er, F: Fn(&K) -> Result<Q, Er>>(&self, f: &F) -> (r: Result<E<Q>, Er>)
        requires
            self.can_translate(*f),
        ensures
            match r {
                Ok(out) => self.translates(out, *f),
                Err(e) => self.fails_with(*f, e),
            },
        decreases self,
    {
        match self {
            E::CheckSig(a) => {
                let a2 = f(a)?;
                Ok(E::CheckSig(a2))
            },
            E::CheckMultiSig(a, b) => {
                let a2 = *a;
                let b2 = translate_list(b, f)?;
                Ok(E::CheckMultiSig(a2, b2))
            },
            E::Time(a) => {
                let a2 = *a;
                Ok(E::Time(a2))
            },
            E::Threshold(a, b, c) => {
                let a2 = *a;
                let b2 = Box::new(b.translate(f)?);
                let c2 = translate_ws(c, f)?;
                Ok(E::Threshold(a2, b2, c2))
            },
            E::ParallelAnd(a, b) => {
                let a2 = Box::new(a.translate(f)?);
                let b2 = Box::new(b.translate(f)?);
                Ok(E::ParallelAnd(a2, b2))
            },
            E::CascadeAnd(a, b) => {
                let a2 = Box::new(a.translate(f)?);
                let b2 = Box::new(b.translate(f)?);
                Ok(E::CascadeAnd(a2, b2))
            },
            E::ParallelOr(a, b) => {
                let a2 = Box::new(a.translate(f)?);
                let b2 = Box::new(b.translate(f)?);
                Ok(E::ParallelOr(a2, b2))
            },
            E::CascadeOr(a, b) => {
                let a2 = Box::new(a.translate(f)?);
                let b2 = Box::new(b.translate(f)?);
                Ok(E::CascadeOr(a2, b2))
            },
            E::SwitchOrLeft(a, b) => {
                let a2 = Box::new(a.translate(f)?);
                let b2 = Box::new(b.translate(f)?);
                Ok(E::SwitchOrLeft(a2, b2))
            },
            E::SwitchOrRight(a, b) => {
                let a2 = Box::new(a.translate(f)?);
                let b2 = Box::new(b.translate(f)?);
                Ok(E::SwitchOrRight(a2, b2))
            },
            E::Likely(a) => {
                let a2 = Box::new(a.translate(f)?);
                Ok(E::Likely(a2))
            },
            E::Unlikely(a) => {
                let a2 = Box::new(a.translate(f)?);
                Ok(E::Unlikely(a2))
            },
        }
    }
}

impl<K: Copy> E<K> {
    /// A copy of the fragment.
    pub fn duplicate(&self) -> (r: E<K>)
        ensures
            r == *self,
        decreases self,
    {
        match self {
            E::CheckSig(a) => E::CheckSig(*a),
            E::CheckMultiSig(a, b) => E::CheckMultiSig(*a, duplicate_list(b)),
            E::Time(a) => E::Time(*a),
            E::Threshold(a, b, c) => E::Threshold(*a, Box::new(b.duplicate()), duplicate_ws(c)),
            E::ParallelAnd(a, b) => E::ParallelAnd(
                Box::new(a.duplicate()),
                Box::new(b.duplicate()),
            ),
            E::CascadeAnd(a, b) => E::CascadeAnd(Box::new(a.duplicate()), Box::new(b.duplicate())),
            E::ParallelOr(a, b) => E::ParallelOr(Box::new(a.duplicate()), Box::new(b.duplicate())),
            E::CascadeOr(a, b) => E::CascadeOr(Box::new(a.duplicate()), Box::new(b.duplicate())),
            E::SwitchOrLeft(a, b) => E::SwitchOrLeft(
                Box::new(a.duplicate()),
                Box::new(b.duplicate()),
            ),
            E::SwitchOrRight(a, b) => E::SwitchOrRight(
                Box::new(a.duplicate()),
                Box::new(b.duplicate()),
            ),
            E::Likely(a) => E::Likely(Box::new(a.duplicate())),
            E::Unlikely(a) => E::Unlikely(Box::new(a.duplicate())),
        }
    }

    /// Appends the keys of the fragment.
    pub fn collect_keys(&self, out: &mut Vec<K>)
        ensures
            final(out)@ == old(out)@ + self.keys(),
        decreases self,
    {
        let ghost before = out@;
        match self {
            E::CheckSig(a) => {
                out.push(*a);
            },
            E::CheckMultiSig(_, b) => {
                collect_list(b, out);
            },
            E::Time(_) => {
            },
            E::Threshold(_, b, c) => {
                b.collect_keys(out);
                collect_ws(c, out);
            },
            E::ParallelAnd(a, b) => {
                a.collect_keys(out);
                b.collect_keys(out);
            },
            E::CascadeAnd(a, b) => {
                a.collect_keys(out);
                b.collect_keys(out);
            },
            E::ParallelOr(a, b) => {
                a.collect_keys(out);
                b.collect_keys(out);
            },
            E::CascadeOr(a, b) => {
                a.collect_keys(out);
                b.collect_keys(out);
            },
            E::SwitchOrLeft(a, b) => {
                a.collect_keys(out);
                b.collect_keys(out);
            },
            E::SwitchOrRight(a, b) => {
                a.collect_keys(out);
                b.collect_keys(out);
            },
            E::Likely(a) => {
                a.collect_keys(out);
            },
            E::Unlikely(a) => {
                a.collect_keys(out);
            },
        }
        assert(out@ =~= before + self.keys());
    }
}

impl<K> W<K> {
    /// The keys of the fragment, variant by variant in the order of its fields.
    pub open spec fn keys(self) -> Seq<K>
        decreases self,
    {
        match self {
            W::CheckSig(a) => seq![a],
            W::HashEqual(a) => Seq::empty(),
            W::Time(a) => Seq::empty(),
            W::CastE(a) => a.keys(),
        }
    }

    /// The hashes of the fragment, variant by variant in the order of its fields.
    pub open spec fn hashes(self) -> Seq<[u8; 32]>
        decreases self,
    {
        match self {
            W::CheckSig(_) => Seq::empty(),
            W::HashEqual(a) => seq![a],
            W::Time(_) => Seq::empty(),
            W::CastE(a) => a.hashes(),
        }
    }

    /// Appends the hashes of the fragment.
    pub fn collect_hashes(&self, out: &mut Vec<[u8; 32]>)
        ensures
            final(out)@ == old(out)@ + self.hashes(),
        decreases self,
    {
        let ghost before = out@;
        match self {
            W::CheckSig(_) => {
            },
            W::HashEqual(a) => {
                out.push(*a);
            },
            W::Time(_) => {
            },
            W::CastE(a) => {
                a.collect_hashes(out);
            },
        }
        assert(out@ =~= before + self.hashes());
    }

    /// `out` is this fragment with every key replaced by one that `f` can
    /// return for it.
    pub open spec fn translates<Q, Er, F: Fn(&K) -> Result<Q, Er>>(self, out: W<Q>, f: F) -> bool
        decreases self,
    {
        match (self, out) {
            (W::CheckSig(a), W::CheckSig(a2)) => call_ensures(f, (&a,), Ok::<Q, Er>(a2)),
            (W::HashEqual(a), W::HashEqual(a2)) => a == a2,
            (W::Time(a), W::Time(a2)) => a == a2,
            (W::CastE(a), W::CastE(a2)) => a.translates(*a2, f),
            _ => false,
        }
    }

    /// `f` may be called on every key of the fragment.
    pub open spec fn can_translate<Q, Er, F: Fn(&K) -> Result<Q, Er>>(self, f: F) -> bool
        decreases self,
    {
        match self {
            W::CheckSig(a) => call_requires(f, (&a,)),
            W::HashEqual(a) => true,
            W::Time(a) => true,
            W::CastE(a) => a.can_translate(f),
        }
    }

    /// `f` can fail with `e` on a key of the fragment.
    pub open spec fn fails_with<Q, Er, F: Fn(&K) -> Result<Q, Er>>(self, f: F, e: Er) -> bool
        decreases self,
    {
        match self {
            W::CheckSig(a) => call_ensures(f, (&a,), Err::<Q, Er>(e)),
            W::HashEqual(a) => false,
            W::Time(a) => false,
            W::CastE(a) => a.fails_with(f, e),
        }
    }

    /// Replaces every key by what `f` returns for it; the first error of `f`
    /// ends the walk.
    pub fn translate<Q, Er, F: Fn(&K) -> Result<Q, Er>>(&self, f: &F) -> (r: Result<W<Q>, Er>)
        requires
            self.can_translate(*f),
        ensures
            match r {
                Ok(out) => self.translates(out, *f),
                Err(e) => self.fails_with(*f, e),
            },
        decreases self,
    {
        match self {
            W::CheckSig(a) => {
                let a2 = f(a)?;
                Ok(W::CheckSig(a2))
            },
            W::HashEqual(a) => {
                let a2 = *a;
                Ok(W::HashEqual(a2))
            },
            W::Time(a) => {
                let a2 = *a;
                Ok(W::Time(a2))
            },
            W::CastE(a) => {
                let a2 = Box::new(a.translate(f)?);
                Ok(W::CastE(a2))
            },
        }
    }
}

impl<K: Copy> W<K> {
    /// A copy of the fragment.
    pub fn duplicate(&self) -> (r: W<K>)
        ensures
            r == *self,
        decreases self,
    {
        match self {
            W::CheckSig(a) => W::CheckSig(*a),
            W::HashEqual(a) => W::HashEqual(*a),
            W::Time(a) => W::Time(*a),
            W::CastE(a) => W::CastE(Box::new(a.duplicate())),
        }
    }

    /// Appends the keys of the fragment.
    pub fn collect_keys(&self, out: &mut Vec<K>)
        ensures
            final(out)@ == old(out)@ + self.keys(),
        decreases self,
    {
        let ghost before = out@;
        match self {
            W::CheckSig(a) => {
                out.push(*a);
            },
            W::HashEqual(_) => {
            },
            W::Time(_) => {
            },
            W::CastE(a) => {
                a.collect_keys(out);
            },
        }
        assert(out@ =~= before + self.keys());
    }
}

impl<K> V<K> {
    /// The keys of the fragment, variant by variant in the order of its fields.
    pub open spec fn keys(self) -> Seq<K>
        decreases self,
    {
        match self {
            V::CheckSig(a) => seq![a],
            V::CheckMultiSig(a, b) => b.seq(),
            V::Time(a) => Seq::empty(),
            V::HashEqual(a) => Seq::empty(),
            V::And(a, b) => a.keys() + b.keys(),
            V::SwitchOr(a, b) => a.keys() + b.keys(),
            V::SwitchOrT(a, b) => a.keys() + b.keys(),
            V::CascadeOr(a, b) => a.keys() + b.keys(),
            V::Threshold(a, b, c) => b.keys() + ws_keys(c),
        }
    }

    /// The hashes of the fragment, variant by variant in the order of its fields.
    pub open spec fn hashes(self) -> Seq<[u8; 32]>
        decreases self,
    {
        match self {
            V::CheckSig(_) => Seq::empty(),
            V::CheckMultiSig(_, _) => Seq::empty(),
            V::Time(_) => Seq::empty(),
            V::HashEqual(a) => seq![a],
            V::And(a, b) => a.hashes() + b.hashes(),
            V::SwitchOr(a, b) => a.hashes() + b.hashes(),
            V::SwitchOrT(a, b) => a.hashes() + b.hashes(),
            V::CascadeOr(a, b) => a.hashes() + b.hashes(),
            V::Threshold(_, b, c) => b.hashes() + ws_hashes(c),
        }
    }

    /// Appends the hashes of the fragment.
    pub fn collect_hashes(&self, out: &mut Vec<[u8; 32]>)
        ensures
            final(out)@ == old(out)@ + self.hashes(),
        decreases self,
    {
        let ghost before = out@;
        match self {
            V::CheckSig(_) => {
            },
            V::CheckMultiSig(_, _) => {
            },
            V::Time(_) => {
            },
            V::HashEqual(a) => {
                out.push(*a);
            },
            V::And(a, b) => {
                a.collect_hashes(out);
                b.collect_hashes(out);
            },
            V::SwitchOr(a, b) => {
                a.collect_hashes(out);
                b.collect_hashes(out);
            },
            V::SwitchOrT(a, b) => {
                a.collect_hashes(out);
                b.collect_hashes(out);
            },
            V::CascadeOr(a, b) => {
                a.collect_hashes(out);
                b.collect_hashes(out);
            },
            V::Threshold(_, b, c) => {
                b.collect_hashes(out);
                collect_ws_hashes(c, out);
            },
        }
        assert(out@ =~= before + self.hashes());
    }

    /// `out` is this fragment with every key replaced by one that `f` can
    /// return for it.
    pub open spec fn translates<Q, Er, F: Fn(&K) -> Result<Q, Er>>(self, out: V<Q>, f: F) -> bool
        decreases self,
    {
        match (self, out) {
            (V::CheckSig(a), V::CheckSig(a2)) => call_ensures(f, (&a,), Ok::<Q, Er>(a2)),
            (V::CheckMultiSig(a, b), V::CheckMultiSig(a2, b2)) => a == a2 && keys_translate(
                b,
                b2,
                f,
            ),
            (V::Time(a), V::Time(a2)) => a == a2,
            (V::HashEqual(a), V::HashEqual(a2)) => a == a2,
            (V::And(a, b), V::And(a2, b2)) => a.translates(*a2, f) && b.translates(*b2, f),
            (V::SwitchOr(a, b), V::SwitchOr(a2, b2)) => a.translates(*a2, f) && b.translates(
                *b2,
                f,
            ),
            (V::SwitchOrT(a, b), V::SwitchOrT(a2, b2)) => a.translates(*a2, f) && b.translates(
                *b2,
                f,
            ),
            (V::CascadeOr(a, b), V::CascadeOr(a2, b2)) => a.translates(*a2, f) && b.translates(
                *b2,
                f,
            ),
            (V::Threshold(a, b, c), V::Threshold(a2, b2, c2)) => {
                a == a2
                    && b.translates(*b2, f)
                    && ws_translate(c, c2, f)
            },
            _ => false,
        }
    }

    /// `f` may be called on every key of the fragment.
    pub open spec fn can_translate<Q, Er, F: Fn(&K) -> Result<Q, Er>>(self, f: F) -> bool
        decreases self,
    {
        match self {
            V::CheckSig(a) => call_requires(f, (&a,)),
            V::CheckMultiSig(a, b) => keys_can(b, f),
            V::Time(a) => true,
            V::HashEqual(a) => true,
            V::And(a, b) => a.can_translate(f) && b.can_translate(f),
            V::SwitchOr(a, b) => a.can_translate(f) && b.can_translate(f),
            V::SwitchOrT(a, b) => a.can_translate(f) && b.can_translate(f),
            V::CascadeOr(a, b) => a.can_translate(f) && b.can_translate(f),
            V::Threshold(a, b, c) => b.can_translate(f) && ws_can(c, f),
        }
    }

    /// `f` can fail with `e` on a key of the fragment.
    pub open spec fn fails_with<Q, Er, F: Fn(&K) -> Result<Q, Er>>(self, f: F, e: Er) -> bool
        decreases self,
    {
        match self {
            V::CheckSig(a) => call_ensures(f, (&a,), Err::<Q, Er>(e)),
            V::CheckMultiSig(a, b) => keys_fail(b, f, e),
            V::Time(a) => false,
            V::HashEqual(a) => false,
            V::And(a, b) => a.fails_with(f, e) || b.fails_with(f, e),
            V::SwitchOr(a, b) => a.fails_with(f, e) || b.fails_with(f, e),
            V::SwitchOrT(a, b) => a.fails_with(f, e) || b.fails_with(f, e),
            V::CascadeOr(a, b) => a.fails_with(f, e) || b.fails_with(f, e),
            V::Threshold(a, b, c) => b.fails_with(f, e) || ws_fail(c, f, e),
        }
    }

    /// Replaces every key by what `f` returns for it; the first error of `f`
    /// ends the walk.
    pub fn translate<Q, Er, F: Fn(&K) -> Result<Q, Er>>(&self, f: &F) -> (r: Result<V<Q>, Er>)
        requires
            self.can_translate(*f),
        ensures
            match r {
                Ok(out) => self.translates(out, *f),
                Err(e) => self.fails_with(*f, e),
            },
        decreases self,
    {
        match self {
            V::CheckSig(a) => {
                let a2 = f(a)?;
                Ok(V::CheckSig(a2))
            },
            V::CheckMultiSig(a, b) => {
                let a2 = *a;
                let b2 = translate_list(b, f)?;
                Ok(V::CheckMultiSig(a2, b2))
            },
            V::Time(a) => {
                let a2 = *a;
                Ok(V::Time(a2))
            },
            V::HashEqual(a) => {
                let a2 = *a;
                Ok(V::HashEqual(a2))
            },
            V::And(a, b) => {
                let a2 = Box::new(a.translate(f)?);
                let b2 = Box::new(b.translate(f)?);
                Ok(V::And(a2, b2))
            },
            V::SwitchOr(a, b) => {
                let a2 = Box::new(a.translate(f)?);
                let b2 = Box::new(b.translate(f)?);
                Ok(V::SwitchOr(a2, b2))
            },
            V::SwitchOrT(a, b) => {
                let a2 = Box::new(a.translate(f)?);
                let b2 = Box::new(b.translate(f)?);
                Ok(V::SwitchOrT(a2, b2))
            },
            V::CascadeOr(a, b) => {
                let a2 = Box::new(a.translate(f)?);
                let b2 = Box::new(b.translate(f)?);
                Ok(V::CascadeOr(a2, b2))
            },
            V::Threshold(a, b, c) => {
                let a2 = *a;
                let b2 = Box::new(b.translate(f)?);
                let c2 = translate_ws(c, f)?;
                Ok(V::Threshold(a2, b2, c2))
            },
        }
    }
}

impl<K: Copy> V<K> {
    /// A copy of the fragment.
    pub fn duplicate(&self) -> (r: V<K>)
        ensures
            r == *self,
        decreases self,
    {
        match self {
            V::CheckSig(a) => V::CheckSig(*a),
            V::CheckMultiSig(a, b) => V::CheckMultiSig(*a, duplicate_list(b)),
            V::Time(a) => V::Time(*a),
            V::HashEqual(a) => V::HashEqual(*a),
            V::And(a, b) => V::And(Box::new(a.duplicate()), Box::new(b.duplicate())),
            V::SwitchOr(a, b) => V::SwitchOr(Box::new(a.duplicate()), Box::new(b.duplicate())),
            V::SwitchOrT(a, b) => V::SwitchOrT(Box::new(a.duplicate()), Box::new(b.duplicate())),
            V::CascadeOr(a, b) => V::CascadeOr(Box::new(a.duplicate()), Box::new(b.duplicate())),
            V::Threshold(a, b, c) => V::Threshold(*a, Box::new(b.duplicate()), duplicate_ws(c)),
        }
    }

    /// Appends the keys of the fragment.
    pub fn collect_keys(&self, out: &mut Vec<K>)
        ensures
            final(out)@ == old(out)@ + self.keys(),
        decreases self,
    {
        let ghost before = out@;
        match self {
            V::CheckSig(a) => {
                out.push(*a);
            },
            V::CheckMultiSig(_, b) => {
                collect_list(b, out);
            },
            V::Time(_) => {
            },
            V::HashEqual(_) => {
            },
            V::And(a, b) => {
                a.collect_keys(out);
                b.collect_keys(out);
            },
            V::SwitchOr(a, b) => {
                a.collect_keys(out);
                b.collect_keys(out);
            },
            V::SwitchOrT(a, b) => {
                a.collect_keys(out);
                b.collect_keys(out);
            },
            V::CascadeOr(a, b) => {
                a.collect_keys(out);
                b.collect_keys(out);
            },
            V::Threshold(_, b, c) => {
                b.collect_keys(out);
                collect_ws(c, out);
            },
        }
        assert(out@ =~= before + self.keys());
    }
}

impl<K> T<K> {
    /// The keys of the fragment, variant by variant in the order of its fields.
    pub open spec fn keys(self) -> Seq<K>
        decreases self,
    {
        match self {
            T::Time(a) => Seq::empty(),
            T::After(a) => Seq::empty(),
            T::HashEqual(a) => Seq::empty(),
            T::And(a, b) => a.keys() + b.keys(),
            T::ParallelOr(a, b) => a.keys() + b.keys(),
            T::CascadeOr(a, b) => a.keys() + b.keys(),
            T::SwitchOr(a, b) => a.keys() + b.keys(),
            T::SwitchOrV(a, b) => a.keys() + b.keys(),
            T::CastE(a) => a.keys(),
        }
    }

    /// The hashes of the fragment, variant by variant in the order of its fields.
    pub open spec fn hashes(self) -> Seq<[u8; 32]>
        decreases self,
    {
        match self {
            T::Time(_) => Seq::empty(),
            T::After(_) => Seq::empty(),
            T::HashEqual(a) => seq![a],
            T::And(a, b) => a.hashes() + b.hashes(),
            T::ParallelOr(a, b) => a.hashes() + b.hashes(),
            T::CascadeOr(a, b) => a.hashes() + b.hashes(),
            T::SwitchOr(a, b) => a.hashes() + b.hashes(),
            T::SwitchOrV(a, b) => a.hashes() + b.hashes(),
            T::CastE(a) => a.hashes(),
        }
    }

    /// Appends the hashes of the fragment.
    pub fn collect_hashes(&self, out: &mut Vec<[u8; 32]>)
        ensures
            final(out)@ == old(out)@ + self.hashes(),
        decreases self,
    {
        let ghost before = out@;
        match self {
            T::Time(_) => {
            },
            T::After(_) => {
            },
            T::HashEqual(a) => {
                out.push(*a);
            },
            T::And(a, b) => {
                a.collect_hashes(out);
                b.collect_hashes(out);
            },
            T::ParallelOr(a, b) => {
                a.collect_hashes(out);
                b.collect_hashes(out);
            },
            T::CascadeOr(a, b) => {
                a.collect_hashes(out);
                b.collect_hashes(out);
            },
            T::SwitchOr(a, b) => {
                a.collect_hashes(out);
                b.collect_hashes(out);
            },
            T::SwitchOrV(a, b) => {
                a.collect_hashes(out);
                b.collect_hashes(out);
            },
            T::CastE(a) => {
                a.collect_hashes(out);
            },
        }
        assert(out@ =~= before + self.hashes());
    }

    /// `out` is this fragment with every key replaced by one that `f` can
    /// return for it.
    pub open spec fn translates<Q, Er, F: Fn(&K) -> Result<Q, Er>>(self, out: T<Q>, f: F) -> bool
        decreases self,
    {
        match (self, out) {
            (T::Time(a), T::Time(a2)) => a == a2,
            (T::After(a), T::After(a2)) => a == a2,
            (T::HashEqual(a), T::HashEqual(a2)) => a == a2,
            (T::And(a, b), T::And(a2, b2)) => a.translates(*a2, f) && b.translates(*b2, f),
            (T::ParallelOr(a, b), T::ParallelOr(a2, b2)) => a.translates(*a2, f) && b.translates(
                *b2,
                f,
            ),
            (T::CascadeOr(a, b), T::CascadeOr(a2, b2)) => a.translates(*a2, f) && b.translates(
                *b2,
                f,
            ),
            (T::SwitchOr(a, b), T::SwitchOr(a2, b2)) => a.translates(*a2, f) && b.translates(
                *b2,
                f,
            ),
            (T::SwitchOrV(a, b), T::SwitchOrV(a2, b2)) => a.translates(*a2, f) && b.translates(
                *b2,
                f,
            ),
            (T::CastE(a), T::CastE(a2)) => a.translates(*a2, f),
            _ => false,
        }
    }

    /// `f` may be called on every key of the fragment.
    pub open spec fn can_translate<Q, Er, F: Fn(&K) -> Result<Q, Er>>(self, f: F) -> bool
        decreases self,
    {
        match self {
            T::Time(a) => true,
            T::After(a) => true,
            T::HashEqual(a) => true,
            T::And(a, b) => a.can_translate(f) && b.can_translate(f),
            T::ParallelOr(a, b) => a.can_translate(f) && b.can_translate(f),
            T::CascadeOr(a, b) => a.can_translate(f) && b.can_translate(f),
            T::SwitchOr(a, b) => a.can_translate(f) && b.can_translate(f),
            T::SwitchOrV(a, b) => a.can_translate(f) && b.can_translate(f),
            T::CastE(a) => a.can_translate(f),
        }
    }

    /// `f` can fail with `e` on a key of the fragment.
    pub open spec fn fails_with<Q, Er, F: Fn(&K) -> Result<Q, Er>>(self, f: F, e: Er) -> bool
        decreases self,
    {
        match self {
            T::Time(a) => false,
            T::After(a) => false,
            T::HashEqual(a) => false,
            T::And(a, b) => a.fails_with(f, e) || b.fails_with(f, e),
            T::ParallelOr(a, b) => a.fails_with(f, e) || b.fails_with(f, e),
            T::CascadeOr(a, b) => a.fails_with(f, e) || b.fails_with(f, e),
            T::SwitchOr(a, b) => a.fails_with(f, e) || b.fails_with(f, e),
            T::SwitchOrV(a, b) => a.fails_with(f, e) || b.fails_with(f, e),
            T::CastE(a) => a.fails_with(f, e),
        }
    }

    /// Replaces every key by what `f` returns for it; the first error of `f`
    /// ends the walk.
    pub fn translate<Q, Er, F: Fn(&K) -> Result<Q, Er>>(&self, f: &F) -> (r: Result<T<Q>, Er>)
        requires
            self.can_translate(*f),
        ensures
            match r {
                Ok(out) => self.translates(out, *f),
                Err(e) => self.fails_with(*f, e),
            },
        decreases self,
    {
        match self {
            T::Time(a) => {
                let a2 = *a;
                Ok(T::Time(a2))
            },
            T::After(a) => {
                let a2 = *a;
                Ok(T::After(a2))
            },
            T::HashEqual(a) => {
                let a2 = *a;
                Ok(T::HashEqual(a2))
            },
            T::And(a, b) => {
                let a2 = Box::new(a.translate(f)?);
                let b2 = Box::new(b.translate(f)?);
                Ok(T::And(a2, b2))
            },
            T::ParallelOr(a, b) => {
                let a2 = Box::new(a.translate(f)?);
                let b2 = Box::new(b.translate(f)?);
                Ok(T::ParallelOr(a2, b2))
            },
            T::CascadeOr(a, b) => {
                let a2 = Box::new(a.translate(f)?);
                let b2 = Box::new(b.translate(f)?);
                Ok(T::CascadeOr(a2, b2))
            },
            T::SwitchOr(a, b) => {
                let a2 = Box::new(a.translate(f)?);
                let b2 = Box::new(b.translate(f)?);
                Ok(T::SwitchOr(a2, b2))
            },
            T::SwitchOrV(a, b) => {
                let a2 = Box::new(a.translate(f)?);
                let b2 = Box::new(b.translate(f)?);
                Ok(T::SwitchOrV(a2, b2))
            },
            T::CastE(a) => {
                let a2 = Box::new(a.translate(f)?);
                Ok(T::CastE(a2))
            },
        }
    }
}

impl<K: Copy> T<K> {
    /// A copy of the fragment.
    pub fn duplicate(&self) -> (r: T<K>)
        ensures
            r == *self,
        decreases self,
    {
        match self {
            T::Time(a) => T::Time(*a),
            T::After(a) => T::After(*a),
            T::HashEqual(a) => T::HashEqual(*a),
            T::And(a, b) => T::And(Box::new(a.duplicate()), Box::new(b.duplicate())),
            T::ParallelOr(a, b) => T::ParallelOr(Box::new(a.duplicate()), Box::new(b.duplicate())),
            T::CascadeOr(a, b) => T::CascadeOr(Box::new(a.duplicate()), Box::new(b.duplicate())),
            T::SwitchOr(a, b) => T::SwitchOr(Box::new(a.duplicate()), Box::new(b.duplicate())),
            T::SwitchOrV(a, b) => T::SwitchOrV(Box::new(a.duplicate()), Box::new(b.duplicate())),
            T::CastE(a) => T::CastE(Box::new(a.duplicate())),
        }
    }

    /// Appends the keys of the fragment.
    pub fn collect_keys(&self, out: &mut Vec<K>)
        ensures
            final(out)@ == old(out)@ + self.keys(),
        decreases self,
    {
        let ghost before = out@;
        match self {
            T::Time(_) => {
            },
            T::After(_) => {
            },
            T::HashEqual(_) => {
            },
            T::And(a, b) => {
                a.collect_keys(out);
                b.collect_keys(out);
            },
            T::ParallelOr(a, b) => {
                a.collect_keys(out);
                b.collect_keys(out);
            },
            T::CascadeOr(a, b) => {
                a.collect_keys(out);
                b.collect_keys(out);
            },
            T::SwitchOr(a, b) => {
                a.collect_keys(out);
                b.collect_keys(out);
            },
            T::SwitchOrV(a, b) => {
                a.collect_keys(out);
                b.collect_keys(out);
            },
            T::CastE(a) => {
                a.collect_keys(out);
            },
        }
        assert(out@ =~= before + self.keys());
    }
}

impl<K> Descript<K> {
    /// Replaces every key of the script by what `translatefn` returns for
    /// it. The result has the shape of the script, with the numbers and
    /// hashes that it has; the first error of `translatefn` is returned as
    /// it is.
    pub fn translate<Q, Er, F: Fn(&K) -> Result<Q, Er>>(&self, translatefn: &F) -> (r: Result<
        Descript<Q>,
        Er,
    >)
        requires
            self.0.can_translate(*translatefn),
        ensures
            match r {
                Ok(out) => self.0.translates(out.0, *translatefn),
                Err(e) => self.0.fails_with(*translatefn, e),
            },
    {
        let inner = self.0.translate(translatefn)?;
        Ok(Descript(inner))
    }
}

impl<K> Descript<K> {
    /// All hashes of the script, each as often as it occurs.
    pub fn required_hashes(&self) -> (r: Vec<[u8; 32]>)
        ensures
            r@ == self.0.hashes(),
    {
        let mut out: Vec<[u8; 32]> = Vec::new();
        self.0.collect_hashes(&mut out);
        out
    }
}

impl<K: Copy> Descript<K> {
    /// A copy of the script.
    pub fn duplicate(&self) -> (r: Descript<K>)
        ensures
            r == *self,
    {
        Descript(self.0.duplicate())
    }

    /// All keys of the script, each as often as it occurs.
    pub fn required_keys(&self) -> (r: Vec<K>)
        ensures
            r@ == self.0.keys(),
    {
        let mut out: Vec<K> = Vec::new();
        self.0.collect_keys(&mut out);
        out
    }
}

} // verus!
