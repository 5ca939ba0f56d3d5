//! Minimality of the satisfier on disjunctions.
//!
//! A fragment made of disjunctions over signature checks, hash comparisons
//! and locktimes can be satisfied in as many ways as it has branches that
//! the satisfier can serve. The satisfier returns one of these ways, and no
//! other way has a smaller serialized stack.

use vstd::prelude::*;
use crate::astelem::{E, T, V, W};
use crate::key::PublicKey;
use crate::satisfy::{provided, single_of, Satisfier};
use crate::stack::{
    join, lemma_stack_size_concat, one, smaller, stack_size, with_top, zero,
};

verus! {

/// `st` is `below` with something on top of it that `test` holds of.
pub open spec fn on_top_of(
    st: Seq<Seq<u8>>,
    below: Option<Seq<Seq<u8>>>,
    test: spec_fn(Seq<Seq<u8>>) -> bool,
) -> bool {
    below matches Some(d) && d.len() <= st.len() && st.subrange(0, d.len() as int) == d && test(
        st.subrange(d.len() as int, st.len() as int),
    )
}

/// `st` is something that `test` holds of with `above` on top of it.
pub open spec fn below(
    st: Seq<Seq<u8>>,
    above: Option<Seq<Seq<u8>>>,
    test: spec_fn(Seq<Seq<u8>>) -> bool,
) -> bool {
    above matches Some(d) && d.len() <= st.len() && st.subrange(
        st.len() - d.len(),
        st.len() as int,
    ) == d && test(st.subrange(0, st.len() - d.len()))
}

/// `st` is something that `test` holds of with the element `top` on it.
pub open spec fn under(
    st: Seq<Seq<u8>>,
    top: Seq<u8>,
    test: spec_fn(Seq<Seq<u8>>) -> bool,
) -> bool {
    st.len() > 0 && st.last() == top && test(st.drop_last())
}

impl E<PublicKey> {
    /// The fragment is made of disjunctions, signature checks and
    /// locktimes alone.
    pub open spec fn only_disjunctions(self) -> bool
        decreases self,
    {
        match self {
            E::CheckSig(_) => true,
            E::Time(_) => true,
            E::ParallelOr(l, r) => l.only_disjunctions() && r.only_disjunctions(),
            E::CascadeOr(l, r) => l.only_disjunctions() && r.only_disjunctions(),
            E::SwitchOrLeft(l, r) => l.only_disjunctions() && r.only_disjunctions(),
            E::SwitchOrRight(l, r) => l.only_disjunctions() && r.only_disjunctions(),
            E::Likely(t) => t.only_disjunctions(),
            E::Unlikely(t) => t.only_disjunctions(),
            _ => false,
        }
    }

    /// `st` satisfies the fragment by one of its branches with what `s`
    /// holds.
    pub open spec fn is_way(self, s: &Satisfier, st: Seq<Seq<u8>>) -> bool
        decreases self,
    {
        match self {
            E::CheckSig(k) => single_of(s.sig(k)) == Some(st),
            E::Time(n) => provided(s.age >= n, seq![one()]) == Some(st),
            E::ParallelOr(l, r) => on_top_of(
                st,
                r.dissatisfaction(),
                |x: Seq<Seq<u8>>| l.is_way(s, x),
            ) || below(st, l.dissatisfaction(), |x: Seq<Seq<u8>>| r.is_way(s, x)),
            E::CascadeOr(l, r) => l.is_way(s, st) || below(
                st,
                l.dissatisfaction(),
                |x: Seq<Seq<u8>>| r.is_way(s, x),
            ),
            E::SwitchOrLeft(l, r) => under(st, one(), |x: Seq<Seq<u8>>| l.is_way(s, x)) || under(
                st,
                zero(),
                |x: Seq<Seq<u8>>| r.is_way(s, x),
            ),
            E::SwitchOrRight(l, r) => under(st, zero(), |x: Seq<Seq<u8>>| l.is_way(s, x))
                || under(st, one(), |x: Seq<Seq<u8>>| r.is_way(s, x)),
            E::Likely(t) => under(st, zero(), |x: Seq<Seq<u8>>| t.is_way(s, x)),
            E::Unlikely(t) => under(st, one(), |x: Seq<Seq<u8>>| t.is_way(s, x)),
            _ => false,
        }
    }
}

impl W<PublicKey> {
    /// The fragment is made of disjunctions, signature checks, hash
    /// comparisons and locktimes alone.
    pub open spec fn only_disjunctions(self) -> bool
        decreases self,
    {
        match self {
            W::CastE(e) => e.only_disjunctions(),
            _ => true,
        }
    }

    /// `st` satisfies the fragment by one of its branches with what `s`
    /// holds.
    pub open spec fn is_way(self, s: &Satisfier, st: Seq<Seq<u8>>) -> bool
        decreases self,
    {
        match self {
            W::CheckSig(k) => single_of(s.sig(k)) == Some(st),
            W::HashEqual(h) => single_of(s.preimage(h)) == Some(st),
            W::Time(n) => provided(s.age >= n, seq![one()]) == Some(st),
            W::CastE(e) => e.is_way(s, st),
        }
    }
}

impl V<PublicKey> {
    /// The fragment is made of disjunctions, signature checks, hash
    /// comparisons and locktimes alone.
    pub open spec fn only_disjunctions(self) -> bool
        decreases self,
    {
        match self {
            V::CheckSig(_) => true,
            V::Time(_) => true,
            V::HashEqual(_) => true,
            V::SwitchOr(l, r) => l.only_disjunctions() && r.only_disjunctions(),
            V::SwitchOrT(l, r) => l.only_disjunctions() && r.only_disjunctions(),
            V::CascadeOr(l, r) => l.only_disjunctions() && r.only_disjunctions(),
            _ => false,
        }
    }

    /// `st` satisfies the fragment by one of its branches with what `s`
    /// holds.
    pub open spec fn is_way(self, s: &Satisfier, st: Seq<Seq<u8>>) -> bool
        decreases self,
    {
        match self {
            V::CheckSig(k) => single_of(s.sig(k)) == Some(st),
            V::Time(n) => provided(s.age >= n, Seq::empty()) == Some(st),
            V::HashEqual(h) => single_of(s.preimage(h)) == Some(st),
            V::SwitchOr(l, r) => under(st, one(), |x: Seq<Seq<u8>>| l.is_way(s, x)) || under(
                st,
                zero(),
                |x: Seq<Seq<u8>>| r.is_way(s, x),
            ),
            V::SwitchOrT(l, r) => under(st, one(), |x: Seq<Seq<u8>>| l.is_way(s, x)) || under(
                st,
                zero(),
                |x: Seq<Seq<u8>>| r.is_way(s, x),
            ),
            V::CascadeOr(l, r) => l.is_way(s, st) || below(
                st,
                l.dissatisfaction(),
                |x: Seq<Seq<u8>>| r.is_way(s, x),
            ),
            _ => false,
        }
    }
}

impl T<PublicKey> {
    /// The fragment is made of disjunctions, signature checks, hash
    /// comparisons and locktimes alone.
    pub open spec fn only_disjunctions(self) -> bool
        decreases self,
    {
        match self {
            T::Time(_) => true,
            T::After(_) => true,
            T::HashEqual(_) => true,
            T::ParallelOr(l, r) => l.only_disjunctions() && r.only_disjunctions(),
            T::CascadeOr(l, r) => l.only_disjunctions() && r.only_disjunctions(),
            T::SwitchOr(l, r) => l.only_disjunctions() && r.only_disjunctions(),
            T::SwitchOrV(l, r) => l.only_disjunctions() && r.only_disjunctions(),
            T::CastE(e) => e.only_disjunctions(),
            _ => false,
        }
    }

    /// `st` satisfies the fragment by one of its branches with what `s`
    /// holds.
    pub open spec fn is_way(self, s: &Satisfier, st: Seq<Seq<u8>>) -> bool
        decreases self,
    {
        match self {
            T::Time(n) => provided(s.age >= n, Seq::empty()) == Some(st),
            T::After(n) => provided(s.locktime >= n, Seq::empty()) == Some(st),
            T::HashEqual(h) => single_of(s.preimage(h)) == Some(st),
            T::ParallelOr(l, r) => on_top_of(
                st,
                r.dissatisfaction(),
                |x: Seq<Seq<u8>>| l.is_way(s, x),
            ) || below(st, l.dissatisfaction(), |x: Seq<Seq<u8>>| r.is_way(s, x)),
            T::CascadeOr(l, r) => l.is_way(s, st) || below(
                st,
                l.dissatisfaction(),
                |x: Seq<Seq<u8>>| r.is_way(s, x),
            ),
            T::SwitchOr(l, r) => under(st, one(), |x: Seq<Seq<u8>>| l.is_way(s, x)) || under(
                st,
                zero(),
                |x: Seq<Seq<u8>>| r.is_way(s, x),
            ),
            T::SwitchOrV(l, r) => under(st, one(), |x: Seq<Seq<u8>>| l.is_way(s, x)) || under(
                st,
                zero(),
                |x: Seq<Seq<u8>>| r.is_way(s, x),
            ),
            T::CastE(e) => e.is_way(s, st),
            _ => false,
        }
    }
}

/// `best` is an answer of the satisfier that is no larger than the way
/// `st`.
pub open spec fn beats(best: Option<Seq<Seq<u8>>>, st: Seq<Seq<u8>>) -> bool {
    best matches Some(b) && stack_size(b) <= stack_size(st)
}

/// The size of a stack is that of its two parts.
proof fn lemma_split(st: Seq<Seq<u8>>, k: int)
    requires
        0 <= k <= st.len(),
    ensures
        stack_size(st) == stack_size(st.subrange(0, k)) + stack_size(
            st.subrange(k, st.len() as int),
        ),
{
    lemma_stack_size_concat(st.subrange(0, k), st.subrange(k, st.len() as int));
    assert(st.subrange(0, k) + st.subrange(k, st.len() as int) =~= st);
}

/// The smaller of two answers is no larger than either.
proof fn lemma_smaller(a: Option<Seq<Seq<u8>>>, b: Option<Seq<Seq<u8>>>, st: Seq<Seq<u8>>)
    requires
        beats(a, st) || beats(b, st),
    ensures
        beats(smaller(a, b), st),
{
}

/// A stack under `top` that beats `st` still beats it when both are under
/// `top`.
proof fn lemma_under(best: Option<Seq<Seq<u8>>>, st: Seq<Seq<u8>>, top: Seq<u8>)
    requires
        st.len() > 0,
        st.last() == top,
        beats(best, st.drop_last()),
    ensures
        beats(with_top(best, top), st),
{
    let b = best->Some_0;
    assert(b.push(top).drop_last() =~= b);
}

/// A stack that beats the upper part of `st` still beats it on top of the
/// lower part `d`.
proof fn lemma_on_top_of(best: Option<Seq<Seq<u8>>>, st: Seq<Seq<u8>>, d: Seq<Seq<u8>>)
    requires
        d.len() <= st.len(),
        st.subrange(0, d.len() as int) == d,
        beats(best, st.subrange(d.len() as int, st.len() as int)),
    ensures
        beats(join(Some(d), best), st),
{
    lemma_split(st, d.len() as int);
    lemma_stack_size_concat(d, best->Some_0);
}

/// A stack that beats the lower part of `st` still beats it below the
/// upper part `d`.
proof fn lemma_below(best: Option<Seq<Seq<u8>>>, st: Seq<Seq<u8>>, d: Seq<Seq<u8>>)
    requires
        d.len() <= st.len(),
        st.subrange(st.len() - d.len(), st.len() as int) == d,
        beats(best, st.subrange(0, st.len() - d.len())),
    ensures
        beats(join(best, Some(d)), st),
{
    lemma_split(st, st.len() - d.len());
    lemma_stack_size_concat(best->Some_0, d);
}

proof fn lemma_least_e(x: E<PublicKey>, s: &Satisfier, st: Seq<Seq<u8>>)
    requires
        x.is_way(s, st),
    ensures
        beats(x.satisfaction(s), st),
    decreases x,
{
    match x {
        E::ParallelOr(l, r) => {
            let a = join(r.dissatisfaction(), l.satisfaction(s));
            let b = join(r.satisfaction(s), l.dissatisfaction());
            if on_top_of(st, r.dissatisfaction(), |x: Seq<Seq<u8>>| l.is_way(s, x)) {
                let d = r.dissatisfaction()->Some_0;
                lemma_least_e(*l, s, st.subrange(d.len() as int, st.len() as int));
                lemma_on_top_of(l.satisfaction(s), st, d);
            } else {
                let d = l.dissatisfaction()->Some_0;
                lemma_least_w(*r, s, st.subrange(0, st.len() - d.len()));
                lemma_below(r.satisfaction(s), st, d);
            }
            lemma_smaller(a, b, st);
        },
        E::CascadeOr(l, r) => {
            let b = join(r.satisfaction(s), l.dissatisfaction());
            if l.is_way(s, st) {
                lemma_least_e(*l, s, st);
            } else {
                let d = l.dissatisfaction()->Some_0;
                lemma_least_t(*r, s, st.subrange(0, st.len() - d.len()));
                lemma_below(r.satisfaction(s), st, d);
            }
            lemma_smaller(l.satisfaction(s), b, st);
        },
        E::SwitchOrLeft(l, r) => {
            if under(st, one(), |x: Seq<Seq<u8>>| l.is_way(s, x)) {
                lemma_least_e(*l, s, st.drop_last());
                lemma_under(l.satisfaction(s), st, one());
            } else {
                lemma_least_t(*r, s, st.drop_last());
                lemma_under(r.satisfaction(s), st, zero());
            }
            lemma_smaller(
                with_top(l.satisfaction(s), one()),
                with_top(r.satisfaction(s), zero()),
                st,
            );
        },
        E::SwitchOrRight(l, r) => {
            if under(st, zero(), |x: Seq<Seq<u8>>| l.is_way(s, x)) {
                lemma_least_e(*l, s, st.drop_last());
                lemma_under(l.satisfaction(s), st, zero());
            } else {
                lemma_least_t(*r, s, st.drop_last());
                lemma_under(r.satisfaction(s), st, one());
            }
            lemma_smaller(
                with_top(l.satisfaction(s), zero()),
                with_top(r.satisfaction(s), one()),
                st,
            );
        },
        E::Likely(t) => {
            lemma_least_t(*t, s, st.drop_last());
            lemma_under(t.satisfaction(s), st, zero());
        },
        E::Unlikely(t) => {
            lemma_least_t(*t, s, st.drop_last());
            lemma_under(t.satisfaction(s), st, one());
        },
        _ => {},
    }
}

proof fn lemma_least_w(x: W<PublicKey>, s: &Satisfier, st: Seq<Seq<u8>>)
    requires
        x.is_way(s, st),
    ensures
        beats(x.satisfaction(s), st),
    decreases x,
{
    match x {
        W::CastE(e) => {
            lemma_least_e(*e, s, st);
        },
        _ => {},
    }
}

proof fn lemma_least_v(x: V<PublicKey>, s: &Satisfier, st: Seq<Seq<u8>>)
    requires
        x.is_way(s, st),
    ensures
        beats(x.satisfaction(s), st),
    decreases x,
{
    match x {
        V::SwitchOr(l, r) => {
            if under(st, one(), |x: Seq<Seq<u8>>| l.is_way(s, x)) {
                lemma_least_v(*l, s, st.drop_last());
                lemma_under(l.satisfaction(s), st, one());
            } else {
                lemma_least_v(*r, s, st.drop_last());
                lemma_under(r.satisfaction(s), st, zero());
            }
            lemma_smaller(
                with_top(l.satisfaction(s), one()),
                with_top(r.satisfaction(s), zero()),
                st,
            );
        },
        V::SwitchOrT(l, r) => {
            if under(st, one(), |x: Seq<Seq<u8>>| l.is_way(s, x)) {
                lemma_least_t(*l, s, st.drop_last());
                lemma_under(l.satisfaction(s), st, one());
            } else {
                lemma_least_t(*r, s, st.drop_last());
                lemma_under(r.satisfaction(s), st, zero());
            }
            lemma_smaller(
                with_top(l.satisfaction(s), one()),
                with_top(r.satisfaction(s), zero()),
                st,
            );
        },
        V::CascadeOr(l, r) => {
            let b = join(r.satisfaction(s), l.dissatisfaction());
            if l.is_way(s, st) {
                lemma_least_e(*l, s, st);
            } else {
                let d = l.dissatisfaction()->Some_0;
                lemma_least_v(*r, s, st.subrange(0, st.len() - d.len()));
                lemma_below(r.satisfaction(s), st, d);
            }
            lemma_smaller(l.satisfaction(s), b, st);
        },
        _ => {},
    }
}

proof fn lemma_least_t(x: T<PublicKey>, s: &Satisfier, st: Seq<Seq<u8>>)
    requires
        x.is_way(s, st),
    ensures
        beats(x.satisfaction(s), st),
    decreases x,
{
    match x {
        T::ParallelOr(l, r) => {
            let a = join(r.dissatisfaction(), l.satisfaction(s));
            let b = join(r.satisfaction(s), l.dissatisfaction());
            if on_top_of(st, r.dissatisfaction(), |x: Seq<Seq<u8>>| l.is_way(s, x)) {
                let d = r.dissatisfaction()->Some_0;
                lemma_least_e(*l, s, st.subrange(d.len() as int, st.len() as int));
                lemma_on_top_of(l.satisfaction(s), st, d);
            } else {
                let d = l.dissatisfaction()->Some_0;
                lemma_least_w(*r, s, st.subrange(0, st.len() - d.len()));
                lemma_below(r.satisfaction(s), st, d);
            }
            lemma_smaller(a, b, st);
        },
        T::CascadeOr(l, r) => {
            let b = join(r.satisfaction(s), l.dissatisfaction());
            if l.is_way(s, st) {
                lemma_least_e(*l, s, st);
            } else {
                let d = l.dissatisfaction()->Some_0;
                lemma_least_t(*r, s, st.subrange(0, st.len() - d.len()));
                lemma_below(r.satisfaction(s), st, d);
            }
            lemma_smaller(l.satisfaction(s), b, st);
        },
        T::SwitchOr(l, r) => {
            if under(st, one(), |x: Seq<Seq<u8>>| l.is_way(s, x)) {
                lemma_least_t(*l, s, st.drop_last());
                lemma_under(l.satisfaction(s), st, one());
            } else {
                lemma_least_t(*r, s, st.drop_last());
                lemma_under(r.satisfaction(s), st, zero());
            }
            lemma_smaller(
                with_top(l.satisfaction(s), one()),
                with_top(r.satisfaction(s), zero()),
                st,
            );
        },
        T::SwitchOrV(l, r) => {
            if under(st, one(), |x: Seq<Seq<u8>>| l.is_way(s, x)) {
                lemma_least_v(*l, s, st.drop_last());
                lemma_under(l.satisfaction(s), st, one());
            } else {
                lemma_least_v(*r, s, st.drop_last());
                lemma_under(r.satisfaction(s), st, zero());
            }
            lemma_smaller(
                with_top(l.satisfaction(s), one()),
                with_top(r.satisfaction(s), zero()),
                st,
            );
        },
        T::CastE(e) => {
            lemma_least_e(*e, s, st);
        },
        _ => {},
    }
}

proof fn lemma_found_e(x: E<PublicKey>, s: &Satisfier, st: Seq<Seq<u8>>)
    requires
        x.only_disjunctions(),
        x.satisfaction(s) == Some(st),
    ensures
        x.is_way(s, st),
    decreases x,
{
    match x {
        E::ParallelOr(l, r) => {
            let a = join(r.dissatisfaction(), l.satisfaction(s));
            if a == Some(st) {
                let ls = l.satisfaction(s)->Some_0;
                let d = r.dissatisfaction()->Some_0;
                lemma_found_e(*l, s, ls);
                assert(st.subrange(0, d.len() as int) =~= d);
                assert(st.subrange(d.len() as int, st.len() as int) =~= ls);
            } else {
                let rs = r.satisfaction(s)->Some_0;
                let d = l.dissatisfaction()->Some_0;
                lemma_found_w(*r, s, rs);
                assert(st.subrange(st.len() - d.len(), st.len() as int) =~= d);
                assert(st.subrange(0, st.len() - d.len()) =~= rs);
            }
        },
        E::CascadeOr(l, r) => {
            let b = join(r.satisfaction(s), l.dissatisfaction());
            if l.satisfaction(s) == Some(st) {
                lemma_found_e(*l, s, st);
            } else {
                let rs = r.satisfaction(s)->Some_0;
                let d = l.dissatisfaction()->Some_0;
                lemma_found_t(*r, s, rs);
                assert(st.subrange(st.len() - d.len(), st.len() as int) =~= d);
                assert(st.subrange(0, st.len() - d.len()) =~= rs);
            }
        },
        E::SwitchOrLeft(l, r) => {
            let a = with_top(l.satisfaction(s), one());
            let b = with_top(r.satisfaction(s), zero());
            if st == a->Some_0 && a is Some {
                lemma_found_e(*l, s, l.satisfaction(s)->Some_0);
                assert(st.drop_last() =~= l.satisfaction(s)->Some_0);
            } else {
                lemma_found_t(*r, s, r.satisfaction(s)->Some_0);
                assert(st.drop_last() =~= r.satisfaction(s)->Some_0);
            }
        },
        E::SwitchOrRight(l, r) => {
            let a = with_top(l.satisfaction(s), zero());
            let b = with_top(r.satisfaction(s), one());
            if st == a->Some_0 && a is Some {
                lemma_found_e(*l, s, l.satisfaction(s)->Some_0);
                assert(st.drop_last() =~= l.satisfaction(s)->Some_0);
            } else {
                lemma_found_t(*r, s, r.satisfaction(s)->Some_0);
                assert(st.drop_last() =~= r.satisfaction(s)->Some_0);
            }
        },
        E::Likely(t) => {
            lemma_found_t(*t, s, t.satisfaction(s)->Some_0);
            assert(st.drop_last() =~= t.satisfaction(s)->Some_0);
        },
        E::Unlikely(t) => {
            lemma_found_t(*t, s, t.satisfaction(s)->Some_0);
            assert(st.drop_last() =~= t.satisfaction(s)->Some_0);
        },
        _ => {},
    }
}

proof fn lemma_found_w(x: W<PublicKey>, s: &Satisfier, st: Seq<Seq<u8>>)
    requires
        x.only_disjunctions(),
        x.satisfaction(s) == Some(st),
    ensures
        x.is_way(s, st),
    decreases x,
{
    match x {
        W::CastE(e) => {
            lemma_found_e(*e, s, st);
        },
        _ => {},
    }
}

proof fn lemma_found_v(x: V<PublicKey>, s: &Satisfier, st: Seq<Seq<u8>>)
    requires
        x.only_disjunctions(),
        x.satisfaction(s) == Some(st),
    ensures
        x.is_way(s, st),
    decreases x,
{
    match x {
        V::SwitchOr(l, r) => {
            let a = with_top(l.satisfaction(s), one());
            let b = with_top(r.satisfaction(s), zero());
            if st == a->Some_0 && a is Some {
                lemma_found_v(*l, s, l.satisfaction(s)->Some_0);
                assert(st.drop_last() =~= l.satisfaction(s)->Some_0);
            } else {
                lemma_found_v(*r, s, r.satisfaction(s)->Some_0);
                assert(st.drop_last() =~= r.satisfaction(s)->Some_0);
            }
        },
        V::SwitchOrT(l, r) => {
            let a = with_top(l.satisfaction(s), one());
            let b = with_top(r.satisfaction(s), zero());
            if st == a->Some_0 && a is Some {
                lemma_found_t(*l, s, l.satisfaction(s)->Some_0);
                assert(st.drop_last() =~= l.satisfaction(s)->Some_0);
            } else {
                lemma_found_t(*r, s, r.satisfaction(s)->Some_0);
                assert(st.drop_last() =~= r.satisfaction(s)->Some_0);
            }
        },
        V::CascadeOr(l, r) => {
            let b = join(r.satisfaction(s), l.dissatisfaction());
            if l.satisfaction(s) == Some(st) {
                lemma_found_e(*l, s, st);
            } else {
                let rs = r.satisfaction(s)->Some_0;
                let d = l.dissatisfaction()->Some_0;
                lemma_found_v(*r, s, rs);
                assert(st.subrange(st.len() - d.len(), st.len() as int) =~= d);
                assert(st.subrange(0, st.len() - d.len()) =~= rs);
            }
        },
        _ => {},
    }
}

proof fn lemma_found_t(x: T<PublicKey>, s: &Satisfier, st: Seq<Seq<u8>>)
    requires
        x.only_disjunctions(),
        x.satisfaction(s) == Some(st),
    ensures
        x.is_way(s, st),
    decreases x,
{
    match x {
        T::ParallelOr(l, r) => {
            let a = join(r.dissatisfaction(), l.satisfaction(s));
            if a == Some(st) {
                let ls = l.satisfaction(s)->Some_0;
                let d = r.dissatisfaction()->Some_0;
                lemma_found_e(*l, s, ls);
                assert(st.subrange(0, d.len() as int) =~= d);
                assert(st.subrange(d.len() as int, st.len() as int) =~= ls);
            } else {
                let rs = r.satisfaction(s)->Some_0;
                let d = l.dissatisfaction()->Some_0;
                lemma_found_w(*r, s, rs);
                assert(st.subrange(st.len() - d.len(), st.len() as int) =~= d);
                assert(st.subrange(0, st.len() - d.len()) =~= rs);
            }
        },
        T::CascadeOr(l, r) => {
            let b = join(r.satisfaction(s), l.dissatisfaction());
            if l.satisfaction(s) == Some(st) {
                lemma_found_e(*l, s, st);
            } else {
                let rs = r.satisfaction(s)->Some_0;
                let d = l.dissatisfaction()->Some_0;
                lemma_found_t(*r, s, rs);
                assert(st.subrange(st.len() - d.len(), st.len() as int) =~= d);
                assert(st.subrange(0, st.len() - d.len()) =~= rs);
            }
        },
        T::SwitchOr(l, r) => {
            let a = with_top(l.satisfaction(s), one());
            let b = with_top(r.satisfaction(s), zero());
            if st == a->Some_0 && a is Some {
                lemma_found_t(*l, s, l.satisfaction(s)->Some_0);
                assert(st.drop_last() =~= l.satisfaction(s)->Some_0);
            } else {
                lemma_found_t(*r, s, r.satisfaction(s)->Some_0);
                assert(st.drop_last() =~= r.satisfaction(s)->Some_0);
            }
        },
        T::SwitchOrV(l, r) => {
            let a = with_top(l.satisfaction(s), one());
            let b = with_top(r.satisfaction(s), zero());
            if st == a->Some_0 && a is Some {
                lemma_found_v(*l, s, l.satisfaction(s)->Some_0);
                assert(st.drop_last() =~= l.satisfaction(s)->Some_0);
            } else {
                lemma_found_v(*r, s, r.satisfaction(s)->Some_0);
                assert(st.drop_last() =~= r.satisfaction(s)->Some_0);
            }
        },
        T::CastE(e) => {
            lemma_found_e(*e, s, st);
        },
        _ => {},
    }
}

/// What the satisfier returns for a script of disjunctions satisfies it by
/// one of its branches.
pub proof fn law_satisfaction_is_way(x: T<PublicKey>, s: &Satisfier, st: Seq<Seq<u8>>)
    requires
        x.only_disjunctions(),
        x.satisfaction(s) == Some(st),
    ensures
        x.is_way(s, st),
{
    lemma_found_t(x, s, st);
}

/// Minimality: where a script of disjunctions can be satisfied by `st`, the
/// satisfier returns a stack, and one that is no larger than `st`.
pub proof fn law_satisfaction_minimal(x: T<PublicKey>, s: &Satisfier, st: Seq<Seq<u8>>)
    requires
        x.only_disjunctions(),
        x.is_way(s, st),
    ensures
        x.satisfaction(s) matches Some(best) && stack_size(best) <= stack_size(st),
{
    lemma_least_t(x, s, st);
}

} // verus!
