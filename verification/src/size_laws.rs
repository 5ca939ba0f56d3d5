//! The bounds are bounds: no satisfaction costs more than the walk over the
//! tree says.
//!
//! What an element costs is left open, so that one proof serves for the
//! number of elements and for the bytes that they take.

use vstd::prelude::*;
use crate::astelem::{E, T, V, W};
use crate::descriptor::script_sig_of;
use crate::key::PublicKey;
use crate::list::List;
use crate::satisfy::{
    find_preimage, find_sig, pick_sigs, ws_dissatisfaction, ws_satisfaction, zeros, Satisfier,
};
use crate::script::push_element;
use crate::sizes::{count_costs, size_costs, ws_dis, ws_max, Costs};
use crate::stack::{join, one, stack_size, with_top, zero};

verus! {

/// The sum of what the elements of a stack cost.
pub open spec fn total(cost: spec_fn(Seq<u8>) -> nat, st: Seq<Seq<u8>>) -> nat
    decreases st.len(),
{
    if st.len() == 0 {
        0
    } else {
        total(cost, st.drop_last()) + cost(st.last())
    }
}

/// The cost of a concatenation is the sum of the costs.
pub proof fn lemma_total_concat(cost: spec_fn(Seq<u8>) -> nat, a: Seq<Seq<u8>>, b: Seq<Seq<u8>>)
    ensures
        total(cost, a + b) == total(cost, a) + total(cost, b),
    decreases b.len(),
{
    if b.len() == 0 {
        assert(a + b =~= a);
    } else {
        lemma_total_concat(cost, a, b.drop_last());
        assert((a + b).drop_last() =~= a + b.drop_last());
        assert((a + b).last() == b.last());
    }
}

/// The cost of a stack of one element, and of a stack with one element
/// more.
pub proof fn lemma_total_one(cost: spec_fn(Seq<u8>) -> nat, a: Seq<Seq<u8>>, e: Seq<u8>)
    ensures
        total(cost, seq![e]) == cost(e),
        total(cost, a.push(e)) == total(cost, a) + cost(e),
        total(cost, Seq::empty()) == 0,
{
    assert(seq![e].drop_last() =~= Seq::<Seq<u8>>::empty());
    assert(total(cost, seq![e].drop_last()) == 0);
    assert(a.push(e).drop_last() =~= a);
}

/// No element that the satisfier hands out costs more than `c` allows for
/// its kind.
pub open spec fn covers(c: Costs, cost: spec_fn(Seq<u8>) -> nat, s: &Satisfier) -> bool {
    &&& forall|i: int| 0 <= i < s.sigs@.len() ==> cost((#[trigger] s.sigs@[i]).1.bytes()) <= c.s()
    &&& forall|i: int|
        0 <= i < s.preimages@.len() ==> cost((#[trigger] s.preimages@[i]).1@) <= c.p()
    &&& cost(zero()) <= c.o0()
    &&& cost(one()) <= c.o1()
}

/// A signature that is found costs no more than a signature may.
proof fn lemma_sig_cost(
    c: Costs,
    cost: spec_fn(Seq<u8>) -> nat,
    s: &Satisfier,
    k: PublicKey,
    i: int,
)
    requires
        covers(c, cost, s),
        0 <= i,
    ensures
        find_sig(s.sigs@, k, i) matches Some(b) ==> cost(b) <= c.s(),
    decreases s.sigs@.len() - i,
{
    if i < s.sigs@.len() && s.sigs@[i].0 != k {
        lemma_sig_cost(c, cost, s, k, i + 1);
    }
}

/// A preimage that is found costs no more than a preimage may.
proof fn lemma_preimage_cost(
    c: Costs,
    cost: spec_fn(Seq<u8>) -> nat,
    s: &Satisfier,
    h: [u8; 32],
    i: int,
)
    requires
        covers(c, cost, s),
        0 <= i,
    ensures
        find_preimage(s.preimages@, h, i) matches Some(p) ==> cost(p) <= c.p(),
    decreases s.preimages@.len() - i,
{
    if i < s.preimages@.len() && s.preimages@[i].0 != h {
        lemma_preimage_cost(c, cost, s, h, i + 1);
    }
}

/// The signatures of a multisignature cost no more than as many
/// signatures may.
proof fn lemma_pick_cost(
    c: Costs,
    cost: spec_fn(Seq<u8>) -> nat,
    s: &Satisfier,
    keys: List<PublicKey>,
    k: nat,
)
    requires
        covers(c, cost, s),
    ensures
        pick_sigs(keys, k, s) matches Some(sigs) ==> total(cost, sigs) <= k * c.s(),
    decreases keys,
{
    if k == 0 {
        lemma_total_one(cost, Seq::empty(), zero());
    } else {
        match keys {
            List::Nil => {},
            List::Cons(key, rest) => {
                lemma_sig_cost(c, cost, s, key, 0);
                match s.sig(key) {
                    Some(b) => {
                        lemma_pick_cost(c, cost, s, *rest, (k - 1) as nat);
                        if let Some(more) = pick_sigs(*rest, (k - 1) as nat, s) {
                            lemma_total_concat(cost, seq![b], more);
                            lemma_total_one(cost, Seq::empty(), b);
                            assert((k - 1) * c.s() + c.s() == k * c.s()) by (nonlinear_arith);
                        }
                    },
                    None => {
                        lemma_pick_cost(c, cost, s, *rest, k);
                    },
                }
            },
        }
    }
}

/// A stack of empty elements costs as many times what one of them costs.
proof fn lemma_zeros_cost(cost: spec_fn(Seq<u8>) -> nat, n: nat)
    ensures
        total(cost, zeros(n)) == n * cost(zero()),
    decreases n,
{
    if n > 0 {
        lemma_zeros_cost(cost, (n - 1) as nat);
        assert(zeros(n).drop_last() =~= zeros((n - 1) as nat));
        assert(zeros(n).last() == zero());
        assert((n - 1) * cost(zero()) + cost(zero()) == n * cost(zero())) by (nonlinear_arith);
    } else {
        assert(0 * cost(zero()) == 0);
    }
}

/// What a multisignature takes costs no more than its bounds say.
proof fn lemma_multisig_cost(
    c: Costs,
    cost: spec_fn(Seq<u8>) -> nat,
    s: &Satisfier,
    keys: List<PublicKey>,
    k: u32,
)
    requires
        covers(c, cost, s),
    ensures
        pick_sigs(keys, k as nat, s) matches Some(sigs) ==> total(cost, seq![zero()] + sigs)
            <= c.o0() + k as nat * c.s(),
        total(cost, zeros((k + 1) as nat)) <= k as nat * c.o0() + c.o0(),
{
    lemma_pick_cost(c, cost, s, keys, k as nat);
    if let Some(sigs) = pick_sigs(keys, k as nat, s) {
        lemma_total_concat(cost, seq![zero()], sigs);
        lemma_total_one(cost, Seq::empty(), zero());
    }
    lemma_zeros_cost(cost, (k + 1) as nat);
    let z = cost(zero());
    let o = c.o0();
    assert((k + 1) * z <= k as nat * o + o) by (nonlinear_arith)
        requires
            z <= o,
    ;
}

/// The cost of what `join` returns.
proof fn lemma_join_cost(
    cost: spec_fn(Seq<u8>) -> nat,
    a: Option<Seq<Seq<u8>>>,
    b: Option<Seq<Seq<u8>>>,
)
    ensures
        join(a, b) matches Some(st) ==> a is Some && b is Some && total(cost, st) == total(
            cost,
            a->Some_0,
        ) + total(cost, b->Some_0),
{
    if let Some(x) = a {
        if let Some(y) = b {
            lemma_total_concat(cost, x, y);
        }
    }
}

/// The cost of what `with_top` returns.
proof fn lemma_top_cost(cost: spec_fn(Seq<u8>) -> nat, a: Option<Seq<Seq<u8>>>, e: Seq<u8>)
    ensures
        with_top(a, e) matches Some(st) ==> a is Some && total(cost, st) == total(
            cost,
            a->Some_0,
        ) + cost(e),
{
    if let Some(x) = a {
        lemma_total_one(cost, x, e);
    }
}

/// What the later children of a threshold take costs no more than their
/// bounds say.
proof fn lemma_ws_cost(
    c: Costs,
    cost: spec_fn(Seq<u8>) -> nat,
    s: &Satisfier,
    ws: List<W<PublicKey>>,
    k: nat,
)
    requires
        covers(c, cost, s),
    ensures
        ws_satisfaction(ws, k, s) matches Some(st) ==> total(cost, st) <= ws_max(ws, c),
        ws_dissatisfaction(ws) matches Some(st) ==> total(cost, st) <= ws_dis(ws, c),
    decreases ws,
{
    lemma_total_one(cost, Seq::empty(), zero());
    match ws {
        List::Nil => {},
        List::Cons(w, rest) => {
            lemma_bound_w(c, cost, s, w);
            lemma_ws_cost(c, cost, s, *rest, k);
            if k > 0 {
                lemma_ws_cost(c, cost, s, *rest, (k - 1) as nat);
            }
            lemma_join_cost(cost, ws_satisfaction(*rest, (k - 1) as nat, s), w.satisfaction(s));
            lemma_join_cost(cost, ws_satisfaction(*rest, k, s), w.dissatisfaction());
            lemma_join_cost(cost, ws_dissatisfaction(*rest), w.dissatisfaction());
        },
    }
}

/// What a fragment of type E takes costs no more than its bounds say.
pub proof fn lemma_bound_e(
    c: Costs,
    cost: spec_fn(Seq<u8>) -> nat,
    s: &Satisfier,
    e: E<PublicKey>,
)
    requires
        covers(c, cost, s),
    ensures
        e.satisfaction(s) matches Some(st) ==> total(cost, st) <= e.max_sat(c),
        e.dissatisfaction() matches Some(st) ==> total(cost, st) <= e.max_dis(c),
    decreases e,
{
    lemma_total_one(cost, Seq::empty(), zero());
    lemma_total_one(cost, Seq::empty(), one());
    match e {
        E::CheckSig(k) => {
            lemma_sig_cost(c, cost, s, k, 0);
            if let Some(b) = s.sig(k) {
                lemma_total_one(cost, Seq::empty(), b);
            }
        },
        E::CheckMultiSig(k, keys) => {
            lemma_multisig_cost(c, cost, s, keys, k);
        },
        E::Time(_) => {},
        E::Threshold(k, e1, ws) => {
            lemma_bound_e(c, cost, s, *e1);
            lemma_ws_cost(c, cost, s, ws, k as nat);
            if k > 0 {
                lemma_ws_cost(c, cost, s, ws, (k - 1) as nat);
            }
            lemma_join_cost(cost, ws_satisfaction(ws, (k - 1) as nat, s), e1.satisfaction(s));
            lemma_join_cost(cost, ws_satisfaction(ws, k as nat, s), e1.dissatisfaction());
            lemma_join_cost(cost, ws_dissatisfaction(ws), e1.dissatisfaction());
        },
        E::ParallelAnd(l, r) => {
            lemma_bound_e(c, cost, s, *l);
            lemma_bound_w(c, cost, s, *r);
            lemma_join_cost(cost, r.satisfaction(s), l.satisfaction(s));
            lemma_join_cost(cost, r.dissatisfaction(), l.dissatisfaction());
        },
        E::CascadeAnd(l, r) => {
            lemma_bound_e(c, cost, s, *l);
            lemma_bound_t(c, cost, s, *r);
            lemma_join_cost(cost, r.satisfaction(s), l.satisfaction(s));
        },
        E::ParallelOr(l, r) => {
            lemma_bound_e(c, cost, s, *l);
            lemma_bound_w(c, cost, s, *r);
            lemma_join_cost(cost, r.dissatisfaction(), l.satisfaction(s));
            lemma_join_cost(cost, r.satisfaction(s), l.dissatisfaction());
            lemma_join_cost(cost, r.dissatisfaction(), l.dissatisfaction());
        },
        E::CascadeOr(l, r) => {
            lemma_bound_e(c, cost, s, *l);
            lemma_bound_t(c, cost, s, *r);
            lemma_join_cost(cost, r.satisfaction(s), l.dissatisfaction());
        },
        E::SwitchOrLeft(l, r) => {
            lemma_bound_e(c, cost, s, *l);
            lemma_bound_t(c, cost, s, *r);
            lemma_top_cost(cost, l.satisfaction(s), one());
            lemma_top_cost(cost, r.satisfaction(s), zero());
            lemma_top_cost(cost, l.dissatisfaction(), one());
        },
        E::SwitchOrRight(l, r) => {
            lemma_bound_e(c, cost, s, *l);
            lemma_bound_t(c, cost, s, *r);
            lemma_top_cost(cost, l.satisfaction(s), zero());
            lemma_top_cost(cost, r.satisfaction(s), one());
            lemma_top_cost(cost, l.dissatisfaction(), zero());
        },
        E::Likely(t) => {
            lemma_bound_t(c, cost, s, *t);
            lemma_top_cost(cost, t.satisfaction(s), zero());
        },
        E::Unlikely(t) => {
            lemma_bound_t(c, cost, s, *t);
            lemma_top_cost(cost, t.satisfaction(s), one());
        },
    }
}

/// What a fragment of type W takes costs no more than its bounds say.
pub proof fn lemma_bound_w(
    c: Costs,
    cost: spec_fn(Seq<u8>) -> nat,
    s: &Satisfier,
    w: W<PublicKey>,
)
    requires
        covers(c, cost, s),
    ensures
        w.satisfaction(s) matches Some(st) ==> total(cost, st) <= w.max_sat(c),
        w.dissatisfaction() matches Some(st) ==> total(cost, st) <= w.max_dis(c),
    decreases w,
{
    lemma_total_one(cost, Seq::empty(), zero());
    lemma_total_one(cost, Seq::empty(), one());
    match w {
        W::CheckSig(k) => {
            lemma_sig_cost(c, cost, s, k, 0);
            if let Some(b) = s.sig(k) {
                lemma_total_one(cost, Seq::empty(), b);
            }
        },
        W::HashEqual(h) => {
            lemma_preimage_cost(c, cost, s, h, 0);
            if let Some(p) = s.preimage(h) {
                lemma_total_one(cost, Seq::empty(), p);
            }
        },
        W::Time(_) => {},
        W::CastE(e) => {
            lemma_bound_e(c, cost, s, *e);
        },
    }
}

/// What a fragment of type V takes costs no more than its bound says.
pub proof fn lemma_bound_v(
    c: Costs,
    cost: spec_fn(Seq<u8>) -> nat,
    s: &Satisfier,
    v: V<PublicKey>,
)
    requires
        covers(c, cost, s),
    ensures
        v.satisfaction(s) matches Some(st) ==> total(cost, st) <= v.max_sat(c),
    decreases v,
{
    lemma_total_one(cost, Seq::empty(), zero());
    match v {
        V::CheckSig(k) => {
            lemma_sig_cost(c, cost, s, k, 0);
            if let Some(b) = s.sig(k) {
                lemma_total_one(cost, Seq::empty(), b);
            }
        },
        V::CheckMultiSig(k, keys) => {
            lemma_multisig_cost(c, cost, s, keys, k);
        },
        V::Time(_) => {},
        V::HashEqual(h) => {
            lemma_preimage_cost(c, cost, s, h, 0);
            if let Some(p) = s.preimage(h) {
                lemma_total_one(cost, Seq::empty(), p);
            }
        },
        V::And(l, r) => {
            lemma_bound_v(c, cost, s, *l);
            lemma_bound_v(c, cost, s, *r);
            lemma_join_cost(cost, r.satisfaction(s), l.satisfaction(s));
        },
        V::SwitchOr(l, r) => {
            lemma_bound_v(c, cost, s, *l);
            lemma_bound_v(c, cost, s, *r);
            lemma_top_cost(cost, l.satisfaction(s), one());
            lemma_top_cost(cost, r.satisfaction(s), zero());
        },
        V::SwitchOrT(l, r) => {
            lemma_bound_t(c, cost, s, *l);
            lemma_bound_t(c, cost, s, *r);
            lemma_top_cost(cost, l.satisfaction(s), one());
            lemma_top_cost(cost, r.satisfaction(s), zero());
        },
        V::CascadeOr(l, r) => {
            lemma_bound_e(c, cost, s, *l);
            lemma_bound_v(c, cost, s, *r);
            lemma_join_cost(cost, r.satisfaction(s), l.dissatisfaction());
        },
        V::Threshold(k, e1, ws) => {
            lemma_bound_e(c, cost, s, *e1);
            lemma_ws_cost(c, cost, s, ws, k as nat);
            if k > 0 {
                lemma_ws_cost(c, cost, s, ws, (k - 1) as nat);
            }
            lemma_join_cost(cost, ws_satisfaction(ws, (k - 1) as nat, s), e1.satisfaction(s));
            lemma_join_cost(cost, ws_satisfaction(ws, k as nat, s), e1.dissatisfaction());
        },
    }
}

/// What a fragment of type T takes costs no more than its bound says.
pub proof fn lemma_bound_t(
    c: Costs,
    cost: spec_fn(Seq<u8>) -> nat,
    s: &Satisfier,
    t: T<PublicKey>,
)
    requires
        covers(c, cost, s),
    ensures
        t.satisfaction(s) matches Some(st) ==> total(cost, st) <= t.max_sat(c),
    decreases t,
{
    lemma_total_one(cost, Seq::empty(), zero());
    match t {
        T::Time(_) => {},
        T::After(_) => {},
        T::HashEqual(h) => {
            lemma_preimage_cost(c, cost, s, h, 0);
            if let Some(p) = s.preimage(h) {
                lemma_total_one(cost, Seq::empty(), p);
            }
        },
        T::And(l, r) => {
            lemma_bound_v(c, cost, s, *l);
            lemma_bound_t(c, cost, s, *r);
            lemma_join_cost(cost, r.satisfaction(s), l.satisfaction(s));
        },
        T::ParallelOr(l, r) => {
            lemma_bound_e(c, cost, s, *l);
            lemma_bound_w(c, cost, s, *r);
            lemma_join_cost(cost, r.dissatisfaction(), l.satisfaction(s));
            lemma_join_cost(cost, r.satisfaction(s), l.dissatisfaction());
        },
        T::CascadeOr(l, r) => {
            lemma_bound_e(c, cost, s, *l);
            lemma_bound_t(c, cost, s, *r);
            lemma_join_cost(cost, r.satisfaction(s), l.dissatisfaction());
        },
        T::SwitchOr(l, r) => {
            lemma_bound_t(c, cost, s, *l);
            lemma_bound_t(c, cost, s, *r);
            lemma_top_cost(cost, l.satisfaction(s), one());
            lemma_top_cost(cost, r.satisfaction(s), zero());
        },
        T::SwitchOrV(l, r) => {
            lemma_bound_v(c, cost, s, *l);
            lemma_bound_v(c, cost, s, *r);
            lemma_top_cost(cost, l.satisfaction(s), one());
            lemma_top_cost(cost, r.satisfaction(s), zero());
        },
        T::CastE(e) => {
            lemma_bound_e(c, cost, s, *e);
        },
    }
}

/// The stack has no more elements than it costs to count them.
proof fn lemma_count(st: Seq<Seq<u8>>)
    ensures
        total(|e: Seq<u8>| 1nat, st) == st.len(),
    decreases st.len(),
{
    if st.len() > 0 {
        lemma_count(st.drop_last());
    }
}

/// The serialized size of a stack is what its elements cost with the
/// byte that gives the length of each.
proof fn lemma_size(st: Seq<Seq<u8>>)
    ensures
        total(|e: Seq<u8>| 1 + e.len(), st) == stack_size(st),
    decreases st.len(),
{
    if st.len() > 0 {
        lemma_size(st.drop_last());
    }
}

/// No satisfaction has more elements than
/// `max_satisfaction_witness_elements` says.
pub proof fn law_elements_bounded(s: &Satisfier, t: T<PublicKey>)
    ensures
        t.satisfaction(s) matches Some(st) ==> st.len() <= t.max_sat(count_costs()),
{
    let cost = |e: Seq<u8>| 1nat;
    lemma_bound_t(count_costs(), cost, s, t);
    if let Some(st) = t.satisfaction(s) {
        lemma_count(st);
    }
}

/// No satisfaction takes more bytes in a witness than
/// `max_satisfaction_size(2)` says, where no signature has more than 71
/// bytes before the byte of its hash type.
pub proof fn law_size_bounded(s: &Satisfier, t: T<PublicKey>)
    requires
        forall|i: int| 0 <= i < s.sigs@.len() ==> (#[trigger] s.sigs@[i]).1.der@.len() <= 71,
    ensures
        t.satisfaction(s) matches Some(st) ==> stack_size(st) <= t.max_sat(size_costs(2)),
{
    let cost = |e: Seq<u8>| 1 + e.len();
    assert(covers(size_costs(2), cost, s)) by {
        assert forall|i: int| 0 <= i < s.sigs@.len() implies cost(
            (#[trigger] s.sigs@[i]).1.bytes(),
        ) <= size_costs(2).s() by {
            assert(s.sigs@[i].1.der@.len() <= 71);
        }
    }
    lemma_bound_t(size_costs(2), cost, s, t);
    if let Some(st) = t.satisfaction(s) {
        lemma_size(st);
    }
}

/// The scriptSig that pushes a stack is as long as its pushes are
/// together.
proof fn lemma_pushes(st: Seq<Seq<u8>>)
    ensures
        total(|e: Seq<u8>| push_element(e).len(), st) == script_sig_of(st).len(),
    decreases st.len(),
{
    if st.len() > 0 {
        lemma_pushes(st.drop_last());
    }
}

/// No satisfaction takes more bytes as the pushes of a scriptSig than
/// `max_satisfaction_size(1)` says, where no signature has more than 71
/// bytes before the byte of its hash type.
pub proof fn law_pushes_bounded(s: &Satisfier, t: T<PublicKey>)
    requires
        forall|i: int| 0 <= i < s.sigs@.len() ==> (#[trigger] s.sigs@[i]).1.der@.len() <= 71,
    ensures
        t.satisfaction(s) matches Some(st) ==> script_sig_of(st).len() <= t.max_sat(
            size_costs(1),
        ),
{
    let cost = |e: Seq<u8>| push_element(e).len();
    assert(covers(size_costs(1), cost, s)) by {
        assert forall|i: int| 0 <= i < s.sigs@.len() implies cost(
            (#[trigger] s.sigs@[i]).1.bytes(),
        ) <= size_costs(1).s() by {
            assert(s.sigs@[i].1.der@.len() <= 71);
        }
    }
    lemma_bound_t(size_costs(1), cost, s, t);
    if let Some(st) = t.satisfaction(s) {
        lemma_pushes(st);
    }
}

} // verus!
