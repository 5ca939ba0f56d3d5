//! Bounds on what a satisfaction takes: how many elements, and how many
//! bytes.
//!
//! Both are one walk over the tree with different costs for a signature, a
//! preimage, the empty element and the element one. The walk takes, at
//! every node, the largest of the ways to satisfy it.

use vstd::prelude::*;
use crate::astelem::{E, T, V, W};
use crate::list::List;

verus! {

/// What each kind of witness element costs.
#[derive(Clone, Copy, Debug, PartialEq, Eq)]
pub struct Costs {
    /// A signature.
    pub sig: usize,
    /// A preimage of a hash.
    pub preimage: usize,
    /// The empty element.
    pub zero: usize,
    /// The element one.
    pub one: usize,
}

impl Costs {
    /// The cost of a signature.
    pub open spec fn s(self) -> nat {
        self.sig as nat
    }

    /// The cost of a preimage.
    pub open spec fn p(self) -> nat {
        self.preimage as nat
    }

    /// The cost of the empty element.
    pub open spec fn o0(self) -> nat {
        self.zero as nat
    }

    /// The cost of the element one.
    pub open spec fn o1(self) -> nat {
        self.one as nat
    }
}

/// The costs that count elements.
pub open spec fn count_costs() -> Costs {
    Costs { sig: 1, preimage: 1, zero: 1, one: 1 }
}

/// The costs that count bytes: 73 for a signature, 33 for a preimage, 1
/// for the empty element and `one` for the element one, each with what
/// announces it.
pub open spec fn size_costs(one: usize) -> Costs {
    Costs { sig: 73, preimage: 33, zero: 1, one }
}

/// A number as the machine holds it, if it can.
pub open spec fn clip(n: nat) -> Option<usize> {
    if n <= usize::MAX {
        Some(n as usize)
    } else {
        None
    }
}

/// The larger of two numbers.
pub open spec fn larger(a: nat, b: nat) -> nat {
    if a >= b {
        a
    } else {
        b
    }
}

/// The sum over the later children of a threshold of the larger of the
/// costs to satisfy and to dissatisfy each.
pub open spec fn ws_max<K>(ws: List<W<K>>, c: Costs) -> nat
    decreases ws,
{
    match ws {
        List::Nil => 0,
        List::Cons(w, rest) => larger(w.max_sat(c), w.max_dis(c)) + ws_max(*rest, c),
    }
}

/// The cost to dissatisfy all later children of a threshold.
pub open spec fn ws_dis<K>(ws: List<W<K>>, c: Costs) -> nat
    decreases ws,
{
    match ws {
        List::Nil => 0,
        List::Cons(w, rest) => w.max_dis(c) + ws_dis(*rest, c),
    }
}

impl<K> E<K> {
    /// The most that a satisfaction costs.
    pub open spec fn max_sat(self, c: Costs) -> nat
        decreases self,
    {
        match self {
            E::CheckSig(_) => c.s(),
            E::CheckMultiSig(k, _) => c.o0() + k as nat * c.s(),
            E::Time(_) => c.o1(),
            E::Threshold(_, e, ws) => larger(e.max_sat(c), e.max_dis(c)) + ws_max(ws, c),
            E::ParallelAnd(l, r) => l.max_sat(c) + r.max_sat(c),
            E::CascadeAnd(l, r) => l.max_sat(c) + r.max_sat(c),
            E::ParallelOr(l, r) => larger(l.max_sat(c) + r.max_dis(c), l.max_dis(c) + r.max_sat(c)),
            E::CascadeOr(l, r) => larger(l.max_sat(c), l.max_dis(c) + r.max_sat(c)),
            E::SwitchOrLeft(l, r) => larger(l.max_sat(c) + c.o1(), r.max_sat(c) + c.o0()),
            E::SwitchOrRight(l, r) => larger(l.max_sat(c) + c.o0(), r.max_sat(c) + c.o1()),
            E::Likely(t) => t.max_sat(c) + c.o0(),
            E::Unlikely(t) => t.max_sat(c) + c.o1(),
        }
    }

    /// What the dissatisfaction costs; 0 where there is none.
    pub open spec fn max_dis(self, c: Costs) -> nat
        decreases self,
    {
        match self {
            E::CheckSig(_) => c.o0(),
            E::CheckMultiSig(k, _) => k as nat * c.o0() + c.o0(),
            E::Time(_) => c.o0(),
            E::Threshold(_, e, ws) => e.max_dis(c) + ws_dis(ws, c),
            E::ParallelAnd(l, r) => l.max_dis(c) + r.max_dis(c),
            E::CascadeAnd(l, _) => l.max_dis(c),
            E::ParallelOr(l, r) => l.max_dis(c) + r.max_dis(c),
            E::CascadeOr(_, _) => 0,
            E::SwitchOrLeft(l, _) => l.max_dis(c) + c.o1(),
            E::SwitchOrRight(l, _) => l.max_dis(c) + c.o0(),
            E::Likely(_) => c.o1(),
            E::Unlikely(_) => c.o0(),
        }
    }
}

impl<K> W<K> {
    /// The most that a satisfaction costs.
    pub open spec fn max_sat(self, c: Costs) -> nat
        decreases self,
    {
        match self {
            W::CheckSig(_) => c.s(),
            W::HashEqual(_) => c.p(),
            W::Time(_) => c.o1(),
            W::CastE(e) => e.max_sat(c),
        }
    }

    /// What the dissatisfaction costs; 0 where there is none.
    pub open spec fn max_dis(self, c: Costs) -> nat
        decreases self,
    {
        match self {
            W::CheckSig(_) => c.o0(),
            W::HashEqual(_) => c.o0(),
            W::Time(_) => c.o0(),
            W::CastE(e) => e.max_dis(c),
        }
    }
}

impl<K> V<K> {
    /// The most that a satisfaction costs.
    pub open spec fn max_sat(self, c: Costs) -> nat
        decreases self,
    {
        match self {
            V::CheckSig(_) => c.s(),
            V::CheckMultiSig(k, _) => c.o0() + k as nat * c.s(),
            V::Time(_) => 0,
            V::HashEqual(_) => c.p(),
            V::And(l, r) => l.max_sat(c) + r.max_sat(c),
            V::SwitchOr(l, r) => larger(l.max_sat(c) + c.o1(), r.max_sat(c) + c.o0()),
            V::SwitchOrT(l, r) => larger(l.max_sat(c) + c.o1(), r.max_sat(c) + c.o0()),
            V::CascadeOr(l, r) => larger(l.max_sat(c), l.max_dis(c) + r.max_sat(c)),
            V::Threshold(_, e, ws) => larger(e.max_sat(c), e.max_dis(c)) + ws_max(ws, c),
        }
    }
}

impl<K> T<K> {
    /// The most that a satisfaction costs.
    pub open spec fn max_sat(self, c: Costs) -> nat
        decreases self,
    {
        match self {
            T::Time(_) => 0,
            T::After(_) => 0,
            T::HashEqual(_) => c.p(),
            T::And(l, r) => l.max_sat(c) + r.max_sat(c),
            T::ParallelOr(l, r) => larger(l.max_sat(c) + r.max_dis(c), l.max_dis(c) + r.max_sat(c)),
            T::CascadeOr(l, r) => larger(l.max_sat(c), l.max_dis(c) + r.max_sat(c)),
            T::SwitchOr(l, r) => larger(l.max_sat(c) + c.o1(), r.max_sat(c) + c.o0()),
            T::SwitchOrV(l, r) => larger(l.max_sat(c) + c.o1(), r.max_sat(c) + c.o0()),
            T::CastE(e) => e.max_sat(c),
        }
    }
}

/// A number that is known to fit.
pub(crate) fn exactly(n: usize) -> (r: Option<usize>)
    ensures
        r == clip(n as nat),
{
    Some(n)
}

/// The sum of two numbers that may have grown too large.
pub(crate) fn plus(a: Option<usize>, b: Option<usize>) -> (r: Option<usize>)
    ensures
        forall|x: nat, y: nat| a == #[trigger] clip(x) && b == #[trigger] clip(y) ==> r == clip(
            x + y,
        ),
{
    match (a, b) {
        (Some(u), Some(v)) => u.checked_add(v),
        _ => None,
    }
}

/// The product of two numbers.
pub(crate) fn times(a: usize, b: usize) -> (r: Option<usize>)
    ensures
        r == clip((a * b) as nat),
{
    a.checked_mul(b)
}

/// The larger of two numbers that may have grown too large.
pub(crate) fn max_of(a: Option<usize>, b: Option<usize>) -> (r: Option<usize>)
    ensures
        forall|x: nat, y: nat| a == #[trigger] clip(x) && b == #[trigger] clip(y) ==> r == clip(
            larger(x, y),
        ),
{
    match (a, b) {
        (Some(u), Some(v)) => if u >= v {
            Some(u)
        } else {
            Some(v)
        },
        _ => None,
    }
}

/// The cost of the later children of a threshold, each at the larger of
/// its two costs.
fn ws_max_cost<K>(ws: &List<W<K>>, c: &Costs) -> (r: Option<usize>)
    ensures
        r == clip(ws_max(*ws, *c)),
    decreases ws,
{
    match ws {
        List::Nil => exactly(0),
        List::Cons(w, rest) => plus(max_of(w.max_cost(c), w.dis_cost(c)), ws_max_cost(rest, c)),
    }
}

/// The cost to dissatisfy all later children of a threshold.
fn ws_dis_cost<K>(ws: &List<W<K>>, c: &Costs) -> (r: Option<usize>)
    ensures
        r == clip(ws_dis(*ws, *c)),
    decreases ws,
{
    match ws {
        List::Nil => exactly(0),
        List::Cons(w, rest) => plus(w.dis_cost(c), ws_dis_cost(rest, c)),
    }
}

impl<K> E<K> {
    /// The most that a satisfaction costs, or `None` where that is more than
    /// the machine counts.
    pub fn max_cost(&self, c: &Costs) -> (r: Option<usize>)
        ensures
            r == clip(self.max_sat(*c)),
        decreases self,
    {
        match self {
            E::CheckSig(_) => exactly(c.sig),
            E::CheckMultiSig(k, _) => plus(exactly(c.zero), times(*k as usize, c.sig)),
            E::Time(_) => exactly(c.one),
            E::Threshold(_, e, ws) => plus(
                max_of(e.max_cost(c), e.dis_cost(c)),
                ws_max_cost(ws, c),
            ),
            E::ParallelAnd(l, r) => plus(l.max_cost(c), r.max_cost(c)),
            E::CascadeAnd(l, r) => plus(l.max_cost(c), r.max_cost(c)),
            E::ParallelOr(l, r) => max_of(
                plus(l.max_cost(c), r.dis_cost(c)),
                plus(l.dis_cost(c), r.max_cost(c)),
            ),
            E::CascadeOr(l, r) => max_of(l.max_cost(c), plus(l.dis_cost(c), r.max_cost(c))),
            E::SwitchOrLeft(l, r) => max_of(
                plus(l.max_cost(c), exactly(c.one)),
                plus(r.max_cost(c), exactly(c.zero)),
            ),
            E::SwitchOrRight(l, r) => max_of(
                plus(l.max_cost(c), exactly(c.zero)),
                plus(r.max_cost(c), exactly(c.one)),
            ),
            E::Likely(t) => plus(t.max_cost(c), exactly(c.zero)),
            E::Unlikely(t) => plus(t.max_cost(c), exactly(c.one)),
        }
    }

    /// What the dissatisfaction costs, or `None` where that is more than the
    /// machine counts.
    pub fn dis_cost(&self, c: &Costs) -> (r: Option<usize>)
        ensures
            r == clip(self.max_dis(*c)),
        decreases self,
    {
        match self {
            E::CheckSig(_) => exactly(c.zero),
            E::CheckMultiSig(k, _) => plus(times(*k as usize, c.zero), exactly(c.zero)),
            E::Time(_) => exactly(c.zero),
            E::Threshold(_, e, ws) => plus(e.dis_cost(c), ws_dis_cost(ws, c)),
            E::ParallelAnd(l, r) => plus(l.dis_cost(c), r.dis_cost(c)),
            E::CascadeAnd(l, _) => l.dis_cost(c),
            E::ParallelOr(l, r) => plus(l.dis_cost(c), r.dis_cost(c)),
            E::CascadeOr(_, _) => exactly(0),
            E::SwitchOrLeft(l, _) => plus(l.dis_cost(c), exactly(c.one)),
            E::SwitchOrRight(l, _) => plus(l.dis_cost(c), exactly(c.zero)),
            E::Likely(_) => exactly(c.one),
            E::Unlikely(_) => exactly(c.zero),
        }
    }
}

impl<K> W<K> {
    /// The most that a satisfaction costs, or `None` where that is more than
    /// the machine counts.
    pub fn max_cost(&self, c: &Costs) -> (r: Option<usize>)
        ensures
            r == clip(self.max_sat(*c)),
        decreases self,
    {
        match self {
            W::CheckSig(_) => exactly(c.sig),
            W::HashEqual(_) => exactly(c.preimage),
            W::Time(_) => exactly(c.one),
            W::CastE(e) => e.max_cost(c),
        }
    }

    /// What the dissatisfaction costs, or `None` where that is more than the
    /// machine counts.
    pub fn dis_cost(&self, c: &Costs) -> (r: Option<usize>)
        ensures
            r == clip(self.max_dis(*c)),
        decreases self,
    {
        match self {
            W::CheckSig(_) => exactly(c.zero),
            W::HashEqual(_) => exactly(c.zero),
            W::Time(_) => exactly(c.zero),
            W::CastE(e) => e.dis_cost(c),
        }
    }
}

impl<K> V<K> {
    /// The most that a satisfaction costs, or `None` where that is more than
    /// the machine counts.
    pub fn max_cost(&self, c: &Costs) -> (r: Option<usize>)
        ensures
            r == clip(self.max_sat(*c)),
        decreases self,
    {
        match self {
            V::CheckSig(_) => exactly(c.sig),
            V::CheckMultiSig(k, _) => plus(exactly(c.zero), times(*k as usize, c.sig)),
            V::Time(_) => exactly(0),
            V::HashEqual(_) => exactly(c.preimage),
            V::And(l, r) => plus(l.max_cost(c), r.max_cost(c)),
            V::SwitchOr(l, r) => max_of(
                plus(l.max_cost(c), exactly(c.one)),
                plus(r.max_cost(c), exactly(c.zero)),
            ),
            V::SwitchOrT(l, r) => max_of(
                plus(l.max_cost(c), exactly(c.one)),
                plus(r.max_cost(c), exactly(c.zero)),
            ),
            V::CascadeOr(l, r) => max_of(l.max_cost(c), plus(l.dis_cost(c), r.max_cost(c))),
            V::Threshold(_, e, ws) => plus(
                max_of(e.max_cost(c), e.dis_cost(c)),
                ws_max_cost(ws, c),
            ),
        }
    }
}

impl<K> T<K> {
    /// The most that a satisfaction costs, or `None` where that is more than
    /// the machine counts.
    pub fn max_cost(&self, c: &Costs) -> (r: Option<usize>)
        ensures
            r == clip(self.max_sat(*c)),
        decreases self,
    {
        match self {
            T::Time(_) => exactly(0),
            T::After(_) => exactly(0),
            T::HashEqual(_) => exactly(c.preimage),
            T::And(l, r) => plus(l.max_cost(c), r.max_cost(c)),
            T::ParallelOr(l, r) => max_of(
                plus(l.max_cost(c), r.dis_cost(c)),
                plus(l.dis_cost(c), r.max_cost(c)),
            ),
            T::CascadeOr(l, r) => max_of(l.max_cost(c), plus(l.dis_cost(c), r.max_cost(c))),
            T::SwitchOr(l, r) => max_of(
                plus(l.max_cost(c), exactly(c.one)),
                plus(r.max_cost(c), exactly(c.zero)),
            ),
            T::SwitchOrV(l, r) => max_of(
                plus(l.max_cost(c), exactly(c.one)),
                plus(r.max_cost(c), exactly(c.zero)),
            ),
            T::CastE(e) => e.max_cost(c),
        }
    }

    /// The most elements that a satisfaction puts on the stack.
    pub fn max_satisfaction_witness_elements(&self) -> (r: Option<usize>)
        ensures
            r == clip(self.max_sat(count_costs())),
    {
        self.max_cost(&Costs { sig: 1, preimage: 1, zero: 1, one: 1 })
    }

    /// The most bytes that a satisfaction takes, where the element one
    /// takes `one_cost` of them: 1 in a scriptSig, 2 in a witness.
    pub fn max_satisfaction_size(&self, one_cost: usize) -> (r: Option<usize>)
        ensures
            r == clip(self.max_sat(size_costs(one_cost))),
    {
        self.max_cost(&Costs { sig: 73, preimage: 33, zero: 1, one: one_cost })
    }
}

impl T<crate::key::PublicKey> {
    /// The length of the Script program of the fragment.
    pub fn script_size(&self) -> (r: usize)
        ensures
            r == self.script().len(),
    {
        self.encode().len()
    }
}

} // verus!
