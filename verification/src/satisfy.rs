//! The satisfier: what a spender holds, and the witness stack that makes a
//! fragment succeed with it.
//!
//! A stack is given bottom first, so what a fragment reads first stands
//! last. Of two ways to satisfy a disjunction the one with the smaller
//! serialized stack is taken, the left one where both are of one size. A
//! threshold is met by the first children, in order, that can be satisfied.

use vstd::prelude::*;
use crate::astelem::{E, T, V, W};
use crate::bytes::{extend, lemma_array_eq, slice_eq};
use crate::descript::Descript;
use crate::error::Error;
use crate::key::PublicKey;
use crate::list::List;
use crate::stack::{
    join, join_stacks, nothing, one, one_element, opt_small, opt_view, pick_smaller, push_top,
    single, smaller, stack_view, with_top, zero, zero_element, MAX_ELEMENT,
};

verus! {

/// A signature as it stands in a witness: its DER encoding and the byte of
/// its signature hash type.
#[derive(Clone, Debug, PartialEq, Eq)]
pub struct BitcoinSig {
    pub der: Vec<u8>,
    pub sighash_type: u8,
}

impl BitcoinSig {
    /// No DER signature is longer than 72 bytes.
    pub open spec fn wf(&self) -> bool {
        self.der@.len() <= 72
    }

    /// The element that is pushed for the signature.
    pub open spec fn bytes(&self) -> Seq<u8> {
        self.der@.push(self.sighash_type)
    }

    /// The element that is pushed for the signature.
    pub fn to_bytes(&self) -> (r: Vec<u8>)
        ensures
            r@ == self.bytes(),
    {
        let mut out: Vec<u8> = Vec::new();
        extend(&mut out, self.der.as_slice());
        out.push(self.sighash_type);
        out
    }
}

/// What a spender holds: signatures by key, preimages by hash, and how far
/// the two clocks of the input have come.
#[derive(Clone, Debug, PartialEq, Eq)]
pub struct Satisfier {
    /// The signatures, each with the key it is made for.
    pub sigs: Vec<(PublicKey, BitcoinSig)>,
    /// The preimages, each after its hash.
    pub preimages: Vec<([u8; 32], [u8; 32])>,
    /// The relative locktime that the input has reached.
    pub age: u32,
    /// The absolute locktime that the transaction has reached.
    pub locktime: u32,
}

/// The signature for `k` among `sigs` from index `i` on, the first where
/// there are several.
pub open spec fn find_sig(sigs: Seq<(PublicKey, BitcoinSig)>, k: PublicKey, i: int) -> Option<
    Seq<u8>,
>
    decreases sigs.len() - i,
{
    if i < 0 || i >= sigs.len() {
        None
    } else if sigs[i].0 == k {
        Some(sigs[i].1.bytes())
    } else {
        find_sig(sigs, k, i + 1)
    }
}

/// The preimage of `h` among `preimages` from index `i` on.
pub open spec fn find_preimage(preimages: Seq<([u8; 32], [u8; 32])>, h: [u8; 32], i: int) -> Option<
    Seq<u8>,
>
    decreases preimages.len() - i,
{
    if i < 0 || i >= preimages.len() {
        None
    } else if preimages[i].0 == h {
        Some(preimages[i].1@)
    } else {
        find_preimage(preimages, h, i + 1)
    }
}

impl Satisfier {
    /// Every signature is of a length that a signature can have.
    pub open spec fn wf(&self) -> bool {
        forall|i: int| 0 <= i < self.sigs@.len() ==> (#[trigger] self.sigs@[i]).1.wf()
    }

    /// The signature for `k`, as the element that is pushed.
    pub open spec fn sig(&self, k: PublicKey) -> Option<Seq<u8>> {
        find_sig(self.sigs@, k, 0)
    }

    /// The preimage of `h`.
    pub open spec fn preimage(&self, h: [u8; 32]) -> Option<Seq<u8>> {
        find_preimage(self.preimages@, h, 0)
    }

    /// A signature that is found is no longer than an element may be.
    pub proof fn lemma_sig_small(&self, k: PublicKey, i: int)
        requires
            self.wf(),
            0 <= i,
        ensures
            find_sig(self.sigs@, k, i) matches Some(b) ==> b.len() <= MAX_ELEMENT,
        decreases self.sigs@.len() - i,
    {
        if i < self.sigs@.len() && self.sigs@[i].0 != k {
            self.lemma_sig_small(k, i + 1);
        }
    }

    /// Whether every signature is of a length that a signature can have.
    pub fn is_wf(&self) -> (r: bool)
        ensures
            r == self.wf(),
    {
        let mut i: usize = 0;
        while i < self.sigs.len()
            invariant
                i <= self.sigs.len(),
                forall|j: int| 0 <= j < i ==> (#[trigger] self.sigs@[j]).1.wf(),
            decreases self.sigs.len() - i,
        {
            if self.sigs[i].1.der.len() > 72 {
                return false;
            }
            i += 1;
        }
        true
    }

    /// The signature for `k` with the byte of its hash type appended.
    pub fn lookup_sig(&self, k: &PublicKey) -> (r: Option<Vec<u8>>)
        ensures
            match r {
                Some(b) => self.sig(*k) == Some(b@),
                None => self.sig(*k) is None,
            },
            self.wf() && r is Some ==> r->Some_0@.len() <= MAX_ELEMENT,
    {
        let mut i: usize = 0;
        while i < self.sigs.len()
            invariant
                i <= self.sigs.len(),
                self.sig(*k) == find_sig(self.sigs@, *k, i as int),
            decreases self.sigs.len() - i,
        {
            let same = slice_eq(self.sigs[i].0.bytes.as_slice(), k.bytes.as_slice());
            proof {
                if same {
                    lemma_array_eq(self.sigs@[i as int].0.bytes, k.bytes);
                }
            }
            if same {
                let b = self.sigs[i].1.to_bytes();
                proof {
                    if self.wf() {
                        self.lemma_sig_small(*k, i as int);
                    }
                }
                return Some(b);
            }
            i += 1;
        }
        None
    }

    /// The preimage of `h`.
    pub fn lookup_hash256_preimage(&self, h: &[u8; 32]) -> (r: Option<[u8; 32]>)
        ensures
            match r {
                Some(p) => self.preimage(*h) == Some(p@),
                None => self.preimage(*h) is None,
            },
    {
        let mut i: usize = 0;
        while i < self.preimages.len()
            invariant
                i <= self.preimages.len(),
                self.preimage(*h) == find_preimage(self.preimages@, *h, i as int),
            decreases self.preimages.len() - i,
        {
            let same = slice_eq(self.preimages[i].0.as_slice(), h.as_slice());
            proof {
                if same {
                    lemma_array_eq(self.preimages@[i as int].0, *h);
                }
            }
            if same {
                return Some(self.preimages[i].1);
            }
            i += 1;
        }
        None
    }

    /// Whether a relative locktime of `n` has passed.
    pub fn check_older(&self, n: u32) -> (r: bool)
        ensures
            r == (self.age >= n),
    {
        self.age >= n
    }

    /// Whether an absolute locktime of `n` has passed.
    pub fn check_after(&self, n: u32) -> (r: bool)
        ensures
            r == (self.locktime >= n),
    {
        self.locktime >= n
    }
}

/// A stack of the one element `e`, where there is one.
pub open spec fn single_of(e: Option<Seq<u8>>) -> Option<Seq<Seq<u8>>> {
    match e {
        Some(b) => Some(seq![b]),
        None => None,
    }
}

/// A stack of `n` empty elements.
pub open spec fn zeros(n: nat) -> Seq<Seq<u8>> {
    Seq::new(n, |i: int| zero())
}

/// The stack that `test` asks for where it holds.
pub open spec fn provided(test: bool, st: Seq<Seq<u8>>) -> Option<Seq<Seq<u8>>> {
    if test {
        Some(st)
    } else {
        None
    }
}

/// The signatures for the first `k` keys of `keys` that have one, in the
/// order of the keys.
pub open spec fn pick_sigs(keys: List<PublicKey>, k: nat, s: &Satisfier) -> Option<Seq<Seq<u8>>>
    decreases keys,
{
    if k == 0 {
        Some(Seq::empty())
    } else {
        match keys {
            List::Nil => None,
            List::Cons(key, rest) => match s.sig(key) {
                Some(b) => join(Some(seq![b]), pick_sigs(*rest, (k - 1) as nat, s)),
                None => pick_sigs(*rest, k, s),
            },
        }
    }
}

/// The satisfaction of a multisignature: the empty element that
/// `CHECKMULTISIG` takes too many, then the signatures.
pub open spec fn multisig_satisfaction(k: u32, keys: List<PublicKey>, s: &Satisfier) -> Option<
    Seq<Seq<u8>>,
> {
    join(Some(seq![zero()]), pick_sigs(keys, k as nat, s))
}

/// The stack for the later children of a threshold of which `k` are yet to
/// be satisfied: the first `k` that can be are, the others are
/// dissatisfied.
pub open spec fn ws_satisfaction(ws: List<W<PublicKey>>, k: nat, s: &Satisfier) -> Option<
    Seq<Seq<u8>>,
>
    decreases ws,
{
    match ws {
        List::Nil => provided(k == 0, Seq::empty()),
        List::Cons(w, rest) => if k > 0 && w.satisfaction(s) is Some {
            join(ws_satisfaction(*rest, (k - 1) as nat, s), w.satisfaction(s))
        } else {
            join(ws_satisfaction(*rest, k, s), w.dissatisfaction())
        },
    }
}

/// The stack that dissatisfies all later children of a threshold.
pub open spec fn ws_dissatisfaction(ws: List<W<PublicKey>>) -> Option<Seq<Seq<u8>>>
    decreases ws,
{
    match ws {
        List::Nil => Some(Seq::empty()),
        List::Cons(w, rest) => join(ws_dissatisfaction(*rest), w.dissatisfaction()),
    }
}

/// Of two branches behind `IF` and `ELSE`, the smaller satisfaction with
/// the element that selects its branch on top.
pub open spec fn switch_satisfaction(
    if_branch: Option<Seq<Seq<u8>>>,
    else_branch: Option<Seq<Seq<u8>>>,
) -> Option<Seq<Seq<u8>>> {
    smaller(with_top(if_branch, one()), with_top(else_branch, zero()))
}

impl E<PublicKey> {
    /// The stack that makes the fragment leave 1.
    pub open spec fn satisfaction(self, s: &Satisfier) -> Option<Seq<Seq<u8>>>
        decreases self,
    {
        match self {
            E::CheckSig(k) => single_of(s.sig(k)),
            E::CheckMultiSig(k, keys) => multisig_satisfaction(k, keys, s),
            E::Time(n) => provided(s.age >= n, seq![one()]),
            E::Threshold(k, e, ws) => if k > 0 && e.satisfaction(s) is Some {
                join(ws_satisfaction(ws, (k - 1) as nat, s), e.satisfaction(s))
            } else {
                join(ws_satisfaction(ws, k as nat, s), e.dissatisfaction())
            },
            E::ParallelAnd(l, r) => join(r.satisfaction(s), l.satisfaction(s)),
            E::CascadeAnd(l, r) => join(r.satisfaction(s), l.satisfaction(s)),
            E::ParallelOr(l, r) => smaller(
                join(r.dissatisfaction(), l.satisfaction(s)),
                join(r.satisfaction(s), l.dissatisfaction()),
            ),
            E::CascadeOr(l, r) => smaller(
                l.satisfaction(s),
                join(r.satisfaction(s), l.dissatisfaction()),
            ),
            E::SwitchOrLeft(l, r) => switch_satisfaction(l.satisfaction(s), r.satisfaction(s)),
            E::SwitchOrRight(l, r) => smaller(
                with_top(l.satisfaction(s), zero()),
                with_top(r.satisfaction(s), one()),
            ),
            E::Likely(t) => with_top(t.satisfaction(s), zero()),
            E::Unlikely(t) => with_top(t.satisfaction(s), one()),
        }
    }

    /// The stack that makes the fragment leave 0, where there is one.
    pub open spec fn dissatisfaction(self) -> Option<Seq<Seq<u8>>>
        decreases self,
    {
        match self {
            E::CheckSig(_) => Some(seq![zero()]),
            E::CheckMultiSig(k, _) => Some(zeros((k + 1) as nat)),
            E::Time(_) => Some(seq![zero()]),
            E::Threshold(_, e, ws) => join(ws_dissatisfaction(ws), e.dissatisfaction()),
            E::ParallelAnd(l, r) => join(r.dissatisfaction(), l.dissatisfaction()),
            E::CascadeAnd(l, _) => l.dissatisfaction(),
            E::ParallelOr(l, r) => join(r.dissatisfaction(), l.dissatisfaction()),
            E::CascadeOr(_, _) => None,
            E::SwitchOrLeft(l, _) => with_top(l.dissatisfaction(), one()),
            E::SwitchOrRight(l, _) => with_top(l.dissatisfaction(), zero()),
            E::Likely(_) => Some(seq![one()]),
            E::Unlikely(_) => Some(seq![zero()]),
        }
    }
}

impl W<PublicKey> {
    /// The stack that makes the fragment leave 1.
    pub open spec fn satisfaction(self, s: &Satisfier) -> Option<Seq<Seq<u8>>>
        decreases self,
    {
        match self {
            W::CheckSig(k) => single_of(s.sig(k)),
            W::HashEqual(h) => single_of(s.preimage(h)),
            W::Time(n) => provided(s.age >= n, seq![one()]),
            W::CastE(e) => e.satisfaction(s),
        }
    }

    /// The stack that makes the fragment leave 0, where there is one.
    pub open spec fn dissatisfaction(self) -> Option<Seq<Seq<u8>>>
        decreases self,
    {
        match self {
            W::CheckSig(_) => Some(seq![zero()]),
            W::HashEqual(_) => Some(seq![zero()]),
            W::Time(_) => Some(seq![zero()]),
            W::CastE(e) => e.dissatisfaction(),
        }
    }
}

impl V<PublicKey> {
    /// The stack with which the fragment does not abort.
    pub open spec fn satisfaction(self, s: &Satisfier) -> Option<Seq<Seq<u8>>>
        decreases self,
    {
        match self {
            V::CheckSig(k) => single_of(s.sig(k)),
            V::CheckMultiSig(k, keys) => multisig_satisfaction(k, keys, s),
            V::Time(n) => provided(s.age >= n, Seq::empty()),
            V::HashEqual(h) => single_of(s.preimage(h)),
            V::And(l, r) => join(r.satisfaction(s), l.satisfaction(s)),
            V::SwitchOr(l, r) => switch_satisfaction(l.satisfaction(s), r.satisfaction(s)),
            V::SwitchOrT(l, r) => switch_satisfaction(l.satisfaction(s), r.satisfaction(s)),
            V::CascadeOr(l, r) => smaller(
                l.satisfaction(s),
                join(r.satisfaction(s), l.dissatisfaction()),
            ),
            V::Threshold(k, e, ws) => if k > 0 && e.satisfaction(s) is Some {
                join(ws_satisfaction(ws, (k - 1) as nat, s), e.satisfaction(s))
            } else {
                join(ws_satisfaction(ws, k as nat, s), e.dissatisfaction())
            },
        }
    }
}

impl T<PublicKey> {
    /// The stack with which the fragment succeeds.
    pub open spec fn satisfaction(self, s: &Satisfier) -> Option<Seq<Seq<u8>>>
        decreases self,
    {
        match self {
            T::Time(n) => provided(s.age >= n, Seq::empty()),
            T::After(n) => provided(s.locktime >= n, Seq::empty()),
            T::HashEqual(h) => single_of(s.preimage(h)),
            T::And(l, r) => join(r.satisfaction(s), l.satisfaction(s)),
            T::ParallelOr(l, r) => smaller(
                join(r.dissatisfaction(), l.satisfaction(s)),
                join(r.satisfaction(s), l.dissatisfaction()),
            ),
            T::CascadeOr(l, r) => smaller(
                l.satisfaction(s),
                join(r.satisfaction(s), l.dissatisfaction()),
            ),
            T::SwitchOr(l, r) => switch_satisfaction(l.satisfaction(s), r.satisfaction(s)),
            T::SwitchOrV(l, r) => switch_satisfaction(l.satisfaction(s), r.satisfaction(s)),
            T::CastE(e) => e.satisfaction(s),
        }
    }
}

/// The stack of the signature for `k`, where the satisfier has one.
fn sig_stack(s: &Satisfier, k: &PublicKey) -> (r: Option<Vec<Vec<u8>>>)
    requires
        s.wf(),
    ensures
        opt_view(r) == single_of(s.sig(*k)),
        opt_small(opt_view(r)),
{
    match s.lookup_sig(k) {
        Some(b) => single(b),
        None => None,
    }
}

/// The stack of the preimage of `h`, where the satisfier has one.
fn preimage_stack(s: &Satisfier, h: &[u8; 32]) -> (r: Option<Vec<Vec<u8>>>)
    ensures
        opt_view(r) == single_of(s.preimage(*h)),
        opt_small(opt_view(r)),
{
    match s.lookup_hash256_preimage(h) {
        Some(p) => {
            let mut b: Vec<u8> = Vec::new();
            extend(&mut b, p.as_slice());
            single(b)
        },
        None => None,
    }
}

/// The stack that a passed locktime asks for.
fn provided_stack(test: bool, st: Option<Vec<Vec<u8>>>) -> (r: Option<Vec<Vec<u8>>>)
    requires
        st is Some,
    ensures
        opt_view(r) == provided(test, opt_view(st)->Some_0),
        opt_small(opt_view(st)) ==> opt_small(opt_view(r)),
{
    if test {
        st
    } else {
        None
    }
}

/// A stack of `n` empty elements.
fn zeros_stack(n: u64) -> (r: Option<Vec<Vec<u8>>>)
    ensures
        opt_view(r) == Some(zeros(n as nat)),
        opt_small(opt_view(r)),
{
    let mut st: Vec<Vec<u8>> = Vec::new();
    let mut i: u64 = 0;
    while i < n
        invariant
            i <= n,
            st@.len() == i,
            forall|j: int| 0 <= j < i ==> (#[trigger] st@[j])@ == zero(),
        decreases n - i,
    {
        st.push(zero_element());
        i += 1;
    }
    assert(stack_view(st@) =~= zeros(n as nat));
    Some(st)
}

/// The signatures for the first `k` keys that have one.
fn pick_sigs_stack(keys: &List<PublicKey>, k: u32, s: &Satisfier) -> (r: Option<Vec<Vec<u8>>>)
    requires
        s.wf(),
    ensures
        opt_view(r) == pick_sigs(*keys, k as nat, s),
        opt_small(opt_view(r)),
    decreases keys,
{
    if k == 0 {
        return nothing();
    }
    match keys {
        List::Nil => None,
        List::Cons(key, rest) => {
            let found = sig_stack(s, key);
            match found {
                Some(st) => join_stacks(Some(st), pick_sigs_stack(rest, k - 1, s)),
                None => pick_sigs_stack(rest, k, s),
            }
        },
    }
}

/// The satisfaction of a multisignature.
fn multisig_stack(k: u32, keys: &List<PublicKey>, s: &Satisfier) -> (r: Option<Vec<Vec<u8>>>)
    requires
        s.wf(),
    ensures
        opt_view(r) == multisig_satisfaction(k, *keys, s),
        opt_small(opt_view(r)),
{
    join_stacks(single(zero_element()), pick_sigs_stack(keys, k, s))
}

/// The stack for the later children of a threshold of which `k` are yet to
/// be satisfied.
fn ws_stack(ws: &List<W<PublicKey>>, k: u32, s: &Satisfier) -> (r: Option<Vec<Vec<u8>>>)
    requires
        s.wf(),
    ensures
        opt_view(r) == ws_satisfaction(*ws, k as nat, s),
        opt_small(opt_view(r)),
    decreases ws,
{
    match ws {
        List::Nil => provided_stack(k == 0, nothing()),
        List::Cons(w, rest) => {
            let sat = w.satisfy(s);
            if k > 0 && sat.is_some() {
                join_stacks(ws_stack(rest, k - 1, s), sat)
            } else {
                join_stacks(ws_stack(rest, k, s), w.dissatisfy())
            }
        },
    }
}

/// The stack that dissatisfies all later children of a threshold.
fn ws_zero_stack(ws: &List<W<PublicKey>>) -> (r: Option<Vec<Vec<u8>>>)
    ensures
        opt_view(r) == ws_dissatisfaction(*ws),
        opt_small(opt_view(r)),
    decreases ws,
{
    match ws {
        List::Nil => nothing(),
        List::Cons(w, rest) => join_stacks(ws_zero_stack(rest), w.dissatisfy()),
    }
}

/// Of two branches behind `IF` and `ELSE`, the smaller satisfaction with
/// its selector on top.
fn switch_stack(if_branch: Option<Vec<Vec<u8>>>, else_branch: Option<Vec<Vec<u8>>>) -> (r: Option<
    Vec<Vec<u8>>,
>)
    requires
        opt_small(opt_view(if_branch)),
        opt_small(opt_view(else_branch)),
    ensures
        opt_view(r) == switch_satisfaction(opt_view(if_branch), opt_view(else_branch)),
        opt_small(opt_view(r)),
{
    pick_smaller(push_top(if_branch, one_element()), push_top(else_branch, zero_element()))
}

impl E<PublicKey> {
    /// The witness stack that makes the fragment leave 1, bottom first, or
    /// `None` where the satisfier holds too little.
    pub fn satisfy(&self, s: &Satisfier) -> (r: Option<Vec<Vec<u8>>>)
        requires
            s.wf(),
        ensures
            opt_view(r) == self.satisfaction(s),
            opt_small(opt_view(r)),
        decreases self,
    {
        match self {
            E::CheckSig(k) => sig_stack(s, k),
            E::CheckMultiSig(k, keys) => multisig_stack(*k, keys, s),
            E::Time(n) => provided_stack(s.check_older(*n), single(one_element())),
            E::Threshold(k, e, ws) => {
                let sat = e.satisfy(s);
                if *k > 0 && sat.is_some() {
                    join_stacks(ws_stack(ws, *k - 1, s), sat)
                } else {
                    join_stacks(ws_stack(ws, *k, s), e.dissatisfy())
                }
            },
            E::ParallelAnd(l, r) => join_stacks(r.satisfy(s), l.satisfy(s)),
            E::CascadeAnd(l, r) => join_stacks(r.satisfy(s), l.satisfy(s)),
            E::ParallelOr(l, r) => pick_smaller(
                join_stacks(r.dissatisfy(), l.satisfy(s)),
                join_stacks(r.satisfy(s), l.dissatisfy()),
            ),
            E::CascadeOr(l, r) => pick_smaller(
                l.satisfy(s),
                join_stacks(r.satisfy(s), l.dissatisfy()),
            ),
            E::SwitchOrLeft(l, r) => switch_stack(l.satisfy(s), r.satisfy(s)),
            E::SwitchOrRight(l, r) => pick_smaller(
                push_top(l.satisfy(s), zero_element()),
                push_top(r.satisfy(s), one_element()),
            ),
            E::Likely(t) => push_top(t.satisfy(s), zero_element()),
            E::Unlikely(t) => push_top(t.satisfy(s), one_element()),
        }
    }

    /// The witness stack that makes the fragment leave 0, or `None` where
    /// the fragment has none.
    pub fn dissatisfy(&self) -> (r: Option<Vec<Vec<u8>>>)
        ensures
            opt_view(r) == self.dissatisfaction(),
            opt_small(opt_view(r)),
        decreases self,
    {
        match self {
            E::CheckSig(_) => single(zero_element()),
            E::CheckMultiSig(k, _) => zeros_stack(*k as u64 + 1),
            E::Time(_) => single(zero_element()),
            E::Threshold(_, e, ws) => join_stacks(ws_zero_stack(ws), e.dissatisfy()),
            E::ParallelAnd(l, r) => join_stacks(r.dissatisfy(), l.dissatisfy()),
            E::CascadeAnd(l, _) => l.dissatisfy(),
            E::ParallelOr(l, r) => join_stacks(r.dissatisfy(), l.dissatisfy()),
            E::CascadeOr(_, _) => None,
            E::SwitchOrLeft(l, _) => push_top(l.dissatisfy(), one_element()),
            E::SwitchOrRight(l, _) => push_top(l.dissatisfy(), zero_element()),
            E::Likely(_) => single(one_element()),
            E::Unlikely(_) => single(zero_element()),
        }
    }
}

impl W<PublicKey> {
    /// The witness stack that makes the fragment leave 1, or `None` where
    /// the satisfier holds too little.
    pub fn satisfy(&self, s: &Satisfier) -> (r: Option<Vec<Vec<u8>>>)
        requires
            s.wf(),
        ensures
            opt_view(r) == self.satisfaction(s),
            opt_small(opt_view(r)),
        decreases self,
    {
        match self {
            W::CheckSig(k) => sig_stack(s, k),
            W::HashEqual(h) => preimage_stack(s, h),
            W::Time(n) => provided_stack(s.check_older(*n), single(one_element())),
            W::CastE(e) => e.satisfy(s),
        }
    }

    /// The witness stack that makes the fragment leave 0, or `None` where
    /// the fragment has none.
    pub fn dissatisfy(&self) -> (r: Option<Vec<Vec<u8>>>)
        ensures
            opt_view(r) == self.dissatisfaction(),
            opt_small(opt_view(r)),
        decreases self,
    {
        match self {
            W::CheckSig(_) => single(zero_element()),
            W::HashEqual(_) => single(zero_element()),
            W::Time(_) => single(zero_element()),
            W::CastE(e) => e.dissatisfy(),
        }
    }
}

impl V<PublicKey> {
    /// The witness stack with which the fragment does not abort, or `None`
    /// where the satisfier holds too little.
    pub fn satisfy(&self, s: &Satisfier) -> (r: Option<Vec<Vec<u8>>>)
        requires
            s.wf(),
        ensures
            opt_view(r) == self.satisfaction(s),
            opt_small(opt_view(r)),
        decreases self,
    {
        match self {
            V::CheckSig(k) => sig_stack(s, k),
            V::CheckMultiSig(k, keys) => multisig_stack(*k, keys, s),
            V::Time(n) => provided_stack(s.check_older(*n), nothing()),
            V::HashEqual(h) => preimage_stack(s, h),
            V::And(l, r) => join_stacks(r.satisfy(s), l.satisfy(s)),
            V::SwitchOr(l, r) => switch_stack(l.satisfy(s), r.satisfy(s)),
            V::SwitchOrT(l, r) => switch_stack(l.satisfy(s), r.satisfy(s)),
            V::CascadeOr(l, r) => pick_smaller(
                l.satisfy(s),
                join_stacks(r.satisfy(s), l.dissatisfy()),
            ),
            V::Threshold(k, e, ws) => {
                let sat = e.satisfy(s);
                if *k > 0 && sat.is_some() {
                    join_stacks(ws_stack(ws, *k - 1, s), sat)
                } else {
                    join_stacks(ws_stack(ws, *k, s), e.dissatisfy())
                }
            },
        }
    }
}

impl T<PublicKey> {
    /// The witness stack with which the fragment succeeds, bottom first, or
    /// `None` where the satisfier holds too little.
    pub fn satisfy(&self, s: &Satisfier) -> (r: Option<Vec<Vec<u8>>>)
        requires
            s.wf(),
        ensures
            opt_view(r) == self.satisfaction(s),
            opt_small(opt_view(r)),
        decreases self,
    {
        match self {
            T::Time(n) => provided_stack(s.check_older(*n), nothing()),
            T::After(n) => provided_stack(s.check_after(*n), nothing()),
            T::HashEqual(h) => preimage_stack(s, h),
            T::And(l, r) => join_stacks(r.satisfy(s), l.satisfy(s)),
            T::ParallelOr(l, r) => pick_smaller(
                join_stacks(r.dissatisfy(), l.satisfy(s)),
                join_stacks(r.satisfy(s), l.dissatisfy()),
            ),
            T::CascadeOr(l, r) => pick_smaller(
                l.satisfy(s),
                join_stacks(r.satisfy(s), l.dissatisfy()),
            ),
            T::SwitchOr(l, r) => switch_stack(l.satisfy(s), r.satisfy(s)),
            T::SwitchOrV(l, r) => switch_stack(l.satisfy(s), r.satisfy(s)),
            T::CastE(e) => e.satisfy(s),
        }
    }
}

impl Descript<PublicKey> {
    /// What `satisfy` answers: the stack of the fragment, or
    /// `CouldNotSatisfy` where it has none.
    pub open spec fn satisfaction(self, s: &Satisfier) -> Result<Seq<Seq<u8>>, Error> {
        match self.0.satisfaction(s) {
            Some(st) => Ok(st),
            None => Err(Error::CouldNotSatisfy),
        }
    }

    /// Attempt to produce a satisfying witness for the script: the stack
    /// that the fragment is satisfied by, bottom first, or
    /// `CouldNotSatisfy` where the satisfier holds too little.
    pub fn satisfy(&self, satisfier: &Satisfier) -> (r: Result<Vec<Vec<u8>>, Error>)
        requires
            satisfier.wf(),
        ensures
            match r {
                Ok(st) => self.satisfaction(satisfier) == Ok::<Seq<Seq<u8>>, Error>(
                    stack_view(st@),
                ),
                Err(e) => self.satisfaction(satisfier) == Err::<Seq<Seq<u8>>, Error>(e),
            },
    {
        match self.0.satisfy(satisfier) {
            Some(st) => Ok(st),
            None => Err(Error::CouldNotSatisfy),
        }
    }
}

} // verus!
