//! Soundness of the satisfier: the script of a fragment accepts the stack
//! that the satisfier returns for it.
//!
//! The law is stated of the model of Script in `machine`, for a satisfier
//! whose signatures and preimages are genuine, and for the fragments that
//! count as their types claim. Of the others it does not hold in general: a
//! threshold adds up what its children leave, and a child that ends in a
//! locktime leaves that number, not 1; a multisignature that asks for no
//! signature leaves 1 also where a threshold or a disjunction means to
//! dissatisfy it.

use vstd::prelude::*;
use crate::astelem::{ws_tokens, ws_wf, E, T, V, W};
use crate::decode_laws::lemma_decode_sound;
use crate::descript::parse_script;
use crate::error::Error;
use crate::key::PublicKey;
use crate::list::List;
use crate::machine::{
    accepted, number_of, run, script_accepts, signs, signs_many, truthy, Machine, Spend,
};
use crate::machine_laws::{
    lemma_number, lemma_run1, lemma_run_cat, lemma_run_then, lemma_truths, lemma_truthy_number,
};
use crate::passing::{lemma_pass_e, lemma_pass_t, lemma_pass_v};
use crate::primitives::sha256;
use crate::satisfy::{
    find_preimage, find_sig, pick_sigs, ws_dissatisfaction, ws_satisfaction, zeros, Satisfier,
};
use crate::script::{lemma_number_bytes_len, number_bytes};
use crate::stack::{join, one, smaller, with_top, zero};
use crate::templates::{
    aside, beside, delay_tokens, inside, key_bytes, lemma_added, lemma_cascade_and_dis,
    lemma_cascade_and_sat, lemma_cascade_or_left, lemma_cascade_or_right, lemma_cast,
    lemma_checksig, lemma_delay_dis, lemma_delay_sat, lemma_guard_left, lemma_guard_right,
    lemma_joined, lemma_multisig, lemma_on_on, lemma_on_push, lemma_sequence, lemma_sides,
    lemma_switch_left, lemma_switch_right, lemma_t_delay, lemma_t_hash, lemma_threshold,
    lemma_v_checksig, lemma_v_delay, lemma_w_checksig, lemma_w_delay_dis, lemma_w_delay_sat,
    lemma_w_hash_dis, lemma_w_hash_sat, outside, switch_tokens, w_hash_tokens,
};
use crate::token::{lex_tokens, Token};

verus! {

/// Every later child of a threshold counts as its type claims, leaves 1
/// where it is satisfied and 0 where it is dissatisfied.
pub open spec fn ws_countable(ws: List<W<PublicKey>>) -> bool
    decreases ws,
{
    match ws {
        List::Nil => true,
        List::Cons(w, rest) => w.countable() && w.leaves_one() && w.refusable()
            && ws_countable(*rest),
    }
}

impl E<PublicKey> {
    /// What the fragment leaves where it is satisfied is 1, and no other
    /// number.
    pub open spec fn leaves_one(self) -> bool
        decreases self,
    {
        match self {
            E::CascadeAnd(_, r) => r.leaves_one(),
            E::CascadeOr(l, r) => l.leaves_one() && r.leaves_one(),
            E::SwitchOrLeft(l, r) => l.leaves_one() && r.leaves_one(),
            E::SwitchOrRight(l, r) => l.leaves_one() && r.leaves_one(),
            E::Likely(t) => t.leaves_one(),
            E::Unlikely(t) => t.leaves_one(),
            _ => true,
        }
    }

    /// What the fragment leaves where it is dissatisfied is 0. A
    /// multisignature that asks for no signature leaves 1 whatever it is
    /// given, and so does what is dissatisfied by dissatisfying one.
    pub open spec fn refusable(self) -> bool
        decreases self,
    {
        match self {
            E::CheckMultiSig(k, _) => k >= 1,
            E::ParallelAnd(l, r) => l.refusable() && r.refusable(),
            E::CascadeAnd(l, _) => l.refusable(),
            E::ParallelOr(l, r) => l.refusable() && r.refusable(),
            E::SwitchOrLeft(l, _) => l.refusable(),
            E::SwitchOrRight(l, _) => l.refusable(),
            _ => true,
        }
    }

    /// The fragment counts as its type claims: every child of a threshold
    /// in it leaves 1 where it is satisfied, and every child that a
    /// threshold or a disjunction may dissatisfy leaves 0 where it is.
    pub open spec fn countable(self) -> bool
        decreases self,
    {
        match self {
            E::CheckSig(_) => true,
            E::CheckMultiSig(_, _) => true,
            E::Time(_) => true,
            E::Threshold(_, e, ws) => e.countable() && e.leaves_one() && e.refusable()
                && ws_countable(ws),
            E::ParallelAnd(l, r) => l.countable() && r.countable(),
            E::CascadeAnd(l, r) => l.countable() && r.countable(),
            E::ParallelOr(l, r) => l.countable() && r.countable() && l.refusable()
                && r.refusable(),
            E::CascadeOr(l, r) => l.countable() && r.countable() && l.refusable(),
            E::SwitchOrLeft(l, r) => l.countable() && r.countable(),
            E::SwitchOrRight(l, r) => l.countable() && r.countable(),
            E::Likely(t) => t.countable(),
            E::Unlikely(t) => t.countable(),
        }
    }
}

impl W<PublicKey> {
    /// What the fragment leaves where it is satisfied is 1, and no other
    /// number.
    pub open spec fn leaves_one(self) -> bool
        decreases self,
    {
        match self {
            W::CastE(e) => e.leaves_one(),
            _ => true,
        }
    }

    /// What the fragment leaves where it is dissatisfied is 0.
    pub open spec fn refusable(self) -> bool
        decreases self,
    {
        match self {
            W::CastE(e) => e.refusable(),
            _ => true,
        }
    }

    /// The fragment counts as its type claims.
    pub open spec fn countable(self) -> bool
        decreases self,
    {
        match self {
            W::CastE(e) => e.countable(),
            _ => true,
        }
    }

    /// Whether the fragment leaves its result below what was on top, and
    /// not above it.
    pub open spec fn swaps(self) -> bool {
        self is CastE
    }
}

impl V<PublicKey> {
    /// The fragment counts as its type claims.
    pub open spec fn countable(self) -> bool
        decreases self,
    {
        match self {
            V::CheckSig(_) => true,
            V::CheckMultiSig(_, _) => true,
            V::Time(_) => true,
            V::HashEqual(_) => true,
            V::And(l, r) => l.countable() && r.countable(),
            V::SwitchOr(l, r) => l.countable() && r.countable(),
            V::SwitchOrT(l, r) => l.countable() && r.countable(),
            V::CascadeOr(l, r) => l.countable() && r.countable() && l.refusable(),
            V::Threshold(_, e, ws) => e.countable() && e.leaves_one() && e.refusable()
                && ws_countable(ws),
        }
    }
}

impl T<PublicKey> {
    /// What the fragment leaves where it is satisfied is 1, and no other
    /// number.
    pub open spec fn leaves_one(self) -> bool
        decreases self,
    {
        match self {
            T::Time(n) => n == 1,
            T::After(n) => n == 1,
            T::HashEqual(_) => true,
            T::And(_, r) => r.leaves_one(),
            T::ParallelOr(_, _) => true,
            T::CascadeOr(l, r) => l.leaves_one() && r.leaves_one(),
            T::SwitchOr(l, r) => l.leaves_one() && r.leaves_one(),
            T::SwitchOrV(_, _) => true,
            T::CastE(e) => e.leaves_one(),
        }
    }

    /// The fragment counts as its type claims.
    pub open spec fn countable(self) -> bool
        decreases self,
    {
        match self {
            T::Time(_) => true,
            T::After(_) => true,
            T::HashEqual(_) => true,
            T::And(l, r) => l.countable() && r.countable(),
            T::ParallelOr(l, r) => l.countable() && r.countable() && l.refusable()
                && r.refusable(),
            T::CascadeOr(l, r) => l.countable() && r.countable() && l.refusable(),
            T::SwitchOr(l, r) => l.countable() && r.countable(),
            T::SwitchOrV(l, r) => l.countable() && r.countable(),
            T::CastE(e) => e.countable(),
        }
    }
}

/// What the satisfier holds is genuine: the transaction bears out every
/// signature for its key, every preimage hashes to its hash, and the
/// clocks of the input have come as far as the satisfier says.
pub open spec fn genuine(c: Spend, s: &Satisfier) -> bool {
    &&& forall|i: int|
        0 <= i < s.sigs@.len() ==> (c.signed)(
            (#[trigger] s.sigs@[i]).0.bytes@,
            s.sigs@[i].1.bytes(),
        )
    &&& forall|i: int|
        0 <= i < s.preimages@.len() ==> sha256(sha256((#[trigger] s.preimages@[i]).1@))
            == s.preimages@[i].0@
    &&& s.age <= c.age
    &&& s.locktime <= c.locktime
}

/// A signature that a genuine satisfier finds counts for its key.
pub proof fn lemma_sig(c: Spend, s: &Satisfier, k: PublicKey, i: int)
    requires
        genuine(c, s),
        0 <= i,
    ensures
        find_sig(s.sigs@, k, i) matches Some(b) ==> signs(c, k.bytes@, b),
    decreases s.sigs@.len() - i,
{
    if i < s.sigs@.len() {
        if s.sigs@[i].0 == k {
            assert(s.sigs@[i].1.bytes().len() > 0);
        } else {
            lemma_sig(c, s, k, i + 1);
        }
    }
}

/// A preimage that a genuine satisfier finds has 32 bytes and hashes to
/// its hash.
pub proof fn lemma_preimage(c: Spend, s: &Satisfier, h: [u8; 32], i: int)
    requires
        genuine(c, s),
        0 <= i,
    ensures
        find_preimage(s.preimages@, h, i) matches Some(p) ==> p.len() == 32 && sha256(sha256(p))
            == h@,
    decreases s.preimages@.len() - i,
{
    if i < s.preimages@.len() {
        if s.preimages@[i].0 == h {
        } else {
            lemma_preimage(c, s, h, i + 1);
        }
    }
}

/// Some of the keys, in their order, bear out the signatures.
pub open spec fn embeds(c: Spend, keys: Seq<Seq<u8>>, sigs: Seq<Seq<u8>>) -> bool
    decreases keys.len(),
{
    if sigs.len() == 0 {
        true
    } else if keys.len() == 0 {
        false
    } else {
        ||| signs(c, keys.last(), sigs.last()) && embeds(c, keys.drop_last(), sigs.drop_last())
        ||| embeds(c, keys.drop_last(), sigs)
    }
}

/// One key more in front keeps what the keys bear out, and bears out one
/// signature more where it signs it.
proof fn lemma_embeds_front(
    c: Spend,
    k: Seq<u8>,
    g: Seq<u8>,
    keys: Seq<Seq<u8>>,
    sigs: Seq<Seq<u8>>,
)
    requires
        embeds(c, keys, sigs),
    ensures
        embeds(c, seq![k] + keys, sigs),
        signs(c, k, g) ==> embeds(c, seq![k] + keys, seq![g] + sigs),
    decreases keys.len(),
{
    let keys1 = seq![k] + keys;
    let sigs1 = seq![g] + sigs;
    assert(sigs1.last() == if sigs.len() == 0 {
        g
    } else {
        sigs.last()
    });
    if keys.len() == 0 {
        assert(keys1.drop_last() =~= Seq::<Seq<u8>>::empty());
        assert(sigs.len() == 0);
        assert(sigs1.drop_last() =~= Seq::<Seq<u8>>::empty());
        assert(keys1.last() == k);
        assert(embeds(c, keys1.drop_last(), sigs1.drop_last()));
    } else {
        assert(keys1.drop_last() =~= seq![k] + keys.drop_last());
        assert(keys1.last() == keys.last());
        if sigs.len() == 0 {
            assert(embeds(c, keys.drop_last(), sigs));
            lemma_embeds_front(c, k, g, keys.drop_last(), sigs);
            assert(embeds(c, keys1.drop_last(), sigs));
        } else {
            assert(sigs1.drop_last() =~= seq![g] + sigs.drop_last());
            if signs(c, keys.last(), sigs.last()) && embeds(
                c,
                keys.drop_last(),
                sigs.drop_last(),
            ) {
                lemma_embeds_front(c, k, g, keys.drop_last(), sigs.drop_last());
            } else {
                lemma_embeds_front(c, k, g, keys.drop_last(), sigs);
            }
        }
    }
}

/// Keys that bear out signatures bear out all but the last of them, and
/// are no fewer than the signatures.
proof fn lemma_embeds_less(c: Spend, keys: Seq<Seq<u8>>, sigs: Seq<Seq<u8>>)
    requires
        embeds(c, keys, sigs),
    ensures
        sigs.len() <= keys.len(),
        sigs.len() > 0 ==> embeds(c, keys, sigs.drop_last()),
    decreases keys.len(),
{
    if sigs.len() > 0 {
        if signs(c, keys.last(), sigs.last()) && embeds(c, keys.drop_last(), sigs.drop_last()) {
            lemma_embeds_less(c, keys.drop_last(), sigs.drop_last());
        } else {
            lemma_embeds_less(c, keys.drop_last(), sigs);
        }
    }
}

/// `CHECKMULTISIG` accepts signatures that some of the keys bear out in
/// their order.
proof fn lemma_embeds_signs(c: Spend, keys: Seq<Seq<u8>>, sigs: Seq<Seq<u8>>)
    requires
        embeds(c, keys, sigs),
    ensures
        signs_many(c, keys, sigs),
    decreases keys.len(),
{
    lemma_embeds_less(c, keys, sigs);
    if sigs.len() > 0 {
        if signs(c, keys.last(), sigs.last()) {
            if !embeds(c, keys.drop_last(), sigs.drop_last()) {
                lemma_embeds_less(c, keys.drop_last(), sigs);
            }
            lemma_embeds_signs(c, keys.drop_last(), sigs.drop_last());
        } else {
            lemma_embeds_signs(c, keys.drop_last(), sigs);
        }
    }
}

/// The signatures that a genuine satisfier picks are as many as asked for,
/// and the keys bear them out in their order.
proof fn lemma_pick(c: Spend, s: &Satisfier, keys: List<PublicKey>, k: nat)
    requires
        genuine(c, s),
    ensures
        pick_sigs(keys, k, s) matches Some(sigs) ==> sigs.len() == k && embeds(
            c,
            key_bytes(keys),
            sigs,
        ),
    decreases keys,
{
    if k > 0 {
        match keys {
            List::Nil => {},
            List::Cons(key, rest) => {
                lemma_sig(c, s, key, 0);
                match s.sig(key) {
                    Some(b) => {
                        lemma_pick(c, s, *rest, (k - 1) as nat);
                        if let Some(more) = pick_sigs(*rest, (k - 1) as nat, s) {
                            lemma_embeds_front(c, key.bytes@, b, key_bytes(*rest), more);
                        }
                    },
                    None => {
                        lemma_pick(c, s, *rest, k);
                        if let Some(sigs) = pick_sigs(*rest, k, s) {
                            lemma_embeds_front(c, key.bytes@, zero(), key_bytes(*rest), sigs);
                        }
                    },
                }
            },
        }
    }
}

/// `CHECKMULTISIG` refuses empty elements in place of signatures.
proof fn lemma_zeros(c: Spend, keys: Seq<Seq<u8>>, k: nat)
    requires
        k >= 1,
    ensures
        !signs_many(c, keys, zeros(k)),
    decreases keys.len(),
{
    if zeros(k).len() <= keys.len() {
        assert(zeros(k).last() == zero());
        lemma_zeros(c, keys.drop_last(), k);
    }
}

/// The element is a number that is not zero.
pub open spec fn positive(v: Seq<u8>) -> bool {
    number_of(v) matches Some(n) && n >= 1
}

/// `after` is `m` with one element more, a number that is not zero, and
/// 1 where `exact` holds.
pub open spec fn leaves(after: Machine, m: Machine, exact: bool) -> bool {
    let v = after.stack.last();
    after == m.push(v) && positive(v) && truthy(v) && (exact ==> v == one())
}

/// Of the two elements on top, the one that a fragment of type W has left.
pub open spec fn top_beside(after: Machine, swapped: bool) -> Seq<u8> {
    if swapped {
        after.at(1)
    } else {
        after.at(0)
    }
}

/// `after` is `m` with `x` and one element more, a number that is not
/// zero, and 1 where `exact` holds.
pub open spec fn leaves_beside(
    after: Machine,
    m: Machine,
    x: Seq<u8>,
    swapped: bool,
    exact: bool,
) -> bool {
    let v = top_beside(after, swapped);
    after == beside(swapped, m, x, v) && positive(v) && truthy(v) && (exact ==> v == one())
}

/// What `leaves` says of a state that is given by its top.
proof fn lemma_leaves(m: Machine, v: Seq<u8>, swapped: bool, x: Seq<u8>)
    requires
        positive(v),
    ensures
        truthy(v),
        leaves(m.push(v), m, v == one()),
        leaves_beside(beside(swapped, m, x, v), m, x, swapped, v == one()),
        positive(one()),
{
    lemma_truthy_number(v);
    lemma_truths();
}

/// The later children of a threshold add what they leave to the count
/// that they find: 1 each of the `k` that are satisfied, 0 the others.
pub proof fn lemma_ws_sat(
    c: Spend,
    s: &Satisfier,
    ws: List<W<PublicKey>>,
    k: nat,
    m: Machine,
    count: nat,
)
    requires
        genuine(c, s),
        ws_wf(ws),
        ws_countable(ws),
        m.live(),
        count + k < 0x8000_0000,
    ensures
        ws_satisfaction(ws, k, s) matches Some(st) ==> run(
            c,
            ws_tokens(ws),
            m.on(st).push(number_bytes(count)),
        ) == m.push(number_bytes(count + k)),
    decreases ws,
{
    lemma_truths();
    if let Some(st) = ws_satisfaction(ws, k, s) {
        match ws {
            List::Nil => {
                lemma_on_on(m, Seq::empty(), Seq::empty());
            },
            List::Cons(w, rest) => {
                let x = number_bytes(count);
                if k > 0 && w.satisfaction(s) is Some {
                    let below = ws_satisfaction(*rest, (k - 1) as nat, s)->Some_0;
                    let above = w.satisfaction(s)->Some_0;
                    lemma_on_on(m, below, above);
                    lemma_w(c, s, w, m.on(below), x);
                    let before = m.on(below).on(above).push(x);
                    lemma_added(c, w.tokens(), m.on(below), count, w.swaps(), 1, before);
                    lemma_ws_sat(c, s, *rest, (k - 1) as nat, m, count + 1);
                    lemma_run_cat(c, w.tokens() + seq![Token::Add], ws_tokens(*rest), before);
                } else {
                    let below = ws_satisfaction(*rest, k, s)->Some_0;
                    let above = w.dissatisfaction()->Some_0;
                    lemma_on_on(m, below, above);
                    lemma_w(c, s, w, m.on(below), x);
                    let before = m.on(below).on(above).push(x);
                    lemma_added(c, w.tokens(), m.on(below), count, w.swaps(), 0, before);
                    lemma_ws_sat(c, s, *rest, k, m, count);
                    lemma_run_cat(c, w.tokens() + seq![Token::Add], ws_tokens(*rest), before);
                }
            },
        }
    }
}

/// The later children of a threshold leave the count as they find it
/// where all of them are dissatisfied.
pub proof fn lemma_ws_dis(
    c: Spend,
    s: &Satisfier,
    ws: List<W<PublicKey>>,
    m: Machine,
    count: nat,
)
    requires
        genuine(c, s),
        ws_wf(ws),
        ws_countable(ws),
        m.live(),
        count < 0x8000_0000,
    ensures
        ws_dissatisfaction(ws) matches Some(st) ==> run(
            c,
            ws_tokens(ws),
            m.on(st).push(number_bytes(count)),
        ) == m.push(number_bytes(count)),
    decreases ws,
{
    lemma_truths();
    if let Some(st) = ws_dissatisfaction(ws) {
        match ws {
            List::Nil => {
                lemma_on_on(m, Seq::empty(), Seq::empty());
            },
            List::Cons(w, rest) => {
                let x = number_bytes(count);
                let below = ws_dissatisfaction(*rest)->Some_0;
                let above = w.dissatisfaction()->Some_0;
                lemma_on_on(m, below, above);
                lemma_w(c, s, w, m.on(below), x);
                let before = m.on(below).on(above).push(x);
                lemma_added(c, w.tokens(), m.on(below), count, w.swaps(), 0, before);
                lemma_ws_dis(c, s, *rest, m, count);
                lemma_run_cat(c, w.tokens() + seq![Token::Add], ws_tokens(*rest), before);
            },
        }
    }
}

/// A fragment of type E leaves a number that is not zero where it is
/// satisfied, and 0 where it is dissatisfied.
pub proof fn lemma_e(c: Spend, s: &Satisfier, e: E<PublicKey>, m: Machine)
    requires
        genuine(c, s),
        e.wf(),
        e.countable(),
        m.live(),
    ensures
        e.satisfaction(s) matches Some(st) ==> leaves(
            run(c, e.tokens(), m.on(st)),
            m,
            e.leaves_one(),
        ),
        e.refusable() ==> (e.dissatisfaction() matches Some(st) ==> run(c, e.tokens(), m.on(st))
            == m.push(zero())),
    decreases e,
{
    lemma_truths();
    lemma_sides(m);
    lemma_leaves(m, one(), false, zero());
    match e {
        E::CheckSig(k) => {
            lemma_sig(c, s, k, 0);
            if let Some(b) = s.sig(k) {
                lemma_checksig(c, k, b, m);
                lemma_on_push(m, Seq::empty(), b);
            }
            lemma_checksig(c, k, zero(), m);
            lemma_on_push(m, Seq::empty(), zero());
        },
        E::CheckMultiSig(k, keys) => {
            if let Some(sigs) = pick_sigs(keys, k as nat, s) {
                lemma_pick(c, s, keys, k as nat);
                lemma_embeds_signs(c, key_bytes(keys), sigs);
                lemma_multisig(c, k, keys, sigs, m);
                lemma_on_on(m, seq![zero()], sigs);
                lemma_on_push(m, Seq::empty(), zero());
            }
            if k >= 1 {
                lemma_zeros(c, key_bytes(keys), k as nat);
            }
            lemma_multisig(c, k, keys, zeros(k as nat), m);
            lemma_on_on(m, seq![zero()], zeros(k as nat));
            lemma_on_push(m, Seq::empty(), zero());
            assert(zeros((k + 1) as nat) =~= seq![zero()] + zeros(k as nat));
        },
        E::Time(n) => {
            assert(e.tokens() == delay_tokens(n));
            lemma_on_push(m, Seq::empty(), one());
            lemma_on_push(m, Seq::empty(), zero());
            if s.age >= n {
                lemma_delay_sat(c, n, m);
            }
            lemma_delay_dis(c, n, m);
        },
        E::Threshold(k, e1, ws) => {
            lemma_number_bytes_len(k as nat);
            if k > 0 && e1.satisfaction(s) is Some {
                if let Some(below) = ws_satisfaction(ws, (k - 1) as nat, s) {
                    let above = e1.satisfaction(s)->Some_0;
                    lemma_e(c, s, *e1, m.on(below));
                    lemma_ws_sat(c, s, ws, (k - 1) as nat, m, 1);
                    lemma_threshold(
                        c,
                        e1.tokens(),
                        ws_tokens(ws),
                        k,
                        m,
                        below,
                        above,
                        1,
                        k as nat,
                    );
                }
            } else {
                if let Some(below) = ws_satisfaction(ws, k as nat, s) {
                    if let Some(above) = e1.dissatisfaction() {
                        lemma_e(c, s, *e1, m.on(below));
                        lemma_ws_sat(c, s, ws, k as nat, m, 0);
                        lemma_threshold(
                            c,
                            e1.tokens(),
                            ws_tokens(ws),
                            k,
                            m,
                            below,
                            above,
                            0,
                            k as nat,
                        );
                    }
                }
            }
            if let Some(below) = ws_dissatisfaction(ws) {
                if let Some(above) = e1.dissatisfaction() {
                    lemma_e(c, s, *e1, m.on(below));
                    lemma_ws_dis(c, s, ws, m, 0);
                    lemma_threshold(c, e1.tokens(), ws_tokens(ws), k, m, below, above, 0, 0);
                }
            }
        },
        E::ParallelAnd(l, r) => {
            if let Some(below) = r.satisfaction(s) {
                if let Some(above) = l.satisfaction(s) {
                    lemma_e(c, s, *l, m.on(below));
                    let x = run(c, l.tokens(), m.on(below).on(above)).stack.last();
                    lemma_w(c, s, *r, m, x);
                    let after = run(c, r.tokens(), m.on(below).push(x));
                    let v = top_beside(after, r.swaps());
                    lemma_joined(c, l.tokens(), r.tokens(), m, below, above, x, r.swaps(), v);
                }
            }
            if e.refusable() {
                if let Some(below) = r.dissatisfaction() {
                    if let Some(above) = l.dissatisfaction() {
                        lemma_e(c, s, *l, m.on(below));
                        lemma_w(c, s, *r, m, zero());
                        lemma_joined(
                            c,
                            l.tokens(),
                            r.tokens(),
                            m,
                            below,
                            above,
                            zero(),
                            r.swaps(),
                            zero(),
                        );
                    }
                }
            }
        },
        E::CascadeAnd(l, r) => {
            if let Some(below) = r.satisfaction(s) {
                if let Some(above) = l.satisfaction(s) {
                    lemma_e(c, s, *l, m.on(below));
                    let x = run(c, l.tokens(), m.on(below).on(above)).stack.last();
                    lemma_t(c, s, *r, inside(m));
                    let w = run(c, r.tokens(), inside(m).on(below)).stack.last();
                    lemma_cascade_and_sat(c, l.tokens(), r.tokens(), m, below, above, x, w);
                }
            }
            if e.refusable() {
                if let Some(above) = l.dissatisfaction() {
                    lemma_e(c, s, *l, m);
                    lemma_sides(m.push(zero()));
                    lemma_pass_t(c, *r, outside(m.push(zero())));
                    lemma_cascade_and_dis(c, l.tokens(), r.tokens(), m, above);
                }
            }
        },
        E::ParallelOr(l, r) => {
            let a = join(r.dissatisfaction(), l.satisfaction(s));
            let b = join(r.satisfaction(s), l.dissatisfaction());
            if let Some(st) = smaller(a, b) {
                if a == Some(st) {
                    let below = r.dissatisfaction()->Some_0;
                    let above = l.satisfaction(s)->Some_0;
                    lemma_e(c, s, *l, m.on(below));
                    let x = run(c, l.tokens(), m.on(below).on(above)).stack.last();
                    lemma_w(c, s, *r, m, x);
                    lemma_joined(c, l.tokens(), r.tokens(), m, below, above, x, r.swaps(), zero());
                } else {
                    let below = r.satisfaction(s)->Some_0;
                    let above = l.dissatisfaction()->Some_0;
                    lemma_e(c, s, *l, m.on(below));
                    lemma_w(c, s, *r, m, zero());
                    let after = run(c, r.tokens(), m.on(below).push(zero()));
                    let v = top_beside(after, r.swaps());
                    lemma_joined(c, l.tokens(), r.tokens(), m, below, above, zero(), r.swaps(), v);
                }
            }
            if e.refusable() {
                if let Some(below) = r.dissatisfaction() {
                    if let Some(above) = l.dissatisfaction() {
                        lemma_e(c, s, *l, m.on(below));
                        lemma_w(c, s, *r, m, zero());
                        lemma_joined(
                            c,
                            l.tokens(),
                            r.tokens(),
                            m,
                            below,
                            above,
                            zero(),
                            r.swaps(),
                            zero(),
                        );
                    }
                }
            }
        },
        E::CascadeOr(l, r) => {
            let a = l.satisfaction(s);
            let b = join(r.satisfaction(s), l.dissatisfaction());
            if let Some(st) = smaller(a, b) {
                if a == Some(st) {
                    lemma_e(c, s, *l, m);
                    let x = run(c, l.tokens(), m.on(st)).stack.last();
                    lemma_sides(m.push(x));
                    lemma_pass_t(c, *r, outside(m.push(x)));
                    lemma_cascade_or_left(c, l.tokens(), r.tokens(), m, st, x);
                } else {
                    let below = r.satisfaction(s)->Some_0;
                    let above = l.dissatisfaction()->Some_0;
                    lemma_e(c, s, *l, m.on(below));
                    lemma_t(c, s, *r, inside(m));
                    let w = run(c, r.tokens(), inside(m).on(below)).stack.last();
                    lemma_cascade_or_right(c, l.tokens(), r.tokens(), m, below, above, w);
                }
            }
        },
        E::SwitchOrLeft(l, r) => {
            assert(e.tokens() == switch_tokens(l.tokens(), r.tokens()));
            let a = with_top(l.satisfaction(s), one());
            let b = with_top(r.satisfaction(s), zero());
            if let Some(st) = smaller(a, b) {
                if a == Some(st) {
                    let inner = l.satisfaction(s)->Some_0;
                    lemma_on_push(m, inner, one());
                    lemma_e(c, s, *l, inside(m));
                    let after = m.push(run(c, l.tokens(), inside(m).on(inner)).stack.last());
                    lemma_sides(after);
                    lemma_pass_t(c, *r, outside(after));
                    lemma_switch_left(c, l.tokens(), r.tokens(), m, inner, one(), after);
                } else {
                    let inner = r.satisfaction(s)->Some_0;
                    lemma_on_push(m, inner, zero());
                    lemma_sides(m.on(inner));
                    lemma_pass_e(c, *l, outside(m.on(inner)));
                    lemma_t(c, s, *r, inside(m));
                    let after = m.push(run(c, r.tokens(), inside(m).on(inner)).stack.last());
                    lemma_switch_right(c, l.tokens(), r.tokens(), m, inner, zero(), after);
                }
            }
            if e.refusable() {
                if let Some(inner) = l.dissatisfaction() {
                    lemma_on_push(m, inner, one());
                    lemma_e(c, s, *l, inside(m));
                    let after = m.push(zero());
                    lemma_sides(after);
                    lemma_pass_t(c, *r, outside(after));
                    lemma_switch_left(c, l.tokens(), r.tokens(), m, inner, one(), after);
                }
            }
        },
        E::SwitchOrRight(l, r) => {
            assert(e.tokens() == switch_tokens(r.tokens(), l.tokens()));
            let a = with_top(l.satisfaction(s), zero());
            let b = with_top(r.satisfaction(s), one());
            if let Some(st) = smaller(a, b) {
                if a == Some(st) {
                    let inner = l.satisfaction(s)->Some_0;
                    lemma_on_push(m, inner, zero());
                    lemma_sides(m.on(inner));
                    lemma_pass_t(c, *r, outside(m.on(inner)));
                    lemma_e(c, s, *l, inside(m));
                    let after = m.push(run(c, l.tokens(), inside(m).on(inner)).stack.last());
                    lemma_switch_right(c, r.tokens(), l.tokens(), m, inner, zero(), after);
                } else {
                    let inner = r.satisfaction(s)->Some_0;
                    lemma_on_push(m, inner, one());
                    lemma_t(c, s, *r, inside(m));
                    let after = m.push(run(c, r.tokens(), inside(m).on(inner)).stack.last());
                    lemma_sides(after);
                    lemma_pass_e(c, *l, outside(after));
                    lemma_switch_left(c, r.tokens(), l.tokens(), m, inner, one(), after);
                }
            }
            if e.refusable() {
                if let Some(inner) = l.dissatisfaction() {
                    lemma_on_push(m, inner, zero());
                    lemma_sides(m.on(inner));
                    lemma_pass_t(c, *r, outside(m.on(inner)));
                    lemma_e(c, s, *l, inside(m));
                    let after = m.push(zero());
                    lemma_switch_right(c, r.tokens(), l.tokens(), m, inner, zero(), after);
                }
            }
        },
        E::Likely(t) => {
            let x = seq![Token::Number(0)];
            assert(e.tokens() =~= switch_tokens(x, t.tokens()));
            if let Some(inner) = t.satisfaction(s) {
                lemma_on_push(m, inner, zero());
                lemma_sides(m.on(inner));
                lemma_run1(c, Token::Number(0), outside(m.on(inner)));
                lemma_t(c, s, *t, inside(m));
                let after = m.push(run(c, t.tokens(), inside(m).on(inner)).stack.last());
                lemma_switch_right(c, x, t.tokens(), m, inner, zero(), after);
            }
            let inner = Seq::<Seq<u8>>::empty();
            lemma_on_on(m, inner, inner);
            lemma_on_on(inside(m), inner, inner);
            lemma_on_push(m, inner, one());
            lemma_run1(c, Token::Number(0), inside(m));
            let after = m.push(zero());
            lemma_sides(after);
            lemma_pass_t(c, *t, outside(after));
            lemma_switch_left(c, x, t.tokens(), m, inner, one(), after);
        },
        E::Unlikely(t) => {
            let y = seq![Token::Number(0)];
            assert(e.tokens() =~= switch_tokens(t.tokens(), y));
            if let Some(inner) = t.satisfaction(s) {
                lemma_on_push(m, inner, one());
                lemma_t(c, s, *t, inside(m));
                let after = m.push(run(c, t.tokens(), inside(m).on(inner)).stack.last());
                lemma_sides(after);
                lemma_run1(c, Token::Number(0), outside(after));
                lemma_switch_left(c, t.tokens(), y, m, inner, one(), after);
            }
            let inner = Seq::<Seq<u8>>::empty();
            lemma_on_on(m, inner, inner);
            lemma_on_on(inside(m), inner, inner);
            lemma_on_push(m, inner, zero());
            lemma_pass_t(c, *t, outside(m));
            lemma_run1(c, Token::Number(0), inside(m));
            let after = m.push(zero());
            lemma_switch_right(c, t.tokens(), y, m, inner, zero(), after);
        },
    }
}

/// A fragment of type W leaves a number that is not zero where it is
/// satisfied, and 0 where it is dissatisfied, beside the element that
/// was on top.
pub proof fn lemma_w(c: Spend, s: &Satisfier, w: W<PublicKey>, m: Machine, x: Seq<u8>)
    requires
        genuine(c, s),
        w.wf(),
        w.countable(),
        m.live(),
    ensures
        w.satisfaction(s) matches Some(st) ==> leaves_beside(
            run(c, w.tokens(), m.on(st).push(x)),
            m,
            x,
            w.swaps(),
            w.leaves_one(),
        ),
        w.refusable() ==> (w.dissatisfaction() matches Some(st) ==> run(
            c,
            w.tokens(),
            m.on(st).push(x),
        ) == beside(w.swaps(), m, x, zero())),
    decreases w,
{
    lemma_truths();
    lemma_leaves(m, one(), false, x);
    match w {
        W::CheckSig(k) => {
            lemma_sig(c, s, k, 0);
            if let Some(b) = s.sig(k) {
                lemma_w_checksig(c, k, b, x, m);
                lemma_on_push(m, Seq::empty(), b);
            }
            lemma_w_checksig(c, k, zero(), x, m);
            lemma_on_push(m, Seq::empty(), zero());
        },
        W::HashEqual(h) => {
            assert(w.tokens() == w_hash_tokens(h));
            lemma_preimage(c, s, h, 0);
            if let Some(p) = s.preimage(h) {
                lemma_w_hash_sat(c, h, p, x, m);
                lemma_on_push(m, Seq::empty(), p);
            }
            lemma_w_hash_dis(c, h, x, m);
            lemma_on_push(m, Seq::empty(), zero());
        },
        W::Time(n) => {
            lemma_on_push(m, Seq::empty(), one());
            lemma_on_push(m, Seq::empty(), zero());
            if s.age >= n {
                lemma_w_delay_sat(c, n, x, m);
            }
            lemma_w_delay_dis(c, n, x, m);
        },
        W::CastE(e) => {
            lemma_e(c, s, *e, aside(m, x));
            if let Some(st) = e.satisfaction(s) {
                let v = run(c, e.tokens(), aside(m, x).on(st)).stack.last();
                lemma_cast(c, e.tokens(), m, st, x, v);
            }
            if w.refusable() {
                if let Some(st) = e.dissatisfaction() {
                    lemma_cast(c, e.tokens(), m, st, x, zero());
                }
            }
        },
    }
}

/// A fragment of type V takes its satisfaction and leaves nothing.
pub proof fn lemma_v(c: Spend, s: &Satisfier, v: V<PublicKey>, m: Machine)
    requires
        genuine(c, s),
        v.wf(),
        v.countable(),
        m.live(),
    ensures
        v.satisfaction(s) matches Some(st) ==> run(c, v.tokens(), m.on(st)) == m,
    decreases v,
{
    lemma_truths();
    lemma_sides(m);
    match v {
        V::CheckSig(k) => {
            lemma_sig(c, s, k, 0);
            if let Some(b) = s.sig(k) {
                lemma_v_checksig(c, k, b, m);
                lemma_on_push(m, Seq::empty(), b);
            }
        },
        V::CheckMultiSig(k, keys) => {
            if let Some(sigs) = pick_sigs(keys, k as nat, s) {
                lemma_pick(c, s, keys, k as nat);
                lemma_embeds_signs(c, key_bytes(keys), sigs);
                lemma_multisig(c, k, keys, sigs, m);
                lemma_on_on(m, seq![zero()], sigs);
                lemma_on_push(m, Seq::empty(), zero());
            }
        },
        V::Time(n) => {
            lemma_on_on(m, Seq::empty(), Seq::empty());
            if s.age >= n {
                lemma_v_delay(c, n, m);
            }
        },
        V::HashEqual(h) => {
            lemma_preimage(c, s, h, 0);
            if let Some(p) = s.preimage(h) {
                lemma_t_hash(c, h, p, m);
                lemma_on_push(m, Seq::empty(), p);
            }
        },
        V::And(l, r) => {
            if let Some(below) = r.satisfaction(s) {
                if let Some(above) = l.satisfaction(s) {
                    lemma_v(c, s, *l, m.on(below));
                    lemma_v(c, s, *r, m);
                    lemma_sequence(c, l.tokens(), r.tokens(), m, below, above, m);
                }
            }
        },
        V::SwitchOr(l, r) => {
            assert(v.tokens() == switch_tokens(l.tokens(), r.tokens()));
            let a = with_top(l.satisfaction(s), one());
            let b = with_top(r.satisfaction(s), zero());
            if let Some(st) = smaller(a, b) {
                if a == Some(st) {
                    let inner = l.satisfaction(s)->Some_0;
                    lemma_on_push(m, inner, one());
                    lemma_v(c, s, *l, inside(m));
                    let after = m;
                    lemma_sides(after);
                    lemma_pass_v(c, *r, outside(after));
                    lemma_switch_left(c, l.tokens(), r.tokens(), m, inner, one(), after);
                } else {
                    let inner = r.satisfaction(s)->Some_0;
                    lemma_on_push(m, inner, zero());
                    lemma_sides(m.on(inner));
                    lemma_pass_v(c, *l, outside(m.on(inner)));
                    lemma_v(c, s, *r, inside(m));
                    let after = m;
                    lemma_switch_right(c, l.tokens(), r.tokens(), m, inner, zero(), after);
                }
            }
        },
        V::SwitchOrT(l, r) => {
            let body = switch_tokens(l.tokens(), r.tokens());
            assert(v.tokens() =~= body + seq![Token::Verify]);
            let a = with_top(l.satisfaction(s), one());
            let b = with_top(r.satisfaction(s), zero());
            if let Some(st) = smaller(a, b) {
                if a == Some(st) {
                    let inner = l.satisfaction(s)->Some_0;
                    lemma_on_push(m, inner, one());
                    lemma_t(c, s, *l, inside(m));
                    let after = m.push(run(c, l.tokens(), inside(m).on(inner)).stack.last());
                    lemma_sides(after);
                    lemma_pass_t(c, *r, outside(after));
                    lemma_switch_left(c, l.tokens(), r.tokens(), m, inner, one(), after);
                    lemma_run_then(c, body, Token::Verify, m.on(st));
                    assert(after.less(1).stack =~= m.stack);
                } else {
                    let inner = r.satisfaction(s)->Some_0;
                    lemma_on_push(m, inner, zero());
                    lemma_sides(m.on(inner));
                    lemma_pass_t(c, *l, outside(m.on(inner)));
                    lemma_t(c, s, *r, inside(m));
                    let after = m.push(run(c, r.tokens(), inside(m).on(inner)).stack.last());
                    lemma_switch_right(c, l.tokens(), r.tokens(), m, inner, zero(), after);
                    lemma_run_then(c, body, Token::Verify, m.on(st));
                    assert(after.less(1).stack =~= m.stack);
                }
            }
        },
        V::CascadeOr(l, r) => {
            let a = l.satisfaction(s);
            let b = join(r.satisfaction(s), l.dissatisfaction());
            if let Some(st) = smaller(a, b) {
                if a == Some(st) {
                    lemma_e(c, s, *l, m);
                    let x = run(c, l.tokens(), m.on(st)).stack.last();
                    lemma_pass_v(c, *r, outside(m));
                    lemma_guard_left(c, l.tokens(), r.tokens(), m, st, x);
                } else {
                    let below = r.satisfaction(s)->Some_0;
                    let above = l.dissatisfaction()->Some_0;
                    lemma_e(c, s, *l, m.on(below));
                    lemma_v(c, s, *r, inside(m));
                    lemma_guard_right(c, l.tokens(), r.tokens(), m, below, above);
                }
            }
        },
        V::Threshold(k, e1, ws) => {
            lemma_number_bytes_len(k as nat);
            if k > 0 && e1.satisfaction(s) is Some {
                if let Some(below) = ws_satisfaction(ws, (k - 1) as nat, s) {
                    let above = e1.satisfaction(s)->Some_0;
                    lemma_e(c, s, *e1, m.on(below));
                    lemma_ws_sat(c, s, ws, (k - 1) as nat, m, 1);
                    lemma_threshold(
                        c,
                        e1.tokens(),
                        ws_tokens(ws),
                        k,
                        m,
                        below,
                        above,
                        1,
                        k as nat,
                    );
                }
            } else {
                if let Some(below) = ws_satisfaction(ws, k as nat, s) {
                    if let Some(above) = e1.dissatisfaction() {
                        lemma_e(c, s, *e1, m.on(below));
                        lemma_ws_sat(c, s, ws, k as nat, m, 0);
                        lemma_threshold(
                            c,
                            e1.tokens(),
                            ws_tokens(ws),
                            k,
                            m,
                            below,
                            above,
                            0,
                            k as nat,
                        );
                    }
                }
            }
        },
    }
}

/// A fragment of type T leaves a number that is not zero where it is
/// satisfied.
pub proof fn lemma_t(c: Spend, s: &Satisfier, t: T<PublicKey>, m: Machine)
    requires
        genuine(c, s),
        t.wf(),
        t.countable(),
        m.live(),
    ensures
        t.satisfaction(s) matches Some(st) ==> leaves(
            run(c, t.tokens(), m.on(st)),
            m,
            t.leaves_one(),
        ),
    decreases t,
{
    lemma_truths();
    lemma_sides(m);
    lemma_leaves(m, one(), false, zero());
    match t {
        T::Time(n) => {
            lemma_on_on(m, Seq::empty(), Seq::empty());
            lemma_number(n as nat);
            lemma_t_delay(c, n, m);
            lemma_leaves(m, number_bytes(n as nat), false, zero());
        },
        T::After(n) => {
            lemma_on_on(m, Seq::empty(), Seq::empty());
            lemma_number(n as nat);
            lemma_t_delay(c, n, m);
            lemma_leaves(m, number_bytes(n as nat), false, zero());
        },
        T::HashEqual(h) => {
            lemma_preimage(c, s, h, 0);
            if let Some(p) = s.preimage(h) {
                lemma_t_hash(c, h, p, m);
                lemma_on_push(m, Seq::empty(), p);
            }
        },
        T::And(l, r) => {
            if let Some(below) = r.satisfaction(s) {
                if let Some(above) = l.satisfaction(s) {
                    lemma_v(c, s, *l, m.on(below));
                    lemma_t(c, s, *r, m);
                    let after = run(c, r.tokens(), m.on(below));
                    lemma_sequence(c, l.tokens(), r.tokens(), m, below, above, after);
                }
            }
        },
        T::ParallelOr(l, r) => {
            let a = join(r.dissatisfaction(), l.satisfaction(s));
            let b = join(r.satisfaction(s), l.dissatisfaction());
            if let Some(st) = smaller(a, b) {
                if a == Some(st) {
                    let below = r.dissatisfaction()->Some_0;
                    let above = l.satisfaction(s)->Some_0;
                    lemma_e(c, s, *l, m.on(below));
                    let x = run(c, l.tokens(), m.on(below).on(above)).stack.last();
                    lemma_w(c, s, *r, m, x);
                    lemma_joined(c, l.tokens(), r.tokens(), m, below, above, x, r.swaps(), zero());
                } else {
                    let below = r.satisfaction(s)->Some_0;
                    let above = l.dissatisfaction()->Some_0;
                    lemma_e(c, s, *l, m.on(below));
                    lemma_w(c, s, *r, m, zero());
                    let after = run(c, r.tokens(), m.on(below).push(zero()));
                    let v = top_beside(after, r.swaps());
                    lemma_joined(c, l.tokens(), r.tokens(), m, below, above, zero(), r.swaps(), v);
                }
            }
        },
        T::CascadeOr(l, r) => {
            let a = l.satisfaction(s);
            let b = join(r.satisfaction(s), l.dissatisfaction());
            if let Some(st) = smaller(a, b) {
                if a == Some(st) {
                    lemma_e(c, s, *l, m);
                    let x = run(c, l.tokens(), m.on(st)).stack.last();
                    lemma_sides(m.push(x));
                    lemma_pass_t(c, *r, outside(m.push(x)));
                    lemma_cascade_or_left(c, l.tokens(), r.tokens(), m, st, x);
                } else {
                    let below = r.satisfaction(s)->Some_0;
                    let above = l.dissatisfaction()->Some_0;
                    lemma_e(c, s, *l, m.on(below));
                    lemma_t(c, s, *r, inside(m));
                    let w = run(c, r.tokens(), inside(m).on(below)).stack.last();
                    lemma_cascade_or_right(c, l.tokens(), r.tokens(), m, below, above, w);
                }
            }
        },
        T::SwitchOr(l, r) => {
            assert(t.tokens() == switch_tokens(l.tokens(), r.tokens()));
            let a = with_top(l.satisfaction(s), one());
            let b = with_top(r.satisfaction(s), zero());
            if let Some(st) = smaller(a, b) {
                if a == Some(st) {
                    let inner = l.satisfaction(s)->Some_0;
                    lemma_on_push(m, inner, one());
                    lemma_t(c, s, *l, inside(m));
                    let after = m.push(run(c, l.tokens(), inside(m).on(inner)).stack.last());
                    lemma_sides(after);
                    lemma_pass_t(c, *r, outside(after));
                    lemma_switch_left(c, l.tokens(), r.tokens(), m, inner, one(), after);
                } else {
                    let inner = r.satisfaction(s)->Some_0;
                    lemma_on_push(m, inner, zero());
                    lemma_sides(m.on(inner));
                    lemma_pass_t(c, *l, outside(m.on(inner)));
                    lemma_t(c, s, *r, inside(m));
                    let after = m.push(run(c, r.tokens(), inside(m).on(inner)).stack.last());
                    lemma_switch_right(c, l.tokens(), r.tokens(), m, inner, zero(), after);
                }
            }
        },
        T::SwitchOrV(l, r) => {
            let body = switch_tokens(l.tokens(), r.tokens());
            assert(t.tokens() =~= body + seq![Token::Number(1)]);
            let a = with_top(l.satisfaction(s), one());
            let b = with_top(r.satisfaction(s), zero());
            if let Some(st) = smaller(a, b) {
                if a == Some(st) {
                    let inner = l.satisfaction(s)->Some_0;
                    lemma_on_push(m, inner, one());
                    lemma_v(c, s, *l, inside(m));
                    let after = m;
                    lemma_sides(after);
                    lemma_pass_v(c, *r, outside(after));
                    lemma_switch_left(c, l.tokens(), r.tokens(), m, inner, one(), after);
                    lemma_run_then(c, body, Token::Number(1), m.on(st));
                } else {
                    let inner = r.satisfaction(s)->Some_0;
                    lemma_on_push(m, inner, zero());
                    lemma_sides(m.on(inner));
                    lemma_pass_v(c, *l, outside(m.on(inner)));
                    lemma_v(c, s, *r, inside(m));
                    let after = m;
                    lemma_switch_right(c, l.tokens(), r.tokens(), m, inner, zero(), after);
                    lemma_run_then(c, body, Token::Number(1), m.on(st));
                }
            }
        },
        T::CastE(e) => {
            lemma_e(c, s, *e, m);
        },
    }
}

/// The script of a fragment accepts the stack that the satisfier returns
/// for it, where the fragment counts as its type claims and what the
/// satisfier holds is genuine.
pub proof fn law_satisfaction_sound(c: Spend, s: &Satisfier, t: T<PublicKey>)
    requires
        genuine(c, s),
        t.wf(),
        t.countable(),
        t.satisfaction(s) is Some,
    ensures
        accepted(c, t.tokens(), t.satisfaction(s)->Some_0),
{
    let st = t.satisfaction(s)->Some_0;
    let m = Machine::fresh(Seq::empty());
    lemma_t(c, s, t, m);
    assert(m.on(st) == Machine::fresh(st)) by {
        assert(m.stack + st =~= st);
    }
}

/// A script that is read as a fragment accepts the stack that the
/// satisfier returns for the fragment, where the fragment counts as its
/// type claims and what the satisfier holds is genuine.
pub proof fn law_script_sound(c: Spend, s: &Satisfier, script: Seq<u8>, t: T<PublicKey>)
    requires
        genuine(c, s),
        parse_script(script) == Ok::<T<PublicKey>, Error>(t),
        t.countable(),
        t.satisfaction(s) is Some,
    ensures
        script_accepts(c, script, t.satisfaction(s)->Some_0),
{
    if let Ok(ts) = lex_tokens(script) {
        lemma_decode_sound(ts);
        law_satisfaction_sound(c, s, t);
    }
}

} // verus!
