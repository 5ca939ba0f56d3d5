//! A branch that is not taken is passed over: the template of a fragment
//! closes every branch that it opens, so a state that carries out no opcode
//! is the same after it.

use vstd::prelude::*;
use crate::astelem::{hash_tokens, multisig_tokens, ws_tokens, ws_wf, E, T, V, W};
use crate::key::PublicKey;
use crate::list::List;
use crate::machine::{run, Machine, Spend};
use crate::machine_laws::{lemma_run1, lemma_run2, lemma_run3, lemma_run4, lemma_run_then};
use crate::satisfy::zeros;
use crate::templates::{
    delay_tokens, inside, lemma_multisig, lemma_pass_both, lemma_pass_delay, lemma_pass_guard,
    lemma_pass_openings, lemma_pass_switch, lemma_pass_w_hash, lemma_sides, outside, switch_tokens,
};
use crate::token::Token;

verus! {

/// An idle state passes over the later children of a threshold.
pub proof fn lemma_pass_ws(c: Spend, ws: List<W<PublicKey>>, m: Machine)
    requires
        m.idle(),
        ws_wf(ws),
    ensures
        run(c, ws_tokens(ws), m) == m,
    decreases ws,
{
    match ws {
        List::Nil => {},
        List::Cons(w, rest) => {
            lemma_pass_w(c, w, m);
            lemma_pass_ws(c, *rest, m);
            lemma_run1(c, Token::Add, m);
            lemma_pass_both(c, w.tokens(), seq![Token::Add], m);
            lemma_pass_both(c, w.tokens() + seq![Token::Add], ws_tokens(*rest), m);
        },
    }
}

/// An idle state passes over a threshold where it passes over the
/// children.
proof fn lemma_pass_threshold(c: Spend, a: Seq<Token>, b: Seq<Token>, k: u32, m: Machine)
    requires
        m.idle(),
        run(c, a, m) == m,
        run(c, b, m) == m,
    ensures
        run(c, a + b + seq![Token::Number(k), Token::Equal], m) == m,
        run(c, a + b + seq![Token::Number(k), Token::EqualVerify], m) == m,
{
    lemma_run2(c, Token::Number(k), Token::Equal, m);
    lemma_run2(c, Token::Number(k), Token::EqualVerify, m);
    lemma_pass_both(c, a, b, m);
    lemma_pass_both(c, a + b, seq![Token::Number(k), Token::Equal], m);
    lemma_pass_both(c, a + b, seq![Token::Number(k), Token::EqualVerify], m);
}

/// An idle state passes over two fragments and the opcode after them.
proof fn lemma_pass_joined(c: Spend, a: Seq<Token>, b: Seq<Token>, op: Token, m: Machine)
    requires
        m.idle(),
        run(c, a, m) == m,
        run(c, b, m) == m,
        op is BoolAnd || op is BoolOr,
    ensures
        run(c, a + b + seq![op], m) == m,
{
    lemma_run1(c, op, m);
    lemma_pass_both(c, a, b, m);
    lemma_pass_both(c, a + b, seq![op], m);
}

/// An idle state passes over a fragment of type E.
pub proof fn lemma_pass_e(c: Spend, e: E<PublicKey>, m: Machine)
    requires
        m.idle(),
        e.wf(),
    ensures
        run(c, e.tokens(), m) == m,
    decreases e,
{
    lemma_sides(m);
    lemma_pass_openings(c, m);
    match e {
        E::CheckSig(k) => {
            lemma_run2(c, Token::Pubkey(k), Token::CheckSig, m);
        },
        E::CheckMultiSig(k, keys) => {
            lemma_multisig(c, k, keys, zeros(k as nat), m);
            lemma_run1(c, Token::CheckMultiSig, m);
            lemma_pass_both(c, multisig_tokens(k, keys), seq![Token::CheckMultiSig], m);
        },
        E::Time(n) => {
            lemma_pass_delay(c, n, m);
            assert(e.tokens() == delay_tokens(n));
        },
        E::Threshold(k, e1, ws) => {
            lemma_pass_e(c, *e1, m);
            lemma_pass_ws(c, ws, m);
            lemma_pass_threshold(c, e1.tokens(), ws_tokens(ws), k, m);
        },
        E::ParallelAnd(l, r) => {
            lemma_pass_e(c, *l, m);
            lemma_pass_w(c, *r, m);
            lemma_pass_joined(c, l.tokens(), r.tokens(), Token::BoolAnd, m);
        },
        E::CascadeAnd(l, r) => {
            lemma_pass_e(c, *l, m);
            lemma_pass_t(c, *r, inside(m));
            lemma_pass_guard(
                c,
                l.tokens(),
                seq![Token::NotIf, Token::Number(0), Token::Else],
                r.tokens(),
                m,
                inside(m),
            );
        },
        E::ParallelOr(l, r) => {
            lemma_pass_e(c, *l, m);
            lemma_pass_w(c, *r, m);
            lemma_pass_joined(c, l.tokens(), r.tokens(), Token::BoolOr, m);
        },
        E::CascadeOr(l, r) => {
            lemma_pass_e(c, *l, m);
            lemma_pass_t(c, *r, outside(m));
            lemma_pass_guard(
                c,
                l.tokens(),
                seq![Token::IfDup, Token::NotIf],
                r.tokens(),
                m,
                outside(m),
            );
        },
        E::SwitchOrLeft(l, r) => {
            lemma_pass_e(c, *l, outside(m));
            lemma_pass_t(c, *r, inside(m));
            lemma_pass_switch(c, l.tokens(), r.tokens(), m);
            assert(e.tokens() == switch_tokens(l.tokens(), r.tokens()));
        },
        E::SwitchOrRight(l, r) => {
            lemma_pass_t(c, *r, outside(m));
            lemma_pass_e(c, *l, inside(m));
            lemma_pass_switch(c, r.tokens(), l.tokens(), m);
            assert(e.tokens() == switch_tokens(r.tokens(), l.tokens()));
        },
        E::Likely(t) => {
            lemma_run1(c, Token::Number(0), outside(m));
            lemma_pass_t(c, *t, inside(m));
            lemma_pass_switch(c, seq![Token::Number(0)], t.tokens(), m);
            assert(e.tokens() =~= switch_tokens(seq![Token::Number(0)], t.tokens()));
        },
        E::Unlikely(t) => {
            lemma_pass_t(c, *t, outside(m));
            lemma_run1(c, Token::Number(0), inside(m));
            lemma_pass_switch(c, t.tokens(), seq![Token::Number(0)], m);
            assert(e.tokens() =~= switch_tokens(t.tokens(), seq![Token::Number(0)]));
        },
    }
}

/// An idle state passes over a fragment of type W.
pub proof fn lemma_pass_w(c: Spend, w: W<PublicKey>, m: Machine)
    requires
        m.idle(),
        w.wf(),
    ensures
        run(c, w.tokens(), m) == m,
    decreases w,
{
    match w {
        W::CheckSig(k) => {
            lemma_run3(c, Token::Swap, Token::Pubkey(k), Token::CheckSig, m);
        },
        W::HashEqual(h) => {
            lemma_pass_w_hash(c, h, m);
        },
        W::Time(n) => {
            lemma_pass_delay(c, n, m);
            assert(w.tokens() =~= seq![Token::Swap] + delay_tokens(n));
        },
        W::CastE(e) => {
            lemma_pass_e(c, *e, m);
            lemma_run1(c, Token::ToAltStack, m);
            lemma_run1(c, Token::FromAltStack, m);
            lemma_pass_both(c, seq![Token::ToAltStack], e.tokens(), m);
            lemma_pass_both(
                c,
                seq![Token::ToAltStack] + e.tokens(),
                seq![Token::FromAltStack],
                m,
            );
        },
    }
}

/// An idle state passes over a fragment of type V.
pub proof fn lemma_pass_v(c: Spend, v: V<PublicKey>, m: Machine)
    requires
        m.idle(),
        v.wf(),
    ensures
        run(c, v.tokens(), m) == m,
    decreases v,
{
    lemma_sides(m);
    lemma_pass_openings(c, m);
    match v {
        V::CheckSig(k) => {
            lemma_run2(c, Token::Pubkey(k), Token::CheckSigVerify, m);
        },
        V::CheckMultiSig(k, keys) => {
            lemma_multisig(c, k, keys, zeros(k as nat), m);
            lemma_run1(c, Token::CheckMultiSigVerify, m);
            lemma_pass_both(c, multisig_tokens(k, keys), seq![Token::CheckMultiSigVerify], m);
        },
        V::Time(n) => {
            lemma_run3(c, Token::Number(n), Token::CheckSequenceVerify, Token::Drop, m);
        },
        V::HashEqual(h) => {
            lemma_run4(
                c,
                Token::Size,
                Token::Number(32),
                Token::EqualVerify,
                Token::Hash256(h),
                m,
            );
            lemma_run_then(c, hash_tokens(h), Token::EqualVerify, m);
        },
        V::And(l, r) => {
            lemma_pass_v(c, *l, m);
            lemma_pass_v(c, *r, m);
            lemma_pass_both(c, l.tokens(), r.tokens(), m);
        },
        V::SwitchOr(l, r) => {
            lemma_pass_v(c, *l, outside(m));
            lemma_pass_v(c, *r, inside(m));
            lemma_pass_switch(c, l.tokens(), r.tokens(), m);
            assert(v.tokens() == switch_tokens(l.tokens(), r.tokens()));
        },
        V::SwitchOrT(l, r) => {
            lemma_pass_t(c, *l, outside(m));
            lemma_pass_t(c, *r, inside(m));
            lemma_pass_switch(c, l.tokens(), r.tokens(), m);
            lemma_run_then(c, switch_tokens(l.tokens(), r.tokens()), Token::Verify, m);
            assert(v.tokens() =~= switch_tokens(l.tokens(), r.tokens()) + seq![Token::Verify]);
        },
        V::CascadeOr(l, r) => {
            lemma_pass_e(c, *l, m);
            lemma_pass_v(c, *r, outside(m));
            lemma_pass_guard(c, l.tokens(), seq![Token::NotIf], r.tokens(), m, outside(m));
        },
        V::Threshold(k, e, ws) => {
            lemma_pass_e(c, *e, m);
            lemma_pass_ws(c, ws, m);
            lemma_pass_threshold(c, e.tokens(), ws_tokens(ws), k, m);
        },
    }
}

/// An idle state passes over a fragment of type T.
pub proof fn lemma_pass_t(c: Spend, t: T<PublicKey>, m: Machine)
    requires
        m.idle(),
        t.wf(),
    ensures
        run(c, t.tokens(), m) == m,
    decreases t,
{
    lemma_sides(m);
    lemma_pass_openings(c, m);
    match t {
        T::Time(n) => {
            lemma_run2(c, Token::Number(n), Token::CheckSequenceVerify, m);
        },
        T::After(n) => {
            lemma_run2(c, Token::Number(n), Token::CheckLockTimeVerify, m);
        },
        T::HashEqual(h) => {
            lemma_run4(
                c,
                Token::Size,
                Token::Number(32),
                Token::EqualVerify,
                Token::Hash256(h),
                m,
            );
            lemma_run_then(c, hash_tokens(h), Token::Equal, m);
        },
        T::And(l, r) => {
            lemma_pass_v(c, *l, m);
            lemma_pass_t(c, *r, m);
            lemma_pass_both(c, l.tokens(), r.tokens(), m);
        },
        T::ParallelOr(l, r) => {
            lemma_pass_e(c, *l, m);
            lemma_pass_w(c, *r, m);
            lemma_pass_joined(c, l.tokens(), r.tokens(), Token::BoolOr, m);
        },
        T::CascadeOr(l, r) => {
            lemma_pass_e(c, *l, m);
            lemma_pass_t(c, *r, outside(m));
            lemma_pass_guard(
                c,
                l.tokens(),
                seq![Token::IfDup, Token::NotIf],
                r.tokens(),
                m,
                outside(m),
            );
        },
        T::SwitchOr(l, r) => {
            lemma_pass_t(c, *l, outside(m));
            lemma_pass_t(c, *r, inside(m));
            lemma_pass_switch(c, l.tokens(), r.tokens(), m);
            assert(t.tokens() == switch_tokens(l.tokens(), r.tokens()));
        },
        T::SwitchOrV(l, r) => {
            lemma_pass_v(c, *l, outside(m));
            lemma_pass_v(c, *r, inside(m));
            lemma_pass_switch(c, l.tokens(), r.tokens(), m);
            lemma_run_then(c, switch_tokens(l.tokens(), r.tokens()), Token::Number(1), m);
            assert(t.tokens() =~= switch_tokens(l.tokens(), r.tokens()) + seq![
                Token::Number(1),
            ]);
        },
        T::CastE(e) => {
            lemma_pass_e(c, *e, m);
        },
    }
}

} // verus!
