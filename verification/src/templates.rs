//! What the template of each fragment does on the model, given what the
//! templates of its children do.

use vstd::prelude::*;
use crate::astelem::{count_number, hash_tokens, key_tokens, multisig_tokens, multisig_wf};
use crate::key::PublicKey;
use crate::list::List;
use crate::machine::{
    check_multisig, number_of, run, signs, signs_many, step, truth, truthy, Machine, Spend,
};
use crate::machine_laws::{
    lemma_idle, lemma_live, lemma_number, lemma_run1, lemma_run2, lemma_run3, lemma_run4,
    lemma_run6, lemma_run_cat, lemma_run_then, lemma_truths, lemma_truthy_number,
};
use crate::primitives::sha256;
use crate::script::number_bytes;
use crate::stack::{one, zero};
use crate::token::Token;

verus! {

/// The template of a relative locktime that can be refused.
pub open spec fn delay_tokens(n: u32) -> Seq<Token> {
    seq![
        Token::Dup,
        Token::If,
        Token::Number(n),
        Token::CheckSequenceVerify,
        Token::Drop,
        Token::EndIf,
    ]
}

/// `DUP IF <n> CSV DROP ENDIF` leaves the 1 it finds where the locktime is
/// reached.
pub proof fn lemma_delay_sat(c: Spend, n: u32, m: Machine)
    requires
        m.live(),
        n < 0x8000_0000,
        n <= c.age,
    ensures
        run(c, delay_tokens(n), m.push(one())) == m.push(one()),
{
    lemma_truths();
    lemma_number(n as nat);
    lemma_live(m.push(one()));
    let m0 = m.push(one());
    let m1 = step(c, m0, Token::Dup);
    assert(m1 == m0.push(one()));
    let m2 = step(c, m1, Token::If);
    assert(m1.less(1).stack =~= m0.stack);
    assert(m2 == m0.with_taken(m.taken.push(true)));
    let m3 = step(c, m2, Token::Number(n));
    let m4 = step(c, m3, Token::CheckSequenceVerify);
    assert(m4 == m3);
    let m5 = step(c, m4, Token::Drop);
    assert(m5.stack =~= m0.stack);
    let m6 = step(c, m5, Token::EndIf);
    assert(m6.taken =~= m.taken);
    lemma_run6(
        c,
        Token::Dup,
        Token::If,
        Token::Number(n),
        Token::CheckSequenceVerify,
        Token::Drop,
        Token::EndIf,
        m0,
    );
}

/// `DUP IF <n> CSV DROP ENDIF` leaves the 0 it finds.
pub proof fn lemma_delay_dis(c: Spend, n: u32, m: Machine)
    requires
        m.live(),
    ensures
        run(c, delay_tokens(n), m.push(zero())) == m.push(zero()),
{
    lemma_truths();
    lemma_live(m.push(zero()));
    let m0 = m.push(zero());
    let m1 = step(c, m0, Token::Dup);
    assert(m1 == m0.push(zero()));
    let m2 = step(c, m1, Token::If);
    assert(m1.less(1).stack =~= m0.stack);
    assert(m2 == m0.with_taken(m.taken.push(false)));
    let m3 = step(c, m2, Token::Number(n));
    let m4 = step(c, m3, Token::CheckSequenceVerify);
    let m5 = step(c, m4, Token::Drop);
    assert(m5 == m2);
    let m6 = step(c, m5, Token::EndIf);
    assert(m6.taken =~= m.taken);
    lemma_run6(
        c,
        Token::Dup,
        Token::If,
        Token::Number(n),
        Token::CheckSequenceVerify,
        Token::Drop,
        Token::EndIf,
        m0,
    );
}

/// Two elements on a stack, in one order or the other.
pub open spec fn beside(swapped: bool, m: Machine, x: Seq<u8>, v: Seq<u8>) -> Machine {
    if swapped {
        m.push(v).push(x)
    } else {
        m.push(x).push(v)
    }
}

/// `<key> CHECKSIG` leaves whether the element on top is a signature for
/// the key.
pub proof fn lemma_checksig(c: Spend, k: PublicKey, sig: Seq<u8>, m: Machine)
    requires
        m.live(),
    ensures
        run(c, seq![Token::Pubkey(k), Token::CheckSig], m.push(sig)) == m.push(
            truth(signs(c, k.bytes@, sig)),
        ),
{
    let m0 = m.push(sig);
    let m1 = step(c, m0, Token::Pubkey(k));
    assert(m1 == m0.push(k.bytes@));
    assert(m1.less(2).stack =~= m.stack);
    lemma_run2(c, Token::Pubkey(k), Token::CheckSig, m0);
}

/// `SWAP <key> CHECKSIG` leaves whether the element below the top is a
/// signature for the key, above what was on top.
pub proof fn lemma_w_checksig(c: Spend, k: PublicKey, sig: Seq<u8>, x: Seq<u8>, m: Machine)
    requires
        m.live(),
    ensures
        run(c, seq![Token::Swap, Token::Pubkey(k), Token::CheckSig], m.push(sig).push(x))
            == m.push(x).push(truth(signs(c, k.bytes@, sig))),
{
    let m0 = m.push(sig).push(x);
    let m1 = step(c, m0, Token::Swap);
    assert(m0.less(2).stack =~= m.stack);
    assert(m1 == m.push(x).push(sig));
    let m2 = step(c, m1, Token::Pubkey(k));
    assert(m2.less(2).stack =~= m.push(x).stack);
    lemma_run3(c, Token::Swap, Token::Pubkey(k), Token::CheckSig, m0);
}

/// `<key> CHECKSIGVERIFY` takes a signature for the key.
pub proof fn lemma_v_checksig(c: Spend, k: PublicKey, sig: Seq<u8>, m: Machine)
    requires
        m.live(),
        signs(c, k.bytes@, sig),
    ensures
        run(c, seq![Token::Pubkey(k), Token::CheckSigVerify], m.push(sig)) == m,
{
    let m0 = m.push(sig);
    let m1 = step(c, m0, Token::Pubkey(k));
    assert(m1.less(2).stack =~= m.stack);
    lemma_run2(c, Token::Pubkey(k), Token::CheckSigVerify, m0);
}

/// `SWAP DUP IF <n> CSV DROP ENDIF` leaves the 1 it finds below the top
/// where the locktime is reached.
pub proof fn lemma_w_delay_sat(c: Spend, n: u32, x: Seq<u8>, m: Machine)
    requires
        m.live(),
        n < 0x8000_0000,
        n <= c.age,
    ensures
        run(
            c,
            seq![
                Token::Swap,
                Token::Dup,
                Token::If,
                Token::Number(n),
                Token::CheckSequenceVerify,
                Token::Drop,
                Token::EndIf,
            ],
            m.push(one()).push(x),
        ) == m.push(x).push(one()),
{
    let m0 = m.push(one()).push(x);
    let m1 = step(c, m0, Token::Swap);
    assert(m0.less(2).stack =~= m.stack);
    assert(m1 == m.push(x).push(one()));
    lemma_delay_sat(c, n, m.push(x));
    lemma_run1(c, Token::Swap, m0);
    lemma_run_cat(c, seq![Token::Swap], delay_tokens(n), m0);
    assert(seq![Token::Swap] + delay_tokens(n) =~= seq![
        Token::Swap,
        Token::Dup,
        Token::If,
        Token::Number(n),
        Token::CheckSequenceVerify,
        Token::Drop,
        Token::EndIf,
    ]);
}

/// `SWAP DUP IF <n> CSV DROP ENDIF` leaves the 0 it finds below the top.
pub proof fn lemma_w_delay_dis(c: Spend, n: u32, x: Seq<u8>, m: Machine)
    requires
        m.live(),
    ensures
        run(
            c,
            seq![
                Token::Swap,
                Token::Dup,
                Token::If,
                Token::Number(n),
                Token::CheckSequenceVerify,
                Token::Drop,
                Token::EndIf,
            ],
            m.push(zero()).push(x),
        ) == m.push(x).push(zero()),
{
    let m0 = m.push(zero()).push(x);
    let m1 = step(c, m0, Token::Swap);
    assert(m0.less(2).stack =~= m.stack);
    assert(m1 == m.push(x).push(zero()));
    lemma_delay_dis(c, n, m.push(x));
    lemma_run1(c, Token::Swap, m0);
    lemma_run_cat(c, seq![Token::Swap], delay_tokens(n), m0);
    assert(seq![Token::Swap] + delay_tokens(n) =~= seq![
        Token::Swap,
        Token::Dup,
        Token::If,
        Token::Number(n),
        Token::CheckSequenceVerify,
        Token::Drop,
        Token::EndIf,
    ]);
}

/// `<n> CSV DROP` takes nothing where the locktime is reached.
pub proof fn lemma_v_delay(c: Spend, n: u32, m: Machine)
    requires
        m.live(),
        n < 0x8000_0000,
        n <= c.age,
    ensures
        run(c, seq![Token::Number(n), Token::CheckSequenceVerify, Token::Drop], m) == m,
{
    lemma_number(n as nat);
    let m1 = step(c, m, Token::Number(n));
    assert(m1.less(1).stack =~= m.stack);
    lemma_run3(c, Token::Number(n), Token::CheckSequenceVerify, Token::Drop, m);
}

/// `<n> CSV` and `<n> CLTV` leave the number where the locktime is
/// reached.
pub proof fn lemma_t_delay(c: Spend, n: u32, m: Machine)
    requires
        m.live(),
        n < 0x8000_0000,
    ensures
        n <= c.age ==> run(c, seq![Token::Number(n), Token::CheckSequenceVerify], m) == m.push(
            number_bytes(n as nat),
        ),
        n <= c.locktime ==> run(c, seq![Token::Number(n), Token::CheckLockTimeVerify], m)
            == m.push(number_bytes(n as nat)),
{
    lemma_number(n as nat);
    lemma_run2(c, Token::Number(n), Token::CheckSequenceVerify, m);
    lemma_run2(c, Token::Number(n), Token::CheckLockTimeVerify, m);
}

/// `SIZE <32> EQUALVERIFY HASH256 <h>` leaves the hash twice where the
/// element on top is a preimage of it.
pub proof fn lemma_hash(c: Spend, h: [u8; 32], p: Seq<u8>, m: Machine)
    requires
        m.live(),
        p.len() == 32,
        sha256(sha256(p)) == h@,
    ensures
        run(c, hash_tokens(h), m.push(p)) == m.push(h@).push(h@),
{
    let m0 = m.push(p);
    let m1 = step(c, m0, Token::Size);
    assert(m1 == m0.push(number_bytes(32)));
    let m2 = step(c, m1, Token::Number(32));
    assert(m2 == m1.push(number_bytes(32)));
    let m3 = step(c, m2, Token::EqualVerify);
    assert(m2.less(2).stack =~= m0.stack);
    assert(m3 == m0);
    let m4 = step(c, m3, Token::Hash256(h));
    assert(m0.less(1).stack =~= m.stack);
    lemma_run4(c, Token::Size, Token::Number(32), Token::EqualVerify, Token::Hash256(h), m0);
}

/// The template of a hash comparison that leaves its result.
pub proof fn lemma_t_hash(c: Spend, h: [u8; 32], p: Seq<u8>, m: Machine)
    requires
        m.live(),
        p.len() == 32,
        sha256(sha256(p)) == h@,
    ensures
        run(c, hash_tokens(h) + seq![Token::Equal], m.push(p)) == m.push(one()),
        run(c, hash_tokens(h) + seq![Token::EqualVerify], m.push(p)) == m,
{
    lemma_hash(c, h, p, m);
    let m1 = m.push(h@).push(h@);
    assert(m1.less(2).stack =~= m.stack);
    lemma_run_then(c, hash_tokens(h), Token::Equal, m.push(p));
    lemma_run_then(c, hash_tokens(h), Token::EqualVerify, m.push(p));
}

/// The template of a hash comparison below the top of the stack.
pub open spec fn w_hash_tokens(h: [u8; 32]) -> Seq<Token> {
    seq![Token::Swap, Token::Size, Token::ZeroNotEqual, Token::If] + hash_tokens(h) + seq![
        Token::EqualVerify,
        Token::Number(1),
        Token::EndIf,
    ]
}

/// The hash comparison below the top leaves 1 where it finds a preimage.
pub proof fn lemma_w_hash_sat(c: Spend, h: [u8; 32], p: Seq<u8>, x: Seq<u8>, m: Machine)
    requires
        m.live(),
        p.len() == 32,
        sha256(sha256(p)) == h@,
    ensures
        run(c, w_hash_tokens(h), m.push(p).push(x)) == m.push(x).push(one()),
{
    lemma_truths();
    lemma_number(32);
    let m0 = m.push(p).push(x);
    let m1 = step(c, m0, Token::Swap);
    assert(m0.less(2).stack =~= m.stack);
    assert(m1 == m.push(x).push(p));
    let m2 = step(c, m1, Token::Size);
    assert(m2 == m1.push(number_bytes(32)));
    let m3 = step(c, m2, Token::ZeroNotEqual);
    assert(m2.less(1).stack =~= m1.stack);
    assert(m3 == m1.push(one()));
    let m4 = step(c, m3, Token::If);
    assert(m3.less(1).stack =~= m1.stack);
    let inner = m.push(x).with_taken(m.taken.push(true));
    lemma_live(m.push(x));
    assert(m4 == inner.push(p));
    lemma_run4(c, Token::Swap, Token::Size, Token::ZeroNotEqual, Token::If, m0);
    lemma_hash(c, h, p, inner);
    let m5 = inner.push(h@).push(h@);
    let m6 = step(c, m5, Token::EqualVerify);
    assert(m5.less(2).stack =~= inner.stack);
    assert(m6 == inner);
    let m7 = step(c, m6, Token::Number(1));
    assert(number_bytes(1) == one());
    let m8 = step(c, m7, Token::EndIf);
    assert(m8.taken =~= m.taken);
    lemma_run3(c, Token::EqualVerify, Token::Number(1), Token::EndIf, m5);
    let front = seq![Token::Swap, Token::Size, Token::ZeroNotEqual, Token::If];
    let back = seq![Token::EqualVerify, Token::Number(1), Token::EndIf];
    lemma_run_cat(c, front, hash_tokens(h), m0);
    lemma_run_cat(c, front + hash_tokens(h), back, m0);
}

/// The hash comparison below the top leaves the 0 it finds.
pub proof fn lemma_w_hash_dis(c: Spend, h: [u8; 32], x: Seq<u8>, m: Machine)
    requires
        m.live(),
    ensures
        run(c, w_hash_tokens(h), m.push(zero()).push(x)) == m.push(x).push(zero()),
{
    lemma_truths();
    let m0 = m.push(zero()).push(x);
    let m1 = step(c, m0, Token::Swap);
    assert(m0.less(2).stack =~= m.stack);
    assert(m1 == m.push(x).push(zero()));
    let m2 = step(c, m1, Token::Size);
    assert(m2 == m1.push(number_bytes(0)));
    let m3 = step(c, m2, Token::ZeroNotEqual);
    assert(m2.less(1).stack =~= m1.stack);
    assert(m3 == m1.push(zero()));
    let m4 = step(c, m3, Token::If);
    assert(m3.less(1).stack =~= m1.stack);
    lemma_live(m1);
    let inner = m1.with_taken(m.taken.push(false));
    assert(m4 == inner);
    lemma_run4(c, Token::Swap, Token::Size, Token::ZeroNotEqual, Token::If, m0);
    lemma_run4(
        c,
        Token::Size,
        Token::Number(32),
        Token::EqualVerify,
        Token::Hash256(h),
        inner,
    );
    let m8 = step(c, inner, Token::EndIf);
    assert(m8.taken =~= m.taken);
    lemma_run3(c, Token::EqualVerify, Token::Number(1), Token::EndIf, inner);
    let front = seq![Token::Swap, Token::Size, Token::ZeroNotEqual, Token::If];
    let back = seq![Token::EqualVerify, Token::Number(1), Token::EndIf];
    lemma_run_cat(c, front, hash_tokens(h), m0);
    lemma_run_cat(c, front + hash_tokens(h), back, m0);
}

/// Putting two stacks on is putting on one and then the other.
pub proof fn lemma_on_on(m: Machine, a: Seq<Seq<u8>>, b: Seq<Seq<u8>>)
    ensures
        m.on(a + b) == m.on(a).on(b),
        m.on(Seq::empty()) == m,
        m.on(seq![b.last()]) == m.push(b.last()),
{
    assert(m.stack + (a + b) =~= (m.stack + a) + b);
    assert(m.stack + Seq::<Seq<u8>>::empty() =~= m.stack);
    assert(m.stack + seq![b.last()] =~= m.stack.push(b.last()));
}

/// Putting a stack on with one element more is putting on the stack and
/// pushing the element.
pub proof fn lemma_on_push(m: Machine, a: Seq<Seq<u8>>, e: Seq<u8>)
    ensures
        m.on(a.push(e)) == m.on(a).push(e),
        m.on(seq![e]) == m.push(e),
{
    assert(m.stack + a.push(e) =~= (m.stack + a).push(e));
    assert(m.stack + seq![e] =~= m.stack.push(e));
}

/// An opcode on two numbers finds them in either order.
pub proof fn lemma_pair(c: Spend, swapped: bool, m: Machine, x: Seq<u8>, v: Seq<u8>)
    requires
        m.live(),
        number_of(x) is Some,
        number_of(v) is Some,
    ensures
        step(c, beside(swapped, m, x, v), Token::BoolAnd) == m.push(
            truth(number_of(x)->Some_0 != 0 && number_of(v)->Some_0 != 0),
        ),
        step(c, beside(swapped, m, x, v), Token::BoolOr) == m.push(
            truth(number_of(x)->Some_0 != 0 || number_of(v)->Some_0 != 0),
        ),
        step(c, beside(swapped, m, x, v), Token::Add) == m.push(
            number_bytes(number_of(x)->Some_0 + number_of(v)->Some_0),
        ),
{
    let b = beside(swapped, m, x, v);
    assert(b.less(2).stack =~= m.stack);
}

/// Two fragments and the opcode that joins what they leave.
pub proof fn lemma_parallel(
    c: Spend,
    a: Seq<Token>,
    b: Seq<Token>,
    op: Token,
    m: Machine,
    below: Seq<Seq<u8>>,
    above: Seq<Seq<u8>>,
    x: Seq<u8>,
    after: Machine,
)
    requires
        run(c, a, m.on(below).on(above)) == m.on(below).push(x),
        run(c, b, m.on(below).push(x)) == after,
    ensures
        run(c, a + b + seq![op], m.on(below + above)) == step(c, after, op),
{
    lemma_on_on(m, below, above);
    lemma_run_cat(c, a, b, m.on(below + above));
    lemma_run_then(c, a + b, op, m.on(below + above));
}

/// One fragment after the other.
pub proof fn lemma_sequence(
    c: Spend,
    a: Seq<Token>,
    b: Seq<Token>,
    m: Machine,
    below: Seq<Seq<u8>>,
    above: Seq<Seq<u8>>,
    after: Machine,
)
    requires
        run(c, a, m.on(below).on(above)) == m.on(below),
        run(c, b, m.on(below)) == after,
    ensures
        run(c, a + b, m.on(below + above)) == after,
{
    lemma_on_on(m, below, above);
    lemma_run_cat(c, a, b, m.on(below + above));
}

/// The state in which the branch that was just opened is taken.
pub open spec fn inside(m: Machine) -> Machine {
    m.with_taken(m.taken.push(true))
}

/// The state in which the branch that was just opened is passed over.
pub open spec fn outside(m: Machine) -> Machine {
    m.with_taken(m.taken.push(false))
}

/// What is inside a live state is live, what is outside is idle, and both
/// are idle in an idle state.
pub proof fn lemma_sides(m: Machine)
    ensures
        m.live() ==> inside(m).live() && outside(m).idle(),
        m.idle() ==> inside(m).idle() && outside(m).idle(),
        inside(m).taken.drop_last() == m.taken,
        outside(m).taken.drop_last() == m.taken,
        inside(m).with_taken(m.taken) == m,
        outside(m).with_taken(m.taken) == m,
{
    if m.live() {
        lemma_live(m);
    }
    if m.idle() {
        lemma_idle(m, true);
        lemma_idle(m, false);
    }
    assert(m.taken.push(true).drop_last() =~= m.taken);
    assert(m.taken.push(false).drop_last() =~= m.taken);
}

/// `[a] NOTIF 0 ELSE [d] ENDIF` where both are satisfied.
pub proof fn lemma_cascade_and_sat(
    c: Spend,
    a: Seq<Token>,
    d: Seq<Token>,
    m: Machine,
    below: Seq<Seq<u8>>,
    above: Seq<Seq<u8>>,
    x: Seq<u8>,
    w: Seq<u8>,
)
    requires
        m.live(),
        run(c, a, m.on(below).on(above)) == m.on(below).push(x),
        truthy(x),
        run(c, d, inside(m).on(below)) == inside(m).push(w),
    ensures
        run(
            c,
            a + seq![Token::NotIf, Token::Number(0), Token::Else] + d + seq![Token::EndIf],
            m.on(below + above),
        ) == m.push(w),
{
    let m0 = m.on(below + above);
    lemma_on_on(m, below, above);
    let m1 = m.on(below).push(x);
    lemma_sides(m);
    lemma_sides(m.on(below));
    let m2 = step(c, m1, Token::NotIf);
    assert(m1.less(1).stack =~= m.on(below).stack);
    assert(m2 == outside(m.on(below)));
    let m3 = step(c, m2, Token::Number(0));
    assert(m3 == m2);
    let m4 = step(c, m3, Token::Else);
    assert(m4.taken =~= inside(m).taken);
    assert(m4 == inside(m).on(below));
    lemma_run3(c, Token::NotIf, Token::Number(0), Token::Else, m1);
    let m5 = inside(m).push(w);
    let m6 = step(c, m5, Token::EndIf);
    assert(m6 == m.push(w));
    let mid = seq![Token::NotIf, Token::Number(0), Token::Else];
    lemma_run_cat(c, a, mid, m0);
    lemma_run_cat(c, a + mid, d, m0);
    lemma_run_then(c, a + mid + d, Token::EndIf, m0);
}

/// `[a] NOTIF 0 ELSE [d] ENDIF` where the first is dissatisfied.
pub proof fn lemma_cascade_and_dis(
    c: Spend,
    a: Seq<Token>,
    d: Seq<Token>,
    m: Machine,
    above: Seq<Seq<u8>>,
)
    requires
        m.live(),
        run(c, a, m.on(above)) == m.push(zero()),
        run(c, d, outside(m.push(zero()))) == outside(m.push(zero())),
    ensures
        run(
            c,
            a + seq![Token::NotIf, Token::Number(0), Token::Else] + d + seq![Token::EndIf],
            m.on(above),
        ) == m.push(zero()),
{
    lemma_truths();
    let m0 = m.on(above);
    let m1 = m.push(zero());
    lemma_sides(m);
    lemma_sides(m1);
    let m2 = step(c, m1, Token::NotIf);
    assert(m1.less(1).stack =~= m.stack);
    assert(m2 == inside(m));
    let m3 = step(c, m2, Token::Number(0));
    assert(number_bytes(0) == zero());
    assert(m3 == inside(m1));
    let m4 = step(c, m3, Token::Else);
    assert(m4.taken =~= outside(m1).taken);
    assert(m4 == outside(m1));
    lemma_run3(c, Token::NotIf, Token::Number(0), Token::Else, m1);
    let m6 = step(c, m4, Token::EndIf);
    assert(m6 == m1);
    let mid = seq![Token::NotIf, Token::Number(0), Token::Else];
    lemma_run_cat(c, a, mid, m0);
    lemma_run_cat(c, a + mid, d, m0);
    lemma_run_then(c, a + mid + d, Token::EndIf, m0);
}

/// `[a] IFDUP NOTIF [d] ENDIF` where the first is satisfied.
pub proof fn lemma_cascade_or_left(
    c: Spend,
    a: Seq<Token>,
    d: Seq<Token>,
    m: Machine,
    above: Seq<Seq<u8>>,
    x: Seq<u8>,
)
    requires
        m.live(),
        run(c, a, m.on(above)) == m.push(x),
        truthy(x),
        run(c, d, outside(m.push(x))) == outside(m.push(x)),
    ensures
        run(c, a + seq![Token::IfDup, Token::NotIf] + d + seq![Token::EndIf], m.on(above))
            == m.push(x),
{
    let m0 = m.on(above);
    let m1 = m.push(x);
    lemma_sides(m1);
    let m2 = step(c, m1, Token::IfDup);
    assert(m2 == m1.push(x));
    let m3 = step(c, m2, Token::NotIf);
    assert(m2.less(1).stack =~= m1.stack);
    assert(m3 == outside(m1));
    lemma_run2(c, Token::IfDup, Token::NotIf, m1);
    let m5 = step(c, m3, Token::EndIf);
    assert(m5 == m1);
    let mid = seq![Token::IfDup, Token::NotIf];
    lemma_run_cat(c, a, mid, m0);
    lemma_run_cat(c, a + mid, d, m0);
    lemma_run_then(c, a + mid + d, Token::EndIf, m0);
}

/// `[a] IFDUP NOTIF [d] ENDIF` where the first is dissatisfied and the
/// second satisfied.
pub proof fn lemma_cascade_or_right(
    c: Spend,
    a: Seq<Token>,
    d: Seq<Token>,
    m: Machine,
    below: Seq<Seq<u8>>,
    above: Seq<Seq<u8>>,
    w: Seq<u8>,
)
    requires
        m.live(),
        run(c, a, m.on(below).on(above)) == m.on(below).push(zero()),
        run(c, d, inside(m).on(below)) == inside(m).push(w),
    ensures
        run(
            c,
            a + seq![Token::IfDup, Token::NotIf] + d + seq![Token::EndIf],
            m.on(below + above),
        ) == m.push(w),
{
    lemma_truths();
    let m0 = m.on(below + above);
    lemma_on_on(m, below, above);
    let m1 = m.on(below).push(zero());
    lemma_sides(m);
    lemma_sides(m.on(below));
    let m2 = step(c, m1, Token::IfDup);
    assert(m2 == m1);
    let m3 = step(c, m2, Token::NotIf);
    assert(m1.less(1).stack =~= m.on(below).stack);
    assert(m3 == inside(m).on(below));
    lemma_run2(c, Token::IfDup, Token::NotIf, m1);
    let m5 = step(c, inside(m).push(w), Token::EndIf);
    assert(m5 == m.push(w));
    let mid = seq![Token::IfDup, Token::NotIf];
    lemma_run_cat(c, a, mid, m0);
    lemma_run_cat(c, a + mid, d, m0);
    lemma_run_then(c, a + mid + d, Token::EndIf, m0);
}

/// `[a] NOTIF [d] ENDIF` where the first is satisfied.
pub proof fn lemma_guard_left(
    c: Spend,
    a: Seq<Token>,
    d: Seq<Token>,
    m: Machine,
    above: Seq<Seq<u8>>,
    x: Seq<u8>,
)
    requires
        m.live(),
        run(c, a, m.on(above)) == m.push(x),
        truthy(x),
        run(c, d, outside(m)) == outside(m),
    ensures
        run(c, a + seq![Token::NotIf] + d + seq![Token::EndIf], m.on(above)) == m,
{
    let m0 = m.on(above);
    let m1 = m.push(x);
    lemma_sides(m);
    let m2 = step(c, m1, Token::NotIf);
    assert(m1.less(1).stack =~= m.stack);
    assert(m2 == outside(m));
    lemma_run1(c, Token::NotIf, m1);
    let m5 = step(c, m2, Token::EndIf);
    assert(m5 == m);
    let mid = seq![Token::NotIf];
    lemma_run_cat(c, a, mid, m0);
    lemma_run_cat(c, a + mid, d, m0);
    lemma_run_then(c, a + mid + d, Token::EndIf, m0);
}

/// `[a] NOTIF [d] ENDIF` where the first is dissatisfied and the second
/// satisfied.
pub proof fn lemma_guard_right(
    c: Spend,
    a: Seq<Token>,
    d: Seq<Token>,
    m: Machine,
    below: Seq<Seq<u8>>,
    above: Seq<Seq<u8>>,
)
    requires
        m.live(),
        run(c, a, m.on(below).on(above)) == m.on(below).push(zero()),
        run(c, d, inside(m).on(below)) == inside(m),
    ensures
        run(c, a + seq![Token::NotIf] + d + seq![Token::EndIf], m.on(below + above)) == m,
{
    lemma_truths();
    let m0 = m.on(below + above);
    lemma_on_on(m, below, above);
    let m1 = m.on(below).push(zero());
    lemma_sides(m);
    lemma_sides(m.on(below));
    let m2 = step(c, m1, Token::NotIf);
    assert(m1.less(1).stack =~= m.on(below).stack);
    assert(m2 == inside(m).on(below));
    lemma_run1(c, Token::NotIf, m1);
    let m5 = step(c, inside(m), Token::EndIf);
    assert(m5 == m);
    let mid = seq![Token::NotIf];
    lemma_run_cat(c, a, mid, m0);
    lemma_run_cat(c, a + mid, d, m0);
    lemma_run_then(c, a + mid + d, Token::EndIf, m0);
}

/// The template of a choice between two fragments.
pub open spec fn switch_tokens(x: Seq<Token>, y: Seq<Token>) -> Seq<Token> {
    seq![Token::If] + x + seq![Token::Else] + y + seq![Token::EndIf]
}

/// `IF [x] ELSE [y] ENDIF` where the element on top selects the first.
pub proof fn lemma_switch_left(
    c: Spend,
    x: Seq<Token>,
    y: Seq<Token>,
    m: Machine,
    st: Seq<Seq<u8>>,
    sel: Seq<u8>,
    after: Machine,
)
    requires
        m.live(),
        truthy(sel),
        run(c, x, inside(m).on(st)) == inside(after),
        !after.failed,
        after.taken == m.taken,
        run(c, y, outside(after)) == outside(after),
    ensures
        run(c, switch_tokens(x, y), m.on(st).push(sel)) == after,
{
    let m0 = m.on(st).push(sel);
    lemma_sides(m);
    lemma_sides(m.on(st));
    lemma_sides(after);
    let m1 = step(c, m0, Token::If);
    assert(m0.less(1).stack =~= m.on(st).stack);
    assert(m1 == inside(m).on(st));
    lemma_run1(c, Token::If, m0);
    let m2 = inside(after);
    let m3 = step(c, m2, Token::Else);
    assert(m3.taken =~= outside(after).taken);
    assert(m3 == outside(after));
    let m5 = step(c, m3, Token::EndIf);
    assert(m5 == after);
    let first = seq![Token::If];
    lemma_run_cat(c, first, x, m0);
    lemma_run_then(c, first + x, Token::Else, m0);
    lemma_run_cat(c, first + x + seq![Token::Else], y, m0);
    lemma_run_then(c, first + x + seq![Token::Else] + y, Token::EndIf, m0);
}

/// `IF [x] ELSE [y] ENDIF` where the element on top selects the second.
pub proof fn lemma_switch_right(
    c: Spend,
    x: Seq<Token>,
    y: Seq<Token>,
    m: Machine,
    st: Seq<Seq<u8>>,
    sel: Seq<u8>,
    after: Machine,
)
    requires
        m.live(),
        !truthy(sel),
        run(c, x, outside(m.on(st))) == outside(m.on(st)),
        run(c, y, inside(m).on(st)) == inside(after),
        !after.failed,
        after.taken == m.taken,
    ensures
        run(c, switch_tokens(x, y), m.on(st).push(sel)) == after,
{
    let m0 = m.on(st).push(sel);
    lemma_sides(m);
    lemma_sides(m.on(st));
    lemma_sides(after);
    let m1 = step(c, m0, Token::If);
    assert(m0.less(1).stack =~= m.on(st).stack);
    assert(m1 == outside(m.on(st)));
    lemma_run1(c, Token::If, m0);
    let m3 = step(c, m1, Token::Else);
    assert(m3.taken =~= inside(m).taken);
    assert(m3 == inside(m).on(st));
    let m5 = step(c, inside(after), Token::EndIf);
    assert(m5 == after);
    let first = seq![Token::If];
    lemma_run_cat(c, first, x, m0);
    lemma_run_then(c, first + x, Token::Else, m0);
    lemma_run_cat(c, first + x + seq![Token::Else], y, m0);
    lemma_run_then(c, first + x + seq![Token::Else] + y, Token::EndIf, m0);
}

/// The state with `x` put aside on the alternative stack.
pub open spec fn aside(m: Machine, x: Seq<u8>) -> Machine {
    Machine { alt: m.alt.push(x), ..m }
}

/// `TOALTSTACK [a] FROMALTSTACK` leaves what the fragment leaves below
/// what was on top.
pub proof fn lemma_cast(
    c: Spend,
    a: Seq<Token>,
    m: Machine,
    st: Seq<Seq<u8>>,
    x: Seq<u8>,
    v: Seq<u8>,
)
    requires
        m.live(),
        run(c, a, aside(m, x).on(st)) == aside(m, x).push(v),
    ensures
        run(c, seq![Token::ToAltStack] + a + seq![Token::FromAltStack], m.on(st).push(x))
            == beside(true, m, x, v),
{
    let m0 = m.on(st).push(x);
    let m1 = step(c, m0, Token::ToAltStack);
    assert(m0.less(1).stack =~= m.on(st).stack);
    assert(m1 == aside(m, x).on(st));
    lemma_run1(c, Token::ToAltStack, m0);
    let m2 = aside(m, x).push(v);
    let m3 = step(c, m2, Token::FromAltStack);
    assert(m3.alt =~= m.alt);
    assert(m3 == m.push(v).push(x));
    lemma_run_cat(c, seq![Token::ToAltStack], a, m0);
    lemma_run_then(c, seq![Token::ToAltStack] + a, Token::FromAltStack, m0);
}

/// An idle state passes over two programs where it passes over each.
pub proof fn lemma_pass_both(c: Spend, a: Seq<Token>, b: Seq<Token>, m: Machine)
    requires
        run(c, a, m) == m,
        run(c, b, m) == m,
    ensures
        run(c, a + b, m) == m,
{
    lemma_run_cat(c, a, b, m);
}

/// An idle state passes over a choice where it passes over both branches.
pub proof fn lemma_pass_switch(c: Spend, x: Seq<Token>, y: Seq<Token>, m: Machine)
    requires
        m.idle(),
        run(c, x, outside(m)) == outside(m),
        run(c, y, inside(m)) == inside(m),
    ensures
        run(c, switch_tokens(x, y), m) == m,
{
    lemma_sides(m);
    let m1 = step(c, m, Token::If);
    assert(m1 == outside(m));
    lemma_run1(c, Token::If, m);
    let m3 = step(c, m1, Token::Else);
    assert(m3.taken =~= inside(m).taken);
    assert(m3 == inside(m));
    let m5 = step(c, m3, Token::EndIf);
    assert(m5 == m);
    let first = seq![Token::If];
    lemma_run_cat(c, first, x, m);
    lemma_run_then(c, first + x, Token::Else, m);
    lemma_run_cat(c, first + x + seq![Token::Else], y, m);
    lemma_run_then(c, first + x + seq![Token::Else] + y, Token::EndIf, m);
}

/// An idle state passes over a fragment, the opening of a branch, a
/// second fragment and `ENDIF`.
pub proof fn lemma_pass_guard(
    c: Spend,
    a: Seq<Token>,
    opening: Seq<Token>,
    d: Seq<Token>,
    m: Machine,
    mid: Machine,
)
    requires
        m.idle(),
        run(c, a, m) == m,
        run(c, opening, m) == mid,
        mid == inside(m) || mid == outside(m),
        run(c, d, mid) == mid,
    ensures
        run(c, a + opening + d + seq![Token::EndIf], m) == m,
{
    lemma_sides(m);
    let m5 = step(c, mid, Token::EndIf);
    assert(m5 == m);
    lemma_run_cat(c, a, opening, m);
    lemma_run_cat(c, a + opening, d, m);
    lemma_run_then(c, a + opening + d, Token::EndIf, m);
}

/// What the three openings of a guarded branch do in an idle state.
pub proof fn lemma_pass_openings(c: Spend, m: Machine)
    requires
        m.idle(),
    ensures
        run(c, seq![Token::NotIf, Token::Number(0), Token::Else], m) == inside(m),
        run(c, seq![Token::IfDup, Token::NotIf], m) == outside(m),
        run(c, seq![Token::NotIf], m) == outside(m),
{
    lemma_sides(m);
    let m1 = step(c, m, Token::NotIf);
    assert(m1 == outside(m));
    let m3 = step(c, m1, Token::Else);
    assert(m3.taken =~= inside(m).taken);
    lemma_run3(c, Token::NotIf, Token::Number(0), Token::Else, m);
    lemma_run2(c, Token::IfDup, Token::NotIf, m);
    lemma_run1(c, Token::NotIf, m);
}

/// An idle state passes over the locktime that can be refused.
pub proof fn lemma_pass_delay(c: Spend, n: u32, m: Machine)
    requires
        m.idle(),
    ensures
        run(c, delay_tokens(n), m) == m,
        run(c, seq![Token::Swap] + delay_tokens(n), m) == m,
{
    lemma_sides(m);
    let m2 = step(c, m, Token::If);
    assert(m2 == outside(m));
    let m6 = step(c, m2, Token::EndIf);
    assert(m6 == m);
    lemma_run6(
        c,
        Token::Dup,
        Token::If,
        Token::Number(n),
        Token::CheckSequenceVerify,
        Token::Drop,
        Token::EndIf,
        m,
    );
    lemma_run1(c, Token::Swap, m);
    lemma_run_cat(c, seq![Token::Swap], delay_tokens(n), m);
}

/// An idle state passes over the hash comparison below the top.
pub proof fn lemma_pass_w_hash(c: Spend, h: [u8; 32], m: Machine)
    requires
        m.idle(),
    ensures
        run(c, w_hash_tokens(h), m) == m,
{
    lemma_sides(m);
    let m4 = step(c, m, Token::If);
    assert(m4 == outside(m));
    lemma_run4(c, Token::Swap, Token::Size, Token::ZeroNotEqual, Token::If, m);
    lemma_run4(c, Token::Size, Token::Number(32), Token::EqualVerify, Token::Hash256(h), m4);
    let m8 = step(c, m4, Token::EndIf);
    assert(m8 == m);
    lemma_run3(c, Token::EqualVerify, Token::Number(1), Token::EndIf, m4);
    let front = seq![Token::Swap, Token::Size, Token::ZeroNotEqual, Token::If];
    let back = seq![Token::EqualVerify, Token::Number(1), Token::EndIf];
    lemma_run_cat(c, front, hash_tokens(h), m);
    lemma_run_cat(c, front + hash_tokens(h), back, m);
}

/// The elements that the keys of a multisignature are pushed as.
pub open spec fn key_bytes(keys: List<PublicKey>) -> Seq<Seq<u8>>
    decreases keys,
{
    match keys {
        List::Nil => Seq::empty(),
        List::Cons(k, rest) => seq![k.bytes@] + key_bytes(*rest),
    }
}

/// The pushes of the keys put the keys on the stack, and an idle state
/// passes over them.
pub proof fn lemma_keys(c: Spend, keys: List<PublicKey>, m: Machine)
    requires
        !m.failed,
    ensures
        key_bytes(keys).len() == keys.seq().len(),
        m.live() ==> run(c, key_tokens(keys), m) == m.on(key_bytes(keys)),
        m.idle() ==> run(c, key_tokens(keys), m) == m,
    decreases keys,
{
    match keys {
        List::Nil => {
            lemma_on_on(m, Seq::empty(), Seq::empty());
        },
        List::Cons(k, rest) => {
            lemma_run1(c, Token::Pubkey(k), m);
            lemma_run_cat(c, seq![Token::Pubkey(k)], key_tokens(*rest), m);
            if m.live() {
                lemma_keys(c, *rest, m.push(k.bytes@));
                lemma_on_on(m, seq![k.bytes@], key_bytes(*rest));
                lemma_on_push(m, Seq::empty(), k.bytes@);
            } else {
                lemma_keys(c, *rest, m);
            }
        },
    }
}

/// `<k> <key>... <n> CHECKMULTISIG` and its verifying form find what they
/// need on the stack, and an idle state passes over the pushes.
pub proof fn lemma_multisig(
    c: Spend,
    k: u32,
    keys: List<PublicKey>,
    sigs: Seq<Seq<u8>>,
    m: Machine,
)
    requires
        !m.failed,
        multisig_wf(k, keys),
        sigs.len() == k,
    ensures
        m.live() ==> run(
            c,
            multisig_tokens(k, keys) + seq![Token::CheckMultiSig],
            m.push(zero()).on(sigs),
        ) == m.push(truth(signs_many(c, key_bytes(keys), sigs))),
        m.live() && signs_many(c, key_bytes(keys), sigs) ==> run(
            c,
            multisig_tokens(k, keys) + seq![Token::CheckMultiSigVerify],
            m.push(zero()).on(sigs),
        ) == m,
        m.idle() ==> run(c, multisig_tokens(k, keys), m) == m,
{
    let n = keys.seq().len();
    let first = seq![Token::Number(k)];
    let last = Token::Number(count_number(n));
    if m.live() {
        let m0 = m.push(zero()).on(sigs);
        let m1 = m0.push(number_bytes(k as nat));
        lemma_run1(c, Token::Number(k), m0);
        lemma_keys(c, keys, m1);
        let m2 = m1.on(key_bytes(keys));
        let m3 = m2.push(number_bytes(n));
        lemma_run_cat(c, first, key_tokens(keys), m0);
        lemma_run_then(c, first + key_tokens(keys), last, m0);
        assert(run(c, multisig_tokens(k, keys), m0) == m3);
        lemma_number(n);
        lemma_number(k as nat);
        let len = m3.stack.len() as int;
        assert(len == m.stack.len() + 3 + k + n);
        assert(m3.at(0) == number_bytes(n));
        assert(m3.at(n + 1) == number_bytes(k as nat));
        assert(m3.at(n + (k as nat) + 2) == zero());
        assert(m3.stack.subrange(len - 1 - n, len - 1) =~= key_bytes(keys));
        assert(m3.stack.subrange(len - 2 - n - k, len - 2 - n) =~= sigs);
        assert(m3.less(n + (k as nat) + 3).stack =~= m.stack);
        assert(check_multisig(c, m3) == Some((m, signs_many(c, key_bytes(keys), sigs))));
        lemma_run_then(c, multisig_tokens(k, keys), Token::CheckMultiSig, m0);
        lemma_run_then(c, multisig_tokens(k, keys), Token::CheckMultiSigVerify, m0);
    } else {
        lemma_run1(c, Token::Number(k), m);
        lemma_keys(c, keys, m);
        lemma_run_cat(c, first, key_tokens(keys), m);
        lemma_run_then(c, first + key_tokens(keys), last, m);
    }
}

/// Two fragments and `BOOLAND` or `BOOLOR` after them.
pub proof fn lemma_joined(
    c: Spend,
    a: Seq<Token>,
    b: Seq<Token>,
    m: Machine,
    below: Seq<Seq<u8>>,
    above: Seq<Seq<u8>>,
    x: Seq<u8>,
    swapped: bool,
    v: Seq<u8>,
)
    requires
        m.live(),
        run(c, a, m.on(below).on(above)) == m.on(below).push(x),
        run(c, b, m.on(below).push(x)) == beside(swapped, m, x, v),
        number_of(x) is Some,
        number_of(v) is Some,
    ensures
        run(c, a + b + seq![Token::BoolAnd], m.on(below + above)) == m.push(
            truth(truthy(x) && truthy(v)),
        ),
        run(c, a + b + seq![Token::BoolOr], m.on(below + above)) == m.push(
            truth(truthy(x) || truthy(v)),
        ),
{
    lemma_truthy_number(x);
    lemma_truthy_number(v);
    lemma_pair(c, swapped, m, x, v);
    lemma_parallel(c, a, b, Token::BoolAnd, m, below, above, x, beside(swapped, m, x, v));
    lemma_parallel(c, a, b, Token::BoolOr, m, below, above, x, beside(swapped, m, x, v));
}

/// A fragment of a threshold and `ADD` after it.
pub proof fn lemma_added(
    c: Spend,
    b: Seq<Token>,
    m: Machine,
    count: nat,
    swapped: bool,
    v: nat,
    before: Machine,
)
    requires
        m.live(),
        count < 0x8000_0000,
        v <= 1,
        run(c, b, before) == beside(swapped, m, number_bytes(count), number_bytes(v)),
    ensures
        run(c, b + seq![Token::Add], before) == m.push(number_bytes(count + v)),
{
    lemma_number(count);
    lemma_number(v);
    lemma_pair(c, swapped, m, number_bytes(count), number_bytes(v));
    lemma_run_then(c, b, Token::Add, before);
}

/// The end of a threshold: the sum is compared with the number asked for.
pub proof fn lemma_threshold(
    c: Spend,
    a: Seq<Token>,
    b: Seq<Token>,
    k: u32,
    m: Machine,
    below: Seq<Seq<u8>>,
    above: Seq<Seq<u8>>,
    first: nat,
    sum: nat,
)
    requires
        m.live(),
        k < 0x8000_0000,
        sum < 0x8000_0000,
        run(c, a, m.on(below).on(above)) == m.on(below).push(number_bytes(first)),
        run(c, b, m.on(below).push(number_bytes(first))) == m.push(number_bytes(sum)),
    ensures
        run(c, a + b + seq![Token::Number(k), Token::Equal], m.on(below + above)) == m.push(
            truth(sum == k),
        ),
        sum == k ==> run(
            c,
            a + b + seq![Token::Number(k), Token::EqualVerify],
            m.on(below + above),
        ) == m,
{
    lemma_number(k as nat);
    lemma_number(sum);
    lemma_on_on(m, below, above);
    let m0 = m.on(below + above);
    let m1 = m.push(number_bytes(sum));
    let m2 = step(c, m1, Token::Number(k));
    assert(m2 == m1.push(number_bytes(k as nat)));
    assert(m2.less(2).stack =~= m.stack);
    lemma_run2(c, Token::Number(k), Token::Equal, m1);
    lemma_run2(c, Token::Number(k), Token::EqualVerify, m1);
    lemma_run_cat(c, a, b, m0);
    lemma_run_cat(c, a + b, seq![Token::Number(k), Token::Equal], m0);
    lemma_run_cat(c, a + b, seq![Token::Number(k), Token::EqualVerify], m0);
}

} // verus!
