//! What holds of every run of the model: how runs compose, how numbers are
//! read back, and what a program does where its branch is not taken.

use vstd::prelude::*;
use crate::machine::{number_of, run, step, truthy, Machine, Spend};
use crate::script::number_bytes;
use crate::stack::{one, zero};
use crate::token::{le_value, Token};

verus! {

/// A program with one more token runs the program and then the token.
pub proof fn lemma_run_push(c: Spend, ts: Seq<Token>, t: Token, m: Machine)
    ensures
        run(c, ts.push(t), m) == step(c, run(c, ts, m), t),
{
    assert(ts.push(t).drop_last() =~= ts);
}

/// Two programs one after the other run one after the other.
pub proof fn lemma_run_cat(c: Spend, a: Seq<Token>, b: Seq<Token>, m: Machine)
    ensures
        run(c, a + b, m) == run(c, b, run(c, a, m)),
    decreases b.len(),
{
    if b.len() == 0 {
        assert(a + b =~= a);
    } else {
        lemma_run_cat(c, a, b.drop_last(), m);
        assert((a + b).drop_last() =~= a + b.drop_last());
    }
}

/// A program followed by one token.
pub proof fn lemma_run_then(c: Spend, a: Seq<Token>, t: Token, m: Machine)
    ensures
        run(c, a + seq![t], m) == step(c, run(c, a, m), t),
{
    assert(a + seq![t] =~= a.push(t));
    lemma_run_push(c, a, t, m);
}

/// The run of a program of one token.
pub proof fn lemma_run1(c: Spend, a: Token, m: Machine)
    ensures
        run(c, seq![a], m) == step(c, m, a),
{
    assert(seq![a].drop_last() =~= Seq::<Token>::empty());
    assert(run(c, Seq::<Token>::empty(), m) == m);
}

/// The run of a program of two tokens.
pub proof fn lemma_run2(c: Spend, a: Token, b: Token, m: Machine)
    ensures
        run(c, seq![a, b], m) == step(c, step(c, m, a), b),
{
    lemma_run1(c, a, m);
    assert(seq![a, b].drop_last() =~= seq![a]);
}

/// The run of a program of three tokens.
pub proof fn lemma_run3(c: Spend, a: Token, b: Token, d: Token, m: Machine)
    ensures
        run(c, seq![a, b, d], m) == step(c, step(c, step(c, m, a), b), d),
{
    lemma_run2(c, a, b, m);
    assert(seq![a, b, d].drop_last() =~= seq![a, b]);
}

/// The run of a program of four tokens.
pub proof fn lemma_run4(c: Spend, a: Token, b: Token, d: Token, e: Token, m: Machine)
    ensures
        run(c, seq![a, b, d, e], m) == step(c, step(c, step(c, step(c, m, a), b), d), e),
{
    lemma_run3(c, a, b, d, m);
    assert(seq![a, b, d, e].drop_last() =~= seq![a, b, d]);
}

/// The run of a program of five tokens.
pub proof fn lemma_run5(c: Spend, a: Token, b: Token, d: Token, e: Token, f: Token, m: Machine)
    ensures
        run(c, seq![a, b, d, e, f], m) == step(
            c,
            step(c, step(c, step(c, step(c, m, a), b), d), e),
            f,
        ),
{
    lemma_run4(c, a, b, d, e, m);
    assert(seq![a, b, d, e, f].drop_last() =~= seq![a, b, d, e]);
}

/// The run of a program of six tokens.
pub proof fn lemma_run6(
    c: Spend,
    a: Token,
    b: Token,
    d: Token,
    e: Token,
    f: Token,
    g: Token,
    m: Machine,
)
    ensures
        run(c, seq![a, b, d, e, f, g], m) == step(
            c,
            step(c, step(c, step(c, step(c, step(c, m, a), b), d), e), f),
            g,
        ),
{
    lemma_run5(c, a, b, d, e, f, m);
    assert(seq![a, b, d, e, f, g].drop_last() =~= seq![a, b, d, e, f]);
}

/// A number below 2^31 is read back from its encoding.
pub proof fn lemma_number(n: nat)
    requires
        n < 0x8000_0000,
    ensures
        number_of(number_bytes(n)) == Some(n),
        number_bytes(n).len() <= 4,
{
    reveal_with_fuel(number_bytes, 5);
}

/// The two truth values are the numbers 1 and 0.
pub proof fn lemma_truths()
    ensures
        one() == number_bytes(1),
        zero() == number_bytes(0),
        number_of(one()) == Some(1nat),
        number_of(zero()) == Some(0nat),
        truthy(one()),
        !truthy(zero()),
{
    reveal_with_fuel(number_bytes, 2);
    assert(one() =~= number_bytes(1));
    assert(zero() =~= number_bytes(0));
    assert(one()[0] != 0);
}

/// An element that spells a number reads as true where the number is not
/// zero.
pub proof fn lemma_truthy_number(b: Seq<u8>)
    requires
        number_of(b) is Some,
    ensures
        truthy(b) == (number_of(b) != Some(0nat)),
{
    if le_value(b) != 0 {
        if b.len() > 0 && b[0] != 0 {
            assert(truthy(b));
        } else if b.len() > 1 && b[1] != 0 {
            assert(truthy(b));
        } else if b.len() > 2 && b[2] != 0 {
            assert(truthy(b));
        } else {
            assert(b.len() > 3 && b[3] != 0);
            assert(truthy(b));
        }
    }
}

/// A state that is live stays live where a branch is taken, and is idle
/// where one is not.
pub proof fn lemma_live(m: Machine)
    requires
        m.live(),
    ensures
        m.with_taken(m.taken.push(true)).live(),
        m.with_taken(m.taken.push(false)).idle(),
{
    let r = m.with_taken(m.taken.push(false));
    assert(!r.taken[m.taken.len() as int]);
}

/// A state that is idle stays idle whatever branch opens in it.
pub proof fn lemma_idle(m: Machine, b: bool)
    requires
        m.idle(),
    ensures
        m.with_taken(m.taken.push(b)).idle(),
{
    let i = choose|i: int| 0 <= i < m.taken.len() && !m.taken[i];
    let r = m.with_taken(m.taken.push(b));
    assert(!r.taken[i]);
}

} // verus!
