//! What the decoder's answers have in common: a tree that it returns is
//! well formed and spells exactly the tokens it was read from. The codec is
//! therefore bit-exact, and decoding what was encoded gives the tree back.

use vstd::prelude::*;
use crate::astelem::{
    hash_tokens, key_tokens, multisig_tokens, multisig_wf, threshold_wf, time_wf, ws_tokens, ws_wf,
    E, T, W,
};
use crate::decode::{
    decode_tokens, expect, expect_delay, expect_hash, expect_key, expect_number, expect_time,
    opens_branch, parse_e, parse_keys, parse_multisig, parse_t, parse_t_endif, parse_t_unit,
    parse_threshold, parse_v, parse_v_branches, parse_v_unit, parse_w, parse_ws, t_to_e,
    MAX_DEPTH,
};
use crate::key::PublicKey;
use crate::list::List;
use crate::token::Token;

verus! {

/// `toks` are the tokens of `ts` from `p` up to `end`.
#[verifier::opaque]
pub open spec fn spells(ts: Seq<Token>, toks: Seq<Token>, p: int, end: int) -> bool {
    0 <= p <= end <= ts.len() && toks == ts.subrange(p, end)
}

proof fn lemma_lit(ts: Seq<Token>, lit: Seq<Token>, i: int)
    requires
        0 <= i,
        i + lit.len() <= ts.len(),
        forall|j: int| 0 <= j < lit.len() ==> ts[i + j] == lit[j],
    ensures
        spells(ts, lit, i, i + lit.len()),
{
    reveal(spells);
    assert(lit =~= ts.subrange(i, i + lit.len()));
}

proof fn lemma_lit1(ts: Seq<Token>, i: int, a: Token)
    requires
        0 <= i < ts.len(),
        ts[i] == a,
    ensures
        spells(ts, seq![a], i, i + 1),
{
    lemma_lit(ts, seq![a], i);
}

proof fn lemma_lit2(ts: Seq<Token>, i: int, a: Token, b: Token)
    requires
        0 <= i,
        i + 2 <= ts.len(),
        ts[i] == a,
        ts[i + 1] == b,
    ensures
        spells(ts, seq![a, b], i, i + 2),
{
    lemma_lit(ts, seq![a, b], i);
}

proof fn lemma_lit3(ts: Seq<Token>, i: int, a: Token, b: Token, c: Token)
    requires
        0 <= i,
        i + 3 <= ts.len(),
        ts[i] == a,
        ts[i + 1] == b,
        ts[i + 2] == c,
    ensures
        spells(ts, seq![a, b, c], i, i + 3),
{
    lemma_lit(ts, seq![a, b, c], i);
}

proof fn lemma_lit4(ts: Seq<Token>, i: int, a: Token, b: Token, c: Token, d: Token)
    requires
        0 <= i,
        i + 4 <= ts.len(),
        ts[i] == a,
        ts[i + 1] == b,
        ts[i + 2] == c,
        ts[i + 3] == d,
    ensures
        spells(ts, seq![a, b, c, d], i, i + 4),
{
    lemma_lit(ts, seq![a, b, c, d], i);
}

proof fn lemma_delay(ts: Seq<Token>, i: int, n: u32)
    requires
        0 <= i,
        i + 6 <= ts.len(),
        ts[i] == Token::Dup,
        ts[i + 1] == Token::If,
        ts[i + 2] == Token::Number(n),
        ts[i + 3] == Token::CheckSequenceVerify,
        ts[i + 4] == Token::Drop,
        ts[i + 5] == Token::EndIf,
    ensures
        spells(ts, E::<PublicKey>::Time(n).tokens(), i, i + 6),
        i > 0 && ts[i - 1] == Token::Swap ==> spells(
            ts,
            W::<PublicKey>::Time(n).tokens(),
            i - 1,
            i + 6,
        ),
{
    lemma_lit(ts, E::<PublicKey>::Time(n).tokens(), i);
    if i > 0 && ts[i - 1] == Token::Swap {
        lemma_lit(ts, W::<PublicKey>::Time(n).tokens(), i - 1);
    }
}

proof fn lemma_wrap(
    ts: Seq<Token>,
    head: Seq<Token>,
    x: Seq<Token>,
    tail: Seq<Token>,
    a: int,
    b: int,
    c: int,
    d: int,
)
    requires
        spells(ts, head, a, b),
        spells(ts, x, b, c),
        spells(ts, tail, c, d),
    ensures
        spells(ts, head + x + tail, a, d),
{
    lemma_cat(ts, head, x, a, b, c);
    lemma_cat(ts, head + x, tail, a, c, d);
}

proof fn lemma_wrap2(
    ts: Seq<Token>,
    e: Seq<Token>,
    mid: Seq<Token>,
    r: Seq<Token>,
    tail: Seq<Token>,
    a: int,
    b: int,
    c: int,
    d: int,
    end: int,
)
    requires
        spells(ts, e, a, b),
        spells(ts, mid, b, c),
        spells(ts, r, c, d),
        spells(ts, tail, d, end),
    ensures
        spells(ts, e + mid + r + tail, a, end),
{
    lemma_cat(ts, e, mid, a, b, c);
    lemma_cat(ts, e + mid, r, a, c, d);
    lemma_cat(ts, e + mid + r, tail, a, d, end);
}

proof fn lemma_cat(ts: Seq<Token>, a: Seq<Token>, b: Seq<Token>, p: int, q: int, end: int)
    requires
        spells(ts, a, p, q),
        spells(ts, b, q, end),
    ensures
        spells(ts, a + b, p, end),
{
    reveal(spells);
    assert(a + b =~= ts.subrange(p, end));
}

proof fn lemma_push(ts: Seq<Token>, a: Seq<Token>, p: int, i: int, t: Token)
    requires
        spells(ts, a, p, i),
        i < ts.len(),
        ts[i] == t,
    ensures
        spells(ts, a + seq![t], p, i + 1),
{
    reveal(spells);
    assert(a + seq![t] =~= ts.subrange(p, i + 1));
}

proof fn lemma_branches(
    ts: Seq<Token>,
    l: Seq<Token>,
    r: Seq<Token>,
    u: int,
    s: int,
    p: int,
)
    requires
        0 <= u,
        u < ts.len(),
        ts[u] == Token::If,
        spells(ts, l, u + 1, s),
        s < ts.len(),
        ts[s] == Token::Else,
        spells(ts, r, s + 1, p),
    ensures
        spells(ts, seq![Token::If] + l + seq![Token::Else] + r, u, p),
{
    lemma_lit(ts, seq![Token::If], u);
    lemma_cat(ts, seq![Token::If], l, u, u + 1, s);
    lemma_push(ts, seq![Token::If] + l, u, s, Token::Else);
    lemma_cat(ts, seq![Token::If] + l + seq![Token::Else], r, u, s + 1, p);
}

proof fn lemma_expect_hash(ts: Seq<Token>, p: int)
    requires
        0 <= p <= ts.len(),
    ensures
        expect_hash(ts, p) matches Ok((h, q)) ==> spells(ts, hash_tokens(h), q, p) && q + 4 == p
            && 0 <= q,
{
    if let Ok((h, q)) = expect_hash(ts, p) {
        lemma_lit(ts, hash_tokens(h), q);
    }
}

proof fn lemma_expect_delay(ts: Seq<Token>, p: int)
    requires
        0 <= p <= ts.len(),
    ensures
        expect_delay(ts, p) matches Ok((n, q)) ==> q + 5 == p && q >= 0 && time_wf(n) && ts[q]
            == Token::Dup && ts[q + 1] == Token::If && ts[q + 2] == Token::Number(n) && ts[q
            + 3] == Token::CheckSequenceVerify && ts[q + 4] == Token::Drop,
{
}

proof fn lemma_parse_keys(ts: Seq<Token>, p: int, n: nat, acc: List<PublicKey>)
    requires
        0 <= p <= ts.len(),
    ensures
        parse_keys(ts, p, n, acc) matches Ok((keys, q)) ==> 0 <= q <= p && key_tokens(keys)
            =~= ts.subrange(q, p) + key_tokens(acc) && keys.seq().len() == n + acc.seq().len(),
    decreases n,
{
    if n > 0 {
        if let Ok((k, q)) = expect_key(ts, p) {
            let next = List::Cons(k, Box::new(acc));
            lemma_parse_keys(ts, q, (n - 1) as nat, next);
            assert(
                parse_keys(ts, q, (n - 1) as nat, next) is Ok
                    || parse_keys(ts, q, (n - 1) as nat, next) is Err
            );
            if let Ok((keys, r)) = parse_keys(ts, q, (n - 1) as nat, next) {
                assert(key_tokens(next) =~= seq![Token::Pubkey(k)] + key_tokens(acc));
                assert(ts.subrange(r, p) =~= ts.subrange(r, q) + seq![Token::Pubkey(k)]);
                assert(next.seq().len() == acc.seq().len() + 1);
            }
        }
    }
}

proof fn lemma_parse_multisig(ts: Seq<Token>, p: int)
    requires
        0 <= p <= ts.len(),
    ensures
        parse_multisig(ts, p) matches Ok((k, keys, s)) ==> spells(
            ts,
            multisig_tokens(k, keys),
            s,
            p,
        ) && multisig_wf(k, keys) && 0 <= s < p,
{
    reveal(spells);
    if let Ok((n, q)) = expect_number(ts, p) {
        if n <= 20 {
            lemma_parse_keys(ts, q, n as nat, List::Nil);
            assert(
                parse_keys(ts, q, n as nat, List::Nil) is Ok
                    || parse_keys(ts, q, n as nat, List::Nil) is Err
            );
            if let Ok((keys, r)) = parse_keys(ts, q, n as nat, List::Nil) {
                if let Ok((k, s)) = expect_number(ts, r) {
                    assert(keys.seq().len() == n);
                    assert(key_tokens(List::<PublicKey>::Nil) =~= Seq::empty());
                    assert(multisig_tokens(k, keys) =~= ts.subrange(s, p));
                }
            }
        }
    }
}

/// The `E` made of a `T` has its tokens and keeps its bounds.
pub proof fn lemma_t_to_e(t: T<PublicKey>)
    ensures
        t_to_e(t) matches Some(e) ==> e.tokens() == t.tokens() && (t.wf() ==> e.wf()),
    decreases t,
{
    match t {
        T::SwitchOr(l, r) => {
            lemma_t_to_e(*l);
            lemma_t_to_e(*r);
        },
        _ => {},
    }
}

proof fn lemma_parse_ws(ts: Seq<Token>, p: int, fuel: nat, acc: List<W<PublicKey>>)
    requires
        0 <= p <= ts.len(),
    ensures
        parse_ws(ts, p, fuel, acc) matches Ok((ws, q)) ==> 0 <= q <= p && ws_tokens(ws)
            =~= ts.subrange(q, p) + ws_tokens(acc) && (ws_wf(acc) ==> ws_wf(ws)),
    decreases fuel, 0nat,
{
    reveal(spells);
    if p > 0 && ts[p - 1] == Token::Add && fuel > 0 {
        lemma_parse_w(ts, p - 1, (fuel - 1) as nat);
        assert(
            parse_w(ts, p - 1, (fuel - 1) as nat) is Ok
                || parse_w(ts, p - 1, (fuel - 1) as nat) is Err
        );
        if let Ok((w, q)) = parse_w(ts, p - 1, (fuel - 1) as nat) {
            let next = List::Cons(w, Box::new(acc));
            lemma_parse_ws(ts, q, (fuel - 1) as nat, next);
            assert(
                parse_ws(ts, q, (fuel - 1) as nat, next) is Ok
                    || parse_ws(ts, q, (fuel - 1) as nat, next) is Err
            );
            if let Ok((ws, r)) = parse_ws(ts, q, (fuel - 1) as nat, next) {
                assert(ws_tokens(next) =~= w.tokens() + seq![Token::Add] + ws_tokens(acc));
                assert(ts.subrange(r, p) =~= ts.subrange(r, q) + w.tokens() + seq![Token::Add]);
            }
        }
    } else {
        assert(ts.subrange(p, p) =~= Seq::empty());
    }
}

proof fn lemma_parse_threshold(ts: Seq<Token>, p: int, fuel: nat)
    requires
        0 <= p <= ts.len(),
    ensures
        parse_threshold(ts, p, fuel) matches Ok((k, e, ws, s)) ==> spells(
            ts,
            e.tokens() + ws_tokens(ws),
            s,
            p - 1,
        ) && ts[p - 1] == Token::Number(k) && threshold_wf(k, ws) && e.wf() && ws_wf(ws) && 0
            <= s < p - 1,
    decreases fuel, 1nat,
{
    if let Ok((k, q)) = expect_number(ts, p) {
        lemma_parse_ws(ts, q, fuel, List::Nil);
        assert(parse_ws(ts, q, fuel, List::Nil) is Ok || parse_ws(ts, q, fuel, List::Nil) is Err);
        if let Ok((ws, r)) = parse_ws(ts, q, fuel, List::Nil) {
            lemma_parse_e(ts, r, fuel);
            assert(parse_e(ts, r, fuel) is Ok || parse_e(ts, r, fuel) is Err);
            if let Ok((e, s)) = parse_e(ts, r, fuel) {
                assert(ws_tokens(List::<W<PublicKey>>::Nil) =~= Seq::empty());
                assert(spells(ts, ws_tokens(ws), r, q)) by {
                    reveal(spells);
                }
                lemma_cat(ts, e.tokens(), ws_tokens(ws), s, r, q);
            }
        }
    }
}

proof fn lemma_parse_e(ts: Seq<Token>, end: int, fuel: nat)
    requires
        0 <= end <= ts.len(),
    ensures
        parse_e(ts, end, fuel) matches Ok((e, p)) ==> spells(ts, e.tokens(), p, end) && e.wf()
            && 0 <= p < end,
    decreases fuel, 0nat,
{
    if fuel > 0 {
        lemma_parse_t_unit(ts, end, (fuel - 1) as nat);
        assert(
            parse_t_unit(ts, end, (fuel - 1) as nat) is Ok
                || parse_t_unit(ts, end, (fuel - 1) as nat) is Err
        );
        if let Ok((t, p)) = parse_t_unit(ts, end, (fuel - 1) as nat) {
            lemma_t_to_e(t);
        }
    }
}

proof fn lemma_parse_w(ts: Seq<Token>, end: int, fuel: nat)
    requires
        0 <= end <= ts.len(),
    ensures
        parse_w(ts, end, fuel) matches Ok((w, p)) ==> spells(ts, w.tokens(), p, end) && w.wf()
            && 0 <= p < end,
    decreases fuel, 0nat,
{
    if fuel > 0 && end > 0 {
        match ts[end - 1] {
            Token::CheckSig => {
                if let Ok((k, p)) = expect_key(ts, end - 1) {
                    if let Ok(q) = expect(ts, p, Token::Swap) {
                        lemma_lit3(ts, q, Token::Swap, Token::Pubkey(k), Token::CheckSig);
                    }
                }
            },
            Token::FromAltStack => {
                lemma_parse_e(ts, end - 1, (fuel - 1) as nat);
                assert(
                    parse_e(ts, end - 1, (fuel - 1) as nat) is Ok
                        || parse_e(ts, end - 1, (fuel - 1) as nat) is Err
                );
                if let Ok((e, p)) = parse_e(ts, end - 1, (fuel - 1) as nat) {
                    if let Ok(v) = expect(ts, p, Token::ToAltStack) {
                        lemma_lit1(ts, v, Token::ToAltStack);
                        lemma_lit1(ts, end - 1, Token::FromAltStack);
                        lemma_wrap(
                            ts,
                            seq![Token::ToAltStack],
                            e.tokens(),
                            seq![Token::FromAltStack],
                            v,
                            p,
                            end - 1,
                            end,
                        );
                    }
                }
            },
            Token::EndIf => {
                if end >= 2 && ts[end - 2] == Token::Drop {
                    lemma_expect_delay(ts, end - 1);
                    if let Ok((n, p)) = expect_delay(ts, end - 1) {
                        if let Ok(q) = expect(ts, p, Token::Swap) {
                            lemma_delay(ts, p, n);
                        }
                    }
                } else {
                    if let Ok(p) = expect(ts, end - 1, Token::Number(1)) {
                        if let Ok(q) = expect(ts, p, Token::EqualVerify) {
                            lemma_expect_hash(ts, q);
                            if let Ok((h, r)) = expect_hash(ts, q) {
                                if parse_w(ts, end, fuel) is Ok {
                                    let v = r - 4;
                                    lemma_lit4(
                                        ts,
                                        v,
                                        Token::Swap,
                                        Token::Size,
                                        Token::ZeroNotEqual,
                                        Token::If,
                                    );
                                    lemma_lit3(
                                        ts,
                                        end - 3,
                                        Token::EqualVerify,
                                        Token::Number(1),
                                        Token::EndIf,
                                    );
                                    lemma_wrap(
                                        ts,
                                        seq![
                                            Token::Swap,
                                            Token::Size,
                                            Token::ZeroNotEqual,
                                            Token::If,
                                        ],
                                        hash_tokens(h),
                                        seq![Token::EqualVerify, Token::Number(1), Token::EndIf],
                                        v,
                                        v + 4,
                                        end - 3,
                                        end,
                                    );
                                }
                            }
                        }
                    }
                }
            },
            _ => {},
        }
    }
}

proof fn lemma_parse_v_branches(ts: Seq<Token>, p: int, fuel: nat)
    requires
        0 <= p <= ts.len(),
    ensures
        parse_v_branches(ts, p, fuel) matches Ok((l, r, q)) ==> spells(
            ts,
            seq![Token::If] + l.tokens() + seq![Token::Else] + r.tokens(),
            q,
            p,
        ) && l.wf() && r.wf() && 0 <= q < p,
    decreases fuel, 0nat,
{
    if fuel > 0 {
        lemma_parse_v(ts, p, (fuel - 1) as nat);
        assert(parse_v(ts, p, (fuel - 1) as nat) is Ok || parse_v(ts, p, (fuel - 1) as nat) is Err);
        if let Ok((r, q)) = parse_v(ts, p, (fuel - 1) as nat) {
            if let Ok(s) = expect(ts, q, Token::Else) {
                lemma_parse_v(ts, s, (fuel - 1) as nat);
                assert(
                    parse_v(ts, s, (fuel - 1) as nat) is Ok
                        || parse_v(ts, s, (fuel - 1) as nat) is Err
                );
                if let Ok((l, t)) = parse_v(ts, s, (fuel - 1) as nat) {
                    if let Ok(u) = expect(ts, t, Token::If) {
                        lemma_branches(ts, l.tokens(), r.tokens(), u, s, p);
                    }
                }
            }
        }
    }
}

proof fn lemma_v_threshold(ts: Seq<Token>, end: int, fuel: nat)
    requires
        0 < end <= ts.len(),
        ts[end - 1] == Token::EqualVerify || ts[end - 1] == Token::Equal,
    ensures
        parse_threshold(ts, end - 1, fuel) matches Ok((k, e, ws, p)) ==> spells(
            ts,
            e.tokens() + ws_tokens(ws) + seq![Token::Number(k), ts[end - 1]],
            p,
            end,
        ) && threshold_wf(k, ws) && e.wf() && ws_wf(ws) && 0 <= p < end,
    decreases fuel, 2nat,
{
    lemma_parse_threshold(ts, end - 1, fuel);
    assert(parse_threshold(ts, end - 1, fuel) is Ok || parse_threshold(ts, end - 1, fuel) is Err);
    if let Ok((k, e, ws, p)) = parse_threshold(ts, end - 1, fuel) {
        lemma_lit2(ts, end - 2, Token::Number(k), ts[end - 1]);
        lemma_cat(
            ts,
            e.tokens() + ws_tokens(ws),
            seq![Token::Number(k), ts[end - 1]],
            p,
            end - 2,
            end,
        );
    }
}

proof fn lemma_v_endif(ts: Seq<Token>, end: int, fuel: nat)
    requires
        0 < end <= ts.len(),
        fuel > 0,
        ts[end - 1] == Token::EndIf,
    ensures
        parse_v_unit(ts, end, fuel) matches Ok((v, p)) ==> spells(ts, v.tokens(), p, end)
            && v.wf() && 0 <= p < end,
    decreases fuel, 1nat,
{
    lemma_parse_v(ts, end - 1, (fuel - 1) as nat);
    assert(
        parse_v(ts, end - 1, (fuel - 1) as nat) is Ok
            || parse_v(ts, end - 1, (fuel - 1) as nat) is Err
    );
    if let Ok((r, p)) = parse_v(ts, end - 1, (fuel - 1) as nat) {
        if p > 0 {
            lemma_lit1(ts, end - 1, Token::EndIf);
            if ts[p - 1] == Token::NotIf {
                lemma_parse_e(ts, p - 1, (fuel - 1) as nat);
                assert(
                    parse_e(ts, p - 1, (fuel - 1) as nat) is Ok
                        || parse_e(ts, p - 1, (fuel - 1) as nat) is Err
                );
                if let Ok((e, q)) = parse_e(ts, p - 1, (fuel - 1) as nat) {
                    lemma_lit1(ts, p - 1, Token::NotIf);
                    lemma_wrap2(
                        ts,
                        e.tokens(),
                        seq![Token::NotIf],
                        r.tokens(),
                        seq![Token::EndIf],
                        q,
                        p - 1,
                        p,
                        end - 1,
                        end,
                    );
                }
            } else if ts[p - 1] == Token::Else {
                lemma_parse_v(ts, p - 1, (fuel - 1) as nat);
                assert(
                    parse_v(ts, p - 1, (fuel - 1) as nat) is Ok
                        || parse_v(ts, p - 1, (fuel - 1) as nat) is Err
                );
                if let Ok((l, q)) = parse_v(ts, p - 1, (fuel - 1) as nat) {
                    if let Ok(s) = expect(ts, q, Token::If) {
                        lemma_branches(ts, l.tokens(), r.tokens(), s, p - 1, end - 1);
                        lemma_cat(
                            ts,
                            seq![Token::If] + l.tokens() + seq![Token::Else] + r.tokens(),
                            seq![Token::EndIf],
                            s,
                            end - 1,
                            end,
                        );
                    }
                }
            }
        }
    }
}

proof fn lemma_v_verify(ts: Seq<Token>, end: int, fuel: nat)
    requires
        0 < end <= ts.len(),
        fuel > 0,
        ts[end - 1] == Token::Verify,
    ensures
        parse_v_unit(ts, end, fuel) matches Ok((v, p)) ==> spells(ts, v.tokens(), p, end)
            && v.wf() && 0 <= p < end,
    decreases fuel, 1nat,
{
    if let Ok(p) = expect(ts, end - 1, Token::EndIf) {
        lemma_parse_t(ts, p, (fuel - 1) as nat);
        assert(parse_t(ts, p, (fuel - 1) as nat) is Ok || parse_t(ts, p, (fuel - 1) as nat) is Err);
        if let Ok((r, q)) = parse_t(ts, p, (fuel - 1) as nat) {
            if let Ok(s) = expect(ts, q, Token::Else) {
                lemma_parse_t(ts, s, (fuel - 1) as nat);
                assert(
                    parse_t(ts, s, (fuel - 1) as nat) is Ok
                        || parse_t(ts, s, (fuel - 1) as nat) is Err
                );
                if let Ok((l, t)) = parse_t(ts, s, (fuel - 1) as nat) {
                    if let Ok(u) = expect(ts, t, Token::If) {
                        lemma_branches(ts, l.tokens(), r.tokens(), u, s, p);
                        lemma_lit2(ts, p, Token::EndIf, Token::Verify);
                        lemma_cat(
                            ts,
                            seq![Token::If] + l.tokens() + seq![Token::Else] + r.tokens(),
                            seq![Token::EndIf, Token::Verify],
                            u,
                            p,
                            end,
                        );
                    }
                }
            }
        }
    }
}

proof fn lemma_parse_v_unit(ts: Seq<Token>, end: int, fuel: nat)
    requires
        0 <= end <= ts.len(),
    ensures
        parse_v_unit(ts, end, fuel) matches Ok((v, p)) ==> spells(ts, v.tokens(), p, end)
            && v.wf() && 0 <= p < end,
    decreases fuel, 2nat,
{
    if fuel > 0 && end > 0 {
        match ts[end - 1] {
            Token::CheckSigVerify => {
                if let Ok((k, p)) = expect_key(ts, end - 1) {
                    lemma_lit2(ts, p, Token::Pubkey(k), Token::CheckSigVerify);
                }
            },
            Token::CheckMultiSigVerify => {
                lemma_parse_multisig(ts, end - 1);
                assert(parse_multisig(ts, end - 1) is Ok || parse_multisig(ts, end - 1) is Err);
                if let Ok((k, keys, p)) = parse_multisig(ts, end - 1) {
                    lemma_push(
                        ts,
                        multisig_tokens(k, keys),
                        p,
                        end - 1,
                        Token::CheckMultiSigVerify,
                    );
                }
            },
            Token::Drop => {
                if let Ok(p) = expect(ts, end - 1, Token::CheckSequenceVerify) {
                    if let Ok((n, q)) = expect_time(ts, p) {
                        lemma_lit3(
                            ts,
                            q,
                            Token::Number(n),
                            Token::CheckSequenceVerify,
                            Token::Drop,
                        );
                    }
                }
            },
            Token::EqualVerify => {
                if end >= 2 && ts[end - 2] is Hash256 {
                    lemma_expect_hash(ts, end - 1);
                    if let Ok((h, p)) = expect_hash(ts, end - 1) {
                        lemma_push(ts, hash_tokens(h), p, end - 1, Token::EqualVerify);
                    }
                } else {
                    lemma_v_threshold(ts, end, (fuel - 1) as nat);
                }
            },
            Token::EndIf => {
                lemma_v_endif(ts, end, fuel);
            },
            Token::Verify => {
                lemma_v_verify(ts, end, fuel);
            },
            _ => {},
        }
    }
}

proof fn lemma_parse_v(ts: Seq<Token>, end: int, fuel: nat)
    requires
        0 <= end <= ts.len(),
    ensures
        parse_v(ts, end, fuel) matches Ok((v, p)) ==> spells(ts, v.tokens(), p, end) && v.wf()
            && 0 <= p < end,
    decreases fuel, 3nat,
{
    if fuel > 0 {
        lemma_parse_v_unit(ts, end, fuel);
        assert(parse_v_unit(ts, end, fuel) is Ok || parse_v_unit(ts, end, fuel) is Err);
        if let Ok((v, p)) = parse_v_unit(ts, end, fuel) {
            if !(p <= 0 || opens_branch(ts[p - 1])) {
                lemma_parse_v(ts, p, (fuel - 1) as nat);
                assert(
                    parse_v(ts, p, (fuel - 1) as nat) is Ok
                        || parse_v(ts, p, (fuel - 1) as nat) is Err
                );
                if let Ok((l, q)) = parse_v(ts, p, (fuel - 1) as nat) {
                    lemma_cat(ts, l.tokens(), v.tokens(), q, p, end);
                }
            }
        }
    }
}

proof fn lemma_cast(e: E<PublicKey>)
    ensures
        T::CastE(Box::new(e)).tokens() == e.tokens(),
        T::CastE(Box::new(e)).wf() == e.wf(),
{
}

proof fn lemma_t_unlikely(ts: Seq<Token>, end: int, fuel: nat)
    requires
        2 <= end <= ts.len(),
        fuel > 0,
        ts[end - 1] == Token::EndIf,
        ts[end - 2] == Token::Number(0),
    ensures
        parse_t_endif(ts, end, fuel) matches Ok((t, p)) ==> spells(ts, t.tokens(), p, end)
            && t.wf() && 0 <= p < end,
    decreases fuel, 0nat,
{
    if let Ok(p) = expect(ts, end - 2, Token::Else) {
        lemma_parse_t(ts, p, (fuel - 1) as nat);
        assert(parse_t(ts, p, (fuel - 1) as nat) is Ok || parse_t(ts, p, (fuel - 1) as nat)
            is Err);
        if let Ok((x, q)) = parse_t(ts, p, (fuel - 1) as nat) {
            if let Ok(start) = expect(ts, q, Token::If) {
                lemma_lit1(ts, start, Token::If);
                lemma_lit3(ts, p, Token::Else, Token::Number(0), Token::EndIf);
                lemma_wrap(
                    ts,
                    seq![Token::If],
                    x.tokens(),
                    seq![Token::Else, Token::Number(0), Token::EndIf],
                    start,
                    q,
                    p,
                    end,
                );
                let e = E::Unlikely(Box::new(x));
                lemma_cast(e);
                assert(e.wf());
                assert(e.tokens() == seq![Token::If] + x.tokens() + seq![
                    Token::Else,
                    Token::Number(0),
                    Token::EndIf,
                ]);
            }
        }
    }
}

proof fn lemma_t_notif(
    ts: Seq<Token>,
    end: int,
    fuel: nat,
    r: T<PublicKey>,
    p: int,
)
    requires
        2 <= p < end <= ts.len(),
        ts[end - 1] == Token::EndIf,
        ts[p - 1] == Token::NotIf,
        ts[p - 2] == Token::IfDup,
        spells(ts, r.tokens(), p, end - 1),
        r.wf(),
    ensures
        parse_e(ts, p - 2, fuel) matches Ok((e, s)) ==> ({
            let t = T::CascadeOr(Box::new(e), Box::new(r));
            spells(ts, t.tokens(), s, end) && t.wf() && 0 <= s < end
        }),
    decreases fuel, 1nat,
{
    let q = p - 2;
    lemma_parse_e(ts, q, fuel);
    assert(parse_e(ts, q, fuel) is Ok || parse_e(ts, q, fuel) is Err);
    if let Ok((e, s)) = parse_e(ts, q, fuel) {
        lemma_lit1(ts, end - 1, Token::EndIf);
        lemma_lit2(ts, q, Token::IfDup, Token::NotIf);
        lemma_wrap2(
            ts,
            e.tokens(),
            seq![Token::IfDup, Token::NotIf],
            r.tokens(),
            seq![Token::EndIf],
            s,
            q,
            p,
            end - 1,
            end,
        );
    }
}

proof fn lemma_t_cascade_and(
    ts: Seq<Token>,
    end: int,
    fuel: nat,
    r: T<PublicKey>,
    p: int,
)
    requires
        3 <= p < end <= ts.len(),
        ts[end - 1] == Token::EndIf,
        ts[p - 1] == Token::Else,
        ts[p - 2] == Token::Number(0),
        ts[p - 3] == Token::NotIf,
        spells(ts, r.tokens(), p, end - 1),
        r.wf(),
    ensures
        parse_e(ts, p - 3, fuel) matches Ok((e, s)) ==> ({
            let t = T::CastE(Box::new(E::CascadeAnd(Box::new(e), Box::new(r))));
            spells(ts, t.tokens(), s, end) && t.wf() && 0 <= s < end
        }),
    decreases fuel, 1nat,
{
    lemma_parse_e(ts, p - 3, fuel);
    assert(parse_e(ts, p - 3, fuel) is Ok || parse_e(ts, p - 3, fuel) is Err);
    if let Ok((e, s)) = parse_e(ts, p - 3, fuel) {
        lemma_lit1(ts, end - 1, Token::EndIf);
        lemma_lit3(ts, p - 3, Token::NotIf, Token::Number(0), Token::Else);
        lemma_wrap2(
            ts,
            e.tokens(),
            seq![Token::NotIf, Token::Number(0), Token::Else],
            r.tokens(),
            seq![Token::EndIf],
            s,
            p - 3,
            p,
            end - 1,
            end,
        );
        let x = E::CascadeAnd(Box::new(e), Box::new(r));
        lemma_cast(x);
        assert(x.wf());
        assert(x.tokens() == e.tokens() + seq![Token::NotIf, Token::Number(0), Token::Else]
            + r.tokens() + seq![Token::EndIf]);
    }
}

proof fn lemma_t_likely(ts: Seq<Token>, end: int, r: T<PublicKey>, p: int)
    requires
        3 <= p < end <= ts.len(),
        ts[end - 1] == Token::EndIf,
        ts[p - 1] == Token::Else,
        ts[p - 2] == Token::Number(0),
        ts[p - 3] == Token::If,
        spells(ts, r.tokens(), p, end - 1),
        r.wf(),
    ensures
        ({
            let t = T::CastE(Box::new(E::Likely(Box::new(r))));
            spells(ts, t.tokens(), p - 3, end) && t.wf()
        }),
{
    lemma_lit1(ts, end - 1, Token::EndIf);
    lemma_lit3(ts, p - 3, Token::If, Token::Number(0), Token::Else);
    lemma_wrap(
        ts,
        seq![Token::If, Token::Number(0), Token::Else],
        r.tokens(),
        seq![Token::EndIf],
        p - 3,
        p,
        end - 1,
        end,
    );
    let x = E::Likely(Box::new(r));
    lemma_cast(x);
    assert(x.wf());
    assert(x.tokens() == seq![Token::If, Token::Number(0), Token::Else] + r.tokens() + seq![
        Token::EndIf,
    ]);
}

proof fn lemma_t_switch(
    ts: Seq<Token>,
    end: int,
    fuel: nat,
    r: T<PublicKey>,
    p: int,
)
    requires
        1 <= p < end <= ts.len(),
        ts[end - 1] == Token::EndIf,
        ts[p - 1] == Token::Else,
        spells(ts, r.tokens(), p, end - 1),
        r.wf(),
    ensures
        (parse_t(ts, p - 1, fuel) matches Ok((l, q)) && expect(ts, q, Token::If) is Ok) ==> ({
            let (l, q) = parse_t(ts, p - 1, fuel)->Ok_0;
            let t = T::SwitchOr(Box::new(l), Box::new(r));
            spells(ts, t.tokens(), q - 1, end) && t.wf() && 0 <= q - 1 < end
        }),
    decreases fuel, 4nat,
{
    lemma_parse_t(ts, p - 1, fuel);
    assert(parse_t(ts, p - 1, fuel) is Ok || parse_t(ts, p - 1, fuel) is Err);
    if let Ok((l, q)) = parse_t(ts, p - 1, fuel) {
        if let Ok(s) = expect(ts, q, Token::If) {
            lemma_lit1(ts, end - 1, Token::EndIf);
            lemma_branches(ts, l.tokens(), r.tokens(), s, p - 1, end - 1);
            lemma_cat(
                ts,
                seq![Token::If] + l.tokens() + seq![Token::Else] + r.tokens(),
                seq![Token::EndIf],
                s,
                end - 1,
                end,
            );
        }
    }
}

proof fn lemma_t_branch(ts: Seq<Token>, end: int, fuel: nat)
    requires
        0 < end <= ts.len(),
        fuel > 0,
        ts[end - 1] == Token::EndIf,
        !(end >= 2 && ts[end - 2] == Token::Drop),
        !(end >= 2 && ts[end - 2] == Token::Number(0)),
    ensures
        parse_t_endif(ts, end, fuel) matches Ok((t, p)) ==> spells(ts, t.tokens(), p, end)
            && t.wf() && 0 <= p < end,
    decreases fuel, 0nat,
{
    lemma_parse_t(ts, end - 1, (fuel - 1) as nat);
    assert(parse_t(ts, end - 1, (fuel - 1) as nat) is Ok || parse_t(
        ts,
        end - 1,
        (fuel - 1) as nat,
    ) is Err);
    if let Ok((r, p)) = parse_t(ts, end - 1, (fuel - 1) as nat) {
        if p > 0 {
            if ts[p - 1] == Token::NotIf {
                if let Ok(q) = expect(ts, p - 1, Token::IfDup) {
                    lemma_t_notif(ts, end, (fuel - 1) as nat, r, p);
                }
            } else if ts[p - 1] == Token::Else {
                if p >= 2 && ts[p - 2] == Token::Number(0) {
                    if p >= 3 {
                        if ts[p - 3] == Token::NotIf {
                            lemma_t_cascade_and(ts, end, (fuel - 1) as nat, r, p);
                        } else if ts[p - 3] == Token::If {
                            lemma_t_likely(ts, end, r, p);
                        }
                    }
                } else {
                    lemma_t_switch(ts, end, (fuel - 1) as nat, r, p);
                }
            }
        }
    }
}

proof fn lemma_parse_t_endif(ts: Seq<Token>, end: int, fuel: nat)
    requires
        0 < end <= ts.len(),
        ts[end - 1] == Token::EndIf,
    ensures
        parse_t_endif(ts, end, fuel) matches Ok((t, p)) ==> spells(ts, t.tokens(), p, end)
            && t.wf() && 0 <= p < end,
    decreases fuel, 1nat,
{
    if fuel > 0 {
        if end >= 2 && ts[end - 2] == Token::Drop {
            lemma_expect_delay(ts, end - 1);
            if let Ok((n, p)) = expect_delay(ts, end - 1) {
                lemma_delay(ts, p, n);
                lemma_cast(E::Time(n));
                assert(E::<PublicKey>::Time(n).wf());
            }
        } else if end >= 2 && ts[end - 2] == Token::Number(0) {
            lemma_t_unlikely(ts, end, fuel);
        } else {
            lemma_t_branch(ts, end, fuel);
        }
    }
}

proof fn lemma_t_pair(ts: Seq<Token>, end: int, fuel: nat, w: W<PublicKey>, p: int)
    requires
        0 < end <= ts.len(),
        ts[end - 1] == Token::BoolOr || ts[end - 1] == Token::BoolAnd,
        parse_w(ts, end - 1, fuel) == Ok::<(W<PublicKey>, int), crate::error::Error>((w, p)),
    ensures
        0 <= p < end,
        w.wf(),
        parse_e(ts, p, fuel) matches Ok((e, q)) ==> spells(
            ts,
            e.tokens() + w.tokens() + seq![ts[end - 1]],
            q,
            end,
        ) && e.wf() && 0 <= q < end,
    decreases fuel, 1nat,
{
    lemma_parse_w(ts, end - 1, fuel);
    lemma_parse_e(ts, p, fuel);
    assert(parse_e(ts, p, fuel) is Ok || parse_e(ts, p, fuel) is Err);
    if let Ok((e, q)) = parse_e(ts, p, fuel) {
        lemma_cat(ts, e.tokens(), w.tokens(), q, p, end - 1);
        lemma_push(ts, e.tokens() + w.tokens(), q, end - 1, ts[end - 1]);
    }
}

proof fn lemma_tail2(ts: Seq<Token>, body: Seq<Token>, q: int, p: int, a: Token, b: Token)
    requires
        spells(ts, body, q, p),
        p + 2 <= ts.len(),
        ts[p] == a,
        ts[p + 1] == b,
    ensures
        spells(ts, body + seq![a, b], q, p + 2),
{
    reveal(spells);
    lemma_lit2(ts, p, a, b);
    lemma_cat(ts, body, seq![a, b], q, p, p + 2);
}

proof fn lemma_tu_time(ts: Seq<Token>, end: int, fuel: nat)
    requires
        0 < end <= ts.len(),
        fuel > 0,
        ts[end - 1] == Token::CheckSequenceVerify || ts[end - 1] == Token::CheckLockTimeVerify,
    ensures
        parse_t_unit(ts, end, fuel) matches Ok((t, p)) ==> spells(ts, t.tokens(), p, end)
            && t.wf() && 0 <= p < end,
    decreases fuel, 1nat,
{
    match ts[end - 1] {
            Token::CheckSequenceVerify => {
            if let Ok((n, p)) = expect_time(ts, end - 1) {
                lemma_lit2(ts, p, Token::Number(n), Token::CheckSequenceVerify);
            }
        },
        Token::CheckLockTimeVerify => {
            if let Ok((n, p)) = expect_time(ts, end - 1) {
                lemma_lit2(ts, p, Token::Number(n), Token::CheckLockTimeVerify);
            }
        },
            _ => {},
    }
}

proof fn lemma_tu_equal(ts: Seq<Token>, end: int, fuel: nat)
    requires
        0 < end <= ts.len(),
        fuel > 0,
        ts[end - 1] == Token::Equal,
    ensures
        parse_t_unit(ts, end, fuel) matches Ok((t, p)) ==> spells(ts, t.tokens(), p, end)
            && t.wf() && 0 <= p < end,
    decreases fuel, 1nat,
{
    match ts[end - 1] {
            Token::Equal => {
            if end >= 2 && ts[end - 2] is Hash256 {
                lemma_expect_hash(ts, end - 1);
                if let Ok((h, p)) = expect_hash(ts, end - 1) {
                    lemma_push(ts, hash_tokens(h), p, end - 1, Token::Equal);
                }
            } else {
                lemma_v_threshold(ts, end, (fuel - 1) as nat);
                assert(parse_threshold(ts, end - 1, (fuel - 1) as nat) is Ok
                    || parse_threshold(ts, end - 1, (fuel - 1) as nat) is Err);
                if let Ok((k, e, ws, p)) = parse_threshold(ts, end - 1, (fuel - 1) as nat) {
                    let x = E::Threshold(k, Box::new(e), ws);
                    lemma_cast(x);
                    assert(x.wf());
                    assert(x.tokens() == e.tokens() + ws_tokens(ws) + seq![
                        Token::Number(k),
                        Token::Equal,
                    ]);
                }
            }
        },
            _ => {},
    }
}

proof fn lemma_tu_pair(ts: Seq<Token>, end: int, fuel: nat)
    requires
        0 < end <= ts.len(),
        fuel > 0,
        ts[end - 1] == Token::BoolOr || ts[end - 1] == Token::BoolAnd,
    ensures
        parse_t_unit(ts, end, fuel) matches Ok((t, p)) ==> spells(ts, t.tokens(), p, end)
            && t.wf() && 0 <= p < end,
    decreases fuel, 1nat,
{
    match ts[end - 1] {
            Token::BoolOr => {
            assert(parse_w(ts, end - 1, (fuel - 1) as nat) is Ok || parse_w(
                ts,
                end - 1,
                (fuel - 1) as nat,
            ) is Err);
            if let Ok((w, p)) = parse_w(ts, end - 1, (fuel - 1) as nat) {
                lemma_t_pair(ts, end, (fuel - 1) as nat, w, p);
                assert(parse_e(ts, p, (fuel - 1) as nat) is Ok || parse_e(
                    ts,
                    p,
                    (fuel - 1) as nat,
                ) is Err);
            }
        },
        Token::BoolAnd => {
            assert(parse_w(ts, end - 1, (fuel - 1) as nat) is Ok || parse_w(
                ts,
                end - 1,
                (fuel - 1) as nat,
            ) is Err);
            if let Ok((w, p)) = parse_w(ts, end - 1, (fuel - 1) as nat) {
                lemma_t_pair(ts, end, (fuel - 1) as nat, w, p);
                assert(parse_e(ts, p, (fuel - 1) as nat) is Ok || parse_e(
                    ts,
                    p,
                    (fuel - 1) as nat,
                ) is Err);
                if let Ok((e, q)) = parse_e(ts, p, (fuel - 1) as nat) {
                    let x = E::ParallelAnd(Box::new(e), Box::new(w));
                    lemma_cast(x);
                    assert(x.wf());
                    assert(x.tokens() == e.tokens() + w.tokens() + seq![Token::BoolAnd]);
                }
            }
        },
            _ => {},
    }
}

proof fn lemma_tu_sig(ts: Seq<Token>, end: int, fuel: nat)
    requires
        0 < end <= ts.len(),
        fuel > 0,
        ts[end - 1] == Token::CheckSig || ts[end - 1] == Token::CheckMultiSig,
    ensures
        parse_t_unit(ts, end, fuel) matches Ok((t, p)) ==> spells(ts, t.tokens(), p, end)
            && t.wf() && 0 <= p < end,
    decreases fuel, 1nat,
{
    match ts[end - 1] {
            Token::CheckSig => {
            if let Ok((k, p)) = expect_key(ts, end - 1) {
                lemma_lit2(ts, p, Token::Pubkey(k), Token::CheckSig);
                let x = E::CheckSig(k);
                lemma_cast(x);
                assert(x.wf());
                assert(x.tokens() == seq![Token::Pubkey(k), Token::CheckSig]);
            }
        },
        Token::CheckMultiSig => {
            lemma_parse_multisig(ts, end - 1);
            if let Ok((k, keys, p)) = parse_multisig(ts, end - 1) {
                lemma_push(ts, multisig_tokens(k, keys), p, end - 1, Token::CheckMultiSig);
                let x = E::CheckMultiSig(k, keys);
                lemma_cast(x);
                assert(x.wf());
                assert(x.tokens() == multisig_tokens(k, keys) + seq![Token::CheckMultiSig]);
            }
        },
            _ => {},
    }
}

proof fn lemma_tu_number(ts: Seq<Token>, end: int, fuel: nat)
    requires
        0 < end <= ts.len(),
        fuel > 0,
        ts[end - 1] is Number,
    ensures
        parse_t_unit(ts, end, fuel) matches Ok((t, p)) ==> spells(ts, t.tokens(), p, end)
            && t.wf() && 0 <= p < end,
    decreases fuel, 1nat,
{
    match ts[end - 1] {
            Token::Number(n) => {
            if n == 1 {
                if let Ok(p) = expect(ts, end - 1, Token::EndIf) {
                    lemma_parse_v_branches(ts, p, (fuel - 1) as nat);
                    assert(parse_v_branches(ts, p, (fuel - 1) as nat) is Ok
                        || parse_v_branches(ts, p, (fuel - 1) as nat) is Err);
                    if let Ok((l, r, q)) = parse_v_branches(ts, p, (fuel - 1) as nat) {
                        lemma_tail2(
                            ts,
                            seq![Token::If] + l.tokens() + seq![Token::Else] + r.tokens(),
                            q,
                            p,
                            Token::EndIf,
                            Token::Number(1),
                        );
                    }
                }
            }
        },
            _ => {},
    }
}

proof fn lemma_parse_t_unit(ts: Seq<Token>, end: int, fuel: nat)
    requires
        0 <= end <= ts.len(),
    ensures
        parse_t_unit(ts, end, fuel) matches Ok((t, p)) ==> spells(ts, t.tokens(), p, end)
            && t.wf() && 0 <= p < end,
    decreases fuel, 2nat,
{
    if fuel > 0 && end > 0 {
        match ts[end - 1] {
            Token::CheckSequenceVerify => {
                lemma_tu_time(ts, end, fuel);
            },
            Token::CheckLockTimeVerify => {
                lemma_tu_time(ts, end, fuel);
            },
            Token::Equal => {
                lemma_tu_equal(ts, end, fuel);
            },
            Token::BoolOr => {
                lemma_tu_pair(ts, end, fuel);
            },
            Token::BoolAnd => {
                lemma_tu_pair(ts, end, fuel);
            },
            Token::CheckSig => {
                lemma_tu_sig(ts, end, fuel);
            },
            Token::CheckMultiSig => {
                lemma_tu_sig(ts, end, fuel);
            },
            Token::Number(n) => {
                lemma_tu_number(ts, end, fuel);
            },
            Token::EndIf => {
                lemma_parse_t_endif(ts, end, (fuel - 1) as nat);
            },
            _ => {},
        }
    }
}

proof fn lemma_parse_t(ts: Seq<Token>, end: int, fuel: nat)
    requires
        0 <= end <= ts.len(),
    ensures
        parse_t(ts, end, fuel) matches Ok((t, p)) ==> spells(ts, t.tokens(), p, end) && t.wf()
            && 0 <= p < end,
    decreases fuel, 3nat,
{
    if fuel > 0 {
        lemma_parse_t_unit(ts, end, fuel);
        assert(parse_t_unit(ts, end, fuel) is Ok || parse_t_unit(ts, end, fuel) is Err);
        if let Ok((t, p)) = parse_t_unit(ts, end, fuel) {
            if !(p <= 0 || opens_branch(ts[p - 1])) {
                lemma_parse_v(ts, p, (fuel - 1) as nat);
                assert(
                    parse_v(ts, p, (fuel - 1) as nat) is Ok
                        || parse_v(ts, p, (fuel - 1) as nat) is Err
                );
                if let Ok((v, q)) = parse_v(ts, p, (fuel - 1) as nat) {
                    lemma_cat(ts, v.tokens(), t.tokens(), q, p, end);
                }
            }
        }
    }
}

/// A tree that the decoder returns is well formed and has exactly the
/// tokens it was read from.
pub proof fn lemma_decode_sound(ts: Seq<Token>)
    ensures
        decode_tokens(ts) matches Ok(t) ==> t.wf() && t.tokens() == ts,
{
    reveal(spells);
    lemma_parse_t(ts, ts.len() as int, MAX_DEPTH as nat);
    assert(ts.subrange(0, ts.len() as int) =~= ts);
}

} // verus!

