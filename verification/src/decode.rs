//! The decoder: from the tokens of a Script program to the tree.
//!
//! A program is read from its last token to its first, since the fragment
//! that a script ends with decides what stands before it. There is one
//! recognizer for each type of fragment. Where a program can be read as more
//! than one tree, the recognizers settle on one: a sequence of `V` is nested
//! to the left, a disjunction at the place of a `T` is a `T`, and a switch
//! at the place of an `E` has its `E` on the left where both sides allow it.

use vstd::prelude::*;
use crate::astelem::{threshold_is_wf, threshold_wf, time_wf, E, T, V, W};
use crate::error::{Context, Error, Found};
use crate::key::PublicKey;
use crate::list::List;
use crate::token::Token;

verus! {

/// How many recognizers may be nested in one another.
pub const MAX_DEPTH: usize = 500;

/// The error for a token that no fragment admits at its place.
pub open spec fn unexpected(t: Token) -> Error {
    Error::Unexpected(Found::Token(t))
}

/// The tokens that start a branch.
pub open spec fn opens_branch(t: Token) -> bool {
    t == Token::If || t == Token::NotIf || t == Token::Else
}

/// Reads the token `want` that ends before `p`.
pub open spec fn expect(ts: Seq<Token>, p: int, want: Token) -> Result<int, Error> {
    if p <= 0 {
        Err(Error::EarlyEnd)
    } else if ts[p - 1] == want {
        Ok(p - 1)
    } else {
        Err(unexpected(ts[p - 1]))
    }
}

/// Reads a number that ends before `p`.
pub open spec fn expect_number(ts: Seq<Token>, p: int) -> Result<(u32, int), Error> {
    if p <= 0 {
        Err(Error::EarlyEnd)
    } else {
        match ts[p - 1] {
            Token::Number(n) => Ok((n, p - 1)),
            t => Err(unexpected(t)),
        }
    }
}

/// Reads a locktime that ends before `p`.
pub open spec fn expect_time(ts: Seq<Token>, p: int) -> Result<(u32, int), Error> {
    match expect_number(ts, p) {
        Err(e) => Err(e),
        Ok((n, q)) => if time_wf(n) {
            Ok((n, q))
        } else {
            Err(unexpected(ts[p - 1]))
        },
    }
}

/// Reads a key that ends before `p`.
pub open spec fn expect_key(ts: Seq<Token>, p: int) -> Result<(PublicKey, int), Error> {
    if p <= 0 {
        Err(Error::EarlyEnd)
    } else {
        match ts[p - 1] {
            Token::Pubkey(k) => Ok((k, p - 1)),
            t => Err(unexpected(t)),
        }
    }
}

/// Reads `SIZE <32> EQUALVERIFY HASH256 <h>` that ends before `p`.
pub open spec fn expect_hash(ts: Seq<Token>, p: int) -> Result<([u8; 32], int), Error> {
    if p <= 0 {
        Err(Error::EarlyEnd)
    } else {
        match ts[p - 1] {
            Token::Hash256(h) => match expect(ts, p - 1, Token::EqualVerify) {
                Err(e) => Err(e),
                Ok(q) => match expect(ts, q, Token::Number(32)) {
                    Err(e) => Err(e),
                    Ok(r) => match expect(ts, r, Token::Size) {
                        Err(e) => Err(e),
                        Ok(s) => Ok((h, s)),
                    },
                },
            },
            t => Err(unexpected(t)),
        }
    }
}

/// Reads `DUP IF <n> CSV DROP` that ends before `p`.
pub open spec fn expect_delay(ts: Seq<Token>, p: int) -> Result<(u32, int), Error> {
    match expect(ts, p, Token::Drop) {
        Err(e) => Err(e),
        Ok(q) => match expect(ts, q, Token::CheckSequenceVerify) {
            Err(e) => Err(e),
            Ok(r) => match expect_time(ts, r) {
                Err(e) => Err(e),
                Ok((n, s)) => match expect(ts, s, Token::If) {
                    Err(e) => Err(e),
                    Ok(t) => match expect(ts, t, Token::Dup) {
                        Err(e) => Err(e),
                        Ok(u) => Ok((n, u)),
                    },
                },
            },
        },
    }
}

/// Reads `n` keys that end before `p` and puts them in front of `acc`.
pub open spec fn parse_keys(ts: Seq<Token>, p: int, n: nat, acc: List<PublicKey>) -> Result<
    (List<PublicKey>, int),
    Error,
>
    decreases n,
{
    if n == 0 {
        Ok((acc, p))
    } else {
        match expect_key(ts, p) {
            Err(e) => Err(e),
            Ok((k, q)) => parse_keys(ts, q, (n - 1) as nat, List::Cons(k, Box::new(acc))),
        }
    }
}

/// Reads `<k> <key>... <n>` that ends before `p`.
pub open spec fn parse_multisig(ts: Seq<Token>, p: int) -> Result<
    (u32, List<PublicKey>, int),
    Error,
> {
    match expect_number(ts, p) {
        Err(e) => Err(e),
        Ok((n, q)) => if n > 20 {
            Err(Error::CmsTooManyKeys(n))
        } else {
            match parse_keys(ts, q, n as nat, List::Nil) {
                Err(e) => Err(e),
                Ok((keys, r)) => match expect_number(ts, r) {
                    Err(e) => Err(e),
                    Ok((k, s)) => if k > n {
                        Err(unexpected(ts[r - 1]))
                    } else {
                        Ok((k, keys, s))
                    },
                },
            }
        },
    }
}

/// The `E` that has the tokens of `t`, if there is one.
pub open spec fn t_to_e(t: T<PublicKey>) -> Option<E<PublicKey>>
    decreases t,
{
    match t {
        T::CastE(e) => Some(*e),
        T::ParallelOr(l, r) => Some(E::ParallelOr(l, r)),
        T::CascadeOr(l, r) => Some(E::CascadeOr(l, r)),
        T::SwitchOr(l, r) => match t_to_e(*l) {
            Some(le) => Some(E::SwitchOrLeft(Box::new(le), r)),
            None => match t_to_e(*r) {
                Some(re) => Some(E::SwitchOrRight(Box::new(re), l)),
                None => None,
            },
        },
        _ => None,
    }
}

/// Reads the later children of a threshold, each followed by `ADD`, that
/// end before `p`, and puts them in front of `acc`.
pub open spec fn parse_ws(ts: Seq<Token>, p: int, fuel: nat, acc: List<W<PublicKey>>) -> Result<
    (List<W<PublicKey>>, int),
    Error,
>
    decreases fuel, 0nat,
{
    if p > 0 && ts[p - 1] == Token::Add {
        if fuel == 0 {
            Err(Error::ContextError(Context::Depth))
        } else {
            match parse_w(ts, p - 1, (fuel - 1) as nat) {
                Err(e) => Err(e),
                Ok((w, q)) => parse_ws(ts, q, (fuel - 1) as nat, List::Cons(w, Box::new(acc))),
            }
        }
    } else {
        Ok((acc, p))
    }
}

/// Reads `[E] ([W] ADD)... <k>` that ends before `p`.
pub open spec fn parse_threshold(ts: Seq<Token>, p: int, fuel: nat) -> Result<
    (u32, E<PublicKey>, List<W<PublicKey>>, int),
    Error,
>
    decreases fuel, 1nat,
{
    match expect_number(ts, p) {
        Err(e) => Err(e),
        Ok((k, q)) => match parse_ws(ts, q, fuel, List::Nil) {
            Err(e) => Err(e),
            Ok((ws, r)) => match parse_e(ts, r, fuel) {
                Err(e) => Err(e),
                Ok((e, s)) => if threshold_wf(k, ws) {
                    Ok((k, e, ws, s))
                } else {
                    Err(unexpected(ts[p - 1]))
                },
            },
        },
    }
}

/// Reads an `E` that ends before `end`.
pub open spec fn parse_e(ts: Seq<Token>, end: int, fuel: nat) -> Result<
    (E<PublicKey>, int),
    Error,
>
    decreases fuel, 0nat,
{
    if fuel == 0 {
        Err(Error::ContextError(Context::Depth))
    } else {
        match parse_t_unit(ts, end, (fuel - 1) as nat) {
            Err(e) => Err(e),
            Ok((t, p)) => match t_to_e(t) {
                Some(e) => Ok((e, p)),
                None => Err(unexpected(ts[end - 1])),
            },
        }
    }
}

/// Reads a `W` that ends before `end`.
pub open spec fn parse_w(ts: Seq<Token>, end: int, fuel: nat) -> Result<
    (W<PublicKey>, int),
    Error,
>
    decreases fuel, 0nat,
{
    if fuel == 0 {
        Err(Error::ContextError(Context::Depth))
    } else if end <= 0 {
        Err(Error::EarlyEnd)
    } else {
        match ts[end - 1] {
            Token::CheckSig => match expect_key(ts, end - 1) {
                Err(e) => Err(e),
                Ok((k, p)) => match expect(ts, p, Token::Swap) {
                    Err(e) => Err(e),
                    Ok(q) => Ok((W::CheckSig(k), q)),
                },
            },
            Token::FromAltStack => match parse_e(ts, end - 1, (fuel - 1) as nat) {
                Err(e) => Err(e),
                Ok((e, p)) => match expect(ts, p, Token::ToAltStack) {
                    Err(e) => Err(e),
                    Ok(q) => Ok((W::CastE(Box::new(e)), q)),
                },
            },
            Token::EndIf => if end >= 2 && ts[end - 2] == Token::Drop {
                match expect_delay(ts, end - 1) {
                    Err(e) => Err(e),
                    Ok((n, p)) => match expect(ts, p, Token::Swap) {
                        Err(e) => Err(e),
                        Ok(q) => Ok((W::Time(n), q)),
                    },
                }
            } else {
                match expect(ts, end - 1, Token::Number(1)) {
                    Err(e) => Err(e),
                    Ok(p) => match expect(ts, p, Token::EqualVerify) {
                        Err(e) => Err(e),
                        Ok(q) => match expect_hash(ts, q) {
                            Err(e) => Err(e),
                            Ok((h, r)) => match expect(ts, r, Token::If) {
                                Err(e) => Err(e),
                                Ok(s) => match expect(ts, s, Token::ZeroNotEqual) {
                                    Err(e) => Err(e),
                                    Ok(t) => match expect(ts, t, Token::Size) {
                                        Err(e) => Err(e),
                                        Ok(u) => match expect(ts, u, Token::Swap) {
                                            Err(e) => Err(e),
                                            Ok(v) => Ok((W::HashEqual(h), v)),
                                        },
                                    },
                                },
                            },
                        },
                    },
                }
            },
            t => Err(unexpected(t)),
        }
    }
}

/// Reads `IF [V] ELSE [V]` that ends before `p`.
pub open spec fn parse_v_branches(ts: Seq<Token>, p: int, fuel: nat) -> Result<
    (V<PublicKey>, V<PublicKey>, int),
    Error,
>
    decreases fuel, 0nat,
{
    if fuel == 0 {
        Err(Error::ContextError(Context::Depth))
    } else {
        match parse_v(ts, p, (fuel - 1) as nat) {
            Err(e) => Err(e),
            Ok((r, q)) => match expect(ts, q, Token::Else) {
                Err(e) => Err(e),
                Ok(s) => match parse_v(ts, s, (fuel - 1) as nat) {
                    Err(e) => Err(e),
                    Ok((l, t)) => match expect(ts, t, Token::If) {
                        Err(e) => Err(e),
                        Ok(u) => Ok((l, r, u)),
                    },
                },
            },
        }
    }
}

/// Reads one `V` that is no sequence and ends before `end`.
pub open spec fn parse_v_unit(ts: Seq<Token>, end: int, fuel: nat) -> Result<
    (V<PublicKey>, int),
    Error,
>
    decreases fuel, 2nat,
{
    if fuel == 0 {
        Err(Error::ContextError(Context::Depth))
    } else if end <= 0 {
        Err(Error::EarlyEnd)
    } else {
        match ts[end - 1] {
            Token::CheckSigVerify => match expect_key(ts, end - 1) {
                Err(e) => Err(e),
                Ok((k, p)) => Ok((V::CheckSig(k), p)),
            },
            Token::CheckMultiSigVerify => match parse_multisig(ts, end - 1) {
                Err(e) => Err(e),
                Ok((k, keys, p)) => Ok((V::CheckMultiSig(k, keys), p)),
            },
            Token::Drop => match expect(ts, end - 1, Token::CheckSequenceVerify) {
                Err(e) => Err(e),
                Ok(p) => match expect_time(ts, p) {
                    Err(e) => Err(e),
                    Ok((n, q)) => Ok((V::Time(n), q)),
                },
            },
            Token::EqualVerify => if end >= 2 && ts[end - 2] is Hash256 {
                match expect_hash(ts, end - 1) {
                    Err(e) => Err(e),
                    Ok((h, p)) => Ok((V::HashEqual(h), p)),
                }
            } else {
                match parse_threshold(ts, end - 1, (fuel - 1) as nat) {
                    Err(e) => Err(e),
                    Ok((k, e, ws, p)) => Ok((V::Threshold(k, Box::new(e), ws), p)),
                }
            },
            Token::EndIf => match parse_v(ts, end - 1, (fuel - 1) as nat) {
                Err(e) => Err(e),
                Ok((r, p)) => if p <= 0 {
                    Err(Error::EarlyEnd)
                } else if ts[p - 1] == Token::NotIf {
                    match parse_e(ts, p - 1, (fuel - 1) as nat) {
                        Err(e) => Err(e),
                        Ok((e, q)) => Ok((V::CascadeOr(Box::new(e), Box::new(r)), q)),
                    }
                } else if ts[p - 1] == Token::Else {
                    match parse_v(ts, p - 1, (fuel - 1) as nat) {
                        Err(e) => Err(e),
                        Ok((l, q)) => match expect(ts, q, Token::If) {
                            Err(e) => Err(e),
                            Ok(s) => Ok((V::SwitchOr(Box::new(l), Box::new(r)), s)),
                        },
                    }
                } else {
                    Err(unexpected(ts[p - 1]))
                },
            },
            Token::Verify => match expect(ts, end - 1, Token::EndIf) {
                Err(e) => Err(e),
                Ok(p) => match parse_t(ts, p, (fuel - 1) as nat) {
                    Err(e) => Err(e),
                    Ok((r, q)) => match expect(ts, q, Token::Else) {
                        Err(e) => Err(e),
                        Ok(s) => match parse_t(ts, s, (fuel - 1) as nat) {
                            Err(e) => Err(e),
                            Ok((l, t)) => match expect(ts, t, Token::If) {
                                Err(e) => Err(e),
                                Ok(u) => Ok((V::SwitchOrT(Box::new(l), Box::new(r)), u)),
                            },
                        },
                    },
                },
            },
            t => Err(unexpected(t)),
        }
    }
}

/// Reads a `V` that ends before `end`: one fragment, or a sequence of them
/// nested to the left.
pub open spec fn parse_v(ts: Seq<Token>, end: int, fuel: nat) -> Result<
    (V<PublicKey>, int),
    Error,
>
    decreases fuel, 3nat,
{
    if fuel == 0 {
        Err(Error::ContextError(Context::Depth))
    } else {
        match parse_v_unit(ts, end, fuel) {
            Err(e) => Err(e),
            Ok((v, p)) => if p <= 0 || opens_branch(ts[p - 1]) {
                Ok((v, p))
            } else {
                match parse_v(ts, p, (fuel - 1) as nat) {
                    Err(e) => Err(e),
                    Ok((l, q)) => Ok((V::And(Box::new(l), Box::new(v)), q)),
                }
            },
        }
    }
}

/// Reads what stands before the `ENDIF` that ends before `end`, the right
/// branch first.
pub open spec fn parse_t_endif(ts: Seq<Token>, end: int, fuel: nat) -> Result<
    (T<PublicKey>, int),
    Error,
>
    decreases fuel, 0nat,
{
    if fuel == 0 {
        Err(Error::ContextError(Context::Depth))
    } else if end >= 2 && ts[end - 2] == Token::Drop {
        match expect_delay(ts, end - 1) {
            Err(e) => Err(e),
            Ok((n, p)) => Ok((T::CastE(Box::new(E::Time(n))), p)),
        }
    } else if end >= 2 && ts[end - 2] == Token::Number(0) {
        match expect(ts, end - 2, Token::Else) {
            Err(e) => Err(e),
            Ok(p) => match parse_t(ts, p, (fuel - 1) as nat) {
                Err(e) => Err(e),
                Ok((t, q)) => match expect(ts, q, Token::If) {
                    Err(e) => Err(e),
                    Ok(s) => Ok((T::CastE(Box::new(E::Unlikely(Box::new(t)))), s)),
                },
            },
        }
    } else {
        match parse_t(ts, end - 1, (fuel - 1) as nat) {
            Err(e) => Err(e),
            Ok((r, p)) => if p <= 0 {
                Err(Error::EarlyEnd)
            } else if ts[p - 1] == Token::NotIf {
                match expect(ts, p - 1, Token::IfDup) {
                    Err(e) => Err(e),
                    Ok(q) => match parse_e(ts, q, (fuel - 1) as nat) {
                        Err(e) => Err(e),
                        Ok((e, s)) => Ok((T::CascadeOr(Box::new(e), Box::new(r)), s)),
                    },
                }
            } else if ts[p - 1] == Token::Else {
                if p >= 2 && ts[p - 2] == Token::Number(0) {
                    if p < 3 {
                        Err(Error::EarlyEnd)
                    } else if ts[p - 3] == Token::NotIf {
                        match parse_e(ts, p - 3, (fuel - 1) as nat) {
                            Err(e) => Err(e),
                            Ok((e, s)) => Ok(
                                (T::CastE(Box::new(E::CascadeAnd(Box::new(e), Box::new(r)))), s),
                            ),
                        }
                    } else if ts[p - 3] == Token::If {
                        Ok((T::CastE(Box::new(E::Likely(Box::new(r)))), p - 3))
                    } else {
                        Err(unexpected(ts[p - 3]))
                    }
                } else {
                    match parse_t(ts, p - 1, (fuel - 1) as nat) {
                        Err(e) => Err(e),
                        Ok((l, q)) => match expect(ts, q, Token::If) {
                            Err(e) => Err(e),
                            Ok(s) => Ok((T::SwitchOr(Box::new(l), Box::new(r)), s)),
                        },
                    }
                }
            } else {
                Err(unexpected(ts[p - 1]))
            },
        }
    }
}

/// Reads one `T` that is no sequence and ends before `end`.
pub open spec fn parse_t_unit(ts: Seq<Token>, end: int, fuel: nat) -> Result<
    (T<PublicKey>, int),
    Error,
>
    decreases fuel, 2nat,
{
    if fuel == 0 {
        Err(Error::ContextError(Context::Depth))
    } else if end <= 0 {
        Err(Error::EarlyEnd)
    } else {
        match ts[end - 1] {
            Token::CheckSequenceVerify => match expect_time(ts, end - 1) {
                Err(e) => Err(e),
                Ok((n, p)) => Ok((T::Time(n), p)),
            },
            Token::CheckLockTimeVerify => match expect_time(ts, end - 1) {
                Err(e) => Err(e),
                Ok((n, p)) => Ok((T::After(n), p)),
            },
            Token::Equal => if end >= 2 && ts[end - 2] is Hash256 {
                match expect_hash(ts, end - 1) {
                    Err(e) => Err(e),
                    Ok((h, p)) => Ok((T::HashEqual(h), p)),
                }
            } else {
                match parse_threshold(ts, end - 1, (fuel - 1) as nat) {
                    Err(e) => Err(e),
                    Ok((k, e, ws, p)) => Ok(
                        (T::CastE(Box::new(E::Threshold(k, Box::new(e), ws))), p),
                    ),
                }
            },
            Token::BoolOr => match parse_w(ts, end - 1, (fuel - 1) as nat) {
                Err(e) => Err(e),
                Ok((w, p)) => match parse_e(ts, p, (fuel - 1) as nat) {
                    Err(e) => Err(e),
                    Ok((e, q)) => Ok((T::ParallelOr(Box::new(e), Box::new(w)), q)),
                },
            },
            Token::BoolAnd => match parse_w(ts, end - 1, (fuel - 1) as nat) {
                Err(e) => Err(e),
                Ok((w, p)) => match parse_e(ts, p, (fuel - 1) as nat) {
                    Err(e) => Err(e),
                    Ok((e, q)) => Ok(
                        (T::CastE(Box::new(E::ParallelAnd(Box::new(e), Box::new(w)))), q),
                    ),
                },
            },
            Token::CheckSig => match expect_key(ts, end - 1) {
                Err(e) => Err(e),
                Ok((k, p)) => Ok((T::CastE(Box::new(E::CheckSig(k))), p)),
            },
            Token::CheckMultiSig => match parse_multisig(ts, end - 1) {
                Err(e) => Err(e),
                Ok((k, keys, p)) => Ok((T::CastE(Box::new(E::CheckMultiSig(k, keys))), p)),
            },
            Token::Number(n) => if n == 1 {
                match expect(ts, end - 1, Token::EndIf) {
                    Err(e) => Err(e),
                    Ok(p) => match parse_v_branches(ts, p, (fuel - 1) as nat) {
                        Err(e) => Err(e),
                        Ok((l, r, q)) => Ok((T::SwitchOrV(Box::new(l), Box::new(r)), q)),
                    },
                }
            } else {
                Err(unexpected(ts[end - 1]))
            },
            Token::EndIf => parse_t_endif(ts, end, (fuel - 1) as nat),
            t => Err(unexpected(t)),
        }
    }
}

/// Reads a `T` that ends before `end`: one fragment, or one that a sequence
/// of `V` precedes.
pub open spec fn parse_t(ts: Seq<Token>, end: int, fuel: nat) -> Result<
    (T<PublicKey>, int),
    Error,
>
    decreases fuel, 3nat,
{
    if fuel == 0 {
        Err(Error::ContextError(Context::Depth))
    } else {
        match parse_t_unit(ts, end, fuel) {
            Err(e) => Err(e),
            Ok((t, p)) => if p <= 0 || opens_branch(ts[p - 1]) {
                Ok((t, p))
            } else {
                match parse_v(ts, p, (fuel - 1) as nat) {
                    Err(e) => Err(e),
                    Ok((v, q)) => Ok((T::And(Box::new(v), Box::new(t)), q)),
                }
            },
        }
    }
}

/// The tree of a whole program: the `T` that its tokens spell, or why there
/// is none.
pub open spec fn decode_tokens(ts: Seq<Token>) -> Result<T<PublicKey>, Error> {
    match parse_t(ts, ts.len() as int, MAX_DEPTH as nat) {
        Err(e) => Err(e),
        Ok((t, p)) => if p == 0 {
            Ok(t)
        } else {
            Err(unexpected(ts[p - 1]))
        },
    }
}

/// Whether an executable recognizer answered what its specification says.
pub open spec fn agrees<X>(r: Result<(X, usize), Error>, s: Result<(X, int), Error>) -> bool {
    match r {
        Ok((x, p)) => s == Ok::<(X, int), Error>((x, p as int)),
        Err(e) => s == Err::<(X, int), Error>(e),
    }
}

/// Whether the token at index `i` is the opcode `want`.
fn is_at(ts: &[Token], i: usize, want: Token) -> (r: bool)
    requires
        i < ts.len(),
        want.is_op(),
    ensures
        r == (ts@[i as int] == want),
{
    let t = ts[i];
    proof {
        t.lemma_code(want);
    }
    t.op() && t.code() == want.code()
}

/// Whether the token at index `i` is the number `v`.
fn is_number_at(ts: &[Token], i: usize, v: u32) -> (r: bool)
    requires
        i < ts.len(),
    ensures
        r == (ts@[i as int] == Token::Number(v)),
{
    match ts[i] {
        Token::Number(n) => n == v,
        _ => false,
    }
}

/// Reads the opcode `want` that ends before `p`.
fn take(ts: &[Token], p: usize, want: Token) -> (r: Result<usize, Error>)
    requires
        p <= ts.len(),
        want.is_op(),
    ensures
        match r {
            Ok(q) => expect(ts@, p as int, want) == Ok::<int, Error>(q as int) && q + 1 == p,
            Err(e) => expect(ts@, p as int, want) == Err::<int, Error>(e),
        },
{
    if p == 0 {
        Err(Error::EarlyEnd)
    } else if is_at(ts, p - 1, want) {
        Ok(p - 1)
    } else {
        Err(Error::Unexpected(Found::Token(ts[p - 1])))
    }
}

/// Reads the number `v` that ends before `p`.
fn take_value(ts: &[Token], p: usize, v: u32) -> (r: Result<usize, Error>)
    requires
        p <= ts.len(),
    ensures
        match r {
            Ok(q) => expect(ts@, p as int, Token::Number(v)) == Ok::<int, Error>(q as int) && q
                + 1 == p,
            Err(e) => expect(ts@, p as int, Token::Number(v)) == Err::<int, Error>(e),
        },
{
    if p == 0 {
        Err(Error::EarlyEnd)
    } else if is_number_at(ts, p - 1, v) {
        Ok(p - 1)
    } else {
        Err(Error::Unexpected(Found::Token(ts[p - 1])))
    }
}

/// Reads a number that ends before `p`.
fn take_number(ts: &[Token], p: usize) -> (r: Result<(u32, usize), Error>)
    requires
        p <= ts.len(),
    ensures
        agrees(r, expect_number(ts@, p as int)),
        r matches Ok((_, q)) ==> q + 1 == p,
{
    if p == 0 {
        Err(Error::EarlyEnd)
    } else {
        match ts[p - 1] {
            Token::Number(n) => Ok((n, p - 1)),
            t => Err(Error::Unexpected(Found::Token(t))),
        }
    }
}

/// Reads a locktime that ends before `p`.
fn take_time(ts: &[Token], p: usize) -> (r: Result<(u32, usize), Error>)
    requires
        p <= ts.len(),
    ensures
        agrees(r, expect_time(ts@, p as int)),
        r matches Ok((_, q)) ==> q + 1 == p,
{
    match take_number(ts, p) {
        Err(e) => Err(e),
        Ok((n, q)) => if 1 <= n && n < 0x8000_0000 {
            Ok((n, q))
        } else {
            Err(Error::Unexpected(Found::Token(ts[p - 1])))
        },
    }
}

/// Reads a key that ends before `p`.
fn take_key(ts: &[Token], p: usize) -> (r: Result<(PublicKey, usize), Error>)
    requires
        p <= ts.len(),
    ensures
        agrees(r, expect_key(ts@, p as int)),
        r matches Ok((_, q)) ==> q + 1 == p,
{
    if p == 0 {
        Err(Error::EarlyEnd)
    } else {
        match ts[p - 1] {
            Token::Pubkey(k) => Ok((k, p - 1)),
            t => Err(Error::Unexpected(Found::Token(t))),
        }
    }
}

/// Reads `SIZE <32> EQUALVERIFY HASH256 <h>` that ends before `p`.
fn take_hash(ts: &[Token], p: usize) -> (r: Result<([u8; 32], usize), Error>)
    requires
        p <= ts.len(),
    ensures
        agrees(r, expect_hash(ts@, p as int)),
        r matches Ok((_, q)) ==> q + 4 == p,
{
    if p == 0 {
        Err(Error::EarlyEnd)
    } else {
        match ts[p - 1] {
            Token::Hash256(h) => {
                let q = take(ts, p - 1, Token::EqualVerify)?;
                let r = take_value(ts, q, 32)?;
                let s = take(ts, r, Token::Size)?;
                Ok((h, s))
            },
            t => Err(Error::Unexpected(Found::Token(t))),
        }
    }
}

/// Reads `DUP IF <n> CSV DROP` that ends before `p`.
fn take_delay(ts: &[Token], p: usize) -> (r: Result<(u32, usize), Error>)
    requires
        p <= ts.len(),
    ensures
        agrees(r, expect_delay(ts@, p as int)),
        r matches Ok((_, q)) ==> q + 5 == p,
{
    let q = take(ts, p, Token::Drop)?;
    let r = take(ts, q, Token::CheckSequenceVerify)?;
    let (n, s) = take_time(ts, r)?;
    let t = take(ts, s, Token::If)?;
    let u = take(ts, t, Token::Dup)?;
    Ok((n, u))
}

/// Reads `n` keys that end before `p`.
fn read_keys(ts: &[Token], p: usize, n: u32) -> (r: Result<(List<PublicKey>, usize), Error>)
    requires
        p <= ts.len(),
    ensures
        agrees(r, parse_keys(ts@, p as int, n as nat, List::Nil)),
        r matches Ok((_, q)) ==> q <= p,
{
    let mut acc: List<PublicKey> = List::Nil;
    let mut q: usize = p;
    let mut left: u32 = n;
    while left > 0
        invariant
            q <= p <= ts.len(),
            parse_keys(ts@, p as int, n as nat, List::Nil) == parse_keys(
                ts@,
                q as int,
                left as nat,
                acc,
            ),
        decreases left,
    {
        let (k, q1) = take_key(ts, q)?;
        acc = List::Cons(k, Box::new(acc));
        q = q1;
        left = left - 1;
    }
    Ok((acc, q))
}

/// Reads `<k> <key>... <n>` that ends before `p`.
fn read_multisig(ts: &[Token], p: usize) -> (r: Result<(u32, List<PublicKey>, usize), Error>)
    requires
        p <= ts.len(),
    ensures
        match r {
            Ok((k, keys, q)) => parse_multisig(ts@, p as int) == Ok::<
                (u32, List<PublicKey>, int),
                Error,
            >((k, keys, q as int)) && q <= p,
            Err(e) => parse_multisig(ts@, p as int) == Err::<(u32, List<PublicKey>, int), Error>(
                e,
            ),
        },
{
    let (n, q) = take_number(ts, p)?;
    if n > 20 {
        return Err(Error::CmsTooManyKeys(n));
    }
    let (keys, r) = read_keys(ts, q, n)?;
    let (k, s) = take_number(ts, r)?;
    if k > n {
        return Err(Error::Unexpected(Found::Token(ts[r - 1])));
    }
    Ok((k, keys, s))
}

/// Turns a `T` into the `E` with the same tokens, or hands it back.
fn to_e(t: T<PublicKey>) -> (r: Result<E<PublicKey>, T<PublicKey>>)
    ensures
        match r {
            Ok(e) => t_to_e(t) == Some(e),
            Err(back) => t_to_e(t) is None && back == t,
        },
    decreases t,
{
    match t {
        T::CastE(e) => Ok(*e),
        T::ParallelOr(l, r) => Ok(E::ParallelOr(l, r)),
        T::CascadeOr(l, r) => Ok(E::CascadeOr(l, r)),
        T::SwitchOr(l, r) => match to_e(*l) {
            Ok(le) => Ok(E::SwitchOrLeft(Box::new(le), r)),
            Err(l) => match to_e(*r) {
                Ok(re) => Ok(E::SwitchOrRight(Box::new(re), Box::new(l))),
                Err(r) => Err(T::SwitchOr(Box::new(l), Box::new(r))),
            },
        },
        other => Err(other),
    }
}

/// Reads the later children of a threshold that end before `p`.
fn read_ws(ts: &[Token], p: usize, fuel: usize) -> (r: Result<
    (List<W<PublicKey>>, usize),
    Error,
>)
    requires
        p <= ts.len(),
    ensures
        agrees(r, parse_ws(ts@, p as int, fuel as nat, List::Nil)),
        r matches Ok((_, q)) ==> q <= p,
    decreases fuel, 0nat,
{
    let mut acc: List<W<PublicKey>> = List::Nil;
    let mut q: usize = p;
    let mut f: usize = fuel;
    while q > 0 && is_at(ts, q - 1, Token::Add)
        invariant
            q <= p <= ts.len(),
            f <= fuel,
            parse_ws(ts@, p as int, fuel as nat, List::Nil) == parse_ws(
                ts@,
                q as int,
                f as nat,
                acc,
            ),
        decreases f,
    {
        if f == 0 {
            return Err(Error::ContextError(Context::Depth));
        }
        let (w, q1) = read_w(ts, q - 1, f - 1)?;
        acc = List::Cons(w, Box::new(acc));
        q = q1;
        f = f - 1;
    }
    Ok((acc, q))
}

/// Reads `[E] ([W] ADD)... <k>` that ends before `p`.
fn read_threshold(ts: &[Token], p: usize, fuel: usize) -> (r: Result<
    (u32, E<PublicKey>, List<W<PublicKey>>, usize),
    Error,
>)
    requires
        p <= ts.len(),
    ensures
        match r {
            Ok((k, e, ws, q)) => parse_threshold(ts@, p as int, fuel as nat) == Ok::<
                (u32, E<PublicKey>, List<W<PublicKey>>, int),
                Error,
            >((k, e, ws, q as int)) && q <= p,
            Err(e) => parse_threshold(ts@, p as int, fuel as nat) == Err::<
                (u32, E<PublicKey>, List<W<PublicKey>>, int),
                Error,
            >(e),
        },
    decreases fuel, 1nat,
{
    let (k, q) = take_number(ts, p)?;
    let (ws, r) = read_ws(ts, q, fuel)?;
    let (e, s) = read_e(ts, r, fuel)?;
    if threshold_is_wf(k, &ws) {
        Ok((k, e, ws, s))
    } else {
        Err(Error::Unexpected(Found::Token(ts[p - 1])))
    }
}

/// Reads an `E` that ends before `end`.
fn read_e(ts: &[Token], end: usize, fuel: usize) -> (r: Result<(E<PublicKey>, usize), Error>)
    requires
        end <= ts.len(),
    ensures
        agrees(r, parse_e(ts@, end as int, fuel as nat)),
        r matches Ok((_, q)) ==> q <= end,
    decreases fuel, 0nat,
{
    if fuel == 0 {
        return Err(Error::ContextError(Context::Depth));
    }
    let (t, p) = read_t_unit(ts, end, fuel - 1)?;
    match to_e(t) {
        Ok(e) => Ok((e, p)),
        Err(_) => Err(Error::Unexpected(Found::Token(ts[end - 1]))),
    }
}

/// Reads a `W` that ends before `end`.
fn read_w(ts: &[Token], end: usize, fuel: usize) -> (r: Result<(W<PublicKey>, usize), Error>)
    requires
        end <= ts.len(),
    ensures
        agrees(r, parse_w(ts@, end as int, fuel as nat)),
        r matches Ok((_, q)) ==> q <= end,
    decreases fuel, 0nat,
{
    if fuel == 0 {
        return Err(Error::ContextError(Context::Depth));
    }
    if end == 0 {
        return Err(Error::EarlyEnd);
    }
    match ts[end - 1] {
        Token::CheckSig => {
            let (k, p) = take_key(ts, end - 1)?;
            let q = take(ts, p, Token::Swap)?;
            Ok((W::CheckSig(k), q))
        },
        Token::FromAltStack => {
            let (e, p) = read_e(ts, end - 1, fuel - 1)?;
            let q = take(ts, p, Token::ToAltStack)?;
            Ok((W::CastE(Box::new(e)), q))
        },
        Token::EndIf => {
            if end >= 2 && is_at(ts, end - 2, Token::Drop) {
                let (n, p) = take_delay(ts, end - 1)?;
                let q = take(ts, p, Token::Swap)?;
                Ok((W::Time(n), q))
            } else {
                let p = take_value(ts, end - 1, 1)?;
                let q = take(ts, p, Token::EqualVerify)?;
                let (h, r) = take_hash(ts, q)?;
                let s = take(ts, r, Token::If)?;
                let t = take(ts, s, Token::ZeroNotEqual)?;
                let u = take(ts, t, Token::Size)?;
                let v = take(ts, u, Token::Swap)?;
                Ok((W::HashEqual(h), v))
            }
        },
        t => Err(Error::Unexpected(Found::Token(t))),
    }
}

/// Reads `IF [V] ELSE [V]` that ends before `p`.
fn read_v_branches(ts: &[Token], p: usize, fuel: usize) -> (r: Result<
    (V<PublicKey>, V<PublicKey>, usize),
    Error,
>)
    requires
        p <= ts.len(),
    ensures
        match r {
            Ok((l, r, q)) => parse_v_branches(ts@, p as int, fuel as nat) == Ok::<
                (V<PublicKey>, V<PublicKey>, int),
                Error,
            >((l, r, q as int)) && q <= p,
            Err(e) => parse_v_branches(ts@, p as int, fuel as nat) == Err::<
                (V<PublicKey>, V<PublicKey>, int),
                Error,
            >(e),
        },
    decreases fuel, 0nat,
{
    if fuel == 0 {
        return Err(Error::ContextError(Context::Depth));
    }
    let (r, q) = read_v(ts, p, fuel - 1)?;
    let s = take(ts, q, Token::Else)?;
    let (l, t) = read_v(ts, s, fuel - 1)?;
    let u = take(ts, t, Token::If)?;
    Ok((l, r, u))
}

/// Reads one `V` that is no sequence and ends before `end`.
fn read_v_unit(ts: &[Token], end: usize, fuel: usize) -> (r: Result<
    (V<PublicKey>, usize),
    Error,
>)
    requires
        end <= ts.len(),
    ensures
        agrees(r, parse_v_unit(ts@, end as int, fuel as nat)),
        r matches Ok((_, q)) ==> q < end,
    decreases fuel, 2nat,
{
    if fuel == 0 {
        return Err(Error::ContextError(Context::Depth));
    }
    if end == 0 {
        return Err(Error::EarlyEnd);
    }
    match ts[end - 1] {
        Token::CheckSigVerify => {
            let (k, p) = take_key(ts, end - 1)?;
            Ok((V::CheckSig(k), p))
        },
        Token::CheckMultiSigVerify => {
            let (k, keys, p) = read_multisig(ts, end - 1)?;
            Ok((V::CheckMultiSig(k, keys), p))
        },
        Token::Drop => {
            let p = take(ts, end - 1, Token::CheckSequenceVerify)?;
            let (n, q) = take_time(ts, p)?;
            Ok((V::Time(n), q))
        },
        Token::EqualVerify => {
            let hash = end >= 2 && match ts[end - 2] {
                Token::Hash256(_) => true,
                _ => false,
            };
            if hash {
                let (h, p) = take_hash(ts, end - 1)?;
                Ok((V::HashEqual(h), p))
            } else {
                let (k, e, ws, p) = read_threshold(ts, end - 1, fuel - 1)?;
                Ok((V::Threshold(k, Box::new(e), ws), p))
            }
        },
        Token::EndIf => {
            let (r, p) = read_v(ts, end - 1, fuel - 1)?;
            if p == 0 {
                Err(Error::EarlyEnd)
            } else if is_at(ts, p - 1, Token::NotIf) {
                let (e, q) = read_e(ts, p - 1, fuel - 1)?;
                Ok((V::CascadeOr(Box::new(e), Box::new(r)), q))
            } else if is_at(ts, p - 1, Token::Else) {
                let (l, q) = read_v(ts, p - 1, fuel - 1)?;
                let s = take(ts, q, Token::If)?;
                Ok((V::SwitchOr(Box::new(l), Box::new(r)), s))
            } else {
                Err(Error::Unexpected(Found::Token(ts[p - 1])))
            }
        },
        Token::Verify => {
            let p = take(ts, end - 1, Token::EndIf)?;
            let (r, q) = read_t(ts, p, fuel - 1)?;
            let s = take(ts, q, Token::Else)?;
            let (l, t) = read_t(ts, s, fuel - 1)?;
            let u = take(ts, t, Token::If)?;
            Ok((V::SwitchOrT(Box::new(l), Box::new(r)), u))
        },
        t => Err(Error::Unexpected(Found::Token(t))),
    }
}

/// Whether the token before `p` starts a branch.
fn at_branch_start(ts: &[Token], p: usize) -> (r: bool)
    requires
        0 < p <= ts.len(),
    ensures
        r == opens_branch(ts@[p - 1]),
{
    is_at(ts, p - 1, Token::If) || is_at(ts, p - 1, Token::NotIf) || is_at(
        ts,
        p - 1,
        Token::Else,
    )
}

/// Reads a `V` that ends before `end`.
fn read_v(ts: &[Token], end: usize, fuel: usize) -> (r: Result<(V<PublicKey>, usize), Error>)
    requires
        end <= ts.len(),
    ensures
        agrees(r, parse_v(ts@, end as int, fuel as nat)),
        r matches Ok((_, q)) ==> q < end,
    decreases fuel, 3nat,
{
    if fuel == 0 {
        return Err(Error::ContextError(Context::Depth));
    }
    let (v, p) = read_v_unit(ts, end, fuel)?;
    if p == 0 || at_branch_start(ts, p) {
        Ok((v, p))
    } else {
        let (l, q) = read_v(ts, p, fuel - 1)?;
        Ok((V::And(Box::new(l), Box::new(v)), q))
    }
}

/// Reads what stands before the `ENDIF` that ends before `end`.
fn read_t_endif(ts: &[Token], end: usize, fuel: usize) -> (r: Result<
    (T<PublicKey>, usize),
    Error,
>)
    requires
        0 < end <= ts.len(),
    ensures
        agrees(r, parse_t_endif(ts@, end as int, fuel as nat)),
        r matches Ok((_, q)) ==> q < end,
    decreases fuel, 0nat,
{
    if fuel == 0 {
        return Err(Error::ContextError(Context::Depth));
    }
    if end >= 2 && is_at(ts, end - 2, Token::Drop) {
        let (n, p) = take_delay(ts, end - 1)?;
        Ok((T::CastE(Box::new(E::Time(n))), p))
    } else if end >= 2 && is_number_at(ts, end - 2, 0) {
        let p = take(ts, end - 2, Token::Else)?;
        let (t, q) = read_t(ts, p, fuel - 1)?;
        let s = take(ts, q, Token::If)?;
        Ok((T::CastE(Box::new(E::Unlikely(Box::new(t)))), s))
    } else {
        let (r, p) = read_t(ts, end - 1, fuel - 1)?;
        if p == 0 {
            Err(Error::EarlyEnd)
        } else if is_at(ts, p - 1, Token::NotIf) {
            let q = take(ts, p - 1, Token::IfDup)?;
            let (e, s) = read_e(ts, q, fuel - 1)?;
            Ok((T::CascadeOr(Box::new(e), Box::new(r)), s))
        } else if is_at(ts, p - 1, Token::Else) {
            if p >= 2 && is_number_at(ts, p - 2, 0) {
                if p < 3 {
                    Err(Error::EarlyEnd)
                } else if is_at(ts, p - 3, Token::NotIf) {
                    let (e, s) = read_e(ts, p - 3, fuel - 1)?;
                    Ok((T::CastE(Box::new(E::CascadeAnd(Box::new(e), Box::new(r)))), s))
                } else if is_at(ts, p - 3, Token::If) {
                    Ok((T::CastE(Box::new(E::Likely(Box::new(r)))), p - 3))
                } else {
                    Err(Error::Unexpected(Found::Token(ts[p - 3])))
                }
            } else {
                let (l, q) = read_t(ts, p - 1, fuel - 1)?;
                let s = take(ts, q, Token::If)?;
                Ok((T::SwitchOr(Box::new(l), Box::new(r)), s))
            }
        } else {
            Err(Error::Unexpected(Found::Token(ts[p - 1])))
        }
    }
}

/// Reads one `T` that is no sequence and ends before `end`.
fn read_t_unit(ts: &[Token], end: usize, fuel: usize) -> (r: Result<
    (T<PublicKey>, usize),
    Error,
>)
    requires
        end <= ts.len(),
    ensures
        agrees(r, parse_t_unit(ts@, end as int, fuel as nat)),
        r matches Ok((_, q)) ==> q < end,
    decreases fuel, 2nat,
{
    if fuel == 0 {
        return Err(Error::ContextError(Context::Depth));
    }
    if end == 0 {
        return Err(Error::EarlyEnd);
    }
    match ts[end - 1] {
        Token::CheckSequenceVerify => {
            let (n, p) = take_time(ts, end - 1)?;
            Ok((T::Time(n), p))
        },
        Token::CheckLockTimeVerify => {
            let (n, p) = take_time(ts, end - 1)?;
            Ok((T::After(n), p))
        },
        Token::Equal => {
            let hash = end >= 2 && match ts[end - 2] {
                Token::Hash256(_) => true,
                _ => false,
            };
            if hash {
                let (h, p) = take_hash(ts, end - 1)?;
                Ok((T::HashEqual(h), p))
            } else {
                let (k, e, ws, p) = read_threshold(ts, end - 1, fuel - 1)?;
                Ok((T::CastE(Box::new(E::Threshold(k, Box::new(e), ws))), p))
            }
        },
        Token::BoolOr => {
            let (w, p) = read_w(ts, end - 1, fuel - 1)?;
            let (e, q) = read_e(ts, p, fuel - 1)?;
            Ok((T::ParallelOr(Box::new(e), Box::new(w)), q))
        },
        Token::BoolAnd => {
            let (w, p) = read_w(ts, end - 1, fuel - 1)?;
            let (e, q) = read_e(ts, p, fuel - 1)?;
            Ok((T::CastE(Box::new(E::ParallelAnd(Box::new(e), Box::new(w)))), q))
        },
        Token::CheckSig => {
            let (k, p) = take_key(ts, end - 1)?;
            Ok((T::CastE(Box::new(E::CheckSig(k))), p))
        },
        Token::CheckMultiSig => {
            let (k, keys, p) = read_multisig(ts, end - 1)?;
            Ok((T::CastE(Box::new(E::CheckMultiSig(k, keys))), p))
        },
        Token::Number(n) => {
            if n == 1 {
                let p = take(ts, end - 1, Token::EndIf)?;
                let (l, r, q) = read_v_branches(ts, p, fuel - 1)?;
                Ok((T::SwitchOrV(Box::new(l), Box::new(r)), q))
            } else {
                Err(Error::Unexpected(Found::Token(ts[end - 1])))
            }
        },
        Token::EndIf => read_t_endif(ts, end, fuel - 1),
        t => Err(Error::Unexpected(Found::Token(t))),
    }
}

/// Reads a `T` that ends before `end`.
fn read_t(ts: &[Token], end: usize, fuel: usize) -> (r: Result<(T<PublicKey>, usize), Error>)
    requires
        end <= ts.len(),
    ensures
        agrees(r, parse_t(ts@, end as int, fuel as nat)),
        r matches Ok((_, q)) ==> q < end,
    decreases fuel, 3nat,
{
    if fuel == 0 {
        return Err(Error::ContextError(Context::Depth));
    }
    let (t, p) = read_t_unit(ts, end, fuel)?;
    if p == 0 || at_branch_start(ts, p) {
        Ok((t, p))
    } else {
        let (v, q) = read_v(ts, p, fuel - 1)?;
        Ok((T::And(Box::new(v), Box::new(t)), q))
    }
}

/// Reads the tokens of a whole program as a tree.
///
/// The result is that of `decode_tokens`: the tree that the recognizers
/// settle on, or the first error they meet, among them the token that is
/// left over before a complete fragment.
pub fn decode(ts: &[Token]) -> (r: Result<T<PublicKey>, Error>)
    ensures
        r == decode_tokens(ts@),
{
    match read_t(ts, ts.len(), MAX_DEPTH) {
        Err(e) => Err(e),
        Ok((t, p)) => if p == 0 {
            Ok(t)
        } else {
            Err(Error::Unexpected(Found::Token(ts[p - 1])))
        },
    }
}

} // verus!
