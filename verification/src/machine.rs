//! A model of how Script runs a program of tokens.
//!
//! The model covers the opcodes that fragments are written in, and departs
//! from the rules of the network in what follows. Whether an element is a
//! signature of the transaction is a predicate that the model is given. A
//! number is read only where it is not negative and has at most four
//! bytes. The element that `CHECKMULTISIG` takes too many has to be empty.
//! A locktime is compared with one number that stands for the state of the
//! input, as the satisfier does, so that heights and times are not told
//! apart. A script accepts only where it leaves one element and no more.
//! The limits on the size of a script and of its stack are left out.

use vstd::prelude::*;
use crate::primitives::sha256;
use crate::script::number_bytes;
use crate::stack::{one, zero};
use crate::token::{le_value, lex_tokens, Token};

verus! {

/// What a program is run against: which signatures the transaction bears
/// out, and how far the two clocks of the input have come.
pub struct Spend {
    /// Whether the element `sig` is a signature of the transaction for the
    /// key with the bytes `key`.
    pub signed: spec_fn(Seq<u8>, Seq<u8>) -> bool,
    /// The relative locktime that the input has reached.
    pub age: nat,
    /// The absolute locktime that the transaction has reached.
    pub locktime: nat,
}

/// The state of a run.
#[verifier::ext_equal]
pub struct Machine {
    /// The stack, bottom first.
    pub stack: Seq<Seq<u8>>,
    /// The alternative stack, bottom first.
    pub alt: Seq<Seq<u8>>,
    /// For every `IF` that is open, whether its current branch is taken.
    pub taken: Seq<bool>,
    /// Whether the run has been aborted.
    pub failed: bool,
}

/// Whether Script reads the element as true: a byte of it is not zero, and
/// it is not the negative zero.
pub open spec fn truthy(b: Seq<u8>) -> bool {
    exists|i: int|
        0 <= i < b.len() && #[trigger] b[i] != 0 && !(i == b.len() - 1 && b[i] == 0x80)
}

/// The number that the element spells, where it has at most four bytes and
/// is not negative.
pub open spec fn number_of(b: Seq<u8>) -> Option<nat> {
    if b.len() > 4 || (b.len() > 0 && b.last() >= 0x80) {
        None
    } else {
        Some(le_value(b))
    }
}

/// The element that an opcode leaves for true or false.
pub open spec fn truth(t: bool) -> Seq<u8> {
    if t {
        one()
    } else {
        zero()
    }
}

/// Whether `sig` counts as a signature for `key`: an empty element never
/// does.
pub open spec fn signs(c: Spend, key: Seq<u8>, sig: Seq<u8>) -> bool {
    sig.len() > 0 && (c.signed)(key, sig)
}

/// Whether `CHECKMULTISIG` accepts the signatures for the keys. It goes
/// through both from the last to the first: a signature that the key bears
/// out is done with, the key is done with either way, and no more
/// signatures may be left than keys.
pub open spec fn signs_many(c: Spend, keys: Seq<Seq<u8>>, sigs: Seq<Seq<u8>>) -> bool
    decreases keys.len(),
{
    if sigs.len() == 0 {
        true
    } else if sigs.len() > keys.len() {
        false
    } else if signs(c, keys.last(), sigs.last()) {
        signs_many(c, keys.drop_last(), sigs.drop_last())
    } else {
        signs_many(c, keys.drop_last(), sigs)
    }
}

impl Machine {
    /// The state before a program runs on `stack`.
    pub open spec fn fresh(stack: Seq<Seq<u8>>) -> Machine {
        Machine { stack, alt: Seq::empty(), taken: Seq::empty(), failed: false }
    }

    /// Every open branch is taken, so opcodes are carried out.
    pub open spec fn running(self) -> bool {
        forall|i: int| 0 <= i < self.taken.len() ==> #[trigger] self.taken[i]
    }

    /// The run goes on and opcodes are carried out.
    pub open spec fn live(self) -> bool {
        !self.failed && self.running()
    }

    /// The run goes on and opcodes are passed over.
    pub open spec fn idle(self) -> bool {
        !self.failed && !self.running()
    }

    /// The run aborted.
    pub open spec fn fail(self) -> Machine {
        Machine { failed: true, ..self }
    }

    /// The state with another stack.
    pub open spec fn with_stack(self, stack: Seq<Seq<u8>>) -> Machine {
        Machine { stack, ..self }
    }

    /// The state with another record of the open branches.
    pub open spec fn with_taken(self, taken: Seq<bool>) -> Machine {
        Machine { taken, ..self }
    }

    /// The state with `e` pushed.
    pub open spec fn push(self, e: Seq<u8>) -> Machine {
        self.with_stack(self.stack.push(e))
    }

    /// The state with `st` put on the stack.
    pub open spec fn on(self, st: Seq<Seq<u8>>) -> Machine {
        self.with_stack(self.stack + st)
    }

    /// The element `i` places below the top.
    pub open spec fn at(self, i: nat) -> Seq<u8> {
        self.stack[self.stack.len() - 1 - i]
    }

    /// The state without the `n` elements on top.
    pub open spec fn less(self, n: nat) -> Machine {
        self.with_stack(self.stack.subrange(0, self.stack.len() - n))
    }

    /// The state that accepts: the run went on to the end, no branch is
    /// open, and the one element left reads as true.
    pub open spec fn accepts(self) -> bool {
        !self.failed && self.taken.len() == 0 && self.stack.len() == 1 && truthy(self.stack[0])
    }
}

/// `IF` where `sense` holds, `NOTIF` where it does not.
pub open spec fn branch(m: Machine, sense: bool) -> Machine {
    if !m.running() {
        m.with_taken(m.taken.push(false))
    } else if m.stack.len() < 1 {
        m.fail()
    } else {
        m.less(1).with_taken(m.taken.push(truthy(m.at(0)) == sense))
    }
}

/// An opcode that takes two numbers and leaves what `f` makes of them.
pub open spec fn arith(m: Machine, f: spec_fn(nat, nat) -> Seq<u8>) -> Machine {
    if m.stack.len() < 2 {
        m.fail()
    } else {
        match (number_of(m.at(1)), number_of(m.at(0))) {
            (Some(a), Some(b)) => m.less(2).push(f(a, b)),
            _ => m.fail(),
        }
    }
}

/// The state with `e` on top where `test` holds, aborted where not.
pub open spec fn verified(m: Machine, test: bool) -> Machine {
    if test {
        m
    } else {
        m.fail()
    }
}

/// `CHECKSIG`, before what it leaves is pushed or verified: the stack
/// without the key and the signature, and whether the signature counts.
pub open spec fn check_sig(c: Spend, m: Machine) -> Option<(Machine, bool)> {
    if m.stack.len() < 2 {
        None
    } else {
        Some((m.less(2), signs(c, m.at(0), m.at(1))))
    }
}

/// `CHECKMULTISIG`, before what it leaves is pushed or verified. From the
/// top down the stack holds the number of keys, the keys, the number of
/// signatures, the signatures, and one empty element more.
pub open spec fn check_multisig(c: Spend, m: Machine) -> Option<(Machine, bool)> {
    let len = m.stack.len() as int;
    if len < 1 {
        None
    } else {
        match number_of(m.at(0)) {
            Some(n) => if n > 20 || len < n + 2 {
                None
            } else {
                match number_of(m.at(n + 1)) {
                    Some(k) => if k > n || len < n + k + 3 || m.at(n + k + 2).len() != 0 {
                        None
                    } else {
                        Some(
                            (
                                m.less(n + k + 3),
                                signs_many(
                                    c,
                                    m.stack.subrange(len - 1 - n, len - 1),
                                    m.stack.subrange(len - 2 - n - k, len - 2 - n),
                                ),
                            ),
                        )
                    },
                    None => None,
                }
            },
            None => None,
        }
    }
}

/// What a check leaves where its result is pushed.
pub open spec fn pushed(r: Option<(Machine, bool)>, m: Machine) -> Machine {
    match r {
        Some((rest, ok)) => rest.push(truth(ok)),
        None => m.fail(),
    }
}

/// What a check leaves where its result is verified.
pub open spec fn demanded(r: Option<(Machine, bool)>, m: Machine) -> Machine {
    match r {
        Some((rest, ok)) => verified(rest, ok),
        None => m.fail(),
    }
}

/// A locktime opcode: the number on top has to be one that the clock has
/// reached, and stays where it is.
pub open spec fn locked(m: Machine, reached: nat) -> Machine {
    if m.stack.len() < 1 {
        m.fail()
    } else {
        match number_of(m.at(0)) {
            Some(n) => verified(m, n <= reached),
            None => m.fail(),
        }
    }
}

/// What an opcode other than `IF`, `NOTIF`, `ELSE` and `ENDIF` does where
/// it is carried out.
pub open spec fn act(c: Spend, m: Machine, t: Token) -> Machine {
    let len = m.stack.len();
    match t {
        Token::Number(n) => m.push(number_bytes(n as nat)),
        Token::Pubkey(k) => m.push(k.bytes@),
        Token::Hash20(h) => m.push(h@),
        Token::Hash32(h) => m.push(h@),
        Token::Hash256(h) => if len < 1 {
            m.fail()
        } else {
            m.less(1).push(sha256(sha256(m.at(0)))).push(h@)
        },
        Token::Dup => if len < 1 {
            m.fail()
        } else {
            m.push(m.at(0))
        },
        Token::IfDup => if len < 1 {
            m.fail()
        } else if truthy(m.at(0)) {
            m.push(m.at(0))
        } else {
            m
        },
        Token::Drop => if len < 1 {
            m.fail()
        } else {
            m.less(1)
        },
        Token::Size => if len < 1 {
            m.fail()
        } else {
            m.push(number_bytes(m.at(0).len()))
        },
        Token::Swap => if len < 2 {
            m.fail()
        } else {
            m.less(2).push(m.at(0)).push(m.at(1))
        },
        Token::Tuck => if len < 2 {
            m.fail()
        } else {
            m.less(2).push(m.at(0)).push(m.at(1)).push(m.at(0))
        },
        Token::ToAltStack => if len < 1 {
            m.fail()
        } else {
            Machine { alt: m.alt.push(m.at(0)), ..m.less(1) }
        },
        Token::FromAltStack => if m.alt.len() < 1 {
            m.fail()
        } else {
            Machine { alt: m.alt.drop_last(), ..m.push(m.alt.last()) }
        },
        Token::Verify => if len < 1 {
            m.fail()
        } else {
            verified(m.less(1), truthy(m.at(0)))
        },
        Token::Equal => if len < 2 {
            m.fail()
        } else {
            m.less(2).push(truth(m.at(1) == m.at(0)))
        },
        Token::EqualVerify => if len < 2 {
            m.fail()
        } else {
            verified(m.less(2), m.at(1) == m.at(0))
        },
        Token::BoolAnd => arith(m, |a: nat, b: nat| truth(a != 0 && b != 0)),
        Token::BoolOr => arith(m, |a: nat, b: nat| truth(a != 0 || b != 0)),
        Token::Add => arith(m, |a: nat, b: nat| number_bytes(a + b)),
        Token::ZeroNotEqual => if len < 1 {
            m.fail()
        } else {
            match number_of(m.at(0)) {
                Some(a) => m.less(1).push(truth(a != 0)),
                None => m.fail(),
            }
        },
        Token::CheckSig => pushed(check_sig(c, m), m),
        Token::CheckSigVerify => demanded(check_sig(c, m), m),
        Token::CheckMultiSig => pushed(check_multisig(c, m), m),
        Token::CheckMultiSigVerify => demanded(check_multisig(c, m), m),
        Token::CheckSequenceVerify => locked(m, c.age),
        Token::CheckLockTimeVerify => locked(m, c.locktime),
        Token::If => m,
        Token::NotIf => m,
        Token::Else => m,
        Token::EndIf => m,
    }
}

/// The state after one token.
pub open spec fn step(c: Spend, m: Machine, t: Token) -> Machine {
    if m.failed {
        m
    } else {
        match t {
            Token::If => branch(m, true),
            Token::NotIf => branch(m, false),
            Token::Else => if m.taken.len() < 1 {
                m.fail()
            } else {
                m.with_taken(m.taken.drop_last().push(!m.taken.last()))
            },
            Token::EndIf => if m.taken.len() < 1 {
                m.fail()
            } else {
                m.with_taken(m.taken.drop_last())
            },
            _ => if m.running() {
                act(c, m, t)
            } else {
                m
            },
        }
    }
}

/// The state after the tokens `ts`, one after the other.
pub open spec fn run(c: Spend, ts: Seq<Token>, m: Machine) -> Machine
    decreases ts.len(),
{
    if ts.len() == 0 {
        m
    } else {
        step(c, run(c, ts.drop_last(), m), ts.last())
    }
}

/// Whether the program `ts` accepts the stack `st`.
pub open spec fn accepted(c: Spend, ts: Seq<Token>, st: Seq<Seq<u8>>) -> bool {
    run(c, ts, Machine::fresh(st)).accepts()
}

/// Whether the script with the bytes `script` accepts the stack `st`: the
/// lexer reads it, and its tokens accept the stack.
pub open spec fn script_accepts(c: Spend, script: Seq<u8>, st: Seq<Seq<u8>>) -> bool {
    lex_tokens(script) matches Ok(ts) && accepted(c, ts, st)
}

} // verus!
