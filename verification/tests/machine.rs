use miniscript::astelem::{E, T, V, W};
use miniscript::key::PublicKey;
use miniscript::list::List;
use miniscript::satisfy::{BitcoinSig, Satisfier};
use miniscript::script::number_to_bytes;
use miniscript::stack::size_of;
use miniscript::token::{lex, Token};

// A small interpreter for the tokens of a script. A signature counts where
// the pair of key and signature is among `signed`; the locktimes are
// compared with `age` and `locktime`.
struct Spend {
    signed: Vec<(Vec<u8>, Vec<u8>)>,
    age: u32,
    locktime: u32,
}

struct Run {
    stack: Vec<Vec<u8>>,
    alt: Vec<Vec<u8>>,
    taken: Vec<bool>,
}

fn truthy(b: &[u8]) -> bool {
    b.iter().enumerate().any(|(i, x)| *x != 0 && !(i == b.len() - 1 && *x == 0x80))
}

fn number_of(b: &[u8]) -> Option<u32> {
    if b.len() > 4 || b.last().map_or(false, |x| *x >= 0x80) {
        return None;
    }
    Some(b.iter().rev().fold(0u32, |n, x| n * 256 + u32::from(*x)))
}

fn truth(t: bool) -> Vec<u8> {
    if t {
        vec![1]
    } else {
        vec![]
    }
}

fn signs(c: &Spend, key: &[u8], sig: &[u8]) -> bool {
    !sig.is_empty() && c.signed.iter().any(|(k, s)| k == key && s == sig)
}

fn double_sha256(data: &[u8]) -> [u8; 32] {
    bitcoin::hashes::Hash::into_inner(
        <bitcoin::hashes::sha256d::Hash as bitcoin::hashes::Hash>::hash(data),
    )
}

impl Run {
    fn pop(&mut self) -> Option<Vec<u8>> {
        self.stack.pop()
    }

    fn number(&mut self) -> Option<u32> {
        let top = self.pop()?;
        number_of(&top)
    }

    fn check_sig(&mut self, c: &Spend) -> Option<bool> {
        let key = self.pop()?;
        let sig = self.pop()?;
        Some(signs(c, &key, &sig))
    }

    fn check_multisig(&mut self, c: &Spend) -> Option<bool> {
        let n = self.number()? as usize;
        if n > 20 || self.stack.len() < n {
            return None;
        }
        let mut keys = self.stack.split_off(self.stack.len() - n);
        let k = self.number()? as usize;
        if k > n || self.stack.len() < k {
            return None;
        }
        let mut sigs = self.stack.split_off(self.stack.len() - k);
        if !self.pop()?.is_empty() {
            return None;
        }
        while !sigs.is_empty() {
            if sigs.len() > keys.len() {
                return Some(false);
            }
            let key = keys.pop()?;
            if signs(c, &key, &sigs[sigs.len() - 1]) {
                sigs.pop();
            }
        }
        Some(true)
    }

    // One token; `None` where the run is aborted.
    fn step(&mut self, c: &Spend, t: &Token) -> Option<()> {
        let running = self.taken.iter().all(|b| *b);
        match t {
            Token::If | Token::NotIf => {
                let sense = matches!(t, Token::If);
                let taken = running && truthy(&self.pop()?) == sense;
                self.taken.push(taken);
                return Some(());
            }
            Token::Else => {
                let top = self.taken.pop()?;
                self.taken.push(!top);
                return Some(());
            }
            Token::EndIf => {
                self.taken.pop()?;
                return Some(());
            }
            _ => {}
        }
        if !running {
            return Some(());
        }
        match t {
            Token::Number(n) => self.stack.push(number_to_bytes(*n)),
            Token::Pubkey(k) => self.stack.push(k.to_bytes().to_vec()),
            Token::Hash20(h) => self.stack.push(h.to_vec()),
            Token::Hash32(h) => self.stack.push(h.to_vec()),
            Token::Hash256(h) => {
                let top = self.pop()?;
                self.stack.push(double_sha256(&top).to_vec());
                self.stack.push(h.to_vec());
            }
            Token::Dup => {
                let top = self.stack.last()?.clone();
                self.stack.push(top);
            }
            Token::IfDup => {
                let top = self.stack.last()?.clone();
                if truthy(&top) {
                    self.stack.push(top);
                }
            }
            Token::Drop => {
                self.pop()?;
            }
            Token::Size => {
                let len = self.stack.last()?.len();
                self.stack.push(number_to_bytes(len as u32));
            }
            Token::Swap => {
                let a = self.pop()?;
                let b = self.pop()?;
                self.stack.push(a);
                self.stack.push(b);
            }
            Token::Tuck => {
                let a = self.pop()?;
                let b = self.pop()?;
                self.stack.push(a.clone());
                self.stack.push(b);
                self.stack.push(a);
            }
            Token::ToAltStack => {
                let top = self.pop()?;
                self.alt.push(top);
            }
            Token::FromAltStack => {
                let top = self.alt.pop()?;
                self.stack.push(top);
            }
            Token::Verify => {
                if !truthy(&self.pop()?) {
                    return None;
                }
            }
            Token::Equal | Token::EqualVerify => {
                let a = self.pop()?;
                let b = self.pop()?;
                if matches!(t, Token::Equal) {
                    self.stack.push(truth(a == b));
                } else if a != b {
                    return None;
                }
            }
            Token::BoolAnd | Token::BoolOr | Token::Add => {
                let b = self.number()?;
                let a = self.number()?;
                self.stack.push(match t {
                    Token::BoolAnd => truth(a != 0 && b != 0),
                    Token::BoolOr => truth(a != 0 || b != 0),
                    _ => number_to_bytes(a + b),
                });
            }
            Token::ZeroNotEqual => {
                let a = self.number()?;
                self.stack.push(truth(a != 0));
            }
            Token::CheckSig | Token::CheckSigVerify => {
                let ok = self.check_sig(c)?;
                if matches!(t, Token::CheckSig) {
                    self.stack.push(truth(ok));
                } else if !ok {
                    return None;
                }
            }
            Token::CheckMultiSig | Token::CheckMultiSigVerify => {
                let ok = self.check_multisig(c)?;
                if matches!(t, Token::CheckMultiSig) {
                    self.stack.push(truth(ok));
                } else if !ok {
                    return None;
                }
            }
            Token::CheckSequenceVerify | Token::CheckLockTimeVerify => {
                let n = number_of(self.stack.last()?)?;
                let reached = if matches!(t, Token::CheckSequenceVerify) {
                    c.age
                } else {
                    c.locktime
                };
                if n > reached {
                    return None;
                }
            }
            Token::If | Token::NotIf | Token::Else | Token::EndIf => {}
        }
        Some(())
    }
}

// Whether the script of `t` accepts `stack`: the run is not aborted, no
// branch is left open, and the one element left reads as true.
fn accepts(c: &Spend, t: &T<PublicKey>, stack: Vec<Vec<u8>>) -> bool {
    let tokens = lex(&t.encode()).expect("a script that the lexer reads");
    let mut run = Run { stack, alt: vec![], taken: vec![] };
    for token in &tokens {
        if run.step(c, token).is_none() {
            return false;
        }
    }
    run.taken.is_empty() && run.stack.len() == 1 && truthy(&run.stack[0])
}

// The spend that bears out all that the satisfier holds.
fn genuine(s: &Satisfier) -> Spend {
    Spend {
        signed: s.sigs.iter().map(|(k, g)| (k.to_bytes().to_vec(), g.to_bytes())).collect(),
        age: s.age,
        locktime: s.locktime,
    }
}

// Four keys: the points with x = 2 and x = 3, each with either sign of y.
fn key(n: u8) -> PublicKey {
    let mut bytes = [0u8; 33];
    bytes[0] = if n < 4 { 0x02 } else { 0x03 };
    bytes[32] = if n < 4 { n } else { n - 2 };
    PublicKey::from_slice(&bytes).expect("a point on the curve")
}

fn boxed<X>(x: X) -> Box<X> {
    Box::new(x)
}

fn sig(fill: u8, len: usize) -> BitcoinSig {
    BitcoinSig { der: vec![fill; len], sighash_type: 0x01 }
}

fn keys(ks: Vec<PublicKey>) -> List<PublicKey> {
    List::from_vec(ks)
}

fn pk(n: u8) -> Box<E<PublicKey>> {
    boxed(E::CheckSig(key(n)))
}

fn wpk(n: u8) -> Box<W<PublicKey>> {
    boxed(W::CheckSig(key(n)))
}

fn cast(e: Box<E<PublicKey>>) -> Box<T<PublicKey>> {
    boxed(T::CastE(e))
}

// A satisfier with signatures for the keys 2 and 4, one preimage, and both
// clocks at 1000.
fn spender() -> Satisfier {
    let preimage = [7u8; 32];
    Satisfier {
        sigs: vec![(key(2), sig(0xaa, 70)), (key(4), sig(0xbb, 71))],
        preimages: vec![(double_sha256(&preimage), preimage)],
        age: 1000,
        locktime: 1000,
    }
}

fn hash() -> [u8; 32] {
    double_sha256(&[7u8; 32])
}

// Fragments that the spender can satisfy, every variant among them.
fn satisfiable() -> Vec<T<PublicKey>> {
    vec![
        T::Time(1000),
        T::After(999),
        T::HashEqual(hash()),
        T::CastE(pk(2)),
        T::CastE(boxed(E::CheckMultiSig(0, keys(vec![])))),
        T::CastE(boxed(E::CheckMultiSig(1, keys(vec![key(3), key(4)])))),
        T::CastE(boxed(E::CheckMultiSig(2, keys(vec![key(2), key(3), key(4), key(5)])))),
        T::CastE(boxed(E::Time(5))),
        T::CastE(boxed(E::Threshold(1, pk(3), List::from_vec(vec![W::CheckSig(key(4))])))),
        T::CastE(boxed(E::Threshold(
            2,
            pk(2),
            List::from_vec(vec![
                W::CheckSig(key(3)),
                W::HashEqual(hash()),
                W::Time(2000),
                W::CastE(pk(4)),
            ]),
        ))),
        T::CastE(boxed(E::ParallelAnd(pk(2), wpk(4)))),
        T::CastE(boxed(E::ParallelAnd(pk(2), boxed(W::CastE(pk(4)))))),
        T::CastE(boxed(E::CascadeAnd(pk(2), boxed(T::Time(7))))),
        T::CastE(boxed(E::ParallelOr(pk(3), wpk(4)))),
        T::CastE(boxed(E::ParallelOr(pk(2), boxed(W::HashEqual([0; 32]))))),
        T::CastE(boxed(E::CascadeOr(pk(3), cast(pk(4))))),
        T::CastE(boxed(E::CascadeOr(pk(2), boxed(T::Time(5000))))),
        T::CastE(boxed(E::SwitchOrLeft(pk(3), cast(pk(2))))),
        T::CastE(boxed(E::SwitchOrLeft(pk(2), boxed(T::Time(5000))))),
        T::CastE(boxed(E::SwitchOrRight(pk(3), cast(pk(2))))),
        T::CastE(boxed(E::SwitchOrRight(pk(2), boxed(T::Time(5000))))),
        T::CastE(boxed(E::Likely(cast(pk(2))))),
        T::CastE(boxed(E::Unlikely(cast(pk(4))))),
        T::And(boxed(V::CheckSig(key(2))), boxed(T::Time(3))),
        T::And(boxed(V::CheckMultiSig(1, keys(vec![key(2), key(3)]))), cast(pk(4))),
        T::And(boxed(V::Time(9)), boxed(T::After(9))),
        T::And(boxed(V::HashEqual(hash())), cast(pk(2))),
        T::And(
            boxed(V::And(boxed(V::CheckSig(key(2))), boxed(V::CheckSig(key(4))))),
            boxed(T::Time(1)),
        ),
        T::And(
            boxed(V::SwitchOr(boxed(V::CheckSig(key(3))), boxed(V::CheckSig(key(4))))),
            boxed(T::Time(1)),
        ),
        T::And(boxed(V::SwitchOrT(cast(pk(2)), cast(pk(3)))), boxed(T::Time(1))),
        T::And(boxed(V::CascadeOr(pk(3), boxed(V::CheckSig(key(4))))), boxed(T::Time(1))),
        T::And(boxed(V::CascadeOr(pk(2), boxed(V::CheckSig(key(3))))), boxed(T::Time(1))),
        T::And(
            boxed(V::Threshold(2, pk(2), List::from_vec(vec![W::CheckSig(key(4))]))),
            boxed(T::Time(1)),
        ),
        T::ParallelOr(pk(3), boxed(W::Time(10))),
        T::CascadeOr(pk(3), boxed(T::HashEqual(hash()))),
        T::SwitchOr(cast(pk(3)), boxed(T::After(1000))),
        T::SwitchOrV(boxed(V::CheckSig(key(5))), boxed(V::Time(1000))),
    ]
}

#[test]
fn a_script_accepts_what_the_satisfier_returns() {
    let s = spender();
    assert!(s.is_wf());
    let c = genuine(&s);
    for t in satisfiable() {
        assert!(t.is_wf(), "{:?}", t);
        let stack = t.satisfy(&s);
        assert!(stack.is_some(), "{:?}", t);
        assert!(accepts(&c, &t, stack.unwrap()), "{:?}", t);
    }
}

#[test]
fn no_satisfaction_is_larger_than_its_bounds() {
    let s = spender();
    for t in satisfiable() {
        let stack = t.satisfy(&s).unwrap();
        let elements = t.max_satisfaction_witness_elements().unwrap();
        let bytes = t.max_satisfaction_size(2).unwrap();
        assert!(stack.len() <= elements, "{:?}", t);
        assert!(size_of(&stack) <= bytes as u128, "{:?}", t);
    }
    // The bounds are reached.
    let t = T::And(boxed(V::CheckSig(key(4))), boxed(T::HashEqual(hash())));
    let stack = t.satisfy(&s).unwrap();
    assert_eq!(stack.len(), 2);
    assert_eq!(t.max_satisfaction_witness_elements(), Some(2));
    assert_eq!(size_of(&stack), 73 + 33);
    assert_eq!(t.max_satisfaction_size(2), Some(73 + 33));
}

#[test]
fn a_script_refuses_what_is_not_genuine() {
    let s = spender();
    // No signature is borne out.
    let nothing = Spend { signed: vec![], age: 1000, locktime: 1000 };
    let t = T::CastE(pk(2));
    assert!(!accepts(&nothing, &t, t.satisfy(&s).unwrap()));
    // The input is younger than the satisfier says.
    let young = Spend { age: 999, ..genuine(&s) };
    let t = T::And(boxed(V::CheckSig(key(2))), boxed(T::Time(1000)));
    assert!(accepts(&genuine(&s), &t, t.satisfy(&s).unwrap()));
    assert!(!accepts(&young, &t, t.satisfy(&s).unwrap()));
    // The empty stack satisfies nothing that asks for a signature.
    assert!(!accepts(&genuine(&s), &T::CastE(pk(2)), vec![]));
    assert!(!accepts(&genuine(&s), &T::CastE(pk(2)), vec![vec![]]));
}

#[test]
fn signatures_are_matched_with_the_keys_from_the_last_to_the_first() {
    let s = Satisfier {
        sigs: vec![(key(2), sig(1, 70)), (key(3), sig(2, 70)), (key(5), sig(3, 70))],
        preimages: vec![],
        age: 0,
        locktime: 0,
    };
    let c = genuine(&s);
    let t = T::CastE(boxed(E::CheckMultiSig(2, keys(vec![key(2), key(3), key(4), key(5)]))));
    let stack = t.satisfy(&s).unwrap();
    assert_eq!(stack, vec![vec![], sig(1, 70).to_bytes(), sig(2, 70).to_bytes()]);
    assert!(accepts(&c, &t, stack));
    // The same signatures in the other order are refused.
    let swapped = vec![vec![], sig(2, 70).to_bytes(), sig(1, 70).to_bytes()];
    assert!(!accepts(&c, &t, swapped));
    // Signatures of the second and the last key are accepted too.
    let others = vec![vec![], sig(2, 70).to_bytes(), sig(3, 70).to_bytes()];
    assert!(accepts(&c, &t, others));
}

#[test]
fn a_threshold_adds_up_what_its_children_leave() {
    let s = spender();
    let c = genuine(&s);
    // A child that ends in a locktime leaves that number: the threshold
    // counts 7 where one child is satisfied.
    let seven = boxed(E::CascadeAnd(pk(2), boxed(T::Time(7))));
    let t = T::CastE(boxed(E::Threshold(1, seven, List::from_vec(vec![]))));
    assert!(t.is_wf());
    let stack = t.satisfy(&s).unwrap();
    assert!(!accepts(&c, &t, stack));
    // With the locktime 1 the child leaves 1.
    let unit = boxed(E::CascadeAnd(pk(2), boxed(T::Time(1))));
    let t = T::CastE(boxed(E::Threshold(1, unit, List::from_vec(vec![]))));
    let stack = t.satisfy(&s).unwrap();
    assert!(accepts(&c, &t, stack));
    // A multisignature that asks for no signature leaves 1 whatever it is
    // given: the threshold counts 2 where one child is to be satisfied.
    let none = W::CastE(boxed(E::CheckMultiSig(0, keys(vec![]))));
    let t = T::CastE(boxed(E::Threshold(1, pk(2), List::from_vec(vec![none]))));
    assert!(t.is_wf());
    let stack = t.satisfy(&s).unwrap();
    assert_eq!(stack, vec![vec![], sig(0xaa, 70).to_bytes()]);
    assert!(!accepts(&c, &t, stack));
}
