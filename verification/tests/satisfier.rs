use miniscript::astelem::{E, T, V, W};
use miniscript::descript::Descript;
use miniscript::descriptor::{Descriptor, OutPoint, TxIn};
use miniscript::error::Error;
use miniscript::key::PublicKey;
use miniscript::list::List;
use miniscript::primitives::Network;
use miniscript::satisfy::{BitcoinSig, Satisfier};
use miniscript::stack::size_of;

// Four keys: the points with x = 2 and x = 3, each with either sign of y.
fn key(n: u8) -> PublicKey {
    let mut bytes = [0u8; 33];
    bytes[0] = if n < 4 { 0x02 } else { 0x03 };
    bytes[32] = if n < 4 { n } else { n - 2 };
    PublicKey::from_slice(&bytes).expect("a point on the curve")
}

fn boxed<X>(x: X) -> Box<X> {
    Box::new(x)
}

fn sig(fill: u8, len: usize) -> BitcoinSig {
    BitcoinSig { der: vec![fill; len], sighash_type: 0x01 }
}

fn pushed(fill: u8, len: usize) -> Vec<u8> {
    let mut b = vec![fill; len];
    b.push(0x01);
    b
}

fn holding(sigs: Vec<(PublicKey, BitcoinSig)>) -> Satisfier {
    Satisfier { sigs, preimages: vec![], age: 0, locktime: 0 }
}

#[test]
fn lookups() {
    let s = Satisfier {
        sigs: vec![(key(2), sig(0xaa, 70)), (key(3), sig(0xbb, 71)), (key(2), sig(0xcc, 72))],
        preimages: vec![([1; 32], [2; 32])],
        age: 10,
        locktime: 500,
    };
    assert!(s.is_wf());
    assert_eq!(s.lookup_sig(&key(2)), Some(pushed(0xaa, 70)));
    assert_eq!(s.lookup_sig(&key(3)), Some(pushed(0xbb, 71)));
    assert_eq!(s.lookup_sig(&key(4)), None);
    assert_eq!(s.lookup_hash256_preimage(&[1; 32]), Some([2; 32]));
    assert_eq!(s.lookup_hash256_preimage(&[2; 32]), None);
    assert!(s.check_older(10));
    assert!(!s.check_older(11));
    assert!(s.check_after(500));
    assert!(!s.check_after(501));
    assert!(!holding(vec![(key(2), sig(0, 73))]).is_wf());
}

#[test]
fn leaves() {
    let s = Satisfier {
        sigs: vec![(key(2), sig(0xaa, 71))],
        preimages: vec![([1; 32], [2; 32])],
        age: 10,
        locktime: 500,
    };
    assert_eq!(T::CastE(boxed(E::CheckSig(key(2)))).satisfy(&s), Some(vec![pushed(0xaa, 71)]));
    assert_eq!(T::CastE(boxed(E::CheckSig(key(3)))).satisfy(&s), None);
    assert_eq!(T::<PublicKey>::Time(10).satisfy(&s), Some(vec![]));
    assert_eq!(T::<PublicKey>::Time(11).satisfy(&s), None);
    assert_eq!(T::<PublicKey>::After(500).satisfy(&s), Some(vec![]));
    assert_eq!(T::<PublicKey>::After(501).satisfy(&s), None);
    assert_eq!(T::<PublicKey>::HashEqual([1; 32]).satisfy(&s), Some(vec![vec![2; 32]]));
    assert_eq!(T::<PublicKey>::HashEqual([3; 32]).satisfy(&s), None);
    assert_eq!(T::CastE(boxed(E::<PublicKey>::Time(10))).satisfy(&s), Some(vec![vec![1]]));
    assert_eq!(E::<PublicKey>::Time(10).dissatisfy(), Some(vec![vec![]]));
    assert_eq!(E::CheckSig(key(2)).dissatisfy(), Some(vec![vec![]]));
    assert_eq!(
        E::CheckMultiSig(2, List::from_vec(vec![key(2), key(3)])).dissatisfy(),
        Some(vec![vec![], vec![], vec![]])
    );
    assert_eq!(
        E::CascadeOr(boxed(E::CheckSig(key(2))), boxed(T::Time(1))).dissatisfy(),
        None
    );
}

#[test]
fn multisig_takes_the_first_signatures_in_the_order_of_the_keys() {
    let s = holding(vec![
        (key(5), sig(5, 70)),
        (key(3), sig(3, 71)),
        (key(2), sig(2, 72)),
    ]);
    let keys = || List::from_vec(vec![key(2), key(3), key(4), key(5)]);
    assert_eq!(
        E::CheckMultiSig(2, keys()).satisfy(&s),
        Some(vec![vec![], pushed(2, 72), pushed(3, 71)])
    );
    assert_eq!(
        E::CheckMultiSig(3, keys()).satisfy(&s),
        Some(vec![vec![], pushed(2, 72), pushed(3, 71), pushed(5, 70)])
    );
    assert_eq!(E::CheckMultiSig(4, keys()).satisfy(&s), None);
    assert_eq!(E::CheckMultiSig(0, keys()).satisfy(&s), Some(vec![vec![]]));
}

#[test]
fn conjunctions_take_both() {
    let s = holding(vec![(key(2), sig(2, 70)), (key(3), sig(3, 71))]);
    // what the left fragment reads stands on top
    assert_eq!(
        E::ParallelAnd(boxed(E::CheckSig(key(2))), boxed(W::CheckSig(key(3)))).satisfy(&s),
        Some(vec![pushed(3, 71), pushed(2, 70)])
    );
    assert_eq!(
        E::ParallelAnd(boxed(E::CheckSig(key(2))), boxed(W::CheckSig(key(4)))).satisfy(&s),
        None
    );
    assert_eq!(
        T::And(boxed(V::CheckSig(key(2))), boxed(T::CastE(boxed(E::CheckSig(key(3))))))
            .satisfy(&s),
        Some(vec![pushed(3, 71), pushed(2, 70)])
    );
    assert_eq!(
        E::CascadeAnd(boxed(E::CheckSig(key(2))), boxed(T::CastE(boxed(E::CheckSig(key(3))))))
            .dissatisfy(),
        Some(vec![vec![]])
    );
}

#[test]
fn disjunctions_take_the_smaller_stack() {
    let both = holding(vec![(key(2), sig(2, 72)), (key(3), sig(3, 70))]);
    let left_only = holding(vec![(key(2), sig(2, 72))]);
    let right_only = holding(vec![(key(3), sig(3, 70))]);
    let same = holding(vec![(key(2), sig(2, 71)), (key(3), sig(3, 71))]);
    let none = holding(vec![]);

    let or_b = T::ParallelOr(boxed(E::CheckSig(key(2))), boxed(W::CheckSig(key(3))));
    assert_eq!(or_b.satisfy(&both), Some(vec![pushed(3, 70), vec![]]));
    assert_eq!(or_b.satisfy(&left_only), Some(vec![vec![], pushed(2, 72)]));
    assert_eq!(or_b.satisfy(&right_only), Some(vec![pushed(3, 70), vec![]]));
    // of two stacks of one size the left branch is taken
    assert_eq!(or_b.satisfy(&same), Some(vec![vec![], pushed(2, 71)]));
    assert_eq!(or_b.satisfy(&none), None);

    let or_d = T::CascadeOr(
        boxed(E::CheckSig(key(2))),
        boxed(T::CastE(boxed(E::CheckSig(key(3))))),
    );
    assert_eq!(or_d.satisfy(&both), Some(vec![pushed(3, 70), vec![]]));
    assert_eq!(or_d.satisfy(&left_only), Some(vec![pushed(2, 72)]));
    assert_eq!(or_d.satisfy(&right_only), Some(vec![pushed(3, 70), vec![]]));
    assert_eq!(or_d.satisfy(&same), Some(vec![pushed(2, 71)]));

    let or_i = T::SwitchOr(
        boxed(T::CastE(boxed(E::CheckSig(key(2))))),
        boxed(T::CastE(boxed(E::CheckSig(key(3))))),
    );
    assert_eq!(or_i.satisfy(&both), Some(vec![pushed(3, 70), vec![]]));
    assert_eq!(or_i.satisfy(&left_only), Some(vec![pushed(2, 72), vec![1]]));
    // the selector of the left branch is one byte longer
    assert_eq!(or_i.satisfy(&same), Some(vec![pushed(3, 71), vec![]]));

    // under every oracle the stack is the smallest of the ways there are
    for s in [&both, &left_only, &right_only, &same] {
        let got = or_i.satisfy(s).unwrap();
        for (k, selector) in [(key(2), vec![1u8]), (key(3), vec![])] {
            if let Some(b) = s.lookup_sig(&k) {
                assert!(size_of(&got) <= size_of(&vec![b, selector]));
            }
        }
    }
}

#[test]
fn thresholds_take_the_first_children_that_can_be_satisfied() {
    let s = holding(vec![(key(3), sig(3, 70)), (key(4), sig(4, 71)), (key(5), sig(5, 72))]);
    let thresh = |k: u32| {
        E::Threshold(
            k,
            boxed(E::CheckSig(key(2))),
            List::from_vec(vec![W::CheckSig(key(3)), W::CheckSig(key(4)), W::CheckSig(key(5))]),
        )
    };
    // the first child stands on top
    assert_eq!(
        thresh(2).satisfy(&s),
        Some(vec![vec![], pushed(4, 71), pushed(3, 70), vec![]])
    );
    assert_eq!(
        thresh(3).satisfy(&s),
        Some(vec![pushed(5, 72), pushed(4, 71), pushed(3, 70), vec![]])
    );
    assert_eq!(thresh(4).satisfy(&s), None);
    assert_eq!(thresh(1).dissatisfy(), Some(vec![vec![], vec![], vec![], vec![]]));
}

#[test]
fn casts_and_selectors() {
    let s = holding(vec![(key(2), sig(2, 70))]);
    let t = || T::CastE(boxed(E::CheckSig(key(2))));
    assert_eq!(E::Likely(boxed(t())).satisfy(&s), Some(vec![pushed(2, 70), vec![]]));
    assert_eq!(E::Unlikely(boxed(t())).satisfy(&s), Some(vec![pushed(2, 70), vec![1]]));
    assert_eq!(E::Likely(boxed(t())).dissatisfy(), Some(vec![vec![1]]));
    assert_eq!(E::Unlikely(boxed(t())).dissatisfy(), Some(vec![vec![]]));
    assert_eq!(
        W::CastE(boxed(E::CheckSig(key(2)))).satisfy(&s),
        Some(vec![pushed(2, 70)])
    );
    assert_eq!(
        E::SwitchOrRight(boxed(E::CheckSig(key(2))), boxed(T::Time(1))).satisfy(&s),
        Some(vec![pushed(2, 70), vec![]])
    );
    assert_eq!(
        E::SwitchOrLeft(boxed(E::CheckSig(key(2))), boxed(T::Time(1))).dissatisfy(),
        Some(vec![vec![], vec![1]])
    );
    assert_eq!(
        T::SwitchOrV(boxed(V::Time(1)), boxed(V::CheckSig(key(2)))).satisfy(&s),
        Some(vec![pushed(2, 70), vec![]])
    );
}

fn input() -> TxIn {
    TxIn {
        previous_output: OutPoint { txid: [7; 32], vout: 3 },
        script_sig: vec![1, 2, 3],
        sequence: 100,
        witness: vec![vec![9]],
    }
}

#[test]
fn every_envelope_with_one_signature_of_71_bytes() {
    let k = key(2);
    let s = holding(vec![(k, sig(0x30, 70))]);
    let signature = pushed(0x30, 70);
    assert_eq!(signature.len(), 71);
    let ms = || Descript(T::CastE(boxed(E::CheckSig(k))));
    let script = ms().serialize();
    let push = |data: &[u8]| {
        let mut out = vec![data.len() as u8];
        out.extend_from_slice(data);
        out
    };

    let spent = |d: Descriptor<PublicKey>| {
        let mut txin = input();
        d.satisfy(&mut txin, &s).expect("satisfaction");
        assert_eq!(txin.previous_output, input().previous_output);
        assert_eq!(txin.sequence, 100);
        (txin.script_sig, txin.witness)
    };

    assert_eq!(spent(Descriptor::Bare(ms())), (push(&signature), vec![]));
    assert_eq!(spent(Descriptor::Pk(k)), (push(&signature), vec![]));
    let mut both = push(&signature);
    both.extend(push(&k.bytes));
    assert_eq!(spent(Descriptor::Pkh(k)), (both, vec![]));
    assert_eq!(
        spent(Descriptor::Wpkh(k)),
        (vec![], vec![signature.clone(), k.bytes.to_vec()])
    );
    let program = Descriptor::Wpkh(k).script_pubkey();
    assert_eq!(
        spent(Descriptor::ShWpkh(k)),
        (push(&program), vec![signature.clone(), k.bytes.to_vec()])
    );
    let mut with_script = push(&signature);
    with_script.extend(push(&script));
    assert_eq!(spent(Descriptor::Sh(ms())), (with_script, vec![]));
    assert_eq!(
        spent(Descriptor::Wsh(ms())),
        (vec![], vec![signature.clone(), script.clone()])
    );
    let program = Descriptor::Wsh(ms()).script_pubkey();
    assert_eq!(
        spent(Descriptor::ShWsh(ms())),
        (push(&program), vec![signature.clone(), script.clone()])
    );
}

#[test]
fn an_input_that_cannot_be_satisfied_is_left_as_it_is() {
    let k = key(2);
    let s = holding(vec![]);
    let ms = || Descript(T::CastE(boxed(E::CheckSig(k))));
    for d in [
        Descriptor::Bare(ms()),
        Descriptor::Sh(ms()),
        Descriptor::Wsh(ms()),
        Descriptor::ShWsh(ms()),
    ] {
        let mut txin = input();
        assert_eq!(d.satisfy(&mut txin, &s), Err(Error::CouldNotSatisfy));
        assert_eq!(txin, input());
    }
    for d in [
        Descriptor::Pk(k),
        Descriptor::Pkh(k),
        Descriptor::Wpkh(k),
        Descriptor::ShWpkh(k),
    ] {
        let mut txin = input();
        assert_eq!(d.satisfy(&mut txin, &s), Err(Error::MissingSig(k)));
        assert_eq!(txin, input());
    }
}

#[test]
fn script_sig_of_small_numbers() {
    // a satisfaction whose elements are selectors is pushed by opcodes
    let s = Satisfier { sigs: vec![], preimages: vec![], age: 5, locktime: 0 };
    let d = Descriptor::Bare(Descript(T::SwitchOr(
        boxed(T::<PublicKey>::Time(5)),
        boxed(T::Time(9)),
    )));
    let mut txin = input();
    d.satisfy(&mut txin, &s).unwrap();
    assert_eq!(txin.script_sig, vec![0x51]);
    assert_eq!(txin.witness, Vec::<Vec<u8>>::new());
}

#[test]
fn weights() {
    let k = key(2);
    let ms = || Descript(T::CastE(boxed(E::CheckSig(k))));
    assert_eq!(ms().0.script_size(), 35);
    assert_eq!(ms().0.max_satisfaction_size(1), Some(73));
    assert_eq!(ms().0.max_satisfaction_witness_elements(), Some(1));
    assert_eq!(Descriptor::Bare(ms()).max_satisfaction_weight(), Some(4 * (1 + 73)));
    assert_eq!(Descriptor::Pk(k).max_satisfaction_weight(), Some(296));
    assert_eq!(Descriptor::Pkh(k).max_satisfaction_weight(), Some(432));
    assert_eq!(Descriptor::Wpkh(k).max_satisfaction_weight(), Some(112));
    assert_eq!(Descriptor::ShWpkh(k).max_satisfaction_weight(), Some(204));
    assert_eq!(Descriptor::Sh(ms()).max_satisfaction_weight(), Some(4 * (1 + 1 + 35 + 73)));
    assert_eq!(Descriptor::Wsh(ms()).max_satisfaction_weight(), Some(4 + 1 + 35 + 1 + 73));
    assert_eq!(
        Descriptor::ShWsh(ms()).max_satisfaction_weight(),
        Some(4 * 36 + 1 + 35 + 1 + 73)
    );

    // a script long enough for a length of three bytes and a second push byte
    let big = || {
        Descript(T::CastE(boxed(E::CheckMultiSig(
            20,
            List::from_vec(vec![k; 20]),
        ))))
    };
    let ss = 2 + 20 * 34 + 2 + 1;
    assert_eq!(big().0.script_size(), ss);
    assert_eq!(big().0.max_satisfaction_size(2), Some(1 + 20 * 73));
    assert_eq!(big().0.max_satisfaction_witness_elements(), Some(21));
    assert_eq!(
        Descriptor::Wsh(big()).max_satisfaction_weight(),
        Some(4 + 3 + ss + 1 + 1 + 20 * 73)
    );
    assert_eq!(
        Descriptor::Sh(big()).max_satisfaction_weight(),
        Some(4 * (3 + 3 + ss + 1 + 20 * 73))
    );

    // the element one costs what the caller says
    let switch = T::<PublicKey>::SwitchOr(boxed(T::Time(1)), boxed(T::Time(2)));
    assert_eq!(switch.max_satisfaction_size(1), Some(1));
    assert_eq!(switch.max_satisfaction_size(2), Some(2));
    assert_eq!(switch.max_satisfaction_witness_elements(), Some(1));
    let or_b = T::ParallelOr(boxed(E::CheckSig(k)), boxed(W::HashEqual([0; 32])));
    assert_eq!(or_b.max_satisfaction_size(1), Some(74));
    assert_eq!(or_b.max_satisfaction_witness_elements(), Some(2));
    assert_eq!(
        T::<PublicKey>::Time(1).max_satisfaction_size(usize::MAX),
        Some(0)
    );
    assert_eq!(switch.max_satisfaction_size(usize::MAX), Some(usize::MAX));
    assert_eq!(
        T::And(
            boxed(V::SwitchOr(boxed(V::<PublicKey>::Time(1)), boxed(V::Time(2)))),
            boxed(T::SwitchOr(boxed(T::Time(1)), boxed(T::Time(2)))),
        )
        .max_satisfaction_size(usize::MAX),
        None
    );
}

#[test]
fn envelopes_are_functions_of_the_descriptor() {
    let k = key(2);
    let d = || Descriptor::ShWsh(Descript(T::CastE(boxed(E::CheckSig(k)))));
    assert_eq!(d().script_pubkey(), d().script_pubkey());
    assert_eq!(d().witness_script(), d().witness_script());
    assert_eq!(d().unsigned_script_sig(), d().unsigned_script_sig());
    assert_eq!(d().address(Network::Testnet), d().address(Network::Testnet));
    assert_eq!(d().max_satisfaction_weight(), d().max_satisfaction_weight());
    assert_ne!(d().address(Network::Testnet), d().address(Network::Bitcoin));
    // the witness script of a key in a witness program is that of its hash
    assert_eq!(Descriptor::Wpkh(k).witness_script(), Descriptor::Pkh(k).script_pubkey());
    assert_eq!(Descriptor::ShWpkh(k).witness_script(), Descriptor::Wpkh(k).script_pubkey());
    assert_eq!(Descriptor::Pk(k).address(Network::Bitcoin), None);
    let theirs = bitcoin::PublicKey::from_slice(&k.bytes).unwrap();
    for (ours, network) in [
        (Network::Bitcoin, bitcoin::Network::Bitcoin),
        (Network::Testnet, bitcoin::Network::Testnet),
        (Network::Regtest, bitcoin::Network::Regtest),
    ] {
        assert_eq!(
            Descriptor::Pkh(k).address(ours).unwrap(),
            bitcoin::Address::p2pkh(&theirs, network).to_string()
        );
        assert_eq!(
            Descriptor::Wpkh(k).address(ours).unwrap(),
            bitcoin::Address::p2wpkh(&theirs, network).to_string()
        );
        assert_eq!(
            Descriptor::ShWpkh(k).address(ours).unwrap(),
            bitcoin::Address::p2shwpkh(&theirs, network).to_string()
        );
        let script = bitcoin::Script::from(d().witness_script());
        assert_eq!(
            d().address(ours).unwrap(),
            bitcoin::Address::p2shwsh(&script, network).to_string()
        );
    }
}

#[test]
fn a_whole_script() {
    let s = holding(vec![(key(2), sig(2, 70))]);
    let script = Descript(T::CastE(boxed(E::CheckSig(key(2)))));
    assert_eq!(script.satisfy(&s), Ok(vec![pushed(2, 70)]));
    assert_eq!(script.satisfy(&holding(vec![])), Err(Error::CouldNotSatisfy));
}

#[test]
fn copies() {
    let k = key(2);
    let tree = Descript(T::And(
        boxed(V::Threshold(
            1,
            boxed(E::CheckMultiSig(1, List::from_vec(vec![k, key(3)]))),
            List::from_vec(vec![W::HashEqual([7; 32]), W::CastE(boxed(E::Likely(boxed(T::After(9)))))]),
        )),
        boxed(T::SwitchOrV(boxed(V::Time(4)), boxed(V::CheckSig(k)))),
    ));
    assert_eq!(tree.duplicate(), tree);
    let d = Descriptor::ShWsh(tree);
    assert_eq!(d.duplicate(), d);
    assert_eq!(Descriptor::Pkh(k).duplicate(), Descriptor::Pkh(k));
}

#[test]
fn translation() {
    let k = key(2);
    let q = key(3);
    let tree = || {
        Descript(T::And(
            boxed(V::CheckMultiSig(1, List::from_vec(vec![k, q]))),
            boxed(T::ParallelOr(boxed(E::CheckSig(q)), boxed(W::CheckSig(k)))),
        ))
    };
    assert_eq!(tree().required_keys(), vec![k, q, q, k]);
    assert_eq!(
        Descript(T::And(
            boxed(V::HashEqual::<PublicKey>([1; 32])),
            boxed(T::HashEqual([2; 32])),
        ))
        .required_hashes(),
        vec![[1; 32], [2; 32]]
    );

    // keys as numbers
    let numbered = tree()
        .translate(&|key: &PublicKey| -> Result<u8, ()> { Ok(key.bytes[32]) })
        .unwrap();
    assert_eq!(
        numbered,
        Descript(T::And(
            boxed(V::CheckMultiSig(1, List::from_vec(vec![2u8, 3]))),
            boxed(T::ParallelOr(boxed(E::CheckSig(3)), boxed(W::CheckSig(2)))),
        ))
    );
    // and back
    let back = numbered
        .translate(&|n: &u8| -> Result<PublicKey, ()> { Ok(key(*n)) })
        .unwrap();
    assert_eq!(back, tree());
    // a translation that keeps the bytes of every key keeps the script
    let same = tree()
        .translate(&|key: &PublicKey| -> Result<PublicKey, ()> {
            Ok(PublicKey::from_slice(&key.bytes).unwrap())
        })
        .unwrap();
    assert_eq!(same.serialize(), tree().serialize());
    // the first error ends the walk
    assert_eq!(
        tree().translate(&|key: &PublicKey| -> Result<u8, u8> {
            if key.bytes[32] == 3 {
                Err(key.bytes[32])
            } else {
                Ok(0)
            }
        }),
        Err(3)
    );

    let d = Descriptor::Wsh(tree());
    let cast = d
        .translate_pk(&|key: &PublicKey| -> Result<String, ()> { Ok(format!("k{}", key.bytes[32])) })
        .unwrap();
    match cast {
        Descriptor::Wsh(Descript(T::And(_, t))) => assert_eq!(
            *t,
            T::ParallelOr(
                boxed(E::CheckSig("k3".to_string())),
                boxed(W::CheckSig("k2".to_string()))
            )
        ),
        _ => panic!("the form of the descriptor changed"),
    }
    assert_eq!(
        Descriptor::Pkh(k).translate_pk(&|_: &PublicKey| -> Result<u8, ()> { Ok(9) }),
        Ok(Descriptor::Pkh(9))
    );
}
