use bitcoin::secp256k1;
use miniscript::astelem::{E, T, V, W};
use miniscript::descript::Descript;
use miniscript::key::PublicKey;
use miniscript::list::List;

fn pubkeys(n: usize) -> Vec<PublicKey> {
    let mut ret = Vec::with_capacity(n);
    let secp = secp256k1::Secp256k1::new();
    let mut sk = [0; 32];
    for i in 1..n + 1 {
        sk[0] = i as u8;
        sk[1] = (i >> 8) as u8;
        sk[2] = (i >> 16) as u8;

        let pk = secp256k1::PublicKey::from_secret_key(
            &secp,
            &secp256k1::SecretKey::from_slice(&sk[..]).expect("secret key"),
        );
        ret.push(PublicKey::from_slice(&pk.serialize()[..]).expect("public key"));
    }
    ret
}

// The script as the outside crate prints it, with the name that the
// expected values have for the opcode of relative locktime.
fn printed(script: &[u8]) -> String {
    bitcoin::Script::from(script.to_vec())
        .to_string()
        .replace("OP_CSV", "OP_NOP3")
}

fn roundtrip(tree: &Descript<PublicKey>, s: &str) {
    let ser = tree.serialize();
    assert_eq!(printed(&ser), s);
    let deser = Descript::parse(&ser).expect("deserialize result of serialize");
    assert_eq!(tree, &deser);
}

fn empty_hash() -> [u8; 32] {
    bitcoin::hashes::Hash::into_inner(<bitcoin::hashes::sha256d::Hash as bitcoin::hashes::Hash>::hash(&[]))
}

#[test]
fn serialize() {
    let keys = pubkeys(5);

    roundtrip(
        &Descript(T::CastE(Box::new(E::CheckSig(keys[0].clone())))),
        "Script(OP_PUSHBYTES_33 028c28a97bf8298bc0d23d8c749452a32e694b65e30a9472a3954ab30fe5324caa OP_CHECKSIG)"
    );
    roundtrip(
        &Descript(T::CastE(Box::new(E::CheckMultiSig(3, List::from_vec(keys.clone()))))),
        "Script(OP_PUSHNUM_3 OP_PUSHBYTES_33 028c28a97bf8298bc0d23d8c749452a32e694b65e30a9472a3954ab30fe5324caa OP_PUSHBYTES_33 03ab1ac1872a38a2f196bed5a6047f0da2c8130fe8de49fc4d5dfb201f7611d8e2 OP_PUSHBYTES_33 039729247032c0dfcf45b4841fcd72f6e9a2422631fc3466cf863e87154754dd40 OP_PUSHBYTES_33 032564fe9b5beef82d3703a607253f31ef8ea1b365772df434226aee642651b3fa OP_PUSHBYTES_33 0289637f97580a796e050791ad5a2f27af1803645d95df021a3c2d82eb8c2ca7ff OP_PUSHNUM_5 OP_CHECKMULTISIG)"
    );

    // Liquid policy
    roundtrip(
        &Descript(T::CascadeOr(
            Box::new(E::CheckMultiSig(2, List::from_vec(keys[0..2].to_owned()))),
            Box::new(T::And(
                 Box::new(V::CheckMultiSig(2, List::from_vec(keys[3..5].to_owned()))),
                 Box::new(T::Time(10000)),
             ),
         ))),
         "Script(OP_PUSHNUM_2 OP_PUSHBYTES_33 028c28a97bf8298bc0d23d8c749452a32e694b65e30a9472a3954ab30fe5324caa \
                              OP_PUSHBYTES_33 03ab1ac1872a38a2f196bed5a6047f0da2c8130fe8de49fc4d5dfb201f7611d8e2 \
                              OP_PUSHNUM_2 OP_CHECKMULTISIG \
                 OP_IFDUP OP_NOTIF \
                     OP_PUSHNUM_2 OP_PUSHBYTES_33 032564fe9b5beef82d3703a607253f31ef8ea1b365772df434226aee642651b3fa \
                                  OP_PUSHBYTES_33 0289637f97580a796e050791ad5a2f27af1803645d95df021a3c2d82eb8c2ca7ff \
                                  OP_PUSHNUM_2 OP_CHECKMULTISIGVERIFY \
                     OP_PUSHBYTES_2 1027 OP_NOP3 \
                 OP_ENDIF)"
     );

    roundtrip(
        &Descript(T::Time(921)),
        "Script(OP_PUSHBYTES_2 9903 OP_NOP3)"
    );

    roundtrip(
        &Descript(T::HashEqual(empty_hash())),
        "Script(OP_SIZE OP_PUSHBYTES_1 20 OP_EQUALVERIFY OP_HASH256 OP_PUSHBYTES_32 5df6e0e2761359d30a8275058e299fcc0381534545f55cf43e41983f5d4c9456 OP_EQUAL)"
    );

    roundtrip(
        &Descript(T::CastE(Box::new(E::CheckMultiSig(3, List::from_vec(keys[0..5].to_owned()))))),
        "Script(OP_PUSHNUM_3 \
                OP_PUSHBYTES_33 028c28a97bf8298bc0d23d8c749452a32e694b65e30a9472a3954ab30fe5324caa \
                OP_PUSHBYTES_33 03ab1ac1872a38a2f196bed5a6047f0da2c8130fe8de49fc4d5dfb201f7611d8e2 \
                OP_PUSHBYTES_33 039729247032c0dfcf45b4841fcd72f6e9a2422631fc3466cf863e87154754dd40 \
                OP_PUSHBYTES_33 032564fe9b5beef82d3703a607253f31ef8ea1b365772df434226aee642651b3fa \
                OP_PUSHBYTES_33 0289637f97580a796e050791ad5a2f27af1803645d95df021a3c2d82eb8c2ca7ff \
                OP_PUSHNUM_5 OP_CHECKMULTISIG)"
    );

    roundtrip(
        &Descript(T::HashEqual(empty_hash())),
        "Script(OP_SIZE OP_PUSHBYTES_1 20 OP_EQUALVERIFY OP_HASH256 OP_PUSHBYTES_32 5df6e0e2761359d30a8275058e299fcc0381534545f55cf43e41983f5d4c9456 OP_EQUAL)"
    );

    roundtrip(
        &Descript(T::SwitchOrV(
            Box::new(V::CheckSig(keys[0].clone())),
            Box::new(V::And(
                Box::new(V::CheckSig(keys[1].clone())),
                Box::new(V::CheckSig(keys[2].clone())),
            )),
        )),
        "Script(OP_IF \
            OP_PUSHBYTES_33 028c28a97bf8298bc0d23d8c749452a32e694b65e30a9472a3954ab30fe5324caa OP_CHECKSIGVERIFY \
            OP_ELSE \
            OP_PUSHBYTES_33 03ab1ac1872a38a2f196bed5a6047f0da2c8130fe8de49fc4d5dfb201f7611d8e2 OP_CHECKSIGVERIFY \
            OP_PUSHBYTES_33 039729247032c0dfcf45b4841fcd72f6e9a2422631fc3466cf863e87154754dd40 OP_CHECKSIGVERIFY \
            OP_ENDIF OP_PUSHNUM_1)"
    );

    // fuzzer
    roundtrip(
        &Descript(T::SwitchOr(
            Box::new(T::Time(9)),
            Box::new(T::Time(7)),
        )),
        "Script(OP_IF OP_PUSHNUM_9 OP_NOP3 OP_ELSE OP_PUSHNUM_7 OP_NOP3 OP_ENDIF)"
    );

    roundtrip(
        &Descript(T::And(
            Box::new(V::SwitchOrT(
                Box::new(T::Time(9)),
                Box::new(T::Time(7)),
            )),
            Box::new(T::Time(7))
        )),
        "Script(OP_IF OP_PUSHNUM_9 OP_NOP3 OP_ELSE OP_PUSHNUM_7 OP_NOP3 OP_ENDIF OP_VERIFY OP_PUSHNUM_7 OP_NOP3)"
    );

    roundtrip(
        &Descript(T::ParallelOr(
            Box::new(E::CheckMultiSig(0, List::from_vec(vec![]))),
            Box::new(W::CheckSig(keys[0].clone())),
        )),
        "Script(OP_0 OP_0 OP_CHECKMULTISIG OP_SWAP OP_PUSHBYTES_33 028c28a97bf8298bc0d23d8c749452a32e694b65e30a9472a3954ab30fe5324caa OP_CHECKSIG OP_BOOLOR)"
    );
}

#[test]
fn deserialize() {
    // Most of these came from fuzzing, hence the increasing lengths
    assert!(Descript::parse(&[]).is_err()); // empty script
    assert!(Descript::parse(&[0]).is_err()); // FALSE and nothing else
    assert!(Descript::parse(&[0x50]).is_err()); // TRUE and nothing else
    assert!(Descript::parse(&[0x69]).is_err()); // VERIFY and nothing else
    assert!(Descript::parse(&[0x10, 1]).is_err()); // incomplete push and nothing else
    assert!(Descript::parse(&[0x03, 0x99, 0x03, 0x00, 0xb2]).is_err()); // non-minimal #
    assert!(Descript::parse(&[0x85, 0x59, 0xb2]).is_err()); // leading bytes
    assert!(Descript::parse(&[0x4c, 0x01, 0x69, 0xb2]).is_err()); // nonminimal push
    assert!(Descript::parse(&[0x00, 0x00, 0xaf, 0x01, 0x01, 0xb2]).is_err()); // nonminimal number

    assert!(Descript::parse(&[0x00, 0x00, 0xaf, 0x00, 0x00, 0xae, 0x85]).is_err()); // OR not BOOLOR
    assert!(Descript::parse(&[0x00, 0x00, 0xaf, 0x00, 0x00, 0xae, 0x9b]).is_err()); // parallel OR without wrapping
}
