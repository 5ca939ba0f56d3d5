use bitcoin::blockdata::opcodes::all::{OP_CLTV, OP_CSV};
use bitcoin::blockdata::script::Instruction;
use bitcoin::blockdata::{opcodes, script};
use bitcoin::hashes::hex::FromHex;
use bitcoin::hashes::{hash160, sha256};
use bitcoin::secp256k1;
use miniscript::descript::Descript;
use miniscript::descriptor::{Descriptor, OutPoint, TxIn};
use miniscript::key::PublicKey;
use miniscript::primitives::Network;
use miniscript::satisfy::{BitcoinSig, Satisfier};

type StdDescriptor = Descriptor<PublicKey>;
const TEST_PK: &'static str =
    "pk(020000000000000000000000000000000000000000000000000000000000000002)";

fn hex_of(bytes: &[u8]) -> String {
    let mut s = String::new();
    for b in bytes {
        s.push_str(&format!("{:02x}", b));
    }
    s
}

#[test]
fn parse_descriptor() {
    StdDescriptor::from_str("(").unwrap_err();
    StdDescriptor::from_str("(x()").unwrap_err();
    StdDescriptor::from_str("(\u{7f}()3").unwrap_err();
    StdDescriptor::from_str("pk()").unwrap_err();

    StdDescriptor::from_str(TEST_PK).unwrap();
}

#[test]
pub fn script_pubkey() {
    let bare = StdDescriptor::from_str("older(1000)").unwrap();
    assert_eq!(
        bitcoin::Script::from(bare.script_pubkey()),
        bitcoin::Script::from(vec![0x02, 0xe8, 0x03, 0xb2])
    );
    assert_eq!(bare.address(Network::Bitcoin), None);

    let pk = StdDescriptor::from_str(TEST_PK).unwrap();
    assert_eq!(
        bitcoin::Script::from(pk.script_pubkey()),
        bitcoin::Script::from(vec![
            0x21, 0x02, 0x00, 0x00, 0x00, 0x00, 0x00, 0x00, 0x00, 0x00, 0x00, 0x00, 0x00, 0x00,
            0x00, 0x00, 0x00, 0x00, 0x00, 0x00, 0x00, 0x00, 0x00, 0x00, 0x00, 0x00, 0x00, 0x00,
            0x00, 0x00, 0x00, 0x00, 0x00, 0x02, 0xac,
        ])
    );

    let pkh = StdDescriptor::from_str(
        "pkh(\
         020000000000000000000000000000000000000000000000000000000000000002\
         )",
    )
    .unwrap();
    assert_eq!(
        bitcoin::Script::from(pkh.script_pubkey()),
        script::Builder::new()
            .push_opcode(opcodes::all::OP_DUP)
            .push_opcode(opcodes::all::OP_HASH160)
            .push_slice(
                &hash160::Hash::from_hex("84e9ed95a38613f0527ff685a9928abe2d4754d4",).unwrap()
                    [..]
            )
            .push_opcode(opcodes::all::OP_EQUALVERIFY)
            .push_opcode(opcodes::all::OP_CHECKSIG)
            .into_script()
    );
    assert_eq!(
        pkh.address(Network::Bitcoin).unwrap().to_string(),
        "1D7nRvrRgzCg9kYBwhPH3j3Gs6SmsRg3Wq"
    );

    let wpkh = StdDescriptor::from_str(
        "wpkh(\
         020000000000000000000000000000000000000000000000000000000000000002\
         )",
    )
    .unwrap();
    assert_eq!(
        bitcoin::Script::from(wpkh.script_pubkey()),
        script::Builder::new()
            .push_opcode(opcodes::all::OP_PUSHBYTES_0)
            .push_slice(
                &hash160::Hash::from_hex("84e9ed95a38613f0527ff685a9928abe2d4754d4",).unwrap()
                    [..]
            )
            .into_script()
    );
    assert_eq!(
        wpkh.address(Network::Bitcoin).unwrap().to_string(),
        "bc1qsn57m9drscflq5nl76z6ny52hck5w4x5wqd9yt"
    );

    let shwpkh = StdDescriptor::from_str(
        "sh(wpkh(\
         020000000000000000000000000000000000000000000000000000000000000002\
         ))",
    )
    .unwrap();
    assert_eq!(
        bitcoin::Script::from(shwpkh.script_pubkey()),
        script::Builder::new()
            .push_opcode(opcodes::all::OP_HASH160)
            .push_slice(
                &hash160::Hash::from_hex("f1c3b9a431134cb90a500ec06e0067cfa9b8bba7",).unwrap()
                    [..]
            )
            .push_opcode(opcodes::all::OP_EQUAL)
            .into_script()
    );
    assert_eq!(
        shwpkh
            .address(Network::Bitcoin)
            .unwrap()
            .to_string(),
        "3PjMEzoveVbvajcnDDuxcJhsuqPHgydQXq"
    );

    let sh = StdDescriptor::from_str(
        "sh(c:pk_k(\
         020000000000000000000000000000000000000000000000000000000000000002\
         ))",
    )
    .unwrap();
    assert_eq!(
        bitcoin::Script::from(sh.script_pubkey()),
        script::Builder::new()
            .push_opcode(opcodes::all::OP_HASH160)
            .push_slice(
                &hash160::Hash::from_hex("aa5282151694d3f2f32ace7d00ad38f927a33ac8",).unwrap()
                    [..]
            )
            .push_opcode(opcodes::all::OP_EQUAL)
            .into_script()
    );
    assert_eq!(
        sh.address(Network::Bitcoin).unwrap().to_string(),
        "3HDbdvM9CQ6ASnQFUkWw6Z4t3qNwMesJE9"
    );

    let wsh = StdDescriptor::from_str(
        "wsh(c:pk_k(\
         020000000000000000000000000000000000000000000000000000000000000002\
         ))",
    )
    .unwrap();
    assert_eq!(
        bitcoin::Script::from(wsh.script_pubkey()),
        script::Builder::new()
            .push_opcode(opcodes::all::OP_PUSHBYTES_0)
            .push_slice(
                &sha256::Hash::from_hex(
                    "\
                     f9379edc8983152dc781747830075bd5\
                     3896e4b0ce5bff73777fd77d124ba085\
                     "
                )
                .unwrap()[..]
            )
            .into_script()
    );
    assert_eq!(
        wsh.address(Network::Bitcoin).unwrap().to_string(),
        "bc1qlymeahyfsv2jm3upw3urqp6m65ufde9seedl7umh0lth6yjt5zzsk33tv6"
    );

    let shwsh = StdDescriptor::from_str(
        "sh(wsh(c:pk_k(\
         020000000000000000000000000000000000000000000000000000000000000002\
         )))",
    )
    .unwrap();
    assert_eq!(
        bitcoin::Script::from(shwsh.script_pubkey()),
        script::Builder::new()
            .push_opcode(opcodes::all::OP_HASH160)
            .push_slice(
                &hash160::Hash::from_hex("4bec5d7feeed99e1d0a23fe32a4afe126a7ff07e",).unwrap()
                    [..]
            )
            .push_opcode(opcodes::all::OP_EQUAL)
            .into_script()
    );
    assert_eq!(
        shwsh
            .address(Network::Bitcoin)
            .unwrap()
            .to_string(),
        "38cTksiyPT2b1uGRVbVqHdDhW9vKs84N6Z"
    );
}

fn input(script_sig: bitcoin::Script, witness: Vec<Vec<u8>>) -> TxIn {
    TxIn {
        previous_output: OutPoint { txid: [0; 32], vout: 0xffff_ffff },
        script_sig: script_sig.to_bytes(),
        sequence: 100,
        witness,
    }
}

#[test]
fn satisfy() {
    let secp = secp256k1::Secp256k1::new();
    let sk =
        secp256k1::SecretKey::from_slice(&b"sally was a secret key, she said"[..]).unwrap();
    let pk = bitcoin::PublicKey {
        key: secp256k1::PublicKey::from_secret_key(&secp, &sk),
        compressed: true,
    };
    let msg = secp256k1::Message::from_slice(&b"michael was a message, amusingly"[..])
        .expect("32 bytes");
    let sig = secp.sign(&msg, &sk);
    let mut sigser = sig.serialize_der().to_vec();
    sigser.push(0x01); // sighash_all

    let key = PublicKey::from_slice(&pk.to_bytes()).unwrap();
    let satisfier = Satisfier {
        sigs: vec![(
            key,
            BitcoinSig { der: sig.serialize_der().to_vec(), sighash_type: 0x01 },
        )],
        preimages: vec![],
        age: 0,
        locktime: 0,
    };
    let ms_text = format!("c:pk_k({})", pk);
    let ms = || match StdDescriptor::from_str(&ms_text).unwrap() {
        Descriptor::Bare(ms) => ms,
        _ => unreachable!(),
    };
    let ms_script = bitcoin::Script::from(ms().serialize());

    let mut txin = input(bitcoin::Script::new(), vec![]);
    let bare = Descriptor::Bare(ms());

    bare.satisfy(&mut txin, &satisfier).expect("satisfaction");
    assert_eq!(
        txin,
        input(script::Builder::new().push_slice(&sigser[..]).into_script(), vec![])
    );
    assert_eq!(bare.unsigned_script_sig(), bitcoin::Script::new().to_bytes());

    let pkh = Descriptor::Pkh(key);
    pkh.satisfy(&mut txin, &satisfier).expect("satisfaction");
    assert_eq!(
        txin,
        input(
            script::Builder::new()
                .push_slice(&sigser[..])
                .push_key(&pk)
                .into_script(),
            vec![],
        )
    );
    assert_eq!(pkh.unsigned_script_sig(), bitcoin::Script::new().to_bytes());

    let wpkh = Descriptor::Wpkh(key);
    wpkh.satisfy(&mut txin, &satisfier).expect("satisfaction");
    assert_eq!(
        txin,
        input(bitcoin::Script::new(), vec![sigser.clone(), pk.to_bytes(),])
    );
    assert_eq!(wpkh.unsigned_script_sig(), bitcoin::Script::new().to_bytes());

    let shwpkh = Descriptor::ShWpkh(key);
    shwpkh.satisfy(&mut txin, &satisfier).expect("satisfaction");
    let redeem_script = script::Builder::new()
        .push_opcode(opcodes::all::OP_PUSHBYTES_0)
        .push_slice(
            &hash160::Hash::from_hex("d1b2a1faf62e73460af885c687dee3b7189cd8ab").unwrap()[..],
        )
        .into_script();
    assert_eq!(
        txin,
        input(
            script::Builder::new()
                .push_slice(&redeem_script[..])
                .into_script(),
            vec![sigser.clone(), pk.to_bytes(),],
        )
    );
    assert_eq!(
        shwpkh.unsigned_script_sig(),
        script::Builder::new()
            .push_slice(&redeem_script[..])
            .into_script()
            .to_bytes()
    );

    let sh = Descriptor::Sh(ms());
    sh.satisfy(&mut txin, &satisfier).expect("satisfaction");
    assert_eq!(
        txin,
        input(
            script::Builder::new()
                .push_slice(&sigser[..])
                .push_slice(&ms_script[..])
                .into_script(),
            vec![],
        )
    );
    assert_eq!(sh.unsigned_script_sig(), bitcoin::Script::new().to_bytes());

    let wsh = Descriptor::Wsh(ms());
    wsh.satisfy(&mut txin, &satisfier).expect("satisfaction");
    assert_eq!(
        txin,
        input(
            bitcoin::Script::new(),
            vec![sigser.clone(), ms_script.clone().into_bytes(),],
        )
    );
    assert_eq!(wsh.unsigned_script_sig(), bitcoin::Script::new().to_bytes());

    let shwsh = Descriptor::ShWsh(ms());
    shwsh.satisfy(&mut txin, &satisfier).expect("satisfaction");
    assert_eq!(
        txin,
        input(
            script::Builder::new()
                .push_slice(&ms_script.to_v0_p2wsh()[..])
                .into_script(),
            vec![sigser.clone(), ms_script.clone().into_bytes(),],
        )
    );
    assert_eq!(
        shwsh.unsigned_script_sig(),
        script::Builder::new()
            .push_slice(&ms_script.to_v0_p2wsh()[..])
            .into_script()
            .to_bytes()
    );
}

#[test]
fn after_is_cltv() {
    let descriptor = Descriptor::<PublicKey>::from_str("wsh(after(1000))").unwrap();
    let script = bitcoin::Script::from(descriptor.witness_script());

    let actual_instructions: Vec<_> = script.iter(false).collect();
    let check = actual_instructions.last().unwrap();

    assert_eq!(check, &Instruction::Op(OP_CLTV))
}

#[test]
fn older_is_csv() {
    let descriptor = Descriptor::<PublicKey>::from_str("wsh(older(1000))").unwrap();
    let script = bitcoin::Script::from(descriptor.witness_script());

    let actual_instructions: Vec<_> = script.iter(false).collect();
    let check = actual_instructions.last().unwrap();

    assert_eq!(check, &Instruction::Op(OP_CSV))
}

#[test]
fn descriptor_text_round_trip() {
    for text in [
        TEST_PK,
        "pkh(020000000000000000000000000000000000000000000000000000000000000002)",
        "wpkh(020000000000000000000000000000000000000000000000000000000000000002)",
        "sh(wpkh(020000000000000000000000000000000000000000000000000000000000000002))",
        "sh(c:pk_k(020000000000000000000000000000000000000000000000000000000000000002))",
        "wsh(or_d(c:pk_k(020000000000000000000000000000000000000000000000000000000000000002),older(144)))",
        "sh(wsh(and_v(v:older(5),after(1000))))",
        "or_i(older(9),older(7))",
    ] {
        let d = StdDescriptor::from_str(text).unwrap();
        assert_eq!(d.to_string(), text);
        assert_eq!(StdDescriptor::from_str(&d.to_string()).unwrap(), d);
    }
    let _ = hex_of(&[1]);
    let _ = Descript(miniscript::astelem::T::<PublicKey>::Time(1));
}
