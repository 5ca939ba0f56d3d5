use miniscript::astelem::{E, T, V, W};
use miniscript::decode::decode;
use miniscript::descript::Descript;
use miniscript::error::{Context, Error, Found};
use miniscript::key::PublicKey;
use miniscript::list::List;
use miniscript::script::{number_to_bytes, write_element, write_number, write_push};
use miniscript::token::{lex, write_tokens, Token};

fn key(last: u8) -> PublicKey {
    // x = 2 and x = 3 are both on the curve
    let mut bytes = [0u8; 33];
    bytes[0] = 0x02;
    bytes[32] = last;
    PublicKey::from_slice(&bytes).expect("a point on the curve")
}

fn script_of(t: &T<PublicKey>) -> Vec<u8> {
    assert!(t.is_wf());
    t.encode()
}

#[test]
fn numbers_are_minimal() {
    assert_eq!(number_to_bytes(0), Vec::<u8>::new());
    assert_eq!(number_to_bytes(1), vec![0x01]);
    assert_eq!(number_to_bytes(0x7f), vec![0x7f]);
    assert_eq!(number_to_bytes(0x80), vec![0x80, 0x00]);
    assert_eq!(number_to_bytes(0xff), vec![0xff, 0x00]);
    assert_eq!(number_to_bytes(0x100), vec![0x00, 0x01]);
    assert_eq!(number_to_bytes(1000), vec![0xe8, 0x03]);
    assert_eq!(number_to_bytes(0x7fff_ffff), vec![0xff, 0xff, 0xff, 0x7f]);
    assert_eq!(number_to_bytes(0xffff_ffff), vec![0xff, 0xff, 0xff, 0xff, 0x00]);

    for (n, expected) in [
        (0u32, vec![0x00u8]),
        (1, vec![0x51]),
        (16, vec![0x60]),
        (17, vec![0x01, 0x11]),
        (128, vec![0x02, 0x80, 0x00]),
        (10000, vec![0x02, 0x10, 0x27]),
    ] {
        let mut out = vec![0xaa];
        write_number(&mut out, n);
        let mut want = vec![0xaa];
        want.extend(expected);
        assert_eq!(out, want);
    }
}

#[test]
fn numbers_as_the_outside_crate_writes_them() {
    for n in [0u32, 1, 2, 15, 16, 17, 127, 128, 255, 256, 921, 1000, 65535, 65536, 0x7fff_ffff] {
        let mut out = Vec::new();
        write_number(&mut out, n);
        let theirs = bitcoin::blockdata::script::Builder::new()
            .push_int(n as i64)
            .into_script();
        assert_eq!(out, theirs.to_bytes(), "number {}", n);
    }
}

#[test]
fn pushes_as_the_outside_crate_writes_them() {
    for len in [0usize, 1, 2, 20, 32, 33, 75, 76, 77, 255, 256, 257, 65535, 65536, 70000] {
        let data = vec![0x5au8; len];
        let mut out = Vec::new();
        write_push(&mut out, &data);
        let theirs = bitcoin::blockdata::script::Builder::new()
            .push_slice(&data)
            .into_script();
        assert_eq!(out, theirs.to_bytes(), "push of {} bytes", len);
    }
}

#[test]
fn pushes_are_minimal() {
    let mut out = Vec::new();
    write_push(&mut out, &[]);
    assert_eq!(out, vec![0x00]);

    let mut out = Vec::new();
    write_push(&mut out, &[7u8; 75]);
    assert_eq!(out[0], 75);
    assert_eq!(out.len(), 76);

    let mut out = Vec::new();
    write_push(&mut out, &[7u8; 76]);
    assert_eq!(&out[..2], &[0x4c, 76]);
    assert_eq!(out.len(), 78);

    let mut out = Vec::new();
    write_push(&mut out, &[7u8; 256]);
    assert_eq!(&out[..3], &[0x4d, 0x00, 0x01]);

    let mut out = Vec::new();
    write_push(&mut out, &vec![7u8; 65536]);
    assert_eq!(&out[..5], &[0x4e, 0x00, 0x00, 0x01, 0x00]);
}

#[test]
fn witness_elements_in_a_script_sig() {
    let mut out = Vec::new();
    write_element(&mut out, &[]);
    write_element(&mut out, &[0x01]);
    write_element(&mut out, &[0x10]);
    write_element(&mut out, &[0x11]);
    write_element(&mut out, &[0x81]);
    write_element(&mut out, &[0x01, 0x00]);
    assert_eq!(
        out,
        vec![0x00, 0x51, 0x60, 0x01, 0x11, 0x4f, 0x02, 0x01, 0x00]
    );
}

#[test]
fn lexer_reads_every_token() {
    let k = key(2);
    let tokens = vec![
        Token::BoolAnd,
        Token::BoolOr,
        Token::Add,
        Token::Equal,
        Token::EqualVerify,
        Token::CheckSig,
        Token::CheckSigVerify,
        Token::CheckMultiSig,
        Token::CheckMultiSigVerify,
        Token::CheckSequenceVerify,
        Token::CheckLockTimeVerify,
        Token::FromAltStack,
        Token::ToAltStack,
        Token::Drop,
        Token::Dup,
        Token::If,
        Token::IfDup,
        Token::NotIf,
        Token::Else,
        Token::EndIf,
        Token::ZeroNotEqual,
        Token::Size,
        Token::Swap,
        Token::Tuck,
        Token::Verify,
        Token::Hash256([9; 32]),
        Token::Number(0),
        Token::Number(16),
        Token::Number(17),
        Token::Number(0x7fff_ffff),
        Token::Pubkey(k),
        Token::Hash20([3; 20]),
        Token::Hash32([4; 32]),
    ];
    let script = write_tokens(&tokens);
    assert_eq!(lex(&script), Ok(tokens));
}

#[test]
fn lexer_errors() {
    assert_eq!(lex(&[]), Ok(vec![]));
    // a push that ends early
    assert_eq!(lex(&[0x10, 1]), Err(Error::EarlyEnd));
    assert_eq!(lex(&[0x4c]), Err(Error::EarlyEnd));
    assert_eq!(lex(&[0x4c, 0x4c, 0x00]), Err(Error::EarlyEnd));
    assert_eq!(lex(&[0x4d, 0x00]), Err(Error::EarlyEnd));
    assert_eq!(lex(&[0x4e, 0x00, 0x00, 0x00]), Err(Error::EarlyEnd));
    assert_eq!(lex(&[0xaa, 0x20, 0x01]), Err(Error::EarlyEnd));
    // pushes that a shorter opcode could have made
    assert_eq!(lex(&[0x4c, 0x01, 0x69, 0xb2]), Err(Error::NonMinimalPush));
    assert_eq!(lex(&[0x4d, 0x4c, 0x00]), Err(Error::NonMinimalPush));
    assert_eq!(lex(&[0x4e, 0x00, 0x01, 0x00, 0x00]), Err(Error::NonMinimalPush));
    assert_eq!(lex(&[0xb2, 0x4c, 0x4b]), Err(Error::NonMinimalPush));
    // numbers that are not in their shortest form
    assert_eq!(lex(&[0x03, 0x99, 0x03, 0x00, 0xb2]), Err(Error::NonMinimalNumber));
    assert_eq!(lex(&[0x01, 0x01, 0xb2]), Err(Error::NonMinimalNumber));
    assert_eq!(lex(&[0x01, 0x00]), Err(Error::NonMinimalNumber));
    assert_eq!(lex(&[0x02, 0x7f, 0x00]), Err(Error::NonMinimalNumber));
    // pushes that are no token
    assert_eq!(lex(&[0x01, 0x81]), Err(Error::InvalidPush));
    assert_eq!(lex(&[0x05, 1, 2, 3, 4, 5]), Err(Error::InvalidPush));
    let mut long = vec![0x4c, 0x4c];
    long.extend(vec![0u8; 0x4c]);
    assert_eq!(lex(&long), Err(Error::InvalidPush));
    let mut not_a_key = vec![0x21, 0x05];
    not_a_key.extend(vec![0u8; 32]);
    assert_eq!(lex(&not_a_key), Err(Error::InvalidPush));
    // opcodes outside the subset
    assert_eq!(lex(&[0x50]), Err(Error::InvalidOpcode(0x50)));
    assert_eq!(lex(&[0x85, 0x59, 0xb2]), Err(Error::InvalidOpcode(0x85)));
    assert_eq!(lex(&[0xaa]), Err(Error::InvalidOpcode(0xaa)));
    assert_eq!(lex(&[0xaa, 0x14]), Err(Error::InvalidOpcode(0xaa)));
}

#[test]
fn decoder_errors() {
    assert_eq!(decode(&[]), Err(Error::EarlyEnd));
    assert_eq!(
        decode(&[Token::Number(0)]),
        Err(Error::Unexpected(Found::Token(Token::Number(0))))
    );
    assert_eq!(
        decode(&[Token::Verify]),
        Err(Error::Unexpected(Found::Token(Token::Verify)))
    );
    assert_eq!(decode(&[Token::CheckSequenceVerify]), Err(Error::EarlyEnd));
    // a locktime of zero
    assert_eq!(
        decode(&[Token::Number(0), Token::CheckSequenceVerify]),
        Err(Error::Unexpected(Found::Token(Token::Number(0))))
    );
    // what is left over before a complete fragment
    assert_eq!(
        decode(&[Token::If, Token::Number(9), Token::CheckSequenceVerify]),
        Err(Error::Unexpected(Found::Token(Token::If)))
    );
    // more keys than a multisignature takes
    let mut many = vec![Token::Number(1)];
    for _ in 0..21 {
        many.push(Token::Pubkey(key(2)));
    }
    many.push(Token::Number(21));
    many.push(Token::CheckMultiSig);
    assert_eq!(decode(&many), Err(Error::CmsTooManyKeys(21)));
    // more signatures asked for than there are keys
    assert_eq!(
        decode(&[Token::Number(2), Token::Pubkey(key(2)), Token::Number(1), Token::CheckMultiSig]),
        Err(Error::Unexpected(Found::Token(Token::Number(2))))
    );
    // nesting beyond the limit
    let mut deep = Vec::new();
    for _ in 0..600 {
        deep.push(Token::If);
    }
    deep.push(Token::Number(9));
    deep.push(Token::CheckSequenceVerify);
    for _ in 0..600 {
        deep.push(Token::Else);
        deep.push(Token::Number(7));
        deep.push(Token::CheckSequenceVerify);
        deep.push(Token::EndIf);
    }
    assert_eq!(decode(&deep), Err(Error::ContextError(Context::Depth)));
}

fn boxed<X>(x: X) -> Box<X> {
    Box::new(x)
}

fn every_variant() -> Vec<T<PublicKey>> {
    let k = key(2);
    let q = key(3);
    let h = [0x42u8; 32];
    let e = || E::CheckSig(k);
    let w = || W::CheckSig(q);
    let v = || V::CheckSig(k);
    let t = || T::Time(144);
    vec![
        T::Time(1),
        T::Time(0x7fff_ffff),
        T::After(500_000),
        T::HashEqual(h),
        T::And(boxed(v()), boxed(t())),
        T::And(boxed(V::And(boxed(v()), boxed(V::Time(5)))), boxed(t())),
        T::ParallelOr(boxed(e()), boxed(w())),
        T::CascadeOr(boxed(e()), boxed(t())),
        T::SwitchOr(boxed(t()), boxed(T::After(7))),
        T::SwitchOrV(boxed(v()), boxed(V::HashEqual(h))),
        T::CastE(boxed(E::CheckSig(k))),
        T::CastE(boxed(E::CheckMultiSig(2, List::from_vec(vec![k, q, k])))),
        T::CastE(boxed(E::Time(10))),
        T::CastE(boxed(E::Threshold(
            2,
            boxed(e()),
            List::from_vec(vec![w(), W::HashEqual(h), W::Time(9), W::CastE(boxed(e()))]),
        ))),
        T::CastE(boxed(E::ParallelAnd(boxed(e()), boxed(w())))),
        T::CastE(boxed(E::CascadeAnd(boxed(e()), boxed(t())))),
        T::CastE(boxed(E::Likely(boxed(t())))),
        T::CastE(boxed(E::Unlikely(boxed(t())))),
        T::ParallelOr(
            boxed(E::ParallelOr(boxed(e()), boxed(w()))),
            boxed(W::CastE(boxed(E::CascadeOr(boxed(e()), boxed(t()))))),
        ),
        T::ParallelOr(
            boxed(E::SwitchOrLeft(boxed(e()), boxed(t()))),
            boxed(W::CastE(boxed(E::SwitchOrRight(boxed(e()), boxed(t()))))),
        ),
        T::And(boxed(V::CheckMultiSig(1, List::from_vec(vec![k]))), boxed(t())),
        T::And(boxed(V::SwitchOr(boxed(v()), boxed(V::Time(3)))), boxed(t())),
        T::And(boxed(V::SwitchOrT(boxed(t()), boxed(T::After(3)))), boxed(t())),
        T::And(boxed(V::CascadeOr(boxed(e()), boxed(v()))), boxed(t())),
        T::And(
            boxed(V::Threshold(1, boxed(e()), List::from_vec(vec![w()]))),
            boxed(t()),
        ),
    ]
}

#[test]
fn every_variant_is_read_back_from_its_script() {
    for t in every_variant() {
        let script = script_of(&t);
        let back = Descript::parse(&script).expect("a script that was written");
        assert_eq!(back.0, t);
        assert_eq!(back.serialize(), script);
    }
}

#[test]
fn decoder_settles_on_one_tree() {
    let k = key(2);
    // a disjunction at the place of a T is a T
    let cast = T::CastE(boxed(E::ParallelOr(boxed(E::CheckSig(k)), boxed(W::CheckSig(k)))));
    let plain = T::ParallelOr(boxed(E::CheckSig(k)), boxed(W::CheckSig(k)));
    assert_eq!(script_of(&cast), script_of(&plain));
    assert_eq!(Descript::parse(&script_of(&cast)).unwrap().0, plain);

    // a switch at the place of an E has its E on the left where it can
    let right = E::SwitchOrRight(boxed(E::CheckSig(k)), boxed(T::CastE(boxed(E::Time(4)))));
    let left = E::SwitchOrLeft(boxed(E::Time(4)), boxed(T::CastE(boxed(E::CheckSig(k)))));
    let wrap = |e: E<PublicKey>| T::ParallelOr(boxed(e), boxed(W::CheckSig(k)));
    assert_eq!(script_of(&wrap(right)), script_of(&wrap(E::SwitchOrLeft(
        boxed(E::Time(4)),
        boxed(T::CastE(boxed(E::CheckSig(k)))),
    ))));
    assert_eq!(
        Descript::parse(&script_of(&wrap(left))).unwrap().0,
        wrap(E::SwitchOrLeft(boxed(E::Time(4)), boxed(T::CastE(boxed(E::CheckSig(k))))))
    );

    // a sequence of V is nested to the left
    let v = |n: u32| V::Time(n);
    let right_nested = T::And(
        boxed(v(1)),
        boxed(T::And(boxed(v(2)), boxed(T::Time(3)))),
    );
    let left_nested = T::And(boxed(V::And(boxed(v(1)), boxed(v(2)))), boxed(T::Time(3)));
    assert_eq!(script_of(&right_nested), script_of(&left_nested));
    assert_eq!(Descript::parse(&script_of(&right_nested)).unwrap().0, left_nested);
}

#[test]
fn parallel_or_of_an_empty_multisig() {
    let k = key(2);
    let t = T::ParallelOr(
        boxed(E::CheckMultiSig(0, List::from_vec(vec![]))),
        boxed(W::CheckSig(k)),
    );
    let mut tokens = Vec::new();
    t.emit(&mut tokens);
    assert_eq!(
        tokens,
        vec![
            Token::Number(0),
            Token::Number(0),
            Token::CheckMultiSig,
            Token::Swap,
            Token::Pubkey(k),
            Token::CheckSig,
            Token::BoolOr,
        ]
    );
}

#[test]
fn scripts_that_are_refused() {
    let refused: Vec<Vec<u8>> = vec![
        vec![],
        vec![0x00],
        vec![0x50],
        vec![0x69],
        vec![0x10, 0x01],
        vec![0x03, 0x99, 0x03, 0x00, 0xb2],
        vec![0x85, 0x59, 0xb2],
        vec![0x4c, 0x01, 0x69, 0xb2],
        vec![0x00, 0x00, 0xaf, 0x00, 0x00, 0xae, 0x85],
        vec![0x00, 0x00, 0xaf, 0x00, 0x00, 0xae, 0x9b],
    ];
    for script in refused {
        assert!(Descript::parse(&script).is_err(), "{:?}", script);
    }
}

#[test]
fn well_formedness_is_checked() {
    let k = key(2);
    assert!(T::<PublicKey>::Time(1).is_wf());
    assert!(!T::<PublicKey>::Time(0).is_wf());
    assert!(!T::<PublicKey>::After(0x8000_0000).is_wf());
    assert!(!T::CastE(boxed(E::CheckMultiSig(2, List::from_vec(vec![k])))).is_wf());
    assert!(!T::CastE(boxed(E::CheckMultiSig(0, List::from_vec(vec![k; 21])))).is_wf());
    assert!(T::CastE(boxed(E::CheckMultiSig(20, List::from_vec(vec![k; 20])))).is_wf());
    assert!(!T::CastE(boxed(E::Threshold(0, boxed(E::CheckSig(k)), List::from_vec(vec![])))).is_wf());
    assert!(!T::CastE(boxed(E::Threshold(2, boxed(E::CheckSig(k)), List::from_vec(vec![])))).is_wf());
    assert!(T::CastE(boxed(E::Threshold(1, boxed(E::CheckSig(k)), List::from_vec(vec![])))).is_wf());
}
