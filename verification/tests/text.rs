use miniscript::astelem::{E, T, V, W};
use miniscript::descript::Descript;
use miniscript::descriptor::Descriptor;
use miniscript::error::{Context, Error, Found};
use miniscript::expression::Tree;
use miniscript::key::PublicKey;
use miniscript::list::List;
use miniscript::text::{read_decimal, read_hash, read_hex, read_key, write_decimal, write_hex};

const KEY: &str = "020000000000000000000000000000000000000000000000000000000000000002";
const KEY3: &str = "020000000000000000000000000000000000000000000000000000000000000003";
const HASH: &str = "4242424242424242424242424242424242424242424242424242424242424242";

fn key(last: u8) -> PublicKey {
    let mut bytes = [0u8; 33];
    bytes[0] = 0x02;
    bytes[32] = last;
    PublicKey::from_slice(&bytes).expect("a point on the curve")
}

fn boxed<X>(x: X) -> Box<X> {
    Box::new(x)
}

fn name(s: &str) -> Vec<u8> {
    s.as_bytes().to_vec()
}

fn leaf(s: &str) -> Tree {
    Tree { name: name(s), args: vec![] }
}

#[test]
fn decimal_numbers() {
    assert_eq!(read_decimal(b""), None);
    assert_eq!(read_decimal(b"0"), Some(Some(0)));
    assert_eq!(read_decimal(b"007"), Some(Some(7)));
    assert_eq!(read_decimal(b"1000"), Some(Some(1000)));
    assert_eq!(read_decimal(b"4294967295"), Some(Some(4294967295)));
    assert_eq!(read_decimal(b"4294967296"), Some(None));
    assert_eq!(read_decimal(b"99999999999999999999999999999999"), Some(None));
    assert_eq!(read_decimal(b"12a"), None);
    assert_eq!(read_decimal(b"-1"), None);
    assert_eq!(read_decimal(b"+1"), None);

    for (n, text) in [(0u32, "0"), (9, "9"), (10, "10"), (1000, "1000"), (4294967295, "4294967295")] {
        let mut out = name("n=");
        write_decimal(&mut out, n);
        assert_eq!(out, name(&format!("n={}", text)));
        assert_eq!(read_decimal(text.as_bytes()), Some(Some(n)));
    }
}

#[test]
fn hexadecimal_digits() {
    assert_eq!(read_hex(b""), Some(vec![]));
    assert_eq!(read_hex(b"00ff"), Some(vec![0x00, 0xff]));
    assert_eq!(read_hex(b"AbCd"), Some(vec![0xab, 0xcd]));
    assert_eq!(read_hex(b"0"), None);
    assert_eq!(read_hex(b"0g"), None);
    let mut out = name("x");
    write_hex(&mut out, &[0x00, 0x0f, 0xa5, 0xff]);
    assert_eq!(out, name("x000fa5ff"));

    assert_eq!(read_key(KEY.as_bytes()), Some(key(2)));
    assert_eq!(read_key(&KEY.as_bytes()[2..]), None);
    assert_eq!(
        read_key(b"050000000000000000000000000000000000000000000000000000000000000002"),
        None
    );
    assert_eq!(read_hash(HASH.as_bytes()), Some([0x42; 32]));
    assert_eq!(read_hash(&HASH.as_bytes()[2..]), None);
}

#[test]
fn expressions() {
    assert_eq!(Tree::from_str("a"), Ok(leaf("a")));
    assert_eq!(Tree::from_str(""), Ok(leaf("")));
    assert_eq!(
        Tree::from_str("pk()"),
        Ok(Tree { name: name("pk"), args: vec![leaf("")] })
    );
    assert_eq!(
        Tree::from_str("f(a,g(b,c),d)"),
        Ok(Tree {
            name: name("f"),
            args: vec![
                leaf("a"),
                Tree { name: name("g"), args: vec![leaf("b"), leaf("c")] },
                leaf("d"),
            ],
        })
    );
    assert_eq!(Tree::from_str("("), Err(Error::ExpectedChar(b')')));
    assert_eq!(Tree::from_str("(x()"), Err(Error::ExpectedChar(b')')));
    assert_eq!(Tree::from_str("f(a)b)"), Err(Error::Trailing(name("b)"))));
    assert_eq!(Tree::from_str("f(a(b)c)"), Err(Error::ExpectedChar(b',')));
    assert_eq!(Tree::from_str("a,b"), Err(Error::Trailing(name(",b"))));
    assert_eq!(Tree::from_str("a)"), Err(Error::Trailing(name(")"))));
    assert_eq!(Tree::from_str("f(\n)"), Err(Error::Unprintable(b'\n')));
    assert_eq!(Tree::from_str("f(\u{e9})"), Err(Error::Unprintable(0xc3)));
    assert_eq!(
        Tree::from_bytes(b"f(\x7f)"),
        Ok(Tree { name: name("f"), args: vec![leaf("\x7f")] })
    );
    let deep = "f(".repeat(600);
    assert_eq!(Tree::from_str(&deep), Err(Error::ContextError(Context::Depth)));
}

fn parsed(text: &str) -> T<PublicKey> {
    match Descriptor::from_str(text) {
        Ok(Descriptor::Bare(Descript(t))) => t,
        other => panic!("{}: {:?}", text, other),
    }
}

#[test]
fn every_fragment_has_its_text() {
    let k = key(2);
    let q = key(3);
    let h = [0x42u8; 32];
    let cases: Vec<(String, T<PublicKey>)> = vec![
        ("older(144)".into(), T::Time(144)),
        ("after(1000)".into(), T::After(1000)),
        (format!("hash256({})", HASH), T::HashEqual(h)),
        (
            format!("and_v(vc:pk_k({}),older(1))", KEY),
            T::And(boxed(V::CheckSig(k)), boxed(T::Time(1))),
        ),
        (
            format!("or_b(c:pk_k({}),sc:pk_k({}))", KEY, KEY3),
            T::ParallelOr(boxed(E::CheckSig(k)), boxed(W::CheckSig(q))),
        ),
        (
            format!("or_d(c:pk_k({}),older(2))", KEY),
            T::CascadeOr(boxed(E::CheckSig(k)), boxed(T::Time(2))),
        ),
        (
            "or_i(older(9),after(7))".into(),
            T::SwitchOr(boxed(T::Time(9)), boxed(T::After(7))),
        ),
        (
            format!("t:or_i(v:older(9),v:hash256({}))", HASH),
            T::SwitchOrV(boxed(V::Time(9)), boxed(V::HashEqual(h))),
        ),
        (format!("c:pk_k({})", KEY), T::CastE(boxed(E::CheckSig(k)))),
        (
            format!("multi(1,{},{})", KEY, KEY3),
            T::CastE(boxed(E::CheckMultiSig(1, List::from_vec(vec![k, q])))),
        ),
        ("multi(0)".into(), T::CastE(boxed(E::CheckMultiSig(0, List::from_vec(vec![]))))),
        ("dv:older(5)".into(), T::CastE(boxed(E::Time(5)))),
        (
            format!("thresh(2,c:pk_k({}),sc:pk_k({}),sjtv:hash256({}),sdv:older(3),ac:pk_k({}))", KEY, KEY3, HASH, KEY),
            T::CastE(boxed(E::Threshold(
                2,
                boxed(E::CheckSig(k)),
                List::from_vec(vec![
                    W::CheckSig(q),
                    W::HashEqual(h),
                    W::Time(3),
                    W::CastE(boxed(E::CheckSig(k))),
                ]),
            ))),
        ),
        (
            format!("and_b(c:pk_k({}),a:and_b(dv:older(1),sdv:older(2)))", KEY),
            T::CastE(boxed(E::ParallelAnd(
                boxed(E::CheckSig(k)),
                boxed(W::CastE(boxed(E::ParallelAnd(boxed(E::Time(1)), boxed(W::Time(2)))))),
            ))),
        ),
        (
            format!("andor(c:pk_k({}),older(6),0)", KEY),
            T::CastE(boxed(E::CascadeAnd(boxed(E::CheckSig(k)), boxed(T::Time(6))))),
        ),
        ("l:older(6)".into(), T::CastE(boxed(E::Likely(boxed(T::Time(6)))))),
        ("u:after(6)".into(), T::CastE(boxed(E::Unlikely(boxed(T::After(6)))))),
        (
            format!("luc:pk_k({})", KEY),
            T::CastE(boxed(E::Likely(boxed(T::CastE(boxed(E::Unlikely(boxed(T::CastE(
                boxed(E::CheckSig(k)),
            ))))))))),
        ),
        (
            format!("or_b(or_i(c:pk_k({}),older(1)),a:or_i(older(2),c:pk_k({})))", KEY, KEY3),
            T::ParallelOr(
                boxed(E::SwitchOrLeft(boxed(E::CheckSig(k)), boxed(T::Time(1)))),
                boxed(W::CastE(boxed(E::SwitchOrRight(
                    boxed(E::CheckSig(q)),
                    boxed(T::Time(2)),
                )))),
            ),
        ),
        (
            format!("and_v(v:multi(1,{}),older(1))", KEY),
            T::And(boxed(V::CheckMultiSig(1, List::from_vec(vec![k]))), boxed(T::Time(1))),
        ),
        (
            "and_v(and_v(v:older(1),v:older(2)),older(3))".into(),
            T::And(
                boxed(V::And(boxed(V::Time(1)), boxed(V::Time(2)))),
                boxed(T::Time(3)),
            ),
        ),
        (
            "and_v(or_i(v:older(1),v:older(2)),older(3))".into(),
            T::And(
                boxed(V::SwitchOr(boxed(V::Time(1)), boxed(V::Time(2)))),
                boxed(T::Time(3)),
            ),
        ),
        (
            "and_v(v:or_i(older(1),older(2)),older(3))".into(),
            T::And(
                boxed(V::SwitchOrT(boxed(T::Time(1)), boxed(T::Time(2)))),
                boxed(T::Time(3)),
            ),
        ),
        (
            format!("and_v(or_c(c:pk_k({}),v:older(2)),older(3))", KEY),
            T::And(
                boxed(V::CascadeOr(boxed(E::CheckSig(k)), boxed(V::Time(2)))),
                boxed(T::Time(3)),
            ),
        ),
        (
            format!("and_v(v:thresh(1,c:pk_k({})),older(3))", KEY),
            T::And(
                boxed(V::Threshold(1, boxed(E::CheckSig(k)), List::from_vec(vec![]))),
                boxed(T::Time(3)),
            ),
        ),
    ];
    for (text, tree) in cases {
        assert_eq!(parsed(&text), tree, "{}", text);
        assert_eq!(Descript(tree).to_string(), text);
        // the text and the Script of a fragment spell the same tree
        let script = parsed(&text).encode();
        assert_eq!(Descript::parse(&script).unwrap().0, parsed(&text), "{}", text);
    }
}

#[test]
fn text_that_is_not_canonical_is_read_too() {
    assert_eq!(parsed("older(007)"), T::Time(7));
    assert_eq!(
        parsed(&format!("c:pk_k({})", KEY.to_uppercase())),
        T::CastE(boxed(E::CheckSig(key(2))))
    );
}

fn refused(text: &str) -> Error {
    Descriptor::from_str(text).expect_err(text)
}

#[test]
fn every_error_of_the_text() {
    assert_eq!(refused("f(\t)"), Error::Unprintable(b'\t'));
    assert_eq!(refused("older(1"), Error::ExpectedChar(b')'));
    assert_eq!(refused("older(1)x"), Error::Trailing(name("x")));
    assert_eq!(refused("v:c:pk_k(1)"), Error::MultiColon(name("v:c:pk_k")));
    assert_eq!(refused("v:(1)"), Error::MissingExt);
    assert_eq!(refused("9@older(1)"), Error::AtOutsideOr(name("9@older")));
    assert_eq!(refused("frob(1)"), Error::Unexpected(Found::Name(name("frob"))));
    assert_eq!(refused("older(x)"), Error::Unexpected(Found::Name(name("x"))));
    assert_eq!(refused("older(f(1))"), Error::Unexpected(Found::Name(name("f"))));
    assert_eq!(refused(&format!("pk({})", &KEY[2..])), Error::Unexpected(Found::Name(name(&KEY[2..]))));
    assert_eq!(refused("pk()"), Error::Unexpected(Found::Name(name(""))));
    assert_eq!(refused("hash256(00)"), Error::Unexpected(Found::Name(name("00"))));
    assert_eq!(refused("older(4294967296)"), Error::NumberOverflow);
    assert_eq!(refused("older(0)"), Error::TypeCheck(name("0")));
    assert_eq!(refused("older(2147483648)"), Error::TypeCheck(name("2147483648")));
    assert_eq!(refused("older(1,2)"), Error::TypeCheck(name("older")));
    assert_eq!(refused("older"), Error::TypeCheck(name("older")));
    assert_eq!(refused("sha256(00)"), Error::TypeCheck(name("sha256")));
    assert_eq!(refused("pk_h(00)"), Error::TypeCheck(name("pk_h")));
    assert_eq!(refused(&format!("multi(2,{})", KEY)), Error::TypeCheck(name("multi")));
    assert_eq!(refused("thresh(1)"), Error::TypeCheck(name("thresh")));
    assert_eq!(
        refused(&format!("thresh(3,c:pk_k({}),sc:pk_k({}))", KEY, KEY)),
        Error::TypeCheck(name("thresh"))
    );
    assert_eq!(
        refused(&format!("andor(c:pk_k({}),older(1),older(2))", KEY)),
        Error::TypeCheck(name("andor"))
    );
    // a fragment of another type where an E is asked for
    assert_eq!(
        refused(&format!("or_b(older(1),sc:pk_k({}))", KEY)),
        Error::TypeCheck(name("older"))
    );
    // an envelope where a fragment is asked for
    assert_eq!(refused("wsh(wsh(older(1)))"), Error::BadDescriptor);
    assert_eq!(refused("pk(1,2)"), Error::BadDescriptor);
    assert_eq!(refused(&format!("wsh(pk({}))", KEY)), Error::BadDescriptor);
    // fragments that cannot stand at the top
    assert_eq!(refused("v:older(1)"), Error::NonTopLevel(name("v:older")));
    assert_eq!(refused(&format!("sc:pk_k({})", KEY)), Error::NonTopLevel(name("sc:pk_k")));
    assert_eq!(refused("wsh(v:older(1))"), Error::NonTopLevel(name("v:older")));
    // too many keys
    let mut multi = String::from("multi(1");
    for _ in 0..21 {
        multi.push(',');
        multi.push_str(KEY);
    }
    multi.push(')');
    assert_eq!(refused(&multi), Error::CmsTooManyKeys(21));
    // nesting beyond the limit
    let mut deep = String::new();
    for _ in 0..300 {
        deep.push_str("l:");
        deep.push_str("or_i(older(1),");
    }
    deep.push_str("older(1)");
    for _ in 0..300 {
        deep.push(')');
    }
    assert_eq!(refused(&deep), Error::ContextError(Context::Depth));
}

#[test]
fn every_error_has_its_line() {
    let shown = |e: Error| e.to_string();
    assert_eq!(shown(Error::Unexpected(Found::Name(name("frob")))), "unexpected frob");
    assert_eq!(
        shown(Error::Unexpected(Found::Token(miniscript::token::Token::CheckSig))),
        "unexpected ac"
    );
    assert_eq!(
        shown(Error::Unexpected(Found::Token(miniscript::token::Token::Number(1000)))),
        "unexpected 02e803"
    );
    assert_eq!(shown(Error::EarlyEnd), "unexpected end of input");
    assert_eq!(shown(Error::ExpectedChar(b')')), "expected )");
    assert_eq!(shown(Error::MultiColon(name("a:b:c"))), "multiple instances of : in a:b:c");
    assert_eq!(shown(Error::NonTopLevel(name("v:older"))), "not a top-level fragment: v:older");
    assert_eq!(shown(Error::Trailing(name(")x"))), "trailing text: )x");
    assert_eq!(shown(Error::Unprintable(0x09)), "unprintable character 0x09");
    assert_eq!(shown(Error::NonMinimalPush), "non-minimal push");
    assert_eq!(shown(Error::InvalidPush), "invalid push");
    assert_eq!(shown(Error::NonMinimalNumber), "non-minimal number");
    assert_eq!(shown(Error::NumberOverflow), "number too large");
    assert_eq!(shown(Error::InvalidOpcode(0x85)), "invalid opcode 133");
    assert_eq!(shown(Error::TypeCheck(name("multi"))), "typecheck: multi");
    assert_eq!(shown(Error::MissingExt), "wrapper without a fragment");
    assert_eq!(shown(Error::AtOutsideOr(name("9@x"))), "@ outside a disjunction in 9@x");
    assert_eq!(shown(Error::BadDescriptor), "could not create a descriptor");
    assert_eq!(shown(Error::CmsTooManyKeys(21)), "checkmultisig with 21 keys");
    assert_eq!(shown(Error::ContextError(Context::Depth)), "fragments nested too deep");
    assert_eq!(shown(Error::ContextError(Context::ScriptSize)), "script too long for a push");
    assert_eq!(shown(Error::CouldNotSatisfy), "could not satisfy");
    assert_eq!(
        shown(Error::MissingSig(key(2))),
        format!("missing signature for key {}", KEY)
    );
    // text that is no ASCII has no line
    assert_eq!(shown(Error::Trailing(vec![0xff])), "");
}
