//! All that is written for a fragment is ASCII.

use vstd::prelude::*;
use crate::astelem::{E, T, V, W};
use crate::descriptor::{call_text, Descriptor};
use crate::expression::{COLON, COMMA, LPAREN, RPAREN};
use crate::from_tree::{WRAP_ALT, WRAP_LIKELY, WRAP_UNLIKELY};
use crate::key::PublicKey;
use crate::list::List;
use crate::name_laws::lemma_wellformed;
use crate::names::{wrapped, Name};
use crate::printer::{keys_text, ws_text};
use crate::text::{decimal, hex, is_ascii_bytes};
use crate::text_laws::{lemma_decimal_value, lemma_hex_round_trip};

verus! {

/// Two ASCII texts one after the other are ASCII.
pub proof fn lemma_ascii_cat(a: Seq<u8>, b: Seq<u8>)
    requires
        is_ascii_bytes(a),
        is_ascii_bytes(b),
    ensures
        is_ascii_bytes(a + b),
{
    assert forall|i: int| 0 <= i < (a + b).len() implies #[trigger] (a + b)[i] < 0x80 by {
        if i < a.len() {
            assert((a + b)[i] == a[i]);
        } else {
            assert((a + b)[i] == b[i - a.len()]);
        }
    }
}

/// Every name is ASCII.
pub proof fn lemma_ascii_name(n: Name)
    ensures
        is_ascii_bytes(n.bytes()),
{
    if n != Name::Unknown {
        lemma_wellformed(n);
    }
}

/// Hexadecimal digits are ASCII.
pub proof fn lemma_ascii_hex(b: Seq<u8>)
    ensures
        is_ascii_bytes(hex(b)),
{
    lemma_hex_round_trip(b);
}

/// Decimal digits are ASCII.
pub proof fn lemma_ascii_decimal(n: nat)
    ensures
        is_ascii_bytes(decimal(n)),
{
    lemma_decimal_value(n);
}

/// A name under one more wrapper is ASCII where the name is.
proof fn lemma_ascii_wrapped(c: u8, n: Seq<u8>)
    requires
        is_ascii_bytes(n),
        c < 0x80,
    ensures
        is_ascii_bytes(wrapped(c, n)),
{
    lemma_ascii_cat(seq![c], n);
    lemma_ascii_cat(seq![c, COLON], n);
}

/// The keys of a list are written in ASCII.
proof fn lemma_ascii_keys(keys: List<PublicKey>)
    ensures
        is_ascii_bytes(keys_text(keys)),
    decreases keys,
{
    match keys {
        List::Nil => {},
        List::Cons(k, rest) => {
            lemma_ascii_hex(k.bytes@);
            lemma_ascii_keys(*rest);
            lemma_ascii_cat(seq![COMMA], hex(k.bytes@));
            lemma_ascii_cat(seq![COMMA] + hex(k.bytes@), keys_text(*rest));
        },
    }
}

/// The later children of a threshold are written in ASCII.
proof fn lemma_ascii_ws(ws: List<W<PublicKey>>)
    ensures
        is_ascii_bytes(ws_text(ws)),
    decreases ws,
{
    match ws {
        List::Nil => {},
        List::Cons(x, rest) => {
            lemma_ascii_w(x);
            lemma_ascii_ws(*rest);
            lemma_ascii_cat(seq![COMMA], x.text());
            lemma_ascii_cat(seq![COMMA] + x.text(), ws_text(*rest));
        },
    }
}

proof fn lemma_ascii_e_checksig(a: PublicKey)
    ensures
        is_ascii_bytes(E::CheckSig(a).args()),
{
    lemma_ascii_hex(a.bytes@);
    lemma_ascii_cat(seq![LPAREN], hex(a.bytes@));
    lemma_ascii_cat(seq![LPAREN] + hex(a.bytes@), seq![RPAREN]);
}

proof fn lemma_ascii_e_checkmultisig(a: u32, b: List<PublicKey>)
    requires
        is_ascii_bytes(keys_text(b)),
    ensures
        is_ascii_bytes(E::CheckMultiSig(a, b).args()),
{
    lemma_ascii_decimal(a as nat);
    lemma_ascii_cat(seq![LPAREN], decimal(a as nat));
    lemma_ascii_cat(seq![LPAREN] + decimal(a as nat), keys_text(b));
    lemma_ascii_cat(seq![LPAREN] + decimal(a as nat) + keys_text(b), seq![RPAREN]);
}

proof fn lemma_ascii_e_time(a: u32)
    ensures
        is_ascii_bytes(E::Time(a).args()),
{
    lemma_ascii_decimal(a as nat);
    lemma_ascii_cat(seq![LPAREN], decimal(a as nat));
    lemma_ascii_cat(seq![LPAREN] + decimal(a as nat), seq![RPAREN]);
}

proof fn lemma_ascii_e_threshold(a: u32, b: E<PublicKey>, c: List<W<PublicKey>>)
    requires
        is_ascii_bytes(b.text()),
        is_ascii_bytes(ws_text(c)),
    ensures
        is_ascii_bytes(E::Threshold(a, Box::new(b), c).args()),
{
    lemma_ascii_decimal(a as nat);
    lemma_ascii_cat(seq![LPAREN], decimal(a as nat));
    lemma_ascii_cat(seq![LPAREN] + decimal(a as nat), seq![COMMA]);
    lemma_ascii_cat(seq![LPAREN] + decimal(a as nat) + seq![COMMA], b.text());
    lemma_ascii_cat(seq![LPAREN] + decimal(a as nat) + seq![COMMA] + b.text(), ws_text(c));
    lemma_ascii_cat(
        seq![LPAREN] + decimal(a as nat) + seq![COMMA] + b.text() + ws_text(c),
        seq![RPAREN],
    );
}

proof fn lemma_ascii_e_paralleland(a: E<PublicKey>, b: W<PublicKey>)
    requires
        is_ascii_bytes(a.text()),
        is_ascii_bytes(b.text()),
    ensures
        is_ascii_bytes(E::ParallelAnd(Box::new(a), Box::new(b)).args()),
{
    lemma_ascii_cat(seq![LPAREN], a.text());
    lemma_ascii_cat(seq![LPAREN] + a.text(), seq![COMMA]);
    lemma_ascii_cat(seq![LPAREN] + a.text() + seq![COMMA], b.text());
    lemma_ascii_cat(seq![LPAREN] + a.text() + seq![COMMA] + b.text(), seq![RPAREN]);
}

proof fn lemma_ascii_e_cascadeand(a: E<PublicKey>, b: T<PublicKey>)
    requires
        is_ascii_bytes(a.text()),
        is_ascii_bytes(b.text()),
    ensures
        is_ascii_bytes(E::CascadeAnd(Box::new(a), Box::new(b)).args()),
{
    lemma_ascii_cat(seq![LPAREN], a.text());
    lemma_ascii_cat(seq![LPAREN] + a.text(), seq![COMMA]);
    lemma_ascii_cat(seq![LPAREN] + a.text() + seq![COMMA], b.text());
    lemma_ascii_cat(seq![LPAREN] + a.text() + seq![COMMA] + b.text(), seq![COMMA]);
    lemma_ascii_cat(seq![LPAREN] + a.text() + seq![COMMA] + b.text() + seq![COMMA], seq![0x30u8]);
    lemma_ascii_cat(
        seq![LPAREN] + a.text() + seq![COMMA] + b.text() + seq![COMMA] + seq![0x30u8],
        seq![RPAREN],
    );
}

proof fn lemma_ascii_e_parallelor(a: E<PublicKey>, b: W<PublicKey>)
    requires
        is_ascii_bytes(a.text()),
        is_ascii_bytes(b.text()),
    ensures
        is_ascii_bytes(E::ParallelOr(Box::new(a), Box::new(b)).args()),
{
    lemma_ascii_cat(seq![LPAREN], a.text());
    lemma_ascii_cat(seq![LPAREN] + a.text(), seq![COMMA]);
    lemma_ascii_cat(seq![LPAREN] + a.text() + seq![COMMA], b.text());
    lemma_ascii_cat(seq![LPAREN] + a.text() + seq![COMMA] + b.text(), seq![RPAREN]);
}

proof fn lemma_ascii_e_cascadeor(a: E<PublicKey>, b: T<PublicKey>)
    requires
        is_ascii_bytes(a.text()),
        is_ascii_bytes(b.text()),
    ensures
        is_ascii_bytes(E::CascadeOr(Box::new(a), Box::new(b)).args()),
{
    lemma_ascii_cat(seq![LPAREN], a.text());
    lemma_ascii_cat(seq![LPAREN] + a.text(), seq![COMMA]);
    lemma_ascii_cat(seq![LPAREN] + a.text() + seq![COMMA], b.text());
    lemma_ascii_cat(seq![LPAREN] + a.text() + seq![COMMA] + b.text(), seq![RPAREN]);
}

proof fn lemma_ascii_e_switchorleft(a: E<PublicKey>, b: T<PublicKey>)
    requires
        is_ascii_bytes(a.text()),
        is_ascii_bytes(b.text()),
    ensures
        is_ascii_bytes(E::SwitchOrLeft(Box::new(a), Box::new(b)).args()),
{
    lemma_ascii_cat(seq![LPAREN], a.text());
    lemma_ascii_cat(seq![LPAREN] + a.text(), seq![COMMA]);
    lemma_ascii_cat(seq![LPAREN] + a.text() + seq![COMMA], b.text());
    lemma_ascii_cat(seq![LPAREN] + a.text() + seq![COMMA] + b.text(), seq![RPAREN]);
}

proof fn lemma_ascii_e_switchorright(a: E<PublicKey>, b: T<PublicKey>)
    requires
        is_ascii_bytes(b.text()),
        is_ascii_bytes(a.text()),
    ensures
        is_ascii_bytes(E::SwitchOrRight(Box::new(a), Box::new(b)).args()),
{
    lemma_ascii_cat(seq![LPAREN], b.text());
    lemma_ascii_cat(seq![LPAREN] + b.text(), seq![COMMA]);
    lemma_ascii_cat(seq![LPAREN] + b.text() + seq![COMMA], a.text());
    lemma_ascii_cat(seq![LPAREN] + b.text() + seq![COMMA] + a.text(), seq![RPAREN]);
}

/// A fragment of type `E` is written in ASCII.
pub proof fn lemma_ascii_e(x: E<PublicKey>)
    ensures
        is_ascii_bytes(x.name()),
        is_ascii_bytes(x.args()),
        is_ascii_bytes(x.text()),
    decreases x,
{
    match x {
        E::CheckSig(a) => {
            lemma_ascii_name(Name::PkK);
            lemma_ascii_e_checksig(a);
        },
        E::CheckMultiSig(a, b) => {
            lemma_ascii_keys(b);
            lemma_ascii_name(Name::Multi);
            lemma_ascii_e_checkmultisig(a, b);
        },
        E::Time(a) => {
            lemma_ascii_name(Name::Delay);
            lemma_ascii_e_time(a);
        },
        E::Threshold(a, b, c) => {
            lemma_ascii_e(*b);
            lemma_ascii_ws(c);
            lemma_ascii_name(Name::Thresh);
            lemma_ascii_e_threshold(a, *b, c);
        },
        E::ParallelAnd(a, b) => {
            lemma_ascii_e(*a);
            lemma_ascii_w(*b);
            lemma_ascii_name(Name::AndB);
            lemma_ascii_e_paralleland(*a, *b);
        },
        E::CascadeAnd(a, b) => {
            lemma_ascii_e(*a);
            lemma_ascii_t(*b);
            lemma_ascii_name(Name::AndOr);
            lemma_ascii_e_cascadeand(*a, *b);
        },
        E::ParallelOr(a, b) => {
            lemma_ascii_e(*a);
            lemma_ascii_w(*b);
            lemma_ascii_name(Name::OrB);
            lemma_ascii_e_parallelor(*a, *b);
        },
        E::CascadeOr(a, b) => {
            lemma_ascii_e(*a);
            lemma_ascii_t(*b);
            lemma_ascii_name(Name::OrD);
            lemma_ascii_e_cascadeor(*a, *b);
        },
        E::SwitchOrLeft(a, b) => {
            lemma_ascii_e(*a);
            lemma_ascii_t(*b);
            lemma_ascii_name(Name::OrI);
            lemma_ascii_e_switchorleft(*a, *b);
        },
        E::SwitchOrRight(a, b) => {
            lemma_ascii_t(*b);
            lemma_ascii_e(*a);
            lemma_ascii_name(Name::OrI);
            lemma_ascii_e_switchorright(*a, *b);
        },
        E::Likely(a) => {
            lemma_ascii_t(*a);
            lemma_ascii_wrapped(WRAP_LIKELY, a.name());
        },
        E::Unlikely(a) => {
            lemma_ascii_t(*a);
            lemma_ascii_wrapped(WRAP_UNLIKELY, a.name());
        },
    }
    lemma_ascii_cat(x.name(), x.args());
}

proof fn lemma_ascii_w_checksig(a: PublicKey)
    ensures
        is_ascii_bytes(W::CheckSig(a).args()),
{
    lemma_ascii_hex(a.bytes@);
    lemma_ascii_cat(seq![LPAREN], hex(a.bytes@));
    lemma_ascii_cat(seq![LPAREN] + hex(a.bytes@), seq![RPAREN]);
}

proof fn lemma_ascii_w_hashequal(a: [u8; 32])
    ensures
        is_ascii_bytes(W::HashEqual(a).args()),
{
    lemma_ascii_hex(a@);
    lemma_ascii_cat(seq![LPAREN], hex(a@));
    lemma_ascii_cat(seq![LPAREN] + hex(a@), seq![RPAREN]);
}

proof fn lemma_ascii_w_time(a: u32)
    ensures
        is_ascii_bytes(W::Time(a).args()),
{
    lemma_ascii_decimal(a as nat);
    lemma_ascii_cat(seq![LPAREN], decimal(a as nat));
    lemma_ascii_cat(seq![LPAREN] + decimal(a as nat), seq![RPAREN]);
}

/// A fragment of type `W` is written in ASCII.
pub proof fn lemma_ascii_w(x: W<PublicKey>)
    ensures
        is_ascii_bytes(x.name()),
        is_ascii_bytes(x.args()),
        is_ascii_bytes(x.text()),
    decreases x,
{
    match x {
        W::CheckSig(a) => {
            lemma_ascii_name(Name::SwapPkK);
            lemma_ascii_w_checksig(a);
        },
        W::HashEqual(a) => {
            lemma_ascii_name(Name::SwapHash);
            lemma_ascii_w_hashequal(a);
        },
        W::Time(a) => {
            lemma_ascii_name(Name::SwapDelay);
            lemma_ascii_w_time(a);
        },
        W::CastE(a) => {
            lemma_ascii_e(*a);
            lemma_ascii_wrapped(WRAP_ALT, a.name());
        },
    }
    lemma_ascii_cat(x.name(), x.args());
}

proof fn lemma_ascii_v_checksig(a: PublicKey)
    ensures
        is_ascii_bytes(V::CheckSig(a).args()),
{
    lemma_ascii_hex(a.bytes@);
    lemma_ascii_cat(seq![LPAREN], hex(a.bytes@));
    lemma_ascii_cat(seq![LPAREN] + hex(a.bytes@), seq![RPAREN]);
}

proof fn lemma_ascii_v_checkmultisig(a: u32, b: List<PublicKey>)
    requires
        is_ascii_bytes(keys_text(b)),
    ensures
        is_ascii_bytes(V::CheckMultiSig(a, b).args()),
{
    lemma_ascii_decimal(a as nat);
    lemma_ascii_cat(seq![LPAREN], decimal(a as nat));
    lemma_ascii_cat(seq![LPAREN] + decimal(a as nat), keys_text(b));
    lemma_ascii_cat(seq![LPAREN] + decimal(a as nat) + keys_text(b), seq![RPAREN]);
}

proof fn lemma_ascii_v_time(a: u32)
    ensures
        is_ascii_bytes(V::Time(a).args()),
{
    lemma_ascii_decimal(a as nat);
    lemma_ascii_cat(seq![LPAREN], decimal(a as nat));
    lemma_ascii_cat(seq![LPAREN] + decimal(a as nat), seq![RPAREN]);
}

proof fn lemma_ascii_v_hashequal(a: [u8; 32])
    ensures
        is_ascii_bytes(V::HashEqual(a).args()),
{
    lemma_ascii_hex(a@);
    lemma_ascii_cat(seq![LPAREN], hex(a@));
    lemma_ascii_cat(seq![LPAREN] + hex(a@), seq![RPAREN]);
}

proof fn lemma_ascii_v_and(a: V<PublicKey>, b: V<PublicKey>)
    requires
        is_ascii_bytes(a.text()),
        is_ascii_bytes(b.text()),
    ensures
        is_ascii_bytes(V::And(Box::new(a), Box::new(b)).args()),
{
    lemma_ascii_cat(seq![LPAREN], a.text());
    lemma_ascii_cat(seq![LPAREN] + a.text(), seq![COMMA]);
    lemma_ascii_cat(seq![LPAREN] + a.text() + seq![COMMA], b.text());
    lemma_ascii_cat(seq![LPAREN] + a.text() + seq![COMMA] + b.text(), seq![RPAREN]);
}

proof fn lemma_ascii_v_switchor(a: V<PublicKey>, b: V<PublicKey>)
    requires
        is_ascii_bytes(a.text()),
        is_ascii_bytes(b.text()),
    ensures
        is_ascii_bytes(V::SwitchOr(Box::new(a), Box::new(b)).args()),
{
    lemma_ascii_cat(seq![LPAREN], a.text());
    lemma_ascii_cat(seq![LPAREN] + a.text(), seq![COMMA]);
    lemma_ascii_cat(seq![LPAREN] + a.text() + seq![COMMA], b.text());
    lemma_ascii_cat(seq![LPAREN] + a.text() + seq![COMMA] + b.text(), seq![RPAREN]);
}

proof fn lemma_ascii_v_switchort(a: T<PublicKey>, b: T<PublicKey>)
    requires
        is_ascii_bytes(a.text()),
        is_ascii_bytes(b.text()),
    ensures
        is_ascii_bytes(V::SwitchOrT(Box::new(a), Box::new(b)).args()),
{
    lemma_ascii_cat(seq![LPAREN], a.text());
    lemma_ascii_cat(seq![LPAREN] + a.text(), seq![COMMA]);
    lemma_ascii_cat(seq![LPAREN] + a.text() + seq![COMMA], b.text());
    lemma_ascii_cat(seq![LPAREN] + a.text() + seq![COMMA] + b.text(), seq![RPAREN]);
}

proof fn lemma_ascii_v_cascadeor(a: E<PublicKey>, b: V<PublicKey>)
    requires
        is_ascii_bytes(a.text()),
        is_ascii_bytes(b.text()),
    ensures
        is_ascii_bytes(V::CascadeOr(Box::new(a), Box::new(b)).args()),
{
    lemma_ascii_cat(seq![LPAREN], a.text());
    lemma_ascii_cat(seq![LPAREN] + a.text(), seq![COMMA]);
    lemma_ascii_cat(seq![LPAREN] + a.text() + seq![COMMA], b.text());
    lemma_ascii_cat(seq![LPAREN] + a.text() + seq![COMMA] + b.text(), seq![RPAREN]);
}

proof fn lemma_ascii_v_threshold(a: u32, b: E<PublicKey>, c: List<W<PublicKey>>)
    requires
        is_ascii_bytes(b.text()),
        is_ascii_bytes(ws_text(c)),
    ensures
        is_ascii_bytes(V::Threshold(a, Box::new(b), c).args()),
{
    lemma_ascii_decimal(a as nat);
    lemma_ascii_cat(seq![LPAREN], decimal(a as nat));
    lemma_ascii_cat(seq![LPAREN] + decimal(a as nat), seq![COMMA]);
    lemma_ascii_cat(seq![LPAREN] + decimal(a as nat) + seq![COMMA], b.text());
    lemma_ascii_cat(seq![LPAREN] + decimal(a as nat) + seq![COMMA] + b.text(), ws_text(c));
    lemma_ascii_cat(
        seq![LPAREN] + decimal(a as nat) + seq![COMMA] + b.text() + ws_text(c),
        seq![RPAREN],
    );
}

/// A fragment of type `V` is written in ASCII.
pub proof fn lemma_ascii_v(x: V<PublicKey>)
    ensures
        is_ascii_bytes(x.name()),
        is_ascii_bytes(x.args()),
        is_ascii_bytes(x.text()),
    decreases x,
{
    match x {
        V::CheckSig(a) => {
            lemma_ascii_name(Name::VerifyPkK);
            lemma_ascii_v_checksig(a);
        },
        V::CheckMultiSig(a, b) => {
            lemma_ascii_keys(b);
            lemma_ascii_name(Name::VerifyMulti);
            lemma_ascii_v_checkmultisig(a, b);
        },
        V::Time(a) => {
            lemma_ascii_name(Name::VerifyOlder);
            lemma_ascii_v_time(a);
        },
        V::HashEqual(a) => {
            lemma_ascii_name(Name::VerifyHash);
            lemma_ascii_v_hashequal(a);
        },
        V::And(a, b) => {
            lemma_ascii_v(*a);
            lemma_ascii_v(*b);
            lemma_ascii_name(Name::AndV);
            lemma_ascii_v_and(*a, *b);
        },
        V::SwitchOr(a, b) => {
            lemma_ascii_v(*a);
            lemma_ascii_v(*b);
            lemma_ascii_name(Name::OrI);
            lemma_ascii_v_switchor(*a, *b);
        },
        V::SwitchOrT(a, b) => {
            lemma_ascii_t(*a);
            lemma_ascii_t(*b);
            lemma_ascii_name(Name::VerifyOrI);
            lemma_ascii_v_switchort(*a, *b);
        },
        V::CascadeOr(a, b) => {
            lemma_ascii_e(*a);
            lemma_ascii_v(*b);
            lemma_ascii_name(Name::OrC);
            lemma_ascii_v_cascadeor(*a, *b);
        },
        V::Threshold(a, b, c) => {
            lemma_ascii_e(*b);
            lemma_ascii_ws(c);
            lemma_ascii_name(Name::VerifyThresh);
            lemma_ascii_v_threshold(a, *b, c);
        },
    }
    lemma_ascii_cat(x.name(), x.args());
}

proof fn lemma_ascii_t_time(a: u32)
    ensures
        is_ascii_bytes(T::Time(a).args()),
{
    lemma_ascii_decimal(a as nat);
    lemma_ascii_cat(seq![LPAREN], decimal(a as nat));
    lemma_ascii_cat(seq![LPAREN] + decimal(a as nat), seq![RPAREN]);
}

proof fn lemma_ascii_t_after(a: u32)
    ensures
        is_ascii_bytes(T::After(a).args()),
{
    lemma_ascii_decimal(a as nat);
    lemma_ascii_cat(seq![LPAREN], decimal(a as nat));
    lemma_ascii_cat(seq![LPAREN] + decimal(a as nat), seq![RPAREN]);
}

proof fn lemma_ascii_t_hashequal(a: [u8; 32])
    ensures
        is_ascii_bytes(T::HashEqual(a).args()),
{
    lemma_ascii_hex(a@);
    lemma_ascii_cat(seq![LPAREN], hex(a@));
    lemma_ascii_cat(seq![LPAREN] + hex(a@), seq![RPAREN]);
}

proof fn lemma_ascii_t_and(a: V<PublicKey>, b: T<PublicKey>)
    requires
        is_ascii_bytes(a.text()),
        is_ascii_bytes(b.text()),
    ensures
        is_ascii_bytes(T::And(Box::new(a), Box::new(b)).args()),
{
    lemma_ascii_cat(seq![LPAREN], a.text());
    lemma_ascii_cat(seq![LPAREN] + a.text(), seq![COMMA]);
    lemma_ascii_cat(seq![LPAREN] + a.text() + seq![COMMA], b.text());
    lemma_ascii_cat(seq![LPAREN] + a.text() + seq![COMMA] + b.text(), seq![RPAREN]);
}

proof fn lemma_ascii_t_parallelor(a: E<PublicKey>, b: W<PublicKey>)
    requires
        is_ascii_bytes(a.text()),
        is_ascii_bytes(b.text()),
    ensures
        is_ascii_bytes(T::ParallelOr(Box::new(a), Box::new(b)).args()),
{
    lemma_ascii_cat(seq![LPAREN], a.text());
    lemma_ascii_cat(seq![LPAREN] + a.text(), seq![COMMA]);
    lemma_ascii_cat(seq![LPAREN] + a.text() + seq![COMMA], b.text());
    lemma_ascii_cat(seq![LPAREN] + a.text() + seq![COMMA] + b.text(), seq![RPAREN]);
}

proof fn lemma_ascii_t_cascadeor(a: E<PublicKey>, b: T<PublicKey>)
    requires
        is_ascii_bytes(a.text()),
        is_ascii_bytes(b.text()),
    ensures
        is_ascii_bytes(T::CascadeOr(Box::new(a), Box::new(b)).args()),
{
    lemma_ascii_cat(seq![LPAREN], a.text());
    lemma_ascii_cat(seq![LPAREN] + a.text(), seq![COMMA]);
    lemma_ascii_cat(seq![LPAREN] + a.text() + seq![COMMA], b.text());
    lemma_ascii_cat(seq![LPAREN] + a.text() + seq![COMMA] + b.text(), seq![RPAREN]);
}

proof fn lemma_ascii_t_switchor(a: T<PublicKey>, b: T<PublicKey>)
    requires
        is_ascii_bytes(a.text()),
        is_ascii_bytes(b.text()),
    ensures
        is_ascii_bytes(T::SwitchOr(Box::new(a), Box::new(b)).args()),
{
    lemma_ascii_cat(seq![LPAREN], a.text());
    lemma_ascii_cat(seq![LPAREN] + a.text(), seq![COMMA]);
    lemma_ascii_cat(seq![LPAREN] + a.text() + seq![COMMA], b.text());
    lemma_ascii_cat(seq![LPAREN] + a.text() + seq![COMMA] + b.text(), seq![RPAREN]);
}

proof fn lemma_ascii_t_switchorv(a: V<PublicKey>, b: V<PublicKey>)
    requires
        is_ascii_bytes(a.text()),
        is_ascii_bytes(b.text()),
    ensures
        is_ascii_bytes(T::SwitchOrV(Box::new(a), Box::new(b)).args()),
{
    lemma_ascii_cat(seq![LPAREN], a.text());
    lemma_ascii_cat(seq![LPAREN] + a.text(), seq![COMMA]);
    lemma_ascii_cat(seq![LPAREN] + a.text() + seq![COMMA], b.text());
    lemma_ascii_cat(seq![LPAREN] + a.text() + seq![COMMA] + b.text(), seq![RPAREN]);
}

/// A fragment of type `T` is written in ASCII.
pub proof fn lemma_ascii_t(x: T<PublicKey>)
    ensures
        is_ascii_bytes(x.name()),
        is_ascii_bytes(x.args()),
        is_ascii_bytes(x.text()),
    decreases x,
{
    match x {
        T::Time(a) => {
            lemma_ascii_name(Name::Older);
            lemma_ascii_t_time(a);
        },
        T::After(a) => {
            lemma_ascii_name(Name::After);
            lemma_ascii_t_after(a);
        },
        T::HashEqual(a) => {
            lemma_ascii_name(Name::Hash256);
            lemma_ascii_t_hashequal(a);
        },
        T::And(a, b) => {
            lemma_ascii_v(*a);
            lemma_ascii_t(*b);
            lemma_ascii_name(Name::AndV);
            lemma_ascii_t_and(*a, *b);
        },
        T::ParallelOr(a, b) => {
            lemma_ascii_e(*a);
            lemma_ascii_w(*b);
            lemma_ascii_name(Name::OrB);
            lemma_ascii_t_parallelor(*a, *b);
        },
        T::CascadeOr(a, b) => {
            lemma_ascii_e(*a);
            lemma_ascii_t(*b);
            lemma_ascii_name(Name::OrD);
            lemma_ascii_t_cascadeor(*a, *b);
        },
        T::SwitchOr(a, b) => {
            lemma_ascii_t(*a);
            lemma_ascii_t(*b);
            lemma_ascii_name(Name::OrI);
            lemma_ascii_t_switchor(*a, *b);
        },
        T::SwitchOrV(a, b) => {
            lemma_ascii_v(*a);
            lemma_ascii_v(*b);
            lemma_ascii_name(Name::TrueOrI);
            lemma_ascii_t_switchorv(*a, *b);
        },
        T::CastE(a) => {
            lemma_ascii_e(*a);
        },
    }
    lemma_ascii_cat(x.name(), x.args());
}

/// `name(inner)` is ASCII where `inner` is.
proof fn lemma_ascii_call(name: Name, inner: Seq<u8>)
    requires
        is_ascii_bytes(inner),
    ensures
        is_ascii_bytes(call_text(name, inner)),
{
    lemma_ascii_name(name);
    lemma_ascii_cat(name.bytes(), seq![LPAREN]);
    lemma_ascii_cat(name.bytes() + seq![LPAREN], inner);
    lemma_ascii_cat(name.bytes() + seq![LPAREN] + inner, seq![RPAREN]);
}

/// A descriptor is written in ASCII.
pub proof fn lemma_ascii_descriptor(d: Descriptor<PublicKey>)
    ensures
        is_ascii_bytes(d.text()),
{
    match d {
        Descriptor::Bare(x) => {
            lemma_ascii_t(x.0);
        },
        Descriptor::Pk(k) => {
            lemma_ascii_hex(k.bytes@);
            lemma_ascii_call(Name::Pk, hex(k.bytes@));
        },
        Descriptor::Pkh(k) => {
            lemma_ascii_hex(k.bytes@);
            lemma_ascii_call(Name::Pkh, hex(k.bytes@));
        },
        Descriptor::Wpkh(k) => {
            lemma_ascii_hex(k.bytes@);
            lemma_ascii_call(Name::Wpkh, hex(k.bytes@));
        },
        Descriptor::ShWpkh(k) => {
            lemma_ascii_hex(k.bytes@);
            lemma_ascii_call(Name::Wpkh, hex(k.bytes@));
            lemma_ascii_call(Name::Sh, call_text(Name::Wpkh, hex(k.bytes@)));
        },
        Descriptor::Sh(x) => {
            lemma_ascii_t(x.0);
            lemma_ascii_call(Name::Sh, x.0.text());
        },
        Descriptor::Wsh(x) => {
            lemma_ascii_t(x.0);
            lemma_ascii_call(Name::Wsh, x.0.text());
        },
        Descriptor::ShWsh(x) => {
            lemma_ascii_t(x.0);
            lemma_ascii_call(Name::Wsh, x.0.text());
            lemma_ascii_call(Name::Sh, call_text(Name::Wsh, x.0.text()));
        },
    }
}

} // verus!
