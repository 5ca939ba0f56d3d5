//! From fragments to text: the names of the textual surface, the
//! children in parentheses, keys and hashes in hexadecimal.

use vstd::prelude::*;
use crate::astelem::{E, T, V, W};
use crate::bytes::extend;
use crate::expression::{COLON, COMMA, LPAREN, RPAREN};
use crate::from_tree::{WRAP_ALT, WRAP_LIKELY, WRAP_UNLIKELY};
use crate::key::PublicKey;
use crate::list::List;
use crate::names::{count_upto_two, wrapped, Name};
use crate::text::{decimal, hex, write_decimal, write_hex};

verus! {

/// The text of the keys of a list, each after a comma.
pub open spec fn keys_text(keys: List<PublicKey>) -> Seq<u8>
    decreases keys,
{
    match keys {
        List::Nil => Seq::empty(),
        List::Cons(k, rest) => seq![COMMA] + hex(k.bytes@) + keys_text(*rest),
    }
}

/// The text of the later children of a threshold, each after a comma.
pub open spec fn ws_text(ws: List<W<PublicKey>>) -> Seq<u8>
    decreases ws, 0nat,
{
    match ws {
        List::Nil => Seq::empty(),
        List::Cons(x, rest) => seq![COMMA] + x.text() + ws_text(*rest),
    }
}

/// Appends the keys of a list, each after a comma.
fn write_keys(keys: &List<PublicKey>, out: &mut Vec<u8>)
    ensures
        final(out)@ == old(out)@ + keys_text(*keys),
    decreases keys,
{
    let ghost before = out@;
    match keys {
        List::Nil => {},
        List::Cons(k, rest) => {
            out.push(COMMA);
            write_hex(out, k.bytes.as_slice());
            write_keys(rest, out);
        },
    }
    assert(out@ =~= before + keys_text(*keys));
}

/// Appends the later children of a threshold, each after a comma.
fn write_ws(ws: &List<W<PublicKey>>, out: &mut Vec<u8>)
    ensures
        final(out)@ == old(out)@ + ws_text(*ws),
    decreases ws, 0nat,
{
    let ghost before = out@;
    match ws {
        List::Nil => {},
        List::Cons(x, rest) => {
            out.push(COMMA);
            x.write_text(out);
            write_ws(rest, out);
        },
    }
    assert(out@ =~= before + ws_text(*ws));
}

/// The name under one more wrapper.
fn wrap_name(c: u8, name: Vec<u8>) -> (r: Vec<u8>)
    ensures
        r@ == wrapped(c, name@),
{
    let mut out: Vec<u8> = Vec::new();
    out.push(c);
    if count_upto_two(name.as_slice(), COLON) == 0 {
        out.push(COLON);
    }
    extend(&mut out, name.as_slice());
    assert(out@ =~= wrapped(c, name@));
    out
}

/// The text of a name.
fn name_vec(n: Name) -> (r: Vec<u8>)
    ensures
        r@ == n.bytes(),
{
    let mut out: Vec<u8> = Vec::new();
    extend(&mut out, n.text().as_bytes());
    out
}

impl E<PublicKey> {
    /// The name of the fragment, with the wrappers it is under.
    pub open spec fn name(self) -> Seq<u8>
        decreases self, 0nat,
    {
        match self {
            E::CheckSig(_) => Name::PkK.bytes(),
            E::CheckMultiSig(_, _) => Name::Multi.bytes(),
            E::Time(_) => Name::Delay.bytes(),
            E::Threshold(_, _, _) => Name::Thresh.bytes(),
            E::ParallelAnd(_, _) => Name::AndB.bytes(),
            E::CascadeAnd(_, _) => Name::AndOr.bytes(),
            E::ParallelOr(_, _) => Name::OrB.bytes(),
            E::CascadeOr(_, _) => Name::OrD.bytes(),
            E::SwitchOrLeft(_, _) => Name::OrI.bytes(),
            E::SwitchOrRight(_, _) => Name::OrI.bytes(),
            E::Likely(a) => wrapped(WRAP_LIKELY, a.name()),
            E::Unlikely(a) => wrapped(WRAP_UNLIKELY, a.name()),
        }
    }

    /// The children of the fragment in parentheses.
    pub open spec fn args(self) -> Seq<u8>
        decreases self, 0nat,
    {
        match self {
            E::CheckSig(a) => seq![LPAREN] + hex(a.bytes@) + seq![RPAREN],
            E::CheckMultiSig(a, b) => {
                seq![LPAREN]
                    + decimal(a as nat)
                    + keys_text(b)
                    + seq![RPAREN]
            },
            E::Time(a) => seq![LPAREN] + decimal(a as nat) + seq![RPAREN],
            E::Threshold(a, b, c) => {
                seq![LPAREN]
                    + decimal(a as nat)
                    + seq![COMMA]
                    + b.text()
                    + ws_text(c)
                    + seq![RPAREN]
            },
            E::ParallelAnd(a, b) => seq![LPAREN] + a.text() + seq![COMMA] + b.text() + seq![RPAREN],
            E::CascadeAnd(a, b) => {
                seq![LPAREN]
                    + a.text()
                    + seq![COMMA]
                    + b.text()
                    + seq![COMMA]
                    + seq![0x30u8]
                    + seq![RPAREN]
            },
            E::ParallelOr(a, b) => seq![LPAREN] + a.text() + seq![COMMA] + b.text() + seq![RPAREN],
            E::CascadeOr(a, b) => seq![LPAREN] + a.text() + seq![COMMA] + b.text() + seq![RPAREN],
            E::SwitchOrLeft(a, b) => {
                seq![LPAREN]
                    + a.text()
                    + seq![COMMA]
                    + b.text()
                    + seq![RPAREN]
            },
            E::SwitchOrRight(a, b) => {
                seq![LPAREN]
                    + b.text()
                    + seq![COMMA]
                    + a.text()
                    + seq![RPAREN]
            },
            E::Likely(a) => a.args(),
            E::Unlikely(a) => a.args(),
        }
    }

    /// The text of the fragment.
    pub open spec fn text(self) -> Seq<u8>
        decreases self, 1nat,
    {
        self.name() + self.args()
    }

    /// Writes the name of the fragment and its children in parentheses.
    pub fn print(&self) -> (r: (Vec<u8>, Vec<u8>))
        ensures
            r.0@ == self.name(),
            r.1@ == self.args(),
        decreases self, 0nat,
    {
        match self {
            E::CheckSig(a) => {
                let mut out: Vec<u8> = Vec::new();
                out.push(LPAREN);
                write_hex(&mut out, a.bytes.as_slice());
                out.push(RPAREN);
                assert(out@ =~= self.args());
                (name_vec(Name::PkK), out)
            },
            E::CheckMultiSig(a, b) => {
                let mut out: Vec<u8> = Vec::new();
                out.push(LPAREN);
                write_decimal(&mut out, *a);
                write_keys(b, &mut out);
                out.push(RPAREN);
                assert(out@ =~= self.args());
                (name_vec(Name::Multi), out)
            },
            E::Time(a) => {
                let mut out: Vec<u8> = Vec::new();
                out.push(LPAREN);
                write_decimal(&mut out, *a);
                out.push(RPAREN);
                assert(out@ =~= self.args());
                (name_vec(Name::Delay), out)
            },
            E::Threshold(a, b, c) => {
                let mut out: Vec<u8> = Vec::new();
                out.push(LPAREN);
                write_decimal(&mut out, *a);
                out.push(COMMA);
                b.write_text(&mut out);
                write_ws(c, &mut out);
                out.push(RPAREN);
                assert(out@ =~= self.args());
                (name_vec(Name::Thresh), out)
            },
            E::ParallelAnd(a, b) => {
                let mut out: Vec<u8> = Vec::new();
                out.push(LPAREN);
                a.write_text(&mut out);
                out.push(COMMA);
                b.write_text(&mut out);
                out.push(RPAREN);
                assert(out@ =~= self.args());
                (name_vec(Name::AndB), out)
            },
            E::CascadeAnd(a, b) => {
                let mut out: Vec<u8> = Vec::new();
                out.push(LPAREN);
                a.write_text(&mut out);
                out.push(COMMA);
                b.write_text(&mut out);
                out.push(COMMA);
                out.push(0x30u8);
                out.push(RPAREN);
                assert(out@ =~= self.args());
                (name_vec(Name::AndOr), out)
            },
            E::ParallelOr(a, b) => {
                let mut out: Vec<u8> = Vec::new();
                out.push(LPAREN);
                a.write_text(&mut out);
                out.push(COMMA);
                b.write_text(&mut out);
                out.push(RPAREN);
                assert(out@ =~= self.args());
                (name_vec(Name::OrB), out)
            },
            E::CascadeOr(a, b) => {
                let mut out: Vec<u8> = Vec::new();
                out.push(LPAREN);
                a.write_text(&mut out);
                out.push(COMMA);
                b.write_text(&mut out);
                out.push(RPAREN);
                assert(out@ =~= self.args());
                (name_vec(Name::OrD), out)
            },
            E::SwitchOrLeft(a, b) => {
                let mut out: Vec<u8> = Vec::new();
                out.push(LPAREN);
                a.write_text(&mut out);
                out.push(COMMA);
                b.write_text(&mut out);
                out.push(RPAREN);
                assert(out@ =~= self.args());
                (name_vec(Name::OrI), out)
            },
            E::SwitchOrRight(a, b) => {
                let mut out: Vec<u8> = Vec::new();
                out.push(LPAREN);
                b.write_text(&mut out);
                out.push(COMMA);
                a.write_text(&mut out);
                out.push(RPAREN);
                assert(out@ =~= self.args());
                (name_vec(Name::OrI), out)
            },
            E::Likely(a) => {
                let (name, args) = a.print();
                (wrap_name(WRAP_LIKELY, name), args)
            },
            E::Unlikely(a) => {
                let (name, args) = a.print();
                (wrap_name(WRAP_UNLIKELY, name), args)
            },
        }
    }

    /// Appends the text of the fragment.
    pub fn write_text(&self, out: &mut Vec<u8>)
        ensures
            final(out)@ == old(out)@ + self.text(),
        decreases self, 1nat,
    {
        let ghost before = out@;
        let (name, args) = self.print();
        extend(out, name.as_slice());
        extend(out, args.as_slice());
        assert(out@ =~= before + self.text());
    }
}

impl W<PublicKey> {
    /// The name of the fragment, with the wrappers it is under.
    pub open spec fn name(self) -> Seq<u8>
        decreases self, 0nat,
    {
        match self {
            W::CheckSig(_) => Name::SwapPkK.bytes(),
            W::HashEqual(_) => Name::SwapHash.bytes(),
            W::Time(_) => Name::SwapDelay.bytes(),
            W::CastE(a) => wrapped(WRAP_ALT, a.name()),
        }
    }

    /// The children of the fragment in parentheses.
    pub open spec fn args(self) -> Seq<u8>
        decreases self, 0nat,
    {
        match self {
            W::CheckSig(a) => seq![LPAREN] + hex(a.bytes@) + seq![RPAREN],
            W::HashEqual(a) => seq![LPAREN] + hex(a@) + seq![RPAREN],
            W::Time(a) => seq![LPAREN] + decimal(a as nat) + seq![RPAREN],
            W::CastE(a) => a.args(),
        }
    }

    /// The text of the fragment.
    pub open spec fn text(self) -> Seq<u8>
        decreases self, 1nat,
    {
        self.name() + self.args()
    }

    /// Writes the name of the fragment and its children in parentheses.
    pub fn print(&self) -> (r: (Vec<u8>, Vec<u8>))
        ensures
            r.0@ == self.name(),
            r.1@ == self.args(),
        decreases self, 0nat,
    {
        match self {
            W::CheckSig(a) => {
                let mut out: Vec<u8> = Vec::new();
                out.push(LPAREN);
                write_hex(&mut out, a.bytes.as_slice());
                out.push(RPAREN);
                assert(out@ =~= self.args());
                (name_vec(Name::SwapPkK), out)
            },
            W::HashEqual(a) => {
                let mut out: Vec<u8> = Vec::new();
                out.push(LPAREN);
                write_hex(&mut out, a.as_slice());
                out.push(RPAREN);
                assert(out@ =~= self.args());
                (name_vec(Name::SwapHash), out)
            },
            W::Time(a) => {
                let mut out: Vec<u8> = Vec::new();
                out.push(LPAREN);
                write_decimal(&mut out, *a);
                out.push(RPAREN);
                assert(out@ =~= self.args());
                (name_vec(Name::SwapDelay), out)
            },
            W::CastE(a) => {
                let (name, args) = a.print();
                (wrap_name(WRAP_ALT, name), args)
            },
        }
    }

    /// Appends the text of the fragment.
    pub fn write_text(&self, out: &mut Vec<u8>)
        ensures
            final(out)@ == old(out)@ + self.text(),
        decreases self, 1nat,
    {
        let ghost before = out@;
        let (name, args) = self.print();
        extend(out, name.as_slice());
        extend(out, args.as_slice());
        assert(out@ =~= before + self.text());
    }
}

impl V<PublicKey> {
    /// The name of the fragment, with the wrappers it is under.
    pub open spec fn name(self) -> Seq<u8>
        decreases self, 0nat,
    {
        match self {
            V::CheckSig(_) => Name::VerifyPkK.bytes(),
            V::CheckMultiSig(_, _) => Name::VerifyMulti.bytes(),
            V::Time(_) => Name::VerifyOlder.bytes(),
            V::HashEqual(_) => Name::VerifyHash.bytes(),
            V::And(_, _) => Name::AndV.bytes(),
            V::SwitchOr(_, _) => Name::OrI.bytes(),
            V::SwitchOrT(_, _) => Name::VerifyOrI.bytes(),
            V::CascadeOr(_, _) => Name::OrC.bytes(),
            V::Threshold(_, _, _) => Name::VerifyThresh.bytes(),
        }
    }

    /// The children of the fragment in parentheses.
    pub open spec fn args(self) -> Seq<u8>
        decreases self, 0nat,
    {
        match self {
            V::CheckSig(a) => seq![LPAREN] + hex(a.bytes@) + seq![RPAREN],
            V::CheckMultiSig(a, b) => {
                seq![LPAREN]
                    + decimal(a as nat)
                    + keys_text(b)
                    + seq![RPAREN]
            },
            V::Time(a) => seq![LPAREN] + decimal(a as nat) + seq![RPAREN],
            V::HashEqual(a) => seq![LPAREN] + hex(a@) + seq![RPAREN],
            V::And(a, b) => seq![LPAREN] + a.text() + seq![COMMA] + b.text() + seq![RPAREN],
            V::SwitchOr(a, b) => seq![LPAREN] + a.text() + seq![COMMA] + b.text() + seq![RPAREN],
            V::SwitchOrT(a, b) => seq![LPAREN] + a.text() + seq![COMMA] + b.text() + seq![RPAREN],
            V::CascadeOr(a, b) => seq![LPAREN] + a.text() + seq![COMMA] + b.text() + seq![RPAREN],
            V::Threshold(a, b, c) => {
                seq![LPAREN]
                    + decimal(a as nat)
                    + seq![COMMA]
                    + b.text()
                    + ws_text(c)
                    + seq![RPAREN]
            },
        }
    }

    /// The text of the fragment.
    pub open spec fn text(self) -> Seq<u8>
        decreases self, 1nat,
    {
        self.name() + self.args()
    }

    /// Writes the name of the fragment and its children in parentheses.
    pub fn print(&self) -> (r: (Vec<u8>, Vec<u8>))
        ensures
            r.0@ == self.name(),
            r.1@ == self.args(),
        decreases self, 0nat,
    {
        match self {
            V::CheckSig(a) => {
                let mut out: Vec<u8> = Vec::new();
                out.push(LPAREN);
                write_hex(&mut out, a.bytes.as_slice());
                out.push(RPAREN);
                assert(out@ =~= self.args());
                (name_vec(Name::VerifyPkK), out)
            },
            V::CheckMultiSig(a, b) => {
                let mut out: Vec<u8> = Vec::new();
                out.push(LPAREN);
                write_decimal(&mut out, *a);
                write_keys(b, &mut out);
                out.push(RPAREN);
                assert(out@ =~= self.args());
                (name_vec(Name::VerifyMulti), out)
            },
            V::Time(a) => {
                let mut out: Vec<u8> = Vec::new();
                out.push(LPAREN);
                write_decimal(&mut out, *a);
                out.push(RPAREN);
                assert(out@ =~= self.args());
                (name_vec(Name::VerifyOlder), out)
            },
            V::HashEqual(a) => {
                let mut out: Vec<u8> = Vec::new();
                out.push(LPAREN);
                write_hex(&mut out, a.as_slice());
                out.push(RPAREN);
                assert(out@ =~= self.args());
                (name_vec(Name::VerifyHash), out)
            },
            V::And(a, b) => {
                let mut out: Vec<u8> = Vec::new();
                out.push(LPAREN);
                a.write_text(&mut out);
                out.push(COMMA);
                b.write_text(&mut out);
                out.push(RPAREN);
                assert(out@ =~= self.args());
                (name_vec(Name::AndV), out)
            },
            V::SwitchOr(a, b) => {
                let mut out: Vec<u8> = Vec::new();
                out.push(LPAREN);
                a.write_text(&mut out);
                out.push(COMMA);
                b.write_text(&mut out);
                out.push(RPAREN);
                assert(out@ =~= self.args());
                (name_vec(Name::OrI), out)
            },
            V::SwitchOrT(a, b) => {
                let mut out: Vec<u8> = Vec::new();
                out.push(LPAREN);
                a.write_text(&mut out);
                out.push(COMMA);
                b.write_text(&mut out);
                out.push(RPAREN);
                assert(out@ =~= self.args());
                (name_vec(Name::VerifyOrI), out)
            },
            V::CascadeOr(a, b) => {
                let mut out: Vec<u8> = Vec::new();
                out.push(LPAREN);
                a.write_text(&mut out);
                out.push(COMMA);
                b.write_text(&mut out);
                out.push(RPAREN);
                assert(out@ =~= self.args());
                (name_vec(Name::OrC), out)
            },
            V::Threshold(a, b, c) => {
                let mut out: Vec<u8> = Vec::new();
                out.push(LPAREN);
                write_decimal(&mut out, *a);
                out.push(COMMA);
                b.write_text(&mut out);
                write_ws(c, &mut out);
                out.push(RPAREN);
                assert(out@ =~= self.args());
                (name_vec(Name::VerifyThresh), out)
            },
        }
    }

    /// Appends the text of the fragment.
    pub fn write_text(&self, out: &mut Vec<u8>)
        ensures
            final(out)@ == old(out)@ + self.text(),
        decreases self, 1nat,
    {
        let ghost before = out@;
        let (name, args) = self.print();
        extend(out, name.as_slice());
        extend(out, args.as_slice());
        assert(out@ =~= before + self.text());
    }
}

impl T<PublicKey> {
    /// The name of the fragment, with the wrappers it is under.
    pub open spec fn name(self) -> Seq<u8>
        decreases self, 0nat,
    {
        match self {
            T::Time(_) => Name::Older.bytes(),
            T::After(_) => Name::After.bytes(),
            T::HashEqual(_) => Name::Hash256.bytes(),
            T::And(_, _) => Name::AndV.bytes(),
            T::ParallelOr(_, _) => Name::OrB.bytes(),
            T::CascadeOr(_, _) => Name::OrD.bytes(),
            T::SwitchOr(_, _) => Name::OrI.bytes(),
            T::SwitchOrV(_, _) => Name::TrueOrI.bytes(),
            T::CastE(a) => a.name(),
        }
    }

    /// The children of the fragment in parentheses.
    pub open spec fn args(self) -> Seq<u8>
        decreases self, 0nat,
    {
        match self {
            T::Time(a) => seq![LPAREN] + decimal(a as nat) + seq![RPAREN],
            T::After(a) => seq![LPAREN] + decimal(a as nat) + seq![RPAREN],
            T::HashEqual(a) => seq![LPAREN] + hex(a@) + seq![RPAREN],
            T::And(a, b) => seq![LPAREN] + a.text() + seq![COMMA] + b.text() + seq![RPAREN],
            T::ParallelOr(a, b) => seq![LPAREN] + a.text() + seq![COMMA] + b.text() + seq![RPAREN],
            T::CascadeOr(a, b) => seq![LPAREN] + a.text() + seq![COMMA] + b.text() + seq![RPAREN],
            T::SwitchOr(a, b) => seq![LPAREN] + a.text() + seq![COMMA] + b.text() + seq![RPAREN],
            T::SwitchOrV(a, b) => seq![LPAREN] + a.text() + seq![COMMA] + b.text() + seq![RPAREN],
            T::CastE(a) => a.args(),
        }
    }

    /// The text of the fragment.
    pub open spec fn text(self) -> Seq<u8>
        decreases self, 1nat,
    {
        self.name() + self.args()
    }

    /// Writes the name of the fragment and its children in parentheses.
    pub fn print(&self) -> (r: (Vec<u8>, Vec<u8>))
        ensures
            r.0@ == self.name(),
            r.1@ == self.args(),
        decreases self, 0nat,
    {
        match self {
            T::Time(a) => {
                let mut out: Vec<u8> = Vec::new();
                out.push(LPAREN);
                write_decimal(&mut out, *a);
                out.push(RPAREN);
                assert(out@ =~= self.args());
                (name_vec(Name::Older), out)
            },
            T::After(a) => {
                let mut out: Vec<u8> = Vec::new();
                out.push(LPAREN);
                write_decimal(&mut out, *a);
                out.push(RPAREN);
                assert(out@ =~= self.args());
                (name_vec(Name::After), out)
            },
            T::HashEqual(a) => {
                let mut out: Vec<u8> = Vec::new();
                out.push(LPAREN);
                write_hex(&mut out, a.as_slice());
                out.push(RPAREN);
                assert(out@ =~= self.args());
                (name_vec(Name::Hash256), out)
            },
            T::And(a, b) => {
                let mut out: Vec<u8> = Vec::new();
                out.push(LPAREN);
                a.write_text(&mut out);
                out.push(COMMA);
                b.write_text(&mut out);
                out.push(RPAREN);
                assert(out@ =~= self.args());
                (name_vec(Name::AndV), out)
            },
            T::ParallelOr(a, b) => {
                let mut out: Vec<u8> = Vec::new();
                out.push(LPAREN);
                a.write_text(&mut out);
                out.push(COMMA);
                b.write_text(&mut out);
                out.push(RPAREN);
                assert(out@ =~= self.args());
                (name_vec(Name::OrB), out)
            },
            T::CascadeOr(a, b) => {
                let mut out: Vec<u8> = Vec::new();
                out.push(LPAREN);
                a.write_text(&mut out);
                out.push(COMMA);
                b.write_text(&mut out);
                out.push(RPAREN);
                assert(out@ =~= self.args());
                (name_vec(Name::OrD), out)
            },
            T::SwitchOr(a, b) => {
                let mut out: Vec<u8> = Vec::new();
                out.push(LPAREN);
                a.write_text(&mut out);
                out.push(COMMA);
                b.write_text(&mut out);
                out.push(RPAREN);
                assert(out@ =~= self.args());
                (name_vec(Name::OrI), out)
            },
            T::SwitchOrV(a, b) => {
                let mut out: Vec<u8> = Vec::new();
                out.push(LPAREN);
                a.write_text(&mut out);
                out.push(COMMA);
                b.write_text(&mut out);
                out.push(RPAREN);
                assert(out@ =~= self.args());
                (name_vec(Name::TrueOrI), out)
            },
            T::CastE(a) => {
                let (name, args) = a.print();
                (name, args)
            },
        }
    }

    /// Appends the text of the fragment.
    pub fn write_text(&self, out: &mut Vec<u8>)
        ensures
            final(out)@ == old(out)@ + self.text(),
        decreases self, 1nat,
    {
        let ghost before = out@;
        let (name, args) = self.print();
        extend(out, name.as_slice());
        extend(out, args.as_slice());
        assert(out@ =~= before + self.text());
    }
}

} // verus!
