//! The expression that is written for a fragment, as a tree.

use vstd::prelude::*;
use crate::astelem::{E, T, V, W};
use crate::descriptor::Descriptor;
use crate::expression::TreeView;
use crate::from_tree::{WRAP_ALT, WRAP_LIKELY, WRAP_UNLIKELY};
use crate::key::PublicKey;
use crate::list::List;
use crate::names::{wrapped, Name};
use crate::text::{decimal, hex};

verus! {

/// An expression without children.
pub open spec fn leaf(text: Seq<u8>) -> TreeView {
    TreeView { name: text, args: Seq::empty() }
}

/// The expressions for the keys of a list.
pub open spec fn key_trees(keys: List<PublicKey>) -> Seq<TreeView>
    decreases keys,
{
    match keys {
        List::Nil => Seq::empty(),
        List::Cons(k, rest) => seq![leaf(hex(k.bytes@))] + key_trees(*rest),
    }
}

/// The expressions for the later children of a threshold.
pub open spec fn ws_trees(ws: List<W<PublicKey>>) -> Seq<TreeView>
    decreases ws,
{
    match ws {
        List::Nil => Seq::empty(),
        List::Cons(x, rest) => seq![x.tree()] + ws_trees(*rest),
    }
}

impl E<PublicKey> {
    /// The expression that is written for the fragment.
    pub open spec fn tree(self) -> TreeView
        decreases self,
    {
        match self {
            E::CheckSig(a) => TreeView { name: Name::PkK.bytes(), args: seq![leaf(hex(a.bytes@))] },
            E::CheckMultiSig(a, b) => TreeView {
                name: Name::Multi.bytes(),
                args: seq![leaf(decimal(a as nat))] + key_trees(b),
            },
            E::Time(a) => TreeView {
                name: Name::Delay.bytes(),
                args: seq![leaf(decimal(a as nat))],
            },
            E::Threshold(a, b, c) => TreeView {
                name: Name::Thresh.bytes(),
                args: seq![leaf(decimal(a as nat))] + seq![b.tree()] + ws_trees(c),
            },
            E::ParallelAnd(a, b) => TreeView {
                name: Name::AndB.bytes(),
                args: seq![a.tree()] + seq![b.tree()],
            },
            E::CascadeAnd(a, b) => TreeView {
                name: Name::AndOr.bytes(),
                args: seq![a.tree()] + seq![b.tree()] + seq![leaf(seq![0x30u8])],
            },
            E::ParallelOr(a, b) => TreeView {
                name: Name::OrB.bytes(),
                args: seq![a.tree()] + seq![b.tree()],
            },
            E::CascadeOr(a, b) => TreeView {
                name: Name::OrD.bytes(),
                args: seq![a.tree()] + seq![b.tree()],
            },
            E::SwitchOrLeft(a, b) => TreeView {
                name: Name::OrI.bytes(),
                args: seq![a.tree()] + seq![b.tree()],
            },
            E::SwitchOrRight(a, b) => TreeView {
                name: Name::OrI.bytes(),
                args: seq![b.tree()] + seq![a.tree()],
            },
            E::Likely(a) => TreeView {
                name: wrapped(WRAP_LIKELY, a.tree().name),
                args: a.tree().args,
            },
            E::Unlikely(a) => TreeView {
                name: wrapped(WRAP_UNLIKELY, a.tree().name),
                args: a.tree().args,
            },
        }
    }
}

impl W<PublicKey> {
    /// The expression that is written for the fragment.
    pub open spec fn tree(self) -> TreeView
        decreases self,
    {
        match self {
            W::CheckSig(a) => TreeView {
                name: Name::SwapPkK.bytes(),
                args: seq![leaf(hex(a.bytes@))],
            },
            W::HashEqual(a) => TreeView { name: Name::SwapHash.bytes(), args: seq![leaf(hex(a@))] },
            W::Time(a) => TreeView {
                name: Name::SwapDelay.bytes(),
                args: seq![leaf(decimal(a as nat))],
            },
            W::CastE(a) => TreeView { name: wrapped(WRAP_ALT, a.tree().name), args: a.tree().args },
        }
    }
}

impl V<PublicKey> {
    /// The expression that is written for the fragment.
    pub open spec fn tree(self) -> TreeView
        decreases self,
    {
        match self {
            V::CheckSig(a) => TreeView {
                name: Name::VerifyPkK.bytes(),
                args: seq![leaf(hex(a.bytes@))],
            },
            V::CheckMultiSig(a, b) => TreeView {
                name: Name::VerifyMulti.bytes(),
                args: seq![leaf(decimal(a as nat))] + key_trees(b),
            },
            V::Time(a) => TreeView {
                name: Name::VerifyOlder.bytes(),
                args: seq![leaf(decimal(a as nat))],
            },
            V::HashEqual(a) => TreeView {
                name: Name::VerifyHash.bytes(),
                args: seq![leaf(hex(a@))],
            },
            V::And(a, b) => TreeView {
                name: Name::AndV.bytes(),
                args: seq![a.tree()] + seq![b.tree()],
            },
            V::SwitchOr(a, b) => TreeView {
                name: Name::OrI.bytes(),
                args: seq![a.tree()] + seq![b.tree()],
            },
            V::SwitchOrT(a, b) => TreeView {
                name: Name::VerifyOrI.bytes(),
                args: seq![a.tree()] + seq![b.tree()],
            },
            V::CascadeOr(a, b) => TreeView {
                name: Name::OrC.bytes(),
                args: seq![a.tree()] + seq![b.tree()],
            },
            V::Threshold(a, b, c) => TreeView {
                name: Name::VerifyThresh.bytes(),
                args: seq![leaf(decimal(a as nat))] + seq![b.tree()] + ws_trees(c),
            },
        }
    }
}

impl T<PublicKey> {
    /// The expression that is written for the fragment.
    pub open spec fn tree(self) -> TreeView
        decreases self,
    {
        match self {
            T::Time(a) => TreeView {
                name: Name::Older.bytes(),
                args: seq![leaf(decimal(a as nat))],
            },
            T::After(a) => TreeView {
                name: Name::After.bytes(),
                args: seq![leaf(decimal(a as nat))],
            },
            T::HashEqual(a) => TreeView { name: Name::Hash256.bytes(), args: seq![leaf(hex(a@))] },
            T::And(a, b) => TreeView {
                name: Name::AndV.bytes(),
                args: seq![a.tree()] + seq![b.tree()],
            },
            T::ParallelOr(a, b) => TreeView {
                name: Name::OrB.bytes(),
                args: seq![a.tree()] + seq![b.tree()],
            },
            T::CascadeOr(a, b) => TreeView {
                name: Name::OrD.bytes(),
                args: seq![a.tree()] + seq![b.tree()],
            },
            T::SwitchOr(a, b) => TreeView {
                name: Name::OrI.bytes(),
                args: seq![a.tree()] + seq![b.tree()],
            },
            T::SwitchOrV(a, b) => TreeView {
                name: Name::TrueOrI.bytes(),
                args: seq![a.tree()] + seq![b.tree()],
            },
            T::CastE(a) => a.tree(),
        }
    }
}

/// `name(inner)` as a tree.
pub open spec fn call_tree(name: Name, inner: TreeView) -> TreeView {
    TreeView { name: name.bytes(), args: seq![inner] }
}

impl Descriptor<PublicKey> {
    /// The expression that is written for the descriptor.
    pub open spec fn tree(self) -> TreeView {
        match self {
            Descriptor::Bare(d) => d.0.tree(),
            Descriptor::Pk(k) => call_tree(Name::Pk, leaf(hex(k.bytes@))),
            Descriptor::Pkh(k) => call_tree(Name::Pkh, leaf(hex(k.bytes@))),
            Descriptor::Wpkh(k) => call_tree(Name::Wpkh, leaf(hex(k.bytes@))),
            Descriptor::ShWpkh(k) => call_tree(
                Name::Sh,
                call_tree(Name::Wpkh, leaf(hex(k.bytes@))),
            ),
            Descriptor::Sh(d) => call_tree(Name::Sh, d.0.tree()),
            Descriptor::Wsh(d) => call_tree(Name::Wsh, d.0.tree()),
            Descriptor::ShWsh(d) => call_tree(Name::Sh, call_tree(Name::Wsh, d.0.tree())),
        }
    }
}

} // verus!
