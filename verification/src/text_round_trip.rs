//! The textual round trip: a descriptor that is read from a text is read
//! again from the text that is written for it.

use vstd::prelude::*;
use crate::astelem::{E, T, V, W};
use crate::decode::MAX_DEPTH;
use crate::descript::descript_of;
use crate::descriptor::{descriptor_of, descriptor_of_text, Descriptor};
use crate::expression::{parse_text, TreeView, MAX_NESTING};
use crate::expression_laws::{good, good_args, law_expression_read_back};
use crate::from_tree::{
    and_or, either, multi_from, pair_et, pair_ev, pair_ew, pair_tt, pair_vt, pair_vv, thresh_from,
    tree_e, tree_t, tree_v, tree_w, ws_from, WRAP_ALT, WRAP_LIKELY, WRAP_UNLIKELY,
};
use crate::key::PublicKey;
use crate::list::List;
use crate::name_laws::{clean, lemma_classified, lemma_wellformed, lemma_wrapped, wellformed};
use crate::names::{classify, unwrapped, wrapped_by, Name};
use crate::print_laws::lemma_text_descriptor;
use crate::read_back::law_descriptor_read_back;
use crate::text::{decimal, hex};
use crate::text_laws::{lemma_decimal_value, lemma_hex_round_trip};
use crate::to_tree::{call_tree, key_trees, leaf, ws_trees};

verus! {

/// An expression that is good at one depth is good at any greater depth.
proof fn lemma_good_more(t: TreeView, fuel: nat, more: nat)
    requires
        good(t, fuel),
        fuel <= more,
    ensures
        good(t, more),
    decreases t,
{
    if t.args.len() > 0 {
        lemma_good_args_more(t.args, (fuel - 1) as nat, (more - 1) as nat);
    }
}

/// Expressions that are good at one depth are good at any greater depth.
proof fn lemma_good_args_more(args: Seq<TreeView>, fuel: nat, more: nat)
    requires
        good_args(args, fuel),
        fuel <= more,
    ensures
        good_args(args, more),
    decreases args,
{
    if args.len() > 0 {
        lemma_good_more(args[0], fuel, more);
        lemma_good_args_more(args.subrange(1, args.len() as int), fuel, more);
    }
}

/// One good expression is a list of good expressions.
proof fn lemma_good_one(t: TreeView, fuel: nat)
    requires
        good(t, fuel),
    ensures
        good_args(seq![t], fuel),
{
    reveal_with_fuel(good_args, 2);
    assert(seq![t][0] == t);
    assert(seq![t].subrange(1, 1) =~= Seq::<TreeView>::empty());
}

/// Good expressions one after the other are good.
proof fn lemma_good_cat(a: Seq<TreeView>, b: Seq<TreeView>, fuel: nat)
    requires
        good_args(a, fuel),
        good_args(b, fuel),
    ensures
        good_args(a + b, fuel),
    decreases a.len(),
{
    if a.len() == 0 {
        assert(a + b =~= b);
    } else {
        let rest = a.subrange(1, a.len() as int);
        lemma_good_cat(rest, b, fuel);
        assert((a + b)[0] == a[0]);
        assert((a + b).subrange(1, (a + b).len() as int) =~= rest + b);
    }
}

/// A number as an argument is good.
proof fn lemma_good_number(n: u32, fuel: nat)
    ensures
        good_args(seq![leaf(decimal(n as nat))], fuel),
{
    lemma_decimal_value(n as nat);
    lemma_good_one(leaf(decimal(n as nat)), fuel);
}

/// Hexadecimal digits as an argument are good.
proof fn lemma_good_hex(b: Seq<u8>, fuel: nat)
    ensures
        good_args(seq![leaf(hex(b))], fuel),
{
    lemma_hex_round_trip(b);
    lemma_good_one(leaf(hex(b)), fuel);
}

/// The keys of a list as arguments are good.
proof fn lemma_good_keys(keys: List<PublicKey>, fuel: nat)
    ensures
        good_args(key_trees(keys), fuel),
    decreases keys,
{
    match keys {
        List::Nil => {},
        List::Cons(k, rest) => {
            lemma_good_hex(k.bytes@, fuel);
            lemma_good_keys(*rest, fuel);
            lemma_good_cat(seq![leaf(hex(k.bytes@))], key_trees(*rest), fuel);
        },
    }
}

/// The later children of a threshold are good as arguments.
proof fn lemma_good_ws(args: Seq<TreeView>, i: int, fuel: nat)
    requires
        0 <= i,
        ws_from(args, i, fuel) is Ok,
    ensures
        good_args(ws_trees(List::of(ws_from(args, i, fuel)->Ok_0)), fuel),
    decreases fuel, 2 + args.len() - i,
{
    let ws = ws_from(args, i, fuel)->Ok_0;
    if i < args.len() {
        let a = args[i];
        assert(tree_w(a.name, a.args, fuel) is Ok || tree_w(a.name, a.args, fuel) is Err);
        assert(ws_from(args, i + 1, fuel) is Ok || ws_from(args, i + 1, fuel) is Err);
        let x = tree_w(a.name, a.args, fuel)->Ok_0;
        let rest = ws_from(args, i + 1, fuel)->Ok_0;
        lemma_good_w(a.name, a.args, fuel);
        lemma_good_ws(args, i + 1, fuel);
        assert(ws =~= seq![x] + rest);
        assert(ws.subrange(1, ws.len() as int) =~= rest);
        assert(ws_trees(List::of(ws)) =~= seq![x.tree()] + ws_trees(List::of(rest)));
        lemma_good_one(x.tree(), fuel);
        lemma_good_cat(seq![x.tree()], ws_trees(List::of(rest)), fuel);
    } else {
        assert(ws =~= Seq::<W<PublicKey>>::empty());
    }
}

/// The expressions for what `multi` is read as are good.
proof fn lemma_good_multi(name: Seq<u8>, args: Seq<TreeView>, fuel: nat)
    requires
        multi_from(name, args) is Ok,
    ensures
        ({
            let (k, keys) = multi_from(name, args)->Ok_0;
            good_args(seq![leaf(decimal(k as nat))] + key_trees(keys), fuel)
        }),
{
    let (k, keys) = multi_from(name, args)->Ok_0;
    lemma_good_number(k, fuel);
    lemma_good_keys(keys, fuel);
    lemma_good_cat(seq![leaf(decimal(k as nat))], key_trees(keys), fuel);
}

/// The expressions for what a threshold is read as are good.
proof fn lemma_good_thresh(name: Seq<u8>, args: Seq<TreeView>, fuel: nat)
    requires
        thresh_from(name, args, fuel) is Ok,
    ensures
        ({
            let (k, e, ws) = thresh_from(name, args, fuel)->Ok_0;
            good_args(seq![leaf(decimal(k as nat))] + seq![e.tree()] + ws_trees(ws), fuel)
        }),
    decreases fuel, 10 + args.len(),
{
    let a = args[1];
    assert(tree_e(a.name, a.args, fuel) is Ok || tree_e(a.name, a.args, fuel) is Err);
    assert(ws_from(args, 2, fuel) is Ok || ws_from(args, 2, fuel) is Err);
    let (k, e, ws) = thresh_from(name, args, fuel)->Ok_0;
    lemma_good_number(k, fuel);
    lemma_good_e(a.name, a.args, fuel);
    lemma_good_one(e.tree(), fuel);
    lemma_good_ws(args, 2, fuel);
    lemma_good_cat(seq![leaf(decimal(k as nat))], seq![e.tree()], fuel);
    lemma_good_cat(seq![leaf(decimal(k as nat))] + seq![e.tree()], ws_trees(ws), fuel);
}

/// The expressions for a pair of children of type `E` and `W` are good.
proof fn lemma_good_pair_ew(name: Seq<u8>, args: Seq<TreeView>, fuel: nat)
    requires
        pair_ew(name, args, fuel) is Ok,
    ensures
        ({
            let (l, r) = pair_ew(name, args, fuel)->Ok_0;
            good_args(seq![l.tree()] + seq![r.tree()], fuel)
        }),
    decreases fuel, 2nat,
{
    let a = args[0];
    let b = args[1];
    let f = (fuel - 1) as nat;
    assert(tree_e(a.name, a.args, f) is Ok || tree_e(a.name, a.args, f) is Err);
    assert(tree_w(b.name, b.args, f) is Ok || tree_w(b.name, b.args, f) is Err);
    lemma_good_e(a.name, a.args, f);
    lemma_good_w(b.name, b.args, f);
    let (l, r) = pair_ew(name, args, fuel)->Ok_0;
    lemma_good_more(l.tree(), f, fuel);
    lemma_good_more(r.tree(), f, fuel);
    lemma_good_one(l.tree(), fuel);
    lemma_good_one(r.tree(), fuel);
    lemma_good_cat(seq![l.tree()], seq![r.tree()], fuel);
}

/// The expressions for a pair of children of type `E` and `T` are good.
proof fn lemma_good_pair_et(name: Seq<u8>, args: Seq<TreeView>, fuel: nat)
    requires
        pair_et(name, args, fuel) is Ok,
    ensures
        ({
            let (l, r) = pair_et(name, args, fuel)->Ok_0;
            good_args(seq![l.tree()] + seq![r.tree()], fuel)
        }),
    decreases fuel, 2nat,
{
    let a = args[0];
    let b = args[1];
    let f = (fuel - 1) as nat;
    assert(tree_e(a.name, a.args, f) is Ok || tree_e(a.name, a.args, f) is Err);
    assert(tree_t(b.name, b.args, f) is Ok || tree_t(b.name, b.args, f) is Err);
    lemma_good_e(a.name, a.args, f);
    lemma_good_t(b.name, b.args, f);
    let (l, r) = pair_et(name, args, fuel)->Ok_0;
    lemma_good_more(l.tree(), f, fuel);
    lemma_good_more(r.tree(), f, fuel);
    lemma_good_one(l.tree(), fuel);
    lemma_good_one(r.tree(), fuel);
    lemma_good_cat(seq![l.tree()], seq![r.tree()], fuel);
}

/// The expressions for a pair of children of type `E` and `V` are good.
proof fn lemma_good_pair_ev(name: Seq<u8>, args: Seq<TreeView>, fuel: nat)
    requires
        pair_ev(name, args, fuel) is Ok,
    ensures
        ({
            let (l, r) = pair_ev(name, args, fuel)->Ok_0;
            good_args(seq![l.tree()] + seq![r.tree()], fuel)
        }),
    decreases fuel, 2nat,
{
    let a = args[0];
    let b = args[1];
    let f = (fuel - 1) as nat;
    assert(tree_e(a.name, a.args, f) is Ok || tree_e(a.name, a.args, f) is Err);
    assert(tree_v(b.name, b.args, f) is Ok || tree_v(b.name, b.args, f) is Err);
    lemma_good_e(a.name, a.args, f);
    lemma_good_v(b.name, b.args, f);
    let (l, r) = pair_ev(name, args, fuel)->Ok_0;
    lemma_good_more(l.tree(), f, fuel);
    lemma_good_more(r.tree(), f, fuel);
    lemma_good_one(l.tree(), fuel);
    lemma_good_one(r.tree(), fuel);
    lemma_good_cat(seq![l.tree()], seq![r.tree()], fuel);
}

/// The expressions for a pair of children of type `V` and `V` are good.
proof fn lemma_good_pair_vv(name: Seq<u8>, args: Seq<TreeView>, fuel: nat)
    requires
        pair_vv(name, args, fuel) is Ok,
    ensures
        ({
            let (l, r) = pair_vv(name, args, fuel)->Ok_0;
            good_args(seq![l.tree()] + seq![r.tree()], fuel)
        }),
    decreases fuel, 2nat,
{
    let a = args[0];
    let b = args[1];
    let f = (fuel - 1) as nat;
    assert(tree_v(a.name, a.args, f) is Ok || tree_v(a.name, a.args, f) is Err);
    assert(tree_v(b.name, b.args, f) is Ok || tree_v(b.name, b.args, f) is Err);
    lemma_good_v(a.name, a.args, f);
    lemma_good_v(b.name, b.args, f);
    let (l, r) = pair_vv(name, args, fuel)->Ok_0;
    lemma_good_more(l.tree(), f, fuel);
    lemma_good_more(r.tree(), f, fuel);
    lemma_good_one(l.tree(), fuel);
    lemma_good_one(r.tree(), fuel);
    lemma_good_cat(seq![l.tree()], seq![r.tree()], fuel);
}

/// The expressions for a pair of children of type `V` and `T` are good.
proof fn lemma_good_pair_vt(name: Seq<u8>, args: Seq<TreeView>, fuel: nat)
    requires
        pair_vt(name, args, fuel) is Ok,
    ensures
        ({
            let (l, r) = pair_vt(name, args, fuel)->Ok_0;
            good_args(seq![l.tree()] + seq![r.tree()], fuel)
        }),
    decreases fuel, 2nat,
{
    let a = args[0];
    let b = args[1];
    let f = (fuel - 1) as nat;
    assert(tree_v(a.name, a.args, f) is Ok || tree_v(a.name, a.args, f) is Err);
    assert(tree_t(b.name, b.args, f) is Ok || tree_t(b.name, b.args, f) is Err);
    lemma_good_v(a.name, a.args, f);
    lemma_good_t(b.name, b.args, f);
    let (l, r) = pair_vt(name, args, fuel)->Ok_0;
    lemma_good_more(l.tree(), f, fuel);
    lemma_good_more(r.tree(), f, fuel);
    lemma_good_one(l.tree(), fuel);
    lemma_good_one(r.tree(), fuel);
    lemma_good_cat(seq![l.tree()], seq![r.tree()], fuel);
}

/// The expressions for a pair of children of type `T` and `T` are good.
proof fn lemma_good_pair_tt(name: Seq<u8>, args: Seq<TreeView>, fuel: nat)
    requires
        pair_tt(name, args, fuel) is Ok,
    ensures
        ({
            let (l, r) = pair_tt(name, args, fuel)->Ok_0;
            good_args(seq![l.tree()] + seq![r.tree()], fuel)
        }),
    decreases fuel, 2nat,
{
    let a = args[0];
    let b = args[1];
    let f = (fuel - 1) as nat;
    assert(tree_t(a.name, a.args, f) is Ok || tree_t(a.name, a.args, f) is Err);
    assert(tree_t(b.name, b.args, f) is Ok || tree_t(b.name, b.args, f) is Err);
    lemma_good_t(a.name, a.args, f);
    lemma_good_t(b.name, b.args, f);
    let (l, r) = pair_tt(name, args, fuel)->Ok_0;
    lemma_good_more(l.tree(), f, fuel);
    lemma_good_more(r.tree(), f, fuel);
    lemma_good_one(l.tree(), fuel);
    lemma_good_one(r.tree(), fuel);
    lemma_good_cat(seq![l.tree()], seq![r.tree()], fuel);
}

/// The expressions for what `andor` is read as are good.
proof fn lemma_good_and_or(name: Seq<u8>, args: Seq<TreeView>, fuel: nat)
    requires
        and_or(name, args, fuel) is Ok,
    ensures
        good_args(and_or(name, args, fuel)->Ok_0.tree().args, fuel),
    decreases fuel, 2nat,
{
    let a = args[0];
    let b = args[1];
    let f = (fuel - 1) as nat;
    assert(tree_e(a.name, a.args, f) is Ok || tree_e(a.name, a.args, f) is Err);
    assert(tree_t(b.name, b.args, f) is Ok || tree_t(b.name, b.args, f) is Err);
    lemma_good_e(a.name, a.args, f);
    lemma_good_t(b.name, b.args, f);
    let l = tree_e(a.name, a.args, f)->Ok_0;
    let r = tree_t(b.name, b.args, f)->Ok_0;
    lemma_good_more(l.tree(), f, fuel);
    lemma_good_more(r.tree(), f, fuel);
    lemma_good_one(l.tree(), fuel);
    lemma_good_one(r.tree(), fuel);
    let zero = leaf(seq![0x30u8]);
    assert(clean(seq![0x30u8]));
    lemma_good_one(zero, fuel);
    lemma_good_cat(seq![l.tree()], seq![r.tree()], fuel);
    lemma_good_cat(seq![l.tree()] + seq![r.tree()], seq![zero], fuel);
}

/// The expressions for what `or_i` is read as at the place of an `E` are
/// good.
proof fn lemma_good_either(name: Seq<u8>, args: Seq<TreeView>, fuel: nat)
    requires
        either(name, args, fuel) is Ok,
    ensures
        good_args(either(name, args, fuel)->Ok_0.tree().args, fuel),
    decreases fuel, 2nat,
{
    let a = args[0];
    let b = args[1];
    let f = (fuel - 1) as nat;
    assert(tree_e(a.name, a.args, f) is Ok || tree_e(a.name, a.args, f) is Err);
    assert(tree_t(b.name, b.args, f) is Ok || tree_t(b.name, b.args, f) is Err);
    assert(tree_e(b.name, b.args, f) is Ok || tree_e(b.name, b.args, f) is Err);
    assert(tree_t(a.name, a.args, f) is Ok || tree_t(a.name, a.args, f) is Err);
    if tree_e(a.name, a.args, f) is Ok {
        let l = tree_e(a.name, a.args, f)->Ok_0;
        let r = tree_t(b.name, b.args, f)->Ok_0;
        lemma_good_e(a.name, a.args, f);
        lemma_good_t(b.name, b.args, f);
        lemma_good_more(l.tree(), f, fuel);
        lemma_good_more(r.tree(), f, fuel);
        lemma_good_one(l.tree(), fuel);
        lemma_good_one(r.tree(), fuel);
        lemma_good_cat(seq![l.tree()], seq![r.tree()], fuel);
    } else {
        let l = tree_e(b.name, b.args, f)->Ok_0;
        let r = tree_t(a.name, a.args, f)->Ok_0;
        lemma_good_e(b.name, b.args, f);
        lemma_good_t(a.name, a.args, f);
        lemma_good_more(l.tree(), f, fuel);
        lemma_good_more(r.tree(), f, fuel);
        lemma_good_one(l.tree(), fuel);
        lemma_good_one(r.tree(), fuel);
        lemma_good_cat(seq![r.tree()], seq![l.tree()], fuel);
    }
}

/// What the expression of a fragment says once the fragment was read: it
/// is good at the depth at which the fragment was read, and its name is
/// well formed.
pub open spec fn fine(tr: TreeView, fuel: nat) -> bool {
    good(tr, fuel) && wellformed(tr.name) && tr.args.len() >= 1
}

proof fn lemma_good_wrapped(c: u8, tr: TreeView, fuel: nat)
    requires
        fine(tr, fuel),
        c == WRAP_LIKELY || c == WRAP_UNLIKELY || c == WRAP_ALT,
    ensures
        fine(TreeView { name: crate::names::wrapped(c, tr.name), args: tr.args }, fuel + 1),
{
    lemma_wrapped(c, tr.name);
    lemma_good_more(tr, fuel, fuel + 1);
}

/// The expression that is written for a fragment of type `E` is good.
pub proof fn lemma_good_e(name: Seq<u8>, args: Seq<TreeView>, fuel: nat)
    requires
        tree_e(name, args, fuel) is Ok,
    ensures
        fine(tree_e(name, args, fuel)->Ok_0.tree(), fuel),
    decreases fuel, 1nat,
{
    let f = (fuel - 1) as nat;
    let x = tree_e(name, args, fuel)->Ok_0;
    lemma_classified(name);
    if wrapped_by(name, WRAP_LIKELY) || wrapped_by(name, WRAP_UNLIKELY) {
        let inner = unwrapped(name);
        assert(tree_t(inner, args, f) is Ok || tree_t(inner, args, f) is Err);
        lemma_good_t(inner, args, f);
        let t = tree_t(inner, args, f)->Ok_0;
        lemma_good_wrapped(WRAP_LIKELY, t.tree(), f);
        lemma_good_wrapped(WRAP_UNLIKELY, t.tree(), f);
    } else {
        match classify(name) {
            Name::PkK => {
                lemma_wellformed(Name::PkK);
                lemma_good_hex(x->CheckSig_0.bytes@, f);
            },
            Name::Multi => {
                lemma_wellformed(Name::Multi);
                lemma_good_multi(name, args, f);
            },
            Name::Delay => {
                lemma_wellformed(Name::Delay);
                lemma_good_number(x->Time_0, f);
            },
            Name::Thresh => {
                lemma_wellformed(Name::Thresh);
                lemma_good_thresh(name, args, f);
            },
            Name::AndB => {
                lemma_wellformed(Name::AndB);
                lemma_good_pair_ew(name, args, f);
            },
            Name::AndOr => {
                lemma_wellformed(Name::AndOr);
                lemma_good_and_or(name, args, f);
            },
            Name::OrB => {
                lemma_wellformed(Name::OrB);
                lemma_good_pair_ew(name, args, f);
            },
            Name::OrD => {
                lemma_wellformed(Name::OrD);
                lemma_good_pair_et(name, args, f);
            },
            Name::OrI => {
                lemma_wellformed(Name::OrI);
                lemma_good_either(name, args, f);
            },
            _ => {},
        }
    }
}

/// The expression that is written for a fragment of type `W` is good.
pub proof fn lemma_good_w(name: Seq<u8>, args: Seq<TreeView>, fuel: nat)
    requires
        tree_w(name, args, fuel) is Ok,
    ensures
        fine(tree_w(name, args, fuel)->Ok_0.tree(), fuel),
    decreases fuel, 1nat,
{
    let f = (fuel - 1) as nat;
    let x = tree_w(name, args, fuel)->Ok_0;
    lemma_classified(name);
    if wrapped_by(name, WRAP_ALT) {
        let inner = unwrapped(name);
        assert(tree_e(inner, args, f) is Ok || tree_e(inner, args, f) is Err);
        lemma_good_e(inner, args, f);
        let e = tree_e(inner, args, f)->Ok_0;
        lemma_good_wrapped(WRAP_ALT, e.tree(), f);
    } else {
        match classify(name) {
            Name::SwapPkK => {
                lemma_wellformed(Name::SwapPkK);
                lemma_good_hex(x->CheckSig_0.bytes@, f);
            },
            Name::SwapHash => {
                lemma_wellformed(Name::SwapHash);
                lemma_good_hex(x->HashEqual_0@, f);
            },
            Name::SwapDelay => {
                lemma_wellformed(Name::SwapDelay);
                lemma_good_number(x->Time_0, f);
            },
            _ => {},
        }
    }
}

/// The expression that is written for a fragment of type `V` is good.
pub proof fn lemma_good_v(name: Seq<u8>, args: Seq<TreeView>, fuel: nat)
    requires
        tree_v(name, args, fuel) is Ok,
    ensures
        fine(tree_v(name, args, fuel)->Ok_0.tree(), fuel),
    decreases fuel, 1nat,
{
    let f = (fuel - 1) as nat;
    let x = tree_v(name, args, fuel)->Ok_0;
    lemma_classified(name);
    match classify(name) {
        Name::VerifyPkK => {
            lemma_wellformed(Name::VerifyPkK);
            lemma_good_hex(x->CheckSig_0.bytes@, f);
        },
        Name::VerifyMulti => {
            lemma_wellformed(Name::VerifyMulti);
            lemma_good_multi(name, args, f);
        },
        Name::VerifyOlder => {
            lemma_wellformed(Name::VerifyOlder);
            lemma_good_number(x->Time_0, f);
        },
        Name::VerifyHash => {
            lemma_wellformed(Name::VerifyHash);
            lemma_good_hex(x->HashEqual_0@, f);
        },
        Name::AndV => {
            lemma_wellformed(Name::AndV);
            lemma_good_pair_vv(name, args, f);
        },
        Name::OrI => {
            lemma_wellformed(Name::OrI);
            lemma_good_pair_vv(name, args, f);
        },
        Name::VerifyOrI => {
            lemma_wellformed(Name::VerifyOrI);
            lemma_good_pair_tt(name, args, f);
        },
        Name::OrC => {
            lemma_wellformed(Name::OrC);
            lemma_good_pair_ev(name, args, f);
        },
        Name::VerifyThresh => {
            lemma_wellformed(Name::VerifyThresh);
            lemma_good_thresh(name, args, f);
        },
        _ => {},
    }
}

/// The expression that is written for a fragment of type `T` is good.
pub proof fn lemma_good_t(name: Seq<u8>, args: Seq<TreeView>, fuel: nat)
    requires
        tree_t(name, args, fuel) is Ok,
    ensures
        fine(tree_t(name, args, fuel)->Ok_0.tree(), fuel),
    decreases fuel, 3nat,
{
    let f = (fuel - 1) as nat;
    let x = tree_t(name, args, fuel)->Ok_0;
    lemma_classified(name);
    match classify(name) {
        Name::Older => {
            lemma_wellformed(Name::Older);
            lemma_good_number(x->Time_0, f);
        },
        Name::After => {
            lemma_wellformed(Name::After);
            lemma_good_number(x->After_0, f);
        },
        Name::Hash256 => {
            lemma_wellformed(Name::Hash256);
            lemma_good_hex(x->HashEqual_0@, f);
        },
        Name::AndV => {
            lemma_wellformed(Name::AndV);
            lemma_good_pair_vt(name, args, f);
        },
        Name::OrB => {
            lemma_wellformed(Name::OrB);
            lemma_good_pair_ew(name, args, f);
        },
        Name::OrD => {
            lemma_wellformed(Name::OrD);
            lemma_good_pair_et(name, args, f);
        },
        Name::OrI => {
            lemma_wellformed(Name::OrI);
            lemma_good_pair_tt(name, args, f);
        },
        Name::TrueOrI => {
            lemma_wellformed(Name::TrueOrI);
            lemma_good_pair_vv(name, args, f);
        },
        _ => {
            assert(tree_e(name, args, fuel) is Ok || tree_e(name, args, fuel) is Err);
            lemma_good_e(name, args, fuel);
        },
    }
}

/// `name(inner)` is good one level deeper than `inner`.
proof fn lemma_good_call(name: Name, inner: TreeView, fuel: nat)
    requires
        name != Name::Unknown,
        good(inner, fuel),
    ensures
        good(call_tree(name, inner), fuel + 1),
{
    lemma_wellformed(name);
    lemma_good_one(inner, fuel);
}

/// A key in hexadecimal digits is good at any depth.
proof fn lemma_good_key(k: PublicKey, fuel: nat)
    ensures
        good(leaf(hex(k.bytes@)), fuel),
{
    lemma_hex_round_trip(k.bytes@);
}

/// The expression that is written for a script that was read is good.
proof fn lemma_good_script(t: TreeView)
    requires
        descript_of(t) is Ok,
    ensures
        good(descript_of(t)->Ok_0.tree(), MAX_DEPTH as nat),
{
    let fuel = MAX_DEPTH as nat;
    assert(tree_t(t.name, t.args, fuel) is Ok || tree_t(t.name, t.args, fuel) is Err);
    lemma_good_t(t.name, t.args, fuel);
}

/// The expression that is written for a descriptor that was read is good.
proof fn lemma_good_descriptor(top: TreeView)
    requires
        descriptor_of(top) is Ok,
    ensures
        good(descriptor_of(top)->Ok_0.tree(), MAX_NESTING as nat),
{
    let d = descriptor_of(top)->Ok_0;
    let fuel = MAX_DEPTH as nat;
    match d {
        Descriptor::Bare(x) => {
            assert(descript_of(top) is Ok || descript_of(top) is Err);
            lemma_good_script(top);
            lemma_good_more(x.0.tree(), fuel, MAX_NESTING as nat);
        },
        Descriptor::Pk(k) => {
            lemma_good_key(k, fuel);
            lemma_good_call(Name::Pk, leaf(hex(k.bytes@)), fuel);
            lemma_good_more(d.tree(), fuel + 1, MAX_NESTING as nat);
        },
        Descriptor::Pkh(k) => {
            lemma_good_key(k, fuel);
            lemma_good_call(Name::Pkh, leaf(hex(k.bytes@)), fuel);
            lemma_good_more(d.tree(), fuel + 1, MAX_NESTING as nat);
        },
        Descriptor::Wpkh(k) => {
            lemma_good_key(k, fuel);
            lemma_good_call(Name::Wpkh, leaf(hex(k.bytes@)), fuel);
            lemma_good_more(d.tree(), fuel + 1, MAX_NESTING as nat);
        },
        Descriptor::ShWpkh(k) => {
            lemma_good_key(k, fuel);
            lemma_good_call(Name::Wpkh, leaf(hex(k.bytes@)), fuel);
            lemma_good_call(Name::Sh, call_tree(Name::Wpkh, leaf(hex(k.bytes@))), fuel + 1);
        },
        Descriptor::Sh(x) => {
            let inner = top.args[0];
            assert(descript_of(inner) is Ok || descript_of(inner) is Err);
            lemma_good_script(inner);
            lemma_good_call(Name::Sh, x.0.tree(), fuel);
            lemma_good_more(d.tree(), fuel + 1, MAX_NESTING as nat);
        },
        Descriptor::Wsh(x) => {
            let inner = top.args[0];
            assert(descript_of(inner) is Ok || descript_of(inner) is Err);
            lemma_good_script(inner);
            lemma_good_call(Name::Wsh, x.0.tree(), fuel);
            lemma_good_more(d.tree(), fuel + 1, MAX_NESTING as nat);
        },
        Descriptor::ShWsh(x) => {
            let inner = top.args[0].args[0];
            assert(descript_of(inner) is Ok || descript_of(inner) is Err);
            lemma_good_script(inner);
            lemma_good_call(Name::Wsh, x.0.tree(), fuel);
            lemma_good_call(Name::Sh, call_tree(Name::Wsh, x.0.tree()), fuel + 1);
        },
    }
}

/// Textual round trip: a descriptor that is read from a text is read
/// again, and as the same descriptor, from the text that is written for
/// it.
pub proof fn law_text_round_trip(s: Seq<u8>)
    requires
        descriptor_of_text(s) is Ok,
    ensures
        descriptor_of_text(descriptor_of_text(s)->Ok_0.text()) == descriptor_of_text(s),
{
    assert(parse_text(s) is Ok || parse_text(s) is Err);
    let top = parse_text(s)->Ok_0;
    let d = descriptor_of(top)->Ok_0;
    law_descriptor_read_back(top);
    lemma_good_descriptor(top);
    lemma_text_descriptor(d);
    law_expression_read_back(d.tree());
}

} // verus!
