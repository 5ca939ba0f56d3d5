//! Reading back: the expression that is written for a fragment is read as
//! that fragment again, where the fragment itself was read from an
//! expression.

use vstd::prelude::*;
use vstd::string::StringSliceAdditionalSpecFns;
use crate::astelem::{E, T, V, W};
use crate::bytes::lemma_array_of_view;
use crate::error::ErrorView;
use crate::expression::TreeView;
use crate::from_tree::{
    and_or, either, keys_from, multi_from, pair_et, pair_ev, pair_ew, pair_tt, pair_vt, pair_vv,
    thresh_from, tree_e, tree_t, tree_v, tree_w, ws_from, WRAP_ALT, WRAP_LIKELY, WRAP_UNLIKELY,
};
use crate::key::PublicKey;
use crate::list::List;
use crate::name_laws::{
    lemma_classified, lemma_classify, lemma_unknown, lemma_wellformed, lemma_wrapped, wellformed,
};
use crate::names::{
    classify, hash_of, key_of, number_of, time_of, unwrapped, wrapped, wrapped_by, Name,
};
use crate::primitives::is_curve_point;
use crate::text::{decimal, hex};
use crate::text_laws::{lemma_decimal_round_trip, lemma_hash_round_trip, lemma_key_round_trip};
use crate::descript::descript_of;
use crate::descriptor::{called, descriptor_of};
use crate::decode::MAX_DEPTH;
use crate::to_tree::{key_trees, leaf, ws_trees};

verus! {

/// A key that an argument spells is read back from its digits.
proof fn lemma_key_leaf(a: TreeView, k: PublicKey)
    requires
        key_of(a) == Ok::<PublicKey, ErrorView>(k),
    ensures
        key_of(leaf(hex(k.bytes@))) == Ok::<PublicKey, ErrorView>(k),
        is_curve_point(k.bytes@),
{
    let b = crate::text::unhex(a.name);
    lemma_array_of_view::<33>(b);
    lemma_key_round_trip(k);
}

/// A number that an argument spells is read back from its digits.
proof fn lemma_number_leaf(a: TreeView, n: u32)
    requires
        number_of(a) == Ok::<u32, ErrorView>(n),
    ensures
        number_of(leaf(decimal(n as nat))) == Ok::<u32, ErrorView>(n),
{
    lemma_decimal_round_trip(n);
}

/// A locktime that an argument spells is read back from its digits.
proof fn lemma_time_leaf(a: TreeView, n: u32)
    requires
        time_of(a) == Ok::<u32, ErrorView>(n),
    ensures
        time_of(leaf(decimal(n as nat))) == Ok::<u32, ErrorView>(n),
{
    lemma_decimal_round_trip(n);
}

/// A hash that an argument spells is read back from its digits.
proof fn lemma_hash_leaf(a: TreeView, h: [u8; 32])
    requires
        hash_of(a) == Ok::<[u8; 32], ErrorView>(h),
    ensures
        hash_of(leaf(hex(h@))) == Ok::<[u8; 32], ErrorView>(h),
{
    lemma_hash_round_trip(h);
}

/// The keys that arguments spell are keys on the curve.
proof fn lemma_keys_valid(args: Seq<TreeView>, i: int)
    requires
        0 <= i,
        keys_from(args, i) is Ok,
    ensures
        forall|j: int|
            0 <= j < keys_from(args, i)->Ok_0.len() ==> is_curve_point(
                (#[trigger] keys_from(args, i)->Ok_0[j]).bytes@,
            ),
        keys_from(args, i)->Ok_0.len() == if i < args.len() {
            args.len() - i
        } else {
            0
        },
    decreases args.len() - i,
{
    if i < args.len() {
        let k = key_of(args[i])->Ok_0;
        lemma_key_leaf(args[i], k);
        lemma_keys_valid(args, i + 1);
        let rest = keys_from(args, i + 1)->Ok_0;
        let all = keys_from(args, i)->Ok_0;
        assert(all =~= seq![k] + rest);
        assert forall|j: int| 0 <= j < all.len() implies is_curve_point(
            (#[trigger] all[j]).bytes@,
        ) by {
            if j > 0 {
                assert(all[j] == rest[j - 1]);
            }
        }
    }
}

/// Keys on the curve are read back from the expressions that are written
/// for them.
proof fn lemma_keys_back(pre: Seq<TreeView>, keys: List<PublicKey>)
    requires
        forall|j: int| 0 <= j < keys.seq().len() ==> is_curve_point(
            (#[trigger] keys.seq()[j]).bytes@,
        ),
    ensures
        keys_from(pre + key_trees(keys), pre.len() as int) == Ok::<Seq<PublicKey>, ErrorView>(
            keys.seq(),
        ),
        key_trees(keys).len() == keys.seq().len(),
    decreases keys,
{
    let all = pre + key_trees(keys);
    match keys {
        List::Nil => {
            assert(keys.seq() =~= Seq::<PublicKey>::empty());
        },
        List::Cons(k, rest) => {
            let one = leaf(hex(k.bytes@));
            assert(keys.seq()[0] == k);
            assert(is_curve_point(k.bytes@));
            lemma_key_round_trip(k);
            assert forall|j: int| 0 <= j < rest.seq().len() implies is_curve_point(
                (#[trigger] rest.seq()[j]).bytes@,
            ) by {
                assert(rest.seq()[j] == keys.seq()[j + 1]);
            }
            lemma_keys_back(pre.push(one), *rest);
            assert(pre.push(one) + key_trees(*rest) =~= all);
            assert(all[pre.len() as int] == one);
            assert(keys.seq() =~= seq![k] + rest.seq());
        },
    }
}

/// What `multi` is read as is read back.
proof fn lemma_multi_back(name: Seq<u8>, args: Seq<TreeView>, other: Seq<u8>)
    requires
        multi_from(name, args) is Ok,
    ensures
        ({
            let (k, keys) = multi_from(name, args)->Ok_0;
            multi_from(other, seq![leaf(decimal(k as nat))] + key_trees(keys)) == Ok::<
                (u32, List<PublicKey>),
                ErrorView,
            >((k, keys))
        }),
{
    let (k, keys) = multi_from(name, args)->Ok_0;
    let found = keys_from(args, 1)->Ok_0;
    lemma_keys_valid(args, 1);
    List::<PublicKey>::lemma_seq_of(found);
    lemma_number_leaf(args[0], k);
    let pre = seq![leaf(decimal(k as nat))];
    lemma_keys_back(pre, keys);
    keys.lemma_of_seq();
    let all = pre + key_trees(keys);
    assert(all[0] == leaf(decimal(k as nat)));
    assert(all.len() == 1 + found.len());
}

/// What a fragment of type `E` says of its expression once it is read
/// back.
pub open spec fn back_e(x: E<PublicKey>, name: Seq<u8>, fuel: nat) -> bool {
    let tr = x.tree();
    &&& tree_e(tr.name, tr.args, fuel) == Ok::<E<PublicKey>, ErrorView>(x)
    &&& wellformed(tr.name)
    &&& classify(tr.name) == classify(name)
}

/// What a fragment of type `W` says of its expression once it is read
/// back.
pub open spec fn back_w(x: W<PublicKey>, fuel: nat) -> bool {
    let tr = x.tree();
    &&& tree_w(tr.name, tr.args, fuel) == Ok::<W<PublicKey>, ErrorView>(x)
    &&& wellformed(tr.name)
}

/// What a fragment of type `V` says of its expression once it is read
/// back.
pub open spec fn back_v(x: V<PublicKey>, fuel: nat) -> bool {
    let tr = x.tree();
    &&& tree_v(tr.name, tr.args, fuel) == Ok::<V<PublicKey>, ErrorView>(x)
    &&& wellformed(tr.name)
}

/// What a fragment of type `T` says of its expression once it is read
/// back: it is read as the fragment, and as no `E` unless the expression
/// it came from is one.
pub open spec fn back_t(x: T<PublicKey>, name: Seq<u8>, args: Seq<TreeView>, fuel: nat) -> bool {
    let tr = x.tree();
    &&& tree_t(tr.name, tr.args, fuel) == Ok::<T<PublicKey>, ErrorView>(x)
    &&& wellformed(tr.name)
    &&& tree_e(name, args, fuel) is Err ==> tree_e(tr.name, tr.args, fuel) is Err
}

/// The later children of a threshold are read back.
proof fn lemma_ws_back(args: Seq<TreeView>, i: int, fuel: nat, pre: Seq<TreeView>)
    requires
        0 <= i,
        ws_from(args, i, fuel) is Ok,
    ensures
        ws_from(
            pre + ws_trees(List::of(ws_from(args, i, fuel)->Ok_0)),
            pre.len() as int,
            fuel,
        ) == Ok::<Seq<W<PublicKey>>, ErrorView>(ws_from(args, i, fuel)->Ok_0),
    decreases fuel, 2 + args.len() - i,
{
    let ws = ws_from(args, i, fuel)->Ok_0;
    if i < args.len() {
        let a = args[i];
        assert(tree_w(a.name, a.args, fuel) is Ok || tree_w(a.name, a.args, fuel) is Err);
        assert(ws_from(args, i + 1, fuel) is Ok || ws_from(args, i + 1, fuel) is Err);
        let x = tree_w(a.name, a.args, fuel)->Ok_0;
        let rest = ws_from(args, i + 1, fuel)->Ok_0;
        lemma_back_w(a.name, a.args, fuel);
        lemma_ws_back(args, i + 1, fuel, pre.push(x.tree()));
        assert(ws =~= seq![x] + rest);
        assert(ws.subrange(1, ws.len() as int) =~= rest);
        let all = pre + ws_trees(List::of(ws));
        assert(ws_trees(List::of(ws)) =~= seq![x.tree()] + ws_trees(List::of(rest)));
        assert(pre.push(x.tree()) + ws_trees(List::of(rest)) =~= all);
        assert(all[pre.len() as int] == x.tree());
    } else {
        assert(ws =~= Seq::<W<PublicKey>>::empty());
        assert(pre + ws_trees(List::of(ws)) =~= pre);
    }
}

/// What a threshold is read as is read back.
proof fn lemma_thresh_back(name: Seq<u8>, args: Seq<TreeView>, fuel: nat, other: Seq<u8>)
    requires
        thresh_from(name, args, fuel) is Ok,
    ensures
        ({
            let (k, e, ws) = thresh_from(name, args, fuel)->Ok_0;
            thresh_from(
                other,
                seq![leaf(decimal(k as nat))] + seq![e.tree()] + ws_trees(ws),
                fuel,
            ) == Ok::<(u32, E<PublicKey>, List<W<PublicKey>>), ErrorView>((k, e, ws))
        }),
    decreases fuel, 10 + args.len(),
{
    let a = args[1];
    assert(tree_e(a.name, a.args, fuel) is Ok || tree_e(a.name, a.args, fuel) is Err);
    assert(ws_from(args, 2, fuel) is Ok || ws_from(args, 2, fuel) is Err);
    let (k, e, ws) = thresh_from(name, args, fuel)->Ok_0;
    let found = ws_from(args, 2, fuel)->Ok_0;
    lemma_number_leaf(args[0], k);
    lemma_back_e(a.name, a.args, fuel);
    let pre = seq![leaf(decimal(k as nat))] + seq![e.tree()];
    lemma_ws_back(args, 2, fuel, pre);
    let all = pre + ws_trees(ws);
    assert(all[0] == leaf(decimal(k as nat)));
    assert(all[1] == e.tree());
}

/// A pair of children of type `E` and `W` is read back.
proof fn lemma_pair_ew_back(name: Seq<u8>, args: Seq<TreeView>, fuel: nat, other: Seq<u8>)
    requires
        pair_ew(name, args, fuel) is Ok,
    ensures
        ({
            let (l, r) = pair_ew(name, args, fuel)->Ok_0;
            &&& pair_ew(other, seq![l.tree()] + seq![r.tree()], fuel) == Ok::<
                (E<PublicKey>, W<PublicKey>),
                ErrorView,
            >((l, r))
        }),
    decreases fuel, 2nat,
{
    let a = args[0];
    let b = args[1];
    let f = (fuel - 1) as nat;
    assert(tree_e(a.name, a.args, f) is Ok || tree_e(a.name, a.args, f) is Err);
    assert(tree_w(b.name, b.args, f) is Ok || tree_w(b.name, b.args, f) is Err);
    lemma_back_e(a.name, a.args, f);
    lemma_back_w(b.name, b.args, f);
    let (l, r) = pair_ew(name, args, fuel)->Ok_0;
    let c = seq![l.tree()] + seq![r.tree()];
    assert(c[0] == l.tree());
    assert(c[1] == r.tree());
}

/// A pair of children of type `E` and `T` is read back.
proof fn lemma_pair_et_back(name: Seq<u8>, args: Seq<TreeView>, fuel: nat, other: Seq<u8>)
    requires
        pair_et(name, args, fuel) is Ok,
    ensures
        ({
            let (l, r) = pair_et(name, args, fuel)->Ok_0;
            &&& pair_et(other, seq![l.tree()] + seq![r.tree()], fuel) == Ok::<
                (E<PublicKey>, T<PublicKey>),
                ErrorView,
            >((l, r))
        }),
    decreases fuel, 2nat,
{
    let a = args[0];
    let b = args[1];
    let f = (fuel - 1) as nat;
    assert(tree_e(a.name, a.args, f) is Ok || tree_e(a.name, a.args, f) is Err);
    assert(tree_t(b.name, b.args, f) is Ok || tree_t(b.name, b.args, f) is Err);
    lemma_back_e(a.name, a.args, f);
    lemma_back_t(b.name, b.args, f);
    let (l, r) = pair_et(name, args, fuel)->Ok_0;
    let c = seq![l.tree()] + seq![r.tree()];
    assert(c[0] == l.tree());
    assert(c[1] == r.tree());
}

/// A pair of children of type `E` and `V` is read back.
proof fn lemma_pair_ev_back(name: Seq<u8>, args: Seq<TreeView>, fuel: nat, other: Seq<u8>)
    requires
        pair_ev(name, args, fuel) is Ok,
    ensures
        ({
            let (l, r) = pair_ev(name, args, fuel)->Ok_0;
            &&& pair_ev(other, seq![l.tree()] + seq![r.tree()], fuel) == Ok::<
                (E<PublicKey>, V<PublicKey>),
                ErrorView,
            >((l, r))
        }),
    decreases fuel, 2nat,
{
    let a = args[0];
    let b = args[1];
    let f = (fuel - 1) as nat;
    assert(tree_e(a.name, a.args, f) is Ok || tree_e(a.name, a.args, f) is Err);
    assert(tree_v(b.name, b.args, f) is Ok || tree_v(b.name, b.args, f) is Err);
    lemma_back_e(a.name, a.args, f);
    lemma_back_v(b.name, b.args, f);
    let (l, r) = pair_ev(name, args, fuel)->Ok_0;
    let c = seq![l.tree()] + seq![r.tree()];
    assert(c[0] == l.tree());
    assert(c[1] == r.tree());
}

/// A pair of children of type `V` and `V` is read back.
proof fn lemma_pair_vv_back(name: Seq<u8>, args: Seq<TreeView>, fuel: nat, other: Seq<u8>)
    requires
        pair_vv(name, args, fuel) is Ok,
    ensures
        ({
            let (l, r) = pair_vv(name, args, fuel)->Ok_0;
            &&& pair_vv(other, seq![l.tree()] + seq![r.tree()], fuel) == Ok::<
                (V<PublicKey>, V<PublicKey>),
                ErrorView,
            >((l, r))
        }),
    decreases fuel, 2nat,
{
    let a = args[0];
    let b = args[1];
    let f = (fuel - 1) as nat;
    assert(tree_v(a.name, a.args, f) is Ok || tree_v(a.name, a.args, f) is Err);
    assert(tree_v(b.name, b.args, f) is Ok || tree_v(b.name, b.args, f) is Err);
    lemma_back_v(a.name, a.args, f);
    lemma_back_v(b.name, b.args, f);
    let (l, r) = pair_vv(name, args, fuel)->Ok_0;
    let c = seq![l.tree()] + seq![r.tree()];
    assert(c[0] == l.tree());
    assert(c[1] == r.tree());
}

/// A pair of children of type `V` and `T` is read back.
proof fn lemma_pair_vt_back(name: Seq<u8>, args: Seq<TreeView>, fuel: nat, other: Seq<u8>)
    requires
        pair_vt(name, args, fuel) is Ok,
    ensures
        ({
            let (l, r) = pair_vt(name, args, fuel)->Ok_0;
            &&& pair_vt(other, seq![l.tree()] + seq![r.tree()], fuel) == Ok::<
                (V<PublicKey>, T<PublicKey>),
                ErrorView,
            >((l, r))
        }),
    decreases fuel, 2nat,
{
    let a = args[0];
    let b = args[1];
    let f = (fuel - 1) as nat;
    assert(tree_v(a.name, a.args, f) is Ok || tree_v(a.name, a.args, f) is Err);
    assert(tree_t(b.name, b.args, f) is Ok || tree_t(b.name, b.args, f) is Err);
    lemma_back_v(a.name, a.args, f);
    lemma_back_t(b.name, b.args, f);
    let (l, r) = pair_vt(name, args, fuel)->Ok_0;
    let c = seq![l.tree()] + seq![r.tree()];
    assert(c[0] == l.tree());
    assert(c[1] == r.tree());
}

/// A pair of children of type `T` and `T` is read back.
proof fn lemma_pair_tt_back(name: Seq<u8>, args: Seq<TreeView>, fuel: nat, other: Seq<u8>)
    requires
        pair_tt(name, args, fuel) is Ok,
    ensures
        ({
            let (l, r) = pair_tt(name, args, fuel)->Ok_0;
            &&& pair_tt(other, seq![l.tree()] + seq![r.tree()], fuel) == Ok::<
                (T<PublicKey>, T<PublicKey>),
                ErrorView,
            >((l, r))
        }),
    decreases fuel, 2nat,
{
    let a = args[0];
    let b = args[1];
    let f = (fuel - 1) as nat;
    assert(tree_t(a.name, a.args, f) is Ok || tree_t(a.name, a.args, f) is Err);
    assert(tree_t(b.name, b.args, f) is Ok || tree_t(b.name, b.args, f) is Err);
    lemma_back_t(a.name, a.args, f);
    lemma_back_t(b.name, b.args, f);
    let (l, r) = pair_tt(name, args, fuel)->Ok_0;
    let c = seq![l.tree()] + seq![r.tree()];
    assert(c[0] == l.tree());
    assert(c[1] == r.tree());
}

/// What `andor` is read as is read back.
proof fn lemma_and_or_back(name: Seq<u8>, args: Seq<TreeView>, fuel: nat, other: Seq<u8>)
    requires
        and_or(name, args, fuel) is Ok,
    ensures
        ({
            let x = and_or(name, args, fuel)->Ok_0;
            and_or(other, x.tree().args, fuel) == Ok::<E<PublicKey>, ErrorView>(x)
        }),
    decreases fuel, 2nat,
{
    let a = args[0];
    let b = args[1];
    let f = (fuel - 1) as nat;
    assert(tree_e(a.name, a.args, f) is Ok || tree_e(a.name, a.args, f) is Err);
    assert(tree_t(b.name, b.args, f) is Ok || tree_t(b.name, b.args, f) is Err);
    lemma_back_e(a.name, a.args, f);
    lemma_back_t(b.name, b.args, f);
    let x = and_or(name, args, fuel)->Ok_0;
    let l = tree_e(a.name, a.args, f)->Ok_0;
    let r = tree_t(b.name, b.args, f)->Ok_0;
    let c = x.tree().args;
    assert(c == seq![l.tree()] + seq![r.tree()] + seq![leaf(seq![0x30u8])]);
    assert(c[0] == l.tree());
    assert(c[1] == r.tree());
    assert(c[2] == leaf(seq![0x30u8]));
    reveal_strlit("0");
    vstd::string::is_ascii_spec_bytes("0");
    assert("0".spec_bytes() =~= seq![0x30u8]);
}

/// What `or_i` is read as at the place of an `E` is read back.
proof fn lemma_either_back(name: Seq<u8>, args: Seq<TreeView>, fuel: nat, other: Seq<u8>)
    requires
        either(name, args, fuel) is Ok,
    ensures
        ({
            let x = either(name, args, fuel)->Ok_0;
            either(other, x.tree().args, fuel) == Ok::<E<PublicKey>, ErrorView>(x)
        }),
    decreases fuel, 2nat,
{
    let a = args[0];
    let b = args[1];
    let f = (fuel - 1) as nat;
    assert(tree_e(a.name, a.args, f) is Ok || tree_e(a.name, a.args, f) is Err);
    assert(tree_t(b.name, b.args, f) is Ok || tree_t(b.name, b.args, f) is Err);
    assert(tree_e(b.name, b.args, f) is Ok || tree_e(b.name, b.args, f) is Err);
    assert(tree_t(a.name, a.args, f) is Ok || tree_t(a.name, a.args, f) is Err);
    let x = either(name, args, fuel)->Ok_0;
    let c = x.tree().args;
    if tree_e(a.name, a.args, f) is Ok {
        let l = tree_e(a.name, a.args, f)->Ok_0;
        let r = tree_t(b.name, b.args, f)->Ok_0;
        lemma_back_e(a.name, a.args, f);
        lemma_back_t(b.name, b.args, f);
        assert(c == seq![l.tree()] + seq![r.tree()]);
        assert(c[0] == l.tree());
        assert(c[1] == r.tree());
    } else {
        let l = tree_e(b.name, b.args, f)->Ok_0;
        let r = tree_t(a.name, a.args, f)->Ok_0;
        lemma_back_e(b.name, b.args, f);
        lemma_back_t(a.name, a.args, f);
        assert(c == seq![r.tree()] + seq![l.tree()]);
        assert(c[0] == r.tree());
        assert(c[1] == l.tree());
    }
}

/// A switch of two `T` that is no `E` is no `E` when it is read back.
proof fn lemma_switch_no_e(name: Seq<u8>, args: Seq<TreeView>, fuel: nat, other: Seq<u8>)
    requires
        pair_tt(name, args, fuel) is Ok,
        either(name, args, fuel) is Err,
    ensures
        ({
            let (l, r) = pair_tt(name, args, fuel)->Ok_0;
            either(other, seq![l.tree()] + seq![r.tree()], fuel) is Err
        }),
    decreases fuel, 2nat,
{
    let a = args[0];
    let b = args[1];
    let f = (fuel - 1) as nat;
    assert(tree_e(a.name, a.args, f) is Ok || tree_e(a.name, a.args, f) is Err);
    assert(tree_t(b.name, b.args, f) is Ok || tree_t(b.name, b.args, f) is Err);
    assert(tree_e(b.name, b.args, f) is Ok || tree_e(b.name, b.args, f) is Err);
    assert(tree_t(a.name, a.args, f) is Ok || tree_t(a.name, a.args, f) is Err);
    lemma_back_t(a.name, a.args, f);
    lemma_back_t(b.name, b.args, f);
    let (l, r) = pair_tt(name, args, fuel)->Ok_0;
    let c = seq![l.tree()] + seq![r.tree()];
    assert(c[0] == l.tree());
    assert(c[1] == r.tree());
    let lt = l.tree();
    let rt = r.tree();
    assert(tree_e(lt.name, lt.args, f) is Ok || tree_e(lt.name, lt.args, f) is Err);
    assert(tree_e(rt.name, rt.args, f) is Ok || tree_e(rt.name, rt.args, f) is Err);
}

/// A fragment of type `E` that an expression is read as is read back from
/// the expression that is written for it.
pub proof fn lemma_back_e(name: Seq<u8>, args: Seq<TreeView>, fuel: nat)
    requires
        tree_e(name, args, fuel) is Ok,
    ensures
        back_e(tree_e(name, args, fuel)->Ok_0, name, fuel),
    decreases fuel, 2nat,
{
    if wrapped_by(name, WRAP_LIKELY) {
        lemma_back_likely(name, args, fuel);
    } else if wrapped_by(name, WRAP_UNLIKELY) {
        lemma_back_unlikely(name, args, fuel);
    } else {
        lemma_back_e_plain(name, args, fuel);
    }
}

proof fn lemma_back_likely(name: Seq<u8>, args: Seq<TreeView>, fuel: nat)
    requires
        tree_e(name, args, fuel) is Ok,
        wrapped_by(name, WRAP_LIKELY),
    ensures
        back_e(tree_e(name, args, fuel)->Ok_0, name, fuel),
    decreases fuel, 1nat,
{
    let f = (fuel - 1) as nat;
    let inner = unwrapped(name);
    assert(tree_t(inner, args, f) is Ok || tree_t(inner, args, f) is Err);
    lemma_back_t(inner, args, f);
    let t = tree_t(inner, args, f)->Ok_0;
    let x = E::Likely(Box::new(t));
    assert(tree_e(name, args, fuel) == Ok::<E<PublicKey>, ErrorView>(x));
    let tr = x.tree();
    lemma_wrapped(WRAP_LIKELY, t.tree().name);
    lemma_unknown(name);
    lemma_unknown(tr.name);
    assert(tr.name == wrapped(WRAP_LIKELY, t.tree().name));
    assert(tr.args == t.tree().args);
    assert(unwrapped(tr.name) == t.tree().name);
    assert(tree_t(unwrapped(tr.name), tr.args, f) == Ok::<T<PublicKey>, ErrorView>(t));
    assert(tree_e(tr.name, tr.args, fuel) == Ok::<E<PublicKey>, ErrorView>(x));
}

proof fn lemma_back_unlikely(name: Seq<u8>, args: Seq<TreeView>, fuel: nat)
    requires
        tree_e(name, args, fuel) is Ok,
        !wrapped_by(name, WRAP_LIKELY),
        wrapped_by(name, WRAP_UNLIKELY),
    ensures
        back_e(tree_e(name, args, fuel)->Ok_0, name, fuel),
    decreases fuel, 1nat,
{
    let f = (fuel - 1) as nat;
    let inner = unwrapped(name);
    assert(tree_t(inner, args, f) is Ok || tree_t(inner, args, f) is Err);
    lemma_back_t(inner, args, f);
    let t = tree_t(inner, args, f)->Ok_0;
    let x = E::Unlikely(Box::new(t));
    assert(tree_e(name, args, fuel) == Ok::<E<PublicKey>, ErrorView>(x));
    let tr = x.tree();
    lemma_wrapped(WRAP_UNLIKELY, t.tree().name);
    lemma_unknown(name);
    lemma_unknown(tr.name);
    assert(tr.name == wrapped(WRAP_UNLIKELY, t.tree().name));
    assert(tr.args == t.tree().args);
    assert(unwrapped(tr.name) == t.tree().name);
    assert(!wrapped_by(tr.name, WRAP_LIKELY));
    assert(tree_t(unwrapped(tr.name), tr.args, f) == Ok::<T<PublicKey>, ErrorView>(t));
    assert(tree_e(tr.name, tr.args, fuel) == Ok::<E<PublicKey>, ErrorView>(x));
}

proof fn lemma_back_e_plain(name: Seq<u8>, args: Seq<TreeView>, fuel: nat)
    requires
        tree_e(name, args, fuel) is Ok,
        !wrapped_by(name, WRAP_LIKELY),
        !wrapped_by(name, WRAP_UNLIKELY),
    ensures
        back_e(tree_e(name, args, fuel)->Ok_0, name, fuel),
    decreases fuel, 1nat,
{
    let f = (fuel - 1) as nat;
    let x = tree_e(name, args, fuel)->Ok_0;
    lemma_classified(name);
    match classify(name) {
        Name::PkK => {
            lemma_classify(Name::PkK);
            lemma_wellformed(Name::PkK);
            lemma_key_leaf(args[0], key_of(args[0])->Ok_0);
        },
        Name::Multi => {
            lemma_classify(Name::Multi);
            lemma_wellformed(Name::Multi);
            lemma_multi_back(name, args, Name::Multi.bytes());
        },
        Name::Delay => {
            lemma_classify(Name::Delay);
            lemma_wellformed(Name::Delay);
            lemma_time_leaf(args[0], time_of(args[0])->Ok_0);
        },
        Name::Thresh => {
            lemma_classify(Name::Thresh);
            lemma_wellformed(Name::Thresh);
            lemma_thresh_back(name, args, f, Name::Thresh.bytes());
        },
        Name::AndB => {
            lemma_classify(Name::AndB);
            lemma_wellformed(Name::AndB);
            lemma_pair_ew_back(name, args, f, Name::AndB.bytes());
        },
        Name::AndOr => {
            lemma_classify(Name::AndOr);
            lemma_wellformed(Name::AndOr);
            lemma_and_or_back(name, args, f, Name::AndOr.bytes());
        },
        Name::OrB => {
            lemma_classify(Name::OrB);
            lemma_wellformed(Name::OrB);
            lemma_pair_ew_back(name, args, f, Name::OrB.bytes());
        },
        Name::OrD => {
            lemma_classify(Name::OrD);
            lemma_wellformed(Name::OrD);
            lemma_pair_et_back(name, args, f, Name::OrD.bytes());
        },
        Name::OrI => {
            lemma_classify(Name::OrI);
            lemma_wellformed(Name::OrI);
            lemma_either_back(name, args, f, Name::OrI.bytes());
        },
        _ => {},
    }
}

/// A fragment of type `W` that an expression is read as is read back from
/// the expression that is written for it.
pub proof fn lemma_back_w(name: Seq<u8>, args: Seq<TreeView>, fuel: nat)
    requires
        tree_w(name, args, fuel) is Ok,
    ensures
        back_w(tree_w(name, args, fuel)->Ok_0, fuel),
    decreases fuel, 0nat,
{
    let f = (fuel - 1) as nat;
    let x = tree_w(name, args, fuel)->Ok_0;
    lemma_classified(name);
    if wrapped_by(name, WRAP_ALT) {
        let inner = unwrapped(name);
        assert(tree_e(inner, args, f) is Ok || tree_e(inner, args, f) is Err);
        lemma_back_e(inner, args, f);
        let e = tree_e(inner, args, f)->Ok_0;
        lemma_wrapped(WRAP_ALT, e.tree().name);
    } else {
        match classify(name) {
            Name::SwapPkK => {
                lemma_classify(Name::SwapPkK);
                lemma_wellformed(Name::SwapPkK);
                lemma_key_leaf(args[0], key_of(args[0])->Ok_0);
            },
            Name::SwapHash => {
                lemma_classify(Name::SwapHash);
                lemma_wellformed(Name::SwapHash);
                lemma_hash_leaf(args[0], hash_of(args[0])->Ok_0);
            },
            Name::SwapDelay => {
                lemma_classify(Name::SwapDelay);
                lemma_wellformed(Name::SwapDelay);
                lemma_time_leaf(args[0], time_of(args[0])->Ok_0);
            },
            _ => {},
        }
    }
}

/// A fragment of type `V` that an expression is read as is read back from
/// the expression that is written for it.
pub proof fn lemma_back_v(name: Seq<u8>, args: Seq<TreeView>, fuel: nat)
    requires
        tree_v(name, args, fuel) is Ok,
    ensures
        back_v(tree_v(name, args, fuel)->Ok_0, fuel),
    decreases fuel, 0nat,
{
    let f = (fuel - 1) as nat;
    let x = tree_v(name, args, fuel)->Ok_0;
    lemma_classified(name);
    match classify(name) {
        Name::VerifyPkK => {
            lemma_classify(Name::VerifyPkK);
            lemma_wellformed(Name::VerifyPkK);
            lemma_key_leaf(args[0], key_of(args[0])->Ok_0);
        },
        Name::VerifyMulti => {
            lemma_classify(Name::VerifyMulti);
            lemma_wellformed(Name::VerifyMulti);
            lemma_multi_back(name, args, Name::VerifyMulti.bytes());
        },
        Name::VerifyOlder => {
            lemma_classify(Name::VerifyOlder);
            lemma_wellformed(Name::VerifyOlder);
            lemma_time_leaf(args[0], time_of(args[0])->Ok_0);
        },
        Name::VerifyHash => {
            lemma_classify(Name::VerifyHash);
            lemma_wellformed(Name::VerifyHash);
            lemma_hash_leaf(args[0], hash_of(args[0])->Ok_0);
        },
        Name::AndV => {
            lemma_classify(Name::AndV);
            lemma_wellformed(Name::AndV);
            lemma_pair_vv_back(name, args, f, Name::AndV.bytes());
        },
        Name::OrI => {
            lemma_classify(Name::OrI);
            lemma_wellformed(Name::OrI);
            lemma_pair_vv_back(name, args, f, Name::OrI.bytes());
        },
        Name::VerifyOrI => {
            lemma_classify(Name::VerifyOrI);
            lemma_wellformed(Name::VerifyOrI);
            lemma_pair_tt_back(name, args, f, Name::VerifyOrI.bytes());
        },
        Name::OrC => {
            lemma_classify(Name::OrC);
            lemma_wellformed(Name::OrC);
            lemma_pair_ev_back(name, args, f, Name::OrC.bytes());
        },
        Name::VerifyThresh => {
            lemma_classify(Name::VerifyThresh);
            lemma_wellformed(Name::VerifyThresh);
            lemma_thresh_back(name, args, f, Name::VerifyThresh.bytes());
        },
        _ => {},
    }
}

/// A fragment of type `T` that an expression is read as is read back from
/// the expression that is written for it.
pub proof fn lemma_back_t(name: Seq<u8>, args: Seq<TreeView>, fuel: nat)
    requires
        tree_t(name, args, fuel) is Ok,
    ensures
        back_t(tree_t(name, args, fuel)->Ok_0, name, args, fuel),
    decreases fuel, 3nat,
{
    let f = (fuel - 1) as nat;
    let x = tree_t(name, args, fuel)->Ok_0;
    lemma_classified(name);
    match classify(name) {
        Name::Older => {
            lemma_classify(Name::Older);
            lemma_wellformed(Name::Older);
            lemma_time_leaf(args[0], time_of(args[0])->Ok_0);
        },
        Name::After => {
            lemma_classify(Name::After);
            lemma_wellformed(Name::After);
            lemma_time_leaf(args[0], time_of(args[0])->Ok_0);
        },
        Name::Hash256 => {
            lemma_classify(Name::Hash256);
            lemma_wellformed(Name::Hash256);
            lemma_hash_leaf(args[0], hash_of(args[0])->Ok_0);
        },
        Name::AndV => {
            lemma_classify(Name::AndV);
            lemma_wellformed(Name::AndV);
            lemma_pair_vt_back(name, args, f, Name::AndV.bytes());
        },
        Name::OrB => {
            lemma_classify(Name::OrB);
            lemma_wellformed(Name::OrB);
            lemma_pair_ew_back(name, args, f, Name::OrB.bytes());
        },
        Name::OrD => {
            lemma_classify(Name::OrD);
            lemma_wellformed(Name::OrD);
            lemma_pair_et_back(name, args, f, Name::OrD.bytes());
        },
        Name::OrI => {
            lemma_classify(Name::OrI);
            lemma_wellformed(Name::OrI);
            lemma_pair_tt_back(name, args, f, Name::OrI.bytes());
            if tree_e(name, args, fuel) is Err {
                lemma_switch_no_e(name, args, f, Name::OrI.bytes());
            }
        },
        Name::TrueOrI => {
            lemma_classify(Name::TrueOrI);
            lemma_wellformed(Name::TrueOrI);
            lemma_pair_vv_back(name, args, f, Name::TrueOrI.bytes());
        },
        _ => {
            assert(tree_e(name, args, fuel) is Ok || tree_e(name, args, fuel) is Err);
            lemma_back_e(name, args, fuel);
        },
    }
}

/// The expression of a fragment that is read as a `T` has no name of an
/// envelope.
proof fn lemma_no_envelope(name: Seq<u8>, args: Seq<TreeView>, fuel: nat)
    requires
        tree_t(name, args, fuel) is Ok,
    ensures
        !classify(name).is_envelope(),
{
    lemma_classified(name);
    let n = classify(name);
    if n.is_envelope() {
        lemma_wellformed(n);
        assert(tree_e(name, args, fuel) is Ok || tree_e(name, args, fuel) is Err);
    }
}

/// A script that an expression is read as is read back from the
/// expression that is written for it.
pub proof fn law_script_read_back(t: TreeView)
    requires
        descript_of(t) is Ok,
    ensures
        descript_of(descript_of(t)->Ok_0.tree()) == descript_of(t),
        !classify(descript_of(t)->Ok_0.tree().name).is_envelope(),
{
    let fuel = MAX_DEPTH as nat;
    assert(tree_t(t.name, t.args, fuel) is Ok || tree_t(t.name, t.args, fuel) is Err);
    lemma_back_t(t.name, t.args, fuel);
    let x = tree_t(t.name, t.args, fuel)->Ok_0;
    lemma_no_envelope(x.tree().name, x.tree().args, fuel);
}

/// A descriptor that an expression is read as is read back from the
/// expression that is written for it.
pub proof fn law_descriptor_read_back(top: TreeView)
    requires
        descriptor_of(top) is Ok,
    ensures
        descriptor_of(descriptor_of(top)->Ok_0.tree()) == descriptor_of(top),
{
    let d = descriptor_of(top)->Ok_0;
    lemma_classify(Name::Pk);
    lemma_classify(Name::Pkh);
    lemma_classify(Name::Wpkh);
    lemma_classify(Name::Sh);
    lemma_classify(Name::Wsh);
    match called(top) {
        Name::Pk => {
            lemma_key_leaf(top.args[0], key_of(top.args[0])->Ok_0);
        },
        Name::Pkh => {
            lemma_key_leaf(top.args[0], key_of(top.args[0])->Ok_0);
        },
        Name::Wpkh => {
            lemma_key_leaf(top.args[0], key_of(top.args[0])->Ok_0);
        },
        Name::Sh => {
            let inner = top.args[0];
            match called(inner) {
                Name::Wsh => {
                    assert(descript_of(inner.args[0]) is Ok || descript_of(inner.args[0]) is Err);
                    law_script_read_back(inner.args[0]);
                },
                Name::Wpkh => {
                    lemma_key_leaf(inner.args[0], key_of(inner.args[0])->Ok_0);
                },
                _ => {
                    assert(descript_of(inner) is Ok || descript_of(inner) is Err);
                    law_script_read_back(inner);
                },
            }
        },
        Name::Wsh => {
            assert(descript_of(top.args[0]) is Ok || descript_of(top.args[0]) is Err);
            law_script_read_back(top.args[0]);
        },
        _ => {
            assert(descript_of(top) is Ok || descript_of(top) is Err);
            law_script_read_back(top);
        },
    }
}

} // verus!
