//! The text that is written for a fragment is the text of the expression
//! that is written for it.

use vstd::prelude::*;
use crate::astelem::{E, T, V, W};
use crate::descriptor::{call_text, Descriptor};
use crate::expression::{TreeView, COMMA, LPAREN, RPAREN};
use crate::expression_laws::{args_text, tree_text};
use crate::key::PublicKey;
use crate::list::List;
use crate::names::Name;
use crate::printer::{keys_text, ws_text};
use crate::text::{decimal, hex};
use crate::to_tree::{call_tree, key_trees, leaf, ws_trees};

verus! {

/// The text of expressions one after the other is the text of the first
/// ones, a comma, and the text of the others.
pub proof fn lemma_args_text_concat(a: Seq<TreeView>, b: Seq<TreeView>)
    requires
        a.len() >= 1,
    ensures
        args_text(a + b) == if b.len() == 0 {
            args_text(a)
        } else {
            args_text(a) + seq![COMMA] + args_text(b)
        },
    decreases a.len(),
{
    let all = a + b;
    if b.len() == 0 {
        assert(all =~= a);
    } else if a.len() == 1 {
        assert(all[0] == a[0]);
        assert(all.subrange(1, all.len() as int) =~= b);
    } else {
        let rest = a.subrange(1, a.len() as int);
        lemma_args_text_concat(rest, b);
        assert(all[0] == a[0]);
        assert(all.subrange(1, all.len() as int) =~= rest + b);
        assert(args_text(all) =~= args_text(a) + seq![COMMA] + args_text(b));
    }
}

/// The text of an expression without children is its name.
pub proof fn lemma_leaf_text(text: Seq<u8>)
    ensures
        tree_text(leaf(text)) == text,
        args_text(seq![leaf(text)]) == text,
{
    assert(tree_text(leaf(text)) == text);
    lemma_one_arg(leaf(text));
}

/// The text of one expression as an argument is its text.
pub proof fn lemma_one_arg(t: TreeView)
    ensures
        args_text(seq![t]) == tree_text(t),
{
    assert(seq![t][0] == t);
    assert(args_text(seq![t]) == tree_text(seq![t][0]));
}

/// The keys of a list are written as the expressions for them are.
proof fn lemma_keys_text(keys: List<PublicKey>)
    ensures
        key_trees(keys).len() == keys.seq().len(),
        keys.seq().len() > 0 ==> keys_text(keys) == seq![COMMA] + args_text(key_trees(keys)),
        keys.seq().len() == 0 ==> keys_text(keys) == Seq::<u8>::empty(),
    decreases keys,
{
    match keys {
        List::Nil => {},
        List::Cons(k, rest) => {
            lemma_keys_text(*rest);
            let one = seq![leaf(hex(k.bytes@))];
            lemma_leaf_text(hex(k.bytes@));
            lemma_args_text_concat(one, key_trees(*rest));
            if rest.seq().len() == 0 {
                assert(keys_text(keys) =~= seq![COMMA] + args_text(key_trees(keys)));
            } else {
                assert(keys_text(keys) =~= seq![COMMA] + args_text(key_trees(keys)));
            }
        },
    }
}

/// The later children of a threshold are written as the expressions for
/// them are.
proof fn lemma_ws_text(ws: List<W<PublicKey>>)
    ensures
        ws_trees(ws).len() == ws.seq().len(),
        ws.seq().len() > 0 ==> ws_text(ws) == seq![COMMA] + args_text(ws_trees(ws)),
        ws.seq().len() == 0 ==> ws_text(ws) == Seq::<u8>::empty(),
    decreases ws,
{
    match ws {
        List::Nil => {},
        List::Cons(x, rest) => {
            lemma_ws_text(*rest);
            lemma_text_w(x);
            let one = seq![x.tree()];
            lemma_one_arg(x.tree());
            lemma_args_text_concat(one, ws_trees(*rest));
            assert(ws_text(ws) =~= seq![COMMA] + args_text(ws_trees(ws)));
        },
    }
}

proof fn lemma_text_e_checksig(a: PublicKey)
    ensures
        ({
            let x = E::CheckSig(a);
            &&& x.name() == x.tree().name
            &&& x.tree().args.len() >= 1
            &&& x.args() == seq![LPAREN] + args_text(x.tree().args) + seq![RPAREN]
            &&& x.text() == tree_text(x.tree())
        }),
{
    let x = E::CheckSig(a);
    lemma_leaf_text(hex(a.bytes@));
    assert(x.tree().args == seq![leaf(hex(a.bytes@))]);
    assert(x.args() =~= seq![LPAREN] + args_text(x.tree().args) + seq![RPAREN]);
    assert(x.text() =~= tree_text(x.tree()));
}

proof fn lemma_text_e_checkmultisig(a: u32, b: List<PublicKey>)
    ensures
        ({
            let x = E::CheckMultiSig(a, b);
            &&& x.name() == x.tree().name
            &&& x.tree().args.len() >= 1
            &&& x.args() == seq![LPAREN] + args_text(x.tree().args) + seq![RPAREN]
            &&& x.text() == tree_text(x.tree())
        }),
{
    let x = E::CheckMultiSig(a, b);
    lemma_leaf_text(decimal(a as nat));
    lemma_keys_text(b);
    lemma_args_text_concat(seq![leaf(decimal(a as nat))], key_trees(b));
    assert(x.tree().args == seq![leaf(decimal(a as nat))] + key_trees(b));
    assert(x.args() =~= seq![LPAREN] + args_text(x.tree().args) + seq![RPAREN]);
    assert(x.text() =~= tree_text(x.tree()));
}

proof fn lemma_text_e_time(a: u32)
    ensures
        ({
            let x = E::Time(a);
            &&& x.name() == x.tree().name
            &&& x.tree().args.len() >= 1
            &&& x.args() == seq![LPAREN] + args_text(x.tree().args) + seq![RPAREN]
            &&& x.text() == tree_text(x.tree())
        }),
{
    let x = E::Time(a);
    lemma_leaf_text(decimal(a as nat));
    assert(x.tree().args == seq![leaf(decimal(a as nat))]);
    assert(x.args() =~= seq![LPAREN] + args_text(x.tree().args) + seq![RPAREN]);
    assert(x.text() =~= tree_text(x.tree()));
}

proof fn lemma_text_e_threshold(a: u32, b: E<PublicKey>, c: List<W<PublicKey>>)
    requires
        b.text() == tree_text(b.tree()),
        ws_trees(c).len() == c.seq().len(),
        c.seq().len() > 0 ==> ws_text(c) == seq![COMMA] + args_text(ws_trees(c)),
        c.seq().len() == 0 ==> ws_text(c) == Seq::<u8>::empty(),
    ensures
        ({
            let x = E::Threshold(a, Box::new(b), c);
            &&& x.name() == x.tree().name
            &&& x.tree().args.len() >= 1
            &&& x.args() == seq![LPAREN] + args_text(x.tree().args) + seq![RPAREN]
            &&& x.text() == tree_text(x.tree())
        }),
{
    let x = E::Threshold(a, Box::new(b), c);
    lemma_leaf_text(decimal(a as nat));
    lemma_one_arg(b.tree());
    lemma_args_text_concat(seq![leaf(decimal(a as nat))], seq![b.tree()]);
    lemma_args_text_concat(seq![leaf(decimal(a as nat))] + seq![b.tree()], ws_trees(c));
    assert(x.tree().args == seq![leaf(decimal(a as nat))] + seq![b.tree()] + ws_trees(c));
    assert(x.args() =~= seq![LPAREN] + args_text(x.tree().args) + seq![RPAREN]);
    assert(x.text() =~= tree_text(x.tree()));
}

proof fn lemma_text_e_paralleland(a: E<PublicKey>, b: W<PublicKey>)
    requires
        a.text() == tree_text(a.tree()),
        b.text() == tree_text(b.tree()),
    ensures
        ({
            let x = E::ParallelAnd(Box::new(a), Box::new(b));
            &&& x.name() == x.tree().name
            &&& x.tree().args.len() >= 1
            &&& x.args() == seq![LPAREN] + args_text(x.tree().args) + seq![RPAREN]
            &&& x.text() == tree_text(x.tree())
        }),
{
    let x = E::ParallelAnd(Box::new(a), Box::new(b));
    lemma_one_arg(a.tree());
    lemma_one_arg(b.tree());
    lemma_args_text_concat(seq![a.tree()], seq![b.tree()]);
    assert(x.tree().args == seq![a.tree()] + seq![b.tree()]);
    assert(x.args() =~= seq![LPAREN] + args_text(x.tree().args) + seq![RPAREN]);
    assert(x.text() =~= tree_text(x.tree()));
}

proof fn lemma_text_e_cascadeand(a: E<PublicKey>, b: T<PublicKey>)
    requires
        a.text() == tree_text(a.tree()),
        b.text() == tree_text(b.tree()),
    ensures
        ({
            let x = E::CascadeAnd(Box::new(a), Box::new(b));
            &&& x.name() == x.tree().name
            &&& x.tree().args.len() >= 1
            &&& x.args() == seq![LPAREN] + args_text(x.tree().args) + seq![RPAREN]
            &&& x.text() == tree_text(x.tree())
        }),
{
    let x = E::CascadeAnd(Box::new(a), Box::new(b));
    lemma_one_arg(a.tree());
    lemma_one_arg(b.tree());
    lemma_args_text_concat(seq![a.tree()], seq![b.tree()]);
    lemma_leaf_text(seq![0x30u8]);
    lemma_args_text_concat(seq![a.tree()] + seq![b.tree()], seq![leaf(seq![0x30u8])]);
    assert(x.tree().args == seq![a.tree()] + seq![b.tree()] + seq![leaf(seq![0x30u8])]);
    assert(x.args() =~= seq![LPAREN] + args_text(x.tree().args) + seq![RPAREN]);
    assert(x.text() =~= tree_text(x.tree()));
}

proof fn lemma_text_e_parallelor(a: E<PublicKey>, b: W<PublicKey>)
    requires
        a.text() == tree_text(a.tree()),
        b.text() == tree_text(b.tree()),
    ensures
        ({
            let x = E::ParallelOr(Box::new(a), Box::new(b));
            &&& x.name() == x.tree().name
            &&& x.tree().args.len() >= 1
            &&& x.args() == seq![LPAREN] + args_text(x.tree().args) + seq![RPAREN]
            &&& x.text() == tree_text(x.tree())
        }),
{
    let x = E::ParallelOr(Box::new(a), Box::new(b));
    lemma_one_arg(a.tree());
    lemma_one_arg(b.tree());
    lemma_args_text_concat(seq![a.tree()], seq![b.tree()]);
    assert(x.tree().args == seq![a.tree()] + seq![b.tree()]);
    assert(x.args() =~= seq![LPAREN] + args_text(x.tree().args) + seq![RPAREN]);
    assert(x.text() =~= tree_text(x.tree()));
}

proof fn lemma_text_e_cascadeor(a: E<PublicKey>, b: T<PublicKey>)
    requires
        a.text() == tree_text(a.tree()),
        b.text() == tree_text(b.tree()),
    ensures
        ({
            let x = E::CascadeOr(Box::new(a), Box::new(b));
            &&& x.name() == x.tree().name
            &&& x.tree().args.len() >= 1
            &&& x.args() == seq![LPAREN] + args_text(x.tree().args) + seq![RPAREN]
            &&& x.text() == tree_text(x.tree())
        }),
{
    let x = E::CascadeOr(Box::new(a), Box::new(b));
    lemma_one_arg(a.tree());
    lemma_one_arg(b.tree());
    lemma_args_text_concat(seq![a.tree()], seq![b.tree()]);
    assert(x.tree().args == seq![a.tree()] + seq![b.tree()]);
    assert(x.args() =~= seq![LPAREN] + args_text(x.tree().args) + seq![RPAREN]);
    assert(x.text() =~= tree_text(x.tree()));
}

proof fn lemma_text_e_switchorleft(a: E<PublicKey>, b: T<PublicKey>)
    requires
        a.text() == tree_text(a.tree()),
        b.text() == tree_text(b.tree()),
    ensures
        ({
            let x = E::SwitchOrLeft(Box::new(a), Box::new(b));
            &&& x.name() == x.tree().name
            &&& x.tree().args.len() >= 1
            &&& x.args() == seq![LPAREN] + args_text(x.tree().args) + seq![RPAREN]
            &&& x.text() == tree_text(x.tree())
        }),
{
    let x = E::SwitchOrLeft(Box::new(a), Box::new(b));
    lemma_one_arg(a.tree());
    lemma_one_arg(b.tree());
    lemma_args_text_concat(seq![a.tree()], seq![b.tree()]);
    assert(x.tree().args == seq![a.tree()] + seq![b.tree()]);
    assert(x.args() =~= seq![LPAREN] + args_text(x.tree().args) + seq![RPAREN]);
    assert(x.text() =~= tree_text(x.tree()));
}

proof fn lemma_text_e_switchorright(a: E<PublicKey>, b: T<PublicKey>)
    requires
        b.text() == tree_text(b.tree()),
        a.text() == tree_text(a.tree()),
    ensures
        ({
            let x = E::SwitchOrRight(Box::new(a), Box::new(b));
            &&& x.name() == x.tree().name
            &&& x.tree().args.len() >= 1
            &&& x.args() == seq![LPAREN] + args_text(x.tree().args) + seq![RPAREN]
            &&& x.text() == tree_text(x.tree())
        }),
{
    let x = E::SwitchOrRight(Box::new(a), Box::new(b));
    lemma_one_arg(b.tree());
    lemma_one_arg(a.tree());
    lemma_args_text_concat(seq![b.tree()], seq![a.tree()]);
    assert(x.tree().args == seq![b.tree()] + seq![a.tree()]);
    assert(x.args() =~= seq![LPAREN] + args_text(x.tree().args) + seq![RPAREN]);
    assert(x.text() =~= tree_text(x.tree()));
}

/// A fragment of type `E` is written as the expression for it is.
pub proof fn lemma_text_e(x: E<PublicKey>)
    ensures
        x.name() == x.tree().name,
        x.tree().args.len() >= 1,
        x.args() == seq![LPAREN] + args_text(x.tree().args) + seq![RPAREN],
        x.text() == tree_text(x.tree()),
    decreases x,
{
    match x {
        E::CheckSig(a) => {
            lemma_text_e_checksig(a);
        },
        E::CheckMultiSig(a, b) => {
            lemma_text_e_checkmultisig(a, b);
        },
        E::Time(a) => {
            lemma_text_e_time(a);
        },
        E::Threshold(a, b, c) => {
            lemma_text_e(*b);
            lemma_ws_text(c);
            lemma_text_e_threshold(a, *b, c);
        },
        E::ParallelAnd(a, b) => {
            lemma_text_e(*a);
            lemma_text_w(*b);
            lemma_text_e_paralleland(*a, *b);
        },
        E::CascadeAnd(a, b) => {
            lemma_text_e(*a);
            lemma_text_t(*b);
            lemma_text_e_cascadeand(*a, *b);
        },
        E::ParallelOr(a, b) => {
            lemma_text_e(*a);
            lemma_text_w(*b);
            lemma_text_e_parallelor(*a, *b);
        },
        E::CascadeOr(a, b) => {
            lemma_text_e(*a);
            lemma_text_t(*b);
            lemma_text_e_cascadeor(*a, *b);
        },
        E::SwitchOrLeft(a, b) => {
            lemma_text_e(*a);
            lemma_text_t(*b);
            lemma_text_e_switchorleft(*a, *b);
        },
        E::SwitchOrRight(a, b) => {
            lemma_text_t(*b);
            lemma_text_e(*a);
            lemma_text_e_switchorright(*a, *b);
        },
        E::Likely(a) => {
            lemma_text_t(*a);
            assert(x.text() =~= tree_text(x.tree()));
        },
        E::Unlikely(a) => {
            lemma_text_t(*a);
            assert(x.text() =~= tree_text(x.tree()));
        },
    }
}

proof fn lemma_text_w_checksig(a: PublicKey)
    ensures
        ({
            let x = W::CheckSig(a);
            &&& x.name() == x.tree().name
            &&& x.tree().args.len() >= 1
            &&& x.args() == seq![LPAREN] + args_text(x.tree().args) + seq![RPAREN]
            &&& x.text() == tree_text(x.tree())
        }),
{
    let x = W::CheckSig(a);
    lemma_leaf_text(hex(a.bytes@));
    assert(x.tree().args == seq![leaf(hex(a.bytes@))]);
    assert(x.args() =~= seq![LPAREN] + args_text(x.tree().args) + seq![RPAREN]);
    assert(x.text() =~= tree_text(x.tree()));
}

proof fn lemma_text_w_hashequal(a: [u8; 32])
    ensures
        ({
            let x = W::HashEqual(a);
            &&& x.name() == x.tree().name
            &&& x.tree().args.len() >= 1
            &&& x.args() == seq![LPAREN] + args_text(x.tree().args) + seq![RPAREN]
            &&& x.text() == tree_text(x.tree())
        }),
{
    let x = W::HashEqual(a);
    lemma_leaf_text(hex(a@));
    assert(x.tree().args == seq![leaf(hex(a@))]);
    assert(x.args() =~= seq![LPAREN] + args_text(x.tree().args) + seq![RPAREN]);
    assert(x.text() =~= tree_text(x.tree()));
}

proof fn lemma_text_w_time(a: u32)
    ensures
        ({
            let x = W::Time(a);
            &&& x.name() == x.tree().name
            &&& x.tree().args.len() >= 1
            &&& x.args() == seq![LPAREN] + args_text(x.tree().args) + seq![RPAREN]
            &&& x.text() == tree_text(x.tree())
        }),
{
    let x = W::Time(a);
    lemma_leaf_text(decimal(a as nat));
    assert(x.tree().args == seq![leaf(decimal(a as nat))]);
    assert(x.args() =~= seq![LPAREN] + args_text(x.tree().args) + seq![RPAREN]);
    assert(x.text() =~= tree_text(x.tree()));
}

/// A fragment of type `W` is written as the expression for it is.
pub proof fn lemma_text_w(x: W<PublicKey>)
    ensures
        x.name() == x.tree().name,
        x.tree().args.len() >= 1,
        x.args() == seq![LPAREN] + args_text(x.tree().args) + seq![RPAREN],
        x.text() == tree_text(x.tree()),
    decreases x,
{
    match x {
        W::CheckSig(a) => {
            lemma_text_w_checksig(a);
        },
        W::HashEqual(a) => {
            lemma_text_w_hashequal(a);
        },
        W::Time(a) => {
            lemma_text_w_time(a);
        },
        W::CastE(a) => {
            lemma_text_e(*a);
            assert(x.text() =~= tree_text(x.tree()));
        },
    }
}

proof fn lemma_text_v_checksig(a: PublicKey)
    ensures
        ({
            let x = V::CheckSig(a);
            &&& x.name() == x.tree().name
            &&& x.tree().args.len() >= 1
            &&& x.args() == seq![LPAREN] + args_text(x.tree().args) + seq![RPAREN]
            &&& x.text() == tree_text(x.tree())
        }),
{
    let x = V::CheckSig(a);
    lemma_leaf_text(hex(a.bytes@));
    assert(x.tree().args == seq![leaf(hex(a.bytes@))]);
    assert(x.args() =~= seq![LPAREN] + args_text(x.tree().args) + seq![RPAREN]);
    assert(x.text() =~= tree_text(x.tree()));
}

proof fn lemma_text_v_checkmultisig(a: u32, b: List<PublicKey>)
    ensures
        ({
            let x = V::CheckMultiSig(a, b);
            &&& x.name() == x.tree().name
            &&& x.tree().args.len() >= 1
            &&& x.args() == seq![LPAREN] + args_text(x.tree().args) + seq![RPAREN]
            &&& x.text() == tree_text(x.tree())
        }),
{
    let x = V::CheckMultiSig(a, b);
    lemma_leaf_text(decimal(a as nat));
    lemma_keys_text(b);
    lemma_args_text_concat(seq![leaf(decimal(a as nat))], key_trees(b));
    assert(x.tree().args == seq![leaf(decimal(a as nat))] + key_trees(b));
    assert(x.args() =~= seq![LPAREN] + args_text(x.tree().args) + seq![RPAREN]);
    assert(x.text() =~= tree_text(x.tree()));
}

proof fn lemma_text_v_time(a: u32)
    ensures
        ({
            let x = V::Time(a);
            &&& x.name() == x.tree().name
            &&& x.tree().args.len() >= 1
            &&& x.args() == seq![LPAREN] + args_text(x.tree().args) + seq![RPAREN]
            &&& x.text() == tree_text(x.tree())
        }),
{
    let x = V::Time(a);
    lemma_leaf_text(decimal(a as nat));
    assert(x.tree().args == seq![leaf(decimal(a as nat))]);
    assert(x.args() =~= seq![LPAREN] + args_text(x.tree().args) + seq![RPAREN]);
    assert(x.text() =~= tree_text(x.tree()));
}

proof fn lemma_text_v_hashequal(a: [u8; 32])
    ensures
        ({
            let x = V::HashEqual(a);
            &&& x.name() == x.tree().name
            &&& x.tree().args.len() >= 1
            &&& x.args() == seq![LPAREN] + args_text(x.tree().args) + seq![RPAREN]
            &&& x.text() == tree_text(x.tree())
        }),
{
    let x = V::HashEqual(a);
    lemma_leaf_text(hex(a@));
    assert(x.tree().args == seq![leaf(hex(a@))]);
    assert(x.args() =~= seq![LPAREN] + args_text(x.tree().args) + seq![RPAREN]);
    assert(x.text() =~= tree_text(x.tree()));
}

proof fn lemma_text_v_and(a: V<PublicKey>, b: V<PublicKey>)
    requires
        a.text() == tree_text(a.tree()),
        b.text() == tree_text(b.tree()),
    ensures
        ({
            let x = V::And(Box::new(a), Box::new(b));
            &&& x.name() == x.tree().name
            &&& x.tree().args.len() >= 1
            &&& x.args() == seq![LPAREN] + args_text(x.tree().args) + seq![RPAREN]
            &&& x.text() == tree_text(x.tree())
        }),
{
    let x = V::And(Box::new(a), Box::new(b));
    lemma_one_arg(a.tree());
    lemma_one_arg(b.tree());
    lemma_args_text_concat(seq![a.tree()], seq![b.tree()]);
    assert(x.tree().args == seq![a.tree()] + seq![b.tree()]);
    assert(x.args() =~= seq![LPAREN] + args_text(x.tree().args) + seq![RPAREN]);
    assert(x.text() =~= tree_text(x.tree()));
}

proof fn lemma_text_v_switchor(a: V<PublicKey>, b: V<PublicKey>)
    requires
        a.text() == tree_text(a.tree()),
        b.text() == tree_text(b.tree()),
    ensures
        ({
            let x = V::SwitchOr(Box::new(a), Box::new(b));
            &&& x.name() == x.tree().name
            &&& x.tree().args.len() >= 1
            &&& x.args() == seq![LPAREN] + args_text(x.tree().args) + seq![RPAREN]
            &&& x.text() == tree_text(x.tree())
        }),
{
    let x = V::SwitchOr(Box::new(a), Box::new(b));
    lemma_one_arg(a.tree());
    lemma_one_arg(b.tree());
    lemma_args_text_concat(seq![a.tree()], seq![b.tree()]);
    assert(x.tree().args == seq![a.tree()] + seq![b.tree()]);
    assert(x.args() =~= seq![LPAREN] + args_text(x.tree().args) + seq![RPAREN]);
    assert(x.text() =~= tree_text(x.tree()));
}

proof fn lemma_text_v_switchort(a: T<PublicKey>, b: T<PublicKey>)
    requires
        a.text() == tree_text(a.tree()),
        b.text() == tree_text(b.tree()),
    ensures
        ({
            let x = V::SwitchOrT(Box::new(a), Box::new(b));
            &&& x.name() == x.tree().name
            &&& x.tree().args.len() >= 1
            &&& x.args() == seq![LPAREN] + args_text(x.tree().args) + seq![RPAREN]
            &&& x.text() == tree_text(x.tree())
        }),
{
    let x = V::SwitchOrT(Box::new(a), Box::new(b));
    lemma_one_arg(a.tree());
    lemma_one_arg(b.tree());
    lemma_args_text_concat(seq![a.tree()], seq![b.tree()]);
    assert(x.tree().args == seq![a.tree()] + seq![b.tree()]);
    assert(x.args() =~= seq![LPAREN] + args_text(x.tree().args) + seq![RPAREN]);
    assert(x.text() =~= tree_text(x.tree()));
}

proof fn lemma_text_v_cascadeor(a: E<PublicKey>, b: V<PublicKey>)
    requires
        a.text() == tree_text(a.tree()),
        b.text() == tree_text(b.tree()),
    ensures
        ({
            let x = V::CascadeOr(Box::new(a), Box::new(b));
            &&& x.name() == x.tree().name
            &&& x.tree().args.len() >= 1
            &&& x.args() == seq![LPAREN] + args_text(x.tree().args) + seq![RPAREN]
            &&& x.text() == tree_text(x.tree())
        }),
{
    let x = V::CascadeOr(Box::new(a), Box::new(b));
    lemma_one_arg(a.tree());
    lemma_one_arg(b.tree());
    lemma_args_text_concat(seq![a.tree()], seq![b.tree()]);
    assert(x.tree().args == seq![a.tree()] + seq![b.tree()]);
    assert(x.args() =~= seq![LPAREN] + args_text(x.tree().args) + seq![RPAREN]);
    assert(x.text() =~= tree_text(x.tree()));
}

proof fn lemma_text_v_threshold(a: u32, b: E<PublicKey>, c: List<W<PublicKey>>)
    requires
        b.text() == tree_text(b.tree()),
        ws_trees(c).len() == c.seq().len(),
        c.seq().len() > 0 ==> ws_text(c) == seq![COMMA] + args_text(ws_trees(c)),
        c.seq().len() == 0 ==> ws_text(c) == Seq::<u8>::empty(),
    ensures
        ({
            let x = V::Threshold(a, Box::new(b), c);
            &&& x.name() == x.tree().name
            &&& x.tree().args.len() >= 1
            &&& x.args() == seq![LPAREN] + args_text(x.tree().args) + seq![RPAREN]
            &&& x.text() == tree_text(x.tree())
        }),
{
    let x = V::Threshold(a, Box::new(b), c);
    lemma_leaf_text(decimal(a as nat));
    lemma_one_arg(b.tree());
    lemma_args_text_concat(seq![leaf(decimal(a as nat))], seq![b.tree()]);
    lemma_args_text_concat(seq![leaf(decimal(a as nat))] + seq![b.tree()], ws_trees(c));
    assert(x.tree().args == seq![leaf(decimal(a as nat))] + seq![b.tree()] + ws_trees(c));
    assert(x.args() =~= seq![LPAREN] + args_text(x.tree().args) + seq![RPAREN]);
    assert(x.text() =~= tree_text(x.tree()));
}

/// A fragment of type `V` is written as the expression for it is.
pub proof fn lemma_text_v(x: V<PublicKey>)
    ensures
        x.name() == x.tree().name,
        x.tree().args.len() >= 1,
        x.args() == seq![LPAREN] + args_text(x.tree().args) + seq![RPAREN],
        x.text() == tree_text(x.tree()),
    decreases x,
{
    match x {
        V::CheckSig(a) => {
            lemma_text_v_checksig(a);
        },
        V::CheckMultiSig(a, b) => {
            lemma_text_v_checkmultisig(a, b);
        },
        V::Time(a) => {
            lemma_text_v_time(a);
        },
        V::HashEqual(a) => {
            lemma_text_v_hashequal(a);
        },
        V::And(a, b) => {
            lemma_text_v(*a);
            lemma_text_v(*b);
            lemma_text_v_and(*a, *b);
        },
        V::SwitchOr(a, b) => {
            lemma_text_v(*a);
            lemma_text_v(*b);
            lemma_text_v_switchor(*a, *b);
        },
        V::SwitchOrT(a, b) => {
            lemma_text_t(*a);
            lemma_text_t(*b);
            lemma_text_v_switchort(*a, *b);
        },
        V::CascadeOr(a, b) => {
            lemma_text_e(*a);
            lemma_text_v(*b);
            lemma_text_v_cascadeor(*a, *b);
        },
        V::Threshold(a, b, c) => {
            lemma_text_e(*b);
            lemma_ws_text(c);
            lemma_text_v_threshold(a, *b, c);
        },
    }
}

proof fn lemma_text_t_time(a: u32)
    ensures
        ({
            let x = T::Time(a);
            &&& x.name() == x.tree().name
            &&& x.tree().args.len() >= 1
            &&& x.args() == seq![LPAREN] + args_text(x.tree().args) + seq![RPAREN]
            &&& x.text() == tree_text(x.tree())
        }),
{
    let x = T::Time(a);
    lemma_leaf_text(decimal(a as nat));
    assert(x.tree().args == seq![leaf(decimal(a as nat))]);
    assert(x.args() =~= seq![LPAREN] + args_text(x.tree().args) + seq![RPAREN]);
    assert(x.text() =~= tree_text(x.tree()));
}

proof fn lemma_text_t_after(a: u32)
    ensures
        ({
            let x = T::After(a);
            &&& x.name() == x.tree().name
            &&& x.tree().args.len() >= 1
            &&& x.args() == seq![LPAREN] + args_text(x.tree().args) + seq![RPAREN]
            &&& x.text() == tree_text(x.tree())
        }),
{
    let x = T::After(a);
    lemma_leaf_text(decimal(a as nat));
    assert(x.tree().args == seq![leaf(decimal(a as nat))]);
    assert(x.args() =~= seq![LPAREN] + args_text(x.tree().args) + seq![RPAREN]);
    assert(x.text() =~= tree_text(x.tree()));
}

proof fn lemma_text_t_hashequal(a: [u8; 32])
    ensures
        ({
            let x = T::HashEqual(a);
            &&& x.name() == x.tree().name
            &&& x.tree().args.len() >= 1
            &&& x.args() == seq![LPAREN] + args_text(x.tree().args) + seq![RPAREN]
            &&& x.text() == tree_text(x.tree())
        }),
{
    let x = T::HashEqual(a);
    lemma_leaf_text(hex(a@));
    assert(x.tree().args == seq![leaf(hex(a@))]);
    assert(x.args() =~= seq![LPAREN] + args_text(x.tree().args) + seq![RPAREN]);
    assert(x.text() =~= tree_text(x.tree()));
}

proof fn lemma_text_t_and(a: V<PublicKey>, b: T<PublicKey>)
    requires
        a.text() == tree_text(a.tree()),
        b.text() == tree_text(b.tree()),
    ensures
        ({
            let x = T::And(Box::new(a), Box::new(b));
            &&& x.name() == x.tree().name
            &&& x.tree().args.len() >= 1
            &&& x.args() == seq![LPAREN] + args_text(x.tree().args) + seq![RPAREN]
            &&& x.text() == tree_text(x.tree())
        }),
{
    let x = T::And(Box::new(a), Box::new(b));
    lemma_one_arg(a.tree());
    lemma_one_arg(b.tree());
    lemma_args_text_concat(seq![a.tree()], seq![b.tree()]);
    assert(x.tree().args == seq![a.tree()] + seq![b.tree()]);
    assert(x.args() =~= seq![LPAREN] + args_text(x.tree().args) + seq![RPAREN]);
    assert(x.text() =~= tree_text(x.tree()));
}

proof fn lemma_text_t_parallelor(a: E<PublicKey>, b: W<PublicKey>)
    requires
        a.text() == tree_text(a.tree()),
        b.text() == tree_text(b.tree()),
    ensures
        ({
            let x = T::ParallelOr(Box::new(a), Box::new(b));
            &&& x.name() == x.tree().name
            &&& x.tree().args.len() >= 1
            &&& x.args() == seq![LPAREN] + args_text(x.tree().args) + seq![RPAREN]
            &&& x.text() == tree_text(x.tree())
        }),
{
    let x = T::ParallelOr(Box::new(a), Box::new(b));
    lemma_one_arg(a.tree());
    lemma_one_arg(b.tree());
    lemma_args_text_concat(seq![a.tree()], seq![b.tree()]);
    assert(x.tree().args == seq![a.tree()] + seq![b.tree()]);
    assert(x.args() =~= seq![LPAREN] + args_text(x.tree().args) + seq![RPAREN]);
    assert(x.text() =~= tree_text(x.tree()));
}

proof fn lemma_text_t_cascadeor(a: E<PublicKey>, b: T<PublicKey>)
    requires
        a.text() == tree_text(a.tree()),
        b.text() == tree_text(b.tree()),
    ensures
        ({
            let x = T::CascadeOr(Box::new(a), Box::new(b));
            &&& x.name() == x.tree().name
            &&& x.tree().args.len() >= 1
            &&& x.args() == seq![LPAREN] + args_text(x.tree().args) + seq![RPAREN]
            &&& x.text() == tree_text(x.tree())
        }),
{
    let x = T::CascadeOr(Box::new(a), Box::new(b));
    lemma_one_arg(a.tree());
    lemma_one_arg(b.tree());
    lemma_args_text_concat(seq![a.tree()], seq![b.tree()]);
    assert(x.tree().args == seq![a.tree()] + seq![b.tree()]);
    assert(x.args() =~= seq![LPAREN] + args_text(x.tree().args) + seq![RPAREN]);
    assert(x.text() =~= tree_text(x.tree()));
}

proof fn lemma_text_t_switchor(a: T<PublicKey>, b: T<PublicKey>)
    requires
        a.text() == tree_text(a.tree()),
        b.text() == tree_text(b.tree()),
    ensures
        ({
            let x = T::SwitchOr(Box::new(a), Box::new(b));
            &&& x.name() == x.tree().name
            &&& x.tree().args.len() >= 1
            &&& x.args() == seq![LPAREN] + args_text(x.tree().args) + seq![RPAREN]
            &&& x.text() == tree_text(x.tree())
        }),
{
    let x = T::SwitchOr(Box::new(a), Box::new(b));
    lemma_one_arg(a.tree());
    lemma_one_arg(b.tree());
    lemma_args_text_concat(seq![a.tree()], seq![b.tree()]);
    assert(x.tree().args == seq![a.tree()] + seq![b.tree()]);
    assert(x.args() =~= seq![LPAREN] + args_text(x.tree().args) + seq![RPAREN]);
    assert(x.text() =~= tree_text(x.tree()));
}

proof fn lemma_text_t_switchorv(a: V<PublicKey>, b: V<PublicKey>)
    requires
        a.text() == tree_text(a.tree()),
        b.text() == tree_text(b.tree()),
    ensures
        ({
            let x = T::SwitchOrV(Box::new(a), Box::new(b));
            &&& x.name() == x.tree().name
            &&& x.tree().args.len() >= 1
            &&& x.args() == seq![LPAREN] + args_text(x.tree().args) + seq![RPAREN]
            &&& x.text() == tree_text(x.tree())
        }),
{
    let x = T::SwitchOrV(Box::new(a), Box::new(b));
    lemma_one_arg(a.tree());
    lemma_one_arg(b.tree());
    lemma_args_text_concat(seq![a.tree()], seq![b.tree()]);
    assert(x.tree().args == seq![a.tree()] + seq![b.tree()]);
    assert(x.args() =~= seq![LPAREN] + args_text(x.tree().args) + seq![RPAREN]);
    assert(x.text() =~= tree_text(x.tree()));
}

/// A fragment of type `T` is written as the expression for it is.
pub proof fn lemma_text_t(x: T<PublicKey>)
    ensures
        x.name() == x.tree().name,
        x.tree().args.len() >= 1,
        x.args() == seq![LPAREN] + args_text(x.tree().args) + seq![RPAREN],
        x.text() == tree_text(x.tree()),
    decreases x,
{
    match x {
        T::Time(a) => {
            lemma_text_t_time(a);
        },
        T::After(a) => {
            lemma_text_t_after(a);
        },
        T::HashEqual(a) => {
            lemma_text_t_hashequal(a);
        },
        T::And(a, b) => {
            lemma_text_v(*a);
            lemma_text_t(*b);
            lemma_text_t_and(*a, *b);
        },
        T::ParallelOr(a, b) => {
            lemma_text_e(*a);
            lemma_text_w(*b);
            lemma_text_t_parallelor(*a, *b);
        },
        T::CascadeOr(a, b) => {
            lemma_text_e(*a);
            lemma_text_t(*b);
            lemma_text_t_cascadeor(*a, *b);
        },
        T::SwitchOr(a, b) => {
            lemma_text_t(*a);
            lemma_text_t(*b);
            lemma_text_t_switchor(*a, *b);
        },
        T::SwitchOrV(a, b) => {
            lemma_text_v(*a);
            lemma_text_v(*b);
            lemma_text_t_switchorv(*a, *b);
        },
        T::CastE(a) => {
            lemma_text_e(*a);
            assert(x.text() =~= tree_text(x.tree()));
        },
    }
}

/// `name(inner)` is written as the expression for it is.
proof fn lemma_call_text(name: Name, inner: TreeView)
    ensures
        tree_text(call_tree(name, inner)) == call_text(name, tree_text(inner)),
{
    lemma_one_arg(inner);
}

/// A descriptor is written as the expression for it is.
pub proof fn lemma_text_descriptor(d: Descriptor<PublicKey>)
    ensures
        d.text() == tree_text(d.tree()),
{
    match d {
        Descriptor::Bare(x) => {
            lemma_text_t(x.0);
        },
        Descriptor::Pk(k) => {
            lemma_leaf_text(hex(k.bytes@));
            lemma_call_text(Name::Pk, leaf(hex(k.bytes@)));
        },
        Descriptor::Pkh(k) => {
            lemma_leaf_text(hex(k.bytes@));
            lemma_call_text(Name::Pkh, leaf(hex(k.bytes@)));
        },
        Descriptor::Wpkh(k) => {
            lemma_leaf_text(hex(k.bytes@));
            lemma_call_text(Name::Wpkh, leaf(hex(k.bytes@)));
        },
        Descriptor::ShWpkh(k) => {
            lemma_leaf_text(hex(k.bytes@));
            lemma_call_text(Name::Wpkh, leaf(hex(k.bytes@)));
            lemma_call_text(Name::Sh, call_tree(Name::Wpkh, leaf(hex(k.bytes@))));
        },
        Descriptor::Sh(x) => {
            lemma_text_t(x.0);
            lemma_call_text(Name::Sh, x.0.tree());
        },
        Descriptor::Wsh(x) => {
            lemma_text_t(x.0);
            lemma_call_text(Name::Wsh, x.0.tree());
        },
        Descriptor::ShWsh(x) => {
            lemma_text_t(x.0);
            lemma_call_text(Name::Wsh, x.0.tree());
            lemma_call_text(Name::Sh, call_tree(Name::Wsh, x.0.tree()));
        },
    }
}

} // verus!
