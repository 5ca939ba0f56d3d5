//! Every expression is read back from the text that is written for it.

use vstd::prelude::*;
use crate::error::ErrorView;
use crate::expression::{
    first_unprintable, is_delimiter, is_printable, name_end, parse_args_from, parse_text,
    parse_tree, TreeView, COMMA, LPAREN, MAX_NESTING, RPAREN,
};
use crate::name_laws::clean;

verus! {

/// The text of an expression: its name, and its arguments in parentheses
/// where it has any.
pub open spec fn tree_text(t: TreeView) -> Seq<u8>
    decreases t,
{
    if t.args.len() == 0 {
        t.name
    } else {
        t.name + seq![LPAREN] + args_text(t.args) + seq![RPAREN]
    }
}

/// The texts of expressions with commas between them.
pub open spec fn args_text(args: Seq<TreeView>) -> Seq<u8>
    decreases args,
{
    if args.len() == 0 {
        Seq::empty()
    } else if args.len() == 1 {
        tree_text(args[0])
    } else {
        tree_text(args[0]) + seq![COMMA] + args_text(args.subrange(1, args.len() as int))
    }
}

/// An expression that can be written and read: its names are clean, and
/// it is nested no deeper than `fuel`.
pub open spec fn good(t: TreeView, fuel: nat) -> bool
    decreases t,
{
    clean(t.name) && (t.args.len() == 0 || (fuel > 0 && good_args(t.args, (fuel - 1) as nat)))
}

/// All of the expressions are good.
pub open spec fn good_args(args: Seq<TreeView>, fuel: nat) -> bool
    decreases args,
{
    args.len() == 0 || (good(args[0], fuel) && good_args(
        args.subrange(1, args.len() as int),
        fuel,
    ))
}

/// All bytes of `s` are printable.
pub open spec fn printable(s: Seq<u8>) -> bool {
    forall|i: int| 0 <= i < s.len() ==> is_printable(#[trigger] s[i])
}

/// A name ends where the first character that ends names stands.
proof fn lemma_name_end(s: Seq<u8>, i: int, n: int)
    requires
        0 <= i,
        0 <= n,
        i + n <= s.len(),
        forall|k: int| i <= k < i + n ==> !is_delimiter(#[trigger] s[k]),
        i + n == s.len() || is_delimiter(s[i + n]),
    ensures
        name_end(s, i) == i + n,
    decreases n,
{
    if n > 0 {
        assert(!is_delimiter(s[i]));
        lemma_name_end(s, i + 1, n - 1);
    }
}

/// A text of printable bytes has no byte that is not.
proof fn lemma_first_unprintable(s: Seq<u8>, i: int)
    requires
        0 <= i <= s.len(),
        printable(s),
    ensures
        first_unprintable(s, i) == s.len(),
    decreases s.len() - i,
{
    if i < s.len() {
        assert(is_printable(s[i]));
        lemma_first_unprintable(s, i + 1);
    }
}

/// The text of a good expression is printable.
proof fn lemma_printable_tree(t: TreeView, fuel: nat)
    requires
        good(t, fuel),
    ensures
        printable(tree_text(t)),
    decreases t,
{
    if t.args.len() > 0 {
        lemma_printable_args(t.args, (fuel - 1) as nat);
        let a = t.name + seq![LPAREN];
        let b = args_text(t.args);
        let s = tree_text(t);
        assert(s == a + b + seq![RPAREN]);
        assert forall|i: int| 0 <= i < s.len() implies is_printable(#[trigger] s[i]) by {
            if i < t.name.len() {
                assert(s[i] == t.name[i]);
            } else if i == t.name.len() {
                assert(s[i] == LPAREN);
            } else if i < a.len() + b.len() {
                assert(s[i] == b[i - a.len()]);
            } else {
                assert(s[i] == RPAREN);
            }
        }
    }
}

/// The text of good expressions is printable.
proof fn lemma_printable_args(args: Seq<TreeView>, fuel: nat)
    requires
        good_args(args, fuel),
    ensures
        printable(args_text(args)),
    decreases args,
{
    if args.len() == 1 {
        lemma_printable_tree(args[0], fuel);
    } else if args.len() > 1 {
        let a = tree_text(args[0]);
        let b = args_text(args.subrange(1, args.len() as int));
        lemma_printable_tree(args[0], fuel);
        lemma_printable_args(args.subrange(1, args.len() as int), fuel);
        let s = args_text(args);
        assert(s == a + seq![COMMA] + b);
        assert forall|i: int| 0 <= i < s.len() implies is_printable(#[trigger] s[i]) by {
            if i < a.len() {
                assert(s[i] == a[i]);
            } else if i == a.len() {
                assert(s[i] == COMMA);
            } else {
                assert(s[i] == b[i - a.len() - 1]);
            }
        }
    }
}

/// A good expression is read from its text, whatever stands before the
/// text, and behind it where that starts with a comma or a closing
/// parenthesis.
proof fn lemma_read_tree(pre: Seq<u8>, t: TreeView, post: Seq<u8>, fuel: nat)
    requires
        good(t, fuel),
        post.len() == 0 || post[0] == COMMA || post[0] == RPAREN,
    ensures
        parse_tree(pre + tree_text(t) + post, pre.len() as int, fuel) == Ok::<
            (TreeView, int),
            ErrorView,
        >((t, (pre.len() + tree_text(t).len()) as int)),
    decreases t,
{
    let s = pre + tree_text(t) + post;
    let i = pre.len() as int;
    let n = t.name.len() as int;
    assert forall|k: int| i <= k < i + n implies !is_delimiter(#[trigger] s[k]) by {
        assert(s[k] == t.name[k - i]);
    }
    assert(s.subrange(i, i + n) =~= t.name);
    if t.args.len() == 0 {
        if post.len() > 0 {
            assert(s[i + n] == post[0]);
        }
        lemma_name_end(s, i, n);
    } else {
        assert(s[i + n] == LPAREN);
        lemma_name_end(s, i, n);
        let head = pre + t.name + seq![LPAREN];
        lemma_read_args(head, t.args, post, fuel, Seq::empty());
        assert(head + args_text(t.args) + seq![RPAREN] + post =~= s);
        assert(Seq::<TreeView>::empty() + t.args =~= t.args);
    }
}

/// Good expressions are read from their text up to the closing
/// parenthesis.
proof fn lemma_read_args(
    pre: Seq<u8>,
    args: Seq<TreeView>,
    post: Seq<u8>,
    fuel: nat,
    acc: Seq<TreeView>,
)
    requires
        args.len() >= 1,
        fuel > 0,
        good_args(args, (fuel - 1) as nat),
    ensures
        parse_args_from(
            pre + args_text(args) + seq![RPAREN] + post,
            pre.len() as int,
            fuel,
            acc,
        ) == Ok::<(Seq<TreeView>, int), ErrorView>(
            (acc + args, (pre.len() + args_text(args).len() + 1) as int),
        ),
    decreases args,
{
    let s = pre + args_text(args) + seq![RPAREN] + post;
    let first = args[0];
    let f = (fuel - 1) as nat;
    let text = tree_text(first);
    let j = (pre.len() + text.len()) as int;
    if args.len() == 1 {
        let tail = seq![RPAREN] + post;
        lemma_read_tree(pre, first, tail, f);
        assert(pre + text + tail =~= s);
        assert(s[j] == RPAREN);
        assert(acc.push(first) =~= acc + args);
    } else {
        let rest = args.subrange(1, args.len() as int);
        let tail = seq![COMMA] + args_text(rest) + seq![RPAREN] + post;
        lemma_read_tree(pre, first, tail, f);
        assert(pre + text + tail =~= s);
        assert(s[j] == COMMA);
        let head = pre + text + seq![COMMA];
        lemma_read_args(head, rest, post, fuel, acc.push(first));
        assert(head + args_text(rest) + seq![RPAREN] + post =~= s);
        assert(acc.push(first) + rest =~= acc + args);
    }
}

/// An expression with clean names that is nested no deeper than the limit
/// is read back from the text that is written for it.
pub proof fn law_expression_read_back(t: TreeView)
    requires
        good(t, MAX_NESTING as nat),
    ensures
        parse_text(tree_text(t)) == Ok::<TreeView, ErrorView>(t),
{
    let s = tree_text(t);
    lemma_printable_tree(t, MAX_NESTING as nat);
    lemma_first_unprintable(s, 0);
    lemma_read_tree(Seq::empty(), t, Seq::empty(), MAX_NESTING as nat);
    assert(Seq::<u8>::empty() + s + Seq::<u8>::empty() =~= s);
}

} // verus!
