//! The textual surface: `name(arg,arg,...)`, read as a tree of names with
//! no meaning given to them yet.

use vstd::prelude::*;
use vstd::slice::{slice_subrange, slice_to_vec};
use vstd::string::StringSliceAdditionalSpecFns;
use crate::error::{Context, Error, ErrorView};

verus! {

// The four characters that the grammar gives a meaning.
pub const LPAREN: u8 = 0x28;
pub const RPAREN: u8 = 0x29;
pub const COMMA: u8 = 0x2c;
pub const COLON: u8 = 0x3a;

/// A name with the expressions it is applied to.
#[derive(Debug, PartialEq, Eq)]
pub struct Tree {
    pub name: Vec<u8>,
    pub args: Vec<Tree>,
}

/// A `Tree` with its text and its children as sequences.
pub struct TreeView {
    pub name: Seq<u8>,
    pub args: Seq<TreeView>,
}

/// The views of the trees of a list.
pub open spec fn trees_model(l: Seq<Tree>) -> Seq<TreeView>
    decreases l,
{
    if l.len() == 0 {
        Seq::empty()
    } else {
        trees_model(l.drop_last()).push(l.last().model())
    }
}

/// The views of a list are the views of its trees, place by place.
pub proof fn lemma_trees_model(l: Seq<Tree>)
    ensures
        trees_model(l).len() == l.len(),
        forall|i: int| 0 <= i < l.len() ==> #[trigger] trees_model(l)[i] == l[i].model(),
    decreases l.len(),
{
    if l.len() > 0 {
        lemma_trees_model(l.drop_last());
    }
}

impl Tree {
    /// The tree as the mathematical value that contracts speak of.
    pub open spec fn model(self) -> TreeView
        decreases self,
    {
        TreeView { name: self.name@, args: trees_model(self.args@) }
    }
}

/// The characters that end a name.
pub open spec fn is_delimiter(c: u8) -> bool {
    c == LPAREN || c == RPAREN || c == COMMA
}

/// The bytes that a descriptor may hold: printable ASCII.
pub open spec fn is_printable(c: u8) -> bool {
    0x20 <= c <= 0x7f
}

/// The index of the first byte from `i` on that is not printable, or the
/// length of `s`.
pub open spec fn first_unprintable(s: Seq<u8>, i: int) -> int
    decreases s.len() - i,
{
    if i < 0 || i >= s.len() {
        s.len() as int
    } else if !is_printable(s[i]) {
        i
    } else {
        first_unprintable(s, i + 1)
    }
}

/// The index at which the name that starts at `i` ends.
pub open spec fn name_end(s: Seq<u8>, i: int) -> int
    decreases s.len() - i,
{
    if i < 0 || i >= s.len() {
        i
    } else if is_delimiter(s[i]) {
        i
    } else {
        name_end(s, i + 1)
    }
}

/// How deep expressions may be nested: as deep as fragments, and two more
/// for the envelopes around them.
pub const MAX_NESTING: usize = 502;

/// The expression that starts at byte `i`, with the index behind it.
pub open spec fn parse_tree(s: Seq<u8>, i: int, fuel: nat) -> Result<(TreeView, int), ErrorView>
    decreases fuel, 2 * (s.len() - i) + 2,
{
    let j = name_end(s, i);
    let name = s.subrange(i, j);
    if 0 <= i <= j < s.len() && s[j] == LPAREN {
        match parse_args(s, j + 1, fuel) {
            Ok((args, k)) => Ok((TreeView { name, args }, k)),
            Err(e) => Err(e),
        }
    } else {
        Ok((TreeView { name, args: Seq::empty() }, j))
    }
}

/// The expressions from byte `i` up to the closing parenthesis, put behind
/// `acc`, with the index behind the parenthesis.
pub open spec fn parse_args_from(s: Seq<u8>, i: int, fuel: nat, acc: Seq<TreeView>) -> Result<
    (Seq<TreeView>, int),
    ErrorView,
>
    decreases fuel, 2 * (s.len() - i),
{
    if fuel == 0 {
        Err(ErrorView::ContextError(Context::Depth))
    } else if i < 0 || i > s.len() {
        Err(ErrorView::ExpectedChar(RPAREN))
    } else {
        match parse_tree(s, i, (fuel - 1) as nat) {
            Ok((t, j)) => if j < i || j >= s.len() {
                Err(ErrorView::ExpectedChar(RPAREN))
            } else if s[j] == COMMA {
                parse_args_from(s, j + 1, fuel, acc.push(t))
            } else if s[j] == RPAREN {
                Ok((acc.push(t), j + 1))
            } else {
                Err(ErrorView::ExpectedChar(COMMA))
            },
            Err(e) => Err(e),
        }
    }
}

/// The expressions from byte `i` up to the closing parenthesis, with the
/// index behind it.
pub open spec fn parse_args(s: Seq<u8>, i: int, fuel: nat) -> Result<
    (Seq<TreeView>, int),
    ErrorView,
>
    decreases fuel, 2 * (s.len() - i) + 1,
{
    if i < 0 || i > s.len() {
        Err(ErrorView::ExpectedChar(RPAREN))
    } else {
        parse_args_from(s, i, fuel, Seq::empty())
    }
}

/// The tree that the text `s` spells, or why it spells none.
pub open spec fn parse_text(s: Seq<u8>) -> Result<TreeView, ErrorView> {
    let bad = first_unprintable(s, 0);
    if bad < s.len() {
        Err(ErrorView::Unprintable(s[bad]))
    } else {
        match parse_tree(s, 0, MAX_NESTING as nat) {
            Ok((t, k)) => if k == s.len() {
                Ok(t)
            } else {
                Err(ErrorView::Trailing(s.subrange(k, s.len() as int)))
            },
            Err(e) => Err(e),
        }
    }
}

/// Finds the end of the name that starts at `i`.
fn find_name_end(s: &[u8], i: usize) -> (j: usize)
    requires
        i <= s.len(),
    ensures
        j == name_end(s@, i as int),
        i <= j <= s.len(),
{
    let mut j = i;
    while j < s.len() && !(s[j] == LPAREN || s[j] == RPAREN || s[j] == COMMA)
        invariant
            i <= j <= s.len(),
            name_end(s@, i as int) == name_end(s@, j as int),
        decreases s.len() - j,
    {
        j += 1;
    }
    j
}

/// Reads the expression that starts at byte `i`.
fn read_tree(s: &[u8], i: usize, fuel: usize) -> (r: Result<(Tree, usize), Error>)
    requires
        i <= s.len(),
    ensures
        match r {
            Ok((t, j)) => parse_tree(s@, i as int, fuel as nat) == Ok::<(TreeView, int), ErrorView>(
                (t.model(), j as int),
            ) && i <= j <= s.len(),
            Err(e) => parse_tree(s@, i as int, fuel as nat) == Err::<(TreeView, int), ErrorView>(
                e@,
            ),
        },
    decreases fuel, 2 * (s.len() - i) + 2,
{
    let j = find_name_end(s, i);
    let name = slice_to_vec(slice_subrange(s, i, j));
    if j < s.len() && s[j] == LPAREN {
        let (args, k) = read_args(s, j + 1, fuel)?;
        Ok((Tree { name, args }, k))
    } else {
        let args: Vec<Tree> = Vec::new();
        assert(trees_model(args@) =~= Seq::<TreeView>::empty());
        Ok((Tree { name, args }, j))
    }
}

/// Reads the expressions from byte `i` up to the closing parenthesis.
fn read_args(s: &[u8], i: usize, fuel: usize) -> (r: Result<(Vec<Tree>, usize), Error>)
    requires
        i <= s.len(),
    ensures
        match r {
            Ok((l, j)) => parse_args(s@, i as int, fuel as nat) == Ok::<
                (Seq<TreeView>, int),
                ErrorView,
            >((trees_model(l@), j as int)) && i <= j <= s.len(),
            Err(e) => parse_args(s@, i as int, fuel as nat) == Err::<
                (Seq<TreeView>, int),
                ErrorView,
            >(e@),
        },
    decreases fuel, 2 * (s.len() - i) + 1,
{
    let mut args: Vec<Tree> = Vec::new();
    let mut at: usize = i;
    assert(trees_model(args@) =~= Seq::<TreeView>::empty());
    loop
        invariant
            i <= at <= s.len(),
            parse_args(s@, i as int, fuel as nat) == parse_args_from(
                s@,
                at as int,
                fuel as nat,
                trees_model(args@),
            ),
        decreases s.len() - at,
    {
        if fuel == 0 {
            return Err(Error::ContextError(Context::Depth));
        }
        let (t, j) = read_tree(s, at, fuel - 1)?;
        let ghost before = args@;
        let ghost tm = t.model();
        args.push(t);
        assert(args@.drop_last() =~= before);
        assert(trees_model(args@) == trees_model(before).push(tm));
        if j >= s.len() {
            return Err(Error::ExpectedChar(RPAREN));
        } else if s[j] == COMMA {
            at = j + 1;
        } else if s[j] == RPAREN {
            return Ok((args, j + 1));
        } else {
            return Err(Error::ExpectedChar(COMMA));
        }
    }
}

impl Tree {
    /// Reads an expression from its text.
    ///
    /// The answer is that of `parse_text`: `Unprintable` with the first
    /// byte outside printable ASCII, `ExpectedChar` where a list of
    /// arguments does not go on or end, `Trailing` with what follows a
    /// complete expression, and else the tree.
    pub fn from_bytes(s: &[u8]) -> (r: Result<Tree, Error>)
        ensures
            match r {
                Ok(t) => parse_text(s@) == Ok::<TreeView, ErrorView>(t.model()),
                Err(e) => parse_text(s@) == Err::<TreeView, ErrorView>(e@),
            },
    {
        let mut i: usize = 0;
        while i < s.len()
            invariant
                i <= s.len(),
                first_unprintable(s@, 0) == first_unprintable(s@, i as int),
            decreases s.len() - i,
        {
            if s[i] < 0x20 || s[i] > 0x7f {
                return Err(Error::Unprintable(s[i]));
            }
            i += 1;
        }
        let (top, k) = read_tree(s, 0, MAX_NESTING)?;
        if k == s.len() {
            Ok(top)
        } else {
            Err(Error::Trailing(slice_to_vec(slice_subrange(s, k, s.len()))))
        }
    }

    /// Reads an expression from its text.
    pub fn from_str(s: &str) -> (r: Result<Tree, Error>)
        ensures
            match r {
                Ok(t) => parse_text(s.spec_bytes()) == Ok::<TreeView, ErrorView>(t.model()),
                Err(e) => parse_text(s.spec_bytes()) == Err::<TreeView, ErrorView>(e@),
            },
    {
        Tree::from_bytes(s.as_bytes())
    }
}

} // verus!
