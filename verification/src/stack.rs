//! Witness stacks: sequences of byte strings, bottom of the stack first.

use vstd::prelude::*;

verus! {

/// The largest element that a satisfaction holds: a signature of 72 bytes
/// with the byte of its hash type.
pub const MAX_ELEMENT: usize = 73;

/// The byte strings of a stack.
pub open spec fn stack_view(st: Seq<Vec<u8>>) -> Seq<Seq<u8>> {
    Seq::new(st.len(), |i: int| st[i]@)
}

/// The stack of an answer, if it has one.
pub open spec fn opt_view(r: Option<Vec<Vec<u8>>>) -> Option<Seq<Seq<u8>>> {
    match r {
        Some(st) => Some(stack_view(st@)),
        None => None,
    }
}

/// No element is longer than a signature.
pub open spec fn small(st: Seq<Seq<u8>>) -> bool {
    forall|i: int| 0 <= i < st.len() ==> (#[trigger] st[i]).len() <= MAX_ELEMENT
}

/// `small` for an answer.
pub open spec fn opt_small(r: Option<Seq<Seq<u8>>>) -> bool {
    match r {
        Some(st) => small(st),
        None => true,
    }
}

/// The bytes that the elements of a stack take when serialized, each with
/// the one byte that gives its length.
pub open spec fn stack_size(st: Seq<Seq<u8>>) -> nat
    decreases st.len(),
{
    if st.len() == 0 {
        0
    } else {
        stack_size(st.drop_last()) + 1 + st.last().len()
    }
}

/// The size of a concatenation is the sum of the sizes.
pub proof fn lemma_stack_size_concat(a: Seq<Seq<u8>>, b: Seq<Seq<u8>>)
    ensures
        stack_size(a + b) == stack_size(a) + stack_size(b),
    decreases b.len(),
{
    if b.len() == 0 {
        assert(a + b =~= a);
    } else {
        lemma_stack_size_concat(a, b.drop_last());
        assert((a + b).drop_last() =~= a + b.drop_last());
        assert((a + b).last() == b.last());
    }
}

/// Both stacks one upon the other, `b` on top; none where one is missing.
pub open spec fn join(a: Option<Seq<Seq<u8>>>, b: Option<Seq<Seq<u8>>>) -> Option<Seq<Seq<u8>>> {
    match (a, b) {
        (Some(x), Some(y)) => Some(x + y),
        _ => None,
    }
}

/// The stack with `e` put on top.
pub open spec fn with_top(a: Option<Seq<Seq<u8>>>, e: Seq<u8>) -> Option<Seq<Seq<u8>>> {
    match a {
        Some(x) => Some(x.push(e)),
        None => None,
    }
}

/// The smaller of two stacks, the first where they are of one size; the
/// one there is where the other is missing.
pub open spec fn smaller(a: Option<Seq<Seq<u8>>>, b: Option<Seq<Seq<u8>>>) -> Option<
    Seq<Seq<u8>>,
> {
    match (a, b) {
        (Some(x), Some(y)) => if stack_size(x) <= stack_size(y) {
            Some(x)
        } else {
            Some(y)
        },
        (Some(x), None) => Some(x),
        (None, _) => b,
    }
}

/// The empty element, which Script reads as zero.
pub open spec fn zero() -> Seq<u8> {
    Seq::empty()
}

/// The element that Script reads as one.
pub open spec fn one() -> Seq<u8> {
    seq![1u8]
}

/// The serialized size of a stack.
pub fn size_of(st: &Vec<Vec<u8>>) -> (r: u128)
    requires
        small(stack_view(st@)),
    ensures
        r == stack_size(stack_view(st@)),
{
    let mut total: u128 = 0;
    let mut i: usize = 0;
    while i < st.len()
        invariant
            i <= st.len(),
            small(stack_view(st@)),
            total == stack_size(stack_view(st@).subrange(0, i as int)),
            total <= i * 74,
        decreases st.len() - i,
    {
        let ghost v = stack_view(st@);
        assert(v.subrange(0, i + 1).drop_last() =~= v.subrange(0, i as int));
        assert(v.subrange(0, i + 1).last() == v[i as int]);
        assert(v[i as int].len() <= 73);
        assert(v[i as int] == st@[i as int]@);
        assert(st@[i as int]@.len() <= 73);
        total = total + 1 + st[i].len() as u128;
        i += 1;
    }
    assert(stack_view(st@).subrange(0, i as int) =~= stack_view(st@));
    total
}

/// A stack of one element.
pub fn single(e: Vec<u8>) -> (r: Option<Vec<Vec<u8>>>)
    ensures
        opt_view(r) == Some(seq![e@]),
        e@.len() <= MAX_ELEMENT ==> opt_small(opt_view(r)),
{
    let mut st: Vec<Vec<u8>> = Vec::new();
    st.push(e);
    assert(stack_view(st@) =~= seq![e@]);
    Some(st)
}

/// The stack with nothing on it.
pub fn nothing() -> (r: Option<Vec<Vec<u8>>>)
    ensures
        opt_view(r) == Some(Seq::<Seq<u8>>::empty()),
        opt_small(opt_view(r)),
{
    let st: Vec<Vec<u8>> = Vec::new();
    assert(stack_view(st@) =~= Seq::<Seq<u8>>::empty());
    Some(st)
}

/// The element that Script reads as zero.
pub fn zero_element() -> (r: Vec<u8>)
    ensures
        r@ == zero(),
{
    Vec::new()
}

/// The element that Script reads as one.
pub fn one_element() -> (r: Vec<u8>)
    ensures
        r@ == one(),
{
    let mut e: Vec<u8> = Vec::new();
    e.push(1u8);
    e
}

/// Puts `b` on top of `a`.
pub fn join_stacks(a: Option<Vec<Vec<u8>>>, b: Option<Vec<Vec<u8>>>) -> (r: Option<Vec<Vec<u8>>>)
    ensures
        opt_view(r) == join(opt_view(a), opt_view(b)),
        opt_small(opt_view(a)) && opt_small(opt_view(b)) ==> opt_small(opt_view(r)),
{
    match (a, b) {
        (Some(x), Some(y)) => {
            let mut x = x;
            let mut y = y;
            let ghost vx = stack_view(x@);
            let ghost vy = stack_view(y@);
            x.append(&mut y);
            assert(stack_view(x@) =~= vx + vy);
            Some(x)
        },
        _ => None,
    }
}

/// Puts `e` on top of `a`.
pub fn push_top(a: Option<Vec<Vec<u8>>>, e: Vec<u8>) -> (r: Option<Vec<Vec<u8>>>)
    ensures
        opt_view(r) == with_top(opt_view(a), e@),
        opt_small(opt_view(a)) && e@.len() <= MAX_ELEMENT ==> opt_small(opt_view(r)),
{
    match a {
        Some(x) => {
            let mut x = x;
            let ghost vx = stack_view(x@);
            x.push(e);
            assert(stack_view(x@) =~= vx.push(e@));
            Some(x)
        },
        None => None,
    }
}

/// The smaller of two stacks, the first where they are of one size.
pub fn pick_smaller(a: Option<Vec<Vec<u8>>>, b: Option<Vec<Vec<u8>>>) -> (r: Option<
    Vec<Vec<u8>>,
>)
    requires
        opt_small(opt_view(a)),
        opt_small(opt_view(b)),
    ensures
        opt_view(r) == smaller(opt_view(a), opt_view(b)),
        opt_small(opt_view(r)),
{
    match (a, b) {
        (Some(x), Some(y)) => {
            if size_of(&x) <= size_of(&y) {
                Some(x)
            } else {
                Some(y)
            }
        },
        (Some(x), None) => Some(x),
        (None, b) => b,
    }
}

} // verus!
