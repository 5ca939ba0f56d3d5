//! An owned list whose equality is structural, used for the children of a
//! fragment that takes any number of them.

use vstd::prelude::*;

verus! {

/// A singly linked list.
#[derive(Debug, PartialEq, Eq)]
pub enum List<A> {
    Nil,
    Cons(A, Box<List<A>>),
}

impl<A> List<A> {
    /// The items, first to last.
    pub open spec fn seq(self) -> Seq<A>
        decreases self,
    {
        match self {
            List::Nil => Seq::empty(),
            List::Cons(a, rest) => seq![a] + rest.seq(),
        }
    }

    /// The list with the items of `s`, first to last.
    pub open spec fn of(s: Seq<A>) -> List<A>
        decreases s.len(),
    {
        if s.len() == 0 {
            List::Nil
        } else {
            List::Cons(s[0], Box::new(List::of(s.subrange(1, s.len() as int))))
        }
    }

    /// `of` and `seq` are inverse to each other.
    pub proof fn lemma_of_seq(self)
        ensures
            List::of(self.seq()) == self,
        decreases self,
    {
        match self {
            List::Nil => {},
            List::Cons(a, rest) => {
                rest.lemma_of_seq();
                let s = self.seq();
                assert(s.subrange(1, s.len() as int) == rest.seq());
            },
        }
    }

    /// `seq` undoes `of`.
    pub proof fn lemma_seq_of(s: Seq<A>)
        ensures
            List::of(s).seq() == s,
        decreases s.len(),
    {
        if s.len() > 0 {
            Self::lemma_seq_of(s.subrange(1, s.len() as int));
            assert(seq![s[0]] + s.subrange(1, s.len() as int) == s);
        }
    }

    /// The empty list.
    pub fn new() -> (r: List<A>)
        ensures
            r == List::<A>::Nil,
    {
        List::Nil
    }

    /// The list with the items of `v` in the same order.
    pub fn from_vec(v: Vec<A>) -> (r: List<A>)
        ensures
            r.seq() == v@,
            r == List::of(v@),
    {
        let ghost all = v@;
        let mut v = v;
        let mut l: List<A> = List::Nil;
        while v.len() > 0
            invariant
                v@.len() <= all.len(),
                v@ == all.subrange(0, v@.len() as int),
                l.seq() == all.subrange(v@.len() as int, all.len() as int),
            decreases v.len(),
        {
            let ghost before = v@;
            let x = v.pop().unwrap();
            let ghost tail = l.seq();
            l = List::Cons(x, Box::new(l));
            assert(l.seq() == seq![x] + tail);
            assert(v@ == all.subrange(0, v@.len() as int));
            assert(l.seq() == all.subrange(v@.len() as int, all.len() as int));
        }
        assert(l.seq() == all);
        proof {
            l.lemma_of_seq();
        }
        l
    }

    /// Whether the list is empty.
    pub fn is_empty(&self) -> (r: bool)
        ensures
            r == (self.seq().len() == 0),
    {
        match self {
            List::Nil => true,
            List::Cons(_, _) => false,
        }
    }

    /// The number of items, counted up to `cap`: one more than `cap` stands
    /// for any larger number.
    pub fn len_capped(&self, cap: usize) -> (r: usize)
        requires
            cap < usize::MAX,
        ensures
            r == if self.seq().len() <= cap {
                self.seq().len()
            } else {
                (cap + 1) as nat
            },
        decreases self,
    {
        match self {
            List::Nil => 0,
            List::Cons(_, rest) => {
                if cap == 0 {
                    1
                } else {
                    1 + rest.len_capped(cap - 1)
                }
            },
        }
    }
}

} // verus!
