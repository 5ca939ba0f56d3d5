//! Byte-level helpers: fixed-size arrays seen as sequences, copying and
//! comparing.

use vstd::prelude::*;

verus! {

/// The array of `N` bytes whose content is `s` (meaningful when `s.len() == N`).
pub open spec fn array_of<const N: usize>(s: Seq<u8>) -> [u8; N] {
    choose|a: [u8; N]| a@ == s
}

/// An array is determined by its content.
pub proof fn lemma_array_of<const N: usize>(a: [u8; N])
    ensures
        array_of::<N>(a@) == a,
{
    let b = array_of::<N>(a@);
    assert(b@ == a@);
    assert(b =~= a);
}

/// An array whose first `k` bytes are those of `s`.
pub proof fn lemma_array_prefix<const N: usize>(s: Seq<u8>, k: nat) -> (a: [u8; N])
    requires
        s.len() == N,
        k <= N,
    ensures
        forall|j: int| 0 <= j < k ==> a@[j] == s[j],
    decreases k,
{
    if k == 0 {
        vstd::array::spec_array_fill_for_copy_type::<u8, N>(0u8)
    } else {
        let b = lemma_array_prefix::<N>(s, (k - 1) as nat);
        let a = vstd::array::spec_array_update(b, k - 1, s[k - 1]);
        vstd::array::axiom_spec_array_update(b, k - 1, s[k - 1]);
        a
    }
}

/// Every sequence of `N` bytes is the content of an array.
pub proof fn lemma_array_of_view<const N: usize>(s: Seq<u8>)
    requires
        s.len() == N,
    ensures
        array_of::<N>(s)@ == s,
{
    let a = lemma_array_prefix::<N>(s, N as nat);
    assert(a@ =~= s);
}

/// Two arrays with the same content are the same array.
pub proof fn lemma_array_eq<const N: usize>(a: [u8; N], b: [u8; N])
    requires
        a@ == b@,
    ensures
        a == b,
{
    assert(a =~= b);
}

/// Appends `data` to `out`.
pub fn extend(out: &mut Vec<u8>, data: &[u8])
    ensures
        final(out)@ == old(out)@ + data@,
{
    let mut i: usize = 0;
    while i < data.len()
        invariant
            i <= data.len(),
            out@ == old(out)@ + data@.subrange(0, i as int),
        decreases data.len() - i,
    {
        out.push(data[i]);
        i += 1;
    }
    assert(data@.subrange(0, i as int) == data@);
}

/// Whether two byte strings are equal.
pub fn slice_eq(a: &[u8], b: &[u8]) -> (r: bool)
    ensures
        r == (a@ == b@),
{
    if a.len() != b.len() {
        return false;
    }
    let mut i: usize = 0;
    while i < a.len()
        invariant
            i <= a.len(),
            a.len() == b.len(),
            a@.subrange(0, i as int) == b@.subrange(0, i as int),
        decreases a.len() - i,
    {
        if a[i] != b[i] {
            return false;
        }
        assert(a@.subrange(0, i + 1) == a@.subrange(0, i as int).push(a@[i as int]));
        assert(b@.subrange(0, i + 1) == b@.subrange(0, i as int).push(b@[i as int]));
        i += 1;
    }
    assert(a@.subrange(0, i as int) == a@);
    assert(b@.subrange(0, i as int) == b@);
    true
}

/// The 20 bytes of `src` that start at `start`.
pub fn array20(src: &[u8], start: usize) -> (r: [u8; 20])
    requires
        start + 20 <= src.len(),
    ensures
        r@ == src@.subrange(start as int, start + 20),
{
    let mut a = [0u8; 20];
    let mut i: usize = 0;
    while i < 20
        invariant
            i <= 20,
            start + 20 <= src.len(),
            forall|j: int| 0 <= j < i ==> a@[j] == src@[start + j],
        decreases 20 - i,
    {
        a[i] = src[start + i];
        i += 1;
    }
    assert(a@ =~= src@.subrange(start as int, start + 20));
    a
}

/// The 32 bytes of `src` that start at `start`.
pub fn array32(src: &[u8], start: usize) -> (r: [u8; 32])
    requires
        start + 32 <= src.len(),
    ensures
        r@ == src@.subrange(start as int, start + 32),
{
    let mut a = [0u8; 32];
    let mut i: usize = 0;
    while i < 32
        invariant
            i <= 32,
            start + 32 <= src.len(),
            forall|j: int| 0 <= j < i ==> a@[j] == src@[start + j],
        decreases 32 - i,
    {
        a[i] = src[start + i];
        i += 1;
    }
    assert(a@ =~= src@.subrange(start as int, start + 32));
    a
}

/// The 33 bytes of `src` that start at `start`.
pub fn array33(src: &[u8], start: usize) -> (r: [u8; 33])
    requires
        start + 33 <= src.len(),
    ensures
        r@ == src@.subrange(start as int, start + 33),
{
    let mut a = [0u8; 33];
    let mut i: usize = 0;
    while i < 33
        invariant
            i <= 33,
            start + 33 <= src.len(),
            forall|j: int| 0 <= j < i ==> a@[j] == src@[start + j],
        decreases 33 - i,
    {
        a[i] = src[start + i];
        i += 1;
    }
    assert(a@ =~= src@.subrange(start as int, start + 33));
    a
}

} // verus!
