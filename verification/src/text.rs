//! Numbers and byte strings as text: decimal digits and lower-case
//! hexadecimal.

use vstd::prelude::*;
use crate::bytes::{array32, array_of, lemma_array_of};
use crate::key::PublicKey;

verus! {

/// Whether `c` is a decimal digit.
pub open spec fn is_digit(c: u8) -> bool {
    0x30 <= c <= 0x39
}

/// Whether all of `s` are decimal digits.
pub open spec fn all_digits(s: Seq<u8>) -> bool {
    forall|i: int| 0 <= i < s.len() ==> is_digit(#[trigger] s[i])
}

/// The number that the digits `s` spell.
pub open spec fn digits_value(s: Seq<u8>) -> nat
    decreases s.len(),
{
    if s.len() == 0 {
        0
    } else {
        digits_value(s.drop_last()) * 10 + (s.last() - 0x30) as nat
    }
}

/// The 32-bit number that `s` spells in decimal digits: `None` where `s`
/// is empty or holds anything but digits, `Some(None)` where the number is
/// too large.
pub open spec fn decimal_u32(s: Seq<u8>) -> Option<Option<u32>> {
    if s.len() == 0 || !all_digits(s) {
        None
    } else if digits_value(s) > u32::MAX {
        Some(None)
    } else {
        Some(Some(digits_value(s) as u32))
    }
}

/// The decimal digits of `n`, without leading zeros.
pub open spec fn decimal(n: nat) -> Seq<u8>
    decreases n,
{
    if n < 10 {
        seq![(0x30 + n) as u8]
    } else {
        decimal(n / 10).push((0x30 + n % 10) as u8)
    }
}

/// The value of a hexadecimal digit of either case.
pub open spec fn hex_digit(c: u8) -> Option<u8> {
    if 0x30 <= c <= 0x39 {
        Some((c - 0x30) as u8)
    } else if 0x61 <= c <= 0x66 {
        Some((c - 0x61 + 10) as u8)
    } else if 0x41 <= c <= 0x46 {
        Some((c - 0x41 + 10) as u8)
    } else {
        None
    }
}

/// The lower-case hexadecimal digit of a value below 16.
pub open spec fn hex_char(v: u8) -> u8 {
    if v < 10 {
        (0x30 + v) as u8
    } else {
        (0x61 + v - 10) as u8
    }
}

/// Whether `s` is an even number of hexadecimal digits.
pub open spec fn is_hex(s: Seq<u8>) -> bool {
    s.len() % 2 == 0 && forall|i: int| 0 <= i < s.len() ==> hex_digit(#[trigger] s[i]) is Some
}

/// The bytes that the hexadecimal digits `s` spell.
pub open spec fn unhex(s: Seq<u8>) -> Seq<u8> {
    Seq::new(
        s.len() / 2,
        |i: int| (hex_digit(s[2 * i])->Some_0 * 16 + hex_digit(s[2 * i + 1])->Some_0) as u8,
    )
}

/// The lower-case hexadecimal digits of `b`.
pub open spec fn hex(b: Seq<u8>) -> Seq<u8> {
    Seq::new(
        b.len() * 2,
        |i: int| if i % 2 == 0 {
            hex_char(b[i / 2] / 16)
        } else {
            hex_char(b[i / 2] % 16)
        },
    )
}

/// The key that `s` spells: 66 hexadecimal digits of a point on the curve.
pub open spec fn key_of_text(s: Seq<u8>) -> Option<PublicKey> {
    if is_hex(s) {
        PublicKey::parse(unhex(s))
    } else {
        None
    }
}

/// The hash that `s` spells: 64 hexadecimal digits.
pub open spec fn hash_of_text(s: Seq<u8>) -> Option<[u8; 32]> {
    if is_hex(s) && s.len() == 64 {
        Some(array_of::<32>(unhex(s)))
    } else {
        None
    }
}

/// Reads a 32-bit number in decimal digits.
pub fn read_decimal(s: &[u8]) -> (r: Option<Option<u32>>)
    ensures
        r == decimal_u32(s@),
{
    if s.len() == 0 {
        return None;
    }
    let mut i: usize = 0;
    while i < s.len()
        invariant
            i <= s.len(),
            forall|j: int| 0 <= j < i ==> is_digit(#[trigger] s@[j]),
        decreases s.len() - i,
    {
        if s[i] < 0x30 || s[i] > 0x39 {
            return None;
        }
        i += 1;
    }
    let mut acc: u64 = 0;
    let mut k: usize = 0;
    while k < s.len()
        invariant
            k <= s.len(),
            all_digits(s@),
            acc <= 0x1_0000_0000,
            acc == if digits_value(s@.subrange(0, k as int)) < 0x1_0000_0000 {
                digits_value(s@.subrange(0, k as int))
            } else {
                0x1_0000_0000
            },
        decreases s.len() - k,
    {
        assert(s@.subrange(0, k + 1).drop_last() =~= s@.subrange(0, k as int));
        assert(s@.subrange(0, k + 1).last() == s@[k as int]);
        assert(is_digit(s@[k as int]));
        let next: u64 = acc * 10 + (s[k] - 0x30) as u64;
        acc = if next < 0x1_0000_0000 {
            next
        } else {
            0x1_0000_0000
        };
        k += 1;
    }
    assert(s@.subrange(0, k as int) =~= s@);
    if acc > 0xffff_ffff {
        Some(None)
    } else {
        Some(Some(acc as u32))
    }
}

/// Appends the decimal digits of `n`.
pub fn write_decimal(out: &mut Vec<u8>, n: u32)
    ensures
        final(out)@ == old(out)@ + decimal(n as nat),
{
    let mut digits: Vec<u8> = Vec::new();
    let mut m: u32 = n;
    // the digits from the last to the second
    while m >= 10
        invariant
            decimal(n as nat) == decimal(m as nat) + reversed(digits@),
        decreases m,
    {
        let ghost before = digits@;
        digits.push(0x30 + (m % 10) as u8);
        assert(decimal(m as nat) == decimal((m / 10) as nat).push((0x30 + m % 10) as u8));
        assert(reversed(digits@) =~= seq![(0x30 + m % 10) as u8] + reversed(before)) by {
            lemma_reversed_push(before, (0x30 + m % 10) as u8);
        }
        assert(decimal((m / 10) as nat).push((0x30 + m % 10) as u8) + reversed(before)
            =~= decimal((m / 10) as nat) + (seq![(0x30 + m % 10) as u8] + reversed(before)));
        m = m / 10;
    }
    let ghost before = out@;
    out.push(0x30 + m as u8);
    assert(decimal(m as nat) == seq![(0x30 + m) as u8]);
    let mut i: usize = digits.len();
    while i > 0
        invariant
            i <= digits.len(),
            out@ == before + decimal(m as nat) + reversed(digits@).subrange(
                0,
                digits@.len() - i,
            ),
        decreases i,
    {
        i -= 1;
        out.push(digits[i]);
        assert(reversed(digits@).subrange(0, digits@.len() - i) =~= reversed(
            digits@,
        ).subrange(0, digits@.len() - i - 1).push(digits@[i as int]));
    }
    assert(reversed(digits@).subrange(0, digits@.len() as int) =~= reversed(digits@));
    assert(before + decimal(m as nat) + reversed(digits@) =~= before + (decimal(m as nat)
        + reversed(digits@)));
}

/// `s` from its last item to its first.
pub open spec fn reversed(s: Seq<u8>) -> Seq<u8> {
    Seq::new(s.len(), |i: int| s[s.len() - 1 - i])
}

proof fn lemma_reversed_push(s: Seq<u8>, x: u8)
    ensures
        reversed(s.push(x)) =~= seq![x] + reversed(s),
{
}

/// The value of a hexadecimal digit.
fn hex_value(c: u8) -> (r: Option<u8>)
    ensures
        r == hex_digit(c),
{
    if 0x30 <= c && c <= 0x39 {
        Some(c - 0x30)
    } else if 0x61 <= c && c <= 0x66 {
        Some(c - 0x61 + 10)
    } else if 0x41 <= c && c <= 0x46 {
        Some(c - 0x41 + 10)
    } else {
        None
    }
}

/// Reads hexadecimal digits as bytes; `None` where `s` is not an even
/// number of such digits.
pub fn read_hex(s: &[u8]) -> (r: Option<Vec<u8>>)
    ensures
        match r {
            Some(b) => is_hex(s@) && b@ == unhex(s@),
            None => !is_hex(s@),
        },
{
    if s.len() % 2 != 0 {
        return None;
    }
    let mut out: Vec<u8> = Vec::new();
    let mut i: usize = 0;
    while i < s.len()
        invariant
            i <= s.len(),
            i % 2 == 0,
            s.len() % 2 == 0,
            out@.len() == i / 2,
            forall|j: int| 0 <= j < i ==> hex_digit(#[trigger] s@[j]) is Some,
            forall|j: int| 0 <= j < i / 2 ==> #[trigger] out@[j] == unhex(s@)[j],
        decreases s.len() - i,
    {
        let hi = match hex_value(s[i]) {
            Some(v) => v,
            None => {
                return None;
            },
        };
        let lo = match hex_value(s[i + 1]) {
            Some(v) => v,
            None => {
                return None;
            },
        };
        out.push(hi * 16 + lo);
        i += 2;
    }
    assert(out@ =~= unhex(s@));
    Some(out)
}

/// Appends the lower-case hexadecimal digits of `b`.
pub fn write_hex(out: &mut Vec<u8>, b: &[u8])
    ensures
        final(out)@ == old(out)@ + hex(b@),
{
    let mut digits: Vec<u8> = Vec::new();
    let mut i: usize = 0;
    while i < b.len()
        invariant
            i <= b.len(),
            digits@.len() == 2 * i,
            forall|j: int| 0 <= j < 2 * i ==> #[trigger] digits@[j] == hex(b@)[j],
        decreases b.len() - i,
    {
        let hi = b[i] / 16;
        let lo = b[i] % 16;
        digits.push(if hi < 10 {
            0x30 + hi
        } else {
            0x61 + hi - 10
        });
        digits.push(if lo < 10 {
            0x30 + lo
        } else {
            0x61 + lo - 10
        });
        i += 1;
    }
    assert(digits@ =~= hex(b@));
    crate::bytes::extend(out, digits.as_slice());
}

/// Reads a key from 66 hexadecimal digits.
pub fn read_key(s: &[u8]) -> (r: Option<PublicKey>)
    ensures
        r == key_of_text(s@),
{
    match read_hex(s) {
        Some(b) => PublicKey::from_slice(b.as_slice()),
        None => None,
    }
}

/// Reads a hash from 64 hexadecimal digits.
pub fn read_hash(s: &[u8]) -> (r: Option<[u8; 32]>)
    ensures
        r == hash_of_text(s@),
{
    if s.len() != 64 {
        return None;
    }
    match read_hex(s) {
        Some(b) => {
            let a = array32(b.as_slice(), 0);
            assert(b@.subrange(0, 32) =~= b@);
            proof {
                lemma_array_of::<32>(a);
            }
            Some(a)
        },
        None => None,
    }
}

/// Whether all bytes of `b` are ASCII.
pub open spec fn is_ascii_bytes(b: Seq<u8>) -> bool {
    forall|i: int| 0 <= i < b.len() ==> #[trigger] b[i] < 0x80
}

/// The characters of ASCII bytes.
pub open spec fn ascii_chars(b: Seq<u8>) -> Seq<char> {
    Seq::new(b.len(), |i: int| b[i] as char)
}

/// The characters of `b` where all of it is ASCII, and no characters
/// otherwise.
pub open spec fn text_chars(b: Seq<u8>) -> Seq<char> {
    if is_ascii_bytes(b) {
        ascii_chars(b)
    } else {
        Seq::empty()
    }
}

/// Calls `String::from_utf8`: bytes that are all ASCII are a string of the
/// same characters.
#[verifier::external_body]
fn ascii_string(bytes: Vec<u8>) -> (r: String)
    requires
        is_ascii_bytes(bytes@),
    ensures
        r@ == ascii_chars(bytes@),
{
    match String::from_utf8(bytes) {
        Ok(s) => s,
        Err(_) => String::new(),
    }
}

/// The string of `bytes` where all of them are ASCII, the empty string
/// otherwise.
pub fn to_text(bytes: Vec<u8>) -> (r: String)
    ensures
        r@ == text_chars(bytes@),
{
    let mut i: usize = 0;
    while i < bytes.len()
        invariant
            i <= bytes.len(),
            forall|j: int| 0 <= j < i ==> #[trigger] bytes@[j] < 0x80,
        decreases bytes.len() - i,
    {
        if bytes[i] >= 0x80 {
            return String::new();
        }
        i += 1;
    }
    ascii_string(bytes)
}

} // verus!
