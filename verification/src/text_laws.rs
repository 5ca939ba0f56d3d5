//! Numbers, keys and hashes are read back from the text that is written
//! for them.

use vstd::prelude::*;
use crate::bytes::lemma_array_of;
use crate::key::PublicKey;
use crate::name_laws::clean;
use crate::primitives::is_curve_point;
use crate::text::{
    all_digits, decimal, decimal_u32, digits_value, hash_of_text, hex, hex_char, hex_digit,
    is_digit, is_hex, key_of_text, unhex,
};

verus! {

/// The digits of a number spell that number.
pub proof fn lemma_decimal_value(n: nat)
    ensures
        decimal(n).len() >= 1,
        all_digits(decimal(n)),
        digits_value(decimal(n)) == n,
        clean(decimal(n)),
    decreases n,
{
    if n >= 10 {
        lemma_decimal_value(n / 10);
        let d = decimal(n / 10);
        let c = (0x30 + n % 10) as u8;
        assert(d.push(c).drop_last() =~= d);
        assert(d.push(c).last() == c);
        assert(is_digit(c));
        assert(decimal(n) == d.push(c));
        assert(digits_value(d.push(c)) == digits_value(d) * 10 + (c - 0x30) as nat);
        assert((c - 0x30) as nat == n % 10);
        assert(n == (n / 10) * 10 + n % 10);
        assert forall|i: int| 0 <= i < d.push(c).len() implies is_digit(
            #[trigger] d.push(c)[i],
        ) by {
            if i < d.len() {
                assert(d.push(c)[i] == d[i]);
            }
        }
        assert forall|i: int| 0 <= i < d.push(c).len() implies crate::expression::is_printable(
            #[trigger] d.push(c)[i],
        ) && !crate::expression::is_delimiter(d.push(c)[i]) by {
            if i < d.len() {
                assert(d.push(c)[i] == d[i]);
            }
        }
    } else {
        let s = decimal(n);
        assert(s.drop_last() =~= Seq::<u8>::empty());
        assert(digits_value(s.drop_last()) == 0);
        assert(s.last() == (0x30 + n) as u8);
        assert(digits_value(s) == digits_value(s.drop_last()) * 10 + (s.last() - 0x30) as nat);
    }
}

/// A 32-bit number is read back from its digits.
pub proof fn lemma_decimal_round_trip(n: u32)
    ensures
        decimal_u32(decimal(n as nat)) == Some(Some(n)),
{
    lemma_decimal_value(n as nat);
}

/// A hexadecimal digit is read back as the value it is written for.
pub proof fn lemma_hex_char(v: u8)
    requires
        v < 16,
    ensures
        hex_digit(hex_char(v)) == Some(v),
        crate::expression::is_printable(hex_char(v)),
        !crate::expression::is_delimiter(hex_char(v)),
{
}

/// Bytes are read back from their hexadecimal digits.
pub proof fn lemma_hex_round_trip(b: Seq<u8>)
    ensures
        hex(b).len() == 2 * b.len(),
        is_hex(hex(b)),
        unhex(hex(b)) == b,
        clean(hex(b)),
{
    let h = hex(b);
    assert forall|i: int| 0 <= i < h.len() implies hex_digit(#[trigger] h[i]) is Some
        && crate::expression::is_printable(h[i]) && !crate::expression::is_delimiter(h[i]) by {
        if i % 2 == 0 {
            lemma_hex_char(b[i / 2] / 16);
        } else {
            lemma_hex_char(b[i / 2] % 16);
        }
    }
    assert forall|i: int| 0 <= i < b.len() implies #[trigger] unhex(h)[i] == b[i] by {
        lemma_hex_char(b[i] / 16);
        lemma_hex_char(b[i] % 16);
        assert(h[2 * i] == hex_char(b[i] / 16));
        assert(h[2 * i + 1] == hex_char(b[i] % 16));
    }
    assert(unhex(h) =~= b);
}

/// A key on the curve is read back from its hexadecimal digits.
pub proof fn lemma_key_round_trip(k: PublicKey)
    requires
        is_curve_point(k.bytes@),
    ensures
        key_of_text(hex(k.bytes@)) == Some(k),
{
    lemma_hex_round_trip(k.bytes@);
    k.lemma_of_bytes();
}

/// A hash is read back from its hexadecimal digits.
pub proof fn lemma_hash_round_trip(h: [u8; 32])
    ensures
        hash_of_text(hex(h@)) == Some(h),
{
    lemma_hex_round_trip(h@);
    lemma_array_of::<32>(h);
}

} // verus!
