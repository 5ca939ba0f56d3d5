//! The byte level of Script: opcodes, minimal data pushes and minimal
//! numbers.

use vstd::prelude::*;
use crate::bytes::extend;

verus! {

// The opcodes that the library reads and writes.
pub const OP_0: u8 = 0x00;
pub const OP_PUSHDATA1: u8 = 0x4c;
pub const OP_PUSHDATA2: u8 = 0x4d;
pub const OP_PUSHDATA4: u8 = 0x4e;
pub const OP_1NEGATE: u8 = 0x4f;
pub const OP_1: u8 = 0x51;
pub const OP_16: u8 = 0x60;
pub const OP_IF: u8 = 0x63;
pub const OP_NOTIF: u8 = 0x64;
pub const OP_ELSE: u8 = 0x67;
pub const OP_ENDIF: u8 = 0x68;
pub const OP_VERIFY: u8 = 0x69;
pub const OP_TOALTSTACK: u8 = 0x6b;
pub const OP_FROMALTSTACK: u8 = 0x6c;
pub const OP_IFDUP: u8 = 0x73;
pub const OP_DROP: u8 = 0x75;
pub const OP_DUP: u8 = 0x76;
pub const OP_SWAP: u8 = 0x7c;
pub const OP_TUCK: u8 = 0x7d;
pub const OP_SIZE: u8 = 0x82;
pub const OP_EQUAL: u8 = 0x87;
pub const OP_EQUALVERIFY: u8 = 0x88;
pub const OP_0NOTEQUAL: u8 = 0x92;
pub const OP_ADD: u8 = 0x93;
pub const OP_BOOLAND: u8 = 0x9a;
pub const OP_BOOLOR: u8 = 0x9b;
pub const OP_HASH160: u8 = 0xa9;
pub const OP_HASH256: u8 = 0xaa;
pub const OP_CHECKSIG: u8 = 0xac;
pub const OP_CHECKSIGVERIFY: u8 = 0xad;
pub const OP_CHECKMULTISIG: u8 = 0xae;
pub const OP_CHECKMULTISIGVERIFY: u8 = 0xaf;
pub const OP_CLTV: u8 = 0xb1;
pub const OP_CSV: u8 = 0xb2;

/// The opcode bytes that announce a push of `len` bytes, in the shortest
/// form Script has for that length.
pub open spec fn push_header(len: nat) -> Seq<u8> {
    if len < 0x4c {
        seq![len as u8]
    } else if len < 0x100 {
        seq![OP_PUSHDATA1, len as u8]
    } else if len < 0x10000 {
        seq![OP_PUSHDATA2, (len % 0x100) as u8, (len / 0x100) as u8]
    } else {
        seq![
            OP_PUSHDATA4,
            (len % 0x100) as u8,
            (len / 0x100 % 0x100) as u8,
            (len / 0x10000 % 0x100) as u8,
            (len / 0x1000000 % 0x100) as u8,
        ]
    }
}

/// The minimal push of `data`.
pub open spec fn push_data(data: Seq<u8>) -> Seq<u8> {
    push_header(data.len()) + data
}

/// The minimal encoding of a positive number as a Script integer: its
/// magnitude, least significant byte first, with one more zero byte where
/// the top bit of the last byte would otherwise read as a sign.
pub open spec fn number_bytes(n: nat) -> Seq<u8>
    decreases n,
{
    if n == 0 {
        Seq::empty()
    } else if n < 0x80 {
        seq![n as u8]
    } else if n < 0x100 {
        seq![n as u8, 0u8]
    } else {
        seq![(n % 0x100) as u8] + number_bytes(n / 0x100)
    }
}

/// How a number is pushed: `OP_0`, `OP_1` to `OP_16`, or the minimal push of
/// its minimal encoding.
pub open spec fn push_number(n: nat) -> Seq<u8> {
    if n == 0 {
        seq![OP_0]
    } else if n <= 16 {
        seq![(0x50 + n) as u8]
    } else {
        push_data(number_bytes(n))
    }
}

/// How one element of a witness stack is pushed in a scriptSig: the
/// one-byte encodings of 1 to 16 and of -1 by their opcode, anything else
/// as a minimal data push.
pub open spec fn push_element(data: Seq<u8>) -> Seq<u8> {
    if data.len() == 1 && 1 <= data[0] <= 16 {
        seq![(0x50 + data[0]) as u8]
    } else if data.len() == 1 && data[0] == 0x81 {
        seq![OP_1NEGATE]
    } else {
        push_data(data)
    }
}

/// The length of `number_bytes(n)` for a 32-bit number.
pub proof fn lemma_number_bytes_len(n: nat)
    requires
        n <= 0xffff_ffff,
    ensures
        number_bytes(n).len() <= 5,
        n > 0 ==> number_bytes(n).len() >= 1,
        n < 0x8000_0000 ==> number_bytes(n).len() <= 4,
{
    reveal_with_fuel(number_bytes, 5);
}

/// Appends the minimal push of `data` to `out`.
pub fn write_push(out: &mut Vec<u8>, data: &[u8])
    requires
        data.len() <= 0xffff_ffff,
    ensures
        final(out)@ == old(out)@ + push_data(data@),
{
    let len = data.len();
    let ghost before = out@;
    if len < 0x4c {
        out.push(len as u8);
    } else if len < 0x100 {
        out.push(OP_PUSHDATA1);
        out.push(len as u8);
    } else if len < 0x10000 {
        out.push(OP_PUSHDATA2);
        out.push((len % 0x100) as u8);
        out.push((len / 0x100) as u8);
    } else {
        out.push(OP_PUSHDATA4);
        out.push((len % 0x100) as u8);
        out.push((len / 0x100 % 0x100) as u8);
        out.push((len / 0x10000 % 0x100) as u8);
        out.push((len / 0x1000000 % 0x100) as u8);
    }
    assert(out@ == before + push_header(data@.len()));
    extend(out, data);
    assert(out@ == before + push_data(data@));
}

/// The minimal encoding of `n`.
pub fn number_to_bytes(n: u32) -> (r: Vec<u8>)
    ensures
        r@ == number_bytes(n as nat),
{
    let mut v: Vec<u8> = Vec::new();
    if n == 0 {
        return v;
    }
    let mut m: u32 = n;
    while m >= 0x100
        invariant
            m >= 1,
            number_bytes(n as nat) == v@ + number_bytes(m as nat),
        decreases m,
    {
        let ghost before = v@;
        v.push((m % 0x100) as u8);
        assert(number_bytes(m as nat) == seq![(m % 0x100) as u8] + number_bytes(
            (m / 0x100) as nat,
        ));
        assert(before + (seq![(m % 0x100) as u8] + number_bytes((m / 0x100) as nat)) == v@
            + number_bytes((m / 0x100) as nat));
        m = m / 0x100;
    }
    let ghost before = v@;
    if m >= 0x80 {
        v.push(m as u8);
        v.push(0u8);
        assert(v@ == before + seq![m as u8, 0u8]);
    } else {
        v.push(m as u8);
        assert(v@ == before + seq![m as u8]);
    }
    v
}

/// Appends the push of the number `n` to `out`.
pub fn write_number(out: &mut Vec<u8>, n: u32)
    ensures
        final(out)@ == old(out)@ + push_number(n as nat),
{
    let ghost before = out@;
    if n == 0 {
        out.push(OP_0);
        assert(out@ == before + seq![OP_0]);
    } else if n <= 16 {
        out.push(0x50 + (n as u8));
        assert(out@ == before + seq![(0x50 + n) as u8]);
    } else {
        let bytes = number_to_bytes(n);
        proof {
            lemma_number_bytes_len(n as nat);
        }
        write_push(out, bytes.as_slice());
    }
}

/// Appends one element of a witness stack to a scriptSig under
/// construction.
pub fn write_element(out: &mut Vec<u8>, data: &[u8])
    requires
        data.len() <= 0xffff_ffff,
    ensures
        final(out)@ == old(out)@ + push_element(data@),
{
    let ghost before = out@;
    if data.len() == 1 && 1 <= data[0] && data[0] <= 16 {
        out.push(0x50 + data[0]);
        assert(out@ == before + seq![(0x50 + data[0]) as u8]);
    } else if data.len() == 1 && data[0] == 0x81 {
        out.push(OP_1NEGATE);
        assert(out@ == before + seq![OP_1NEGATE]);
    } else {
        write_push(out, data);
    }
}

} // verus!
