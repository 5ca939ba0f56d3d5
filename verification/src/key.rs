//! Public keys as the library holds them: the 33 bytes of a compressed
//! secp256k1 point.

use vstd::prelude::*;
use crate::bytes::{array33, array_of, lemma_array_of};
use crate::primitives::{curve_point, is_curve_point};

verus! {

/// A compressed public key.
#[derive(Clone, Copy, Debug, PartialEq, Eq)]
pub struct PublicKey {
    pub bytes: [u8; 33],
}

impl PublicKey {
    /// The key whose serialization is `s`.
    pub open spec fn of(s: Seq<u8>) -> PublicKey {
        PublicKey { bytes: array_of::<33>(s) }
    }

    /// What `from_slice` answers on `data`.
    pub open spec fn parse(data: Seq<u8>) -> Option<PublicKey> {
        if data.len() == 33 && is_curve_point(data) {
            Some(PublicKey::of(data))
        } else {
            None
        }
    }

    /// A key is determined by its bytes.
    pub proof fn lemma_of_bytes(self)
        ensures
            PublicKey::of(self.bytes@) == self,
    {
        lemma_array_of::<33>(self.bytes);
    }

    /// Reads a key from its 33-byte serialization; `None` where the length is
    /// not 33 or the bytes are no point on the curve.
    pub fn from_slice(data: &[u8]) -> (r: Option<PublicKey>)
        ensures
            r == PublicKey::parse(data@),
            r matches Some(k) ==> k.bytes@ == data@,
    {
        if data.len() != 33 {
            return None;
        }
        if !curve_point(data) {
            return None;
        }
        let bytes = array33(data, 0);
        assert(data@.subrange(0, 33) == data@);
        proof {
            lemma_array_of::<33>(bytes);
        }
        Some(PublicKey { bytes })
    }

    /// The 33-byte serialization.
    pub fn to_bytes(&self) -> (r: Vec<u8>)
        ensures
            r@ == self.bytes@,
    {
        let mut out: Vec<u8> = Vec::new();
        crate::bytes::extend(&mut out, self.bytes.as_slice());
        out
    }
}

} // verus!
