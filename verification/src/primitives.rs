//! The functions of the `bitcoin` crate that the library calls. Their
//! contracts are taken on trust; everything else is proved from them.

use vstd::prelude::*;

verus! {

/// The networks that an address can be made for.
#[derive(Clone, Copy, Debug, PartialEq, Eq)]
pub enum Network {
    Bitcoin,
    Testnet,
    Regtest,
}

/// The text of the address that pays to the scriptPubKey `script` on
/// `network`, where the script is one that addresses exist for.
pub uninterp spec fn script_address(script: Seq<u8>, network: Network) -> Option<Seq<char>>;

/// The scriptPubKeys that addresses exist for: pay to public key hash, pay
/// to script hash, and a version 0 witness program of 20 or 32 bytes.
pub open spec fn is_address_template(s: Seq<u8>) -> bool {
    ||| s.len() == 25 && s[0] == 0x76 && s[1] == 0xa9 && s[2] == 20 && s[23] == 0x88 && s[24]
        == 0xac
    ||| s.len() == 23 && s[0] == 0xa9 && s[1] == 20 && s[22] == 0x87
    ||| (s.len() == 22 || s.len() == 34) && s[0] == 0 && s[1] == s.len() - 2
}

/// The number of bytes that the variable-length encoding of `n` takes in a
/// transaction.
pub open spec fn varint_size(n: nat) -> nat {
    if n <= 0xfc {
        1
    } else if n <= 0xffff {
        3
    } else if n <= 0xffff_ffff {
        5
    } else {
        9
    }
}

/// RIPEMD160 of SHA256 of `data`, 20 bytes.
pub uninterp spec fn hash160(data: Seq<u8>) -> Seq<u8>;

/// SHA256 of `data`, 32 bytes.
pub uninterp spec fn sha256(data: Seq<u8>) -> Seq<u8>;

/// Whether secp256k1 accepts `data` as the serialization of a point on the
/// curve.
pub uninterp spec fn is_curve_point(data: Seq<u8>) -> bool;

/// Calls `hash160::Hash::hash` of `bitcoin::hashes`: the result is the hash
/// of exactly the bytes given.
#[verifier::external_body]
pub(crate) fn hash160_of(data: &[u8]) -> (r: [u8; 20])
    ensures
        r@ == hash160(data@),
{
    bitcoin::hashes::Hash::into_inner(
        <bitcoin::hashes::hash160::Hash as bitcoin::hashes::Hash>::hash(data),
    )
}

/// Calls `sha256::Hash::hash` of `bitcoin::hashes`: the result is the hash of
/// exactly the bytes given.
#[verifier::external_body]
pub(crate) fn sha256_of(data: &[u8]) -> (r: [u8; 32])
    ensures
        r@ == sha256(data@),
{
    bitcoin::hashes::Hash::into_inner(
        <bitcoin::hashes::sha256::Hash as bitcoin::hashes::Hash>::hash(data),
    )
}

/// Calls `secp256k1::PublicKey::from_slice` and says whether it accepted the
/// bytes.
#[verifier::external_body]
pub(crate) fn curve_point(data: &[u8]) -> (r: bool)
    ensures
        r == is_curve_point(data@),
{
    bitcoin::secp256k1::PublicKey::from_slice(data).is_ok()
}

/// Calls `bitcoin::Address::from_script` and `to_string` on what it
/// returns: the result is the address text of exactly that script on that
/// network, and there is one for every script that pays to a public key
/// hash, to a script hash or to a witness program.
#[verifier::external_body]
pub(crate) fn address_of_script(script: &[u8], network: Network) -> (r: Option<String>)
    ensures
        match r {
            Some(a) => script_address(script@, network) == Some(a@),
            None => script_address(script@, network) is None,
        },
        is_address_template(script@) ==> r is Some,
{
    let network = match network {
        Network::Bitcoin => bitcoin::Network::Bitcoin,
        Network::Testnet => bitcoin::Network::Testnet,
        Network::Regtest => bitcoin::Network::Regtest,
    };
    let script = bitcoin::Script::from(script.to_vec());
    match bitcoin::Address::from_script(&script, network) {
        Some(address) => Some(address.to_string()),
        None => None,
    }
}

/// Calls `bitcoin::VarInt::len`: 1 up to 0xFC, 3 up to 2^16 - 1, 5 up to
/// 2^32 - 1, and 9 beyond.
#[verifier::external_body]
pub(crate) fn varint_len(n: u64) -> (r: usize)
    ensures
        r == varint_size(n as nat),
{
    bitcoin::VarInt(n).len()
}

} // verus!
