//! The names of the textual surface and what they stand for.
//!
//! A fragment is written as a name with its children in parentheses. The
//! name holds the wrappers that the fragment is under, before a colon: the
//! fragments of type `V` and `W` and the casts are told from those of type
//! `E` and `T` by them.

use vstd::prelude::*;
use vstd::slice::{slice_subrange, slice_to_vec};
use vstd::string::StringSliceAdditionalSpecFns;
use crate::astelem::time_wf;
use crate::bytes::slice_eq;
use crate::error::{Error, ErrorView, Found, FoundView};
use crate::expression::{Tree, TreeView, COLON};
use crate::key::PublicKey;
use crate::text::{
    decimal_u32, hash_of_text, key_of_text, read_decimal, read_hash, read_key,
};

verus! {

/// The character that no name may hold.
pub const AT: u8 = 0x40;

/// The names that the surface knows.
#[derive(Clone, Copy, Debug, PartialEq, Eq)]
pub enum Name {
    /// `c:pk_k`: a signature check.
    PkK,
    /// `multi`: a multisignature.
    Multi,
    /// `dv:older`: a relative locktime that leaves 0 or 1.
    Delay,
    /// `thresh`: a threshold.
    Thresh,
    /// `and_b`: a conjunction by `BOOLAND`.
    AndB,
    /// `andor`: a conjunction by `NOTIF`.
    AndOr,
    /// `or_b`: a disjunction by `BOOLOR`.
    OrB,
    /// `or_d`: a disjunction by `IFDUP NOTIF`.
    OrD,
    /// `or_i`: a disjunction by `IF`.
    OrI,
    /// `sc:pk_k`: a signature check after `SWAP`.
    SwapPkK,
    /// `sjtv:hash256`: a hash comparison after `SWAP`.
    SwapHash,
    /// `sdv:older`: a relative locktime after `SWAP`.
    SwapDelay,
    /// `vc:pk_k`: a signature check that aborts.
    VerifyPkK,
    /// `v:multi`: a multisignature that aborts.
    VerifyMulti,
    /// `v:older`: a relative locktime that leaves nothing.
    VerifyOlder,
    /// `v:hash256`: a hash comparison that aborts.
    VerifyHash,
    /// `and_v`: a sequence.
    AndV,
    /// `v:or_i`: a disjunction by `IF` that aborts.
    VerifyOrI,
    /// `or_c`: a disjunction by `NOTIF`.
    OrC,
    /// `v:thresh`: a threshold that aborts.
    VerifyThresh,
    /// `older`: a relative locktime.
    Older,
    /// `after`: an absolute locktime.
    After,
    /// `hash256`: a hash comparison.
    Hash256,
    /// `t:or_i`: a disjunction by `IF` of fragments that abort.
    TrueOrI,
    /// `pk`: pay to a public key.
    Pk,
    /// `pkh`: pay to the hash of a public key.
    Pkh,
    /// `wpkh`: pay to the hash of a public key as a witness program.
    Wpkh,
    /// `sh`: pay to the hash of a script.
    Sh,
    /// `wsh`: pay to the hash of a script as a witness program.
    Wsh,
    /// `pk_k`: a key alone.
    RawKey,
    /// `pk_h`: the hash of a key.
    KeyHash,
    /// `sha256`: a comparison with a SHA256 hash.
    Sha256,
    /// `ripemd160`: a comparison with a RIPEMD160 hash.
    Ripemd160,
    /// `hash160`: a comparison with a HASH160 hash.
    Hash160,
    /// Any other text.
    Unknown,
}

impl Name {
    /// The text of the name; none for `Unknown`.
    pub open spec fn bytes(self) -> Seq<u8> {
        match self {
            Name::PkK => "c:pk_k".spec_bytes(),
            Name::Multi => "multi".spec_bytes(),
            Name::Delay => "dv:older".spec_bytes(),
            Name::Thresh => "thresh".spec_bytes(),
            Name::AndB => "and_b".spec_bytes(),
            Name::AndOr => "andor".spec_bytes(),
            Name::OrB => "or_b".spec_bytes(),
            Name::OrD => "or_d".spec_bytes(),
            Name::OrI => "or_i".spec_bytes(),
            Name::SwapPkK => "sc:pk_k".spec_bytes(),
            Name::SwapHash => "sjtv:hash256".spec_bytes(),
            Name::SwapDelay => "sdv:older".spec_bytes(),
            Name::VerifyPkK => "vc:pk_k".spec_bytes(),
            Name::VerifyMulti => "v:multi".spec_bytes(),
            Name::VerifyOlder => "v:older".spec_bytes(),
            Name::VerifyHash => "v:hash256".spec_bytes(),
            Name::AndV => "and_v".spec_bytes(),
            Name::VerifyOrI => "v:or_i".spec_bytes(),
            Name::OrC => "or_c".spec_bytes(),
            Name::VerifyThresh => "v:thresh".spec_bytes(),
            Name::Older => "older".spec_bytes(),
            Name::After => "after".spec_bytes(),
            Name::Hash256 => "hash256".spec_bytes(),
            Name::TrueOrI => "t:or_i".spec_bytes(),
            Name::Pk => "pk".spec_bytes(),
            Name::Pkh => "pkh".spec_bytes(),
            Name::Wpkh => "wpkh".spec_bytes(),
            Name::Sh => "sh".spec_bytes(),
            Name::Wsh => "wsh".spec_bytes(),
            Name::RawKey => "pk_k".spec_bytes(),
            Name::KeyHash => "pk_h".spec_bytes(),
            Name::Sha256 => "sha256".spec_bytes(),
            Name::Ripemd160 => "ripemd160".spec_bytes(),
            Name::Hash160 => "hash160".spec_bytes(),
            Name::Unknown => Seq::empty(),
        }
    }

    /// The text of the name.
    pub fn text(self) -> (r: &'static str)
        ensures
            r.spec_bytes() == self.bytes(),
    {
        match self {
            Name::PkK => "c:pk_k",
            Name::Multi => "multi",
            Name::Delay => "dv:older",
            Name::Thresh => "thresh",
            Name::AndB => "and_b",
            Name::AndOr => "andor",
            Name::OrB => "or_b",
            Name::OrD => "or_d",
            Name::OrI => "or_i",
            Name::SwapPkK => "sc:pk_k",
            Name::SwapHash => "sjtv:hash256",
            Name::SwapDelay => "sdv:older",
            Name::VerifyPkK => "vc:pk_k",
            Name::VerifyMulti => "v:multi",
            Name::VerifyOlder => "v:older",
            Name::VerifyHash => "v:hash256",
            Name::AndV => "and_v",
            Name::VerifyOrI => "v:or_i",
            Name::OrC => "or_c",
            Name::VerifyThresh => "v:thresh",
            Name::Older => "older",
            Name::After => "after",
            Name::Hash256 => "hash256",
            Name::TrueOrI => "t:or_i",
            Name::Pk => "pk",
            Name::Pkh => "pkh",
            Name::Wpkh => "wpkh",
            Name::Sh => "sh",
            Name::Wsh => "wsh",
            Name::RawKey => "pk_k",
            Name::KeyHash => "pk_h",
            Name::Sha256 => "sha256",
            Name::Ripemd160 => "ripemd160",
            Name::Hash160 => "hash160",
            Name::Unknown => {
                proof {
                    reveal_strlit("");
                    vstd::string::is_ascii_spec_bytes("");
                }
                assert("".spec_bytes() =~= Seq::<u8>::empty());
                ""
            },
        }
    }

    /// Whether the name is that of an envelope.
    pub open spec fn is_envelope(self) -> bool {
        self == Name::Pk || self == Name::Pkh || self == Name::Wpkh || self == Name::Sh || self
            == Name::Wsh
    }

    /// Whether the name is that of an envelope.
    pub fn envelope(self) -> (r: bool)
        ensures
            r == self.is_envelope(),
    {
        match self {
            Name::Pk | Name::Pkh | Name::Wpkh | Name::Sh | Name::Wsh => true,
            _ => false,
        }
    }
}

/// The name that `text` is among the fragments of type `E`.
pub open spec fn classify_0(text: Seq<u8>) -> Name {
    if text == Name::PkK.bytes() {
        Name::PkK
    } else if text == Name::Multi.bytes() {
        Name::Multi
    } else if text == Name::Delay.bytes() {
        Name::Delay
    } else if text == Name::Thresh.bytes() {
        Name::Thresh
    } else if text == Name::AndB.bytes() {
        Name::AndB
    } else if text == Name::AndOr.bytes() {
        Name::AndOr
    } else if text == Name::OrB.bytes() {
        Name::OrB
    } else if text == Name::OrD.bytes() {
        Name::OrD
    } else if text == Name::OrI.bytes() {
        Name::OrI
    } else {
        Name::Unknown
    }
}

fn name_of_0(text: &[u8]) -> (r: Name)
    ensures
        r == classify_0(text@),
{
    if slice_eq(text, Name::PkK.text().as_bytes()) {
        Name::PkK
    } else if slice_eq(text, Name::Multi.text().as_bytes()) {
        Name::Multi
    } else if slice_eq(text, Name::Delay.text().as_bytes()) {
        Name::Delay
    } else if slice_eq(text, Name::Thresh.text().as_bytes()) {
        Name::Thresh
    } else if slice_eq(text, Name::AndB.text().as_bytes()) {
        Name::AndB
    } else if slice_eq(text, Name::AndOr.text().as_bytes()) {
        Name::AndOr
    } else if slice_eq(text, Name::OrB.text().as_bytes()) {
        Name::OrB
    } else if slice_eq(text, Name::OrD.text().as_bytes()) {
        Name::OrD
    } else if slice_eq(text, Name::OrI.text().as_bytes()) {
        Name::OrI
    } else {
        Name::Unknown
    }
}

/// The name that `text` is among the fragments of type `W` and `V`.
pub open spec fn classify_1(text: Seq<u8>) -> Name {
    if text == Name::SwapPkK.bytes() {
        Name::SwapPkK
    } else if text == Name::SwapHash.bytes() {
        Name::SwapHash
    } else if text == Name::SwapDelay.bytes() {
        Name::SwapDelay
    } else if text == Name::VerifyPkK.bytes() {
        Name::VerifyPkK
    } else if text == Name::VerifyMulti.bytes() {
        Name::VerifyMulti
    } else if text == Name::VerifyOlder.bytes() {
        Name::VerifyOlder
    } else if text == Name::VerifyHash.bytes() {
        Name::VerifyHash
    } else if text == Name::AndV.bytes() {
        Name::AndV
    } else if text == Name::VerifyOrI.bytes() {
        Name::VerifyOrI
    } else if text == Name::OrC.bytes() {
        Name::OrC
    } else if text == Name::VerifyThresh.bytes() {
        Name::VerifyThresh
    } else {
        Name::Unknown
    }
}

fn name_of_1(text: &[u8]) -> (r: Name)
    ensures
        r == classify_1(text@),
{
    if slice_eq(text, Name::SwapPkK.text().as_bytes()) {
        Name::SwapPkK
    } else if slice_eq(text, Name::SwapHash.text().as_bytes()) {
        Name::SwapHash
    } else if slice_eq(text, Name::SwapDelay.text().as_bytes()) {
        Name::SwapDelay
    } else if slice_eq(text, Name::VerifyPkK.text().as_bytes()) {
        Name::VerifyPkK
    } else if slice_eq(text, Name::VerifyMulti.text().as_bytes()) {
        Name::VerifyMulti
    } else if slice_eq(text, Name::VerifyOlder.text().as_bytes()) {
        Name::VerifyOlder
    } else if slice_eq(text, Name::VerifyHash.text().as_bytes()) {
        Name::VerifyHash
    } else if slice_eq(text, Name::AndV.text().as_bytes()) {
        Name::AndV
    } else if slice_eq(text, Name::VerifyOrI.text().as_bytes()) {
        Name::VerifyOrI
    } else if slice_eq(text, Name::OrC.text().as_bytes()) {
        Name::OrC
    } else if slice_eq(text, Name::VerifyThresh.text().as_bytes()) {
        Name::VerifyThresh
    } else {
        Name::Unknown
    }
}

/// The name that `text` is among the fragments of type `T` and the envelopes.
pub open spec fn classify_2(text: Seq<u8>) -> Name {
    if text == Name::Older.bytes() {
        Name::Older
    } else if text == Name::After.bytes() {
        Name::After
    } else if text == Name::Hash256.bytes() {
        Name::Hash256
    } else if text == Name::TrueOrI.bytes() {
        Name::TrueOrI
    } else if text == Name::Pk.bytes() {
        Name::Pk
    } else if text == Name::Pkh.bytes() {
        Name::Pkh
    } else if text == Name::Wpkh.bytes() {
        Name::Wpkh
    } else if text == Name::Sh.bytes() {
        Name::Sh
    } else if text == Name::Wsh.bytes() {
        Name::Wsh
    } else {
        Name::Unknown
    }
}

fn name_of_2(text: &[u8]) -> (r: Name)
    ensures
        r == classify_2(text@),
{
    if slice_eq(text, Name::Older.text().as_bytes()) {
        Name::Older
    } else if slice_eq(text, Name::After.text().as_bytes()) {
        Name::After
    } else if slice_eq(text, Name::Hash256.text().as_bytes()) {
        Name::Hash256
    } else if slice_eq(text, Name::TrueOrI.text().as_bytes()) {
        Name::TrueOrI
    } else if slice_eq(text, Name::Pk.text().as_bytes()) {
        Name::Pk
    } else if slice_eq(text, Name::Pkh.text().as_bytes()) {
        Name::Pkh
    } else if slice_eq(text, Name::Wpkh.text().as_bytes()) {
        Name::Wpkh
    } else if slice_eq(text, Name::Sh.text().as_bytes()) {
        Name::Sh
    } else if slice_eq(text, Name::Wsh.text().as_bytes()) {
        Name::Wsh
    } else {
        Name::Unknown
    }
}

/// The name that `text` is among the names that no fragment here has.
pub open spec fn classify_3(text: Seq<u8>) -> Name {
    if text == Name::RawKey.bytes() {
        Name::RawKey
    } else if text == Name::KeyHash.bytes() {
        Name::KeyHash
    } else if text == Name::Sha256.bytes() {
        Name::Sha256
    } else if text == Name::Ripemd160.bytes() {
        Name::Ripemd160
    } else if text == Name::Hash160.bytes() {
        Name::Hash160
    } else {
        Name::Unknown
    }
}

fn name_of_3(text: &[u8]) -> (r: Name)
    ensures
        r == classify_3(text@),
{
    if slice_eq(text, Name::RawKey.text().as_bytes()) {
        Name::RawKey
    } else if slice_eq(text, Name::KeyHash.text().as_bytes()) {
        Name::KeyHash
    } else if slice_eq(text, Name::Sha256.text().as_bytes()) {
        Name::Sha256
    } else if slice_eq(text, Name::Ripemd160.text().as_bytes()) {
        Name::Ripemd160
    } else if slice_eq(text, Name::Hash160.text().as_bytes()) {
        Name::Hash160
    } else {
        Name::Unknown
    }
}

/// The name that `text` is.
pub open spec fn classify(text: Seq<u8>) -> Name {
    if classify_0(text) != Name::Unknown {
        classify_0(text)
    } else if classify_1(text) != Name::Unknown {
        classify_1(text)
    } else if classify_2(text) != Name::Unknown {
        classify_2(text)
    } else {
        classify_3(text)
    }
}

/// Tells which name `text` is.
pub fn name_of(text: &[u8]) -> (r: Name)
    ensures
        r == classify(text@),
{
    match name_of_0(text) {
        Name::Unknown => match name_of_1(text) {
            Name::Unknown => match name_of_2(text) {
                Name::Unknown => name_of_3(text),
                n => n,
            },
            n => n,
        },
        n => n,
    }
}

/// How often `c` occurs in `s`.
pub open spec fn count(s: Seq<u8>, c: u8) -> nat
    decreases s.len(),
{
    if s.len() == 0 {
        0
    } else {
        count(s.drop_last(), c) + if s.last() == c {
            1nat
        } else {
            0nat
        }
    }
}

/// What is wrong with a name before it is looked up: it holds `@`, or more
/// than one colon, or nothing behind its colon.
pub open spec fn name_fault(name: Seq<u8>) -> Option<ErrorView> {
    if count(name, AT) > 0 {
        Some(ErrorView::AtOutsideOr(name))
    } else if count(name, COLON) > 1 {
        Some(ErrorView::MultiColon(name))
    } else if name.len() > 0 && name.last() == COLON {
        Some(ErrorView::MissingExt)
    } else {
        None
    }
}

/// The error for a name that is looked up where its fragment cannot stand.
pub open spec fn misplaced(name: Seq<u8>) -> ErrorView {
    if classify(name).is_envelope() {
        ErrorView::BadDescriptor
    } else if classify(name) == Name::Unknown {
        ErrorView::Unexpected(FoundView::Name(name))
    } else {
        ErrorView::TypeCheck(name)
    }
}

/// Whether the name starts with the wrapper `c`.
pub open spec fn wrapped_by(name: Seq<u8>, c: u8) -> bool {
    name.len() >= 2 && name[0] == c && count(name, COLON) == 1
}

/// The name without its first wrapper, and without the colon where that
/// was the only one.
pub open spec fn unwrapped(name: Seq<u8>) -> Seq<u8> {
    if name[1] == COLON {
        name.subrange(2, name.len() as int)
    } else {
        name.subrange(1, name.len() as int)
    }
}

/// The name under one more wrapper.
pub open spec fn wrapped(c: u8, name: Seq<u8>) -> Seq<u8> {
    if count(name, COLON) > 0 {
        seq![c] + name
    } else {
        seq![c, COLON] + name
    }
}

/// The text of an expression without children.
pub open spec fn leaf_text(a: TreeView) -> Result<Seq<u8>, ErrorView> {
    if a.args.len() == 0 {
        Ok(a.name)
    } else {
        Err(ErrorView::Unexpected(FoundView::Name(a.name)))
    }
}

/// The number that an argument spells.
pub open spec fn number_of(a: TreeView) -> Result<u32, ErrorView> {
    match leaf_text(a) {
        Ok(t) => match decimal_u32(t) {
            Some(Some(n)) => Ok(n),
            Some(None) => Err(ErrorView::NumberOverflow),
            None => Err(ErrorView::Unexpected(FoundView::Name(t))),
        },
        Err(e) => Err(e),
    }
}

/// The locktime that an argument spells.
pub open spec fn time_of(a: TreeView) -> Result<u32, ErrorView> {
    match number_of(a) {
        Ok(n) => if time_wf(n) {
            Ok(n)
        } else {
            Err(ErrorView::TypeCheck(a.name))
        },
        Err(e) => Err(e),
    }
}

/// The key that an argument spells.
pub open spec fn key_of(a: TreeView) -> Result<PublicKey, ErrorView> {
    match leaf_text(a) {
        Ok(t) => match key_of_text(t) {
            Some(k) => Ok(k),
            None => Err(ErrorView::Unexpected(FoundView::Name(t))),
        },
        Err(e) => Err(e),
    }
}

/// The hash that an argument spells.
pub open spec fn hash_of(a: TreeView) -> Result<[u8; 32], ErrorView> {
    match leaf_text(a) {
        Ok(t) => match hash_of_text(t) {
            Some(h) => Ok(h),
            None => Err(ErrorView::Unexpected(FoundView::Name(t))),
        },
        Err(e) => Err(e),
    }
}

/// Counts how often `c` occurs in `s`, up to two.
pub(crate) fn count_upto_two(s: &[u8], c: u8) -> (r: usize)
    ensures
        r == if count(s@, c) < 2 {
            count(s@, c)
        } else {
            2
        },
{
    let mut n: usize = 0;
    let mut i: usize = 0;
    while i < s.len()
        invariant
            i <= s.len(),
            n == if count(s@.subrange(0, i as int), c) < 2 {
                count(s@.subrange(0, i as int), c)
            } else {
                2
            },
        decreases s.len() - i,
    {
        assert(s@.subrange(0, i + 1).drop_last() =~= s@.subrange(0, i as int));
        if s[i] == c && n < 2 {
            n += 1;
        }
        i += 1;
    }
    assert(s@.subrange(0, i as int) =~= s@);
    n
}

/// Finds what is wrong with a name before it is looked up.
pub fn check_name(name: &[u8]) -> (r: Result<(), Error>)
    ensures
        match r {
            Ok(_) => name_fault(name@) is None,
            Err(e) => name_fault(name@) == Some(e@),
        },
{
    if count_upto_two(name, AT) > 0 {
        Err(Error::AtOutsideOr(slice_to_vec(name)))
    } else if count_upto_two(name, COLON) > 1 {
        Err(Error::MultiColon(slice_to_vec(name)))
    } else if name.len() > 0 && name[name.len() - 1] == COLON {
        Err(Error::MissingExt)
    } else {
        Ok(())
    }
}

/// The error for a name that is looked up where its fragment cannot stand.
pub fn misplaced_name(name: &[u8]) -> (r: Error)
    ensures
        r@ == misplaced(name@),
{
    let n = name_of(name);
    if n.envelope() {
        Error::BadDescriptor
    } else {
        match n {
            Name::Unknown => Error::Unexpected(Found::Name(slice_to_vec(name))),
            _ => Error::TypeCheck(slice_to_vec(name)),
        }
    }
}

/// Whether the name starts with the wrapper `c`.
pub fn is_wrapped_by(name: &[u8], c: u8) -> (r: bool)
    ensures
        r == wrapped_by(name@, c),
{
    name.len() >= 2 && name[0] == c && count_upto_two(name, COLON) == 1
}

/// The name without its first wrapper.
pub fn unwrap_name(name: &[u8]) -> (r: &[u8])
    requires
        name.len() >= 2,
    ensures
        r@ == unwrapped(name@),
{
    if name[1] == COLON {
        slice_subrange(name, 2, name.len())
    } else {
        slice_subrange(name, 1, name.len())
    }
}

/// Reads the text of an expression without children.
pub fn read_leaf(a: &Tree) -> (r: Result<&[u8], Error>)
    ensures
        match r {
            Ok(t) => leaf_text(a.model()) == Ok::<Seq<u8>, ErrorView>(t@),
            Err(e) => leaf_text(a.model()) == Err::<Seq<u8>, ErrorView>(e@),
        },
{
    proof {
        crate::expression::lemma_trees_model(a.args@);
    }
    if a.args.len() == 0 {
        Ok(a.name.as_slice())
    } else {
        Err(Error::Unexpected(Found::Name(slice_to_vec(a.name.as_slice()))))
    }
}

/// Reads the number that an argument spells.
pub fn read_number(a: &Tree) -> (r: Result<u32, Error>)
    ensures
        match r {
            Ok(n) => number_of(a.model()) == Ok::<u32, ErrorView>(n),
            Err(e) => number_of(a.model()) == Err::<u32, ErrorView>(e@),
        },
{
    let t = read_leaf(a)?;
    match read_decimal(t) {
        Some(Some(n)) => Ok(n),
        Some(None) => Err(Error::NumberOverflow),
        None => Err(Error::Unexpected(Found::Name(slice_to_vec(t)))),
    }
}

/// Reads the locktime that an argument spells.
pub fn read_time(a: &Tree) -> (r: Result<u32, Error>)
    ensures
        match r {
            Ok(n) => time_of(a.model()) == Ok::<u32, ErrorView>(n),
            Err(e) => time_of(a.model()) == Err::<u32, ErrorView>(e@),
        },
{
    let n = read_number(a)?;
    if 1 <= n && n < 0x8000_0000 {
        Ok(n)
    } else {
        Err(Error::TypeCheck(slice_to_vec(a.name.as_slice())))
    }
}

/// Reads the key that an argument spells.
pub fn read_key_arg(a: &Tree) -> (r: Result<PublicKey, Error>)
    ensures
        match r {
            Ok(k) => key_of(a.model()) == Ok::<PublicKey, ErrorView>(k),
            Err(e) => key_of(a.model()) == Err::<PublicKey, ErrorView>(e@),
        },
{
    let t = read_leaf(a)?;
    match read_key(t) {
        Some(k) => Ok(k),
        None => Err(Error::Unexpected(Found::Name(slice_to_vec(t)))),
    }
}

/// Reads the hash that an argument spells.
pub fn read_hash_arg(a: &Tree) -> (r: Result<[u8; 32], Error>)
    ensures
        match r {
            Ok(h) => hash_of(a.model()) == Ok::<[u8; 32], ErrorView>(h),
            Err(e) => hash_of(a.model()) == Err::<[u8; 32], ErrorView>(e@),
        },
{
    let t = read_leaf(a)?;
    match read_hash(t) {
        Some(h) => Ok(h),
        None => Err(Error::Unexpected(Found::Name(slice_to_vec(t)))),
    }
}

} // verus!
