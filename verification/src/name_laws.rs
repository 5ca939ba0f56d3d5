//! What the names of the textual surface are, byte for byte, and what
//! follows from that: that they are told apart, that none of them holds a
//! character that ends a name, and that no wrapper is mistaken for one.

use vstd::prelude::*;
use vstd::string::StringSliceAdditionalSpecFns;
use crate::expression::{is_delimiter, is_printable, COLON};
use crate::from_tree::{WRAP_ALT, WRAP_LIKELY, WRAP_UNLIKELY};
use crate::names::{
    classify, classify_0, classify_1, classify_2, classify_3, count, name_fault, unwrapped,
    wrapped, wrapped_by, Name, AT,
};

verus! {

/// A few bytes of a text that tell the names apart.
pub open spec fn fingerprint(s: Seq<u8>) -> (nat, u8, u8, u8) {
    (s.len(), s[0], s[s.len() - 1], s[1])
}

/// The fingerprint of each name.
pub open spec fn name_print(n: Name) -> (nat, u8, u8, u8) {
    match n {
        Name::PkK => (6nat, 99u8, 107u8, 58u8),
        Name::Multi => (5nat, 109u8, 105u8, 117u8),
        Name::Delay => (8nat, 100u8, 114u8, 118u8),
        Name::Thresh => (6nat, 116u8, 104u8, 104u8),
        Name::AndB => (5nat, 97u8, 98u8, 110u8),
        Name::AndOr => (5nat, 97u8, 114u8, 110u8),
        Name::OrB => (4nat, 111u8, 98u8, 114u8),
        Name::OrD => (4nat, 111u8, 100u8, 114u8),
        Name::OrI => (4nat, 111u8, 105u8, 114u8),
        Name::SwapPkK => (7nat, 115u8, 107u8, 99u8),
        Name::SwapHash => (12nat, 115u8, 54u8, 106u8),
        Name::SwapDelay => (9nat, 115u8, 114u8, 100u8),
        Name::VerifyPkK => (7nat, 118u8, 107u8, 99u8),
        Name::VerifyMulti => (7nat, 118u8, 105u8, 58u8),
        Name::VerifyOlder => (7nat, 118u8, 114u8, 58u8),
        Name::VerifyHash => (9nat, 118u8, 54u8, 58u8),
        Name::AndV => (5nat, 97u8, 118u8, 110u8),
        Name::VerifyOrI => (6nat, 118u8, 105u8, 58u8),
        Name::OrC => (4nat, 111u8, 99u8, 114u8),
        Name::VerifyThresh => (8nat, 118u8, 104u8, 58u8),
        Name::Older => (5nat, 111u8, 114u8, 108u8),
        Name::After => (5nat, 97u8, 114u8, 102u8),
        Name::Hash256 => (7nat, 104u8, 54u8, 97u8),
        Name::TrueOrI => (6nat, 116u8, 105u8, 58u8),
        Name::Pk => (2nat, 112u8, 107u8, 107u8),
        Name::Pkh => (3nat, 112u8, 104u8, 107u8),
        Name::Wpkh => (4nat, 119u8, 104u8, 112u8),
        Name::Sh => (2nat, 115u8, 104u8, 104u8),
        Name::Wsh => (3nat, 119u8, 104u8, 115u8),
        Name::RawKey => (4nat, 112u8, 107u8, 107u8),
        Name::KeyHash => (4nat, 112u8, 104u8, 107u8),
        Name::Sha256 => (6nat, 115u8, 54u8, 104u8),
        Name::Ripemd160 => (9nat, 114u8, 48u8, 105u8),
        Name::Hash160 => (7nat, 104u8, 48u8, 97u8),
        Name::Unknown => (0nat, 0u8, 0u8, 0u8),
    }
}

/// A text that can stand as a name: printable, and without a character
/// that ends a name.
pub open spec fn clean(s: Seq<u8>) -> bool {
    forall|i: int| 0 <= i < s.len() ==> is_printable(#[trigger] s[i]) && !is_delimiter(s[i])
}

/// A name as the printer writes it: clean, without `@`, with at most one
/// colon, which is neither its first nor its last character.
pub open spec fn wellformed(s: Seq<u8>) -> bool {
    &&& s.len() >= 2
    &&& clean(s)
    &&& count(s, AT) == 0
    &&& count(s, COLON) <= 1
    &&& s[0] != COLON
    &&& s.last() != COLON
}

proof fn lemma_bytes_pkk()
    ensures
        Name::PkK.bytes() == seq![99u8, 58u8, 112u8, 107u8, 95u8, 107u8],
{
    reveal_strlit("c:pk_k");
    vstd::string::is_ascii_spec_bytes("c:pk_k");
    assert(Name::PkK.bytes() =~= seq![99u8, 58u8, 112u8, 107u8, 95u8, 107u8]);
}

proof fn lemma_bytes_multi()
    ensures
        Name::Multi.bytes() == seq![109u8, 117u8, 108u8, 116u8, 105u8],
{
    reveal_strlit("multi");
    vstd::string::is_ascii_spec_bytes("multi");
    assert(Name::Multi.bytes() =~= seq![109u8, 117u8, 108u8, 116u8, 105u8]);
}

proof fn lemma_bytes_delay()
    ensures
        Name::Delay.bytes() == seq![100u8, 118u8, 58u8, 111u8, 108u8, 100u8, 101u8, 114u8],
{
    reveal_strlit("dv:older");
    vstd::string::is_ascii_spec_bytes("dv:older");
    assert(Name::Delay.bytes() =~= seq![100u8, 118u8, 58u8, 111u8, 108u8, 100u8, 101u8, 114u8]);
}

proof fn lemma_bytes_thresh()
    ensures
        Name::Thresh.bytes() == seq![116u8, 104u8, 114u8, 101u8, 115u8, 104u8],
{
    reveal_strlit("thresh");
    vstd::string::is_ascii_spec_bytes("thresh");
    assert(Name::Thresh.bytes() =~= seq![116u8, 104u8, 114u8, 101u8, 115u8, 104u8]);
}

proof fn lemma_bytes_andb()
    ensures
        Name::AndB.bytes() == seq![97u8, 110u8, 100u8, 95u8, 98u8],
{
    reveal_strlit("and_b");
    vstd::string::is_ascii_spec_bytes("and_b");
    assert(Name::AndB.bytes() =~= seq![97u8, 110u8, 100u8, 95u8, 98u8]);
}

proof fn lemma_bytes_andor()
    ensures
        Name::AndOr.bytes() == seq![97u8, 110u8, 100u8, 111u8, 114u8],
{
    reveal_strlit("andor");
    vstd::string::is_ascii_spec_bytes("andor");
    assert(Name::AndOr.bytes() =~= seq![97u8, 110u8, 100u8, 111u8, 114u8]);
}

proof fn lemma_bytes_orb()
    ensures
        Name::OrB.bytes() == seq![111u8, 114u8, 95u8, 98u8],
{
    reveal_strlit("or_b");
    vstd::string::is_ascii_spec_bytes("or_b");
    assert(Name::OrB.bytes() =~= seq![111u8, 114u8, 95u8, 98u8]);
}

proof fn lemma_bytes_ord()
    ensures
        Name::OrD.bytes() == seq![111u8, 114u8, 95u8, 100u8],
{
    reveal_strlit("or_d");
    vstd::string::is_ascii_spec_bytes("or_d");
    assert(Name::OrD.bytes() =~= seq![111u8, 114u8, 95u8, 100u8]);
}

proof fn lemma_bytes_ori()
    ensures
        Name::OrI.bytes() == seq![111u8, 114u8, 95u8, 105u8],
{
    reveal_strlit("or_i");
    vstd::string::is_ascii_spec_bytes("or_i");
    assert(Name::OrI.bytes() =~= seq![111u8, 114u8, 95u8, 105u8]);
}

proof fn lemma_bytes_swappkk()
    ensures
        Name::SwapPkK.bytes() == seq![115u8, 99u8, 58u8, 112u8, 107u8, 95u8, 107u8],
{
    reveal_strlit("sc:pk_k");
    vstd::string::is_ascii_spec_bytes("sc:pk_k");
    assert(Name::SwapPkK.bytes() =~= seq![115u8, 99u8, 58u8, 112u8, 107u8, 95u8, 107u8]);
}

proof fn lemma_bytes_swaphash()
    ensures
        Name::SwapHash.bytes()
            == seq![115u8, 106u8, 116u8, 118u8, 58u8, 104u8, 97u8, 115u8, 104u8, 50u8, 53u8, 54u8],
{
    reveal_strlit("sjtv:hash256");
    vstd::string::is_ascii_spec_bytes("sjtv:hash256");
    assert(
        Name::SwapHash.bytes()
            =~= seq![115u8, 106u8, 116u8, 118u8, 58u8, 104u8, 97u8, 115u8, 104u8, 50u8, 53u8, 54u8]
    );
}

proof fn lemma_bytes_swapdelay()
    ensures
        Name::SwapDelay.bytes()
            == seq![115u8, 100u8, 118u8, 58u8, 111u8, 108u8, 100u8, 101u8, 114u8],
{
    reveal_strlit("sdv:older");
    vstd::string::is_ascii_spec_bytes("sdv:older");
    assert(
        Name::SwapDelay.bytes()
            =~= seq![115u8, 100u8, 118u8, 58u8, 111u8, 108u8, 100u8, 101u8, 114u8]
    );
}

proof fn lemma_bytes_verifypkk()
    ensures
        Name::VerifyPkK.bytes() == seq![118u8, 99u8, 58u8, 112u8, 107u8, 95u8, 107u8],
{
    reveal_strlit("vc:pk_k");
    vstd::string::is_ascii_spec_bytes("vc:pk_k");
    assert(Name::VerifyPkK.bytes() =~= seq![118u8, 99u8, 58u8, 112u8, 107u8, 95u8, 107u8]);
}

proof fn lemma_bytes_verifymulti()
    ensures
        Name::VerifyMulti.bytes() == seq![118u8, 58u8, 109u8, 117u8, 108u8, 116u8, 105u8],
{
    reveal_strlit("v:multi");
    vstd::string::is_ascii_spec_bytes("v:multi");
    assert(Name::VerifyMulti.bytes() =~= seq![118u8, 58u8, 109u8, 117u8, 108u8, 116u8, 105u8]);
}

proof fn lemma_bytes_verifyolder()
    ensures
        Name::VerifyOlder.bytes() == seq![118u8, 58u8, 111u8, 108u8, 100u8, 101u8, 114u8],
{
    reveal_strlit("v:older");
    vstd::string::is_ascii_spec_bytes("v:older");
    assert(Name::VerifyOlder.bytes() =~= seq![118u8, 58u8, 111u8, 108u8, 100u8, 101u8, 114u8]);
}

proof fn lemma_bytes_verifyhash()
    ensures
        Name::VerifyHash.bytes() == seq![118u8, 58u8, 104u8, 97u8, 115u8, 104u8, 50u8, 53u8, 54u8],
{
    reveal_strlit("v:hash256");
    vstd::string::is_ascii_spec_bytes("v:hash256");
    assert(
        Name::VerifyHash.bytes() =~= seq![118u8, 58u8, 104u8, 97u8, 115u8, 104u8, 50u8, 53u8, 54u8]
    );
}

proof fn lemma_bytes_andv()
    ensures
        Name::AndV.bytes() == seq![97u8, 110u8, 100u8, 95u8, 118u8],
{
    reveal_strlit("and_v");
    vstd::string::is_ascii_spec_bytes("and_v");
    assert(Name::AndV.bytes() =~= seq![97u8, 110u8, 100u8, 95u8, 118u8]);
}

proof fn lemma_bytes_verifyori()
    ensures
        Name::VerifyOrI.bytes() == seq![118u8, 58u8, 111u8, 114u8, 95u8, 105u8],
{
    reveal_strlit("v:or_i");
    vstd::string::is_ascii_spec_bytes("v:or_i");
    assert(Name::VerifyOrI.bytes() =~= seq![118u8, 58u8, 111u8, 114u8, 95u8, 105u8]);
}

proof fn lemma_bytes_orc()
    ensures
        Name::OrC.bytes() == seq![111u8, 114u8, 95u8, 99u8],
{
    reveal_strlit("or_c");
    vstd::string::is_ascii_spec_bytes("or_c");
    assert(Name::OrC.bytes() =~= seq![111u8, 114u8, 95u8, 99u8]);
}

proof fn lemma_bytes_verifythresh()
    ensures
        Name::VerifyThresh.bytes() == seq![118u8, 58u8, 116u8, 104u8, 114u8, 101u8, 115u8, 104u8],
{
    reveal_strlit("v:thresh");
    vstd::string::is_ascii_spec_bytes("v:thresh");
    assert(
        Name::VerifyThresh.bytes() =~= seq![118u8, 58u8, 116u8, 104u8, 114u8, 101u8, 115u8, 104u8]
    );
}

proof fn lemma_bytes_older()
    ensures
        Name::Older.bytes() == seq![111u8, 108u8, 100u8, 101u8, 114u8],
{
    reveal_strlit("older");
    vstd::string::is_ascii_spec_bytes("older");
    assert(Name::Older.bytes() =~= seq![111u8, 108u8, 100u8, 101u8, 114u8]);
}

proof fn lemma_bytes_after()
    ensures
        Name::After.bytes() == seq![97u8, 102u8, 116u8, 101u8, 114u8],
{
    reveal_strlit("after");
    vstd::string::is_ascii_spec_bytes("after");
    assert(Name::After.bytes() =~= seq![97u8, 102u8, 116u8, 101u8, 114u8]);
}

proof fn lemma_bytes_hash256()
    ensures
        Name::Hash256.bytes() == seq![104u8, 97u8, 115u8, 104u8, 50u8, 53u8, 54u8],
{
    reveal_strlit("hash256");
    vstd::string::is_ascii_spec_bytes("hash256");
    assert(Name::Hash256.bytes() =~= seq![104u8, 97u8, 115u8, 104u8, 50u8, 53u8, 54u8]);
}

proof fn lemma_bytes_trueori()
    ensures
        Name::TrueOrI.bytes() == seq![116u8, 58u8, 111u8, 114u8, 95u8, 105u8],
{
    reveal_strlit("t:or_i");
    vstd::string::is_ascii_spec_bytes("t:or_i");
    assert(Name::TrueOrI.bytes() =~= seq![116u8, 58u8, 111u8, 114u8, 95u8, 105u8]);
}

proof fn lemma_bytes_pk()
    ensures
        Name::Pk.bytes() == seq![112u8, 107u8],
{
    reveal_strlit("pk");
    vstd::string::is_ascii_spec_bytes("pk");
    assert(Name::Pk.bytes() =~= seq![112u8, 107u8]);
}

proof fn lemma_bytes_pkh()
    ensures
        Name::Pkh.bytes() == seq![112u8, 107u8, 104u8],
{
    reveal_strlit("pkh");
    vstd::string::is_ascii_spec_bytes("pkh");
    assert(Name::Pkh.bytes() =~= seq![112u8, 107u8, 104u8]);
}

proof fn lemma_bytes_wpkh()
    ensures
        Name::Wpkh.bytes() == seq![119u8, 112u8, 107u8, 104u8],
{
    reveal_strlit("wpkh");
    vstd::string::is_ascii_spec_bytes("wpkh");
    assert(Name::Wpkh.bytes() =~= seq![119u8, 112u8, 107u8, 104u8]);
}

proof fn lemma_bytes_sh()
    ensures
        Name::Sh.bytes() == seq![115u8, 104u8],
{
    reveal_strlit("sh");
    vstd::string::is_ascii_spec_bytes("sh");
    assert(Name::Sh.bytes() =~= seq![115u8, 104u8]);
}

proof fn lemma_bytes_wsh()
    ensures
        Name::Wsh.bytes() == seq![119u8, 115u8, 104u8],
{
    reveal_strlit("wsh");
    vstd::string::is_ascii_spec_bytes("wsh");
    assert(Name::Wsh.bytes() =~= seq![119u8, 115u8, 104u8]);
}

proof fn lemma_bytes_rawkey()
    ensures
        Name::RawKey.bytes() == seq![112u8, 107u8, 95u8, 107u8],
{
    reveal_strlit("pk_k");
    vstd::string::is_ascii_spec_bytes("pk_k");
    assert(Name::RawKey.bytes() =~= seq![112u8, 107u8, 95u8, 107u8]);
}

proof fn lemma_bytes_keyhash()
    ensures
        Name::KeyHash.bytes() == seq![112u8, 107u8, 95u8, 104u8],
{
    reveal_strlit("pk_h");
    vstd::string::is_ascii_spec_bytes("pk_h");
    assert(Name::KeyHash.bytes() =~= seq![112u8, 107u8, 95u8, 104u8]);
}

proof fn lemma_bytes_sha256()
    ensures
        Name::Sha256.bytes() == seq![115u8, 104u8, 97u8, 50u8, 53u8, 54u8],
{
    reveal_strlit("sha256");
    vstd::string::is_ascii_spec_bytes("sha256");
    assert(Name::Sha256.bytes() =~= seq![115u8, 104u8, 97u8, 50u8, 53u8, 54u8]);
}

proof fn lemma_bytes_ripemd160()
    ensures
        Name::Ripemd160.bytes() == seq![114u8, 105u8, 112u8, 101u8, 109u8, 100u8, 49u8, 54u8, 48u8],
{
    reveal_strlit("ripemd160");
    vstd::string::is_ascii_spec_bytes("ripemd160");
    assert(
        Name::Ripemd160.bytes() =~= seq![114u8, 105u8, 112u8, 101u8, 109u8, 100u8, 49u8, 54u8, 48u8]
    );
}

proof fn lemma_bytes_hash160()
    ensures
        Name::Hash160.bytes() == seq![104u8, 97u8, 115u8, 104u8, 49u8, 54u8, 48u8],
{
    reveal_strlit("hash160");
    vstd::string::is_ascii_spec_bytes("hash160");
    assert(Name::Hash160.bytes() =~= seq![104u8, 97u8, 115u8, 104u8, 49u8, 54u8, 48u8]);
}

/// Every name has the fingerprint that the table gives for it.
pub proof fn lemma_fingerprints()
    ensures
        forall|n: Name| n != Name::Unknown ==> #[trigger] fingerprint(n.bytes()) == name_print(n),
{
    assert forall|n: Name| n != Name::Unknown implies #[trigger] fingerprint(n.bytes())
        == name_print(n) by {
        match n {
            Name::PkK => lemma_bytes_pkk(),
            Name::Multi => lemma_bytes_multi(),
            Name::Delay => lemma_bytes_delay(),
            Name::Thresh => lemma_bytes_thresh(),
            Name::AndB => lemma_bytes_andb(),
            Name::AndOr => lemma_bytes_andor(),
            Name::OrB => lemma_bytes_orb(),
            Name::OrD => lemma_bytes_ord(),
            Name::OrI => lemma_bytes_ori(),
            Name::SwapPkK => lemma_bytes_swappkk(),
            Name::SwapHash => lemma_bytes_swaphash(),
            Name::SwapDelay => lemma_bytes_swapdelay(),
            Name::VerifyPkK => lemma_bytes_verifypkk(),
            Name::VerifyMulti => lemma_bytes_verifymulti(),
            Name::VerifyOlder => lemma_bytes_verifyolder(),
            Name::VerifyHash => lemma_bytes_verifyhash(),
            Name::AndV => lemma_bytes_andv(),
            Name::VerifyOrI => lemma_bytes_verifyori(),
            Name::OrC => lemma_bytes_orc(),
            Name::VerifyThresh => lemma_bytes_verifythresh(),
            Name::Older => lemma_bytes_older(),
            Name::After => lemma_bytes_after(),
            Name::Hash256 => lemma_bytes_hash256(),
            Name::TrueOrI => lemma_bytes_trueori(),
            Name::Pk => lemma_bytes_pk(),
            Name::Pkh => lemma_bytes_pkh(),
            Name::Wpkh => lemma_bytes_wpkh(),
            Name::Sh => lemma_bytes_sh(),
            Name::Wsh => lemma_bytes_wsh(),
            Name::RawKey => lemma_bytes_rawkey(),
            Name::KeyHash => lemma_bytes_keyhash(),
            Name::Sha256 => lemma_bytes_sha256(),
            Name::Ripemd160 => lemma_bytes_ripemd160(),
            Name::Hash160 => lemma_bytes_hash160(),
            Name::Unknown => {},
        }
    }
}

/// Two names with the same bytes are the same name.
pub proof fn lemma_names_differ(a: Name, b: Name)
    requires
        a != Name::Unknown,
        b != Name::Unknown,
        a.bytes() == b.bytes(),
    ensures
        a == b,
{
    lemma_fingerprints();
    assert(fingerprint(a.bytes()) == name_print(a));
    assert(fingerprint(b.bytes()) == name_print(b));
}

/// The bytes of a name are read as that name.
pub proof fn lemma_classify(n: Name)
    requires
        n != Name::Unknown,
    ensures
        classify(n.bytes()) == n,
{
    assert forall|m: Name| m != Name::Unknown && m.bytes() == n.bytes() implies m == n by {
        lemma_names_differ(m, n);
    }
    let t = n.bytes();
    assert(classify_0(t) != Name::Unknown ==> classify_0(t).bytes() == t);
    assert(classify_1(t) != Name::Unknown ==> classify_1(t).bytes() == t);
    assert(classify_2(t) != Name::Unknown ==> classify_2(t).bytes() == t);
    assert(classify_3(t) != Name::Unknown ==> classify_3(t).bytes() == t);
}

proof fn lemma_wf_pkk()
    ensures
        wellformed(Name::PkK.bytes()),
        name_fault(Name::PkK.bytes()) is None,
        !wrapped_by(Name::PkK.bytes(), WRAP_LIKELY),
        !wrapped_by(Name::PkK.bytes(), WRAP_UNLIKELY),
        !wrapped_by(Name::PkK.bytes(), WRAP_ALT),
{
    reveal_with_fuel(count, 7);
    lemma_bytes_pkk();
}

proof fn lemma_wf_multi()
    ensures
        wellformed(Name::Multi.bytes()),
        name_fault(Name::Multi.bytes()) is None,
        !wrapped_by(Name::Multi.bytes(), WRAP_LIKELY),
        !wrapped_by(Name::Multi.bytes(), WRAP_UNLIKELY),
        !wrapped_by(Name::Multi.bytes(), WRAP_ALT),
{
    reveal_with_fuel(count, 6);
    lemma_bytes_multi();
}

proof fn lemma_wf_delay()
    ensures
        wellformed(Name::Delay.bytes()),
        name_fault(Name::Delay.bytes()) is None,
        !wrapped_by(Name::Delay.bytes(), WRAP_LIKELY),
        !wrapped_by(Name::Delay.bytes(), WRAP_UNLIKELY),
        !wrapped_by(Name::Delay.bytes(), WRAP_ALT),
{
    reveal_with_fuel(count, 9);
    lemma_bytes_delay();
}

proof fn lemma_wf_thresh()
    ensures
        wellformed(Name::Thresh.bytes()),
        name_fault(Name::Thresh.bytes()) is None,
        !wrapped_by(Name::Thresh.bytes(), WRAP_LIKELY),
        !wrapped_by(Name::Thresh.bytes(), WRAP_UNLIKELY),
        !wrapped_by(Name::Thresh.bytes(), WRAP_ALT),
{
    reveal_with_fuel(count, 7);
    lemma_bytes_thresh();
}

proof fn lemma_wf_andb()
    ensures
        wellformed(Name::AndB.bytes()),
        name_fault(Name::AndB.bytes()) is None,
        !wrapped_by(Name::AndB.bytes(), WRAP_LIKELY),
        !wrapped_by(Name::AndB.bytes(), WRAP_UNLIKELY),
        !wrapped_by(Name::AndB.bytes(), WRAP_ALT),
{
    reveal_with_fuel(count, 6);
    lemma_bytes_andb();
}

proof fn lemma_wf_andor()
    ensures
        wellformed(Name::AndOr.bytes()),
        name_fault(Name::AndOr.bytes()) is None,
        !wrapped_by(Name::AndOr.bytes(), WRAP_LIKELY),
        !wrapped_by(Name::AndOr.bytes(), WRAP_UNLIKELY),
        !wrapped_by(Name::AndOr.bytes(), WRAP_ALT),
{
    reveal_with_fuel(count, 6);
    lemma_bytes_andor();
}

proof fn lemma_wf_orb()
    ensures
        wellformed(Name::OrB.bytes()),
        name_fault(Name::OrB.bytes()) is None,
        !wrapped_by(Name::OrB.bytes(), WRAP_LIKELY),
        !wrapped_by(Name::OrB.bytes(), WRAP_UNLIKELY),
        !wrapped_by(Name::OrB.bytes(), WRAP_ALT),
{
    reveal_with_fuel(count, 5);
    lemma_bytes_orb();
}

proof fn lemma_wf_ord()
    ensures
        wellformed(Name::OrD.bytes()),
        name_fault(Name::OrD.bytes()) is None,
        !wrapped_by(Name::OrD.bytes(), WRAP_LIKELY),
        !wrapped_by(Name::OrD.bytes(), WRAP_UNLIKELY),
        !wrapped_by(Name::OrD.bytes(), WRAP_ALT),
{
    reveal_with_fuel(count, 5);
    lemma_bytes_ord();
}

proof fn lemma_wf_ori()
    ensures
        wellformed(Name::OrI.bytes()),
        name_fault(Name::OrI.bytes()) is None,
        !wrapped_by(Name::OrI.bytes(), WRAP_LIKELY),
        !wrapped_by(Name::OrI.bytes(), WRAP_UNLIKELY),
        !wrapped_by(Name::OrI.bytes(), WRAP_ALT),
{
    reveal_with_fuel(count, 5);
    lemma_bytes_ori();
}

proof fn lemma_wf_swappkk()
    ensures
        wellformed(Name::SwapPkK.bytes()),
        name_fault(Name::SwapPkK.bytes()) is None,
        !wrapped_by(Name::SwapPkK.bytes(), WRAP_LIKELY),
        !wrapped_by(Name::SwapPkK.bytes(), WRAP_UNLIKELY),
        !wrapped_by(Name::SwapPkK.bytes(), WRAP_ALT),
{
    reveal_with_fuel(count, 8);
    lemma_bytes_swappkk();
}

proof fn lemma_wf_swaphash()
    ensures
        wellformed(Name::SwapHash.bytes()),
        name_fault(Name::SwapHash.bytes()) is None,
        !wrapped_by(Name::SwapHash.bytes(), WRAP_LIKELY),
        !wrapped_by(Name::SwapHash.bytes(), WRAP_UNLIKELY),
        !wrapped_by(Name::SwapHash.bytes(), WRAP_ALT),
{
    reveal_with_fuel(count, 13);
    lemma_bytes_swaphash();
}

proof fn lemma_wf_swapdelay()
    ensures
        wellformed(Name::SwapDelay.bytes()),
        name_fault(Name::SwapDelay.bytes()) is None,
        !wrapped_by(Name::SwapDelay.bytes(), WRAP_LIKELY),
        !wrapped_by(Name::SwapDelay.bytes(), WRAP_UNLIKELY),
        !wrapped_by(Name::SwapDelay.bytes(), WRAP_ALT),
{
    reveal_with_fuel(count, 10);
    lemma_bytes_swapdelay();
}

proof fn lemma_wf_verifypkk()
    ensures
        wellformed(Name::VerifyPkK.bytes()),
        name_fault(Name::VerifyPkK.bytes()) is None,
        !wrapped_by(Name::VerifyPkK.bytes(), WRAP_LIKELY),
        !wrapped_by(Name::VerifyPkK.bytes(), WRAP_UNLIKELY),
        !wrapped_by(Name::VerifyPkK.bytes(), WRAP_ALT),
{
    reveal_with_fuel(count, 8);
    lemma_bytes_verifypkk();
}

proof fn lemma_wf_verifymulti()
    ensures
        wellformed(Name::VerifyMulti.bytes()),
        name_fault(Name::VerifyMulti.bytes()) is None,
        !wrapped_by(Name::VerifyMulti.bytes(), WRAP_LIKELY),
        !wrapped_by(Name::VerifyMulti.bytes(), WRAP_UNLIKELY),
        !wrapped_by(Name::VerifyMulti.bytes(), WRAP_ALT),
{
    reveal_with_fuel(count, 8);
    lemma_bytes_verifymulti();
}

proof fn lemma_wf_verifyolder()
    ensures
        wellformed(Name::VerifyOlder.bytes()),
        name_fault(Name::VerifyOlder.bytes()) is None,
        !wrapped_by(Name::VerifyOlder.bytes(), WRAP_LIKELY),
        !wrapped_by(Name::VerifyOlder.bytes(), WRAP_UNLIKELY),
        !wrapped_by(Name::VerifyOlder.bytes(), WRAP_ALT),
{
    reveal_with_fuel(count, 8);
    lemma_bytes_verifyolder();
}

proof fn lemma_wf_verifyhash()
    ensures
        wellformed(Name::VerifyHash.bytes()),
        name_fault(Name::VerifyHash.bytes()) is None,
        !wrapped_by(Name::VerifyHash.bytes(), WRAP_LIKELY),
        !wrapped_by(Name::VerifyHash.bytes(), WRAP_UNLIKELY),
        !wrapped_by(Name::VerifyHash.bytes(), WRAP_ALT),
{
    reveal_with_fuel(count, 10);
    lemma_bytes_verifyhash();
}

proof fn lemma_wf_andv()
    ensures
        wellformed(Name::AndV.bytes()),
        name_fault(Name::AndV.bytes()) is None,
        !wrapped_by(Name::AndV.bytes(), WRAP_LIKELY),
        !wrapped_by(Name::AndV.bytes(), WRAP_UNLIKELY),
        !wrapped_by(Name::AndV.bytes(), WRAP_ALT),
{
    reveal_with_fuel(count, 6);
    lemma_bytes_andv();
}

proof fn lemma_wf_verifyori()
    ensures
        wellformed(Name::VerifyOrI.bytes()),
        name_fault(Name::VerifyOrI.bytes()) is None,
        !wrapped_by(Name::VerifyOrI.bytes(), WRAP_LIKELY),
        !wrapped_by(Name::VerifyOrI.bytes(), WRAP_UNLIKELY),
        !wrapped_by(Name::VerifyOrI.bytes(), WRAP_ALT),
{
    reveal_with_fuel(count, 7);
    lemma_bytes_verifyori();
}

proof fn lemma_wf_orc()
    ensures
        wellformed(Name::OrC.bytes()),
        name_fault(Name::OrC.bytes()) is None,
        !wrapped_by(Name::OrC.bytes(), WRAP_LIKELY),
        !wrapped_by(Name::OrC.bytes(), WRAP_UNLIKELY),
        !wrapped_by(Name::OrC.bytes(), WRAP_ALT),
{
    reveal_with_fuel(count, 5);
    lemma_bytes_orc();
}

proof fn lemma_wf_verifythresh()
    ensures
        wellformed(Name::VerifyThresh.bytes()),
        name_fault(Name::VerifyThresh.bytes()) is None,
        !wrapped_by(Name::VerifyThresh.bytes(), WRAP_LIKELY),
        !wrapped_by(Name::VerifyThresh.bytes(), WRAP_UNLIKELY),
        !wrapped_by(Name::VerifyThresh.bytes(), WRAP_ALT),
{
    reveal_with_fuel(count, 9);
    lemma_bytes_verifythresh();
}

proof fn lemma_wf_older()
    ensures
        wellformed(Name::Older.bytes()),
        name_fault(Name::Older.bytes()) is None,
        !wrapped_by(Name::Older.bytes(), WRAP_LIKELY),
        !wrapped_by(Name::Older.bytes(), WRAP_UNLIKELY),
        !wrapped_by(Name::Older.bytes(), WRAP_ALT),
{
    reveal_with_fuel(count, 6);
    lemma_bytes_older();
}

proof fn lemma_wf_after()
    ensures
        wellformed(Name::After.bytes()),
        name_fault(Name::After.bytes()) is None,
        !wrapped_by(Name::After.bytes(), WRAP_LIKELY),
        !wrapped_by(Name::After.bytes(), WRAP_UNLIKELY),
        !wrapped_by(Name::After.bytes(), WRAP_ALT),
{
    reveal_with_fuel(count, 6);
    lemma_bytes_after();
}

proof fn lemma_wf_hash256()
    ensures
        wellformed(Name::Hash256.bytes()),
        name_fault(Name::Hash256.bytes()) is None,
        !wrapped_by(Name::Hash256.bytes(), WRAP_LIKELY),
        !wrapped_by(Name::Hash256.bytes(), WRAP_UNLIKELY),
        !wrapped_by(Name::Hash256.bytes(), WRAP_ALT),
{
    reveal_with_fuel(count, 8);
    lemma_bytes_hash256();
}

proof fn lemma_wf_trueori()
    ensures
        wellformed(Name::TrueOrI.bytes()),
        name_fault(Name::TrueOrI.bytes()) is None,
        !wrapped_by(Name::TrueOrI.bytes(), WRAP_LIKELY),
        !wrapped_by(Name::TrueOrI.bytes(), WRAP_UNLIKELY),
        !wrapped_by(Name::TrueOrI.bytes(), WRAP_ALT),
{
    reveal_with_fuel(count, 7);
    lemma_bytes_trueori();
}

proof fn lemma_wf_pk()
    ensures
        wellformed(Name::Pk.bytes()),
        name_fault(Name::Pk.bytes()) is None,
        !wrapped_by(Name::Pk.bytes(), WRAP_LIKELY),
        !wrapped_by(Name::Pk.bytes(), WRAP_UNLIKELY),
        !wrapped_by(Name::Pk.bytes(), WRAP_ALT),
{
    reveal_with_fuel(count, 3);
    lemma_bytes_pk();
}

proof fn lemma_wf_pkh()
    ensures
        wellformed(Name::Pkh.bytes()),
        name_fault(Name::Pkh.bytes()) is None,
        !wrapped_by(Name::Pkh.bytes(), WRAP_LIKELY),
        !wrapped_by(Name::Pkh.bytes(), WRAP_UNLIKELY),
        !wrapped_by(Name::Pkh.bytes(), WRAP_ALT),
{
    reveal_with_fuel(count, 4);
    lemma_bytes_pkh();
}

proof fn lemma_wf_wpkh()
    ensures
        wellformed(Name::Wpkh.bytes()),
        name_fault(Name::Wpkh.bytes()) is None,
        !wrapped_by(Name::Wpkh.bytes(), WRAP_LIKELY),
        !wrapped_by(Name::Wpkh.bytes(), WRAP_UNLIKELY),
        !wrapped_by(Name::Wpkh.bytes(), WRAP_ALT),
{
    reveal_with_fuel(count, 5);
    lemma_bytes_wpkh();
}

proof fn lemma_wf_sh()
    ensures
        wellformed(Name::Sh.bytes()),
        name_fault(Name::Sh.bytes()) is None,
        !wrapped_by(Name::Sh.bytes(), WRAP_LIKELY),
        !wrapped_by(Name::Sh.bytes(), WRAP_UNLIKELY),
        !wrapped_by(Name::Sh.bytes(), WRAP_ALT),
{
    reveal_with_fuel(count, 3);
    lemma_bytes_sh();
}

proof fn lemma_wf_wsh()
    ensures
        wellformed(Name::Wsh.bytes()),
        name_fault(Name::Wsh.bytes()) is None,
        !wrapped_by(Name::Wsh.bytes(), WRAP_LIKELY),
        !wrapped_by(Name::Wsh.bytes(), WRAP_UNLIKELY),
        !wrapped_by(Name::Wsh.bytes(), WRAP_ALT),
{
    reveal_with_fuel(count, 4);
    lemma_bytes_wsh();
}

proof fn lemma_wf_rawkey()
    ensures
        wellformed(Name::RawKey.bytes()),
        name_fault(Name::RawKey.bytes()) is None,
        !wrapped_by(Name::RawKey.bytes(), WRAP_LIKELY),
        !wrapped_by(Name::RawKey.bytes(), WRAP_UNLIKELY),
        !wrapped_by(Name::RawKey.bytes(), WRAP_ALT),
{
    reveal_with_fuel(count, 5);
    lemma_bytes_rawkey();
}

proof fn lemma_wf_keyhash()
    ensures
        wellformed(Name::KeyHash.bytes()),
        name_fault(Name::KeyHash.bytes()) is None,
        !wrapped_by(Name::KeyHash.bytes(), WRAP_LIKELY),
        !wrapped_by(Name::KeyHash.bytes(), WRAP_UNLIKELY),
        !wrapped_by(Name::KeyHash.bytes(), WRAP_ALT),
{
    reveal_with_fuel(count, 5);
    lemma_bytes_keyhash();
}

proof fn lemma_wf_sha256()
    ensures
        wellformed(Name::Sha256.bytes()),
        name_fault(Name::Sha256.bytes()) is None,
        !wrapped_by(Name::Sha256.bytes(), WRAP_LIKELY),
        !wrapped_by(Name::Sha256.bytes(), WRAP_UNLIKELY),
        !wrapped_by(Name::Sha256.bytes(), WRAP_ALT),
{
    reveal_with_fuel(count, 7);
    lemma_bytes_sha256();
}

proof fn lemma_wf_ripemd160()
    ensures
        wellformed(Name::Ripemd160.bytes()),
        name_fault(Name::Ripemd160.bytes()) is None,
        !wrapped_by(Name::Ripemd160.bytes(), WRAP_LIKELY),
        !wrapped_by(Name::Ripemd160.bytes(), WRAP_UNLIKELY),
        !wrapped_by(Name::Ripemd160.bytes(), WRAP_ALT),
{
    reveal_with_fuel(count, 10);
    lemma_bytes_ripemd160();
}

proof fn lemma_wf_hash160()
    ensures
        wellformed(Name::Hash160.bytes()),
        name_fault(Name::Hash160.bytes()) is None,
        !wrapped_by(Name::Hash160.bytes(), WRAP_LIKELY),
        !wrapped_by(Name::Hash160.bytes(), WRAP_UNLIKELY),
        !wrapped_by(Name::Hash160.bytes(), WRAP_ALT),
{
    reveal_with_fuel(count, 8);
    lemma_bytes_hash160();
}

/// Every name is well formed and is under none of the wrappers that take
/// any fragment.
pub proof fn lemma_wellformed(n: Name)
    requires
        n != Name::Unknown,
    ensures
        wellformed(n.bytes()),
        name_fault(n.bytes()) is None,
        !wrapped_by(n.bytes(), WRAP_LIKELY),
        !wrapped_by(n.bytes(), WRAP_UNLIKELY),
        !wrapped_by(n.bytes(), WRAP_ALT),
{
    match n {
        Name::PkK => lemma_wf_pkk(),
        Name::Multi => lemma_wf_multi(),
        Name::Delay => lemma_wf_delay(),
        Name::Thresh => lemma_wf_thresh(),
        Name::AndB => lemma_wf_andb(),
        Name::AndOr => lemma_wf_andor(),
        Name::OrB => lemma_wf_orb(),
        Name::OrD => lemma_wf_ord(),
        Name::OrI => lemma_wf_ori(),
        Name::SwapPkK => lemma_wf_swappkk(),
        Name::SwapHash => lemma_wf_swaphash(),
        Name::SwapDelay => lemma_wf_swapdelay(),
        Name::VerifyPkK => lemma_wf_verifypkk(),
        Name::VerifyMulti => lemma_wf_verifymulti(),
        Name::VerifyOlder => lemma_wf_verifyolder(),
        Name::VerifyHash => lemma_wf_verifyhash(),
        Name::AndV => lemma_wf_andv(),
        Name::VerifyOrI => lemma_wf_verifyori(),
        Name::OrC => lemma_wf_orc(),
        Name::VerifyThresh => lemma_wf_verifythresh(),
        Name::Older => lemma_wf_older(),
        Name::After => lemma_wf_after(),
        Name::Hash256 => lemma_wf_hash256(),
        Name::TrueOrI => lemma_wf_trueori(),
        Name::Pk => lemma_wf_pk(),
        Name::Pkh => lemma_wf_pkh(),
        Name::Wpkh => lemma_wf_wpkh(),
        Name::Sh => lemma_wf_sh(),
        Name::Wsh => lemma_wf_wsh(),
        Name::RawKey => lemma_wf_rawkey(),
        Name::KeyHash => lemma_wf_keyhash(),
        Name::Sha256 => lemma_wf_sha256(),
        Name::Ripemd160 => lemma_wf_ripemd160(),
        Name::Hash160 => lemma_wf_hash160(),
        Name::Unknown => {},
    }
}

/// A text that is read as a name has the bytes of that name.
pub proof fn lemma_classified(s: Seq<u8>)
    ensures
        classify(s) != Name::Unknown ==> s == classify(s).bytes(),
{
}

/// No name starts with the wrapper of a likely or an unlikely fragment.
pub proof fn lemma_unknown(s: Seq<u8>)
    requires
        s.len() >= 2,
        s[0] == WRAP_LIKELY || s[0] == WRAP_UNLIKELY,
    ensures
        classify(s) == Name::Unknown,
{
    lemma_classified(s);
    lemma_fingerprints();
    let n = classify(s);
    if n != Name::Unknown {
        assert(fingerprint(n.bytes()) == name_print(n));
    }
}

/// How often a byte occurs in two texts one after the other.
pub proof fn lemma_count_concat(a: Seq<u8>, b: Seq<u8>, c: u8)
    ensures
        count(a + b, c) == count(a, c) + count(b, c),
    decreases b.len(),
{
    if b.len() == 0 {
        assert(a + b =~= a);
    } else {
        lemma_count_concat(a, b.drop_last(), c);
        assert((a + b).drop_last() =~= a + b.drop_last());
        assert((a + b).last() == b.last());
    }
}

/// A well-formed name under one more wrapper is well formed, is under that
/// wrapper and no other, and is the name again once the wrapper is taken
/// off.
pub proof fn lemma_wrapped(c: u8, n: Seq<u8>)
    requires
        wellformed(n),
        c == WRAP_LIKELY || c == WRAP_UNLIKELY || c == WRAP_ALT,
    ensures
        wellformed(wrapped(c, n)),
        name_fault(wrapped(c, n)) is None,
        wrapped_by(wrapped(c, n), c),
        unwrapped(wrapped(c, n)) == n,
        wrapped(c, n)[0] == c,
        forall|d: u8| d != c ==> !wrapped_by(wrapped(c, n), d),
{
    reveal_with_fuel(count, 3);
    let head = if count(n, COLON) > 0 {
        seq![c]
    } else {
        seq![c, COLON]
    };
    let w = wrapped(c, n);
    assert(w == head + n);
    lemma_count_concat(head, n, COLON);
    lemma_count_concat(head, n, AT);
    assert(w.last() == n.last());
    if count(n, COLON) > 0 {
        assert(w[1] == n[0]);
        assert(w.subrange(1, w.len() as int) =~= n);
    } else {
        assert(w[1] == COLON);
        assert(w.subrange(2, w.len() as int) =~= n);
    }
    assert forall|i: int| 0 <= i < w.len() implies is_printable(#[trigger] w[i]) && !is_delimiter(
        w[i],
    ) by {
        if i >= head.len() {
            assert(w[i] == n[i - head.len()]);
        }
    }
}

} // verus!
