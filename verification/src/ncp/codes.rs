//! Numeric code tables for the NCP `.ini` profile format.
//!
//! There is no public schema for this format. Every mapping carries a [`Confidence`] that
//! says how it was derived; anything below `High` becomes an import warning, so that a wrong
//! guess fails loud instead of silently negotiating the wrong thing.

use crate::model::{DhGroup, EncAlg, IntegAlg, PrfAlg};
use vstd::prelude::*;

verus! {

#[derive(Debug, Clone, Copy, PartialEq, Eq, Structural)]
pub enum Confidence {
    /// Confirmed against NCP behaviour, its documentation or a standard registry that the
    /// format follows.
    High,
    /// Consistent with conventions and corroborated indirectly, but not confirmed.
    Medium,
    /// Named guess. Must be confirmed by the user before first use.
    Low,
}

/// A mapped value together with how sure the mapping is.
#[derive(Debug, Clone, Copy, PartialEq, Eq, Structural)]
pub struct Mapped<T> {
    pub value: T,
    pub confidence: Confidence,
}

/// A mapping that exists.
pub open spec fn known<T>(value: T, confidence: Confidence) -> Option<Mapped<T>> {
    Some(Mapped { value, confidence })
}

fn mapped<T>(value: T, confidence: Confidence) -> (r: Option<Mapped<T>>)
    ensures
        r == known(value, confidence),
{
    Some(Mapped { value, confidence })
}

/// `ExchMode`: 34 is IKEv2. IKEv1 values are unmapped.
pub open spec fn exch_mode_code(code: int) -> Option<Mapped<bool>> {
    if code == 34 {
        known(true, Confidence::High)
    } else {
        None
    }
}

/// `ExchMode`: the IKE exchange mode. 34 is confirmed as IKEv2.
pub fn exch_mode_is_ikev2(code: u32) -> (r: Option<Mapped<bool>>)
    ensures
        r == exch_mode_code(code as int),
{
    match code {
        34 => mapped(true, Confidence::High),
        _ => None,
    }
}

/// `IKEv2Auth`: the IKEv2 authentication method.
#[derive(Debug, Clone, Copy, PartialEq, Eq, Structural)]
pub enum Ikev2AuthMethod {
    PresharedKey,
}

/// `IKEv2Auth`: 2 is a pre-shared key.
pub open spec fn auth_code(code: int) -> Option<Mapped<Ikev2AuthMethod>> {
    if code == 2 {
        known(Ikev2AuthMethod::PresharedKey, Confidence::High)
    } else {
        None
    }
}

pub fn ikev2_auth(code: u32) -> (r: Option<Mapped<Ikev2AuthMethod>>)
    ensures
        r == auth_code(code as int),
{
    match code {
        2 => mapped(Ikev2AuthMethod::PresharedKey, Confidence::High),
        _ => None,
    }
}

/// `Ikev2Crypt` and `IpsecCrypt`: 6 is AES-256.
pub open spec fn enc_code(code: int) -> Option<Mapped<EncAlg>> {
    if code == 6 {
        known(EncAlg::Aes256, Confidence::High)
    } else {
        None
    }
}

/// `Ikev2Crypt` and `IpsecCrypt`: the encryption algorithm. 6 is confirmed as AES-256.
pub fn enc_alg(code: u32) -> (r: Option<Mapped<EncAlg>>)
    ensures
        r == enc_code(code as int),
{
    match code {
        6 => mapped(EncAlg::Aes256, Confidence::High),
        _ => None,
    }
}

/// `Ikev2PRF`: the IANA IKEv2 PRF transform IDs.
pub open spec fn prf_code(code: int) -> Option<Mapped<PrfAlg>> {
    if code == 2 {
        known(PrfAlg::Sha1, Confidence::Low)
    } else if code == 5 {
        known(PrfAlg::Sha256, Confidence::High)
    } else if code == 6 {
        known(PrfAlg::Sha384, Confidence::Low)
    } else if code == 7 {
        known(PrfAlg::Sha512, Confidence::Low)
    } else {
        None
    }
}

/// `Ikev2PRF`: the pseudo-random function. 5 is confirmed as PRF_HMAC_SHA2_256.
pub fn prf_alg(code: u32) -> (r: Option<Mapped<PrfAlg>>)
    ensures
        r == prf_code(code as int),
{
    match code {
        2 => mapped(PrfAlg::Sha1, Confidence::Low),
        5 => mapped(PrfAlg::Sha256, Confidence::High),
        6 => mapped(PrfAlg::Sha384, Confidence::Low),
        7 => mapped(PrfAlg::Sha512, Confidence::Low),
        _ => None,
    }
}

/// `Ikev2IntAlgo`: the IANA IKEv2 integrity transform IDs.
pub open spec fn ike_integ_code(code: int) -> Option<Mapped<IntegAlg>> {
    if code == 2 {
        known(IntegAlg::Sha1, Confidence::Low)
    } else if code == 12 {
        known(IntegAlg::Sha256, Confidence::High)
    } else if code == 13 {
        known(IntegAlg::Sha384, Confidence::Low)
    } else if code == 14 {
        known(IntegAlg::Sha512, Confidence::Low)
    } else {
        None
    }
}

/// `Ikev2IntAlgo`: the IKE integrity algorithm. 12 is confirmed as HMAC_SHA2_256_128.
pub fn ike_integ_alg(code: u32) -> (r: Option<Mapped<IntegAlg>>)
    ensures
        r == ike_integ_code(code as int),
{
    match code {
        2 => mapped(IntegAlg::Sha1, Confidence::Low),
        12 => mapped(IntegAlg::Sha256, Confidence::High),
        13 => mapped(IntegAlg::Sha384, Confidence::Low),
        14 => mapped(IntegAlg::Sha512, Confidence::Low),
        _ => None,
    }
}

/// `IpsecAuth`: 5 is SHA-256, in a code space of its own.
pub open spec fn esp_integ_code(code: int) -> Option<Mapped<IntegAlg>> {
    if code == 5 {
        known(IntegAlg::Sha256, Confidence::High)
    } else {
        None
    }
}

/// `IpsecAuth`: the ESP integrity algorithm. A different code space from `Ikev2IntAlgo` (5
/// here, 12 there, both SHA-256).
pub fn esp_integ_alg(code: u32) -> (r: Option<Mapped<IntegAlg>>)
    ensures
        r == esp_integ_code(code as int),
{
    match code {
        5 => mapped(IntegAlg::Sha256, Confidence::High),
        _ => None,
    }
}

/// `IkeDhGroup` and `PFS`: the IANA group numbers.
pub open spec fn dh_code(code: int) -> Option<Mapped<DhGroup>> {
    match DhGroup::of_iana(code) {
        Some(g) => known(g, Confidence::High),
        None => None,
    }
}

/// `IkeDhGroup` and `PFS`: the Diffie-Hellman group, by its IANA number.
pub fn dh_group(code: u32) -> (r: Option<Mapped<DhGroup>>)
    ensures
        r == dh_code(code as int),
{
    match DhGroup::from_iana(code) {
        Some(g) => mapped(g, Confidence::High),
        None => None,
    }
}

/// `IkeIdType`: the local IKE identity type, by the IANA IKEv2 ID type registry.
#[derive(Debug, Clone, Copy, PartialEq, Eq, Structural)]
pub enum IkeIdType {
    Ipv4Addr,
    Fqdn,
    UserFqdn,
    KeyId,
}

impl IkeIdType {
    /// The name of the type.
    pub open spec fn label(self) -> Seq<char> {
        match self {
            IkeIdType::Ipv4Addr => "Ipv4Addr"@,
            IkeIdType::Fqdn => "Fqdn"@,
            IkeIdType::UserFqdn => "UserFqdn"@,
            IkeIdType::KeyId => "KeyId"@,
        }
    }

    /// The identity type that the connection carries.
    pub open spec fn declared(self) -> crate::model::IkeIdType {
        match self {
            IkeIdType::Ipv4Addr => crate::model::IkeIdType::Ipv4,
            IkeIdType::Fqdn => crate::model::IkeIdType::Fqdn,
            IkeIdType::UserFqdn => crate::model::IkeIdType::Rfc822,
            IkeIdType::KeyId => crate::model::IkeIdType::KeyId,
        }
    }

    /// The name of the type, as it appears in a warning.
    pub fn name(self) -> (r: &'static str)
        ensures
            r@ == self.label(),
    {
        match self {
            IkeIdType::Ipv4Addr => "Ipv4Addr",
            IkeIdType::Fqdn => "Fqdn",
            IkeIdType::UserFqdn => "UserFqdn",
            IkeIdType::KeyId => "KeyId",
        }
    }

    /// The identity type that the connection carries.
    pub fn to_model(self) -> (r: crate::model::IkeIdType)
        ensures
            r == self.declared(),
    {
        match self {
            IkeIdType::Ipv4Addr => crate::model::IkeIdType::Ipv4,
            IkeIdType::Fqdn => crate::model::IkeIdType::Fqdn,
            IkeIdType::UserFqdn => crate::model::IkeIdType::Rfc822,
            IkeIdType::KeyId => crate::model::IkeIdType::KeyId,
        }
    }
}

/// `IkeIdType`: the IANA ID types 1, 2, 3 and 11.
pub open spec fn id_type_code(code: int) -> Option<Mapped<IkeIdType>> {
    if code == 1 {
        known(IkeIdType::Ipv4Addr, Confidence::Medium)
    } else if code == 2 {
        known(IkeIdType::Fqdn, Confidence::Medium)
    } else if code == 3 {
        known(IkeIdType::UserFqdn, Confidence::High)
    } else if code == 11 {
        known(IkeIdType::KeyId, Confidence::Medium)
    } else {
        None
    }
}

/// The identity type of a code. 3 is confirmed with a bare token that is no mail address.
pub fn ike_id_type(code: u32) -> (r: Option<Mapped<IkeIdType>>)
    ensures
        r == id_type_code(code as int),
{
    match code {
        1 => mapped(IkeIdType::Ipv4Addr, Confidence::Medium),
        2 => mapped(IkeIdType::Fqdn, Confidence::Medium),
        3 => mapped(IkeIdType::UserFqdn, Confidence::High),
        11 => mapped(IkeIdType::KeyId, Confidence::Medium),
        _ => None,
    }
}

/// `IpAddrAssign`: 0 is an address assigned by the server.
pub open spec fn assign_code(code: int) -> Option<Mapped<bool>> {
    if code == 0 {
        known(true, Confidence::High)
    } else {
        None
    }
}

/// `IpAddrAssign`: virtual IP assignment. 0 is confirmed as server-assigned.
pub fn ip_addr_assign_is_server(code: u32) -> (r: Option<Mapped<bool>>)
    ensures
        r == assign_code(code as int),
{
    match code {
        0 => mapped(true, Confidence::High),
        _ => None,
    }
}

/// What each code that is known means: AES-256 is 6, and the PRFs, the IKE hashes, the groups and the
/// identity types go by their IANA numbers. Only what was seen on a gateway is taken as confirmed.
pub proof fn law_codes_mean_what_the_registry_says(code: int)
    ensures
        exch_mode_code(code) is Some <==> code == 34,
        auth_code(code) is Some <==> code == 2,
        assign_code(code) is Some <==> code == 0,
        assign_code(code) matches Some(m) ==> m.value,
        enc_code(code) is Some <==> code == 6,
        enc_code(code) matches Some(m) ==> m.value == EncAlg::Aes256,
        esp_integ_code(code) is Some <==> code == 5,
        esp_integ_code(code) matches Some(m) ==> m.value == IntegAlg::Sha256,
        prf_code(code) matches Some(m) ==> {
            ||| code == 2 && m.value == PrfAlg::Sha1
            ||| code == 5 && m.value == PrfAlg::Sha256
            ||| code == 6 && m.value == PrfAlg::Sha384
            ||| code == 7 && m.value == PrfAlg::Sha512
        },
        prf_code(code) is None ==> code != 2 && code != 5 && code != 6 && code != 7,
        prf_code(code) matches Some(m) ==> (m.confidence == Confidence::High <==> code == 5),
        ike_integ_code(code) matches Some(m) ==> {
            ||| code == 2 && m.value == IntegAlg::Sha1
            ||| code == 12 && m.value == IntegAlg::Sha256
            ||| code == 13 && m.value == IntegAlg::Sha384
            ||| code == 14 && m.value == IntegAlg::Sha512
        },
        ike_integ_code(code) is None ==> code != 2 && code != 12 && code != 13 && code != 14,
        ike_integ_code(code) matches Some(m) ==> (m.confidence == Confidence::High <==> code == 12),
        dh_code(code) matches Some(m) ==> {
            ||| code == 2 && m.value == DhGroup::Modp1024
            ||| code == 5 && m.value == DhGroup::Modp1536
            ||| code == 14 && m.value == DhGroup::Modp2048
            ||| code == 15 && m.value == DhGroup::Modp3072
            ||| code == 16 && m.value == DhGroup::Modp4096
            ||| code == 19 && m.value == DhGroup::Ecp256
            ||| code == 20 && m.value == DhGroup::Ecp384
        },
        id_type_code(code) matches Some(m) ==> {
            ||| code == 1 && m.value.declared() == crate::model::IkeIdType::Ipv4
            ||| code == 2 && m.value.declared() == crate::model::IkeIdType::Fqdn
            ||| code == 3 && m.value.declared() == crate::model::IkeIdType::Rfc822
            ||| code == 11 && m.value.declared() == crate::model::IkeIdType::KeyId
        },
        id_type_code(code) is None ==> code != 1 && code != 2 && code != 3 && code != 11,
        id_type_code(code) matches Some(m) ==> (m.confidence == Confidence::High <==> code == 3),
{
}

/// Every group that has an IANA number here is known under it, and all of them, with the one cipher
/// and the one hash for ESP, are confirmed; every other PRF or hash for IKE is the weakest guess.
/// Each type of identity has its own name.
pub proof fn law_confidence_is_what_was_seen(code: int)
    ensures
        dh_code(code) is Some <==> code == 2 || code == 5 || code == 14 || code == 15 || code == 16
            || code == 19 || code == 20,
        dh_code(code) matches Some(m) ==> m.confidence == Confidence::High,
        enc_code(code) matches Some(m) ==> m.confidence == Confidence::High,
        esp_integ_code(code) matches Some(m) ==> m.confidence == Confidence::High,
        exch_mode_code(code) matches Some(m) ==> m.value && m.confidence == Confidence::High,
        auth_code(code) matches Some(m) ==> m.confidence == Confidence::High,
        assign_code(code) matches Some(m) ==> m.confidence == Confidence::High,
        prf_code(code) matches Some(m) ==> (m.confidence == Confidence::Low <==> code != 5),
        ike_integ_code(code) matches Some(m) ==> (m.confidence == Confidence::Low <==> code != 12),
        id_type_code(code) matches Some(m) ==> (m.confidence == Confidence::Medium <==> code != 3),
        id_type_code(1) matches Some(m) && m.value.label() == "Ipv4Addr"@,
        id_type_code(2) matches Some(m) && m.value.label() == "Fqdn"@,
        id_type_code(3) matches Some(m) && m.value.label() == "UserFqdn"@,
        id_type_code(11) matches Some(m) && m.value.label() == "KeyId"@,
{
}

} // verus!
