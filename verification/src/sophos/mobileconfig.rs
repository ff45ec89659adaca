//! Importer for the Apple `.mobileconfig` that the Sophos user portal hands out for IPsec.
//!
//! It is an XML property list with a `com.apple.vpn.managed` payload whose `VPNType` is
//! `IPSec`: Apple's name for a Cisco-style tunnel, which is IKEv1 with XAuth. The file
//! carries neither the algorithms nor the remote subnets; both are assumed, with a warning.
//! `IPSec.SharedSecret` is a live pre-shared key.

use crate::control::flow::refusal;
use crate::import::{
    is_gateway, is_internal_gateway, is_private, valid_gateway, ImportedProfile, ProfileView,
    Warnings,
};
use crate::model::{
    opt_view, AuthMethod, ConfigView, ConnectionConfig, DhGroup, DnsConfig, DnsView, DpdConfig,
    EncAlg, IkeVersion, IntegAlg, PrfAlg, Secret, UserAuth, UserAuthView,
};
use crate::property_list::{document, parse_xml, Plist, PlistView};
use crate::sophos::error::{ErrorView, ImportError};
use crate::sophos::scx::note;
use crate::text::{
    begins, contains, debug_quoted, has, head, head_of, quote_debug, same, same_ignoring_case,
    same_nocase, starts_with, trim, trim_start, trimmed, trimmed_start, utf8_text,
};
use vstd::prelude::*;
use vstd::utf8::{decode_utf8, encode_utf8, valid_utf8};

verus! {

/// The largest input, in bytes, that is read; a real `.mobileconfig` is a few kilobytes.
pub const MAX_INPUT_LEN: usize = 1_048_576;

/// Whether a text looks like an Apple configuration profile with a VPN payload.
pub open spec fn is_mobileconfig(input: Seq<char>) -> bool {
    let head = trimmed_start(head_of(input, 4096));
    (begins(head, "<?xml"@) || begins(head, "<plist"@)) && has(input, "com.apple.vpn.managed"@)
}

/// Whether a text looks like an Apple configuration profile with a VPN payload.
pub fn looks_like(input: &str) -> (r: bool)
    ensures
        r == is_mobileconfig(input@),
{
    let h = trim_start(head(input, 4096).as_str());
    (starts_with(h.as_str(), "<?xml") || starts_with(h.as_str(), "<plist")) && contains(
        input,
        "com.apple.vpn.managed",
    )
}

/// The text under a key, trimmed, when it is not blank.
pub open spec fn filled_text(p: PlistView, key: Seq<char>) -> Option<Seq<char>> {
    match p.get_text(key) {
        Some(s) => if trimmed(s).len() > 0 {
            Some(trimmed(s))
        } else {
            None
        },
        None => None,
    }
}

fn get_filled(p: &Plist, key: &str) -> (r: Option<String>)
    ensures
        opt_view(r) == filled_text(p@, key@),
{
    match p.get_text(key) {
        Some(s) => {
            let t = trim(s);
            if t.as_str().is_empty() {
                None
            } else {
                Some(t)
            }
        },
        None => None,
    }
}

/// The text under a key, or nothing.
pub open spec fn text_or_empty(p: PlistView, key: Seq<char>) -> Seq<char> {
    match p.get_text(key) {
        Some(s) => s,
        None => Seq::empty(),
    }
}

fn get_or_empty(p: &Plist, key: &str) -> (r: String)
    ensures
        r@ == text_or_empty(p@, key@),
{
    match p.get_text(key) {
        Some(s) => s.to_owned(),
        None => String::new(),
    }
}

/// Whether a payload is a VPN of any kind.
pub open spec fn is_vpn_payload(p: PlistView) -> bool {
    p is Dictionary && text_or_empty(p, "PayloadType"@) == "com.apple.vpn.managed"@
}

/// The kind of VPN that a payload describes.
pub open spec fn vpn_type(p: PlistView) -> Seq<char> {
    trimmed(text_or_empty(p, "VPNType"@))
}

/// Whether a payload is the IPsec VPN.
pub open spec fn is_ipsec_payload(p: PlistView) -> bool {
    is_vpn_payload(p) && same_nocase(vpn_type(p), "IPSec"@) && p.get("IPSec"@) is Some
}

/// The first IPsec payload from position `i` on; without one, the kind of the last VPN payload
/// that is something else.
pub open spec fn payload_from(v: Seq<PlistView>, i: int, other: Option<Seq<char>>) -> Result<
    PlistView,
    ErrorView,
>
    decreases v.len() - i,
{
    if i < 0 || i >= v.len() {
        match other {
            Some(kind) => Err(
                ErrorView::Unsupported(
                    "a VPN payload of type "@ + debug_quoted(kind)
                        + " (only the Cisco-IPsec/IKEv1 profile these portals export is implemented)"@,
                ),
            ),
            None => Err(ErrorView::MissingField("an IPsec VPN payload"@)),
        }
    } else if is_ipsec_payload(v[i]) {
        Ok(v[i])
    } else if is_vpn_payload(v[i]) {
        payload_from(v, i + 1, Some(vpn_type(v[i])))
    } else {
        payload_from(v, i + 1, other)
    }
}

/// Finds the payload that describes an IPsec tunnel. A profile with an IKEv2 payload alone is
/// refused: importing it as IKEv1 would negotiate the wrong thing.
fn find_vpn_payload(payloads: &Vec<Plist>) -> (r: Result<&Plist, ImportError>)
    ensures
        match r {
            Ok(p) => payload_from(
                Seq::new(payloads@.len(), |i: int| payloads@[i]@),
                0,
                None,
            ) == Ok::<PlistView, ErrorView>(p@),
            Err(e) => payload_from(
                Seq::new(payloads@.len(), |i: int| payloads@[i]@),
                0,
                None,
            ) == Err::<PlistView, ErrorView>(e@),
        },
{
    let ghost all = Seq::new(payloads@.len(), |i: int| payloads@[i]@);
    let mut other: Option<String> = None;
    let mut i: usize = 0;
    while i < payloads.len()
        invariant
            i <= payloads@.len(),
            all == Seq::new(payloads@.len(), |i: int| payloads@[i]@),
            payload_from(all, 0, None) == payload_from(all, i as int, opt_view(other)),
        decreases payloads@.len() - i,
    {
        let p = &payloads[i];
        assert(all[i as int] == p@);
        let is_dictionary: bool = match p {
            Plist::Dictionary(_) => true,
            _ => false,
        };
        if is_dictionary && same(
            get_or_empty(p, "PayloadType").as_str(),
            "com.apple.vpn.managed",
        ) {
            let kind = trim(get_or_empty(p, "VPNType").as_str());
            if same_ignoring_case(kind.as_str(), "IPSec") && p.get("IPSec").is_some() {
                return Ok(p);
            }
            other = Some(kind);
        }
        i = i + 1;
    }
    match other {
        Some(kind) => {
            let mut s = "a VPN payload of type ".to_owned();
            s.append(quote_debug(kind.as_str()).as_str());
            s.append(
                " (only the Cisco-IPsec/IKEv1 profile these portals export is implemented)",
            );
            Err(ImportError::Unsupported(s))
        },
        None => Err(ImportError::MissingField("an IPsec VPN payload")),
    }
}

/// The gateway to dial.
pub open spec fn gateway_of(ipsec: PlistView) -> Result<Seq<char>, ErrorView> {
    match filled_text(ipsec, "RemoteAddress"@) {
        None => Err(ErrorView::MissingField("IPSec.RemoteAddress"@)),
        Some(gw) => if !is_gateway(gw) {
            Err(
                ErrorView::BadValue {
                    field: "IPSec.RemoteAddress"@,
                    value: gw,
                    why: "contains characters that are not valid in a host name or address"@,
                },
            )
        } else {
            Ok(gw)
        },
    }
}

fn import_gateway(ipsec: &Plist) -> (r: Result<String, ImportError>)
    ensures
        match r {
            Ok(g) => gateway_of(ipsec@) == Ok::<Seq<char>, ErrorView>(g@),
            Err(e) => gateway_of(ipsec@) == Err::<Seq<char>, ErrorView>(e@),
        },
{
    match get_filled(ipsec, "RemoteAddress") {
        None => Err(ImportError::MissingField("IPSec.RemoteAddress")),
        Some(gw) => if !valid_gateway(gw.as_str()) {
            Err(
                ImportError::BadValue {
                    field: "IPSec.RemoteAddress",
                    value: gw,
                    why: "contains characters that are not valid in a host name or address",
                },
            )
        } else {
            Ok(gw)
        },
    }
}

/// The pre-shared key: text in a data element. The error never carries the key.
pub open spec fn secret_of(ipsec: PlistView) -> Result<Seq<char>, ErrorView> {
    let method = trimmed(text_or_empty(ipsec, "AuthenticationMethod"@));
    if !same_nocase(method, "SharedSecret"@) {
        Err(
            ErrorView::Unsupported(
                "IPsec authentication method "@ + debug_quoted(method)
                    + " (only SharedSecret / pre-shared key is implemented)"@,
            ),
        )
    } else {
        match ipsec.get("SharedSecret"@) {
            Some(PlistView::Data(bytes)) => if !valid_utf8(bytes) {
                Err(
                    ErrorView::BadValue {
                        field: "IPSec.SharedSecret"@,
                        value: "<binary>"@,
                        why: "the pre-shared key is not valid UTF-8"@,
                    },
                )
            } else if trimmed(decode_utf8(bytes)).len() == 0 {
                Err(ErrorView::EmptyField("IPSec.SharedSecret"@))
            } else {
                Ok(trimmed(decode_utf8(bytes)))
            },
            _ => Err(ErrorView::MissingField("IPSec.SharedSecret"@)),
        }
    }
}

fn import_secret(ipsec: &Plist) -> (r: Result<Secret, ImportError>)
    ensures
        match r {
            Ok(s) => secret_of(ipsec@) == Ok::<Seq<char>, ErrorView>(s@),
            Err(e) => secret_of(ipsec@) == Err::<Seq<char>, ErrorView>(e@),
        },
{
    let method = trim(get_or_empty(ipsec, "AuthenticationMethod").as_str());
    if !same_ignoring_case(method.as_str(), "SharedSecret") {
        let mut s = "IPsec authentication method ".to_owned();
        s.append(quote_debug(method.as_str()).as_str());
        s.append(" (only SharedSecret / pre-shared key is implemented)");
        return Err(ImportError::Unsupported(s));
    }
    match ipsec.get("SharedSecret") {
        Some(Plist::Data(bytes)) => match utf8_text(bytes.as_slice()) {
            None => Err(
                ImportError::BadValue {
                    field: "IPSec.SharedSecret",
                    value: "<binary>".to_owned(),
                    why: "the pre-shared key is not valid UTF-8",
                },
            ),
            Some(text) => {
                let key = trim(text);
                if key.as_str().is_empty() {
                    Err(ImportError::EmptyField("IPSec.SharedSecret"))
                } else {
                    Ok(Secret::new(key))
                }
            },
        },
        _ => Err(ImportError::MissingField("IPSec.SharedSecret")),
    }
}

/// Whether the second authentication round is required.
pub open spec fn wants_xauth(ipsec: PlistView) -> bool {
    match ipsec.get("XAuthEnabled"@) {
        Some(PlistView::Integer(Some(n))) => n != 0,
        _ => false,
    }
}

fn is_xauth_enabled(ipsec: &Plist) -> (r: bool)
    ensures
        r == wants_xauth(ipsec@),
{
    match ipsec.get("XAuthEnabled") {
        Some(Plist::Integer(Some(n))) => *n != 0,
        _ => false,
    }
}

/// The warnings: a gateway that answers only from inside, XAuth, and what was assumed.
pub open spec fn notes_of(ipsec: PlistView, gateway: Seq<char>) -> Seq<Seq<char>> {
    note(
        is_internal_gateway(gateway),
        "the profile dials "@ + gateway
            + ", a private address — it will only connect from inside that network, or over another tunnel that reaches it"@,
    ) + note(
        wants_xauth(ipsec),
        "the gateway requires XAuth; you will be asked for a username and password on connect"@,
    ) + seq![
        "the profile states no encryption algorithms (iOS negotiates its own); proposing AES-256/SHA2-256 with DH group 14, plus stronger alternatives — verify on first connect"@,
        "the profile names no remote networks — unlike a Sophos Connect (.scx) export, an iOS profile does not list them. Add the subnet(s) you need to reach before connecting, or choose to route all traffic through the VPN"@,
    ]
}

fn import_notes(ipsec: &Plist, gateway: &str) -> (r: Warnings)
    ensures
        r@ == notes_of(ipsec@, gateway@),
{
    let mut warn = Warnings::new();
    if is_private(gateway) {
        let mut s = "the profile dials ".to_owned();
        s.append(gateway);
        s.append(
            ", a private address — it will only connect from inside that network, or over another tunnel that reaches it",
        );
        warn.warn(s);
    }
    if is_xauth_enabled(ipsec) {
        warn.warn(
            "the gateway requires XAuth; you will be asked for a username and password on connect".to_owned(),
        );
    }
    warn.warn(
        "the profile states no encryption algorithms (iOS negotiates its own); proposing AES-256/SHA2-256 with DH group 14, plus stronger alternatives — verify on first connect".to_owned(),
    );
    warn.warn(
        "the profile names no remote networks — unlike a Sophos Connect (.scx) export, an iOS profile does not list them. Add the subnet(s) you need to reach before connecting, or choose to route all traffic through the VPN".to_owned(),
    );
    assert(warn@ =~= notes_of(ipsec@, gateway@));
    warn
}

/// What an IPsec payload comes to. No networks are imported: a full tunnel must be chosen
/// explicitly.
pub open spec fn imported_payload(vpn: PlistView) -> Result<ProfileView, ErrorView> {
    match vpn.get("IPSec"@) {
        Some(ipsec) => if ipsec !is Dictionary {
            Err(ErrorView::MissingField("IPSec"@))
        } else {
            match gateway_of(ipsec) {
                Err(e) => Err(e),
                Ok(gateway) => match secret_of(ipsec) {
                    Err(e) => Err(e),
                    Ok(secret) => Ok(
                        ProfileView {
                            config: ConfigView {
                                name: match filled_text(vpn, "UserDefinedName"@) {
                                    Some(n) => n,
                                    None => "Sophos VPN"@,
                                },
                                gateway,
                                local_id: None,
                                local_id_type: None,
                                secret,
                                ike_version: IkeVersion::V1,
                                user_auth: if wants_xauth(ipsec) {
                                    Some(
                                        UserAuthView {
                                            username: filled_text(ipsec, "XAuthName"@),
                                            can_save: true,
                                            otp: false,
                                        },
                                    )
                                } else {
                                    None
                                },
                                ike_enc: EncAlg::Aes256,
                                ike_integ: IntegAlg::Sha256,
                                ike_prf: PrfAlg::Sha256,
                                ike_dh: DhGroup::Modp2048,
                                esp_enc: EncAlg::Aes256,
                                esp_integ: IntegAlg::Sha256,
                                pfs: Some(DhGroup::Modp2048),
                                remote_subnets: Seq::empty(),
                                request_virtual_ip: true,
                                compression: false,
                                dpd: DpdConfig { delay_secs: 30, auto_reconnect: true },
                                dns: DnsView { servers: Seq::empty(), domain: None },
                            },
                            warnings: notes_of(ipsec, gateway),
                        },
                    ),
                },
            }
        },
        None => Err(ErrorView::MissingField("IPSec"@)),
    }
}

fn import_payload(vpn: &Plist) -> (r: Result<ImportedProfile, ImportError>)
    ensures
        match r {
            Ok(p) => imported_payload(vpn@) == Ok::<ProfileView, ErrorView>(p@),
            Err(e) => imported_payload(vpn@) == Err::<ProfileView, ErrorView>(e@),
        },
{
    let ipsec = match vpn.get("IPSec") {
        Some(p) => p,
        None => {
            return Err(ImportError::MissingField("IPSec"));
        },
    };
    if let Plist::Dictionary(_) = ipsec {
    } else {
        return Err(ImportError::MissingField("IPSec"));
    }
    let gateway = import_gateway(ipsec)?;
    let secret = import_secret(ipsec)?;
    let user_auth = if is_xauth_enabled(ipsec) {
        Some(UserAuth { username: get_filled(ipsec, "XAuthName"), can_save: true, otp: false })
    } else {
        None
    };
    let name = match get_filled(vpn, "UserDefinedName") {
        Some(n) => n,
        None => "Sophos VPN".to_owned(),
    };
    let warn = import_notes(ipsec, gateway.as_str());
    let config = ConnectionConfig {
        name,
        gateway,
        local_id: None,
        local_id_type: None,
        auth: AuthMethod::PresharedKey(secret),
        ike_version: IkeVersion::V1,
        user_auth,
        ike_enc: EncAlg::Aes256,
        ike_integ: IntegAlg::Sha256,
        ike_prf: PrfAlg::Sha256,
        ike_dh: DhGroup::Modp2048,
        esp_enc: EncAlg::Aes256,
        esp_integ: IntegAlg::Sha256,
        pfs: Some(DhGroup::Modp2048),
        remote_subnets: Vec::new(),
        request_virtual_ip: true,
        compression: false,
        dpd: DpdConfig { delay_secs: 30, auto_reconnect: true },
        dns: DnsConfig::default(),
    };
    assert(config@.remote_subnets =~= Seq::empty());
    assert(config@ == (imported_payload(vpn@)->Ok_0).config);
    Ok(ImportedProfile { config, warnings: warn.into_vec() })
}

/// What a property list comes to.
pub open spec fn imported_plist(root: PlistView) -> Result<ProfileView, ErrorView> {
    if root !is Dictionary {
        Err(ErrorView::Plist("the property list is not a dictionary"@))
    } else {
        match root.get("PayloadContent"@) {
            Some(PlistView::Array(payloads)) => match payload_from(payloads, 0, None) {
                Err(e) => Err(e),
                Ok(vpn) => imported_payload(vpn),
            },
            _ => Err(ErrorView::MissingField("PayloadContent"@)),
        }
    }
}

/// Imports a property list that is a configuration profile.
pub fn import_plist(root: &Plist) -> (r: Result<ImportedProfile, ImportError>)
    ensures
        match r {
            Ok(p) => imported_plist(root@) == Ok::<ProfileView, ErrorView>(p@),
            Err(e) => imported_plist(root@) == Err::<ProfileView, ErrorView>(e@),
        },
{
    if let Plist::Dictionary(_) = root {
    } else {
        return Err(ImportError::Plist("the property list is not a dictionary".to_owned()));
    }
    match root.get("PayloadContent") {
        Some(Plist::Array(payloads)) => {
            assert((root@.get("PayloadContent"@)->0)->Array_0 =~= Seq::new(
                payloads@.len(),
                |i: int| payloads@[i]@,
            ));
            let vpn = find_vpn_payload(payloads)?;
            import_payload(vpn)
        },
        _ => Err(ImportError::MissingField("PayloadContent")),
    }
}

/// What the text of a configuration profile comes to.
pub open spec fn imported_text(input: Seq<char>) -> Result<ProfileView, ErrorView> {
    if encode_utf8(input).len() > MAX_INPUT_LEN {
        Err(ErrorView::TooLarge(MAX_INPUT_LEN as int))
    } else {
        match document(encode_utf8(input)) {
            Err(e) => Err(ErrorView::Plist(e)),
            Ok(root) => imported_plist(root),
        }
    }
}

/// Imports a `.mobileconfig`.
pub fn import(input: &str) -> (r: Result<ImportedProfile, ImportError>)
    ensures
        match r {
            Ok(p) => imported_text(input@) == Ok::<ProfileView, ErrorView>(p@),
            Err(e) => imported_text(input@) == Err::<ProfileView, ErrorView>(e@),
        },
{
    if input.as_bytes().len() > MAX_INPUT_LEN {
        return Err(ImportError::TooLarge(MAX_INPUT_LEN));
    }
    match parse_xml(input.as_bytes()) {
        Ok(root) => import_plist(&root),
        Err(e) => Err(ImportError::Plist(e)),
    }
}

/// A profile that imports names a gateway that is fit to be dialled.
pub proof fn law_imported_gateway_can_be_dialled(root: PlistView)
    ensures
        imported_plist(root) matches Ok(x) ==> is_gateway(x.config.gateway),
{
}

/// A profile of this format never implies a full tunnel: it names no networks, so a connect is
/// refused until some are chosen.
pub proof fn law_full_tunnel_is_never_implied(root: PlistView, has_password: bool)
    ensures
        imported_plist(root) matches Ok(x) ==> x.config.remote_subnets.len() == 0 && refusal(
            x.config,
            has_password,
        ) is Some,
{
}

/// Whether two IPsec dictionaries differ in nothing but the value of a pre-shared key that is
/// there, not text, or blank in both.
pub open spec fn differ_in_secret(a: PlistView, b: PlistView) -> bool {
    &&& a is Dictionary
    &&& b is Dictionary
    &&& match (a.get("SharedSecret"@), b.get("SharedSecret"@)) {
        (Some(PlistView::Data(x)), Some(PlistView::Data(y))) => {
            &&& valid_utf8(x) <==> valid_utf8(y)
            &&& trimmed(decode_utf8(x)).len() == 0 <==> trimmed(decode_utf8(y)).len() == 0
        },
        _ => false,
    }
    &&& forall|k: Seq<char>| k != "SharedSecret"@ ==> #[trigger] a.get(k) == b.get(k)
}

/// Nothing that an import says or decides, but for the key itself, depends on the pre-shared key:
/// no warning and no error can repeat it.
pub proof fn law_import_findings_hide_the_secret(vpn: PlistView, other: PlistView)
    requires
        vpn.get("IPSec"@) is Some,
        other.get("IPSec"@) is Some,
        differ_in_secret(vpn.get("IPSec"@)->0, other.get("IPSec"@)->0),
        vpn.get("UserDefinedName"@) == other.get("UserDefinedName"@),
    ensures
        match (imported_payload(vpn), imported_payload(other)) {
            (Ok(x), Ok(y)) => {
                &&& x.warnings == y.warnings
                &&& y.config == (ConfigView { secret: y.config.secret, ..x.config })
            },
            (Err(e), Err(f)) => e == f,
            _ => false,
        },
{
    reveal_strlit("SharedSecret");
    reveal_strlit("RemoteAddress");
    reveal_strlit("AuthenticationMethod");
    reveal_strlit("XAuthEnabled");
    reveal_strlit("XAuthName");
    assert("SharedSecret"@[0] == 'S' && "XAuthEnabled"@[0] == 'X');
    let a = vpn.get("IPSec"@)->0;
    let b = other.get("IPSec"@)->0;
    assert(a.get("RemoteAddress"@) == b.get("RemoteAddress"@));
    assert(a.get("AuthenticationMethod"@) == b.get("AuthenticationMethod"@));
    assert(a.get("XAuthEnabled"@) == b.get("XAuthEnabled"@));
    assert(a.get("XAuthName"@) == b.get("XAuthName"@));
    assert(gateway_of(a) == gateway_of(b));
    assert(wants_xauth(a) == wants_xauth(b));
}

/// A gateway that answers only from inside is reported: the address of the warning is the one that
/// is dialled.
pub proof fn law_private_gateway_is_reported(root: PlistView)
    ensures
        imported_plist(root) matches Ok(x) ==> (is_internal_gateway(x.config.gateway) ==> exists|
            i: int,
        |
            0 <= i < x.warnings.len() && begins(
                #[trigger] x.warnings[i],
                "the profile dials "@ + x.config.gateway + ", a private address"@,
            )),
{
    if let Ok(x) = imported_plist(root) {
        if is_internal_gateway(x.config.gateway) {
            let head = "the profile dials "@ + x.config.gateway + ", a private address"@;
            reveal_strlit(", a private address");
            reveal_strlit(
                ", a private address — it will only connect from inside that network, or over another tunnel that reaches it",
            );
            assert(x.warnings[0].take(head.len() as int) =~= head);
        }
    }
}

/// Whether a payload is the first in a list that describes an IPsec VPN: a managed VPN of that kind,
/// with its settings.
pub open spec fn is_first_ipsec(v: Seq<PlistView>, p: PlistView) -> bool {
    exists|i: int|
        0 <= i < v.len() && #[trigger] v[i] == p && is_ipsec_payload(p) && forall|j: int|
            0 <= j < i ==> !is_ipsec_payload(#[trigger] v[j])
}

proof fn lemma_first_ipsec(v: Seq<PlistView>, i: int, other: Option<Seq<char>>)
    requires
        0 <= i <= v.len(),
        forall|j: int| 0 <= j < i ==> !is_ipsec_payload(#[trigger] v[j]),
    ensures
        payload_from(v, i, other) matches Ok(p) ==> is_first_ipsec(v, p),
        payload_from(v, i, other) is Err ==> forall|j: int|
            0 <= j < v.len() ==> !is_ipsec_payload(#[trigger] v[j]),
    decreases v.len() - i,
{
    if i < v.len() && !is_ipsec_payload(v[i]) {
        if is_vpn_payload(v[i]) {
            lemma_first_ipsec(v, i + 1, Some(vpn_type(v[i])));
        } else {
            lemma_first_ipsec(v, i + 1, other);
        }
    }
}

/// The connection is what the first IPsec payload of the profile says: its name, the address that it
/// dials, its key, and the interactive round with its user name exactly where XAuth is on. It speaks
/// IKEv1, and what the format does not state is the one algorithm set that these gateways expect.
pub proof fn law_connection_is_what_the_payload_says(root: PlistView)
    ensures
        imported_plist(root) matches Ok(x) ==> root.get("PayloadContent"@) matches Some(
            PlistView::Array(v),
        ) && exists|vpn: PlistView|
            #[trigger] is_first_ipsec(v, vpn) && {
                let c = x.config;
                &&& vpn.get("PayloadType"@) == Some(PlistView::Text("com.apple.vpn.managed"@))
                &&& vpn.get("VPNType"@) matches Some(PlistView::Text(t)) && same_nocase(
                    trimmed(t),
                    "IPSec"@,
                )
                &&& vpn.get("IPSec"@) matches Some(ipsec) && {
                    &&& ipsec.get("RemoteAddress"@) matches Some(PlistView::Text(t)) && c.gateway
                        == trimmed(t)
                    &&& ipsec.get("SharedSecret"@) matches Some(PlistView::Data(b)) && valid_utf8(b)
                        && c.secret == trimmed(decode_utf8(b)) && c.secret.len() > 0
                    &&& c.user_auth is Some <==> (ipsec.get("XAuthEnabled"@) matches Some(
                        PlistView::Integer(Some(n)),
                    ) && n != 0)
                    &&& c.user_auth matches Some(u) ==> u.can_save && !u.otp && (match u.username {
                        Some(name) => name.len() > 0 && (ipsec.get("XAuthName"@) matches Some(
                            PlistView::Text(t),
                        ) && name == trimmed(t)),
                        None => ipsec.get("XAuthName"@) matches Some(PlistView::Text(t))
                            ==> trimmed(t).len() == 0,
                    })
                }
                &&& vpn.get("UserDefinedName"@) matches Some(PlistView::Text(t)) ==> (trimmed(
                    t,
                ).len() > 0 ==> c.name == trimmed(t))
                &&& c.name.len() > 0
                &&& c.ike_version == IkeVersion::V1 && c.local_id is None
                &&& c.ike_enc == EncAlg::Aes256 && c.ike_integ == IntegAlg::Sha256 && c.ike_prf
                    == PrfAlg::Sha256 && c.ike_dh == DhGroup::Modp2048
                &&& c.esp_enc == EncAlg::Aes256 && c.esp_integ == IntegAlg::Sha256 && c.pfs == Some(
                    DhGroup::Modp2048,
                )
                &&& c.request_virtual_ip && !c.compression && c.dpd.delay_secs == 30
                    && c.dpd.auto_reconnect && c.dns.servers.len() == 0 && c.dns.domain is None
            },
{
    if let Ok(x) = imported_plist(root) {
        let v = root.get("PayloadContent"@)->0->Array_0;
        lemma_first_ipsec(v, 0, None);
        let vpn = payload_from(v, 0, None)->Ok_0;
        assert(is_first_ipsec(v, vpn));
        reveal_strlit("Sophos VPN");
        reveal_strlit("com.apple.vpn.managed");
        reveal_strlit("IPSec");
        assert(crate::text::lowercase("IPSec"@).len() == 5);
        assert(trimmed(Seq::<char>::empty()) == Seq::<char>::empty());
        assert(crate::text::lowercase(Seq::<char>::empty()).len() == 0);
    }
}

/// A payload that cannot be imported is refused for the first thing that is wrong with it: its
/// address, the method of authentication, or the key.
pub proof fn law_payload_is_refused_by_its_field(ipsec: PlistView, t: Seq<char>, b: Seq<u8>)
    ensures
        filled_text(ipsec, "RemoteAddress"@) is None ==> gateway_of(ipsec) == Err::<
            Seq<char>,
            ErrorView,
        >(ErrorView::MissingField("IPSec.RemoteAddress"@)),
        ipsec.get("RemoteAddress"@) == Some(PlistView::Text(t)) && trimmed(t).len() > 0
            && !is_gateway(trimmed(t)) ==> gateway_of(ipsec) == Err::<Seq<char>, ErrorView>(
            ErrorView::BadValue {
                field: "IPSec.RemoteAddress"@,
                value: trimmed(t),
                why: "contains characters that are not valid in a host name or address"@,
            },
        ),
        ipsec.get("RemoteAddress"@) == Some(PlistView::Text(t)) && is_gateway(trimmed(t))
            ==> gateway_of(ipsec) == Ok::<Seq<char>, ErrorView>(trimmed(t)),
        ipsec.get("AuthenticationMethod"@) == Some(PlistView::Text(t)) && !same_nocase(
            trimmed(t),
            "SharedSecret"@,
        ) ==> secret_of(ipsec) == Err::<Seq<char>, ErrorView>(
            ErrorView::Unsupported(
                "IPsec authentication method "@ + debug_quoted(trimmed(t))
                    + " (only SharedSecret / pre-shared key is implemented)"@,
            ),
        ),
        ipsec.get("AuthenticationMethod"@) == Some(PlistView::Text(t)) && same_nocase(
            trimmed(t),
            "SharedSecret"@,
        ) ==> {
            let key = ipsec.get("SharedSecret"@);
            &&& !(key is Some && key->0 is Data) ==> secret_of(ipsec) == Err::<
                Seq<char>,
                ErrorView,
            >(ErrorView::MissingField("IPSec.SharedSecret"@))
            &&& key == Some(PlistView::Data(b)) && !valid_utf8(b) ==> secret_of(ipsec) == Err::<
                Seq<char>,
                ErrorView,
            >(
                ErrorView::BadValue {
                    field: "IPSec.SharedSecret"@,
                    value: "<binary>"@,
                    why: "the pre-shared key is not valid UTF-8"@,
                },
            )
            &&& key == Some(PlistView::Data(b)) && valid_utf8(b) && trimmed(decode_utf8(b)).len()
                == 0 ==> secret_of(ipsec) == Err::<Seq<char>, ErrorView>(
                ErrorView::EmptyField("IPSec.SharedSecret"@),
            )
            &&& key == Some(PlistView::Data(b)) && valid_utf8(b) && trimmed(decode_utf8(b)).len()
                > 0 ==> secret_of(ipsec) == Ok::<Seq<char>, ErrorView>(trimmed(decode_utf8(b)))
        },
{
}

/// A profile without an IPsec payload is refused: by the type of the last other VPN payload in it,
/// or as one that is missing. One whose payload can be read imports, under a fixed name when it
/// has none.
pub proof fn law_other_payloads_are_refused(v: Seq<PlistView>, vpn: PlistView, ipsec: PlistView)
    ensures
        (forall|j: int| 0 <= j < v.len() ==> !is_vpn_payload(#[trigger] v[j])) ==> payload_from(
            v,
            0,
            None,
        ) == Err::<PlistView, ErrorView>(ErrorView::MissingField("an IPsec VPN payload"@)),
        v.len() == 1 && is_vpn_payload(v[0]) && !is_ipsec_payload(v[0]) ==> payload_from(v, 0, None)
            == Err::<PlistView, ErrorView>(
            ErrorView::Unsupported(
                "a VPN payload of type "@ + debug_quoted(vpn_type(v[0]))
                    + " (only the Cisco-IPsec/IKEv1 profile these portals export is implemented)"@,
            ),
        ),
        vpn.get("IPSec"@) == Some(ipsec) && ipsec is Dictionary ==> (imported_payload(vpn) is Ok
            <==> gateway_of(ipsec) is Ok && secret_of(ipsec) is Ok),
        vpn.get("IPSec"@) is None || !(vpn.get("IPSec"@)->0 is Dictionary) ==> imported_payload(vpn)
            == Err::<ProfileView, ErrorView>(ErrorView::MissingField("IPSec"@)),
        imported_payload(vpn) matches Ok(x) ==> filled_text(vpn, "UserDefinedName"@) is None
            ==> x.config.name == "Sophos VPN"@,
{
    if forall|j: int| 0 <= j < v.len() ==> !is_vpn_payload(#[trigger] v[j]) {
        lemma_no_payload(v, 0);
    }
    reveal_with_fuel(payload_from, 3);
}

proof fn lemma_no_payload(v: Seq<PlistView>, i: int)
    requires
        0 <= i <= v.len(),
        forall|j: int| 0 <= j < v.len() ==> !is_vpn_payload(#[trigger] v[j]),
    ensures
        payload_from(v, i, None) == Err::<PlistView, ErrorView>(
            ErrorView::MissingField("an IPsec VPN payload"@),
        ),
    decreases v.len() - i,
{
    if i < v.len() {
        assert(!is_vpn_payload(v[i]));
        lemma_no_payload(v, i + 1);
    }
}

/// That the algorithms are assumed and that no networks are named is always reported, and XAuth
/// and an address that only answers from inside where they apply; nothing else is.
pub proof fn law_assumptions_are_reported(ipsec: PlistView, gateway: Seq<char>)
    ensures
        ({
            let w = notes_of(ipsec, gateway);
            let n = w.len() as int;
            &&& w[n - 2]
                == "the profile states no encryption algorithms (iOS negotiates its own); proposing AES-256/SHA2-256 with DH group 14, plus stronger alternatives — verify on first connect"@
            &&& w[n - 1]
                == "the profile names no remote networks — unlike a Sophos Connect (.scx) export, an iOS profile does not list them. Add the subnet(s) you need to reach before connecting, or choose to route all traffic through the VPN"@
            &&& wants_xauth(ipsec) ==> w[n - 3]
                == "the gateway requires XAuth; you will be asked for a username and password on connect"@
            &&& is_internal_gateway(gateway) ==> w[0] == "the profile dials "@ + gateway
                + ", a private address — it will only connect from inside that network, or over another tunnel that reaches it"@
            &&& n == 2 + (if wants_xauth(ipsec) {
                1int
            } else {
                0int
            }) + (if is_internal_gateway(gateway) {
                1int
            } else {
                0int
            })
        }),
{
}

/// A file is taken for such a profile when it begins, white space aside, like an XML document or a
/// property list and speaks of a managed VPN somewhere.
pub proof fn law_profile_is_told_by_its_payload(input: Seq<char>)
    ensures
        is_mobileconfig(input) <==> has(input, "com.apple.vpn.managed"@) && (begins(
            trimmed_start(head_of(input, 4096)),
            "<?xml"@,
        ) || begins(trimmed_start(head_of(input, 4096)), "<plist"@)),
{
}

} // verus!
