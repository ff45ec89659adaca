//! Importer for the legacy Sophos and Cyberoam `.tgb` profile.
//!
//! It is ini-shaped and describes IKEv1: a main-mode phase 1 and a quick-mode phase 2, with
//! the algorithms reached through a chain of section references:
//!
//! ```text
//! [Phase 2] -> the connection -> its ISAKMP peer -> main-mode config -> transform
//!                             -> quick-mode config -> suite -> protocol -> transform
//! ```
//!
//! A dangling reference is an error: a half-read profile would silently negotiate defaults.
//! The peer's `Authentication` value is a live pre-shared key.

use crate::import::{
    is_gateway, is_internal_gateway, is_private, valid_gateway, ImportedProfile, ProfileView,
    Warnings,
};
use crate::ini::{
    self, document, find_section, is_first_entry, is_first_section, law_first_of_a_name_is_found,
    section_from, Document, Section, SectionView,
};
use crate::ipv4::{address, prefix_of, Ipv4Addr, Ipv4Net};
use crate::model::{
    law_prf_is_named_after_the_hash, opt_view, AuthMethod, ConfigView, ConnectionConfig, DhGroup,
    DnsConfig, DnsView, DpdConfig, EncAlg, IkeIdType, IkeVersion, IntegAlg, Secret, UserAuth,
    UserAuthView,
};
use crate::sophos::error::{ErrorView, ImportError};
use crate::sophos::scx::note;
use crate::text::{
    before, begins, contains, debug_quoted, decimal, ends, format_u64, has, head, head_of, index_of,
    is_digit, law_number_reads_back, lemma_decimal, lemma_index_of_is_first, list, listed,
    number_up_to, parse_up_to, quote_debug, same, same_ignoring_case, same_nocase, strip_suffix,
    to_upper, trim, trimmed, up_to, uppercase, without_suffix,
};
use vstd::prelude::*;

verus! {

/// Whether a text looks like a `.tgb`. Both markers are written by the generator.
pub open spec fn is_tgb(input: Seq<char>) -> bool {
    has(head_of(input, 4096), "[Phase 1]"@) || has(head_of(input, 4096), "VpnConf"@)
}

/// Whether a text looks like a `.tgb`.
pub fn looks_like(input: &str) -> (r: bool)
    ensures
        r == is_tgb(input@),
{
    let h = head(input, 4096);
    contains(h.as_str(), "[Phase 1]") || contains(h.as_str(), "VpnConf")
}

/// The section that a reference names.
pub open spec fn section_of(doc: Seq<SectionView>, name: Seq<char>) -> Result<
    SectionView,
    ErrorView,
> {
    match find_section(doc, trimmed(name)) {
        Some(s) => Ok(s),
        None => Err(ErrorView::SectionNotFound(trimmed(name))),
    }
}

fn section<'a>(doc: &'a Document, name: &str) -> (r: Result<&'a Section, ImportError>)
    ensures
        match r {
            Ok(s) => section_of(doc@, name@) == Ok::<SectionView, ErrorView>(s@),
            Err(e) => section_of(doc@, name@) == Err::<SectionView, ErrorView>(e@),
        },
{
    let name = trim(name);
    match doc.section(name.as_str()) {
        Some(s) => Ok(s),
        None => Err(ImportError::SectionNotFound(name)),
    }
}

/// The value of a field that must be there.
pub open spec fn required_field(s: SectionView, key: Seq<char>) -> Result<Seq<char>, ErrorView> {
    match s.get(key) {
        Some(v) => Ok(v),
        None => Err(ErrorView::MissingField(key)),
    }
}

fn required<'a>(section: &'a Section, key: &'static str) -> (r: Result<&'a str, ImportError>)
    ensures
        match r {
            Ok(v) => required_field(section@, key@) == Ok::<Seq<char>, ErrorView>(v@),
            Err(e) => required_field(section@, key@) == Err::<Seq<char>, ErrorView>(e@),
        },
{
    match section.get(key) {
        Some(v) => Ok(v),
        None => Err(ImportError::MissingField(key)),
    }
}

/// The alternative that is used, and the warning about the ones that are dropped.
pub open spec fn first_listed(value: Seq<char>, field: Seq<char>) -> Result<
    (Seq<char>, Seq<Seq<char>>),
    ErrorView,
> {
    let parts = listed(value, ',');
    if parts.len() == 0 {
        Err(ErrorView::EmptyField(field))
    } else {
        Ok(
            (
                parts[0],
                note(
                    parts.len() > 1,
                    field + " lists several options; only "@ + parts[0] + " is used"@,
                ),
            ),
        )
    }
}

/// These fields may list several alternatives; the model holds one.
fn first_ref(value: &str, warn: &mut Warnings, field: &'static str) -> (r: Result<
    String,
    ImportError,
>)
    ensures
        match r {
            Ok(v) => first_listed(value@, field@) matches Ok(x) && x.0 == v@ && final(warn)@ == old(warn)@ + x.1,
            Err(e) => first_listed(value@, field@) matches Err(x) && x == e@,
        },
{
    let mut parts = list(value, ',');
    let ghost all = listed(value@, ',');
    assert(all.len() == parts@.len());
    if parts.len() == 0 {
        return Err(ImportError::EmptyField(field));
    }
    assert(all[0] == parts@[0]@);
    let several: bool = parts.len() > 1;
    let first = parts.swap_remove(0);
    if several {
        let mut s = field.to_owned();
        s.append(" lists several options; only ");
        s.append(first.as_str());
        s.append(" is used");
        warn.warn(s);
    }
    assert(warn@ =~= old(warn)@ + (first_listed(value@, field@)->Ok_0).1);
    Ok(first)
}

/// The section behind a field that lists references.
pub open spec fn follow(doc: Seq<SectionView>, s: SectionView, field: Seq<char>) -> Result<
    (SectionView, Seq<Seq<char>>),
    ErrorView,
> {
    match required_field(s, field) {
        Err(e) => Err(e),
        Ok(v) => match first_listed(v, field) {
            Err(e) => Err(e),
            Ok(x) => match section_of(doc, x.0) {
                Err(e) => Err(e),
                Ok(t) => Ok((t, x.1)),
            },
        },
    }
}

fn follow_ref<'a>(
    doc: &'a Document,
    s: &Section,
    field: &'static str,
    warn: &mut Warnings,
) -> (r: Result<&'a Section, ImportError>)
    ensures
        match r {
            Ok(t) => follow(doc@, s@, field@) matches Ok(x) && x.0 == t@ && final(warn)@ == old(warn)@ + x.1,
            Err(e) => follow(doc@, s@, field@) matches Err(x) && x == e@,
        },
{
    let v = required(s, field)?;
    let name = first_ref(v, warn, field)?;
    section(doc, name.as_str())
}

/// The peer by way of `[Phase 1]`, which maps peer addresses to their sections.
pub open spec fn direct_peer(doc: Seq<SectionView>) -> Result<
    (Seq<char>, SectionView, Seq<Seq<char>>),
    ErrorView,
> {
    match find_section(doc, "Phase 1"@) {
        None => Err(ErrorView::SectionNotFound("Phase 1"@)),
        Some(p1) => if p1.entries.len() == 0 {
            Err(ErrorView::EmptyField("Phase 1"@))
        } else {
            let peer_ref = p1.entries[0].1;
            match section_of(doc, peer_ref) {
                Err(e) => Err(e),
                Ok(s) => Ok(
                    (
                        trimmed(peer_ref),
                        s,
                        note(
                            p1.entries.len() > 1,
                            "the file defines "@ + decimal(p1.entries.len())
                                + " phase 1 peers; only the first ("@ + trimmed(peer_ref)
                                + ") is imported"@,
                        ),
                    ),
                ),
            }
        },
    }
}

/// The phase-1 peer: `[Phase 2]` names a connection, which names its peer; failing that,
/// `[Phase 1]` decides.
pub open spec fn peer_of(doc: Seq<SectionView>) -> Result<
    (Seq<char>, SectionView, Seq<Seq<char>>),
    ErrorView,
> {
    let through = find_section(doc, "Phase 2"@);
    if through is Some && through->0.entries.len() > 0 {
        match first_listed(through->0.entries[0].1, "Phase 2"@) {
            Err(e) => Err(e),
            Ok(x) => match section_of(doc, x.0) {
                Err(e) => Err(e),
                Ok(conn) => match conn.get("ISAKMP-peer"@) {
                    Some(peer_ref) => match section_of(doc, peer_ref) {
                        Err(e) => Err(e),
                        Ok(s) => Ok((trimmed(peer_ref), s, x.1)),
                    },
                    None => match direct_peer(doc) {
                        Err(e) => Err(e),
                        Ok(d) => Ok((d.0, d.1, x.1 + d.2)),
                    },
                },
            },
        }
    } else {
        direct_peer(doc)
    }
}

fn import_direct_peer<'a>(doc: &'a Document, warn: &mut Warnings) -> (r: Result<
    (String, &'a Section),
    ImportError,
>)
    ensures
        match r {
            Ok(p) => direct_peer(doc@) matches Ok(x) && x.0 == p.0@ && x.1 == p.1@ && final(warn)@
                == old(warn)@ + x.2,
            Err(e) => direct_peer(doc@) matches Err(x) && x == e@,
        },
{
    let p1 = match doc.section("Phase 1") {
        Some(s) => s,
        None => {
            return Err(ImportError::SectionNotFound("Phase 1".to_owned()));
        },
    };
    assert(p1@.entries.len() == p1.entries@.len());
    if p1.entries.len() == 0 {
        return Err(ImportError::EmptyField("Phase 1"));
    }
    assert(p1@.entries[0].1 == p1.entries@[0].1@);
    let peer_ref = p1.entries[0].1.as_str();
    let name = trim(peer_ref);
    if p1.entries.len() > 1 {
        let mut s = "the file defines ".to_owned();
        s.append(format_u64(p1.entries.len() as u64).as_str());
        s.append(" phase 1 peers; only the first (");
        s.append(name.as_str());
        s.append(") is imported");
        warn.warn(s);
    }
    let peer = section(doc, peer_ref)?;
    assert(warn@ =~= old(warn)@ + (direct_peer(doc@)->Ok_0).2);
    Ok((name, peer))
}

fn isakmp_peer<'a>(doc: &'a Document, warn: &mut Warnings) -> (r: Result<
    (String, &'a Section),
    ImportError,
>)
    ensures
        match r {
            Ok(p) => peer_of(doc@) matches Ok(x) && x.0 == p.0@ && x.1 == p.1@ && final(warn)@
                == old(warn)@ + x.2,
            Err(e) => peer_of(doc@) matches Err(x) && x == e@,
        },
{
    if let Some(p2) = doc.section("Phase 2") {
        assert(p2@.entries.len() == p2.entries@.len());
        if p2.entries.len() > 0 {
            assert(p2@.entries[0].1 == p2.entries@[0].1@);
            let conn_name = first_ref(p2.entries[0].1.as_str(), warn, "Phase 2")?;
            let conn = section(doc, conn_name.as_str())?;
            if let Some(peer_ref) = conn.get("ISAKMP-peer") {
                let peer = section(doc, peer_ref)?;
                return Ok((trim(peer_ref), peer));
            }
            let found = import_direct_peer(doc, warn)?;
            assert(warn@ =~= old(warn)@ + (peer_of(doc@)->Ok_0).2);
            return Ok(found);
        }
    }
    import_direct_peer(doc, warn)
}

/// The gateway to dial, with the warning about one that answers only from inside.
pub open spec fn gateway_of(peer: SectionView) -> Result<(Seq<char>, Seq<Seq<char>>), ErrorView> {
    match required_field(peer, "Address"@) {
        Err(e) => Err(e),
        Ok(v) => if !is_gateway(trimmed(v)) {
            Err(
                ErrorView::BadValue {
                    field: "Address"@,
                    value: trimmed(v),
                    why: "contains characters that are not valid in a host name or address"@,
                },
            )
        } else {
            Ok(
                (
                    trimmed(v),
                    note(
                        is_internal_gateway(trimmed(v)),
                        "the profile dials "@ + trimmed(v)
                            + ", a private address — these exports are often generated against the firewall's internal interface, so this may need to be changed to its public address before it will connect from outside"@,
                    ),
                ),
            )
        },
    }
}

fn import_gateway(peer: &Section, warn: &mut Warnings) -> (r: Result<String, ImportError>)
    ensures
        match r {
            Ok(g) => gateway_of(peer@) matches Ok(x) && x.0 == g@ && final(warn)@ == old(warn)@
                + x.1,
            Err(e) => gateway_of(peer@) matches Err(x) && x == e@,
        },
{
    let gateway = trim(required(peer, "Address")?);
    if !valid_gateway(gateway.as_str()) {
        return Err(
            ImportError::BadValue {
                field: "Address",
                value: gateway,
                why: "contains characters that are not valid in a host name or address",
            },
        );
    }
    if is_private(gateway.as_str()) {
        let mut s = "the profile dials ".to_owned();
        s.append(gateway.as_str());
        s.append(
            ", a private address — these exports are often generated against the firewall's internal interface, so this may need to be changed to its public address before it will connect from outside",
        );
        warn.warn(s);
    }
    assert(warn@ =~= old(warn)@ + (gateway_of(peer@)->Ok_0).1);
    Ok(gateway)
}

/// The pre-shared key.
pub open spec fn secret_of(peer: SectionView) -> Result<Seq<char>, ErrorView> {
    match required_field(peer, "Authentication"@) {
        Err(e) => Err(e),
        Ok(v) => if trimmed(v).len() == 0 {
            Err(ErrorView::EmptyField("Authentication"@))
        } else {
            Ok(v)
        },
    }
}

fn import_secret(peer: &Section) -> (r: Result<Secret, ImportError>)
    ensures
        match r {
            Ok(s) => secret_of(peer@) == Ok::<Seq<char>, ErrorView>(s@),
            Err(e) => secret_of(peer@) == Err::<Seq<char>, ErrorView>(e@),
        },
{
    let v = required(peer, "Authentication")?;
    if trim(v).as_str().is_empty() {
        return Err(ImportError::EmptyField("Authentication"));
    }
    Ok(Secret::new(v.to_owned()))
}

/// The declared type of an identity or selector section.
pub open spec fn id_kind(id: SectionView) -> Seq<char> {
    match id.get("ID-Type"@) {
        Some(v) => uppercase(trimmed(v)),
        None => Seq::empty(),
    }
}

fn id_type(id: &Section) -> (r: String)
    ensures
        r@ == id_kind(id@),
{
    match id.get("ID-Type") {
        Some(v) => to_upper(trim(v).as_str()),
        None => String::new(),
    }
}

/// The value of an identity section: its key depends on the type, so that whichever the
/// section carries first is taken.
pub open spec fn id_value(id: SectionView) -> Option<Seq<char>> {
    let found = if id.get("Address"@) is Some {
        id.get("Address"@)
    } else if id.get("Value"@) is Some {
        id.get("Value"@)
    } else if id.get("FQDN"@) is Some {
        id.get("FQDN"@)
    } else if id.get("Email"@) is Some {
        id.get("Email"@)
    } else {
        id.get("ID"@)
    };
    match found {
        Some(v) => if trimmed(v).len() > 0 {
            Some(trimmed(v))
        } else {
            None
        },
        None => None,
    }
}

fn identity_value(id: &Section) -> (r: Option<String>)
    ensures
        opt_view(r) == id_value(id@),
{
    let mut found = id.get("Address");
    if found.is_none() {
        found = id.get("Value");
    }
    if found.is_none() {
        found = id.get("FQDN");
    }
    if found.is_none() {
        found = id.get("Email");
    }
    if found.is_none() {
        found = id.get("ID");
    }
    match found {
        Some(v) => {
            let t = trim(v);
            if t.as_str().is_empty() {
                None
            } else {
                Some(t)
            }
        },
        None => None,
    }
}

/// The identity type that a declared type stands for.
pub open spec fn id_type_of(kind: Seq<char>) -> Option<IkeIdType> {
    if kind == "IPV4_ADDR"@ {
        Some(IkeIdType::Ipv4)
    } else if kind == "FQDN"@ || kind == "DNS"@ {
        Some(IkeIdType::Fqdn)
    } else if kind == "USER_FQDN"@ || kind == "EMAIL"@ || kind == "RFC822"@ {
        Some(IkeIdType::Rfc822)
    } else if kind == "KEY_ID"@ || kind == "KEYID"@ {
        Some(IkeIdType::KeyId)
    } else {
        None
    }
}

fn known_id_type(kind: &str) -> (r: Option<IkeIdType>)
    ensures
        r == id_type_of(kind@),
{
    if same(kind, "IPV4_ADDR") {
        Some(IkeIdType::Ipv4)
    } else if same(kind, "FQDN") || same(kind, "DNS") {
        Some(IkeIdType::Fqdn)
    } else if same(kind, "USER_FQDN") || same(kind, "EMAIL") || same(kind, "RFC822") {
        Some(IkeIdType::Rfc822)
    } else if same(kind, "KEY_ID") || same(kind, "KEYID") {
        Some(IkeIdType::KeyId)
    } else {
        None
    }
}

/// The identity to present, its type, and what is to be said about it.
pub open spec fn identity_of(doc: Seq<SectionView>, peer: SectionView) -> Result<
    (Option<Seq<char>>, Option<IkeIdType>, Seq<Seq<char>>),
    ErrorView,
> {
    match peer.get("ID"@) {
        None => Ok((None, None, Seq::empty())),
        Some(id_ref) => match section_of(doc, id_ref) {
            Err(e) => Err(e),
            Ok(id) => match id_value(id) {
                None => Ok(
                    (
                        None,
                        None,
                        seq![
                            "identity section ["@ + trimmed(id_ref)
                                + "] has no value; letting charon derive the identity"@,
                        ],
                    ),
                ),
                Some(value) => match id_type_of(id_kind(id)) {
                    Some(t) => Ok((Some(value), Some(t), Seq::empty())),
                    None => Ok(
                        (
                            Some(value),
                            None,
                            seq![
                                "identity type "@ + id_kind(id)
                                    + " is not one we map; letting charon infer it from "@
                                    + debug_quoted(value),
                            ],
                        ),
                    ),
                },
            },
        },
    }
}

fn local_identity(doc: &Document, peer: &Section, warn: &mut Warnings) -> (r: Result<
    (Option<String>, Option<IkeIdType>),
    ImportError,
>)
    ensures
        match r {
            Ok(p) => identity_of(doc@, peer@) matches Ok(x) && x.0 == opt_view(p.0) && x.1 == p.1
                && final(warn)@ == old(warn)@ + x.2,
            Err(e) => identity_of(doc@, peer@) matches Err(x) && x == e@,
        },
{
    assert(old(warn)@ + Seq::<Seq<char>>::empty() =~= old(warn)@);
    let id_ref = match peer.get("ID") {
        Some(v) => v,
        None => {
            return Ok((None, None));
        },
    };
    let id = section(doc, id_ref)?;
    let kind = id_type(id);
    match identity_value(id) {
        None => {
            let mut s = "identity section [".to_owned();
            s.append(trim(id_ref).as_str());
            s.append("] has no value; letting charon derive the identity");
            warn.warn(s);
            Ok((None, None))
        },
        Some(value) => match known_id_type(kind.as_str()) {
            Some(t) => Ok((Some(value), Some(t))),
            None => {
                let mut s = "identity type ".to_owned();
                s.append(kind.as_str());
                s.append(" is not one we map; letting charon infer it from ");
                s.append(quote_debug(value.as_str()).as_str());
                warn.warn(s);
                Ok((Some(value), None))
            },
        },
    }
}

/// The key length that is written as `256,128:256`: the chosen length, then the range.
pub open spec fn key_bits(raw: Option<Seq<char>>) -> Option<nat> {
    match raw {
        Some(v) => number_up_to(trimmed(up_to(up_to(v, ','), ':')), u32::MAX as nat),
        None => None,
    }
}

fn key_length(raw: Option<&str>) -> (r: Option<u32>)
    ensures
        match r {
            Some(n) => key_bits(
                match raw {
                    Some(v) => Some(v@),
                    None => None,
                },
            ) == Some(n as nat),
            None => key_bits(
                match raw {
                    Some(v) => Some(v@),
                    None => None,
                },
            ) is None,
        },
{
    match raw {
        Some(v) => {
            let first = before(before(v, ',').as_str(), ':');
            match parse_up_to(trim(first.as_str()).as_str(), u32::MAX as u64) {
                Some(n) => Some(n as u32),
                None => None,
            }
        },
        None => None,
    }
}

/// The cipher that a name and a key length stand for.
pub open spec fn cipher_of(name: Seq<char>, keylen: Option<Seq<char>>, ctx: Seq<char>) -> Result<
    EncAlg,
    ErrorView,
> {
    let n = uppercase(trimmed(name));
    if n == "AES"@ || n == "AES_CBC"@ {
        match key_bits(keylen) {
            None => Ok(EncAlg::Aes256),
            Some(bits) => if bits == 128 {
                Ok(EncAlg::Aes128)
            } else if bits == 192 {
                Ok(EncAlg::Aes192)
            } else if bits == 256 {
                Ok(EncAlg::Aes256)
            } else {
                Err(
                    ErrorView::UnknownAlgorithm {
                        context: ctx,
                        token: "AES with a "@ + decimal(bits) + "-bit key"@,
                    },
                )
            },
        }
    } else {
        Err(ErrorView::UnknownAlgorithm { context: ctx, token: n })
    }
}

fn enc_alg(name: &str, keylen: Option<&str>, ctx: &'static str) -> (r: Result<EncAlg, ImportError>)
    ensures
        match r {
            Ok(a) => cipher_of(
                name@,
                match keylen {
                    Some(v) => Some(v@),
                    None => None,
                },
                ctx@,
            ) == Ok::<EncAlg, ErrorView>(a),
            Err(e) => cipher_of(
                name@,
                match keylen {
                    Some(v) => Some(v@),
                    None => None,
                },
                ctx@,
            ) == Err::<EncAlg, ErrorView>(e@),
        },
{
    let n = to_upper(trim(name).as_str());
    if same(n.as_str(), "AES") || same(n.as_str(), "AES_CBC") {
        match key_length(keylen) {
            None => Ok(EncAlg::Aes256),
            Some(bits) => if bits == 128 {
                Ok(EncAlg::Aes128)
            } else if bits == 192 {
                Ok(EncAlg::Aes192)
            } else if bits == 256 {
                Ok(EncAlg::Aes256)
            } else {
                let mut token = "AES with a ".to_owned();
                token.append(format_u64(bits as u64).as_str());
                token.append("-bit key");
                Err(ImportError::UnknownAlgorithm { context: ctx, token })
            },
        }
    } else {
        Err(ImportError::UnknownAlgorithm { context: ctx, token: n })
    }
}

/// The hash that a name stands for.
pub open spec fn hash_of(name: Seq<char>, ctx: Seq<char>) -> Result<IntegAlg, ErrorView> {
    let n = uppercase(trimmed(name));
    if n == "SHA"@ || n == "SHA1"@ || n == "HMAC_SHA1"@ || n == "HMAC_SHA"@ {
        Ok(IntegAlg::Sha1)
    } else if n == "SHA2_256"@ || n == "HMAC_SHA2_256"@ || n == "SHA256"@ {
        Ok(IntegAlg::Sha256)
    } else if n == "SHA2_384"@ || n == "HMAC_SHA2_384"@ || n == "SHA384"@ {
        Ok(IntegAlg::Sha384)
    } else if n == "SHA2_512"@ || n == "HMAC_SHA2_512"@ || n == "SHA512"@ {
        Ok(IntegAlg::Sha512)
    } else {
        Err(ErrorView::UnknownAlgorithm { context: ctx, token: n })
    }
}

fn integ_alg(name: &str, ctx: &'static str) -> (r: Result<IntegAlg, ImportError>)
    ensures
        match r {
            Ok(a) => hash_of(name@, ctx@) == Ok::<IntegAlg, ErrorView>(a),
            Err(e) => hash_of(name@, ctx@) == Err::<IntegAlg, ErrorView>(e@),
        },
{
    let t = to_upper(trim(name).as_str());
    let n = t.as_str();
    if same(n, "SHA") || same(n, "SHA1") || same(n, "HMAC_SHA1") || same(n, "HMAC_SHA") {
        Ok(IntegAlg::Sha1)
    } else if same(n, "SHA2_256") || same(n, "HMAC_SHA2_256") || same(n, "SHA256") {
        Ok(IntegAlg::Sha256)
    } else if same(n, "SHA2_384") || same(n, "HMAC_SHA2_384") || same(n, "SHA384") {
        Ok(IntegAlg::Sha384)
    } else if same(n, "SHA2_512") || same(n, "HMAC_SHA2_512") || same(n, "SHA512") {
        Ok(IntegAlg::Sha512)
    } else {
        Err(ImportError::UnknownAlgorithm { context: ctx, token: t })
    }
}

/// The group that a name stands for.
pub open spec fn group_of(name: Seq<char>, ctx: Seq<char>) -> Result<DhGroup, ErrorView> {
    let n = uppercase(trimmed(name));
    if n == "MODP_1024"@ {
        Ok(DhGroup::Modp1024)
    } else if n == "MODP_1536"@ {
        Ok(DhGroup::Modp1536)
    } else if n == "MODP_2048"@ {
        Ok(DhGroup::Modp2048)
    } else if n == "MODP_3072"@ {
        Ok(DhGroup::Modp3072)
    } else if n == "MODP_4096"@ {
        Ok(DhGroup::Modp4096)
    } else if n == "ECP_256"@ {
        Ok(DhGroup::Ecp256)
    } else if n == "ECP_384"@ {
        Ok(DhGroup::Ecp384)
    } else {
        Err(ErrorView::UnknownAlgorithm { context: ctx, token: n })
    }
}

fn dh_group(name: &str, ctx: &'static str) -> (r: Result<DhGroup, ImportError>)
    ensures
        match r {
            Ok(g) => group_of(name@, ctx@) == Ok::<DhGroup, ErrorView>(g),
            Err(e) => group_of(name@, ctx@) == Err::<DhGroup, ErrorView>(e@),
        },
{
    let t = to_upper(trim(name).as_str());
    let n = t.as_str();
    if same(n, "MODP_1024") {
        Ok(DhGroup::Modp1024)
    } else if same(n, "MODP_1536") {
        Ok(DhGroup::Modp1536)
    } else if same(n, "MODP_2048") {
        Ok(DhGroup::Modp2048)
    } else if same(n, "MODP_3072") {
        Ok(DhGroup::Modp3072)
    } else if same(n, "MODP_4096") {
        Ok(DhGroup::Modp4096)
    } else if same(n, "ECP_256") {
        Ok(DhGroup::Ecp256)
    } else if same(n, "ECP_384") {
        Ok(DhGroup::Ecp384)
    } else {
        Err(ImportError::UnknownAlgorithm { context: ctx, token: t })
    }
}

/// The algorithms of phase 1.
pub struct PhaseOne {
    pub enc: EncAlg,
    pub integ: IntegAlg,
    pub dh: DhGroup,
}

/// The algorithms of a phase-1 transform, which must authenticate with a pre-shared key.
pub open spec fn transform_of(p1: SectionView) -> Result<PhaseOne, ErrorView> {
    match required_field(p1, "AUTHENTICATION_METHOD"@) {
        Err(e) => Err(e),
        Ok(v) => {
            let method = uppercase(trimmed(v));
            if !(method == "PRE_SHARED"@ || method == "XAUTH_INIT_PRE_SHARED"@ || method
                == "XAUTH_INIT_PRESHARED"@) {
                Err(
                    ErrorView::Unsupported(
                        "authentication method "@ + method
                            + " (only pre-shared keys are implemented)"@,
                    ),
                )
            } else {
                match required_field(p1, "ENCRYPTION_ALGORITHM"@) {
                    Err(e) => Err(e),
                    Ok(name) => match cipher_of(name, p1.get("KEY_LENGTH"@), "phase 1"@) {
                        Err(e) => Err(e),
                        Ok(enc) => match required_field(p1, "HASH_ALGORITHM"@) {
                            Err(e) => Err(e),
                            Ok(name) => match hash_of(name, "phase 1"@) {
                                Err(e) => Err(e),
                                Ok(integ) => match required_field(p1, "GROUP_DESCRIPTION"@) {
                                    Err(e) => Err(e),
                                    Ok(name) => match group_of(name, "phase 1"@) {
                                        Err(e) => Err(e),
                                        Ok(dh) => Ok(PhaseOne { enc, integ, dh }),
                                    },
                                },
                            },
                        },
                    },
                }
            }
        },
    }
}

fn import_transform(p1: &Section) -> (r: Result<PhaseOne, ImportError>)
    ensures
        match r {
            Ok(p) => transform_of(p1@) == Ok::<PhaseOne, ErrorView>(p),
            Err(e) => transform_of(p1@) == Err::<PhaseOne, ErrorView>(e@),
        },
{
    let method = to_upper(trim(required(p1, "AUTHENTICATION_METHOD")?).as_str());
    let m = method.as_str();
    if !(same(m, "PRE_SHARED") || same(m, "XAUTH_INIT_PRE_SHARED") || same(
        m,
        "XAUTH_INIT_PRESHARED",
    )) {
        let mut s = "authentication method ".to_owned();
        s.append(m);
        s.append(" (only pre-shared keys are implemented)");
        return Err(ImportError::Unsupported(s));
    }
    let enc = enc_alg(required(p1, "ENCRYPTION_ALGORITHM")?, p1.get("KEY_LENGTH"), "phase 1")?;
    let integ = integ_alg(required(p1, "HASH_ALGORITHM")?, "phase 1")?;
    let dh = dh_group(required(p1, "GROUP_DESCRIPTION")?, "phase 1")?;
    Ok(PhaseOne { enc, integ, dh })
}

/// Phase 1 by way of the peer's main-mode configuration. Aggressive mode exposes the hash of
/// the key and is refused.
pub open spec fn phase_one(doc: Seq<SectionView>, peer: SectionView) -> Result<
    (PhaseOne, Seq<Seq<char>>),
    ErrorView,
> {
    match required_field(peer, "Configuration"@) {
        Err(e) => Err(e),
        Ok(name) => match section_of(doc, name) {
            Err(e) => Err(e),
            Ok(mode) => match required_field(mode, "EXCHANGE_TYPE"@) {
                Err(e) => Err(e),
                Ok(v) => if uppercase(trimmed(v)) != "ID_PROT"@ {
                    Err(
                        ErrorView::Unsupported(
                            "phase 1 exchange type "@ + uppercase(trimmed(v))
                                + " (only main mode, ID_PROT, is implemented)"@,
                        ),
                    )
                } else {
                    match follow(doc, mode, "Transforms"@) {
                        Err(e) => Err(e),
                        Ok(t) => match transform_of(t.0) {
                            Err(e) => Err(e),
                            Ok(p) => Ok((p, t.1)),
                        },
                    }
                },
            },
        },
    }
}

fn import_phase_one(doc: &Document, peer: &Section, warn: &mut Warnings) -> (r: Result<
    PhaseOne,
    ImportError,
>)
    ensures
        match r {
            Ok(p) => phase_one(doc@, peer@) matches Ok(x) && x.0 == p && final(warn)@ == old(warn)@
                + x.1,
            Err(e) => phase_one(doc@, peer@) matches Err(x) && x == e@,
        },
{
    let mode = section(doc, required(peer, "Configuration")?)?;
    let exchange = to_upper(trim(required(mode, "EXCHANGE_TYPE")?).as_str());
    if !same(exchange.as_str(), "ID_PROT") {
        let mut s = "phase 1 exchange type ".to_owned();
        s.append(exchange.as_str());
        s.append(" (only main mode, ID_PROT, is implemented)");
        return Err(ImportError::Unsupported(s));
    }
    let p1 = follow_ref(doc, mode, "Transforms", warn)?;
    import_transform(p1)
}

/// The phase-2 connection that belongs to a peer.
pub open spec fn connection_of(doc: Seq<SectionView>, peer_name: Seq<char>) -> Result<
    (SectionView, Seq<Seq<char>>),
    ErrorView,
> {
    match find_section(doc, "Phase 2"@) {
        None => Err(ErrorView::SectionNotFound("Phase 2"@)),
        Some(p2) => if p2.entries.len() == 0 {
            Err(ErrorView::EmptyField("Phase 2"@))
        } else {
            match first_listed(p2.entries[0].1, "Phase 2"@) {
                Err(e) => Err(e),
                Ok(x) => match section_of(doc, x.0) {
                    Err(e) => Err(e),
                    Ok(conn) => Ok(
                        (
                            conn,
                            note(
                                p2.entries.len() > 1,
                                "the file defines "@ + decimal(p2.entries.len())
                                    + " phase 2 connections; only the first is imported"@,
                            ) + x.1 + (match conn.get("ISAKMP-peer"@) {
                                Some(owner) => note(
                                    !same_nocase(trimmed(owner), peer_name),
                                    "phase 2 connection "@ + x.0 + " belongs to peer "@ + trimmed(
                                        owner,
                                    ) + ", not "@ + peer_name,
                                ),
                                None => Seq::empty(),
                            }),
                        ),
                    ),
                },
            }
        },
    }
}

fn connection<'a>(doc: &'a Document, peer_name: &str, warn: &mut Warnings) -> (r: Result<
    &'a Section,
    ImportError,
>)
    ensures
        match r {
            Ok(c) => connection_of(doc@, peer_name@) matches Ok(x) && x.0 == c@ && final(warn)@
                == old(warn)@ + x.1,
            Err(e) => connection_of(doc@, peer_name@) matches Err(x) && x == e@,
        },
{
    let p2 = match doc.section("Phase 2") {
        Some(s) => s,
        None => {
            return Err(ImportError::SectionNotFound("Phase 2".to_owned()));
        },
    };
    assert(p2@.entries.len() == p2.entries@.len());
    if p2.entries.len() > 1 {
        let mut s = "the file defines ".to_owned();
        s.append(format_u64(p2.entries.len() as u64).as_str());
        s.append(" phase 2 connections; only the first is imported");
        warn.warn(s);
    }
    if p2.entries.len() == 0 {
        return Err(ImportError::EmptyField("Phase 2"));
    }
    assert(p2@.entries[0].1 == p2.entries@[0].1@);
    let conn_name = first_ref(p2.entries[0].1.as_str(), warn, "Phase 2")?;
    let conn = section(doc, conn_name.as_str())?;
    if let Some(owner) = conn.get("ISAKMP-peer") {
        let owner = trim(owner);
        if !same_ignoring_case(owner.as_str(), peer_name) {
            let mut s = "phase 2 connection ".to_owned();
            s.append(conn_name.as_str());
            s.append(" belongs to peer ");
            s.append(owner.as_str());
            s.append(", not ");
            s.append(peer_name);
            warn.warn(s);
        }
    }
    assert(warn@ =~= old(warn)@ + (connection_of(doc@, peer_name@)->Ok_0).1);
    Ok(conn)
}

/// The algorithms of phase 2.
pub struct PhaseTwo {
    pub enc: EncAlg,
    pub integ: IntegAlg,
    pub pfs: Option<DhGroup>,
}

/// The algorithms of a phase-2 transform, which must tunnel.
pub open spec fn esp_transform_of(p2: SectionView) -> Result<PhaseTwo, ErrorView> {
    let mode = p2.get("ENCAPSULATION_MODE"@);
    if mode is Some && !same_nocase(trimmed(mode->0), "TUNNEL"@) {
        Err(
            ErrorView::Unsupported(
                "phase 2 encapsulation mode "@ + trimmed(mode->0)
                    + " (only TUNNEL is implemented)"@,
            ),
        )
    } else {
        match required_field(p2, "TRANSFORM_ID"@) {
            Err(e) => Err(e),
            Ok(name) => match cipher_of(name, p2.get("KEY_LENGTH"@), "phase 2"@) {
                Err(e) => Err(e),
                Ok(enc) => match required_field(p2, "AUTHENTICATION_ALGORITHM"@) {
                    Err(e) => Err(e),
                    Ok(name) => match hash_of(name, "phase 2"@) {
                        Err(e) => Err(e),
                        Ok(integ) => match p2.get("GROUP_DESCRIPTION"@) {
                            None => Ok(PhaseTwo { enc, integ, pfs: None }),
                            Some(g) => if trimmed(g).len() == 0 {
                                Ok(PhaseTwo { enc, integ, pfs: None })
                            } else {
                                match group_of(g, "phase 2"@) {
                                    Err(e) => Err(e),
                                    Ok(dh) => Ok(PhaseTwo { enc, integ, pfs: Some(dh) }),
                                }
                            },
                        },
                    },
                },
            },
        }
    }
}

fn import_esp_transform(p2: &Section) -> (r: Result<PhaseTwo, ImportError>)
    ensures
        match r {
            Ok(p) => esp_transform_of(p2@) == Ok::<PhaseTwo, ErrorView>(p),
            Err(e) => esp_transform_of(p2@) == Err::<PhaseTwo, ErrorView>(e@),
        },
{
    if let Some(mode) = p2.get("ENCAPSULATION_MODE") {
        let mode = trim(mode);
        if !same_ignoring_case(mode.as_str(), "TUNNEL") {
            let mut s = "phase 2 encapsulation mode ".to_owned();
            s.append(mode.as_str());
            s.append(" (only TUNNEL is implemented)");
            return Err(ImportError::Unsupported(s));
        }
    }
    let enc = enc_alg(required(p2, "TRANSFORM_ID")?, p2.get("KEY_LENGTH"), "phase 2")?;
    let integ = integ_alg(required(p2, "AUTHENTICATION_ALGORITHM")?, "phase 2")?;
    let pfs = match p2.get("GROUP_DESCRIPTION") {
        Some(g) => if trim(g).as_str().is_empty() {
            None
        } else {
            let dh = dh_group(g, "phase 2")?;
            Some(dh)
        },
        None => None,
    };
    Ok(PhaseTwo { enc, integ, pfs })
}

/// Phase 2 by way of the connection's quick-mode configuration, its suite and its protocol,
/// which must be ESP.
pub open spec fn phase_two(doc: Seq<SectionView>, conn: SectionView) -> Result<
    (PhaseTwo, Seq<Seq<char>>),
    ErrorView,
> {
    match required_field(conn, "Configuration"@) {
        Err(e) => Err(e),
        Ok(name) => match section_of(doc, name) {
            Err(e) => Err(e),
            Ok(quick) => match follow(doc, quick, "Suites"@) {
                Err(e) => Err(e),
                Ok(suite) => match follow(doc, suite.0, "Protocols"@) {
                    Err(e) => Err(e),
                    Ok(protocol) => {
                        let id = protocol.0.get("PROTOCOL_ID"@);
                        if id is Some && !same_nocase(trimmed(id->0), "IPSEC_ESP"@) {
                            Err(
                                ErrorView::Unsupported(
                                    "phase 2 protocol "@ + trimmed(id->0)
                                        + " (only ESP is implemented)"@,
                                ),
                            )
                        } else {
                            match follow(doc, protocol.0, "Transforms"@) {
                                Err(e) => Err(e),
                                Ok(t) => match esp_transform_of(t.0) {
                                    Err(e) => Err(e),
                                    Ok(p) => Ok((p, suite.1 + protocol.1 + t.1)),
                                },
                            }
                        }
                    },
                },
            },
        },
    }
}

fn import_phase_two(doc: &Document, conn: &Section, warn: &mut Warnings) -> (r: Result<
    PhaseTwo,
    ImportError,
>)
    ensures
        match r {
            Ok(p) => phase_two(doc@, conn@) matches Ok(x) && x.0 == p && final(warn)@ == old(warn)@
                + x.1,
            Err(e) => phase_two(doc@, conn@) matches Err(x) && x == e@,
        },
{
    let quick = section(doc, required(conn, "Configuration")?)?;
    let suite = follow_ref(doc, quick, "Suites", warn)?;
    let protocol = follow_ref(doc, suite, "Protocols", warn)?;
    if let Some(id) = protocol.get("PROTOCOL_ID") {
        let id = trim(id);
        if !same_ignoring_case(id.as_str(), "IPSEC_ESP") {
            let mut s = "phase 2 protocol ".to_owned();
            s.append(id.as_str());
            s.append(" (only ESP is implemented)");
            return Err(ImportError::Unsupported(s));
        }
    }
    let p2 = follow_ref(doc, protocol, "Transforms", warn)?;
    let p = import_esp_transform(p2)?;
    assert(warn@ =~= old(warn)@ + (phase_two(doc@, conn@)->Ok_0).1);
    Ok(p)
}

/// The address in a field that must be there.
pub open spec fn address_field(s: SectionView, field: Seq<char>) -> Result<Ipv4Addr, ErrorView> {
    match required_field(s, field) {
        Err(e) => Err(e),
        Ok(v) => match address(trimmed(v)) {
            Some(a) => Ok(a),
            None => Err(
                ErrorView::BadValue { field, value: trimmed(v), why: "not an IPv4 address"@ },
            ),
        },
    }
}

fn ipv4(s: &Section, field: &'static str) -> (r: Result<Ipv4Addr, ImportError>)
    ensures
        match r {
            Ok(a) => address_field(s@, field@) == Ok::<Ipv4Addr, ErrorView>(a),
            Err(e) => address_field(s@, field@) == Err::<Ipv4Addr, ErrorView>(e@),
        },
{
    let v = trim(required(s, field)?);
    match Ipv4Addr::parse(v.as_str()) {
        Some(a) => Ok(a),
        None => Err(ImportError::BadValue { field, value: v, why: "not an IPv4 address" }),
    }
}

/// The network that a remote-id section names.
pub open spec fn selector_of(id: SectionView) -> Result<Ipv4Net, ErrorView> {
    if id_kind(id) == "IPV4_ADDR_SUBNET"@ {
        match address_field(id, "Network"@) {
            Err(e) => Err(e),
            Ok(addr) => match address_field(id, "Netmask"@) {
                Err(e) => Err(e),
                Ok(mask) => match prefix_of(mask) {
                    Some(n) => Ok(Ipv4Net { addr, prefix_len: n }),
                    None => Err(
                        ErrorView::BadValue {
                            field: "Netmask"@,
                            value: mask.dotted(),
                            why: "not a contiguous netmask"@,
                        },
                    ),
                },
            },
        }
    } else if id_kind(id) == "IPV4_ADDR"@ {
        match address_field(id, "Address"@) {
            Err(e) => Err(e),
            Ok(addr) => Ok(Ipv4Net { addr, prefix_len: 32 }),
        }
    } else {
        Err(
            ErrorView::Unsupported(
                "remote selector type "@ + id_kind(id)
                    + " (only IPV4_ADDR and IPV4_ADDR_SUBNET are implemented)"@,
            ),
        )
    }
}

fn import_selector(id: &Section) -> (r: Result<Ipv4Net, ImportError>)
    ensures
        match r {
            Ok(n) => selector_of(id@) == Ok::<Ipv4Net, ErrorView>(n),
            Err(e) => selector_of(id@) == Err::<Ipv4Net, ErrorView>(e@),
        },
{
    let kind = id_type(id);
    if same(kind.as_str(), "IPV4_ADDR_SUBNET") {
        let addr = ipv4(id, "Network")?;
        let mask = ipv4(id, "Netmask")?;
        match Ipv4Net::from_addr_and_mask(addr, mask) {
            Some(n) => Ok(n),
            None => Err(
                ImportError::BadValue {
                    field: "Netmask",
                    value: mask.to_text(),
                    why: "not a contiguous netmask",
                },
            ),
        }
    } else if same(kind.as_str(), "IPV4_ADDR") {
        let addr = ipv4(id, "Address")?;
        Ok(Ipv4Net { addr, prefix_len: 32 })
    } else {
        let mut s = "remote selector type ".to_owned();
        s.append(kind.as_str());
        s.append(" (only IPV4_ADDR and IPV4_ADDR_SUBNET are implemented)");
        Err(ImportError::Unsupported(s))
    }
}

/// The traffic selectors. `0.0.0.0/0` is how these profiles say "full tunnel".
pub open spec fn selectors_of(doc: Seq<SectionView>, conn: SectionView) -> Result<
    (Seq<Ipv4Net>, Seq<Seq<char>>),
    ErrorView,
> {
    match conn.get("Remote-ID"@) {
        None => Ok(
            (
                Seq::empty(),
                seq![
                    "the profile names no remote networks; the gateway decides what the tunnel carries"@,
                ],
            ),
        ),
        Some(id_ref) => match section_of(doc, id_ref) {
            Err(e) => Err(e),
            Ok(id) => match selector_of(id) {
                Err(e) => Err(e),
                Ok(n) => Ok((seq![n], Seq::empty())),
            },
        },
    }
}

fn remote_selectors(doc: &Document, conn: &Section, warn: &mut Warnings) -> (r: Result<
    Vec<Ipv4Net>,
    ImportError,
>)
    ensures
        match r {
            Ok(v) => selectors_of(doc@, conn@) matches Ok(x) && x.0 == v@ && final(warn)@ == old(warn)@ + x.1,
            Err(e) => selectors_of(doc@, conn@) matches Err(x) && x == e@,
        },
{
    assert(old(warn)@ + Seq::<Seq<char>>::empty() =~= old(warn)@);
    let mut nets: Vec<Ipv4Net> = Vec::new();
    match conn.get("Remote-ID") {
        None => {
            warn.warn(
                "the profile names no remote networks; the gateway decides what the tunnel carries".to_owned(),
            );
            assert(nets@ =~= Seq::empty());
            Ok(nets)
        },
        Some(id_ref) => {
            let id = section(doc, id_ref)?;
            let n = import_selector(id)?;
            nets.push(n);
            assert(nets@ =~= seq![n]);
            Ok(nets)
        },
    }
}

/// Whether the peer announces XAuth: anything but `0`.
pub open spec fn announces_xauth(peer: SectionView) -> bool {
    match peer.get("Xauth"@) {
        Some(v) => trimmed(v) != "0"@,
        None => false,
    }
}

/// The warnings about XAuth and NAT traversal. `Xauth = 0` cannot be trusted: gateways have
/// been seen to refuse phase 1 unless XAuth is offered all the same.
pub open spec fn closing_notes(peer: SectionView) -> Seq<Seq<char>> {
    note(
        announces_xauth(peer),
        "the gateway requires XAuth; you will be asked for a username and password on connect"@,
    ) + note(
        peer.get("Xauth"@) is Some && !announces_xauth(peer),
        "the profile says that the gateway wants no XAuth (Xauth = 0), which cannot be trusted — if it rejects phase 1 with AUTHENTICATION_FAILED, turn on the user authentication round"@,
    ) + note(
        peer.get("NATT_ENABLED"@) is Some && trimmed(peer.get("NATT_ENABLED"@)->0) == "0"@,
        "the profile disables NAT traversal; charon negotiates it whenever the path needs it, so this was ignored"@,
    )
}

fn import_closing(peer: &Section, warn: &mut Warnings) -> (r: bool)
    ensures
        r == announces_xauth(peer@),
        final(warn)@ == old(warn)@ + closing_notes(peer@),
{
    let mut xauth: bool = false;
    if let Some(v) = peer.get("Xauth") {
        if same(trim(v).as_str(), "0") {
            warn.warn(
                "the profile says that the gateway wants no XAuth (Xauth = 0), which cannot be trusted — if it rejects phase 1 with AUTHENTICATION_FAILED, turn on the user authentication round".to_owned(),
            );
        } else {
            xauth = true;
            warn.warn(
                "the gateway requires XAuth; you will be asked for a username and password on connect".to_owned(),
            );
        }
    }
    if let Some(v) = peer.get("NATT_ENABLED") {
        if same(trim(v).as_str(), "0") {
            warn.warn(
                "the profile disables NAT traversal; charon negotiates it whenever the path needs it, so this was ignored".to_owned(),
            );
        }
    }
    assert(warn@ =~= old(warn)@ + closing_notes(peer@));
    xauth
}

/// The seconds between liveness probes: `DPD-interval` of `[General]`, or 30.
pub open spec fn dpd_delay_of(doc: Seq<SectionView>) -> u32 {
    match find_section(doc, "General"@) {
        None => 30,
        Some(g) => match g.get("DPD-interval"@) {
            None => 30,
            Some(v) => match number_up_to(trimmed(v), u32::MAX as nat) {
                Some(n) => n as u32,
                None => 30,
            },
        },
    }
}

fn import_dpd_delay(doc: &Document) -> (r: u32)
    ensures
        r == dpd_delay_of(doc@),
{
    if let Some(g) = doc.section("General") {
        if let Some(v) = g.get("DPD-interval") {
            if let Some(n) = parse_up_to(trim(v).as_str(), u32::MAX as u64) {
                return n as u32;
            }
        }
    }
    30
}

/// What a document comes to.
pub open spec fn imported_document(doc: Seq<SectionView>) -> Result<ProfileView, ErrorView> {
    match peer_of(doc) {
        Err(e) => Err(e),
        Ok(peer) => match gateway_of(peer.1) {
            Err(e) => Err(e),
            Ok(gateway) => match secret_of(peer.1) {
                Err(e) => Err(e),
                Ok(secret) => match identity_of(doc, peer.1) {
                    Err(e) => Err(e),
                    Ok(id) => match phase_one(doc, peer.1) {
                        Err(e) => Err(e),
                        Ok(p1) => match connection_of(doc, peer.0) {
                            Err(e) => Err(e),
                            Ok(conn) => match phase_two(doc, conn.0) {
                                Err(e) => Err(e),
                                Ok(p2) => match selectors_of(doc, conn.0) {
                                    Err(e) => Err(e),
                                    Ok(nets) => Ok(
                                        ProfileView {
                                            config: ConfigView {
                                                name: without_suffix(peer.0, "-P1"@),
                                                gateway: gateway.0,
                                                local_id: id.0,
                                                local_id_type: id.1,
                                                secret,
                                                ike_version: IkeVersion::V1,
                                                user_auth: if announces_xauth(peer.1) {
                                                    Some(
                                                        UserAuthView {
                                                            username: None,
                                                            can_save: true,
                                                            otp: false,
                                                        },
                                                    )
                                                } else {
                                                    None
                                                },
                                                ike_enc: p1.0.enc,
                                                ike_integ: p1.0.integ,
                                                ike_prf: p1.0.integ.prf(),
                                                ike_dh: p1.0.dh,
                                                esp_enc: p2.0.enc,
                                                esp_integ: p2.0.integ,
                                                pfs: p2.0.pfs,
                                                remote_subnets: nets.0,
                                                request_virtual_ip: true,
                                                compression: false,
                                                dpd: DpdConfig {
                                                    delay_secs: dpd_delay_of(doc),
                                                    auto_reconnect: true,
                                                },
                                                dns: DnsView {
                                                    servers: Seq::empty(),
                                                    domain: None,
                                                },
                                            },
                                            warnings: peer.2 + gateway.1 + id.2 + p1.1 + conn.1
                                                + p2.1 + nets.1 + closing_notes(peer.1),
                                        },
                                    ),
                                },
                            },
                        },
                    },
                },
            },
        },
    }
}

/// What the text of a profile comes to.
pub open spec fn imported_text(input: Seq<char>) -> Result<ProfileView, ErrorView> {
    match document(input) {
        Err(e) => Err(ErrorView::Ini(e)),
        Ok(doc) => imported_document(doc),
    }
}

/// Imports a parsed `.tgb`.
pub fn import_document(doc: &Document) -> (r: Result<ImportedProfile, ImportError>)
    ensures
        match r {
            Ok(p) => imported_document(doc@) == Ok::<ProfileView, ErrorView>(p@),
            Err(e) => imported_document(doc@) == Err::<ProfileView, ErrorView>(e@),
        },
{
    let mut warn = Warnings::new();
    let (peer_name, peer) = isakmp_peer(doc, &mut warn)?;
    let name = strip_suffix(peer_name.as_str(), "-P1");
    let gateway = import_gateway(peer, &mut warn)?;
    let secret = import_secret(peer)?;
    let (local_id, local_id_type) = local_identity(doc, peer, &mut warn)?;
    let p1 = import_phase_one(doc, peer, &mut warn)?;
    let conn = connection(doc, peer_name.as_str(), &mut warn)?;
    let p2 = import_phase_two(doc, conn, &mut warn)?;
    let remote_subnets = remote_selectors(doc, conn, &mut warn)?;
    let user_auth = if import_closing(peer, &mut warn) {
        Some(UserAuth { username: None, can_save: true, otp: false })
    } else {
        None
    };
    assert(imported_document(doc@) is Ok);
    assert(warn@ =~= (imported_document(doc@)->Ok_0).warnings);
    let config = ConnectionConfig {
        name,
        gateway,
        local_id,
        local_id_type,
        auth: AuthMethod::PresharedKey(secret),
        ike_version: IkeVersion::V1,
        user_auth,
        ike_enc: p1.enc,
        ike_integ: p1.integ,
        ike_prf: p1.integ.matching_prf(),
        ike_dh: p1.dh,
        esp_enc: p2.enc,
        esp_integ: p2.integ,
        pfs: p2.pfs,
        remote_subnets,
        // The gateway hands out the tunnel address by mode config and expects it as the
        // phase-2 selector; without it quick mode is answered with INVALID_ID_INFORMATION.
        request_virtual_ip: true,
        compression: false,
        dpd: DpdConfig { delay_secs: import_dpd_delay(doc), auto_reconnect: true },
        dns: DnsConfig::default(),
    };
    assert(config@ == (imported_document(doc@)->Ok_0).config);
    Ok(ImportedProfile { config, warnings: warn.into_vec() })
}

/// Imports a `.tgb` profile.
pub fn import(input: &str) -> (r: Result<ImportedProfile, ImportError>)
    ensures
        match r {
            Ok(p) => imported_text(input@) == Ok::<ProfileView, ErrorView>(p@),
            Err(e) => imported_text(input@) == Err::<ProfileView, ErrorView>(e@),
        },
{
    match ini::parse(input) {
        Ok(doc) => import_document(&doc),
        Err(e) => Err(ImportError::Ini(e)),
    }
}

/// Whether two sections differ in nothing but the value of a pre-shared key that is there, or
/// blank, in both.
pub open spec fn differ_in_secret(s: SectionView, t: SectionView) -> bool {
    &&& s.name == t.name
    &&& s.entries.len() == t.entries.len()
    &&& s.get("Authentication"@) is Some <==> t.get("Authentication"@) is Some
    &&& secret_of(s) is Ok <==> secret_of(t) is Ok
    &&& forall|k: Seq<char>| k != "Authentication"@ ==> #[trigger] s.get(k) == t.get(k)
}

/// Whether two documents differ in nothing but the values of pre-shared keys. The two sections
/// whose entries are read by their place hold none.
pub open spec fn only_secrets_differ(doc: Seq<SectionView>, other: Seq<SectionView>) -> bool {
    &&& doc.len() == other.len()
    &&& forall|i: int| 0 <= i < doc.len() ==> #[trigger] differ_in_secret(doc[i], other[i])
    &&& forall|i: int|
        0 <= i < doc.len() && (doc[i].name == "Phase 1"@ || doc[i].name == "Phase 2"@)
            ==> #[trigger] doc[i].entries == other[i].entries
}

proof fn lemma_other_keys()
    ensures
        "Address"@ != "Authentication"@,
        "ID"@ != "Authentication"@,
        "ID-Type"@ != "Authentication"@,
        "Value"@ != "Authentication"@,
        "FQDN"@ != "Authentication"@,
        "Email"@ != "Authentication"@,
        "Configuration"@ != "Authentication"@,
        "EXCHANGE_TYPE"@ != "Authentication"@,
        "Transforms"@ != "Authentication"@,
        "AUTHENTICATION_METHOD"@ != "Authentication"@,
        "ENCRYPTION_ALGORITHM"@ != "Authentication"@,
        "KEY_LENGTH"@ != "Authentication"@,
        "HASH_ALGORITHM"@ != "Authentication"@,
        "GROUP_DESCRIPTION"@ != "Authentication"@,
        "ISAKMP-peer"@ != "Authentication"@,
        "Suites"@ != "Authentication"@,
        "Protocols"@ != "Authentication"@,
        "PROTOCOL_ID"@ != "Authentication"@,
        "ENCAPSULATION_MODE"@ != "Authentication"@,
        "TRANSFORM_ID"@ != "Authentication"@,
        "AUTHENTICATION_ALGORITHM"@ != "Authentication"@,
        "Remote-ID"@ != "Authentication"@,
        "Network"@ != "Authentication"@,
        "Netmask"@ != "Authentication"@,
        "Xauth"@ != "Authentication"@,
        "NATT_ENABLED"@ != "Authentication"@,
        "DPD-interval"@ != "Authentication"@,
{
    reveal_strlit("Authentication");
    reveal_strlit("Address");
    reveal_strlit("ID");
    reveal_strlit("ID-Type");
    reveal_strlit("Value");
    reveal_strlit("FQDN");
    reveal_strlit("Email");
    reveal_strlit("Configuration");
    reveal_strlit("EXCHANGE_TYPE");
    reveal_strlit("Transforms");
    reveal_strlit("AUTHENTICATION_METHOD");
    reveal_strlit("ENCRYPTION_ALGORITHM");
    reveal_strlit("KEY_LENGTH");
    reveal_strlit("HASH_ALGORITHM");
    reveal_strlit("GROUP_DESCRIPTION");
    reveal_strlit("ISAKMP-peer");
    reveal_strlit("Suites");
    reveal_strlit("Protocols");
    reveal_strlit("PROTOCOL_ID");
    reveal_strlit("ENCAPSULATION_MODE");
    reveal_strlit("TRANSFORM_ID");
    reveal_strlit("AUTHENTICATION_ALGORITHM");
    reveal_strlit("Remote-ID");
    reveal_strlit("Network");
    reveal_strlit("Netmask");
    reveal_strlit("Xauth");
    reveal_strlit("NATT_ENABLED");
    reveal_strlit("DPD-interval");
    assert("Authentication"@.len() == 14);
    assert("HASH_ALGORITHM"@[0] == 'H' && "Authentication"@[0] == 'A');
}

proof fn lemma_found_alike(
    doc: Seq<SectionView>,
    other: Seq<SectionView>,
    name: Seq<char>,
    i: int,
)
    requires
        only_secrets_differ(doc, other),
        0 <= i,
    ensures
        match (section_from(doc, name, i), section_from(other, name, i)) {
            (Some(s), Some(t)) => differ_in_secret(s, t) && (name == "Phase 1"@ || name
                == "Phase 2"@ ==> s.entries == t.entries),
            (None, None) => true,
            _ => false,
        },
    decreases doc.len() - i,
{
    if i < doc.len() {
        assert(differ_in_secret(doc[i], other[i]));
        if doc[i].name == name {
            if name == "Phase 1"@ || name == "Phase 2"@ {
                assert(doc[i].entries == other[i].entries);
            }
        } else {
            lemma_found_alike(doc, other, name, i + 1);
        }
    }
}

/// Whether two results differ in nothing but the secret of a section, and their notes agree.
spec fn sections_alike(
    x: Result<(SectionView, Seq<Seq<char>>), ErrorView>,
    y: Result<(SectionView, Seq<Seq<char>>), ErrorView>,
) -> bool {
    match (x, y) {
        (Ok(s), Ok(t)) => differ_in_secret(s.0, t.0) && s.1 == t.1,
        (Err(e), Err(f)) => e == f,
        _ => false,
    }
}

proof fn lemma_section_alike(doc: Seq<SectionView>, other: Seq<SectionView>, name: Seq<char>)
    requires
        only_secrets_differ(doc, other),
    ensures
        match (section_of(doc, name), section_of(other, name)) {
            (Ok(s), Ok(t)) => differ_in_secret(s, t),
            (Err(e), Err(f)) => e == f,
            _ => false,
        },
{
    lemma_found_alike(doc, other, trimmed(name), 0);
}

proof fn lemma_follow_alike(
    doc: Seq<SectionView>,
    other: Seq<SectionView>,
    s: SectionView,
    t: SectionView,
    field: Seq<char>,
)
    requires
        only_secrets_differ(doc, other),
        differ_in_secret(s, t),
        field != "Authentication"@,
    ensures
        sections_alike(follow(doc, s, field), follow(other, t, field)),
{
    assert(s.get(field) == t.get(field));
    if let Some(v) = s.get(field) {
        if let Ok(x) = first_listed(v, field) {
            lemma_section_alike(doc, other, x.0);
        }
    }
}

proof fn lemma_direct_peer_alike(doc: Seq<SectionView>, other: Seq<SectionView>)
    requires
        only_secrets_differ(doc, other),
    ensures
        match (direct_peer(doc), direct_peer(other)) {
            (Ok(x), Ok(y)) => x.0 == y.0 && differ_in_secret(x.1, y.1) && x.2 == y.2,
            (Err(e), Err(f)) => e == f,
            _ => false,
        },
{
    lemma_found_alike(doc, other, "Phase 1"@, 0);
    if let Some(p1) = find_section(doc, "Phase 1"@) {
        if p1.entries.len() > 0 {
            lemma_section_alike(doc, other, p1.entries[0].1);
        }
    }
}

proof fn lemma_peer_alike(doc: Seq<SectionView>, other: Seq<SectionView>)
    requires
        only_secrets_differ(doc, other),
    ensures
        match (peer_of(doc), peer_of(other)) {
            (Ok(x), Ok(y)) => x.0 == y.0 && differ_in_secret(x.1, y.1) && x.2 == y.2,
            (Err(e), Err(f)) => e == f,
            _ => false,
        },
{
    lemma_other_keys();
    lemma_direct_peer_alike(doc, other);
    lemma_found_alike(doc, other, "Phase 2"@, 0);
    if let Some(p2) = find_section(doc, "Phase 2"@) {
        if p2.entries.len() > 0 {
            if let Ok(x) = first_listed(p2.entries[0].1, "Phase 2"@) {
                lemma_section_alike(doc, other, x.0);
                if let Ok(conn) = section_of(doc, x.0) {
                    let same = section_of(other, x.0)->Ok_0;
                    assert(conn.get("ISAKMP-peer"@) == same.get("ISAKMP-peer"@));
                    if let Some(peer_ref) = conn.get("ISAKMP-peer"@) {
                        lemma_section_alike(doc, other, peer_ref);
                    }
                }
            }
        }
    }
}

proof fn lemma_identity_alike(
    doc: Seq<SectionView>,
    other: Seq<SectionView>,
    s: SectionView,
    t: SectionView,
)
    requires
        only_secrets_differ(doc, other),
        differ_in_secret(s, t),
    ensures
        identity_of(doc, s) == identity_of(other, t),
{
    lemma_other_keys();
    assert(s.get("ID"@) == t.get("ID"@));
    if let Some(id_ref) = s.get("ID"@) {
        lemma_section_alike(doc, other, id_ref);
        if let Ok(x) = section_of(doc, id_ref) {
            let y = section_of(other, id_ref)->Ok_0;
            assert(x.get("ID-Type"@) == y.get("ID-Type"@));
            assert(x.get("Address"@) == y.get("Address"@));
            assert(x.get("Value"@) == y.get("Value"@));
            assert(x.get("FQDN"@) == y.get("FQDN"@));
            assert(x.get("Email"@) == y.get("Email"@));
            assert(x.get("ID"@) == y.get("ID"@));
        }
    }
}

proof fn lemma_transform_alike(s: SectionView, t: SectionView)
    requires
        differ_in_secret(s, t),
    ensures
        transform_of(s) == transform_of(t),
{
    lemma_other_keys();
    assert(s.get("AUTHENTICATION_METHOD"@) == t.get("AUTHENTICATION_METHOD"@));
    assert(s.get("ENCRYPTION_ALGORITHM"@) == t.get("ENCRYPTION_ALGORITHM"@));
    assert(s.get("KEY_LENGTH"@) == t.get("KEY_LENGTH"@));
    assert(s.get("HASH_ALGORITHM"@) == t.get("HASH_ALGORITHM"@));
    assert(s.get("GROUP_DESCRIPTION"@) == t.get("GROUP_DESCRIPTION"@));
}

proof fn lemma_phase_one_alike(
    doc: Seq<SectionView>,
    other: Seq<SectionView>,
    s: SectionView,
    t: SectionView,
)
    requires
        only_secrets_differ(doc, other),
        differ_in_secret(s, t),
    ensures
        phase_one(doc, s) == phase_one(other, t),
{
    lemma_other_keys();
    assert(s.get("Configuration"@) == t.get("Configuration"@));
    if let Some(name) = s.get("Configuration"@) {
        lemma_section_alike(doc, other, name);
        if let Ok(mode) = section_of(doc, name) {
            let same = section_of(other, name)->Ok_0;
            assert(mode.get("EXCHANGE_TYPE"@) == same.get("EXCHANGE_TYPE"@));
            lemma_follow_alike(doc, other, mode, same, "Transforms"@);
            if let Ok(x) = follow(doc, mode, "Transforms"@) {
                lemma_transform_alike(x.0, follow(other, same, "Transforms"@)->Ok_0.0);
            }
        }
    }
}

proof fn lemma_connection_alike(
    doc: Seq<SectionView>,
    other: Seq<SectionView>,
    peer_name: Seq<char>,
)
    requires
        only_secrets_differ(doc, other),
    ensures
        sections_alike(connection_of(doc, peer_name), connection_of(other, peer_name)),
{
    lemma_other_keys();
    lemma_found_alike(doc, other, "Phase 2"@, 0);
    if let Some(p2) = find_section(doc, "Phase 2"@) {
        if p2.entries.len() > 0 {
            if let Ok(x) = first_listed(p2.entries[0].1, "Phase 2"@) {
                lemma_section_alike(doc, other, x.0);
                if let Ok(conn) = section_of(doc, x.0) {
                    let same = section_of(other, x.0)->Ok_0;
                    assert(conn.get("ISAKMP-peer"@) == same.get("ISAKMP-peer"@));
                }
            }
        }
    }
}

proof fn lemma_esp_transform_alike(s: SectionView, t: SectionView)
    requires
        differ_in_secret(s, t),
    ensures
        esp_transform_of(s) == esp_transform_of(t),
{
    lemma_other_keys();
    assert(s.get("ENCAPSULATION_MODE"@) == t.get("ENCAPSULATION_MODE"@));
    assert(s.get("TRANSFORM_ID"@) == t.get("TRANSFORM_ID"@));
    assert(s.get("KEY_LENGTH"@) == t.get("KEY_LENGTH"@));
    assert(s.get("AUTHENTICATION_ALGORITHM"@) == t.get("AUTHENTICATION_ALGORITHM"@));
    assert(s.get("GROUP_DESCRIPTION"@) == t.get("GROUP_DESCRIPTION"@));
}

proof fn lemma_phase_two_alike(
    doc: Seq<SectionView>,
    other: Seq<SectionView>,
    s: SectionView,
    t: SectionView,
)
    requires
        only_secrets_differ(doc, other),
        differ_in_secret(s, t),
    ensures
        phase_two(doc, s) == phase_two(other, t),
{
    lemma_other_keys();
    assert(s.get("Configuration"@) == t.get("Configuration"@));
    if let Some(name) = s.get("Configuration"@) {
        lemma_section_alike(doc, other, name);
        if let Ok(quick) = section_of(doc, name) {
            let quick2 = section_of(other, name)->Ok_0;
            lemma_follow_alike(doc, other, quick, quick2, "Suites"@);
            if let Ok(suite) = follow(doc, quick, "Suites"@) {
                let suite2 = follow(other, quick2, "Suites"@)->Ok_0;
                lemma_follow_alike(doc, other, suite.0, suite2.0, "Protocols"@);
                if let Ok(protocol) = follow(doc, suite.0, "Protocols"@) {
                    let protocol2 = follow(other, suite2.0, "Protocols"@)->Ok_0;
                    assert(protocol.0.get("PROTOCOL_ID"@) == protocol2.0.get("PROTOCOL_ID"@));
                    lemma_follow_alike(doc, other, protocol.0, protocol2.0, "Transforms"@);
                    if let Ok(x) = follow(doc, protocol.0, "Transforms"@) {
                        let y = follow(other, protocol2.0, "Transforms"@)->Ok_0;
                        lemma_esp_transform_alike(x.0, y.0);
                    }
                }
            }
        }
    }
}

proof fn lemma_selectors_alike(
    doc: Seq<SectionView>,
    other: Seq<SectionView>,
    s: SectionView,
    t: SectionView,
)
    requires
        only_secrets_differ(doc, other),
        differ_in_secret(s, t),
    ensures
        selectors_of(doc, s) == selectors_of(other, t),
{
    lemma_other_keys();
    assert(s.get("Remote-ID"@) == t.get("Remote-ID"@));
    if let Some(id_ref) = s.get("Remote-ID"@) {
        lemma_section_alike(doc, other, id_ref);
        if let Ok(x) = section_of(doc, id_ref) {
            let y = section_of(other, id_ref)->Ok_0;
            assert(x.get("ID-Type"@) == y.get("ID-Type"@));
            assert(x.get("Network"@) == y.get("Network"@));
            assert(x.get("Netmask"@) == y.get("Netmask"@));
            assert(x.get("Address"@) == y.get("Address"@));
        }
    }
}

/// Nothing that an import says or decides, but for the key itself, depends on the pre-shared key:
/// no warning and no error can repeat it.
pub proof fn law_import_findings_hide_the_secret(doc: Seq<SectionView>, other: Seq<SectionView>)
    requires
        only_secrets_differ(doc, other),
    ensures
        match (imported_document(doc), imported_document(other)) {
            (Ok(x), Ok(y)) => {
                &&& x.warnings == y.warnings
                &&& y.config == (ConfigView { secret: y.config.secret, ..x.config })
            },
            (Err(e), Err(f)) => e == f,
            _ => false,
        },
{
    lemma_other_keys();
    lemma_peer_alike(doc, other);
    if let Ok(x) = peer_of(doc) {
        let y = peer_of(other)->Ok_0;
        let s = x.1;
        let t = y.1;
        assert(s.get("Address"@) == t.get("Address"@));
        assert(s.get("Xauth"@) == t.get("Xauth"@));
        assert(s.get("NATT_ENABLED"@) == t.get("NATT_ENABLED"@));
        assert(gateway_of(s) == gateway_of(t));
        assert(announces_xauth(s) == announces_xauth(t));
        assert(closing_notes(s) == closing_notes(t));
        lemma_identity_alike(doc, other, s, t);
        lemma_phase_one_alike(doc, other, s, t);
        lemma_connection_alike(doc, other, x.0);
        if let Ok(conn) = connection_of(doc, x.0) {
            let conn2 = connection_of(other, x.0)->Ok_0;
            lemma_phase_two_alike(doc, other, conn.0, conn2.0);
            lemma_selectors_alike(doc, other, conn.0, conn2.0);
        }
        lemma_found_alike(doc, other, "General"@, 0);
        if let Some(g) = find_section(doc, "General"@) {
            let h = find_section(other, "General"@)->0;
            assert(g.get("DPD-interval"@) == h.get("DPD-interval"@));
        }
        assert(dpd_delay_of(doc) == dpd_delay_of(other));
    }
}

/// A gateway that answers only from inside is reported: the address of the warning is the one that
/// is dialled.
pub proof fn law_private_gateway_is_reported(doc: Seq<SectionView>)
    ensures
        imported_document(doc) matches Ok(x) ==> (is_internal_gateway(x.config.gateway) ==> exists|
            i: int,
        |
            0 <= i < x.warnings.len() && begins(
                #[trigger] x.warnings[i],
                "the profile dials "@ + x.config.gateway + ", a private address"@,
            )),
{
    if let Ok(x) = imported_document(doc) {
        if is_internal_gateway(x.config.gateway) {
            let peer = peer_of(doc)->Ok_0;
            let found = gateway_of(peer.1)->Ok_0;
            let head = "the profile dials "@ + found.0 + ", a private address"@;
            reveal_strlit(", a private address");
            reveal_strlit(
                ", a private address — these exports are often generated against the firewall's internal interface, so this may need to be changed to its public address before it will connect from outside",
            );
            let i = peer.2.len() as int;
            assert(x.warnings[i] == found.1[0]);
            assert(found.1[0].take(head.len() as int) =~= head);
        }
    }
}

/// A profile that imports names a gateway that is fit to be dialled.
pub proof fn law_imported_gateway_can_be_dialled(doc: Seq<SectionView>)
    ensures
        imported_document(doc) matches Ok(x) ==> is_gateway(x.config.gateway),
{
}

/// A profile whose first phase is not main mode is refused: aggressive mode would expose a hash of
/// the key.
pub proof fn law_aggressive_mode_is_refused(doc: Seq<SectionView>, peer: SectionView)
    requires
        ({
            let name = peer.get("Configuration"@);
            &&& name is Some
            &&& section_of(doc, name->0) is Ok
            &&& (section_of(doc, name->0)->Ok_0).get("EXCHANGE_TYPE"@) matches Some(v)
                && uppercase(trimmed(v)) != "ID_PROT"@
        }),
    ensures
        phase_one(doc, peer) matches Err(ErrorView::Unsupported(_)),
{
}

/// The sections that a profile is read from, from the connection of its second phase on.
pub struct Chain {
    pub connection: SectionView,
    pub peer_name: Seq<char>,
    pub peer: SectionView,
    pub main_mode: SectionView,
    pub ike: SectionView,
    pub quick_mode: SectionView,
    pub suite: SectionView,
    pub protocol: SectionView,
    pub esp: SectionView,
}

/// Whether a field of a section names another section.
pub open spec fn points_to(
    doc: Seq<SectionView>,
    s: SectionView,
    field: Seq<char>,
    t: SectionView,
) -> bool {
    exists|v: Seq<char>| #[trigger] is_first_entry(s, field, v) && is_first_section(doc, trimmed(v), t)
}

/// Whether a text that may list several names begins with that of a section.
pub open spec fn lists_first(doc: Seq<SectionView>, v: Seq<char>, t: SectionView) -> bool {
    listed(v, ',').len() > 0 && is_first_section(doc, trimmed(listed(v, ',')[0]), t)
}

/// Whether a field of a section that may list several sections begins with this one.
pub open spec fn begins_with(
    doc: Seq<SectionView>,
    s: SectionView,
    field: Seq<char>,
    t: SectionView,
) -> bool {
    exists|v: Seq<char>| #[trigger] is_first_entry(s, field, v) && lists_first(doc, v, t)
}

/// Whether a section has no entry with a key.
pub open spec fn has_no(s: SectionView, key: Seq<char>) -> bool {
    forall|j: int| 0 <= j < s.entries.len() ==> (#[trigger] s.entries[j]).0 != key
}

/// Whether the first entry of a section with a fixed name leads to a connection.
pub open spec fn is_connection(doc: Seq<SectionView>, t: SectionView) -> bool {
    exists|p2: SectionView|
        #[trigger] is_first_section(doc, "Phase 2"@, p2) && p2.entries.len() > 0 && lists_first(
            doc,
            p2.entries[0].1,
            t,
        )
}

/// Whether a peer is that of a connection: the one that it names, or else the first of all.
pub open spec fn is_peer(
    doc: Seq<SectionView>,
    connection: SectionView,
    name: Seq<char>,
    peer: SectionView,
) -> bool {
    &&& is_first_section(doc, name, peer)
    &&& (exists|v: Seq<char>| #[trigger] is_first_entry(connection, "ISAKMP-peer"@, v) && name
        == trimmed(v)) || has_no(connection, "ISAKMP-peer"@) && exists|p1: SectionView|
        #[trigger] is_first_section(doc, "Phase 1"@, p1) && p1.entries.len() > 0 && name == trimmed(
            p1.entries[0].1,
        )
}

/// Whether each section of a chain is reached from the one before it.
pub open spec fn is_chain(doc: Seq<SectionView>, ch: Chain) -> bool {
    &&& is_connection(doc, ch.connection)
    &&& is_peer(doc, ch.connection, ch.peer_name, ch.peer)
    &&& points_to(doc, ch.peer, "Configuration"@, ch.main_mode)
    &&& begins_with(doc, ch.main_mode, "Transforms"@, ch.ike)
    &&& points_to(doc, ch.connection, "Configuration"@, ch.quick_mode)
    &&& begins_with(doc, ch.quick_mode, "Suites"@, ch.suite)
    &&& begins_with(doc, ch.suite, "Protocols"@, ch.protocol)
    &&& begins_with(doc, ch.protocol, "Transforms"@, ch.esp)
}

/// Whether a field names AES, and the key length beside it is that of a cipher: without a length
/// that can be read it is the longest.
pub open spec fn states_cipher(s: SectionView, field: Seq<char>, a: EncAlg) -> bool {
    &&& exists|v: Seq<char>| #[trigger] is_first_entry(s, field, v) && (uppercase(trimmed(v)) == "AES"@
        || uppercase(trimmed(v)) == "AES_CBC"@)
    &&& match key_bits(s.get("KEY_LENGTH"@)) {
        Some(n) => n == 128 && a == EncAlg::Aes128 || n == 192 && a == EncAlg::Aes192 || n == 256
            && a == EncAlg::Aes256,
        None => a == EncAlg::Aes256,
    }
}

/// Whether a text names a hash.
pub open spec fn names_hash(n: Seq<char>, a: IntegAlg) -> bool {
    ||| a == IntegAlg::Sha1 && (n == "SHA"@ || n == "SHA1"@ || n == "HMAC_SHA1"@ || n
        == "HMAC_SHA"@)
    ||| a == IntegAlg::Sha256 && (n == "SHA2_256"@ || n == "HMAC_SHA2_256"@ || n == "SHA256"@)
    ||| a == IntegAlg::Sha384 && (n == "SHA2_384"@ || n == "HMAC_SHA2_384"@ || n == "SHA384"@)
    ||| a == IntegAlg::Sha512 && (n == "SHA2_512"@ || n == "HMAC_SHA2_512"@ || n == "SHA512"@)
}

/// Whether a field names a hash.
pub open spec fn states_hash(s: SectionView, field: Seq<char>, a: IntegAlg) -> bool {
    exists|v: Seq<char>| #[trigger] is_first_entry(s, field, v) && names_hash(uppercase(trimmed(v)), a)
}

/// Whether a text names a group.
pub open spec fn names_group(n: Seq<char>, g: DhGroup) -> bool {
    ||| g == DhGroup::Modp1024 && n == "MODP_1024"@
    ||| g == DhGroup::Modp1536 && n == "MODP_1536"@
    ||| g == DhGroup::Modp2048 && n == "MODP_2048"@
    ||| g == DhGroup::Modp3072 && n == "MODP_3072"@
    ||| g == DhGroup::Modp4096 && n == "MODP_4096"@
    ||| g == DhGroup::Ecp256 && n == "ECP_256"@
    ||| g == DhGroup::Ecp384 && n == "ECP_384"@
}

/// Whether a field names a group.
pub open spec fn states_group(s: SectionView, g: DhGroup) -> bool {
    exists|v: Seq<char>|
        #[trigger] is_first_entry(s, "GROUP_DESCRIPTION"@, v) && names_group(
            uppercase(trimmed(v)),
            g,
        )
}

/// Whether a section states no group: it has no such field, or a blank one.
pub open spec fn states_no_group(s: SectionView) -> bool {
    has_no(s, "GROUP_DESCRIPTION"@) || exists|v: Seq<char>|
        #[trigger] is_first_entry(s, "GROUP_DESCRIPTION"@, v) && trimmed(v).len() == 0
}

/// Whether the algorithms of a connection are those of the two transforms: the IKE ones of the first
/// phase's, the ESP ones of the second phase's.
pub open spec fn is_negotiated(c: ConfigView, ike: SectionView, esp: SectionView) -> bool {
    &&& states_cipher(ike, "ENCRYPTION_ALGORITHM"@, c.ike_enc)
    &&& states_hash(ike, "HASH_ALGORITHM"@, c.ike_integ)
    &&& states_group(ike, c.ike_dh)
    &&& c.ike_prf.token() == "prf"@ + c.ike_integ.token()
    &&& states_cipher(esp, "TRANSFORM_ID"@, c.esp_enc)
    &&& states_hash(esp, "AUTHENTICATION_ALGORITHM"@, c.esp_integ)
    &&& match c.pfs {
        Some(g) => states_group(esp, g),
        None => states_no_group(esp),
    }
}

/// Whether the peer says what is dialled, and with which key and rounds.
pub open spec fn is_dialled(c: ConfigView, peer_name: Seq<char>, peer: SectionView) -> bool {
    &&& exists|v: Seq<char>| #[trigger] is_first_entry(peer, "Address"@, v) && c.gateway == trimmed(
        v,
    )
    &&& is_first_entry(peer, "Authentication"@, c.secret) && trimmed(c.secret).len() > 0
    &&& c.name == peer_name || c.name + "-P1"@ == peer_name
    &&& c.ike_version == IkeVersion::V1
    &&& c.user_auth is Some <==> exists|v: Seq<char>|
        #[trigger] is_first_entry(peer, "Xauth"@, v) && trimmed(v) != "0"@
}

/// Whether the connection says what the tunnel carries: one network where it names one.
pub open spec fn is_carried(doc: Seq<SectionView>, nets: Seq<Ipv4Net>, conn: SectionView) -> bool {
    &&& has_no(conn, "Remote-ID"@) ==> nets.len() == 0
    &&& !has_no(conn, "Remote-ID"@) ==> nets.len() == 1 && exists|id: SectionView|
        #[trigger] points_to(doc, conn, "Remote-ID"@, id) && is_selected(id, nets[0])
}

/// Whether the peer refers to the identity that is presented, where it refers to one.
pub open spec fn is_identified(
    doc: Seq<SectionView>,
    id: Option<Seq<char>>,
    kind: Option<IkeIdType>,
    peer: SectionView,
) -> bool {
    &&& has_no(peer, "ID"@) ==> id is None && kind is None
    &&& id matches Some(t) ==> t.len() > 0 && exists|s: SectionView|
        #[trigger] points_to(doc, peer, "ID"@, s) && is_presented(s, t, kind)
}

/// Whether a section states an address in a field.
pub open spec fn states_address(s: SectionView, field: Seq<char>, a: Ipv4Addr) -> bool {
    exists|v: Seq<char>| #[trigger] is_first_entry(s, field, v) && address(trimmed(v)) == Some(a)
}

/// Whether a section states a netmask of a length.
pub open spec fn states_netmask(s: SectionView, prefix_len: u8) -> bool {
    exists|m: Ipv4Addr|
        #[trigger] states_address(s, "Netmask"@, m) && prefix_of(m) == Some(prefix_len)
}

/// Whether a section is of a type.
pub open spec fn states_type(s: SectionView, kind: Seq<char>) -> bool {
    exists|v: Seq<char>| #[trigger] is_first_entry(s, "ID-Type"@, v) && uppercase(trimmed(v)) == kind
}

/// Whether a section selects a network: an address with a netmask, or one address alone.
pub open spec fn is_selected(s: SectionView, n: Ipv4Net) -> bool {
    ||| states_type(s, "IPV4_ADDR_SUBNET"@) && states_address(s, "Network"@, n.addr)
        && states_netmask(s, n.prefix_len)
    ||| states_type(s, "IPV4_ADDR"@) && states_address(s, "Address"@, n.addr) && n.prefix_len == 32
}

/// Whether a section states an identity, and its type where that is known.
pub open spec fn is_presented(s: SectionView, id: Seq<char>, kind: Option<IkeIdType>) -> bool {
    &&& exists|key: Seq<char>, v: Seq<char>|
        #[trigger] is_first_entry(s, key, v) && id == trimmed(v) && (key == "Address"@ || key
            == "Value"@ || key == "FQDN"@ || key == "Email"@ || key == "ID"@)
    &&& kind matches Some(k) ==> exists|v: Seq<char>|
        #[trigger] is_first_entry(s, "ID-Type"@, v) && {
            let n = uppercase(trimmed(v));
            ||| k == IkeIdType::Ipv4 && n == "IPV4_ADDR"@
            ||| k == IkeIdType::Fqdn && (n == "FQDN"@ || n == "DNS"@)
            ||| k == IkeIdType::Rfc822 && (n == "USER_FQDN"@ || n == "EMAIL"@ || n == "RFC822"@)
            ||| k == IkeIdType::KeyId && (n == "KEY_ID"@ || n == "KEYID"@)
        }
}

proof fn lemma_entry(s: SectionView, key: Seq<char>)
    ensures
        s.get(key) matches Some(v) ==> is_first_entry(s, key, v),
        s.get(key) is None <==> has_no(s, key),
        s.get(key) matches Some(v) ==> forall|w: Seq<char>|
            #[trigger] is_first_entry(s, key, w) ==> w == v,
{
    law_first_of_a_name_is_found(Seq::empty(), Seq::empty(), s, key);
    if let Some(v) = s.get(key) {
        let i = choose|i: int|
            0 <= i < s.entries.len() && #[trigger] s.entries[i] == (key, v) && forall|j: int|
                0 <= j < i ==> (#[trigger] s.entries[j]).0 != key;
        assert(s.entries[i].0 == key);
        assert forall|w: Seq<char>| #[trigger] is_first_entry(s, key, w) implies w == v by {
            let k = choose|k: int|
                0 <= k < s.entries.len() && #[trigger] s.entries[k] == (key, w) && forall|j: int|
                    0 <= j < k ==> (#[trigger] s.entries[j]).0 != key;
            assert(s.entries[k].0 == key);
            assert(k == i);
        }
    }
}

proof fn lemma_points(doc: Seq<SectionView>, s: SectionView, field: Seq<char>)
    ensures
        s.get(field) matches Some(v) ==> (section_of(doc, v) matches Ok(t) ==> points_to(
            doc,
            s,
            field,
            t,
        )),
        follow(doc, s, field) matches Ok(t) ==> begins_with(doc, s, field, t.0),
{
    lemma_entry(s, field);
    if let Some(v) = s.get(field) {
        law_first_of_a_name_is_found(doc, trimmed(v), s, field);
        if listed(v, ',').len() > 0 {
            law_first_of_a_name_is_found(doc, trimmed(listed(v, ',')[0]), s, field);
        }
    }
}

proof fn lemma_transforms(s: SectionView)
    ensures
        transform_of(s) matches Ok(p) ==> states_cipher(s, "ENCRYPTION_ALGORITHM"@, p.enc)
            && states_hash(s, "HASH_ALGORITHM"@, p.integ) && states_group(s, p.dh),
        esp_transform_of(s) matches Ok(p) ==> states_cipher(s, "TRANSFORM_ID"@, p.enc)
            && states_hash(s, "AUTHENTICATION_ALGORITHM"@, p.integ) && (match p.pfs {
            Some(g) => states_group(s, g),
            None => states_no_group(s),
        }),
{
    lemma_entry(s, "ENCRYPTION_ALGORITHM"@);
    lemma_entry(s, "HASH_ALGORITHM"@);
    lemma_entry(s, "GROUP_DESCRIPTION"@);
    lemma_entry(s, "TRANSFORM_ID"@);
    lemma_entry(s, "AUTHENTICATION_ALGORITHM"@);
}

proof fn lemma_connection_is_reached(doc: Seq<SectionView>, name: Seq<char>)
    ensures
        connection_of(doc, name) matches Ok(x) ==> is_connection(doc, x.0),
{
    if connection_of(doc, name) is Ok {
        let p2 = find_section(doc, "Phase 2"@)->0;
        law_first_of_a_name_is_found(doc, "Phase 2"@, p2, Seq::empty());
        let v = p2.entries[0].1;
        law_first_of_a_name_is_found(doc, trimmed(listed(v, ',')[0]), p2, Seq::empty());
    }
}

proof fn lemma_peer_is_reached(doc: Seq<SectionView>, name: Seq<char>)
    ensures
        (peer_of(doc), connection_of(doc, name)) matches (Ok(p), Ok(c)) ==> is_peer(
            doc,
            c.0,
            p.0,
            p.1,
        ),
{
    if peer_of(doc) is Ok && connection_of(doc, name) is Ok {
        let p = peer_of(doc)->Ok_0;
        let c = connection_of(doc, name)->Ok_0;
        lemma_entry(c.0, "ISAKMP-peer"@);
        law_first_of_a_name_is_found(doc, p.0, c.0, Seq::empty());
        law_first_of_a_name_is_found(doc, "Phase 1"@, c.0, Seq::empty());
        if c.0.get("ISAKMP-peer"@) is Some {
            assert(p.0 == trimmed(c.0.get("ISAKMP-peer"@)->0));
        }
    }
}

/// The sections that an import follows.
proof fn lemma_chain(doc: Seq<SectionView>) -> (ch: Chain)
    requires
        imported_document(doc) is Ok,
    ensures
        is_chain(doc, ch),
        is_negotiated((imported_document(doc)->Ok_0).config, ch.ike, ch.esp),
        ch.peer_name == (peer_of(doc)->Ok_0).0,
        ch.peer == (peer_of(doc)->Ok_0).1,
        ch.connection == (connection_of(doc, ch.peer_name)->Ok_0).0,
{
    let x = imported_document(doc)->Ok_0;
    let p = peer_of(doc)->Ok_0;
    let connection = (connection_of(doc, p.0)->Ok_0).0;
    lemma_connection_is_reached(doc, p.0);
    lemma_peer_is_reached(doc, p.0);
    lemma_points(doc, p.1, "Configuration"@);
    let main_mode = section_of(doc, p.1.get("Configuration"@)->0)->Ok_0;
    lemma_points(doc, main_mode, "Transforms"@);
    let ike = (follow(doc, main_mode, "Transforms"@)->Ok_0).0;
    lemma_points(doc, connection, "Configuration"@);
    let quick_mode = section_of(doc, connection.get("Configuration"@)->0)->Ok_0;
    lemma_points(doc, quick_mode, "Suites"@);
    let suite = (follow(doc, quick_mode, "Suites"@)->Ok_0).0;
    lemma_points(doc, suite, "Protocols"@);
    let protocol = (follow(doc, suite, "Protocols"@)->Ok_0).0;
    lemma_points(doc, protocol, "Transforms"@);
    let esp = (follow(doc, protocol, "Transforms"@)->Ok_0).0;
    lemma_transforms(ike);
    lemma_transforms(esp);
    law_prf_is_named_after_the_hash(x.config.ike_integ);
    Chain {
        connection,
        peer_name: p.0,
        peer: p.1,
        main_mode,
        ike,
        quick_mode,
        suite,
        protocol,
        esp,
    }
}

/// The algorithms of a profile that imports are those that its transforms state. The ESP cipher, hash
/// and group are stated by the transform that the second phase's connection leads to, by its
/// configuration, suite and protocol; the IKE ones by the transform of the peer's main mode. None of
/// the references on the way dangles.
pub proof fn law_each_phase_has_its_own_algorithms(doc: Seq<SectionView>)
    ensures
        imported_document(doc) matches Ok(x) ==> exists|ch: Chain|
            #[trigger] is_chain(doc, ch) && is_negotiated(x.config, ch.ike, ch.esp),
{
    if imported_document(doc) is Ok {
        let ch = lemma_chain(doc);
        assert(is_chain(doc, ch));
    }
}

proof fn lemma_selected(doc: Seq<SectionView>, conn: SectionView)
    ensures
        selectors_of(doc, conn) matches Ok(n) ==> is_carried(doc, n.0, conn),
{
    lemma_entry(conn, "Remote-ID"@);
    lemma_points(doc, conn, "Remote-ID"@);
    if selectors_of(doc, conn) is Ok && conn.get("Remote-ID"@) is Some {
        let id = section_of(doc, conn.get("Remote-ID"@)->0)->Ok_0;
        lemma_entry(id, "ID-Type"@);
        lemma_entry(id, "Network"@);
        lemma_entry(id, "Netmask"@);
        lemma_entry(id, "Address"@);
        reveal_strlit("IPV4_ADDR");
        reveal_strlit("IPV4_ADDR_SUBNET");
        assert(id.get("ID-Type"@) is Some);
        assert(states_type(id, id_kind(id)));
        if id_kind(id) == "IPV4_ADDR_SUBNET"@ {
            let m = address_field(id, "Netmask"@)->Ok_0;
            assert(states_address(id, "Netmask"@, m));
        }
        assert(is_selected(id, (selectors_of(doc, conn)->Ok_0).0[0]));
    }
}

proof fn lemma_presented(doc: Seq<SectionView>, peer: SectionView)
    ensures
        identity_of(doc, peer) matches Ok(x) ==> is_identified(doc, x.0, x.1, peer),
{
    lemma_entry(peer, "ID"@);
    lemma_points(doc, peer, "ID"@);
    if let Ok(x) = identity_of(doc, peer) {
        if let Some(id) = x.0 {
            let s = section_of(doc, peer.get("ID"@)->0)->Ok_0;
            lemma_entry(s, "Address"@);
            lemma_entry(s, "Value"@);
            lemma_entry(s, "FQDN"@);
            lemma_entry(s, "Email"@);
            lemma_entry(s, "ID"@);
            lemma_entry(s, "ID-Type"@);
            reveal_strlit("IPV4_ADDR");
            reveal_strlit("FQDN");
            reveal_strlit("DNS");
            reveal_strlit("USER_FQDN");
            reveal_strlit("EMAIL");
            reveal_strlit("RFC822");
            reveal_strlit("KEY_ID");
            reveal_strlit("KEYID");
            assert(is_presented(s, id, x.1));
        }
    }
}

proof fn lemma_dialled(doc: Seq<SectionView>)
    ensures
        imported_document(doc) matches Ok(x) ==> is_dialled(
            x.config,
            (peer_of(doc)->Ok_0).0,
            (peer_of(doc)->Ok_0).1,
        ),
{
    if imported_document(doc) is Ok {
        let p = peer_of(doc)->Ok_0;
        lemma_entry(p.1, "Address"@);
        lemma_entry(p.1, "Authentication"@);
        lemma_entry(p.1, "Xauth"@);
        let name = p.0;
        if ends(name, "-P1"@) {
            let n = name.len() - "-P1"@.len();
            assert(name.subrange(n, name.len() as int) == "-P1"@);
            assert(name.take(n) + name.subrange(n, name.len() as int) =~= name);
        }
    }
}

/// What is dialled is what the peer and the connection of the profile say: the peer's address and key
/// under its name, as IKEv1, with an interactive round exactly where the peer announces one, to the
/// network that the connection selects, and under the identity that the peer refers to.
pub proof fn law_connection_is_what_the_profile_says(doc: Seq<SectionView>)
    ensures
        imported_document(doc) matches Ok(x) ==> exists|ch: Chain|
            #[trigger] is_chain(doc, ch) && is_dialled(x.config, ch.peer_name, ch.peer)
                && is_carried(doc, x.config.remote_subnets, ch.connection) && is_identified(
                doc,
                x.config.local_id,
                x.config.local_id_type,
                ch.peer,
            ),
{
    if imported_document(doc) is Ok {
        let ch = lemma_chain(doc);
        lemma_dialled(doc);
        lemma_selected(doc, ch.connection);
        lemma_presented(doc, ch.peer);
        assert(is_chain(doc, ch));
    }
}

/// The rest is fixed or stated for the whole file: a virtual address is asked for, the peer is probed
/// at the interval of the general section and the tunnel is brought back up.
pub proof fn law_probe_interval_is_what_the_profile_says(doc: Seq<SectionView>, n: u32)
    ensures
        imported_document(doc) matches Ok(x) ==> {
            let c = x.config;
            &&& c.request_virtual_ip && !c.compression && c.dpd.auto_reconnect
            &&& c.dns.servers.len() == 0 && c.dns.domain is None
            &&& c.user_auth matches Some(u) ==> u.username is None && u.can_save && !u.otp
            &&& find_section(doc, "General"@) is None ==> c.dpd.delay_secs == 30
            &&& find_section(doc, "General"@) matches Some(g) ==> {
                &&& g.get("DPD-interval"@) is None ==> c.dpd.delay_secs == 30
                &&& g.get("DPD-interval"@) == Some(decimal(n as nat)) ==> c.dpd.delay_secs == n
            }
        },
{
    law_number_reads_back(n as nat, u32::MAX as nat);
}

/// The key length is the number that the field begins with, up to a comma or a colon.
pub proof fn law_key_length_comes_first(n: u32, rest: Seq<char>)
    requires
        rest.len() > 0 ==> rest[0] == ',' || rest[0] == ':',
    ensures
        key_bits(Some(decimal(n as nat) + rest)) == Some(n as nat),
        key_bits(None) is None,
{
    let d = decimal(n as nat);
    let raw = d + rest;
    lemma_decimal(n as nat);
    law_number_reads_back(n as nat, u32::MAX as nat);
    assert forall|k: int| 0 <= k < d.len() implies d[k] != ',' && d[k] != ':' by {
        assert(is_digit(d[k]));
    }
    lemma_index_of_is_first(raw, ',');
    let i = index_of(raw, ',');
    assert(i >= d.len()) by {
        if i < d.len() {
            assert(raw[i] == d[i]);
        }
    }
    let head = up_to(raw, ',');
    assert(head =~= raw.take(i));
    lemma_index_of_is_first(head, ':');
    let k = index_of(head, ':');
    assert(k >= d.len()) by {
        if k < d.len() {
            assert(head[k] == d[k]);
        }
    }
    assert(k == d.len()) by {
        if rest.len() > 0 {
            assert(raw[d.len() as int] == rest[0]);
            if rest[0] == ',' {
                assert(i == d.len());
            } else if k > d.len() {
                assert(head[d.len() as int] == ':');
            }
        }
    }
    assert(up_to(head, ':') =~= d);
}

/// A field that is required is the one under its name, and its absence is told by that name; a
/// section that is referred to and not there is told by the name it was looked for under.
pub proof fn law_what_is_missing_is_named(doc: Seq<SectionView>, s: SectionView, name: Seq<char>)
    ensures
        s.get(name) is None ==> required_field(s, name) == Err::<Seq<char>, ErrorView>(
            ErrorView::MissingField(name),
        ),
        s.get(name) matches Some(v) ==> required_field(s, name) == Ok::<Seq<char>, ErrorView>(v),
        find_section(doc, trimmed(name)) is None ==> section_of(doc, name) == Err::<
            SectionView,
            ErrorView,
        >(ErrorView::SectionNotFound(trimmed(name))),
        find_section(doc, trimmed(name)) matches Some(t) ==> section_of(doc, name) == Ok::<
            SectionView,
            ErrorView,
        >(t),
{
}

/// A gateway or a key that cannot be used is refused by the name of its field.
pub proof fn law_peer_is_refused_by_its_field(peer: SectionView, v: Seq<char>)
    ensures
        peer.get("Address"@) is None ==> gateway_of(peer) == Err::<
            (Seq<char>, Seq<Seq<char>>),
            ErrorView,
        >(ErrorView::MissingField("Address"@)),
        peer.get("Address"@) == Some(v) && !is_gateway(trimmed(v)) ==> gateway_of(peer) == Err::<
            (Seq<char>, Seq<Seq<char>>),
            ErrorView,
        >(
            ErrorView::BadValue {
                field: "Address"@,
                value: trimmed(v),
                why: "contains characters that are not valid in a host name or address"@,
            },
        ),
        peer.get("Address"@) == Some(v) && is_gateway(trimmed(v)) ==> gateway_of(peer) is Ok,
        peer.get("Authentication"@) is None ==> secret_of(peer) == Err::<Seq<char>, ErrorView>(
            ErrorView::MissingField("Authentication"@),
        ),
        peer.get("Authentication"@) == Some(v) && trimmed(v).len() == 0 ==> secret_of(peer) == Err::<
            Seq<char>,
            ErrorView,
        >(ErrorView::EmptyField("Authentication"@)),
        peer.get("Authentication"@) == Some(v) && trimmed(v).len() > 0 ==> secret_of(peer) == Ok::<
            Seq<char>,
            ErrorView,
        >(v),
{
}

/// AES with a key of 128, 192 or 256 bits is taken, and without a length that can be read the
/// longest; any other cipher or length is refused by name, and so is any other hash or group.
pub proof fn law_unknown_algorithm_is_named(
    name: Seq<char>,
    keylen: Option<Seq<char>>,
    ctx: Seq<char>,
)
    ensures
        ({
            let n = uppercase(trimmed(name));
            let aes = n == "AES"@ || n == "AES_CBC"@;
            let bits = key_bits(keylen);
            let cipher = cipher_of(name, keylen, ctx);
            &&& !aes ==> cipher == Err::<EncAlg, ErrorView>(
                ErrorView::UnknownAlgorithm { context: ctx, token: n },
            )
            &&& aes && bits is None ==> cipher == Ok::<EncAlg, ErrorView>(EncAlg::Aes256)
            &&& aes && bits == Some(128nat) ==> cipher == Ok::<EncAlg, ErrorView>(EncAlg::Aes128)
            &&& aes && bits == Some(192nat) ==> cipher == Ok::<EncAlg, ErrorView>(EncAlg::Aes192)
            &&& aes && bits == Some(256nat) ==> cipher == Ok::<EncAlg, ErrorView>(EncAlg::Aes256)
            &&& aes && bits is Some && bits->0 != 128 && bits->0 != 192 && bits->0 != 256 ==> cipher
                == Err::<EncAlg, ErrorView>(
                ErrorView::UnknownAlgorithm {
                    context: ctx,
                    token: "AES with a "@ + decimal(bits->0) + "-bit key"@,
                },
            )
            &&& hash_of(name, ctx) is Err ==> hash_of(name, ctx)->Err_0 == (
            ErrorView::UnknownAlgorithm { context: ctx, token: n })
            &&& group_of(name, ctx) is Err ==> group_of(name, ctx)->Err_0 == (
            ErrorView::UnknownAlgorithm { context: ctx, token: n })
            &&& n == "SHA"@ || n == "SHA1"@ || n == "SHA2_256"@ || n == "SHA2_384"@ || n
                == "SHA2_512"@ ==> hash_of(name, ctx) is Ok
            &&& n == "MODP_1024"@ || n == "MODP_1536"@ || n == "MODP_2048"@ || n == "MODP_3072"@
                || n == "MODP_4096"@ || n == "ECP_256"@ || n == "ECP_384"@ ==> group_of(name, ctx)
                is Ok
        }),
{
}

/// Phase 1 is taken with a pre-shared key, with or without XAuth, and every algorithm stated; any
/// other method of authentication is refused by name.
pub proof fn law_phase_one_needs_a_shared_key(p1: SectionView, v: Seq<char>)
    requires
        p1.get("AUTHENTICATION_METHOD"@) == Some(v),
    ensures
        ({
            let method = uppercase(trimmed(v));
            let shared = method == "PRE_SHARED"@ || method == "XAUTH_INIT_PRE_SHARED"@ || method
                == "XAUTH_INIT_PRESHARED"@;
            let e = p1.get("ENCRYPTION_ALGORITHM"@);
            let h = p1.get("HASH_ALGORITHM"@);
            let g = p1.get("GROUP_DESCRIPTION"@);
            &&& !shared ==> transform_of(p1) == Err::<PhaseOne, ErrorView>(
                ErrorView::Unsupported(
                    "authentication method "@ + method
                        + " (only pre-shared keys are implemented)"@,
                ),
            )
            &&& shared && e is Some && h is Some && g is Some && cipher_of(
                e->0,
                p1.get("KEY_LENGTH"@),
                "phase 1"@,
            ) is Ok && hash_of(h->0, "phase 1"@) is Ok && group_of(g->0, "phase 1"@) is Ok
                ==> transform_of(p1) is Ok
        }),
{
}

/// Phase 2 is taken in tunnel mode, which is also what no mode means, with its cipher and hash
/// stated and a group or none; any other mode is refused by name.
pub proof fn law_phase_two_needs_tunnel_mode(p2: SectionView)
    ensures
        ({
            let mode = p2.get("ENCAPSULATION_MODE"@);
            let tunnel = mode is None || same_nocase(trimmed(mode->0), "TUNNEL"@);
            let t = p2.get("TRANSFORM_ID"@);
            let h = p2.get("AUTHENTICATION_ALGORITHM"@);
            let g = p2.get("GROUP_DESCRIPTION"@);
            &&& !tunnel ==> esp_transform_of(p2) == Err::<PhaseTwo, ErrorView>(
                ErrorView::Unsupported(
                    "phase 2 encapsulation mode "@ + trimmed(mode->0)
                        + " (only TUNNEL is implemented)"@,
                ),
            )
            &&& tunnel && t is Some && h is Some && cipher_of(
                t->0,
                p2.get("KEY_LENGTH"@),
                "phase 2"@,
            ) is Ok && hash_of(h->0, "phase 2"@) is Ok && (g is None || trimmed(g->0).len() == 0
                || group_of(g->0, "phase 2"@) is Ok) ==> esp_transform_of(p2) is Ok
        }),
{
}

/// A remote network is a network with a netmask or a single address; any other type is refused by
/// name, and so is a value that is no address or a mask with holes in it.
pub proof fn law_remote_network_is_ipv4(id: SectionView, a: Seq<char>, m: Seq<char>)
    ensures
        ({
            let kind = id_kind(id);
            &&& kind != "IPV4_ADDR_SUBNET"@ && kind != "IPV4_ADDR"@ ==> selector_of(id) == Err::<
                Ipv4Net,
                ErrorView,
            >(
                ErrorView::Unsupported(
                    "remote selector type "@ + kind
                        + " (only IPV4_ADDR and IPV4_ADDR_SUBNET are implemented)"@,
                ),
            )
            &&& kind == "IPV4_ADDR"@ && id.get("Address"@) == Some(a) && address(trimmed(a)) is Some
                ==> selector_of(id) == Ok::<Ipv4Net, ErrorView>(
                Ipv4Net { addr: address(trimmed(a))->0, prefix_len: 32 },
            )
            &&& kind == "IPV4_ADDR"@ && id.get("Address"@) == Some(a) && address(trimmed(a)) is None
                ==> selector_of(id) == Err::<Ipv4Net, ErrorView>(
                ErrorView::BadValue {
                    field: "Address"@,
                    value: trimmed(a),
                    why: "not an IPv4 address"@,
                },
            )
            &&& kind == "IPV4_ADDR_SUBNET"@ && id.get("Network"@) == Some(a) && id.get("Netmask"@)
                == Some(m) && address(trimmed(a)) is Some && address(trimmed(m)) is Some && prefix_of(
                address(trimmed(m))->0,
            ) is Some ==> selector_of(id) == Ok::<Ipv4Net, ErrorView>(
                Ipv4Net {
                    addr: address(trimmed(a))->0,
                    prefix_len: prefix_of(address(trimmed(m))->0)->0,
                },
            )
            &&& kind == "IPV4_ADDR_SUBNET"@ && id.get("Network"@) == Some(a) && id.get("Netmask"@)
                == Some(m) && address(trimmed(a)) is Some && address(trimmed(m)) is Some && prefix_of(
                address(trimmed(m))->0,
            ) is None ==> selector_of(id) == Err::<Ipv4Net, ErrorView>(
                ErrorView::BadValue {
                    field: "Netmask"@,
                    value: address(trimmed(m))->0.dotted(),
                    why: "not a contiguous netmask"@,
                },
            )
        }),
{
    reveal_strlit("IPV4_ADDR_SUBNET");
    reveal_strlit("IPV4_ADDR");
    assert("IPV4_ADDR_SUBNET"@.len() != "IPV4_ADDR"@.len());
}

/// What the peer and the connection of a profile say is reported where it matters: an address that
/// only answers from inside, XAuth that is announced or denied, NAT traversal that is disabled, and
/// networks that are not named.
pub proof fn law_findings_are_reported(doc: Seq<SectionView>)
    ensures
        imported_document(doc) matches Ok(x) ==> exists|ch: Chain|
            #[trigger] is_chain(doc, ch) && is_reported(x, ch.peer, ch.connection),
{
    if let Ok(x) = imported_document(doc) {
        let ch = lemma_chain(doc);
        let peer = peer_of(doc)->Ok_0;
        let gw = gateway_of(peer.1)->Ok_0;
        let id = identity_of(doc, peer.1)->Ok_0;
        let p1 = phase_one(doc, peer.1)->Ok_0;
        let conn = connection_of(doc, peer.0)->Ok_0;
        let p2 = phase_two(doc, conn.0)->Ok_0;
        let nets = selectors_of(doc, conn.0)->Ok_0;
        let c = closing_notes(peer.1);
        assert(x.warnings == peer.2 + gw.1 + id.2 + p1.1 + conn.1 + p2.1 + nets.1 + c);
        lemma_eight_lists(peer.2, gw.1, id.2, p1.1, conn.1, p2.1, nets.1, c);
        lemma_closing(peer.1);
        if gw.1.len() > 0 {
            assert(gw.1.contains(gw.1[0]));
        }
        if nets.1.len() > 0 {
            assert(nets.1.contains(nets.1[0]));
        }
        assert(is_reported(x, ch.peer, ch.connection));
    }
}

/// Whether the warnings of a profile report what its peer and its connection say.
pub open spec fn is_reported(x: ProfileView, peer: SectionView, connection: SectionView) -> bool {
    let w = x.warnings;
    let xauth = peer.get("Xauth"@);
    let natt = peer.get("NATT_ENABLED"@);
    &&& is_internal_gateway(x.config.gateway) ==> w.contains(
        "the profile dials "@ + x.config.gateway
            + ", a private address — these exports are often generated against the firewall's internal interface, so this may need to be changed to its public address before it will connect from outside"@,
    )
    &&& xauth is Some && trimmed(xauth->0) != "0"@ ==> w.contains(
        "the gateway requires XAuth; you will be asked for a username and password on connect"@,
    )
    &&& xauth is Some && trimmed(xauth->0) == "0"@ ==> w.contains(
        "the profile says that the gateway wants no XAuth (Xauth = 0), which cannot be trusted — if it rejects phase 1 with AUTHENTICATION_FAILED, turn on the user authentication round"@,
    )
    &&& natt is Some && trimmed(natt->0) == "0"@ ==> w.contains(
        "the profile disables NAT traversal; charon negotiates it whenever the path needs it, so this was ignored"@,
    )
    &&& connection.get("Remote-ID"@) is None ==> w.contains(
        "the profile names no remote networks; the gateway decides what the tunnel carries"@,
    )
}

proof fn lemma_eight_lists(
    a: Seq<Seq<char>>,
    b: Seq<Seq<char>>,
    c: Seq<Seq<char>>,
    d: Seq<Seq<char>>,
    e: Seq<Seq<char>>,
    f: Seq<Seq<char>>,
    g: Seq<Seq<char>>,
    h: Seq<Seq<char>>,
)
    ensures
        forall|t: Seq<char>|
            b.contains(t) || e.contains(t) || g.contains(t) || h.contains(t) ==> #[trigger] (a + b
                + c + d + e + f + g + h).contains(t),
{
    broadcast use vstd::seq_lib::lemma_seq_concat_contains_all_elements;

}

proof fn lemma_closing(peer: SectionView)
    ensures
        ({
            let w = closing_notes(peer);
            let xauth = peer.get("Xauth"@);
            let natt = peer.get("NATT_ENABLED"@);
            &&& xauth is Some && trimmed(xauth->0) != "0"@ ==> w.contains(
                "the gateway requires XAuth; you will be asked for a username and password on connect"@,
            )
            &&& xauth is Some && trimmed(xauth->0) == "0"@ ==> w.contains(
                "the profile says that the gateway wants no XAuth (Xauth = 0), which cannot be trusted — if it rejects phase 1 with AUTHENTICATION_FAILED, turn on the user authentication round"@,
            )
            &&& natt is Some && trimmed(natt->0) == "0"@ ==> w.contains(
                "the profile disables NAT traversal; charon negotiates it whenever the path needs it, so this was ignored"@,
            )
        }),
{
    broadcast use vstd::seq_lib::lemma_seq_concat_contains_all_elements;

    let a =
        "the gateway requires XAuth; you will be asked for a username and password on connect"@;
    let b =
        "the profile says that the gateway wants no XAuth (Xauth = 0), which cannot be trusted — if it rejects phase 1 with AUTHENTICATION_FAILED, turn on the user authentication round"@;
    let c =
        "the profile disables NAT traversal; charon negotiates it whenever the path needs it, so this was ignored"@;
    assert(seq![a][0] == a && seq![b][0] == b && seq![c][0] == c);
    assert(seq![a].contains(a) && seq![b].contains(b) && seq![c].contains(c));
}

/// A profile imports exactly when its peer is found with a gateway and a key, its identity can be
/// read, both phases can be negotiated, and its networks can be read; otherwise it fails with the
/// first of these that does.
pub proof fn law_profile_fails_with_its_first_fault(doc: Seq<SectionView>)
    ensures
        ({
            let r = imported_document(doc);
            let peer = peer_of(doc);
            let at = peer->Ok_0;
            let gw = gateway_of(at.1);
            let key = secret_of(at.1);
            let id = identity_of(doc, at.1);
            let p1 = phase_one(doc, at.1);
            let conn = connection_of(doc, at.0);
            let p2 = phase_two(doc, conn->Ok_0.0);
            let nets = selectors_of(doc, conn->Ok_0.0);
            &&& r is Ok <==> peer is Ok && gw is Ok && key is Ok && id is Ok && p1 is Ok && conn is Ok
                && p2 is Ok && nets is Ok
            &&& peer is Err ==> r == Err::<ProfileView, ErrorView>(peer->Err_0)
            &&& peer is Ok && gw is Err ==> r == Err::<ProfileView, ErrorView>(gw->Err_0)
            &&& peer is Ok && gw is Ok && key is Err ==> r == Err::<ProfileView, ErrorView>(
                key->Err_0,
            )
            &&& peer is Ok && gw is Ok && key is Ok && id is Err ==> r == Err::<
                ProfileView,
                ErrorView,
            >(id->Err_0)
            &&& peer is Ok && gw is Ok && key is Ok && id is Ok && p1 is Err ==> r == Err::<
                ProfileView,
                ErrorView,
            >(p1->Err_0)
        }),
{
}

/// What is left out of a profile with several connections, peers or options is reported, and so
/// are an identity without a value or of an unknown type.
pub proof fn law_what_is_left_out_is_reported(
    doc: Seq<SectionView>,
    p1: SectionView,
    p2: SectionView,
    peer: SectionView,
    id: SectionView,
    name: Seq<char>,
    v: Seq<char>,
)
    ensures
        find_section(doc, "Phase 1"@) == Some(p1) && p1.entries.len() > 1 ==> (direct_peer(
            doc,
        ) matches Ok(d) ==> d.2 == seq![
            "the file defines "@ + decimal(p1.entries.len()) + " phase 1 peers; only the first ("@
                + trimmed(p1.entries[0].1) + ") is imported"@,
        ]),
        find_section(doc, "Phase 1"@) == Some(p1) && p1.entries.len() == 1 ==> (direct_peer(
            doc,
        ) matches Ok(d) ==> d.2.len() == 0),
        find_section(doc, "Phase 2"@) == Some(p2) && p2.entries.len() > 1 ==> (connection_of(
            doc,
            name,
        ) matches Ok(c) ==> c.1.contains(
            "the file defines "@ + decimal(p2.entries.len())
                + " phase 2 connections; only the first is imported"@,
        )),
        listed(v, ',').len() > 1 ==> first_listed(v, name) == Ok::<
            (Seq<char>, Seq<Seq<char>>),
            ErrorView,
        >(
            (
                listed(v, ',')[0],
                seq![
                    name + " lists several options; only "@ + listed(v, ',')[0] + " is used"@,
                ],
            ),
        ),
        listed(v, ',').len() == 1 ==> first_listed(v, name) == Ok::<
            (Seq<char>, Seq<Seq<char>>),
            ErrorView,
        >((listed(v, ',')[0], Seq::empty())),
        listed(v, ',').len() == 0 ==> first_listed(v, name) == Err::<
            (Seq<char>, Seq<Seq<char>>),
            ErrorView,
        >(ErrorView::EmptyField(name)),
        peer.get("ID"@) == Some(v) && find_section(doc, trimmed(v)) == Some(id) && id_value(
            id,
        ) is None ==> identity_of(doc, peer) == Ok::<
            (Option<Seq<char>>, Option<IkeIdType>, Seq<Seq<char>>),
            ErrorView,
        >(
            (
                None,
                None,
                seq![
                    "identity section ["@ + trimmed(v)
                        + "] has no value; letting charon derive the identity"@,
                ],
            ),
        ),
        peer.get("ID"@) == Some(v) && find_section(doc, trimmed(v)) == Some(id) && id_value(
            id,
        ) is Some && id_type_of(id_kind(id)) is None ==> identity_of(doc, peer) == Ok::<
            (Option<Seq<char>>, Option<IkeIdType>, Seq<Seq<char>>),
            ErrorView,
        >(
            (
                id_value(id),
                None,
                seq![
                    "identity type "@ + id_kind(id)
                        + " is not one we map; letting charon infer it from "@ + debug_quoted(
                        id_value(id)->0,
                    ),
                ],
            ),
        ),
{
    if find_section(doc, "Phase 2"@) == Some(p2) && p2.entries.len() > 1 {
        if let Ok(c) = connection_of(doc, name) {
            assert(c.1[0] == "the file defines "@ + decimal(p2.entries.len())
                + " phase 2 connections; only the first is imported"@);
        }
    }
}

/// A refusal names what it refuses and where: the exchange type of phase 1, the protocol of
/// phase 2, and the phase of an algorithm that is unknown.
pub proof fn law_refusal_names_the_phase(
    doc: Seq<SectionView>,
    s: SectionView,
    mode: SectionView,
    name: Seq<char>,
    v: Seq<char>,
)
    ensures
        s.get("Configuration"@) == Some(name) && find_section(doc, trimmed(name)) == Some(mode)
            && mode.get("EXCHANGE_TYPE"@) == Some(v) && uppercase(trimmed(v)) != "ID_PROT"@
            ==> phase_one(doc, s) == Err::<(PhaseOne, Seq<Seq<char>>), ErrorView>(
            ErrorView::Unsupported(
                "phase 1 exchange type "@ + uppercase(trimmed(v))
                    + " (only main mode, ID_PROT, is implemented)"@,
            ),
        ),
        s.get("Configuration"@) == Some(name) && find_section(doc, trimmed(name)) == Some(mode) ==> (
        follow(doc, mode, "Suites"@) matches Ok(suite) ==> (follow(
            doc,
            suite.0,
            "Protocols"@,
        ) matches Ok(protocol) ==> (protocol.0.get("PROTOCOL_ID"@) == Some(v) && !same_nocase(
            trimmed(v),
            "IPSEC_ESP"@,
        ) ==> phase_two(doc, s) == Err::<(PhaseTwo, Seq<Seq<char>>), ErrorView>(
            ErrorView::Unsupported(
                "phase 2 protocol "@ + trimmed(v) + " (only ESP is implemented)"@,
            ),
        )))),
        s.get("AUTHENTICATION_METHOD"@) == Some(v) && uppercase(trimmed(v)) == "PRE_SHARED"@
            && s.get("ENCRYPTION_ALGORITHM"@) == Some(name) && uppercase(
            trimmed(name),
        ) != "AES"@ && uppercase(trimmed(name)) != "AES_CBC"@ ==> transform_of(s) == Err::<
            PhaseOne,
            ErrorView,
        >(
            ErrorView::UnknownAlgorithm { context: "phase 1"@, token: uppercase(trimmed(name)) },
        ),
        s.get("ENCAPSULATION_MODE"@) is None && s.get("TRANSFORM_ID"@) == Some(name) && uppercase(
            trimmed(name),
        ) != "AES"@ && uppercase(trimmed(name)) != "AES_CBC"@ ==> esp_transform_of(s) == Err::<
            PhaseTwo,
            ErrorView,
        >(
            ErrorView::UnknownAlgorithm { context: "phase 2"@, token: uppercase(trimmed(name)) },
        ),
        transform_of(s) matches Err(e) ==> (e matches ErrorView::UnknownAlgorithm { context, .. }
            ==> context == "phase 1"@),
        esp_transform_of(s) matches Err(e) ==> (e matches ErrorView::UnknownAlgorithm {
            context,
            ..
        } ==> context == "phase 2"@),
{
}

} // verus!
