//! Maps a parsed NCP ini document onto the connection model.
//!
//! Anything safety-critical (authentication, algorithms, groups) with an unknown code is a
//! hard error: failing to connect is safe, silently negotiating the wrong thing is not.
//! Known but unconfirmed codes import and give warnings.

use crate::import::{is_gateway, valid_gateway, ImportedProfile, ProfileView, Warnings};
use crate::ini::{
    self, document, is_first_entry, law_first_of_a_name_is_found, law_first_with_a_prefix,
    lookup_from, prefixed, Document, ParseError, Section, SectionView,
};
use crate::ipv4::{address, prefix_of, Ipv4Addr, Ipv4Net};
use crate::model::{
    opt_view, AuthMethod, ConfigView, ConnectionConfig, DhGroup, DnsConfig, DnsView, DpdConfig,
    EncAlg, IkeVersion, IntegAlg, PrfAlg, Secret, UserAuth, UserAuthView,
};
use crate::ncp::codes::{
    self, assign_code, auth_code, dh_code, enc_code, esp_integ_code, exch_mode_code, id_type_code,
    ike_integ_code, prf_code, Confidence, Ikev2AuthMethod,
};
use crate::text::{
    begins, contains, debug_quoted, decimal, format_u64, has, lemma_decimal, number_up_to,
    parse_up_to, quote_debug, same, to_upper, trim, trimmed, uppercase,
};
use vstd::prelude::*;

verus! {

/// Why a profile was not imported.
#[derive(Debug)]
#[allow(inconsistent_fields)]
pub enum ImportError {
    Parse(ParseError),
    NoProfileSection,
    MissingField { section: String, field: &'static str },
    NotANumber { field: &'static str, value: String },
    BadAddress { field: String, value: String },
    BadNetmask { index: u32 },
    BadGateway(String),
    PolicyNotFound { kind: &'static str, name: String },
    UnknownCode { field: &'static str, code: u32, what: &'static str },
    NotIkev2(u32),
    UnsupportedAuth,
}

/// The content of an [`ImportError`].
pub enum ErrorView {
    Parse(ParseError),
    NoProfileSection,
    MissingField { section: Seq<char>, field: Seq<char> },
    NotANumber { field: Seq<char>, value: Seq<char> },
    BadAddress { field: Seq<char>, value: Seq<char> },
    BadNetmask { index: int },
    BadGateway(Seq<char>),
    PolicyNotFound { kind: Seq<char>, name: Seq<char> },
    UnknownCode { field: Seq<char>, code: int, what: Seq<char> },
    NotIkev2(int),
    UnsupportedAuth,
}

impl View for ImportError {
    type V = ErrorView;

    open spec fn view(&self) -> ErrorView {
        match self {
            ImportError::Parse(e) => ErrorView::Parse(*e),
            ImportError::NoProfileSection => ErrorView::NoProfileSection,
            ImportError::MissingField { section, field } => ErrorView::MissingField {
                section: section@,
                field: field@,
            },
            ImportError::NotANumber { field, value } => ErrorView::NotANumber {
                field: field@,
                value: value@,
            },
            ImportError::BadAddress { field, value } => ErrorView::BadAddress {
                field: field@,
                value: value@,
            },
            ImportError::BadNetmask { index } => ErrorView::BadNetmask { index: *index as int },
            ImportError::BadGateway(g) => ErrorView::BadGateway(g@),
            ImportError::PolicyNotFound { kind, name } => ErrorView::PolicyNotFound {
                kind: kind@,
                name: name@,
            },
            ImportError::UnknownCode { field, code, what } => ErrorView::UnknownCode {
                field: field@,
                code: *code as int,
                what: what@,
            },
            ImportError::NotIkev2(code) => ErrorView::NotIkev2(*code as int),
            ImportError::UnsupportedAuth => ErrorView::UnsupportedAuth,
        }
    }
}

impl ErrorView {
    /// The text of the error.
    pub open spec fn text(self) -> Seq<char> {
        match self {
            ErrorView::Parse(e) => e.text(),
            ErrorView::NoProfileSection => "no [PROFILE...] section found"@,
            ErrorView::MissingField { section, field } => "["@ + section
                + "] is missing required field "@ + field,
            ErrorView::NotANumber { field, value } => field + "="@ + value + ": not a number"@,
            ErrorView::BadAddress { field, value } => field + "="@ + value
                + ": invalid IPv4 address"@,
            ErrorView::BadNetmask { index } => "Network"@ + decimal(index as nat) + "/SubMask"@
                + decimal(index as nat) + ": non-contiguous netmask"@,
            ErrorView::BadGateway(g) => "gateway contains invalid characters: "@ + debug_quoted(g),
            ErrorView::PolicyNotFound { kind, name } => "referenced policy section not found: "@
                + kind + " named "@ + debug_quoted(name),
            ErrorView::UnknownCode { field, code, what } => field + "="@ + decimal(code as nat)
                + ": unknown code — refusing to guess a "@ + what,
            ErrorView::NotIkev2(code) => "profile is not IKEv2 (ExchMode="@ + decimal(code as nat)
                + "); only IKEv2 is supported"@,
            ErrorView::UnsupportedAuth => "unsupported auth method (only PSK is implemented)"@,
        }
    }
}

impl ImportError {
    /// What to tell the user.
    pub fn message(&self) -> (r: String)
        ensures
            r@ == self@.text(),
    {
        match self {
            ImportError::Parse(e) => e.message(),
            ImportError::NoProfileSection => "no [PROFILE...] section found".to_owned(),
            ImportError::MissingField { section, field } => {
                let mut s = "[".to_owned();
                s.append(section.as_str());
                s.append("] is missing required field ");
                s.append(field);
                s
            },
            ImportError::NotANumber { field, value } => {
                let mut s = (*field).to_owned();
                s.append("=");
                s.append(value.as_str());
                s.append(": not a number");
                s
            },
            ImportError::BadAddress { field, value } => {
                let mut s = field.clone();
                s.append("=");
                s.append(value.as_str());
                s.append(": invalid IPv4 address");
                s
            },
            ImportError::BadNetmask { index } => {
                let n = format_u64(*index as u64);
                let mut s = "Network".to_owned();
                s.append(n.as_str());
                s.append("/SubMask");
                s.append(n.as_str());
                s.append(": non-contiguous netmask");
                s
            },
            ImportError::BadGateway(g) => {
                let mut s = "gateway contains invalid characters: ".to_owned();
                s.append(quote_debug(g.as_str()).as_str());
                s
            },
            ImportError::PolicyNotFound { kind, name } => {
                let mut s = "referenced policy section not found: ".to_owned();
                s.append(kind);
                s.append(" named ");
                s.append(quote_debug(name.as_str()).as_str());
                s
            },
            ImportError::UnknownCode { field, code, what } => {
                let mut s = (*field).to_owned();
                s.append("=");
                s.append(format_u64(*code as u64).as_str());
                s.append(": unknown code — refusing to guess a ");
                s.append(what);
                s
            },
            ImportError::NotIkev2(code) => {
                let mut s = "profile is not IKEv2 (ExchMode=".to_owned();
                s.append(format_u64(*code as u64).as_str());
                s.append("); only IKEv2 is supported");
                s
            },
            ImportError::UnsupportedAuth => {
                "unsupported auth method (only PSK is implemented)".to_owned()
            },
        }
    }
}

/// The value of a field that must be there.
pub open spec fn required_field(s: SectionView, field: Seq<char>) -> Result<Seq<char>, ErrorView> {
    match s.get(field) {
        Some(v) => Ok(v),
        None => Err(ErrorView::MissingField { section: s.name, field }),
    }
}

fn required<'a>(section: &'a Section, field: &'static str) -> (r: Result<&'a str, ImportError>)
    ensures
        match r {
            Ok(v) => required_field(section@, field@) == Ok::<Seq<char>, ErrorView>(v@),
            Err(e) => required_field(section@, field@) == Err::<Seq<char>, ErrorView>(e@),
        },
{
    match section.get(field) {
        Some(v) => Ok(v),
        None => Err(ImportError::MissingField { section: section.name.clone(), field }),
    }
}

/// The number that a value denotes.
pub open spec fn number_field(field: Seq<char>, value: Seq<char>) -> Result<int, ErrorView> {
    match number_up_to(trimmed(value), u32::MAX as nat) {
        Some(n) => Ok(n as int),
        None => Err(ErrorView::NotANumber { field, value }),
    }
}

fn parse_u32(field: &'static str, value: &str) -> (r: Result<u32, ImportError>)
    ensures
        match r {
            Ok(n) => number_field(field@, value@) == Ok::<int, ErrorView>(n as int),
            Err(e) => number_field(field@, value@) == Err::<int, ErrorView>(e@),
        },
{
    match parse_up_to(trim(value).as_str(), u32::MAX as u64) {
        Some(n) => Ok(n as u32),
        None => Err(ImportError::NotANumber { field, value: value.to_owned() }),
    }
}

/// The number in a field that must be there.
pub open spec fn code_field(s: SectionView, field: Seq<char>) -> Result<int, ErrorView> {
    match required_field(s, field) {
        Ok(v) => number_field(field, v),
        Err(e) => Err(e),
    }
}

fn required_u32(section: &Section, field: &'static str) -> (r: Result<u32, ImportError>)
    ensures
        match r {
            Ok(n) => code_field(section@, field@) == Ok::<int, ErrorView>(n as int),
            Err(e) => code_field(section@, field@) == Err::<int, ErrorView>(e@),
        },
{
    let v = required(section, field)?;
    parse_u32(field, v)
}

/// The address that a value denotes.
pub open spec fn address_field(field: Seq<char>, value: Seq<char>) -> Result<Ipv4Addr, ErrorView> {
    match address(trimmed(value)) {
        Some(a) => Ok(a),
        None => Err(ErrorView::BadAddress { field, value }),
    }
}

fn parse_ipv4(field: &str, value: &str) -> (r: Result<Ipv4Addr, ImportError>)
    ensures
        match r {
            Ok(a) => address_field(field@, value@) == Ok::<Ipv4Addr, ErrorView>(a),
            Err(e) => address_field(field@, value@) == Err::<Ipv4Addr, ErrorView>(e@),
        },
{
    match Ipv4Addr::parse(trim(value).as_str()) {
        Some(a) => Ok(a),
        None => Err(ImportError::BadAddress { field: field.to_owned(), value: value.to_owned() }),
    }
}

fn validate_gateway(gw: &str) -> (r: Result<(), ImportError>)
    ensures
        match r {
            Ok(_) => is_gateway(gw@),
            Err(e) => !is_gateway(gw@) && e@ == ErrorView::BadGateway(gw@),
        },
{
    if valid_gateway(gw) {
        Ok(())
    } else {
        Err(ImportError::BadGateway(gw.to_owned()))
    }
}

/// The warning about a mapping that is not sure.
pub open spec fn confidence_note(
    field: Seq<char>,
    code: int,
    meaning: Seq<char>,
    c: Confidence,
) -> Seq<Seq<char>> {
    let head = field + "="@ + decimal(code as nat) + " interpreted as "@ + meaning;
    match c {
        Confidence::High => Seq::empty(),
        Confidence::Medium => seq![
            head + " (unconfirmed mapping — verify on first connect)"@,
        ],
        Confidence::Low => seq![head + " (LOW-confidence guess — confirm before use)"@],
    }
}

fn note_confidence(warn: &mut Warnings, field: &str, code: u32, meaning: &str, c: Confidence)
    ensures
        final(warn)@ == old(warn)@ + confidence_note(field@, code as int, meaning@, c),
{
    let mut s = field.to_owned();
    s.append("=");
    s.append(format_u64(code as u64).as_str());
    s.append(" interpreted as ");
    s.append(meaning);
    match c {
        Confidence::High => {
            assert(old(warn)@ + Seq::<Seq<char>>::empty() =~= old(warn)@);
        },
        Confidence::Medium => {
            s.append(" (unconfirmed mapping — verify on first connect)");
            warn.warn(s);
        },
        Confidence::Low => {
            s.append(" (LOW-confidence guess — confirm before use)");
            warn.warn(s);
        },
    }
}

/// The first of `sections`, from position `i` on, whose name field holds `wanted`.
pub open spec fn policy_from(
    sections: Seq<SectionView>,
    name_field: Seq<char>,
    wanted: Seq<char>,
    i: int,
) -> Option<SectionView>
    decreases sections.len() - i,
{
    if i < 0 || i >= sections.len() {
        None
    } else if sections[i].get(name_field) == Some(wanted) {
        Some(sections[i])
    } else {
        policy_from(sections, name_field, wanted, i + 1)
    }
}

/// The policy section that a profile refers to.
pub open spec fn policy(
    doc: Seq<SectionView>,
    prefix: Seq<char>,
    name_field: Seq<char>,
    wanted: Seq<char>,
) -> Option<SectionView> {
    policy_from(prefixed(doc, prefix, doc.len() as int), name_field, wanted, 0)
}

/// Finds the policy section (`[IKEV2POLICYn]` or `[IPSECPOLICYn]`) whose name field is the
/// profile's reference.
fn find_policy<'a>(
    doc: &'a Document,
    section_prefix: &'static str,
    name_field: &str,
    wanted: &str,
) -> (r: Option<&'a Section>)
    ensures
        match r {
            Some(s) => policy(doc@, section_prefix@, name_field@, wanted@) == Some(s@),
            None => policy(doc@, section_prefix@, name_field@, wanted@) is None,
        },
{
    let candidates = doc.sections_with_prefix(section_prefix);
    let ghost all = prefixed(doc@, section_prefix@, doc@.len() as int);
    assert(all.len() == candidates@.len());
    let mut i: usize = 0;
    while i < candidates.len()
        invariant
            i <= candidates@.len(),
            all == Seq::new(candidates@.len(), |k: int| candidates@[k]@),
            policy(doc@, section_prefix@, name_field@, wanted@) == policy_from(
                all,
                name_field@,
                wanted@,
                i as int,
            ),
        decreases candidates@.len() - i,
    {
        let s: &'a Section = candidates[i];
        assert(all[i as int] == s@);
        if let Some(n) = s.get(name_field) {
            if same(n, wanted) {
                return Some(s);
            }
        }
        i = i + 1;
    }
    None
}

/// The warning when a policy's name mentions an algorithm that its codes do not map to.
pub open spec fn corroboration(name: Seq<char>, token: Seq<char>, matches: bool) -> Seq<Seq<char>> {
    if has(uppercase(name), token) && !matches {
        seq![
            "policy name "@ + debug_quoted(name) + " mentions "@ + token
                + " but the numeric codes mapped to a different algorithm — check the code tables"@,
        ]
    } else {
        Seq::empty()
    }
}

/// Cross-checks an interpreted algorithm against the human-readable policy name.
fn corroborate(warn: &mut Warnings, policy_name: &str, token: &str, matches: bool)
    ensures
        final(warn)@ == old(warn)@ + corroboration(policy_name@, token@, matches),
{
    if contains(to_upper(policy_name).as_str(), token) && !matches {
        let mut s = "policy name ".to_owned();
        s.append(quote_debug(policy_name).as_str());
        s.append(" mentions ");
        s.append(token);
        s.append(
            " but the numeric codes mapped to a different algorithm — check the code tables",
        );
        warn.warn(s);
    } else {
        assert(old(warn)@ + Seq::<Seq<char>>::empty() =~= old(warn)@);
    }
}

/// The pre-shared key, once the exchange mode and the authentication method are known.
pub open spec fn secret_of(p: SectionView) -> Result<Seq<char>, ErrorView> {
    match code_field(p, "ExchMode"@) {
        Err(e) => Err(e),
        Ok(mode) => if exch_mode_code(mode) is None {
            Err(ErrorView::NotIkev2(mode))
        } else {
            match code_field(p, "IKEv2Auth"@) {
                Err(e) => Err(e),
                Ok(code) => if auth_code(code) is None {
                    Err(
                        ErrorView::UnknownCode {
                            field: "IKEv2Auth"@,
                            code,
                            what: "authentication method"@,
                        },
                    )
                } else {
                    required_field(p, "Secret"@)
                },
            }
        },
    }
}

fn import_secret(profile: &Section, warn: &mut Warnings) -> (r: Result<Secret, ImportError>)
    ensures
        match r {
            Ok(s) => {
                &&& secret_of(profile@) == Ok::<Seq<char>, ErrorView>(s@)
                &&& final(warn)@ == old(warn)@
            },
            Err(e) => secret_of(profile@) == Err::<Seq<char>, ErrorView>(e@),
        },
{
    let exch_mode = required_u32(profile, "ExchMode")?;
    match codes::exch_mode_is_ikev2(exch_mode) {
        Some(m) => note_confidence(warn, "ExchMode", exch_mode, "IKEv2", m.confidence),
        None => {
            return Err(ImportError::NotIkev2(exch_mode));
        },
    }
    let code = required_u32(profile, "IKEv2Auth")?;
    match codes::ikev2_auth(code) {
        Some(m) => {
            note_confidence(warn, "IKEv2Auth", code, "pre-shared key", m.confidence);
            match m.value {
                Ikev2AuthMethod::PresharedKey => {
                    let secret = required(profile, "Secret")?;
                    assert(warn@ =~= old(warn)@);
                    Ok(Secret::new(secret.to_owned()))
                },
            }
        },
        None => Err(
            ImportError::UnknownCode { field: "IKEv2Auth", code, what: "authentication method" },
        ),
    }
}

/// The declared identity type, and what is to be said about it.
pub open spec fn identity_of(p: SectionView) -> Result<
    (Option<crate::model::IkeIdType>, Seq<Seq<char>>),
    ErrorView,
> {
    match p.get("IkeIdType"@) {
        None => Ok((None, Seq::empty())),
        Some(v) => match number_field("IkeIdType"@, v) {
            Err(e) => Err(e),
            Ok(code) => match id_type_code(code) {
                Some(m) => Ok(
                    (
                        Some(m.value.declared()),
                        confidence_note("IkeIdType"@, code, m.value.label(), m.confidence),
                    ),
                ),
                None => Ok(
                    (
                        None,
                        seq![
                            "IkeIdType="@ + decimal(code as nat)
                                + " is unknown; passing IkeIdStr through as-is"@,
                        ],
                    ),
                ),
            },
        },
    }
}

/// The type matters: charon infers it from the string unless it is forced, and a bare token
/// infers as FQDN while the gateway may expect RFC822.
fn import_identity(profile: &Section, warn: &mut Warnings) -> (r: Result<
    Option<crate::model::IkeIdType>,
    ImportError,
>)
    ensures
        match r {
            Ok(t) => identity_of(profile@) matches Ok(x) && x.0 == t && final(warn)@ == old(warn)@
                + x.1,
            Err(e) => identity_of(profile@) matches Err(x) && x == e@,
        },
{
    match profile.get("IkeIdType") {
        None => {
            assert(old(warn)@ + Seq::<Seq<char>>::empty() =~= old(warn)@);
            Ok(None)
        },
        Some(v) => {
            let code = parse_u32("IkeIdType", v)?;
            match codes::ike_id_type(code) {
                Some(m) => {
                    note_confidence(warn, "IkeIdType", code, m.value.name(), m.confidence);
                    Ok(Some(m.value.to_model()))
                },
                None => {
                    let mut s = "IkeIdType=".to_owned();
                    s.append(format_u64(code as u64).as_str());
                    s.append(" is unknown; passing IkeIdStr through as-is");
                    warn.warn(s);
                    Ok(None)
                },
            }
        },
    }
}

/// The algorithms of the IKE SA and what is to be said about them.
pub struct IkeChoice {
    pub enc: EncAlg,
    pub prf: PrfAlg,
    pub integ: IntegAlg,
    pub dh: DhGroup,
}

/// The mapped value of a code, or the refusal to guess one.
pub open spec fn mapped_code<T>(
    field: Seq<char>,
    code: int,
    what: Seq<char>,
    m: Option<codes::Mapped<T>>,
) -> Result<codes::Mapped<T>, ErrorView> {
    match m {
        Some(m) => Ok(m),
        None => Err(ErrorView::UnknownCode { field, code, what }),
    }
}

/// The encryption algorithm in a field.
pub open spec fn enc_of(s: SectionView, field: Seq<char>) -> Result<
    (EncAlg, Seq<Seq<char>>),
    ErrorView,
> {
    match code_field(s, field) {
        Err(e) => Err(e),
        Ok(code) => match mapped_code(field, code, "encryption algorithm"@, enc_code(code)) {
            Err(e) => Err(e),
            Ok(m) => Ok((m.value, confidence_note(field, code, m.value.token(), m.confidence))),
        },
    }
}

fn import_enc(s: &Section, field: &'static str, warn: &mut Warnings) -> (r: Result<
    EncAlg,
    ImportError,
>)
    ensures
        match r {
            Ok(t) => enc_of(s@, field@) matches Ok(x) && x.0 == t && final(warn)@ == old(warn)@
                + x.1,
            Err(e) => enc_of(s@, field@) matches Err(x) && x == e@,
        },
{
    let code = required_u32(s, field)?;
    match codes::enc_alg(code) {
        Some(m) => {
            note_confidence(warn, field, code, m.value.swanctl_name(), m.confidence);
            Ok(m.value)
        },
        None => Err(ImportError::UnknownCode { field, code, what: "encryption algorithm" }),
    }
}

/// The PRF in a field.
pub open spec fn prf_of(s: SectionView, field: Seq<char>) -> Result<
    (PrfAlg, Seq<Seq<char>>),
    ErrorView,
> {
    match code_field(s, field) {
        Err(e) => Err(e),
        Ok(code) => match mapped_code(field, code, "PRF algorithm"@, prf_code(code)) {
            Err(e) => Err(e),
            Ok(m) => Ok((m.value, confidence_note(field, code, m.value.token(), m.confidence))),
        },
    }
}

fn import_prf(s: &Section, field: &'static str, warn: &mut Warnings) -> (r: Result<
    PrfAlg,
    ImportError,
>)
    ensures
        match r {
            Ok(t) => prf_of(s@, field@) matches Ok(x) && x.0 == t && final(warn)@ == old(warn)@
                + x.1,
            Err(e) => prf_of(s@, field@) matches Err(x) && x == e@,
        },
{
    let code = required_u32(s, field)?;
    match codes::prf_alg(code) {
        Some(m) => {
            note_confidence(warn, field, code, m.value.swanctl_name(), m.confidence);
            Ok(m.value)
        },
        None => Err(ImportError::UnknownCode { field, code, what: "PRF algorithm" }),
    }
}

/// The integrity algorithm in a field, in the code space of IKE or of ESP.
pub open spec fn integ_of(s: SectionView, field: Seq<char>, esp: bool) -> Result<
    (IntegAlg, Seq<Seq<char>>),
    ErrorView,
> {
    match code_field(s, field) {
        Err(e) => Err(e),
        Ok(code) => {
            let m = if esp {
                esp_integ_code(code)
            } else {
                ike_integ_code(code)
            };
            match mapped_code(field, code, "integrity algorithm"@, m) {
                Err(e) => Err(e),
                Ok(m) => Ok((m.value, confidence_note(field, code, m.value.token(), m.confidence))),
            }
        },
    }
}

fn import_integ(s: &Section, field: &'static str, esp: bool, warn: &mut Warnings) -> (r: Result<
    IntegAlg,
    ImportError,
>)
    ensures
        match r {
            Ok(t) => integ_of(s@, field@, esp) matches Ok(x) && x.0 == t && final(warn)@ == old(warn)@ + x.1,
            Err(e) => integ_of(s@, field@, esp) matches Err(x) && x == e@,
        },
{
    let code = required_u32(s, field)?;
    let m = if esp {
        codes::esp_integ_alg(code)
    } else {
        codes::ike_integ_alg(code)
    };
    match m {
        Some(m) => {
            note_confidence(warn, field, code, m.value.swanctl_name(), m.confidence);
            Ok(m.value)
        },
        None => Err(ImportError::UnknownCode { field, code, what: "integrity algorithm" }),
    }
}

/// The group that a code stands for.
pub open spec fn group_of(field: Seq<char>, code: int) -> Result<
    (DhGroup, Seq<Seq<char>>),
    ErrorView,
> {
    match mapped_code(field, code, "DH group"@, dh_code(code)) {
        Err(e) => Err(e),
        Ok(m) => Ok((m.value, confidence_note(field, code, m.value.token(), m.confidence))),
    }
}

fn import_group(field: &'static str, code: u32, warn: &mut Warnings) -> (r: Result<
    DhGroup,
    ImportError,
>)
    ensures
        match r {
            Ok(t) => group_of(field@, code as int) matches Ok(x) && x.0 == t && final(warn)@ == old(warn)@ + x.1,
            Err(e) => group_of(field@, code as int) matches Err(x) && x == e@,
        },
{
    match codes::dh_group(code) {
        Some(m) => {
            note_confidence(warn, field, code, m.value.swanctl_name(), m.confidence);
            Ok(m.value)
        },
        None => Err(ImportError::UnknownCode { field, code, what: "DH group" }),
    }
}

/// The IKE proposal, from the `[IKEV2POLICYn]` that the profile refers to.
pub open spec fn ike_of(doc: Seq<SectionView>, p: SectionView) -> Result<
    (IkeChoice, Seq<Seq<char>>),
    ErrorView,
> {
    match required_field(p, "IKEv2Policy"@) {
        Err(e) => Err(e),
        Ok(name) => match policy(doc, "IKEV2POLICY"@, "Ikev2Name"@, name) {
            None => Err(ErrorView::PolicyNotFound { kind: "IKEv2Policy"@, name }),
            Some(s) => match enc_of(s, "Ikev2Crypt"@) {
                Err(e) => Err(e),
                Ok(enc) => match prf_of(s, "Ikev2PRF"@) {
                    Err(e) => Err(e),
                    Ok(prf) => match integ_of(s, "Ikev2IntAlgo"@, false) {
                        Err(e) => Err(e),
                        Ok(integ) => match code_field(p, "IkeDhGroup"@) {
                            Err(e) => Err(e),
                            Ok(code) => match group_of("IkeDhGroup"@, code) {
                                Err(e) => Err(e),
                                Ok(dh) => Ok(
                                    (
                                        IkeChoice {
                                            enc: enc.0,
                                            prf: prf.0,
                                            integ: integ.0,
                                            dh: dh.0,
                                        },
                                        enc.1 + prf.1 + integ.1 + dh.1 + corroboration(
                                            name,
                                            "AES256"@,
                                            enc.0 == EncAlg::Aes256,
                                        ) + corroboration(
                                            name,
                                            "SHA256"@,
                                            integ.0 == IntegAlg::Sha256,
                                        ),
                                    ),
                                ),
                            },
                        },
                    },
                },
            },
        },
    }
}

fn import_ike(doc: &Document, profile: &Section, warn: &mut Warnings) -> (r: Result<
    IkeChoice,
    ImportError,
>)
    ensures
        match r {
            Ok(t) => ike_of(doc@, profile@) matches Ok(x) && x.0 == t && final(warn)@ == old(warn)@
                + x.1,
            Err(e) => ike_of(doc@, profile@) matches Err(x) && x == e@,
        },
{
    let name = required(profile, "IKEv2Policy")?;
    let s = match find_policy(doc, "IKEV2POLICY", "Ikev2Name", name) {
        Some(s) => s,
        None => {
            return Err(ImportError::PolicyNotFound { kind: "IKEv2Policy", name: name.to_owned() });
        },
    };
    let enc = import_enc(s, "Ikev2Crypt", warn)?;
    let prf = import_prf(s, "Ikev2PRF", warn)?;
    let integ = import_integ(s, "Ikev2IntAlgo", false, warn)?;
    let code = required_u32(profile, "IkeDhGroup")?;
    let dh = import_group("IkeDhGroup", code, warn)?;
    corroborate(warn, name, "AES256", enc == EncAlg::Aes256);
    corroborate(warn, name, "SHA256", integ == IntegAlg::Sha256);
    assert(warn@ =~= old(warn)@ + (ike_of(doc@, profile@)->Ok_0).1);
    Ok(IkeChoice { enc, prf, integ, dh })
}

/// The ESP proposal, from the `[IPSECPOLICYn]` that the profile refers to.
pub open spec fn esp_of(doc: Seq<SectionView>, p: SectionView) -> Result<
    (EncAlg, IntegAlg, Seq<Seq<char>>),
    ErrorView,
> {
    match required_field(p, "IPSEC-Policy"@) {
        Err(e) => Err(e),
        Ok(name) => match policy(doc, "IPSECPOLICY"@, "IPSecName"@, name) {
            None => Err(ErrorView::PolicyNotFound { kind: "IPSEC-Policy"@, name }),
            Some(s) => match enc_of(s, "IpsecCrypt"@) {
                Err(e) => Err(e),
                Ok(enc) => match integ_of(s, "IpsecAuth"@, true) {
                    Err(e) => Err(e),
                    Ok(integ) => Ok(
                        (
                            enc.0,
                            integ.0,
                            enc.1 + integ.1 + corroboration(
                                name,
                                "AES256"@,
                                enc.0 == EncAlg::Aes256,
                            ) + corroboration(name, "SHA256"@, integ.0 == IntegAlg::Sha256),
                        ),
                    ),
                },
            },
        },
    }
}

fn import_esp(doc: &Document, profile: &Section, warn: &mut Warnings) -> (r: Result<
    (EncAlg, IntegAlg),
    ImportError,
>)
    ensures
        match r {
            Ok(t) => esp_of(doc@, profile@) matches Ok(x) && x.0 == t.0 && x.1 == t.1 && final(warn)@ == old(warn)@ + x.2,
            Err(e) => esp_of(doc@, profile@) matches Err(x) && x == e@,
        },
{
    let name = required(profile, "IPSEC-Policy")?;
    let s = match find_policy(doc, "IPSECPOLICY", "IPSecName", name) {
        Some(s) => s,
        None => {
            return Err(ImportError::PolicyNotFound { kind: "IPSEC-Policy", name: name.to_owned() });
        },
    };
    let enc = import_enc(s, "IpsecCrypt", warn)?;
    let integ = import_integ(s, "IpsecAuth", true, warn)?;
    corroborate(warn, name, "AES256", enc == EncAlg::Aes256);
    corroborate(warn, name, "SHA256", integ == IntegAlg::Sha256);
    assert(warn@ =~= old(warn)@ + (esp_of(doc@, profile@)->Ok_0).2);
    Ok((enc, integ))
}

/// The PFS group; a code of 0 disables PFS.
pub open spec fn pfs_of(p: SectionView) -> Result<(Option<DhGroup>, Seq<Seq<char>>), ErrorView> {
    match code_field(p, "PFS"@) {
        Err(e) => Err(e),
        Ok(code) => if code == 0 {
            Ok((None, Seq::empty()))
        } else {
            match group_of("PFS"@, code) {
                Err(e) => Err(e),
                Ok(g) => Ok((Some(g.0), g.1)),
            }
        },
    }
}

fn import_pfs(profile: &Section, warn: &mut Warnings) -> (r: Result<Option<DhGroup>, ImportError>)
    ensures
        match r {
            Ok(t) => pfs_of(profile@) matches Ok(x) && x.0 == t && final(warn)@ == old(warn)@ + x.1,
            Err(e) => pfs_of(profile@) matches Err(x) && x == e@,
        },
{
    let code = required_u32(profile, "PFS")?;
    if code == 0 {
        assert(old(warn)@ + Seq::<Seq<char>>::empty() =~= old(warn)@);
        Ok(None)
    } else {
        let g = import_group("PFS", code, warn)?;
        Ok(Some(g))
    }
}

/// The network of number `i`, when the profile has one.
pub open spec fn network_of(p: SectionView, i: int) -> Result<Option<Ipv4Net>, ErrorView> {
    let net_key = "Network"@ + decimal(i as nat);
    let mask_key = "SubMask"@ + decimal(i as nat);
    match p.get(net_key) {
        None => Ok(None),
        Some(net) => match p.get(mask_key) {
            None => Err(
                ErrorView::MissingField {
                    section: p.name,
                    field: "SubMaskN (matching NetworkN)"@,
                },
            ),
            Some(mask) => match address_field(net_key, net) {
                Err(e) => Err(e),
                Ok(addr) => match address_field(mask_key, mask) {
                    Err(e) => Err(e),
                    Ok(mask) => match prefix_of(mask) {
                        None => Err(ErrorView::BadNetmask { index: i }),
                        Some(n) => Ok(Some(Ipv4Net { addr, prefix_len: n })),
                    },
                },
            },
        },
    }
}

fn import_network(profile: &Section, i: u32) -> (r: Result<Option<Ipv4Net>, ImportError>)
    ensures
        match r {
            Ok(t) => network_of(profile@, i as int) == Ok::<Option<Ipv4Net>, ErrorView>(t),
            Err(e) => network_of(profile@, i as int) == Err::<Option<Ipv4Net>, ErrorView>(e@),
        },
{
    let n = format_u64(i as u64);
    let mut net_key = "Network".to_owned();
    net_key.append(n.as_str());
    let mut mask_key = "SubMask".to_owned();
    mask_key.append(n.as_str());
    match profile.get(net_key.as_str()) {
        None => Ok(None),
        Some(net) => match profile.get(mask_key.as_str()) {
            None => Err(
                ImportError::MissingField {
                    section: profile.name.clone(),
                    field: "SubMaskN (matching NetworkN)",
                },
            ),
            Some(mask) => {
                let addr = parse_ipv4(net_key.as_str(), net)?;
                let mask = parse_ipv4(mask_key.as_str(), mask)?;
                match Ipv4Net::from_addr_and_mask(addr, mask) {
                    Some(n) => Ok(Some(n)),
                    None => Err(ImportError::BadNetmask { index: i }),
                }
            },
        },
    }
}

/// The networks numbered from `i` on, without a gap. A section of `n` entries numbers at
/// most `n` of them, and a number has 32 bits.
pub open spec fn networks_from(p: SectionView, i: int) -> Result<Seq<Ipv4Net>, ErrorView>
    decreases p.entries.len() + 1 - i,
{
    if i > p.entries.len() || i >= u32::MAX {
        Ok(Seq::empty())
    } else {
        match network_of(p, i) {
            Err(e) => Err(e),
            Ok(None) => Ok(Seq::empty()),
            Ok(Some(n)) => match networks_from(p, i + 1) {
                Err(e) => Err(e),
                Ok(rest) => Ok(seq![n] + rest),
            },
        }
    }
}

/// The warning when there is no network at all.
pub open spec fn networks_note(nets: Seq<Ipv4Net>) -> Seq<Seq<char>> {
    if nets.len() == 0 {
        seq![
            "no Network1/SubMask1 found — no traffic selector; tunnel would carry no traffic"@,
        ]
    } else {
        Seq::empty()
    }
}

fn import_networks(profile: &Section, warn: &mut Warnings) -> (r: Result<Vec<Ipv4Net>, ImportError>)
    ensures
        match r {
            Ok(t) => {
                &&& networks_from(profile@, 1) == Ok::<Seq<Ipv4Net>, ErrorView>(t@)
                &&& final(warn)@ == old(warn)@ + networks_note(t@)
            },
            Err(e) => networks_from(profile@, 1) == Err::<Seq<Ipv4Net>, ErrorView>(e@),
        },
{
    let mut nets: Vec<Ipv4Net> = Vec::new();
    let mut i: u32 = 1;
    let n: usize = profile.entries.len();
    let mut more: bool = true;
    while more && i as usize <= n && i < u32::MAX
        invariant
            1 <= i,
            n == profile@.entries.len(),
            more ==> (match networks_from(profile@, i as int) {
                Ok(rest) => networks_from(profile@, 1) == Ok::<Seq<Ipv4Net>, ErrorView>(
                    nets@ + rest,
                ),
                Err(e) => networks_from(profile@, 1) == Err::<Seq<Ipv4Net>, ErrorView>(e),
            }),
            !more ==> networks_from(profile@, 1) == Ok::<Seq<Ipv4Net>, ErrorView>(nets@),
        decreases u32::MAX - i + (if more { 1int } else { 0int }),
    {
        match import_network(profile, i)? {
            None => {
                assert(nets@ + Seq::<Ipv4Net>::empty() =~= nets@);
                more = false;
            },
            Some(net) => {
                let ghost before = nets@;
                nets.push(net);
                proof {
                    if let Ok(rest) = networks_from(profile@, i + 1) {
                        assert(before + (seq![net] + rest) =~= nets@ + rest);
                    }
                }
                i = i + 1;
            },
        }
    }
    assert(nets@ + Seq::<Ipv4Net>::empty() =~= nets@);
    if nets.len() == 0 {
        warn.warn(
            "no Network1/SubMask1 found — no traffic selector; tunnel would carry no traffic".to_owned(),
        );
    }
    assert(warn@ =~= old(warn)@ + networks_note(nets@));
    Ok(nets)
}

/// Whether to request a virtual IP, and what is to be said about it.
pub open spec fn assign_of(p: SectionView) -> Result<(bool, Seq<Seq<char>>), ErrorView> {
    let v = match p.get("IpAddrAssign"@) {
        Some(v) => v,
        None => "0"@,
    };
    match number_field("IpAddrAssign"@, v) {
        Err(e) => Err(e),
        Ok(code) => match assign_code(code) {
            Some(m) => Ok(
                (
                    m.value,
                    confidence_note(
                        "IpAddrAssign"@,
                        code,
                        "server-assigned virtual IP"@,
                        m.confidence,
                    ),
                ),
            ),
            None => Ok(
                (
                    true,
                    seq![
                        "IpAddrAssign="@ + decimal(code as nat)
                            + " is unknown; requesting a server-assigned virtual IP anyway"@,
                    ],
                ),
            ),
        },
    }
}

fn import_assign(profile: &Section, warn: &mut Warnings) -> (r: Result<bool, ImportError>)
    ensures
        match r {
            Ok(t) => assign_of(profile@) matches Ok(x) && x.0 == t && final(warn)@ == old(warn)@
                + x.1,
            Err(e) => assign_of(profile@) matches Err(x) && x == e@,
        },
{
    let v = match profile.get("IpAddrAssign") {
        Some(v) => v,
        None => "0",
    };
    let code = parse_u32("IpAddrAssign", v)?;
    match codes::ip_addr_assign_is_server(code) {
        Some(m) => {
            note_confidence(
                warn,
                "IpAddrAssign",
                code,
                "server-assigned virtual IP",
                m.confidence,
            );
            Ok(m.value)
        },
        None => {
            let mut s = "IpAddrAssign=".to_owned();
            s.append(format_u64(code as u64).as_str());
            s.append(" is unknown; requesting a server-assigned virtual IP anyway");
            warn.warn(s);
            Ok(true)
        },
    }
}

/// What one of the DNS fields gives: a resolver, a warning, or nothing when it is unset.
pub open spec fn dns_field(p: SectionView, key: Seq<char>) -> (Seq<Ipv4Addr>, Seq<Seq<char>>) {
    match p.get(key) {
        None => (Seq::empty(), Seq::empty()),
        Some(v) => {
            let raw = trimmed(v);
            if raw.len() == 0 || raw == "0.0.0.0"@ {
                (Seq::empty(), Seq::empty())
            } else {
                match address(raw) {
                    Some(ip) => (seq![ip], Seq::empty()),
                    None => (
                        Seq::empty(),
                        seq![
                            key + "="@ + raw
                                + " is not a valid IPv4 DNS server and was ignored"@,
                        ],
                    ),
                }
            }
        },
    }
}

fn import_dns_field(
    profile: &Section,
    key: &'static str,
    servers: &mut Vec<Ipv4Addr>,
    warn: &mut Warnings,
)
    ensures
        final(servers)@ == old(servers)@ + dns_field(profile@, key@).0,
        final(warn)@ == old(warn)@ + dns_field(profile@, key@).1,
{
    assert(old(warn)@ + Seq::<Seq<char>>::empty() =~= old(warn)@);
    assert(old(servers)@ + Seq::<Ipv4Addr>::empty() =~= old(servers)@);
    if let Some(v) = profile.get(key) {
        let raw = trim(v);
        if raw.as_str().is_empty() || same(raw.as_str(), "0.0.0.0") {
            return ;
        }
        match Ipv4Addr::parse(raw.as_str()) {
            Some(ip) => {
                servers.push(ip);
            },
            None => {
                let mut s = key.to_owned();
                s.append("=");
                s.append(raw.as_str());
                s.append(" is not a valid IPv4 DNS server and was ignored");
                warn.warn(s);
            },
        }
    }
}

/// The resolvers to use over the tunnel and the domain that scopes them.
pub open spec fn dns_of(p: SectionView) -> (DnsView, Seq<Seq<char>>) {
    let d1 = dns_field(p, "DNS1"@);
    let d2 = dns_field(p, "DNS2"@);
    let d3 = dns_field(p, "DNS3"@);
    let d4 = dns_field(p, "DNS4"@);
    let domain = match p.get("DomainName"@) {
        Some(v) => if trimmed(v).len() > 0 {
            Some(trimmed(v))
        } else {
            None
        },
        None => None,
    };
    (DnsView { servers: d1.0 + d2.0 + d3.0 + d4.0, domain }, d1.1 + d2.1 + d3.1 + d4.1)
}

fn import_dns(profile: &Section, warn: &mut Warnings) -> (r: DnsConfig)
    ensures
        r@ == dns_of(profile@).0,
        final(warn)@ == old(warn)@ + dns_of(profile@).1,
{
    let mut servers: Vec<Ipv4Addr> = Vec::new();
    import_dns_field(profile, "DNS1", &mut servers, warn);
    import_dns_field(profile, "DNS2", &mut servers, warn);
    import_dns_field(profile, "DNS3", &mut servers, warn);
    import_dns_field(profile, "DNS4", &mut servers, warn);
    let domain = match profile.get("DomainName") {
        Some(v) => {
            let d = trim(v);
            if d.as_str().is_empty() {
                None
            } else {
                Some(d)
            }
        },
        None => None,
    };
    assert(servers@ =~= dns_of(profile@).0.servers);
    assert(warn@ =~= old(warn)@ + dns_of(profile@).1);
    DnsConfig { servers, domain }
}

/// The warning about a field that is deliberately not interpreted.
pub open spec fn ignored_field(p: SectionView, field: Seq<char>) -> Seq<Seq<char>> {
    match p.get(field) {
        Some(v) => seq![field + "="@ + v + " is not interpreted yet and was ignored"@],
        None => Seq::empty(),
    }
}

fn note_ignored(profile: &Section, field: &'static str, warn: &mut Warnings)
    ensures
        final(warn)@ == old(warn)@ + ignored_field(profile@, field@),
{
    assert(old(warn)@ + Seq::<Seq<char>>::empty() =~= old(warn)@);
    if let Some(v) = profile.get(field) {
        let mut s = field.to_owned();
        s.append("=");
        s.append(v);
        s.append(" is not interpreted yet and was ignored");
        warn.warn(s);
    }
}

/// Whether a switch is on: its value is `1`.
pub open spec fn switch_on(p: SectionView, field: Seq<char>) -> bool {
    match p.get(field) {
        Some(v) => trimmed(v) == "1"@,
        None => false,
    }
}

fn is_on(profile: &Section, field: &'static str) -> (r: bool)
    ensures
        r == switch_on(profile@, field@),
{
    match profile.get(field) {
        Some(v) => same(trim(v).as_str(), "1"),
        None => false,
    }
}

/// The warnings about the fields that are ignored, and about a second authentication round.
pub open spec fn closing_notes(p: SectionView) -> Seq<Seq<char>> {
    ignored_field(p, "ConnMedia"@) + ignored_field(p, "ConnMode"@) + ignored_field(
        p,
        "SeamRoaming"@,
    ) + ignored_field(p, "PriVoIP"@) + (if switch_on(p, "UseXAUTH"@) {
        seq![
            "UseXAUTH=1: a second authentication round will be negotiated as EAP-MSCHAPv2 (unconfirmed — verify on first connect); you will be asked for a username and password"@,
        ]
    } else {
        Seq::empty()
    })
}

fn import_closing(profile: &Section, warn: &mut Warnings) -> (r: Option<UserAuth>)
    ensures
        final(warn)@ == old(warn)@ + closing_notes(profile@),
        switch_on(profile@, "UseXAUTH"@) ==> (r matches Some(u) && u@ == (UserAuthView {
            username: None,
            can_save: true,
            otp: false,
        })),
        !switch_on(profile@, "UseXAUTH"@) ==> r is None,
{
    note_ignored(profile, "ConnMedia", warn);
    note_ignored(profile, "ConnMode", warn);
    note_ignored(profile, "SeamRoaming", warn);
    note_ignored(profile, "PriVoIP", warn);
    let user_auth = if is_on(profile, "UseXAUTH") {
        warn.warn(
            "UseXAUTH=1: a second authentication round will be negotiated as EAP-MSCHAPv2 (unconfirmed — verify on first connect); you will be asked for a username and password".to_owned(),
        );
        Some(UserAuth { username: None, can_save: true, otp: false })
    } else {
        None
    };
    assert(warn@ =~= old(warn)@ + closing_notes(profile@));
    user_auth
}

/// What the algorithms and selectors of a profile come to.
pub open spec fn profile_of(doc: Seq<SectionView>, p: SectionView) -> Result<
    ProfileView,
    ErrorView,
> {
    match required_field(p, "Name"@) {
        Err(e) => Err(e),
        Ok(name) => match required_field(p, "Gateway"@) {
            Err(e) => Err(e),
            Ok(gateway) => if !is_gateway(gateway) {
                Err(ErrorView::BadGateway(gateway))
            } else {
                match secret_of(p) {
                    Err(e) => Err(e),
                    Ok(secret) => match identity_of(p) {
                        Err(e) => Err(e),
                        Ok(id) => match ike_of(doc, p) {
                            Err(e) => Err(e),
                            Ok(ike) => match esp_of(doc, p) {
                                Err(e) => Err(e),
                                Ok(esp) => match pfs_of(p) {
                                    Err(e) => Err(e),
                                    Ok(pfs) => match networks_from(p, 1) {
                                        Err(e) => Err(e),
                                        Ok(nets) => match assign_of(p) {
                                            Err(e) => Err(e),
                                            Ok(vip) => Ok(
                                                ProfileView {
                                                    config: ConfigView {
                                                        name,
                                                        gateway,
                                                        local_id: p.get("IkeIdStr"@),
                                                        local_id_type: id.0,
                                                        secret,
                                                        ike_version: IkeVersion::V2,
                                                        user_auth: if switch_on(p, "UseXAUTH"@) {
                                                            Some(
                                                                UserAuthView {
                                                                    username: None,
                                                                    can_save: true,
                                                                    otp: false,
                                                                },
                                                            )
                                                        } else {
                                                            None
                                                        },
                                                        ike_enc: ike.0.enc,
                                                        ike_integ: ike.0.integ,
                                                        ike_prf: ike.0.prf,
                                                        ike_dh: ike.0.dh,
                                                        esp_enc: esp.0,
                                                        esp_integ: esp.1,
                                                        pfs: pfs.0,
                                                        remote_subnets: nets,
                                                        request_virtual_ip: vip.0,
                                                        compression: switch_on(p, "UseComp"@),
                                                        dpd: DpdConfig {
                                                            delay_secs: 30,
                                                            auto_reconnect: true,
                                                        },
                                                        dns: dns_of(p).0,
                                                    },
                                                    warnings: id.1 + ike.1 + esp.2 + pfs.1
                                                        + networks_note(nets) + vip.1
                                                        + dns_of(p).1 + closing_notes(p),
                                                },
                                            ),
                                        },
                                    },
                                },
                            },
                        },
                    },
                }
            },
        },
    }
}

/// What a document comes to: its first `[PROFILE...]` section decides.
pub open spec fn imported_document(doc: Seq<SectionView>) -> Result<ProfileView, ErrorView> {
    let profiles = prefixed(doc, "PROFILE"@, doc.len() as int);
    if profiles.len() == 0 {
        Err(ErrorView::NoProfileSection)
    } else {
        profile_of(doc, profiles[0])
    }
}

/// What the text of a profile comes to.
pub open spec fn imported(input: Seq<char>) -> Result<ProfileView, ErrorView> {
    match document(input) {
        Err(e) => Err(ErrorView::Parse(e)),
        Ok(doc) => imported_document(doc),
    }
}

fn import_section(doc: &Document, profile: &Section) -> (r: Result<ImportedProfile, ImportError>)
    ensures
        match r {
            Ok(x) => profile_of(doc@, profile@) == Ok::<ProfileView, ErrorView>(x@),
            Err(e) => profile_of(doc@, profile@) == Err::<ProfileView, ErrorView>(e@),
        },
{
    let mut warn = Warnings::new();
    let name = required(profile, "Name")?.to_owned();
    let gateway = required(profile, "Gateway")?.to_owned();
    validate_gateway(gateway.as_str())?;
    let secret = import_secret(profile, &mut warn)?;
    let local_id = match profile.get("IkeIdStr") {
        Some(id) => Some(id.to_owned()),
        None => None,
    };
    let local_id_type = import_identity(profile, &mut warn)?;
    let ike = import_ike(doc, profile, &mut warn)?;
    let (esp_enc, esp_integ) = import_esp(doc, profile, &mut warn)?;
    let pfs = import_pfs(profile, &mut warn)?;
    let remote_subnets = import_networks(profile, &mut warn)?;
    let request_virtual_ip = import_assign(profile, &mut warn)?;
    let compression = is_on(profile, "UseComp");
    let dns = import_dns(profile, &mut warn);
    let user_auth = import_closing(profile, &mut warn);
    assert(opt_view(local_id) == profile@.get("IkeIdStr"@));
    assert(profile_of(doc@, profile@) is Ok);
    assert(warn@ =~= (profile_of(doc@, profile@)->Ok_0).warnings);
    let config = ConnectionConfig {
        name,
        gateway,
        local_id,
        local_id_type,
        auth: AuthMethod::PresharedKey(secret),
        ike_version: IkeVersion::V2,
        user_auth,
        ike_enc: ike.enc,
        ike_integ: ike.integ,
        ike_prf: ike.prf,
        ike_dh: ike.dh,
        esp_enc,
        esp_integ,
        pfs,
        remote_subnets,
        request_virtual_ip,
        compression,
        dpd: DpdConfig::default(),
        dns,
    };
    assert(config@ == (profile_of(doc@, profile@)->Ok_0).config);
    Ok(ImportedProfile { config, warnings: warn.into_vec() })
}

/// Imports an NCP profile.
pub fn import_profile(input: &str) -> (r: Result<ImportedProfile, ImportError>)
    ensures
        match r {
            Ok(x) => imported(input@) == Ok::<ProfileView, ErrorView>(x@),
            Err(e) => imported(input@) == Err::<ProfileView, ErrorView>(e@),
        },
{
    let doc = match ini::parse(input) {
        Ok(doc) => doc,
        Err(e) => {
            return Err(ImportError::Parse(e));
        },
    };
    let profiles = doc.sections_with_prefix("PROFILE");
    let ghost all = prefixed(doc@, "PROFILE"@, doc@.len() as int);
    assert(all.len() == profiles@.len());
    if profiles.len() == 0 {
        return Err(ImportError::NoProfileSection);
    }
    assert(all[0] == profiles@[0]@);
    import_section(&doc, profiles[0])
}

/// The key of network number `i`.
pub open spec fn network_key(i: int) -> Seq<char> {
    "Network"@ + decimal(i as nat)
}

proof fn lemma_lookup_finds(entries: Seq<(Seq<char>, Seq<char>)>, key: Seq<char>, i: int)
    requires
        0 <= i,
        lookup_from(entries, key, i) is Some,
    ensures
        exists|k: int| i <= k < entries.len() && (#[trigger] entries[k]).0 == key,
    decreases entries.len() - i,
{
    if entries[i].0 == key {
        assert(i <= i < entries.len() && entries[i].0 == key);
    } else {
        lemma_lookup_finds(entries, key, i + 1);
    }
}

proof fn lemma_network_keys_differ(i: int, j: int)
    requires
        0 <= i,
        0 <= j,
        network_key(i) == network_key(j),
    ensures
        i == j,
{
    let head = "Network"@;
    let a = decimal(i as nat);
    let b = decimal(j as nat);
    lemma_decimal(i as nat);
    lemma_decimal(j as nat);
    assert(network_key(i).skip(head.len() as int) =~= a);
    assert(network_key(j).skip(head.len() as int) =~= b);
}

/// No network is lost to the bound on their number: a section in which every number up to the
/// count of its entries is used has no entry left for another.
pub proof fn law_no_network_is_cut(p: SectionView)
    requires
        forall|i: int| 1 <= i <= p.entries.len() ==> p.get(#[trigger] network_key(i)) is Some,
    ensures
        p.get(network_key(p.entries.len() as int + 1)) is None,
{
    let n = p.entries.len() as int;
    if p.get(network_key(n + 1)) is Some {
        assert forall|i: int| 1 <= i <= n + 1 implies exists|k: int|
            0 <= k < n && (#[trigger] p.entries[k]).0 == #[trigger] network_key(i) by {
            assert(p.get(network_key(i)) is Some);
            lemma_lookup_finds(p.entries, network_key(i), 0);
        }
        let at = Seq::new(
            (n + 1) as nat,
            |i: int|
                choose|k: int| 0 <= k < n && (#[trigger] p.entries[k]).0 == network_key(i + 1),
        );
        assert forall|i: int| 0 <= i < n + 1 implies 0 <= #[trigger] at[i] < n
            && p.entries[at[i]].0 == network_key(i + 1) by {
            let k = choose|k: int| 0 <= k < n && (#[trigger] p.entries[k]).0 == network_key(i + 1);
            assert(at[i] == k);
        }
        assert forall|i: int, j: int| 0 <= i < j < n + 1 implies at[i] != at[j] by {
            if at[i] == at[j] {
                lemma_network_keys_differ(i + 1, j + 1);
            }
        }
        assert(at.no_duplicates());
        at.unique_seq_to_set();
        let range = vstd::set_lib::set_int_range(0, n);
        vstd::set_lib::lemma_int_range(0, n);
        assert(at.to_set().subset_of(range)) by {
            assert forall|v: int| at.to_set().contains(v) implies range.contains(v) by {
                let i = choose|i: int| 0 <= i < at.len() && at[i] == v;
                assert(0 <= at[i] < n);
            }
        }
        vstd::set_lib::lemma_len_subset(at.to_set(), range);
    }
}

/// Whether two sections differ in nothing but the value of their pre-shared key.
pub open spec fn differ_in_secret(p: SectionView, q: SectionView) -> bool {
    &&& p.name == q.name
    &&& p.entries.len() == q.entries.len()
    &&& p.get("Secret"@) is Some <==> q.get("Secret"@) is Some
    &&& forall|k: Seq<char>| k != "Secret"@ ==> #[trigger] p.get(k) == q.get(k)
}

proof fn lemma_networks_hide_the_secret(p: SectionView, q: SectionView, i: int)
    requires
        differ_in_secret(p, q),
    ensures
        networks_from(p, i) == networks_from(q, i),
    decreases p.entries.len() + 1 - i,
{
    if !(i > p.entries.len() || i >= u32::MAX) {
        reveal_strlit("Secret");
        reveal_strlit("Network");
        reveal_strlit("SubMask");
        let net_key = "Network"@ + decimal(i as nat);
        let mask_key = "SubMask"@ + decimal(i as nat);
        assert(net_key[0] == 'N' && mask_key[1] == 'u');
        assert("Secret"@[0] == 'S' && "Secret"@[1] == 'e');
        assert(p.get(net_key) == q.get(net_key));
        assert(p.get(mask_key) == q.get(mask_key));
        assert(network_of(p, i) == network_of(q, i));
        lemma_networks_hide_the_secret(p, q, i + 1);
    }
}

/// Whether two documents differ in nothing but the values of pre-shared keys.
pub open spec fn only_secrets_differ(doc: Seq<SectionView>, other: Seq<SectionView>) -> bool {
    &&& doc.len() == other.len()
    &&& forall|i: int| 0 <= i < doc.len() ==> differ_in_secret(#[trigger] doc[i], other[i])
}

proof fn lemma_prefixed_alike(
    doc: Seq<SectionView>,
    other: Seq<SectionView>,
    prefix: Seq<char>,
    n: int,
)
    requires
        only_secrets_differ(doc, other),
        n <= doc.len(),
    ensures
        only_secrets_differ(prefixed(doc, prefix, n), prefixed(other, prefix, n)),
    decreases n,
{
    if n > 0 {
        lemma_prefixed_alike(doc, other, prefix, n - 1);
        assert(differ_in_secret(doc[n - 1], other[n - 1]));
    }
}

proof fn lemma_policy_alike(
    sections: Seq<SectionView>,
    other: Seq<SectionView>,
    name_field: Seq<char>,
    wanted: Seq<char>,
    i: int,
)
    requires
        only_secrets_differ(sections, other),
        name_field != "Secret"@,
    ensures
        match (
            policy_from(sections, name_field, wanted, i),
            policy_from(other, name_field, wanted, i),
        ) {
            (Some(s), Some(o)) => differ_in_secret(s, o),
            (None, None) => true,
            _ => false,
        },
    decreases sections.len() - i,
{
    if 0 <= i < sections.len() {
        assert(differ_in_secret(sections[i], other[i]));
        assert(sections[i].get(name_field) == other[i].get(name_field));
        lemma_policy_alike(sections, other, name_field, wanted, i + 1);
    }
}

proof fn lemma_policies_alike(
    doc: Seq<SectionView>,
    other: Seq<SectionView>,
    p: SectionView,
    q: SectionView,
)
    requires
        only_secrets_differ(doc, other),
        differ_in_secret(p, q),
    ensures
        ike_of(doc, p) == ike_of(other, q),
        esp_of(doc, p) == esp_of(other, q),
{
    reveal_strlit("Secret");
    reveal_strlit("IKEv2Policy");
    reveal_strlit("IPSEC-Policy");
    reveal_strlit("IkeDhGroup");
    reveal_strlit("Ikev2Name");
    reveal_strlit("Ikev2Crypt");
    reveal_strlit("Ikev2PRF");
    reveal_strlit("Ikev2IntAlgo");
    reveal_strlit("IPSecName");
    reveal_strlit("IpsecCrypt");
    reveal_strlit("IpsecAuth");
    assert("Secret"@.len() == 6);
    assert(p.get("IKEv2Policy"@) == q.get("IKEv2Policy"@));
    assert(p.get("IPSEC-Policy"@) == q.get("IPSEC-Policy"@));
    assert(p.get("IkeDhGroup"@) == q.get("IkeDhGroup"@));
    let n = doc.len() as int;
    if let Some(name) = p.get("IKEv2Policy"@) {
        let all = prefixed(doc, "IKEV2POLICY"@, n);
        let same = prefixed(other, "IKEV2POLICY"@, n);
        lemma_prefixed_alike(doc, other, "IKEV2POLICY"@, n);
        lemma_policy_alike(all, same, "Ikev2Name"@, name, 0);
        if let Some(s) = policy(doc, "IKEV2POLICY"@, "Ikev2Name"@, name) {
            let o = policy(other, "IKEV2POLICY"@, "Ikev2Name"@, name)->0;
            assert(s.get("Ikev2Crypt"@) == o.get("Ikev2Crypt"@));
            assert(s.get("Ikev2PRF"@) == o.get("Ikev2PRF"@));
            assert(s.get("Ikev2IntAlgo"@) == o.get("Ikev2IntAlgo"@));
        }
    }
    if let Some(name) = p.get("IPSEC-Policy"@) {
        let all = prefixed(doc, "IPSECPOLICY"@, n);
        let same = prefixed(other, "IPSECPOLICY"@, n);
        lemma_prefixed_alike(doc, other, "IPSECPOLICY"@, n);
        lemma_policy_alike(all, same, "IPSecName"@, name, 0);
        if let Some(s) = policy(doc, "IPSECPOLICY"@, "IPSecName"@, name) {
            let o = policy(other, "IPSECPOLICY"@, "IPSecName"@, name)->0;
            assert(s.get("IpsecCrypt"@) == o.get("IpsecCrypt"@));
            assert(s.get("IpsecAuth"@) == o.get("IpsecAuth"@));
        }
    }
}

proof fn lemma_profile_alike(
    doc: Seq<SectionView>,
    other: Seq<SectionView>,
    p: SectionView,
    q: SectionView,
)
    requires
        only_secrets_differ(doc, other),
        differ_in_secret(p, q),
    ensures
        match (profile_of(doc, p), profile_of(other, q)) {
            (Ok(x), Ok(y)) => {
                &&& x.warnings == y.warnings
                &&& y.config == (ConfigView { secret: y.config.secret, ..x.config })
            },
            (Err(e), Err(f)) => e == f,
            _ => false,
        },
{
    reveal_strlit("Name");
    reveal_strlit("Gateway");
    reveal_strlit("ExchMode");
    reveal_strlit("IKEv2Auth");
    reveal_strlit("IkeIdType");
    reveal_strlit("IkeIdStr");
    reveal_strlit("IKEv2Policy");
    reveal_strlit("IPSEC-Policy");
    reveal_strlit("IkeDhGroup");
    reveal_strlit("PFS");
    reveal_strlit("IpAddrAssign");
    reveal_strlit("DNS1");
    reveal_strlit("DNS2");
    reveal_strlit("DNS3");
    reveal_strlit("DNS4");
    reveal_strlit("DomainName");
    reveal_strlit("ConnMedia");
    reveal_strlit("ConnMode");
    reveal_strlit("SeamRoaming");
    reveal_strlit("PriVoIP");
    reveal_strlit("UseXAUTH");
    reveal_strlit("UseComp");
    reveal_strlit("Secret");
    reveal_strlit("Network");
    reveal_strlit("SubMask");
    assert("Secret"@.len() == 6);
    lemma_networks_hide_the_secret(p, q, 1);
    assert(p.get("Name"@) == q.get("Name"@));
    assert(p.get("Gateway"@) == q.get("Gateway"@));
    assert(p.get("ExchMode"@) == q.get("ExchMode"@));
    assert(p.get("IKEv2Auth"@) == q.get("IKEv2Auth"@));
    assert(p.get("IkeIdType"@) == q.get("IkeIdType"@));
    assert(p.get("IkeIdStr"@) == q.get("IkeIdStr"@));
    assert(p.get("IKEv2Policy"@) == q.get("IKEv2Policy"@));
    assert(p.get("IPSEC-Policy"@) == q.get("IPSEC-Policy"@));
    assert(p.get("IkeDhGroup"@) == q.get("IkeDhGroup"@));
    assert(p.get("PFS"@) == q.get("PFS"@));
    assert(p.get("IpAddrAssign"@) == q.get("IpAddrAssign"@));
    assert(p.get("DNS1"@) == q.get("DNS1"@));
    assert(p.get("DNS2"@) == q.get("DNS2"@));
    assert(p.get("DNS3"@) == q.get("DNS3"@));
    assert(p.get("DNS4"@) == q.get("DNS4"@));
    assert(p.get("DomainName"@) == q.get("DomainName"@));
    assert(p.get("ConnMedia"@) == q.get("ConnMedia"@));
    assert(p.get("ConnMode"@) == q.get("ConnMode"@));
    assert(p.get("SeamRoaming"@) == q.get("SeamRoaming"@));
    assert(p.get("PriVoIP"@) == q.get("PriVoIP"@));
    assert(p.get("UseXAUTH"@) == q.get("UseXAUTH"@));
    assert(p.get("UseComp"@) == q.get("UseComp"@));
    assert(identity_of(p) == identity_of(q));
    lemma_policies_alike(doc, other, p, q);
    assert(pfs_of(p) == pfs_of(q));
    assert(assign_of(p) == assign_of(q));
    assert(dns_of(p) == dns_of(q));
    assert(closing_notes(p) == closing_notes(q));
    assert(secret_of(p) is Ok <==> secret_of(q) is Ok);
    assert(secret_of(p) is Err ==> secret_of(p) == secret_of(q));
}

/// Nothing that an import says or decides, but for the key itself, depends on the pre-shared key:
/// no warning and no error can repeat it.
pub proof fn law_import_findings_hide_the_secret(doc: Seq<SectionView>, other: Seq<SectionView>)
    requires
        only_secrets_differ(doc, other),
    ensures
        match (imported_document(doc), imported_document(other)) {
            (Ok(x), Ok(y)) => {
                &&& x.warnings == y.warnings
                &&& y.config == (ConfigView { secret: y.config.secret, ..x.config })
            },
            (Err(e), Err(f)) => e == f,
            _ => false,
        },
{
    let n = doc.len() as int;
    lemma_prefixed_alike(doc, other, "PROFILE"@, n);
    let profiles = prefixed(doc, "PROFILE"@, n);
    if profiles.len() > 0 {
        assert(differ_in_secret(profiles[0], prefixed(other, "PROFILE"@, n)[0]));
        lemma_profile_alike(doc, other, profiles[0], prefixed(other, "PROFILE"@, n)[0]);
    }
}

/// A profile that imports names a gateway that is fit to be dialled.
pub proof fn law_imported_gateway_can_be_dialled(doc: Seq<SectionView>, p: SectionView)
    ensures
        profile_of(doc, p) matches Ok(x) ==> is_gateway(x.config.gateway),
{
}

/// The policy that the profile names in a field.
pub open spec fn named_policy(
    doc: Seq<SectionView>,
    p: SectionView,
    field: Seq<char>,
    prefix: Seq<char>,
    name_field: Seq<char>,
) -> Option<SectionView> {
    match p.get(field) {
        Some(name) => policy(doc, prefix, name_field, name),
        None => None,
    }
}

/// The code in a field, when there is a number in it.
pub open spec fn code_in(s: Option<SectionView>, field: Seq<char>) -> Option<int> {
    match s {
        Some(s) => match code_field(s, field) {
            Ok(code) => Some(code),
            Err(_) => None,
        },
        None => None,
    }
}

/// No import guesses: a profile imports only where the exchange mode, the authentication method,
/// every algorithm and every group are codes that the tables know, and it gets what they map to.
pub proof fn law_unknown_codes_are_refused(doc: Seq<SectionView>, p: SectionView)
    ensures
        profile_of(doc, p) matches Ok(x) ==> {
            let c = x.config;
            let ike = named_policy(doc, p, "IKEv2Policy"@, "IKEV2POLICY"@, "Ikev2Name"@);
            let esp = named_policy(doc, p, "IPSEC-Policy"@, "IPSECPOLICY"@, "IPSecName"@);
            &&& code_in(Some(p), "ExchMode"@) matches Some(m) && exch_mode_code(m) is Some
            &&& code_in(Some(p), "IKEv2Auth"@) matches Some(m) && auth_code(m) is Some
            &&& code_in(ike, "Ikev2Crypt"@) matches Some(m) && (enc_code(m) matches Some(a)
                && a.value == c.ike_enc)
            &&& code_in(ike, "Ikev2PRF"@) matches Some(m) && (prf_code(m) matches Some(a) && a.value
                == c.ike_prf)
            &&& code_in(ike, "Ikev2IntAlgo"@) matches Some(m) && (ike_integ_code(m) matches Some(a)
                && a.value == c.ike_integ)
            &&& code_in(Some(p), "IkeDhGroup"@) matches Some(m) && (dh_code(m) matches Some(a)
                && a.value == c.ike_dh)
            &&& code_in(esp, "IpsecCrypt"@) matches Some(m) && (enc_code(m) matches Some(a)
                && a.value == c.esp_enc)
            &&& code_in(esp, "IpsecAuth"@) matches Some(m) && (esp_integ_code(m) matches Some(a)
                && a.value == c.esp_integ)
            &&& code_in(Some(p), "PFS"@) matches Some(m) && (if m == 0 {
                c.pfs is None
            } else {
                dh_code(m) matches Some(a) && c.pfs == Some(a.value)
            })
        },
{
}

/// Whether every one of some findings is among the warnings.
pub open spec fn reported(warnings: Seq<Seq<char>>, findings: Seq<Seq<char>>) -> bool {
    forall|i: int| 0 <= i < findings.len() ==> warnings.contains(#[trigger] findings[i])
}

proof fn lemma_reported_on_either_side(x: Seq<Seq<char>>, y: Seq<Seq<char>>)
    ensures
        reported(x + y, x),
        reported(x + y, y),
{
    assert forall|i: int| 0 <= i < x.len() implies (x + y).contains(#[trigger] x[i]) by {
        assert((x + y)[i] == x[i]);
    }
    assert forall|i: int| 0 <= i < y.len() implies (x + y).contains(#[trigger] y[i]) by {
        assert((x + y)[x.len() + i] == y[i]);
    }
}

proof fn lemma_reported_through(w: Seq<Seq<char>>, x: Seq<Seq<char>>, y: Seq<Seq<char>>)
    requires
        reported(w, x),
        reported(x, y),
    ensures
        reported(w, y),
{
    assert forall|i: int| 0 <= i < y.len() implies w.contains(#[trigger] y[i]) by {
        assert(x.contains(y[i]));
        let k = choose|k: int| 0 <= k < x.len() && x[k] == y[i];
        assert(w.contains(x[k]));
    }
}

/// What the first of two parts reports, both together report.
proof fn lemma_reported_first(x: Seq<Seq<char>>, y: Seq<Seq<char>>, z: Seq<Seq<char>>)
    requires
        reported(x, z),
    ensures
        reported(x + y, z),
{
    lemma_reported_on_either_side(x, y);
    lemma_reported_through(x + y, x, z);
}

/// All six parts are reported by their sum.
proof fn lemma_reported_parts(
    a: Seq<Seq<char>>,
    b: Seq<Seq<char>>,
    c: Seq<Seq<char>>,
    d: Seq<Seq<char>>,
    e: Seq<Seq<char>>,
    f: Seq<Seq<char>>,
)
    ensures
        reported(a + b + c + d + e + f, a),
        reported(a + b + c + d + e + f, b),
        reported(a + b + c + d + e + f, c),
        reported(a + b + c + d + e + f, d),
        reported(a + b + c + d + e + f, e),
        reported(a + b + c + d + e + f, f),
{
    lemma_reported_on_either_side(a, b);
    lemma_reported_on_either_side(a + b, c);
    lemma_reported_on_either_side(a + b + c, d);
    lemma_reported_on_either_side(a + b + c + d, e);
    lemma_reported_on_either_side(a + b + c + d + e, f);
    lemma_reported_first(a + b, c, a);
    lemma_reported_first(a + b, c, b);
    lemma_reported_first(a + b + c, d, a);
    lemma_reported_first(a + b + c, d, b);
    lemma_reported_first(a + b + c, d, c);
    lemma_reported_first(a + b + c + d, e, a);
    lemma_reported_first(a + b + c + d, e, b);
    lemma_reported_first(a + b + c + d, e, c);
    lemma_reported_first(a + b + c + d, e, d);
    lemma_reported_first(a + b + c + d + e, f, a);
    lemma_reported_first(a + b + c + d + e, f, b);
    lemma_reported_first(a + b + c + d + e, f, c);
    lemma_reported_first(a + b + c + d + e, f, d);
    lemma_reported_first(a + b + c + d + e, f, e);
}

/// What the algorithms of the IKE SA have to say is among what its policy has to say.
proof fn lemma_ike_findings(doc: Seq<SectionView>, p: SectionView)
    requires
        ike_of(doc, p) is Ok,
    ensures
        ({
            let s = named_policy(doc, p, "IKEv2Policy"@, "IKEV2POLICY"@, "Ikev2Name"@)->0;
            let all = ike_of(doc, p)->Ok_0.1;
            &&& reported(all, enc_of(s, "Ikev2Crypt"@)->Ok_0.1)
            &&& reported(all, prf_of(s, "Ikev2PRF"@)->Ok_0.1)
            &&& reported(all, integ_of(s, "Ikev2IntAlgo"@, false)->Ok_0.1)
            &&& reported(
                all,
                group_of("IkeDhGroup"@, code_field(p, "IkeDhGroup"@)->Ok_0)->Ok_0.1,
            )
        }),
{
    let s = named_policy(doc, p, "IKEv2Policy"@, "IKEV2POLICY"@, "Ikev2Name"@)->0;
    let ike = ike_of(doc, p)->Ok_0;
    let name = p.get("IKEv2Policy"@)->0;
    lemma_reported_parts(
        enc_of(s, "Ikev2Crypt"@)->Ok_0.1,
        prf_of(s, "Ikev2PRF"@)->Ok_0.1,
        integ_of(s, "Ikev2IntAlgo"@, false)->Ok_0.1,
        group_of("IkeDhGroup"@, code_field(p, "IkeDhGroup"@)->Ok_0)->Ok_0.1,
        corroboration(name, "AES256"@, ike.0.enc == EncAlg::Aes256),
        corroboration(name, "SHA256"@, ike.0.integ == IntegAlg::Sha256),
    );
}

/// What the algorithms of the ESP SA have to say is among what its policy has to say.
proof fn lemma_esp_findings(doc: Seq<SectionView>, p: SectionView)
    requires
        esp_of(doc, p) is Ok,
    ensures
        ({
            let s = named_policy(doc, p, "IPSEC-Policy"@, "IPSECPOLICY"@, "IPSecName"@)->0;
            let all = esp_of(doc, p)->Ok_0.2;
            &&& reported(all, enc_of(s, "IpsecCrypt"@)->Ok_0.1)
            &&& reported(all, integ_of(s, "IpsecAuth"@, true)->Ok_0.1)
        }),
{
    let s = named_policy(doc, p, "IPSEC-Policy"@, "IPSECPOLICY"@, "IPSecName"@)->0;
    let esp = esp_of(doc, p)->Ok_0;
    let name = p.get("IPSEC-Policy"@)->0;
    let x = enc_of(s, "IpsecCrypt"@)->Ok_0.1;
    let y = integ_of(s, "IpsecAuth"@, true)->Ok_0.1;
    let u = corroboration(name, "AES256"@, esp.0 == EncAlg::Aes256);
    let v = corroboration(name, "SHA256"@, esp.1 == IntegAlg::Sha256);
    lemma_reported_on_either_side(x, y);
    lemma_reported_first(x + y, u, x);
    lemma_reported_first(x + y, u, y);
    lemma_reported_first(x + y + u, v, x);
    lemma_reported_first(x + y + u, v, y);
}

/// A mapping has something to report exactly when it is not confirmed.
pub proof fn law_confirmed_codes_are_quiet(
    field: Seq<char>,
    code: int,
    meaning: Seq<char>,
    c: Confidence,
)
    ensures
        confidence_note(field, code, meaning, c).len() == 0 <==> c == Confidence::High,
{
}

/// Every mapping that is not confirmed is reported: what the algorithms, the groups, the identity
/// and the address assignment have to say is among the warnings of the import.
pub proof fn law_unconfirmed_codes_are_reported(doc: Seq<SectionView>, p: SectionView)
    ensures
        profile_of(doc, p) matches Ok(x) ==> {
            let c = x.config;
            let ike = named_policy(doc, p, "IKEv2Policy"@, "IKEV2POLICY"@, "Ikev2Name"@);
            let esp = named_policy(doc, p, "IPSEC-Policy"@, "IPSECPOLICY"@, "IPSecName"@);
            &&& code_in(ike, "Ikev2Crypt"@) matches Some(m) && (enc_code(m) matches Some(a)
                && reported(
                x.warnings,
                confidence_note("Ikev2Crypt"@, m, c.ike_enc.token(), a.confidence),
            ))
            &&& code_in(ike, "Ikev2PRF"@) matches Some(m) && (prf_code(m) matches Some(a)
                && reported(
                x.warnings,
                confidence_note("Ikev2PRF"@, m, c.ike_prf.token(), a.confidence),
            ))
            &&& code_in(ike, "Ikev2IntAlgo"@) matches Some(m) && (ike_integ_code(m) matches Some(a)
                && reported(
                x.warnings,
                confidence_note("Ikev2IntAlgo"@, m, c.ike_integ.token(), a.confidence),
            ))
            &&& code_in(Some(p), "IkeDhGroup"@) matches Some(m) && (dh_code(m) matches Some(a)
                && reported(
                x.warnings,
                confidence_note("IkeDhGroup"@, m, c.ike_dh.token(), a.confidence),
            ))
            &&& code_in(esp, "IpsecCrypt"@) matches Some(m) && (enc_code(m) matches Some(a)
                && reported(
                x.warnings,
                confidence_note("IpsecCrypt"@, m, c.esp_enc.token(), a.confidence),
            ))
            &&& code_in(esp, "IpsecAuth"@) matches Some(m) && (esp_integ_code(m) matches Some(a)
                && reported(
                x.warnings,
                confidence_note("IpsecAuth"@, m, c.esp_integ.token(), a.confidence),
            ))
            &&& pfs_of(p) matches Ok(g) && reported(x.warnings, g.1)
            &&& identity_of(p) matches Ok(id) && reported(x.warnings, id.1)
            &&& assign_of(p) matches Ok(vip) && reported(x.warnings, vip.1)
        },
{
    if let Ok(x) = profile_of(doc, p) {
        let id = identity_of(p)->Ok_0.1;
        let ike = ike_of(doc, p)->Ok_0.1;
        let esp = esp_of(doc, p)->Ok_0.2;
        let pfs = pfs_of(p)->Ok_0.1;
        let nets = networks_note(x.config.remote_subnets);
        let vip = assign_of(p)->Ok_0.1;
        let six = id + ike + esp + pfs + nets + vip;
        let dns = dns_of(p).1;
        let s = named_policy(doc, p, "IKEv2Policy"@, "IKEV2POLICY"@, "Ikev2Name"@)->0;
        let t = named_policy(doc, p, "IPSEC-Policy"@, "IPSECPOLICY"@, "IPSecName"@)->0;
        assert(x.warnings == six + dns + closing_notes(p));
        lemma_reported_parts(id, ike, esp, pfs, nets, vip);
        lemma_reported_on_either_side(six, dns);
        lemma_reported_first(six + dns, closing_notes(p), six);
        lemma_reported_through(x.warnings, six, id);
        lemma_reported_through(x.warnings, six, ike);
        lemma_reported_through(x.warnings, six, esp);
        lemma_reported_through(x.warnings, six, pfs);
        lemma_reported_through(x.warnings, six, vip);
        lemma_ike_findings(doc, p);
        lemma_esp_findings(doc, p);
        lemma_reported_through(x.warnings, ike, enc_of(s, "Ikev2Crypt"@)->Ok_0.1);
        lemma_reported_through(x.warnings, ike, prf_of(s, "Ikev2PRF"@)->Ok_0.1);
        lemma_reported_through(x.warnings, ike, integ_of(s, "Ikev2IntAlgo"@, false)->Ok_0.1);
        lemma_reported_through(
            x.warnings,
            ike,
            group_of("IkeDhGroup"@, code_field(p, "IkeDhGroup"@)->Ok_0)->Ok_0.1,
        );
        lemma_reported_through(x.warnings, esp, enc_of(t, "IpsecCrypt"@)->Ok_0.1);
        lemma_reported_through(x.warnings, esp, integ_of(t, "IpsecAuth"@, true)->Ok_0.1);
    }
}

/// The connection is what the profile section says, field by field: name, gateway, key, identity, the
/// second round, compression and the virtual address. It speaks IKEv2.
pub proof fn law_connection_is_what_the_profile_says(doc: Seq<SectionView>, p: SectionView)
    ensures
        profile_of(doc, p) matches Ok(x) ==> {
            let c = x.config;
            &&& is_first_entry(p, "Name"@, c.name)
            &&& is_first_entry(p, "Gateway"@, c.gateway)
            &&& is_first_entry(p, "Secret"@, c.secret)
            &&& c.local_id == p.get("IkeIdStr"@)
            &&& p.get("IkeIdType"@) is None ==> c.local_id_type is None
            &&& p.get("IkeIdType"@) matches Some(v) ==> (number_up_to(trimmed(v), u32::MAX as nat)
                matches Some(n) && {
                &&& n == 1 ==> c.local_id_type == Some(crate::model::IkeIdType::Ipv4)
                &&& n == 2 ==> c.local_id_type == Some(crate::model::IkeIdType::Fqdn)
                &&& n == 3 ==> c.local_id_type == Some(crate::model::IkeIdType::Rfc822)
                &&& n == 11 ==> c.local_id_type == Some(crate::model::IkeIdType::KeyId)
                &&& n != 1 && n != 2 && n != 3 && n != 11 ==> c.local_id_type is None
            })
            &&& c.ike_version == IkeVersion::V2
            &&& c.user_auth is Some <==> (p.get("UseXAUTH"@) matches Some(v) && trimmed(v) == "1"@)
            &&& c.user_auth matches Some(u) ==> u.username is None && u.can_save && !u.otp
            &&& c.compression <==> (p.get("UseComp"@) matches Some(v) && trimmed(v) == "1"@)
            &&& c.request_virtual_ip
            &&& c.dpd.delay_secs == 30 && c.dpd.auto_reconnect
        },
{
    law_first_of_a_name_is_found(doc, Seq::empty(), p, "Name"@);
    law_first_of_a_name_is_found(doc, Seq::empty(), p, "Gateway"@);
    law_first_of_a_name_is_found(doc, Seq::empty(), p, "Secret"@);
}

/// Whether a field states an address.
pub open spec fn states_address(p: SectionView, key: Seq<char>, a: Ipv4Addr) -> bool {
    p.get(key) matches Some(v) && address(trimmed(v)) == Some(a)
}

/// Whether a network is the one that a profile gives under a number: by its address and its netmask.
pub open spec fn is_numbered(p: SectionView, no: int, n: Ipv4Net) -> bool {
    &&& states_address(p, "Network"@ + decimal(no as nat), n.addr)
    &&& exists|m: Ipv4Addr|
        #[trigger] states_address(p, "SubMask"@ + decimal(no as nat), m) && prefix_of(m) == Some(
            n.prefix_len,
        )
}

proof fn lemma_networks(p: SectionView, i: int)
    requires
        1 <= i,
    ensures
        networks_from(p, i) matches Ok(nets) ==> {
            &&& forall|k: int| 0 <= k < nets.len() ==> is_numbered(p, i + k, #[trigger] nets[k])
            &&& i + nets.len() <= p.entries.len() && i + nets.len() < u32::MAX ==> p.get(
                network_key(i + nets.len()),
            ) is None
        },
    decreases p.entries.len() + 1 - i,
{
    if networks_from(p, i) is Ok && !(i > p.entries.len() || i >= u32::MAX) {
        if network_of(p, i)->Ok_0 is Some {
            lemma_networks(p, i + 1);
            let nets = networks_from(p, i)->Ok_0;
            let rest = networks_from(p, i + 1)->Ok_0;
            let mask = p.get("SubMask"@ + decimal(i as nat))->0;
            let m = address(trimmed(mask))->0;
            assert(states_address(p, "SubMask"@ + decimal(i as nat), m));
            assert(is_numbered(p, i, nets[0]));
            assert forall|k: int| 0 <= k < nets.len() implies is_numbered(
                p,
                i + k,
                #[trigger] nets[k],
            ) by {
                if k > 0 {
                    assert(nets[k] == rest[k - 1]);
                    assert(is_numbered(p, i + 1 + (k - 1), rest[k - 1]));
                }
            }
            assert(i + 1 + rest.len() == i + nets.len());
        }
    }
}

/// The networks of the connection are those that the profile numbers from 1 on, each with its address
/// and its netmask, in the order of their numbers and up to the first number that is missing.
pub proof fn law_networks_are_those_numbered(doc: Seq<SectionView>, p: SectionView)
    ensures
        profile_of(doc, p) matches Ok(x) ==> {
            let nets = x.config.remote_subnets;
            &&& forall|k: int| 0 <= k < nets.len() ==> is_numbered(p, 1 + k, #[trigger] nets[k])
            &&& 1 + nets.len() <= p.entries.len() && 1 + nets.len() < u32::MAX ==> p.get(
                "Network"@ + decimal((1 + nets.len()) as nat),
            ) is None
        },
{
    lemma_networks(p, 1);
    if let Ok(x) = profile_of(doc, p) {
        let nets = x.config.remote_subnets;
        assert(networks_from(p, 1) == Ok::<Seq<Ipv4Net>, ErrorView>(nets));
        assert(network_key((1 + nets.len()) as int) == "Network"@ + decimal((1 + nets.len()) as nat));
    }
}

/// Whether a DNS field contributes nothing: it is missing, blank, the placeholder, or no address.
pub open spec fn is_no_server(p: SectionView, key: Seq<char>) -> bool {
    p.get(key) matches Some(v) ==> trimmed(v).len() == 0 || trimmed(v) == "0.0.0.0"@ || address(
        trimmed(v),
    ) is None
}

/// Whether a DNS field contributes exactly some servers: its own address, or none.
pub open spec fn gives_servers(p: SectionView, key: Seq<char>, s: Seq<Ipv4Addr>) -> bool {
    if is_no_server(p, key) {
        s.len() == 0
    } else {
        s.len() == 1 && states_address(p, key, s[0])
    }
}

/// The DNS servers are the addresses of the four DNS fields, in their order, without placeholders;
/// the search domain is that of the profile.
pub proof fn law_dns_is_what_the_profile_says(doc: Seq<SectionView>, p: SectionView)
    ensures
        profile_of(doc, p) matches Ok(x) ==> {
            &&& exists|a: Seq<Ipv4Addr>, b: Seq<Ipv4Addr>, c: Seq<Ipv4Addr>, d: Seq<Ipv4Addr>|
                {
                    &&& x.config.dns.servers == a + b + c + d
                    &&& #[trigger] gives_servers(p, "DNS1"@, a)
                    &&& #[trigger] gives_servers(p, "DNS2"@, b)
                    &&& #[trigger] gives_servers(p, "DNS3"@, c)
                    &&& #[trigger] gives_servers(p, "DNS4"@, d)
                }
            &&& match p.get("DomainName"@) {
                Some(v) => if trimmed(v).len() > 0 {
                    x.config.dns.domain == Some(trimmed(v))
                } else {
                    x.config.dns.domain is None
                },
                None => x.config.dns.domain is None,
            }
        },
{
    if profile_of(doc, p) is Ok {
        assert(gives_servers(p, "DNS1"@, dns_field(p, "DNS1"@).0));
        assert(gives_servers(p, "DNS2"@, dns_field(p, "DNS2"@).0));
        assert(gives_servers(p, "DNS3"@, dns_field(p, "DNS3"@).0));
        assert(gives_servers(p, "DNS4"@, dns_field(p, "DNS4"@).0));
    }
}

proof fn lemma_policy(v: Seq<SectionView>, name_field: Seq<char>, wanted: Seq<char>, i: int)
    requires
        0 <= i,
    ensures
        policy_from(v, name_field, wanted, i) matches Some(s) ==> v.contains(s) && s.get(name_field)
            == Some(wanted),
        policy_from(v, name_field, wanted, i) is None ==> forall|k: int|
            i <= k < v.len() ==> (#[trigger] v[k]).get(name_field) != Some(wanted),
    decreases v.len() - i,
{
    if i < v.len() && v[i].get(name_field) != Some(wanted) {
        lemma_policy(v, name_field, wanted, i + 1);
    }
}

/// A policy is found by its own name among the sections of its kind; and a profile that refers to one
/// that is not there does not import.
pub proof fn law_policy_is_found_by_name(
    doc: Seq<SectionView>,
    prefix: Seq<char>,
    name_field: Seq<char>,
    wanted: Seq<char>,
)
    ensures
        policy(doc, prefix, name_field, wanted) matches Some(s) ==> doc.contains(s) && begins(
            s.name,
            prefix,
        ) && s.get(name_field) == Some(wanted),
        policy(doc, prefix, name_field, wanted) is None ==> forall|k: int|
            0 <= k < prefixed(doc, prefix, doc.len() as int).len() ==> (#[trigger] prefixed(
                doc,
                prefix,
                doc.len() as int,
            )[k]).get(name_field) != Some(wanted),
{
    let v = prefixed(doc, prefix, doc.len() as int);
    lemma_policy(v, name_field, wanted, 0);
    law_first_with_a_prefix(doc, prefix);
    if let Some(s) = policy(doc, prefix, name_field, wanted) {
        let k = choose|k: int| 0 <= k < v.len() && v[k] == s;
        assert(doc.contains(v[k]));
    }
}

/// Whether a section is the first of a file whose name begins as that of a profile does.
pub open spec fn is_first_profile(doc: Seq<SectionView>, i: int) -> bool {
    &&& 0 <= i < doc.len()
    &&& begins(doc[i].name, "PROFILE"@)
    &&& forall|j: int| 0 <= j < i ==> !begins((#[trigger] doc[j]).name, "PROFILE"@)
}

/// A file imports as its first profile section does, and not at all without one.
pub proof fn law_first_profile_is_imported(doc: Seq<SectionView>, i: int)
    ensures
        is_first_profile(doc, i) ==> imported_document(doc) == profile_of(doc, doc[i]),
        (forall|j: int| 0 <= j < doc.len() ==> !begins((#[trigger] doc[j]).name, "PROFILE"@))
            ==> imported_document(doc) == Err::<ProfileView, ErrorView>(
            ErrorView::NoProfileSection,
        ),
{
    law_first_with_a_prefix(doc, "PROFILE"@);
    let v = prefixed(doc, "PROFILE"@, doc.len() as int);
    if v.len() > 0 {
        let k = choose|k: int|
            0 <= k < doc.len() && #[trigger] doc[k] == v[0] && begins(doc[k].name, "PROFILE"@)
                && forall|j: int| 0 <= j < k ==> !begins((#[trigger] doc[j]).name, "PROFILE"@);
        assert(begins(doc[k].name, "PROFILE"@));
        if is_first_profile(doc, i) {
            assert(i == k);
        }
        assert(imported_document(doc) == profile_of(doc, v[0]));
    } else {
        if is_first_profile(doc, i) {
            assert(!begins(doc[i].name, "PROFILE"@));
        }
    }
}

/// A field that is missing, not a number or not an address is refused by its name, and with what
/// stands in it.
pub proof fn law_field_is_refused_by_name(p: SectionView, field: Seq<char>, v: Seq<char>)
    ensures
        p.get(field) is None ==> required_field(p, field) == Err::<Seq<char>, ErrorView>(
            ErrorView::MissingField { section: p.name, field },
        ),
        p.get(field) is None ==> code_field(p, field) == Err::<int, ErrorView>(
            ErrorView::MissingField { section: p.name, field },
        ),
        p.get(field) == Some(v) ==> required_field(p, field) == Ok::<Seq<char>, ErrorView>(v),
        number_up_to(trimmed(v), 0xFFFF_FFFF) is None ==> number_field(field, v) == Err::<
            int,
            ErrorView,
        >(ErrorView::NotANumber { field, value: v }),
        number_up_to(trimmed(v), 0xFFFF_FFFF) matches Some(n) ==> number_field(field, v) == Ok::<
            int,
            ErrorView,
        >(n as int),
        p.get(field) == Some(v) ==> code_field(p, field) == number_field(field, v),
        address(trimmed(v)) is None ==> address_field(field, v) == Err::<Ipv4Addr, ErrorView>(
            ErrorView::BadAddress { field, value: v },
        ),
        address(trimmed(v)) matches Some(a) ==> address_field(field, v) == Ok::<
            Ipv4Addr,
            ErrorView,
        >(a),
{
}

/// Only IKEv2, code 34, with a pre-shared key, code 2, is taken; anything else is refused with its
/// code, and a key that is missing by name.
pub proof fn law_key_needs_ikev2(p: SectionView, mode: int, auth: int)
    requires
        code_field(p, "ExchMode"@) == Ok::<int, ErrorView>(mode),
        code_field(p, "IKEv2Auth"@) == Ok::<int, ErrorView>(auth),
    ensures
        mode != 34 ==> secret_of(p) == Err::<Seq<char>, ErrorView>(ErrorView::NotIkev2(mode)),
        mode == 34 && auth != 2 ==> secret_of(p) == Err::<Seq<char>, ErrorView>(
            ErrorView::UnknownCode {
                field: "IKEv2Auth"@,
                code: auth,
                what: "authentication method"@,
            },
        ),
        mode == 34 && auth == 2 && p.get("Secret"@) is None ==> secret_of(p) == Err::<
            Seq<char>,
            ErrorView,
        >(ErrorView::MissingField { section: p.name, field: "Secret"@ }),
        mode == 34 && auth == 2 && p.get("Secret"@) is Some ==> secret_of(p) == Ok::<
            Seq<char>,
            ErrorView,
        >(p.get("Secret"@)->0),
{
    crate::ncp::codes::law_codes_mean_what_the_registry_says(mode);
    crate::ncp::codes::law_codes_mean_what_the_registry_says(auth);
}

/// How sure a reading is, is said with the field, the code and the meaning; a confirmed one needs
/// no word. A policy whose name speaks of another algorithm than its codes is reported.
pub proof fn law_doubt_is_said(
    field: Seq<char>,
    code: int,
    meaning: Seq<char>,
    name: Seq<char>,
    token: Seq<char>,
    agrees: bool,
)
    ensures
        confidence_note(field, code, meaning, Confidence::High).len() == 0,
        confidence_note(field, code, meaning, Confidence::Medium) == seq![
            field + "="@ + decimal(code as nat) + " interpreted as "@ + meaning
                + " (unconfirmed mapping — verify on first connect)"@,
        ],
        confidence_note(field, code, meaning, Confidence::Low) == seq![
            field + "="@ + decimal(code as nat) + " interpreted as "@ + meaning
                + " (LOW-confidence guess — confirm before use)"@,
        ],
        has(uppercase(name), token) && !agrees ==> corroboration(name, token, agrees) == seq![
            "policy name "@ + debug_quoted(name) + " mentions "@ + token
                + " but the numeric codes mapped to a different algorithm — check the code tables"@,
        ],
        agrees ==> corroboration(name, token, agrees).len() == 0,
        has(uppercase(name), token) == false ==> corroboration(name, token, agrees).len() == 0,
{
}

/// A network needs its mask; a network or a mask that is no address is refused by its numbered
/// name, and a mask with holes by its number.
pub proof fn law_network_is_refused_by_number(p: SectionView, i: int, net: Seq<char>, mask: Seq<char>)
    requires
        i >= 0,
        p.get("Network"@ + decimal(i as nat)) == Some(net),
    ensures
        p.get("SubMask"@ + decimal(i as nat)) is None ==> network_of(p, i) == Err::<
            Option<Ipv4Net>,
            ErrorView,
        >(
            ErrorView::MissingField { section: p.name, field: "SubMaskN (matching NetworkN)"@ },
        ),
        p.get("SubMask"@ + decimal(i as nat)) == Some(mask) && address(trimmed(net)) is None
            ==> network_of(p, i) == Err::<Option<Ipv4Net>, ErrorView>(
            ErrorView::BadAddress { field: "Network"@ + decimal(i as nat), value: net },
        ),
        p.get("SubMask"@ + decimal(i as nat)) == Some(mask) && address(trimmed(net)) is Some
            && address(trimmed(mask)) is None ==> network_of(p, i) == Err::<
            Option<Ipv4Net>,
            ErrorView,
        >(ErrorView::BadAddress { field: "SubMask"@ + decimal(i as nat), value: mask }),
        p.get("SubMask"@ + decimal(i as nat)) == Some(mask) && address(trimmed(net)) is Some
            && address(trimmed(mask)) is Some && prefix_of(address(trimmed(mask))->0) is None
            ==> network_of(p, i) == Err::<Option<Ipv4Net>, ErrorView>(
            ErrorView::BadNetmask { index: i },
        ),
{
}

/// A profile imports exactly when its name and a gateway that can be dialled are there and its key,
/// identity, policies, group, networks and address can be read; otherwise it fails with the first
/// of these that does. A file without a profile is refused as such.
pub proof fn law_profile_fails_with_its_first_fault(doc: Seq<SectionView>, p: SectionView)
    ensures
        ({
            let r = profile_of(doc, p);
            let gw = p.get("Gateway"@);
            let named = p.get("Name"@) is Some;
            let dialled = gw is Some && is_gateway(gw->0);
            let key = secret_of(p);
            let id = identity_of(p);
            let ike = ike_of(doc, p);
            let esp = esp_of(doc, p);
            let pfs = pfs_of(p);
            let nets = networks_from(p, 1);
            let vip = assign_of(p);
            &&& r is Ok <==> named && dialled && key is Ok && id is Ok && ike is Ok && esp is Ok
                && pfs is Ok && nets is Ok && vip is Ok
            &&& !named ==> r == Err::<ProfileView, ErrorView>(
                ErrorView::MissingField { section: p.name, field: "Name"@ },
            )
            &&& named && gw is None ==> r == Err::<ProfileView, ErrorView>(
                ErrorView::MissingField { section: p.name, field: "Gateway"@ },
            )
            &&& named && gw is Some && !dialled ==> r == Err::<ProfileView, ErrorView>(
                ErrorView::BadGateway(gw->0),
            )
            &&& named && dialled && key is Err ==> r == Err::<ProfileView, ErrorView>(key->Err_0)
            &&& named && dialled && key is Ok && id is Err ==> r == Err::<ProfileView, ErrorView>(
                id->Err_0,
            )
            &&& named && dialled && key is Ok && id is Ok && ike is Err ==> r == Err::<
                ProfileView,
                ErrorView,
            >(ike->Err_0)
            &&& named && dialled && key is Ok && id is Ok && ike is Ok && esp is Err ==> r == Err::<
                ProfileView,
                ErrorView,
            >(esp->Err_0)
        }),
        prefixed(doc, "PROFILE"@, doc.len() as int).len() == 0 ==> imported_document(doc) == Err::<
            ProfileView,
            ErrorView,
        >(ErrorView::NoProfileSection),
{
}

/// A policy that is not there is refused by its name. Forward secrecy is off with code 0 and else
/// the group of the code.
pub proof fn law_policy_must_be_there(doc: Seq<SectionView>, p: SectionView, name: Seq<char>)
    ensures
        p.get("IKEv2Policy"@) == Some(name) && policy(
            doc,
            "IKEV2POLICY"@,
            "Ikev2Name"@,
            name,
        ) is None ==> ike_of(doc, p) == Err::<(IkeChoice, Seq<Seq<char>>), ErrorView>(
            ErrorView::PolicyNotFound { kind: "IKEv2Policy"@, name },
        ),
        p.get("IPSEC-Policy"@) == Some(name) && policy(
            doc,
            "IPSECPOLICY"@,
            "IPSecName"@,
            name,
        ) is None ==> esp_of(doc, p) == Err::<(EncAlg, IntegAlg, Seq<Seq<char>>), ErrorView>(
            ErrorView::PolicyNotFound { kind: "IPSEC-Policy"@, name },
        ),
        code_field(p, "PFS"@) matches Ok(code) ==> {
            &&& code == 0 ==> pfs_of(p) is Ok && pfs_of(p)->Ok_0.0 is None && pfs_of(p)->Ok_0.1.len() == 0
            &&& code != 0 && dh_code(code) is None ==> pfs_of(p) == Err::<
                (Option<DhGroup>, Seq<Seq<char>>),
                ErrorView,
            >(ErrorView::UnknownCode { field: "PFS"@, code, what: "DH group"@ })
            &&& code != 0 && dh_code(code) is Some ==> pfs_of(p) is Ok && pfs_of(p)->Ok_0.0 == Some(
                dh_code(code)->0.value,
            )
        },
{
}

/// What a profile names and does not get is reported: networks that are not there, a DNS server
/// that is no address, an assignment or an identity type that is unknown, and every field that is
/// not interpreted, with its value.
pub proof fn law_what_is_ignored_is_reported(p: SectionView, field: Seq<char>, v: Seq<char>, code: int)
    ensures
        networks_note(Seq::empty()) == seq![
            "no Network1/SubMask1 found — no traffic selector; tunnel would carry no traffic"@,
        ],
        p.get(field) == Some(v) && trimmed(v).len() > 0 && trimmed(v) != "0.0.0.0"@ && address(
            trimmed(v),
        ) is None ==> dns_field(p, field) == (
            Seq::<Ipv4Addr>::empty(),
            seq![
                field + "="@ + trimmed(v) + " is not a valid IPv4 DNS server and was ignored"@,
            ],
        ),
        p.get(field) == Some(v) ==> ignored_field(p, field) == seq![
            field + "="@ + v + " is not interpreted yet and was ignored"@,
        ],
        p.get(field) is None ==> ignored_field(p, field).len() == 0,
        p.get("IpAddrAssign"@) == Some(v) && number_field("IpAddrAssign"@, v) == Ok::<
            int,
            ErrorView,
        >(code) && code != 0 ==> assign_of(p) == Ok::<(bool, Seq<Seq<char>>), ErrorView>(
            (
                true,
                seq![
                    "IpAddrAssign="@ + decimal(code as nat)
                        + " is unknown; requesting a server-assigned virtual IP anyway"@,
                ],
            ),
        ),
        p.get("IpAddrAssign"@) == Some(v) && number_field("IpAddrAssign"@, v) == Ok::<
            int,
            ErrorView,
        >(0) ==> assign_of(p) == Ok::<(bool, Seq<Seq<char>>), ErrorView>((true, Seq::empty())),
        p.get("IkeIdType"@) == Some(v) && number_field("IkeIdType"@, v) == Ok::<int, ErrorView>(
            code,
        ) && id_type_code(code) is None ==> identity_of(p) == Ok::<
            (Option<crate::model::IkeIdType>, Seq<Seq<char>>),
            ErrorView,
        >(
            (
                None,
                seq![
                    "IkeIdType="@ + decimal(code as nat)
                        + " is unknown; passing IkeIdStr through as-is"@,
                ],
            ),
        ),
        closing_notes(p).len() == ignored_field(p, "ConnMedia"@).len() + ignored_field(
            p,
            "ConnMode"@,
        ).len() + ignored_field(p, "SeamRoaming"@).len() + ignored_field(p, "PriVoIP"@).len() + (
        if switch_on(p, "UseXAUTH"@) {
            1nat
        } else {
            0nat
        }),
        p.get("UseXAUTH"@) matches Some(x) ==> trimmed(x) == "1"@ ==> closing_notes(p).contains(
            "UseXAUTH=1: a second authentication round will be negotiated as EAP-MSCHAPv2 (unconfirmed — verify on first connect); you will be asked for a username and password"@,
        ),
{
    crate::ncp::codes::law_codes_mean_what_the_registry_says(code);
    crate::ncp::codes::law_codes_mean_what_the_registry_says(0);
    crate::ncp::codes::law_confidence_is_what_was_seen(0);
    if let Some(x) = p.get("UseXAUTH"@) {
        if trimmed(x) == "1"@ {
            let w = closing_notes(p);
            assert(w[w.len() - 1]
                == "UseXAUTH=1: a second authentication round will be negotiated as EAP-MSCHAPv2 (unconfirmed — verify on first connect); you will be asked for a username and password"@);
        }
    }
}

/// Every error is told in its own words, with the section, the field, the value or the code that
/// it is about.
pub proof fn law_error_says_what_it_is_about(
    section: Seq<char>,
    field: Seq<char>,
    value: Seq<char>,
    what: Seq<char>,
    n: int,
)
    ensures
        ErrorView::NoProfileSection.text() == "no [PROFILE...] section found"@,
        (ErrorView::MissingField { section, field }).text() == "["@ + section
            + "] is missing required field "@ + field,
        (ErrorView::NotANumber { field, value }).text() == field + "="@ + value + ": not a number"@,
        (ErrorView::BadAddress { field, value }).text() == field + "="@ + value
            + ": invalid IPv4 address"@,
        (ErrorView::BadNetmask { index: n }).text() == "Network"@ + decimal(n as nat) + "/SubMask"@
            + decimal(n as nat) + ": non-contiguous netmask"@,
        ErrorView::BadGateway(value).text() == "gateway contains invalid characters: "@
            + debug_quoted(value),
        (ErrorView::PolicyNotFound { kind: what, name: value }).text()
            == "referenced policy section not found: "@ + what + " named "@ + debug_quoted(value),
        (ErrorView::UnknownCode { field, code: n, what }).text() == field + "="@ + decimal(n as nat)
            + ": unknown code — refusing to guess a "@ + what,
        ErrorView::NotIkev2(n).text() == "profile is not IKEv2 (ExchMode="@ + decimal(n as nat)
            + "); only IKEv2 is supported"@,
        ErrorView::UnsupportedAuth.text() == "unsupported auth method (only PSK is implemented)"@,
{
}

/// An assignment that is not stated is the server's, and one that is no number is refused by name.
pub proof fn law_assignment_is_by_the_server(p: SectionView, v: Seq<char>)
    ensures
        p.get("IpAddrAssign"@) is None ==> assign_of(p) == Ok::<(bool, Seq<Seq<char>>), ErrorView>(
            (true, Seq::empty()),
        ),
        p.get("IpAddrAssign"@) == Some(v) && number_up_to(trimmed(v), 0xFFFF_FFFF) is None
            ==> assign_of(p) == Err::<(bool, Seq<Seq<char>>), ErrorView>(
            ErrorView::NotANumber { field: "IpAddrAssign"@, value: v },
        ),
        p.get("IkeIdType"@) == Some(v) && number_up_to(trimmed(v), 0xFFFF_FFFF) is None
            ==> identity_of(p) == Err::<
            (Option<crate::model::IkeIdType>, Seq<Seq<char>>),
            ErrorView,
        >(ErrorView::NotANumber { field: "IkeIdType"@, value: v }),
{
    reveal_strlit("0");
    crate::text::law_number_reads_back(0, 0xFFFF_FFFF);
    assert(decimal(0) =~= "0"@);
    crate::ncp::codes::law_confidence_is_what_was_seen(0);
    crate::ncp::codes::law_codes_mean_what_the_registry_says(0);
}

} // verus!
