//! Importer for Sophos Connect `.scx` profiles.
//!
//! These are JSON, close to a serialised swanctl connection. What the file does not state
//! outright (the IKE version, which EAP method backs the interactive round) is warned about
//! rather than assumed silently. `remote_auth.psk.secret` is a live pre-shared key.

use crate::import::{
    is_gateway, is_internal_gateway, is_private, valid_gateway, ImportedProfile, ProfileView,
    Warnings,
};
use crate::ipv4::{address, network, Ipv4Addr, Ipv4Net, NetFault};
use crate::json::{self, json_text, Json, JsonView};
use crate::model::{
    law_prf_is_named_after_the_hash, opt_view, AuthMethod, ConfigView, ConnectionConfig, DnsConfig,
    DnsView, DpdConfig, IkeIdType, IkeVersion, PrfAlg, Secret, UserAuth, UserAuthView,
};
use crate::sophos::error::{ErrorView, ImportError};
use crate::sophos::proposal::{
    self, is_spelled, law_proposal_is_what_is_spelled, proposal_of,
};
use crate::sophos::record::{
    bool_field, check_record, field, get_bool, get_field, get_text, get_texts, is_record, item_texts,
    text_field, texts_field,
};
use crate::text::{
    begins, contains, debug_quoted, decimal, format_u64, has, law_number_reads_back, number_up_to,
    occurs_at, parse_up_to, quote_debug, same, same_ignoring_case, same_nocase, trim, trimmed, views,
};
use vstd::prelude::*;
use vstd::utf8::encode_utf8;

verus! {

/// The largest input, in bytes, that is read; a real `.scx` is a couple of kilobytes.
pub const MAX_INPUT_LEN: usize = 1_048_576;

/// Sophos's own default when the profile omits dead-peer detection.
pub const DEFAULT_DPD_DELAY: u32 = 30;

/// What the importer reads out of a profile.
pub struct Scx {
    pub name: String,
    pub display_name: String,
    pub domain_suffix: String,
    /// Which Sophos platform wrote this: `xg` is the firewall line.
    pub kind: String,
    /// The firewall pushes updates for a managed profile; they are never fetched.
    pub managed: bool,
    pub gateway: String,
    /// Virtual IP to request. `0.0.0.0` means "assign me one".
    pub vip: String,
    pub run_logon_script: bool,
    pub proposals: Vec<String>,
    /// Seconds between liveness probes.
    pub dpd_delay: Option<u32>,
    /// `local_auth.psk.id`.
    pub local_id: String,
    /// `local_auth.xauth.can_save`, when the gateway demands a user name and password.
    pub xauth: Option<bool>,
    /// `local_auth.otp`.
    pub otp: bool,
    /// `remote_auth.psk.id`.
    pub remote_id: String,
    /// `remote_auth.psk.secret`, the live pre-shared key.
    pub secret: Option<Secret>,
    /// `child.proposals`.
    pub child_proposals: Vec<String>,
    /// `child.remote_ts`.
    pub remote_ts: Vec<String>,
}

/// The content of an [`Scx`].
pub struct ScxView {
    pub name: Seq<char>,
    pub display_name: Seq<char>,
    pub domain_suffix: Seq<char>,
    pub kind: Seq<char>,
    pub managed: bool,
    pub gateway: Seq<char>,
    pub vip: Seq<char>,
    pub run_logon_script: bool,
    pub proposals: Seq<Seq<char>>,
    pub dpd_delay: Option<u32>,
    pub local_id: Seq<char>,
    pub xauth: Option<bool>,
    pub otp: bool,
    pub remote_id: Seq<char>,
    pub secret: Option<Seq<char>>,
    pub child_proposals: Seq<Seq<char>>,
    pub remote_ts: Seq<Seq<char>>,
}

impl View for Scx {
    type V = ScxView;

    open spec fn view(&self) -> ScxView {
        ScxView {
            name: self.name@,
            display_name: self.display_name@,
            domain_suffix: self.domain_suffix@,
            kind: self.kind@,
            managed: self.managed,
            gateway: self.gateway@,
            vip: self.vip@,
            run_logon_script: self.run_logon_script,
            proposals: views(self.proposals@),
            dpd_delay: self.dpd_delay,
            local_id: self.local_id@,
            xauth: self.xauth,
            otp: self.otp,
            remote_id: self.remote_id@,
            secret: match self.secret {
                Some(s) => Some(s@),
                None => None,
            },
            child_proposals: views(self.child_proposals@),
            remote_ts: views(self.remote_ts@),
        }
    }
}

/// A number that different firmware versions write differently: `60`, `"60"` and `"60 "` are
/// the same. A value that is neither counts as absent: one odd timer is no reason to reject a
/// profile.
pub open spec fn flexible_number(j: Option<JsonView>) -> Option<u32> {
    match j {
        Some(JsonView::Number(Some(n))) => Some((n % 0x1_0000_0000) as u32),
        Some(JsonView::Text(s)) => match number_up_to(trimmed(s), u32::MAX as nat) {
            Some(n) => Some(n as u32),
            None => None,
        },
        _ => None,
    }
}

fn flexible_u32(j: Option<&Json>) -> (r: Option<u32>)
    ensures
        r == flexible_number(
            match j {
                Some(v) => Some(v@),
                None => None,
            },
        ),
{
    match j {
        Some(Json::Number(Some(n))) => {
            let m: u64 = *n % 0x1_0000_0000;
            Some(m as u32)
        },
        Some(Json::Text(s)) => match parse_up_to(trim(s.as_str()).as_str(), u32::MAX as u64) {
            Some(n) => Some(n as u32),
            None => None,
        },
        _ => None,
    }
}

/// `local_auth`: the identity, the interactive round and whether a code is expected.
pub struct LocalView {
    pub id: Seq<char>,
    pub xauth: Option<bool>,
    pub otp: bool,
}

/// `local_auth.psk.id`.
pub open spec fn psk_id_of(j: Option<JsonView>) -> Option<Seq<char>> {
    match j {
        None => Some(Seq::empty()),
        Some(v) => if is_record(v, 0, 1) {
            text_field(v, "id"@, 0)
        } else {
            None
        },
    }
}

/// `local_auth.xauth.can_save`; absent and `null` mean that there is no interactive round.
pub open spec fn xauth_of(j: Option<JsonView>) -> Option<Option<bool>> {
    match j {
        None => Some(None),
        Some(JsonView::Null) => Some(None),
        Some(v) => match bool_field(v, "can_save"@, 0) {
            Some(b) => if is_record(v, 0, 1) {
                Some(Some(b))
            } else {
                None
            },
            None => None,
        },
    }
}

/// `local_auth`.
pub open spec fn local_of(j: Option<JsonView>) -> Option<LocalView> {
    match j {
        None => Some(LocalView { id: Seq::empty(), xauth: None, otp: false }),
        Some(v) => match (
            psk_id_of(field(v, "psk"@, 0)),
            xauth_of(field(v, "xauth"@, 1)),
            bool_field(v, "otp"@, 2),
        ) {
            (Some(id), Some(xauth), Some(otp)) => if is_record(v, 2, 3) {
                Some(LocalView { id, xauth, otp })
            } else {
                None
            },
            _ => None,
        },
    }
}

/// `remote_auth.psk`: the identity and the key.
pub open spec fn remote_psk_of(j: Option<JsonView>) -> Option<(Seq<char>, Option<Seq<char>>)> {
    match j {
        None => Some((Seq::empty(), None)),
        Some(v) => if !is_record(v, 2, 2) {
            None
        } else {
            match (text_field(v, "id"@, 0), field(v, "secret"@, 1)) {
                (Some(id), None) => Some((id, None)),
                (Some(id), Some(JsonView::Null)) => Some((id, None)),
                (Some(id), Some(JsonView::Text(s))) => Some((id, Some(s))),
                _ => None,
            }
        },
    }
}

/// `remote_auth`.
pub open spec fn remote_of(j: Option<JsonView>) -> Option<(Seq<char>, Option<Seq<char>>)> {
    match j {
        None => Some((Seq::empty(), None)),
        Some(v) => if is_record(v, 0, 1) {
            remote_psk_of(field(v, "psk"@, 0))
        } else {
            None
        },
    }
}

/// `child`: the proposals and the traffic selectors.
pub open spec fn child_of(j: Option<JsonView>) -> Option<(Seq<Seq<char>>, Seq<Seq<char>>)> {
    match j {
        None => Some((Seq::empty(), Seq::empty())),
        Some(v) => match (texts_field(v, "proposals"@, 0), texts_field(v, "remote_ts"@, 1)) {
            (Some(p), Some(t)) => if is_record(v, 0, 2) {
                Some((p, t))
            } else {
                None
            },
            _ => None,
        },
    }
}

/// What a JSON value comes to as a profile, when it has the shape of one.
pub open spec fn scx_of(j: JsonView) -> Option<ScxView> {
    match (
        text_field(j, "name"@, 0),
        text_field(j, "display_name"@, 1),
        text_field(j, "domain_suffix"@, 2),
        text_field(j, "type"@, 3),
        bool_field(j, "managed"@, 4),
        text_field(j, "gateway"@, 5),
        text_field(j, "vip"@, 6),
        bool_field(j, "run_logon_script"@, 7),
    ) {
        (
            Some(name),
            Some(display_name),
            Some(domain_suffix),
            Some(kind),
            Some(managed),
            Some(gateway),
            Some(vip),
            Some(run_logon_script),
        ) => match (
            texts_field(j, "proposals"@, 8),
            local_of(field(j, "local_auth"@, 10)),
            remote_of(field(j, "remote_auth"@, 11)),
            child_of(field(j, "child"@, 12)),
        ) {
            (Some(proposals), Some(local), Some(remote), Some(child)) => if is_record(j, 0, 13) {
                Some(
                    ScxView {
                        name,
                        display_name,
                        domain_suffix,
                        kind,
                        managed,
                        gateway,
                        vip,
                        run_logon_script,
                        proposals,
                        dpd_delay: flexible_number(field(j, "dpd_delay"@, 9)),
                        local_id: local.id,
                        xauth: local.xauth,
                        otp: local.otp,
                        remote_id: remote.0,
                        secret: remote.1,
                        child_proposals: child.0,
                        remote_ts: child.1,
                    },
                )
            } else {
                None
            },
            _ => None,
        },
        _ => None,
    }
}

fn decode_psk_id(j: Option<&Json>) -> (r: Option<String>)
    ensures
        match r {
            Some(s) => psk_id_of(
                match j {
                    Some(v) => Some(v@),
                    None => None,
                },
            ) == Some(s@),
            None => psk_id_of(
                match j {
                    Some(v) => Some(v@),
                    None => None,
                },
            ) is None,
        },
{
    match j {
        None => Some(String::new()),
        Some(v) => if check_record(v, 0, 1) {
            get_text(v, "id", 0)
        } else {
            None
        },
    }
}

fn decode_xauth(j: Option<&Json>) -> (r: Option<Option<bool>>)
    ensures
        r == xauth_of(
            match j {
                Some(v) => Some(v@),
                None => None,
            },
        ),
{
    match j {
        None => Some(None),
        Some(Json::Null) => Some(None),
        Some(v) => match get_bool(v, "can_save", 0) {
            Some(b) => if check_record(v, 0, 1) {
                Some(Some(b))
            } else {
                None
            },
            None => None,
        },
    }
}

fn decode_local(j: Option<&Json>) -> (r: Option<(String, Option<bool>, bool)>)
    ensures
        match local_of(
            match j {
                Some(v) => Some(v@),
                None => None,
            },
        ) {
            Some(l) => r matches Some(x) && x.0@ == l.id && x.1 == l.xauth && x.2 == l.otp,
            None => r is None,
        },
{
    match j {
        None => Some((String::new(), None, false)),
        Some(v) => match (
            decode_psk_id(get_field(v, "psk", 0)),
            decode_xauth(get_field(v, "xauth", 1)),
            get_bool(v, "otp", 2),
        ) {
            (Some(id), Some(xauth), Some(otp)) => if check_record(v, 2, 3) {
                Some((id, xauth, otp))
            } else {
                None
            },
            _ => None,
        },
    }
}

fn decode_remote(j: Option<&Json>) -> (r: Option<(String, Option<Secret>)>)
    ensures
        match remote_of(
            match j {
                Some(v) => Some(v@),
                None => None,
            },
        ) {
            Some(l) => r matches Some(x) && x.0@ == l.0 && (match x.1 {
                Some(s) => l.1 == Some(s@),
                None => l.1 is None,
            }),
            None => r is None,
        },
{
    match j {
        None => Some((String::new(), None)),
        Some(v) => {
            if !check_record(v, 0, 1) {
                return None;
            }
            match get_field(v, "psk", 0) {
                None => Some((String::new(), None)),
                Some(p) => {
                    if !check_record(p, 2, 2) {
                        return None;
                    }
                    match (get_text(p, "id", 0), get_field(p, "secret", 1)) {
                        (Some(id), None) => Some((id, None)),
                        (Some(id), Some(Json::Null)) => Some((id, None)),
                        (Some(id), Some(Json::Text(s))) => Some((id, Some(Secret::new(s.clone())))),
                        _ => None,
                    }
                },
            }
        },
    }
}

fn decode_child(j: Option<&Json>) -> (r: Option<(Vec<String>, Vec<String>)>)
    ensures
        match child_of(
            match j {
                Some(v) => Some(v@),
                None => None,
            },
        ) {
            Some(c) => r matches Some(x) && views(x.0@) == c.0 && views(x.1@) == c.1,
            None => r is None,
        },
{
    match j {
        None => {
            let a: Vec<String> = Vec::new();
            let b: Vec<String> = Vec::new();
            assert(views(a@) =~= Seq::empty());
            assert(views(b@) =~= Seq::empty());
            Some((a, b))
        },
        Some(v) => match (get_texts(v, "proposals", 0), get_texts(v, "remote_ts", 1)) {
            (Some(p), Some(t)) => if check_record(v, 0, 2) {
                Some((p, t))
            } else {
                None
            },
            _ => None,
        },
    }
}

/// What the importer reads out of a JSON value, when it has the shape of a profile.
pub fn decode(j: &Json) -> (r: Option<Scx>)
    ensures
        match r {
            Some(s) => scx_of(j@) == Some(s@),
            None => scx_of(j@) is None,
        },
{
    if !check_record(j, 0, 13) {
        return None;
    }
    match (
        get_text(j, "name", 0),
        get_text(j, "display_name", 1),
        get_text(j, "domain_suffix", 2),
        get_text(j, "type", 3),
        get_bool(j, "managed", 4),
        get_text(j, "gateway", 5),
        get_text(j, "vip", 6),
        get_bool(j, "run_logon_script", 7),
    ) {
        (
            Some(name),
            Some(display_name),
            Some(domain_suffix),
            Some(kind),
            Some(managed),
            Some(gateway),
            Some(vip),
            Some(run_logon_script),
        ) => match (
            get_texts(j, "proposals", 8),
            decode_local(get_field(j, "local_auth", 10)),
            decode_remote(get_field(j, "remote_auth", 11)),
            decode_child(get_field(j, "child", 12)),
        ) {
            (Some(proposals), Some(local), Some(remote), Some(child)) => {
                let dpd_delay = flexible_u32(get_field(j, "dpd_delay", 9));
                Some(
                    Scx {
                        name,
                        display_name,
                        domain_suffix,
                        kind,
                        managed,
                        gateway,
                        vip,
                        run_logon_script,
                        proposals,
                        dpd_delay,
                        local_id: local.0,
                        xauth: local.1,
                        otp: local.2,
                        remote_id: remote.0,
                        secret: remote.1,
                        child_proposals: child.0,
                        remote_ts: child.1,
                    },
                )
            },
            _ => None,
        },
        _ => None,
    }
}

/// The profile in a text, when it is JSON of the right shape.
pub open spec fn scx_text(input: Seq<char>) -> Result<ScxView, ErrorView> {
    match json_text(input) {
        Err(e) => Err(ErrorView::Json(e)),
        Ok(j) => match scx_of(j) {
            Some(s) => Ok(s),
            None => Err(
                ErrorView::Json("the value does not have the shape of a Sophos Connect profile"@),
            ),
        },
    }
}

/// Reads the profile in a text.
///
/// The text is read as JSON first and as a profile second. So a value of another shape gets one
/// fixed error text, of a key that is repeated in an object the last value counts, and a field that
/// nobody asks for is still refused when it is nested deeper than `serde_json` reads.
pub fn parse(input: &str) -> (r: Result<Scx, ImportError>)
    ensures
        match r {
            Ok(s) => scx_text(input@) == Ok::<ScxView, ErrorView>(s@),
            Err(e) => scx_text(input@) == Err::<ScxView, ErrorView>(e@),
        },
{
    match json::parse(input) {
        Err(e) => Err(ImportError::Json(e)),
        Ok(j) => match decode(&j) {
            Some(s) => Ok(s),
            None => Err(
                ImportError::Json(
                    "the value does not have the shape of a Sophos Connect profile".to_owned(),
                ),
            ),
        },
    }
}

/// Whether a text is an `.scx` rather than one of the other JSON formats: it has the shape of
/// a profile, with a gateway.
pub open spec fn is_scx(input: Seq<char>) -> bool {
    match scx_text(input) {
        Ok(s) => trimmed(s.gateway).len() > 0,
        Err(_) => false,
    }
}

/// Whether a text is an `.scx` rather than one of the other JSON formats.
pub fn looks_like(input: &str) -> (r: bool)
    ensures
        r == is_scx(input@),
{
    match parse(input) {
        Ok(s) => !trim(s.gateway.as_str()).as_str().is_empty(),
        Err(_) => false,
    }
}

/// One warning, or none.
pub open spec fn note(when: bool, text: Seq<char>) -> Seq<Seq<char>> {
    if when {
        seq![text]
    } else {
        Seq::empty()
    }
}

/// The warnings about where the profile comes from and what it asks the client to do.
pub open spec fn origin_notes(s: ScxView) -> Seq<Seq<char>> {
    note(
        s.kind.len() > 0 && !same_nocase(s.kind, "xg"@),
        "profile type is "@ + debug_quoted(s.kind)
            + ", not the SFOS/XG firewall this importer was written against — verify every setting before connecting"@,
    ) + note(
        s.managed,
        "this is a managed profile: the firewall normally pushes updated settings to the Sophos client, which we do not do — a changed gateway or key must be re-imported"@,
    ) + note(
        s.run_logon_script,
        "the profile asks the client to run a logon script after connecting; we never execute scripts from a profile, so it was ignored"@,
    )
}

fn note_origin(s: &Scx, warn: &mut Warnings)
    ensures
        final(warn)@ == old(warn)@ + origin_notes(s@),
{
    if !s.kind.as_str().is_empty() && !same_ignoring_case(s.kind.as_str(), "xg") {
        let mut t = "profile type is ".to_owned();
        t.append(quote_debug(s.kind.as_str()).as_str());
        t.append(
            ", not the SFOS/XG firewall this importer was written against — verify every setting before connecting",
        );
        warn.warn(t);
    }
    if s.managed {
        warn.warn(
            "this is a managed profile: the firewall normally pushes updated settings to the Sophos client, which we do not do — a changed gateway or key must be re-imported".to_owned(),
        );
    }
    if s.run_logon_script {
        warn.warn(
            "the profile asks the client to run a logon script after connecting; we never execute scripts from a profile, so it was ignored".to_owned(),
        );
    }
    assert(warn@ =~= old(warn)@ + origin_notes(s@));
}

/// The gateway to dial.
pub open spec fn gateway_of(s: ScxView) -> Result<Seq<char>, ErrorView> {
    let gw = trimmed(s.gateway);
    if gw.len() == 0 {
        Err(ErrorView::MissingField("gateway"@))
    } else if !is_gateway(gw) {
        Err(
            ErrorView::BadValue {
                field: "gateway"@,
                value: gw,
                why: "contains characters that are not valid in a host name or address"@,
            },
        )
    } else {
        Ok(gw)
    }
}

fn import_gateway(s: &Scx) -> (r: Result<String, ImportError>)
    ensures
        match r {
            Ok(g) => gateway_of(s@) == Ok::<Seq<char>, ErrorView>(g@),
            Err(e) => gateway_of(s@) == Err::<Seq<char>, ErrorView>(e@),
        },
{
    let gateway = trim(s.gateway.as_str());
    if gateway.as_str().is_empty() {
        return Err(ImportError::MissingField("gateway"));
    }
    if !valid_gateway(gateway.as_str()) {
        return Err(
            ImportError::BadValue {
                field: "gateway",
                value: gateway,
                why: "contains characters that are not valid in a host name or address",
            },
        );
    }
    Ok(gateway)
}

/// The display name, else the name, else a fixed one.
pub open spec fn name_of(s: ScxView) -> Seq<char> {
    if trimmed(s.display_name).len() > 0 {
        trimmed(s.display_name)
    } else if trimmed(s.name).len() > 0 {
        trimmed(s.name)
    } else {
        "Sophos VPN"@
    }
}

fn pick_name(s: &Scx) -> (r: String)
    ensures
        r@ == name_of(s@),
{
    let display = trim(s.display_name.as_str());
    if !display.as_str().is_empty() {
        return display;
    }
    let name = trim(s.name.as_str());
    if !name.as_str().is_empty() {
        return name;
    }
    "Sophos VPN".to_owned()
}

/// The pre-shared key.
pub open spec fn secret_of(s: ScxView) -> Result<Seq<char>, ErrorView> {
    match s.secret {
        Some(k) => if trimmed(k).len() > 0 {
            Ok(trimmed(k))
        } else {
            Err(
                ErrorView::Unsupported(
                    "a profile without a pre-shared key (certificate authentication)"@,
                ),
            )
        },
        None => Err(
            ErrorView::Unsupported(
                "a profile without a pre-shared key (certificate authentication)"@,
            ),
        ),
    }
}

fn import_secret(s: &Scx) -> (r: Result<Secret, ImportError>)
    ensures
        match r {
            Ok(k) => secret_of(s@) == Ok::<Seq<char>, ErrorView>(k@),
            Err(e) => secret_of(s@) == Err::<Seq<char>, ErrorView>(e@),
        },
{
    if let Some(k) = &s.secret {
        let key = trim(k.expose());
        if !key.as_str().is_empty() {
            return Ok(Secret::new(key));
        }
    }
    Err(
        ImportError::Unsupported(
            "a profile without a pre-shared key (certificate authentication)".to_owned(),
        ),
    )
}

/// The warnings about a gateway that answers only from inside, and about a pinned identity.
pub open spec fn peer_notes(s: ScxView, gateway: Seq<char>) -> Seq<Seq<char>> {
    let id = trimmed(s.remote_id);
    note(
        is_internal_gateway(gateway),
        "the profile dials "@ + gateway
            + ", a private address — it will only connect from inside that network, or over another tunnel that reaches it"@,
    ) + note(
        id.len() > 0 && id != "%any"@ && id != "0.0.0.0"@,
        "the profile pins the gateway's identity to "@ + debug_quoted(id)
            + "; we do not check the responder's identity yet"@,
    )
}

fn note_peer(s: &Scx, gateway: &str, warn: &mut Warnings)
    ensures
        final(warn)@ == old(warn)@ + peer_notes(s@, gateway@),
{
    if is_private(gateway) {
        let mut t = "the profile dials ".to_owned();
        t.append(gateway);
        t.append(
            ", a private address — it will only connect from inside that network, or over another tunnel that reaches it",
        );
        warn.warn(t);
    }
    let id = trim(s.remote_id.as_str());
    if !id.as_str().is_empty() && !same(id.as_str(), "%any") && !same(id.as_str(), "0.0.0.0") {
        let mut t = "the profile pins the gateway's identity to ".to_owned();
        t.append(quote_debug(id.as_str()).as_str());
        t.append("; we do not check the responder's identity yet");
        warn.warn(t);
    }
    assert(warn@ =~= old(warn)@ + peer_notes(s@, gateway@));
}

/// The identity to present, its type, and what is to be said about it. `0.0.0.0` is how
/// these profiles spell "no identity pinned".
pub open spec fn identity_of(text: Seq<char>) -> (
    Option<Seq<char>>,
    Option<IkeIdType>,
    Seq<Seq<char>>,
) {
    let id = trimmed(text);
    if id.len() == 0 || id == "%any"@ || id == "0.0.0.0"@ || id == "::"@ {
        (None, None, Seq::empty())
    } else if address(id) is Some {
        (Some(id), Some(IkeIdType::Ipv4), Seq::empty())
    } else if has(id, "@"@) {
        (Some(id), Some(IkeIdType::Rfc822), Seq::empty())
    } else {
        (
            Some(id),
            Some(IkeIdType::Fqdn),
            seq![
                "the local identity "@ + debug_quoted(id)
                    + " has no stated type; sending it as an FQDN (verify on first connect)"@,
            ],
        )
    }
}

/// Works out the identity to present and its IKE type: charon otherwise infers the type from
/// the string.
fn local_identity(text: &str, warn: &mut Warnings) -> (r: (Option<String>, Option<IkeIdType>))
    ensures
        opt_view(r.0) == identity_of(text@).0,
        r.1 == identity_of(text@).1,
        final(warn)@ == old(warn)@ + identity_of(text@).2,
{
    assert(old(warn)@ + Seq::<Seq<char>>::empty() =~= old(warn)@);
    let id = trim(text);
    if id.as_str().is_empty() || same(id.as_str(), "%any") || same(id.as_str(), "0.0.0.0") || same(
        id.as_str(),
        "::",
    ) {
        return (None, None);
    }
    let kind = if Ipv4Addr::parse(id.as_str()).is_some() {
        IkeIdType::Ipv4
    } else if contains(id.as_str(), "@") {
        IkeIdType::Rfc822
    } else {
        let mut t = "the local identity ".to_owned();
        t.append(quote_debug(id.as_str()).as_str());
        t.append(" has no stated type; sending it as an FQDN (verify on first connect)");
        warn.warn(t);
        IkeIdType::Fqdn
    };
    (Some(id), Some(kind))
}

/// The first text, from position `i` on, that is not blank, trimmed.
pub open spec fn first_filled(v: Seq<Seq<char>>, i: int) -> Option<Seq<char>>
    decreases v.len() - i,
{
    if i < 0 || i >= v.len() {
        None
    } else if trimmed(v[i]).len() > 0 {
        Some(trimmed(v[i]))
    } else {
        first_filled(v, i + 1)
    }
}

/// The proposal that is used, and the warning about the ones that are dropped.
pub open spec fn choice_of(v: Seq<Seq<char>>, field: Seq<char>) -> Result<
    (Seq<char>, Seq<Seq<char>>),
    ErrorView,
> {
    match first_filled(v, 0) {
        None => Err(ErrorView::MissingField(field)),
        Some(first) => Ok(
            (
                first,
                note(
                    v.len() > 1,
                    field + " offers "@ + decimal(v.len()) + " algorithm sets; only the first ("@
                        + first + ") is used"@,
                ),
            ),
        ),
    }
}

/// Takes the first proposal and notes the ones that are dropped: the model holds a single
/// algorithm set.
fn first_proposal(proposals: &Vec<String>, field: &'static str, warn: &mut Warnings) -> (r: Result<
    String,
    ImportError,
>)
    ensures
        match r {
            Ok(p) => choice_of(views(proposals@), field@) matches Ok(x) && x.0 == p@ && final(warn)@ == old(warn)@ + x.1,
            Err(e) => choice_of(views(proposals@), field@) matches Err(x) && x == e@,
        },
{
    let ghost all = views(proposals@);
    let mut i: usize = 0;
    while i < proposals.len()
        invariant
            i <= proposals@.len(),
            all == views(proposals@),
            first_filled(all, 0) == first_filled(all, i as int),
            warn@ == old(warn)@,
        decreases proposals@.len() - i,
    {
        assert(all[i as int] == proposals@[i as int]@);
        let p = trim(proposals[i].as_str());
        if !p.as_str().is_empty() {
            if proposals.len() > 1 {
                let mut t = field.to_owned();
                t.append(" offers ");
                t.append(format_u64(proposals.len() as u64).as_str());
                t.append(" algorithm sets; only the first (");
                t.append(p.as_str());
                t.append(") is used");
                warn.warn(t);
            }
            assert(warn@ =~= old(warn)@ + (choice_of(all, field@)->Ok_0).1);
            return Ok(p);
        }
        i = i + 1;
    }
    Err(ImportError::MissingField(field))
}

/// The networks that the first `n` selectors name.
pub open spec fn selectors_of(v: Seq<Seq<char>>, n: int) -> Result<Seq<Ipv4Net>, ErrorView>
    decreases n,
{
    if n <= 0 {
        Ok(Seq::empty())
    } else {
        match selectors_of(v, n - 1) {
            Err(e) => Err(e),
            Ok(nets) => match network(trimmed(v[n - 1])) {
                Ok(net) => Ok(nets.push(net)),
                Err(_) => Err(
                    ErrorView::BadValue {
                        field: "child.remote_ts"@,
                        value: v[n - 1],
                        why: "not an IPv4 network in CIDR form"@,
                    },
                ),
            },
        }
    }
}

proof fn lemma_bad_selector_stays(v: Seq<Seq<char>>, n: int, m: int)
    requires
        n <= m,
        selectors_of(v, n) is Err,
    ensures
        selectors_of(v, m) == selectors_of(v, n),
    decreases m - n,
{
    if n < m {
        lemma_bad_selector_stays(v, n, m - 1);
    }
}

fn import_selectors(v: &Vec<String>) -> (r: Result<Vec<Ipv4Net>, ImportError>)
    ensures
        match r {
            Ok(nets) => selectors_of(views(v@), v@.len() as int) == Ok::<Seq<Ipv4Net>, ErrorView>(
                nets@,
            ),
            Err(e) => selectors_of(views(v@), v@.len() as int) == Err::<Seq<Ipv4Net>, ErrorView>(
                e@,
            ),
        },
{
    let ghost all = views(v@);
    let mut nets: Vec<Ipv4Net> = Vec::new();
    let mut i: usize = 0;
    while i < v.len()
        invariant
            i <= v@.len(),
            all == views(v@),
            selectors_of(all, i as int) == Ok::<Seq<Ipv4Net>, ErrorView>(nets@),
        decreases v@.len() - i,
    {
        assert(all[i as int] == v@[i as int]@);
        match Ipv4Net::parse(trim(v[i].as_str()).as_str()) {
            Ok(net) => {
                nets.push(net);
            },
            Err(_) => {
                proof {
                    lemma_bad_selector_stays(all, i + 1, v@.len() as int);
                }
                return Err(
                    ImportError::BadValue {
                        field: "child.remote_ts",
                        value: v[i].clone(),
                        why: "not an IPv4 network in CIDR form",
                    },
                );
            },
        }
        i = i + 1;
    }
    Ok(nets)
}

/// The warnings about selectors, the virtual IP, DNS and the interactive round.
pub open spec fn closing_notes(s: ScxView, nets: Seq<Ipv4Net>) -> Seq<Seq<char>> {
    let vip = trimmed(s.vip);
    note(
        nets.len() == 0,
        "the profile names no remote networks; the gateway decides what the tunnel carries"@,
    ) + note(
        vip.len() > 0 && vip != "0.0.0.0"@,
        "the profile asks for the specific virtual IP "@ + vip
            + "; we request one from the gateway instead"@,
    ) + note(
        trimmed(s.domain_suffix).len() > 0,
        "the profile scopes DNS to a domain, but its resolvers are assigned by the gateway at connect time rather than named in the file — split-DNS is not applied for this profile yet"@,
    ) + note(
        s.xauth is Some,
        "the gateway requires a second, interactive authentication round; it will be negotiated as EAP-MSCHAPv2 over IKEv2 (unconfirmed — verify on first connect) and you will be asked for a username and password"@,
    ) + note(
        s.xauth is Some && s.otp,
        "the gateway expects a one-time password, so a saved password alone will not authenticate"@,
    )
}

fn note_closing(s: &Scx, nets: &Vec<Ipv4Net>, warn: &mut Warnings)
    ensures
        final(warn)@ == old(warn)@ + closing_notes(s@, nets@),
{
    if nets.len() == 0 {
        warn.warn(
            "the profile names no remote networks; the gateway decides what the tunnel carries".to_owned(),
        );
    }
    let vip = trim(s.vip.as_str());
    if !vip.as_str().is_empty() && !same(vip.as_str(), "0.0.0.0") {
        let mut t = "the profile asks for the specific virtual IP ".to_owned();
        t.append(vip.as_str());
        t.append("; we request one from the gateway instead");
        warn.warn(t);
    }
    if !trim(s.domain_suffix.as_str()).as_str().is_empty() {
        warn.warn(
            "the profile scopes DNS to a domain, but its resolvers are assigned by the gateway at connect time rather than named in the file — split-DNS is not applied for this profile yet".to_owned(),
        );
    }
    if s.xauth.is_some() {
        warn.warn(
            "the gateway requires a second, interactive authentication round; it will be negotiated as EAP-MSCHAPv2 over IKEv2 (unconfirmed — verify on first connect) and you will be asked for a username and password".to_owned(),
        );
        if s.otp {
            warn.warn(
                "the gateway expects a one-time password, so a saved password alone will not authenticate".to_owned(),
            );
        }
    }
    assert(warn@ =~= old(warn)@ + closing_notes(s@, nets@));
}

/// What the fields of a profile come to.
pub open spec fn imported_scx(s: ScxView) -> Result<ProfileView, ErrorView> {
    match gateway_of(s) {
        Err(e) => Err(e),
        Ok(gateway) => match secret_of(s) {
            Err(e) => Err(e),
            Ok(secret) => match choice_of(s.proposals, "proposals"@) {
                Err(e) => Err(e),
                Ok(ike_src) => match proposal_of(ike_src.0, "IKE proposal"@) {
                    Err(e) => Err(e),
                    Ok(ike) => match choice_of(s.child_proposals, "child.proposals"@) {
                        Err(e) => Err(e),
                        Ok(esp_src) => match proposal_of(esp_src.0, "ESP proposal"@) {
                            Err(e) => Err(e),
                            Ok(esp) => match selectors_of(s.remote_ts, s.remote_ts.len() as int) {
                                Err(e) => Err(e),
                                Ok(nets) => match ike.0.dh {
                                    None => Err(
                                        ErrorView::UnknownAlgorithm {
                                            context: "IKE proposal"@,
                                            token: "<no Diffie-Hellman group>"@,
                                        },
                                    ),
                                    Some(dh) => Ok(
                                        ProfileView {
                                            config: ConfigView {
                                                name: name_of(s),
                                                gateway,
                                                local_id: identity_of(s.local_id).0,
                                                local_id_type: identity_of(s.local_id).1,
                                                secret,
                                                ike_version: IkeVersion::V2,
                                                user_auth: match s.xauth {
                                                    Some(can_save) => Some(
                                                        UserAuthView {
                                                            username: None,
                                                            can_save,
                                                            otp: s.otp,
                                                        },
                                                    ),
                                                    None => None,
                                                },
                                                ike_enc: ike.0.enc,
                                                ike_integ: ike.0.integ,
                                                ike_prf: match ike.1 {
                                                    Some(p) => p,
                                                    None => ike.0.integ.prf(),
                                                },
                                                ike_dh: dh,
                                                esp_enc: esp.0.enc,
                                                esp_integ: esp.0.integ,
                                                pfs: esp.0.dh,
                                                remote_subnets: nets,
                                                request_virtual_ip: trimmed(s.vip).len() > 0,
                                                compression: false,
                                                dpd: DpdConfig {
                                                    delay_secs: match s.dpd_delay {
                                                        Some(d) => d,
                                                        None => DEFAULT_DPD_DELAY,
                                                    },
                                                    auto_reconnect: true,
                                                },
                                                dns: DnsView {
                                                    servers: Seq::empty(),
                                                    domain: if trimmed(s.domain_suffix).len() > 0 {
                                                        Some(trimmed(s.domain_suffix))
                                                    } else {
                                                        None
                                                    },
                                                },
                                            },
                                            warnings: origin_notes(s) + peer_notes(s, gateway)
                                                + identity_of(s.local_id).2 + ike_src.1 + esp_src.1
                                                + closing_notes(s, nets),
                                        },
                                    ),
                                },
                            },
                        },
                    },
                },
            },
        },
    }
}

/// Imports the fields of a profile.
pub fn import_scx(s: &Scx) -> (r: Result<ImportedProfile, ImportError>)
    ensures
        match r {
            Ok(p) => imported_scx(s@) == Ok::<ProfileView, ErrorView>(p@),
            Err(e) => imported_scx(s@) == Err::<ProfileView, ErrorView>(e@),
        },
{
    let mut warn = Warnings::new();
    note_origin(s, &mut warn);
    let gateway = import_gateway(s)?;
    let name = pick_name(s);
    let secret = import_secret(s)?;
    note_peer(s, gateway.as_str(), &mut warn);
    let (local_id, local_id_type) = local_identity(s.local_id.as_str(), &mut warn);
    let ike_src = first_proposal(&s.proposals, "proposals", &mut warn)?;
    let (ike, ike_prf) = proposal::parse(ike_src.as_str(), "IKE proposal")?;
    let esp_src = first_proposal(&s.child_proposals, "child.proposals", &mut warn)?;
    let (esp, _) = proposal::parse(esp_src.as_str(), "ESP proposal")?;
    assert(s@.remote_ts.len() == s.remote_ts@.len());
    let remote_subnets = import_selectors(&s.remote_ts)?;
    note_closing(s, &remote_subnets, &mut warn);
    let request_virtual_ip = !trim(s.vip.as_str()).as_str().is_empty();
    let suffix = trim(s.domain_suffix.as_str());
    let domain = if suffix.as_str().is_empty() {
        None
    } else {
        Some(suffix)
    };
    let user_auth = match s.xauth {
        Some(can_save) => Some(UserAuth { username: None, can_save, otp: s.otp }),
        None => None,
    };
    let ike_dh = match ike.dh {
        Some(dh) => dh,
        None => {
            return Err(
                ImportError::UnknownAlgorithm {
                    context: "IKE proposal",
                    token: "<no Diffie-Hellman group>".to_owned(),
                },
            );
        },
    };
    assert(imported_scx(s@) is Ok);
    assert(warn@ =~= (imported_scx(s@)->Ok_0).warnings);
    let config = ConnectionConfig {
        name,
        gateway,
        local_id,
        local_id_type,
        auth: AuthMethod::PresharedKey(secret),
        ike_version: IkeVersion::V2,
        user_auth,
        ike_enc: ike.enc,
        ike_integ: ike.integ,
        ike_prf: ike.prf(ike_prf),
        ike_dh,
        esp_enc: esp.enc,
        esp_integ: esp.integ,
        pfs: esp.dh,
        remote_subnets,
        request_virtual_ip,
        compression: false,
        dpd: DpdConfig {
            delay_secs: match s.dpd_delay {
                Some(d) => d,
                None => DEFAULT_DPD_DELAY,
            },
            auto_reconnect: true,
        },
        dns: DnsConfig { servers: Vec::new(), domain },
    };
    assert(config@.dns.servers =~= Seq::empty());
    assert(config@ == (imported_scx(s@)->Ok_0).config);
    Ok(ImportedProfile { config, warnings: warn.into_vec() })
}

/// What the text of a profile comes to.
pub open spec fn imported_text(input: Seq<char>) -> Result<ProfileView, ErrorView> {
    if encode_utf8(input).len() > MAX_INPUT_LEN {
        Err(ErrorView::TooLarge(MAX_INPUT_LEN as int))
    } else {
        match scx_text(input) {
            Err(e) => Err(e),
            Ok(s) => imported_scx(s),
        }
    }
}

/// Imports an `.scx` profile. Its text is read as [`parse`] says.
pub fn import(input: &str) -> (r: Result<ImportedProfile, ImportError>)
    ensures
        match r {
            Ok(p) => imported_text(input@) == Ok::<ProfileView, ErrorView>(p@),
            Err(e) => imported_text(input@) == Err::<ProfileView, ErrorView>(e@),
        },
{
    if input.as_bytes().len() > MAX_INPUT_LEN {
        return Err(ImportError::TooLarge(MAX_INPUT_LEN));
    }
    let s = parse(input)?;
    import_scx(&s)
}

/// Nothing that an import says or decides, but for the key itself, depends on the pre-shared key:
/// no warning and no error can repeat it.
pub proof fn law_import_findings_hide_the_secret(s: ScxView, k1: Seq<char>, k2: Seq<char>)
    requires
        trimmed(k1).len() > 0 <==> trimmed(k2).len() > 0,
    ensures
        match (
            imported_scx(ScxView { secret: Some(k1), ..s }),
            imported_scx(ScxView { secret: Some(k2), ..s }),
        ) {
            (Ok(x), Ok(y)) => {
                &&& x.warnings == y.warnings
                &&& y.config == (ConfigView { secret: y.config.secret, ..x.config })
            },
            (Err(e), Err(f)) => e == f,
            _ => false,
        },
{
    let a = ScxView { secret: Some(k1), ..s };
    let b = ScxView { secret: Some(k2), ..s };
    assert(gateway_of(a) == gateway_of(b));
    assert(name_of(a) == name_of(b));
    assert(origin_notes(a) == origin_notes(b));
}

/// A profile that imports names a gateway that is fit to be dialled.
pub proof fn law_imported_gateway_can_be_dialled(s: ScxView)
    ensures
        imported_scx(s) matches Ok(x) ==> is_gateway(x.config.gateway),
{
}

/// A gateway that answers only from inside is reported: the address of the warning is the one that
/// is dialled.
pub proof fn law_private_gateway_is_reported(s: ScxView)
    ensures
        imported_scx(s) matches Ok(x) ==> (is_internal_gateway(x.config.gateway) ==> exists|i: int|
            0 <= i < x.warnings.len() && begins(
                #[trigger] x.warnings[i],
                "the profile dials "@ + x.config.gateway + ", a private address"@,
            )),
{
    if let Ok(x) = imported_scx(s) {
        let gateway = x.config.gateway;
        if is_internal_gateway(gateway) {
            let head = "the profile dials "@ + gateway + ", a private address"@;
            reveal_strlit(", a private address");
            reveal_strlit(
                ", a private address — it will only connect from inside that network, or over another tunnel that reaches it",
            );
            let i = origin_notes(s).len() as int;
            assert(x.warnings[i] == peer_notes(s, gateway)[0]);
            assert(x.warnings[i].take(head.len() as int) =~= head);
        }
    }
}

/// A second authentication round is always reported as unconfirmed, and asked for.
pub proof fn law_user_round_is_reported(s: ScxView)
    ensures
        imported_scx(s) matches Ok(x) ==> (x.config.user_auth is Some <==> s.xauth is Some) && (
        s.xauth is Some ==> x.warnings.contains(
            "the gateway requires a second, interactive authentication round; it will be negotiated as EAP-MSCHAPv2 over IKEv2 (unconfirmed — verify on first connect) and you will be asked for a username and password"@,
        )),
{
    if let Ok(x) = imported_scx(s) {
        if s.xauth is Some {
            let text =
                "the gateway requires a second, interactive authentication round; it will be negotiated as EAP-MSCHAPv2 over IKEv2 (unconfirmed — verify on first connect) and you will be asked for a username and password"@;
            let closing = closing_notes(s, x.config.remote_subnets);
            let at = x.warnings.len() - closing.len();
            let vip = trimmed(s.vip);
            let k = note(x.config.remote_subnets.len() == 0, Seq::empty()).len() + note(
                vip.len() > 0 && vip != "0.0.0.0"@,
                Seq::empty(),
            ).len() + note(trimmed(s.domain_suffix).len() > 0, Seq::empty()).len();
            assert(closing[k as int] == text);
            assert(x.warnings[at + k] == text);
        }
    }
}

/// Whether text number `i` is the first that is not blank.
pub open spec fn is_first_filled(v: Seq<Seq<char>>, i: int) -> bool {
    &&& 0 <= i < v.len()
    &&& trimmed(v[i]).len() > 0
    &&& forall|j: int| 0 <= j < i ==> trimmed(#[trigger] v[j]).len() == 0
}

proof fn lemma_first_filled(v: Seq<Seq<char>>, from: int) -> (i: int)
    requires
        0 <= from,
        forall|j: int| 0 <= j < from && j < v.len() ==> trimmed(#[trigger] v[j]).len() == 0,
        first_filled(v, from) is Some,
    ensures
        is_first_filled(v, i),
        first_filled(v, from) == Some(trimmed(v[i])),
    decreases v.len() - from,
{
    if trimmed(v[from]).len() > 0 {
        from
    } else {
        lemma_first_filled(v, from + 1)
    }
}

/// The IKE algorithms of a profile that imports are those that its first filled proposal spells, with
/// a group, and with the PRF of the hash where none is spelled. The ESP algorithms are those that its
/// first filled child proposal spells: perfect forward secrecy is on exactly when that one spells a
/// group, and with that group.
pub proof fn law_algorithms_are_those_spelled(s: ScxView)
    ensures
        imported_scx(s) matches Ok(x) ==> {
            &&& exists|i: int, prf: Option<PrfAlg>|
                is_first_filled(s.proposals, i) && #[trigger] is_spelled(
                    trimmed(s.proposals[i]),
                    x.config.ike_enc,
                    x.config.ike_integ,
                    prf,
                    Some(x.config.ike_dh),
                ) && (prf matches Some(p) ==> x.config.ike_prf == p) && (prf is None
                    ==> x.config.ike_prf.token() == "prf"@ + x.config.ike_integ.token())
            &&& exists|i: int, prf: Option<PrfAlg>|
                is_first_filled(s.child_proposals, i) && #[trigger] is_spelled(
                    trimmed(s.child_proposals[i]),
                    x.config.esp_enc,
                    x.config.esp_integ,
                    prf,
                    x.config.pfs,
                )
        },
{
    if let Ok(x) = imported_scx(s) {
        let i = lemma_first_filled(s.proposals, 0);
        let k = lemma_first_filled(s.child_proposals, 0);
        let ike = proposal_of(trimmed(s.proposals[i]), "IKE proposal"@)->Ok_0;
        let esp = proposal_of(trimmed(s.child_proposals[k]), "ESP proposal"@)->Ok_0;
        law_proposal_is_what_is_spelled(trimmed(s.proposals[i]), "IKE proposal"@);
        law_proposal_is_what_is_spelled(trimmed(s.child_proposals[k]), "ESP proposal"@);
        law_prf_is_named_after_the_hash(x.config.ike_integ);
        assert(is_spelled(
            trimmed(s.proposals[i]),
            x.config.ike_enc,
            x.config.ike_integ,
            ike.1,
            Some(x.config.ike_dh),
        ));
        assert(is_spelled(
            trimmed(s.child_proposals[k]),
            x.config.esp_enc,
            x.config.esp_integ,
            esp.1,
            x.config.pfs,
        ));
    }
}

/// The two proposals do not meddle with each other: another IKE proposal leaves the ESP algorithms as
/// they were, and another child proposal leaves the IKE algorithms.
pub proof fn law_proposals_are_independent(s: ScxView, other: Seq<Seq<char>>)
    ensures
        (imported_scx(s), imported_scx(ScxView { proposals: other, ..s })) matches (Ok(x), Ok(y))
            ==> x.config.esp_enc == y.config.esp_enc && x.config.esp_integ == y.config.esp_integ
            && x.config.pfs == y.config.pfs,
        (imported_scx(s), imported_scx(ScxView { child_proposals: other, ..s })) matches (
            Ok(x),
            Ok(y),
        ) ==> x.config.ike_enc == y.config.ike_enc && x.config.ike_integ == y.config.ike_integ
            && x.config.ike_prf == y.config.ike_prf && x.config.ike_dh == y.config.ike_dh,
{
}

proof fn lemma_selectors(v: Seq<Seq<char>>, n: int)
    requires
        0 <= n <= v.len(),
    ensures
        selectors_of(v, n) matches Ok(nets) ==> nets.len() == n && forall|i: int|
            0 <= i < n ==> network(trimmed(v[i])) == Ok::<Ipv4Net, NetFault>(#[trigger] nets[i]),
        (forall|i: int| 0 <= i < n ==> network(trimmed(#[trigger] v[i])) is Ok) ==> selectors_of(
            v,
            n,
        ) is Ok,
    decreases n,
{
    if n > 0 {
        lemma_selectors(v, n - 1);
        if let Ok(nets) = selectors_of(v, n) {
            let before = selectors_of(v, n - 1)->Ok_0;
            assert forall|i: int| 0 <= i < n implies network(trimmed(v[i])) == Ok::<
                Ipv4Net,
                NetFault,
            >(#[trigger] nets[i]) by {
                if i < n - 1 {
                    assert(nets[i] == before[i]);
                }
            }
        }
    }
}

/// The rest of the connection is what the profile says, field by field: the gateway, the key, every
/// remote network in its order, the identity, the interactive round, the probe interval, the virtual
/// address and the search domain.
pub proof fn law_connection_is_what_the_profile_says(s: ScxView)
    ensures
        imported_scx(s) matches Ok(x) ==> {
            let c = x.config;
            &&& c.gateway == trimmed(s.gateway)
            &&& s.secret matches Some(k) && c.secret == trimmed(k) && c.secret.len() > 0
            &&& trimmed(s.display_name).len() > 0 ==> c.name == trimmed(s.display_name)
            &&& trimmed(s.display_name).len() == 0 && trimmed(s.name).len() > 0 ==> c.name
                == trimmed(s.name)
            &&& c.ike_version == IkeVersion::V2
            &&& c.remote_subnets.len() == s.remote_ts.len()
            &&& forall|i: int|
                0 <= i < s.remote_ts.len() ==> network(trimmed(s.remote_ts[i])) == Ok::<
                    Ipv4Net,
                    NetFault,
                >(#[trigger] c.remote_subnets[i])
            &&& c.user_auth is Some <==> s.xauth is Some
            &&& c.user_auth matches Some(u) ==> u.username is None && Some(u.can_save) == s.xauth
                && u.otp == s.otp
            &&& s.dpd_delay matches Some(d) ==> c.dpd.delay_secs == d
            &&& s.dpd_delay is None ==> c.dpd.delay_secs == 30
            &&& c.dpd.auto_reconnect
            &&& c.request_virtual_ip <==> trimmed(s.vip).len() > 0
            &&& c.dns.servers.len() == 0
            &&& c.dns.domain is Some <==> trimmed(s.domain_suffix).len() > 0
            &&& c.dns.domain matches Some(d) ==> d == trimmed(s.domain_suffix)
            &&& !c.compression
        },
{
    lemma_selectors(s.remote_ts, s.remote_ts.len() as int);
}

/// The identity is presented as the profile gives it, by the type that its form shows: an address, a
/// mail address or else a name. A placeholder presents none.
pub proof fn law_identity_is_what_the_profile_says(s: ScxView)
    ensures
        imported_scx(s) matches Ok(x) ==> {
            let id = trimmed(s.local_id);
            let c = x.config;
            let placeholder = id.len() == 0 || id == "%any"@ || id == "0.0.0.0"@ || id == "::"@;
            &&& placeholder ==> c.local_id is None && c.local_id_type is None
            &&& !placeholder ==> c.local_id == Some(id)
            &&& !placeholder && address(id) is Some ==> c.local_id_type == Some(IkeIdType::Ipv4)
            &&& !placeholder && address(id) is None && id.contains('@') ==> c.local_id_type == Some(
                IkeIdType::Rfc822,
            )
            &&& !placeholder && address(id) is None && !id.contains('@') ==> c.local_id_type
                == Some(IkeIdType::Fqdn)
        },
{
    let id = trimmed(s.local_id);
    reveal_strlit("@");
    if id.contains('@') {
        let i = choose|i: int| 0 <= i < id.len() && id[i] == '@';
        assert(id.subrange(i, i + 1) =~= "@"@);
        assert(occurs_at(id, "@"@, i));
    }
    if has(id, "@"@) {
        let i = choose|i: int| occurs_at(id, "@"@, i);
        assert(id.subrange(i, i + 1)[0] == id[i]);
    }
}

/// A profile is never refused without a reason: one with a gateway that can be dialled, a key, two
/// proposals and networks that can be read, and a group for the IKE SA, imports.
pub proof fn law_complete_profile_imports(s: ScxView, i: int, k: int)
    requires
        is_gateway(trimmed(s.gateway)),
        s.secret matches Some(key) && trimmed(key).len() > 0,
        is_first_filled(s.proposals, i),
        proposal_of(trimmed(s.proposals[i]), "IKE proposal"@) matches Ok(p) && p.0.dh is Some,
        is_first_filled(s.child_proposals, k),
        proposal_of(trimmed(s.child_proposals[k]), "ESP proposal"@) is Ok,
        forall|n: int| 0 <= n < s.remote_ts.len() ==> network(trimmed(#[trigger] s.remote_ts[n])) is Ok,
    ensures
        imported_scx(s) is Ok,
{
    lemma_filled_from(s.proposals, 0, i);
    lemma_filled_from(s.child_proposals, 0, k);
    lemma_selectors(s.remote_ts, s.remote_ts.len() as int);
}

proof fn lemma_filled_from(v: Seq<Seq<char>>, from: int, i: int)
    requires
        0 <= from <= i,
        is_first_filled(v, i),
    ensures
        first_filled(v, from) == Some(trimmed(v[i])),
    decreases i - from,
{
    if from < i {
        assert(trimmed(v[from]).len() == 0);
        lemma_filled_from(v, from + 1, i);
    }
}

/// Whether a text is what stands in a field, or is empty because the field is left out.
pub open spec fn is_text_in(t: Seq<char>, j: JsonView, name: Seq<char>, index: int) -> bool {
    match field(j, name, index) {
        Some(v) => v == JsonView::Text(t),
        None => t.len() == 0,
    }
}

/// Whether a switch is what stands in a field, or is off because the field is left out.
pub open spec fn is_switch_in(b: bool, j: JsonView, name: Seq<char>, index: int) -> bool {
    match field(j, name, index) {
        Some(v) => v == JsonView::Bool(b),
        None => !b,
    }
}

/// Whether texts are what stands in a field, in order, or are none because the field is left out.
pub open spec fn are_texts_in(t: Seq<Seq<char>>, j: JsonView, name: Seq<char>, index: int) -> bool {
    match field(j, name, index) {
        Some(v) => v matches JsonView::Array(items) && items.len() == t.len() && forall|i: int|
            0 <= i < t.len() ==> #[trigger] items[i] == JsonView::Text(t[i]),
        None => t.len() == 0,
    }
}

proof fn lemma_texts_in(j: JsonView, name: Seq<char>, index: int)
    ensures
        texts_field(j, name, index) matches Some(t) ==> are_texts_in(t, j, name, index),
{
    if let Some(JsonView::Array(v)) = field(j, name, index) {
        lemma_item_texts(v, v.len() as int);
    }
}

proof fn lemma_item_texts(v: Seq<JsonView>, n: int)
    requires
        0 <= n <= v.len(),
    ensures
        item_texts(v, n) matches Some(t) ==> t.len() == n && forall|i: int|
            0 <= i < n ==> #[trigger] v[i] == JsonView::Text(t[i]),
    decreases n,
{
    if n > 0 {
        lemma_item_texts(v, n - 1);
        if let Some(t) = item_texts(v, n) {
            let before = item_texts(v, n - 1)->0;
            assert forall|i: int| 0 <= i < n implies #[trigger] v[i] == JsonView::Text(t[i]) by {
                if i < n - 1 {
                    assert(t[i] == before[i]);
                }
            }
        }
    }
}

/// Each part of a profile is read from the field of its own name, and a field that is left out is
/// empty or off. The fields of the authentication rounds and of the child stand one level down.
pub proof fn law_profile_is_read_by_name(j: JsonView)
    ensures
        scx_of(j) matches Some(s) ==> {
            &&& is_text_in(s.name, j, "name"@, 0)
            &&& is_text_in(s.display_name, j, "display_name"@, 1)
            &&& is_text_in(s.domain_suffix, j, "domain_suffix"@, 2)
            &&& is_text_in(s.kind, j, "type"@, 3)
            &&& is_switch_in(s.managed, j, "managed"@, 4)
            &&& is_text_in(s.gateway, j, "gateway"@, 5)
            &&& is_text_in(s.vip, j, "vip"@, 6)
            &&& is_switch_in(s.run_logon_script, j, "run_logon_script"@, 7)
            &&& are_texts_in(s.proposals, j, "proposals"@, 8)
            &&& field(j, "local_auth"@, 10) is None ==> s.local_id.len() == 0 && s.xauth is None
                && !s.otp
            &&& field(j, "local_auth"@, 10) matches Some(l) ==> {
                &&& is_switch_in(s.otp, l, "otp"@, 2)
                &&& field(l, "psk"@, 0) is None ==> s.local_id.len() == 0
                &&& field(l, "psk"@, 0) matches Some(p) ==> is_text_in(s.local_id, p, "id"@, 0)
                &&& s.xauth is Some <==> field(l, "xauth"@, 1) is Some && field(l, "xauth"@, 1)
                    != Some(JsonView::Null)
                &&& s.xauth matches Some(b) ==> is_switch_in(b, field(l, "xauth"@, 1)->0, "can_save"@, 0)
            }
            &&& s.secret matches Some(k) ==> field(j, "remote_auth"@, 11) matches Some(r) && field(
                r,
                "psk"@,
                0,
            ) matches Some(p) && field(p, "secret"@, 1) == Some(JsonView::Text(k))
            &&& field(j, "remote_auth"@, 11) matches Some(r) ==> (field(r, "psk"@, 0) matches Some(
                p,
            ) ==> is_text_in(s.remote_id, p, "id"@, 0))
            &&& field(j, "child"@, 12) is None ==> s.child_proposals.len() == 0 && s.remote_ts.len()
                == 0
            &&& field(j, "child"@, 12) matches Some(c) ==> are_texts_in(
                s.child_proposals,
                c,
                "proposals"@,
                0,
            ) && are_texts_in(s.remote_ts, c, "remote_ts"@, 1)
            &&& field(j, "dpd_delay"@, 9) is None ==> s.dpd_delay is None
            &&& forall|n: u32|
                field(j, "dpd_delay"@, 9) == Some(JsonView::Text(#[trigger] decimal(n as nat)))
                    || field(j, "dpd_delay"@, 9) == Some(JsonView::Number(Some(n as u64)))
                    ==> s.dpd_delay == Some(n)
        },
{
    lemma_texts_in(j, "proposals"@, 8);
    if let Some(c) = field(j, "child"@, 12) {
        lemma_texts_in(c, "proposals"@, 0);
        lemma_texts_in(c, "remote_ts"@, 1);
    }
    if let Some(s) = scx_of(j) {
        assert forall|n: u32|
            field(j, "dpd_delay"@, 9) == Some(JsonView::Text(#[trigger] decimal(n as nat)))
                || field(j, "dpd_delay"@, 9) == Some(JsonView::Number(Some(n as u64)))
            implies s.dpd_delay == Some(n) by {
            law_number_reads_back(n as nat, u32::MAX as nat);
        }
    }
}

/// A text is taken for a profile exactly when it has the shape of one and names a gateway.
pub proof fn law_profile_is_told_by_its_gateway(input: Seq<char>)
    ensures
        is_scx(input) <==> (json_text(input) matches Ok(j) && scx_of(j) matches Some(s) && trimmed(
            s.gateway,
        ).len() > 0),
{
}

/// One when something holds, and else none.
pub open spec fn counted(b: bool) -> nat {
    if b {
        1
    } else {
        0
    }
}

/// The warnings in their parts.
proof fn lemma_warning_parts(s: ScxView, x: ProfileView)
    requires
        imported_scx(s) == Ok::<ProfileView, ErrorView>(x),
    ensures
        ({
            let o = origin_notes(s);
            let p = peer_notes(s, x.config.gateway);
            let d = identity_of(s.local_id).2;
            let a = choice_of(s.proposals, "proposals"@)->Ok_0.1;
            let b = choice_of(s.child_proposals, "child.proposals"@)->Ok_0.1;
            let c = closing_notes(s, x.config.remote_subnets);
            &&& x.warnings.len() == o.len() + p.len() + d.len() + a.len() + b.len() + c.len()
            &&& forall|t: Seq<char>|
                o.contains(t) || p.contains(t) || d.contains(t) || a.contains(t) || b.contains(t)
                    || c.contains(t) ==> #[trigger] x.warnings.contains(t)
        }),
{
    let o = origin_notes(s);
    let p = peer_notes(s, x.config.gateway);
    let d = identity_of(s.local_id).2;
    let a = choice_of(s.proposals, "proposals"@)->Ok_0.1;
    let b = choice_of(s.child_proposals, "child.proposals"@)->Ok_0.1;
    let c = closing_notes(s, x.config.remote_subnets);
    assert(x.warnings == o + p + d + a + b + c);
    lemma_six_lists(o, p, d, a, b, c);
}

proof fn lemma_six_lists(
    o: Seq<Seq<char>>,
    p: Seq<Seq<char>>,
    d: Seq<Seq<char>>,
    a: Seq<Seq<char>>,
    b: Seq<Seq<char>>,
    c: Seq<Seq<char>>,
)
    ensures
        forall|t: Seq<char>|
            o.contains(t) || p.contains(t) || d.contains(t) || a.contains(t) || b.contains(t)
                || c.contains(t) ==> #[trigger] (o + p + d + a + b + c).contains(t),
{
    broadcast use vstd::seq_lib::lemma_seq_concat_contains_all_elements;

}

/// What a profile says of its origin and of the gateway is reported with the value that it is
/// about: another kind of firewall, management, a logon script, an address that only answers from
/// inside, and an identity that is pinned.
pub proof fn law_origin_and_peer_are_reported(s: ScxView)
    ensures
        imported_scx(s) matches Ok(x) ==> {
            let w = x.warnings;
            let gateway = x.config.gateway;
            let pinned = trimmed(s.remote_id);
            &&& s.kind.len() > 0 && !same_nocase(s.kind, "xg"@) ==> w.contains(
                "profile type is "@ + debug_quoted(s.kind)
                    + ", not the SFOS/XG firewall this importer was written against — verify every setting before connecting"@,
            )
            &&& s.managed ==> w.contains(
                "this is a managed profile: the firewall normally pushes updated settings to the Sophos client, which we do not do — a changed gateway or key must be re-imported"@,
            )
            &&& s.run_logon_script ==> w.contains(
                "the profile asks the client to run a logon script after connecting; we never execute scripts from a profile, so it was ignored"@,
            )
            &&& is_internal_gateway(gateway) ==> w.contains(
                "the profile dials "@ + gateway
                    + ", a private address — it will only connect from inside that network, or over another tunnel that reaches it"@,
            )
            &&& pinned.len() > 0 && pinned != "%any"@ && pinned != "0.0.0.0"@ ==> w.contains(
                "the profile pins the gateway's identity to "@ + debug_quoted(pinned)
                    + "; we do not check the responder's identity yet"@,
            )
        },
{
    if let Ok(x) = imported_scx(s) {
        lemma_warning_parts(s, x);
        lemma_origin_notes(s);
        lemma_peer_notes(s, x.config.gateway);
    }
}

/// What was assumed or dropped is reported with the value that it is about: an identity without a
/// type, and every algorithm set but the first.
pub proof fn law_assumptions_are_reported(s: ScxView, i: int, k: int)
    requires
        is_first_filled(s.proposals, i),
        is_first_filled(s.child_proposals, k),
    ensures
        imported_scx(s) matches Ok(x) ==> {
            let w = x.warnings;
            &&& x.config.local_id_type == Some(IkeIdType::Fqdn) ==> w.contains(
                "the local identity "@ + debug_quoted(trimmed(s.local_id))
                    + " has no stated type; sending it as an FQDN (verify on first connect)"@,
            )
            &&& s.proposals.len() > 1 ==> w.contains(
                "proposals"@ + " offers "@ + decimal(s.proposals.len())
                    + " algorithm sets; only the first ("@ + trimmed(s.proposals[i]) + ") is used"@,
            )
            &&& s.child_proposals.len() > 1 ==> w.contains(
                "child.proposals"@ + " offers "@ + decimal(s.child_proposals.len())
                    + " algorithm sets; only the first ("@ + trimmed(s.child_proposals[k])
                    + ") is used"@,
            )
        },
{
    if let Ok(x) = imported_scx(s) {
        lemma_filled_from(s.proposals, 0, i);
        lemma_filled_from(s.child_proposals, 0, k);
        lemma_warning_parts(s, x);
        let d = identity_of(s.local_id).2;
        let a = choice_of(s.proposals, "proposals"@)->Ok_0.1;
        let b = choice_of(s.child_proposals, "child.proposals"@)->Ok_0.1;
        if d.len() > 0 {
            assert(d.contains(d[0]));
        }
        if a.len() > 0 {
            assert(a.contains(a[0]));
        }
        if b.len() > 0 {
            assert(b.contains(b[0]));
        }
    }
}

/// What a profile asks for and does not get is reported: networks that are not named, a virtual
/// address of its own, DNS for a domain, and a one-time password.
pub proof fn law_shortcomings_are_reported(s: ScxView)
    ensures
        imported_scx(s) matches Ok(x) ==> {
            let w = x.warnings;
            let vip = trimmed(s.vip);
            &&& s.remote_ts.len() == 0 ==> w.contains(
                "the profile names no remote networks; the gateway decides what the tunnel carries"@,
            )
            &&& vip.len() > 0 && vip != "0.0.0.0"@ ==> w.contains(
                "the profile asks for the specific virtual IP "@ + vip
                    + "; we request one from the gateway instead"@,
            )
            &&& trimmed(s.domain_suffix).len() > 0 ==> w.contains(
                "the profile scopes DNS to a domain, but its resolvers are assigned by the gateway at connect time rather than named in the file — split-DNS is not applied for this profile yet"@,
            )
            &&& s.xauth is Some && s.otp ==> w.contains(
                "the gateway expects a one-time password, so a saved password alone will not authenticate"@,
            )
        },
{
    if let Ok(x) = imported_scx(s) {
        lemma_selectors(s.remote_ts, s.remote_ts.len() as int);
        lemma_warning_parts(s, x);
        lemma_closing_notes(s, x.config.remote_subnets);
    }
}

/// There are as many warnings as there are things to report: nothing is said twice, and nothing
/// that the profile gives no reason for.
pub proof fn law_nothing_else_is_reported(s: ScxView)
    ensures
        imported_scx(s) matches Ok(x) ==> {
            let pinned = trimmed(s.remote_id);
            let vip = trimmed(s.vip);
            x.warnings.len() == counted(s.kind.len() > 0 && !same_nocase(s.kind, "xg"@)) + counted(
                s.managed,
            ) + counted(s.run_logon_script) + counted(is_internal_gateway(x.config.gateway))
                + counted(pinned.len() > 0 && pinned != "%any"@ && pinned != "0.0.0.0"@) + counted(
                x.config.local_id_type == Some(IkeIdType::Fqdn),
            ) + counted(s.proposals.len() > 1) + counted(s.child_proposals.len() > 1) + counted(
                s.remote_ts.len() == 0,
            ) + counted(vip.len() > 0 && vip != "0.0.0.0"@) + counted(
                trimmed(s.domain_suffix).len() > 0,
            ) + counted(s.xauth is Some) + counted(s.xauth is Some && s.otp)
        },
{
    if let Ok(x) = imported_scx(s) {
        lemma_selectors(s.remote_ts, s.remote_ts.len() as int);
        lemma_warning_parts(s, x);
        lemma_origin_notes(s);
        lemma_peer_notes(s, x.config.gateway);
        lemma_closing_notes(s, x.config.remote_subnets);
        let d = identity_of(s.local_id).2;
        let a = choice_of(s.proposals, "proposals"@)->Ok_0.1;
        let b = choice_of(s.child_proposals, "child.proposals"@)->Ok_0.1;
        assert(d.len() == counted(x.config.local_id_type == Some(IkeIdType::Fqdn)));
        assert(a.len() == counted(s.proposals.len() > 1));
        assert(b.len() == counted(s.child_proposals.len() > 1));
    }
}

proof fn lemma_note(said: bool, text: Seq<char>)
    ensures
        said ==> note(said, text).contains(text),
        note(said, text).len() == counted(said),
{
    if said {
        assert(note(said, text)[0] == text);
    }
}

proof fn lemma_origin_notes(s: ScxView)
    ensures
        ({
            let w = origin_notes(s);
            let foreign = s.kind.len() > 0 && !same_nocase(s.kind, "xg"@);
            &&& foreign ==> w.contains(
                "profile type is "@ + debug_quoted(s.kind)
                    + ", not the SFOS/XG firewall this importer was written against — verify every setting before connecting"@,
            )
            &&& s.managed ==> w.contains(
                "this is a managed profile: the firewall normally pushes updated settings to the Sophos client, which we do not do — a changed gateway or key must be re-imported"@,
            )
            &&& s.run_logon_script ==> w.contains(
                "the profile asks the client to run a logon script after connecting; we never execute scripts from a profile, so it was ignored"@,
            )
            &&& w.len() == counted(foreign) + counted(s.managed) + counted(s.run_logon_script)
        }),
{
    broadcast use vstd::seq_lib::lemma_seq_concat_contains_all_elements;

    lemma_note(
        s.kind.len() > 0 && !same_nocase(s.kind, "xg"@),
        "profile type is "@ + debug_quoted(s.kind)
            + ", not the SFOS/XG firewall this importer was written against — verify every setting before connecting"@,
    );
    lemma_note(
        s.managed,
        "this is a managed profile: the firewall normally pushes updated settings to the Sophos client, which we do not do — a changed gateway or key must be re-imported"@,
    );
    lemma_note(
        s.run_logon_script,
        "the profile asks the client to run a logon script after connecting; we never execute scripts from a profile, so it was ignored"@,
    );
}

proof fn lemma_peer_notes(s: ScxView, gateway: Seq<char>)
    ensures
        ({
            let w = peer_notes(s, gateway);
            let pinned = trimmed(s.remote_id);
            let checked = pinned.len() > 0 && pinned != "%any"@ && pinned != "0.0.0.0"@;
            let internal = is_internal_gateway(gateway);
            &&& internal ==> w.contains(
                "the profile dials "@ + gateway
                    + ", a private address — it will only connect from inside that network, or over another tunnel that reaches it"@,
            )
            &&& checked ==> w.contains(
                "the profile pins the gateway's identity to "@ + debug_quoted(pinned)
                    + "; we do not check the responder's identity yet"@,
            )
            &&& w.len() == counted(internal) + counted(checked)
        }),
{
    broadcast use vstd::seq_lib::lemma_seq_concat_contains_all_elements;

    let pinned = trimmed(s.remote_id);
    lemma_note(
        is_internal_gateway(gateway),
        "the profile dials "@ + gateway
            + ", a private address — it will only connect from inside that network, or over another tunnel that reaches it"@,
    );
    lemma_note(
        pinned.len() > 0 && pinned != "%any"@ && pinned != "0.0.0.0"@,
        "the profile pins the gateway's identity to "@ + debug_quoted(pinned)
            + "; we do not check the responder's identity yet"@,
    );
}

proof fn lemma_closing_notes(s: ScxView, nets: Seq<Ipv4Net>)
    ensures
        ({
            let w = closing_notes(s, nets);
            let vip = trimmed(s.vip);
            let fixed = vip.len() > 0 && vip != "0.0.0.0"@;
            let scoped = trimmed(s.domain_suffix).len() > 0;
            &&& nets.len() == 0 ==> w.contains(
                "the profile names no remote networks; the gateway decides what the tunnel carries"@,
            )
            &&& fixed ==> w.contains(
                "the profile asks for the specific virtual IP "@ + vip
                    + "; we request one from the gateway instead"@,
            )
            &&& scoped ==> w.contains(
                "the profile scopes DNS to a domain, but its resolvers are assigned by the gateway at connect time rather than named in the file — split-DNS is not applied for this profile yet"@,
            )
            &&& s.xauth is Some && s.otp ==> w.contains(
                "the gateway expects a one-time password, so a saved password alone will not authenticate"@,
            )
            &&& w.len() == counted(nets.len() == 0) + counted(fixed) + counted(scoped) + counted(
                s.xauth is Some,
            ) + counted(s.xauth is Some && s.otp)
        }),
{
    broadcast use vstd::seq_lib::lemma_seq_concat_contains_all_elements;

    let vip = trimmed(s.vip);
    lemma_note(
        nets.len() == 0,
        "the profile names no remote networks; the gateway decides what the tunnel carries"@,
    );
    lemma_note(
        vip.len() > 0 && vip != "0.0.0.0"@,
        "the profile asks for the specific virtual IP "@ + vip
            + "; we request one from the gateway instead"@,
    );
    lemma_note(
        trimmed(s.domain_suffix).len() > 0,
        "the profile scopes DNS to a domain, but its resolvers are assigned by the gateway at connect time rather than named in the file — split-DNS is not applied for this profile yet"@,
    );
    lemma_note(
        s.xauth is Some && s.otp,
        "the gateway expects a one-time password, so a saved password alone will not authenticate"@,
    );
}

/// A profile that cannot be imported is refused for the first thing that is wrong with it: the
/// gateway, the key, the proposal for IKE, the one for ESP, the networks, and at last a group for
/// IKE that is missing.
pub proof fn law_refusal_names_the_first_fault(s: ScxView, i: int, k: int, n: int)
    ensures
        ({
            let r = imported_scx(s);
            let gw = trimmed(s.gateway);
            let dialled = is_gateway(gw);
            let keyed = s.secret is Some && trimmed(s.secret->0).len() > 0;
            let ike = proposal_of(trimmed(s.proposals[i]), "IKE proposal"@);
            let esp = proposal_of(trimmed(s.child_proposals[k]), "ESP proposal"@);
            &&& gw.len() == 0 ==> r == Err::<ProfileView, ErrorView>(
                ErrorView::MissingField("gateway"@),
            )
            &&& gw.len() > 0 && !dialled ==> r == Err::<ProfileView, ErrorView>(
                ErrorView::BadValue {
                    field: "gateway"@,
                    value: gw,
                    why: "contains characters that are not valid in a host name or address"@,
                },
            )
            &&& dialled && !keyed ==> r == Err::<ProfileView, ErrorView>(
                ErrorView::Unsupported(
                    "a profile without a pre-shared key (certificate authentication)"@,
                ),
            )
            &&& dialled && keyed && no_filled(s.proposals) ==> r == Err::<ProfileView, ErrorView>(
                ErrorView::MissingField("proposals"@),
            )
            &&& dialled && keyed && is_first_filled(s.proposals, i) && ike is Err ==> r == Err::<
                ProfileView,
                ErrorView,
            >(ike->Err_0)
            &&& dialled && keyed && is_first_filled(s.proposals, i) && ike is Ok && no_filled(
                s.child_proposals,
            ) ==> r == Err::<ProfileView, ErrorView>(ErrorView::MissingField("child.proposals"@))
            &&& dialled && keyed && is_first_filled(s.proposals, i) && ike is Ok && is_first_filled(
                s.child_proposals,
                k,
            ) && esp is Err ==> r == Err::<ProfileView, ErrorView>(esp->Err_0)
            &&& dialled && keyed && is_first_filled(s.proposals, i) && ike is Ok && is_first_filled(
                s.child_proposals,
                k,
            ) && esp is Ok && is_first_unread(s.remote_ts, n) ==> r == Err::<
                ProfileView,
                ErrorView,
            >(
                ErrorView::BadValue {
                    field: "child.remote_ts"@,
                    value: s.remote_ts[n],
                    why: "not an IPv4 network in CIDR form"@,
                },
            )
        }),
        trimmed(s.display_name).len() == 0 && trimmed(s.name).len() == 0 ==> (imported_scx(
            s,
        ) matches Ok(x) ==> x.config.name == "Sophos VPN"@),
{
    if no_filled(s.proposals) {
        lemma_none_filled(s.proposals, 0);
    }
    if no_filled(s.child_proposals) {
        lemma_none_filled(s.child_proposals, 0);
    }
    if is_first_filled(s.proposals, i) {
        lemma_filled_from(s.proposals, 0, i);
    }
    if is_first_filled(s.child_proposals, k) {
        lemma_filled_from(s.child_proposals, 0, k);
    }
    if is_first_unread(s.remote_ts, n) {
        lemma_read_up_to(s.remote_ts, n);
        lemma_bad_selector_stays(s.remote_ts, n + 1, s.remote_ts.len() as int);
    }
}

/// Whether every text is blank.
pub open spec fn no_filled(v: Seq<Seq<char>>) -> bool {
    forall|j: int| 0 <= j < v.len() ==> trimmed(#[trigger] v[j]).len() == 0
}

/// Whether text number `n` is the first that is not a network.
pub open spec fn is_first_unread(v: Seq<Seq<char>>, n: int) -> bool {
    &&& 0 <= n < v.len()
    &&& network(trimmed(v[n])) is Err
    &&& forall|j: int| 0 <= j < n ==> network(trimmed(#[trigger] v[j])) is Ok
}

proof fn lemma_none_filled(v: Seq<Seq<char>>, from: int)
    requires
        0 <= from,
        no_filled(v),
    ensures
        first_filled(v, from) is None,
    decreases v.len() - from,
{
    if from < v.len() {
        assert(trimmed(v[from]).len() == 0);
        lemma_none_filled(v, from + 1);
    }
}

proof fn lemma_read_up_to(v: Seq<Seq<char>>, n: int)
    requires
        0 <= n <= v.len(),
        forall|j: int| 0 <= j < n ==> network(trimmed(#[trigger] v[j])) is Ok,
    ensures
        selectors_of(v, n) is Ok,
    decreases n,
{
    if n > 0 {
        lemma_read_up_to(v, n - 1);
        assert(network(trimmed(v[n - 1])) is Ok);
    }
}

} // verus!
