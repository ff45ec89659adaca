//! The command line tools: which importer reads a file, what is printed of a profile, and what a
//! connect asks for and reports.

use crate::control::bridge::cidr_texts;
use crate::control::flow::{ConnectOutcome, LogView};
use crate::import::{ImportWarning, ImportedProfile, ProfileView};
use crate::model::{ConfigView, ConnectionConfig, IkeVersion, UserAuth, UserAuthView};
use crate::ncp;
use crate::sophos;
use crate::sophos::pro::{provisioning_text, provisioning_views, Provisioning, ProvisioningView};
use crate::sophos::{format_of, imported_as, Format};
use crate::text::{
    begins, decimal, format_u64, has, join, join_all, lemma_row_stands, lemma_stands,
    lemma_stands_before, lemma_stands_behind, occurs_at, views,
};
use vstd::prelude::*;

verus! {

/// The largest file that is taken for a profile, in bytes.
pub const MAX_PROFILE_BYTES: u64 = 1_048_576;

/// Whether a file of that size may be a profile.
pub fn fits_profile(bytes: u64) -> (r: bool)
    ensures
        r == (bytes <= MAX_PROFILE_BYTES),
{
    bytes <= MAX_PROFILE_BYTES
}

/// What a file turned out to hold. A provisioning file is not a connection: it points at a portal
/// that the profile is downloaded from.
pub enum Loaded {
    Profile(ImportedProfile),
    Provisioning(Vec<Provisioning>),
}

/// Why a file could not be loaded.
#[derive(Debug)]
pub enum LoadError {
    Sophos(sophos::ImportError),
    Ncp(ncp::ImportError),
}

/// The content of a [`Loaded`].
pub enum LoadedView {
    Profile(ProfileView),
    Provisioning(Seq<ProvisioningView>),
}

/// The content of a [`LoadError`].
pub enum LoadErrorView {
    Sophos(sophos::error::ErrorView),
    Ncp(ncp::import::ErrorView),
}

impl View for Loaded {
    type V = LoadedView;

    open spec fn view(&self) -> LoadedView {
        match self {
            Loaded::Profile(p) => LoadedView::Profile(p@),
            Loaded::Provisioning(v) => LoadedView::Provisioning(provisioning_views(v@)),
        }
    }
}

impl View for LoadError {
    type V = LoadErrorView;

    open spec fn view(&self) -> LoadErrorView {
        match self {
            LoadError::Sophos(e) => LoadErrorView::Sophos(e@),
            LoadError::Ncp(e) => LoadErrorView::Ncp(e@),
        }
    }
}

impl LoadErrorView {
    /// The text of the error.
    pub open spec fn text(self) -> Seq<char> {
        match self {
            LoadErrorView::Sophos(e) => e.text(),
            LoadErrorView::Ncp(e) => e.text(),
        }
    }
}

impl LoadError {
    /// What to tell the user.
    pub fn message(&self) -> (r: String)
        ensures
            r@ == self@.text(),
    {
        match self {
            LoadError::Sophos(e) => e.message(),
            LoadError::Ncp(e) => e.message(),
        }
    }
}

/// What the text of a file of the given format comes to; without a format it is an NCP profile.
pub open spec fn loaded_as(format: Option<Format>, text: Seq<char>) -> Result<
    LoadedView,
    LoadErrorView,
> {
    match format {
        Some(Format::Provisioning) => match provisioning_text(text) {
            Ok(v) => Ok(LoadedView::Provisioning(v)),
            Err(e) => Err(LoadErrorView::Sophos(e)),
        },
        Some(_) => match imported_as(format, text) {
            Ok(p) => Ok(LoadedView::Profile(p)),
            Err(e) => Err(LoadErrorView::Sophos(e)),
        },
        None => match ncp::import::imported(text) {
            Ok(p) => Ok(LoadedView::Profile(p)),
            Err(e) => Err(LoadErrorView::Ncp(e)),
        },
    }
}

/// Loads a text whose format is known.
pub fn load_as(format: Option<Format>, text: &str) -> (r: Result<Loaded, LoadError>)
    ensures
        match r {
            Ok(l) => loaded_as(format, text@) == Ok::<LoadedView, LoadErrorView>(l@),
            Err(e) => loaded_as(format, text@) == Err::<LoadedView, LoadErrorView>(e@),
        },
{
    match format {
        Some(Format::Provisioning) => match sophos::pro::parse(text) {
            Ok(v) => Ok(Loaded::Provisioning(v)),
            Err(e) => Err(LoadError::Sophos(e)),
        },
        Some(_) => match sophos::import_as(format, text) {
            Ok(p) => Ok(Loaded::Profile(p)),
            Err(e) => Err(LoadError::Sophos(e)),
        },
        None => match ncp::import_profile(text) {
            Ok(p) => Ok(Loaded::Profile(p)),
            Err(e) => Err(LoadError::Ncp(e)),
        },
    }
}

/// Picks the importer by content rather than by extension: these files are routinely renamed on
/// the way to a user.
pub fn load(text: &str) -> (r: Result<Loaded, LoadError>)
    ensures
        match r {
            Ok(l) => loaded_as(format_of(text@), text@) == Ok::<LoadedView, LoadErrorView>(l@),
            Err(e) => loaded_as(format_of(text@), text@) == Err::<LoadedView, LoadErrorView>(e@),
        },
{
    load_as(sophos::detect(text), text)
}

/// One of two texts.
pub open spec fn either(b: bool, yes: Seq<char>, no: Seq<char>) -> Seq<char> {
    if b {
        yes
    } else {
        no
    }
}

/// What is printed of one entry of a provisioning file.
pub open spec fn entry_text(e: ProvisioningView) -> Seq<char> {
    "Entry:          "@ + e.label() + "\nUser portal:    "@ + (match e.portal_url() {
        Some(u) => u,
        None => "(none)"@,
    }) + "\nOne-time code:  "@ + either(e.otp, "required"@, "not required"@) + "\nSave login:     "@
        + either(e.can_save_credentials, "allowed"@, "not allowed"@) + "\n"@
}

/// What is printed of the first `n` entries.
pub open spec fn entries_text(v: Seq<ProvisioningView>, n: int) -> Seq<char>
    decreases n,
{
    if n <= 0 {
        Seq::empty()
    } else {
        entries_text(v, n - 1) + entry_text(v[n - 1])
    }
}

/// What is printed of a provisioning file.
pub open spec fn provisioning_report(v: Seq<ProvisioningView>) -> Seq<char> {
    "Sophos provisioning file — no connection settings in it.\n\n"@ + entries_text(
        v,
        v.len() as int,
    )
        + "\nSign in to the portal and download the .scx profile from it, then import that file. Fetching it automatically is not implemented.\n"@
}

fn append_entry(s: &mut String, e: &Provisioning)
    ensures
        final(s)@ == old(s)@ + entry_text(e@),
{
    s.append("Entry:          ");
    s.append(e.label().as_str());
    s.append("\nUser portal:    ");
    let url = match e.portal_url() {
        Some(u) => u,
        None => "(none)".to_owned(),
    };
    s.append(url.as_str());
    s.append("\nOne-time code:  ");
    s.append(
        if e.otp {
            "required"
        } else {
            "not required"
        },
    );
    s.append("\nSave login:     ");
    s.append(
        if e.can_save_credentials {
            "allowed"
        } else {
            "not allowed"
        },
    );
    s.append("\n");
    assert(s@ =~= old(s)@ + entry_text(e@));
}

/// What to print of a provisioning file.
pub fn print_provisioning(entries: &Vec<Provisioning>) -> (r: String)
    ensures
        r@ == provisioning_report(provisioning_views(entries@)),
{
    let ghost all = provisioning_views(entries@);
    let mut s = "Sophos provisioning file — no connection settings in it.\n\n".to_owned();
    let ghost head = s@;
    let mut i: usize = 0;
    assert(head + entries_text(all, 0) =~= head);
    while i < entries.len()
        invariant
            i <= entries@.len(),
            all == provisioning_views(entries@),
            s@ == head + entries_text(all, i as int),
        decreases entries@.len() - i,
    {
        assert(all[i as int] == entries@[i as int]@);
        append_entry(&mut s, &entries[i]);
        assert(s@ =~= head + entries_text(all, i + 1));
        i = i + 1;
    }
    s.append(
        "\nSign in to the portal and download the .scx profile from it, then import that file. Fetching it automatically is not implemented.\n",
    );
    s
}

/// The lines about who connects to whom.
pub open spec fn peer_lines(c: ConfigView) -> Seq<char> {
    "Profile:        "@ + c.name + "\nGateway:        "@ + c.gateway + "\nIKE version:    "@
        + c.ike_version.digit() + "\nLocal ID:       "@ + (match c.local_id {
        Some(id) => id,
        None => "(none)"@,
    }) + (match c.local_id_type {
        Some(t) => " ("@ + t.label() + ")"@,
        None => Seq::empty(),
    }) + "\nAuth:           pre-shared key (***REDACTED***)\n"@
}

/// The line about the second authentication round, when there is one.
pub open spec fn user_line(c: ConfigView) -> Seq<char> {
    match c.user_auth {
        Some(u) => "User auth:      "@ + (match c.ike_version {
            IkeVersion::V1 => "XAuth"@,
            IkeVersion::V2 => "EAP-MSCHAPv2"@,
        }) + " (username/password asked for on connect"@ + either(
            u.otp,
            ", one-time code"@,
            Seq::empty(),
        ) + ")\n"@,
        None => Seq::empty(),
    }
}

/// The lines about the proposals.
pub open spec fn proposal_lines(c: ConfigView) -> Seq<char> {
    "IKE proposal:   "@ + c.ike_enc.token() + "-"@ + c.ike_integ.token() + "-"@ + c.ike_prf.token()
        + "-"@ + c.ike_dh.token() + "\nESP proposal:   "@ + c.esp_enc.token() + "-"@
        + c.esp_integ.token() + (match c.pfs {
        Some(g) => " (PFS "@ + g.token() + ")"@,
        None => " (no PFS)"@,
    }) + "\n"@
}

/// The lines about what goes through the tunnel.
pub open spec fn traffic_lines(c: ConfigView) -> Seq<char> {
    "Remote subnets: "@ + (if c.remote_subnets.len() == 0 {
        "(none!)"@
    } else {
        join_all(cidr_texts(c.remote_subnets), ", "@)
    }) + "\nVirtual IP:     "@ + either(
        c.request_virtual_ip,
        "requested from gateway"@,
        "no"@,
    ) + "\nCompression:    "@ + either(c.compression, "yes"@, "no"@) + "\n"@
}

/// The lines of the first `n` warnings.
pub open spec fn warning_lines(w: Seq<Seq<char>>, n: int) -> Seq<char>
    decreases n,
{
    if n <= 0 {
        Seq::empty()
    } else {
        warning_lines(w, n - 1) + "  ! "@ + w[n - 1] + "\n"@
    }
}

/// What is printed of a profile. The pre-shared key is not in it.
pub open spec fn summary(p: ProfileView) -> Seq<char> {
    peer_lines(p.config) + user_line(p.config) + proposal_lines(p.config) + traffic_lines(p.config)
        + (if p.warnings.len() == 0 {
        Seq::empty()
    } else {
        "\n"@ + decimal(p.warnings.len()) + " warning(s):\n"@ + warning_lines(
            p.warnings,
            p.warnings.len() as int,
        )
    })
}

fn peers_printed(c: &ConnectionConfig) -> (r: String)
    ensures
        r@ == peer_lines(c@),
{
    let mut s = "Profile:        ".to_owned();
    s.append(c.name.as_str());
    s.append("\nGateway:        ");
    s.append(c.gateway.as_str());
    s.append("\nIKE version:    ");
    s.append(c.ike_version.swanctl_value());
    s.append("\nLocal ID:       ");
    let ghost before = s@;
    match &c.local_id {
        Some(id) => {
            s.append(id.as_str());
        },
        None => {
            s.append("(none)");
        },
    }
    let ghost named = s@;
    match c.local_id_type {
        Some(t) => {
            s.append(" (");
            s.append(t.name());
            s.append(")");
            assert(s@ =~= named + (" ("@ + t.label() + ")"@));
        },
        None => {
            assert(s@ =~= named + Seq::<char>::empty());
        },
    }
    s.append("\nAuth:           pre-shared key (***REDACTED***)\n");
    s
}

fn user_printed(c: &ConnectionConfig) -> (r: String)
    ensures
        r@ == user_line(c@),
{
    match &c.user_auth {
        Some(u) => {
            let mut s = "User auth:      ".to_owned();
            s.append(
                match c.ike_version {
                    IkeVersion::V1 => "XAuth",
                    IkeVersion::V2 => "EAP-MSCHAPv2",
                },
            );
            s.append(" (username/password asked for on connect");
            let ghost before = s@;
            if u.otp {
                s.append(", one-time code");
            } else {
                assert(s@ =~= before + Seq::<char>::empty());
            }
            s.append(")\n");
            s
        },
        None => {
            let s = String::new();
            assert(s@ =~= Seq::empty());
            s
        },
    }
}

fn proposals_printed(c: &ConnectionConfig) -> (r: String)
    ensures
        r@ == proposal_lines(c@),
{
    let mut s = "IKE proposal:   ".to_owned();
    s.append(c.ike_enc.swanctl_name());
    s.append("-");
    s.append(c.ike_integ.swanctl_name());
    s.append("-");
    s.append(c.ike_prf.swanctl_name());
    s.append("-");
    s.append(c.ike_dh.swanctl_name());
    s.append("\nESP proposal:   ");
    s.append(c.esp_enc.swanctl_name());
    s.append("-");
    s.append(c.esp_integ.swanctl_name());
    let ghost before = s@;
    match c.pfs {
        Some(g) => {
            s.append(" (PFS ");
            s.append(g.swanctl_name());
            s.append(")");
            assert(s@ =~= before + (" (PFS "@ + g.token() + ")"@));
        },
        None => {
            s.append(" (no PFS)");
        },
    }
    s.append("\n");
    s
}

fn traffic_printed(c: &ConnectionConfig) -> (r: String)
    ensures
        r@ == traffic_lines(c@),
{
    let mut nets: Vec<String> = Vec::new();
    let mut i: usize = 0;
    while i < c.remote_subnets.len()
        invariant
            i <= c.remote_subnets@.len(),
            views(nets@) == cidr_texts(c.remote_subnets@).take(i as int),
        decreases c.remote_subnets@.len() - i,
    {
        let t = c.remote_subnets[i].to_text();
        let ghost before = nets@;
        let ghost seen = t@;
        nets.push(t);
        assert(views(nets@) =~= views(before).push(seen));
        assert(views(nets@) =~= cidr_texts(c.remote_subnets@).take(i + 1));
        i = i + 1;
    }
    assert(cidr_texts(c.remote_subnets@).take(c.remote_subnets@.len() as int) =~= cidr_texts(
        c.remote_subnets@,
    ));
    let mut s = "Remote subnets: ".to_owned();
    if nets.len() == 0 {
        s.append("(none!)");
    } else {
        s.append(join(&nets, ", ").as_str());
    }
    s.append("\nVirtual IP:     ");
    s.append(
        if c.request_virtual_ip {
            "requested from gateway"
        } else {
            "no"
        },
    );
    s.append("\nCompression:    ");
    s.append(
        if c.compression {
            "yes"
        } else {
            "no"
        },
    );
    s.append("\n");
    s
}

fn append_warnings(s: &mut String, warnings: &Vec<ImportWarning>)
    ensures
        ({
            let w = crate::import::warning_views(warnings@);
            final(s)@ == old(s)@ + (if w.len() == 0 {
                Seq::empty()
            } else {
                "\n"@ + decimal(w.len()) + " warning(s):\n"@ + warning_lines(w, w.len() as int)
            })
        }),
{
    let ghost w = crate::import::warning_views(warnings@);
    let n: usize = warnings.len();
    if n == 0 {
        assert(s@ =~= old(s)@ + Seq::<char>::empty());
        return;
    }
    s.append("\n");
    s.append(format_u64(n as u64).as_str());
    s.append(" warning(s):\n");
    let ghost head = s@;
    assert(head + warning_lines(w, 0) =~= head);
    let mut i: usize = 0;
    while i < n
        invariant
            i <= n == warnings@.len(),
            w == crate::import::warning_views(warnings@),
            s@ == head + warning_lines(w, i as int),
        decreases n - i,
    {
        assert(w[i as int] == warnings@[i as int]@);
        s.append("  ! ");
        s.append(warnings[i].message());
        s.append("\n");
        assert(s@ =~= head + warning_lines(w, i + 1));
        i = i + 1;
    }
    assert(s@ =~= old(s)@ + ("\n"@ + decimal(w.len()) + " warning(s):\n"@ + warning_lines(
        w,
        w.len() as int,
    )));
}

/// What to print of a profile.
pub fn print_summary(imported: &ImportedProfile) -> (r: String)
    ensures
        r@ == summary(imported@),
{
    let mut s = peers_printed(&imported.config);
    s.append(user_printed(&imported.config).as_str());
    s.append(proposals_printed(&imported.config).as_str());
    s.append(traffic_printed(&imported.config).as_str());
    append_warnings(&mut s, &imported.warnings);
    s
}

/// What a connect needs of the person at the keyboard.
#[derive(Debug)]
pub enum Login {
    /// The password of the named user, unless it was given; the text is the prompt for it.
    Password(String),
    /// Nothing, although a user name was given: the profile has no second round.
    Ignored,
    /// Nothing.
    NotNeeded,
}

/// Matches the user name that was given, if any, with what the profile asks for. A profile only
/// says that a login is required; the user name is put into it here.
pub fn login(config: &mut ConnectionConfig, username: Option<&str>) -> (r: Result<Login, String>)
    ensures
        match (old(config)@.user_auth, username) {
            (Some(u), Some(name)) => r matches Ok(Login::Password(prompt)) && prompt@
                == "Password for "@ + name@ + ": "@ && final(config)@ == (ConfigView {
                user_auth: Some(UserAuthView { username: Some(name@), ..u }),
                ..old(config)@
            }),
            (Some(_), None) => r matches Err(e) && e@
                == "this profile's gateway asks for a username and password; pass --username"@
                && final(config)@ == old(config)@,
            (None, Some(_)) => r matches Ok(Login::Ignored) && final(config)@ == old(config)@,
            (None, None) => r matches Ok(Login::NotNeeded) && final(config)@ == old(config)@,
        },
{
    let wanted = match &config.user_auth {
        Some(u) => Some((u.can_save, u.otp)),
        None => None,
    };
    match (wanted, username) {
        (Some((can_save, otp)), Some(name)) => {
            config.user_auth = Some(UserAuth { username: Some(name.to_owned()), can_save, otp });
            let mut prompt = "Password for ".to_owned();
            prompt.append(name);
            prompt.append(": ");
            Ok(Login::Password(prompt))
        },
        (Some(_), None) => Err(
            "this profile's gateway asks for a username and password; pass --username".to_owned(),
        ),
        (None, Some(_)) => Ok(Login::Ignored),
        (None, None) => Ok(Login::NotNeeded),
    }
}

/// The transcript of the first `n` log lines.
pub open spec fn transcript_lines(log: Seq<LogView>, n: int) -> Seq<char>
    decreases n,
{
    if n <= 0 {
        Seq::empty()
    } else {
        transcript_lines(log, n - 1) + "  ["@ + log[n - 1].group + "] "@ + log[n - 1].msg + "\n"@
    }
}

/// The transcript of a connect.
pub fn transcript(outcome: &ConnectOutcome) -> (r: String)
    ensures
        r@ == transcript_lines(outcome@.log, outcome@.log.len() as int),
{
    let ghost all = outcome@.log;
    let mut s = String::new();
    assert(s@ =~= Seq::empty());
    let mut i: usize = 0;
    while i < outcome.log.len()
        invariant
            i <= outcome.log@.len(),
            all == outcome@.log,
            s@ == transcript_lines(all, i as int),
        decreases outcome.log@.len() - i,
    {
        assert(all[i as int] == outcome.log@[i as int]@);
        s.append("  [");
        s.append(outcome.log[i].group.as_str());
        s.append("] ");
        s.append(outcome.log[i].msg.as_str());
        s.append("\n");
        i = i + 1;
    }
    s
}

/// What is reported of a connect: that the tunnel is initiated, or why it is not.
pub fn connect_report(outcome: &ConnectOutcome, name: &str) -> (r: Result<String, String>)
    ensures
        match r {
            Ok(s) => outcome@.connected && s@ == "Tunnel '"@ + name@ + "' initiated."@,
            Err(e) => !outcome@.connected && e@ == "handshake failed: "@ + (
            match outcome@.error {
                Some(why) => why,
                None => "unknown reason"@,
            }),
        },
{
    if outcome.connected {
        let mut s = "Tunnel '".to_owned();
        s.append(name);
        s.append("' initiated.");
        return Ok(s);
    }
    let mut s = "handshake failed: ".to_owned();
    match &outcome.error {
        Some(why) => {
            s.append(why.as_str());
        },
        None => {
            s.append("unknown reason");
        },
    }
    Err(s)
}

/// What is printed of a profile does not depend on its pre-shared key.
pub proof fn law_summary_hides_the_secret(p: ProfileView, secret: Seq<char>)
    ensures
        summary(ProfileView { config: ConfigView { secret, ..p.config }, ..p }) == summary(p),
{
}

proof fn lemma_peer_lines(c: ConfigView)
    ensures
        has(peer_lines(c), "\nGateway:        "@ + c.gateway + "\nIKE version:    "@),
        has(peer_lines(c), "\nIKE version:    "@ + c.ike_version.digit() + "\nLocal ID:       "@),
        has(peer_lines(c), "\nLocal ID:       "@ + (match c.local_id {
        Some(id) => id,
        None => "(none)"@,
    }) + (match c.local_id_type {
        Some(t) => " ("@ + t.label() + ")"@,
        None => Seq::empty(),
    }) + "\nAuth:           pre-shared key (***REDACTED***)\n"@),
{
    let t0 = "Profile:        "@;
    let t1 = c.name;
    let t2 = "\nGateway:        "@;
    let t3 = c.gateway;
    let t4 = "\nIKE version:    "@;
    let t5 = c.ike_version.digit();
    let t6 = "\nLocal ID:       "@;
    let t7 = (match c.local_id {
        Some(id) => id,
        None => "(none)"@,
    });
    let t8 = (match c.local_id_type {
        Some(t) => " ("@ + t.label() + ")"@,
        None => Seq::empty(),
    });
    let t9 = "\nAuth:           pre-shared key (***REDACTED***)\n"@;
    let s0 = t0;
    let s1 = s0 + t1;
    let s2 = s1 + t2;
    let s3 = s2 + t3;
    let s4 = s3 + t4;
    let s5 = s4 + t5;
    let s6 = s5 + t6;
    let s7 = s6 + t7;
    let s8 = s7 + t8;
    let s9 = s8 + t9;
    assert(peer_lines(c) == s9);
    assert(s1 + t2 + t3 + t4 == s4);
    lemma_row_stands(s1, t2, t3, t4);
    lemma_stands_before(s4, t5, t2 + t3 + t4);
    lemma_stands_before(s5, t6, t2 + t3 + t4);
    lemma_stands_before(s6, t7, t2 + t3 + t4);
    lemma_stands_before(s7, t8, t2 + t3 + t4);
    lemma_stands_before(s8, t9, t2 + t3 + t4);
    assert(s3 + t4 + t5 + t6 == s6);
    lemma_row_stands(s3, t4, t5, t6);
    lemma_stands_before(s6, t7, t4 + t5 + t6);
    lemma_stands_before(s7, t8, t4 + t5 + t6);
    lemma_stands_before(s8, t9, t4 + t5 + t6);
    assert(s5 + t6 + t7 + t8 + t9 == s9);
    assert(s9 =~= s5 + (t6 + t7 + t8 + t9));
    lemma_stands(s5, t6 + t7 + t8 + t9);
}

proof fn lemma_proposal_lines(c: ConfigView)
    ensures
        has(proposal_lines(c), "\nESP proposal:   "@ + c.esp_enc.token() + "-"@ + c.esp_integ.token() + (match c.pfs {
        Some(g) => " (PFS "@ + g.token() + ")"@,
        None => " (no PFS)"@,
    }) + "\n"@),
{
    let t0 = "IKE proposal:   "@;
    let t1 = c.ike_enc.token();
    let t2 = "-"@;
    let t3 = c.ike_integ.token();
    let t4 = "-"@;
    let t5 = c.ike_prf.token();
    let t6 = "-"@;
    let t7 = c.ike_dh.token();
    let t8 = "\nESP proposal:   "@;
    let t9 = c.esp_enc.token();
    let t10 = "-"@;
    let t11 = c.esp_integ.token();
    let t12 = (match c.pfs {
        Some(g) => " (PFS "@ + g.token() + ")"@,
        None => " (no PFS)"@,
    });
    let t13 = "\n"@;
    let s0 = t0;
    let s1 = s0 + t1;
    let s2 = s1 + t2;
    let s3 = s2 + t3;
    let s4 = s3 + t4;
    let s5 = s4 + t5;
    let s6 = s5 + t6;
    let s7 = s6 + t7;
    let s8 = s7 + t8;
    let s9 = s8 + t9;
    let s10 = s9 + t10;
    let s11 = s10 + t11;
    let s12 = s11 + t12;
    let s13 = s12 + t13;
    assert(proposal_lines(c) == s13);
    assert(s7 + t8 + t9 + t10 + t11 + t12 + t13 == s13);
    assert(s13 =~= s7 + (t8 + t9 + t10 + t11 + t12 + t13));
    lemma_stands(s7, t8 + t9 + t10 + t11 + t12 + t13);
}

/// What is printed of a profile begins with its name, and has its gateway, version and identity
/// each on a line of its own; an identity that is missing is said to be, and one with a type is
/// shown with it.
pub proof fn law_summary_shows_the_peer(p: ProfileView)
    ensures
        begins(summary(p), "Profile:        "@ + p.config.name + "\nGateway:        "@),
        has(summary(p), "\nGateway:        "@ + p.config.gateway + "\nIKE version:    "@),
        has(
            summary(p),
            "\nIKE version:    "@ + p.config.ike_version.digit() + "\nLocal ID:       "@,
        ),
        has(
            summary(p),
            "\nLocal ID:       "@ + (match p.config.local_id {
                Some(id) => id,
                None => "(none)"@,
            }) + (match p.config.local_id_type {
                Some(t) => " ("@ + t.label() + ")"@,
                None => Seq::empty(),
            }) + "\nAuth:           pre-shared key (***REDACTED***)\n"@,
        ),
{
    let c = p.config;
    lemma_peer_lines(c);
    lemma_summary_parts(p, "\nGateway:        "@ + c.gateway + "\nIKE version:    "@);
    lemma_summary_parts(p, "\nIKE version:    "@ + c.ike_version.digit() + "\nLocal ID:       "@);
    lemma_summary_parts(
        p,
        "\nLocal ID:       "@ + (match c.local_id {
            Some(id) => id,
            None => "(none)"@,
        }) + (match c.local_id_type {
            Some(t) => " ("@ + t.label() + ")"@,
            None => Seq::empty(),
        }) + "\nAuth:           pre-shared key (***REDACTED***)\n"@,
    );
    let head = "Profile:        "@ + c.name + "\nGateway:        "@;
    let s = summary(p);
    assert(peer_lines(c).subrange(0, head.len() as int) =~= head);
    assert(s.subrange(0, head.len() as int) =~= peer_lines(c).subrange(0, head.len() as int));
}

/// What stands in one part of the summary stands in the summary.
proof fn lemma_summary_parts(p: ProfileView, t: Seq<char>)
    ensures
        has(peer_lines(p.config), t) || has(user_line(p.config), t) || has(
            proposal_lines(p.config),
            t,
        ) || has(traffic_lines(p.config), t) ==> has(summary(p), t),
{
    let (a, b, c, d) = (
        peer_lines(p.config),
        user_line(p.config),
        proposal_lines(p.config),
        traffic_lines(p.config),
    );
    let e = if p.warnings.len() == 0 {
        Seq::empty()
    } else {
        "\n"@ + decimal(p.warnings.len()) + " warning(s):\n"@ + warning_lines(
            p.warnings,
            p.warnings.len() as int,
        )
    };
    if has(a, t) {
        lemma_stands_before(a, b, t);
    } else if has(b, t) {
        lemma_stands_behind(a, b, t);
    }
    if has(a + b, t) {
        lemma_stands_before(a + b, c, t);
    } else if has(c, t) {
        lemma_stands_behind(a + b, c, t);
    }
    if has(a + b + c, t) {
        lemma_stands_before(a + b + c, d, t);
    } else if has(d, t) {
        lemma_stands_behind(a + b + c, d, t);
    }
    if has(a + b + c + d, t) {
        lemma_stands_before(a + b + c + d, e, t);
    }
}

/// What is printed of a profile shows both proposals, the one for IKE with cipher, hash, PRF and
/// group, the one for ESP with cipher and hash and whether there is forward secrecy; and what
/// goes through the tunnel.
pub proof fn law_summary_shows_the_proposals(p: ProfileView)
    ensures
        has(
            summary(p),
            "IKE proposal:   "@ + p.config.ike_enc.token() + "-"@ + p.config.ike_integ.token() + "-"@
                + p.config.ike_prf.token() + "-"@ + p.config.ike_dh.token() + "\nESP proposal:   "@,
        ),
        has(
            summary(p),
            "\nESP proposal:   "@ + p.config.esp_enc.token() + "-"@ + p.config.esp_integ.token() + (
            match p.config.pfs {
                Some(g) => " (PFS "@ + g.token() + ")"@,
                None => " (no PFS)"@,
            }) + "\n"@,
        ),
{
    let c = p.config;
    lemma_proposal_lines(c);
    let all = proposal_lines(c);
    let ike = "IKE proposal:   "@ + c.ike_enc.token() + "-"@ + c.ike_integ.token() + "-"@
        + c.ike_prf.token() + "-"@ + c.ike_dh.token() + "\nESP proposal:   "@;
    assert(all.subrange(0, ike.len() as int) =~= ike);
    assert(occurs_at(all, ike, 0));
    lemma_summary_parts(p, ike);
    lemma_summary_parts(
        p,
        "\nESP proposal:   "@ + c.esp_enc.token() + "-"@ + c.esp_integ.token() + (match c.pfs {
            Some(g) => " (PFS "@ + g.token() + ")"@,
            None => " (no PFS)"@,
        }) + "\n"@,
    );
}

/// What is printed of a profile shows the networks behind the tunnel, and whether an address is
/// asked for and payloads are compressed.
pub proof fn law_summary_shows_the_traffic(p: ProfileView)
    ensures
        p.config.remote_subnets.len() == 0 ==> has(summary(p), "Remote subnets: "@ + "(none!)"@),
        p.config.remote_subnets.len() > 0 ==> has(
            summary(p),
            "Remote subnets: "@ + join_all(cidr_texts(p.config.remote_subnets), ", "@),
        ),
        p.config.request_virtual_ip ==> has(
            summary(p),
            "\nVirtual IP:     "@ + "requested from gateway"@ + "\nCompression:    "@,
        ),
        !p.config.request_virtual_ip ==> has(
            summary(p),
            "\nVirtual IP:     "@ + "no"@ + "\nCompression:    "@,
        ),
        p.config.compression ==> has(summary(p), "\nCompression:    "@ + "yes"@ + "\n"@),
        !p.config.compression ==> has(summary(p), "\nCompression:    "@ + "no"@ + "\n"@),
{
    let c = p.config;
    let nets = if c.remote_subnets.len() == 0 {
        "(none!)"@
    } else {
        join_all(cidr_texts(c.remote_subnets), ", "@)
    };
    let ip = either(c.request_virtual_ip, "requested from gateway"@, "no"@);
    let zip = either(c.compression, "yes"@, "no"@);
    let (t0, t2, t4, t6) = (
        "Remote subnets: "@,
        "\nVirtual IP:     "@,
        "\nCompression:    "@,
        "\n"@,
    );
    let s = traffic_lines(c);
    assert(s == t0 + nets + t2 + ip + t4 + zip + t6);
    assert(s.subrange(0, (t0 + nets).len() as int) =~= t0 + nets);
    assert(occurs_at(s, t0 + nets, 0));
    lemma_summary_parts(p, t0 + nets);
    lemma_row_stands(t0 + nets, t2, ip, t4);
    lemma_stands_before(t0 + nets + t2 + ip + t4, zip, t2 + ip + t4);
    lemma_stands_before(t0 + nets + t2 + ip + t4 + zip, t6, t2 + ip + t4);
    lemma_summary_parts(p, t2 + ip + t4);
    lemma_row_stands(t0 + nets + t2 + ip, t4, zip, t6);
    lemma_summary_parts(p, t4 + zip + t6);
}

/// A profile with user authentication is printed with the method of its version and whether a
/// one-time code is asked for; one without is not said to have any.
pub proof fn law_summary_shows_the_user(p: ProfileView)
    ensures
        p.config.user_auth is None ==> user_line(p.config).len() == 0,
        p.config.user_auth matches Some(u) ==> has(
            summary(p),
            "User auth:      "@ + (if p.config.ike_version is V1 {
                "XAuth"@
            } else {
                "EAP-MSCHAPv2"@
            }) + " (username/password asked for on connect"@ + (if u.otp {
                ", one-time code"@
            } else {
                Seq::empty()
            }) + ")\n"@,
        ),
{
    let c = p.config;
    if c.user_auth is Some {
        let t = user_line(c);
        assert(t.subrange(0, t.len() as int) =~= t);
        assert(occurs_at(t, t, 0));
        lemma_summary_parts(p, t);
    }
}

proof fn lemma_warnings_parts(a: Seq<Seq<char>>, b: Seq<Seq<char>>, n: int)
    requires
        0 <= n <= (a + b).len(),
    ensures
        n <= a.len() ==> warning_lines(a + b, n) == warning_lines(a, n),
        n >= a.len() ==> warning_lines(a + b, n) == warning_lines(a, a.len() as int)
            + warning_lines(b, n - a.len()),
    decreases n,
{
    if n > 0 {
        lemma_warnings_parts(a, b, n - 1);
        if n <= a.len() {
            assert((a + b)[n - 1] == a[n - 1]);
        } else {
            assert((a + b)[n - 1] == b[n - 1 - a.len()]);
        }
    }
    if n >= a.len() {
        assert(warning_lines(a + b, n) =~= warning_lines(a, a.len() as int) + warning_lines(
            b,
            n - a.len(),
        ));
    }
}

/// Every warning of a profile is printed on a line of its own, in order, under their number; a
/// profile without any ends with its traffic.
pub proof fn law_summary_shows_every_warning(
    c: ConfigView,
    a: Seq<Seq<char>>,
    b: Seq<Seq<char>>,
    w: Seq<char>,
)
    ensures
        a.len() > 0 ==> summary(ProfileView { config: c, warnings: a }) == summary(
            ProfileView { config: c, warnings: Seq::empty() },
        ) + ("\n"@ + decimal(a.len()) + " warning(s):\n"@ + warning_lines(a, a.len() as int)),
        warning_lines(a + b, (a + b).len() as int) == warning_lines(a, a.len() as int)
            + warning_lines(b, b.len() as int),
        warning_lines(seq![w], 1) == "  ! "@ + w + "\n"@,
{
    lemma_warnings_parts(a, b, (a + b).len() as int);
    reveal_with_fuel(warning_lines, 2);
    assert(warning_lines(seq![w], 1) =~= "  ! "@ + w + "\n"@);
    let plain = ProfileView { config: c, warnings: Seq::<Seq<char>>::empty() };
    assert(summary(plain) =~= peer_lines(c) + user_line(c) + proposal_lines(c) + traffic_lines(c));
}

proof fn lemma_entries_parts(a: Seq<ProvisioningView>, b: Seq<ProvisioningView>, n: int)
    requires
        0 <= n <= (a + b).len(),
    ensures
        n <= a.len() ==> entries_text(a + b, n) == entries_text(a, n),
        n >= a.len() ==> entries_text(a + b, n) == entries_text(a, a.len() as int) + entries_text(
            b,
            n - a.len(),
        ),
    decreases n,
{
    if n > 0 {
        lemma_entries_parts(a, b, n - 1);
        if n <= a.len() {
            assert((a + b)[n - 1] == a[n - 1]);
        } else {
            assert((a + b)[n - 1] == b[n - 1 - a.len()]);
        }
    }
    if n >= a.len() {
        assert(entries_text(a + b, n) =~= entries_text(a, a.len() as int) + entries_text(
            b,
            n - a.len(),
        ));
    }
}

/// The report of a provisioning file lists every entry in order, each with its label, its portal,
/// and whether a one-time code is required and credentials may be saved.
pub proof fn law_report_lists_every_entry(
    a: Seq<ProvisioningView>,
    b: Seq<ProvisioningView>,
    e: ProvisioningView,
)
    ensures
        provisioning_report(a)
            == "Sophos provisioning file — no connection settings in it.\n\n"@ + entries_text(
            a,
            a.len() as int,
        )
            + "\nSign in to the portal and download the .scx profile from it, then import that file. Fetching it automatically is not implemented.\n"@,
        entries_text(a + b, (a + b).len() as int) == entries_text(a, a.len() as int)
            + entries_text(b, b.len() as int),
        begins(entries_text(seq![e], 1), "Entry:          "@ + e.label() + "\nUser portal:    "@),
        e.portal_url() matches Some(u) ==> has(
            entries_text(seq![e], 1),
            "\nUser portal:    "@ + u + "\nOne-time code:  "@,
        ),
        e.portal_url() is None ==> has(
            entries_text(seq![e], 1),
            "\nUser portal:    "@ + "(none)"@ + "\nOne-time code:  "@,
        ),
        e.otp ==> has(
            entries_text(seq![e], 1),
            "\nOne-time code:  "@ + "required"@ + "\nSave login:     "@,
        ),
        !e.otp ==> has(
            entries_text(seq![e], 1),
            "\nOne-time code:  "@ + "not required"@ + "\nSave login:     "@,
        ),
        e.can_save_credentials ==> has(
            entries_text(seq![e], 1),
            "\nSave login:     "@ + "allowed"@ + "\n"@,
        ),
        !e.can_save_credentials ==> has(
            entries_text(seq![e], 1),
            "\nSave login:     "@ + "not allowed"@ + "\n"@,
        ),
{
    lemma_entries_parts(a, b, (a + b).len() as int);
    reveal_with_fuel(entries_text, 2);
    let s = entry_text(e);
    assert(entries_text(seq![e], 1) =~= s);
    let url = match e.portal_url() {
        Some(u) => u,
        None => "(none)"@,
    };
    let code = either(e.otp, "required"@, "not required"@);
    let save = either(e.can_save_credentials, "allowed"@, "not allowed"@);
    let (t0, t1, t2, t4, t6, t8) = (
        "Entry:          "@,
        e.label(),
        "\nUser portal:    "@,
        "\nOne-time code:  "@,
        "\nSave login:     "@,
        "\n"@,
    );
    let s2 = t0 + t1 + t2;
    assert(s.subrange(0, s2.len() as int) =~= s2);
    let s4 = s2 + url + t4;
    let s6 = s4 + code + t6;
    assert(s == s6 + save + t8);
    lemma_row_stands(t0 + t1, t2, url, t4);
    lemma_stands_before(s4, code, t2 + url + t4);
    lemma_stands_before(s4 + code, t6, t2 + url + t4);
    lemma_stands_before(s6, save, t2 + url + t4);
    lemma_stands_before(s6 + save, t8, t2 + url + t4);
    lemma_row_stands(s2 + url, t4, code, t6);
    lemma_stands_before(s6, save, t4 + code + t6);
    lemma_stands_before(s6 + save, t8, t4 + code + t6);
    lemma_row_stands(s4 + code, t6, save, t8);
}

proof fn lemma_transcript_parts(a: Seq<LogView>, b: Seq<LogView>, n: int)
    requires
        0 <= n <= (a + b).len(),
    ensures
        n <= a.len() ==> transcript_lines(a + b, n) == transcript_lines(a, n),
        n >= a.len() ==> transcript_lines(a + b, n) == transcript_lines(a, a.len() as int)
            + transcript_lines(b, n - a.len()),
    decreases n,
{
    if n > 0 {
        lemma_transcript_parts(a, b, n - 1);
        if n <= a.len() {
            assert((a + b)[n - 1] == a[n - 1]);
        } else {
            assert((a + b)[n - 1] == b[n - 1 - a.len()]);
        }
    }
    if n >= a.len() {
        assert(transcript_lines(a + b, n) =~= transcript_lines(a, a.len() as int)
            + transcript_lines(b, n - a.len()));
    }
}

/// The transcript of a connect has one line for each entry of its log, in order, with the group
/// and what was said.
pub proof fn law_transcript_has_every_line(a: Seq<LogView>, b: Seq<LogView>, e: LogView)
    ensures
        transcript_lines(a + b, (a + b).len() as int) == transcript_lines(a, a.len() as int)
            + transcript_lines(b, b.len() as int),
        transcript_lines(seq![e], 1) == "  ["@ + e.group + "] "@ + e.msg + "\n"@,
{
    lemma_transcript_parts(a, b, (a + b).len() as int);
    reveal_with_fuel(transcript_lines, 2);
    assert(transcript_lines(seq![e], 1) =~= "  ["@ + e.group + "] "@ + e.msg + "\n"@);
}

/// A file is read by the importer of its format, and one of no other format as an NCP profile. A
/// provisioning file is never a profile, and an error is that of the importer.
pub proof fn law_file_is_read_by_its_importer(format: Format, text: Seq<char>)
    ensures
        loaded_as(None, text) == (match ncp::import::imported(text) {
            Ok(p) => Ok::<LoadedView, LoadErrorView>(LoadedView::Profile(p)),
            Err(e) => Err(LoadErrorView::Ncp(e)),
        }),
        format == Format::Provisioning ==> loaded_as(Some(format), text) == (
        match provisioning_text(text) {
            Ok(v) => Ok::<LoadedView, LoadErrorView>(LoadedView::Provisioning(v)),
            Err(e) => Err(LoadErrorView::Sophos(e)),
        }),
        format != Format::Provisioning ==> loaded_as(Some(format), text) == (
        match imported_as(Some(format), text) {
            Ok(p) => Ok::<LoadedView, LoadErrorView>(LoadedView::Profile(p)),
            Err(e) => Err(LoadErrorView::Sophos(e)),
        }),
{
}

} // verus!
