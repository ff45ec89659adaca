//! The connection model: what every importer produces and every backend consumes.

use crate::ipv4::{Ipv4Addr, Ipv4Net};
use crate::text::{same, views};
use vstd::prelude::*;

verus! {

/// A pre-shared key or other secret. The plaintext is reachable through
/// [`Secret::expose`] alone; nothing that is meant for a screen or a log shows it.
pub struct Secret(String);

impl View for Secret {
    type V = Seq<char>;

    closed spec fn view(&self) -> Seq<char> {
        self.0@
    }
}

impl Secret {
    pub fn new(value: String) -> (r: Secret)
        ensures
            r@ == value@,
    {
        Secret(value)
    }

    /// The plaintext. Callers must not log it or persist it outside the generated backend
    /// configuration.
    pub fn expose(&self) -> (r: &str)
        ensures
            r@ == self@,
    {
        self.0.as_str()
    }

    /// What is shown in place of the secret: the same for every secret.
    pub fn display(&self) -> (r: &'static str)
        ensures
            r@ == "***REDACTED***"@,
    {
        "***REDACTED***"
    }

    /// What a dump holds in place of the secret: the same for every secret.
    pub fn debug_text(&self) -> (r: &'static str)
        ensures
            r@ == "Secret(***REDACTED***)"@,
    {
        "Secret(***REDACTED***)"
    }
}

#[derive(Debug, Clone, Copy, PartialEq, Eq, Structural)]
pub enum EncAlg {
    Aes128,
    Aes192,
    Aes256,
}

impl EncAlg {
    /// Every value, in the order a picker should offer them.
    pub const ALL: [EncAlg; 3] = [EncAlg::Aes128, EncAlg::Aes192, EncAlg::Aes256];

    /// The strongSwan token.
    pub open spec fn token(self) -> Seq<char> {
        match self {
            EncAlg::Aes128 => "aes128"@,
            EncAlg::Aes192 => "aes192"@,
            EncAlg::Aes256 => "aes256"@,
        }
    }

    pub fn swanctl_name(self) -> (r: &'static str)
        ensures
            r@ == self.token(),
    {
        match self {
            EncAlg::Aes128 => "aes128",
            EncAlg::Aes192 => "aes192",
            EncAlg::Aes256 => "aes256",
        }
    }

    /// Inverse of [`EncAlg::swanctl_name`].
    pub fn from_swanctl_name(name: &str) -> (r: Option<EncAlg>)
        ensures
            match r {
                Some(a) => a.token() == name@,
                None => forall|a: EncAlg| a.token() != name@,
            },
    {
        if same(name, "aes128") {
            Some(EncAlg::Aes128)
        } else if same(name, "aes192") {
            Some(EncAlg::Aes192)
        } else if same(name, "aes256") {
            Some(EncAlg::Aes256)
        } else {
            None
        }
    }
}

#[derive(Debug, Clone, Copy, PartialEq, Eq, Structural)]
pub enum IntegAlg {
    Sha1,
    Sha256,
    Sha384,
    Sha512,
}

impl IntegAlg {
    pub const ALL: [IntegAlg; 4] = [
        IntegAlg::Sha1,
        IntegAlg::Sha256,
        IntegAlg::Sha384,
        IntegAlg::Sha512,
    ];

    /// The modern algorithms, strongest first: the pool that a proposal fallback may draw
    /// on. SHA-1 is absent: an alternative never lets a gateway pick something weaker.
    pub const AT_LEAST_SHA256: [IntegAlg; 3] = [
        IntegAlg::Sha512,
        IntegAlg::Sha384,
        IntegAlg::Sha256,
    ];

    /// The strongSwan token.
    pub open spec fn token(self) -> Seq<char> {
        match self {
            IntegAlg::Sha1 => "sha1"@,
            IntegAlg::Sha256 => "sha256"@,
            IntegAlg::Sha384 => "sha384"@,
            IntegAlg::Sha512 => "sha512"@,
        }
    }

    /// The output size in bits.
    pub open spec fn bits(self) -> int {
        match self {
            IntegAlg::Sha1 => 160,
            IntegAlg::Sha256 => 256,
            IntegAlg::Sha384 => 384,
            IntegAlg::Sha512 => 512,
        }
    }

    /// The PRF on the same hash.
    pub open spec fn prf(self) -> PrfAlg {
        match self {
            IntegAlg::Sha1 => PrfAlg::Sha1,
            IntegAlg::Sha256 => PrfAlg::Sha256,
            IntegAlg::Sha384 => PrfAlg::Sha384,
            IntegAlg::Sha512 => PrfAlg::Sha512,
        }
    }

    pub fn swanctl_name(self) -> (r: &'static str)
        ensures
            r@ == self.token(),
    {
        match self {
            IntegAlg::Sha1 => "sha1",
            IntegAlg::Sha256 => "sha256",
            IntegAlg::Sha384 => "sha384",
            IntegAlg::Sha512 => "sha512",
        }
    }

    pub fn from_swanctl_name(name: &str) -> (r: Option<IntegAlg>)
        ensures
            match r {
                Some(a) => a.token() == name@,
                None => forall|a: IntegAlg| a.token() != name@,
            },
    {
        if same(name, "sha1") {
            Some(IntegAlg::Sha1)
        } else if same(name, "sha256") {
            Some(IntegAlg::Sha256)
        } else if same(name, "sha384") {
            Some(IntegAlg::Sha384)
        } else if same(name, "sha512") {
            Some(IntegAlg::Sha512)
        } else {
            None
        }
    }

    /// Ordering for "is this alternative at least as strong?": the output size.
    pub fn strength(self) -> (r: u16)
        ensures
            r == self.bits(),
    {
        match self {
            IntegAlg::Sha1 => 160,
            IntegAlg::Sha256 => 256,
            IntegAlg::Sha384 => 384,
            IntegAlg::Sha512 => 512,
        }
    }

    /// The PRF conventionally paired with this hash.
    pub fn matching_prf(self) -> (r: PrfAlg)
        ensures
            r == self.prf(),
    {
        match self {
            IntegAlg::Sha1 => PrfAlg::Sha1,
            IntegAlg::Sha256 => PrfAlg::Sha256,
            IntegAlg::Sha384 => PrfAlg::Sha384,
            IntegAlg::Sha512 => PrfAlg::Sha512,
        }
    }
}

#[derive(Debug, Clone, Copy, PartialEq, Eq, Structural)]
pub enum PrfAlg {
    Sha1,
    Sha256,
    Sha384,
    Sha512,
}

impl PrfAlg {
    pub const ALL: [PrfAlg; 4] = [PrfAlg::Sha1, PrfAlg::Sha256, PrfAlg::Sha384, PrfAlg::Sha512];

    /// The strongSwan token.
    pub open spec fn token(self) -> Seq<char> {
        match self {
            PrfAlg::Sha1 => "prfsha1"@,
            PrfAlg::Sha256 => "prfsha256"@,
            PrfAlg::Sha384 => "prfsha384"@,
            PrfAlg::Sha512 => "prfsha512"@,
        }
    }

    pub fn swanctl_name(self) -> (r: &'static str)
        ensures
            r@ == self.token(),
    {
        match self {
            PrfAlg::Sha1 => "prfsha1",
            PrfAlg::Sha256 => "prfsha256",
            PrfAlg::Sha384 => "prfsha384",
            PrfAlg::Sha512 => "prfsha512",
        }
    }

    pub fn from_swanctl_name(name: &str) -> (r: Option<PrfAlg>)
        ensures
            match r {
                Some(a) => a.token() == name@,
                None => forall|a: PrfAlg| a.token() != name@,
            },
    {
        if same(name, "prfsha1") {
            Some(PrfAlg::Sha1)
        } else if same(name, "prfsha256") {
            Some(PrfAlg::Sha256)
        } else if same(name, "prfsha384") {
            Some(PrfAlg::Sha384)
        } else if same(name, "prfsha512") {
            Some(PrfAlg::Sha512)
        } else {
            None
        }
    }
}

/// IKE Diffie-Hellman groups, named by their IANA transform: groups 2, 5, 14, 15, 16, 19
/// and 20.
#[derive(Debug, Clone, Copy, PartialEq, Eq, Structural)]
pub enum DhGroup {
    Modp1024,
    Modp1536,
    Modp2048,
    Modp3072,
    Modp4096,
    Ecp256,
    Ecp384,
}

impl DhGroup {
    pub const ALL: [DhGroup; 7] = [
        DhGroup::Modp1024,
        DhGroup::Modp1536,
        DhGroup::Modp2048,
        DhGroup::Modp3072,
        DhGroup::Modp4096,
        DhGroup::Ecp256,
        DhGroup::Ecp384,
    ];

    /// The IANA group number.
    pub open spec fn iana(self) -> int {
        match self {
            DhGroup::Modp1024 => 2,
            DhGroup::Modp1536 => 5,
            DhGroup::Modp2048 => 14,
            DhGroup::Modp3072 => 15,
            DhGroup::Modp4096 => 16,
            DhGroup::Ecp256 => 19,
            DhGroup::Ecp384 => 20,
        }
    }

    /// The group with an IANA number.
    pub open spec fn of_iana(id: int) -> Option<DhGroup> {
        if id == 2 {
            Some(DhGroup::Modp1024)
        } else if id == 5 {
            Some(DhGroup::Modp1536)
        } else if id == 14 {
            Some(DhGroup::Modp2048)
        } else if id == 15 {
            Some(DhGroup::Modp3072)
        } else if id == 16 {
            Some(DhGroup::Modp4096)
        } else if id == 19 {
            Some(DhGroup::Ecp256)
        } else if id == 20 {
            Some(DhGroup::Ecp384)
        } else {
            None
        }
    }

    /// The strongSwan token.
    pub open spec fn token(self) -> Seq<char> {
        match self {
            DhGroup::Modp1024 => "modp1024"@,
            DhGroup::Modp1536 => "modp1536"@,
            DhGroup::Modp2048 => "modp2048"@,
            DhGroup::Modp3072 => "modp3072"@,
            DhGroup::Modp4096 => "modp4096"@,
            DhGroup::Ecp256 => "ecp256"@,
            DhGroup::Ecp384 => "ecp384"@,
        }
    }

    /// The modp size that the group is comparable to.
    pub open spec fn bits(self) -> int {
        match self {
            DhGroup::Modp1024 => 1024,
            DhGroup::Modp1536 => 1536,
            DhGroup::Modp2048 => 2048,
            DhGroup::Ecp256 => 3072,
            DhGroup::Modp3072 => 3072,
            DhGroup::Ecp384 => 4096,
            DhGroup::Modp4096 => 4096,
        }
    }

    pub fn from_iana(id: u32) -> (r: Option<DhGroup>)
        ensures
            r == DhGroup::of_iana(id as int),
            match r {
                Some(g) => g.iana() == id,
                None => forall|g: DhGroup| g.iana() != id,
            },
    {
        if id == 2 {
            Some(DhGroup::Modp1024)
        } else if id == 5 {
            Some(DhGroup::Modp1536)
        } else if id == 14 {
            Some(DhGroup::Modp2048)
        } else if id == 15 {
            Some(DhGroup::Modp3072)
        } else if id == 16 {
            Some(DhGroup::Modp4096)
        } else if id == 19 {
            Some(DhGroup::Ecp256)
        } else if id == 20 {
            Some(DhGroup::Ecp384)
        } else {
            None
        }
    }

    pub fn swanctl_name(self) -> (r: &'static str)
        ensures
            r@ == self.token(),
    {
        match self {
            DhGroup::Modp1024 => "modp1024",
            DhGroup::Modp1536 => "modp1536",
            DhGroup::Modp2048 => "modp2048",
            DhGroup::Modp3072 => "modp3072",
            DhGroup::Modp4096 => "modp4096",
            DhGroup::Ecp256 => "ecp256",
            DhGroup::Ecp384 => "ecp384",
        }
    }

    pub fn from_swanctl_name(name: &str) -> (r: Option<DhGroup>)
        ensures
            match r {
                Some(a) => a.token() == name@,
                None => forall|a: DhGroup| a.token() != name@,
            },
    {
        if same(name, "modp1024") {
            Some(DhGroup::Modp1024)
        } else if same(name, "modp1536") {
            Some(DhGroup::Modp1536)
        } else if same(name, "modp2048") {
            Some(DhGroup::Modp2048)
        } else if same(name, "modp3072") {
            Some(DhGroup::Modp3072)
        } else if same(name, "modp4096") {
            Some(DhGroup::Modp4096)
        } else if same(name, "ecp256") {
            Some(DhGroup::Ecp256)
        } else if same(name, "ecp384") {
            Some(DhGroup::Ecp384)
        } else {
            None
        }
    }

    /// Rough comparable strength, so that an offered alternative is never weaker than what
    /// the profile asked for.
    pub fn strength(self) -> (r: u16)
        ensures
            r == self.bits(),
    {
        match self {
            DhGroup::Modp1024 => 1024,
            DhGroup::Modp1536 => 1536,
            DhGroup::Modp2048 => 2048,
            DhGroup::Ecp256 => 3072,
            DhGroup::Modp3072 => 3072,
            DhGroup::Ecp384 => 4096,
            DhGroup::Modp4096 => 4096,
        }
    }
}

/// How the peer authenticates.
pub enum AuthMethod {
    PresharedKey(Secret),
}

/// Which IKE version a profile speaks.
///
/// NCP exports and Sophos `.scx` are IKEv2. The legacy `.tgb` export is IKEv1: it describes
/// a main-mode phase 1 and a quick-mode phase 2.
#[derive(Debug, Clone, Copy, PartialEq, Eq, Structural)]
pub enum IkeVersion {
    V1,
    V2,
}

impl IkeVersion {
    pub const ALL: [IkeVersion; 2] = [IkeVersion::V2, IkeVersion::V1];

    /// The stable name.
    pub open spec fn label(self) -> Seq<char> {
        match self {
            IkeVersion::V1 => "ikev1"@,
            IkeVersion::V2 => "ikev2"@,
        }
    }

    /// The digit of the version.
    pub open spec fn digit(self) -> Seq<char> {
        match self {
            IkeVersion::V1 => "1"@,
            IkeVersion::V2 => "2"@,
        }
    }

    /// The value that strongSwan expects for `version` (`1` or `2`).
    pub fn swanctl_value(self) -> (r: &'static str)
        ensures
            r@ == self.digit(),
    {
        match self {
            IkeVersion::V1 => "1",
            IkeVersion::V2 => "2",
        }
    }

    /// Stable name for the override file and the UI.
    pub fn name(self) -> (r: &'static str)
        ensures
            r@ == self.label(),
    {
        match self {
            IkeVersion::V1 => "ikev1",
            IkeVersion::V2 => "ikev2",
        }
    }

    pub fn from_name(name: &str) -> (r: Option<IkeVersion>)
        ensures
            match r {
                Some(v) => v.label() == name@,
                None => forall|v: IkeVersion| v.label() != name@,
            },
    {
        if same(name, "ikev1") {
            Some(IkeVersion::V1)
        } else if same(name, "ikev2") {
            Some(IkeVersion::V2)
        } else {
            None
        }
    }
}

/// A text that may be absent.
pub open spec fn opt_view(o: Option<String>) -> Option<Seq<char>> {
    match o {
        Some(s) => Some(s@),
        None => None,
    }
}

/// A second, interactive authentication round on top of the pre-shared key: XAuth under
/// IKEv1, EAP under IKEv2. The profile carries whether it is required; the user name and
/// password belong to the person connecting.
#[derive(Debug, Clone)]
pub struct UserAuth {
    /// User name, when one is known. `None` means it must be asked for.
    pub username: Option<String>,
    /// Whether the gateway lets the client save the credentials.
    pub can_save: bool,
    /// The gateway expects a one-time password as well, so that a saved password alone does
    /// not authenticate.
    pub otp: bool,
}

/// The content of a [`UserAuth`].
pub struct UserAuthView {
    pub username: Option<Seq<char>>,
    pub can_save: bool,
    pub otp: bool,
}

impl View for UserAuth {
    type V = UserAuthView;

    open spec fn view(&self) -> UserAuthView {
        UserAuthView {
            username: opt_view(self.username),
            can_save: self.can_save,
            otp: self.otp,
        }
    }
}

impl Default for UserAuth {
    fn default() -> (r: UserAuth)
        ensures
            r@ == (UserAuthView { username: None, can_save: false, otp: false }),
    {
        UserAuth { username: None, can_save: false, otp: false }
    }
}

/// The IKE identity type that a profile declares. It gives a strongSwan-typed identity, so
/// that charon presents the type the peer expects instead of inferring it from the string.
#[derive(Debug, Clone, Copy, PartialEq, Eq, Structural)]
pub enum IkeIdType {
    /// An IPv4 address literal (inferred correctly, no prefix needed).
    Ipv4,
    /// A DNS name (`fqdn:`).
    Fqdn,
    /// An RFC822 or USER_FQDN address (`rfc822:`).
    Rfc822,
    /// An opaque key id (`keyid:`).
    KeyId,
}

impl IkeIdType {
    pub const ALL: [IkeIdType; 4] = [
        IkeIdType::Ipv4,
        IkeIdType::Fqdn,
        IkeIdType::Rfc822,
        IkeIdType::KeyId,
    ];

    /// The stable name.
    pub open spec fn label(self) -> Seq<char> {
        match self {
            IkeIdType::Ipv4 => "ipv4"@,
            IkeIdType::Fqdn => "fqdn"@,
            IkeIdType::Rfc822 => "rfc822"@,
            IkeIdType::KeyId => "keyid"@,
        }
    }

    /// The strongSwan identity prefix, which doubles as the stable name of the type.
    pub fn name(self) -> (r: &'static str)
        ensures
            r@ == self.label(),
    {
        match self {
            IkeIdType::Ipv4 => "ipv4",
            IkeIdType::Fqdn => "fqdn",
            IkeIdType::Rfc822 => "rfc822",
            IkeIdType::KeyId => "keyid",
        }
    }

    pub fn from_name(name: &str) -> (r: Option<IkeIdType>)
        ensures
            match r {
                Some(t) => t.label() == name@,
                None => forall|t: IkeIdType| t.label() != name@,
            },
    {
        if same(name, "ipv4") {
            Some(IkeIdType::Ipv4)
        } else if same(name, "fqdn") {
            Some(IkeIdType::Fqdn)
        } else if same(name, "rfc822") {
            Some(IkeIdType::Rfc822)
        } else if same(name, "keyid") {
            Some(IkeIdType::KeyId)
        } else {
            None
        }
    }
}

/// DNS behaviour for a connection.
///
/// `servers` are the resolvers reachable over the tunnel. With `domain` set, only names
/// under it go to those servers; otherwise they become the resolvers of the interface while
/// the tunnel is up.
#[derive(Debug, Clone)]
pub struct DnsConfig {
    pub servers: Vec<Ipv4Addr>,
    pub domain: Option<String>,
}

/// The content of a [`DnsConfig`].
pub struct DnsView {
    pub servers: Seq<Ipv4Addr>,
    pub domain: Option<Seq<char>>,
}

impl View for DnsConfig {
    type V = DnsView;

    open spec fn view(&self) -> DnsView {
        DnsView { servers: self.servers@, domain: opt_view(self.domain) }
    }
}

impl Default for DnsConfig {
    fn default() -> (r: DnsConfig)
        ensures
            r@ == (DnsView { servers: Seq::empty(), domain: None }),
    {
        DnsConfig { servers: Vec::new(), domain: None }
    }
}

impl DnsConfig {
    /// Nothing to configure.
    pub fn is_empty(&self) -> (r: bool)
        ensures
            r == (self@.servers.len() == 0),
    {
        self.servers.len() == 0
    }
}

/// Dead-peer detection and reconnect policy.
#[derive(Debug, Clone, Copy, PartialEq, Eq, Structural)]
pub struct DpdConfig {
    /// Liveness-probe interval in seconds. `0` disables probing.
    pub delay_secs: u32,
    /// Re-establish the SA when the peer is declared dead or closes the tunnel.
    pub auto_reconnect: bool,
}

impl Default for DpdConfig {
    /// Probes every 30 seconds and reconnects.
    fn default() -> (r: DpdConfig)
        ensures
            r == (DpdConfig { delay_secs: 30, auto_reconnect: true }),
    {
        DpdConfig { delay_secs: 30, auto_reconnect: true }
    }
}

/// The connection configuration, independent of the format it came from.
pub struct ConnectionConfig {
    /// Display name; also used (sanitized) as the swanctl connection name.
    pub name: String,
    /// Gateway FQDN or IP address.
    pub gateway: String,
    /// Local IKE identity. `None` means that it derives from the local address.
    pub local_id: Option<String>,
    /// The IKE ID type declared for `local_id`. `None` lets charon infer it.
    pub local_id_type: Option<IkeIdType>,
    pub auth: AuthMethod,
    /// IKE version to negotiate.
    pub ike_version: IkeVersion,
    /// Second authentication round, when the gateway demands one.
    pub user_auth: Option<UserAuth>,
    /// IKE (phase 1) proposal.
    pub ike_enc: EncAlg,
    pub ike_integ: IntegAlg,
    pub ike_prf: PrfAlg,
    pub ike_dh: DhGroup,
    /// ESP (phase 2) proposal.
    pub esp_enc: EncAlg,
    pub esp_integ: IntegAlg,
    /// PFS group for rekeying; `None` disables PFS.
    pub pfs: Option<DhGroup>,
    /// Remote traffic selectors (protected subnets behind the gateway).
    pub remote_subnets: Vec<Ipv4Net>,
    /// Request a server-assigned virtual IP.
    pub request_virtual_ip: bool,
    /// IPComp compression.
    pub compression: bool,
    /// Dead-peer detection and reconnect behaviour.
    pub dpd: DpdConfig,
    /// DNS to use while the tunnel is up.
    pub dns: DnsConfig,
}

/// The content of a [`ConnectionConfig`].
pub struct ConfigView {
    pub name: Seq<char>,
    pub gateway: Seq<char>,
    pub local_id: Option<Seq<char>>,
    pub local_id_type: Option<IkeIdType>,
    pub secret: Seq<char>,
    pub ike_version: IkeVersion,
    pub user_auth: Option<UserAuthView>,
    pub ike_enc: EncAlg,
    pub ike_integ: IntegAlg,
    pub ike_prf: PrfAlg,
    pub ike_dh: DhGroup,
    pub esp_enc: EncAlg,
    pub esp_integ: IntegAlg,
    pub pfs: Option<DhGroup>,
    pub remote_subnets: Seq<Ipv4Net>,
    pub request_virtual_ip: bool,
    pub compression: bool,
    pub dpd: DpdConfig,
    pub dns: DnsView,
}

impl View for ConnectionConfig {
    type V = ConfigView;

    open spec fn view(&self) -> ConfigView {
        ConfigView {
            name: self.name@,
            gateway: self.gateway@,
            local_id: opt_view(self.local_id),
            local_id_type: self.local_id_type,
            secret: match self.auth {
                AuthMethod::PresharedKey(s) => s@,
            },
            ike_version: self.ike_version,
            user_auth: match self.user_auth {
                Some(u) => Some(u@),
                None => None,
            },
            ike_enc: self.ike_enc,
            ike_integ: self.ike_integ,
            ike_prf: self.ike_prf,
            ike_dh: self.ike_dh,
            esp_enc: self.esp_enc,
            esp_integ: self.esp_integ,
            pfs: self.pfs,
            remote_subnets: self.remote_subnets@,
            request_virtual_ip: self.request_virtual_ip,
            compression: self.compression,
            dpd: self.dpd,
            dns: self.dns@,
        }
    }
}

/// The text of an IKE proposal. IKEv1 has no separate PRF transform: it derives the PRF
/// from the negotiated hash, so that the term is left out there.
pub open spec fn ike_text(
    version: IkeVersion,
    enc: EncAlg,
    integ: IntegAlg,
    prf: PrfAlg,
    dh: DhGroup,
) -> Seq<char> {
    match version {
        IkeVersion::V1 => enc.token() + "-"@ + integ.token() + "-"@ + dh.token(),
        IkeVersion::V2 => enc.token() + "-"@ + integ.token() + "-"@ + prf.token() + "-"@
            + dh.token(),
    }
}

/// The text of an ESP proposal; the group is there only with PFS.
pub open spec fn esp_text(enc: EncAlg, integ: IntegAlg, pfs: Option<DhGroup>) -> Seq<char> {
    match pfs {
        Some(g) => enc.token() + "-"@ + integ.token() + "-"@ + g.token(),
        None => enc.token() + "-"@ + integ.token(),
    }
}

/// `seen` with `p` at its end, unless it is there already.
pub open spec fn push_new(seen: Seq<Seq<char>>, p: Seq<char>) -> Seq<Seq<char>> {
    if seen.contains(p) {
        seen
    } else {
        seen.push(p)
    }
}

impl ConfigView {
    /// The same connection under another IKE version.
    pub open spec fn at_version(self, version: IkeVersion) -> ConfigView {
        ConfigView { ike_version: version, ..self }
    }

    pub open spec fn ike_proposal(self) -> Seq<char> {
        ike_text(self.ike_version, self.ike_enc, self.ike_integ, self.ike_prf, self.ike_dh)
    }

    pub open spec fn esp_proposal(self) -> Seq<char> {
        esp_text(self.esp_enc, self.esp_integ, self.pfs)
    }

    /// The hash of the `k`-th alternative.
    pub open spec fn alt_integ(self, k: int) -> IntegAlg {
        if k / 3 == 0 {
            IntegAlg::Sha512
        } else if k / 3 == 1 {
            IntegAlg::Sha384
        } else {
            IntegAlg::Sha256
        }
    }

    /// The group of the `k`-th alternative.
    pub open spec fn alt_dh(self, k: int) -> DhGroup {
        if k % 3 == 0 {
            self.ike_dh
        } else if k % 3 == 1 {
            DhGroup::Modp3072
        } else {
            DhGroup::Modp2048
        }
    }

    /// Whether the `k`-th alternative may be offered: it is not the profile's own choice
    /// and lowers neither the hash nor the group.
    pub open spec fn alt_allowed(self, k: int) -> bool {
        &&& !(self.alt_integ(k) == self.ike_integ && self.alt_dh(k) == self.ike_dh)
        &&& self.alt_dh(k).bits() >= self.ike_dh.bits()
        &&& self.alt_integ(k).bits() >= self.ike_integ.bits()
    }

    /// The proposal of the `k`-th alternative.
    pub open spec fn alt_text(self, k: int) -> Seq<char> {
        ike_text(
            self.ike_version,
            self.ike_enc,
            self.alt_integ(k),
            self.alt_integ(k).prf(),
            self.alt_dh(k),
        )
    }

    /// The profile's own proposal and what the first `k` alternatives add to it.
    pub open spec fn ike_offer(self, k: int) -> Seq<Seq<char>>
        decreases k,
    {
        if k <= 0 {
            seq![self.ike_proposal()]
        } else if self.alt_allowed(k - 1) {
            push_new(self.ike_offer(k - 1), self.alt_text(k - 1))
        } else {
            self.ike_offer(k - 1)
        }
    }

    /// Everything to offer for the IKE SA.
    pub open spec fn ike_proposals(self) -> Seq<Seq<char>> {
        self.ike_offer(9)
    }

    /// The profile's own ESP proposal and what the first `k` hashes add to it.
    pub open spec fn esp_offer(self, k: int) -> Seq<Seq<char>>
        decreases k,
    {
        if k <= 0 {
            seq![self.esp_proposal()]
        } else {
            let integ = self.alt_integ(3 * (k - 1));
            if integ != self.esp_integ && integ.bits() >= self.esp_integ.bits() {
                push_new(self.esp_offer(k - 1), esp_text(self.esp_enc, integ, self.pfs))
            } else {
                self.esp_offer(k - 1)
            }
        }
    }

    /// Everything to offer for the CHILD_SA.
    pub open spec fn esp_proposals(self) -> Seq<Seq<char>> {
        self.esp_offer(3)
    }

    /// The local identity as strongSwan should parse it.
    pub open spec fn local_id_wire(self) -> Option<Seq<char>> {
        match self.local_id {
            None => None,
            Some(id) => match self.local_id_type {
                Some(IkeIdType::Fqdn) => Some("fqdn:"@ + id),
                Some(IkeIdType::Rfc822) => Some("rfc822:"@ + id),
                Some(IkeIdType::KeyId) => Some("keyid:"@ + id),
                _ => Some(id),
            },
        }
    }
}

/// Whether a list of strings holds a text.
pub fn holds(v: &Vec<String>, s: &str) -> (r: bool)
    ensures
        r == views(v@).contains(s@),
{
    let mut i: usize = 0;
    while i < v.len()
        invariant
            i <= v@.len(),
            forall|k: int| 0 <= k < i ==> views(v@)[k] != s@,
        decreases v@.len() - i,
    {
        if same(v[i].as_str(), s) {
            assert(views(v@)[i as int] == s@);
            return true;
        }
        i = i + 1;
    }
    false
}

fn add_new(v: &mut Vec<String>, p: String)
    ensures
        views(final(v)@) == push_new(views(old(v)@), p@),
{
    if !holds(v, p.as_str()) {
        v.push(p);
        assert(views(v@) =~= views(old(v)@).push(p@));
    }
}

fn ike_string(
    version: IkeVersion,
    enc: EncAlg,
    integ: IntegAlg,
    prf: PrfAlg,
    dh: DhGroup,
) -> (r: String)
    ensures
        r@ == ike_text(version, enc, integ, prf, dh),
{
    let mut s = enc.swanctl_name().to_owned();
    s.append("-");
    s.append(integ.swanctl_name());
    s.append("-");
    if let IkeVersion::V2 = version {
        s.append(prf.swanctl_name());
        s.append("-");
    }
    s.append(dh.swanctl_name());
    s
}

fn esp_string(enc: EncAlg, integ: IntegAlg, pfs: Option<DhGroup>) -> (r: String)
    ensures
        r@ == esp_text(enc, integ, pfs),
{
    let mut s = enc.swanctl_name().to_owned();
    s.append("-");
    s.append(integ.swanctl_name());
    if let Some(g) = pfs {
        s.append("-");
        s.append(g.swanctl_name());
    }
    s
}

impl ConnectionConfig {
    /// IKE (phase 1) proposal string, such as `aes256-sha256-prfsha256-modp3072`.
    pub fn ike_proposal(&self) -> (r: String)
        ensures
            r@ == self@.ike_proposal(),
    {
        ike_string(self.ike_version, self.ike_enc, self.ike_integ, self.ike_prf, self.ike_dh)
    }

    /// Everything to offer for the IKE SA: the profile's own proposal first, then stronger
    /// variants of it.
    ///
    /// An export has been seen that states a hash its own gateway does not accept.
    /// Offering a handful of alternatives lets the gateway pick. The alternatives only
    /// raise the hash and the group, and never change the cipher.
    pub fn ike_proposals(&self) -> (r: Vec<String>)
        ensures
            views(r@) == self@.ike_proposals(),
    {
        assert(self@.at_version(self.ike_version) == self@);
        self.ike_proposals_for(self.ike_version)
    }

    /// Everything to offer for the IKE SA under the given IKE version.
    pub fn ike_proposals_for(&self, version: IkeVersion) -> (r: Vec<String>)
        ensures
            views(r@) == self@.at_version(version).ike_proposals(),
    {
        let ghost c = self@.at_version(version);
        let mut out: Vec<String> = Vec::new();
        out.push(
            ike_string(version, self.ike_enc, self.ike_integ, self.ike_prf, self.ike_dh),
        );
        assert(views(out@) =~= c.ike_offer(0));
        let mut i: usize = 0;
        while i < 3
            invariant
                i <= 3,
                c == self@.at_version(version),
                views(out@) == c.ike_offer(3 * i),
            decreases 3 - i,
        {
            let integ = IntegAlg::AT_LEAST_SHA256[i];
            let dhs = [self.ike_dh, DhGroup::Modp3072, DhGroup::Modp2048];
            let mut j: usize = 0;
            while j < 3
                invariant
                    i < 3,
                    j <= 3,
                    c == self@.at_version(version),
                    integ == c.alt_integ(3 * i),
                    dhs@ == seq![self.ike_dh, DhGroup::Modp3072, DhGroup::Modp2048],
                    views(out@) == c.ike_offer(3 * i + j),
                decreases 3 - j,
            {
                let dh = dhs[j];
                let ghost k = 3 * i + j;
                assert(k / 3 == i && k % 3 == j) by (nonlinear_arith)
                    requires
                        k == 3 * i + j,
                        0 <= j < 3,
                ;
                assert(dh == c.alt_dh(k));
                assert(integ == c.alt_integ(k));
                if !(integ == self.ike_integ && dh == self.ike_dh) && dh.strength()
                    >= self.ike_dh.strength() && integ.strength() >= self.ike_integ.strength() {
                    let p = ike_string(
                        version,
                        self.ike_enc,
                        integ,
                        integ.matching_prf(),
                        dh,
                    );
                    add_new(&mut out, p);
                }
                j = j + 1;
            }
            i = i + 1;
        }
        out
    }

    /// The same for the CHILD_SA: the profile's ESP proposal, then stronger hashes. The PFS
    /// group is left alone.
    pub fn esp_proposals(&self) -> (r: Vec<String>)
        ensures
            views(r@) == self@.esp_proposals(),
    {
        let mut out: Vec<String> = Vec::new();
        out.push(self.esp_proposal());
        assert(views(out@) =~= self@.esp_offer(0));
        let mut i: usize = 0;
        while i < 3
            invariant
                i <= 3,
                views(out@) == self@.esp_offer(i as int),
            decreases 3 - i,
        {
            let integ = IntegAlg::AT_LEAST_SHA256[i];
            assert(integ == self@.alt_integ(3 * i));
            if integ != self.esp_integ && integ.strength() >= self.esp_integ.strength() {
                add_new(&mut out, esp_string(self.esp_enc, integ, self.pfs));
            }
            i = i + 1;
        }
        out
    }

    /// The local IKE identity as strongSwan should parse it: a typed prefix forces the ID
    /// type, so that a bare token is presented as what the gateway expects rather than an
    /// inferred FQDN.
    pub fn local_id_wire(&self) -> (r: Option<String>)
        ensures
            opt_view(r) == self@.local_id_wire(),
    {
        match &self.local_id {
            None => None,
            Some(id) => {
                let mut s = match self.local_id_type {
                    Some(IkeIdType::Fqdn) => "fqdn:".to_owned(),
                    Some(IkeIdType::Rfc822) => "rfc822:".to_owned(),
                    Some(IkeIdType::KeyId) => "keyid:".to_owned(),
                    _ => {
                        return Some(id.clone());
                    },
                };
                s.append(id.as_str());
                Some(s)
            },
        }
    }

    /// ESP (phase 2) proposal string, such as `aes256-sha256-modp3072`.
    pub fn esp_proposal(&self) -> (r: String)
        ensures
            r@ == self@.esp_proposal(),
    {
        esp_string(self.esp_enc, self.esp_integ, self.pfs)
    }
}

/// No two ciphers share a strongSwan name: reading a name back gives the cipher that wrote it.
pub proof fn law_token_tells_encalg_apart(a: EncAlg, b: EncAlg)
    requires
        a.token() == b.token(),
    ensures
        a == b,
{
    reveal_strlit("aes128");
    reveal_strlit("aes192");
    reveal_strlit("aes256");
    assert("aes128"@.len() == 6 && "aes128"@[0] == 'a' && "aes128"@[1] == 'e' && "aes128"@[2] == 's' && "aes128"@[3] == '1' && "aes128"@[4] == '2' && "aes128"@[5] == '8');
    assert("aes192"@.len() == 6 && "aes192"@[0] == 'a' && "aes192"@[1] == 'e' && "aes192"@[2] == 's' && "aes192"@[3] == '1' && "aes192"@[4] == '9' && "aes192"@[5] == '2');
    assert("aes256"@.len() == 6 && "aes256"@[0] == 'a' && "aes256"@[1] == 'e' && "aes256"@[2] == 's' && "aes256"@[3] == '2' && "aes256"@[4] == '5' && "aes256"@[5] == '6');
}

/// No two hashes share a strongSwan name: reading a name back gives the hash that wrote it.
pub proof fn law_token_tells_integalg_apart(a: IntegAlg, b: IntegAlg)
    requires
        a.token() == b.token(),
    ensures
        a == b,
{
    reveal_strlit("sha1");
    reveal_strlit("sha256");
    reveal_strlit("sha384");
    reveal_strlit("sha512");
    assert("sha1"@.len() == 4 && "sha1"@[0] == 's' && "sha1"@[1] == 'h' && "sha1"@[2] == 'a' && "sha1"@[3] == '1');
    assert("sha256"@.len() == 6 && "sha256"@[0] == 's' && "sha256"@[1] == 'h' && "sha256"@[2] == 'a' && "sha256"@[3] == '2' && "sha256"@[4] == '5' && "sha256"@[5] == '6');
    assert("sha384"@.len() == 6 && "sha384"@[0] == 's' && "sha384"@[1] == 'h' && "sha384"@[2] == 'a' && "sha384"@[3] == '3' && "sha384"@[4] == '8' && "sha384"@[5] == '4');
    assert("sha512"@.len() == 6 && "sha512"@[0] == 's' && "sha512"@[1] == 'h' && "sha512"@[2] == 'a' && "sha512"@[3] == '5' && "sha512"@[4] == '1' && "sha512"@[5] == '2');
}

/// No two pseudo-random functions share a strongSwan name: reading a name back gives the function that wrote it.
pub proof fn law_token_tells_prfalg_apart(a: PrfAlg, b: PrfAlg)
    requires
        a.token() == b.token(),
    ensures
        a == b,
{
    reveal_strlit("prfsha1");
    reveal_strlit("prfsha256");
    reveal_strlit("prfsha384");
    reveal_strlit("prfsha512");
    assert("prfsha1"@.len() == 7 && "prfsha1"@[0] == 'p' && "prfsha1"@[1] == 'r' && "prfsha1"@[2] == 'f' && "prfsha1"@[3] == 's' && "prfsha1"@[4] == 'h' && "prfsha1"@[5] == 'a' && "prfsha1"@[6] == '1');
    assert("prfsha256"@.len() == 9 && "prfsha256"@[0] == 'p' && "prfsha256"@[1] == 'r' && "prfsha256"@[2] == 'f' && "prfsha256"@[3] == 's' && "prfsha256"@[4] == 'h' && "prfsha256"@[5] == 'a' && "prfsha256"@[6] == '2' && "prfsha256"@[7] == '5' && "prfsha256"@[8] == '6');
    assert("prfsha384"@.len() == 9 && "prfsha384"@[0] == 'p' && "prfsha384"@[1] == 'r' && "prfsha384"@[2] == 'f' && "prfsha384"@[3] == 's' && "prfsha384"@[4] == 'h' && "prfsha384"@[5] == 'a' && "prfsha384"@[6] == '3' && "prfsha384"@[7] == '8' && "prfsha384"@[8] == '4');
    assert("prfsha512"@.len() == 9 && "prfsha512"@[0] == 'p' && "prfsha512"@[1] == 'r' && "prfsha512"@[2] == 'f' && "prfsha512"@[3] == 's' && "prfsha512"@[4] == 'h' && "prfsha512"@[5] == 'a' && "prfsha512"@[6] == '5' && "prfsha512"@[7] == '1' && "prfsha512"@[8] == '2');
}

/// No two groups share a strongSwan name: reading a name back gives the group that wrote it.
pub proof fn law_token_tells_dhgroup_apart(a: DhGroup, b: DhGroup)
    requires
        a.token() == b.token(),
    ensures
        a == b,
{
    reveal_strlit("modp1024");
    reveal_strlit("modp1536");
    reveal_strlit("modp2048");
    reveal_strlit("modp3072");
    reveal_strlit("modp4096");
    reveal_strlit("ecp256");
    reveal_strlit("ecp384");
    assert("modp1024"@.len() == 8 && "modp1024"@[0] == 'm' && "modp1024"@[1] == 'o' && "modp1024"@[2] == 'd' && "modp1024"@[3] == 'p' && "modp1024"@[4] == '1' && "modp1024"@[5] == '0' && "modp1024"@[6] == '2' && "modp1024"@[7] == '4');
    assert("modp1536"@.len() == 8 && "modp1536"@[0] == 'm' && "modp1536"@[1] == 'o' && "modp1536"@[2] == 'd' && "modp1536"@[3] == 'p' && "modp1536"@[4] == '1' && "modp1536"@[5] == '5' && "modp1536"@[6] == '3' && "modp1536"@[7] == '6');
    assert("modp2048"@.len() == 8 && "modp2048"@[0] == 'm' && "modp2048"@[1] == 'o' && "modp2048"@[2] == 'd' && "modp2048"@[3] == 'p' && "modp2048"@[4] == '2' && "modp2048"@[5] == '0' && "modp2048"@[6] == '4' && "modp2048"@[7] == '8');
    assert("modp3072"@.len() == 8 && "modp3072"@[0] == 'm' && "modp3072"@[1] == 'o' && "modp3072"@[2] == 'd' && "modp3072"@[3] == 'p' && "modp3072"@[4] == '3' && "modp3072"@[5] == '0' && "modp3072"@[6] == '7' && "modp3072"@[7] == '2');
    assert("modp4096"@.len() == 8 && "modp4096"@[0] == 'm' && "modp4096"@[1] == 'o' && "modp4096"@[2] == 'd' && "modp4096"@[3] == 'p' && "modp4096"@[4] == '4' && "modp4096"@[5] == '0' && "modp4096"@[6] == '9' && "modp4096"@[7] == '6');
    assert("ecp256"@.len() == 6 && "ecp256"@[0] == 'e' && "ecp256"@[1] == 'c' && "ecp256"@[2] == 'p' && "ecp256"@[3] == '2' && "ecp256"@[4] == '5' && "ecp256"@[5] == '6');
    assert("ecp384"@.len() == 6 && "ecp384"@[0] == 'e' && "ecp384"@[1] == 'c' && "ecp384"@[2] == 'p' && "ecp384"@[3] == '3' && "ecp384"@[4] == '8' && "ecp384"@[5] == '4');
}

/// No two IKE versions share a name: reading a name back gives the version that wrote it.
pub proof fn law_label_tells_ikeversion_apart(a: IkeVersion, b: IkeVersion)
    requires
        a.label() == b.label(),
    ensures
        a == b,
{
    reveal_strlit("ikev1");
    reveal_strlit("ikev2");
    assert("ikev1"@.len() == 5 && "ikev1"@[0] == 'i' && "ikev1"@[1] == 'k' && "ikev1"@[2] == 'e' && "ikev1"@[3] == 'v' && "ikev1"@[4] == '1');
    assert("ikev2"@.len() == 5 && "ikev2"@[0] == 'i' && "ikev2"@[1] == 'k' && "ikev2"@[2] == 'e' && "ikev2"@[3] == 'v' && "ikev2"@[4] == '2');
}

/// No two identity types share a name: reading a name back gives the type that wrote it.
pub proof fn law_label_tells_ikeidtype_apart(a: IkeIdType, b: IkeIdType)
    requires
        a.label() == b.label(),
    ensures
        a == b,
{
    reveal_strlit("ipv4");
    reveal_strlit("fqdn");
    reveal_strlit("rfc822");
    reveal_strlit("keyid");
    assert("ipv4"@.len() == 4 && "ipv4"@[0] == 'i' && "ipv4"@[1] == 'p' && "ipv4"@[2] == 'v' && "ipv4"@[3] == '4');
    assert("fqdn"@.len() == 4 && "fqdn"@[0] == 'f' && "fqdn"@[1] == 'q' && "fqdn"@[2] == 'd' && "fqdn"@[3] == 'n');
    assert("rfc822"@.len() == 6 && "rfc822"@[0] == 'r' && "rfc822"@[1] == 'f' && "rfc822"@[2] == 'c' && "rfc822"@[3] == '8' && "rfc822"@[4] == '2' && "rfc822"@[5] == '2');
    assert("keyid"@.len() == 5 && "keyid"@[0] == 'k' && "keyid"@[1] == 'e' && "keyid"@[2] == 'y' && "keyid"@[3] == 'i' && "keyid"@[4] == 'd');
}

/// The number of a group reads back as the group.
pub proof fn law_group_number_reads_back(g: DhGroup)
    ensures
        DhGroup::of_iana(g.iana()) == Some(g),
{
}

/// Whether a proposal keeps the profile's cipher and lowers neither its hash nor its group.
pub open spec fn keeps_strength(c: ConfigView, p: Seq<char>) -> bool {
    exists|integ: IntegAlg, prf: PrfAlg, dh: DhGroup|
        {
            &&& p == #[trigger] ike_text(c.ike_version, c.ike_enc, integ, prf, dh)
            &&& integ.bits() >= c.ike_integ.bits()
            &&& dh.bits() >= c.ike_dh.bits()
        }
}

/// Whether an ESP proposal keeps the profile's cipher and group and does not lower its hash.
pub open spec fn keeps_esp_strength(c: ConfigView, p: Seq<char>) -> bool {
    exists|integ: IntegAlg|
        {
            &&& p == #[trigger] esp_text(c.esp_enc, integ, c.pfs)
            &&& integ.bits() >= c.esp_integ.bits()
        }
}

proof fn lemma_ike_offer(c: ConfigView, k: int)
    requires
        0 <= k,
    ensures
        c.ike_offer(k).len() >= 1,
        c.ike_offer(k)[0] == c.ike_proposal(),
        c.ike_offer(k).no_duplicates(),
        forall|i: int|
            0 <= i < c.ike_offer(k).len() ==> keeps_strength(c, #[trigger] c.ike_offer(k)[i]),
    decreases k,
{
    if k == 0 {
        let p = c.ike_offer(0)[0];
        assert(p == ike_text(c.ike_version, c.ike_enc, c.ike_integ, c.ike_prf, c.ike_dh));
    } else {
        lemma_ike_offer(c, k - 1);
        let before = c.ike_offer(k - 1);
        let now = c.ike_offer(k);
        if c.alt_allowed(k - 1) {
            let p = c.alt_text(k - 1);
            let integ = c.alt_integ(k - 1);
            assert(p == ike_text(c.ike_version, c.ike_enc, integ, integ.prf(), c.alt_dh(k - 1)));
            assert(keeps_strength(c, p));
            assert forall|i: int| 0 <= i < now.len() implies keeps_strength(
                c,
                #[trigger] now[i],
            ) by {
                if i < before.len() {
                    assert(now[i] == before[i]);
                }
            }
        }
    }
}

proof fn lemma_esp_offer(c: ConfigView, k: int)
    requires
        0 <= k,
    ensures
        c.esp_offer(k).len() >= 1,
        c.esp_offer(k)[0] == c.esp_proposal(),
        c.esp_offer(k).no_duplicates(),
        forall|i: int|
            0 <= i < c.esp_offer(k).len() ==> keeps_esp_strength(c, #[trigger] c.esp_offer(k)[i]),
    decreases k,
{
    if k == 0 {
        let p = c.esp_offer(0)[0];
        assert(p == esp_text(c.esp_enc, c.esp_integ, c.pfs));
    } else {
        lemma_esp_offer(c, k - 1);
        let before = c.esp_offer(k - 1);
        let now = c.esp_offer(k);
        let integ = c.alt_integ(3 * (k - 1));
        if integ != c.esp_integ && integ.bits() >= c.esp_integ.bits() {
            let p = esp_text(c.esp_enc, integ, c.pfs);
            assert(keeps_esp_strength(c, p));
            assert forall|i: int| 0 <= i < now.len() implies keeps_esp_strength(
                c,
                #[trigger] now[i],
            ) by {
                if i < before.len() {
                    assert(now[i] == before[i]);
                }
            }
        }
    }
}

/// The profile's own IKE proposal comes first.
pub proof fn law_own_proposal_comes_first(c: ConfigView)
    ensures
        c.ike_proposals().len() >= 1 && c.ike_proposals()[0] == c.ike_proposal(),
        c.esp_proposals().len() >= 1 && c.esp_proposals()[0] == c.esp_proposal(),
{
    lemma_ike_offer(c, 9);
    lemma_esp_offer(c, 3);
}

/// What is offered alongside is never weaker than the profile's own choice, and never with another
/// cipher.
pub proof fn law_offers_are_never_weaker(c: ConfigView)
    ensures
        forall|i: int|
            0 <= i < c.ike_proposals().len() ==> keeps_strength(
                c,
                #[trigger] c.ike_proposals()[i],
            ),
        forall|i: int|
            0 <= i < c.esp_proposals().len() ==> keeps_esp_strength(
                c,
                #[trigger] c.esp_proposals()[i],
            ),
{
    lemma_ike_offer(c, 9);
    lemma_esp_offer(c, 3);
}

/// Nothing is offered twice.
pub proof fn law_offers_are_distinct(c: ConfigView)
    ensures
        c.ike_proposals().no_duplicates(),
        c.esp_proposals().no_duplicates(),
{
    lemma_ike_offer(c, 9);
    lemma_esp_offer(c, 3);
}

/// A stronger hash is offered alongside a weaker one, with the profile's own group.
pub proof fn law_stronger_hashes_are_offered(c: ConfigView, k: int)
    requires
        0 <= k < 3,
        c.alt_integ(3 * k).bits() > c.ike_integ.bits(),
    ensures
        c.ike_proposals().contains(
            ike_text(
                c.ike_version,
                c.ike_enc,
                c.alt_integ(3 * k),
                c.alt_integ(3 * k).prf(),
                c.ike_dh,
            ),
        ),
{
    let p = c.alt_text(3 * k);
    assert((3 * k) % 3 == 0 && (3 * k) / 3 == k);
    assert(c.alt_allowed(3 * k));
    lemma_offered(c, 3 * k, 3 * k + 1);
    lemma_offer_grows(c, p, 3 * k + 1, 9);
}

proof fn lemma_offered(c: ConfigView, k: int, n: int)
    requires
        0 <= k,
        n == k + 1,
        c.alt_allowed(k),
    ensures
        c.ike_offer(n).contains(c.alt_text(k)),
{
    let before = c.ike_offer(k);
    if !before.contains(c.alt_text(k)) {
        assert(c.ike_offer(n)[before.len() as int] == c.alt_text(k));
    }
}

proof fn lemma_offer_grows(c: ConfigView, p: Seq<char>, k: int, n: int)
    requires
        0 <= k <= n,
        c.ike_offer(k).contains(p),
    ensures
        c.ike_offer(n).contains(p),
    decreases n - k,
{
    if k < n {
        lemma_offer_grows(c, p, k, n - 1);
        let before = c.ike_offer(n - 1);
        let i = choose|i: int| 0 <= i < before.len() && before[i] == p;
        assert(c.ike_offer(n)[i] == p);
    }
}

/// The PRF on a hash is named after it.
pub proof fn law_prf_is_named_after_the_hash(a: IntegAlg)
    ensures
        a.prf().token() == "prf"@ + a.token(),
{
    reveal_strlit("prf");
    reveal_strlit("sha1");
    reveal_strlit("sha256");
    reveal_strlit("sha384");
    reveal_strlit("sha512");
    reveal_strlit("prfsha1");
    reveal_strlit("prfsha256");
    reveal_strlit("prfsha384");
    reveal_strlit("prfsha512");
    assert(a.prf().token() =~= "prf"@ + a.token());
}

/// An algorithm is named by its family and its size.
pub proof fn law_algorithms_are_named_by_size()
    ensures
        EncAlg::Aes128.token() == "aes128"@,
        EncAlg::Aes192.token() == "aes192"@,
        EncAlg::Aes256.token() == "aes256"@,
        IntegAlg::Sha1.token() == "sha1"@,
        IntegAlg::Sha256.token() == "sha256"@ && IntegAlg::Sha256.bits() == 256,
        IntegAlg::Sha384.token() == "sha384"@ && IntegAlg::Sha384.bits() == 384,
        IntegAlg::Sha512.token() == "sha512"@ && IntegAlg::Sha512.bits() == 512,
        IntegAlg::Sha1.bits() == 160,
        DhGroup::Modp1024.token() == "modp1024"@ && DhGroup::Modp1024.bits() == 1024,
        DhGroup::Modp1536.token() == "modp1536"@ && DhGroup::Modp1536.bits() == 1536,
        DhGroup::Modp2048.token() == "modp2048"@ && DhGroup::Modp2048.bits() == 2048,
        DhGroup::Modp3072.token() == "modp3072"@ && DhGroup::Modp3072.bits() == 3072,
        DhGroup::Modp4096.token() == "modp4096"@ && DhGroup::Modp4096.bits() == 4096,
        DhGroup::Ecp256.token() == "ecp256"@,
        DhGroup::Ecp384.token() == "ecp384"@,
        IkeVersion::V1.digit() == "1"@ && IkeVersion::V1.label() == "ikev1"@,
        IkeVersion::V2.digit() == "2"@ && IkeVersion::V2.label() == "ikev2"@,
{
}

/// A proposal names the cipher, the hash and the group in this order with dashes between them. IKEv2
/// adds the PRF before the group; ESP has a group exactly with perfect forward secrecy.
pub proof fn law_proposal_names_every_algorithm(c: ConfigView)
    ensures
        c.ike_version == IkeVersion::V1 ==> c.ike_proposal() == c.ike_enc.token() + "-"@
            + c.ike_integ.token() + "-"@ + c.ike_dh.token(),
        c.ike_version == IkeVersion::V2 ==> c.ike_proposal() == c.ike_enc.token() + "-"@
            + c.ike_integ.token() + "-"@ + c.ike_prf.token() + "-"@ + c.ike_dh.token(),
        c.pfs is None ==> c.esp_proposal() == c.esp_enc.token() + "-"@ + c.esp_integ.token(),
        c.pfs matches Some(g) ==> c.esp_proposal() == c.esp_enc.token() + "-"@ + c.esp_integ.token()
            + "-"@ + g.token(),
{
}

/// Whether a hash and a group may be offered besides the profile's own: one of the three hashes and
/// the profile's own or one of the two groups, neither weaker than the profile's.
pub open spec fn is_alternative(c: ConfigView, integ: IntegAlg, dh: DhGroup) -> bool {
    &&& integ == IntegAlg::Sha512 || integ == IntegAlg::Sha384 || integ == IntegAlg::Sha256
    &&& dh == c.ike_dh || dh == DhGroup::Modp3072 || dh == DhGroup::Modp2048
    &&& integ.bits() >= c.ike_integ.bits()
    &&& dh.bits() >= c.ike_dh.bits()
    &&& !(integ == c.ike_integ && dh == c.ike_dh)
}

/// Every hash and group that is no weaker than the profile's own, with the PRF of the hash, is offered
/// besides it, and so is every ESP hash that is stronger.
pub proof fn law_alternatives_are_offered(c: ConfigView, integ: IntegAlg, dh: DhGroup)
    ensures
        is_alternative(c, integ, dh) ==> c.ike_proposals().contains(
            ike_text(c.ike_version, c.ike_enc, integ, integ.prf(), dh),
        ),
        integ != IntegAlg::Sha1 && integ.bits() > c.esp_integ.bits() ==> c.esp_proposals().contains(
            esp_text(c.esp_enc, integ, c.pfs),
        ),
{
    if is_alternative(c, integ, dh) {
        let row: int = if integ == IntegAlg::Sha512 {
            0
        } else if integ == IntegAlg::Sha384 {
            1
        } else {
            2
        };
        let column: int = if dh == c.ike_dh {
            0
        } else if dh == DhGroup::Modp3072 {
            1
        } else {
            2
        };
        let k = 3 * row + column;
        assert(k / 3 == row && k % 3 == column);
        assert(c.alt_integ(k) == integ && c.alt_dh(k) == dh);
        lemma_offered(c, k, k + 1);
        lemma_offer_grows(c, c.alt_text(k), k + 1, 9);
    }
    if integ != IntegAlg::Sha1 && integ.bits() > c.esp_integ.bits() {
        let k: int = if integ == IntegAlg::Sha512 {
            0
        } else if integ == IntegAlg::Sha384 {
            1
        } else {
            2
        };
        assert((3 * k) / 3 == k);
        let p = esp_text(c.esp_enc, integ, c.pfs);
        let before = c.esp_offer(k);
        if !before.contains(p) {
            assert(c.esp_offer(k + 1)[before.len() as int] == p);
        }
        lemma_esp_offer_grows(c, p, k + 1, 3);
    }
}

proof fn lemma_esp_offer_grows(c: ConfigView, p: Seq<char>, k: int, n: int)
    requires
        0 <= k <= n,
        c.esp_offer(k).contains(p),
    ensures
        c.esp_offer(n).contains(p),
    decreases n - k,
{
    if k < n {
        lemma_esp_offer_grows(c, p, k, n - 1);
        let before = c.esp_offer(n - 1);
        let i = choose|i: int| 0 <= i < before.len() && before[i] == p;
        assert(c.esp_offer(n)[i] == p);
    }
}

/// An identity goes out with the prefix of its type; an address, or one without a type, as it is.
/// A connection under another version is the same in everything else.
pub proof fn law_identity_is_spelled_by_type(c: ConfigView, id: Seq<char>, version: IkeVersion)
    ensures
        c.local_id is None ==> c.local_id_wire() is None,
        c.local_id == Some(id) && c.local_id_type == Some(IkeIdType::Fqdn) ==> c.local_id_wire()
            == Some("fqdn:"@ + id),
        c.local_id == Some(id) && c.local_id_type == Some(IkeIdType::Rfc822) ==> c.local_id_wire()
            == Some("rfc822:"@ + id),
        c.local_id == Some(id) && c.local_id_type == Some(IkeIdType::KeyId) ==> c.local_id_wire()
            == Some("keyid:"@ + id),
        c.local_id == Some(id) && (c.local_id_type == Some(IkeIdType::Ipv4) || c.local_id_type is None)
            ==> c.local_id_wire() == Some(id),
        c.at_version(version).ike_version == version,
        (ConfigView { ike_version: c.ike_version, ..c.at_version(version) }) == c,
{
}

} // verus!
