//! How a connection is shown in full for diagnosis: every field by name, and the pre-shared key
//! only as a mark that there is one.

use crate::ipv4::{Ipv4Addr, Ipv4Net};
use crate::model::{
    AuthMethod, ConfigView, ConnectionConfig, DhGroup, DnsConfig, DnsView, DpdConfig, EncAlg, IkeIdType,
    IkeVersion, IntegAlg, PrfAlg, UserAuth, UserAuthView,
};
use crate::text::{
    begins, debug_quoted, decimal, format_u64, has, join, join_all, lemma_row_stands, lemma_stands,
    lemma_stands_before, lemma_stands_behind, occurs_at, quote_debug, views,
};
use vstd::prelude::*;

verus! {

/// The name of a cipher.
pub open spec fn enc_name(a: EncAlg) -> Seq<char> {
    match a {
        EncAlg::Aes128 => "Aes128"@,
        EncAlg::Aes192 => "Aes192"@,
        EncAlg::Aes256 => "Aes256"@,
    }
}

/// The name of a hash.
pub open spec fn integ_name(a: IntegAlg) -> Seq<char> {
    match a {
        IntegAlg::Sha1 => "Sha1"@,
        IntegAlg::Sha256 => "Sha256"@,
        IntegAlg::Sha384 => "Sha384"@,
        IntegAlg::Sha512 => "Sha512"@,
    }
}

/// The name of a pseudo-random function.
pub open spec fn prf_name(a: PrfAlg) -> Seq<char> {
    match a {
        PrfAlg::Sha1 => "Sha1"@,
        PrfAlg::Sha256 => "Sha256"@,
        PrfAlg::Sha384 => "Sha384"@,
        PrfAlg::Sha512 => "Sha512"@,
    }
}

/// The name of a group.
pub open spec fn dh_name(g: DhGroup) -> Seq<char> {
    match g {
        DhGroup::Modp1024 => "Modp1024"@,
        DhGroup::Modp1536 => "Modp1536"@,
        DhGroup::Modp2048 => "Modp2048"@,
        DhGroup::Modp3072 => "Modp3072"@,
        DhGroup::Modp4096 => "Modp4096"@,
        DhGroup::Ecp256 => "Ecp256"@,
        DhGroup::Ecp384 => "Ecp384"@,
    }
}

/// The name of an identity type.
pub open spec fn id_type_name(t: IkeIdType) -> Seq<char> {
    match t {
        IkeIdType::Ipv4 => "Ipv4"@,
        IkeIdType::Fqdn => "Fqdn"@,
        IkeIdType::Rfc822 => "Rfc822"@,
        IkeIdType::KeyId => "KeyId"@,
    }
}

/// The name of an IKE version.
pub open spec fn version_name(v: IkeVersion) -> Seq<char> {
    match v {
        IkeVersion::V1 => "V1"@,
        IkeVersion::V2 => "V2"@,
    }
}

/// A truth value.
pub open spec fn truth_name(b: bool) -> Seq<char> {
    if b {
        "true"@
    } else {
        "false"@
    }
}

/// Something that may be absent, given how it is shown.
pub open spec fn option_text(o: Option<Seq<char>>) -> Seq<char> {
    match o {
        Some(s) => "Some("@ + s + ")"@,
        None => "None"@,
    }
}

/// A text that may be absent.
pub open spec fn quoted_option(o: Option<Seq<char>>) -> Seq<char> {
    option_text(
        match o {
            Some(s) => Some(debug_quoted(s)),
            None => None,
        },
    )
}

/// The second authentication round.
pub open spec fn user_text(u: UserAuthView) -> Seq<char> {
    "UserAuth { username: "@ + quoted_option(u.username) + ", can_save: "@ + truth_name(u.can_save)
        + ", otp: "@ + truth_name(u.otp) + " }"@
}

/// A network.
pub open spec fn net_text(n: Ipv4Net) -> Seq<char> {
    "Ipv4Net { addr: "@ + n.addr.dotted() + ", prefix_len: "@ + decimal(n.prefix_len as nat)
        + " }"@
}

/// A list, given how its elements are shown.
pub open spec fn list_text(v: Seq<Seq<char>>) -> Seq<char> {
    "["@ + join_all(v, ", "@) + "]"@
}

/// The networks of a connection.
pub open spec fn net_texts(v: Seq<Ipv4Net>) -> Seq<Seq<char>> {
    Seq::new(v.len(), |i: int| net_text(v[i]))
}

/// Some addresses.
pub open spec fn address_texts(v: Seq<Ipv4Addr>) -> Seq<Seq<char>> {
    Seq::new(v.len(), |i: int| v[i].dotted())
}

/// The DNS part.
pub open spec fn dns_text(d: DnsView) -> Seq<char> {
    "DnsConfig { servers: "@ + list_text(address_texts(d.servers)) + ", domain: "@ + quoted_option(
        d.domain,
    ) + " }"@
}

/// The dead-peer detection part.
pub open spec fn dpd_text(d: DpdConfig) -> Seq<char> {
    "DpdConfig { delay_secs: "@ + decimal(d.delay_secs as nat) + ", auto_reconnect: "@ + truth_name(
        d.auto_reconnect,
    ) + " }"@
}

/// Who connects to whom, and how it authenticates.
pub open spec fn peers_text(c: ConfigView) -> Seq<char> {
    "ConnectionConfig { name: "@ + debug_quoted(c.name) + ", gateway: "@ + debug_quoted(c.gateway)
        + ", local_id: "@ + quoted_option(c.local_id) + ", local_id_type: "@ + option_text(
        match c.local_id_type {
            Some(t) => Some(id_type_name(t)),
            None => None,
        },
    ) + ", auth: PresharedKey("@ + "Secret(***REDACTED***)"@ + "), ike_version: "@ + version_name(
        c.ike_version,
    ) + ", user_auth: "@ + option_text(
        match c.user_auth {
            Some(u) => Some(user_text(u)),
            None => None,
        },
    )
}

/// What is proposed.
pub open spec fn proposals_text(c: ConfigView) -> Seq<char> {
    ", ike_enc: "@ + enc_name(c.ike_enc) + ", ike_integ: "@ + integ_name(c.ike_integ)
        + ", ike_prf: "@ + prf_name(c.ike_prf) + ", ike_dh: "@ + dh_name(c.ike_dh) + ", esp_enc: "@
        + enc_name(c.esp_enc) + ", esp_integ: "@ + integ_name(c.esp_integ) + ", pfs: "@
        + option_text(
        match c.pfs {
            Some(g) => Some(dh_name(g)),
            None => None,
        },
    )
}

/// What goes through the tunnel.
pub open spec fn traffic_text(c: ConfigView) -> Seq<char> {
    ", remote_subnets: "@ + list_text(net_texts(c.remote_subnets)) + ", request_virtual_ip: "@
        + truth_name(c.request_virtual_ip) + ", compression: "@ + truth_name(c.compression)
        + ", dpd: "@ + dpd_text(c.dpd) + ", dns: "@ + dns_text(c.dns) + " }"@
}

/// The connection in full.
pub open spec fn dumped(c: ConfigView) -> Seq<char> {
    peers_text(c) + proposals_text(c) + traffic_text(c)
}

fn enc_word(a: EncAlg) -> (r: &'static str)
    ensures
        r@ == enc_name(a),
{
    match a {
        EncAlg::Aes128 => "Aes128",
        EncAlg::Aes192 => "Aes192",
        EncAlg::Aes256 => "Aes256",
    }
}

fn integ_word(a: IntegAlg) -> (r: &'static str)
    ensures
        r@ == integ_name(a),
{
    match a {
        IntegAlg::Sha1 => "Sha1",
        IntegAlg::Sha256 => "Sha256",
        IntegAlg::Sha384 => "Sha384",
        IntegAlg::Sha512 => "Sha512",
    }
}

fn prf_word(a: PrfAlg) -> (r: &'static str)
    ensures
        r@ == prf_name(a),
{
    match a {
        PrfAlg::Sha1 => "Sha1",
        PrfAlg::Sha256 => "Sha256",
        PrfAlg::Sha384 => "Sha384",
        PrfAlg::Sha512 => "Sha512",
    }
}

fn dh_word(g: DhGroup) -> (r: &'static str)
    ensures
        r@ == dh_name(g),
{
    match g {
        DhGroup::Modp1024 => "Modp1024",
        DhGroup::Modp1536 => "Modp1536",
        DhGroup::Modp2048 => "Modp2048",
        DhGroup::Modp3072 => "Modp3072",
        DhGroup::Modp4096 => "Modp4096",
        DhGroup::Ecp256 => "Ecp256",
        DhGroup::Ecp384 => "Ecp384",
    }
}

fn id_type_word(t: IkeIdType) -> (r: &'static str)
    ensures
        r@ == id_type_name(t),
{
    match t {
        IkeIdType::Ipv4 => "Ipv4",
        IkeIdType::Fqdn => "Fqdn",
        IkeIdType::Rfc822 => "Rfc822",
        IkeIdType::KeyId => "KeyId",
    }
}

fn version_word(v: IkeVersion) -> (r: &'static str)
    ensures
        r@ == version_name(v),
{
    match v {
        IkeVersion::V1 => "V1",
        IkeVersion::V2 => "V2",
    }
}

fn truth_word(b: bool) -> (r: &'static str)
    ensures
        r@ == truth_name(b),
{
    if b {
        "true"
    } else {
        "false"
    }
}

fn some_text(s: &str) -> (r: String)
    ensures
        r@ == option_text(Some(s@)),
{
    let mut out = "Some(".to_owned();
    out.append(s);
    out.append(")");
    out
}

fn quoted_or_none(o: &Option<String>) -> (r: String)
    ensures
        r@ == quoted_option(crate::model::opt_view(*o)),
{
    match o {
        Some(s) => some_text(quote_debug(s.as_str()).as_str()),
        None => "None".to_owned(),
    }
}

fn dump_user(u: &UserAuth) -> (r: String)
    ensures
        r@ == user_text(u@),
{
    let mut s = "UserAuth { username: ".to_owned();
    s.append(quoted_or_none(&u.username).as_str());
    s.append(", can_save: ");
    s.append(truth_word(u.can_save));
    s.append(", otp: ");
    s.append(truth_word(u.otp));
    s.append(" }");
    s
}

fn dump_nets(v: &Vec<Ipv4Net>) -> (r: String)
    ensures
        r@ == list_text(net_texts(v@)),
{
    let mut parts: Vec<String> = Vec::new();
    let mut i: usize = 0;
    while i < v.len()
        invariant
            i <= v@.len(),
            views(parts@) == net_texts(v@).take(i as int),
        decreases v@.len() - i,
    {
        let mut t = "Ipv4Net { addr: ".to_owned();
        t.append(v[i].addr.to_text().as_str());
        t.append(", prefix_len: ");
        t.append(format_u64(v[i].prefix_len as u64).as_str());
        t.append(" }");
        let ghost before = parts@;
        let ghost seen = t@;
        parts.push(t);
        assert(views(parts@) =~= views(before).push(seen));
        assert(views(parts@) =~= net_texts(v@).take(i + 1));
        i = i + 1;
    }
    assert(net_texts(v@).take(v@.len() as int) =~= net_texts(v@));
    let mut s = "[".to_owned();
    s.append(join(&parts, ", ").as_str());
    s.append("]");
    s
}

fn dump_dns(d: &DnsConfig) -> (r: String)
    ensures
        r@ == dns_text(d@),
{
    let mut parts: Vec<String> = Vec::new();
    let mut i: usize = 0;
    while i < d.servers.len()
        invariant
            i <= d.servers@.len(),
            views(parts@) == address_texts(d.servers@).take(i as int),
        decreases d.servers@.len() - i,
    {
        let t = d.servers[i].to_text();
        let ghost before = parts@;
        let ghost seen = t@;
        parts.push(t);
        assert(views(parts@) =~= views(before).push(seen));
        assert(views(parts@) =~= address_texts(d.servers@).take(i + 1));
        i = i + 1;
    }
    assert(address_texts(d.servers@).take(d.servers@.len() as int) =~= address_texts(d.servers@));
    let mut list = "[".to_owned();
    list.append(join(&parts, ", ").as_str());
    list.append("]");
    let mut s = "DnsConfig { servers: ".to_owned();
    s.append(list.as_str());
    s.append(", domain: ");
    s.append(quoted_or_none(&d.domain).as_str());
    s.append(" }");
    s
}

fn dump_peers(c: &ConnectionConfig) -> (r: String)
    ensures
        r@ == peers_text(c@),
{
    let mut s = "ConnectionConfig { name: ".to_owned();
    s.append(quote_debug(c.name.as_str()).as_str());
    s.append(", gateway: ");
    s.append(quote_debug(c.gateway.as_str()).as_str());
    s.append(", local_id: ");
    s.append(quoted_or_none(&c.local_id).as_str());
    s.append(", local_id_type: ");
    let id_type = match c.local_id_type {
        Some(t) => some_text(id_type_word(t)),
        None => "None".to_owned(),
    };
    s.append(id_type.as_str());
    s.append(", auth: PresharedKey(");
    let AuthMethod::PresharedKey(psk) = &c.auth;
    s.append(psk.debug_text());
    s.append("), ike_version: ");
    s.append(version_word(c.ike_version));
    s.append(", user_auth: ");
    let user = match &c.user_auth {
        Some(u) => some_text(dump_user(u).as_str()),
        None => "None".to_owned(),
    };
    s.append(user.as_str());
    s
}

fn dump_proposals(c: &ConnectionConfig) -> (r: String)
    ensures
        r@ == proposals_text(c@),
{
    let mut s = ", ike_enc: ".to_owned();
    s.append(enc_word(c.ike_enc));
    s.append(", ike_integ: ");
    s.append(integ_word(c.ike_integ));
    s.append(", ike_prf: ");
    s.append(prf_word(c.ike_prf));
    s.append(", ike_dh: ");
    s.append(dh_word(c.ike_dh));
    s.append(", esp_enc: ");
    s.append(enc_word(c.esp_enc));
    s.append(", esp_integ: ");
    s.append(integ_word(c.esp_integ));
    s.append(", pfs: ");
    let pfs = match c.pfs {
        Some(g) => some_text(dh_word(g)),
        None => "None".to_owned(),
    };
    s.append(pfs.as_str());
    s
}

fn dump_traffic(c: &ConnectionConfig) -> (r: String)
    ensures
        r@ == traffic_text(c@),
{
    let mut dpd = "DpdConfig { delay_secs: ".to_owned();
    dpd.append(format_u64(c.dpd.delay_secs as u64).as_str());
    dpd.append(", auto_reconnect: ");
    dpd.append(truth_word(c.dpd.auto_reconnect));
    dpd.append(" }");
    let mut s = ", remote_subnets: ".to_owned();
    s.append(dump_nets(&c.remote_subnets).as_str());
    s.append(", request_virtual_ip: ");
    s.append(truth_word(c.request_virtual_ip));
    s.append(", compression: ");
    s.append(truth_word(c.compression));
    s.append(", dpd: ");
    s.append(dpd.as_str());
    s.append(", dns: ");
    s.append(dump_dns(&c.dns).as_str());
    s.append(" }");
    s
}

impl ConnectionConfig {
    /// The connection in full, for diagnosis. The pre-shared key is not in it.
    pub fn debug_text(&self) -> (r: String)
        ensures
            r@ == dumped(self@),
    {
        let mut s = dump_peers(self);
        s.append(dump_proposals(self).as_str());
        s.append(dump_traffic(self).as_str());
        s
    }
}

/// What is shown of a connection does not depend on its pre-shared key.
pub proof fn law_dump_hides_the_secret(c: ConfigView, secret: Seq<char>)
    ensures
        dumped(ConfigView { secret, ..c }) == dumped(c),
{
}

proof fn lemma_peers(c: ConfigView)
    ensures
        has(peers_text(c), ", gateway: "@ + debug_quoted(c.gateway) + ", local_id: "@),
        has(peers_text(c), ", local_id: "@ + quoted_option(c.local_id) + ", local_id_type: "@),
        has(peers_text(c), ", local_id_type: "@ + option_text(
        match c.local_id_type {
            Some(t) => Some(id_type_name(t)),
            None => None,
        },
    ) + ", auth: PresharedKey("@),
        has(peers_text(c), "), ike_version: "@ + version_name(c.ike_version) + ", user_auth: "@),
        has(peers_text(c), ", user_auth: "@ + option_text(
        match c.user_auth {
            Some(u) => Some(user_text(u)),
            None => None,
        },
    )),
{
    let t0 = "ConnectionConfig { name: "@;
    let t1 = debug_quoted(c.name);
    let t2 = ", gateway: "@;
    let t3 = debug_quoted(c.gateway);
    let t4 = ", local_id: "@;
    let t5 = quoted_option(c.local_id);
    let t6 = ", local_id_type: "@;
    let t7 = option_text(
        match c.local_id_type {
            Some(t) => Some(id_type_name(t)),
            None => None,
        },
    );
    let t8 = ", auth: PresharedKey("@;
    let t9 = "Secret(***REDACTED***)"@;
    let t10 = "), ike_version: "@;
    let t11 = version_name(c.ike_version);
    let t12 = ", user_auth: "@;
    let t13 = option_text(
        match c.user_auth {
            Some(u) => Some(user_text(u)),
            None => None,
        },
    );
    let s0 = t0;
    let s1 = s0 + t1;
    let s2 = s1 + t2;
    let s3 = s2 + t3;
    let s4 = s3 + t4;
    let s5 = s4 + t5;
    let s6 = s5 + t6;
    let s7 = s6 + t7;
    let s8 = s7 + t8;
    let s9 = s8 + t9;
    let s10 = s9 + t10;
    let s11 = s10 + t11;
    let s12 = s11 + t12;
    let s13 = s12 + t13;
    assert(peers_text(c) == s13);
    assert(s1 + t2 + t3 + t4 == s4);
    lemma_row_stands(s1, t2, t3, t4);
    lemma_stands_before(s4, t5, t2 + t3 + t4);
    lemma_stands_before(s5, t6, t2 + t3 + t4);
    lemma_stands_before(s6, t7, t2 + t3 + t4);
    lemma_stands_before(s7, t8, t2 + t3 + t4);
    lemma_stands_before(s8, t9, t2 + t3 + t4);
    lemma_stands_before(s9, t10, t2 + t3 + t4);
    lemma_stands_before(s10, t11, t2 + t3 + t4);
    lemma_stands_before(s11, t12, t2 + t3 + t4);
    lemma_stands_before(s12, t13, t2 + t3 + t4);
    assert(s3 + t4 + t5 + t6 == s6);
    lemma_row_stands(s3, t4, t5, t6);
    lemma_stands_before(s6, t7, t4 + t5 + t6);
    lemma_stands_before(s7, t8, t4 + t5 + t6);
    lemma_stands_before(s8, t9, t4 + t5 + t6);
    lemma_stands_before(s9, t10, t4 + t5 + t6);
    lemma_stands_before(s10, t11, t4 + t5 + t6);
    lemma_stands_before(s11, t12, t4 + t5 + t6);
    lemma_stands_before(s12, t13, t4 + t5 + t6);
    assert(s5 + t6 + t7 + t8 == s8);
    lemma_row_stands(s5, t6, t7, t8);
    lemma_stands_before(s8, t9, t6 + t7 + t8);
    lemma_stands_before(s9, t10, t6 + t7 + t8);
    lemma_stands_before(s10, t11, t6 + t7 + t8);
    lemma_stands_before(s11, t12, t6 + t7 + t8);
    lemma_stands_before(s12, t13, t6 + t7 + t8);
    assert(s9 + t10 + t11 + t12 == s12);
    lemma_row_stands(s9, t10, t11, t12);
    lemma_stands_before(s12, t13, t10 + t11 + t12);
    assert(s11 + t12 + t13 == s13);
    assert(s13 =~= s11 + (t12 + t13));
    lemma_stands(s11, t12 + t13);
}

proof fn lemma_proposals(c: ConfigView)
    ensures
        has(proposals_text(c), ", ike_integ: "@ + integ_name(c.ike_integ) + ", ike_prf: "@),
        has(proposals_text(c), ", ike_prf: "@ + prf_name(c.ike_prf) + ", ike_dh: "@),
        has(proposals_text(c), ", ike_dh: "@ + dh_name(c.ike_dh) + ", esp_enc: "@),
        has(proposals_text(c), ", esp_enc: "@ + enc_name(c.esp_enc) + ", esp_integ: "@),
        has(proposals_text(c), ", esp_integ: "@ + integ_name(c.esp_integ) + ", pfs: "@),
        has(proposals_text(c), ", pfs: "@ + option_text(
        match c.pfs {
            Some(g) => Some(dh_name(g)),
            None => None,
        },
    )),
{
    let t0 = ", ike_enc: "@;
    let t1 = enc_name(c.ike_enc);
    let t2 = ", ike_integ: "@;
    let t3 = integ_name(c.ike_integ);
    let t4 = ", ike_prf: "@;
    let t5 = prf_name(c.ike_prf);
    let t6 = ", ike_dh: "@;
    let t7 = dh_name(c.ike_dh);
    let t8 = ", esp_enc: "@;
    let t9 = enc_name(c.esp_enc);
    let t10 = ", esp_integ: "@;
    let t11 = integ_name(c.esp_integ);
    let t12 = ", pfs: "@;
    let t13 = option_text(
        match c.pfs {
            Some(g) => Some(dh_name(g)),
            None => None,
        },
    );
    let s0 = t0;
    let s1 = s0 + t1;
    let s2 = s1 + t2;
    let s3 = s2 + t3;
    let s4 = s3 + t4;
    let s5 = s4 + t5;
    let s6 = s5 + t6;
    let s7 = s6 + t7;
    let s8 = s7 + t8;
    let s9 = s8 + t9;
    let s10 = s9 + t10;
    let s11 = s10 + t11;
    let s12 = s11 + t12;
    let s13 = s12 + t13;
    assert(proposals_text(c) == s13);
    assert(s1 + t2 + t3 + t4 == s4);
    lemma_row_stands(s1, t2, t3, t4);
    lemma_stands_before(s4, t5, t2 + t3 + t4);
    lemma_stands_before(s5, t6, t2 + t3 + t4);
    lemma_stands_before(s6, t7, t2 + t3 + t4);
    lemma_stands_before(s7, t8, t2 + t3 + t4);
    lemma_stands_before(s8, t9, t2 + t3 + t4);
    lemma_stands_before(s9, t10, t2 + t3 + t4);
    lemma_stands_before(s10, t11, t2 + t3 + t4);
    lemma_stands_before(s11, t12, t2 + t3 + t4);
    lemma_stands_before(s12, t13, t2 + t3 + t4);
    assert(s3 + t4 + t5 + t6 == s6);
    lemma_row_stands(s3, t4, t5, t6);
    lemma_stands_before(s6, t7, t4 + t5 + t6);
    lemma_stands_before(s7, t8, t4 + t5 + t6);
    lemma_stands_before(s8, t9, t4 + t5 + t6);
    lemma_stands_before(s9, t10, t4 + t5 + t6);
    lemma_stands_before(s10, t11, t4 + t5 + t6);
    lemma_stands_before(s11, t12, t4 + t5 + t6);
    lemma_stands_before(s12, t13, t4 + t5 + t6);
    assert(s5 + t6 + t7 + t8 == s8);
    lemma_row_stands(s5, t6, t7, t8);
    lemma_stands_before(s8, t9, t6 + t7 + t8);
    lemma_stands_before(s9, t10, t6 + t7 + t8);
    lemma_stands_before(s10, t11, t6 + t7 + t8);
    lemma_stands_before(s11, t12, t6 + t7 + t8);
    lemma_stands_before(s12, t13, t6 + t7 + t8);
    assert(s7 + t8 + t9 + t10 == s10);
    lemma_row_stands(s7, t8, t9, t10);
    lemma_stands_before(s10, t11, t8 + t9 + t10);
    lemma_stands_before(s11, t12, t8 + t9 + t10);
    lemma_stands_before(s12, t13, t8 + t9 + t10);
    assert(s9 + t10 + t11 + t12 == s12);
    lemma_row_stands(s9, t10, t11, t12);
    lemma_stands_before(s12, t13, t10 + t11 + t12);
    assert(s11 + t12 + t13 == s13);
    assert(s13 =~= s11 + (t12 + t13));
    lemma_stands(s11, t12 + t13);
}

proof fn lemma_traffic(c: ConfigView)
    ensures
        has(traffic_text(c), ", request_virtual_ip: "@ + truth_name(c.request_virtual_ip) + ", compression: "@),
        has(traffic_text(c), ", compression: "@ + truth_name(c.compression) + ", dpd: "@),
        has(traffic_text(c), ", dpd: "@ + dpd_text(c.dpd) + ", dns: "@),
        has(traffic_text(c), ", dns: "@ + dns_text(c.dns) + " }"@),
{
    let t0 = ", remote_subnets: "@;
    let t1 = list_text(net_texts(c.remote_subnets));
    let t2 = ", request_virtual_ip: "@;
    let t3 = truth_name(c.request_virtual_ip);
    let t4 = ", compression: "@;
    let t5 = truth_name(c.compression);
    let t6 = ", dpd: "@;
    let t7 = dpd_text(c.dpd);
    let t8 = ", dns: "@;
    let t9 = dns_text(c.dns);
    let t10 = " }"@;
    let s0 = t0;
    let s1 = s0 + t1;
    let s2 = s1 + t2;
    let s3 = s2 + t3;
    let s4 = s3 + t4;
    let s5 = s4 + t5;
    let s6 = s5 + t6;
    let s7 = s6 + t7;
    let s8 = s7 + t8;
    let s9 = s8 + t9;
    let s10 = s9 + t10;
    assert(traffic_text(c) == s10);
    assert(s1 + t2 + t3 + t4 == s4);
    lemma_row_stands(s1, t2, t3, t4);
    lemma_stands_before(s4, t5, t2 + t3 + t4);
    lemma_stands_before(s5, t6, t2 + t3 + t4);
    lemma_stands_before(s6, t7, t2 + t3 + t4);
    lemma_stands_before(s7, t8, t2 + t3 + t4);
    lemma_stands_before(s8, t9, t2 + t3 + t4);
    lemma_stands_before(s9, t10, t2 + t3 + t4);
    assert(s3 + t4 + t5 + t6 == s6);
    lemma_row_stands(s3, t4, t5, t6);
    lemma_stands_before(s6, t7, t4 + t5 + t6);
    lemma_stands_before(s7, t8, t4 + t5 + t6);
    lemma_stands_before(s8, t9, t4 + t5 + t6);
    lemma_stands_before(s9, t10, t4 + t5 + t6);
    assert(s5 + t6 + t7 + t8 == s8);
    lemma_row_stands(s5, t6, t7, t8);
    lemma_stands_before(s8, t9, t6 + t7 + t8);
    lemma_stands_before(s9, t10, t6 + t7 + t8);
    assert(s7 + t8 + t9 + t10 == s10);
    lemma_row_stands(s7, t8, t9, t10);
}

/// What stands in one part of the text stands in the whole.
proof fn lemma_dump_parts(c: ConfigView, t: Seq<char>)
    ensures
        has(peers_text(c), t) || has(proposals_text(c), t) || has(traffic_text(c), t) ==> has(
            dumped(c),
            t,
        ),
{
    let (x, y, z) = (peers_text(c), proposals_text(c), traffic_text(c));
    if has(x, t) {
        lemma_stands_before(x, y, t);
    } else if has(y, t) {
        lemma_stands_behind(x, y, t);
    }
    if has(x + y, t) {
        lemma_stands_before(x + y, z, t);
    } else if has(z, t) {
        lemma_stands_behind(x + y, z, t);
    }
}

/// The text of a connection shows its name, gateway, identity, version and user authentication, each
/// under its own name.
pub proof fn law_dump_shows_the_peer(c: ConfigView)
    ensures
        has(dumped(c), "ConnectionConfig { name: "@ + debug_quoted(c.name) + ", gateway: "@),
        has(dumped(c), ", gateway: "@ + debug_quoted(c.gateway) + ", local_id: "@),
        has(dumped(c), ", local_id: "@ + quoted_option(c.local_id) + ", local_id_type: "@),
        has(dumped(c), ", local_id_type: "@ + option_text(
        match c.local_id_type {
            Some(t) => Some(id_type_name(t)),
            None => None,
        },
    ) + ", auth: PresharedKey("@),
        has(dumped(c), "), ike_version: "@ + version_name(c.ike_version) + ", user_auth: "@),
        has(dumped(c), ", user_auth: "@ + option_text(
        match c.user_auth {
            Some(u) => Some(user_text(u)),
            None => None,
        },
    )),
{
    lemma_peers(c);
    let first = "ConnectionConfig { name: "@ + debug_quoted(c.name) + ", gateway: "@;
    let whole = peers_text(c);
    assert(whole.subrange(0, first.len() as int) =~= first);
    assert(occurs_at(whole, first, 0));
    lemma_dump_parts(c, first);
    lemma_dump_parts(c, ", gateway: "@ + debug_quoted(c.gateway) + ", local_id: "@);
    lemma_dump_parts(c, ", local_id: "@ + quoted_option(c.local_id) + ", local_id_type: "@);
    lemma_dump_parts(c, ", local_id_type: "@ + option_text(
        match c.local_id_type {
            Some(t) => Some(id_type_name(t)),
            None => None,
        },
    ) + ", auth: PresharedKey("@);
    lemma_dump_parts(c, "), ike_version: "@ + version_name(c.ike_version) + ", user_auth: "@);
    lemma_dump_parts(c, ", user_auth: "@ + option_text(
        match c.user_auth {
            Some(u) => Some(user_text(u)),
            None => None,
        },
    ));
}

/// The text of a connection shows every algorithm of both proposals under its own name.
pub proof fn law_dump_shows_the_proposals(c: ConfigView)
    ensures
        has(dumped(c), ", ike_enc: "@ + enc_name(c.ike_enc) + ", ike_integ: "@),
        has(dumped(c), ", ike_integ: "@ + integ_name(c.ike_integ) + ", ike_prf: "@),
        has(dumped(c), ", ike_prf: "@ + prf_name(c.ike_prf) + ", ike_dh: "@),
        has(dumped(c), ", ike_dh: "@ + dh_name(c.ike_dh) + ", esp_enc: "@),
        has(dumped(c), ", esp_enc: "@ + enc_name(c.esp_enc) + ", esp_integ: "@),
        has(dumped(c), ", esp_integ: "@ + integ_name(c.esp_integ) + ", pfs: "@),
        has(dumped(c), ", pfs: "@ + option_text(
        match c.pfs {
            Some(g) => Some(dh_name(g)),
            None => None,
        },
    )),
{
    lemma_proposals(c);
    let first = ", ike_enc: "@ + enc_name(c.ike_enc) + ", ike_integ: "@;
    let whole = proposals_text(c);
    assert(whole.subrange(0, first.len() as int) =~= first);
    assert(occurs_at(whole, first, 0));
    lemma_dump_parts(c, first);
    lemma_dump_parts(c, ", ike_integ: "@ + integ_name(c.ike_integ) + ", ike_prf: "@);
    lemma_dump_parts(c, ", ike_prf: "@ + prf_name(c.ike_prf) + ", ike_dh: "@);
    lemma_dump_parts(c, ", ike_dh: "@ + dh_name(c.ike_dh) + ", esp_enc: "@);
    lemma_dump_parts(c, ", esp_enc: "@ + enc_name(c.esp_enc) + ", esp_integ: "@);
    lemma_dump_parts(c, ", esp_integ: "@ + integ_name(c.esp_integ) + ", pfs: "@);
    lemma_dump_parts(c, ", pfs: "@ + option_text(
        match c.pfs {
            Some(g) => Some(dh_name(g)),
            None => None,
        },
    ));
}

/// The text of a connection shows its networks, switches, probing and DNS, each under its own name.
pub proof fn law_dump_shows_the_traffic(c: ConfigView)
    ensures
        has(dumped(c), ", remote_subnets: "@ + list_text(net_texts(c.remote_subnets)) + ", request_virtual_ip: "@),
        has(dumped(c), ", request_virtual_ip: "@ + truth_name(c.request_virtual_ip) + ", compression: "@),
        has(dumped(c), ", compression: "@ + truth_name(c.compression) + ", dpd: "@),
        has(dumped(c), ", dpd: "@ + dpd_text(c.dpd) + ", dns: "@),
        has(dumped(c), ", dns: "@ + dns_text(c.dns) + " }"@),
{
    lemma_traffic(c);
    let first = ", remote_subnets: "@ + list_text(net_texts(c.remote_subnets)) + ", request_virtual_ip: "@;
    let whole = traffic_text(c);
    assert(whole.subrange(0, first.len() as int) =~= first);
    assert(occurs_at(whole, first, 0));
    lemma_dump_parts(c, first);
    lemma_dump_parts(c, ", request_virtual_ip: "@ + truth_name(c.request_virtual_ip) + ", compression: "@);
    lemma_dump_parts(c, ", compression: "@ + truth_name(c.compression) + ", dpd: "@);
    lemma_dump_parts(c, ", dpd: "@ + dpd_text(c.dpd) + ", dns: "@);
    lemma_dump_parts(c, ", dns: "@ + dns_text(c.dns) + " }"@);
}

/// Every algorithm, type of identity and version has its own name, and the algorithms are told
/// apart by theirs.
pub proof fn law_names_tell_algorithms_apart(
    e: EncAlg,
    f: EncAlg,
    i: IntegAlg,
    j: IntegAlg,
    p: PrfAlg,
    q: PrfAlg,
    g: DhGroup,
    h: DhGroup,
)
    ensures
        enc_name(e) == enc_name(f) ==> e == f,
        integ_name(i) == integ_name(j) ==> i == j,
        prf_name(p) == prf_name(q) ==> p == q,
        dh_name(g) == dh_name(h) ==> g == h,
        enc_name(EncAlg::Aes128) == "Aes128"@,
        enc_name(EncAlg::Aes192) == "Aes192"@,
        enc_name(EncAlg::Aes256) == "Aes256"@,
        integ_name(IntegAlg::Sha1) == "Sha1"@,
        integ_name(IntegAlg::Sha256) == "Sha256"@,
        integ_name(IntegAlg::Sha384) == "Sha384"@,
        integ_name(IntegAlg::Sha512) == "Sha512"@,
        prf_name(PrfAlg::Sha1) == "Sha1"@,
        prf_name(PrfAlg::Sha256) == "Sha256"@,
        prf_name(PrfAlg::Sha384) == "Sha384"@,
        prf_name(PrfAlg::Sha512) == "Sha512"@,
        dh_name(DhGroup::Modp1024) == "Modp1024"@,
        dh_name(DhGroup::Modp1536) == "Modp1536"@,
        dh_name(DhGroup::Modp2048) == "Modp2048"@,
        dh_name(DhGroup::Modp3072) == "Modp3072"@,
        dh_name(DhGroup::Modp4096) == "Modp4096"@,
        dh_name(DhGroup::Ecp256) == "Ecp256"@,
        dh_name(DhGroup::Ecp384) == "Ecp384"@,
        id_type_name(IkeIdType::Ipv4) == "Ipv4"@,
        id_type_name(IkeIdType::Fqdn) == "Fqdn"@,
        id_type_name(IkeIdType::Rfc822) == "Rfc822"@,
        id_type_name(IkeIdType::KeyId) == "KeyId"@,
        version_name(IkeVersion::V1) == "V1"@,
        version_name(IkeVersion::V2) == "V2"@,
{
    reveal_strlit("Aes128");
    reveal_strlit("Aes192");
    reveal_strlit("Aes256");
    reveal_strlit("Sha1");
    reveal_strlit("Sha256");
    reveal_strlit("Sha384");
    reveal_strlit("Sha512");
    reveal_strlit("Modp1024");
    reveal_strlit("Modp1536");
    reveal_strlit("Modp2048");
    reveal_strlit("Modp3072");
    reveal_strlit("Modp4096");
    reveal_strlit("Ecp256");
    reveal_strlit("Ecp384");
    assert("Aes128"@[3] == '1' && "Aes192"@[3] == '1' && "Aes256"@[3] == '2');
    assert("Aes128"@[4] == '2' && "Aes192"@[4] == '9');
    assert("Sha1"@.len() == 4 && "Sha256"@.len() == 6 && "Sha384"@.len() == 6 && "Sha512"@.len()
        == 6);
    assert("Sha256"@[3] == '2' && "Sha384"@[3] == '3' && "Sha512"@[3] == '5');
    assert("Modp1024"@.len() == 8 && "Modp1536"@.len() == 8 && "Modp2048"@.len() == 8
        && "Modp3072"@.len() == 8 && "Modp4096"@.len() == 8 && "Ecp256"@.len() == 6
        && "Ecp384"@.len() == 6);
    assert("Modp1024"@[4] == '1' && "Modp1536"@[4] == '1' && "Modp2048"@[4] == '2'
        && "Modp3072"@[4] == '3' && "Modp4096"@[4] == '4');
    assert("Modp1024"@[5] == '0' && "Modp1536"@[5] == '5');
    assert("Ecp256"@[3] == '2' && "Ecp384"@[3] == '3');
}

/// What a connection may have or not is shown as such; the user authentication with its name and
/// both switches, a network with its address and prefix, and probing with its delay.
pub proof fn law_dump_shows_the_details(
    o: Seq<char>,
    u: UserAuthView,
    n: Ipv4Net,
    d: DpdConfig,
    dns: DnsView,
)
    ensures
        option_text(None) == "None"@,
        option_text(Some(o)) == "Some("@ + o + ")"@,
        quoted_option(None) == "None"@,
        quoted_option(Some(o)) == "Some("@ + debug_quoted(o) + ")"@,
        begins(
            user_text(u),
            "UserAuth { username: "@ + quoted_option(u.username) + ", can_save: "@,
        ),
        u.can_save ==> has(user_text(u), ", can_save: "@ + "true"@ + ", otp: "@),
        !u.can_save ==> has(user_text(u), ", can_save: "@ + "false"@ + ", otp: "@),
        u.otp ==> has(user_text(u), ", otp: "@ + "true"@ + " }"@),
        !u.otp ==> has(user_text(u), ", otp: "@ + "false"@ + " }"@),
        net_text(n) == "Ipv4Net { addr: "@ + n.addr.dotted() + ", prefix_len: "@ + decimal(
            n.prefix_len as nat,
        ) + " }"@,
        d.auto_reconnect ==> dpd_text(d) == "DpdConfig { delay_secs: "@ + decimal(
            d.delay_secs as nat,
        ) + ", auto_reconnect: "@ + "true"@ + " }"@,
        !d.auto_reconnect ==> dpd_text(d) == "DpdConfig { delay_secs: "@ + decimal(
            d.delay_secs as nat,
        ) + ", auto_reconnect: "@ + "false"@ + " }"@,
        dns_text(dns) == "DnsConfig { servers: "@ + ("["@ + join_all(
            Seq::new(dns.servers.len(), |i: int| dns.servers[i].dotted()),
            ", "@,
        ) + "]"@) + ", domain: "@ + quoted_option(dns.domain) + " }"@,
{
    let (t0, t1, t2, t3, t4, t5, t6) = (
        "UserAuth { username: "@,
        quoted_option(u.username),
        ", can_save: "@,
        truth_name(u.can_save),
        ", otp: "@,
        truth_name(u.otp),
        " }"@,
    );
    let s = user_text(u);
    let head = t0 + t1 + t2;
    assert(s.subrange(0, head.len() as int) =~= head);
    lemma_row_stands(t0 + t1, t2, t3, t4);
    lemma_stands_before(head + t3 + t4, t5, t2 + t3 + t4);
    lemma_stands_before(head + t3 + t4 + t5, t6, t2 + t3 + t4);
    lemma_row_stands(head + t3, t4, t5, t6);
    assert(address_texts(dns.servers) =~= Seq::new(
        dns.servers.len(),
        |i: int| dns.servers[i].dotted(),
    ));
}

} // verus!
