//! Translates a connection into vici messages.
//!
//! This mirrors the structure of swanctl.conf but hands everything to charon over the control
//! socket: the pre-shared key travels in `load-shared` and is never written to a file.

use crate::ipv4::Ipv4Net;
use crate::model::{
    esp_text, holds, ike_text, law_own_proposal_comes_first, opt_view, AuthMethod, ConfigView,
    ConnectionConfig, IkeIdType, IkeVersion, Secret, UserAuthView,
};
use crate::text::{decimal, format_u64, lossy, views};
use crate::vici::message::{
    element_from, empty_message, law_first_of_a_name_counts, law_written_is_read, Message,
    MessageView, ValueView,
};
use vstd::prelude::*;
use vstd::utf8::{encode_utf8, encode_utf8_decode_utf8, encode_utf8_valid_utf8};

verus! {

/// The CIDR texts of a list of networks.
pub open spec fn cidr_texts(nets: Seq<Ipv4Net>) -> Seq<Seq<char>> {
    Seq::new(nets.len(), |i: int| nets[i].cidr())
}

/// The first local authentication round: the pre-shared key, under the local identity.
pub open spec fn local_round(c: ConfigView) -> MessageView {
    let m = empty_message().with_str("auth"@, "psk"@);
    match c.local_id_wire() {
        Some(id) => m.with_str("id"@, id),
        None => m,
    }
}

/// strongSwan's name for the second round: XAuth under IKEv1, EAP under IKEv2.
pub open spec fn user_method(version: IkeVersion) -> Seq<char> {
    match version {
        IkeVersion::V1 => "xauth"@,
        IkeVersion::V2 => "eap-mschapv2"@,
    }
}

/// The second local authentication round. XAuth and EAP name the identity differently.
pub open spec fn user_round(u: UserAuthView, version: IkeVersion) -> MessageView {
    let m = empty_message().with_str("auth"@, user_method(version));
    match u.username {
        None => m,
        Some(user) => match version {
            IkeVersion::V1 => m.with_str("xauth_id"@, user),
            IkeVersion::V2 => m.with_str("eap_id"@, user),
        },
    }
}

/// The configuration of a CHILD_SA for the given networks.
pub open spec fn child_message(c: ConfigView, esp: Seq<Seq<char>>, nets: Seq<Ipv4Net>) -> MessageView {
    let on_fail = if c.dpd.auto_reconnect {
        "restart"@
    } else {
        "clear"@
    };
    let on_close = if c.dpd.auto_reconnect {
        "restart"@
    } else {
        "none"@
    };
    let m = empty_message().with_list("esp_proposals"@, esp).with_str(
        "start_action"@,
        "none"@,
    ).with_str("dpd_action"@, on_fail).with_str("close_action"@, on_close);
    let m = if c.compression {
        m.with_str("ipcomp"@, "yes"@)
    } else {
        m
    };
    if nets.len() > 0 {
        m.with_list("remote_ts"@, cidr_texts(nets))
    } else {
        m
    }
}

/// The configuration of the IKE SA, with its children.
pub open spec fn conn_message(
    c: ConfigView,
    version: IkeVersion,
    ike: Seq<Seq<char>>,
    children: MessageView,
) -> MessageView {
    let m = empty_message().with_str("version"@, version.digit()).with_list(
        "remote_addrs"@,
        seq![c.gateway],
    ).with_list("proposals"@, ike);
    let m = match c.user_auth {
        None => m.with("local"@, ValueView::Section(local_round(c))),
        Some(u) => m.with("local-1"@, ValueView::Section(local_round(c))).with(
            "local-2"@,
            ValueView::Section(user_round(u, version)),
        ),
    };
    let m = m.with(
        "remote"@,
        ValueView::Section(empty_message().with_str("auth"@, "psk"@)),
    ).with("children"@, ValueView::Section(children));
    let m = if c.dpd.delay_secs > 0 {
        m.with_str("dpd_delay"@, decimal(c.dpd.delay_secs as nat) + "s"@)
    } else {
        m
    };
    if c.request_virtual_ip {
        m.with_list("vips"@, seq!["0.0.0.0"@])
    } else {
        m
    }
}

/// Whether each network gets a CHILD_SA of its own: IKEv1 negotiates one pair of traffic
/// selectors per SA, IKEv2 carries all of them in one.
pub open spec fn is_split(c: ConfigView, version: IkeVersion) -> bool {
    version == IkeVersion::V1 && c.remote_subnets.len() > 1
}

/// The name of the child for network number `i`, counted from 0.
pub open spec fn child_name(name: Seq<char>, i: int) -> Seq<char> {
    name + "-"@ + decimal((i + 1) as nat)
}

/// The names of the children to bring up.
pub open spec fn child_names(c: ConfigView, name: Seq<char>, version: IkeVersion) -> Seq<
    Seq<char>,
> {
    if is_split(c, version) {
        Seq::new(c.remote_subnets.len(), |i: int| child_name(name, i))
    } else {
        seq![name]
    }
}

/// The children for the first `n` networks, one each, with the given proposals.
pub open spec fn split_children(
    c: ConfigView,
    name: Seq<char>,
    esp: Seq<Seq<char>>,
    n: int,
) -> MessageView
    decreases n,
{
    if n <= 0 {
        empty_message()
    } else {
        split_children(c, name, esp, n - 1).with(
            child_name(name, n - 1),
            ValueView::Section(child_message(c, esp, seq![c.remote_subnets[n - 1]])),
        )
    }
}

/// All children of the connection under an IKE version, with the given proposals.
pub open spec fn children_of(
    c: ConfigView,
    name: Seq<char>,
    version: IkeVersion,
    esp: Seq<Seq<char>>,
) -> MessageView {
    if is_split(c, version) {
        split_children(c, name, esp, c.remote_subnets.len() as int)
    } else {
        empty_message().with(name, ValueView::Section(child_message(c, esp, c.remote_subnets)))
    }
}

/// The argument of `load-conn`: one section, named after the connection, that offers the profile's
/// own proposals alone.
pub open spec fn load_conn(c: ConfigView, name: Seq<char>) -> MessageView {
    empty_message().with(
        name,
        ValueView::Section(
            conn_message(
                c,
                c.ike_version,
                seq![c.ike_proposal()],
                children_of(c, name, c.ike_version, seq![c.esp_proposal()]),
            ),
        ),
    )
}

/// The argument of `load-conn` for an IKE version: the profile's own proposals come first, then
/// the stronger ones.
pub open spec fn load_conn_for(c: ConfigView, name: Seq<char>, version: IkeVersion) -> MessageView {
    empty_message().with(
        name,
        ValueView::Section(
            conn_message(
                c,
                version,
                c.at_version(version).ike_proposals(),
                children_of(c, name, version, c.esp_proposals()),
            ),
        ),
    )
}

/// The identities that a secret belongs to: the own one and those of the peer, each once; any
/// identity when there is none.
pub open spec fn owners_of(own: Option<Seq<char>>, peers: Seq<Seq<char>>) -> Seq<Seq<char>> {
    let start = match own {
        Some(id) => seq![id],
        None => Seq::empty(),
    };
    let all = with_peers(start, peers, peers.len() as int);
    if all.len() == 0 {
        seq!["%any"@]
    } else {
        all
    }
}

/// `start` and those of the first `n` peers that are new.
pub open spec fn with_peers(start: Seq<Seq<char>>, peers: Seq<Seq<char>>, n: int) -> Seq<Seq<char>>
    decreases n,
{
    if n <= 0 {
        start
    } else {
        crate::model::push_new(with_peers(start, peers, n - 1), peers[n - 1])
    }
}

/// The argument of `load-shared` with the pre-shared key.
pub open spec fn load_shared(c: ConfigView, name: Seq<char>, peers: Seq<Seq<char>>) -> MessageView {
    empty_message().with_str("id"@, "ike-"@ + name).with_str("type"@, "IKE"@).with_str(
        "data"@,
        c.secret,
    ).with_list("owners"@, owners_of(c.local_id_wire(), peers))
}

/// The user name of the second round, when one is known.
pub open spec fn user_name(c: ConfigView) -> Option<Seq<char>> {
    match c.user_auth {
        Some(u) => u.username,
        None => None,
    }
}

/// The argument of `load-shared` with the password of the second round.
pub open spec fn load_user(
    c: ConfigView,
    name: Seq<char>,
    password: Seq<char>,
    version: IkeVersion,
    peers: Seq<Seq<char>>,
) -> MessageView {
    empty_message().with_str("id"@, "user-"@ + name).with_str(
        "type"@,
        match version {
            IkeVersion::V1 => "XAUTH"@,
            IkeVersion::V2 => "EAP"@,
        },
    ).with_str("data"@, password).with_list("owners"@, owners_of(user_name(c), peers))
}

fn subnet_texts(nets: &Vec<Ipv4Net>, from: usize, to: usize) -> (r: Vec<String>)
    requires
        from <= to <= nets@.len(),
    ensures
        views(r@) == cidr_texts(nets@.subrange(from as int, to as int)),
{
    let mut out: Vec<String> = Vec::new();
    let mut i: usize = from;
    while i < to
        invariant
            from <= i <= to <= nets@.len(),
            out@.len() == i - from,
            forall|k: int| 0 <= k < i - from ==> (#[trigger] out@[k])@ == nets@[from + k].cidr(),
        decreases to - i,
    {
        out.push(nets[i].to_text());
        i = i + 1;
    }
    assert(views(out@) =~= cidr_texts(nets@.subrange(from as int, to as int)));
    out
}

fn one(s: String) -> (r: Vec<String>)
    ensures
        views(r@) == seq![s@],
{
    let mut v: Vec<String> = Vec::new();
    v.push(s);
    assert(views(v@) =~= seq![s@]);
    v
}

/// The child for the networks `from..to`.
fn build_child(config: &ConnectionConfig, esp: Vec<String>, from: usize, to: usize) -> (r: Message)
    requires
        from <= to <= config.remote_subnets@.len(),
    ensures
        r@ == child_message(
            config@,
            views(esp@),
            config.remote_subnets@.subrange(from as int, to as int),
        ),
{
    let on_fail = if config.dpd.auto_reconnect {
        "restart"
    } else {
        "clear"
    };
    let on_close = if config.dpd.auto_reconnect {
        "restart"
    } else {
        "none"
    };
    let mut child = Message::new().list("esp_proposals", esp).str("start_action", "none").str(
        "dpd_action",
        on_fail,
    ).str("close_action", on_close);
    if config.compression {
        child = child.str("ipcomp", "yes");
    }
    if from < to {
        child = child.list("remote_ts", subnet_texts(&config.remote_subnets, from, to));
    }
    child
}

fn build_conn(
    config: &ConnectionConfig,
    version: IkeVersion,
    ike: Vec<String>,
    children: Message,
) -> (r: Message)
    ensures
        r@ == conn_message(config@, version, views(ike@), children@),
{
    let mut local = Message::new().str("auth", "psk");
    if let Some(id) = config.local_id_wire() {
        local = local.str("id", id.as_str());
    }
    let mut conn = Message::new().str("version", version.swanctl_value()).list(
        "remote_addrs",
        one(config.gateway.clone()),
    ).list("proposals", ike);
    conn = match &config.user_auth {
        None => conn.section("local", local),
        Some(u) => {
            let mut round = Message::new().str("auth", user_auth_method(version));
            if let Some(user) = &u.username {
                round = match version {
                    IkeVersion::V1 => round.str("xauth_id", user.as_str()),
                    IkeVersion::V2 => round.str("eap_id", user.as_str()),
                };
            }
            conn.section("local-1", local).section("local-2", round)
        },
    };
    conn = conn.section("remote", Message::new().str("auth", "psk")).section("children", children);
    if config.dpd.delay_secs > 0 {
        let mut delay = format_u64(config.dpd.delay_secs as u64);
        delay.append("s");
        conn = conn.str("dpd_delay", delay.as_str());
    }
    if config.request_virtual_ip {
        conn = conn.list("vips", one("0.0.0.0".to_owned()));
    }
    conn
}

fn user_auth_method(version: IkeVersion) -> (r: &'static str)
    ensures
        r@ == user_method(version),
{
    match version {
        IkeVersion::V1 => "xauth",
        IkeVersion::V2 => "eap-mschapv2",
    }
}

fn name_of_child(name: &str, i: usize) -> (r: String)
    requires
        i < usize::MAX,
    ensures
        r@ == child_name(name@, i as int),
{
    let mut s = name.to_owned();
    s.append("-");
    s.append(format_u64((i + 1) as u64).as_str());
    s
}

/// The names of the children to bring up under an IKE version: one per network where each needs
/// its own, else one of the connection's name.
pub fn child_names_for(config: &ConnectionConfig, name: &str, version: IkeVersion) -> (r: Vec<
    String,
>)
    ensures
        views(r@) == child_names(config@, name@, version),
{
    if version == IkeVersion::V1 && config.remote_subnets.len() > 1 {
        let mut out: Vec<String> = Vec::new();
        let mut i: usize = 0;
        while i < config.remote_subnets.len()
            invariant
                i <= config.remote_subnets@.len(),
                out@.len() == i,
                forall|k: int| 0 <= k < i ==> (#[trigger] out@[k])@ == child_name(name@, k),
            decreases config.remote_subnets@.len() - i,
        {
            out.push(name_of_child(name, i));
            i = i + 1;
        }
        assert(views(out@) =~= child_names(config@, name@, version));
        out
    } else {
        one(name.to_owned())
    }
}

fn copy_of(v: &Vec<String>) -> (r: Vec<String>)
    ensures
        views(r@) == views(v@),
{
    let mut out: Vec<String> = Vec::new();
    let mut i: usize = 0;
    while i < v.len()
        invariant
            i <= v@.len(),
            out@.len() == i,
            forall|k: int| 0 <= k < i ==> (#[trigger] out@[k])@ == v@[k]@,
        decreases v@.len() - i,
    {
        out.push(v[i].clone());
        i = i + 1;
    }
    assert(views(out@) =~= views(v@));
    out
}

fn build_children(config: &ConnectionConfig, name: &str, version: IkeVersion, esp: Vec<String>) -> (r:
    Message)
    ensures
        r@ == children_of(config@, name@, version, views(esp@)),
{
    let n: usize = config.remote_subnets.len();
    if version == IkeVersion::V1 && n > 1 {
        let mut children = Message::new();
        let mut i: usize = 0;
        while i < n
            invariant
                i <= n,
                n == config.remote_subnets@.len(),
                children@ == split_children(config@, name@, views(esp@), i as int),
            decreases n - i,
        {
            let child = build_child(config, copy_of(&esp), i, i + 1);
            assert(config.remote_subnets@.subrange(i as int, i + 1) =~= seq![
                config@.remote_subnets[i as int],
            ]);
            children = children.section(name_of_child(name, i).as_str(), child);
            i = i + 1;
        }
        children
    } else {
        assert(config.remote_subnets@.subrange(0, n as int) =~= config.remote_subnets@);
        Message::new().section(name, build_child(config, esp, 0, n))
    }
}

/// Builds the argument of `load-conn`: a message with a single section named after the
/// connection. It holds no secret.
pub fn load_conn_message(config: &ConnectionConfig, name: &str) -> (r: Message)
    ensures
        r@ == load_conn(config@, name@),
{
    let children = build_children(config, name, config.ike_version, one(config.esp_proposal()));
    let conn = build_conn(config, config.ike_version, one(config.ike_proposal()), children);
    Message::new().section(name, conn)
}

/// Builds the argument of `load-conn` for an attempt at one IKE version, with the stronger
/// alternatives offered after the profile's own proposals. It holds no secret.
pub fn load_conn_message_for(config: &ConnectionConfig, name: &str, version: IkeVersion) -> (r:
    Message)
    ensures
        r@ == load_conn_for(config@, name@, version),
{
    let children = build_children(config, name, version, config.esp_proposals());
    let conn = build_conn(config, version, config.ike_proposals_for(version), children);
    Message::new().section(name, conn)
}

/// The identities that a secret belongs to.
pub fn secret_owners(own: Option<String>, peers: &Vec<String>) -> (r: Vec<String>)
    ensures
        views(r@) == owners_of(opt_view(own), views(peers@)),
{
    let ghost start = match opt_view(own) {
        Some(id) => seq![id],
        None => Seq::empty(),
    };
    let ghost all = views(peers@);
    let mut out: Vec<String> = Vec::new();
    if let Some(id) = own {
        out.push(id);
    }
    assert(views(out@) =~= start);
    let mut i: usize = 0;
    while i < peers.len()
        invariant
            i <= peers@.len(),
            all == views(peers@),
            views(out@) == with_peers(start, all, i as int),
        decreases peers@.len() - i,
    {
        assert(all[i as int] == peers@[i as int]@);
        if !holds(&out, peers[i].as_str()) {
            let ghost before = out@;
            out.push(peers[i].clone());
            assert(views(out@) =~= views(before).push(all[i as int]));
        }
        i = i + 1;
    }
    assert(views(out@).len() == out@.len());
    if out.len() == 0 {
        out.push("%any".to_owned());
        assert(views(out@) =~= seq!["%any"@]);
    }
    out
}

/// Builds the argument of `load-shared` with the pre-shared key. The plaintext lives only in
/// the returned message.
pub fn load_shared_message(config: &ConnectionConfig, name: &str) -> (r: Message)
    ensures
        r@ == load_shared(config@, name@, Seq::empty()),
{
    let peers: Vec<String> = Vec::new();
    assert(views(peers@) =~= Seq::empty());
    load_shared_message_for(config, name, &peers)
}

/// Builds the argument of `load-shared` with the pre-shared key, for a peer that may present
/// any of the given identities.
pub fn load_shared_message_for(config: &ConnectionConfig, name: &str, peers: &Vec<String>) -> (r:
    Message)
    ensures
        r@ == load_shared(config@, name@, views(peers@)),
{
    let AuthMethod::PresharedKey(psk) = &config.auth;
    let mut id = "ike-".to_owned();
    id.append(name);
    Message::new().str("id", id.as_str()).str("type", "IKE").str("data", psk.expose()).list(
        "owners",
        secret_owners(config.local_id_wire(), peers),
    )
}

/// Builds the argument of `load-shared` with the password of the second round. The password is
/// the user's: it is collected at connect time and never lives in the configuration.
pub fn load_shared_user_auth_message(
    config: &ConnectionConfig,
    name: &str,
    password: &Secret,
) -> (r: Message)
    ensures
        r@ == load_user(config@, name@, password@, config@.ike_version, Seq::empty()),
{
    let peers: Vec<String> = Vec::new();
    assert(views(peers@) =~= Seq::empty());
    load_shared_user_auth_message_for(config, name, password, config.ike_version, &peers)
}

/// Builds the argument of `load-shared` with the password of the second round, for an attempt
/// at one IKE version.
pub fn load_shared_user_auth_message_for(
    config: &ConnectionConfig,
    name: &str,
    password: &Secret,
    version: IkeVersion,
    peers: &Vec<String>,
) -> (r: Message)
    ensures
        r@ == load_user(config@, name@, password@, version, views(peers@)),
{
    let kind = match version {
        IkeVersion::V1 => "XAUTH",
        IkeVersion::V2 => "EAP",
    };
    let own = match &config.user_auth {
        Some(u) => match &u.username {
            Some(user) => Some(user.clone()),
            None => None,
        },
        None => None,
    };
    let mut id = "user-".to_owned();
    id.append(name);
    Message::new().str("id", id.as_str()).str("type", kind).str("data", password.expose()).list(
        "owners",
        secret_owners(own, peers),
    )
}

proof fn lemma_offer_hides_the_secret(c: ConfigView, secret: Seq<char>, k: int)
    ensures
        (ConfigView { secret, ..c }).ike_offer(k) == c.ike_offer(k),
        (ConfigView { secret, ..c }).esp_offer(k) == c.esp_offer(k),
    decreases k,
{
    let d = ConfigView { secret, ..c };
    if k > 0 {
        lemma_offer_hides_the_secret(c, secret, k - 1);
        assert(d.alt_integ(k - 1) == c.alt_integ(k - 1) && d.alt_dh(k - 1) == c.alt_dh(k - 1));
        assert(d.alt_integ(3 * (k - 1)) == c.alt_integ(3 * (k - 1)));
    }
}

proof fn lemma_children_hide_the_secret(
    c: ConfigView,
    secret: Seq<char>,
    name: Seq<char>,
    esp: Seq<Seq<char>>,
    n: int,
)
    ensures
        split_children(ConfigView { secret, ..c }, name, esp, n) == split_children(
            c,
            name,
            esp,
            n,
        ),
    decreases n,
{
    if n > 0 {
        lemma_children_hide_the_secret(c, secret, name, esp, n - 1);
    }
}

/// What is loaded as the connection does not depend on the pre-shared key: the key travels in
/// `load-shared` alone.
pub proof fn law_load_conn_hides_the_secret(
    c: ConfigView,
    secret: Seq<char>,
    name: Seq<char>,
    version: IkeVersion,
)
    ensures
        load_conn(ConfigView { secret, ..c }, name) == load_conn(c, name),
        load_conn_for(ConfigView { secret, ..c }, name, version) == load_conn_for(
            c,
            name,
            version,
        ),
{
    let d = ConfigView { secret, ..c };
    lemma_offer_hides_the_secret(c, secret, 3);
    lemma_offer_hides_the_secret(c.at_version(version), secret, 9);
    assert(d.at_version(version) == (ConfigView { secret, ..c.at_version(version) }));
    let n = c.remote_subnets.len() as int;
    assert(d.esp_proposals() == c.esp_proposals());
    lemma_children_hide_the_secret(c, secret, name, c.esp_proposals(), n);
    lemma_children_hide_the_secret(c, secret, name, seq![c.esp_proposal()], n);
    assert(local_round(d) == local_round(c));
    assert(children_of(d, name, version, c.esp_proposals()) == children_of(
        c,
        name,
        version,
        c.esp_proposals(),
    ));
}

/// What is loaded as the pre-shared key carries it, for the peers that may present it.
pub proof fn law_load_shared_carries_the_secret(
    c: ConfigView,
    name: Seq<char>,
    peers: Seq<Seq<char>>,
)
    ensures
        load_shared(c, name, peers).get_str("data"@) == Some(c.secret),
        load_shared(c, name, peers).get_str("id"@) == Some("ike-"@ + name),
{
    let m = load_shared(c, name, peers);
    lemma_third(m);
    encode_utf8_valid_utf8(c.secret);
    encode_utf8_decode_utf8(c.secret);
    encode_utf8_valid_utf8("ike-"@ + name);
    encode_utf8_decode_utf8("ike-"@ + name);
}

/// The first and the third element of a secret are its name and its value.
proof fn lemma_third(m: MessageView)
    requires
        m.entries.len() >= 3,
        m.entries[0].0 == "id"@,
        m.entries[1].0 == "type"@,
        m.entries[2].0 == "data"@,
    ensures
        m.get("id"@) == Some(m.entries[0].1),
        m.get("data"@) == Some(m.entries[2].1),
{
    reveal_strlit("id");
    reveal_strlit("type");
    reveal_strlit("data");
    assert("id"@.len() == 2 && "type"@.len() == 4 && "data"@.len() == 4);
    assert("type"@[0] == 't' && "data"@[0] == 'd');
    reveal_with_fuel(element_from, 4);
}

/// The password of the second round is a secret of its own: it is loaded under another name than
/// the pre-shared key, and its message does not depend on that key.
pub proof fn law_user_secret_is_separate(
    c: ConfigView,
    secret: Seq<char>,
    name: Seq<char>,
    password: Seq<char>,
    version: IkeVersion,
    peers: Seq<Seq<char>>,
)
    ensures
        load_user(c, name, password, version, peers).get_str("id"@) == Some("user-"@ + name),
        load_user(c, name, password, version, peers).get_str("data"@) == Some(password),
        "user-"@ + name != "ike-"@ + name,
        load_user(ConfigView { secret, ..c }, name, password, version, peers) == load_user(
            c,
            name,
            password,
            version,
            peers,
        ),
{
    lemma_third(load_user(c, name, password, version, peers));
    encode_utf8_valid_utf8(password);
    encode_utf8_decode_utf8(password);
    encode_utf8_valid_utf8("user-"@ + name);
    encode_utf8_decode_utf8("user-"@ + name);
    reveal_strlit("user-");
    reveal_strlit("ike-");
    assert(("user-"@ + name)[0] == 'u');
    assert(("ike-"@ + name)[0] == 'i');
}

proof fn lemma_split_children(c: ConfigView, name: Seq<char>, esp: Seq<Seq<char>>, n: int)
    requires
        0 <= n,
    ensures
        split_children(c, name, esp, n).entries.len() == n,
        forall|i: int|
            0 <= i < n ==> #[trigger] split_children(c, name, esp, n).entries[i] == (
                child_name(name, i),
                ValueView::Section(child_message(c, esp, seq![c.remote_subnets[i]])),
            ),
    decreases n,
{
    if n > 0 {
        lemma_split_children(c, name, esp, n - 1);
        let before = split_children(c, name, esp, n - 1);
        let now = split_children(c, name, esp, n);
        assert forall|i: int| 0 <= i < n implies #[trigger] now.entries[i] == (
            child_name(name, i),
            ValueView::Section(child_message(c, esp, seq![c.remote_subnets[i]])),
        ) by {
            if i < n - 1 {
                assert(now.entries[i] == before.entries[i]);
            }
        }
    }
}

/// Every child that is brought up is one that was loaded, and the other way round.
pub proof fn law_children_are_loaded(
    c: ConfigView,
    name: Seq<char>,
    version: IkeVersion,
    esp: Seq<Seq<char>>,
)
    ensures
        children_of(c, name, version, esp).entries.len() == child_names(c, name, version).len(),
        forall|i: int|
            0 <= i < child_names(c, name, version).len() ==> (
            #[trigger] children_of(c, name, version, esp).entries[i]).0 == child_names(
                c,
                name,
                version,
            )[i],
{
    lemma_split_children(c, name, esp, c.remote_subnets.len() as int);
}

/// The networks of a child are the last of its elements.
proof fn lemma_networks_of_child(c: ConfigView, esp: Seq<Seq<char>>, nets: Seq<Ipv4Net>)
    requires
        nets.len() > 0,
    ensures
        child_message(c, esp, nets).get_list("remote_ts"@) == Some(cidr_texts(nets)),
{
    reveal_strlit("esp_proposals");
    reveal_strlit("start_action");
    reveal_strlit("dpd_action");
    reveal_strlit("close_action");
    reveal_strlit("ipcomp");
    reveal_strlit("remote_ts");
    assert("remote_ts"@.len() == 9 && "esp_proposals"@.len() == 13 && "start_action"@.len() == 12);
    assert("dpd_action"@.len() == 10 && "close_action"@.len() == 12 && "ipcomp"@.len() == 6);
    reveal_with_fuel(element_from, 7);
    let texts = cidr_texts(nets);
    let m = child_message(c, esp, nets);
    let bytes = Seq::new(texts.len(), |i: int| encode_utf8(texts[i]));
    assert(m.get("remote_ts"@) == Some(ValueView::List(bytes)));
    assert forall|i: int| 0 <= i < texts.len() implies #[trigger] lossy(bytes[i]) == texts[i] by {
        encode_utf8_valid_utf8(texts[i]);
        encode_utf8_decode_utf8(texts[i]);
    }
    assert(Seq::new(bytes.len(), |i: int| lossy(bytes[i])) =~= texts);
}

/// Under IKEv1 every one of several networks has a child of its own, numbered from 1, that carries
/// it and no other: a child with several would be narrowed to the first.
pub proof fn law_ikev1_children_carry_one_network(
    c: ConfigView,
    name: Seq<char>,
    esp: Seq<Seq<char>>,
)
    requires
        c.remote_subnets.len() >= 2,
    ensures
        ({
            let children = children_of(c, name, IkeVersion::V1, esp);
            &&& children.entries.len() == c.remote_subnets.len()
            &&& forall|i: int|
                0 <= i < c.remote_subnets.len() ==> {
                    &&& (#[trigger] children.entries[i]).0 == name + "-"@ + decimal((i + 1) as nat)
                    &&& children.entries[i].1 matches ValueView::Section(child)
                    &&& child.get_list("remote_ts"@) == Some(seq![c.remote_subnets[i].cidr()])
                }
        }),
{
    let n = c.remote_subnets.len() as int;
    lemma_split_children(c, name, esp, n);
    let children = children_of(c, name, IkeVersion::V1, esp);
    assert forall|i: int| 0 <= i < n implies {
        &&& (#[trigger] children.entries[i]).0 == name + "-"@ + decimal((i + 1) as nat)
        &&& children.entries[i].1 matches ValueView::Section(child)
        &&& child.get_list("remote_ts"@) == Some(seq![c.remote_subnets[i].cidr()])
    } by {
        let nets = seq![c.remote_subnets[i]];
        lemma_networks_of_child(c, esp, nets);
        assert(cidr_texts(nets) =~= seq![c.remote_subnets[i].cidr()]);
    }
}

proof fn lemma_children_of_conn(
    c: ConfigView,
    version: IkeVersion,
    ike: Seq<Seq<char>>,
    children: MessageView,
)
    ensures
        conn_message(c, version, ike, children).get_section("children"@) == Some(children),
{
    reveal_strlit("version");
    reveal_strlit("remote_addrs");
    reveal_strlit("proposals");
    reveal_strlit("local");
    reveal_strlit("local-1");
    reveal_strlit("local-2");
    reveal_strlit("remote");
    reveal_strlit("children");
    assert("children"@.len() == 8 && "version"@.len() == 7 && "remote_addrs"@.len() == 12);
    assert("proposals"@.len() == 9 && "local"@.len() == 5 && "remote"@.len() == 6);
    assert("local-1"@.len() == 7 && "local-2"@.len() == 7);
    reveal_with_fuel(element_from, 9);
}

/// What is loaded as the connection holds its children under that name, whichever proposals are
/// offered.
pub proof fn law_connection_holds_its_children(
    c: ConfigView,
    name: Seq<char>,
    version: IkeVersion,
)
    ensures
        load_conn(c, name).get_section(name) matches Some(conn) && conn.get_section("children"@)
            == Some(children_of(c, name, c.ike_version, seq![c.esp_proposal()])),
        load_conn_for(c, name, version).get_section(name) matches Some(conn) && conn.get_section(
            "children"@,
        ) == Some(children_of(c, name, version, c.esp_proposals())),
{
    reveal_with_fuel(element_from, 2);
    lemma_children_of_conn(
        c,
        c.ike_version,
        seq![c.ike_proposal()],
        children_of(c, name, c.ike_version, seq![c.esp_proposal()]),
    );
    lemma_children_of_conn(
        c,
        version,
        c.at_version(version).ike_proposals(),
        children_of(c, name, version, c.esp_proposals()),
    );
}

proof fn lemma_with_peers(start: Seq<Seq<char>>, peers: Seq<Seq<char>>, n: int)
    requires
        0 <= n <= peers.len(),
        start.no_duplicates(),
    ensures
        with_peers(start, peers, n).no_duplicates(),
        with_peers(start, peers, n).len() >= start.len(),
        with_peers(start, peers, n).take(start.len() as int) == start,
        forall|k: int| 0 <= k < n ==> with_peers(start, peers, n).contains(#[trigger] peers[k]),
    decreases n,
{
    if n > 0 {
        lemma_with_peers(start, peers, n - 1);
        let before = with_peers(start, peers, n - 1);
        let now = with_peers(start, peers, n);
        assert(now.take(start.len() as int) =~= before.take(start.len() as int));
        assert forall|k: int| 0 <= k < n implies now.contains(#[trigger] peers[k]) by {
            if k < n - 1 {
                let j = choose|j: int| 0 <= j < before.len() && before[j] == peers[k];
                assert(now[j] == peers[k]);
            } else if !before.contains(peers[k]) {
                assert(now[before.len() as int] == peers[k]);
            }
        }
    } else {
        assert(start.take(start.len() as int) =~= start);
    }
}

/// A secret always has an owner: its own identity first, then every identity of the peer, each
/// once; with none of them it belongs to any.
pub proof fn law_secrets_have_owners(own: Option<Seq<char>>, peers: Seq<Seq<char>>)
    ensures
        owners_of(own, peers).len() > 0,
        owners_of(own, peers).no_duplicates(),
        own matches Some(id) ==> owners_of(own, peers)[0] == id,
        forall|k: int| 0 <= k < peers.len() ==> owners_of(own, peers).contains(#[trigger] peers[k]),
{
    let start = match own {
        Some(id) => seq![id],
        None => Seq::empty(),
    };
    let n = peers.len() as int;
    lemma_with_peers(start, peers, n);
    let all = with_peers(start, peers, n);
    if own is Some {
        assert(all.take(1)[0] == start[0]);
    }
    if n > 0 {
        assert(all.contains(peers[0]));
    }
}

/// The keys of a connection are told apart.
proof fn lemma_conn_keys()
    ensures
        "version"@.len() == 7 && "version"@[0] == 'v',
        "remote_addrs"@.len() == 12,
        "proposals"@.len() == 9 && "proposals"@[0] == 'p',
        "local"@.len() == 5,
        "local-1"@.len() == 7 && "local-1"@[0] == 'l' && "local-1"@[6] == '1',
        "local-2"@.len() == 7 && "local-2"@[0] == 'l' && "local-2"@[6] == '2',
        "remote"@.len() == 6,
        "children"@.len() == 8,
        "dpd_delay"@.len() == 9 && "dpd_delay"@[0] == 'd',
        "vips"@.len() == 4,
{
    reveal_strlit("version");
    reveal_strlit("remote_addrs");
    reveal_strlit("proposals");
    reveal_strlit("local");
    reveal_strlit("local-1");
    reveal_strlit("local-2");
    reveal_strlit("remote");
    reveal_strlit("children");
    reveal_strlit("dpd_delay");
    reveal_strlit("vips");
}

proof fn lemma_text_back(s: Seq<char>)
    ensures
        lossy(encode_utf8(s)) == s,
{
    encode_utf8_valid_utf8(s);
    encode_utf8_decode_utf8(s);
}

proof fn lemma_list_back(items: Seq<Seq<char>>)
    ensures
        ({
            let bytes = Seq::new(items.len(), |i: int| encode_utf8(items[i]));
            Seq::new(bytes.len(), |i: int| lossy(bytes[i])) == items
        }),
{
    let bytes = Seq::new(items.len(), |i: int| encode_utf8(items[i]));
    assert forall|i: int| 0 <= i < items.len() implies #[trigger] lossy(bytes[i]) == items[i] by {
        lemma_text_back(items[i]);
    }
    assert(Seq::new(bytes.len(), |i: int| lossy(bytes[i])) =~= items);
}

/// What a connection says, key by key.
#[verifier::rlimit(60)]
proof fn lemma_conn_says(
    c: ConfigView,
    version: IkeVersion,
    ike: Seq<Seq<char>>,
    children: MessageView,
)
    ensures
        ({
            let m = conn_message(c, version, ike, children);
            &&& m.get_str("version"@) == Some(version.digit())
            &&& m.get_list("remote_addrs"@) == Some(seq![c.gateway])
            &&& m.get_list("proposals"@) == Some(ike)
            &&& m.get_section("children"@) == Some(children)
            &&& m.get_section("remote"@) == Some(empty_message().with_str("auth"@, "psk"@))
            &&& c.user_auth is None ==> m.get_section("local"@) == Some(local_round(c)) && m.get(
                "local-1"@,
            ) is None && m.get("local-2"@) is None
            &&& c.user_auth matches Some(u) ==> m.get("local"@) is None && m.get_section(
                "local-1"@,
            ) == Some(local_round(c)) && m.get_section("local-2"@) == Some(user_round(u, version))
            &&& c.dpd.delay_secs > 0 ==> m.get_str("dpd_delay"@) == Some(
                decimal(c.dpd.delay_secs as nat) + "s"@,
            )
            &&& c.dpd.delay_secs == 0 ==> m.get("dpd_delay"@) is None
            &&& c.request_virtual_ip ==> m.get_list("vips"@) == Some(seq!["0.0.0.0"@])
            &&& !c.request_virtual_ip ==> m.get("vips"@) is None
        }),
{
    lemma_conn_keys();
    lemma_text_back(version.digit());
    lemma_list_back(seq![c.gateway]);
    lemma_list_back(ike);
    lemma_text_back(decimal(c.dpd.delay_secs as nat) + "s"@);
    lemma_list_back(seq!["0.0.0.0"@]);
    reveal_with_fuel(element_from, 12);
}

/// The section that `load-conn` carries under the name of the connection dials the gateway of the
/// profile and no other address, speaks the version of the attempt, and offers the proposals for
/// that version, the profile's own first. It asks for a virtual address exactly when the profile
/// does, and probes the peer at the profile's interval.
pub proof fn law_load_conn_dials_the_gateway(c: ConfigView, name: Seq<char>, version: IkeVersion)
    ensures
        load_conn_for(c, name, version).entries.len() == 1,
        load_conn_for(c, name, version).get_section(name) matches Some(conn) && {
            &&& conn.get_list("remote_addrs"@) == Some(seq![c.gateway])
            &&& version == IkeVersion::V1 ==> conn.get_str("version"@) == Some("1"@)
            &&& version == IkeVersion::V2 ==> conn.get_str("version"@) == Some("2"@)
            &&& conn.get_list("proposals"@) matches Some(p) && p.len() > 0 && p[0] == ike_text(
                version,
                c.ike_enc,
                c.ike_integ,
                c.ike_prf,
                c.ike_dh,
            ) && p == c.at_version(version).ike_proposals()
            &&& c.request_virtual_ip ==> conn.get_list("vips"@) == Some(seq!["0.0.0.0"@])
            &&& !c.request_virtual_ip ==> conn.get("vips"@) is None
            &&& c.dpd.delay_secs > 0 ==> conn.get_str("dpd_delay"@) == Some(
                decimal(c.dpd.delay_secs as nat) + "s"@,
            )
            &&& c.dpd.delay_secs == 0 ==> conn.get("dpd_delay"@) is None
            &&& conn.get_section("remote"@) matches Some(r) && r.get_str("auth"@) == Some("psk"@)
        },
        load_conn(c, name).entries.len() == 1,
        load_conn(c, name).get_section(name) matches Some(conn) && {
            &&& conn.get_list("remote_addrs"@) == Some(seq![c.gateway])
            &&& c.ike_version == IkeVersion::V1 ==> conn.get_str("version"@) == Some("1"@)
            &&& c.ike_version == IkeVersion::V2 ==> conn.get_str("version"@) == Some("2"@)
            &&& conn.get_list("proposals"@) == Some(
                seq![ike_text(c.ike_version, c.ike_enc, c.ike_integ, c.ike_prf, c.ike_dh)],
            )
            &&& c.request_virtual_ip ==> conn.get_list("vips"@) == Some(seq!["0.0.0.0"@])
            &&& !c.request_virtual_ip ==> conn.get("vips"@) is None
            &&& c.dpd.delay_secs > 0 ==> conn.get_str("dpd_delay"@) == Some(
                decimal(c.dpd.delay_secs as nat) + "s"@,
            )
            &&& c.dpd.delay_secs == 0 ==> conn.get("dpd_delay"@) is None
            &&& conn.get_section("remote"@) matches Some(r) && r.get_str("auth"@) == Some("psk"@)
        },
{
    let d = c.at_version(version);
    lemma_conn_says(
        c,
        version,
        d.ike_proposals(),
        children_of(c, name, version, c.esp_proposals()),
    );
    lemma_conn_says(
        c,
        c.ike_version,
        seq![c.ike_proposal()],
        children_of(c, name, c.ike_version, seq![c.esp_proposal()]),
    );
    law_own_proposal_comes_first(d);
    let none = empty_message();
    law_first_of_a_name_counts(none, "auth"@, ValueView::Str(Seq::empty()), "auth"@);
    law_written_is_read(none, "auth"@, "psk"@, Seq::empty(), none);
    reveal_with_fuel(element_from, 2);
}

/// Who the connection presents itself as: the pre-shared key under the identity of the profile in
/// the first round and, exactly where the profile has a second round, the user in the second, by
/// XAuth under IKEv1 and by EAP under IKEv2.
pub proof fn law_load_conn_presents_the_identity(
    c: ConfigView,
    name: Seq<char>,
    version: IkeVersion,
)
    ensures
        load_conn_for(c, name, version).get_section(name) matches Some(conn) && {
            &&& c.user_auth is None ==> {
                &&& conn.get_section("local"@) matches Some(l) && l.get_str("auth"@) == Some("psk"@)
                    && l.get_str("id"@) == c.local_id_wire()
                &&& conn.get("local-1"@) is None && conn.get("local-2"@) is None
            }
            &&& c.user_auth matches Some(u) ==> {
                &&& conn.get("local"@) is None
                &&& conn.get_section("local-1"@) matches Some(l) && l.get_str("auth"@) == Some(
                    "psk"@,
                ) && l.get_str("id"@) == c.local_id_wire()
                &&& conn.get_section("local-2"@) matches Some(l) && {
                    &&& version == IkeVersion::V1 ==> l.get_str("auth"@) == Some("xauth"@)
                        && l.get_str("xauth_id"@) == u.username && l.get("eap_id"@) is None
                    &&& version == IkeVersion::V2 ==> l.get_str("auth"@) == Some("eap-mschapv2"@)
                        && l.get_str("eap_id"@) == u.username && l.get("xauth_id"@) is None
                }
            }
        },
{
    let d = c.at_version(version);
    lemma_conn_says(
        c,
        version,
        d.ike_proposals(),
        children_of(c, name, version, c.esp_proposals()),
    );
    reveal_strlit("auth");
    reveal_strlit("id");
    reveal_strlit("xauth_id");
    reveal_strlit("eap_id");
    assert("auth"@.len() == 4 && "id"@.len() == 2 && "xauth_id"@.len() == 8 && "eap_id"@.len()
        == 6);
    lemma_text_back("psk"@);
    lemma_text_back("xauth"@);
    lemma_text_back("eap-mschapv2"@);
    if let Some(id) = c.local_id_wire() {
        lemma_text_back(id);
    }
    if let Some(u) = c.user_auth {
        if let Some(user) = u.username {
            lemma_text_back(user);
        }
    }
    reveal_with_fuel(element_from, 4);
}

/// The identity is sent as it is, behind the prefix of its declared type where it has one that
/// charon would not infer.
pub proof fn law_identity_keeps_its_type(c: ConfigView)
    ensures
        c.local_id is None <==> c.local_id_wire() is None,
        c.local_id matches Some(id) ==> {
            &&& c.local_id_type == Some(IkeIdType::Fqdn) ==> c.local_id_wire() == Some("fqdn:"@ + id)
            &&& c.local_id_type == Some(IkeIdType::Rfc822) ==> c.local_id_wire() == Some(
                "rfc822:"@ + id,
            )
            &&& c.local_id_type == Some(IkeIdType::KeyId) ==> c.local_id_wire() == Some(
                "keyid:"@ + id,
            )
            &&& c.local_id_type == Some(IkeIdType::Ipv4) || c.local_id_type is None
                ==> c.local_id_wire() == Some(id)
        },
{
}

/// Whether a child offers the proposals, carries the networks and follows the reconnect policy of a
/// connection.
pub open spec fn serves(
    child: MessageView,
    c: ConfigView,
    esp: Seq<Seq<char>>,
    nets: Seq<Seq<char>>,
) -> bool {
    &&& child.get_list("esp_proposals"@) == Some(esp)
    &&& nets.len() > 0 ==> child.get_list("remote_ts"@) == Some(nets)
    &&& nets.len() == 0 ==> child.get("remote_ts"@) is None
    &&& child.get_str("start_action"@) == Some("none"@)
    &&& c.dpd.auto_reconnect ==> child.get_str("dpd_action"@) == Some("restart"@) && child.get_str(
        "close_action"@,
    ) == Some("restart"@)
    &&& !c.dpd.auto_reconnect ==> child.get_str("dpd_action"@) == Some("clear"@) && child.get_str(
        "close_action"@,
    ) == Some("none"@)
    &&& c.compression ==> child.get_str("ipcomp"@) == Some("yes"@)
    &&& !c.compression ==> child.get("ipcomp"@) is None
}

#[verifier::rlimit(60)]
proof fn lemma_child_serves(c: ConfigView, esp: Seq<Seq<char>>, nets: Seq<Ipv4Net>)
    ensures
        serves(child_message(c, esp, nets), c, esp, cidr_texts(nets)),
{
    reveal_strlit("esp_proposals");
    reveal_strlit("start_action");
    reveal_strlit("dpd_action");
    reveal_strlit("close_action");
    reveal_strlit("ipcomp");
    reveal_strlit("remote_ts");
    assert("remote_ts"@.len() == 9 && "esp_proposals"@.len() == 13 && "start_action"@.len() == 12);
    assert("dpd_action"@.len() == 10 && "close_action"@.len() == 12 && "ipcomp"@.len() == 6);
    assert("close_action"@[0] == 'c' && "start_action"@[0] == 's');
    lemma_list_back(esp);
    lemma_list_back(cidr_texts(nets));
    lemma_text_back("none"@);
    lemma_text_back("restart"@);
    lemma_text_back("clear"@);
    lemma_text_back("yes"@);
    reveal_with_fuel(element_from, 8);
}

/// Every network of the profile is carried by the children that are loaded, and nothing else is. One
/// child named after the connection carries all of them in their order, but for several networks
/// under IKEv1, where each has a child of its own. Every child offers the profile's own ESP proposal
/// first, and reconnects when the profile says so.
pub proof fn law_load_conn_carries_the_networks(
    c: ConfigView,
    name: Seq<char>,
    version: IkeVersion,
)
    ensures
        load_conn_for(c, name, version).get_section(name) matches Some(conn) && conn.get_section(
            "children"@,
        ) matches Some(children) && {
            let esp = c.esp_proposals();
            let n = c.remote_subnets.len();
            &&& esp.len() > 0 && esp[0] == esp_text(c.esp_enc, c.esp_integ, c.pfs)
            &&& version == IkeVersion::V2 || n <= 1 ==> {
                &&& children.entries.len() == 1
                &&& children.get_section(name) matches Some(child) && serves(
                    child,
                    c,
                    esp,
                    Seq::new(n, |i: int| c.remote_subnets[i].cidr()),
                )
            }
            &&& version == IkeVersion::V1 && n > 1 ==> {
                &&& children.entries.len() == n
                &&& forall|i: int|
                    0 <= i < n ==> {
                        &&& (#[trigger] children.entries[i]).0 == name + "-"@ + decimal(
                            (i + 1) as nat,
                        )
                        &&& children.entries[i].1 matches ValueView::Section(child) && serves(
                            child,
                            c,
                            esp,
                            seq![c.remote_subnets[i].cidr()],
                        )
                    }
            }
        },
{
    let esp = c.esp_proposals();
    let n = c.remote_subnets.len() as int;
    law_connection_holds_its_children(c, name, version);
    law_own_proposal_comes_first(c);
    let children = children_of(c, name, version, esp);
    lemma_child_serves(c, esp, c.remote_subnets);
    assert(cidr_texts(c.remote_subnets) =~= Seq::new(
        c.remote_subnets.len(),
        |i: int| c.remote_subnets[i].cidr(),
    ));
    lemma_split_children(c, name, esp, n);
    if version == IkeVersion::V1 && n > 1 {
        assert forall|i: int| 0 <= i < n implies {
            &&& (#[trigger] children.entries[i]).0 == name + "-"@ + decimal((i + 1) as nat)
            &&& children.entries[i].1 matches ValueView::Section(child) && serves(
                child,
                c,
                esp,
                seq![c.remote_subnets[i].cidr()],
            )
        } by {
            let nets = seq![c.remote_subnets[i]];
            lemma_child_serves(c, esp, nets);
            assert(cidr_texts(nets) =~= seq![c.remote_subnets[i].cidr()]);
        }
    } else {
        reveal_with_fuel(element_from, 2);
    }
}

proof fn lemma_peers_only(start: Seq<Seq<char>>, peers: Seq<Seq<char>>, n: int)
    requires
        0 <= n <= peers.len(),
    ensures
        forall|k: int|
            0 <= k < with_peers(start, peers, n).len() ==> start.contains(
                #[trigger] with_peers(start, peers, n)[k],
            ) || peers.contains(with_peers(start, peers, n)[k]),
    decreases n,
{
    let now = with_peers(start, peers, n);
    if n > 0 {
        lemma_peers_only(start, peers, n - 1);
        let before = with_peers(start, peers, n - 1);
        assert forall|k: int| 0 <= k < now.len() implies start.contains(#[trigger] now[k])
            || peers.contains(now[k]) by {
            if k < before.len() {
                assert(now[k] == before[k]);
            } else {
                assert(now[k] == peers[n - 1]);
            }
        }
    } else {
        assert forall|k: int| 0 <= k < now.len() implies start.contains(#[trigger] now[k]) by {
            assert(now[k] == start[k]);
        }
    }
}

/// No one but the own identity and the peer owns a secret; it belongs to any identity exactly when
/// there is neither.
pub proof fn law_secrets_have_no_other_owners(own: Option<Seq<char>>, peers: Seq<Seq<char>>)
    ensures
        own is None && peers.len() == 0 ==> owners_of(own, peers) == seq!["%any"@],
        own is Some || peers.len() > 0 ==> forall|k: int|
            0 <= k < owners_of(own, peers).len() ==> own == Some(
                #[trigger] owners_of(own, peers)[k],
            ) || peers.contains(owners_of(own, peers)[k]),
{
    let start = match own {
        Some(id) => seq![id],
        None => Seq::empty(),
    };
    lemma_peers_only(start, peers, peers.len() as int);
    law_secrets_have_owners(own, peers);
    if peers.len() > 0 {
        lemma_with_peers(start, peers, peers.len() as int);
        assert(with_peers(start, peers, peers.len() as int).contains(peers[0]));
    }
    let all = owners_of(own, peers);
    if own is Some || peers.len() > 0 {
        assert forall|k: int| 0 <= k < all.len() implies own == Some(#[trigger] all[k])
            || peers.contains(all[k]) by {
            lemma_with_peers(start, peers, peers.len() as int);
            assert(all == with_peers(start, peers, peers.len() as int));
            if start.contains(all[k]) {
                let j = choose|j: int| 0 <= j < start.len() && start[j] == all[k];
                assert(start[j] == all[k]);
            }
        }
    }
}

/// What is loaded as a secret is of the kind that its round asks for, and belongs to the identity
/// that is presented in that round and to the peer.
pub proof fn law_secrets_are_typed_and_owned(
    c: ConfigView,
    name: Seq<char>,
    password: Seq<char>,
    version: IkeVersion,
    peers: Seq<Seq<char>>,
)
    ensures
        load_shared(c, name, peers).get_str("type"@) == Some("IKE"@),
        load_shared(c, name, peers).get_list("owners"@) == Some(
            owners_of(c.local_id_wire(), peers),
        ),
        ({
            let m = load_user(c, name, password, version, peers);
            &&& version == IkeVersion::V1 ==> m.get_str("type"@) == Some("XAUTH"@)
            &&& version == IkeVersion::V2 ==> m.get_str("type"@) == Some("EAP"@)
            &&& c.user_auth matches Some(u) ==> m.get_list("owners"@) == Some(
                owners_of(u.username, peers),
            )
            &&& c.user_auth is None ==> m.get_list("owners"@) == Some(owners_of(None, peers))
        }),
{
    reveal_strlit("id");
    reveal_strlit("type");
    reveal_strlit("data");
    reveal_strlit("owners");
    assert("id"@.len() == 2 && "type"@.len() == 4 && "data"@.len() == 4 && "owners"@.len() == 6);
    assert("type"@[0] == 't' && "data"@[0] == 'd');
    lemma_text_back("IKE"@);
    lemma_text_back("XAUTH"@);
    lemma_text_back("EAP"@);
    lemma_list_back(owners_of(c.local_id_wire(), peers));
    lemma_list_back(owners_of(user_name(c), peers));
    reveal_with_fuel(element_from, 5);
}

} // verus!
