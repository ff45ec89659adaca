//! The vici commands for a configuration, and the connect flow around them.

use cross_platform_vpn::control::bridge::{
    child_names_for, load_conn_message, load_conn_message_for, load_shared_message,
    load_shared_message_for, load_shared_user_auth_message, secret_owners,
};
use cross_platform_vpn::control::flow::{parse_log_line, MAX_LOG_LINES};
use cross_platform_vpn::control::status::{parse_sas, render_text};
use cross_platform_vpn::control::{
    check, connect, disconnect, other_version, peer_ids, preflight, suggests_auth_failure,
    suggests_wrong_ike_version, Connect, ConnectOutcome, ControlError, LogLine, Task,
};
use cross_platform_vpn::ipv4::{Ipv4Addr, Ipv4Net};
use cross_platform_vpn::model::{
    AuthMethod, ConnectionConfig, DhGroup, DnsConfig, DpdConfig, EncAlg, IkeVersion, IntegAlg,
    PrfAlg, Secret, UserAuth,
};
use cross_platform_vpn::vici::{Error, Message};

fn sample() -> ConnectionConfig {
    ConnectionConfig {
        name: "vRouter-TEST-1".to_string(),
        gateway: "192.168.100.10".to_string(),
        local_id: Some("test-1@test.local".to_string()),
        local_id_type: None,
        auth: AuthMethod::PresharedKey(Secret::new("s3cr3t".to_string())),
        ike_version: IkeVersion::V2,
        user_auth: None,
        ike_enc: EncAlg::Aes256,
        ike_integ: IntegAlg::Sha256,
        ike_prf: PrfAlg::Sha256,
        ike_dh: DhGroup::Modp3072,
        esp_enc: EncAlg::Aes256,
        esp_integ: IntegAlg::Sha256,
        pfs: Some(DhGroup::Modp3072),
        remote_subnets: vec![Ipv4Net {
            addr: Ipv4Addr::new(10, 0, 0, 0),
            prefix_len: 24,
        }],
        request_virtual_ip: true,
        compression: false,
        dpd: DpdConfig::default(),
        dns: DnsConfig::default(),
    }
}

fn login() -> Option<UserAuth> {
    Some(UserAuth {
        username: Some("vpnuser".to_string()),
        can_save: true,
        otp: false,
    })
}

fn net(text: &str) -> Ipv4Net {
    Ipv4Net::parse(text).unwrap()
}

fn log_line(msg: &str) -> LogLine {
    LogLine {
        group: "IKE".to_string(),
        level: 1,
        ikesa: None,
        msg: msg.to_string(),
    }
}

fn yes() -> Message {
    Message::new().str("success", "yes")
}

fn no(why: &str) -> Message {
    Message::new().str("success", "no").str("errmsg", why)
}

fn event(msg: &str) -> Message {
    Message::new().str("group", "IKE").str("level", "1").str("msg", msg)
}

/// Answers every load with success up to the first `initiate`.
fn up_to_initiate(c: &mut Connect) -> Vec<&'static str> {
    let mut commands = Vec::new();
    while let Task::Load(command, _) = c.next() {
        commands.push(command);
        c.loaded(&yes()).unwrap();
    }
    commands
}

#[test]
fn load_conn_has_expected_shape() {
    let msg = load_conn_message(&sample(), "vRouter-TEST-1");
    let conn = msg.get_section("vRouter-TEST-1").expect("named section");
    assert_eq!(conn.get_str("version").as_deref(), Some("2"));
    assert_eq!(
        conn.get_list("proposals"),
        Some(vec!["aes256-sha256-prfsha256-modp3072".to_string()])
    );
    assert_eq!(
        conn.get_section("local").unwrap().get_str("id").as_deref(),
        Some("test-1@test.local")
    );
    let child = conn
        .get_section("children")
        .unwrap()
        .get_section("vRouter-TEST-1")
        .unwrap();
    assert_eq!(
        child.get_list("esp_proposals"),
        Some(vec!["aes256-sha256-modp3072".to_string()])
    );
    assert_eq!(child.get_list("remote_ts"), Some(vec!["10.0.0.0/24".to_string()]));
}

#[test]
fn load_conn_sets_dpd_and_auto_reconnect() {
    let msg = load_conn_message(&sample(), "vRouter-TEST-1");
    let conn = msg.get_section("vRouter-TEST-1").unwrap();
    assert_eq!(conn.get_str("dpd_delay").as_deref(), Some("30s"));
    let child = conn
        .get_section("children")
        .unwrap()
        .get_section("vRouter-TEST-1")
        .unwrap();
    assert_eq!(child.get_str("dpd_action").as_deref(), Some("restart"));
    assert_eq!(child.get_str("close_action").as_deref(), Some("restart"));
}

#[test]
fn dpd_off_omits_delay_and_clears() {
    let mut cfg = sample();
    cfg.dpd = DpdConfig { delay_secs: 0, auto_reconnect: false };
    let msg = load_conn_message(&cfg, "c");
    let conn = msg.get_section("c").unwrap();
    assert_eq!(conn.get_str("dpd_delay"), None);
    let child = conn.get_section("children").unwrap().get_section("c").unwrap();
    assert_eq!(child.get_str("dpd_action").as_deref(), Some("clear"));
    assert_eq!(child.get_str("close_action").as_deref(), Some("none"));
}

#[test]
fn load_conn_carries_no_secret() {
    let msg = load_conn_message(&sample(), "vRouter-TEST-1");
    assert!(!msg.pretty().contains("s3cr3t"));
}

/// Without user auth the connection keeps the single, unnumbered `local`
/// section — numbering it would change what charon sees for every profile
/// that already works.
#[test]
fn no_user_auth_keeps_single_local_section() {
    let conn = load_conn_message(&sample(), "c");
    let conn = conn.get_section("c").unwrap();
    assert!(conn.get_section("local").is_some());
    assert!(conn.get_section("local-1").is_none());
    assert!(conn.get_section("local-2").is_none());
}

#[test]
fn ikev2_user_auth_adds_an_eap_round() {
    let mut cfg = sample();
    cfg.user_auth = Some(UserAuth {
        username: Some("vpnuser".to_string()),
        can_save: true,
        otp: false,
    });
    let msg = load_conn_message(&cfg, "c");
    let conn = msg.get_section("c").unwrap();
    let first = conn.get_section("local-1").expect("psk round");
    assert_eq!(first.get_str("auth").as_deref(), Some("psk"));
    let second = conn.get_section("local-2").expect("user auth round");
    assert_eq!(second.get_str("auth").as_deref(), Some("eap-mschapv2"));
    assert_eq!(second.get_str("eap_id").as_deref(), Some("vpnuser"));
    assert!(conn.get_section("local").is_none());
}

/// The legacy `.tgb` profiles are IKEv1, where the same round is XAuth and
/// the identity travels under a different key.
#[test]
fn ikev1_user_auth_uses_xauth() {
    let mut cfg = sample();
    cfg.ike_version = IkeVersion::V1;
    cfg.user_auth = Some(UserAuth {
        username: Some("vpnuser".to_string()),
        can_save: false,
        otp: false,
    });
    let msg = load_conn_message(&cfg, "c");
    let conn = msg.get_section("c").unwrap();
    assert_eq!(conn.get_str("version").as_deref(), Some("1"));
    let second = conn.get_section("local-2").unwrap();
    assert_eq!(second.get_str("auth").as_deref(), Some("xauth"));
    assert_eq!(second.get_str("xauth_id").as_deref(), Some("vpnuser"));
}

#[test]
fn user_auth_password_is_a_separate_shared_secret() {
    let mut cfg = sample();
    cfg.user_auth = Some(UserAuth {
        username: Some("vpnuser".to_string()),
        can_save: true,
        otp: false,
    });
    let pw = Secret::new("pa55word".to_string());
    let msg = load_shared_user_auth_message(&cfg, "c", &pw);
    assert_eq!(msg.get_str("type").as_deref(), Some("EAP"));
    assert_eq!(msg.get_list("owners"), Some(vec!["vpnuser".to_string()]));
    // The PSK message keeps its own id, so loading one cannot clobber the
    // other in charon's credential set.
    assert_eq!(msg.get_str("id").as_deref(), Some("user-c"));
    assert_eq!(
        load_shared_message(&cfg, "c").get_str("id").as_deref(),
        Some("ike-c")
    );
}

#[test]
fn load_shared_carries_psk_and_owner() {
    let msg = load_shared_message(&sample(), "vRouter-TEST-1");
    assert_eq!(msg.get_str("type").as_deref(), Some("IKE"));
    assert_eq!(msg.get_str("data").as_deref(), Some("s3cr3t"));
    assert_eq!(msg.get_str("id").as_deref(), Some("ike-vRouter-TEST-1"));
    assert_eq!(
        msg.get_list("owners"),
        Some(vec!["test-1@test.local".to_string()])
    );
}

/// A profile that needs a login must be refused before any connection is
/// opened — the point of the guard is that charon never sees a half-built
/// credential set.
#[test]
fn refuses_to_connect_without_the_user_password() {
    let mut config = sample();
    config.user_auth = Some(UserAuth {
        username: Some("vpnuser".to_string()),
        can_save: true,
        otp: false,
    });
    let err = Connect::start(&config, "c", None, Vec::new()).err().unwrap();
    assert!(
        matches!(err, ControlError::MissingUserPassword),
        "expected the missing-password guard, got: {}",
        err.message()
    );
}

/// A profile with no traffic selectors must be refused before anything is
/// opened, so it can never capture the default route into a tunnel the
/// gateway may not carry.
#[test]
fn refuses_a_profile_with_no_remote_networks() {
    let mut config = sample();
    config.remote_subnets.clear();
    let err = Connect::start(&config, "c", None, Vec::new()).err().unwrap();
    assert!(
        matches!(err, ControlError::NoRemoteNetworks),
        "expected the no-networks guard, got: {}",
        err.message()
    );
}

/// The one signal that provokes the version retry, in the shape charon
/// actually logs it — a parsed `N(NO_PROP)` notify on the IKE_SA_INIT
/// response.
#[test]
fn no_proposal_chosen_triggers_the_version_fallback() {
    let log = [
        log_line("initiating IKE_SA c[1] to 203.0.113.10"),
        log_line("parsed IKE_SA_INIT response 0 [ N(NO_PROP) ]"),
    ];
    assert!(suggests_wrong_ike_version(&log));
}

/// An authentication failure or an unreachable gateway must not: switching
/// the IKE version cannot fix either, and a needless second attempt only
/// doubles the wait and muddies the log.
#[test]
fn auth_failure_does_not_trigger_the_fallback() {
    let log = [
        log_line("XAuth authentication of 'user' failed"),
        log_line("received AUTHENTICATION_FAILED notify error"),
    ];
    assert!(!suggests_wrong_ike_version(&log));

    let unreachable = [log_line("retransmit 5 of request with message ID 0")];
    assert!(!suggests_wrong_ike_version(&unreachable));
}

/// The counterpart to the test above: what must *not* trigger the fallback
/// is exactly what must stop the per-subnet loop, so a rejected login is
/// tried once rather than once per remote network.
#[test]
fn auth_failure_stops_the_per_subnet_loop() {
    assert!(suggests_auth_failure(&[log_line(
        "XAuth authentication of 'ikoelbl' (myself) failed"
    )]));
    assert!(suggests_auth_failure(&[log_line(
        "received AUTHENTICATION_FAILED notify error"
    )]));
    assert!(suggests_auth_failure(&[log_line("EAP-MSCHAPv2 authentication failed")]));

    // A subnet the gateway has no policy for, or a peer that never answered,
    // says nothing about our credentials — the remaining subnets are still
    // worth initiating.
    assert!(!suggests_auth_failure(&[log_line(
        "no acceptable traffic selectors found"
    )]));
    assert!(!suggests_auth_failure(&[log_line(
        "retransmit 5 of request with message ID 0"
    )]));
    assert!(!suggests_auth_failure(&[log_line(
        "received NO_PROPOSAL_CHOSEN notify error"
    )]));
}

#[test]
fn other_version_flips() {
    assert_eq!(other_version(IkeVersion::V1), IkeVersion::V2);
    assert_eq!(other_version(IkeVersion::V2), IkeVersion::V1);
}

#[test]
fn parses_nested_sa_event() {
    // Shape mirrors a real charon list-sa event.
    let child = Message::new()
        .str("state", "INSTALLED")
        .str("bytes-in", "0")
        .str("bytes-out", "168")
        .list("local-ts", vec!["10.0.0.15/32".to_string()])
        .list("remote-ts", vec!["10.0.0.0/24".to_string()]);
    let ike = Message::new()
        .str("state", "ESTABLISHED")
        .str("local-host", "172.17.0.2")
        .str("remote-host", "192.168.100.10")
        .list("local-vips", vec!["10.0.0.15".to_string()])
        .section("child-sas", Message::new().section("vRouter-TEST-1-1", child));
    let event = Message::new().section("vRouter-TEST-1", ike);

    let sas = parse_sas(&[event]);
    assert_eq!(sas.len(), 1);
    assert_eq!(sas[0].state, "ESTABLISHED");
    assert_eq!(sas[0].virtual_ips, vec!["10.0.0.15".to_string()]);
    assert_eq!(sas[0].children[0].bytes_out, 168);
    assert!(render_text(&sas).contains("CHILD_SA vRouter-TEST-1-1: INSTALLED"));
}

#[test]
fn empty_is_reported() {
    assert_eq!(render_text(&[]), "No active IKE SAs.");
}

#[test]
fn a_status_reads_line_by_line() {
    let child = Message::new()
        .str("name", "c-2")
        .str("state", "INSTALLED")
        .str("bytes-in", "12")
        .str("bytes-out", "nonsense")
        .list("local-ts", vec!["10.0.0.15/32".to_string()])
        .list("remote-ts", vec!["10.0.0.0/24".to_string(), "10.1.0.0/16".to_string()]);
    let ike = Message::new()
        .str("state", "ESTABLISHED")
        .str("local-host", "172.17.0.2")
        .str("remote-host", "192.168.100.10")
        .section("child-sas", Message::new().section("c-1", child));
    let sas = parse_sas(&[Message::new().section("c", ike)]);
    let text = render_text(&sas);
    assert!(
        text.contains("IKE_SA c: ESTABLISHED  172.17.0.2 -> 192.168.100.10\n"),
        "{text}"
    );
    assert!(
        text.contains("INSTALLED  10.0.0.15/32 === 10.0.0.0/24,10.1.0.0/16  in=12B out=0B"),
        "{text}"
    );
    assert!(!text.contains("virtual IP"), "{text}");
}

/// charon takes the secret to the first local identity that matches an owner; a user's password
/// belongs to the user alone under IKEv2.
#[test]
fn owners_are_each_named_once() {
    let owners = secret_owners(
        Some("me".to_string()),
        &vec!["gw".to_string(), "me".to_string(), "192.0.2.1".to_string()],
    );
    assert_eq!(owners, ["me", "gw", "192.0.2.1"]);
    let msg = load_shared_message_for(&sample(), "c", &vec!["gw".to_string()]);
    assert_eq!(
        msg.get_list("owners"),
        Some(vec!["test-1@test.local".to_string(), "gw".to_string()])
    );
}

#[test]
fn ikev1_gets_a_child_per_network() {
    let mut cfg = sample();
    cfg.remote_subnets = vec![net("10.0.0.0/24"), net("10.1.0.0/16")];
    let v2 = child_names_for(&cfg, "c", IkeVersion::V2);
    let v1 = child_names_for(&cfg, "c", IkeVersion::V1);
    assert_eq!(v2, ["c"]);
    assert_eq!(v1.len(), 2);
    for version in [IkeVersion::V1, IkeVersion::V2] {
        let msg = load_conn_message_for(&cfg, "c", version);
        let conn = msg.get_section("c").unwrap();
        assert_eq!(conn.get_str("version").as_deref(), Some(version.swanctl_value()));
        let children = conn.get_section("children").unwrap();
        for name in child_names_for(&cfg, "c", version) {
            assert!(children.get_section(&name).is_some(), "{name} is not loaded");
        }
    }
}

/// Under IKEv1 each child carries one network; under IKEv2 one child carries them all.
#[test]
fn an_ikev1_connection_has_one_network_per_child() {
    let mut cfg = sample();
    let nets = ["10.0.0.0/24", "10.1.0.0/16", "10.2.0.0/16"];
    cfg.remote_subnets = nets.iter().map(|n| net(n)).collect();
    cfg.ike_version = IkeVersion::V1;
    let msg = load_conn_message(&cfg, "c");
    let children = msg.get_section("c").unwrap().get_section("children").unwrap();
    assert_eq!(children.sections().len(), 3);
    for (i, (name, child)) in children.sections().into_iter().enumerate() {
        assert_eq!(name, format!("c-{}", i + 1));
        assert_eq!(child.get_list("remote_ts"), Some(vec![nets[i].to_string()]));
        assert_eq!(child.get_list("esp_proposals"), Some(vec![cfg.esp_proposal()]));
    }
    cfg.ike_version = IkeVersion::V2;
    let msg = load_conn_message(&cfg, "c");
    let children = msg.get_section("c").unwrap().get_section("children").unwrap();
    assert_eq!(children.sections().len(), 1);
    let all: Vec<String> = nets.iter().map(|n| n.to_string()).collect();
    assert_eq!(children.get_section("c").unwrap().get_list("remote_ts"), Some(all));
}

#[test]
fn a_rejection_carries_the_reason() {
    assert!(check(&yes(), "load-conn").is_ok());
    assert_eq!(
        check(&no("bad proposal"), "load-conn").unwrap_err().message(),
        "load-conn was rejected by charon: bad proposal"
    );
    assert_eq!(
        check(&Message::new(), "load-conn").unwrap_err().message(),
        "load-conn was rejected by charon: unknown error"
    );
}

#[test]
fn a_login_needs_a_password_and_a_profile_needs_networks() {
    let mut cfg = sample();
    assert!(preflight(&cfg, false).is_ok());
    cfg.user_auth = login();
    assert!(matches!(preflight(&cfg, false), Err(ControlError::MissingUserPassword)));
    assert!(preflight(&cfg, true).is_ok());
    cfg.remote_subnets.clear();
    assert!(matches!(preflight(&cfg, true), Err(ControlError::NoRemoteNetworks)));
}

#[test]
fn a_connect_loads_then_initiates() {
    let cfg = sample();
    let mut c = Connect::start(&cfg, "c", None, Vec::new()).ok().unwrap();
    assert_eq!(up_to_initiate(&mut c), ["load-conn", "load-shared"]);
    match c.next() {
        Task::Initiate(m) => {
            assert_eq!(m.get_str("child").as_deref(), Some("c"));
            assert_eq!(m.get_str("ike").as_deref(), Some("c"));
        }
        _ => panic!("no initiate"),
    }
    let c = c.initiated(&[event("established")], &yes());
    assert!(matches!(c.next(), Task::Finished));
    let outcome = c.outcome().unwrap();
    assert!(outcome.connected);
    assert!(outcome.error.is_none());
    assert_eq!(outcome.log.len(), 1);
    assert_eq!(outcome.log[0].msg, "established");
    assert!(connect(outcome).is_ok());
}

#[test]
fn a_login_loads_its_password_too() {
    let mut cfg = sample();
    cfg.user_auth = login();
    let pw = Secret::new("pa55word".to_string());
    let mut c = Connect::start(&cfg, "c", Some(&pw), Vec::new()).ok().unwrap();
    assert_eq!(up_to_initiate(&mut c), ["load-conn", "load-shared", "load-shared"]);
}

#[test]
fn a_rejected_load_ends_the_connect() {
    let cfg = sample();
    let mut c = Connect::start(&cfg, "c", None, Vec::new()).ok().unwrap();
    let e = c.loaded(&no("no such algorithm")).unwrap_err();
    assert_eq!(e.message(), "load-conn was rejected by charon: no such algorithm");
}

/// A rejected version is retried once with the other one, and a second failure reports the
/// first reason.
#[test]
fn a_rejected_version_is_retried_once() {
    let cfg = sample();
    let refusal = [event("parsed IKE_SA_INIT response 0 [ N(NO_PROP) ]")];
    let mut c = Connect::start(&cfg, "c", None, Vec::new()).ok().unwrap();
    up_to_initiate(&mut c);
    let mut c = c.initiated(&refusal, &no("establishing failed"));
    match c.next() {
        Task::Load("load-conn", m) => {
            let conn = m.get_section("c").unwrap();
            assert_eq!(conn.get_str("version").as_deref(), Some("1"));
        }
        _ => panic!("no retry"),
    }
    up_to_initiate(&mut c);
    let c = c.initiated(&refusal, &no("failed again"));
    assert!(matches!(c.next(), Task::Finished));
    let outcome = c.outcome().unwrap();
    assert!(!outcome.connected);
    assert_eq!(outcome.error.as_deref(), Some("establishing failed"));
    assert!(outcome
        .log
        .iter()
        .any(|l| l.msg == "the gateway did not accept IKEv2; retrying as IKEv1"));
    assert_eq!(
        connect(outcome).unwrap_err().message(),
        "initiate was rejected by charon: establishing failed"
    );
}

#[test]
fn a_rejected_login_is_tried_once() {
    let mut cfg = sample();
    cfg.ike_version = IkeVersion::V1;
    cfg.remote_subnets = vec![net("10.0.0.0/24"), net("10.1.0.0/16"), net("10.2.0.0/16")];
    let mut c = Connect::start(&cfg, "c", None, Vec::new()).ok().unwrap();
    up_to_initiate(&mut c);
    let c = c.initiated(&[event("received AUTHENTICATION_FAILED notify error")], &no("denied"));
    assert!(matches!(c.next(), Task::Finished));
    assert_eq!(c.outcome().unwrap().error.as_deref(), Some("denied"));
}

#[test]
fn a_network_that_fails_does_not_stop_the_others() {
    let mut cfg = sample();
    cfg.ike_version = IkeVersion::V1;
    cfg.remote_subnets = vec![net("10.0.0.0/24"), net("10.1.0.0/16")];
    let mut c = Connect::start(&cfg, "c", None, Vec::new()).ok().unwrap();
    up_to_initiate(&mut c);
    let c = c.initiated(&[event("no acceptable traffic selectors found")], &no("no policy"));
    assert!(matches!(c.next(), Task::Initiate(_)));
    let c = c.initiated(&[], &yes());
    assert!(c.outcome().unwrap().connected);
}

#[test]
fn the_captured_log_is_bounded() {
    let cfg = sample();
    let events: Vec<Message> = (0..MAX_LOG_LINES + 50).map(|i| event(&format!("line {i}"))).collect();
    let mut c = Connect::start(&cfg, "c", None, Vec::new()).ok().unwrap();
    up_to_initiate(&mut c);
    let outcome = c.initiated(&events, &yes()).outcome().unwrap();
    assert_eq!(outcome.log.len(), MAX_LOG_LINES);
}

#[test]
fn a_log_event_reads_field_by_field() {
    let l = parse_log_line(
        &Message::new()
            .str("group", "ENC")
            .str("level", "-1")
            .str("ikesa-name", "c")
            .str("msg", "hello"),
    );
    assert_eq!(l.group, "ENC");
    assert_eq!(l.level, -1);
    assert_eq!(l.ikesa.as_deref(), Some("c"));
    assert_eq!(l.msg, "hello");
}

#[test]
fn the_gateway_is_the_first_peer() {
    let resolved = vec!["192.0.2.1".to_string(), "gw.example".to_string(), "192.0.2.1".to_string()];
    assert_eq!(peer_ids("gw.example", false, &resolved), ["gw.example", "192.0.2.1"]);
    assert_eq!(peer_ids("192.0.2.9", true, &resolved), ["192.0.2.9"]);
}

/// A disconnect takes down the connection and retires what a connect loaded.
#[test]
fn a_disconnect_retires_what_was_loaded() {
    let commands = disconnect("c");
    let names: Vec<&str> = commands.iter().map(|c| c.0).collect();
    assert_eq!(names, ["terminate", "unload-shared", "unload-shared", "unload-conn"]);
    assert_eq!(commands[0].1.get_str("ike").as_deref(), Some("c"));
    let loaded = load_shared_message(&sample(), "c").get_str("id");
    assert_eq!(commands[1].1.get_str("id"), loaded);
    let pw = Secret::new("pa55word".to_string());
    let user = load_shared_user_auth_message(&sample(), "c", &pw).get_str("id");
    assert_eq!(commands[2].1.get_str("id"), user);
    assert_eq!(commands[3].1.get_str("name").as_deref(), Some("c"));
}

#[test]
fn errors_of_the_flow_read_as_sentences() {
    assert_eq!(
        ControlError::NoUnixTransport.message(),
        "the Unix vici socket is not available on this platform; use a TCP transport"
    );
    let broken = ControlError::Vici(Error::Io("broken pipe".to_string()));
    assert!(broken.message().contains("broken pipe"));
}

#[test]
fn a_failed_outcome_without_a_reason_is_still_a_failure() {
    let outcome = ConnectOutcome { connected: false, error: None, log: Vec::new() };
    assert!(connect(outcome).is_err());
}
