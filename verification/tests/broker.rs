//! What the privileged broker accepts, and what it decides to do about it.

use cross_platform_vpn::broker::drive::{
    exit_reason, parse_push, push_recent, tail, Driver, Heard, Progress, Pushed, LOG_RING, LOG_TAIL,
};
use cross_platform_vpn::broker::openvpn::{
    adapter_name, connect, is_staged, lists_adapter, log_tail, sanitize, ConnectError, LOG_LINES,
};
use cross_platform_vpn::broker::protocol::{available, Request, Response, FULL_TUNNEL_REFUSED};
use cross_platform_vpn::broker::supervisor::{
    dns_applied, dns_reverted, failure_text, lowest_free_slot, status_entry, validate_domain,
    validate_servers, validate_subnets, Broker, Connected, SslRegistry, Step, MAX_SERVERS,
    MAX_SSL_TUNNELS, MAX_SUBNETS,
};

fn push(full: bool, domain: Option<&str>) -> Pushed {
    Pushed { full, domain: domain.map(|d| d.to_string()) }
}

fn texts(v: &[&str]) -> Vec<String> {
    v.iter().map(|s| s.to_string()).collect()
}

/// Brings a tunnel up as the broker sees it.
fn bring_up(b: &mut Broker, name: &str, ip: &str, pushed: Pushed) -> usize {
    let slot = b.reserve().unwrap();
    let r = b.finished(
        name.to_string(),
        slot,
        Ok(Connected { vpn_ip: Some(ip.to_string()), pushed }),
    );
    assert!(r.ok);
    assert_eq!(r.msg, ip);
    slot
}

fn ssl_connect(name: &str) -> Request {
    Request::SslConnect {
        name: name.to_string(),
        config: "client\n".to_string(),
        username: "u".to_string(),
        password: "p".to_string(),
        allow_full: true,
    }
}

fn reply(step: Step) -> Response {
    match step {
        Step::Reply(r) => r,
        other => panic!("no reply: {other:?}"),
    }
}

#[test]
fn servers_must_be_ipv4() {
    assert!(validate_servers(&vec!["1.1.1.1".into(), "8.8.8.8".into()]).is_ok());
    assert!(validate_servers(&vec!["1.1.1.1; Stop-Process".into()]).is_err());
    assert!(validate_servers(&vec!["not-an-ip".into()]).is_err());
}

#[test]
fn slots_fill_the_lowest_gap() {
    assert_eq!(lowest_free_slot(&[]).unwrap(), 0);
    assert_eq!(lowest_free_slot(&[0]).unwrap(), 1);
    // A tunnel in the middle going away frees its slot for the next connect,
    // rather than the count marching upwards and leaving adapters behind.
    assert_eq!(lowest_free_slot(&[0, 2]).unwrap(), 1);
    let full: Vec<usize> = (0..MAX_SSL_TUNNELS).collect();
    assert!(lowest_free_slot(&full).is_err());
}

#[test]
fn reserving_a_slot_excludes_it_from_the_next() {
    let mut reg = SslRegistry::default();
    assert_eq!(reg.take_slot().unwrap(), 0);
    // The first connect is still in flight (no tunnel recorded yet), so a
    // concurrent one must not be handed the same adapter.
    assert_eq!(reg.take_slot().unwrap(), 1);
    reg.release_slot(0);
    assert_eq!(reg.take_slot().unwrap(), 0);
}

#[test]
fn subnets_must_be_cidr() {
    assert_eq!(
        validate_subnets(&vec!["10.98.43.0/24".into(), "10.10.0.0/16".into()]).unwrap(),
        vec!["10.98.43.0/24".to_string(), "10.10.0.0/16".to_string()]
    );
    assert!(validate_subnets(&vec!["10.98.43.0".into()]).is_err());
    assert!(validate_subnets(&vec!["10.98.43.0/33".into()]).is_err());
    // These end up in the NRPT PowerShell as reverse zones.
    assert!(validate_subnets(&vec!["10.0.0.0/8'; Stop-Service #".into()]).is_err());
    let many: Vec<String> = (0..MAX_SUBNETS + 1).map(|_| "10.0.0.0/8".to_string()).collect();
    assert!(validate_subnets(&many).is_err());
}

#[test]
fn domain_rejects_injection() {
    assert_eq!(validate_domain(Some("example.local")).unwrap().as_deref(), Some("example.local"));
    assert_eq!(validate_domain(Some("  ")).unwrap(), None);
    assert_eq!(validate_domain(None).unwrap(), None);
    assert!(validate_domain(Some("evil'); Stop-Service #")).is_err());
    assert!(validate_domain(Some("a b")).is_err());
}

#[test]
fn too_many_servers_and_too_long_a_domain_are_refused() {
    let many: Vec<String> = (0..MAX_SERVERS + 1).map(|_| "1.1.1.1".to_string()).collect();
    assert!(validate_servers(&many).is_err());
    assert!(validate_servers(&many[1..].to_vec()).is_ok());
    assert!(validate_domain(Some(&"a".repeat(254))).is_err());
    assert!(validate_domain(Some(&"a".repeat(253))).is_ok());
}

#[test]
fn sanitize_accepts_a_normal_sophos_ovpn() {
    let ovpn = "client\ndev tun\nproto tcp\nremote vpn.example.com 8443\n\
                <ca>\n-----BEGIN CERTIFICATE-----\nMII...\n-----END CERTIFICATE-----\n</ca>\n\
                auth-user-pass\ncipher AES-128-CBC\nauth SHA256\nverb 3\n";
    assert!(sanitize(ovpn).is_ok());
}

#[test]
fn sanitize_rejects_a_script_hook() {
    assert!(sanitize("client\nup /tmp/evil.sh\n").is_err());
    assert!(sanitize("client\n--down C:/evil.bat\n").is_err());
    assert!(sanitize("client\nplugin /tmp/x.so\n").is_err());
    assert!(sanitize("client\ntls-verify /tmp/v.sh\n").is_err());
}

#[test]
fn sanitize_rejects_control_hijack() {
    assert!(sanitize("client\nmanagement 127.0.0.1 9999\n").is_err());
    assert!(sanitize("client\nscript-security 2\n").is_err());
    assert!(sanitize("client\nconfig other.conf\n").is_err());
}

#[test]
fn sanitize_ignores_directives_inside_inline_blocks() {
    // A cert blob must not be mistaken for directives even if a line looks
    // keyword-ish; and comments are skipped.
    let ovpn = "client\n# up here is only a comment\n<key>\nup\nplugin\n</key>\nremote h 8443\n";
    assert!(sanitize(ovpn).is_ok());
}

#[test]
fn sanitize_case_insensitive() {
    assert!(sanitize("client\nUP /tmp/evil\n").is_err());
}

/// The first offending directive is the one that is named.
#[test]
fn sanitize_names_the_first_offender() {
    let why = sanitize("client\nplugin x\nup y\n").unwrap_err();
    assert!(why.contains("plugin"), "{why}");
    assert!(!why.contains("'up'"), "{why}");
}

#[test]
fn adapters_are_numbered_from_the_second_on() {
    assert_eq!(adapter_name(0), "OpenVPN Data Channel");
    assert_eq!(adapter_name(1), "OpenVPN Data Channel 2");
    assert_eq!(adapter_name(7), "OpenVPN Data Channel 8");
}

#[test]
fn an_adapter_is_found_by_its_whole_name() {
    let listing = "{guid-1}\tOpenVPN Data Channel 2\n{guid-2}\tEthernet\n";
    assert!(lists_adapter(listing, "OpenVPN Data Channel 2"));
    assert!(!lists_adapter(listing, "OpenVPN Data Channel"));
    assert!(!lists_adapter("no adapters", "OpenVPN Data Channel"));
}

/// The login goes into a file that the sweep finds again, never onto the command line.
#[test]
fn a_launch_keeps_the_login_off_the_command_line() {
    let launch = connect("client\n", "alice", "hunter2", 1, 40123, "C:\\run\\").unwrap();
    assert_eq!(launch.config_path, "C:\\run\\sslvpn-40123.ovpn");
    assert_eq!(launch.auth_path, "C:\\run\\sslvpn-40123.auth");
    assert_eq!(launch.auth_text, "alice\nhunter2\n");
    assert_eq!(launch.adapter, "OpenVPN Data Channel 2");
    assert!(is_staged("sslvpn-40123.ovpn"));
    assert!(is_staged("sslvpn-40123.auth"));
    assert!(!is_staged("openvpn-40123.log"));
    for a in &launch.arguments {
        assert!(!a.contains("alice") && !a.contains("hunter2"), "{a}");
    }
    assert_eq!(
        launch.arguments[..4],
        texts(&["--config", "C:\\run\\sslvpn-40123.ovpn", "--script-security", "1"])[..]
    );
    assert!(launch.arguments.contains(&"40123".to_string()));
}

#[test]
fn a_launch_refuses_what_sanitize_refuses() {
    let e = connect("up /tmp/evil\n", "u", "p", 0, 1, "").unwrap_err();
    assert_eq!(e.reason, sanitize("up /tmp/evil\n").unwrap_err());
    assert!(e.log.is_empty());
}

#[test]
fn the_log_of_a_failure_keeps_its_last_lines() {
    let long: Vec<String> = (0..LOG_LINES + 5).map(|i| format!("line {i}")).collect();
    let kept = log_tail(&long.join("\n"));
    assert_eq!(kept.lines().count(), LOG_LINES);
    assert!(kept.starts_with("line 5\n"));
    let e = ConnectError::late("died".to_string(), "  one\ntwo  \n");
    assert_eq!(e.reason, "died");
    assert_eq!(e.log, "one\ntwo");
}

#[test]
fn a_push_is_read() {
    let p = parse_push(
        "PUSH: Received control message: 'PUSH_REPLY,redirect-gateway def1,dhcp-option DOMAIN corp.local,route 10.0.0.0'",
    )
    .unwrap();
    assert!(p.full);
    assert_eq!(p.domain.as_deref(), Some("corp.local"));
    let p = parse_push("'PUSH_REPLY,route 10.0.0.0 255.0.0.0'").unwrap();
    assert!(!p.full);
    assert!(p.domain.is_none());
    assert!(parse_push("nothing of the kind").is_none());
}

#[test]
fn the_kept_lines_stay_bounded() {
    let mut recent = Vec::new();
    for i in 0..LOG_RING + 10 {
        push_recent(&mut recent, &format!(">LOG:1700000000,I,line {i}"));
    }
    assert_eq!(recent.len(), LOG_RING);
    assert_eq!(recent[0], "line 10");
    let shown = tail(&recent);
    assert!(shown.starts_with(" (line 44 | "), "{shown}");
    assert_eq!(shown.matches(" | ").count(), LOG_TAIL - 1);
    assert_eq!(tail(&Vec::new()), "");
}

#[test]
fn an_exit_reads_as_a_reason() {
    assert_eq!(
        exit_reason("auth-failure", &Vec::new()),
        "the gateway rejected the username or password"
    );
    assert_eq!(exit_reason("", &Vec::new()), "openvpn exited before connecting");
    assert_eq!(
        exit_reason("tls-error", &texts(&["a", "b"])),
        "openvpn exited before connecting (tls-error) (a | b)"
    );
}

/// Nothing is sent before OpenVPN has spoken; then the reports are enabled and the hold is
/// released, once.
#[test]
fn a_connect_is_driven_to_its_address() {
    let mut d = Driver::new(true);
    let (sent, progress) = d.received(b">INFO:OpenVPN Manage");
    assert!(sent.is_empty());
    assert!(matches!(progress, Progress::Wait));

    let (sent, progress) = d.received(b"ment Interface\r\n>HOLD:Waiting\r\n");
    assert_eq!(sent, ["state on", "log on", "hold release"]);
    assert!(matches!(progress, Progress::Wait));

    let (sent, _) = d.received(b">HOLD:Waiting again\r\n");
    assert_eq!(sent, ["hold release"]);

    let (sent, progress) = d.received(b">STATE:1700000000,CONNECTED,SUCCESS,10.81.0.2,1.2.3.4\r\n");
    assert!(sent.is_empty());
    match progress {
        Progress::Connected(ip) => assert_eq!(ip.as_deref(), Some("10.81.0.2")),
        other => panic!("{other:?}"),
    }
}

#[test]
fn a_rejected_login_ends_the_drive() {
    let mut d = Driver::new(true);
    match d.hear(">PASSWORD:Verification Failed: 'Auth'") {
        Heard::Failed(why) => assert_eq!(why, "the gateway rejected the username or password"),
        other => panic!("{other:?}"),
    }
}

#[test]
fn an_unwanted_default_route_ends_the_connect() {
    let line = ">LOG:1,I,PUSH: Received control message: 'PUSH_REPLY,redirect-gateway def1'";
    match Driver::new(false).hear(line) {
        Heard::Failed(why) => assert_eq!(why, FULL_TUNNEL_REFUSED),
        other => panic!("{other:?}"),
    }
    let mut wanted = Driver::new(true);
    assert!(matches!(wanted.hear(line), Heard::Nothing));
    assert!(wanted.pushed.full);
}

#[test]
fn a_fatal_line_ends_the_drive() {
    let mut d = Driver::new(true);
    match d.hear(">FATAL:no adapter") {
        Heard::Failed(why) => {
            assert_eq!(why, "openvpn could not start: no adapter (>FATAL:no adapter)")
        }
        other => panic!("{other:?}"),
    }
}

/// Bytes that are no text do not stop the driver.
#[test]
fn a_line_that_is_no_text_is_read_with_replacements() {
    let mut d = Driver::new(true);
    d.received(b"caf\xff\n");
    assert_eq!(d.recent, ["caf\u{fffd}"]);
}

#[test]
fn the_driver_says_how_it_ended() {
    let mut d = Driver::new(true);
    d.hear("last words");
    for text in [d.timed_out(60), d.exited("exit code: 1"), d.closed(), d.read_failed("reset")] {
        assert!(text.ends_with(" (last words)"), "{text}");
    }
    assert!(d.timed_out(60).contains("60"));
    assert!(d.exited("exit code: 1").contains("exit code: 1"));
    assert!(d.read_failed("reset").contains("reset"));
}

#[test]
fn a_ping_is_answered() {
    let r = reply(Broker::new().handle(Request::Ping, &[]));
    assert!(r.ok);
    assert_eq!(r.msg, "pong");
    assert!(available(&Ok(r)));
    assert!(!available(&Err("no pipe".to_string())));
}

#[test]
fn a_dns_request_is_validated() {
    let mut b = Broker::new();
    let request = |server: &str, domain: &str, subnet: &str| Request::ApplyDns {
        conn: "c".to_string(),
        servers: texts(&[server]),
        domain: Some(domain.to_string()),
        subnets: texts(&[subnet]),
    };
    match b.handle(request("10.0.0.53", "corp.local", "10.0.0.0/8"), &[]) {
        Step::ApplyDns { conn, servers, domain, subnets, spoken_for } => {
            assert_eq!(conn, "c");
            assert_eq!(servers[0].to_text(), "10.0.0.53");
            assert_eq!(domain.as_deref(), Some("corp.local"));
            assert_eq!(subnets, ["10.0.0.0/8"]);
            assert!(spoken_for.is_empty());
        }
        other => panic!("{other:?}"),
    }
    assert!(!reply(b.handle(request("nonsense", "corp.local", "10.0.0.0/8"), &[])).ok);
    assert!(!reply(b.handle(request("10.0.0.53", "a b", "10.0.0.0/8"), &[])).ok);
    assert!(!reply(b.handle(request("10.0.0.53", "corp.local", "10.0.0.0"), &[])).ok);
}

/// What a live tunnel resolves is spoken for; a tunnel speaks for nothing against itself.
#[test]
fn a_tunnel_claims_its_names() {
    let mut b = Broker::new();
    bring_up(&mut b, "ssl", "10.81.0.2", push(true, Some("corp.local")));
    assert!(b.ssl_dns_claims("ipsec").contains(&".".to_string()));
    assert!(b.ssl_dns_claims("ipsec").contains(&".corp.local".to_string()));
    assert!(b.ssl_dns_claims("ssl").is_empty());
}

#[test]
fn a_connect_replaces_only_its_name() {
    let mut b = Broker::new();
    let first = bring_up(&mut b, "one", "10.81.0.2", push(false, None));
    let second = bring_up(&mut b, "two", "10.81.0.3", push(false, None));
    assert_ne!(first, second);
    match b.handle(ssl_connect("one"), &[first, second]) {
        Step::Connect { replaced: Some(old), name, .. } => {
            assert_eq!(old.name, "one");
            assert_eq!(old.slot, first);
            assert_eq!(name, "one");
        }
        other => panic!("{other:?}"),
    }
    assert_eq!(b.ssl.tunnels.len(), 1);
    assert_eq!(b.ssl.tunnels[0].name, "two");
    // The slot of the replaced tunnel is free for its successor.
    assert_eq!(b.reserve().unwrap(), first);
}

#[test]
fn a_dead_tunnel_is_forgotten() {
    let mut b = Broker::new();
    let slot = bring_up(&mut b, "one", "10.81.0.2", push(false, None));
    let r = reply(b.handle(Request::SslStatus, &[slot]));
    assert!(r.msg.contains("\"one\""), "{}", r.msg);
    let r = reply(b.handle(Request::SslStatus, &[]));
    assert!(!r.msg.contains("\"one\""), "{}", r.msg);
    assert!(b.ssl.tunnels.is_empty());
}

#[test]
fn a_disconnect_is_by_name_and_an_empty_name_means_all() {
    let mut b = Broker::new();
    bring_up(&mut b, "one", "10.81.0.2", push(false, None));
    bring_up(&mut b, "two", "10.81.0.3", push(false, None));
    bring_up(&mut b, "three", "10.81.0.4", push(false, None));
    match b.handle(Request::SslDisconnect { name: "two".to_string() }, &[]) {
        Step::Disconnect { doomed, reply } => {
            assert!(reply.ok);
            assert_eq!(reply.msg, "");
            assert_eq!(doomed.len(), 1);
            assert_eq!(doomed[0].name, "two");
        }
        other => panic!("{other:?}"),
    }
    match b.handle(Request::SslDisconnect { name: String::new() }, &[]) {
        Step::Disconnect { doomed, reply } => {
            assert!(reply.ok && reply.msg.is_empty());
            assert_eq!(doomed.len(), 2);
        }
        other => panic!("{other:?}"),
    }
    // Nothing is up any more: that is success too.
    match b.handle(Request::SslDisconnect { name: "two".to_string() }, &[]) {
        Step::Disconnect { doomed, reply } => {
            assert!(reply.ok && reply.msg.is_empty());
            assert!(doomed.is_empty());
        }
        other => panic!("{other:?}"),
    }
    assert!(b.shutdown().is_empty());
}

#[test]
fn the_number_of_tunnels_is_bounded() {
    let mut b = Broker::new();
    for i in 0..MAX_SSL_TUNNELS {
        assert_eq!(b.reserve().unwrap(), i);
    }
    let refused = b.reserve().unwrap_err();
    assert!(!refused.ok);
    assert!(!refused.msg.is_empty());
}

/// A failed connect gives its slot back and says why, as JSON that quotes whatever it holds.
#[test]
fn a_failed_connect_releases_its_slot() {
    let mut b = Broker::new();
    let slot = b.reserve().unwrap();
    let e = ConnectError::late("it said \"no\"".to_string(), "line one\nline two");
    let r = b.finished("c".to_string(), slot, Err(e));
    assert!(!r.ok);
    assert_eq!(r.msg, "{\"log\":\"line one\\nline two\",\"reason\":\"it said \\\"no\\\"\"}");
    assert_eq!(b.reserve().unwrap(), slot);
}

#[test]
fn a_status_is_json() {
    let mut b = Broker::new();
    let slot = bring_up(&mut b, "a\"b", "10.81.0.2", push(true, Some("corp.local")));
    let r = reply(b.handle(Request::SslStatus, &[slot]));
    assert!(r.ok);
    let v: serde_json::Value = serde_json::from_str(&r.msg).unwrap();
    let entry = v.as_array().unwrap()[0].clone();
    assert_eq!(entry["name"].as_str(), Some("a\"b"));
    assert_eq!(entry["ip"].as_str(), Some("10.81.0.2"));
    assert_eq!(entry["full"].as_bool(), Some(true));
    assert_eq!(entry["domain"].as_str(), Some("corp.local"));
    assert_eq!(
        status_entry("\"d\"", false, "\"i\"", "\"n\""),
        "{\"domain\":\"d\",\"full\":false,\"ip\":\"i\",\"name\":\"n\"}"
    );
    assert_eq!(failure_text("\"l\"", "\"r\""), "{\"log\":\"l\",\"reason\":\"r\"}");
}

#[test]
fn the_service_supervises_charon_itself() {
    let mut b = Broker::new();
    assert!(!reply(b.handle(Request::CharonStart, &[])).ok);
    assert!(!reply(b.handle(Request::CharonStop, &[])).ok);
    assert!(matches!(
        b.handle(Request::RevertDns { conn: "c".to_string() }, &[]),
        Step::RevertDns { conn } if conn == "c"
    ));
}

#[test]
fn dns_is_answered_with_its_outcome() {
    let r = dns_applied(Ok("routed".to_string()));
    assert!(r.ok);
    assert_eq!(r.msg, "routed");
    let r = dns_applied(Err("no".to_string()));
    assert!(!r.ok);
    assert_eq!(r.msg, "no");
    let r = dns_reverted(Ok(()));
    assert!(r.ok && r.msg.is_empty());
    assert!(!dns_reverted(Err("no".to_string())).ok);
}
