//! DNS on either platform, the macOS helper, the Windows service and the exchange on the wire.

use cross_platform_vpn::broker::charon::{self, Image, Listener, VICI_PORT};
use cross_platform_vpn::broker::command::{
    client_report, helper_command, helper_status, helper_task, HelperCommand, HelperTask,
};
use cross_platform_vpn::broker::launchd::{
    bootstrap_failed, bundled_charon_dir, charon_candidates, install, installed, installed_version,
    plist_contents, removal_report, removed_paths, uninstall, InstallStep, RemoveStep,
    MACOS_VERSION_UNSTAMPED,
};
use cross_platform_vpn::broker::locate::{charon_exe, openvpn_exe, Base, Known, Place};
use cross_platform_vpn::broker::nrpt::{
    apply, claim_script, holder_of, namespace, record_name, release_script, revert, revert_all,
    reverse_zone, reverse_zones, Record, CATCH_ALL,
};
use cross_platform_vpn::broker::privileged::{
    apply_dns, charon_start, charon_started, charon_stop, charon_stopped, dns_applied, pid_in,
    record_path, resolver_path, revert_dns, safe_domain, socket_owner_pid,
};
use cross_platform_vpn::broker::protocol::{
    permitted, Request, Response, MACOS_HELPER_BIN, MACOS_LABEL,
};
use cross_platform_vpn::broker::service::{
    bring_up, is_up_anyway, needs_repoint, points_at, Bring, ServiceState,
};
use cross_platform_vpn::broker::wire::{
    bad_request, is_complete, pipe_request, response_text, serves, socket_request, SocketLine,
    MAX_PIPE_REQUEST, MAX_SOCKET_REQUEST,
};
use cross_platform_vpn::ipv4::Ipv4Addr;
use cross_platform_vpn::plist_scan::nesting;
use cross_platform_vpn::property_list::{parse_xml, Plist, MAX_LEVELS};
use std::path::Path;

fn texts(v: &[&str]) -> Vec<String> {
    v.iter().map(|s| s.to_string()).collect()
}

fn servers() -> Vec<Ipv4Addr> {
    vec![Ipv4Addr::new(10, 0, 0, 53), Ipv4Addr::new(10, 0, 0, 54)]
}

#[test]
fn namespace_from_a_domain_or_the_catch_all() {
    assert_eq!(namespace(Some("kanzlei.local")), ".kanzlei.local");
    // A domain already written with a leading dot must not become "..".
    assert_eq!(namespace(Some(".kanzlei.local")), ".kanzlei.local");
    assert_eq!(namespace(None), CATCH_ALL);
    assert_eq!(namespace(Some("  ")), CATCH_ALL);
}

#[test]
fn reverse_zones_stop_at_octet_boundaries() {
    assert_eq!(reverse_zone("10.98.43.0/24").as_deref(), Some(".43.98.10.in-addr.arpa"));
    assert_eq!(reverse_zone("10.10.0.0/16").as_deref(), Some(".10.10.in-addr.arpa"));
    assert_eq!(reverse_zone("10.0.0.0/8").as_deref(), Some(".10.in-addr.arpa"));
    // A /20 spans several third octets, so it only yields the first two.
    assert_eq!(reverse_zone("10.10.0.0/20").as_deref(), Some(".10.10.in-addr.arpa"));
    // Nothing shorter than /8: that would claim more than the tunnel owns.
    assert_eq!(reverse_zone("0.0.0.0/0"), None);
}

#[test]
fn reverse_zone_rejects_anything_not_a_subnet() {
    // The result is interpolated into PowerShell, so a non-numeric octet has
    // to be refused rather than passed through.
    assert_eq!(reverse_zone("10.98.x.0/24"), None);
    assert_eq!(reverse_zone("10.0.0.0/8'; Stop-Service #"), None);
    assert_eq!(reverse_zone("evil"), None);
    assert_eq!(reverse_zone("10.0.0.0/99"), None);
}

#[test]
fn zones_come_in_order_and_once() {
    let zones = reverse_zones(&texts(&["10.98.43.0/24", "10.0.0.0/8", "nonsense", "10.98.43.0/25"]));
    assert_eq!(zones, [".10.in-addr.arpa", ".43.98.10.in-addr.arpa"]);
}

#[test]
fn a_domain_is_claimed_and_recorded() {
    let plan = apply("office", &servers(), Some("corp.local"), &Vec::new(), &Vec::new(), &Vec::new());
    assert_eq!(plan.scripts.len(), 1);
    assert_eq!(plan.scripts[0], claim_script(".corp.local", &servers()));
    assert!(plan.scripts[0].contains("-NameServers @('10.0.0.53','10.0.0.54')"));
    assert_eq!(plan.record.as_deref(), Some(".corp.local"));
    assert_eq!(plan.summary, "split-DNS: *.corp.local resolves via 10.0.0.53, 10.0.0.54");
}

#[test]
fn all_names_are_claimed_without_a_domain() {
    let plan = apply("office", &servers(), None, &Vec::new(), &Vec::new(), &Vec::new());
    assert_eq!(plan.record.as_deref(), Some("."));
    assert_eq!(
        plan.summary,
        "DNS routed over the tunnel via 10.0.0.53, 10.0.0.54 (all names)"
    );
}

/// A connection that wants all names settles for its own reverse zones where another has them.
#[test]
fn a_second_full_resolver_gets_its_reverse_zones() {
    let nets = texts(&["10.98.43.0/24"]);
    let plan = apply("office", &servers(), None, &nets, &texts(&["."]), &Vec::new());
    assert_eq!(plan.record.as_deref(), Some(".43.98.10.in-addr.arpa"));
    let without = apply("office", &servers(), None, &Vec::new(), &texts(&["."]), &Vec::new());
    assert!(without.scripts.is_empty());
    assert!(without.record.is_none());
    assert!(without.summary.starts_with("DNS left as it is:"));
}

#[test]
fn a_taken_domain_is_left_alone() {
    let records = vec![Record { owner: "other".to_string(), text: ".corp.local\n".to_string() }];
    assert_eq!(holder_of(&records, ".corp.local"), Some("other"));
    let plan = apply("office", &servers(), Some("corp.local"), &Vec::new(), &Vec::new(), &records);
    assert!(plan.scripts.is_empty());
    assert_eq!(plan.summary, "DNS left as it is: another VPN already resolves *.corp.local");
    // Its own record does not stand in a connection's way.
    let own = apply("other", &servers(), Some("corp.local"), &Vec::new(), &Vec::new(), &records);
    assert_eq!(own.scripts.len(), 1);
}

#[test]
fn nothing_is_planned_without_servers() {
    let plan = apply("office", &Vec::new(), None, &Vec::new(), &Vec::new(), &Vec::new());
    assert!(plan.scripts.is_empty());
    assert!(plan.record.is_none());
    assert_eq!(plan.summary, "");
}

/// A revert releases what was recorded, and spares what another connection holds too.
#[test]
fn a_revert_undoes_an_apply() {
    let plan = apply("office", &servers(), Some("corp.local"), &Vec::new(), &Vec::new(), &Vec::new());
    let text = plan.record.unwrap();
    let own = vec![Record { owner: "office".to_string(), text: text.clone() }];
    assert_eq!(revert("office", &text, &own), [release_script(".corp.local")]);
    let shared = vec![Record { owner: "other".to_string(), text: text.clone() }];
    assert!(revert("office", &text, &shared).is_empty());
    assert_eq!(revert_all(&own), [release_script(".corp.local")]);
}

#[test]
fn a_connection_name_is_masked() {
    let name = record_name("../..\\x");
    assert!(!name.contains('/') && !name.contains('\\') && !name.contains(".."), "{name}");
}

#[test]
fn refuses_domains_that_could_escape_etc_resolver() {
    for bad in ["../../etc/sudoers", "a/b", "foo bar", "foo;reboot", "", "..", "$(id)"] {
        assert!(safe_domain(bad).is_none(), "should have refused {bad:?}");
    }
    assert_eq!(safe_domain(" .Corp.Example.COM. ").as_deref(), Some("corp.example.com"));
}

/// The connection name is attacker-influenced in the same way the domain
/// is, and it also becomes a filename.
#[test]
fn connection_names_cannot_escape_the_run_directory() {
    let record = record_path("../../../etc/crontab");
    let p = Path::new(&record);
    assert_eq!(p.parent().unwrap().to_str().unwrap(), "/var/run/ipsec-vpn");
    assert!(!p.to_string_lossy().contains(".."));
}

#[test]
fn a_safe_domain_is_stable() {
    let once = safe_domain(" .Corp.Example.COM. ").unwrap();
    assert_eq!(safe_domain(&once).as_deref(), Some(once.as_str()));
    let path = resolver_path(&once);
    assert_eq!(path, "/etc/resolver/corp.example.com");
}

#[test]
fn split_dns_names_its_servers() {
    let plan = apply_dns("c", &texts(&["10.0.0.53", " 10.0.0.54 "]), Some("Corp.local")).unwrap();
    assert_eq!(plan.path, "/etc/resolver/corp.local");
    assert_eq!(plan.content, "nameserver 10.0.0.53\nnameserver 10.0.0.54\n");
    assert_eq!(plan.domain, "corp.local");
    assert_eq!(plan.record_path, record_path("c"));
    assert_eq!(dns_applied("corp.local").msg, "split-DNS: *.corp.local resolves over the tunnel");
    // What is recorded is what a revert removes.
    assert_eq!(revert_dns(Some(&plan.domain)).unwrap(), plan.path);
}

#[test]
fn split_dns_refuses_what_it_cannot_place() {
    let none = apply_dns("c", &texts(&["10.0.0.53"]), None).unwrap_err();
    assert_eq!(none.msg, "no usable DNS domain was supplied");
    let bad = apply_dns("c", &texts(&["x\"y"]), Some("corp.local")).unwrap_err();
    assert_eq!(bad.msg, "\"x\\\"y\" is not an IPv4 address");
    let empty = apply_dns("c", &Vec::new(), Some("corp.local")).unwrap_err();
    assert_eq!(empty.msg, "no DNS servers were supplied");
    let unrecorded = revert_dns(None).unwrap_err();
    assert!(unrecorded.ok && unrecorded.msg.is_empty());
    let tampered = revert_dns(Some("../../etc/passwd")).unwrap_err();
    assert_eq!(tampered.msg, "the recorded DNS domain is not a valid name");
}

#[test]
fn charon_is_started_only_when_it_can_be() {
    assert!(charon_start(true, true, true).unwrap().ok);
    assert!(!charon_start(false, false, true).unwrap().ok);
    assert!(!charon_start(false, true, false).unwrap().ok);
    assert!(charon_start(false, true, true).is_none());
    assert!(charon_started(true).ok);
    assert!(!charon_started(false).ok);
    assert_eq!(charon_stop(true, Some(42)).unwrap(), 42);
    assert!(charon_stop(false, Some(42)).unwrap_err().ok);
    assert!(!charon_stop(true, None).unwrap_err().ok);
    assert!(charon_stopped(true).ok);
    assert!(!charon_stopped(false).ok);
}

#[test]
fn a_process_is_read_from_the_first_line() {
    assert_eq!(pid_in("4242\n17\n"), Some(4242));
    assert_eq!(pid_in(""), None);
    assert_eq!(socket_owner_pid(b" 99 \n"), Some(99));
    assert_eq!(socket_owner_pid(b"\xff\n"), None);
}

/// launchd silently ignores a malformed plist, which would present as "the
/// helper installed fine but never starts". Check it parses.
#[test]
fn the_generated_plist_is_valid() {
    let text = plist_contents();
    let root = parse_xml(text.as_bytes()).ok().expect("the plist parses");
    assert_eq!(root.get_text("Label"), Some(MACOS_LABEL));
    match root.get("ProgramArguments") {
        Some(Plist::Array(words)) => {
            assert!(matches!(&words[0], Plist::Text(w) if w == MACOS_HELPER_BIN));
            assert!(matches!(&words[1], Plist::Text(w) if w == "run"));
        }
        _ => panic!("no arguments"),
    }
    assert!(text.contains("/Library/PrivilegedHelperTools/"));
}

#[test]
fn the_helper_starts_last() {
    let (steps, report) = install(true, true, "/src", true, Some("1.2.3".to_string())).unwrap();
    assert!(matches!(steps[0], InstallStep::Bootout));
    assert!(matches!(steps[steps.len() - 1], InstallStep::Bootstrap));
    assert!(steps.iter().any(|s| matches!(s, InstallStep::WriteStamp(v) if v == "1.2.3")));
    assert!(report.ends_with("datapaths: IPsec + SSL"), "{report}");
    let (steps, report) = install(true, true, "/src", false, None).unwrap();
    assert!(!steps.iter().any(|s| matches!(s, InstallStep::CopyOpenvpn)));
    assert!(steps
        .iter()
        .any(|s| matches!(s, InstallStep::WriteStamp(v) if v == MACOS_VERSION_UNSTAMPED)));
    assert!(report.ends_with("datapaths: IPsec"), "{report}");
}

#[test]
fn an_installation_needs_root_and_a_charon() {
    assert_eq!(
        install(false, true, "/src", true, None).unwrap_err(),
        "installing the helper needs root"
    );
    assert!(install(true, false, "/src", true, None).unwrap_err().starts_with("no charon found at /src"));
    assert_eq!(bootstrap_failed(" denied \n"), "launchctl bootstrap failed: denied");
}

#[test]
fn a_removal_stops_the_daemons_first_and_reports_what_is_left() {
    let steps = uninstall(true).unwrap();
    let at = |s: RemoveStep| steps.iter().position(|x| *x == s).unwrap();
    assert!(at(RemoveStep::StopCharon) < at(RemoveStep::Bootout));
    assert!(at(RemoveStep::KillOpenvpn) < at(RemoveStep::Bootout));
    assert_eq!(uninstall(false).unwrap_err(), "removing the helper needs root");
    assert_eq!(removal_report(&vec![false; 4]).unwrap(), "helper removed");
    let paths = removed_paths();
    assert_eq!(
        removal_report(&vec![true, false, true, false]).unwrap_err(),
        format!("could not remove: {}, {}", paths[0], paths[2])
    );
}

#[test]
fn an_installation_is_recognised() {
    assert!(installed(true, true));
    assert!(!installed(true, false));
    assert_eq!(installed_version(" 1.2.3\n").as_deref(), Some("1.2.3"));
    assert_eq!(installed_version(" \n"), None);
    let places = charon_candidates("/Applications/x");
    let mut present = vec![false; places.len()];
    assert_eq!(bundled_charon_dir("/Applications/x", &present), None);
    present[1] = true;
    assert_eq!(bundled_charon_dir("/Applications/x", &present).as_ref(), Some(&places[1]));
}

#[test]
fn only_our_charon_is_driven_or_killed() {
    assert_eq!(charon::is_ours(None, &Image::Unreadable), Ok(false));
    assert_eq!(charon::is_ours(Some(7), &Image::Ours), Ok(true));
    let foreign = charon::is_ours(Some(7), &Image::Foreign("C:\\other.exe".to_string()));
    assert!(foreign.unwrap_err().contains("C:\\other.exe (pid 7)"));
    assert!(charon::is_ours(Some(7), &Image::Unreadable).unwrap_err().contains("pid 7"));
    assert_eq!(charon::stop(Some(7), &Image::Ours), Some(7));
    assert_eq!(charon::stop(Some(7), &Image::Foreign(String::new())), None);
    assert_eq!(charon::start(true, false, "c"), Ok(false));
    assert_eq!(charon::start(false, true, "c"), Ok(true));
    assert!(charon::start(false, false, "c").unwrap_err().starts_with("strongswan.conf not found at c"));
}

/// The table holds ports in network byte order.
#[test]
fn a_listener_is_found_by_its_port() {
    let swapped = u32::from(VICI_PORT.swap_bytes());
    let rows = vec![
        Listener { local_port: u32::from(VICI_PORT), pid: 1 },
        Listener { local_port: swapped, pid: 2 },
        Listener { local_port: swapped, pid: 3 },
    ];
    assert_eq!(charon::owner_pid(&rows, VICI_PORT), Some(2));
    assert_eq!(charon::owner_pid(&Vec::new(), VICI_PORT), None);
}

#[test]
fn a_registration_is_compared_without_case() {
    assert!(points_at("\"C:\\Program Files\\VPN\\broker.exe\" run", "c:\\program files\\vpn\\BROKER.EXE"));
    assert!(!points_at("\"C:\\old\\broker.exe\" run", "C:\\new\\broker.exe"));
    assert!(needs_repoint(true, Some(false)));
    assert!(needs_repoint(true, None));
    assert!(!needs_repoint(true, Some(true)));
    assert!(!needs_repoint(false, None));
}

#[test]
fn a_service_is_brought_up_from_any_state() {
    assert_eq!(bring_up(Some(ServiceState::Running)), Bring::Done);
    assert_eq!(bring_up(Some(ServiceState::StartPending)), Bring::Done);
    assert_eq!(bring_up(Some(ServiceState::StopPending)), Bring::WaitThenStart);
    assert_eq!(bring_up(Some(ServiceState::Stopped)), Bring::Start);
    assert_eq!(bring_up(None), Bring::Start);
    assert!(is_up_anyway(Some(1056)));
    assert!(!is_up_anyway(Some(5)));
    assert!(!is_up_anyway(None));
}

#[test]
fn a_pipe_request_is_one_line_of_text() {
    assert!(!is_complete(b"{\"op\":"));
    assert!(is_complete(b"{}\nrest"));
    assert!(is_complete(&vec![b'x'; MAX_PIPE_REQUEST]));
    assert_eq!(pipe_request(b" {\"a\":1} \nrest").unwrap(), "{\"a\":1}");
    assert_eq!(pipe_request(b"\xff\n").unwrap_err().msg, "request was not valid UTF-8");
    assert_eq!(pipe_request(b"  \n").unwrap_err().msg, "empty request");
    assert_eq!(bad_request("eof").msg, "bad request: eof");
}

#[test]
fn a_socket_request_has_its_limits() {
    assert!(matches!(socket_request(""), SocketLine::HungUp));
    assert!(matches!(socket_request(" {} \n"), SocketLine::Parse(t) if t == "{}"));
    match socket_request(&"x".repeat(MAX_SOCKET_REQUEST)) {
        SocketLine::Refused(r) => assert_eq!(r.msg, "request too large"),
        other => panic!("{other:?}"),
    }
    assert!(serves(501).is_ok());
    assert_eq!(serves(0).unwrap_err().msg, "not permitted for this account");
    assert_eq!(response_text(" ok \n", "the broker").unwrap(), "ok");
    assert_eq!(
        response_text("\n", "the broker").unwrap_err(),
        "the broker closed the connection without a response"
    );
}

#[test]
fn the_helper_dispatches_by_request() {
    assert_eq!(helper_command(Some("run")), HelperCommand::Run);
    assert_eq!(helper_command(Some("install")), HelperCommand::Install);
    assert_eq!(helper_command(Some("uninstall")), HelperCommand::Uninstall);
    assert_eq!(helper_command(Some("status")), HelperCommand::Status);
    assert_eq!(helper_command(Some("nonsense")), HelperCommand::Usage);
    assert_eq!(helper_command(None), HelperCommand::Usage);
    assert!(matches!(helper_task(Request::Ping), HelperTask::Reply(r) if r.msg == "helper is running"));
    assert!(matches!(helper_task(Request::CharonStart), HelperTask::CharonStart));
    let dns = Request::ApplyDns {
        conn: "c".to_string(),
        servers: texts(&["10.0.0.53"]),
        domain: None,
        subnets: texts(&["10.0.0.0/8"]),
    };
    assert!(matches!(helper_task(dns), HelperTask::ApplyDns { conn, .. } if conn == "c"));
}

#[test]
fn reports_read_as_a_person_expects() {
    assert_eq!(helper_status(true, true), ("installed: true\nreachable: true".to_string(), 0));
    assert_eq!(helper_status(true, false).1, 1);
    assert_eq!(client_report(&Ok(Response::ok(String::new()))), (true, "ok".to_string()));
    assert_eq!(client_report(&Ok(Response::ok("10.0.0.2".to_string()))), (true, "10.0.0.2".to_string()));
    assert_eq!(client_report(&Ok(Response::err("no".to_string()))), (false, "error: no".to_string()));
    assert_eq!(client_report(&Err("no pipe".to_string())), (false, "no pipe".to_string()));
    assert!(permitted());
}

/// An override comes first, then what lies beside the broker, then the build tree.
#[test]
fn programs_are_looked_for_in_order() {
    let all = Known {
        named_program: true,
        named_directory: true,
        own_directory: true,
        working_directory: true,
    };
    let place = |base, path| Place { base, path };
    assert_eq!(
        charon_exe(all),
        [
            place(Base::NamedProgram, ""),
            place(Base::NamedDirectory, "charon-svc.exe"),
            place(Base::OwnDirectory, "charon/charon-svc.exe"),
            place(Base::OwnDirectory, "charon-svc.exe"),
            place(Base::OwnDirectory, "../../out/strongswan-windows/charon-svc.exe"),
            place(Base::WorkingDirectory, "out/strongswan-windows/charon-svc.exe"),
        ]
    );
    let none = Known {
        named_program: false,
        named_directory: false,
        own_directory: false,
        working_directory: false,
    };
    assert!(charon_exe(none).is_empty());
    assert_eq!(
        openvpn_exe(none),
        [place(Base::Nowhere, r"C:\Program Files (x86)\Sophos\Connect\openvpn.exe")]
    );
    assert_eq!(openvpn_exe(all)[0], place(Base::NamedProgram, ""));
    assert_eq!(openvpn_exe(Known { own_directory: true, ..none }).len(), 4);
}

fn dated(content: &str) -> Result<Plist, String> {
    parse_xml(
        format!("<plist version=\"1.0\"><dict><key>d</key>{content}<key>s</key><string>x</string></dict></plist>")
            .as_bytes(),
    )
}

/// A date in any offset is read past, as long as a clock can hold it.
#[test]
fn ordinary_dates_are_read() {
    for date in [
        "2026-01-02T03:04:05Z",
        "2026-01-02T03:04:05-08:00",
        "2026-01-02T03:04:05.25+05:30",
        "1601-01-01T00:00:00Z",
        "1601-01-02T00:00:00+14:00",
        "9999-12-31T23:59:59Z",
        "9999-12-31T23:59:59+01:00",
        "9999-12-30T23:59:59-12:00",
    ] {
        let root = match dated(&format!("<date>{date}</date>")) {
            Ok(root) => root,
            Err(e) => panic!("{date}: {e}"),
        };
        assert_eq!(root.get_text("s"), Some("x"), "{date}");
    }
    // What the tag holds besides its name does not matter, nor what is left out of the content.
    for content in [
        "<date a=\"&gt;\">2026-01-02T03:04:05Z</date>",
        "<date a='>9999-12-31T23:59:59-01:00'>2026-01-02T03:04:05Z</date>",
        "<date>2026-01<!-- > -->-02T03:04:05Z</date>",
        "<date><![CDATA[9999-12-31T23:59:59-01:00]]>2026-01-02T03:04:05Z</date>",
        "<date>2026-01-02<?day >9999?>T03:04:05Z</date>",
        "<!-- <date>9999-12-31T23:59:59-01:00</date> --><date>2026-01-02T03:04:05Z</date>",
    ] {
        match dated(content) {
            Ok(root) => assert_eq!(root.get_text("s"), Some("x"), "{content}"),
            Err(e) => panic!("{content}: {e}"),
        }
    }
    // The word alone is no date.
    let text = "<string>issue:date >9999-12-31T23:59:59-01:00</string>";
    assert!(dated(text).is_ok());
}

#[test]
fn a_date_that_no_clock_holds_is_refused() {
    for content in [
        "<date>9999-12-31T23:59:59-01:00</date>",
        "<date >9999-12-31T23:59:59-01:00</date>",
        "<x:date>9999-12-31T23:59:59-01:00</x:date>",
        "<date>1600-12-31T00:00:00Z</date>",
        "<date>0001-01-01T00:00:00Z</date>",
        "<date>1601-01-01T00:00:00+01:00</date>",
        "<date>9999-12<!-- -->-31T23:59:59-01:00</date>",
        "<date>&#57;999-12-31T23:59:59-01:00</date>",
        "<date a=\"&gt;\">9999-12-31T23:59:59-01:00</date>",
        "<date a='>'>9999-12-31T23:59:59-01:00</date>",
        "<date>9999<![CDATA[-]]>-12-31T23:59:59-01:00</date>",
        "<date><?a?>9999-12-31T23:59:59<!----->-01:00</date>",
        "<q\">\":date>9999-12-31T23:59:59-01:00</q\">\":date>",
    ] {
        assert_eq!(dated(content).err().as_deref(), Some("a date is out of range"), "{content}");
    }
    // What is no date at all is for the reader to refuse.
    let e = dated("<date>yesterday</date>").err().unwrap();
    assert!(e.contains("InvalidDateString"), "{e}");
}

/// Behind a document type with declarations of its own every date is refused, and every `<` counts
/// as one more level.
#[test]
fn a_document_type_with_declarations_is_read_with_care() {
    let typed = |content: &str| {
        format!("<!DOCTYPE plist [<!ELEMENT a \"]>\">]><plist><dict>{content}</dict></plist>")
    };
    let plain = typed("<key>s</key><string>x</string>");
    assert_eq!(nesting(plain.as_bytes()), 9);
    let root = match parse_xml(plain.as_bytes()) {
        Ok(root) => root,
        Err(e) => panic!("{e}"),
    };
    assert_eq!(root.get_text("s"), Some("x"));
    let date = typed("<key>d</key><date>2026-01-02T03:04:05Z</date>");
    assert_eq!(parse_xml(date.as_bytes()).err().as_deref(), Some("a date is out of range"));
    let many = typed(&"<key>s</key><string>x</string>".repeat(MAX_LEVELS / 4));
    assert_eq!(parse_xml(many.as_bytes()).err().as_deref(), Some("nested too deep"));
}

#[test]
fn the_elements_that_are_open_at_once_are_counted() {
    for (text, open) in [
        ("", 0),
        ("no markup", 0),
        ("<a>", 1),
        ("<a/>", 1),
        ("<a><b></b><c></c></a>", 2),
        ("<a><b/><b/></a>", 2),
        ("</a></a><a>", 1),
        ("<a><!-- </a> --><b>", 2),
        ("<a><!--></a>--><b>", 2),
        ("<a><!----><b>", 2),
        ("<a><![CDATA[</a>]]><b>", 2),
        ("<a><?x </a>?><b>", 2),
        ("<a x='</a>'><b x=\"'</a>\">", 2),
        ("<!DOCTYPE a \"<a><a>\"><a><b>", 2),
        ("<!DOCTYPE a [ ]><a></a>", 2),
        ("<a><b><!- </b>-->", 2),
        ("<a><!--<b>", 1),
        ("<a><b", 1),
        ("<a><!x><b>", 1),
    ] {
        assert_eq!(nesting(text.as_bytes()), open, "{text}");
    }
    assert_eq!(nesting(plist_contents().as_bytes()), 4);
}

#[test]
fn a_property_list_is_read_to_a_bounded_depth() {
    let nested = |n: usize| format!("<plist>{}{}</plist>", "<array>".repeat(n), "</array>".repeat(n));
    assert!(parse_xml(nested(MAX_LEVELS - 1).as_bytes()).is_ok());
    let many = 200_000;
    for text in [
        nested(MAX_LEVELS),
        nested(many),
        // The last one is never closed.
        format!("{}{}", "<array>".repeat(many), "</array>".repeat(many - 1)),
        // A second root.
        format!("{}{}<true/>", "<array>".repeat(many), "</array>".repeat(many)),
        // Where a key is due.
        format!("<dict>{}{}</dict>", "<array>".repeat(many), "</array>".repeat(many)),
        // Closed in comments, CDATA sections, instructions and attributes alone.
        "<array><!-- </array> -->".repeat(many),
        "<array><![CDATA[</array>]]>".repeat(many),
        "<array><?x </array>?>".repeat(many),
        "<array x='</array>'>".repeat(many),
        // Behind declarations that hide where tags begin.
        format!("<!DOCTYPE plist [<!ENTITY a '<array></array>'>]>{}", "<array>".repeat(many)),
    ] {
        assert_eq!(parse_xml(text.as_bytes()).err().as_deref(), Some("nested too deep"));
    }
    // Many elements beside one another are no depth.
    let wide = format!("<array>{}</array>", "<array></array><true/>".repeat(many));
    assert!(parse_xml(wide.as_bytes()).is_ok());
}
