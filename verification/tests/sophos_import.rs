//! From each of the Sophos formats to the configuration.

use cross_platform_vpn::import::ImportedProfile;
use cross_platform_vpn::model::{AuthMethod, DhGroup, EncAlg, IkeIdType, IkeVersion, IntegAlg, PrfAlg};
use cross_platform_vpn::swanctl::{render, SecretRendering};
use cross_platform_vpn::sophos::{detect, import_profile, mobileconfig, pro, scx, Format, ImportError};

const SCX: &str = r#"{
    "name": "Example IPsec",
    "display_name": "",
    "domain_suffix": "",
    "type": "xg",
    "managed": false,
    "gateway": "203.0.113.10",
    "vip": "0.0.0.0",
    "run_logon_script": false,
    "proposals": ["aes256-sha2_256-modp2048"],
    "dpd_delay": "60",
    "local_auth": {
        "psk": { "id": "203.0.113.10" },
        "xauth": { "can_save": true },
        "otp": false
    },
    "remote_auth": {
        "psk": { "id": "%any", "secret": "REDACTED-NOT-A-REAL-KEY" }
    },
    "child": {
        "proposals": ["aes256-sha2_256-modp2048"],
        "remote_ts": ["10.168.111.0/24", "198.51.100.7/32"]
    }
}"#;

const TGB: &str = "\
# Written by VpnConf
[General]
DPD-interval = 60
Default-phase-1-lifetime = 28800

[Phase 1]
192.168.2.2 = IPsecVPN-P1

[Phase 2]
Manual-connections = IPsecVPN-P2

[IPsecVPN-P1]
Phase = 1
Address = 192.168.2.2
Transport = udp
Configuration = IPsecVPN-main
Authentication = REDACTED-NOT-A-REAL-KEY
ID = IPsecVPN-local-ID
Xauth = 0

[IPsecVPN-local-ID]
ID-Type = IPV4_ADDR
Address = 203.0.113.10

[IPsecVPN-main]
DOI = IPSEC
EXCHANGE_TYPE = ID_PROT
Transforms = AES256-SHA2_256-GRP14

[AES256-SHA2_256-GRP14]
ENCRYPTION_ALGORITHM = AES_CBC
KEY_LENGTH = 256,128:256
HASH_ALGORITHM = SHA2_256
AUTHENTICATION_METHOD = PRE_SHARED
GROUP_DESCRIPTION = MODP_2048

[IPsecVPN-P2]
Phase = 2
ISAKMP-peer = IPsecVPN-P1
Configuration = IPsecVPN-quick
Remote-ID = IPsecVPN-remote-ID

[IPsecVPN-remote-ID]
ID-Type = IPV4_ADDR_SUBNET
Network = 0.0.0.0
Netmask = 0.0.0.0

[IPsecVPN-quick]
DOI = IPSEC
EXCHANGE_TYPE = QUICK_MODE
Suites = IPsecVPN-suite

[IPsecVPN-suite]
Protocols = IPsecVPN-protocol

[IPsecVPN-protocol]
PROTOCOL_ID = IPSEC_ESP
Transforms = IPsecVPN-ESP-PFSGRP14

[IPsecVPN-ESP-PFSGRP14]
TRANSFORM_ID = AES
KEY_LENGTH = 256,128:256
ENCAPSULATION_MODE = TUNNEL
AUTHENTICATION_ALGORITHM = HMAC_SHA2_256
GROUP_DESCRIPTION = MODP_2048
";

const PRO: &str = r#"[{"gateway": "203.0.113.10", "user_portal_port": 4443}]"#;

const MOBILE: &str = r#"<?xml version="1.0" encoding="UTF-8"?>
<!DOCTYPE plist PUBLIC "-//Apple//DTD PLIST 1.0//EN" "http://www.apple.com/DTDs/PropertyList-1.0.dtd">
<plist version="1.0">
<dict>
    <key>PayloadContent</key>
    <array>
        <dict>
            <key>PayloadType</key>
            <string>com.apple.vpn.managed</string>
            <key>UserDefinedName</key>
            <string>Portal VPN</string>
            <key>VPNType</key>
            <string>IPSec</string>
            <key>IPSec</key>
            <dict>
                <key>AuthenticationMethod</key>
                <string>SharedSecret</string>
                <key>RemoteAddress</key>
                <string>203.0.113.10</string>
                <key>SharedSecret</key>
                <data>UkVEQUNURUQtTk9ULUEtUkVBTC1LRVk=</data>
                <key>XAuthEnabled</key>
                <integer>1</integer>
            </dict>
        </dict>
    </array>
    <key>PayloadType</key>
    <string>Configuration</string>
</dict>
</plist>
"#;

fn imported(text: &str) -> ImportedProfile {
    match import_profile(text) {
        Ok(p) => p,
        Err(e) => panic!("import failed: {}", e.message()),
    }
}

fn refused(text: &str) -> ImportError {
    match import_profile(text) {
        Ok(_) => panic!("import succeeded"),
        Err(e) => e,
    }
}

fn findings(p: &ImportedProfile) -> Vec<String> {
    p.warnings.iter().map(|w| w.0.clone()).collect()
}

#[test]
fn imports_a_sophos_connect_profile() {
    let imported = imported(SCX);
    let c = &imported.config;

    assert_eq!(c.name, "Example IPsec");
    assert_eq!(c.gateway, "203.0.113.10");
    assert_eq!(c.ike_version, IkeVersion::V2);

    // The firewall hands the client its own public address as the identity to
    // present, and it has to go out typed as an IPv4 ID.
    assert_eq!(c.local_id.as_deref(), Some("203.0.113.10"));
    assert_eq!(c.local_id_type, Some(IkeIdType::Ipv4));

    assert_eq!(c.ike_enc, EncAlg::Aes256);
    assert_eq!(c.ike_integ, IntegAlg::Sha256);
    assert_eq!(c.ike_prf, PrfAlg::Sha256);
    assert_eq!(c.ike_dh, DhGroup::Modp2048);
    assert_eq!(c.ike_proposal(), "aes256-sha256-prfsha256-modp2048");

    assert_eq!(c.esp_enc, EncAlg::Aes256);
    assert_eq!(c.esp_integ, IntegAlg::Sha256);
    assert_eq!(c.pfs, Some(DhGroup::Modp2048));

    let subnets: Vec<String> = c.remote_subnets.iter().map(|n| n.to_text()).collect();
    assert_eq!(subnets, ["10.168.111.0/24", "198.51.100.7/32"]);

    assert!(c.request_virtual_ip, "vip 0.0.0.0 means ask for one");
    assert_eq!(c.dpd.delay_secs, 60);

    let ua = c.user_auth.as_ref().expect("xauth block means user auth");
    assert!(ua.can_save);
    assert!(!ua.otp);
    assert!(ua.username.is_none(), "the username is the user's to supply");
}

#[test]
fn imports_the_legacy_tgb_profile() {
    let imported = imported(TGB);
    let c = &imported.config;

    assert_eq!(c.name, "IPsecVPN");
    // Stated outright by the file: main mode and quick mode.
    assert_eq!(c.ike_version, IkeVersion::V1);
    assert_eq!(c.gateway, "192.168.2.2");
    assert_eq!(c.local_id.as_deref(), Some("203.0.113.10"));
    assert_eq!(c.local_id_type, Some(IkeIdType::Ipv4));

    assert_eq!(c.ike_enc, EncAlg::Aes256);
    assert_eq!(c.ike_integ, IntegAlg::Sha256);
    assert_eq!(c.ike_dh, DhGroup::Modp2048);
    assert_eq!(c.esp_enc, EncAlg::Aes256);
    assert_eq!(c.esp_integ, IntegAlg::Sha256);
    assert_eq!(c.pfs, Some(DhGroup::Modp2048), "PFSGRP14 in phase 2");

    // 0.0.0.0/0.0.0.0 is how these profiles say "full tunnel".
    assert_eq!(c.remote_subnets.len(), 1);
    assert_eq!(c.remote_subnets[0].to_text(), "0.0.0.0/0");

    assert_eq!(c.dpd.delay_secs, 60, "from [General] DPD-interval");
    assert!(c.user_auth.is_none(), "Xauth = 0");
}

/// The export was generated against the firewall's internal interface, so the
/// address in it is not reachable from outside — the import has to say so
/// rather than leave the user with a connection that just times out.
#[test]
fn warns_that_a_private_gateway_will_not_be_reachable() {
    let imported = imported(TGB);
    assert!(
        imported
            .warnings
            .iter()
            .any(|w| w.0.contains("192.168.2.2") && w.0.contains("private")),
        "expected a warning about the private gateway, got: {:?}",
        imported.warnings
    );
}

#[test]
fn scx_warns_that_the_second_auth_round_is_a_guess() {
    let imported = imported(SCX);
    assert!(
        imported
            .warnings
            .iter()
            .any(|w| w.0.contains("EAP-MSCHAPv2") && w.0.contains("unconfirmed")),
        "got: {:?}",
        imported.warnings
    );
}

/// The one thing that must never happen: a parse error, a warning or any other
/// user-visible text quoting the key back out of the file.
#[test]
fn no_warning_ever_repeats_the_pre_shared_key() {
    for input in [SCX, TGB] {
        let imported = imported(input);
        for w in &imported.warnings {
            assert!(
                !w.0.contains("REDACTED-NOT-A-REAL-KEY"),
                "warning leaked the key: {}",
                w.message()
            );
        }
        // The dump of the config redacts it too — that is what gets logged.
        let dumped = imported.config.debug_text();
        assert!(!dumped.contains("REDACTED-NOT-A-REAL-KEY"), "{dumped}");
    }
}

#[test]
fn a_provisioning_file_is_recognised_but_not_a_connection() {
    assert_eq!(detect(PRO), Some(Format::Provisioning));
    assert!(matches!(
        import_profile(PRO),
        Err(ImportError::IsProvisioning)
    ));

    let entries = pro::parse(PRO).unwrap();
    assert_eq!(entries.len(), 1);
    assert_eq!(
        entries[0].portal_url().as_deref(),
        Some("https://203.0.113.10:4443")
    );
}

#[test]
fn each_fixture_is_detected_as_its_own_format() {
    assert_eq!(detect(SCX), Some(Format::Connect));
    assert_eq!(detect(TGB), Some(Format::Legacy));
}

/// A truncated file must fail cleanly rather than import half a connection.
#[test]
fn a_tgb_missing_a_referenced_section_is_refused() {
    let broken = TGB.replace("[AES256-SHA2_256-GRP14]", "[SOMETHING-ELSE]");
    assert!(matches!(
        import_profile(&broken),
        Err(ImportError::SectionNotFound(_))
    ));
}

/// Aggressive mode leaks the PSK hash and needs a flag the model does not
/// carry, so it must be refused, not quietly downgraded to main mode.
#[test]
fn aggressive_mode_is_refused() {
    let aggressive = TGB.replace("EXCHANGE_TYPE = ID_PROT", "EXCHANGE_TYPE = AGGRESSIVE");
    assert!(matches!(
        import_profile(&aggressive),
        Err(ImportError::Unsupported(_))
    ));
}

/// The key itself arrives, even though nothing that is shown holds it.
#[test]
fn the_pre_shared_key_is_imported() {
    for input in [SCX, TGB] {
        let p = imported(input);
        let AuthMethod::PresharedKey(psk) = &p.config.auth;
        assert_eq!(psk.expose(), "REDACTED-NOT-A-REAL-KEY");
    }
}

#[test]
fn findings_do_not_depend_on_the_pre_shared_key() {
    for input in [SCX, TGB] {
        let other = input.replace("REDACTED-NOT-A-REAL-KEY", "something else entirely");
        assert_eq!(findings(&imported(input)), findings(&imported(&other)));
    }
}

/// The gateway's tunnel address comes by mode config, so it is always asked for.
#[test]
fn a_legacy_profile_asks_for_a_virtual_ip() {
    assert!(imported(TGB).config.request_virtual_ip);
}

#[test]
fn legacy_xauth_means_a_login() {
    let p = imported(&TGB.replace("Xauth = 0", "Xauth = 1"));
    assert!(p.config.user_auth.is_some());
}

#[test]
fn a_legacy_cipher_that_is_not_aes_is_refused() {
    let weak = TGB.replace("ENCRYPTION_ALGORITHM = AES_CBC", "ENCRYPTION_ALGORITHM = 3DES_CBC");
    match refused(&weak) {
        ImportError::UnknownAlgorithm { context, token } => {
            assert_eq!(context, "phase 1");
            assert_eq!(token, "3DES_CBC");
        }
        e => panic!("{}", e.message()),
    }
}

#[test]
fn a_legacy_key_length_that_aes_lacks_is_refused() {
    let odd = TGB.replacen("KEY_LENGTH = 256,128:256", "KEY_LENGTH = 512", 1);
    match refused(&odd) {
        ImportError::UnknownAlgorithm { token, .. } => assert_eq!(token, "AES with a 512-bit key"),
        e => panic!("{}", e.message()),
    }
}

#[test]
fn a_legacy_transport_mode_is_refused() {
    let transport = TGB.replace("ENCAPSULATION_MODE = TUNNEL", "ENCAPSULATION_MODE = TRANSPORT");
    assert_eq!(
        refused(&transport).message(),
        "phase 2 encapsulation mode TRANSPORT (only TUNNEL is implemented) is not supported yet"
    );
}

#[test]
fn a_legacy_netmask_with_holes_is_refused() {
    let holes = TGB.replace("Netmask = 0.0.0.0", "Netmask = 255.0.255.0");
    assert!(matches!(refused(&holes), ImportError::BadValue { field: "Netmask", .. }));
}

#[test]
fn an_scx_without_a_gateway_is_refused() {
    let missing = SCX.replace("\"gateway\": \"203.0.113.10\",", "");
    // By its contents such a file is no profile at all; read as one, it lacks its gateway.
    assert!(matches!(refused(&missing), ImportError::Unrecognised));
    match scx::import(&missing) {
        Err(ImportError::MissingField(f)) => assert_eq!(f, "gateway"),
        _ => panic!("imported"),
    }
}

#[test]
fn an_scx_gateway_with_odd_characters_is_refused() {
    let odd = SCX.replace("\"gateway\": \"203.0.113.10\"", "\"gateway\": \"evil }\"");
    match refused(&odd) {
        ImportError::BadValue { field, value, .. } => {
            assert_eq!(field, "gateway");
            assert_eq!(value, "evil }");
        }
        e => panic!("{}", e.message()),
    }
}

#[test]
fn broken_json_is_reported_as_such() {
    match scx::import("{\"gateway\": \"203.0.113.10\", ") {
        Err(e) => {
            assert!(e.message().starts_with("not valid JSON: EOF while parsing"), "{}", e.message())
        }
        Ok(_) => panic!("imported"),
    }
}

#[test]
fn an_identity_without_a_type_is_sent_as_an_fqdn() {
    let named = SCX.replace("\"psk\": { \"id\": \"203.0.113.10\" }", "\"psk\": { \"id\": \"branch-7\" }");
    let p = imported(&named);
    assert_eq!(p.config.local_id.as_deref(), Some("branch-7"));
    assert_eq!(p.config.local_id_type, Some(IkeIdType::Fqdn));
    assert!(findings(&p).iter().any(|w| w.contains("\"branch-7\"") && w.contains("FQDN")));

    let mail = SCX.replace("\"psk\": { \"id\": \"203.0.113.10\" }", "\"psk\": { \"id\": \"a@b.example\" }");
    assert_eq!(imported(&mail).config.local_id_type, Some(IkeIdType::Rfc822));
}

#[test]
fn an_unreadable_selector_is_refused_not_skipped() {
    let bad = SCX.replace("198.51.100.7/32", "198.51.100.7/99");
    assert!(matches!(refused(&bad), ImportError::BadValue { .. }));
}

#[test]
fn the_dead_peer_delay_may_be_a_number_or_a_text() {
    assert_eq!(imported(SCX).config.dpd.delay_secs, 60);
    let number = SCX.replace("\"dpd_delay\": \"60\"", "\"dpd_delay\": 45");
    assert_eq!(imported(&number).config.dpd.delay_secs, 45);
    let absent = SCX.replace("\"dpd_delay\": \"60\",", "");
    assert_eq!(imported(&absent).config.dpd.delay_secs, 30);
}

#[test]
fn a_mobileconfig_is_imported() {
    assert!(mobileconfig::looks_like(MOBILE));
    let p = match mobileconfig::import(MOBILE) {
        Ok(p) => p,
        Err(e) => panic!("{}", e.message()),
    };
    assert_eq!(p.config.name, "Portal VPN");
    assert_eq!(p.config.gateway, "203.0.113.10");
    assert_eq!(p.config.ike_version, IkeVersion::V1);
    assert!(p.config.remote_subnets.is_empty(), "no network is implied");
    let AuthMethod::PresharedKey(psk) = &p.config.auth;
    assert_eq!(psk.expose(), "REDACTED-NOT-A-REAL-KEY");
    assert!(p.config.user_auth.is_some());
}

#[test]
fn a_mobileconfig_that_is_no_plist_is_refused() {
    let e = match mobileconfig::import("<plist><dict><key>x</key>") {
        Ok(_) => panic!("import succeeded"),
        Err(e) => e,
    };
    assert!(e.message().starts_with("not a valid Apple property list: "), "{}", e.message());
}

fn mobile(text: &str) -> ImportedProfile {
    match mobileconfig::import(text) {
        Ok(p) => p,
        Err(e) => panic!("import failed: {}", e.message()),
    }
}

/// The findings are the same whatever the key, and never quote it.
#[test]
fn mobileconfig_findings_do_not_depend_on_the_key() {
    // The base64 of "another key".
    let other = MOBILE.replace("UkVEQUNURUQtTk9ULUEtUkVBTC1LRVk=", "YW5vdGhlciBrZXk=");
    let (one, two) = (mobile(MOBILE), mobile(&other));
    let AuthMethod::PresharedKey(psk) = &two.config.auth;
    assert_eq!(psk.expose(), "another key");
    assert_eq!(findings(&one), findings(&two));
    assert!(findings(&one).iter().all(|w| !w.contains("REDACTED-NOT-A-REAL-KEY")));
}

#[test]
fn a_private_gateway_is_reported_by_every_format() {
    let head = "the profile dials 192.168.7.1, a private address";
    let scx = imported(&SCX.replace("\"gateway\": \"203.0.113.10\"", "\"gateway\": \"192.168.7.1\""));
    assert!(findings(&scx).iter().any(|w| w.starts_with(head)), "{:?}", findings(&scx));
    let portal = mobile(&MOBILE.replace("203.0.113.10", "192.168.7.1"));
    assert!(findings(&portal).iter().any(|w| w.starts_with(head)), "{:?}", findings(&portal));
    assert!(findings(&imported(SCX)).iter().all(|w| !w.contains("private address")));
    assert!(findings(&mobile(MOBILE)).iter().all(|w| !w.contains("private address")));
}

/// Without a second round there is nothing to ask for, and nothing to report.
#[test]
fn an_scx_without_a_second_round_asks_for_no_login() {
    let p = imported(&SCX.replace("\"xauth\": { \"can_save\": true },", ""));
    assert!(p.config.user_auth.is_none());
    assert!(findings(&p).iter().all(|w| !w.contains("EAP-MSCHAPv2")));
}

#[test]
fn a_mobileconfig_with_an_impossible_date_is_refused() {
    let text = MOBILE.replace(
        "<key>PayloadType</key>\n    <string>Configuration</string>",
        "<key>Expires</key>\n    <date>9999-12-31T23:59:59-01:00</date>",
    );
    assert!(text.contains("<date>"));
    match mobileconfig::import(&text) {
        Ok(_) => panic!("import succeeded"),
        Err(e) => assert_eq!(
            e.message(),
            "not a valid Apple property list: a date is out of range"
        ),
    }
    assert!(mobileconfig::import(&text.replace("-01:00", "Z")).is_ok());
}

/// The rendered configuration speaks the version that the profile does.
#[test]
fn the_rendered_version_is_that_of_the_profile() {
    let v1 = render(&imported(TGB).config, SecretRendering::Redact);
    assert!(v1.contains("        version = 1\n"), "{v1}");
    let v2 = render(&imported(SCX).config, SecretRendering::Redact);
    assert!(v2.contains("        version = 2\n"), "{v2}");
}

#[test]
fn a_repeated_key_counts_by_its_last_value() {
    let twice = SCX.replacen(
        "\"gateway\": \"203.0.113.10\"",
        "\"gateway\": \"198.51.100.1\", \"gateway\": \"203.0.113.10\"",
        1,
    );
    assert_eq!(scx::import(&twice).unwrap().config.gateway, "203.0.113.10");
}

#[test]
fn json_of_another_shape_has_one_error() {
    match scx::import("{\"gateway\": 7}") {
        Err(ImportError::Json(e)) => {
            assert_eq!(e, "the value does not have the shape of a Sophos Connect profile")
        }
        _ => panic!("accepted"),
    }
    match pro::parse("{}") {
        Err(ImportError::Json(e)) => {
            assert_eq!(e, "the value does not have the shape of a provisioning file")
        }
        _ => panic!("accepted"),
    }
}
