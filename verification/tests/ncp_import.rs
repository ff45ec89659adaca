//! From an NCP `.ini` profile to the configuration and on to `swanctl.conf`.

use cross_platform_vpn::import::ImportedProfile;
use cross_platform_vpn::model::{AuthMethod, DhGroup, EncAlg, IkeIdType, IntegAlg, PrfAlg};
use cross_platform_vpn::ncp::{codes, import_profile, ImportError, ParseError};
use cross_platform_vpn::swanctl::{render, SecretRendering};

const FIXTURE: &str = "\
[GENERAL]
Export=1
Product=NCP Secure Entry Client

[PROFILE1]
Name=EFA_MDT_42
ConnMedia=8
ConnMode=0
SeamRoaming=1
PriVoIP=0
Gateway=gateway.example.test
ExchMode=34
IKEv2Auth=2
IKEv2Policy=IKEv2-AES256
IkeDhGroup=15
IPSEC-Policy=ESP-AES256
PFS=15
UseComp=0
IkeIdType=2
IkeIdStr=efa_mdt_42
Secret=REDACTED-PSK-PLACEHOLDER
UseXAUTH=0
IpAddrAssign=0
Network1=10.102.15.0
SubMask1=255.255.255.0

[IKEV2POLICY1]
Ikev2Name=IKEv2-AES256
Ikev2Crypt=6
Ikev2PRF=5
Ikev2IntAlgo=12

[IPSECPOLICY1]
IPSecName=ESP-AES256
IpsecCrypt=6
IpsecAuth=5
";

fn imported(text: &str) -> ImportedProfile {
    match import_profile(text) {
        Ok(p) => p,
        Err(e) => panic!("import failed: {}", e.message()),
    }
}

fn refused(text: &str) -> ImportError {
    match import_profile(text) {
        Ok(_) => panic!("import succeeded"),
        Err(e) => e,
    }
}

fn findings(p: &ImportedProfile) -> String {
    p.warnings.iter().map(|w| w.message().to_string()).collect::<Vec<_>>().join("\n")
}

#[test]
fn imports_sample_profile() {
    let imported = imported(FIXTURE);
    let c = &imported.config;

    assert_eq!(c.name, "EFA_MDT_42");
    assert_eq!(c.gateway, "gateway.example.test");
    assert_eq!(c.local_id.as_deref(), Some("efa_mdt_42"));
    assert_eq!(c.ike_enc, EncAlg::Aes256);
    assert_eq!(c.ike_integ, IntegAlg::Sha256);
    assert_eq!(c.ike_prf, PrfAlg::Sha256);
    assert_eq!(c.ike_dh, DhGroup::Modp3072);
    assert_eq!(c.esp_enc, EncAlg::Aes256);
    assert_eq!(c.esp_integ, IntegAlg::Sha256);
    assert_eq!(c.pfs, Some(DhGroup::Modp3072));
    assert_eq!(c.remote_subnets.len(), 1);
    assert_eq!(c.remote_subnets[0].to_text(), "10.102.15.0/24");
    assert!(c.request_virtual_ip);
    assert!(!c.compression);

    let AuthMethod::PresharedKey(psk) = &c.auth;
    assert_eq!(psk.expose(), "REDACTED-PSK-PLACEHOLDER");
    // The dump must never leak the secret.
    assert!(!c.debug_text().contains("REDACTED-PSK-PLACEHOLDER"));
}

#[test]
fn warning_expectations_match_confidence_levels() {
    let imported = imported(FIXTURE);
    let all = findings(&imported);

    // Algorithm codes that are confirmed must not warn.
    for confirmed in ["Ikev2Crypt", "Ikev2PRF", "Ikev2IntAlgo", "IpsecAuth", "IkeDhGroup"] {
        assert!(
            !all.contains(confirmed),
            "{confirmed} is confirmed High and should not warn:\n{all}"
        );
    }
    // Fields that are deliberately ignored must still be surfaced.
    assert!(all.contains("SeamRoaming"), "missing ignored-field warning:\n{all}");
}

#[test]
fn renders_expected_swanctl_conf() {
    let imported = imported(FIXTURE);
    let conf = render(&imported.config, SecretRendering::Include);

    assert!(conf.contains("version = 2"));
    assert!(conf.contains("remote_addrs = gateway.example.test"));
    assert!(conf.contains("proposals = aes256-sha256-prfsha256-modp3072"));
    assert!(conf.contains("esp_proposals = aes256-sha256-modp3072"));
    assert!(conf.contains("remote_ts = 10.102.15.0/24"));
    assert!(conf.contains("vips = 0.0.0.0"));
    assert!(conf.contains("id = \"efa_mdt_42\""));
    assert!(conf.contains("secret = \"REDACTED-PSK-PLACEHOLDER\""));
    assert!(!conf.contains("ipcomp"));

    let redacted = render(&imported.config, SecretRendering::Redact);
    assert!(!redacted.contains("REDACTED-PSK-PLACEHOLDER"));
    assert!(redacted.contains("***REDACTED***"));
}

#[test]
fn unknown_algorithm_code_fails_loud() {
    let mutated = FIXTURE.replace("Ikev2Crypt=6", "Ikev2Crypt=99");
    let err = refused(&mutated);
    assert!(err.message().contains("Ikev2Crypt=99"));
}

#[test]
fn unknown_auth_method_fails_loud() {
    let mutated = FIXTURE.replace("IKEv2Auth=2", "IKEv2Auth=7");
    assert!(import_profile(&mutated).is_err());
}

#[test]
fn non_ikev2_profile_is_rejected() {
    let mutated = FIXTURE.replace("ExchMode=34", "ExchMode=2");
    assert!(import_profile(&mutated).is_err());
}

#[test]
fn hostile_gateway_is_rejected() {
    let mutated = FIXTURE.replace(
        "Gateway=gateway.example.test",
        "Gateway=evil }\ninjected = 1",
    );
    assert!(import_profile(&mutated).is_err());
}

#[test]
fn a_hostile_gateway_on_one_line_is_a_bad_gateway() {
    let mutated = FIXTURE.replace("Gateway=gateway.example.test", "Gateway=evil } injected");
    match refused(&mutated) {
        ImportError::BadGateway(g) => assert_eq!(g, "evil } injected"),
        e => panic!("{}", e.message()),
    }
}

#[test]
fn a_file_without_a_profile_section_is_refused() {
    assert!(matches!(refused("[GENERAL]\nExport=1\n"), ImportError::NoProfileSection));
}

#[test]
fn a_file_that_is_no_ini_is_a_parse_error() {
    assert!(matches!(refused("hello=1\n"), ImportError::Parse(ParseError::OutsideSection { line: 1 })));
    assert!(matches!(refused("[A]\nhello\n"), ImportError::Parse(ParseError::Malformed { line: 2 })));
}

#[test]
fn a_missing_field_is_named() {
    let mutated = FIXTURE.replace("IkeDhGroup=15\n", "");
    match refused(&mutated) {
        ImportError::MissingField { section, field } => {
            assert_eq!(section, "PROFILE1");
            assert_eq!(field, "IkeDhGroup");
        }
        e => panic!("{}", e.message()),
    }
}

#[test]
fn a_code_that_is_no_number_is_named() {
    match refused(&FIXTURE.replace("IkeDhGroup=15", "IkeDhGroup=modp")) {
        ImportError::NotANumber { field, value } => {
            assert_eq!(field, "IkeDhGroup");
            assert_eq!(value, "modp");
        }
        e => panic!("{}", e.message()),
    }
}

#[test]
fn a_policy_that_is_not_in_the_file_is_named() {
    match refused(&FIXTURE.replace("Ikev2Name=IKEv2-AES256", "Ikev2Name=Other")) {
        ImportError::PolicyNotFound { name, .. } => assert_eq!(name, "IKEv2-AES256"),
        e => panic!("{}", e.message()),
    }
}

#[test]
fn a_bad_network_and_a_bad_netmask_are_refused() {
    assert!(matches!(
        refused(&FIXTURE.replace("Network1=10.102.15.0", "Network1=10.102.15")),
        ImportError::BadAddress { .. }
    ));
    assert!(matches!(
        refused(&FIXTURE.replace("SubMask1=255.255.255.0", "SubMask1=255.0.255.0")),
        ImportError::BadNetmask { index: 1 }
    ));
}

#[test]
fn errors_read_as_sentences() {
    let exchange = refused(&FIXTURE.replace("ExchMode=34", "ExchMode=2"));
    assert_eq!(exchange.message(), "profile is not IKEv2 (ExchMode=2); only IKEv2 is supported");
    let auth = refused(&FIXTURE.replace("IKEv2Auth=2", "IKEv2Auth=7"));
    assert_eq!(
        auth.message(),
        "IKEv2Auth=7: unknown code — refusing to guess a authentication method"
    );
    // The quoting is that of a debug dump, so a hostile value cannot break out of it.
    let gateway = refused(&FIXTURE.replace("Gateway=gateway.example.test", "Gateway=a\"b"));
    assert_eq!(gateway.message(), "gateway contains invalid characters: \"a\\\"b\"");
}

#[test]
fn xauth_asks_for_a_login_and_says_that_it_is_unconfirmed() {
    let p = imported(&FIXTURE.replace("UseXAUTH=0", "UseXAUTH=1"));
    let ua = p.config.user_auth.as_ref().unwrap();
    assert!(ua.username.is_none());
    assert!(ua.can_save);
    assert!(!ua.otp);
    assert!(findings(&p).contains("UseXAUTH=1: a second authentication round"));
    assert!(imported(FIXTURE).config.user_auth.is_none());
}

/// Two profiles that differ in nothing but the key give the same findings.
#[test]
fn findings_do_not_depend_on_the_key() {
    let one = imported(FIXTURE);
    let two = imported(&FIXTURE.replace("REDACTED-PSK-PLACEHOLDER", "another key"));
    assert_eq!(findings(&one), findings(&two));
}

/// Every network of the section is imported, however many there are.
#[test]
fn all_networks_are_imported_in_order() {
    let mut text = String::new();
    for i in 1..=40 {
        text.push_str(&format!("Network{i}=10.0.{i}.0\nSubMask{i}=255.255.255.0\n"));
    }
    let p = imported(&FIXTURE.replace("Network1=10.102.15.0\nSubMask1=255.255.255.0\n", &text));
    let nets: Vec<String> = p.config.remote_subnets.iter().map(|n| n.to_text()).collect();
    let want: Vec<String> = (1..=40).map(|i| format!("10.0.{i}.0/24")).collect();
    assert_eq!(nets, want);
}

#[test]
fn resolvers_and_domain_are_imported() {
    let text = FIXTURE.replace(
        "SubMask1=255.255.255.0\n",
        "SubMask1=255.255.255.0\nDNS1=10.0.0.53\nDNS2=0.0.0.0\nDomainName=corp.example\n",
    );
    let p = imported(&text);
    let servers: Vec<String> = p.config.dns.servers.iter().map(|a| a.to_text()).collect();
    assert_eq!(servers, ["10.0.0.53"]);
    assert_eq!(p.config.dns.domain.as_deref(), Some("corp.example"));
}

#[test]
fn codes_carry_their_confidence() {
    let enc = codes::enc_alg(6).unwrap();
    assert_eq!(enc.value, EncAlg::Aes256);
    assert_eq!(enc.confidence, codes::Confidence::High);
    assert!(codes::enc_alg(99).is_none());
    assert_eq!(codes::dh_group(15).unwrap().value, DhGroup::Modp3072);
    assert!(codes::dh_group(3).is_none());
    assert_eq!(codes::prf_alg(5).unwrap().value, PrfAlg::Sha256);
    assert_eq!(codes::ike_integ_alg(12).unwrap().value, IntegAlg::Sha256);
    assert_eq!(codes::esp_integ_alg(5).unwrap().value, IntegAlg::Sha256);
    assert!(codes::exch_mode_is_ikev2(34).unwrap().value);
    assert_eq!(codes::IkeIdType::UserFqdn.to_model(), IkeIdType::Rfc822);
}

/// A mapping that is only a guess is imported, and reported with the field, the code and the guess.
#[test]
fn an_unconfirmed_code_is_reported() {
    let p = imported(&FIXTURE.replace("Ikev2PRF=5", "Ikev2PRF=6"));
    assert_eq!(p.config.ike_prf, PrfAlg::Sha384);
    assert!(
        findings(&p).contains(
            "Ikev2PRF=6 interpreted as prfsha384 (LOW-confidence guess — confirm before use)"
        ),
        "{}",
        findings(&p)
    );
    let id = "IkeIdType=2 interpreted as Fqdn (unconfirmed mapping — verify on first connect)";
    assert!(findings(&p).contains(id), "{}", findings(&p));
    let known = imported(&FIXTURE.replace("IkeIdType=2", "IkeIdType=3"));
    assert!(!findings(&known).contains("IkeIdType"), "{}", findings(&known));
}

/// Every code of the policies is refused when the tables do not know it.
#[test]
fn every_unknown_code_is_refused() {
    for (line, odd) in [
        ("ExchMode=34", "ExchMode=35"),
        ("IKEv2Auth=2", "IKEv2Auth=9"),
        ("Ikev2Crypt=6", "Ikev2Crypt=77"),
        ("Ikev2PRF=5", "Ikev2PRF=77"),
        ("Ikev2IntAlgo=12", "Ikev2IntAlgo=77"),
        ("IkeDhGroup=15", "IkeDhGroup=77"),
        ("IpsecCrypt=6", "IpsecCrypt=77"),
        ("IpsecAuth=5", "IpsecAuth=77"),
        ("PFS=15", "PFS=77"),
    ] {
        let e = refused(&FIXTURE.replace(line, odd));
        let field = line.split('=').next().unwrap();
        assert!(e.message().contains(field), "{odd}: {}", e.message());
    }
}

/// The errors of two profiles that differ in nothing but the key are the same.
#[test]
fn errors_do_not_depend_on_the_key() {
    let broken = FIXTURE.replace("Ikev2Crypt=6", "Ikev2Crypt=77");
    let other = broken.replace("REDACTED-PSK-PLACEHOLDER", "another key");
    assert_eq!(refused(&broken).message(), refused(&other).message());
}
