//! The pieces of the Sophos formats: detection, provisioning files and proposals.

use cross_platform_vpn::model::{DhGroup, EncAlg, IntegAlg, PrfAlg};
use cross_platform_vpn::sophos::pro::{looks_like, parse as parse_provisioning};
use cross_platform_vpn::sophos::proposal::parse;
use cross_platform_vpn::sophos::{detect, handles_extension, import_profile, Format, ImportError};

const SAMPLE: &str = r#"[
        {
            "display_name": "Example IPsec VPN",
            "gateway": "203.0.113.10",
            "user_portal_port": 4443,
            "otp": false,
            "can_save_credentials": false
        }
    ]"#;

#[test]
fn detects_each_format_by_content() {
    assert_eq!(
        detect(r#"[{"gateway":"203.0.113.10","user_portal_port":4443}]"#),
        Some(Format::Provisioning)
    );
    assert_eq!(
        detect(r#"{"name":"x","gateway":"203.0.113.10"}"#),
        Some(Format::Connect)
    );
    assert_eq!(
        detect("# Written by VpnConf\n[Phase 1]\n1.2.3.4 = x-P1\n"),
        Some(Format::Legacy)
    );
    assert_eq!(detect("hello"), None);
}

#[test]
fn a_provisioning_file_is_not_importable_as_a_connection() {
    let err = import_profile(r#"[{"gateway":"203.0.113.10"}]"#).err().unwrap();
    assert!(matches!(err, ImportError::IsProvisioning));
}

#[test]
fn extensions_are_matched_case_insensitively() {
    assert!(handles_extension("SCX"));
    assert!(handles_extension("tgb"));
    assert!(!handles_extension("ini"));
}

#[test]
fn an_unrecognisable_file_is_refused() {
    let err = import_profile("hello").err().unwrap();
    assert!(matches!(err, ImportError::Unrecognised));
    assert_eq!(
        err.message(),
        "file is not a recognisable Sophos profile (.scx, .tgb or .pro)"
    );
}

#[test]
fn reads_the_portal_it_points_at() {
    let entries = parse_provisioning(SAMPLE).unwrap();
    assert_eq!(entries.len(), 1);
    assert_eq!(entries[0].label(), "Example IPsec VPN");
    assert_eq!(
        entries[0].portal_url().as_deref(),
        Some("https://203.0.113.10:4443")
    );
    assert!(!entries[0].can_save_credentials);
}

#[test]
fn a_standard_https_port_is_left_off_the_url() {
    let entries =
        parse_provisioning(r#"[{"gateway": "vpn.example.com", "user_portal_port": 443}]"#).unwrap();
    assert_eq!(
        entries[0].portal_url().as_deref(),
        Some("https://vpn.example.com")
    );
    // With no display name the gateway itself labels the entry.
    assert_eq!(entries[0].label(), "vpn.example.com");
}

#[test]
fn entries_without_a_gateway_are_dropped() {
    assert!(parse_provisioning(r#"[{"display_name": "broken"}]"#).unwrap().is_empty());
}

#[test]
fn an_scx_object_is_not_a_provisioning_file() {
    assert!(!looks_like(r#"{"gateway": "203.0.113.10"}"#));
}

#[test]
fn a_broken_provisioning_file_is_reported_as_json() {
    let err = parse_provisioning("[{").err().unwrap();
    assert!(matches!(err, ImportError::Json(_)));
    assert!(err.message().starts_with("not valid JSON: EOF while parsing"), "{}", err.message());
}

#[test]
fn parses_what_sophos_writes() {
    let (p, prf) = parse("aes256-sha2_256-modp2048", "ike").unwrap();
    assert_eq!(p.enc, EncAlg::Aes256);
    assert_eq!(p.integ, IntegAlg::Sha256);
    assert_eq!(p.dh, Some(DhGroup::Modp2048));
    assert_eq!(prf, None);
    assert_eq!(p.prf(prf), PrfAlg::Sha256);
}

#[test]
fn accepts_strongswan_spelling_and_explicit_prf() {
    let (p, prf) = parse("aes128-sha384-prfsha384-ecp384", "ike").unwrap();
    assert_eq!(p.enc, EncAlg::Aes128);
    assert_eq!(p.integ, IntegAlg::Sha384);
    assert_eq!(prf, Some(PrfAlg::Sha384));
    assert_eq!(p.dh, Some(DhGroup::Ecp384));
}

#[test]
fn esp_proposal_without_a_group_means_no_pfs() {
    let (p, _) = parse("aes256-sha2_256", "esp").unwrap();
    assert_eq!(p.dh, None);
}

/// AEAD ciphers have no separate integrity algorithm and the model cannot
/// express them yet — better to refuse than to negotiate something else.
#[test]
fn rejects_unknown_token() {
    let err = parse("aes256gcm16-ecp256", "ike").unwrap_err();
    assert!(matches!(err, ImportError::UnknownAlgorithm { .. }));
}

#[test]
fn rejects_proposal_without_integrity() {
    assert!(parse("aes256-modp2048", "ike").is_err());
}

/// What is written for a choice of algorithms reads back as that choice.
#[test]
fn proposals_read_back() {
    for enc in EncAlg::ALL {
        for integ in IntegAlg::ALL {
            for dh in DhGroup::ALL {
                let text = format!(
                    "{}-{}-{}",
                    enc.swanctl_name(),
                    integ.swanctl_name(),
                    dh.swanctl_name()
                );
                let (p, prf) = parse(&text, "ike").unwrap();
                assert_eq!((p.enc, p.integ, p.dh, prf), (enc, integ, Some(dh), None), "{text}");
            }
        }
    }
}

#[test]
fn an_unknown_token_is_quoted() {
    let err = parse("aes256-sha2_256-\"x", "ike").unwrap_err();
    assert_eq!(
        err.message(),
        "ike: unknown algorithm \"\\\"x\" — refusing to guess what to negotiate"
    );
}

/// An unknown token is refused wherever it stands, also behind a complete proposal.
#[test]
fn an_unknown_token_is_refused_in_every_place() {
    for text in ["foo-aes256-sha2_256", "aes256-foo-sha2_256", "aes256-sha2_256-modp2048-FOO"] {
        match parse(text, "ike").unwrap_err() {
            ImportError::UnknownAlgorithm { context, token } => {
                assert_eq!((context, token.as_str()), ("ike", "foo"), "{text}");
            }
            e => panic!("{text}: {}", e.message()),
        }
    }
}
