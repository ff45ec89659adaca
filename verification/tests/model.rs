//! The configuration model, its addresses and its rendering.

use cross_platform_vpn::ipv4::{Ipv4Addr, Ipv4Net, NetFault};
use cross_platform_vpn::model::{
    AuthMethod, ConnectionConfig, DhGroup, DnsConfig, DpdConfig, EncAlg, IkeIdType, IkeVersion,
    IntegAlg, PrfAlg, Secret,
};
use cross_platform_vpn::swanctl::{render, sanitize_name, SecretRendering};

fn cfg(integ: IntegAlg, dh: DhGroup) -> ConnectionConfig {
    ConnectionConfig {
        name: "c".to_string(),
        gateway: "gw.example.test".to_string(),
        local_id: None,
        local_id_type: None,
        auth: AuthMethod::PresharedKey(Secret::new("x".to_string())),
        ike_version: IkeVersion::V2,
        user_auth: None,
        ike_enc: EncAlg::Aes256,
        ike_integ: integ,
        ike_prf: integ.matching_prf(),
        ike_dh: dh,
        esp_enc: EncAlg::Aes256,
        esp_integ: integ,
        pfs: Some(dh),
        remote_subnets: Vec::new(),
        request_virtual_ip: true,
        compression: false,
        dpd: DpdConfig::default(),
        dns: DnsConfig::default(),
    }
}

fn addr(text: &str) -> Ipv4Addr {
    Ipv4Addr::parse(text).unwrap()
}

/// The exact proposal the profile asked for must be offered first, so a
/// gateway that agrees with its own export negotiates it unchanged.
#[test]
fn the_profiles_own_proposal_comes_first() {
    let c = cfg(IntegAlg::Sha256, DhGroup::Modp2048);
    assert_eq!(c.ike_proposals()[0], c.ike_proposal());
    assert_eq!(c.esp_proposals()[0], c.esp_proposal());
}

/// The case this exists for: a gateway that rejects the profile's
/// sha2_256 and wants sha2_512 finds it in the same offer.
#[test]
fn a_stronger_hash_is_offered_alongside() {
    let c = cfg(IntegAlg::Sha256, DhGroup::Modp2048);
    let p = c.ike_proposals();
    assert!(
        p.iter().any(|s| s == "aes256-sha512-prfsha512-modp2048"),
        "{p:?}"
    );
}

/// Nothing weaker than the profile may ever be offered — otherwise this
/// becomes a downgrade the gateway gets to choose.
#[test]
fn alternatives_are_never_weaker() {
    for integ in [IntegAlg::Sha256, IntegAlg::Sha384, IntegAlg::Sha512] {
        for dh in [DhGroup::Modp2048, DhGroup::Modp3072, DhGroup::Modp4096] {
            let c = cfg(integ, dh);
            for offered in c.ike_proposals().iter().chain(c.esp_proposals().iter()) {
                assert!(!offered.contains("sha1"), "{offered} offers SHA-1");
                for weaker in IntegAlg::ALL.iter().filter(|a| a.strength() < integ.strength()) {
                    assert!(
                        !offered.contains(weaker.swanctl_name()),
                        "{offered} is weaker than the profile's {}",
                        integ.swanctl_name()
                    );
                }
                for weaker in DhGroup::ALL.iter().filter(|g| g.strength() < dh.strength()) {
                    assert!(
                        !offered.contains(weaker.swanctl_name()),
                        "{offered} uses a weaker group than {}",
                        dh.swanctl_name()
                    );
                }
            }
        }
    }
}

/// The cipher is the profile's business; alternatives only vary the hash
/// and the group.
#[test]
fn the_cipher_is_never_substituted() {
    let c = cfg(IntegAlg::Sha256, DhGroup::Modp2048);
    for offered in c.ike_proposals() {
        assert!(offered.starts_with("aes256-"), "{offered}");
    }
}

#[test]
fn contains_matches_the_prefix() {
    let n = Ipv4Net::parse("10.0.15.0/24").unwrap();
    assert!(n.contains(addr("10.0.15.1")));
    assert!(n.contains(addr("10.0.15.255")));
    assert!(!n.contains(addr("10.0.16.1")));
}

/// The two boundaries the shift arithmetic could get wrong.
#[test]
fn the_prefix_length_extremes_hold() {
    let all = Ipv4Net::parse("0.0.0.0/0").unwrap();
    assert!(all.contains(addr("203.0.113.9")));

    let host = Ipv4Net::parse("10.0.15.7/32").unwrap();
    assert!(host.contains(addr("10.0.15.7")));
    assert!(!host.contains(addr("10.0.15.8")));
}

#[test]
fn no_offer_is_made_twice() {
    for integ in IntegAlg::ALL {
        for dh in DhGroup::ALL {
            let c = cfg(integ, dh);
            for offers in [c.ike_proposals(), c.esp_proposals()] {
                for i in 0..offers.len() {
                    assert!(!offers[i + 1..].contains(&offers[i]), "{offers:?}");
                }
            }
        }
    }
}

#[test]
fn ikev1_proposals_name_no_prf() {
    let c = cfg(IntegAlg::Sha256, DhGroup::Modp2048);
    assert_eq!(c.ike_proposals_for(IkeVersion::V1)[0], "aes256-sha256-modp2048");
    assert_eq!(c.ike_proposals_for(IkeVersion::V2)[0], "aes256-sha256-prfsha256-modp2048");
    assert_eq!(c.esp_proposal(), "aes256-sha256-modp2048");
}

#[test]
fn tokens_and_labels_read_back() {
    for a in EncAlg::ALL {
        assert_eq!(EncAlg::from_swanctl_name(a.swanctl_name()), Some(a));
    }
    for a in IntegAlg::ALL {
        assert_eq!(IntegAlg::from_swanctl_name(a.swanctl_name()), Some(a));
    }
    for a in PrfAlg::ALL {
        assert_eq!(PrfAlg::from_swanctl_name(a.swanctl_name()), Some(a));
    }
    for g in DhGroup::ALL {
        assert_eq!(DhGroup::from_swanctl_name(g.swanctl_name()), Some(g));
    }
    for v in IkeVersion::ALL {
        assert_eq!(IkeVersion::from_name(v.name()), Some(v));
    }
    for t in IkeIdType::ALL {
        assert_eq!(IkeIdType::from_name(t.name()), Some(t));
    }
    assert_eq!(EncAlg::from_swanctl_name("3des"), None);
    assert_eq!(DhGroup::from_iana(14), Some(DhGroup::Modp2048));
    assert_eq!(DhGroup::from_iana(99), None);
}

#[test]
fn a_secret_is_never_shown() {
    let s = Secret::new("s3cr3t".to_string());
    assert_eq!(s.expose(), "s3cr3t");
    assert_eq!(s.display(), "***REDACTED***");
    assert_eq!(s.debug_text(), "Secret(***REDACTED***)");
    let mut c = cfg(IntegAlg::Sha256, DhGroup::Modp2048);
    c.auth = AuthMethod::PresharedKey(Secret::new("s3cr3t".to_string()));
    let dumped = c.debug_text();
    assert!(!dumped.contains("s3cr3t"), "{dumped}");
    assert!(dumped.contains("auth: PresharedKey(Secret(***REDACTED***)), "), "{dumped}");
    assert!(dumped.contains("name: \"c\""), "{dumped}");
}

#[test]
fn addresses_read_back() {
    for text in ["0.0.0.0", "255.255.255.255", "10.0.15.7", "203.0.113.9"] {
        assert_eq!(addr(text).to_text(), text);
    }
    assert_eq!(Ipv4Addr::new(1, 2, 3, 4).octets(), [1, 2, 3, 4]);
    for bad in ["", "1.2.3", "1.2.3.4.5", "256.0.0.1", "01.2.3.4", "1.2.3.4 ", "a.b.c.d"] {
        assert!(Ipv4Addr::parse(bad).is_none(), "{bad:?}");
    }
}

#[test]
fn networks_read_back_and_say_what_is_wrong() {
    for text in ["0.0.0.0/0", "10.0.15.0/24", "10.0.15.7/32"] {
        assert_eq!(Ipv4Net::parse(text).unwrap().to_text(), text);
    }
    assert_eq!(Ipv4Net::parse("10.0.0.0/33"), Err(NetFault::PrefixTooLong));
    assert_eq!(Ipv4Net::parse("10.0.0.0/x"), Err(NetFault::PrefixNotANumber));
    assert_eq!(Ipv4Net::parse("10.0.0/8"), Err(NetFault::NotANetwork));
    let from_mask = Ipv4Net::from_addr_and_mask(addr("10.0.0.0"), addr("255.255.240.0")).unwrap();
    assert_eq!(from_mask.prefix_len, 20);
    assert!(Ipv4Net::from_addr_and_mask(addr("10.0.0.0"), addr("255.0.255.0")).is_none());
}

#[test]
fn internal_addresses_are_told_apart() {
    for inside in ["10.1.2.3", "172.16.0.1", "192.168.2.2"] {
        assert!(addr(inside).is_internal(), "{inside}");
    }
    for outside in ["203.0.113.10", "172.32.0.1", "8.8.8.8"] {
        assert!(!addr(outside).is_internal(), "{outside}");
    }
}

#[test]
fn dead_peer_detection_is_on_by_default() {
    let d = DpdConfig::default();
    assert_eq!(d.delay_secs, 30);
    assert!(d.auto_reconnect);
    assert!(DnsConfig::default().is_empty());
}

#[test]
fn an_identity_is_typed_on_the_wire() {
    let mut c = cfg(IntegAlg::Sha256, DhGroup::Modp2048);
    assert_eq!(c.local_id_wire(), None);
    c.local_id = Some("branch-7".to_string());
    assert_eq!(c.local_id_wire().as_deref(), Some("branch-7"));
    c.local_id_type = Some(IkeIdType::KeyId);
    let typed = c.local_id_wire().unwrap();
    assert!(typed.ends_with("branch-7") && typed != "branch-7", "{typed}");
}

#[test]
fn a_connection_name_keeps_to_its_charset() {
    assert_eq!(sanitize_name("vRouter-TEST_1"), "vRouter-TEST_1");
    let odd = sanitize_name("a b}/\"\n");
    assert!(odd.chars().all(|c| c.is_ascii_alphanumeric() || "-_.".contains(c)), "{odd}");
    assert_eq!(sanitize_name(&odd), odd);
}

/// A value with a quote, a backslash or a line break stays inside its quotes.
#[test]
fn a_quoted_value_cannot_break_out() {
    let mut c = cfg(IntegAlg::Sha256, DhGroup::Modp2048);
    c.auth = AuthMethod::PresharedKey(Secret::new("a\"b\\c".to_string()));
    let conf = render(&c, SecretRendering::Include);
    assert!(conf.contains("secret = \"a\\\"b\\\\c\""), "{conf}");
}

#[test]
fn a_redacted_rendering_differs_in_the_secret_alone() {
    let mut c = cfg(IntegAlg::Sha256, DhGroup::Modp2048);
    c.auth = AuthMethod::PresharedKey(Secret::new("first".to_string()));
    let one = render(&c, SecretRendering::Redact);
    c.auth = AuthMethod::PresharedKey(Secret::new("second".to_string()));
    assert_eq!(render(&c, SecretRendering::Redact), one);
}
