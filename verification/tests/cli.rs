//! What the command line loads, shows and reports; and the text, JSON and ini pieces below it.

use cross_platform_vpn::cli::{
    connect_report, fits_profile, load, login, print_provisioning, print_summary, transcript,
    LoadError, Loaded, Login, MAX_PROFILE_BYTES,
};
use cross_platform_vpn::control::{ConnectOutcome, LogLine};
use cross_platform_vpn::ini;
use cross_platform_vpn::json::{self, Json};
use cross_platform_vpn::text;

const SCX: &str = r#"{
    "name": "Example IPsec",
    "gateway": "203.0.113.10",
    "proposals": ["aes256-sha2_256-modp2048"],
    "local_auth": { "psk": { "id": "203.0.113.10" }, "xauth": { "can_save": true }, "otp": false },
    "remote_auth": { "psk": { "id": "%any", "secret": "REDACTED-NOT-A-REAL-KEY" } },
    "child": { "proposals": ["aes256-sha2_256"], "remote_ts": ["10.168.111.0/24"] }
}"#;

fn profile(text: &str) -> cross_platform_vpn::import::ImportedProfile {
    match load(text) {
        Ok(Loaded::Profile(p)) => p,
        Ok(Loaded::Provisioning(_)) => panic!("a provisioning file"),
        Err(e) => panic!("{}", e.message()),
    }
}

fn outcome(connected: bool, error: Option<&str>) -> ConnectOutcome {
    ConnectOutcome {
        connected,
        error: error.map(|e| e.to_string()),
        log: vec![LogLine {
            group: "IKE".to_string(),
            level: 1,
            ikesa: Some("c".to_string()),
            msg: "initiating".to_string(),
        }],
    }
}

#[test]
fn a_profile_has_a_size_limit() {
    assert!(fits_profile(MAX_PROFILE_BYTES));
    assert!(!fits_profile(MAX_PROFILE_BYTES + 1));
}

#[test]
fn a_file_is_loaded_by_its_contents() {
    assert_eq!(profile(SCX).config.name, "Example IPsec");
    match load(r#"[{"gateway":"203.0.113.10","user_portal_port":4443}]"#) {
        Ok(Loaded::Provisioning(entries)) => {
            let shown = print_provisioning(&entries);
            assert!(shown.contains("https://203.0.113.10:4443"), "{shown}");
        }
        _ => panic!("not recognised"),
    }
    // Whatever is none of the Sophos formats is read as an NCP profile.
    match load("hello=1\n") {
        Err(LoadError::Ncp(_)) => {}
        _ => panic!("not an error of the fallback"),
    }
    match load(&SCX.replace("aes256-sha2_256-modp2048", "des-md5")) {
        Err(LoadError::Sophos(e)) => assert!(!e.message().is_empty()),
        _ => panic!("not an error of its format"),
    }
}

#[test]
fn a_summary_hides_the_secret() {
    let p = profile(SCX);
    let shown = print_summary(&p);
    assert!(shown.contains("Example IPsec"), "{shown}");
    assert!(shown.contains("203.0.113.10"), "{shown}");
    assert!(!shown.contains("REDACTED-NOT-A-REAL-KEY"), "{shown}");
    let other = profile(&SCX.replace("REDACTED-NOT-A-REAL-KEY", "another"));
    assert_eq!(print_summary(&other), shown);
}

#[test]
fn a_login_is_asked_for_when_the_profile_needs_one() {
    let mut config = profile(SCX).config;
    assert!(login(&mut config, None).is_err());
    match login(&mut config, Some("alice")) {
        Ok(Login::Password(prompt)) => assert!(prompt.contains("alice"), "{prompt}"),
        other => panic!("{other:?}"),
    }
    assert_eq!(config.user_auth.as_ref().unwrap().username.as_deref(), Some("alice"));

    let mut plain = profile(&SCX.replace("\"xauth\": { \"can_save\": true },", "")).config;
    assert!(matches!(login(&mut plain, Some("alice")), Ok(Login::Ignored)));
    assert!(matches!(login(&mut plain, None), Ok(Login::NotNeeded)));
}

#[test]
fn an_outcome_is_reported() {
    assert!(connect_report(&outcome(true, None), "c").is_ok());
    let failed = connect_report(&outcome(false, Some("no reply")), "c").unwrap_err();
    assert!(failed.contains("no reply"), "{failed}");
    assert!(transcript(&outcome(true, None)).contains("initiating"));
}

#[test]
fn json_is_read_as_it_stands() {
    match json::parse(r#"{"b": [1, -1, 1.5, null, true], "a": "x\n\u00e9"}"#) {
        Ok(Json::Object(members)) => {
            // The members come sorted by name.
            assert_eq!(members[0].0, "a");
            assert!(matches!(&members[0].1, Json::Text(t) if t == "x\né"));
            match &members[1].1 {
                Json::Array(items) => {
                    assert!(matches!(items[0], Json::Number(Some(1))));
                    assert!(matches!(items[1], Json::Number(None)));
                    assert!(matches!(items[2], Json::Number(None)));
                    assert!(matches!(items[3], Json::Null));
                    assert!(matches!(items[4], Json::Bool(true)));
                }
                _ => panic!("no array"),
            }
        }
        _ => panic!("no object"),
    }
    assert!(json::parse("{").is_err());
}

#[test]
fn an_ini_file_is_read_line_by_line() {
    let doc = match ini::parse("; comment\n[A]\nKey = value = more\n\n[B]\n# comment\nx=\n") {
        Ok(d) => d,
        Err(e) => panic!("{}", e.message()),
    };
    assert_eq!(doc.sections.len(), 2);
    assert_eq!(doc.section("A").unwrap().get("Key"), Some("value = more"));
    assert_eq!(doc.section("B").unwrap().get("x"), Some(""));
    assert!(doc.section("C").is_none());
    assert_eq!(doc.sections_with_prefix("").len(), 2);
}

#[test]
fn texts_are_cut_like_those_of_the_standard_library() {
    let samples = ["", " ", "a", " a b ", "a\nb", "a\r\nb\r\n", "\n\n", "x\u{a0}", "\u{2003}y", "é=ü"];
    for s in samples {
        assert_eq!(text::trim(s), s.trim(), "{s:?}");
        assert_eq!(text::trim_start(s), s.trim_start(), "{s:?}");
        assert_eq!(text::trim_end(s), s.trim_end(), "{s:?}");
        assert_eq!(text::lines(s), s.lines().map(|l| l.to_string()).collect::<Vec<_>>(), "{s:?}");
        assert_eq!(text::to_upper(s), s.to_ascii_uppercase(), "{s:?}");
        assert_eq!(text::to_lower(s), s.to_ascii_lowercase(), "{s:?}");
        assert_eq!(
            text::split(s, '='),
            s.split('=').map(|p| p.to_string()).collect::<Vec<_>>(),
            "{s:?}"
        );
        for t in ["", "a", "b", "\n", "é"] {
            assert_eq!(text::contains(s, t), s.contains(t), "{s:?} {t:?}");
            assert_eq!(text::starts_with(s, t), s.starts_with(t), "{s:?} {t:?}");
            assert_eq!(text::ends_with(s, t), s.ends_with(t), "{s:?} {t:?}");
        }
    }
}

#[test]
fn numbers_are_read_within_their_bound() {
    assert_eq!(text::parse_up_to("255", 255), Some(255));
    assert_eq!(text::parse_up_to("256", 255), None);
    assert_eq!(text::parse_up_to("", 255), None);
    assert_eq!(text::parse_up_to("-1", 255), None);
    assert_eq!(text::parse_i32("-2147483648"), Some(i32::MIN));
    assert_eq!(text::parse_i32("2147483648"), None);
    assert_eq!(text::format_u64(u64::MAX), u64::MAX.to_string());
}
