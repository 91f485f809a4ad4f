use campus_auto_login::model::AppConfig;
use campus_auto_login::portal::{
    candidate_urls, classify, extract_params, extract_room_binding, extract_room_binding_for_host,
    is_portal_url, query_pairs, safe_location, valid_id,
};
use campus_auto_login::probe::ProbeResult;

fn campus() -> AppConfig {
    AppConfig {
        portal_host: "10.10.16.101".into(),
        ..AppConfig::defaults()
    }
}

fn redirect(location: &str, body: &str) -> ProbeResult {
    ProbeResult::Redirect {
        status: 302,
        location: location.into(),
        body: body.into(),
        elapsed_ms: 1,
    }
}

#[test]
fn room_binding_does_not_depend_on_path_name() {
    let url = "http://gw.example/anything?roomId=room-7&apartmentId=apt.3&ignored=x";
    assert_eq!(
        extract_room_binding(url),
        Some(("apt.3".into(), "room-7".into()))
    );
}

#[test]
fn room_binding_rejects_missing_or_conflicting_values() {
    assert_eq!(extract_room_binding("http://gw/path?roomId=r"), None);
    assert_eq!(
        extract_room_binding("http://gw/path?apartmentId=a&apartmentId=b&roomId=r"),
        None
    );
    assert_eq!(
        extract_room_binding("http://gw/path?apartmentId=a%2E1&roomId=r_2"),
        Some(("a.1".into(), "r_2".into()))
    );
}

#[test]
fn parses_js_or_meta_redirect_body_without_fixed_path() {
    let config = AppConfig {
        portal_host: "10.10.16.101".into(),
        ..AppConfig::defaults()
    };
    let response = ProbeResult::Redirect {
        status: 200,
        location: String::new(),
        body: "<script>window.location='http://10.10.16.101/auth/go?wlanuserip=10.0.0.5&nasip=n';</script>".into(),
        elapsed_ms: 1,
    };
    let portal = classify(&config, &response).expect("portal");
    assert_eq!(portal.params.wlan_user_ip, "10.0.0.5");
    assert_eq!(portal.params.nas_ip, "n");
    assert_eq!(portal.location, "http://10.10.16.101/auth/go");
}

#[test]
fn portal_host_guard_rejects_external_capture_urls() {
    let config = AppConfig {
        portal_host: "10.10.16.101".into(),
        ..AppConfig::defaults()
    };
    assert!(is_portal_url(&config, "http://10.10.16.101/auth"));
    assert!(!is_portal_url(
        &config,
        "https://evil.example/auth?apartmentId=a&roomId=r"
    ));
}

#[test]
fn query_values_are_percent_decoded() {
    let params =
        extract_params("http://gw/path?wlanuserip=10.0.0.1&url=http%3A%2F%2Fexample.test%2F");
    assert_eq!(params.original_url, "http://example.test/");
}

#[test]
fn repeated_equal_identifiers_are_one_binding() {
    assert_eq!(
        extract_room_binding("http://gw/?apartmentId=a&roomId=r&apartmentId=a"),
        Some(("a".into(), "r".into()))
    );
    // An invalid value is passed over rather than counted as a conflict.
    assert_eq!(
        extract_room_binding("http://gw/?apartmentId=a%20b&apartmentId=a&roomId=r"),
        Some(("a".into(), "r".into()))
    );
    assert_eq!(
        extract_room_binding("http://gw/?apartmentId=a&roomId=r&roomId=s"),
        None
    );
    assert_eq!(extract_room_binding("no url"), None);
    assert_eq!(extract_room_binding("http://gw/path"), None);
}

#[test]
fn bindings_need_the_expected_host() {
    let url = "http://GW.example/x?apartmentId=a&roomId=r";
    let bound = Some(("a".to_string(), "r".to_string()));
    assert_eq!(extract_room_binding_for_host(url, " gw.EXAMPLE "), bound);
    assert_eq!(extract_room_binding_for_host(url, ""), bound);
    assert_eq!(extract_room_binding_for_host(url, "   "), bound);
    assert_eq!(extract_room_binding_for_host(url, "other.example"), None);
    assert_eq!(extract_room_binding_for_host("no url", ""), None);
}

#[test]
fn identifiers_are_short_and_plain() {
    assert!(valid_id("A-z_0.9"));
    assert!(!valid_id(""));
    assert!(!valid_id("a b"));
    assert!(!valid_id("房间"));
    assert!(valid_id(&"x".repeat(128)));
    assert!(!valid_id(&"x".repeat(129)));
}

#[test]
fn host_comes_from_the_setting_or_the_gateway() {
    let mut config = AppConfig::defaults();
    config.portal_host = " /GW.Example/ ".into();
    // Only the outer white space goes first, then the slashes.
    assert!(is_portal_url(&config, "https://gw.example:8443/x"));
    config.portal_host = "  ".into();
    config.gateway = "http://Portal.Campus:8080/login".into();
    assert!(is_portal_url(&config, "http://portal.campus/"));
    config.gateway = "not a url".into();
    assert!(!is_portal_url(&config, "http://portal.campus/"));
    assert!(!is_portal_url(&campus(), "/relative"));
}

#[test]
fn candidates_are_found_once_and_in_order() {
    let body = "<a href=\"http://a.example/x?p=1&amp;q=2\">HTTP://B.example/</a> \
                http://a.example/x?p=1&q=2 https://c.example";
    assert_eq!(
        candidate_urls("http://first.example/", body),
        vec![
            "http://first.example/",
            "http://a.example/x?p=1&q=2",
            "HTTP://B.example/",
            "https://c.example",
        ]
    );
    assert_eq!(candidate_urls("/relative", "no links"), Vec::<String>::new());
    // Plain and secure links are taken as they come.
    assert_eq!(
        candidate_urls("", "https://a.example/x http://b.example/y"),
        vec!["https://a.example/x", "http://b.example/y"]
    );
    assert_eq!(
        candidate_urls("", "http://b.example/y https://a.example/x"),
        vec!["http://b.example/y", "https://a.example/x"]
    );
}

#[test]
fn locations_lose_query_and_fragment() {
    assert_eq!(
        safe_location("http://GW.example:8080/a/b?wlanuserip=10.0.0.1#x"),
        "http://gw.example/a/b"
    );
    assert_eq!(safe_location("mailto:someone@example.test"), "someone@example.test");
    assert_eq!(safe_location("not a url"), "");
}

#[test]
fn pages_hold_pairs_without_a_url() {
    let page = "var wlanuserip=10.0.0.9&amp;mac=aa%3Abb; xmac=zz 'nasid=n' my_port=1 url=";
    let params = extract_params(page);
    assert_eq!(params.wlan_user_ip, "10.0.0.9");
    assert_eq!(params.mac, "aa:bb;");
    assert_eq!(params.nas_id, "n");
    assert_eq!(params.port, "");
    assert_eq!(params.original_url, "");
    // The last value of a name counts.
    assert_eq!(extract_params("mac=1&mac=2").mac, "2");
    assert_eq!(extract_params("http://gw/?mac=1&mac=2").mac, "2");
    // Too long a value is left out.
    let long = format!("mac=ok vid={}", "v".repeat(513));
    assert_eq!(
        query_pairs(&long),
        vec![("mac".to_string(), "ok".to_string())]
    );
    let fits = format!("vid={}", "v".repeat(512));
    assert_eq!(query_pairs(&fits).len(), 1);
}

#[test]
fn wide_white_space_after_a_name_is_an_empty_value() {
    assert_eq!(
        query_pairs("mac=\u{3000}vid=7"),
        vec![
            ("mac".to_string(), String::new()),
            ("vid".to_string(), "7".to_string()),
        ]
    );
}

#[test]
fn redirect_to_the_portal_is_recognised() {
    let found = classify(
        &campus(),
        &redirect("http://10.10.16.101/eportal?wlanuserip=10.0.0.2&vid=3", ""),
    )
    .expect("portal");
    assert_eq!(found.status, 302);
    assert_eq!(found.params.wlan_user_ip, "10.0.0.2");
    assert_eq!(found.params.vid, "3");
    assert_eq!(found.location, "http://10.10.16.101/eportal");
}

#[test]
fn body_without_links_can_show_the_portal() {
    let found = classify(&campus(), &redirect("", "wlanuserip=10.0.0.3")).expect("portal");
    assert_eq!(found.params.wlan_user_ip, "10.0.0.3");
    assert_eq!(found.location, "http://10.10.16.101");
}

#[test]
fn foreign_hosts_and_missing_addresses_are_no_portal() {
    assert!(classify(
        &campus(),
        &redirect(
            "http://evil.example/?wlanuserip=10.0.0.2",
            "see http://evil.example/?wlanuserip=1 wlanuserip=2"
        )
    )
    .is_none());
    assert!(classify(&campus(), &redirect("http://10.10.16.101/eportal", "")).is_none());
    let mut nowhere = AppConfig::defaults();
    nowhere.portal_host = String::new();
    nowhere.gateway = String::new();
    assert!(classify(&nowhere, &redirect("http://x/?wlanuserip=1", "")).is_none());
}

#[test]
fn only_redirects_can_be_the_portal() {
    for result in [
        ProbeResult::Online { elapsed_ms: 1 },
        ProbeResult::Http {
            status: 200,
            elapsed_ms: 1,
        },
        ProbeResult::Transport {
            kind: "Io".into(),
            elapsed_ms: 1,
        },
    ] {
        assert!(classify(&campus(), &result).is_none());
    }
}
