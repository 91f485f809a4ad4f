use campus_auto_login::clock::{MILLISECOND, SECOND};
use campus_auto_login::model::AppConfig;
use campus_auto_login::probe::{
    looks_like_portal, probe, probe_once, probe_with_timeout, ProbeResult, ProbeStep, Reply,
    FALLBACK_PROBE_URL, MAX_BODY_BYTES,
};

fn response(status: u16, location: Option<&str>, body: &[u8]) -> Reply {
    Reply::Response {
        status,
        location: location.map(|value| value.to_string()),
        body: body.to_vec(),
        elapsed_ms: 7,
    }
}

#[test]
fn only_protocol_markers_make_a_redirect_captive() {
    assert!(looks_like_portal(
        "http://10.10.16.101/eportal/login?wlanuserip=10.0.0.2",
        ""
    ));
    assert!(looks_like_portal(
        "",
        "<meta http-equiv=refresh content=0;url=http://gw/eportal?roomId=abc>"
    ));
    assert!(!looks_like_portal("https://www.baidu.com/", ""));
    assert!(!looks_like_portal("", "temporary network error"));
}

#[test]
fn replies_mean_what_their_status_says() {
    assert!(matches!(
        probe_once(response(204, None, b""), false),
        ProbeResult::Online { elapsed_ms: 7 }
    ));
    assert!(matches!(
        probe_once(response(200, None, b"hello"), false),
        ProbeResult::Http {
            status: 200,
            elapsed_ms: 7
        }
    ));
    assert!(matches!(
        probe_once(response(200, None, b"hello"), true),
        ProbeResult::Online { .. }
    ));
    assert!(matches!(
        probe_once(response(503, None, b"EPORTAL"), false),
        ProbeResult::Redirect { status: 503, .. }
    ));
    match probe_once(
        Reply::Failed {
            kind: "Dns".into(),
            elapsed_ms: 3,
        },
        true,
    ) {
        ProbeResult::Transport { kind, elapsed_ms } => {
            assert_eq!(kind, "Dns");
            assert_eq!(elapsed_ms, 3);
        }
        other => panic!("{other:?}"),
    }
}

#[test]
fn bodies_are_clipped_and_decoded() {
    match probe_once(response(302, Some("/x"), b"a\xffb"), false) {
        ProbeResult::Redirect { location, body, .. } => {
            assert_eq!(location, "/x");
            assert_eq!(body, "a\u{fffd}b");
        }
        other => panic!("{other:?}"),
    }
    let mut long = vec![b'x'; MAX_BODY_BYTES];
    long.extend_from_slice(b"eportal");
    assert!(matches!(
        probe_once(response(200, None, &long), false),
        ProbeResult::Http { .. }
    ));
}

#[test]
fn probe_asks_a_second_address_only_when_needed() {
    let config = AppConfig::defaults();
    let mut flow = probe(&config);
    assert_eq!(flow.request().url, config.check_url);
    assert_eq!(flow.request().timeout, 2 * SECOND);
    assert!(matches!(
        flow.advance(response(204, None, b"")),
        ProbeStep::Done(ProbeResult::Online { .. })
    ));

    let mut flow = probe_with_timeout(&config, 750 * MILLISECOND);
    match flow.advance(response(302, Some("https://www.example.test/"), b"")) {
        ProbeStep::Request(next) => {
            assert_eq!(next.url, FALLBACK_PROBE_URL);
            assert_eq!(next.timeout, 750 * MILLISECOND);
        }
        other => panic!("{other:?}"),
    }
    assert!(matches!(
        flow.advance(response(200, None, b"")),
        ProbeStep::Done(ProbeResult::Online { .. })
    ));
}

#[test]
fn first_result_stands_when_the_second_settles_nothing() {
    let config = AppConfig::defaults();
    let mut flow = probe(&config);
    flow.advance(response(404, None, b""));
    match flow.advance(Reply::Failed {
        kind: "Io".into(),
        elapsed_ms: 1,
    }) {
        ProbeStep::Done(ProbeResult::Http { status, .. }) => assert_eq!(status, 404),
        other => panic!("{other:?}"),
    }
    let mut flow = probe(&config);
    flow.advance(Reply::Failed {
        kind: "Io".into(),
        elapsed_ms: 1,
    });
    match flow.advance(response(302, Some("http://gw/eportal?wlanuserip=1"), b"")) {
        ProbeStep::Done(ProbeResult::Redirect { status, .. }) => assert_eq!(status, 302),
        other => panic!("{other:?}"),
    }
}
