use campus_auto_login::auth::{
    authenticate, authenticate_with_logger, build_final_url, build_inner_url, build_oauth_url,
    cookie_header, encode_legacy_redirect, extract_code, extract_token, parse_session_cookie,
    Answer, AuthAction, AuthError, AuthEvent, AuthFlow, API_LOGIN, API_OAUTH, MAX_CODE_BODY_BYTES,
};
use campus_auto_login::clock::{MILLISECOND, SECOND};
use campus_auto_login::model::{AppConfig, Credentials};
use campus_auto_login::portal::{query_pairs, PortalParams};
use campus_auto_login::probe::ProbeResult;

fn texts(list: &[&str]) -> Vec<String> {
    list.iter().map(|s| s.to_string()).collect()
}

fn config() -> AppConfig {
    AppConfig {
        apartment_id: "apt 1".into(),
        room_id: "r&2".into(),
        ..AppConfig::defaults()
    }
}

fn params() -> PortalParams {
    PortalParams {
        wlan_user_ip: "10.0.0.5".into(),
        nas_ip: "10.1.1.1".into(),
        original_url: "http://x/?a=b".into(),
        ..PortalParams::default()
    }
}

fn credentials() -> Credentials {
    Credentials {
        phone: "138\"00".into(),
        uid: "12345678".into(),
    }
}

fn answer(cookies: &[&str], location: Option<&str>, body: &str) -> AuthEvent {
    AuthEvent::Answered(Answer {
        cookies: texts(cookies),
        location: location.map(|s| s.to_string()),
        body: Ok(body.as_bytes().to_vec()),
    })
}

fn online() -> AuthEvent {
    AuthEvent::Probed(ProbeResult::Online { elapsed_ms: 1 })
}

fn offline() -> AuthEvent {
    AuthEvent::Probed(ProbeResult::Http {
        status: 404,
        elapsed_ms: 1,
    })
}

#[test]
fn legacy_redirect_encoding_matches_python_transform_shape() {
    let encoded = encode_legacy_redirect("http://gw/login?a=b");
    assert!(encoded.contains("http%3A%2F%2Fgw%2Flogin%253Fa%3Db"));
}

#[test]
fn oauth_url_does_not_double_encode_legacy_redirect() {
    let redirect = encode_legacy_redirect("http://gw/login?a=b");
    let url = format!("{API_OAUTH}?redirect_uri={redirect}");
    assert!(url.contains("redirect_uri=http%3A%2F%2Fgw%2Flogin%253Fa%3Db"));
    assert!(!url.contains("%25253F"));
}

#[test]
fn extracts_code_from_location_and_json_body() {
    assert_eq!(
        extract_code("http://gw/cb?code=abc%20123"),
        Some("abc 123".into())
    );
    assert_eq!(
        extract_code("/callback?code=relative"),
        Some("relative".into())
    );
    assert_eq!(
        extract_code(r#"{"data":{"code":"json-code"}}"#),
        Some("json-code".into())
    );
    assert_eq!(extract_code("not-a-code"), None);
}

#[test]
fn parses_only_jsessionid_cookie_value() {
    assert_eq!(
        parse_session_cookie("JSESSIONID=abc123; Path=/"),
        Some("abc123".into())
    );
    assert_eq!(parse_session_cookie("foo=bar; Path=/"), None);
    assert_eq!(
        cookie_header(&vec!["A=1; Path=/".to_string(), "B=2; HttpOnly".to_string()]),
        "A=1; B=2"
    );
}

#[test]
fn oauth_url_is_complete() {
    let url = build_oauth_url(&encode_legacy_redirect("http://gw/login?a=b"), "china Mobile");
    assert_eq!(
        url,
        "https://api.215123.cn/ac/auth/oauthRedirect?response_type=code\
         &client_id=6d6bc6f3b5f04107a5fc1c62e39dd5f4\
         &redirect_uri=http%3A%2F%2Fgw%2Flogin%253Fa%3Db&serviceName=china+Mobile"
    );
}

#[test]
fn redirects_encode_every_special_character() {
    assert_eq!(encode_legacy_redirect("a-b_c.d*~é ?#&"), "a-b_c.d*%7E%C3%A9+%253F%23%26");
}

#[test]
fn codes_are_taken_in_their_order() {
    // An empty code in the query is no code.
    assert_eq!(extract_code("http://gw/?code=&code=x"), Some("x".into()));
    assert_eq!(extract_code("/cb?code=a#frag&code=b"), Some("a".into()));
    assert_eq!(extract_code("code=bare"), Some("bare".into()));
    assert_eq!(
        extract_code(r#"[{"a":1},{"x":{"CODE":"deep"}},{"code":"late"}]"#),
        Some("deep".into())
    );
    // Members are walked by name: what "a" holds comes before "code".
    assert_eq!(
        extract_code(r#"{"code":"outer","a":{"code":"inner"}}"#),
        Some("inner".into())
    );
    assert_eq!(extract_code(r#"{"code":7,"z":{"code":""}}"#), None);
    assert_eq!(extract_code(""), None);
}

#[test]
fn tokens_come_from_the_data_of_the_answer() {
    let token = |body: &str| extract_token(&body.as_bytes().to_vec());
    assert_eq!(token(r#"{"data":{"token":"t"}}"#), Ok("t".into()));
    let missing = Err("登录接口未返回 token".to_string());
    assert_eq!(token(r#"{"data":{"token":""}}"#), missing);
    assert_eq!(token(r#"{"data":{"token":7}}"#), missing);
    assert_eq!(token(r#"{"data":[{"token":"t"}]}"#), missing);
    assert_eq!(token(r#"{"token":"t"}"#), missing);
    let broken = token("{").unwrap_err();
    assert!(broken.starts_with("Failed to read JSON: "), "{broken}");
    assert!(broken.contains("line 1"), "{broken}");
}

#[test]
fn cookies_without_name_or_value_are_dropped() {
    assert_eq!(
        cookie_header(&texts(&[
            " A = 1 ; Path=/",
            "novalue",
            "=x; Path=/",
            "B=",
            "C=a=b",
        ])),
        "A=1; C=a=b"
    );
    assert_eq!(cookie_header(&Vec::new()), "");
    assert_eq!(
        parse_session_cookie("Path=/;  JSESSIONID=x y "),
        Some("x y".into())
    );
    assert_eq!(parse_session_cookie("XJSESSIONID=x"), None);
    assert_eq!(parse_session_cookie("JSESSIONID="), Some(String::new()));
}

#[test]
fn gateway_urls_carry_the_parameters() {
    let inner = build_inner_url(&config(), &params()).unwrap();
    assert_eq!(
        inner,
        "http://10.10.16.101:8080/eportal/login_sso.jsp?wlanuserip=10.0.0.5&wlanacname=&ssid=\
         &nasip=10.1.1.1&snmpagentip=&mac=&t=wireless-v2&url=http%3A%2F%2Fx%2F%3Fa%3Db&apmac=\
         &nasid=&vid=&port=&nasportid="
    );
    let whole = build_final_url(&config(), &params(), "c o").unwrap();
    assert_eq!(
        whole,
        format!("{inner}&code=c+o&serviceName=chinaTelecom&apartmentId=apt+1&roomId=r%262")
    );
    let mut bad = config();
    bad.gateway = "not a url".into();
    assert!(matches!(
        build_inner_url(&bad, &params()),
        Err(AuthError::Protocol(text)) if text == "relative URL without a base"
    ));
    assert!(matches!(
        build_final_url(&bad, &params(), "c"),
        Err(AuthError::Protocol(_))
    ));
}

#[test]
fn gateway_urls_keep_the_query_of_the_gateway() {
    let mut config = config();
    config.gateway = "http://gw.example/x?kept=a%20b&#frag".into();
    let url = build_final_url(&config, &params(), "c+d&e").unwrap();
    assert_eq!(
        url,
        "http://gw.example/x?kept=a%20b&&wlanuserip=10.0.0.5&wlanacname=&ssid=&nasip=10.1.1.1\
         &snmpagentip=&mac=&t=wireless-v2&url=http%3A%2F%2Fx%2F%3Fa%3Db&apmac=&nasid=&vid=&port=\
         &nasportid=&code=c%2Bd%26e&serviceName=chinaTelecom&apartmentId=apt+1&roomId=r%262#frag"
    );
    let pairs = query_pairs(&url);
    let named: Vec<(&str, &str)> = pairs
        .iter()
        .map(|(name, value)| (name.as_str(), value.as_str()))
        .collect();
    assert_eq!(named.len(), 1 + 13 + 4);
    assert_eq!(named[0], ("kept", "a b"));
    assert_eq!(named[1], ("wlanuserip", "10.0.0.5"));
    assert_eq!(named[8], ("url", "http://x/?a=b"));
    assert_eq!(
        named[14..],
        [
            ("code", "c+d&e"),
            ("serviceName", "chinaTelecom"),
            ("apartmentId", "apt 1"),
            ("roomId", "r&2"),
        ]
    );
}

fn start() -> AuthFlow {
    authenticate(&config(), &credentials(), &params()).0
}

#[test]
fn login_posts_the_account_as_json() {
    let (flow, step) = authenticate_with_logger(&config(), &credentials(), &params());
    assert!(flow.logging);
    assert_eq!(step.notes.len(), 1);
    assert_eq!(step.notes[0].event, "auth_login_start");
    assert_eq!(step.notes[0].detail, "credentials_present=true");
    match step.action {
        AuthAction::Post { url, body, timeout } => {
            assert_eq!(url, API_LOGIN);
            assert_eq!(timeout, 10 * SECOND);
            assert_eq!(
                body,
                r#"{"captchaKey":"","phone":"138\"00","uid":"12345678"}"#
            );
        }
        other => panic!("{other:?}"),
    }
    let (_, quiet) = authenticate(&config(), &credentials(), &params());
    assert!(quiet.notes.is_empty());
}

#[test]
fn exchange_runs_from_login_to_verification() {
    let (mut flow, _) = authenticate_with_logger(&config(), &credentials(), &params());
    let step = flow.advance(
        answer(&["SID=s; Path=/"], None, r#"{"data":{"token":"tok"}}"#),
        0,
    );
    assert_eq!(step.notes[0].event, "auth_token_received");
    match step.action {
        AuthAction::Get {
            url,
            headers,
            timeout,
            redirects,
            read,
        } => {
            assert!(url.starts_with(API_OAUTH));
            assert!(url.ends_with("&serviceName=chinaTelecom"));
            assert_eq!(
                headers,
                vec![
                    ("satoken".to_string(), "tok".to_string()),
                    ("Cookie".to_string(), "SID=s".to_string()),
                ]
            );
            assert_eq!(timeout, 15 * SECOND);
            assert_eq!(redirects, 0);
            assert_eq!(read, 10 * 1024 * 1024 + 1);
        }
        other => panic!("{other:?}"),
    }
    let step = flow.advance(
        answer(&["x=1", "JSESSIONID=js; Path=/"], Some("/cb?code=c1"), ""),
        0,
    );
    let events: Vec<&str> = step.notes.iter().map(|n| n.event.as_str()).collect();
    assert_eq!(events, ["auth_oauth_response", "auth_code_received"]);
    match step.action {
        AuthAction::Get {
            url,
            headers,
            timeout,
            redirects,
            read,
        } => {
            assert!(url.contains("&code=c1&"));
            assert_eq!(
                headers,
                vec![("Cookie".to_string(), "JSESSIONID=js".to_string())]
            );
            assert_eq!(timeout, 20 * SECOND);
            assert_eq!(redirects, 5);
            assert_eq!(read, 0);
        }
        other => panic!("{other:?}"),
    }
    let step = flow.advance(answer(&[], None, ""), 5 * SECOND);
    assert!(matches!(
        step.action,
        AuthAction::Probe { timeout } if timeout == 750 * MILLISECOND
    ));
    let step = flow.advance(online(), 5 * SECOND);
    assert!(matches!(step.action, AuthAction::Done(Ok(()))));
    assert_eq!(step.notes[0].detail, "verified=true");
}

#[test]
fn exchange_without_cookies_sends_none() {
    let mut flow = start();
    let step = flow.advance(answer(&[], None, r#"{"data":{"token":"tok"}}"#), 0);
    match step.action {
        AuthAction::Get { headers, .. } => {
            assert_eq!(headers, vec![("satoken".to_string(), "tok".to_string())])
        }
        other => panic!("{other:?}"),
    }
    assert!(step.notes.is_empty());
    // The code may come in the body.
    let step = flow.advance(answer(&[], Some("/nothing"), r#"{"code":"b"}"#), 0);
    match step.action {
        AuthAction::Get { headers, url, .. } => {
            assert!(headers.is_empty());
            assert!(url.contains("&code=b&"));
        }
        other => panic!("{other:?}"),
    }
}

#[test]
fn bodies_beyond_the_limit_hold_no_code() {
    let limit = MAX_CODE_BODY_BYTES as usize;
    for (length, found) in [(limit, true), (limit + 1, false)] {
        let mut flow = start();
        flow.advance(answer(&[], None, r#"{"data":{"token":"tok"}}"#), 0);
        let body = format!("code=c&{}", "x".repeat(length - 7));
        assert_eq!(body.len(), length);
        match flow.advance(answer(&[], None, &body), 0).action {
            AuthAction::Get { url, .. } => {
                assert!(found);
                assert!(url.contains("&code=c&"));
            }
            AuthAction::Done(Err(AuthError::Protocol(message))) => {
                assert!(!found);
                assert_eq!(message, "OAuth 响应未返回 code");
            }
            other => panic!("{other:?}"),
        }
    }
}

#[test]
fn verification_pauses_longer_and_ends_in_time() {
    let mut flow = start();
    flow.advance(answer(&[], None, r#"{"data":{"token":"tok"}}"#), 0);
    flow.advance(answer(&[], Some("/?code=c"), ""), 0);
    flow.advance(answer(&[], None, ""), SECOND);
    let mut now = SECOND;
    let mut pauses = Vec::new();
    let end = loop {
        match flow.advance(offline(), now).action {
            AuthAction::Sleep(delay) => {
                pauses.push(delay / MILLISECOND);
                now += delay;
            }
            AuthAction::Done(outcome) => break outcome,
            other => panic!("{other:?}"),
        }
        assert!(matches!(
            flow.advance(AuthEvent::Slept, now).action,
            AuthAction::Probe { .. }
        ));
    };
    assert_eq!(pauses, [100, 200, 400, 800, 800, 700]);
    assert!(matches!(end, Err(AuthError::VerifyFailed)));
}

#[test]
fn failures_end_the_exchange() {
    let mut flow = start();
    let step = flow.advance(AuthEvent::Failed("Dns".into()), 0);
    assert!(matches!(
        step.action,
        AuthAction::Done(Err(AuthError::Transport(kind))) if kind == "Dns"
    ));

    let mut flow = start();
    let step = flow.advance(answer(&[], None, "{}"), 0);
    assert!(matches!(
        step.action,
        AuthAction::Done(Err(AuthError::Protocol(text))) if text == "登录接口未返回 token"
    ));

    let mut flow = start();
    let step = flow.advance(
        AuthEvent::Answered(Answer {
            cookies: Vec::new(),
            location: None,
            body: Err("timed out".into()),
        }),
        0,
    );
    assert!(matches!(
        step.action,
        AuthAction::Done(Err(AuthError::Protocol(text))) if text == "timed out"
    ));

    let mut flow = start();
    flow.advance(answer(&[], None, r#"{"data":{"token":"tok"}}"#), 0);
    let step = flow.advance(answer(&[], None, "nothing"), 0);
    assert!(matches!(
        step.action,
        AuthAction::Done(Err(AuthError::Protocol(text))) if text == "OAuth 响应未返回 code"
    ));
}

#[test]
fn notes_are_the_same_whatever_the_secrets() {
    let run = |secret: &str| {
        let credentials = Credentials {
            phone: secret.into(),
            uid: secret.into(),
        };
        let (mut flow, step) = authenticate_with_logger(&config(), &credentials, &params());
        let mut notes: Vec<(String, String)> = Vec::new();
        let mut keep = |list: Vec<campus_auto_login::auth::Note>| {
            for note in list {
                notes.push((note.event, note.detail));
            }
        };
        keep(step.notes);
        let token = format!("{{\"data\":{{\"token\":\"{secret}\"}}}}");
        keep(flow.advance(answer(&[], None, &token), 0).notes);
        let location = format!("/?code={secret}");
        keep(flow.advance(answer(&[], Some(&location), ""), 0).notes);
        keep(flow.advance(answer(&[], None, secret), 0).notes);
        keep(flow.advance(online(), 0).notes);
        notes
    };
    assert_eq!(run("hunter2"), run("swordfish"));
    assert_eq!(run("hunter2").len(), 6);
}
