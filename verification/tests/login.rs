use campus_auto_login::auth::AuthError;
use campus_auto_login::clock::{MILLISECOND, SECOND};
use campus_auto_login::logger::Logger;
use campus_auto_login::login::{
    auth_error_kind, try_login, LoginAction, LoginEvent, LoginSession, Phase,
};
use campus_auto_login::model::{AppConfig, AppStatus, Credentials};
use campus_auto_login::probe::ProbeResult;
use campus_auto_login::runtime::{Effect, LoginRequest, RuntimeHandle};

fn handle() -> RuntimeHandle {
    RuntimeHandle::new(Logger::new(1, 2))
}

fn request(manual: bool, initial_probe: Option<ProbeResult>) -> LoginRequest {
    LoginRequest {
        config: AppConfig {
            apartment_id: "a".into(),
            room_id: "r".into(),
            ..AppConfig::defaults()
        },
        credentials: Credentials {
            phone: "p".into(),
            uid: "u".into(),
        },
        manual,
        initial_probe,
    }
}

fn portal(ip: &str) -> ProbeResult {
    ProbeResult::Redirect {
        status: 302,
        location: format!("http://10.10.16.101/eportal?wlanuserip={ip}"),
        body: String::new(),
        elapsed_ms: 4,
    }
}

fn miss() -> ProbeResult {
    ProbeResult::Transport {
        kind: "Io".into(),
        elapsed_ms: 9,
    }
}

fn failed() -> LoginEvent {
    LoginEvent::Authenticated(Err(AuthError::VerifyFailed))
}

fn events(handle: &mut RuntimeHandle) -> Vec<String> {
    handle
        .drain()
        .into_iter()
        .filter_map(|effect| match effect {
            Effect::Log { event, detail, .. } => Some(format!("{event} {detail}")),
            _ => None,
        })
        .collect()
}

fn submitting(handle: &mut RuntimeHandle, manual: bool) -> LoginSession {
    let (session, action) = try_login(handle, request(manual, Some(portal("10.0.0.1"))));
    assert!(matches!(action, LoginAction::Authenticate { attempt: 1, .. }));
    session
}

#[test]
fn login_with_a_known_portal_submits_at_once() {
    let mut handle = handle();
    handle.set_status_notifier();
    handle.drain();
    let (session, action) = try_login(&mut handle, request(false, Some(portal("10.0.0.1"))));
    match action {
        LoginAction::Authenticate { attempt, params } => {
            assert_eq!(attempt, 1);
            assert_eq!(params.wlan_user_ip, "10.0.0.1");
        }
        other => panic!("{other:?}"),
    }
    assert!(matches!(session.phase, Phase::Submitting { attempt: 1 }));
    assert!(handle.login_in_progress());
    assert_eq!(handle.inner.status, AppStatus::Authenticating { attempt: 1 });
    assert_eq!(handle.inner.detail, "正在登录（1/3）");
    let shown: Vec<AppStatus> = handle
        .outbox
        .iter()
        .filter_map(|effect| match effect {
            Effect::Notify(view) => Some(view.status),
            _ => None,
        })
        .collect();
    assert_eq!(
        shown,
        [
            AppStatus::PortalDetected,
            AppStatus::Authenticating { attempt: 1 }
        ]
    );
    assert_eq!(events(&mut handle), ["auth_attempt attempt=1 manual=false"]);
}

#[test]
fn manual_login_looks_first_and_sends_nothing_without_a_portal() {
    let mut handle = handle();
    let (mut session, action) = try_login(&mut handle, request(true, None));
    assert!(matches!(action, LoginAction::Probe { timeout } if timeout == 2 * SECOND));
    let action = session.advance(&mut handle, LoginEvent::Probed(miss()), 0, None);
    assert!(matches!(action, LoginAction::Done));
    assert_eq!(handle.inner.status, AppStatus::Offline);
    assert_eq!(handle.inner.detail, "未检测到校园认证门户，未提交凭据");
    assert!(!handle.login_in_progress());
    assert_eq!(
        events(&mut handle),
        ["portal_not_found credentials_sent=false"]
    );
}

#[test]
fn successful_login_is_shown_and_forgets_errors() {
    let mut handle = handle();
    handle.inner.last_error = Some("old".into());
    handle.inner.outage_handled = true;
    let mut session = submitting(&mut handle, false);
    let action = session.advance(
        &mut handle,
        LoginEvent::Authenticated(Ok(())),
        0,
        Some(55),
    );
    assert!(matches!(action, LoginAction::Done));
    assert_eq!(handle.inner.status, AppStatus::Online);
    assert_eq!(handle.inner.detail, "登录成功，网络已恢复");
    assert_eq!(handle.inner.last_success, Some("55".into()));
    assert_eq!(handle.inner.last_error, None);
    assert!(!handle.inner.outage_handled);
    assert!(!handle.login_in_progress());
}

#[test]
fn three_failures_use_up_automatic_login() {
    let mut handle = handle();
    let mut session = submitting(&mut handle, false);
    let mut now: u64 = 0;
    for attempt in 1..=2u8 {
        let action = session.advance(&mut handle, failed(), now, None);
        assert!(matches!(action, LoginAction::Sleep(delay) if delay == 250 * MILLISECOND));
        assert_eq!(
            handle.inner.status,
            AppStatus::WaitingToRetry {
                seconds: if attempt == 1 { 10 } else { 30 }
            }
        );
        assert_eq!(handle.inner.last_error, Some("verify_failed".into()));
        now += 250 * MILLISECOND;
        session.advance(&mut handle, LoginEvent::Slept, now, None);
        // Too soon for another submission, though the portal is still there.
        let soon = session.advance(
            &mut handle,
            LoginEvent::Probed(portal("10.0.0.9")),
            now,
            None,
        );
        assert!(matches!(soon, LoginAction::Sleep(delay) if delay == 500 * MILLISECOND));
        now += u64::from(attempt) * 2 * SECOND;
        let look = session.advance(&mut handle, LoginEvent::Slept, now, None);
        assert!(matches!(look, LoginAction::Probe { timeout } if timeout == 750 * MILLISECOND));
        match session.advance(
            &mut handle,
            LoginEvent::Probed(portal("10.0.0.8")),
            now,
            None,
        ) {
            LoginAction::Authenticate {
                attempt: next,
                params,
            } => {
                assert_eq!(next, attempt + 1);
                assert_eq!(params.wlan_user_ip, "10.0.0.8");
            }
            other => panic!("{other:?}"),
        }
    }
    handle.drain();
    let action = session.advance(&mut handle, failed(), now, None);
    assert!(matches!(action, LoginAction::Done));
    assert_eq!(handle.inner.status, AppStatus::NeedsAttention);
    assert!(handle.inner.auth_exhausted);
    assert_eq!(
        events(&mut handle),
        [
            "auth_failed attempt=3 kind=verify_failed",
            "auth_exhausted automatic_login_stopped=true",
        ]
    );
}

#[test]
fn manual_failures_leave_automatic_login_alone() {
    let mut handle = handle();
    let mut session = submitting(&mut handle, true);
    session.phase = Phase::Submitting { attempt: 3 };
    session.advance(&mut handle, failed(), 0, None);
    assert_eq!(handle.inner.status, AppStatus::NeedsAttention);
    assert!(!handle.inner.auth_exhausted);
}

#[test]
fn retries_end_with_their_budget() {
    let mut handle = handle();
    let mut session = submitting(&mut handle, false);
    let mut now: u64 = 7 * SECOND;
    let started = now;
    let mut action = session.advance(&mut handle, failed(), now, None);
    let mut sleeps = Vec::new();
    loop {
        match action {
            LoginAction::Sleep(delay) => {
                sleeps.push(delay / MILLISECOND);
                now += delay;
                session.advance(&mut handle, LoginEvent::Slept, now, None);
                action = session.advance(&mut handle, LoginEvent::Probed(miss()), now, None);
            }
            LoginAction::Done => break,
            other => panic!("{other:?}"),
        }
    }
    assert_eq!(now - started, 10 * SECOND);
    assert_eq!(sleeps, [250, 500, 1000, 2000, 2000, 2000, 2000, 250]);
    assert!(!handle.login_in_progress());
}

#[test]
fn network_that_returns_by_itself_ends_the_login() {
    let mut handle = handle();
    handle.inner.auth_exhausted = true;
    let mut session = submitting(&mut handle, true);
    session.advance(&mut handle, failed(), 0, None);
    session.advance(&mut handle, LoginEvent::Slept, 1, None);
    let action = session.advance(
        &mut handle,
        LoginEvent::Probed(ProbeResult::Online { elapsed_ms: 1 }),
        1,
        Some(9),
    );
    assert!(matches!(action, LoginAction::Done));
    assert_eq!(handle.inner.status, AppStatus::Online);
    assert_eq!(handle.inner.detail, "网络正常");
    assert!(!handle.inner.auth_exhausted);
}

#[test]
fn second_login_is_turned_away() {
    let mut handle = handle();
    let _first = submitting(&mut handle, false);
    handle.inner.outage_handled = true;
    handle.drain();
    let (session, action) = try_login(&mut handle, request(true, Some(portal("10.0.0.2"))));
    assert!(matches!(action, LoginAction::Done));
    assert!(matches!(session.phase, Phase::Finished));
    assert!(handle.login_in_progress());
    assert!(!handle.inner.outage_handled);
    assert_eq!(
        events(&mut handle),
        ["login_skipped reason=already_in_progress"]
    );
}

#[test]
fn paused_or_capturing_monitor_starts_no_login() {
    for capture in [false, true] {
        let mut handle = handle();
        if capture {
            handle.set_capture_active(true);
        } else {
            handle.set_paused(true);
        }
        handle.drain();
        let (_, action) = try_login(&mut handle, request(true, Some(portal("10.0.0.2"))));
        assert!(matches!(action, LoginAction::Done));
        assert!(!handle.login_in_progress());
        assert_eq!(
            events(&mut handle),
            ["login_skipped reason=paused_or_capture"]
        );
    }
}

#[test]
fn changes_cancel_a_login_at_every_stage() {
    let mut handle1 = handle();
    let (mut session, _) = try_login(&mut handle1, request(true, None));
    handle1.set_configured();
    handle1.drain();
    let action = session.advance(&mut handle1, LoginEvent::Probed(portal("1")), 0, None);
    assert!(matches!(action, LoginAction::Done));
    assert_eq!(
        events(&mut handle1),
        ["login_cancelled reason=state_changed"]
    );

    let mut handle2 = handle();
    let mut session = submitting(&mut handle2, false);
    handle2.set_paused(true);
    let action = session.advance(&mut handle2, LoginEvent::Authenticated(Ok(())), 0, None);
    assert!(matches!(action, LoginAction::Done));
    assert_eq!(handle2.inner.status, AppStatus::Paused);

    let mut handle3 = handle();
    let mut session = submitting(&mut handle3, false);
    session.advance(&mut handle3, failed(), 0, None);
    handle3.set_capture_active(true);
    let action = session.advance(&mut handle3, LoginEvent::Slept, 1, None);
    assert!(matches!(action, LoginAction::Done));
    assert!(!handle3.login_in_progress());
}

#[test]
fn errors_have_stable_kinds() {
    assert_eq!(auth_error_kind(&AuthError::Transport("x".into())), "transport");
    assert_eq!(auth_error_kind(&AuthError::Protocol("x".into())), "protocol");
    assert_eq!(auth_error_kind(&AuthError::VerifyFailed), "verify_failed");
}
