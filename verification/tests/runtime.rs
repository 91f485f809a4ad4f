use campus_auto_login::capture::CaptureError;
use campus_auto_login::clock::SECOND;
use campus_auto_login::logger::Logger;
use campus_auto_login::model::{AppConfig, AppStatus, Credentials, StatusView};
use campus_auto_login::probe::ProbeResult;
use campus_auto_login::runtime::{
    monitor_pause, next_probe_delay, now_string, probe_summary, Effect, PendingProbe,
    RuntimeHandle, SetupError, SetupFiles, SetupStep, TickStep, CONFIRMATION_PROBE_INTERVAL,
    FAILURE_THRESHOLD, MIN_PROBE_GAP, RECOVERY_PROBE_INTERVAL, STEADY_PROBE_INTERVAL,
};

fn handle() -> RuntimeHandle {
    RuntimeHandle::new(Logger::new(1, 2))
}

fn config() -> AppConfig {
    AppConfig {
        apartment_id: "a".into(),
        room_id: "r".into(),
        ..AppConfig::defaults()
    }
}

fn credentials() -> Credentials {
    Credentials {
        phone: "p".into(),
        uid: "u".into(),
    }
}

fn setup() -> Result<(AppConfig, Credentials), SetupError> {
    Ok((config(), credentials()))
}

fn tick(handle: &mut RuntimeHandle) -> PendingProbe {
    match handle.tick(setup(), Some(100)) {
        TickStep::Probe(pending) => pending,
        other => panic!("{other:?}"),
    }
}

fn miss() -> ProbeResult {
    ProbeResult::Transport {
        kind: "Io".into(),
        elapsed_ms: 9,
    }
}

fn portal() -> ProbeResult {
    ProbeResult::Redirect {
        status: 302,
        location: "http://10.10.16.101/eportal?wlanuserip=10.0.0.2".into(),
        body: String::new(),
        elapsed_ms: 4,
    }
}

fn logged(effects: &[Effect]) -> Vec<String> {
    effects
        .iter()
        .filter_map(|effect| match effect {
            Effect::Log {
                level,
                event,
                detail,
            } => Some(format!("{level} {event} {detail}")),
            _ => None,
        })
        .collect()
}

fn published(effects: Vec<Effect>) -> Vec<StatusView> {
    effects
        .into_iter()
        .filter_map(|effect| match effect {
            Effect::Notify(view) => Some(view),
            _ => None,
        })
        .collect()
}

#[test]
fn one_missed_probe_stays_in_fast_confirmation() {
    assert_eq!(next_probe_delay(false), CONFIRMATION_PROBE_INTERVAL);
}

#[test]
fn second_missed_probe_confirms_outage() {
    assert_eq!(FAILURE_THRESHOLD, 2);
    assert_eq!(next_probe_delay(true), RECOVERY_PROBE_INTERVAL);
}

#[test]
fn confirmed_portal_can_start_recovery_without_waiting_for_threshold() {
    assert_eq!(FAILURE_THRESHOLD, 2);
}

#[test]
fn steady_state_interval_is_longer_than_confirmation_burst() {
    assert!(STEADY_PROBE_INTERVAL > CONFIRMATION_PROBE_INTERVAL);
    assert!(STEADY_PROBE_INTERVAL > RECOVERY_PROBE_INTERVAL);
}

#[test]
fn status_view_keeps_online_state_while_probe_is_in_progress() {
    let mut handle = handle();
    {
        let state = &mut handle.inner;
        state.status = AppStatus::Online;
        state.detail = "正在检测".into();
        state.checking = true;
    }
    let view = handle.status_view();
    assert!(matches!(view.status, AppStatus::Online));
    assert!(view.checking);
    assert_eq!(view.detail, "正在检测");
}

#[test]
fn status_notifier_receives_a_snapshot_without_holding_runtime_lock() {
    let mut handle = handle();
    let mut snapshots = Vec::new();
    handle.set_status_notifier();
    for view in published(handle.drain()) {
        snapshots.push((view.status, view.checking, view.detail));
    }
    {
        let state = &mut handle.inner;
        state.status = AppStatus::Online;
        state.checking = true;
        state.detail = "正在检测".into();
    }
    handle.notify_status();
    for view in published(handle.drain()) {
        // The handle is free to be read while a snapshot is delivered.
        assert!(handle.status_view().checking);
        snapshots.push((view.status, view.checking, view.detail));
    }
    assert_eq!(snapshots.len(), 2); // registration + explicit publish
    assert!(matches!(snapshots[1].0, AppStatus::Online));
    assert!(snapshots[1].1);
    assert_eq!(snapshots[1].2, "正在检测");
}

#[test]
fn a_new_handle_waits_for_setup() {
    let handle = handle();
    let view = handle.status_view();
    assert_eq!(view.status, AppStatus::SetupRequired);
    assert_eq!(view.detail, "首次启动需要完成配置");
    assert!(!view.checking);
    assert_eq!(view.last_check, None);
    assert_eq!(handle.logger.session_id, "1-2");
    assert!(handle.outbox.is_empty());
}

#[test]
fn portal_starts_a_login_at_the_first_sight() {
    let mut handle = handle();
    let pending = tick(&mut handle);
    let next = handle.finish_probe(pending, portal(), Some(101));
    let login = next.login.expect("login");
    assert!(!login.manual);
    assert!(matches!(
        login.initial_probe,
        Some(ProbeResult::Redirect { .. })
    ));
    assert_eq!(next.delay, CONFIRMATION_PROBE_INTERVAL);
    assert!(handle.inner.outage_handled);
    // The login owns the recovery now.
    assert!(matches!(
        handle.tick(setup(), Some(102)),
        TickStep::Wait(RECOVERY_PROBE_INTERVAL)
    ));
}

#[test]
fn plain_outage_is_shown_after_the_second_miss_and_sends_nothing() {
    let mut handle = handle();
    handle.inner.status = AppStatus::Online;
    let pending = tick(&mut handle);
    assert_eq!(handle.status_view().status, AppStatus::Online);
    assert_eq!(handle.status_view().last_check, Some("100".into()));
    let next = handle.finish_probe(pending, miss(), Some(101));
    assert!(next.login.is_none());
    assert_eq!(next.delay, CONFIRMATION_PROBE_INTERVAL);
    assert_eq!(handle.inner.status, AppStatus::Online);
    assert!(handle.inner.checking);
    let pending = tick(&mut handle);
    let next = handle.finish_probe(pending, miss(), Some(102));
    assert!(next.login.is_none());
    assert_eq!(next.delay, RECOVERY_PROBE_INTERVAL);
    assert_eq!(handle.inner.status, AppStatus::Offline);
    assert_eq!(handle.inner.detail, "网络不可达，等待校园认证门户");
    assert_eq!(handle.inner.consecutive_failures, 0);
    assert_eq!(
        logged(&handle.drain()),
        [
            "WARN probe_failed result=transport latency_ms=9",
            "WARN probe_failed result=transport latency_ms=9",
        ]
    );
}

#[test]
fn online_result_clears_the_slate() {
    let mut handle = handle();
    handle.set_status_notifier();
    handle.inner.auth_exhausted = true;
    handle.inner.consecutive_failures = 1;
    let pending = tick(&mut handle);
    handle.drain();
    let next = handle.finish_probe(pending, ProbeResult::Online { elapsed_ms: 12 }, Some(7));
    assert_eq!(next.delay, STEADY_PROBE_INTERVAL);
    assert!(!handle.inner.auth_exhausted);
    assert_eq!(handle.inner.consecutive_failures, 0);
    assert_eq!(handle.inner.last_success, Some("7".into()));
    let effects = handle.drain();
    assert!(matches!(&effects[0], Effect::Notify(view) if view.detail == "网络正常"));
    assert_eq!(logged(&effects), ["INFO probe_online latency_ms=12"]);
}

#[test]
fn exhausted_login_is_not_repeated() {
    let mut handle = handle();
    handle.inner.auth_exhausted = true;
    let pending = tick(&mut handle);
    assert!(handle.finish_probe(pending, portal(), None).login.is_none());
    handle.set_paused(true);
    handle.set_paused(false);
    assert!(handle.inner.auth_exhausted);
    handle.set_configured();
    assert!(!handle.inner.auth_exhausted);
    let pending = tick(&mut handle);
    assert!(handle.finish_probe(pending, portal(), None).login.is_some());
}

#[test]
fn pause_and_capture_silence_the_monitor() {
    let mut handle = handle();
    let pending = tick(&mut handle);
    handle.set_paused(true);
    assert_eq!(handle.status_view().status, AppStatus::Paused);
    assert_eq!(handle.status_view().detail, "自动登录已暂停");
    // A probe that was under way changes nothing.
    let next = handle.finish_probe(pending, portal(), None);
    assert!(next.login.is_none());
    assert_eq!(next.delay, STEADY_PROBE_INTERVAL);
    assert!(matches!(
        handle.tick(setup(), None),
        TickStep::Wait(STEADY_PROBE_INTERVAL)
    ));
    handle.set_paused(false);
    assert_eq!(handle.status_view().detail, "自动登录已恢复");
    handle.set_capture_active(true);
    assert!(matches!(
        handle.tick(setup(), None),
        TickStep::Wait(STEADY_PROBE_INTERVAL)
    ));
    assert_eq!(handle.status_view().detail, "正在获取校园网认证信息");
    handle.set_capture_active(false);
    assert_eq!(handle.status_view().status, AppStatus::Checking);
    assert_eq!(
        handle.status_view().detail,
        "认证信息获取完成，等待网络探测"
    );
}

#[test]
fn changes_wake_the_monitor_and_cancel_what_is_under_way() {
    let mut handle = handle();
    let before = handle.inner.generation;
    handle.set_paused(true);
    assert!(handle.cancelled(before));
    let effects = handle.drain();
    assert!(matches!(effects[0], Effect::Wake));
    assert_eq!(logged(&effects), ["INFO pause_changed paused=true"]);
    assert!(handle.take_wakeup());
    assert!(!handle.take_wakeup());
    // Nothing changes, nothing is said.
    handle.set_paused(true);
    assert!(handle.drain().is_empty());
    handle.set_paused(false);
    handle.drain();
    handle.set_capture_active(true);
    assert_eq!(
        logged(&handle.drain()),
        ["INFO capture_changed active=true"]
    );
    handle.inner.generation = u64::MAX;
    handle.set_configured();
    assert_eq!(handle.inner.generation, 0);
    assert_eq!(
        logged(&handle.drain()),
        ["INFO configuration_changed automatic_login_reset=true"]
    );
}

#[test]
fn snapshots_show_what_a_change_left() {
    let mut handle = handle();
    handle.set_status_notifier();
    handle.drain();
    handle.set_paused(true);
    let shown = published(handle.drain());
    assert_eq!(shown.len(), 1);
    assert_eq!(shown[0].status, AppStatus::Paused);
    assert_eq!(shown[0].detail, handle.status_view().detail);
    handle.set_configured();
    // Still paused, though the monitor would go on checking.
    let shown = published(handle.drain());
    assert_eq!(shown[0].status, AppStatus::Paused);
    assert_eq!(shown[0].detail, "等待网络探测");
}

#[test]
fn setup_is_read_once_and_remembered() {
    let mut handle = handle();
    assert!(matches!(handle.load_setup(None), SetupStep::Read));
    let files = SetupFiles {
        config: Ok(config()),
        credentials: Ok(Some(credentials())),
    };
    assert!(matches!(
        handle.load_setup(Some(files)),
        SetupStep::Ready(_, _)
    ));
    assert!(matches!(
        handle.load_setup(None),
        SetupStep::Ready(config, credentials) if config.room_id == "r" && credentials.uid == "u"
    ));
    handle.set_configured();
    assert!(matches!(handle.load_setup(None), SetupStep::Read));
}

#[test]
fn incomplete_setups_are_refused() {
    let refusal = |config: Result<AppConfig, String>,
                   credentials: Result<Option<Credentials>, String>| {
        let mut handle = handle();
        match handle.load_setup(Some(SetupFiles {
            config,
            credentials,
        })) {
            SetupStep::Refused(error) => {
                let kind = matches!(error, SetupError::Failure(_));
                (kind, error.text())
            }
            other => panic!("{other:?}"),
        }
    };
    assert_eq!(
        refusal(Err("broken".into()), Ok(None)),
        (true, "broken".to_string())
    );
    assert_eq!(
        refusal(Ok(config()), Err("store".into())),
        (true, "store".to_string())
    );
    assert_eq!(
        refusal(Ok(config()), Ok(None)),
        (false, "请先完成首次配置".to_string())
    );
    assert_eq!(
        refusal(Ok(AppConfig::defaults()), Ok(Some(credentials()))),
        (false, "请先获取公寓标识和房间标识".to_string())
    );
}

#[test]
fn ticks_report_an_unusable_setup() {
    let mut handle = handle();
    let step = handle.tick(Err(SetupError::NotConfigured("缺".into())), None);
    assert!(matches!(step, TickStep::Wait(STEADY_PROBE_INTERVAL)));
    assert_eq!(handle.inner.status, AppStatus::SetupRequired);
    assert_eq!(handle.inner.detail, "缺");
    assert!(handle.drain().is_empty());
    let step = handle.tick(Err(SetupError::Failure("坏".into())), None);
    assert!(matches!(step, TickStep::Wait(STEADY_PROBE_INTERVAL)));
    assert_eq!(handle.inner.status, AppStatus::NeedsAttention);
    assert_eq!(handle.inner.last_error, Some("坏".into()));
    assert_eq!(logged(&handle.drain()), ["ERROR config_error 坏"]);
}

#[test]
fn manual_login_needs_a_setup() {
    let handle = handle();
    let request = handle.login_now(setup()).unwrap();
    assert!(request.manual);
    assert!(request.initial_probe.is_none());
    assert_eq!(
        handle
            .login_now(Err(SetupError::NotConfigured("缺".into())))
            .unwrap_err(),
        "缺"
    );
}

#[test]
fn monitor_starts_once() {
    let mut handle = handle();
    assert!(handle.start_monitor());
    assert!(!handle.start_monitor());
}

#[test]
fn pauses_count_the_request_but_leave_a_gap() {
    assert_eq!(monitor_pause(5 * SECOND, 2 * SECOND), 3 * SECOND);
    assert_eq!(monitor_pause(2 * SECOND, 5 * SECOND), MIN_PROBE_GAP);
    assert_eq!(monitor_pause(CONFIRMATION_PROBE_INTERVAL, 1), MIN_PROBE_GAP);
}

#[test]
fn summaries_hold_numbers_only() {
    assert_eq!(
        probe_summary(&ProbeResult::Online { elapsed_ms: 5 }),
        "result=204 latency_ms=5"
    );
    assert_eq!(
        probe_summary(&portal()),
        "result=redirect status=302 latency_ms=4"
    );
    assert_eq!(
        probe_summary(&ProbeResult::Http {
            status: 500,
            elapsed_ms: u128::MAX
        }),
        "result=http status=500 latency_ms=340282366920938463463374607431768211455"
    );
    assert_eq!(probe_summary(&miss()), "result=transport latency_ms=9");
    assert_eq!(now_string(Some(0)), "0");
    assert_eq!(now_string(Some(u64::MAX)), "18446744073709551615");
    assert_eq!(now_string(None), "");
}

#[test]
fn capture_window_is_logged_and_holds_the_monitor() {
    let mut handle = handle();
    handle.capture_opening();
    assert!(handle.inner.capture_active);
    assert!(matches!(
        handle.tick(setup(), None),
        TickStep::Wait(STEADY_PROBE_INTERVAL)
    ));
    handle.capture_ready();
    handle.capture_close_failed();
    handle.capture_failed(CaptureError::Read("r".into()));
    handle.capture_failed(CaptureError::Save("s".into()));
    handle.startup_changed(true);
    handle.capture_closed();
    assert!(!handle.inner.capture_active);
    assert_eq!(
        logged(&handle.drain()),
        [
            "INFO capture_changed active=true",
            "INFO capture_window_opening source=user_action",
            "INFO capture_window_ready native_window_created=true",
            "ERROR capture_window_close_failed source=native_close",
            "ERROR capture_config_read_failed r",
            "ERROR capture_config_save_failed s",
            "INFO auto_start_changed enabled=true",
            "INFO capture_changed active=false",
            "INFO capture_window_closed monitor_resumed=true",
        ]
    );
    handle.capture_opening();
    handle.drain();
    handle.capture_create_failed();
    assert!(!handle.inner.capture_active);
    assert_eq!(
        logged(&handle.drain()),
        [
            "INFO capture_changed active=false",
            "ERROR capture_window_create_failed monitor_resumed=true",
        ]
    );
}

#[test]
fn capture_and_tray_drive_the_monitor() {
    let mut handle = handle();
    handle.set_capture_active(true);
    handle.drain();
    handle.capture_saved();
    assert!(handle.inner.capture_active);
    handle.capture_succeeded();
    assert!(!handle.inner.capture_active);
    assert_eq!(handle.inner.status, AppStatus::Checking);
    assert_eq!(handle.inner.detail, "认证信息已获取，正在验证网络");
    assert_eq!(
        logged(&handle.drain()),
        [
            "INFO capture_success apartment_id_present=true room_id_present=true",
            "INFO capture_changed active=false",
        ]
    );
    handle.toggle_pause();
    assert!(handle.inner.paused);
    handle.toggle_pause();
    assert!(!handle.inner.paused);
    handle.fail("x", "y");
    assert_eq!(handle.inner.status, AppStatus::NeedsAttention);
}
