//! The monitor: what is shown, when the network is probed, and when a login
//! starts.
//!
//! A `RuntimeHandle` is driven from outside. What it wants done beyond its own
//! state (a status published, a line logged, the monitor woken) it puts into
//! its outbox, in order.

use crate::capture::CaptureError;
use crate::clock::{longer, MILLISECOND, SECOND};
use crate::logger::Logger;
use crate::model::{AppConfig, AppStatus, Credentials, StatusView};
use crate::portal;
use crate::portal::classify;
use crate::probe::{ProbeModel, ProbeResult};
use crate::text;
use crate::text::{decimal_text, join2, push_text};
use vstd::prelude::*;

verus! {

// The steady-state probe is light; short confirmation and recovery intervals
// apply only while the connection is unstable. The monitor waits for the
// remaining interval after a probe, so request time is included rather than
// added on top of these values.
pub const STEADY_PROBE_INTERVAL: u64 = 5 * SECOND;

pub const CONFIRMATION_PROBE_INTERVAL: u64 = 250 * MILLISECOND;

pub const RECOVERY_PROBE_INTERVAL: u64 = 2 * SECOND;

pub const MIN_PROBE_GAP: u64 = 250 * MILLISECOND;

pub const FAILURE_THRESHOLD: u8 = 2;

/// What the monitor knows and shows.
#[derive(Debug)]
pub struct RuntimeState {
    pub status: AppStatus,
    pub detail: String,
    pub checking: bool,
    /// Unix epoch seconds represented as texts for backwards compatibility.
    pub last_check: Option<String>,
    pub last_success: Option<String>,
    pub last_error: Option<String>,
    pub paused: bool,
    pub consecutive_failures: u8,
    pub capture_active: bool,
    pub auth_exhausted: bool,
    pub outage_handled: bool,
    pub generation: u64,
}

pub struct StateModel {
    pub status: AppStatus,
    pub detail: Seq<char>,
    pub checking: bool,
    pub last_check: Option<Seq<char>>,
    pub last_success: Option<Seq<char>>,
    pub last_error: Option<Seq<char>>,
    pub paused: bool,
    pub consecutive_failures: u8,
    pub capture_active: bool,
    pub auth_exhausted: bool,
    pub outage_handled: bool,
    pub generation: u64,
}

impl View for RuntimeState {
    type V = StateModel;

    open spec fn view(&self) -> StateModel {
        StateModel {
            status: self.status,
            detail: self.detail@,
            checking: self.checking,
            last_check: text::opt_view(self.last_check),
            last_success: text::opt_view(self.last_success),
            last_error: text::opt_view(self.last_error),
            paused: self.paused,
            consecutive_failures: self.consecutive_failures,
            capture_active: self.capture_active,
            auth_exhausted: self.auth_exhausted,
            outage_handled: self.outage_handled,
            generation: self.generation,
        }
    }
}

pub struct StatusModel {
    pub status: AppStatus,
    pub detail: Seq<char>,
    pub checking: bool,
    pub last_check: Option<Seq<char>>,
    pub last_success: Option<Seq<char>>,
    pub last_error: Option<Seq<char>>,
}

impl View for StatusView {
    type V = StatusModel;

    open spec fn view(&self) -> StatusModel {
        StatusModel {
            status: self.status,
            detail: self.detail@,
            checking: self.checking,
            last_check: text::opt_view(self.last_check),
            last_success: text::opt_view(self.last_success),
            last_error: text::opt_view(self.last_error),
        }
    }
}

/// Something to be done for the monitor.
#[derive(Debug)]
pub enum Effect {
    /// Publish this snapshot.
    Notify(StatusView),
    /// Write this event to the log.
    Log { level: String, event: String, detail: String },
    /// Wake the monitor from its pause.
    Wake,
}

pub enum EffectModel {
    Notify(StatusModel),
    Log { level: Seq<char>, event: Seq<char>, detail: Seq<char> },
    Wake,
}

impl View for Effect {
    type V = EffectModel;

    open spec fn view(&self) -> EffectModel {
        match *self {
            Effect::Notify(view) => EffectModel::Notify(view@),
            Effect::Log { level, event, detail } => EffectModel::Log {
                level: level@,
                event: event@,
                detail: detail@,
            },
            Effect::Wake => EffectModel::Wake,
        }
    }
}

pub open spec fn effects(list: Seq<Effect>) -> Seq<EffectModel> {
    list.map_values(|effect: Effect| effect@)
}

#[derive(Debug)]
pub struct RuntimeHandle {
    pub inner: RuntimeState,
    pub logger: Logger,
    pub login_flight: bool,
    pub monitor_started: bool,
    pub setup_cache: Option<(AppConfig, Credentials)>,
    /// A wake-up that the monitor has not seen yet.
    pub monitor_wakeup: bool,
    /// Whether snapshots are wanted.
    pub status_notifier: bool,
    pub outbox: Vec<Effect>,
}

pub struct HandleModel {
    pub state: StateModel,
    pub logger: Logger,
    pub login_flight: bool,
    pub monitor_started: bool,
    pub setup_cache: Option<(AppConfig, Credentials)>,
    pub monitor_wakeup: bool,
    pub status_notifier: bool,
    pub outbox: Seq<EffectModel>,
}

impl View for RuntimeHandle {
    type V = HandleModel;

    open spec fn view(&self) -> HandleModel {
        HandleModel {
            state: self.inner@,
            logger: self.logger,
            login_flight: self.login_flight,
            monitor_started: self.monitor_started,
            setup_cache: self.setup_cache,
            monitor_wakeup: self.monitor_wakeup,
            status_notifier: self.status_notifier,
            outbox: effects(self.outbox@),
        }
    }
}

/// What was read of the two files of a setup.
#[derive(Debug)]
pub struct SetupFiles {
    pub config: Result<AppConfig, String>,
    pub credentials: Result<Option<Credentials>, String>,
}

#[derive(Debug)]
pub enum SetupError {
    NotConfigured(String),
    Failure(String),
}

pub enum SetupErrorModel {
    NotConfigured(Seq<char>),
    Failure(Seq<char>),
}

impl View for SetupError {
    type V = SetupErrorModel;

    open spec fn view(&self) -> SetupErrorModel {
        match *self {
            SetupError::NotConfigured(s) => SetupErrorModel::NotConfigured(s@),
            SetupError::Failure(s) => SetupErrorModel::Failure(s@),
        }
    }
}

pub open spec fn message(error: SetupErrorModel) -> Seq<char> {
    match error {
        SetupErrorModel::NotConfigured(s) => s,
        SetupErrorModel::Failure(s) => s,
    }
}

impl SetupError {
    pub fn text(self) -> (r: String)
        ensures
            r@ == message(self@),
    {
        match self {
            SetupError::NotConfigured(s) => s,
            SetupError::Failure(s) => s,
        }
    }
}

/// The answer to a request for the setup.
#[derive(Debug)]
pub enum SetupStep {
    Ready(AppConfig, Credentials),
    /// The files are to be read and handed in.
    Read,
    Refused(SetupError),
}

/// A login that is to be run.
#[derive(Debug)]
pub struct LoginRequest {
    pub config: AppConfig,
    pub credentials: Credentials,
    pub manual: bool,
    /// The reply that showed the portal, where one did.
    pub initial_probe: Option<ProbeResult>,
}

/// A probe that is to be made, with the state it belongs to.
#[derive(Debug)]
pub struct PendingProbe {
    pub config: AppConfig,
    pub credentials: Credentials,
    pub generation: u64,
}

#[derive(Debug)]
pub enum TickStep {
    /// Nothing to do for so many nanoseconds.
    Wait(u64),
    Probe(PendingProbe),
}

/// What follows a finished probe.
#[derive(Debug)]
pub struct ProbeFollowUp {
    /// Nanoseconds until the next tick.
    pub delay: u64,
    /// The login that is to be run beside the monitor.
    pub login: Option<LoginRequest>,
}

// ---------------------------------------------------------------------------
// Texts
// ---------------------------------------------------------------------------

pub open spec fn flag_text(name: Seq<char>, value: bool) -> Seq<char> {
    name + "="@ + if value {
        "true"@
    } else {
        "false"@
    }
}

pub(crate) fn flag(name: &str, value: bool) -> (r: String)
    ensures
        r@ == flag_text(name@, value),
{
    let mut r = join2(name, "=");
    push_text(&mut r, if value { "true" } else { "false" });
    r
}

/// Seconds since the epoch as text; empty where the clock stands before it.
pub open spec fn stamp(seconds: Option<u64>) -> Seq<char> {
    match seconds {
        Some(n) => text::decimal(n as nat),
        None => Seq::empty(),
    }
}

pub fn now_string(seconds: Option<u64>) -> (r: String)
    ensures
        r@ == stamp(seconds),
{
    match seconds {
        Some(n) => decimal_text(n as u128),
        None => String::new(),
    }
}

/// A probe in a line of the log: no URL, no body.
pub open spec fn summary(value: ProbeModel) -> Seq<char> {
    match value {
        ProbeModel::Online { elapsed_ms } => "result=204 latency_ms="@ + text::decimal(
            elapsed_ms as nat,
        ),
        ProbeModel::Redirect { status, elapsed_ms, .. } => "result=redirect status="@
            + text::decimal(status as nat) + " latency_ms="@ + text::decimal(elapsed_ms as nat),
        ProbeModel::Http { status, elapsed_ms } => "result=http status="@ + text::decimal(
            status as nat,
        ) + " latency_ms="@ + text::decimal(elapsed_ms as nat),
        ProbeModel::Transport { elapsed_ms, .. } => "result=transport latency_ms="@
            + text::decimal(elapsed_ms as nat),
    }
}

pub fn probe_summary(value: &ProbeResult) -> (r: String)
    ensures
        r@ == summary(value@),
{
    match value {
        ProbeResult::Online { elapsed_ms } => join2(
            "result=204 latency_ms=",
            &decimal_text(*elapsed_ms),
        ),
        ProbeResult::Redirect { status, elapsed_ms, .. } => {
            let mut r = join2("result=redirect status=", &decimal_text(*status as u128));
            push_text(&mut r, " latency_ms=");
            push_text(&mut r, &decimal_text(*elapsed_ms));
            r
        },
        ProbeResult::Http { status, elapsed_ms } => {
            let mut r = join2("result=http status=", &decimal_text(*status as u128));
            push_text(&mut r, " latency_ms=");
            push_text(&mut r, &decimal_text(*elapsed_ms));
            r
        },
        ProbeResult::Transport { elapsed_ms, .. } => join2(
            "result=transport latency_ms=",
            &decimal_text(*elapsed_ms),
        ),
    }
}

/// "count of threshold" in brackets, as shown after a missed probe.
pub open spec fn miss_detail(count: u8) -> Seq<char> {
    "网络探测异常（"@ + text::decimal(count as nat) + "/"@ + text::decimal(
        FAILURE_THRESHOLD as nat,
    ) + "）"@
}

fn miss_text(count: u8) -> (r: String)
    ensures
        r@ == miss_detail(count),
{
    let mut r = join2("网络探测异常（", &decimal_text(count as u128));
    push_text(&mut r, "/");
    push_text(&mut r, &decimal_text(FAILURE_THRESHOLD as u128));
    push_text(&mut r, "）");
    r
}

pub open spec fn probe_delay(outage_confirmed: bool) -> u64 {
    if outage_confirmed {
        RECOVERY_PROBE_INTERVAL
    } else {
        CONFIRMATION_PROBE_INTERVAL
    }
}

pub fn next_probe_delay(outage_confirmed: bool) -> (r: u64)
    ensures
        r == probe_delay(outage_confirmed),
{
    if outage_confirmed {
        RECOVERY_PROBE_INTERVAL
    } else {
        CONFIRMATION_PROBE_INTERVAL
    }
}

/// How long the monitor pauses after a tick that took `elapsed`. Request time
/// is part of the interval, but a small gap is always left, so that a failed
/// route cannot turn into a busy request loop.
pub fn monitor_pause(next_probe: u64, elapsed: u64) -> (r: u64)
    ensures
        r == if next_probe - elapsed > MIN_PROBE_GAP {
            next_probe - elapsed
        } else {
            MIN_PROBE_GAP as int
        },
{
    longer(next_probe.saturating_sub(elapsed), MIN_PROBE_GAP)
}

// ---------------------------------------------------------------------------
// Transitions
// ---------------------------------------------------------------------------

pub open spec fn snapshot(s: StateModel) -> StatusModel {
    StatusModel {
        status: if s.paused {
            AppStatus::Paused
        } else {
            s.status
        },
        detail: s.detail,
        checking: s.checking,
        last_check: s.last_check,
        last_success: s.last_success,
        last_error: s.last_error,
    }
}

pub open spec fn with_state(h: HandleModel, state: StateModel) -> HandleModel {
    HandleModel { state, ..h }
}

pub open spec fn emitted(h: HandleModel, effect: EffectModel) -> HandleModel {
    HandleModel { outbox: h.outbox.push(effect), ..h }
}

/// The state as it is now goes out, where snapshots are wanted.
pub open spec fn notified(h: HandleModel) -> HandleModel {
    if h.status_notifier {
        emitted(h, EffectModel::Notify(snapshot(h.state)))
    } else {
        h
    }
}

pub open spec fn logged(
    h: HandleModel,
    level: Seq<char>,
    event: Seq<char>,
    detail: Seq<char>,
) -> HandleModel {
    emitted(h, EffectModel::Log { level, event, detail })
}

pub open spec fn woken(h: HandleModel) -> HandleModel {
    emitted(HandleModel { monitor_wakeup: true, ..h }, EffectModel::Wake)
}

pub open spec fn next_generation(g: u64) -> u64 {
    if g == u64::MAX {
        0
    } else {
        (g + 1) as u64
    }
}

/// A monitor that was just started.
pub open spec fn fresh(logger: Logger) -> HandleModel {
    HandleModel {
        state: StateModel {
            status: AppStatus::SetupRequired,
            detail: "首次启动需要完成配置"@,
            checking: false,
            last_check: None,
            last_success: None,
            last_error: None,
            paused: false,
            consecutive_failures: 0,
            capture_active: false,
            auth_exhausted: false,
            outage_handled: false,
            generation: 0,
        },
        logger,
        login_flight: false,
        monitor_started: false,
        setup_cache: None,
        monitor_wakeup: false,
        status_notifier: false,
        outbox: Seq::empty(),
    }
}

pub open spec fn paused_set(h: HandleModel, paused: bool) -> HandleModel {
    if h.state.paused == paused {
        h
    } else {
        let state = StateModel {
            paused,
            generation: next_generation(h.state.generation),
            checking: false,
            status: if paused {
                AppStatus::Paused
            } else {
                AppStatus::Checking
            },
            detail: if paused {
                "自动登录已暂停"@
            } else {
                "自动登录已恢复"@
            },
            ..h.state
        };
        logged(
            notified(woken(with_state(h, state))),
            "INFO"@,
            "pause_changed"@,
            flag_text("paused"@, paused),
        )
    }
}

pub open spec fn capture_set(h: HandleModel, active: bool) -> HandleModel {
    if h.state.capture_active == active {
        h
    } else {
        let resumed = !active && !h.state.paused;
        let state = StateModel {
            capture_active: active,
            generation: next_generation(h.state.generation),
            checking: false,
            status: if resumed {
                AppStatus::Checking
            } else {
                h.state.status
            },
            detail: if active {
                "正在获取校园网认证信息"@
            } else if resumed {
                "认证信息获取完成，等待网络探测"@
            } else {
                h.state.detail
            },
            ..h.state
        };
        logged(
            notified(woken(HandleModel { state, setup_cache: None, ..h })),
            "INFO"@,
            "capture_changed"@,
            flag_text("active"@, active),
        )
    }
}

pub open spec fn configured(h: HandleModel) -> HandleModel {
    let state = StateModel {
        status: AppStatus::Checking,
        detail: "等待网络探测"@,
        checking: false,
        consecutive_failures: 0,
        auth_exhausted: false,
        outage_handled: false,
        last_error: None,
        generation: next_generation(h.state.generation),
        ..h.state
    };
    logged(
        notified(woken(HandleModel { state, setup_cache: None, ..h })),
        "INFO"@,
        "configuration_changed"@,
        "automatic_login_reset=true"@,
    )
}

pub open spec fn failed(h: HandleModel, event: Seq<char>, detail: Seq<char>) -> HandleModel {
    let state = StateModel {
        status: AppStatus::NeedsAttention,
        detail,
        checking: false,
        last_error: Some(detail),
        ..h.state
    };
    logged(notified(with_state(h, state)), "ERROR"@, event, detail)
}

/// A state that changed after `generation`, or that asks for quiet.
pub open spec fn outdated(s: StateModel, generation: u64) -> bool {
    s.generation != generation || s.paused || s.capture_active
}

impl RuntimeHandle {
    pub fn new(logger: Logger) -> (h: Self)
        ensures
            h@ == fresh(logger),
    {
        let h = RuntimeHandle {
            inner: RuntimeState {
                status: AppStatus::SetupRequired,
                detail: "首次启动需要完成配置".to_string(),
                checking: false,
                last_check: None,
                last_success: None,
                last_error: None,
                paused: false,
                consecutive_failures: 0,
                capture_active: false,
                auth_exhausted: false,
                outage_handled: false,
                generation: 0,
            },
            logger,
            login_flight: false,
            monitor_started: false,
            setup_cache: None,
            monitor_wakeup: false,
            status_notifier: false,
            outbox: Vec::new(),
        };
        assert(h@.outbox =~= Seq::<EffectModel>::empty());
        h
    }

    fn emit(&mut self, effect: Effect)
        ensures
            final(self)@ == emitted(old(self)@, effect@),
    {
        self.outbox.push(effect);
        assert(self@.outbox =~= old(self)@.outbox.push(effect@));
    }

    pub(crate) fn log(&mut self, level: &str, event: &str, detail: &str)
        ensures
            final(self)@ == logged(old(self)@, level@, event@, detail@),
    {
        self.emit(
            Effect::Log {
                level: level.to_string(),
                event: event.to_string(),
                detail: detail.to_string(),
            },
        );
    }

    /// Takes what is in the outbox.
    pub fn drain(&mut self) -> (list: Vec<Effect>)
        ensures
            effects(list@) == old(self)@.outbox,
            final(self)@ == (HandleModel { outbox: Seq::empty(), ..old(self)@ }),
    {
        let mut list: Vec<Effect> = Vec::new();
        std::mem::swap(&mut list, &mut self.outbox);
        assert(self@.outbox =~= Seq::<EffectModel>::empty());
        list
    }

    /// From now on a snapshot goes out with each change of the status.
    pub fn set_status_notifier(&mut self)
        ensures
            final(self)@ == notified(HandleModel { status_notifier: true, ..old(self)@ }),
    {
        self.status_notifier = true;
        self.notify_status();
    }

    pub fn status_view(&self) -> (view: StatusView)
        ensures
            view@ == snapshot(self@.state),
    {
        StatusView {
            status: if self.inner.paused {
                AppStatus::Paused
            } else {
                self.inner.status
            },
            detail: self.inner.detail.clone(),
            checking: self.inner.checking,
            last_check: self.inner.last_check.clone(),
            last_success: self.inner.last_success.clone(),
            last_error: self.inner.last_error.clone(),
        }
    }

    pub fn notify_status(&mut self)
        ensures
            final(self)@ == notified(old(self)@),
    {
        if self.status_notifier {
            let view = self.status_view();
            self.emit(Effect::Notify(view));
        }
    }

    fn wake_monitor(&mut self)
        ensures
            final(self)@ == woken(old(self)@),
    {
        self.monitor_wakeup = true;
        self.emit(Effect::Wake);
    }

    /// Whether the monitor was woken; the wake-up counts as seen.
    pub fn take_wakeup(&mut self) -> (pending: bool)
        ensures
            pending == old(self).monitor_wakeup,
            final(self)@ == (HandleModel { monitor_wakeup: false, ..old(self)@ }),
    {
        let pending = self.monitor_wakeup;
        self.monitor_wakeup = false;
        pending
    }

    pub fn set_paused(&mut self, paused: bool)
        ensures
            final(self)@ == paused_set(old(self)@, paused),
    {
        if self.inner.paused == paused {
            return;
        }
        self.inner.paused = paused;
        self.inner.generation = self.inner.generation.wrapping_add(1);
        self.inner.checking = false;
        self.inner.status = if paused {
            AppStatus::Paused
        } else {
            AppStatus::Checking
        };
        self.inner.detail = if paused {
            "自动登录已暂停".to_string()
        } else {
            "自动登录已恢复".to_string()
        };
        self.wake_monitor();
        self.notify_status();
        self.log("INFO", "pause_changed", &flag("paused", paused));
    }

    /// Suppresses automatic probing and login while the capture browser is
    /// active.
    pub fn set_capture_active(&mut self, active: bool)
        ensures
            final(self)@ == capture_set(old(self)@, active),
    {
        if self.inner.capture_active == active {
            return;
        }
        self.inner.capture_active = active;
        self.inner.generation = self.inner.generation.wrapping_add(1);
        self.inner.checking = false;
        if active {
            self.inner.detail = "正在获取校园网认证信息".to_string();
        } else if !self.inner.paused {
            self.inner.status = AppStatus::Checking;
            self.inner.detail = "认证信息获取完成，等待网络探测".to_string();
        }
        self.setup_cache = None;
        self.wake_monitor();
        self.notify_status();
        self.log("INFO", "capture_changed", &flag("active", active));
    }

    pub fn set_configured(&mut self)
        ensures
            final(self)@ == configured(old(self)@),
    {
        self.inner.status = AppStatus::Checking;
        self.inner.detail = "等待网络探测".to_string();
        self.inner.checking = false;
        self.inner.consecutive_failures = 0;
        self.inner.auth_exhausted = false;
        self.inner.outage_handled = false;
        self.inner.last_error = None;
        self.inner.generation = self.inner.generation.wrapping_add(1);
        self.setup_cache = None;
        self.wake_monitor();
        self.notify_status();
        self.log("INFO", "configuration_changed", "automatic_login_reset=true");
    }

    /// Whether the monitor is to be started now: true for the first call only.
    pub fn start_monitor(&mut self) -> (first: bool)
        ensures
            first == !old(self).monitor_started,
            final(self)@ == (HandleModel { monitor_started: true, ..old(self)@ }),
    {
        let first = !self.monitor_started;
        self.monitor_started = true;
        first
    }

    pub fn fail(&mut self, event: &str, detail: &str)
        ensures
            final(self)@ == failed(old(self)@, event@, detail@),
    {
        self.inner.status = AppStatus::NeedsAttention;
        self.inner.detail = detail.to_string();
        self.inner.checking = false;
        self.inner.last_error = Some(detail.to_string());
        self.notify_status();
        self.log("ERROR", event, detail);
    }

    pub fn login_in_progress(&self) -> (r: bool)
        ensures
            r == self.login_flight,
    {
        self.login_flight
    }

    pub fn cancelled(&self, generation: u64) -> (r: bool)
        ensures
            r == outdated(self@.state, generation),
    {
        self.inner.generation != generation || self.inner.paused || self.inner.capture_active
    }
}

// ---------------------------------------------------------------------------
// Setup
// ---------------------------------------------------------------------------

pub type SetupModel = Result<(AppConfig, Credentials), SetupErrorModel>;

pub open spec fn setup_view(r: Result<(AppConfig, Credentials), SetupError>) -> SetupModel {
    match r {
        Ok(value) => Ok(value),
        Err(error) => Err(error@),
    }
}

/// What the files make of a setup: both readable, credentials stored and the
/// room known.
pub open spec fn setup_of(files: SetupFiles) -> SetupModel {
    match files.config {
        Err(error) => Err(SetupErrorModel::Failure(error@)),
        Ok(config) => match files.credentials {
            Err(error) => Err(SetupErrorModel::Failure(error@)),
            Ok(None) => Err(SetupErrorModel::NotConfigured("请先完成首次配置"@)),
            Ok(Some(credentials)) => if config.bound() {
                Ok((config, credentials))
            } else {
                Err(SetupErrorModel::NotConfigured("请先获取公寓标识和房间标识"@))
            },
        },
    }
}

fn check_setup(files: SetupFiles) -> (r: Result<(AppConfig, Credentials), SetupError>)
    ensures
        setup_view(r) == setup_of(files),
{
    let config = match files.config {
        Err(error) => {
            return Err(SetupError::Failure(error));
        },
        Ok(config) => config,
    };
    match files.credentials {
        Err(error) => Err(SetupError::Failure(error)),
        Ok(None) => Err(SetupError::NotConfigured("请先完成首次配置".to_string())),
        Ok(Some(credentials)) => {
            if !config.has_room_binding() {
                return Err(
                    SetupError::NotConfigured("请先获取公寓标识和房间标识".to_string()),
                );
            }
            Ok((config, credentials))
        },
    }
}

impl RuntimeHandle {
    /// The setup: the remembered one; else, once the files are handed in, what
    /// they hold, which is then remembered.
    pub fn load_setup(&mut self, files: Option<SetupFiles>) -> (step: SetupStep)
        ensures
            match (old(self).setup_cache, files) {
                (Some((config, credentials)), _) => {
                    &&& final(self)@ == old(self)@
                    &&& step == SetupStep::Ready(config, credentials)
                },
                (None, None) => final(self)@ == old(self)@ && step is Read,
                (None, Some(read)) => match setup_of(read) {
                    Ok((config, credentials)) => {
                        &&& final(self)@ == (HandleModel {
                            setup_cache: Some((config, credentials)),
                            ..old(self)@
                        })
                        &&& step == SetupStep::Ready(config, credentials)
                    },
                    Err(error) => {
                        &&& final(self)@ == old(self)@
                        &&& step matches SetupStep::Refused(e) && e@ == error
                    },
                },
            },
    {
        if let Some((config, credentials)) = &self.setup_cache {
            return SetupStep::Ready(config.clone(), credentials.clone());
        }
        match files {
            None => SetupStep::Read,
            Some(read) => match check_setup(read) {
                Ok((config, credentials)) => {
                    self.setup_cache = Some((config.clone(), credentials.clone()));
                    SetupStep::Ready(config, credentials)
                },
                Err(error) => SetupStep::Refused(error),
            },
        }
    }

    /// A login at the user's request.
    pub fn login_now(
        &self,
        setup: Result<(AppConfig, Credentials), SetupError>,
    ) -> (r: Result<LoginRequest, String>)
        ensures
            match setup_view(setup) {
                Ok((config, credentials)) => r matches Ok(request) && request == (LoginRequest {
                    config,
                    credentials,
                    manual: true,
                    initial_probe: None,
                }),
                Err(error) => r matches Err(text) && text@ == message(error),
            },
    {
        match setup {
            Ok((config, credentials)) => Ok(
                LoginRequest { config, credentials, manual: true, initial_probe: None },
            ),
            Err(error) => Err(error.text()),
        }
    }
}

// ---------------------------------------------------------------------------
// Ticks
// ---------------------------------------------------------------------------

/// The start of a tick: why there is nothing to probe, or the probe to make.
pub open spec fn tick_begun(
    h: HandleModel,
    setup: SetupModel,
    clock: Option<u64>,
) -> (HandleModel, TickStep) {
    match setup {
        Err(SetupErrorModel::NotConfigured(detail)) => (
            with_state(
                h,
                StateModel {
                    status: AppStatus::SetupRequired,
                    detail,
                    checking: false,
                    ..h.state
                },
            ),
            TickStep::Wait(STEADY_PROBE_INTERVAL),
        ),
        Err(SetupErrorModel::Failure(error)) => (
            failed(h, "config_error"@, error),
            TickStep::Wait(STEADY_PROBE_INTERVAL),
        ),
        Ok((config, credentials)) => {
            if h.state.paused || h.state.capture_active {
                (h, TickStep::Wait(STEADY_PROBE_INTERVAL))
            } else if h.state.outage_handled || h.login_flight {
                (h, TickStep::Wait(RECOVERY_PROBE_INTERVAL))
            } else {
                let state = StateModel {
                    status: if h.state.status is Online {
                        AppStatus::Online
                    } else {
                        AppStatus::Checking
                    },
                    checking: true,
                    detail: "正在检测"@,
                    last_check: Some(stamp(clock)),
                    ..h.state
                };
                (
                    notified(with_state(h, state)),
                    TickStep::Probe(
                        PendingProbe { config, credentials, generation: h.state.generation },
                    ),
                )
            }
        },
    }
}

/// Whether a missed probe is to start a login: the configured portal showed
/// itself, no login deals with it yet, and automatic login is not used up.
pub open spec fn should_attempt(s: StateModel, config: AppConfig, result: ProbeModel) -> bool {
    portal::portal_in(config, result) is Some && !s.outage_handled && !s.auth_exhausted
}

/// The number of misses in a row, this one included.
pub open spec fn misses(s: StateModel) -> u8 {
    if s.consecutive_failures == u8::MAX {
        u8::MAX
    } else {
        (s.consecutive_failures + 1) as u8
    }
}

/// The state right after a missed probe.
pub open spec fn missed(s: StateModel, attempt: bool) -> StateModel {
    let count = misses(s);
    if count >= FAILURE_THRESHOLD && !attempt {
        StateModel {
            consecutive_failures: count,
            status: AppStatus::ProbeFailed { consecutive: count },
            detail: miss_detail(count),
            checking: false,
            ..s
        }
    } else {
        // A single miss is not an outage: the previous state stays.
        StateModel { consecutive_failures: count, detail: "正在检测"@, checking: true, ..s }
    }
}

pub struct FollowUpModel {
    pub delay: u64,
    pub login: bool,
}

pub open spec fn online_seen(s: StateModel, detail: Seq<char>, clock: Option<u64>) -> StateModel {
    StateModel {
        status: AppStatus::Online,
        detail,
        checking: false,
        consecutive_failures: 0,
        auth_exhausted: false,
        outage_handled: false,
        last_success: Some(stamp(clock)),
        ..s
    }
}

/// The end of a tick, given the result of its probe.
pub open spec fn tick_ended(
    h: HandleModel,
    pending: PendingProbe,
    result: ProbeModel,
    clock: Option<u64>,
) -> (HandleModel, FollowUpModel) {
    if outdated(h.state, pending.generation) {
        (h, FollowUpModel { delay: STEADY_PROBE_INTERVAL, login: false })
    } else {
        match result {
            ProbeModel::Online { elapsed_ms } => (
                logged(
                    notified(with_state(h, online_seen(h.state, "网络正常"@, clock))),
                    "INFO"@,
                    "probe_online"@,
                    "latency_ms="@ + text::decimal(elapsed_ms as nat),
                ),
                FollowUpModel { delay: STEADY_PROBE_INTERVAL, login: false },
            ),
            _ => {
                let attempt = should_attempt(h.state, pending.config, result);
                let confirmed = misses(h.state) >= FAILURE_THRESHOLD;
                let after = logged(
                    with_state(h, missed(h.state, attempt)),
                    "WARN"@,
                    "probe_failed"@,
                    summary(result),
                );
                let settled = if attempt {
                    notified(
                        with_state(after, StateModel { outage_handled: true, ..after.state }),
                    )
                } else if confirmed {
                    // A plain outage, and no reason to submit credentials. The
                    // confirmation window starts anew, so that a later redirect
                    // can start recovery at once.
                    notified(
                        with_state(
                            after,
                            StateModel {
                                status: AppStatus::Offline,
                                detail: "网络不可达，等待校园认证门户"@,
                                checking: false,
                                consecutive_failures: 0,
                                ..after.state
                            },
                        ),
                    )
                } else {
                    after
                };
                (settled, FollowUpModel { delay: probe_delay(confirmed), login: attempt })
            },
        }
    }
}

impl RuntimeHandle {
    /// Begins a tick of the monitor.
    pub fn tick(
        &mut self,
        setup: Result<(AppConfig, Credentials), SetupError>,
        clock: Option<u64>,
    ) -> (step: TickStep)
        ensures
            (final(self)@, step) == tick_begun(old(self)@, setup_view(setup), clock),
    {
        match setup {
            Err(SetupError::NotConfigured(detail)) => {
                self.inner.status = AppStatus::SetupRequired;
                self.inner.detail = detail;
                self.inner.checking = false;
                TickStep::Wait(STEADY_PROBE_INTERVAL)
            },
            Err(SetupError::Failure(error)) => {
                self.fail("config_error", &error);
                TickStep::Wait(STEADY_PROBE_INTERVAL)
            },
            Ok((config, credentials)) => {
                if self.inner.paused || self.inner.capture_active {
                    return TickStep::Wait(STEADY_PROBE_INTERVAL);
                }
                if self.inner.outage_handled || self.login_in_progress() {
                    // The login makes its own short probes. No competing
                    // requests while it owns the recovery.
                    return TickStep::Wait(RECOVERY_PROBE_INTERVAL);
                }
                // A confirmed online state stays while a new probe is in
                // flight.
                match self.inner.status {
                    AppStatus::Online => {},
                    _ => {
                        self.inner.status = AppStatus::Checking;
                    },
                }
                self.inner.checking = true;
                self.inner.detail = "正在检测".to_string();
                self.inner.last_check = Some(now_string(clock));
                let generation = self.inner.generation;
                self.notify_status();
                TickStep::Probe(PendingProbe { config, credentials, generation })
            },
        }
    }

    pub(crate) fn set_online(&mut self, detail: &str, clock: Option<u64>)
        ensures
            final(self)@ == with_state(
                old(self)@,
                online_seen(old(self)@.state, detail@, clock),
            ),
    {
        self.inner.status = AppStatus::Online;
        self.inner.detail = detail.to_string();
        self.inner.checking = false;
        self.inner.consecutive_failures = 0;
        self.inner.auth_exhausted = false;
        self.inner.outage_handled = false;
        self.inner.last_success = Some(now_string(clock));
    }

    /// Ends a tick with the result of its probe.
    pub fn finish_probe(
        &mut self,
        pending: PendingProbe,
        result: ProbeResult,
        clock: Option<u64>,
    ) -> (next: ProbeFollowUp)
        ensures
            ({
                let (h, follow) = tick_ended(old(self)@, pending, result@, clock);
                &&& final(self)@ == h
                &&& next.delay == follow.delay
                &&& next.login == if follow.login {
                    Some(
                        LoginRequest {
                            config: pending.config,
                            credentials: pending.credentials,
                            manual: false,
                            initial_probe: Some(result),
                        },
                    )
                } else {
                    None
                }
            }),
    {
        if self.cancelled(pending.generation) {
            return ProbeFollowUp { delay: STEADY_PROBE_INTERVAL, login: None };
        }
        if let ProbeResult::Online { elapsed_ms } = &result {
            self.set_online("网络正常", clock);
            self.notify_status();
            self.log("INFO", "probe_online", &join2("latency_ms=", &decimal_text(*elapsed_ms)));
            return ProbeFollowUp { delay: STEADY_PROBE_INTERVAL, login: None };
        }
        self.inner.consecutive_failures = self.inner.consecutive_failures.saturating_add(1);
        let count: u8 = self.inner.consecutive_failures;
        let confirmed = count >= FAILURE_THRESHOLD;
        let portal_confirmed = classify(&pending.config, &result).is_some();
        let attempt = portal_confirmed && !self.inner.outage_handled && !self.inner.auth_exhausted;
        if confirmed && !attempt {
            self.inner.status = AppStatus::ProbeFailed { consecutive: count };
            self.inner.detail = miss_text(count);
            self.inner.checking = false;
        } else {
            self.inner.detail = "正在检测".to_string();
            self.inner.checking = true;
        }
        self.log("WARN", "probe_failed", &probe_summary(&result));
        let mut login: Option<LoginRequest> = None;
        if attempt {
            self.inner.outage_handled = true;
            self.notify_status();
            // The result that triggered recovery is used again. This avoids a
            // second full timeout before the portal can be classified.
            login = Some(
                LoginRequest {
                    config: pending.config,
                    credentials: pending.credentials,
                    manual: false,
                    initial_probe: Some(result),
                },
            );
        } else if confirmed {
            self.inner.status = AppStatus::Offline;
            self.inner.detail = "网络不可达，等待校园认证门户".to_string();
            self.inner.checking = false;
            self.inner.consecutive_failures = 0;
            self.notify_status();
        }
        ProbeFollowUp { delay: next_probe_delay(confirmed), login }
    }
}

// ---------------------------------------------------------------------------
// Panel and tray
// ---------------------------------------------------------------------------

/// The capture window is about to be created.
pub open spec fn capture_begun(h: HandleModel) -> HandleModel {
    logged(capture_set(h, true), "INFO"@, "capture_window_opening"@, "source=user_action"@)
}

/// The capture window could not be created.
pub open spec fn capture_refused(h: HandleModel) -> HandleModel {
    logged(
        capture_set(h, false),
        "ERROR"@,
        "capture_window_create_failed"@,
        "monitor_resumed=true"@,
    )
}

/// The capture window is gone.
pub open spec fn capture_ended(h: HandleModel) -> HandleModel {
    logged(capture_set(h, false), "INFO"@, "capture_window_closed"@, "monitor_resumed=true"@)
}

/// A captured room could not be saved.
pub open spec fn capture_lost(h: HandleModel, error: CaptureError) -> HandleModel {
    match error {
        CaptureError::Read(message) => logged(
            h,
            "ERROR"@,
            "capture_config_read_failed"@,
            message@,
        ),
        CaptureError::Save(message) => logged(
            h,
            "ERROR"@,
            "capture_config_save_failed"@,
            message@,
        ),
    }
}

/// The room identifiers that a capture has given are saved.
pub open spec fn room_saved(h: HandleModel) -> HandleModel {
    logged(h, "INFO"@, "capture_success"@, "apartment_id_present=true room_id_present=true"@)
}

/// A capture has given the room identifiers: the monitor goes on.
pub open spec fn capture_done(h: HandleModel) -> HandleModel {
    let resumed = capture_set(h, false);
    with_state(
        resumed,
        StateModel {
            status: AppStatus::Checking,
            detail: "认证信息已获取，正在验证网络"@,
            checking: false,
            ..resumed.state
        },
    )
}

impl RuntimeHandle {
    pub fn capture_opening(&mut self)
        ensures
            final(self)@ == capture_begun(old(self)@),
    {
        self.set_capture_active(true);
        self.log("INFO", "capture_window_opening", "source=user_action");
    }

    pub fn capture_create_failed(&mut self)
        ensures
            final(self)@ == capture_refused(old(self)@),
    {
        self.set_capture_active(false);
        self.log("ERROR", "capture_window_create_failed", "monitor_resumed=true");
    }

    pub fn capture_ready(&mut self)
        ensures
            final(self)@ == logged(
                old(self)@,
                "INFO"@,
                "capture_window_ready"@,
                "native_window_created=true"@,
            ),
    {
        self.log("INFO", "capture_window_ready", "native_window_created=true");
    }

    pub fn capture_close_failed(&mut self)
        ensures
            final(self)@ == logged(
                old(self)@,
                "ERROR"@,
                "capture_window_close_failed"@,
                "source=native_close"@,
            ),
    {
        self.log("ERROR", "capture_window_close_failed", "source=native_close");
    }

    pub fn capture_closed(&mut self)
        ensures
            final(self)@ == capture_ended(old(self)@),
    {
        self.set_capture_active(false);
        self.log("INFO", "capture_window_closed", "monitor_resumed=true");
    }

    pub fn capture_failed(&mut self, error: CaptureError)
        ensures
            final(self)@ == capture_lost(old(self)@, error),
    {
        match error {
            CaptureError::Read(message) => self.log(
                "ERROR",
                "capture_config_read_failed",
                &message,
            ),
            CaptureError::Save(message) => self.log(
                "ERROR",
                "capture_config_save_failed",
                &message,
            ),
        }
    }

    /// Automatic start was switched.
    pub fn startup_changed(&mut self, enabled: bool)
        ensures
            final(self)@ == logged(
                old(self)@,
                "INFO"@,
                "auto_start_changed"@,
                flag_text("enabled"@, enabled),
            ),
    {
        self.log("INFO", "auto_start_changed", &flag("enabled", enabled));
    }

    /// Comes before the result is announced.
    pub fn capture_saved(&mut self)
        ensures
            final(self)@ == room_saved(old(self)@),
    {
        self.log(
            "INFO",
            "capture_success",
            "apartment_id_present=true room_id_present=true",
        );
    }

    /// Comes after the result was announced.
    pub fn capture_succeeded(&mut self)
        ensures
            final(self)@ == capture_done(old(self)@),
    {
        self.set_capture_active(false);
        self.inner.status = AppStatus::Checking;
        self.inner.detail = "认证信息已获取，正在验证网络".to_string();
        self.inner.checking = false;
    }

    /// Pauses where the pause is not shown, and ends the pause where it is.
    pub fn toggle_pause(&mut self)
        ensures
            final(self)@ == paused_set(
                old(self)@,
                !(snapshot(old(self)@.state).status is Paused),
            ),
    {
        let paused = match self.status_view().status {
            AppStatus::Paused => true,
            _ => false,
        };
        self.set_paused(!paused);
    }
}

// ---------------------------------------------------------------------------
// Laws
// ---------------------------------------------------------------------------

/// The pause is shown exactly while it lasts.
pub open spec fn consistent(s: StateModel) -> bool {
    s.status is Paused ==> s.paused
}

/// Every operation of the monitor keeps the state consistent, from the first
/// one on.
pub proof fn monitor_stays_consistent(
    h: HandleModel,
    flag: bool,
    setup: SetupModel,
    pending: PendingProbe,
    result: ProbeModel,
    clock: Option<u64>,
)
    requires
        consistent(h.state),
    ensures
        consistent(fresh(h.logger).state),
        consistent(paused_set(h, flag).state),
        consistent(capture_set(h, flag).state),
        consistent(configured(h).state),
        consistent(capture_begun(h).state),
        consistent(capture_refused(h).state),
        consistent(capture_ended(h).state),
        consistent(capture_done(h).state),
        consistent(tick_begun(h, setup, clock).0.state),
        consistent(tick_ended(h, pending, result, clock).0.state),
{
}

/// A consistent state is shown as paused exactly where it is paused.
pub proof fn pause_is_shown(s: StateModel)
    requires
        consistent(s),
    ensures
        snapshot(s).status is Paused <==> s.paused,
{
}

/// The tray's pause entry pauses a running monitor and resumes a paused one.
pub proof fn toggling_changes_the_pause(h: HandleModel)
    requires
        consistent(h.state),
    ensures
        paused_set(h, !(snapshot(h.state).status is Paused)).state.paused == !h.state.paused,
{
}

/// While paused or capturing, a tick asks for no probe, whatever the setup, and
/// the result of an earlier probe changes nothing and starts no login.
pub proof fn quiet_means_quiet(
    h: HandleModel,
    setup: SetupModel,
    pending: PendingProbe,
    result: ProbeModel,
    clock: Option<u64>,
)
    requires
        h.state.paused || h.state.capture_active,
    ensures
        tick_begun(h, setup, clock).1 is Wait,
        tick_ended(h, pending, result, clock).0 == h,
        !tick_ended(h, pending, result, clock).1.login,
{
}

/// While a login is under way, or is to deal with the outage, the monitor does
/// not probe.
pub proof fn no_probe_beside_a_login(h: HandleModel, setup: SetupModel, clock: Option<u64>)
    requires
        h.login_flight || h.state.outage_handled,
    ensures
        tick_begun(h, setup, clock).1 is Wait,
{
}

/// The monitor is quiet from before the capture window is created until it is
/// gone, could not be created or has given the room.
pub proof fn capture_holds_the_monitor(
    h: HandleModel,
    setup: SetupModel,
    clock: Option<u64>,
)
    ensures
        tick_begun(capture_begun(h), setup, clock).1 is Wait,
        !capture_refused(h).state.capture_active,
        !capture_ended(h).state.capture_active,
        !capture_done(h).state.capture_active,
{
}

/// Without a complete setup nothing is probed.
pub proof fn no_probe_without_setup(h: HandleModel, setup: SetupModel, clock: Option<u64>)
    requires
        setup is Err,
    ensures
        tick_begun(h, setup, clock).1 is Wait,
{
}

/// An automatic login starts only from a reply that shows the configured
/// portal, while automatic login is not used up and no login deals with the
/// outage yet.
pub proof fn automatic_login_needs_the_portal(
    h: HandleModel,
    pending: PendingProbe,
    result: ProbeModel,
    clock: Option<u64>,
)
    ensures
        tick_ended(h, pending, result, clock).1.login <==> {
            &&& !outdated(h.state, pending.generation)
            &&& portal::portal_in(pending.config, result) is Some
            &&& !h.state.auth_exhausted
            &&& !h.state.outage_handled
        },
{
}

/// A plain outage (an HTTP answer without the portal, or a failed request)
/// never starts a login, however often it is seen.
pub proof fn plain_outage_starts_no_login(
    h: HandleModel,
    pending: PendingProbe,
    result: ProbeModel,
    clock: Option<u64>,
)
    requires
        !(result is Redirect),
    ensures
        !tick_ended(h, pending, result, clock).1.login,
{
}

/// A single miss is not an outage: what is shown stays, and the next probe
/// comes soon.
pub proof fn one_miss_keeps_the_status(
    h: HandleModel,
    pending: PendingProbe,
    result: ProbeModel,
    clock: Option<u64>,
)
    requires
        !outdated(h.state, pending.generation),
        h.state.consecutive_failures == 0,
        !(result is Online),
    ensures
        tick_ended(h, pending, result, clock).0.state.status == h.state.status,
        tick_ended(h, pending, result, clock).0.state.consecutive_failures == 1,
        tick_ended(h, pending, result, clock).1.delay == CONFIRMATION_PROBE_INTERVAL,
{
}

/// A second miss in a row without the portal is shown as an outage, and the
/// count starts anew.
pub proof fn second_miss_is_an_outage(
    h: HandleModel,
    pending: PendingProbe,
    result: ProbeModel,
    clock: Option<u64>,
)
    requires
        !outdated(h.state, pending.generation),
        h.state.consecutive_failures >= 1,
        !(result is Online),
        portal::portal_in(pending.config, result) is None,
    ensures
        tick_ended(h, pending, result, clock).0.state.status is Offline,
        tick_ended(h, pending, result, clock).0.state.consecutive_failures == 0,
        tick_ended(h, pending, result, clock).1.delay == RECOVERY_PROBE_INTERVAL,
{
}

/// A new probe does not take a confirmed connection off the display.
pub proof fn probing_keeps_online_shown(h: HandleModel, setup: SetupModel, clock: Option<u64>)
    requires
        h.state.status is Online,
        tick_begun(h, setup, clock).1 is Probe,
    ensures
        snapshot(tick_begun(h, setup, clock).0.state).status is Online,
        snapshot(tick_begun(h, setup, clock).0.state).checking,
{
}

/// Once used up, automatic login stays so through pauses, captures and misses;
/// a working connection or a new configuration renews it.
pub proof fn exhaustion_lasts(
    h: HandleModel,
    flag: bool,
    setup: SetupModel,
    pending: PendingProbe,
    result: ProbeModel,
    clock: Option<u64>,
)
    requires
        h.state.auth_exhausted,
    ensures
        paused_set(h, flag).state.auth_exhausted,
        capture_set(h, flag).state.auth_exhausted,
        tick_begun(h, setup, clock).0.state.auth_exhausted,
        !(result is Online) ==> tick_ended(h, pending, result, clock).0.state.auth_exhausted
            && !tick_ended(h, pending, result, clock).1.login,
        !outdated(h.state, pending.generation) && result is Online ==> !tick_ended(
            h,
            pending,
            result,
            clock,
        ).0.state.auth_exhausted,
        !configured(h).state.auth_exhausted,
{
}

/// A change of pause, capture or configuration makes everything begun before
/// it outdated, and wakes the monitor.
pub proof fn changes_cancel_what_is_under_way(h: HandleModel, flag: bool)
    ensures
        h.state.paused != flag ==> outdated(paused_set(h, flag).state, h.state.generation)
            && paused_set(h, flag).monitor_wakeup,
        h.state.capture_active != flag ==> outdated(
            capture_set(h, flag).state,
            h.state.generation,
        ) && capture_set(h, flag).monitor_wakeup,
        outdated(configured(h).state, h.state.generation) && configured(h).monitor_wakeup,
{
}

/// A change of capture or configuration makes the monitor read the setup again.
pub proof fn changes_forget_the_setup(h: HandleModel, flag: bool)
    ensures
        h.state.capture_active != flag ==> capture_set(h, flag).setup_cache is None,
        configured(h).setup_cache is None,
{
}

/// Setting what is set already changes nothing and says nothing.
pub proof fn repeated_settings_are_silent(h: HandleModel, flag: bool)
    ensures
        paused_set(paused_set(h, flag), flag) == paused_set(h, flag),
        capture_set(capture_set(h, flag), flag) == capture_set(h, flag),
{
}

/// The line that a missed probe leaves in the log says nothing of locations,
/// bodies and error texts.
pub proof fn summaries_hold_numbers_only(
    status: u16,
    elapsed_ms: u128,
    location: Seq<char>,
    body: Seq<char>,
    kind: Seq<char>,
)
    ensures
        summary(ProbeModel::Redirect { status, location, body, elapsed_ms })
            == "result=redirect status="@ + text::decimal(status as nat) + " latency_ms="@
            + text::decimal(elapsed_ms as nat),
        summary(ProbeModel::Transport { kind, elapsed_ms }) == "result=transport latency_ms="@
            + text::decimal(elapsed_ms as nat),
{
}

/// The last snapshot in the outbox stands at `at` and shows `view`.
pub open spec fn shown_last(outbox: Seq<EffectModel>, at: nat, view: StatusModel) -> bool {
    &&& at < outbox.len()
    &&& outbox[at as int] == EffectModel::Notify(view)
    &&& forall|k: int| at < k < outbox.len() ==> !(#[trigger] outbox[k] is Notify)
}

/// With snapshots wanted, the last one that a change sends shows the state that
/// the change left.
pub proof fn snapshots_are_current(
    h: HandleModel,
    flag: bool,
    event: Seq<char>,
    detail: Seq<char>,
)
    requires
        h.status_notifier,
    ensures
        h.state.paused != flag ==> shown_last(
            paused_set(h, flag).outbox,
            h.outbox.len() + 1,
            snapshot(paused_set(h, flag).state),
        ),
        h.state.capture_active != flag ==> shown_last(
            capture_set(h, flag).outbox,
            h.outbox.len() + 1,
            snapshot(capture_set(h, flag).state),
        ),
        shown_last(configured(h).outbox, h.outbox.len() + 1, snapshot(configured(h).state)),
        shown_last(
            failed(h, event, detail).outbox,
            h.outbox.len(),
            snapshot(failed(h, event, detail).state),
        ),
{
}

/// Whatever snapshot a tick sends, at its begin or at its end, shows the state
/// that is left.
pub proof fn ticks_show_what_they_leave(
    h: HandleModel,
    setup: SetupModel,
    pending: PendingProbe,
    result: ProbeModel,
    clock: Option<u64>,
    k: int,
)
    requires
        h.outbox.len() <= k,
    ensures
        ({
            let begun = tick_begun(h, setup, clock).0;
            k < begun.outbox.len() && begun.outbox[k] is Notify ==> begun.outbox[k]
                == EffectModel::Notify(snapshot(begun.state))
        }),
        ({
            let ended = tick_ended(h, pending, result, clock).0;
            k < ended.outbox.len() && ended.outbox[k] is Notify ==> ended.outbox[k]
                == EffectModel::Notify(snapshot(ended.state))
        }),
{
}

// ---------------------------------------------------------------------------
// What the monitor is for
// ---------------------------------------------------------------------------

/// What no step of the monitor touches, and what it has put into the outbox
/// before stays there.
pub open spec fn undisturbed(h: HandleModel, g: HandleModel) -> bool {
    &&& g.logger == h.logger
    &&& g.login_flight == h.login_flight
    &&& g.monitor_started == h.monitor_started
    &&& g.status_notifier == h.status_notifier
    &&& h.outbox.len() <= g.outbox.len()
    &&& forall|k: int| 0 <= k < h.outbox.len() ==> g.outbox[k] == #[trigger] h.outbox[k]
}

/// The snapshot of a state: a pause comes before the status, everything else
/// is shown as it is.
pub proof fn snapshots_show_the_state(s: StateModel)
    ensures
        s.paused ==> snapshot(s).status is Paused,
        !s.paused ==> snapshot(s).status == s.status,
        snapshot(s).detail == s.detail,
        snapshot(s).checking == s.checking,
        snapshot(s).last_check == s.last_check,
        snapshot(s).last_success == s.last_success,
        snapshot(s).last_error == s.last_error,
{
}

/// A state and a handle are seen as they are, field by field.
pub proof fn states_are_seen_as_they_are(s: RuntimeState, view: StatusView, h: RuntimeHandle)
    ensures
        s@.status == s.status,
        s@.detail == s.detail@,
        s@.checking == s.checking,
        s@.last_check is Some <==> s.last_check is Some,
        s.last_check matches Some(t) ==> s@.last_check == Some(t@),
        s@.last_success is Some <==> s.last_success is Some,
        s.last_success matches Some(t) ==> s@.last_success == Some(t@),
        s@.last_error is Some <==> s.last_error is Some,
        s.last_error matches Some(t) ==> s@.last_error == Some(t@),
        s@.paused == s.paused,
        s@.consecutive_failures == s.consecutive_failures,
        s@.capture_active == s.capture_active,
        s@.auth_exhausted == s.auth_exhausted,
        s@.outage_handled == s.outage_handled,
        s@.generation == s.generation,
        view@.status == view.status,
        view@.detail == view.detail@,
        view@.checking == view.checking,
        view@.last_check is Some <==> view.last_check is Some,
        view.last_check matches Some(t) ==> view@.last_check == Some(t@),
        view@.last_success is Some <==> view.last_success is Some,
        view.last_success matches Some(t) ==> view@.last_success == Some(t@),
        view@.last_error is Some <==> view.last_error is Some,
        view.last_error matches Some(t) ==> view@.last_error == Some(t@),
        h@.state == h.inner@,
        h@.login_flight == h.login_flight,
        h@.monitor_started == h.monitor_started,
        h@.setup_cache == h.setup_cache,
        h@.monitor_wakeup == h.monitor_wakeup,
        h@.status_notifier == h.status_notifier,
        h@.outbox.len() == h.outbox@.len(),
        forall|k: int| 0 <= k < h.outbox@.len() ==> h@.outbox[k] == (#[trigger] h.outbox@[k])@,
{
}

/// What goes out is seen as it is.
pub proof fn effects_are_seen_as_they_are(effect: Effect)
    ensures
        match effect {
            Effect::Notify(view) => effect@ == EffectModel::Notify(view@),
            Effect::Log { level, event, detail } => effect@ == (EffectModel::Log {
                level: level@,
                event: event@,
                detail: detail@,
            }),
            Effect::Wake => effect@ is Wake,
        },
{
}

/// A monitor that was just started asks for the setup and has nothing behind
/// it.
pub proof fn monitors_start_empty(logger: Logger)
    ensures
        fresh(logger).state.status is SetupRequired,
        !fresh(logger).state.checking && !fresh(logger).state.paused,
        fresh(logger).state.detail == "首次启动需要完成配置"@,
        fresh(logger).state.consecutive_failures == 0,
        !fresh(logger).state.capture_active && !fresh(logger).state.auth_exhausted,
        !fresh(logger).state.outage_handled,
        fresh(logger).state.last_check is None && fresh(logger).state.last_success is None,
        fresh(logger).state.last_error is None,
        fresh(logger).logger == logger,
        !fresh(logger).login_flight && !fresh(logger).monitor_started,
        fresh(logger).setup_cache is None && !fresh(logger).status_notifier,
        fresh(logger).outbox.len() == 0,
{
}

/// The probe of a tick is still wanted: nothing was paused, captured or
/// changed since it began.
pub open spec fn still_wanted(h: HandleModel, generation: u64) -> bool {
    h.state.generation == generation && !h.state.paused && !h.state.capture_active
}

/// What is begun is outdated exactly where it is no longer wanted.
pub proof fn outdated_means_unwanted(h: HandleModel, generation: u64)
    ensures
        outdated(h.state, generation) <==> !still_wanted(h, generation),
{
}

/// A working connection is shown as such, whatever was shown before: the
/// failures are forgotten, automatic login is renewed, and the snapshot that
/// goes out says so.
pub proof fn working_connection_is_shown(
    h: HandleModel,
    pending: PendingProbe,
    elapsed_ms: u128,
    seconds: u64,
)
    requires
        still_wanted(h, pending.generation),
    ensures
        ({
            let (g, next) = tick_ended(
                h,
                pending,
                ProbeModel::Online { elapsed_ms },
                Some(seconds),
            );
            &&& undisturbed(h, g)
            &&& g.state.status is Online
            &&& g.state.detail == "网络正常"@
            &&& !g.state.checking
            &&& g.state.consecutive_failures == 0
            &&& !g.state.auth_exhausted
            &&& !g.state.outage_handled
            &&& g.state.last_success == Some(text::decimal(seconds as nat))
            &&& g.state.last_check == h.state.last_check
            &&& g.state.last_error == h.state.last_error
            &&& g.state.generation == h.state.generation
            &&& !g.state.paused && !g.state.capture_active
            &&& g.setup_cache == h.setup_cache && g.monitor_wakeup == h.monitor_wakeup
            &&& h.status_notifier ==> {
                &&& g.outbox.len() == h.outbox.len() + 2
                &&& g.outbox[h.outbox.len() as int] matches EffectModel::Notify(view)
                &&& view.status is Online && !view.checking && view.detail == "网络正常"@
                &&& view.last_success == Some(text::decimal(seconds as nat))
            }
            &&& !h.status_notifier ==> g.outbox.len() == h.outbox.len() + 1
            &&& g.outbox.last() == (EffectModel::Log {
                level: "INFO"@,
                event: "probe_online"@,
                detail: "latency_ms="@ + text::decimal(elapsed_ms as nat),
            })
            &&& next.delay == 5_000_000_000
            &&& !next.login
        }),
{
}

/// What any missed probe leaves alone.
pub open spec fn kept_by_a_miss(h: HandleModel, g: HandleModel) -> bool {
    &&& undisturbed(h, g)
    &&& g.state.last_check == h.state.last_check
    &&& g.state.last_success == h.state.last_success
    &&& g.state.last_error == h.state.last_error
    &&& g.state.paused == h.state.paused
    &&& g.state.capture_active == h.state.capture_active
    &&& g.state.auth_exhausted == h.state.auth_exhausted
    &&& g.state.generation == h.state.generation
    &&& g.setup_cache == h.setup_cache
    &&& g.monitor_wakeup == h.monitor_wakeup
}

/// The portal is acted upon at its first sight: a login is asked for, it is to
/// deal with the outage, and what was shown stays until it does.
pub proof fn portal_starts_a_login(
    h: HandleModel,
    pending: PendingProbe,
    result: ProbeModel,
    clock: Option<u64>,
)
    requires
        still_wanted(h, pending.generation),
        !(result is Online),
        portal::portal_in(pending.config, result) is Some,
        !h.state.outage_handled,
        !h.state.auth_exhausted,
    ensures
        ({
            let (g, next) = tick_ended(h, pending, result, clock);
            &&& kept_by_a_miss(h, g)
            &&& next.login
            &&& g.state.outage_handled
            &&& g.state.status == h.state.status
            &&& g.state.checking
            &&& g.state.detail == "正在检测"@
            &&& h.state.consecutive_failures < 255 ==> g.state.consecutive_failures
                == h.state.consecutive_failures + 1
            &&& next.delay == if h.state.consecutive_failures == 0 {
                250_000_000u64
            } else {
                2_000_000_000u64
            }
            &&& g.outbox[h.outbox.len() as int] == (EffectModel::Log {
                level: "WARN"@,
                event: "probe_failed"@,
                detail: summary(result),
            })
            &&& h.status_notifier ==> g.outbox.len() == h.outbox.len() + 2
                && g.outbox.last() == EffectModel::Notify(snapshot(g.state))
            &&& !h.status_notifier ==> g.outbox.len() == h.outbox.len() + 1
        }),
{
}

/// A miss that starts no login: the first is not shown and confirmed soon; the
/// next is an outage, shown as such, and the count starts anew.
pub proof fn misses_are_confirmed(
    h: HandleModel,
    pending: PendingProbe,
    result: ProbeModel,
    clock: Option<u64>,
)
    requires
        still_wanted(h, pending.generation),
        !(result is Online),
        portal::portal_in(pending.config, result) is None || h.state.outage_handled
            || h.state.auth_exhausted,
    ensures
        ({
            let (g, next) = tick_ended(h, pending, result, clock);
            &&& kept_by_a_miss(h, g)
            &&& !next.login
            &&& g.state.outage_handled == h.state.outage_handled
            &&& g.outbox[h.outbox.len() as int] == (EffectModel::Log {
                level: "WARN"@,
                event: "probe_failed"@,
                detail: summary(result),
            })
            &&& h.state.consecutive_failures == 0 ==> {
                &&& g.state.status == h.state.status
                &&& g.state.checking
                &&& g.state.detail == "正在检测"@
                &&& g.state.consecutive_failures == 1
                &&& next.delay == 250_000_000
                &&& g.outbox.len() == h.outbox.len() + 1
            }
            &&& h.state.consecutive_failures > 0 ==> {
                &&& g.state.status is Offline
                &&& !g.state.checking
                &&& g.state.detail == "网络不可达，等待校园认证门户"@
                &&& g.state.consecutive_failures == 0
                &&& next.delay == 2_000_000_000
                &&& h.status_notifier ==> g.outbox.len() == h.outbox.len() + 2
                    && g.outbox.last() == EffectModel::Notify(snapshot(g.state))
            }
        }),
{
}

/// A result that is no longer wanted changes nothing.
pub proof fn unwanted_results_are_dropped(
    h: HandleModel,
    pending: PendingProbe,
    result: ProbeModel,
    clock: Option<u64>,
)
    requires
        !still_wanted(h, pending.generation),
    ensures
        tick_ended(h, pending, result, clock).0 == h,
        !tick_ended(h, pending, result, clock).1.login,
        tick_ended(h, pending, result, clock).1.delay == 5_000_000_000,
{
}

/// With a complete setup and nothing in the way a tick probes: with this very
/// configuration and these credentials, for the state as it is, and shows that
/// it does. A working connection stays shown meanwhile.
pub proof fn ticks_probe_with_the_setup(
    h: HandleModel,
    config: AppConfig,
    credentials: Credentials,
    seconds: u64,
)
    requires
        !h.state.paused && !h.state.capture_active,
        !h.state.outage_handled && !h.login_flight,
    ensures
        ({
            let (g, step) = tick_begun(h, Ok((config, credentials)), Some(seconds));
            &&& undisturbed(h, g)
            &&& step matches TickStep::Probe(pending) && {
                &&& pending.config == config
                &&& pending.credentials == credentials
                &&& still_wanted(g, pending.generation)
                &&& still_wanted(h, pending.generation)
            }
            &&& g.state.status == if h.state.status is Online {
                AppStatus::Online
            } else {
                AppStatus::Checking
            }
            &&& g.state.checking
            &&& g.state.detail == "正在检测"@
            &&& g.state.last_check == Some(text::decimal(seconds as nat))
            &&& g.state.last_success == h.state.last_success
            &&& g.state.last_error == h.state.last_error
            &&& g.state.consecutive_failures == h.state.consecutive_failures
            &&& g.state.auth_exhausted == h.state.auth_exhausted
            &&& g.setup_cache == h.setup_cache && g.monitor_wakeup == h.monitor_wakeup
            &&& h.status_notifier ==> g.outbox.len() == h.outbox.len() + 1
                && g.outbox.last() == EffectModel::Notify(snapshot(g.state))
            &&& !h.status_notifier ==> g.outbox == h.outbox
        }),
{
}

/// Where a tick does not probe: what is missing is shown, and everything else
/// is left as it is.
pub proof fn ticks_say_why_they_wait(
    h: HandleModel,
    config: AppConfig,
    credentials: Credentials,
    detail: Seq<char>,
    clock: Option<u64>,
)
    ensures
        h.state.paused || h.state.capture_active ==> tick_begun(
            h,
            Ok((config, credentials)),
            clock,
        ) == (h, TickStep::Wait(5_000_000_000)),
        !h.state.paused && !h.state.capture_active && (h.state.outage_handled || h.login_flight)
            ==> tick_begun(h, Ok((config, credentials)), clock) == (
            h,
            TickStep::Wait(2_000_000_000),
        ),
        ({
            let (g, step) = tick_begun(h, Err(SetupErrorModel::NotConfigured(detail)), clock);
            &&& step == TickStep::Wait(5_000_000_000)
            &&& undisturbed(h, g)
            &&& g.state.status is SetupRequired && g.state.detail == detail && !g.state.checking
            &&& g.outbox == h.outbox
            &&& g.state.last_error == h.state.last_error
            &&& g.state.generation == h.state.generation && g.state.paused == h.state.paused
        }),
        ({
            let (g, step) = tick_begun(h, Err(SetupErrorModel::Failure(detail)), clock);
            &&& step == TickStep::Wait(5_000_000_000)
            &&& undisturbed(h, g)
            &&& g.state.status is NeedsAttention && g.state.detail == detail && !g.state.checking
            &&& g.state.last_error == Some(detail)
            &&& g.outbox.last() == (EffectModel::Log {
                level: "ERROR"@,
                event: "config_error"@,
                detail,
            })
        }),
{
}

/// A failure is shown with its text and logged.
pub proof fn failures_are_shown(h: HandleModel, event: Seq<char>, detail: Seq<char>)
    ensures
        ({
            let g = failed(h, event, detail);
            &&& undisturbed(h, g)
            &&& g.state.status is NeedsAttention
            &&& g.state.detail == detail
            &&& !g.state.checking
            &&& g.state.last_error == Some(detail)
            &&& g.state.paused == h.state.paused && g.state.generation == h.state.generation
            &&& g.state.auth_exhausted == h.state.auth_exhausted
            &&& g.outbox.last() == (EffectModel::Log { level: "ERROR"@, event, detail })
            &&& h.status_notifier ==> g.outbox.len() == h.outbox.len() + 2
        }),
{
}

/// Pausing and resuming: the flag is set, the status says so, what was under
/// way no longer counts, the monitor is woken, and the log tells which.
pub proof fn pausing_does_what_it_says(h: HandleModel, paused: bool)
    requires
        h.state.paused != paused,
    ensures
        ({
            let g = paused_set(h, paused);
            &&& undisturbed(h, g)
            &&& g.state.paused == paused
            &&& g.state.generation != h.state.generation
            &&& !g.state.checking
            &&& paused ==> g.state.status is Paused && g.state.detail == "自动登录已暂停"@
            &&& !paused ==> g.state.status is Checking && g.state.detail == "自动登录已恢复"@
            &&& g.state.capture_active == h.state.capture_active
            &&& g.state.auth_exhausted == h.state.auth_exhausted
            &&& g.state.outage_handled == h.state.outage_handled
            &&& g.state.consecutive_failures == h.state.consecutive_failures
            &&& g.state.last_check == h.state.last_check
            &&& g.state.last_success == h.state.last_success
            &&& g.state.last_error == h.state.last_error
            &&& g.setup_cache == h.setup_cache
            &&& g.monitor_wakeup
            &&& g.outbox[h.outbox.len() as int] is Wake
            &&& g.outbox.last() == (EffectModel::Log {
                level: "INFO"@,
                event: "pause_changed"@,
                detail: if paused {
                    "paused=true"@
                } else {
                    "paused=false"@
                },
            })
        }),
{
    lemma_flags();
}

proof fn lemma_flags()
    ensures
        flag_text("paused"@, true) == "paused=true"@,
        flag_text("paused"@, false) == "paused=false"@,
        flag_text("active"@, true) == "active=true"@,
        flag_text("active"@, false) == "active=false"@,
        flag_text("enabled"@, true) == "enabled=true"@,
        flag_text("enabled"@, false) == "enabled=false"@,
        flag_text("manual"@, true) == "manual=true"@,
        flag_text("manual"@, false) == "manual=false"@,
{
    reveal_strlit("=");
    reveal_strlit("true");
    reveal_strlit("false");
    reveal_strlit("paused");
    reveal_strlit("active");
    reveal_strlit("enabled");
    reveal_strlit("manual");
    reveal_strlit("paused=true");
    reveal_strlit("paused=false");
    reveal_strlit("active=true");
    reveal_strlit("active=false");
    reveal_strlit("enabled=true");
    reveal_strlit("enabled=false");
    reveal_strlit("manual=true");
    reveal_strlit("manual=false");
    assert(flag_text("paused"@, true) =~= "paused=true"@);
    assert(flag_text("paused"@, false) =~= "paused=false"@);
    assert(flag_text("active"@, true) =~= "active=true"@);
    assert(flag_text("active"@, false) =~= "active=false"@);
    assert(flag_text("enabled"@, true) =~= "enabled=true"@);
    assert(flag_text("enabled"@, false) =~= "enabled=false"@);
    assert(flag_text("manual"@, true) =~= "manual=true"@);
    assert(flag_text("manual"@, false) =~= "manual=false"@);
}

/// A flag is written as its name and its value.
pub proof fn flags_are_written_out(name: Seq<char>)
    ensures
        flag_text(name, true) == name + "=true"@,
        flag_text(name, false) == name + "=false"@,
{
    reveal_strlit("=");
    reveal_strlit("true");
    reveal_strlit("false");
    reveal_strlit("=true");
    reveal_strlit("=false");
    assert(flag_text(name, true) =~= name + "=true"@);
    assert(flag_text(name, false) =~= name + "=false"@);
}

/// The start and the end of a capture: the flag is set, what was under way no
/// longer counts, the setup is to be read again, the monitor is woken; and a
/// monitor that is not paused goes on when the capture ends.
pub proof fn capturing_does_what_it_says(h: HandleModel, active: bool)
    requires
        h.state.capture_active != active,
    ensures
        ({
            let g = capture_set(h, active);
            &&& undisturbed(h, g)
            &&& g.state.capture_active == active
            &&& g.state.generation != h.state.generation
            &&& !g.state.checking
            &&& active ==> g.state.status == h.state.status && g.state.detail
                == "正在获取校园网认证信息"@
            &&& !active && !h.state.paused ==> g.state.status is Checking && g.state.detail
                == "认证信息获取完成，等待网络探测"@
            &&& !active && h.state.paused ==> g.state.status == h.state.status && g.state.detail
                == h.state.detail
            &&& g.state.paused == h.state.paused
            &&& g.state.auth_exhausted == h.state.auth_exhausted
            &&& g.state.outage_handled == h.state.outage_handled
            &&& g.state.consecutive_failures == h.state.consecutive_failures
            &&& g.state.last_check == h.state.last_check
            &&& g.state.last_success == h.state.last_success
            &&& g.state.last_error == h.state.last_error
            &&& g.setup_cache is None
            &&& g.monitor_wakeup
            &&& g.outbox[h.outbox.len() as int] is Wake
            &&& g.outbox.last() == (EffectModel::Log {
                level: "INFO"@,
                event: "capture_changed"@,
                detail: if active {
                    "active=true"@
                } else {
                    "active=false"@
                },
            })
        }),
{
    lemma_flags();
}

/// A new configuration starts afresh: errors and failures are forgotten,
/// automatic login is renewed, what was under way no longer counts, and the
/// monitor looks at once.
pub proof fn new_configuration_starts_afresh(h: HandleModel)
    ensures
        ({
            let g = configured(h);
            &&& undisturbed(h, g)
            &&& g.state.status is Checking
            &&& g.state.detail == "等待网络探测"@
            &&& !g.state.checking
            &&& g.state.consecutive_failures == 0
            &&& !g.state.auth_exhausted && !g.state.outage_handled
            &&& g.state.last_error is None
            &&& g.state.generation != h.state.generation
            &&& g.state.paused == h.state.paused
            &&& g.state.capture_active == h.state.capture_active
            &&& g.state.last_check == h.state.last_check
            &&& g.state.last_success == h.state.last_success
            &&& g.setup_cache is None
            &&& g.monitor_wakeup
            &&& g.outbox[h.outbox.len() as int] is Wake
            &&& g.outbox.last() == (EffectModel::Log {
                level: "INFO"@,
                event: "configuration_changed"@,
                detail: "automatic_login_reset=true"@,
            })
        }),
{
}

/// A setup is complete exactly where both files can be read, credentials are
/// stored and the room is known, and then it is what the files hold; else it is
/// said what is wrong, the configuration first.
pub proof fn setups_are_complete_or_refused(
    config: AppConfig,
    credentials: Credentials,
    error: String,
    other: Result<Option<Credentials>, String>,
)
    ensures
        !text::is_blank(config.apartment_id@) && !text::is_blank(config.room_id@) ==> setup_of(
            SetupFiles { config: Ok(config), credentials: Ok(Some(credentials)) },
        ) == Ok::<_, SetupErrorModel>((config, credentials)),
        text::is_blank(config.apartment_id@) || text::is_blank(config.room_id@) ==> setup_of(
            SetupFiles { config: Ok(config), credentials: Ok(Some(credentials)) },
        ) == Err::<(AppConfig, Credentials), _>(
            SetupErrorModel::NotConfigured("请先获取公寓标识和房间标识"@),
        ),
        setup_of(SetupFiles { config: Ok(config), credentials: Ok(None) }) == Err::<
            (AppConfig, Credentials),
            _,
        >(SetupErrorModel::NotConfigured("请先完成首次配置"@)),
        setup_of(SetupFiles { config: Ok(config), credentials: Err(error) }) == Err::<
            (AppConfig, Credentials),
            _,
        >(SetupErrorModel::Failure(error@)),
        setup_of(SetupFiles { config: Err(error), credentials: other }) == Err::<
            (AppConfig, Credentials),
            _,
        >(SetupErrorModel::Failure(error@)),
{
}

/// Users see the text of a setup error.
pub proof fn setup_errors_are_told(s: String)
    ensures
        message(SetupError::NotConfigured(s)@) == s@,
        message(SetupError::Failure(s)@) == s@,
        SetupError::NotConfigured(s)@ is NotConfigured,
        SetupError::Failure(s)@ is Failure,
{
}

/// The intervals of the monitor: five seconds when all is well, a quarter of a
/// second to confirm a failure and between any two probes, two seconds while an
/// outage lasts, and two misses make an outage.
pub proof fn intervals_are_these()
    ensures
        STEADY_PROBE_INTERVAL == 5_000_000_000,
        CONFIRMATION_PROBE_INTERVAL == 250_000_000,
        RECOVERY_PROBE_INTERVAL == 2_000_000_000,
        MIN_PROBE_GAP == 250_000_000,
        FAILURE_THRESHOLD == 2,
        probe_delay(true) == 2_000_000_000,
        probe_delay(false) == 250_000_000,
{
}

/// Times are shown as seconds; without a clock nothing is.
pub proof fn stamps_are_seconds(seconds: u64)
    ensures
        stamp(Some(seconds)) == text::decimal(seconds as nat),
        stamp(None).len() == 0,
{
}

/// The line that a probe leaves in the log names its outcome, its status where
/// there is one, and its duration.
pub proof fn summaries_name_the_outcome(status: u16, elapsed_ms: u128)
    ensures
        summary(ProbeModel::Online { elapsed_ms }) == "result=204 latency_ms="@ + text::decimal(
            elapsed_ms as nat,
        ),
        summary(ProbeModel::Http { status, elapsed_ms }) == "result=http status="@ + text::decimal(
            status as nat,
        ) + " latency_ms="@ + text::decimal(elapsed_ms as nat),
{
}

/// The steps of a capture, as the log tells them; and a captured room lets the
/// monitor go on at once, whether or not it is paused.
pub proof fn captures_are_logged(h: HandleModel, message: String)
    ensures
        capture_begun(h).state.capture_active,
        capture_begun(h).outbox.last() == (EffectModel::Log {
            level: "INFO"@,
            event: "capture_window_opening"@,
            detail: "source=user_action"@,
        }),
        capture_refused(h).outbox.last() == (EffectModel::Log {
            level: "ERROR"@,
            event: "capture_window_create_failed"@,
            detail: "monitor_resumed=true"@,
        }),
        capture_ended(h).outbox.last() == (EffectModel::Log {
            level: "INFO"@,
            event: "capture_window_closed"@,
            detail: "monitor_resumed=true"@,
        }),
        capture_lost(h, CaptureError::Read(message)).state == h.state,
        capture_lost(h, CaptureError::Read(message)).outbox == h.outbox.push(
            EffectModel::Log {
                level: "ERROR"@,
                event: "capture_config_read_failed"@,
                detail: message@,
            },
        ),
        capture_lost(h, CaptureError::Save(message)).state == h.state,
        capture_lost(h, CaptureError::Save(message)).outbox == h.outbox.push(
            EffectModel::Log {
                level: "ERROR"@,
                event: "capture_config_save_failed"@,
                detail: message@,
            },
        ),
        room_saved(h).state == h.state,
        room_saved(h).outbox == h.outbox.push(
            EffectModel::Log {
                level: "INFO"@,
                event: "capture_success"@,
                detail: "apartment_id_present=true room_id_present=true"@,
            },
        ),
        undisturbed(h, capture_done(h)),
        !capture_done(h).state.capture_active,
        capture_done(h).state.status is Checking,
        capture_done(h).state.detail == "认证信息已获取，正在验证网络"@,
        !capture_done(h).state.checking,
        capture_done(h).state.paused == h.state.paused,
        capture_done(h).state.auth_exhausted == h.state.auth_exhausted,
        h.state.capture_active ==> capture_done(h).setup_cache is None
            && capture_done(h).monitor_wakeup && capture_done(h).state.generation
            != h.state.generation,
        undisturbed(h, capture_begun(h)) && undisturbed(h, capture_refused(h)),
        undisturbed(h, capture_ended(h)),
        !capture_refused(h).state.capture_active && !capture_ended(h).state.capture_active,
{
}

/// A snapshot goes out where snapshots are wanted, and shows the state.
pub proof fn wanted_snapshots_go_out(h: HandleModel)
    ensures
        h.status_notifier ==> notified(h).outbox == h.outbox.push(
            EffectModel::Notify(snapshot(h.state)),
        ),
        !h.status_notifier ==> notified(h) == h,
        notified(h).state == h.state,
        undisturbed(h, notified(h)),
{
}

/// A miss is counted against the two that make an outage.
pub proof fn misses_are_counted_out(count: u8) -> (r: (Seq<char>, Seq<char>))
    ensures
        miss_detail(count) == "网络探测异常（"@ + r.0 + "/"@ + r.1 + "）"@,
        text::number(r.0) == count,
        text::number(r.1) == 2,
{
    text::decimal_reads_back(count as nat);
    text::decimal_reads_back(FAILURE_THRESHOLD as nat);
    (text::decimal(count as nat), text::decimal(FAILURE_THRESHOLD as nat))
}

} // verus!
