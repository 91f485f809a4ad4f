//! A login from the first look at the portal to success or surrender.
//!
//! A `LoginSession` decides; the probes, submissions and sleeps it asks for are
//! made outside and their outcomes handed back.

use crate::auth::AuthError;
use crate::clock;
use crate::clock::{shorter, MILLISECOND, SECOND};
use crate::model::{AppConfig, AppStatus, Credentials};
use crate::portal;
use crate::portal::{classify, ParamsModel, PortalParams};
use crate::probe::{ProbeModel, ProbeResult, DEFAULT_PROBE_TIMEOUT};
use crate::runtime;
use crate::runtime::{flag, HandleModel, LoginRequest, RuntimeHandle, StateModel};
use crate::text;
use crate::text::{decimal_text, join2, push_text};
use vstd::prelude::*;

verus! {

pub const AUTH_ATTEMPTS: u8 = 3;

/// How long the network is watched after the first and the second failure.
pub const AUTH_RETRY_BUDGETS: [u64; 2] = [10 * SECOND, 30 * SECOND];

pub const FIRST_RETRY_DELAY: u64 = 250 * MILLISECOND;

pub const MAX_RETRY_DELAY: u64 = 2 * SECOND;

pub const RETRY_PROBE_TIMEOUT: u64 = 750 * MILLISECOND;

/// Where a login stands. Times are readings of a monotonic clock.
#[derive(Clone, Copy, Debug, PartialEq, Eq, Structural)]
pub enum Phase {
    /// Waits for the probe that shows the portal.
    Identifying,
    /// Waits for the outcome of a submission.
    Submitting { attempt: u8 },
    /// Sleeps between two looks at the network after a failed attempt.
    Resting { attempt: u8, started: u64, delay: u64 },
    /// Waits for a probe after a failed attempt.
    Watching { attempt: u8, started: u64, delay: u64 },
    Finished,
}

#[derive(Debug)]
pub struct LoginSession {
    pub config: AppConfig,
    pub credentials: Credentials,
    pub manual: bool,
    /// The state that the login belongs to; another one cancels it.
    pub generation: u64,
    pub phase: Phase,
}

#[derive(Debug)]
pub enum LoginEvent {
    Probed(ProbeResult),
    Authenticated(Result<(), AuthError>),
    Slept,
}

#[derive(Debug)]
pub enum LoginAction {
    /// Probe with this bound for each request.
    Probe { timeout: u64 },
    /// Submit the session's credentials with these parameters.
    Authenticate { attempt: u8, params: PortalParams },
    /// Sleep so many nanoseconds.
    Sleep(u64),
    Done,
}

pub enum ActionModel {
    Probe { timeout: u64 },
    Authenticate { attempt: u8, params: ParamsModel },
    Sleep(u64),
    Done,
}

impl View for LoginAction {
    type V = ActionModel;

    open spec fn view(&self) -> ActionModel {
        match *self {
            LoginAction::Probe { timeout } => ActionModel::Probe { timeout },
            LoginAction::Authenticate { attempt, params } => ActionModel::Authenticate {
                attempt,
                params: params@,
            },
            LoginAction::Sleep(delay) => ActionModel::Sleep(delay),
            LoginAction::Done => ActionModel::Done,
        }
    }
}

impl LoginSession {
    /// At most three attempts, and retries whose delays stay within bounds.
    pub open spec fn wf(&self) -> bool {
        match self.phase {
            Phase::Submitting { attempt } => 1 <= attempt <= AUTH_ATTEMPTS,
            Phase::Resting { attempt, delay, .. } => 1 <= attempt < AUTH_ATTEMPTS
                && FIRST_RETRY_DELAY <= delay <= MAX_RETRY_DELAY,
            Phase::Watching { attempt, delay, .. } => 1 <= attempt < AUTH_ATTEMPTS
                && FIRST_RETRY_DELAY <= delay <= MAX_RETRY_DELAY,
            _ => true,
        }
    }

    /// The event is an outcome of what the session waits for.
    pub open spec fn expects(&self, event: LoginEvent) -> bool {
        match self.phase {
            Phase::Identifying => event is Probed,
            Phase::Submitting { .. } => event is Authenticated,
            Phase::Resting { .. } => event is Slept,
            Phase::Watching { .. } => event is Probed,
            Phase::Finished => false,
        }
    }
}

// ---------------------------------------------------------------------------
// Texts and bounds
// ---------------------------------------------------------------------------

pub open spec fn error_kind(error: AuthError) -> Seq<char> {
    match error {
        AuthError::Transport(_) => "transport"@,
        AuthError::Protocol(_) => "protocol"@,
        AuthError::VerifyFailed => "verify_failed"@,
    }
}

pub fn auth_error_kind(error: &AuthError) -> (r: &'static str)
    ensures
        r@ == error_kind(*error),
{
    match error {
        AuthError::Transport(_) => "transport",
        AuthError::Protocol(_) => "protocol",
        AuthError::VerifyFailed => "verify_failed",
    }
}

pub open spec fn attempt_detail(attempt: u8) -> Seq<char> {
    "正在登录（"@ + text::decimal(attempt as nat) + "/"@ + text::decimal(AUTH_ATTEMPTS as nat)
        + "）"@
}

fn attempt_text(attempt: u8) -> (r: String)
    ensures
        r@ == attempt_detail(attempt),
{
    let mut r = join2("正在登录（", &decimal_text(attempt as u128));
    push_text(&mut r, "/");
    push_text(&mut r, &decimal_text(AUTH_ATTEMPTS as u128));
    push_text(&mut r, "）");
    r
}

pub open spec fn attempt_line(attempt: u8, manual: bool) -> Seq<char> {
    "attempt="@ + text::decimal(attempt as nat) + " "@ + runtime::flag_text("manual"@, manual)
}

fn attempt_log(attempt: u8, manual: bool) -> (r: String)
    ensures
        r@ == attempt_line(attempt, manual),
{
    let mut r = join2("attempt=", &decimal_text(attempt as u128));
    push_text(&mut r, " ");
    push_text(&mut r, &flag("manual", manual));
    r
}

pub open spec fn failure_line(attempt: u8, kind: Seq<char>) -> Seq<char> {
    "attempt="@ + text::decimal(attempt as nat) + " kind="@ + kind
}

fn failure_log(attempt: u8, kind: &str) -> (r: String)
    ensures
        r@ == failure_line(attempt, kind@),
{
    let mut r = join2("attempt=", &decimal_text(attempt as u128));
    push_text(&mut r, " kind=");
    push_text(&mut r, kind);
    r
}

/// How long the network is watched after a failed attempt.
pub open spec fn retry_budget(attempt: u8) -> u64 {
    AUTH_RETRY_BUDGETS@[attempt - 1]
}

/// How long after a failed attempt credentials are not submitted again.
pub open spec fn minimum_delay(attempt: u8) -> int {
    attempt * 2 * SECOND
}

// ---------------------------------------------------------------------------
// Transitions
// ---------------------------------------------------------------------------

/// The monitor, the session and what to do next.
pub type LoginStep = (HandleModel, LoginSession, ActionModel);

pub open spec fn with_phase(s: LoginSession, phase: Phase) -> LoginSession {
    LoginSession { phase, ..s }
}

/// The outage counts as unhandled again.
pub open spec fn unhandled(h: HandleModel) -> HandleModel {
    runtime::with_state(h, StateModel { outage_handled: false, ..h.state })
}

/// The session ends and gives the flight back.
pub open spec fn ended(h: HandleModel, s: LoginSession) -> LoginStep {
    (HandleModel { login_flight: false, ..h }, with_phase(s, Phase::Finished), ActionModel::Done)
}

/// Submits with fresh parameters, unless the state has moved on.
pub open spec fn submitted(
    h: HandleModel,
    s: LoginSession,
    attempt: u8,
    params: ParamsModel,
) -> LoginStep {
    if runtime::outdated(h.state, s.generation) {
        ended(
            runtime::logged(unhandled(h), "INFO"@, "login_cancelled"@, "reason=state_changed"@),
            s,
        )
    } else {
        let state = StateModel {
            status: AppStatus::Authenticating { attempt },
            detail: attempt_detail(attempt),
            ..h.state
        };
        (
            runtime::logged(
                runtime::notified(runtime::with_state(h, state)),
                "INFO"@,
                "auth_attempt"@,
                attempt_line(attempt, s.manual),
            ),
            with_phase(s, Phase::Submitting { attempt }),
            ActionModel::Authenticate { attempt, params },
        )
    }
}

/// The first look: without the portal nothing is submitted.
pub open spec fn identified(h: HandleModel, s: LoginSession, result: ProbeModel) -> LoginStep {
    match portal::portal_in(s.config, result) {
        None => {
            let state = StateModel {
                status: AppStatus::Offline,
                detail: "未检测到校园认证门户，未提交凭据"@,
                checking: false,
                consecutive_failures: 0,
                outage_handled: false,
                ..h.state
            };
            ended(
                runtime::logged(
                    runtime::notified(runtime::with_state(h, state)),
                    "INFO"@,
                    "portal_not_found"@,
                    "credentials_sent=false"@,
                ),
                s,
            )
        },
        Some(found) => {
            let state = StateModel {
                status: AppStatus::PortalDetected,
                detail: "已检测到校园认证门户"@,
                checking: false,
                ..h.state
            };
            submitted(
                runtime::notified(runtime::with_state(h, state)),
                s,
                1,
                found.params,
            )
        },
    }
}

/// Sleeps before the next look, unless the state has moved on or the time for
/// retries is used up.
pub open spec fn rested(
    h: HandleModel,
    s: LoginSession,
    attempt: u8,
    started: u64,
    delay: u64,
    now: u64,
) -> LoginStep {
    if runtime::outdated(h.state, s.generation) || clock::since(started, now) >= retry_budget(attempt) {
        ended(unhandled(h), s)
    } else {
        (
            h,
            with_phase(s, Phase::Resting { attempt, started, delay }),
            ActionModel::Sleep(
                clock::least(delay as int, retry_budget(attempt) - clock::since(started, now)) as u64,
            ),
        )
    }
}

/// The submission succeeded.
pub open spec fn succeeded(h: HandleModel, s: LoginSession, clock: Option<u64>) -> LoginStep {
    if runtime::outdated(h.state, s.generation) {
        ended(unhandled(h), s)
    } else {
        let state = StateModel {
            last_error: None,
            ..runtime::online_seen(h.state, "登录成功，网络已恢复"@, clock)
        };
        ended(
            runtime::logged(
                runtime::notified(runtime::with_state(h, state)),
                "INFO"@,
                "auth_success"@,
                "verified=true"@,
            ),
            s,
        )
    }
}

/// The submission failed, and another may follow.
pub open spec fn put_off(
    h: HandleModel,
    s: LoginSession,
    attempt: u8,
    kind: Seq<char>,
    now: u64,
) -> LoginStep {
    let state = StateModel {
        status: AppStatus::WaitingToRetry { seconds: retry_budget(attempt) / SECOND },
        detail: "登录失败，等待网络恢复后重试"@,
        checking: false,
        last_error: Some(kind),
        ..h.state
    };
    rested(
        runtime::notified(runtime::with_state(h, state)),
        s,
        attempt,
        now,
        FIRST_RETRY_DELAY,
        now,
    )
}

/// The last submission failed.
pub open spec fn surrendered(h: HandleModel, s: LoginSession, kind: Seq<char>) -> LoginStep {
    let state = StateModel {
        status: AppStatus::NeedsAttention,
        detail: "自动登录已停止，请检查配置或手动登录"@,
        checking: false,
        last_error: Some(kind),
        outage_handled: false,
        auth_exhausted: h.state.auth_exhausted || !s.manual,
        ..h.state
    };
    ended(
        runtime::logged(
            runtime::notified(runtime::with_state(h, state)),
            "ERROR"@,
            "auth_exhausted"@,
            "automatic_login_stopped=true"@,
        ),
        s,
    )
}

/// The outcome of a submission.
pub open spec fn answered(
    h: HandleModel,
    s: LoginSession,
    attempt: u8,
    outcome: Result<(), AuthError>,
    now: u64,
    clock: Option<u64>,
) -> LoginStep {
    match outcome {
        Ok(_) => succeeded(h, s, clock),
        Err(error) => {
            let kind = error_kind(error);
            let noted = runtime::logged(
                h,
                "ERROR"@,
                "auth_failed"@,
                failure_line(attempt, kind),
            );
            if attempt < AUTH_ATTEMPTS {
                put_off(noted, s, attempt, kind, now)
            } else {
                surrendered(noted, s, kind)
            }
        },
    }
}

/// A look at the network between two attempts.
pub open spec fn watched(
    h: HandleModel,
    s: LoginSession,
    attempt: u8,
    started: u64,
    delay: u64,
    result: ProbeModel,
    now: u64,
    clock: Option<u64>,
) -> LoginStep {
    match result {
        ProbeModel::Online { .. } => ended(
            unhandled(
                runtime::notified(
                    runtime::with_state(h, runtime::online_seen(h.state, "网络正常"@, clock)),
                ),
            ),
            s,
        ),
        _ => match portal::portal_in(s.config, result) {
            Some(found) if clock::since(started, now) >= minimum_delay(attempt) => submitted(
                h,
                s,
                (attempt + 1) as u8,
                found.params,
            ),
            _ => rested(
                h,
                s,
                attempt,
                started,
                clock::least(delay + delay, MAX_RETRY_DELAY as int) as u64,
                now,
            ),
        },
    }
}

/// The end of a sleep: another look, unless the state has moved on.
pub open spec fn roused(
    h: HandleModel,
    s: LoginSession,
    attempt: u8,
    started: u64,
    delay: u64,
) -> LoginStep {
    if runtime::outdated(h.state, s.generation) {
        ended(unhandled(h), s)
    } else {
        (
            h,
            with_phase(s, Phase::Watching { attempt, started, delay }),
            ActionModel::Probe { timeout: RETRY_PROBE_TIMEOUT },
        )
    }
}

pub open spec fn login_begun(h: HandleModel, request: LoginRequest) -> LoginStep {
    let s = LoginSession {
        config: request.config,
        credentials: request.credentials,
        manual: request.manual,
        generation: h.state.generation,
        phase: Phase::Identifying,
    };
    if h.login_flight {
        (
            runtime::logged(
                unhandled(h),
                "INFO"@,
                "login_skipped"@,
                "reason=already_in_progress"@,
            ),
            with_phase(s, Phase::Finished),
            ActionModel::Done,
        )
    } else if h.state.paused || h.state.capture_active {
        (
            runtime::logged(
                unhandled(h),
                "INFO"@,
                "login_skipped"@,
                "reason=paused_or_capture"@,
            ),
            with_phase(s, Phase::Finished),
            ActionModel::Done,
        )
    } else {
        let held = HandleModel { login_flight: true, ..h };
        match request.initial_probe {
            Some(result) => identified(held, s, result@),
            None => (held, s, ActionModel::Probe { timeout: DEFAULT_PROBE_TIMEOUT }),
        }
    }
}

pub open spec fn login_advanced(
    h: HandleModel,
    s: LoginSession,
    event: LoginEvent,
    now: u64,
    clock: Option<u64>,
) -> LoginStep {
    match (s.phase, event) {
        (Phase::Identifying, LoginEvent::Probed(result)) => identified(h, s, result@),
        (Phase::Submitting { attempt }, LoginEvent::Authenticated(outcome)) => answered(
            h,
            s,
            attempt,
            outcome,
            now,
            clock,
        ),
        (Phase::Resting { attempt, started, delay }, LoginEvent::Slept) => roused(
            h,
            s,
            attempt,
            started,
            delay,
        ),
        (Phase::Watching { attempt, started, delay }, LoginEvent::Probed(result)) => watched(
            h,
            s,
            attempt,
            started,
            delay,
            result@,
            now,
            clock,
        ),
        _ => (h, s, ActionModel::Done),
    }
}

/// A step keeps a session within its bounds, and ends it where it says so.
#[verifier::spinoff_prover]
proof fn lemma_advanced(
    h: HandleModel,
    s: LoginSession,
    event: LoginEvent,
    now: u64,
    clock: Option<u64>,
)
    requires
        s.wf(),
        s.expects(event),
    ensures
        login_advanced(h, s, event, now, clock).1.wf(),
        login_advanced(h, s, event, now, clock).2 is Done <==> login_advanced(
            h,
            s,
            event,
            now,
            clock,
        ).1.phase is Finished,
{
}

// ---------------------------------------------------------------------------
// Execution
// ---------------------------------------------------------------------------

/// Begins a login, unless one is under way or the monitor is to be quiet.
pub fn try_login(handle: &mut RuntimeHandle, request: LoginRequest) -> (r: (
    LoginSession,
    LoginAction,
))
    ensures
        r.0.wf(),
        r.1 is Done <==> r.0.phase is Finished,
        (final(handle)@, r.0, r.1@) == login_begun(old(handle)@, request),
{
    let mut session = LoginSession {
        config: request.config,
        credentials: request.credentials,
        manual: request.manual,
        generation: handle.inner.generation,
        phase: Phase::Identifying,
    };
    if handle.login_flight {
        handle.inner.outage_handled = false;
        handle.log("INFO", "login_skipped", "reason=already_in_progress");
        session.phase = Phase::Finished;
        return (session, LoginAction::Done);
    }
    if handle.inner.paused || handle.inner.capture_active {
        // No portal request was attempted; a later tick may look at the outage
        // again.
        handle.inner.outage_handled = false;
        handle.log("INFO", "login_skipped", "reason=paused_or_capture");
        session.phase = Phase::Finished;
        return (session, LoginAction::Done);
    }
    handle.login_flight = true;
    let action = match request.initial_probe {
        Some(result) => session.identify(handle, &result),
        None => LoginAction::Probe { timeout: DEFAULT_PROBE_TIMEOUT },
    };
    (session, action)
}

impl LoginSession {
    fn end(&mut self, handle: &mut RuntimeHandle) -> (action: LoginAction)
        ensures
            (final(handle)@, *final(self), action@) == ended(old(handle)@, *old(self)),
    {
        handle.login_flight = false;
        self.phase = Phase::Finished;
        LoginAction::Done
    }

    fn submit(&mut self, handle: &mut RuntimeHandle, attempt: u8, params: PortalParams) -> (action:
        LoginAction)
        ensures
            (final(handle)@, *final(self), action@) == submitted(
                old(handle)@,
                *old(self),
                attempt,
                params@,
            ),
    {
        if handle.cancelled(self.generation) {
            handle.inner.outage_handled = false;
            handle.log("INFO", "login_cancelled", "reason=state_changed");
            return self.end(handle);
        }
        handle.inner.status = AppStatus::Authenticating { attempt };
        handle.inner.detail = attempt_text(attempt);
        handle.notify_status();
        handle.log("INFO", "auth_attempt", &attempt_log(attempt, self.manual));
        self.phase = Phase::Submitting { attempt };
        LoginAction::Authenticate { attempt, params }
    }

    fn identify(&mut self, handle: &mut RuntimeHandle, result: &ProbeResult) -> (action: LoginAction)
        ensures
            (final(handle)@, *final(self), action@) == identified(
                old(handle)@,
                *old(self),
                result@,
            ),
    {
        match classify(&self.config, result) {
            None => {
                handle.inner.status = AppStatus::Offline;
                handle.inner.detail = "未检测到校园认证门户，未提交凭据".to_string();
                handle.inner.checking = false;
                handle.inner.consecutive_failures = 0;
                // A plain outage may later turn into a captive redirect.
                handle.inner.outage_handled = false;
                handle.notify_status();
                handle.log("INFO", "portal_not_found", "credentials_sent=false");
                self.end(handle)
            },
            Some(found) => {
                handle.inner.status = AppStatus::PortalDetected;
                handle.inner.detail = "已检测到校园认证门户".to_string();
                handle.inner.checking = false;
                handle.notify_status();
                self.submit(handle, 1, found.params)
            },
        }
    }

    fn rest(
        &mut self,
        handle: &mut RuntimeHandle,
        attempt: u8,
        started: u64,
        delay: u64,
        now: u64,
    ) -> (action: LoginAction)
        requires
            1 <= attempt < AUTH_ATTEMPTS,
        ensures
            (final(handle)@, *final(self), action@) == rested(
                old(handle)@,
                *old(self),
                attempt,
                started,
                delay,
                now,
            ),
    {
        let budget: u64 = AUTH_RETRY_BUDGETS[(attempt - 1) as usize];
        let elapsed: u64 = now.saturating_sub(started);
        if handle.cancelled(self.generation) || elapsed >= budget {
            // Past the deadline the portal has disappeared or the route stayed
            // unusable: the monitor looks for a fresh portal instead of
            // replaying stale parameters.
            handle.inner.outage_handled = false;
            return self.end(handle);
        }
        self.phase = Phase::Resting { attempt, started, delay };
        LoginAction::Sleep(shorter(delay, budget - elapsed))
    }

    fn succeed(&mut self, handle: &mut RuntimeHandle, clock: Option<u64>) -> (action: LoginAction)
        ensures
            (final(handle)@, *final(self), action@) == succeeded(old(handle)@, *old(self), clock),
    {
        if handle.cancelled(self.generation) {
            handle.inner.outage_handled = false;
            return self.end(handle);
        }
        handle.set_online("登录成功，网络已恢复", clock);
        handle.inner.last_error = None;
        handle.notify_status();
        handle.log("INFO", "auth_success", "verified=true");
        self.end(handle)
    }

    fn put_off(&mut self, handle: &mut RuntimeHandle, attempt: u8, kind: &str, now: u64) -> (action:
        LoginAction)
        requires
            1 <= attempt < AUTH_ATTEMPTS,
        ensures
            (final(handle)@, *final(self), action@) == put_off(
                old(handle)@,
                *old(self),
                attempt,
                kind@,
                now,
            ),
    {
        let budget: u64 = AUTH_RETRY_BUDGETS[(attempt - 1) as usize];
        handle.inner.status = AppStatus::WaitingToRetry { seconds: budget / SECOND };
        handle.inner.detail = "登录失败，等待网络恢复后重试".to_string();
        handle.inner.checking = false;
        handle.inner.last_error = Some(kind.to_string());
        handle.notify_status();
        self.rest(handle, attempt, now, FIRST_RETRY_DELAY, now)
    }

    fn surrender(&mut self, handle: &mut RuntimeHandle, kind: &str) -> (action: LoginAction)
        ensures
            (final(handle)@, *final(self), action@) == surrendered(
                old(handle)@,
                *old(self),
                kind@,
            ),
    {
        handle.inner.status = AppStatus::NeedsAttention;
        handle.inner.detail = "自动登录已停止，请检查配置或手动登录".to_string();
        handle.inner.checking = false;
        handle.inner.last_error = Some(kind.to_string());
        // The monitor goes on probing, so that a later online result can clear
        // the exhausted flag; it still cannot start another automatic login
        // while that flag is set.
        handle.inner.outage_handled = false;
        if !self.manual {
            handle.inner.auth_exhausted = true;
        }
        handle.notify_status();
        handle.log("ERROR", "auth_exhausted", "automatic_login_stopped=true");
        self.end(handle)
    }

    fn answer(
        &mut self,
        handle: &mut RuntimeHandle,
        attempt: u8,
        outcome: Result<(), AuthError>,
        now: u64,
        clock: Option<u64>,
    ) -> (action: LoginAction)
        requires
            1 <= attempt <= AUTH_ATTEMPTS,
        ensures
            (final(handle)@, *final(self), action@) == answered(
                old(handle)@,
                *old(self),
                attempt,
                outcome,
                now,
                clock,
            ),
    {
        match outcome {
            Ok(_) => self.succeed(handle, clock),
            Err(error) => {
                let kind = auth_error_kind(&error);
                handle.log("ERROR", "auth_failed", &failure_log(attempt, kind));
                if attempt < AUTH_ATTEMPTS {
                    self.put_off(handle, attempt, kind, now)
                } else {
                    self.surrender(handle, kind)
                }
            },
        }
    }

    fn rouse(&mut self, handle: &mut RuntimeHandle, attempt: u8, started: u64, delay: u64) -> (action:
        LoginAction)
        ensures
            (final(handle)@, *final(self), action@) == roused(
                old(handle)@,
                *old(self),
                attempt,
                started,
                delay,
            ),
    {
        if handle.cancelled(self.generation) {
            handle.inner.outage_handled = false;
            return self.end(handle);
        }
        self.phase = Phase::Watching { attempt, started, delay };
        LoginAction::Probe { timeout: RETRY_PROBE_TIMEOUT }
    }

    fn watch(
        &mut self,
        handle: &mut RuntimeHandle,
        attempt: u8,
        started: u64,
        delay: u64,
        result: &ProbeResult,
        now: u64,
        clock: Option<u64>,
    ) -> (action: LoginAction)
        requires
            1 <= attempt < AUTH_ATTEMPTS,
            delay <= MAX_RETRY_DELAY,
        ensures
            (final(handle)@, *final(self), action@) == watched(
                old(handle)@,
                *old(self),
                attempt,
                started,
                delay,
                result@,
                now,
                clock,
            ),
    {
        if let ProbeResult::Online { .. } = result {
            handle.set_online("网络正常", clock);
            handle.notify_status();
            handle.inner.outage_handled = false;
            return self.end(handle);
        }
        let shortest: u64 = attempt as u64 * 2 * SECOND;
        if now.saturating_sub(started) >= shortest {
            if let Some(found) = classify(&self.config, result) {
                // The portal is still there: try again with its newest
                // parameters instead of waiting for the entire budget.
                return self.submit(handle, attempt + 1, found.params);
            }
        }
        self.rest(handle, attempt, started, shorter(delay + delay, MAX_RETRY_DELAY), now)
    }

    /// Takes the outcome of what was asked for last and says what comes next.
    /// `now` is a reading of the monotonic clock in nanoseconds, `clock` the
    /// seconds since the epoch.
    #[verifier::spinoff_prover]
    pub fn advance(
        &mut self,
        handle: &mut RuntimeHandle,
        event: LoginEvent,
        now: u64,
        clock: Option<u64>,
    ) -> (action: LoginAction)
        requires
            old(self).wf(),
            old(self).expects(event),
        ensures
            final(self).wf(),
            action is Done <==> final(self).phase is Finished,
            (final(handle)@, *final(self), action@) == login_advanced(
                old(handle)@,
                *old(self),
                event,
                now,
                clock,
            ),
    {
        proof {
            lemma_advanced(handle@, *self, event, now, clock);
        }
        match (self.phase, event) {
            (Phase::Identifying, LoginEvent::Probed(result)) => self.identify(handle, &result),
            (Phase::Submitting { attempt }, LoginEvent::Authenticated(outcome)) => self.answer(
                handle,
                attempt,
                outcome,
                now,
                clock,
            ),
            (Phase::Resting { attempt, started, delay }, LoginEvent::Slept) => self.rouse(
                handle,
                attempt,
                started,
                delay,
            ),
            (Phase::Watching { attempt, started, delay }, LoginEvent::Probed(result)) => self.watch(
                handle,
                attempt,
                started,
                delay,
                &result,
                now,
                clock,
            ),
            _ => LoginAction::Done,
        }
    }
}

// ---------------------------------------------------------------------------
// Laws
// ---------------------------------------------------------------------------

/// Credentials are submitted only in answer to a probe in which the configured
/// portal showed itself, and with the parameters of that very probe.
pub proof fn credentials_follow_a_recognised_portal(
    h: HandleModel,
    s: LoginSession,
    request: LoginRequest,
    event: LoginEvent,
    now: u64,
    clock: Option<u64>,
)
    ensures
        login_begun(h, request).2 matches ActionModel::Authenticate { params, .. } ==> {
            &&& request.initial_probe matches Some(result)
            &&& portal::portal_in(request.config, result@) matches Some(found)
            &&& found.params == params
        },
        login_advanced(h, s, event, now, clock).2 matches ActionModel::Authenticate { params, .. }
            ==> {
            &&& event matches LoginEvent::Probed(result)
            &&& portal::portal_in(s.config, result@) matches Some(found)
            &&& found.params == params
        },
{
}

/// Attempts are counted: the first is number one, each later one is one more,
/// and none follows the third.
pub proof fn attempts_are_counted(
    h: HandleModel,
    s: LoginSession,
    request: LoginRequest,
    event: LoginEvent,
    now: u64,
    clock: Option<u64>,
)
    requires
        s.wf(),
        s.expects(event),
    ensures
        login_begun(h, request).2 matches ActionModel::Authenticate { attempt, .. } ==> attempt
            == 1,
        login_advanced(h, s, event, now, clock).2 matches ActionModel::Authenticate {
            attempt,
            ..
        } ==> {
            &&& 1 <= attempt <= AUTH_ATTEMPTS
            &&& match s.phase {
                Phase::Identifying => attempt == 1,
                Phase::Watching { attempt: previous, .. } => attempt == previous + 1,
                _ => false,
            }
        },
        s.phase matches Phase::Submitting { attempt } ==> attempt == AUTH_ATTEMPTS ==> (
        login_advanced(h, s, event, now, clock).2 is Done),
{
}

/// One input to a session: the state of the monitor at that moment, which
/// others may have changed meanwhile, and what came back.
pub struct LoginInput {
    pub handle: HandleModel,
    pub event: LoginEvent,
    pub now: u64,
    pub clock: Option<u64>,
}

/// How often a session submits in the course of the inputs.
pub open spec fn submissions(s: LoginSession, inputs: Seq<LoginInput>) -> nat
    decreases inputs.len(),
{
    if inputs.len() == 0 || !s.expects(inputs[0].event) {
        0
    } else {
        let input = inputs[0];
        let (_, next, action) = login_advanced(
            input.handle,
            s,
            input.event,
            input.now,
            input.clock,
        );
        (if action is Authenticate {
            1nat
        } else {
            0
        }) + submissions(next, inputs.drop_first())
    }
}

/// The attempts that a session has left.
pub open spec fn attempts_left(s: LoginSession) -> int {
    match s.phase {
        Phase::Identifying => AUTH_ATTEMPTS as int,
        Phase::Submitting { attempt } => AUTH_ATTEMPTS - attempt,
        Phase::Resting { attempt, .. } => AUTH_ATTEMPTS - attempt,
        Phase::Watching { attempt, .. } => AUTH_ATTEMPTS - attempt,
        Phase::Finished => 0,
    }
}

/// Whatever comes in and whatever happens to the monitor meanwhile, a session
/// submits the credentials no more often than it has attempts left: three
/// times from its start.
pub proof fn submissions_are_bounded(s: LoginSession, inputs: Seq<LoginInput>)
    requires
        s.wf(),
    ensures
        submissions(s, inputs) <= attempts_left(s) <= AUTH_ATTEMPTS,
    decreases inputs.len(),
{
    if inputs.len() > 0 && s.expects(inputs[0].event) {
        let input = inputs[0];
        let (_, next, action) = login_advanced(
            input.handle,
            s,
            input.event,
            input.now,
            input.clock,
        );
        submissions_are_bounded(next, inputs.drop_first());
    }
}

/// A session keeps its configuration, credentials and kind to its end.
pub proof fn session_keeps_its_request(
    h: HandleModel,
    s: LoginSession,
    event: LoginEvent,
    now: u64,
    clock: Option<u64>,
)
    ensures
        ({
            let t = login_advanced(h, s, event, now, clock).1;
            t.config == s.config && t.credentials == s.credentials && t.manual == s.manual
                && t.generation == s.generation
        }),
{
}

/// Once the monitor is paused, capturing or reconfigured, whatever comes in
/// ends the login: nothing more is submitted, probed or waited for.
pub proof fn changed_state_ends_the_login(
    h: HandleModel,
    s: LoginSession,
    event: LoginEvent,
    now: u64,
    clock: Option<u64>,
)
    requires
        s.expects(event),
        runtime::outdated(h.state, s.generation),
    ensures
        login_advanced(h, s, event, now, clock).2 is Done,
{
}

/// One login at a time: a second one is turned away; a login holds the flight
/// from its start until it is done.
pub proof fn one_login_at_a_time(
    h: HandleModel,
    s: LoginSession,
    request: LoginRequest,
    event: LoginEvent,
    now: u64,
    clock: Option<u64>,
)
    requires
        s.expects(event),
    ensures
        h.login_flight ==> login_begun(h, request).2 is Done && login_begun(h, request).0.login_flight,
        !h.login_flight ==> login_begun(h, request).0.login_flight == !(login_begun(h, request).2
            is Done),
        h.login_flight ==> login_advanced(h, s, event, now, clock).0.login_flight == !(
        login_advanced(h, s, event, now, clock).2 is Done),
{
}

/// A login that is over leaves the outage to the monitor again.
pub proof fn finished_login_frees_the_monitor(
    h: HandleModel,
    s: LoginSession,
    request: LoginRequest,
    event: LoginEvent,
    now: u64,
    clock: Option<u64>,
)
    requires
        s.expects(event),
    ensures
        login_begun(h, request).2 is Done ==> !login_begun(h, request).0.state.outage_handled,
        login_advanced(h, s, event, now, clock).2 is Done ==> !login_advanced(
            h,
            s,
            event,
            now,
            clock,
        ).0.state.outage_handled,
{
}

/// Sleeps are short and never reach beyond the time for retries; a retry comes
/// no sooner than the smallest delay after the failure.
pub proof fn retries_keep_their_bounds(
    h: HandleModel,
    s: LoginSession,
    event: LoginEvent,
    now: u64,
    clock: Option<u64>,
)
    requires
        s.wf(),
        s.expects(event),
    ensures
        login_advanced(h, s, event, now, clock).2 matches ActionModel::Sleep(delay) ==> {
            &&& 0 < delay <= MAX_RETRY_DELAY
            &&& login_advanced(h, s, event, now, clock).1.phase matches Phase::Resting {
                attempt,
                started,
                ..
            }
            &&& clock::since(started, now) + delay <= retry_budget(attempt)
        },
        s.phase matches Phase::Watching { attempt, started, .. } ==> (login_advanced(
            h,
            s,
            event,
            now,
            clock,
        ).2 is Authenticate ==> clock::since(started, now) >= minimum_delay(attempt)),
{
}

/// Automatic login is used up by the third failure of an automatic login, and
/// by nothing else.
pub proof fn exhaustion_has_one_cause(
    h: HandleModel,
    s: LoginSession,
    event: LoginEvent,
    now: u64,
    clock: Option<u64>,
)
    requires
        s.expects(event),
        !h.state.auth_exhausted,
    ensures
        login_advanced(h, s, event, now, clock).0.state.auth_exhausted <==> {
            &&& s.phase matches Phase::Submitting { attempt }
            &&& attempt >= AUTH_ATTEMPTS
            &&& event matches LoginEvent::Authenticated(outcome)
            &&& outcome is Err
            &&& !s.manual
        },
{
}

/// Without the portal a login ends at once, says that nothing was sent, and
/// shows the outage.
pub proof fn no_portal_no_submission(
    h: HandleModel,
    s: LoginSession,
    result: ProbeResult,
    now: u64,
    clock: Option<u64>,
)
    requires
        s.phase is Identifying,
        portal::portal_in(s.config, result@) is None,
    ensures
        login_advanced(h, s, LoginEvent::Probed(result), now, clock).2 is Done,
        login_advanced(h, s, LoginEvent::Probed(result), now, clock).0.state.status is Offline,
        login_advanced(h, s, LoginEvent::Probed(result), now, clock).0.outbox.last() == (
        runtime::EffectModel::Log {
            level: "INFO"@,
            event: "portal_not_found"@,
            detail: "credentials_sent=false"@,
        }),
{
}

/// A portal that the monitor sees is acted upon: the login that it starts
/// submits at once, with the parameters that it saw, unless another login is
/// under way.
pub proof fn seen_portal_is_acted_upon(
    h: HandleModel,
    pending: runtime::PendingProbe,
    result: ProbeResult,
    clock: Option<u64>,
)
    requires
        runtime::tick_ended(h, pending, result@, clock).1.login,
        !h.login_flight,
    ensures
        ({
            let request = LoginRequest {
                config: pending.config,
                credentials: pending.credentials,
                manual: false,
                initial_probe: Some(result),
            };
            let after = runtime::tick_ended(h, pending, result@, clock).0;
            &&& portal::portal_in(pending.config, result@) matches Some(found)
            &&& login_begun(after, request).2 == (ActionModel::Authenticate {
                attempt: 1,
                params: found.params,
            })
        }),
{
}

/// A login keeps the monitor's state consistent.
pub proof fn login_stays_consistent(
    h: HandleModel,
    s: LoginSession,
    request: LoginRequest,
    event: LoginEvent,
    now: u64,
    clock: Option<u64>,
)
    requires
        runtime::consistent(h.state),
    ensures
        runtime::consistent(login_begun(h, request).0.state),
        runtime::consistent(login_advanced(h, s, event, now, clock).0.state),
{
}

// ---------------------------------------------------------------------------
// What a login is for
// ---------------------------------------------------------------------------

/// What no step of a login touches beside the status: the setup, the pause, the
/// capture, the generation and the time of the last check; and what it has put
/// into the outbox before stays there.
pub open spec fn left_alone(h: HandleModel, g: HandleModel) -> bool {
    &&& g.logger == h.logger
    &&& g.monitor_started == h.monitor_started
    &&& g.status_notifier == h.status_notifier
    &&& g.setup_cache == h.setup_cache
    &&& g.monitor_wakeup == h.monitor_wakeup
    &&& g.state.paused == h.state.paused
    &&& g.state.capture_active == h.state.capture_active
    &&& g.state.generation == h.state.generation
    &&& g.state.last_check == h.state.last_check
    &&& h.outbox.len() <= g.outbox.len()
    &&& forall|k: int| 0 <= k < h.outbox.len() ==> g.outbox[k] == #[trigger] h.outbox[k]
}

/// Whatever a login does, it leaves the rest of the monitor alone.
pub proof fn logins_leave_the_rest_alone(
    h: HandleModel,
    s: LoginSession,
    request: LoginRequest,
    event: LoginEvent,
    now: u64,
    clock: Option<u64>,
)
    ensures
        left_alone(h, login_begun(h, request).0),
        left_alone(h, login_advanced(h, s, event, now, clock).0),
{
    match request.initial_probe {
        Some(result) => {
            let held = HandleModel { login_flight: true, ..h };
            lemma_identified_alone(
                held,
                LoginSession {
                    config: request.config,
                    credentials: request.credentials,
                    manual: request.manual,
                    generation: h.state.generation,
                    phase: Phase::Identifying,
                },
                result@,
            );
        },
        None => {},
    }
    match (s.phase, event) {
        (Phase::Identifying, LoginEvent::Probed(result)) => {
            lemma_identified_alone(h, s, result@);
        },
        (Phase::Submitting { attempt }, LoginEvent::Authenticated(outcome)) => {
            lemma_answered_alone(h, s, attempt, outcome, now, clock);
        },
        (Phase::Watching { attempt, started, delay }, LoginEvent::Probed(result)) => {
            lemma_watched_alone(h, s, attempt, started, delay, result@, now, clock);
        },
        _ => {},
    }
}

proof fn lemma_identified_alone(h: HandleModel, s: LoginSession, result: ProbeModel)
    ensures
        left_alone(h, identified(h, s, result).0),
{
}

proof fn lemma_answered_alone(
    h: HandleModel,
    s: LoginSession,
    attempt: u8,
    outcome: Result<(), AuthError>,
    now: u64,
    clock: Option<u64>,
)
    ensures
        left_alone(h, answered(h, s, attempt, outcome, now, clock).0),
{
}

proof fn lemma_watched_alone(
    h: HandleModel,
    s: LoginSession,
    attempt: u8,
    started: u64,
    delay: u64,
    result: ProbeModel,
    now: u64,
    clock: Option<u64>,
)
    ensures
        left_alone(h, watched(h, s, attempt, started, delay, result, now, clock).0),
{
}

/// The log entry at `k`.
pub open spec fn entry(
    h: HandleModel,
    k: int,
    level: Seq<char>,
    event: Seq<char>,
    detail: Seq<char>,
) -> bool {
    0 <= k < h.outbox.len() && h.outbox[k] == (runtime::EffectModel::Log { level, event, detail })
}

/// The kinds of errors, as they are shown and logged.
pub proof fn error_kinds_are_these(error: AuthError)
    ensures
        match error {
            AuthError::Transport(_) => error_kind(error) == "transport"@,
            AuthError::Protocol(_) => error_kind(error) == "protocol"@,
            AuthError::VerifyFailed => error_kind(error) == "verify_failed"@,
        },
{
}

/// A failed submission that is not the third is put off, whatever the kind of
/// error: the status says for how many seconds the network is watched, the kind
/// of the error is shown and logged, and the session rests a quarter of a
/// second with its attempt in mind.
pub proof fn failed_attempts_are_put_off(
    h: HandleModel,
    s: LoginSession,
    attempt: u8,
    error: AuthError,
    now: u64,
    clock: Option<u64>,
)
    requires
        runtime::still_wanted(h, s.generation),
        s.phase == (Phase::Submitting { attempt }),
        attempt == 1 || attempt == 2,
    ensures
        ({
            let (g, t, action) = login_advanced(
                h,
                s,
                LoginEvent::Authenticated(Err(error)),
                now,
                clock,
            );
            let kind = match error {
                AuthError::Transport(_) => "transport"@,
                AuthError::Protocol(_) => "protocol"@,
                AuthError::VerifyFailed => "verify_failed"@,
            };
            &&& g.state.status == (AppStatus::WaitingToRetry {
                seconds: if attempt == 1 {
                    10
                } else {
                    30
                },
            })
            &&& g.state.detail == "登录失败，等待网络恢复后重试"@
            &&& !g.state.checking
            &&& g.state.last_error == Some(kind)
            &&& g.state.outage_handled == h.state.outage_handled
            &&& g.state.auth_exhausted == h.state.auth_exhausted
            &&& g.state.last_success == h.state.last_success
            &&& g.login_flight == h.login_flight
            &&& action == ActionModel::Sleep(250_000_000)
            &&& t == (LoginSession {
                phase: Phase::Resting { attempt, started: now, delay: 250_000_000 },
                ..s
            })
            &&& entry(
                g,
                h.outbox.len() as int,
                "ERROR"@,
                "auth_failed"@,
                "attempt="@ + text::decimal(attempt as nat) + " kind="@ + kind,
            )
            &&& h.status_notifier ==> g.outbox.len() == h.outbox.len() + 2 && g.outbox.last()
                == runtime::EffectModel::Notify(runtime::snapshot(g.state))
        }),
{
}

/// The third failure ends the login: attention is asked for, the error is shown
/// and logged, and an automatic login is not tried again by itself.
pub proof fn third_failure_is_the_last(
    h: HandleModel,
    s: LoginSession,
    error: AuthError,
    now: u64,
    clock: Option<u64>,
)
    requires
        s.phase == (Phase::Submitting { attempt: 3 }),
    ensures
        ({
            let (g, t, action) = login_advanced(
                h,
                s,
                LoginEvent::Authenticated(Err(error)),
                now,
                clock,
            );
            let kind = match error {
                AuthError::Transport(_) => "transport"@,
                AuthError::Protocol(_) => "protocol"@,
                AuthError::VerifyFailed => "verify_failed"@,
            };
            &&& action is Done
            &&& t.phase is Finished
            &&& g.state.status is NeedsAttention
            &&& g.state.detail == "自动登录已停止，请检查配置或手动登录"@
            &&& !g.state.checking
            &&& g.state.last_error == Some(kind)
            &&& !g.state.outage_handled
            &&& g.state.auth_exhausted == (h.state.auth_exhausted || !s.manual)
            &&& g.state.last_success == h.state.last_success
            &&& !g.login_flight
            &&& entry(
                g,
                h.outbox.len() as int,
                "ERROR"@,
                "auth_failed"@,
                "attempt="@ + text::decimal(3) + " kind="@ + kind,
            )
            &&& entry(
                g,
                g.outbox.len() - 1,
                "ERROR"@,
                "auth_exhausted"@,
                "automatic_login_stopped=true"@,
            )
            &&& h.status_notifier ==> g.outbox.len() == h.outbox.len() + 3 && g.outbox[(
            h.outbox.len() + 1) as int] == runtime::EffectModel::Notify(runtime::snapshot(g.state))
        }),
{
}

/// A submission that succeeded ends the login with the connection shown as
/// working and no error left.
pub proof fn success_ends_the_login(
    h: HandleModel,
    s: LoginSession,
    attempt: u8,
    now: u64,
    seconds: u64,
)
    requires
        runtime::still_wanted(h, s.generation),
        s.phase == (Phase::Submitting { attempt }),
    ensures
        ({
            let (g, t, action) = login_advanced(
                h,
                s,
                LoginEvent::Authenticated(Ok(())),
                now,
                Some(seconds),
            );
            &&& action is Done
            &&& t.phase is Finished
            &&& !g.login_flight
            &&& g.state.status is Online
            &&& g.state.detail == "登录成功，网络已恢复"@
            &&& !g.state.checking
            &&& g.state.last_error is None
            &&& g.state.last_success == Some(text::decimal(seconds as nat))
            &&& g.state.consecutive_failures == 0
            &&& !g.state.auth_exhausted && !g.state.outage_handled
            &&& entry(g, g.outbox.len() - 1, "INFO"@, "auth_success"@, "verified=true"@)
            &&& h.status_notifier ==> g.outbox.len() == h.outbox.len() + 2
                && g.outbox[h.outbox.len() as int] == runtime::EffectModel::Notify(
                runtime::snapshot(g.state),
            )
        }),
{
}

/// After a rest the network is looked at, with three quarters of a second for
/// each request, and the session keeps in mind what it waits for.
pub proof fn rests_end_with_a_look(
    h: HandleModel,
    s: LoginSession,
    attempt: u8,
    started: u64,
    delay: u64,
    now: u64,
    clock: Option<u64>,
)
    requires
        runtime::still_wanted(h, s.generation),
        s.phase == (Phase::Resting { attempt, started, delay }),
    ensures
        ({
            let (g, t, action) = login_advanced(h, s, LoginEvent::Slept, now, clock);
            &&& g == h
            &&& action == (ActionModel::Probe { timeout: 750_000_000 })
            &&& t == (LoginSession { phase: Phase::Watching { attempt, started, delay }, ..s })
        }),
{
}

/// A connection that comes back by itself ends the login, and is shown.
pub proof fn returned_connection_ends_the_login(
    h: HandleModel,
    s: LoginSession,
    result: ProbeResult,
    now: u64,
    seconds: u64,
)
    requires
        s.phase is Watching,
        result@ is Online,
    ensures
        ({
            let (g, t, action) = login_advanced(
                h,
                s,
                LoginEvent::Probed(result),
                now,
                Some(seconds),
            );
            &&& action is Done
            &&& t.phase is Finished
            &&& !g.login_flight
            &&& g.state.status is Online
            &&& g.state.detail == "网络正常"@
            &&& !g.state.checking
            &&& g.state.last_success == Some(text::decimal(seconds as nat))
            &&& g.state.last_error == h.state.last_error
            &&& g.state.consecutive_failures == 0
            &&& !g.state.auth_exhausted && !g.state.outage_handled
            &&& h.status_notifier ==> g.outbox == h.outbox.push(
                runtime::EffectModel::Notify(runtime::snapshot(g.state)),
            )
            &&& !h.status_notifier ==> g.outbox == h.outbox
        }),
{
}

/// What a submission looks like: the attempt is shown and logged, and the
/// parameters go out with it.
pub open spec fn submits(
    h: HandleModel,
    s: LoginSession,
    step: LoginStep,
    attempt: u8,
    params: ParamsModel,
) -> bool {
    let (g, t, action) = step;
    &&& action == (ActionModel::Authenticate { attempt, params })
    &&& t == (LoginSession { phase: Phase::Submitting { attempt }, ..s })
    &&& g.state.status == (AppStatus::Authenticating { attempt })
    &&& g.state.detail == "正在登录（"@ + text::decimal(attempt as nat) + "/"@ + text::decimal(3)
        + "）"@
    &&& g.state.last_error == h.state.last_error
    &&& g.state.last_success == h.state.last_success
    &&& g.state.outage_handled == h.state.outage_handled
    &&& g.state.auth_exhausted == h.state.auth_exhausted
    &&& g.state.consecutive_failures == h.state.consecutive_failures
    &&& entry(
        g,
        g.outbox.len() - 1,
        "INFO"@,
        "auth_attempt"@,
        "attempt="@ + text::decimal(attempt as nat) + if s.manual {
            " manual=true"@
        } else {
            " manual=false"@
        },
    )
    &&& h.status_notifier ==> g.outbox[g.outbox.len() - 2] == runtime::EffectModel::Notify(
        runtime::snapshot(g.state),
    )
}

proof fn lemma_attempt_line(attempt: u8, manual: bool)
    ensures
        attempt_line(attempt, manual) == "attempt="@ + text::decimal(attempt as nat) + if manual {
            " manual=true"@
        } else {
            " manual=false"@
        },
{
    reveal_strlit(" ");
    reveal_strlit("=");
    reveal_strlit("true");
    reveal_strlit("false");
    reveal_strlit("manual");
    reveal_strlit(" manual=true");
    reveal_strlit(" manual=false");
    assert(" "@ + runtime::flag_text("manual"@, true) =~= " manual=true"@);
    assert(" "@ + runtime::flag_text("manual"@, false) =~= " manual=false"@);
    assert(attempt_line(attempt, manual) =~= "attempt="@ + text::decimal(attempt as nat) + if manual {
        " manual=true"@
    } else {
        " manual=false"@
    });
}

/// A portal that the first look shows is submitted to at once, as the first
/// attempt and with the parameters that were seen.
pub proof fn shown_portal_is_submitted_to(
    h: HandleModel,
    s: LoginSession,
    result: ProbeResult,
    now: u64,
    clock: Option<u64>,
)
    requires
        runtime::still_wanted(h, s.generation),
        s.phase is Identifying,
        portal::portal_in(s.config, result@) is Some,
    ensures
        ({
            let step = login_advanced(h, s, LoginEvent::Probed(result), now, clock);
            &&& submits(h, s, step, 1, portal::portal_in(s.config, result@)->0.params)
            &&& !step.0.state.checking
            &&& step.0.login_flight == h.login_flight
            &&& h.status_notifier ==> {
                &&& step.0.outbox.len() == h.outbox.len() + 3
                &&& step.0.outbox[h.outbox.len() as int] matches runtime::EffectModel::Notify(view)
                &&& view.status is PortalDetected && view.detail == "已检测到校园认证门户"@
                &&& !view.checking
            }
        }),
{
    lemma_attempt_line(1, s.manual);
}

/// Without the portal nothing is submitted: the outage is shown and left to the
/// monitor.
pub proof fn missing_portal_is_left_to_the_monitor(
    h: HandleModel,
    s: LoginSession,
    result: ProbeResult,
    now: u64,
    clock: Option<u64>,
)
    requires
        s.phase is Identifying,
        portal::portal_in(s.config, result@) is None,
    ensures
        ({
            let (g, t, action) = login_advanced(h, s, LoginEvent::Probed(result), now, clock);
            &&& action is Done
            &&& t.phase is Finished
            &&& !g.login_flight
            &&& g.state.status is Offline
            &&& g.state.detail == "未检测到校园认证门户，未提交凭据"@
            &&& !g.state.checking
            &&& g.state.consecutive_failures == 0
            &&& !g.state.outage_handled
            &&& g.state.auth_exhausted == h.state.auth_exhausted
            &&& g.state.last_error == h.state.last_error
            &&& g.state.last_success == h.state.last_success
            &&& h.status_notifier ==> g.outbox[h.outbox.len() as int]
                == runtime::EffectModel::Notify(runtime::snapshot(g.state))
        }),
{
}

/// The time that a failed attempt allows for watching the network, and the time
/// before which it is not submitted again, in nanoseconds.
pub open spec fn watched_for(attempt: u8) -> int {
    if attempt == 1 {
        10_000_000_000
    } else {
        30_000_000_000
    }
}

pub open spec fn withheld_for(attempt: u8) -> int {
    if attempt == 1 {
        2_000_000_000
    } else {
        4_000_000_000
    }
}

/// A portal that is still there once the smallest delay has passed is submitted
/// to again, with its newest parameters and as the next attempt.
pub proof fn lasting_portal_is_tried_again(
    h: HandleModel,
    s: LoginSession,
    attempt: u8,
    started: u64,
    delay: u64,
    result: ProbeResult,
    now: u64,
    clock: Option<u64>,
)
    requires
        runtime::still_wanted(h, s.generation),
        s.phase == (Phase::Watching { attempt, started, delay }),
        attempt == 1 || attempt == 2,
        portal::portal_in(s.config, result@) is Some,
        now >= started + withheld_for(attempt),
    ensures
        submits(
            h,
            s,
            login_advanced(h, s, LoginEvent::Probed(result), now, clock),
            (attempt + 1) as u8,
            portal::portal_in(s.config, result@)->0.params,
        ),
{
    portal::only_redirects_show_a_portal(s.config, result@);
    lemma_attempt_line((attempt + 1) as u8, s.manual);
}

/// Else the network is watched on while the time allows it, with pauses that
/// double up to two seconds and never go beyond the end; after that the outage
/// is left to the monitor.
pub proof fn watching_goes_on_for_its_time(
    h: HandleModel,
    s: LoginSession,
    attempt: u8,
    started: u64,
    delay: u64,
    result: ProbeResult,
    now: u64,
    clock: Option<u64>,
)
    requires
        runtime::still_wanted(h, s.generation),
        s.phase == (Phase::Watching { attempt, started, delay }),
        attempt == 1 || attempt == 2,
        250_000_000 <= delay <= 2_000_000_000,
        !(result@ is Online),
        portal::portal_in(s.config, result@) is None || now < started + withheld_for(attempt),
        started <= now,
    ensures
        ({
            let (g, t, action) = login_advanced(h, s, LoginEvent::Probed(result), now, clock);
            let next = if delay <= 1_000_000_000 {
                2 * delay
            } else {
                2_000_000_000
            };
            let left = started + watched_for(attempt) - now;
            &&& left > 0 ==> {
                &&& g == h
                &&& action matches ActionModel::Sleep(pause) && pause == if next <= left {
                    next
                } else {
                    left
                }
                &&& t.phase matches Phase::Resting { attempt: a, started: b, delay: c } && a
                    == attempt && b == started && c == next
            }
            &&& left <= 0 ==> {
                &&& action is Done
                &&& t.phase is Finished
                &&& !g.login_flight
                &&& !g.state.outage_handled
                &&& g.state.status == h.state.status
                &&& g.state.last_error == h.state.last_error
                &&& g.outbox == h.outbox
            }
        }),
{
}

/// Whatever comes in when the login is no longer wanted, it ends: nothing is
/// submitted, the flight is given back and the outage left to the monitor. A
/// success does not change what is shown then.
pub proof fn unwanted_logins_end(
    h: HandleModel,
    s: LoginSession,
    event: LoginEvent,
    now: u64,
    clock: Option<u64>,
)
    requires
        s.expects(event),
        !runtime::still_wanted(h, s.generation),
    ensures
        ({
            let (g, t, action) = login_advanced(h, s, event, now, clock);
            &&& action is Done
            &&& t.phase is Finished
            &&& !g.login_flight
            &&& !g.state.outage_handled
            &&& (s.phase is Resting || (event matches LoginEvent::Authenticated(outcome)
                && outcome is Ok)) ==> g.state.status == h.state.status && g.outbox == h.outbox
            &&& (s.phase is Identifying && (event matches LoginEvent::Probed(result)
                && portal::portal_in(s.config, result@) is Some)) ==> entry(
                g,
                g.outbox.len() - 1,
                "INFO"@,
                "login_cancelled"@,
                "reason=state_changed"@,
            )
        }),
{
}

/// A login that may start: with the request's configuration and credentials,
/// for the state as it is, from the reply at hand or with a probe of two
/// seconds.
pub proof fn logins_start_from_the_request(h: HandleModel, request: LoginRequest)
    requires
        !h.login_flight,
        !h.state.paused && !h.state.capture_active,
    ensures
        ({
            let (g, s, action) = login_begun(h, request);
            let first = LoginSession {
                config: request.config,
                credentials: request.credentials,
                manual: request.manual,
                generation: h.state.generation,
                phase: Phase::Identifying,
            };
            &&& s.config == request.config && s.credentials == request.credentials
            &&& s.manual == request.manual
            &&& runtime::still_wanted(h, s.generation)
            &&& request.initial_probe is None ==> {
                &&& s.phase is Identifying
                &&& action == (ActionModel::Probe { timeout: 2_000_000_000 })
                &&& g == (HandleModel { login_flight: true, ..h })
            }
            &&& request.initial_probe matches Some(result) ==> (g, s, action) == login_advanced(
                HandleModel { login_flight: true, ..h },
                first,
                LoginEvent::Probed(result),
                0,
                None,
            )
        }),
{
}

/// A login that may not start says why, and leaves the outage to the monitor.
pub proof fn refused_logins_say_why(h: HandleModel, request: LoginRequest)
    requires
        h.login_flight || h.state.paused || h.state.capture_active,
    ensures
        ({
            let (g, s, action) = login_begun(h, request);
            &&& action is Done
            &&& s.phase is Finished
            &&& g.login_flight == h.login_flight
            &&& !g.state.outage_handled
            &&& g.state.status == h.state.status
            &&& g.state.auth_exhausted == h.state.auth_exhausted
            &&& g.outbox.len() == h.outbox.len() + 1
            &&& entry(
                g,
                h.outbox.len() as int,
                "INFO"@,
                "login_skipped"@,
                if h.login_flight {
                    "reason=already_in_progress"@
                } else {
                    "reason=paused_or_capture"@
                },
            )
        }),
{
}

/// A login makes three attempts, watches ten and thirty seconds after the first
/// two, and rests a quarter of a second to two seconds.
pub proof fn login_bounds_are_these()
    ensures
        AUTH_ATTEMPTS == 3,
        retry_budget(1) == 10_000_000_000,
        retry_budget(2) == 30_000_000_000,
        minimum_delay(1) == 2_000_000_000,
        minimum_delay(2) == 4_000_000_000,
        FIRST_RETRY_DELAY == 250_000_000,
        MAX_RETRY_DELAY == 2_000_000_000,
        RETRY_PROBE_TIMEOUT == 750_000_000,
{
}

/// An action is seen as it is.
pub proof fn actions_are_seen_as_they_are(action: LoginAction)
    ensures
        match action {
            LoginAction::Probe { timeout } => action@ == (ActionModel::Probe { timeout }),
            LoginAction::Authenticate { attempt, params } => action@ == (
            ActionModel::Authenticate { attempt, params: params@ }),
            LoginAction::Sleep(delay) => action@ == ActionModel::Sleep(delay),
            LoginAction::Done => action@ is Done,
        },
{
}

/// What a login waits for, in every phase: the result of its probe, the outcome
/// of its attempt, or the end of its rest.
pub proof fn login_waits_for_what_it_asked(s: LoginSession, event: LoginEvent)
    ensures
        s.phase is Identifying || s.phase is Watching ==> (s.expects(event) <==> event is Probed),
        s.phase is Submitting ==> (s.expects(event) <==> event is Authenticated),
        s.phase is Resting ==> (s.expects(event) <==> event is Slept),
        s.phase is Finished ==> !s.expects(event),
{
}

} // verus!
