//! Reading the room identifiers from a login in the capture window, and the
//! life of that window.

use crate::config::save_config;
use crate::model;
use crate::model::AppConfig;
use crate::portal;
use crate::portal::{extract_room_binding, extract_room_binding_for_host};
use crate::text;
use crate::text::{blank, same};
use crate::web;
use crate::web::{parse_url, text_of_url};
use vstd::prelude::*;

verus! {

/// The plain HTTP address that a captive network redirects to its portal.
pub const CAPTURE_URL: &'static str = "http://baidu.com";

/// Where the capture window starts: at the fixture of a test, which must be on
/// this machine, or at the ordinary address. Either is a URL as written.
pub open spec fn start_of_capture(fixture: Option<String>) -> Result<Seq<char>, Seq<char>> {
    match fixture {
        Some(value) => match web::parsed_url(value@) {
            Err(_) => Err("invalid capture fixture URL"@),
            Ok(url) => if url.scheme == "http"@ && url.host == Some("127.0.0.1"@) {
                Ok(web::url_text(url))
            } else {
                Err("capture fixture must use loopback HTTP"@)
            },
        },
        None => Ok("http://baidu.com/"@),
    }
}

/// The ordinary address is a plain host.
proof fn lemma_capture_url()
    ensures
        text::after_prefix(CAPTURE_URL@, "http://"@) == Some("baidu.com"@),
        web::plain_host("baidu.com"@),
        "http://"@ + "baidu.com"@ + "/"@ + Seq::<char>::empty() == "http://baidu.com/"@,
{
    reveal_strlit("http://baidu.com");
    reveal_strlit("http://baidu.com/");
    reveal_strlit("http://");
    reveal_strlit("baidu.com");
    reveal_strlit("/");
    assert(CAPTURE_URL@ =~= "http://"@ + "baidu.com"@);
    assert(CAPTURE_URL@.subrange(0, 7) =~= "http://"@);
    assert(CAPTURE_URL@.skip(7) =~= "baidu.com"@);
    assert("http://"@ + "baidu.com"@ + "/"@ + Seq::<char>::empty() =~= "http://baidu.com/"@);
}

pub fn capture_start_url(fixture: Option<String>) -> (r: Result<String, String>)
    ensures
        web::text_result(r) == start_of_capture(fixture),
{
    match fixture {
        Some(value) => match parse_url(&value) {
            Err(_) => Err("invalid capture fixture URL".to_string()),
            Ok(url) => {
                if same(&url.scheme, "http") {
                    if let Some(host) = &url.host {
                        if same(host, "127.0.0.1") {
                            return Ok(text_of_url(&url));
                        }
                    }
                }
                Err("capture fixture must use loopback HTTP".to_string())
            },
        },
        None => {
            proof {
                lemma_capture_url();
            }
            match parse_url(CAPTURE_URL) {
                Ok(url) => Ok(text_of_url(&url)),
                Err(message) => Err(message),
            }
        },
    }
}

/// The host whose URLs may bind a room: the configured one, else the gateway's.
/// Nothing where the configuration could not be read.
pub open spec fn trusted_host(config: Option<AppConfig>) -> Option<Seq<char>> {
    match config {
        None => None,
        Some(value) => if text::is_blank(value.portal_host@) {
            match web::parsed_url(value.gateway@) {
                Ok(url) => match url.host {
                    Some(host) => Some(host),
                    None => Some(Seq::empty()),
                },
                Err(_) => Some(Seq::empty()),
            }
        } else {
            Some(value.portal_host@)
        },
    }
}

pub fn capture_host(config: &Option<AppConfig>) -> (r: Option<String>)
    ensures
        text::opt_view(r) == trusted_host(*config),
{
    match config {
        None => None,
        Some(value) => {
            if !blank(&value.portal_host) {
                return Some(value.portal_host.clone());
            }
            match parse_url(&value.gateway) {
                Ok(url) => match url.host {
                    Some(host) => Some(host),
                    None => Some(String::new()),
                },
                Err(_) => Some(String::new()),
            }
        },
    }
}

/// The room that a visited URL binds.
pub open spec fn visited_binding(host: Option<Seq<char>>, url: Seq<char>) -> Option<
    (Seq<char>, Seq<char>),
> {
    match host {
        Some(h) => portal::url_binding_for(url, h),
        None => portal::url_binding(url),
    }
}

pub fn capture_binding(host: &Option<String>, url: &str) -> (r: Option<(String, String)>)
    ensures
        portal::binding_view(r) == visited_binding(text::opt_view(*host), url@),
{
    match host {
        Some(h) => extract_room_binding_for_host(url, h),
        None => extract_room_binding(url),
    }
}

/// Why a captured room was not saved.
#[derive(Debug)]
pub enum CaptureError {
    /// The configuration could not be read.
    Read(String),
    /// The configuration with the room may not be saved.
    Save(String),
}

/// The configuration with the captured room, which is to be saved.
pub fn captured_config(
    config: Result<AppConfig, String>,
    apartment_id: &String,
    room_id: &String,
) -> (r: Result<AppConfig, CaptureError>)
    ensures
        match config {
            Err(message) => r matches Err(CaptureError::Read(text)) && text@ == message@,
            Ok(value) => if model::known_service(value.service_name@) {
                r matches Ok(changed) && changed == (AppConfig {
                    apartment_id: *apartment_id,
                    room_id: *room_id,
                    ..value
                })
            } else {
                r matches Err(CaptureError::Save(text)) && text@
                    == "运营商必须选择中国电信、中国联通或中国移动"@
            },
        },
{
    let mut value = match config {
        Err(message) => {
            return Err(CaptureError::Read(message));
        },
        Ok(value) => value,
    };
    value.apartment_id = apartment_id.clone();
    value.room_id = room_id.clone();
    match save_config(&value) {
        Ok(_) => Ok(value),
        Err(message) => Err(CaptureError::Save(message)),
    }
}

// ---------------------------------------------------------------------------
// The window
// ---------------------------------------------------------------------------

/// The capture window as far as its opening and closing go. A session begins
/// when a window was created and ends when its destruction was seen through.
#[derive(Clone, Copy, Debug, PartialEq, Eq, Structural)]
pub enum CaptureLifecycle {
    Idle,
    Open,
    /// The destruction of the window is under way.
    Closing,
}

/// What a request to open the window leads to.
#[derive(Clone, Copy, Debug, PartialEq, Eq, Structural)]
pub enum OpenStep {
    /// Wait until the previous window is gone, note that, and ask again.
    Await,
    /// Bring the window to the front.
    Show,
    Create,
}

/// What a request to close the window leads to.
#[derive(Clone, Copy, Debug, PartialEq, Eq, Structural)]
pub enum CloseStep {
    /// Destroy the window and wait until it is gone.
    DestroyAndAwait,
    /// Wait until the window is gone.
    Await,
    /// Destroy a window that no session knows of.
    Destroy,
    Nothing,
}

pub open spec fn open_answer(state: CaptureLifecycle, window_exists: bool) -> OpenStep {
    if state is Closing || (state is Open && !window_exists) {
        OpenStep::Await
    } else if window_exists {
        OpenStep::Show
    } else {
        OpenStep::Create
    }
}

pub open spec fn close_answer(state: CaptureLifecycle, window_exists: bool) -> CloseStep {
    match (state, window_exists) {
        (CaptureLifecycle::Open, true) => CloseStep::DestroyAndAwait,
        (CaptureLifecycle::Idle, true) => CloseStep::Destroy,
        (CaptureLifecycle::Idle, false) => CloseStep::Nothing,
        _ => CloseStep::Await,
    }
}

impl CaptureLifecycle {
    pub fn new() -> (r: Self)
        ensures
            r is Idle,
    {
        CaptureLifecycle::Idle
    }

    /// A request to open the window.
    pub fn open(&self, window_exists: bool) -> (step: OpenStep)
        ensures
            step == open_answer(*self, window_exists),
    {
        match (*self, window_exists) {
            (CaptureLifecycle::Closing, _) => OpenStep::Await,
            (CaptureLifecycle::Open, false) => OpenStep::Await,
            (_, true) => OpenStep::Show,
            _ => OpenStep::Create,
        }
    }

    /// The window was created.
    pub fn created(&mut self)
        ensures
            *final(self) is Open,
    {
        *self = CaptureLifecycle::Open;
    }

    /// The user asked to close the window itself: whether it is to be destroyed
    /// now. Closing does not wait for the page to approve.
    pub fn close_requested(&mut self) -> (destroy: bool)
        ensures
            destroy == *old(self) is Open,
            *final(self) == if *old(self) is Open {
                CaptureLifecycle::Closing
            } else {
                *old(self)
            },
    {
        match *self {
            CaptureLifecycle::Open => {
                *self = CaptureLifecycle::Closing;
                true
            },
            _ => false,
        }
    }

    /// The destruction that was asked for failed; the window is still there.
    pub fn destroy_failed(&mut self)
        ensures
            *final(self) == if *old(self) is Closing {
                CaptureLifecycle::Open
            } else {
                *old(self)
            },
    {
        if let CaptureLifecycle::Closing = *self {
            *self = CaptureLifecycle::Open;
        }
    }

    /// The window is being destroyed, for whatever reason.
    pub fn destroyed(&mut self)
        ensures
            *final(self) == if *old(self) is Open {
                CaptureLifecycle::Closing
            } else {
                *old(self)
            },
    {
        if let CaptureLifecycle::Open = *self {
            *self = CaptureLifecycle::Closing;
        }
    }

    /// A request to cancel the capture.
    pub fn close(&mut self, window_exists: bool) -> (step: CloseStep)
        ensures
            step == close_answer(*old(self), window_exists),
            *final(self) == if step is DestroyAndAwait {
                CaptureLifecycle::Closing
            } else {
                *old(self)
            },
    {
        match (*self, window_exists) {
            (CaptureLifecycle::Open, true) => {
                *self = CaptureLifecycle::Closing;
                CloseStep::DestroyAndAwait
            },
            (CaptureLifecycle::Idle, true) => CloseStep::Destroy,
            (CaptureLifecycle::Idle, false) => CloseStep::Nothing,
            _ => CloseStep::Await,
        }
    }

    /// The window is gone and its clean-up done.
    pub fn closed(&mut self)
        ensures
            *final(self) is Idle,
    {
        *self = CaptureLifecycle::Idle;
    }
}

// ---------------------------------------------------------------------------
// Laws
// ---------------------------------------------------------------------------

/// With a host to trust, a URL of another host binds no room, whatever it
/// names; and what is bound holds plain identifiers only.
pub proof fn only_the_trusted_host_binds(host: Seq<char>, url: Seq<char>)
    requires
        !text::is_blank(host),
    ensures
        visited_binding(Some(host), url) matches Some((a, r)) ==> {
            &&& web::parsed_url(url) matches Ok(parsed)
            &&& portal::host_is(parsed.host, text::trim(host))
            &&& portal::id_like(a) && portal::id_like(r)
        },
{
    portal::bound_ids_are_plain(url);
}

/// While a window is being destroyed none is opened or shown, and it is not
/// destroyed a second time.
pub proof fn closing_window_is_left_alone(window_exists: bool)
    ensures
        open_answer(CaptureLifecycle::Closing, window_exists) is Await,
        close_answer(CaptureLifecycle::Closing, window_exists) is Await,
{
}

/// A window is created only where there is none and no session waits for one to
/// go.
pub proof fn one_window_at_a_time(state: CaptureLifecycle, window_exists: bool)
    ensures
        open_answer(state, window_exists) is Create <==> state is Idle && !window_exists,
{
}

/// A capture starts at a plain address, or in a test at a fixture on this very
/// machine; any other fixture is refused.
pub proof fn captures_start_in_the_open(fixture: Option<String>, value: String, url: web::UrlModel)
    ensures
        fixture is None ==> start_of_capture(fixture) == Ok::<_, Seq<char>>("http://baidu.com/"@),
        fixture == Some(value) && web::parsed_url(value@) is Err ==> start_of_capture(fixture)
            == Err::<Seq<char>, _>("invalid capture fixture URL"@),
        fixture == Some(value) && web::parsed_url(value@) == Ok::<_, Seq<char>>(url) && url.scheme
            == "http"@ && url.host == Some("127.0.0.1"@) ==> start_of_capture(fixture) == Ok::<
            _,
            Seq<char>,
        >(
            match url.query {
                Some(query) => url.stem + "?"@ + query + url.tail,
                None => url.stem + url.tail,
            },
        ),
        fixture == Some(value) && web::parsed_url(value@) == Ok::<_, Seq<char>>(url) && (url.scheme
            != "http"@ || url.host != Some("127.0.0.1"@)) ==> start_of_capture(fixture) == Err::<
            Seq<char>,
            _,
        >("capture fixture must use loopback HTTP"@),
        CAPTURE_URL@ == "http://baidu.com"@,
{
}

/// The host to trust is the configured one as it stands, or where that is blank
/// the gateway's; a configuration that could not be read names none.
pub proof fn trusted_host_is_the_configured_one(config: AppConfig)
    ensures
        trusted_host(None) is None,
        !text::is_blank(config.portal_host@) ==> trusted_host(Some(config)) == Some(
            config.portal_host@,
        ),
        text::is_blank(config.portal_host@) ==> match web::parsed_url(config.gateway@) {
            Ok(url) => match url.host {
                Some(host) => trusted_host(Some(config)) == Some(host),
                None => trusted_host(Some(config)) matches Some(host) && host.len() == 0,
            },
            Err(_) => trusted_host(Some(config)) matches Some(host) && host.len() == 0,
        },
{
}

/// A visited URL of the trusted host that names an apartment and a room binds
/// them, the apartment first; so does any URL where there is no host to trust.
pub proof fn visited_rooms_are_bound(
    host: Option<Seq<char>>,
    visited: Seq<char>,
    url: web::UrlModel,
    name: Seq<char>,
    i: int,
    j: int,
    apartment: Seq<char>,
    room: Seq<char>,
)
    requires
        web::parsed_url(visited) == Ok::<_, Seq<char>>(url),
        match host {
            Some(h) => text::is_blank(h) || (url.host == Some(name) && text::lower(name)
                == text::lower(text::trim(h))),
            None => true,
        },
        0 <= i < web::query_of(url).len(),
        0 <= j < web::query_of(url).len(),
        web::query_of(url)[i] == ("apartmentId"@, apartment),
        web::query_of(url)[j] == ("roomId"@, room),
        portal::plain_id(apartment),
        portal::plain_id(room),
        forall|k: int|
            0 <= k < web::query_of(url).len() && (#[trigger] web::query_of(url)[k]).0
                == "apartmentId"@ && portal::plain_id(web::query_of(url)[k].1) ==> web::query_of(
                url,
            )[k].1 == apartment,
        forall|k: int|
            0 <= k < web::query_of(url).len() && (#[trigger] web::query_of(url)[k]).0 == "roomId"@
                && portal::plain_id(web::query_of(url)[k].1) ==> web::query_of(url)[k].1 == room,
    ensures
        visited_binding(host, visited) == Some((apartment, room)),
{
    portal::named_room_is_bound(web::query_of(url), i, j, apartment, room);
    if let Some(h) = host {
        portal::urls_bind_by_their_query(visited, h, url, name);
    } else {
        portal::urls_bind_by_their_query(visited, visited, url, name);
    }
}

/// What is asked of the window, in every state: it is created where there is
/// none, shown where there is one, and waited for where it is going; it is
/// destroyed where it is there, and waited for only by a session.
pub proof fn windows_do_what_is_asked()
    ensures
        open_answer(CaptureLifecycle::Idle, false) is Create,
        open_answer(CaptureLifecycle::Idle, true) is Show,
        open_answer(CaptureLifecycle::Open, true) is Show,
        open_answer(CaptureLifecycle::Open, false) is Await,
        open_answer(CaptureLifecycle::Closing, true) is Await,
        open_answer(CaptureLifecycle::Closing, false) is Await,
        close_answer(CaptureLifecycle::Idle, false) is Nothing,
        close_answer(CaptureLifecycle::Idle, true) is Destroy,
        close_answer(CaptureLifecycle::Open, true) is DestroyAndAwait,
        close_answer(CaptureLifecycle::Open, false) is Await,
        close_answer(CaptureLifecycle::Closing, true) is Await,
        close_answer(CaptureLifecycle::Closing, false) is Await,
{
}

} // verus!
