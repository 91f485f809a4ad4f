//! Probing the connection: which requests are made, and what the replies mean.

use crate::clock::SECOND;
use crate::model::AppConfig;
use crate::text;
use crate::text::{chars_of, contains_chars, decode_lossy, lower_chars};
use vstd::prelude::*;

verus! {

pub const FALLBACK_PROBE_URL: &'static str = "https://www.baidu.com/";

/// How much of a body is looked at.
pub const MAX_BODY_BYTES: usize = 131072;

pub const DEFAULT_PROBE_TIMEOUT: u64 = 2 * SECOND;

/// The headers of every probe request.
pub const PROBE_HEADERS: [(&'static str, &'static str); 2] = [
    ("Cache-Control", "no-cache"),
    ("User-Agent", "CampusAutoLogin/0.1"),
];

#[derive(Debug)]
pub enum ProbeResult {
    Online { elapsed_ms: u128 },
    /// Raw values stay in memory for parsing only and must never be logged.
    Redirect { status: u16, location: String, body: String, elapsed_ms: u128 },
    Http { status: u16, elapsed_ms: u128 },
    /// `kind` is a stable error category, never a message that could contain
    /// the full request URL.
    Transport { kind: String, elapsed_ms: u128 },
}

pub enum ProbeModel {
    Online { elapsed_ms: u128 },
    Redirect { status: u16, location: Seq<char>, body: Seq<char>, elapsed_ms: u128 },
    Http { status: u16, elapsed_ms: u128 },
    Transport { kind: Seq<char>, elapsed_ms: u128 },
}

impl View for ProbeResult {
    type V = ProbeModel;

    open spec fn view(&self) -> ProbeModel {
        match *self {
            ProbeResult::Online { elapsed_ms } => ProbeModel::Online { elapsed_ms },
            ProbeResult::Redirect { status, location, body, elapsed_ms } => ProbeModel::Redirect {
                status,
                location: location@,
                body: body@,
                elapsed_ms,
            },
            ProbeResult::Http { status, elapsed_ms } => ProbeModel::Http { status, elapsed_ms },
            ProbeResult::Transport { kind, elapsed_ms } => ProbeModel::Transport {
                kind: kind@,
                elapsed_ms,
            },
        }
    }
}

impl Clone for ProbeResult {
    fn clone(&self) -> (r: Self)
        ensures
            r == *self,
    {
        match self {
            ProbeResult::Online { elapsed_ms } => ProbeResult::Online { elapsed_ms: *elapsed_ms },
            ProbeResult::Redirect { status, location, body, elapsed_ms } => ProbeResult::Redirect {
                status: *status,
                location: location.clone(),
                body: body.clone(),
                elapsed_ms: *elapsed_ms,
            },
            ProbeResult::Http { status, elapsed_ms } => ProbeResult::Http {
                status: *status,
                elapsed_ms: *elapsed_ms,
            },
            ProbeResult::Transport { kind, elapsed_ms } => ProbeResult::Transport {
                kind: kind.clone(),
                elapsed_ms: *elapsed_ms,
            },
        }
    }
}

/// What came back of one request, redirects not followed.
#[derive(Debug)]
pub enum Reply {
    Response { status: u16, location: Option<String>, body: Vec<u8>, elapsed_ms: u128 },
    Failed { kind: String, elapsed_ms: u128 },
}

/// The request that is to be made next.
#[derive(Debug)]
pub struct ProbeRequest {
    pub url: String,
    /// The upper bound for the request, in nanoseconds.
    pub timeout: u64,
}

#[derive(Debug)]
pub enum ProbeStep {
    Request(ProbeRequest),
    Done(ProbeResult),
}

pub open spec fn portal_marker(s: Seq<char>) -> bool {
    ||| text::contains(s, "wlanuserip="@)
    ||| text::contains(s, "wlanacname="@)
    ||| text::contains(s, "apartmentid="@)
    ||| text::contains(s, "roomid="@)
    ||| text::contains(s, "eportal"@)
}

/// Location or body, in small letters, holds a marker of the portal's protocol.
pub open spec fn portal_like(location: Seq<char>, body: Seq<char>) -> bool {
    portal_marker(text::lower(location)) || portal_marker(text::lower(body))
}

fn has_marker(value: &str) -> (r: bool)
    ensures
        r == portal_marker(text::lower(value@)),
{
    let all = lower_chars(&chars_of(value));
    contains_chars(&all, &chars_of("wlanuserip=")) || contains_chars(&all, &chars_of("wlanacname="))
        || contains_chars(&all, &chars_of("apartmentid=")) || contains_chars(
        &all,
        &chars_of("roomid="),
    ) || contains_chars(&all, &chars_of("eportal"))
}

/// A captive candidate must contain protocol markers. This prevents a normal
/// public-web redirect from causing campus credentials to be submitted.
pub fn looks_like_portal(location: &str, body: &str) -> (r: bool)
    ensures
        r == portal_like(location@, body@),
{
    has_marker(location) || has_marker(body)
}

/// The part of a body that is looked at, as text.
pub open spec fn body_text(body: Seq<u8>) -> Seq<char> {
    text::utf8_lossy(
        if body.len() > MAX_BODY_BYTES {
            body.take(MAX_BODY_BYTES as int)
        } else {
            body
        },
    )
}

fn read_limited_body(body: Vec<u8>) -> (r: String)
    ensures
        r@ == body_text(body@),
{
    let mut bytes = body;
    if bytes.len() > MAX_BODY_BYTES {
        bytes.truncate(MAX_BODY_BYTES);
        assert(bytes@ == body@.take(MAX_BODY_BYTES as int));
    }
    decode_lossy(&bytes)
}

pub open spec fn or_empty(o: Option<String>) -> Seq<char> {
    match o {
        Some(value) => value@,
        None => Seq::empty(),
    }
}

/// What a reply means. `accept_any_success` is for the fallback probe, where a
/// normal public page commonly answers 200 rather than 204.
pub open spec fn reply_meaning(reply: Reply, accept_any_success: bool) -> ProbeModel {
    match reply {
        Reply::Failed { kind, elapsed_ms } => ProbeModel::Transport { kind: kind@, elapsed_ms },
        Reply::Response { status, location, body, elapsed_ms } => {
            if status == 204 || (accept_any_success && 200 <= status < 300) {
                ProbeModel::Online { elapsed_ms }
            } else if 300 <= status < 400 || portal_like(or_empty(location), body_text(body@)) {
                ProbeModel::Redirect {
                    status,
                    location: or_empty(location),
                    body: body_text(body@),
                    elapsed_ms,
                }
            } else {
                ProbeModel::Http { status, elapsed_ms }
            }
        },
    }
}

pub fn probe_once(reply: Reply, accept_any_success: bool) -> (r: ProbeResult)
    ensures
        r@ == reply_meaning(reply, accept_any_success),
{
    match reply {
        Reply::Failed { kind, elapsed_ms } => ProbeResult::Transport { kind, elapsed_ms },
        Reply::Response { status, location, body, elapsed_ms } => {
            let location = match location {
                Some(value) => value,
                None => String::new(),
            };
            let body = read_limited_body(body);
            if status == 204 || (accept_any_success && 200 <= status && status < 300) {
                ProbeResult::Online { elapsed_ms }
            } else if (300 <= status && status < 400) || looks_like_portal(&location, &body) {
                ProbeResult::Redirect { status, location, body, elapsed_ms }
            } else {
                ProbeResult::Http { status, elapsed_ms }
            }
        },
    }
}

/// The result needs no second opinion: the network is up, or the reply carries
/// markers of a portal.
pub open spec fn conclusive(r: ProbeModel) -> bool {
    match r {
        ProbeModel::Online { .. } => true,
        ProbeModel::Redirect { location, body, .. } => portal_like(location, body),
        _ => false,
    }
}

fn is_conclusive(r: &ProbeResult) -> (b: bool)
    ensures
        b == conclusive(r@),
{
    match r {
        ProbeResult::Online { .. } => true,
        ProbeResult::Redirect { location, body, .. } => looks_like_portal(location, body),
        _ => false,
    }
}

/// A probe under way: at most two requests, the second only where the first
/// settled nothing.
#[derive(Debug)]
pub struct ProbeFlow {
    pub check_url: String,
    pub timeout: u64,
    pub primary: Option<ProbeResult>,
}

/// Probes without following redirects. An ordinary public redirect is checked
/// against a second HTTPS endpoint before being treated as a captive portal.
pub fn probe(config: &AppConfig) -> (flow: ProbeFlow)
    ensures
        flow.check_url@ == config.check_url@,
        flow.timeout == DEFAULT_PROBE_TIMEOUT,
        flow.primary is None,
{
    probe_with_timeout(config, DEFAULT_PROBE_TIMEOUT)
}

/// Probes with a caller-selected upper bound for each request.
pub fn probe_with_timeout(config: &AppConfig, timeout: u64) -> (flow: ProbeFlow)
    ensures
        flow.check_url@ == config.check_url@,
        flow.timeout == timeout,
        flow.primary is None,
{
    ProbeFlow { check_url: config.check_url.clone(), timeout, primary: None }
}

pub open spec fn primary_view(primary: Option<ProbeResult>) -> Option<ProbeModel> {
    match primary {
        Some(result) => Some(result@),
        None => None,
    }
}

/// The result that a reply leads to, `primary` being what the first request
/// gave; nothing where the second request is still to be made.
pub open spec fn settled(primary: Option<ProbeModel>, reply: Reply) -> Option<ProbeModel> {
    match primary {
        None => {
            let first = reply_meaning(reply, false);
            if conclusive(first) {
                Some(first)
            } else {
                None
            }
        },
        Some(first) => {
            let second = reply_meaning(reply, true);
            Some(
                if conclusive(second) {
                    second
                } else {
                    first
                },
            )
        },
    }
}

impl ProbeFlow {
    /// The request that the probe waits for.
    pub fn request(&self) -> (r: ProbeRequest)
        ensures
            r.timeout == self.timeout,
            r.url@ == if self.primary is None {
                self.check_url@
            } else {
                FALLBACK_PROBE_URL@
            },
    {
        let url = match &self.primary {
            None => self.check_url.clone(),
            Some(_) => FALLBACK_PROBE_URL.to_string(),
        };
        ProbeRequest { url, timeout: self.timeout }
    }

    /// Takes the reply to the request in hand. The first reply ends the probe
    /// where it is conclusive; the second always does.
    pub fn advance(&mut self, reply: Reply) -> (step: ProbeStep)
        ensures
            final(self).check_url == old(self).check_url,
            final(self).timeout == old(self).timeout,
            match settled(primary_view(old(self).primary), reply) {
                Some(result) => {
                    &&& final(self).primary == old(self).primary
                    &&& step matches ProbeStep::Done(r) && r@ == result
                },
                None => {
                    &&& primary_view(final(self).primary) == Some(reply_meaning(reply, false))
                    &&& step matches ProbeStep::Request(next) && next.url@ == FALLBACK_PROBE_URL@
                        && next.timeout == old(self).timeout
                },
            },
    {
        match &self.primary {
            None => {
                let first = probe_once(reply, false);
                if is_conclusive(&first) {
                    ProbeStep::Done(first)
                } else {
                    self.primary = Some(first);
                    ProbeStep::Request(self.request())
                }
            },
            Some(first) => {
                let second = probe_once(reply, true);
                if is_conclusive(&second) {
                    ProbeStep::Done(second)
                } else {
                    ProbeStep::Done(first.clone())
                }
            },
        }
    }
}

// ---------------------------------------------------------------------------
// Laws
// ---------------------------------------------------------------------------

/// A probe is over after its second reply at the latest.
pub proof fn two_replies_settle(primary: ProbeModel, reply: Reply)
    ensures
        settled(Some(primary), reply) is Some,
{
}

/// An ordinary public redirect settles nothing: a second address is asked
/// before it can be taken for a captive portal.
pub proof fn public_redirect_is_checked_again(
    status: u16,
    location: Option<String>,
    body: Vec<u8>,
    elapsed_ms: u128,
)
    requires
        300 <= status < 400,
        !portal_like(or_empty(location), body_text(body@)),
    ensures
        settled(None, Reply::Response { status, location, body, elapsed_ms }) is None,
{
}

/// The network counts as up only on an empty success from the first address or
/// a success from the second.
pub proof fn online_needs_a_success(primary: Option<ProbeModel>, reply: Reply)
    requires
        primary matches Some(first) ==> !(first is Online),
        settled(primary, reply) matches Some(result) && result is Online,
    ensures
        reply matches Reply::Response { status, .. } && if primary is None {
            status == 204
        } else {
            200 <= status < 300
        },
{
}

/// A failed request never looks like a portal or a working network.
pub proof fn failure_stays_a_failure(kind: String, elapsed_ms: u128)
    ensures
        settled(None, Reply::Failed { kind, elapsed_ms }) is None,
        reply_meaning(Reply::Failed { kind, elapsed_ms }, false) == (ProbeModel::Transport {
            kind: kind@,
            elapsed_ms,
        }),
{
}

/// `marker` stands in `s`, in letters of either case.
pub open spec fn names(s: Seq<char>, marker: Seq<char>) -> bool {
    exists|k: int| 0 <= k && k + marker.len() <= s.len() && #[trigger] spells(s, marker, k)
}

/// The characters of `s` from `k` on are those of `marker`, small or capital.
pub open spec fn spells(s: Seq<char>, marker: Seq<char>, k: int) -> bool {
    forall|j: int|
        0 <= j < marker.len() ==> (#[trigger] s[k + j] == marker[j] || ('A' <= s[k + j] && s[k + j]
            <= 'Z' && marker[j] == (s[k + j] as u32 + 32) as char))
}

proof fn lemma_names(s: Seq<char>, marker: Seq<char>)
    requires
        forall|j: int| 0 <= j < marker.len() ==> !('A' <= #[trigger] marker[j] && marker[j] <= 'Z'),
    ensures
        names(s, marker) <==> text::contains(text::lower(s), marker),
{
    let low = text::lower(s);
    if names(s, marker) {
        let k = choose|k: int|
            0 <= k && k + marker.len() <= s.len() && #[trigger] spells(s, marker, k);
        assert forall|j: int| 0 <= j < marker.len() implies low.subrange(k, k + marker.len())[j]
            == marker[j] by {
            let c = s[k + j];
            let m = marker[j];
            assert(!('A' <= m && m <= 'Z'));
            assert(c == m || ('A' <= c && c <= 'Z' && m == (c as u32 + 32) as char));
            assert(low[k + j] == text::lower_char(c));
            assert(text::lower_char(c) == m);
        }
        assert(low.subrange(k, k + marker.len()) =~= marker);
        assert(text::matches_at(low, marker, k));
    }
    if text::contains(low, marker) {
        let k = choose|k: int| text::matches_at(low, marker, k);
        assert forall|j: int| 0 <= j < marker.len() implies (#[trigger] s[k + j] == marker[j] || (
        'A' <= s[k + j] && s[k + j] <= 'Z' && marker[j] == (s[k + j] as u32 + 32) as char)) by {
            assert(low.subrange(k, k + marker.len())[j] == marker[j]);
            assert(low[k + j] == text::lower_char(s[k + j]));
        }
        assert(spells(s, marker, k));
    }
}

proof fn lemma_markers()
    ensures
        forall|s: Seq<char>| #[trigger]
            names(s, "wlanuserip="@) <==> text::contains(text::lower(s), "wlanuserip="@),
        forall|s: Seq<char>| #[trigger]
            names(s, "wlanacname="@) <==> text::contains(text::lower(s), "wlanacname="@),
        forall|s: Seq<char>| #[trigger]
            names(s, "apartmentid="@) <==> text::contains(text::lower(s), "apartmentid="@),
        forall|s: Seq<char>| #[trigger]
            names(s, "roomid="@) <==> text::contains(text::lower(s), "roomid="@),
        forall|s: Seq<char>| #[trigger]
            names(s, "eportal"@) <==> text::contains(text::lower(s), "eportal"@),
{
    reveal_strlit("wlanuserip=");
    reveal_strlit("wlanacname=");
    reveal_strlit("apartmentid=");
    reveal_strlit("roomid=");
    reveal_strlit("eportal");
    assert forall|s: Seq<char>| #[trigger]
        names(s, "wlanuserip="@) <==> text::contains(text::lower(s), "wlanuserip="@) by {
        lemma_names(s, "wlanuserip="@);
    }
    assert forall|s: Seq<char>| #[trigger]
        names(s, "wlanacname="@) <==> text::contains(text::lower(s), "wlanacname="@) by {
        lemma_names(s, "wlanacname="@);
    }
    assert forall|s: Seq<char>| #[trigger]
        names(s, "apartmentid="@) <==> text::contains(text::lower(s), "apartmentid="@) by {
        lemma_names(s, "apartmentid="@);
    }
    assert forall|s: Seq<char>| #[trigger]
        names(s, "roomid="@) <==> text::contains(text::lower(s), "roomid="@) by {
        lemma_names(s, "roomid="@);
    }
    assert forall|s: Seq<char>| #[trigger]
        names(s, "eportal"@) <==> text::contains(text::lower(s), "eportal"@) by {
        lemma_names(s, "eportal"@);
    }
}

/// The client's address in a location or body shows the portal.
pub proof fn client_address_shows_the_portal(location: Seq<char>, body: Seq<char>)
    requires
        names(location, "wlanuserip="@) || names(body, "wlanuserip="@),
    ensures
        portal_like(location, body),
        text::contains(text::lower(location), "wlanuserip="@) || text::contains(
            text::lower(body),
            "wlanuserip="@,
        ),
{
    lemma_markers();
}

/// The name of an access controller shows the portal.
pub proof fn controller_name_shows_the_portal(location: Seq<char>, body: Seq<char>)
    requires
        names(location, "wlanacname="@) || names(body, "wlanacname="@),
    ensures
        portal_like(location, body),
        text::contains(text::lower(location), "wlanacname="@) || text::contains(
            text::lower(body),
            "wlanacname="@,
        ),
{
    lemma_markers();
}

/// An apartment identifier shows the portal.
pub proof fn apartment_shows_the_portal(location: Seq<char>, body: Seq<char>)
    requires
        names(location, "apartmentid="@) || names(body, "apartmentid="@),
    ensures
        portal_like(location, body),
        text::contains(text::lower(location), "apartmentid="@) || text::contains(
            text::lower(body),
            "apartmentid="@,
        ),
{
    lemma_markers();
}

/// A room identifier shows the portal.
pub proof fn room_shows_the_portal(location: Seq<char>, body: Seq<char>)
    requires
        names(location, "roomid="@) || names(body, "roomid="@),
    ensures
        portal_like(location, body),
        text::contains(text::lower(location), "roomid="@) || text::contains(
            text::lower(body),
            "roomid="@,
        ),
{
    lemma_markers();
}

/// The name of the portal's software shows the portal.
pub proof fn software_name_shows_the_portal(location: Seq<char>, body: Seq<char>)
    requires
        names(location, "eportal"@) || names(body, "eportal"@),
    ensures
        portal_like(location, body),
        text::contains(text::lower(location), "eportal"@) || text::contains(
            text::lower(body),
            "eportal"@,
        ),
{
    lemma_markers();
}

/// Nothing else shows the portal: an ordinary page is not taken for it.
pub proof fn ordinary_pages_are_not_the_portal(location: Seq<char>, body: Seq<char>)
    requires
        !names(location, "wlanuserip="@) && !names(body, "wlanuserip="@),
        !names(location, "wlanacname="@) && !names(body, "wlanacname="@),
        !names(location, "apartmentid="@) && !names(body, "apartmentid="@),
        !names(location, "roomid="@) && !names(body, "roomid="@),
        !names(location, "eportal"@) && !names(body, "eportal"@),
    ensures
        !portal_like(location, body),
{
    lemma_markers();
}

/// One of the five markers stands in `s`.
pub open spec fn marked(s: Seq<char>) -> bool {
    names(s, "wlanuserip="@) || names(s, "wlanacname="@) || names(s, "apartmentid="@) || names(
        s,
        "roomid="@,
    ) || names(s, "eportal"@)
}

/// What the location and body of a reply are read as. A missing location is
/// empty; of a long body the first 131072 bytes count.
pub proof fn replies_are_read_as_texts(location: String, body: Seq<u8>)
    ensures
        or_empty(Some(location)) == location@,
        or_empty(None).len() == 0,
        body.len() <= 131072 ==> body_text(body) == text::utf8_lossy(body),
        body.len() > 131072 ==> body_text(body) == text::utf8_lossy(body.subrange(0, 131072)),
{
}

/// What each reply to a probe means: 204 is a working connection, and at the
/// second address any success is; a redirect, or a page with a marker of the
/// portal, is kept with its location and body; anything else is a plain answer
/// or a failure, with its status or kind.
pub proof fn replies_mean_what_they_say(
    status: u16,
    location: Option<String>,
    body: Vec<u8>,
    kind: String,
    elapsed_ms: u128,
    second: bool,
)
    ensures
        ({
            let at = match location {
                Some(value) => value@,
                None => Seq::empty(),
            };
            let page = text::utf8_lossy(
                if body@.len() > 131072 {
                    body@.subrange(0, 131072)
                } else {
                    body@
                },
            );
            let up = status == 204 || (second && 200 <= status <= 299);
            let led_away = 300 <= status <= 399 || marked(at) || marked(page);
            let meaning = reply_meaning(
                Reply::Response { status, location, body, elapsed_ms },
                second,
            );
            &&& up ==> meaning == (ProbeModel::Online { elapsed_ms })
            &&& !up && led_away ==> meaning == (ProbeModel::Redirect {
                status,
                location: at,
                body: page,
                elapsed_ms,
            })
            &&& !up && !led_away ==> meaning == (ProbeModel::Http { status, elapsed_ms })
        }),
        reply_meaning(Reply::Failed { kind, elapsed_ms }, second) == (ProbeModel::Transport {
            kind: kind@,
            elapsed_ms,
        }),
{
    lemma_markers();
    assert(body@.subrange(0, body@.len() as int) =~= body@);
    if body@.len() > 131072 {
        assert(body@.take(131072) =~= body@.subrange(0, 131072));
    }
}

/// The first reply settles a probe where it shows a working connection or a
/// marker of the portal, and is then its result; else the second address is
/// asked.
pub proof fn first_reply_settles_what_is_clear(reply: Reply)
    ensures
        match reply_meaning(reply, false) {
            ProbeModel::Online { elapsed_ms } => settled(None, reply) == Some(
                ProbeModel::Online { elapsed_ms },
            ),
            ProbeModel::Redirect { status, location, body, elapsed_ms } => if marked(location)
                || marked(body) {
                settled(None, reply) == Some(
                    ProbeModel::Redirect { status, location, body, elapsed_ms },
                )
            } else {
                settled(None, reply) is None
            },
            _ => settled(None, reply) is None,
        },
{
    lemma_markers();
}

/// The second reply decides where it shows a working connection or a marker;
/// else what the first address said stands.
pub proof fn second_reply_decides_or_confirms(first: ProbeModel, reply: Reply)
    ensures
        match reply_meaning(reply, true) {
            ProbeModel::Online { elapsed_ms } => settled(Some(first), reply) == Some(
                ProbeModel::Online { elapsed_ms },
            ),
            ProbeModel::Redirect { status, location, body, elapsed_ms } => if marked(location)
                || marked(body) {
                settled(Some(first), reply) == Some(
                    ProbeModel::Redirect { status, location, body, elapsed_ms },
                )
            } else {
                settled(Some(first), reply) == Some(first)
            },
            _ => settled(Some(first), reply) == Some(first),
        },
{
    lemma_markers();
}

/// The second address is asked over TLS, and an ordinary probe gives each
/// request two seconds.
pub proof fn second_address_is_public()
    ensures
        FALLBACK_PROBE_URL@ == "https://www.baidu.com/"@,
        DEFAULT_PROBE_TIMEOUT == 2_000_000_000,
        MAX_BODY_BYTES == 131072,
{
}

/// A result is seen as it is, field by field.
pub proof fn results_are_seen_as_they_are(r: ProbeResult)
    ensures
        match r {
            ProbeResult::Online { elapsed_ms } => r@ == (ProbeModel::Online { elapsed_ms }),
            ProbeResult::Redirect { status, location, body, elapsed_ms } => r@ == (
            ProbeModel::Redirect { status, location: location@, body: body@, elapsed_ms }),
            ProbeResult::Http { status, elapsed_ms } => r@ == (ProbeModel::Http {
                status,
                elapsed_ms,
            }),
            ProbeResult::Transport { kind, elapsed_ms } => r@ == (ProbeModel::Transport {
                kind: kind@,
                elapsed_ms,
            }),
        },
{
}

} // verus!
