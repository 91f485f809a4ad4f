//! The campus authentication protocol: which requests are made, what is read
//! from the answers, and when a login counts as verified.

use crate::clock;
use crate::clock::{shorter, MILLISECOND, SECOND};
use crate::json;
use crate::json::{get, get_text, object_text, read_json, Field, Json, JsonModel};
use crate::model::{AppConfig, Credentials};
use crate::portal;
use crate::portal::{ParamsModel, PortalParams};
use crate::probe::{ProbeModel, ProbeResult};
use crate::text;
use crate::text::{
    chars_of, decode_lossy, eq_ignore_ascii_case, join2, join3, join_texts, push_text,
    replace_chars, same, split_chars, split_once_chars, string_of, strip_prefix, trim_chars,
};
use crate::web;
use crate::web::{
    append_params, can_append, encode_component, parse_form, parse_url, query_pairs_of,
};
use vstd::prelude::*;

verus! {

pub const API_LOGIN: &'static str = "https://api.215123.cn/ac/auth/loginByPhoneAndUid";

pub const API_OAUTH: &'static str = "https://api.215123.cn/ac/auth/oauthRedirect";

pub const CLIENT_ID: &'static str = "6d6bc6f3b5f04107a5fc1c62e39dd5f4";

pub const VERIFY_BUDGET: u64 = 3 * SECOND;

pub const VERIFY_PROBE_TIMEOUT: u64 = 750 * MILLISECOND;

pub const FIRST_VERIFY_DELAY: u64 = 100 * MILLISECOND;

pub const MAX_VERIFY_DELAY: u64 = 800 * MILLISECOND;

/// The longest body that is searched for a code.
pub const MAX_CODE_BODY_BYTES: u64 = 10 * 1024 * 1024;

#[derive(Debug)]
pub enum AuthError {
    Transport(String),
    Protocol(String),
    VerifyFailed,
}

pub enum AuthErrorModel {
    Transport(Seq<char>),
    Protocol(Seq<char>),
    VerifyFailed,
}

impl View for AuthError {
    type V = AuthErrorModel;

    open spec fn view(&self) -> AuthErrorModel {
        match *self {
            AuthError::Transport(s) => AuthErrorModel::Transport(s@),
            AuthError::Protocol(s) => AuthErrorModel::Protocol(s@),
            AuthError::VerifyFailed => AuthErrorModel::VerifyFailed,
        }
    }
}

// ---------------------------------------------------------------------------
// URLs
// ---------------------------------------------------------------------------

/// The message for a URL that is too long.
pub open spec fn too_long() -> Seq<char> {
    "URLs more than 4 GB are not supported"@
}

/// The base with the pairs appended to its query, or why there is no such URL.
pub open spec fn extended_url(base: Seq<char>, pairs: Seq<web::Pair>) -> Result<
    Seq<char>,
    Seq<char>,
> {
    match web::parsed_url(base) {
        Err(message) => Err(message),
        Ok(url) => if web::holdable(url, pairs) {
            Ok(web::with_pairs(url, pairs))
        } else {
            Err(too_long())
        },
    }
}

pub open spec fn inner_pairs(params: ParamsModel) -> Seq<web::Pair> {
    seq![
        ("wlanuserip"@, params.wlan_user_ip),
        ("wlanacname"@, params.wlan_ac_name),
        ("ssid"@, Seq::empty()),
        ("nasip"@, params.nas_ip),
        ("snmpagentip"@, Seq::empty()),
        ("mac"@, params.mac),
        ("t"@, "wireless-v2"@),
        ("url"@, params.original_url),
        ("apmac"@, Seq::empty()),
        ("nasid"@, params.nas_id),
        ("vid"@, params.vid),
        ("port"@, params.port),
        ("nasportid"@, params.nas_port_id),
    ]
}

pub open spec fn final_pairs(config: AppConfig, code: Seq<char>) -> Seq<web::Pair> {
    seq![
        ("code"@, code),
        ("serviceName"@, config.service_name@),
        ("apartmentId"@, config.apartment_id@),
        ("roomId"@, config.room_id@),
    ]
}

/// The gateway's URL with the parameters of the portal.
pub open spec fn inner_url(config: AppConfig, params: ParamsModel) -> Result<
    Seq<char>,
    Seq<char>,
> {
    extended_url(config.gateway@, inner_pairs(params))
}

/// The gateway's URL with the parameters, the code and the room.
pub open spec fn final_url(config: AppConfig, params: ParamsModel, code: Seq<char>) -> Result<
    Seq<char>,
    Seq<char>,
> {
    match inner_url(config, params) {
        Ok(inner) => extended_url(inner, final_pairs(config, code)),
        Err(message) => Err(message),
    }
}

pub open spec fn url_outcome(r: Result<String, AuthError>) -> Result<Seq<char>, AuthErrorModel> {
    match r {
        Ok(url) => Ok(url@),
        Err(error) => Err(error@),
    }
}

pub open spec fn or_protocol(r: Result<Seq<char>, Seq<char>>) -> Result<
    Seq<char>,
    AuthErrorModel,
> {
    match r {
        Ok(url) => Ok(url),
        Err(message) => Err(AuthErrorModel::Protocol(message)),
    }
}

fn pair(name: &str, value: &str) -> (r: (String, String))
    ensures
        r.0@ == name@,
        r.1@ == value@,
{
    (name.to_string(), value.to_string())
}

fn extend_url(base: &str, pairs: &Vec<(String, String)>) -> (r: Result<String, AuthError>)
    ensures
        url_outcome(r) == or_protocol(extended_url(base@, web::pair_views(pairs@))),
        r matches Ok(url) ==> web::carries(base@, web::pair_views(pairs@), url@),
{
    if let Ok(parts) = parse_url(base) {
        if !can_append(&parts, pairs) {
            return Err(AuthError::Protocol("URLs more than 4 GB are not supported".to_string()));
        }
    }
    match append_params(base, pairs) {
        Ok(url) => Ok(url),
        Err(message) => Err(AuthError::Protocol(message)),
    }
}

/// The gateway's URL with the parameters of the portal behind whatever its
/// query holds already.
pub fn build_inner_url(config: &AppConfig, params: &PortalParams) -> (r: Result<String, AuthError>)
    ensures
        url_outcome(r) == or_protocol(inner_url(*config, params@)),
        r matches Ok(url) ==> web::carries(config.gateway@, inner_pairs(params@), url@),
        r matches Ok(url) ==> web::ends_in(
            url@,
            seq![
                ("wlanuserip"@, params.wlan_user_ip@),
                ("wlanacname"@, params.wlan_ac_name@),
                ("ssid"@, Seq::empty()),
                ("nasip"@, params.nas_ip@),
                ("snmpagentip"@, Seq::empty()),
                ("mac"@, params.mac@),
                ("t"@, "wireless-v2"@),
                ("url"@, params.original_url@),
                ("apmac"@, Seq::empty()),
                ("nasid"@, params.nas_id@),
                ("vid"@, params.vid@),
                ("port"@, params.port@),
                ("nasportid"@, params.nas_port_id@),
            ],
        ),
{
    let mut query: Vec<(String, String)> = Vec::new();
    query.push(pair("wlanuserip", &params.wlan_user_ip));
    query.push(pair("wlanacname", &params.wlan_ac_name));
    query.push((("ssid").to_string(), String::new()));
    query.push(pair("nasip", &params.nas_ip));
    query.push((("snmpagentip").to_string(), String::new()));
    query.push(pair("mac", &params.mac));
    query.push(pair("t", "wireless-v2"));
    query.push(pair("url", &params.original_url));
    query.push((("apmac").to_string(), String::new()));
    query.push(pair("nasid", &params.nas_id));
    query.push(pair("vid", &params.vid));
    query.push(pair("port", &params.port));
    query.push(pair("nasportid", &params.nas_port_id));
    assert(web::pair_views(query@) =~= inner_pairs(params@));
    let r = extend_url(&config.gateway, &query);
    proof {
        if let Ok(url) = &r {
            web::appended_pairs_are_read_last(config.gateway@, inner_pairs(params@), url@);
        }
    }
    r
}

/// The inner URL with the code, the carrier and the room behind its parameters.
pub fn build_final_url(config: &AppConfig, params: &PortalParams, code: &str) -> (r: Result<
    String,
    AuthError,
>)
    ensures
        url_outcome(r) == or_protocol(final_url(*config, params@, code@)),
        r matches Ok(url) ==> {
            &&& inner_url(*config, params@) matches Ok(inner)
            &&& web::carries(config.gateway@, inner_pairs(params@), inner)
            &&& web::carries(inner, final_pairs(*config, code@), url@)
        },
        r matches Ok(url) ==> web::ends_in(
            url@,
            seq![
                ("code"@, code@),
                ("serviceName"@, config.service_name@),
                ("apartmentId"@, config.apartment_id@),
                ("roomId"@, config.room_id@),
            ],
        ),
{
    match build_inner_url(config, params) {
        Ok(inner) => {
            let mut query: Vec<(String, String)> = Vec::new();
            query.push(pair("code", code));
            query.push(pair("serviceName", &config.service_name));
            query.push(pair("apartmentId", &config.apartment_id));
            query.push(pair("roomId", &config.room_id));
            assert(web::pair_views(query@) =~= final_pairs(*config, code@));
            let r = extend_url(&inner, &query);
            proof {
                if let Ok(url) = &r {
                    web::appended_pairs_are_read_last(inner@, final_pairs(*config, code@), url@);
                }
            }
            r
        },
        Err(error) => Err(error),
    }
}

/// The historical form of a redirect: each `?` written as `%3F`, and the whole
/// then form-encoded.
pub open spec fn legacy_redirect(inner: Seq<char>) -> Seq<char> {
    web::encoded(text::replace(inner, "?"@, "%3F"@))
}

pub fn encode_legacy_redirect(inner_url: &str) -> (r: String)
    ensures
        r@ == legacy_redirect(inner_url@),
{
    proof {
        reveal_strlit("?");
    }
    let written = replace_chars(&chars_of(inner_url), &chars_of("?"), &chars_of("%3F"));
    encode_component(&string_of(&written))
}

/// The OAuth request. The redirect is encoded already and stands as it is:
/// encoding it again would turn `%253F` into `%25253F`.
pub open spec fn oauth_url(redirect: Seq<char>, service_name: Seq<char>) -> Seq<char> {
    API_OAUTH@ + "?response_type="@ + web::encoded("code"@) + "&client_id="@ + web::encoded(
        CLIENT_ID@,
    ) + "&redirect_uri="@ + redirect + "&serviceName="@ + web::encoded(service_name)
}

pub fn build_oauth_url(redirect: &str, service_name: &str) -> (r: String)
    ensures
        r@ == oauth_url(redirect@, service_name@),
{
    let mut r = join2(API_OAUTH, "?response_type=");
    push_text(&mut r, &encode_component("code"));
    push_text(&mut r, "&client_id=");
    push_text(&mut r, &encode_component(CLIENT_ID));
    push_text(&mut r, "&redirect_uri=");
    push_text(&mut r, redirect);
    push_text(&mut r, "&serviceName=");
    push_text(&mut r, &encode_component(service_name));
    r
}

// ---------------------------------------------------------------------------
// Cookies
// ---------------------------------------------------------------------------

/// The value of the first of `parts` from `from` on that is a `JSESSIONID`.
pub open spec fn session_part(parts: Seq<Seq<char>>, from: int) -> Option<Seq<char>>
    decreases parts.len() - from,
{
    if from < 0 || from >= parts.len() {
        None
    } else {
        match text::after_prefix(text::trim(parts[from]), "JSESSIONID="@) {
            Some(value) => Some(value),
            None => session_part(parts, from + 1),
        }
    }
}

pub open spec fn session_cookie(header: Seq<char>) -> Option<Seq<char>> {
    session_part(text::split(header, ';'), 0)
}

pub fn parse_session_cookie(header: &str) -> (r: Option<String>)
    ensures
        text::opt_view(r) == session_cookie(header@),
{
    let parts = split_chars(&chars_of(header), ';');
    let ghost all = text::split(header@, ';');
    let mut i: usize = 0;
    while i < parts.len()
        invariant
            0 <= i <= parts@.len(),
            all == text::char_views(parts@),
            session_cookie(header@) == session_part(all, i as int),
        decreases parts@.len() - i,
    {
        assert(all[i as int] == parts@[i as int]@);
        let found = strip_prefix(&string_of(&trim_chars(&parts[i])), "JSESSIONID=");
        if found.is_some() {
            return found;
        }
        i += 1;
    }
    None
}

/// The session of the first header from `from` on that sets one.
pub open spec fn session_from(headers: Seq<Seq<char>>, from: int) -> Option<Seq<char>>
    decreases headers.len() - from,
{
    if from < 0 || from >= headers.len() {
        None
    } else {
        match session_cookie(headers[from]) {
            Some(value) => Some(value),
            None => session_from(headers, from + 1),
        }
    }
}

/// The session that the answer sets; empty where it sets none.
pub open spec fn session_of(headers: Seq<Seq<char>>) -> Seq<char> {
    match session_from(headers, 0) {
        Some(value) => value,
        None => Seq::empty(),
    }
}

fn session_id(headers: &Vec<String>) -> (r: String)
    ensures
        r@ == session_of(text::texts(headers@)),
{
    let ghost all = text::texts(headers@);
    let mut i: usize = 0;
    while i < headers.len()
        invariant
            0 <= i <= headers@.len(),
            all == text::texts(headers@),
            session_from(all, 0) == session_from(all, i as int),
        decreases headers@.len() - i,
    {
        assert(all[i as int] == headers@[i as int]@);
        if let Some(value) = parse_session_cookie(&headers[i]) {
            return value;
        }
        i += 1;
    }
    String::new()
}

/// Name and value of a `Set-Cookie` header, where neither is blank.
pub open spec fn cookie_pair(header: Seq<char>) -> Option<Seq<char>> {
    match text::split_once(text::trim(text::split(header, ';')[0]), '=') {
        Some((name, value)) => if text::is_blank(name) || text::is_blank(value) {
            None
        } else {
            Some(text::trim(name) + "="@ + text::trim(value))
        },
        None => None,
    }
}

/// The pairs of the first `n` headers.
pub open spec fn cookie_pairs(headers: Seq<Seq<char>>, n: int) -> Seq<Seq<char>>
    decreases n,
{
    if n <= 0 {
        Seq::empty()
    } else {
        match cookie_pair(headers[n - 1]) {
            Some(pair) => cookie_pairs(headers, n - 1).push(pair),
            None => cookie_pairs(headers, n - 1),
        }
    }
}

/// The cookies of an answer as the `Cookie` header of the next request.
pub open spec fn cookies_sent(headers: Seq<Seq<char>>) -> Seq<char> {
    text::joined(cookie_pairs(headers, headers.len() as int), "; "@)
}

fn cookie_of(header: &str) -> (r: Option<String>)
    ensures
        text::opt_view(r) == cookie_pair(header@),
{
    let parts = split_chars(&chars_of(header), ';');
    assert(text::char_views(parts@)[0] == parts@[0]@);
    match split_once_chars(&trim_chars(&parts[0]), '=') {
        Some((name, value)) => {
            let name = trim_chars(&name);
            let value = trim_chars(&value);
            if name.len() == 0 || value.len() == 0 {
                return None;
            }
            Some(join3(&string_of(&name), "=", &string_of(&value)))
        },
        None => None,
    }
}

pub fn cookie_header(headers: &Vec<String>) -> (r: String)
    ensures
        r@ == cookies_sent(text::texts(headers@)),
{
    let ghost all = text::texts(headers@);
    let mut pairs: Vec<String> = Vec::new();
    let mut i: usize = 0;
    assert(text::texts(pairs@) =~= cookie_pairs(all, 0));
    while i < headers.len()
        invariant
            0 <= i <= headers@.len(),
            all == text::texts(headers@),
            text::texts(pairs@) == cookie_pairs(all, i as int),
        decreases headers@.len() - i,
    {
        assert(all[i as int] == headers@[i as int]@);
        let ghost before = text::texts(pairs@);
        if let Some(found) = cookie_of(&headers[i]) {
            pairs.push(found);
            assert(text::texts(pairs@) =~= before.push(found@));
        }
        i += 1;
    }
    join_texts(&pairs, "; ")
}

// ---------------------------------------------------------------------------
// Token and code
// ---------------------------------------------------------------------------

/// The token in the answer to the login, or what is wrong with it.
pub open spec fn token_in(body: Seq<u8>) -> Result<Seq<char>, Seq<char>> {
    match json::parsed_json(body) {
        Err(message) => Err("Failed to read JSON: "@ + message),
        Ok(value) => match json::member(value, "data"@) {
            Some(data) => match json::as_text(json::member(data, "token"@)) {
                Some(token) if token.len() > 0 => Ok(token),
                _ => Err("登录接口未返回 token"@),
            },
            None => Err("登录接口未返回 token"@),
        },
    }
}

pub fn extract_token(body: &Vec<u8>) -> (r: Result<String, String>)
    ensures
        web::text_result(r) == token_in(body@),
{
    match read_json(body) {
        Err(message) => Err(join2("Failed to read JSON: ", &message)),
        Ok(value) => {
            if let Some(data) = get(&value, "data") {
                if let Some(token) = get_text(data, "token") {
                    if !token.as_str().is_empty() {
                        return Ok(token);
                    }
                }
            }
            Err("登录接口未返回 token".to_string())
        },
    }
}

/// The value of the first pair from `from` on that is a `code` and not empty.
pub open spec fn code_pair(pairs: Seq<web::Pair>, from: int) -> Option<Seq<char>>
    decreases pairs.len() - from,
{
    if from < 0 || from >= pairs.len() {
        None
    } else if pairs[from].0 == "code"@ && pairs[from].1.len() > 0 {
        Some(pairs[from].1)
    } else {
        code_pair(pairs, from + 1)
    }
}

fn find_code_pair(pairs: &Vec<(String, String)>) -> (r: Option<String>)
    ensures
        text::opt_view(r) == code_pair(web::pair_views(pairs@), 0),
{
    let ghost all = web::pair_views(pairs@);
    let mut i: usize = 0;
    while i < pairs.len()
        invariant
            0 <= i <= pairs@.len(),
            all == web::pair_views(pairs@),
            code_pair(all, 0) == code_pair(all, i as int),
        decreases pairs@.len() - i,
    {
        assert(all[i as int] == (pairs@[i as int].0@, pairs@[i as int].1@));
        if same(&pairs[i].0, "code") && !pairs[i].1.as_str().is_empty() {
            return Some(pairs[i].1.clone());
        }
        i += 1;
    }
    None
}

/// The first code in a JSON value, members before what they hold and from the
/// element `from` on.
pub open spec fn code_from(value: JsonModel, from: int) -> Option<Seq<char>>
    decreases
            value,
            match value {
                JsonModel::Object(members) => members.len() - from,
                JsonModel::Array(items) => items.len() - from,
                _ => 0,
            },
{
    match value {
        JsonModel::Object(members) => if from < 0 || from >= members.len() {
            None
        } else {
            let (key, held) = members[from];
            match held {
                JsonModel::Text(s) if text::lower(key) == text::lower("code"@) && s.len() > 0 => Some(
                    s,
                ),
                _ => match code_from(members[from].1, 0) {
                    Some(code) => Some(code),
                    None => code_from(value, from + 1),
                },
            }
        },
        JsonModel::Array(items) => if from < 0 || from >= items.len() {
            None
        } else {
            match code_from(items[from], 0) {
                Some(code) => Some(code),
                None => code_from(value, from + 1),
            }
        },
        _ => None,
    }
}

pub fn find_code_json(value: &Json) -> (r: Option<String>)
    ensures
        text::opt_view(r) == code_from(value@, 0),
    decreases value,
{
    match value {
        Json::Object(members) => {
            let ghost all = value@->Object_0;
            proof {
                json::lemma_members_model(members@, members@.len() as int);
            }
            let mut i: usize = 0;
            while i < members.len()
                invariant
                    0 <= i <= members@.len() == all.len(),
                    *value == Json::Object(*members),
                    value@ == JsonModel::Object(all),
                    forall|k: int|
                        0 <= k < all.len() ==> (#[trigger] all[k]) == (
                            members@[k].0@,
                            members@[k].1@,
                        ),
                    code_from(value@, 0) == code_from(value@, i as int),
                decreases members@.len() - i,
            {
                let held = &members[i].1;
                assert(all[i as int] == (members@[i as int].0@, held@));
                if eq_ignore_ascii_case(&members[i].0, "code") {
                    if let Json::Text(s) = held {
                        if !s.as_str().is_empty() {
                            return Some(s.clone());
                        }
                    }
                }
                let inside = find_code_json(held);
                if inside.is_some() {
                    return inside;
                }
                i += 1;
            }
            None
        },
        Json::Array(items) => {
            let ghost all = value@->Array_0;
            proof {
                json::lemma_items_model(items@, items@.len() as int);
            }
            let mut i: usize = 0;
            while i < items.len()
                invariant
                    0 <= i <= items@.len() == all.len(),
                    *value == Json::Array(*items),
                    value@ == JsonModel::Array(all),
                    forall|k: int| 0 <= k < all.len() ==> #[trigger] all[k] == items@[k]@,
                    code_from(value@, 0) == code_from(value@, i as int),
                decreases items@.len() - i,
            {
                assert(all[i as int] == items@[i as int]@);
                let inside = find_code_json(&items[i]);
                if inside.is_some() {
                    return inside;
                }
                i += 1;
            }
            None
        },
        _ => None,
    }
}

/// What follows the first question mark, or everything, up to a number sign.
pub open spec fn query_part(value: Seq<char>) -> Seq<char> {
    let query = match text::split_once(value, '?') {
        Some((_, after)) => after,
        None => value,
    };
    match text::split_once(query, '#') {
        Some((before, _)) => before,
        None => query,
    }
}

/// The code in a location or a body: from the query of a URL, from a query
/// without a host, or from JSON.
pub open spec fn code_in(value: Seq<char>) -> Option<Seq<char>> {
    let from_url = match web::parsed_url(value) {
        Ok(url) => code_pair(web::query_of(url), 0),
        Err(_) => None,
    };
    match from_url {
        Some(code) => Some(code),
        None => match code_pair(web::form_pairs(query_part(value)), 0) {
            Some(code) => Some(code),
            None => match json::parsed_json(vstd::utf8::encode_utf8(value)) {
                Ok(tree) => code_from(tree, 0),
                Err(_) => None,
            },
        },
    }
}

pub fn extract_code(value: &str) -> (r: Option<String>)
    ensures
        text::opt_view(r) == code_in(value@),
{
    if let Ok(url) = parse_url(value) {
        let found = find_code_pair(&query_pairs_of(&url));
        if found.is_some() {
            return found;
        }
    }
    // OAuth servers sometimes return a relative location rather than an
    // absolute URL. Its query needs no host.
    let all = chars_of(value);
    let query = match split_once_chars(&all, '?') {
        Some((_, after)) => after,
        None => all,
    };
    let query = match split_once_chars(&query, '#') {
        Some((before, _)) => before,
        None => query,
    };
    let found = find_code_pair(&parse_form(&string_of(&query)));
    if found.is_some() {
        return found;
    }
    match read_json(&value.as_bytes_vec()) {
        Ok(tree) => find_code_json(&tree),
        Err(_) => None,
    }
}

// ---------------------------------------------------------------------------
// The exchange
// ---------------------------------------------------------------------------

/// What is waited for. Times are readings of a monotonic clock.
#[derive(Clone, Copy, Debug, PartialEq, Eq, Structural)]
pub enum Stage {
    Login,
    OAuth,
    Gateway,
    /// A probe that may show the network up.
    Verifying { started: u64, delay: u64 },
    /// The pause before the next such probe.
    Pausing { started: u64, delay: u64 },
    Finished,
}

/// An authentication under way. It keeps no credentials: they stand in the
/// first request only.
#[derive(Debug)]
pub struct AuthFlow {
    pub config: AppConfig,
    pub params: PortalParams,
    /// Whether the stages are noted for the log.
    pub logging: bool,
    pub stage: Stage,
}

pub struct FlowModel {
    pub config: AppConfig,
    pub params: ParamsModel,
    pub logging: bool,
    pub stage: Stage,
}

impl View for AuthFlow {
    type V = FlowModel;

    open spec fn view(&self) -> FlowModel {
        FlowModel {
            config: self.config,
            params: self.params@,
            logging: self.logging,
            stage: self.stage,
        }
    }
}

/// A line for the log: an event and what is said of it.
#[derive(Debug)]
pub struct Note {
    pub event: String,
    pub detail: String,
}

pub type NoteModel = (Seq<char>, Seq<char>);

pub open spec fn notes_view(notes: Seq<Note>) -> Seq<NoteModel> {
    notes.map_values(|note: Note| (note.event@, note.detail@))
}

#[derive(Debug)]
pub enum AuthAction {
    /// Post JSON, redirects not followed.
    Post { url: String, body: String, timeout: u64 },
    /// Get, with at most so many redirects followed and at most `read` bytes of
    /// the answer's body read.
    Get { url: String, headers: Vec<(String, String)>, timeout: u64, redirects: u32, read: u64 },
    /// Probe with this bound for each request.
    Probe { timeout: u64 },
    /// Sleep so many nanoseconds.
    Sleep(u64),
    Done(Result<(), AuthError>),
}

pub enum AuthActionModel {
    Post { url: Seq<char>, body: Seq<char>, timeout: u64 },
    Get { url: Seq<char>, headers: Seq<web::Pair>, timeout: u64, redirects: u32, read: u64 },
    Probe { timeout: u64 },
    Sleep(u64),
    Done(Result<(), AuthErrorModel>),
}

impl View for AuthAction {
    type V = AuthActionModel;

    open spec fn view(&self) -> AuthActionModel {
        match *self {
            AuthAction::Post { url, body, timeout } => AuthActionModel::Post {
                url: url@,
                body: body@,
                timeout,
            },
            AuthAction::Get { url, headers, timeout, redirects, read } => AuthActionModel::Get {
                url: url@,
                headers: web::pair_views(headers@),
                timeout,
                redirects,
                read,
            },
            AuthAction::Probe { timeout } => AuthActionModel::Probe { timeout },
            AuthAction::Sleep(delay) => AuthActionModel::Sleep(delay),
            AuthAction::Done(Ok(_)) => AuthActionModel::Done(Ok(())),
            AuthAction::Done(Err(error)) => AuthActionModel::Done(Err(error@)),
        }
    }
}

/// What comes next, and what is to be noted before it.
#[derive(Debug)]
pub struct AuthStep {
    pub notes: Vec<Note>,
    pub action: AuthAction,
}

/// What came back of a request that succeeded.
#[derive(Debug)]
pub struct Answer {
    /// The `Set-Cookie` headers.
    pub cookies: Vec<String>,
    pub location: Option<String>,
    /// The body, or why it could not be read.
    pub body: Result<Vec<u8>, String>,
}

#[derive(Debug)]
pub enum AuthEvent {
    Answered(Answer),
    /// The request failed; a stable error category, never a message that could
    /// contain a URL.
    Failed(String),
    Probed(ProbeResult),
    Slept,
}

impl AuthFlow {
    /// The delays stay within bounds.
    pub open spec fn wf(&self) -> bool {
        match self.stage {
            Stage::Verifying { delay, .. } => FIRST_VERIFY_DELAY <= delay <= MAX_VERIFY_DELAY,
            Stage::Pausing { delay, .. } => FIRST_VERIFY_DELAY <= delay <= MAX_VERIFY_DELAY,
            _ => true,
        }
    }

    /// The event is an outcome of what the flow waits for.
    pub open spec fn expects(&self, event: AuthEvent) -> bool {
        match self.stage {
            Stage::Login => event is Answered || event is Failed,
            Stage::OAuth => event is Answered || event is Failed,
            Stage::Gateway => event is Answered || event is Failed,
            Stage::Verifying { .. } => event is Probed,
            Stage::Pausing { .. } => event is Slept,
            Stage::Finished => false,
        }
    }
}

/// The text of the login request: a JSON object with exactly the account, its
/// identifier and an empty captcha key.
pub open spec fn login_body(body: Seq<char>, credentials: Credentials) -> bool {
    exists|value: JsonModel|
        {
            &&& #[trigger] json::reads_as(body, value)
            &&& body == json::json_written(value)
            &&& body == json::flat_text(value)
            &&& json::flat(value)
            &&& json::member(value, "phone"@) == Some(JsonModel::Text(credentials.phone@))
            &&& json::member(value, "uid"@) == Some(JsonModel::Text(credentials.uid@))
            &&& json::member(value, "captchaKey"@) == Some(JsonModel::Text(Seq::empty()))
            &&& value matches JsonModel::Object(members) && json::distinct_members(members)
                && forall|k: int|
                0 <= k < members.len() ==> {
                    let name = (#[trigger] members[k]).0;
                    name == "phone"@ || name == "uid"@ || name == "captchaKey"@
                }
        }
}

fn write_login_body(credentials: &Credentials) -> (body: String)
    ensures
        login_body(body@, *credentials),
{
    let mut fields: Vec<(String, Field)> = Vec::new();
    fields.push(("phone".to_string(), Field::Text(credentials.phone.clone())));
    fields.push(("uid".to_string(), Field::Text(credentials.uid.clone())));
    fields.push(("captchaKey".to_string(), Field::Text(String::new())));
    let body = object_text(&fields);
    proof {
        reveal_strlit("phone");
        reveal_strlit("uid");
        reveal_strlit("captchaKey");
        let value = choose|value: JsonModel|
            {
                &&& #[trigger] json::holds_fields(value, fields@)
                &&& body@ == json::json_written(value)
                &&& body@ == json::flat_text(value)
                &&& json::reads_as(body@, value)
            };
        assert(json::last_of_name(fields@, 0)) by {
            assert("phone"@.len() != "uid"@.len());
            assert("phone"@.len() != "captchaKey"@.len());
        }
        assert(json::last_of_name(fields@, 1)) by {
            assert("uid"@.len() != "captchaKey"@.len());
        }
        assert(json::last_of_name(fields@, 2));
        assert(fields@[0].1@ == JsonModel::Text(credentials.phone@));
        assert(fields@[1].1@ == JsonModel::Text(credentials.uid@));
        assert(fields@[2].1@ == JsonModel::Text(Seq::empty()));
        assert(json::reads_as(body@, value));
    }
    body
}

pub open spec fn noted(logging: bool, notes: Seq<NoteModel>) -> Seq<NoteModel> {
    if logging {
        notes
    } else {
        Seq::empty()
    }
}

fn stage_log(logging: bool, notes: &mut Vec<Note>, event: &str, detail: &str)
    ensures
        notes_view(final(notes)@) == if logging {
            notes_view(old(notes)@).push((event@, detail@))
        } else {
            notes_view(old(notes)@)
        },
{
    if logging {
        notes.push(Note { event: event.to_string(), detail: detail.to_string() });
        assert(notes_view(notes@) =~= notes_view(old(notes)@).push((event@, detail@)));
    }
}

/// Flow, notes and next action.
pub type AuthMove = (FlowModel, Seq<NoteModel>, AuthActionModel);

pub open spec fn at_stage(f: FlowModel, stage: Stage) -> FlowModel {
    FlowModel { stage, ..f }
}

pub open spec fn given_up(f: FlowModel, notes: Seq<NoteModel>, error: AuthErrorModel) -> AuthMove {
    (at_stage(f, Stage::Finished), noted(f.logging, notes), AuthActionModel::Done(Err(error)))
}

/// The headers of the OAuth request.
pub open spec fn oauth_headers(token: Seq<char>, cookies: Seq<char>) -> Seq<web::Pair> {
    if cookies.len() > 0 {
        seq![("satoken"@, token), ("Cookie"@, cookies)]
    } else {
        seq![("satoken"@, token)]
    }
}

/// The headers of the request to the gateway.
pub open spec fn gateway_headers(session: Seq<char>) -> Seq<web::Pair> {
    if session.len() > 0 {
        seq![("Cookie"@, "JSESSIONID="@ + session)]
    } else {
        Seq::empty()
    }
}

/// The login was answered: with its token on to OAuth.
pub open spec fn login_answered(f: FlowModel, answer: Answer) -> AuthMove {
    match answer.body {
        Err(message) => given_up(f, Seq::empty(), AuthErrorModel::Protocol(message@)),
        Ok(body) => match token_in(body@) {
            Err(message) => given_up(f, Seq::empty(), AuthErrorModel::Protocol(message)),
            Ok(token) => {
                let notes = seq![("auth_token_received"@, "token_present=true"@)];
                match inner_url(f.config, f.params) {
                    Err(message) => given_up(f, notes, AuthErrorModel::Protocol(message)),
                    Ok(inner) => (
                        at_stage(f, Stage::OAuth),
                        noted(f.logging, notes),
                        AuthActionModel::Get {
                            url: oauth_url(legacy_redirect(inner), f.config.service_name@),
                            headers: oauth_headers(
                                token,
                                cookies_sent(text::texts(answer.cookies@)),
                            ),
                            timeout: (15 * SECOND) as u64,
                            redirects: 0,
                            read: (MAX_CODE_BODY_BYTES + 1) as u64,
                        },
                    ),
                }
            },
        },
    }
}

/// The body as text. One that could not be read, or that is too long, counts as
/// empty.
pub open spec fn body_chars(body: Result<Vec<u8>, String>) -> Seq<char> {
    match body {
        Ok(bytes) if bytes@.len() <= MAX_CODE_BODY_BYTES => text::utf8_lossy(bytes@),
        _ => Seq::empty(),
    }
}

fn body_text(body: &Result<Vec<u8>, String>) -> (r: String)
    ensures
        r@ == body_chars(*body),
{
    match body {
        Ok(bytes) => {
            if bytes.len() as u64 <= MAX_CODE_BODY_BYTES {
                decode_lossy(bytes)
            } else {
                String::new()
            }
        },
        Err(_) => String::new(),
    }
}

/// The code of an answer: from its location, else from its body.
pub open spec fn answer_code(answer: Answer) -> Option<Seq<char>> {
    let from_location = match answer.location {
        Some(location) => code_in(location@),
        None => None,
    };
    match from_location {
        Some(code) => Some(code),
        None => code_in(body_chars(answer.body)),
    }
}

/// OAuth was answered: with its code on to the gateway.
pub open spec fn oauth_answered(f: FlowModel, answer: Answer) -> AuthMove {
    let first = ("auth_oauth_response"@, "status_received=true"@);
    match answer_code(answer) {
        None => given_up(
            f,
            seq![first],
            AuthErrorModel::Protocol("OAuth 响应未返回 code"@),
        ),
        Some(code) => {
            let notes = seq![first, ("auth_code_received"@, "code_present=true"@)];
            match final_url(f.config, f.params, code) {
                Err(message) => given_up(f, notes, AuthErrorModel::Protocol(message)),
                Ok(url) => (
                    at_stage(f, Stage::Gateway),
                    noted(f.logging, notes),
                    AuthActionModel::Get {
                        url,
                        headers: gateway_headers(session_of(text::texts(answer.cookies@))),
                        timeout: (20 * SECOND) as u64,
                        redirects: 5,
                        read: 0,
                    },
                ),
            }
        },
    }
}

/// A look at the network after the gateway was asked.
pub open spec fn looked(
    f: FlowModel,
    started: u64,
    delay: u64,
    result: ProbeModel,
    now: u64,
) -> AuthMove {
    if result is Online {
        (
            at_stage(f, Stage::Finished),
            noted(f.logging, seq![("auth_verify"@, "verified=true"@)]),
            AuthActionModel::Done(Ok(())),
        )
    } else if clock::since(started, now) >= VERIFY_BUDGET {
        given_up(
            f,
            seq![("auth_verify"@, "verified=false"@)],
            AuthErrorModel::VerifyFailed,
        )
    } else {
        (
            at_stage(
                f,
                Stage::Pausing {
                    started,
                    delay: clock::least(delay + delay, MAX_VERIFY_DELAY as int) as u64,
                },
            ),
            Seq::empty(),
            AuthActionModel::Sleep(
                clock::least(delay as int, VERIFY_BUDGET - clock::since(started, now)) as u64,
            ),
        )
    }
}

pub open spec fn auth_advanced(f: FlowModel, event: AuthEvent, now: u64) -> AuthMove {
    match (f.stage, event) {
        (Stage::Login, AuthEvent::Answered(answer)) => login_answered(f, answer),
        (Stage::OAuth, AuthEvent::Answered(answer)) => oauth_answered(f, answer),
        (Stage::Gateway, AuthEvent::Answered(_)) => (
            at_stage(f, Stage::Verifying { started: now, delay: FIRST_VERIFY_DELAY }),
            noted(f.logging, seq![("auth_final_request"@, "request_sent=true"@)]),
            AuthActionModel::Probe { timeout: VERIFY_PROBE_TIMEOUT },
        ),
        (_, AuthEvent::Failed(kind)) => given_up(
            f,
            Seq::empty(),
            AuthErrorModel::Transport(kind@),
        ),
        (Stage::Verifying { started, delay }, AuthEvent::Probed(result)) => looked(
            f,
            started,
            delay,
            result@,
            now,
        ),
        (Stage::Pausing { started, delay }, AuthEvent::Slept) => (
            at_stage(f, Stage::Verifying { started, delay }),
            Seq::empty(),
            AuthActionModel::Probe { timeout: VERIFY_PROBE_TIMEOUT },
        ),
        _ => given_up(f, Seq::empty(), AuthErrorModel::VerifyFailed),
    }
}

/// The start of an authentication: the credentials go to the login, and to
/// nothing else.
pub open spec fn auth_begun(
    config: AppConfig,
    credentials: Credentials,
    params: ParamsModel,
    logging: bool,
    flow: FlowModel,
    notes: Seq<NoteModel>,
    action: AuthActionModel,
) -> bool {
    &&& flow == (FlowModel { config, params, logging, stage: Stage::Login })
    &&& notes == noted(logging, seq![("auth_login_start"@, "credentials_present=true"@)])
    &&& action matches AuthActionModel::Post { url, body, timeout } && {
        &&& url == API_LOGIN@
        &&& login_body(body, credentials)
        &&& timeout == 10 * SECOND
    }
}

fn authenticate_inner(
    config: &AppConfig,
    credentials: &Credentials,
    params: &PortalParams,
    logging: bool,
) -> (r: (AuthFlow, AuthStep))
    ensures
        r.0.wf(),
        auth_begun(
            *config,
            *credentials,
            params@,
            logging,
            r.0@,
            notes_view(r.1.notes@),
            r.1.action@,
        ),
{
    let mut notes: Vec<Note> = Vec::new();
    assert(notes_view(notes@) =~= Seq::<NoteModel>::empty());
    stage_log(logging, &mut notes, "auth_login_start", "credentials_present=true");
    let flow = AuthFlow {
        config: config.clone(),
        params: params.clone(),
        logging,
        stage: Stage::Login,
    };
    let action = AuthAction::Post {
        url: API_LOGIN.to_string(),
        body: write_login_body(credentials),
        timeout: 10 * SECOND,
    };
    assert(notes_view(notes@) =~= noted(
        logging,
        seq![("auth_login_start"@, "credentials_present=true"@)],
    ));
    (flow, AuthStep { notes, action })
}

/// Begins the authentication without noting its stages.
pub fn authenticate(config: &AppConfig, credentials: &Credentials, params: &PortalParams) -> (r: (
    AuthFlow,
    AuthStep,
))
    ensures
        r.0.wf(),
        auth_begun(
            *config,
            *credentials,
            params@,
            false,
            r.0@,
            notes_view(r.1.notes@),
            r.1.action@,
        ),
{
    authenticate_inner(config, credentials, params, false)
}

/// Begins the authentication and notes each stage for diagnostics. Sensitive
/// values are never noted.
pub fn authenticate_with_logger(
    config: &AppConfig,
    credentials: &Credentials,
    params: &PortalParams,
) -> (r: (AuthFlow, AuthStep))
    ensures
        r.0.wf(),
        auth_begun(
            *config,
            *credentials,
            params@,
            true,
            r.0@,
            notes_view(r.1.notes@),
            r.1.action@,
        ),
{
    authenticate_inner(config, credentials, params, true)
}

impl AuthFlow {
    fn give_up(&mut self, notes: Vec<Note>, error: AuthError) -> (step: AuthStep)
        ensures
            final(self)@ == at_stage(old(self)@, Stage::Finished),
            step.notes == notes,
            step.action@ == AuthActionModel::Done(Err(error@)),
    {
        self.stage = Stage::Finished;
        AuthStep { notes, action: AuthAction::Done(Err(error)) }
    }

    fn answer_login(&mut self, answer: Answer) -> (step: AuthStep)
        ensures
            (final(self)@, notes_view(step.notes@), step.action@) == login_answered(
                old(self)@,
                answer,
            ),
    {
        let mut notes: Vec<Note> = Vec::new();
        assert(notes_view(notes@) =~= Seq::<NoteModel>::empty());
        assert(noted(self.logging, Seq::empty()) =~= Seq::<NoteModel>::empty());
        // The API session cookies are carried to the OAuth request explicitly.
        let cookies = cookie_header(&answer.cookies);
        let body = match answer.body {
            Err(message) => {
                return self.give_up(notes, AuthError::Protocol(message));
            },
            Ok(body) => body,
        };
        let token = match extract_token(&body) {
            Err(message) => {
                return self.give_up(notes, AuthError::Protocol(message));
            },
            Ok(token) => token,
        };
        stage_log(self.logging, &mut notes, "auth_token_received", "token_present=true");
        assert(notes_view(notes@) =~= noted(
            self.logging,
            seq![("auth_token_received"@, "token_present=true"@)],
        ));
        let inner = match build_inner_url(&self.config, &self.params) {
            Err(error) => {
                return self.give_up(notes, error);
            },
            Ok(inner) => inner,
        };
        let url = build_oauth_url(&encode_legacy_redirect(&inner), &self.config.service_name);
        let mut headers: Vec<(String, String)> = Vec::new();
        headers.push(pair("satoken", &token));
        if !cookies.as_str().is_empty() {
            headers.push(pair("Cookie", &cookies));
        }
        assert(web::pair_views(headers@) =~= oauth_headers(token@, cookies@));
        self.stage = Stage::OAuth;
        AuthStep {
            notes,
            action: AuthAction::Get {
                url,
                headers,
                timeout: 15 * SECOND,
                redirects: 0,
                read: MAX_CODE_BODY_BYTES + 1,
            },
        }
    }

    fn answer_oauth(&mut self, answer: Answer) -> (step: AuthStep)
        ensures
            (final(self)@, notes_view(step.notes@), step.action@) == oauth_answered(
                old(self)@,
                answer,
            ),
    {
        let mut notes: Vec<Note> = Vec::new();
        assert(notes_view(notes@) =~= Seq::<NoteModel>::empty());
        stage_log(self.logging, &mut notes, "auth_oauth_response", "status_received=true");
        assert(notes_view(notes@) =~= noted(
            self.logging,
            seq![("auth_oauth_response"@, "status_received=true"@)],
        ));
        let session = session_id(&answer.cookies);
        let body = body_text(&answer.body);
        let from_location = match answer.location {
            Some(location) => extract_code(&location),
            None => None,
        };
        let found = match from_location {
            Some(code) => Some(code),
            None => extract_code(&body),
        };
        let code = match found {
            None => {
                return self.give_up(
                    notes,
                    AuthError::Protocol("OAuth 响应未返回 code".to_string()),
                );
            },
            Some(code) => code,
        };
        stage_log(self.logging, &mut notes, "auth_code_received", "code_present=true");
        assert(notes_view(notes@) =~= noted(
            self.logging,
            seq![
                ("auth_oauth_response"@, "status_received=true"@),
                ("auth_code_received"@, "code_present=true"@),
            ],
        ));
        let url = match build_final_url(&self.config, &self.params, &code) {
            Err(error) => {
                return self.give_up(notes, error);
            },
            Ok(url) => url,
        };
        let mut headers: Vec<(String, String)> = Vec::new();
        if !session.as_str().is_empty() {
            headers.push(pair("Cookie", &join2("JSESSIONID=", &session)));
        }
        assert(web::pair_views(headers@) =~= gateway_headers(session@));
        self.stage = Stage::Gateway;
        // The gateway's final redirect is followed, within bounds.
        AuthStep {
            notes,
            action: AuthAction::Get { url, headers, timeout: 20 * SECOND, redirects: 5, read: 0 },
        }
    }

    /// Verifies as soon as the gateway takes effect: short probes with growing
    /// pauses return at once on success and stay bounded during a slow change
    /// of route.
    fn look(&mut self, started: u64, delay: u64, result: ProbeResult, now: u64) -> (step: AuthStep)
        requires
            delay <= MAX_VERIFY_DELAY,
        ensures
            (final(self)@, notes_view(step.notes@), step.action@) == looked(
                old(self)@,
                started,
                delay,
                result@,
                now,
            ),
    {
        let mut notes: Vec<Note> = Vec::new();
        assert(notes_view(notes@) =~= Seq::<NoteModel>::empty());
        if let ProbeResult::Online { .. } = result {
            stage_log(self.logging, &mut notes, "auth_verify", "verified=true");
            assert(notes_view(notes@) =~= noted(
                self.logging,
                seq![("auth_verify"@, "verified=true"@)],
            ));
            self.stage = Stage::Finished;
            return AuthStep { notes, action: AuthAction::Done(Ok(())) };
        }
        let spent: u64 = now.saturating_sub(started);
        if spent >= VERIFY_BUDGET {
            stage_log(self.logging, &mut notes, "auth_verify", "verified=false");
            assert(notes_view(notes@) =~= noted(
                self.logging,
                seq![("auth_verify"@, "verified=false"@)],
            ));
            return self.give_up(notes, AuthError::VerifyFailed);
        }
        self.stage = Stage::Pausing { started, delay: shorter(delay + delay, MAX_VERIFY_DELAY) };
        AuthStep { notes, action: AuthAction::Sleep(shorter(delay, VERIFY_BUDGET - spent)) }
    }

    /// Takes the outcome of what was asked for last and says what comes next.
    /// `now` is a reading of the monotonic clock in nanoseconds.
    pub fn advance(&mut self, event: AuthEvent, now: u64) -> (step: AuthStep)
        requires
            old(self).wf(),
            old(self).expects(event),
        ensures
            final(self).wf(),
            step.action is Done <==> final(self).stage is Finished,
            (final(self)@, notes_view(step.notes@), step.action@) == auth_advanced(
                old(self)@,
                event,
                now,
            ),
    {
        let mut notes: Vec<Note> = Vec::new();
        assert(notes_view(notes@) =~= Seq::<NoteModel>::empty());
        assert(noted(self.logging, Seq::empty()) =~= Seq::<NoteModel>::empty());
        match (self.stage, event) {
            (_, AuthEvent::Failed(kind)) => self.give_up(notes, AuthError::Transport(kind)),
            (Stage::Login, AuthEvent::Answered(answer)) => self.answer_login(answer),
            (Stage::OAuth, AuthEvent::Answered(answer)) => self.answer_oauth(answer),
            (Stage::Gateway, AuthEvent::Answered(_)) => {
                stage_log(self.logging, &mut notes, "auth_final_request", "request_sent=true");
                assert(notes_view(notes@) =~= noted(
                    self.logging,
                    seq![("auth_final_request"@, "request_sent=true"@)],
                ));
                self.stage = Stage::Verifying { started: now, delay: FIRST_VERIFY_DELAY };
                AuthStep { notes, action: AuthAction::Probe { timeout: VERIFY_PROBE_TIMEOUT } }
            },
            (Stage::Verifying { started, delay }, AuthEvent::Probed(result)) => self.look(
                started,
                delay,
                result,
                now,
            ),
            (Stage::Pausing { started, delay }, AuthEvent::Slept) => {
                self.stage = Stage::Verifying { started, delay };
                AuthStep { notes, action: AuthAction::Probe { timeout: VERIFY_PROBE_TIMEOUT } }
            },
            _ => self.give_up(notes, AuthError::VerifyFailed),
        }
    }
}

// ---------------------------------------------------------------------------
// Laws
// ---------------------------------------------------------------------------

/// The lines that an authentication may note.
pub open spec fn fixed_note(note: NoteModel) -> bool {
    ||| note == ("auth_login_start"@, "credentials_present=true"@)
    ||| note == ("auth_token_received"@, "token_present=true"@)
    ||| note == ("auth_oauth_response"@, "status_received=true"@)
    ||| note == ("auth_code_received"@, "code_present=true"@)
    ||| note == ("auth_final_request"@, "request_sent=true"@)
    ||| note == ("auth_verify"@, "verified=true"@)
    ||| note == ("auth_verify"@, "verified=false"@)
}

/// What is noted is one of a few fixed lines, whatever the answers and their
/// secrets; without a logger nothing is noted.
pub proof fn notes_hold_no_secrets(f: FlowModel, event: AuthEvent, now: u64)
    ensures
        forall|k: int|
            0 <= k < auth_advanced(f, event, now).1.len() ==> fixed_note(
                #[trigger] auth_advanced(f, event, now).1[k],
            ),
        !f.logging ==> auth_advanced(f, event, now).1.len() == 0,
{
}

/// So it is at the start, whatever the credentials.
pub proof fn first_note_holds_no_secrets(
    config: AppConfig,
    credentials: Credentials,
    params: ParamsModel,
    logging: bool,
    flow: FlowModel,
    notes: Seq<NoteModel>,
    action: AuthActionModel,
)
    requires
        auth_begun(config, credentials, params, logging, flow, notes, action),
    ensures
        forall|k: int| 0 <= k < notes.len() ==> fixed_note(#[trigger] notes[k]),
        !logging ==> notes.len() == 0,
{
}

/// The account goes out once, in the first request: no later step posts
/// anything.
pub proof fn credentials_are_posted_once(f: FlowModel, event: AuthEvent, now: u64)
    ensures
        !(auth_advanced(f, event, now).2 is Post),
{
}

/// Success is claimed only after a probe has shown the network up.
pub proof fn success_is_verified(f: FlowModel, event: AuthEvent, now: u64)
    requires
        auth_advanced(f, event, now).2 matches AuthActionModel::Done(outcome) && outcome is Ok,
    ensures
        f.stage is Verifying,
        event matches AuthEvent::Probed(result) && result@ is Online,
{
}

/// How far an exchange has come.
pub open spec fn rank(stage: Stage) -> int {
    match stage {
        Stage::Login => 0,
        Stage::OAuth => 1,
        Stage::Gateway => 2,
        Stage::Verifying { .. } => 3,
        Stage::Pausing { .. } => 3,
        Stage::Finished => 4,
    }
}

/// The exchange only moves forward, stage by stage or to its end, and keeps
/// its configuration and parameters.
pub proof fn exchange_moves_forward(f: FlowModel, event: AuthEvent, now: u64)
    ensures
        ({
            let g = auth_advanced(f, event, now).0;
            &&& g.config == f.config && g.params == f.params && g.logging == f.logging
            &&& rank(g.stage) == rank(f.stage) + 1 || g.stage is Finished || (rank(f.stage) == 3
                && rank(g.stage) == 3)
        }),
{
}

/// The pauses of the verification end within its budget and are short.
pub proof fn verification_is_bounded(f: AuthFlow, event: AuthEvent, now: u64)
    requires
        f.wf(),
    ensures
        auth_advanced(f@, event, now).2 matches AuthActionModel::Sleep(delay) ==> {
            &&& 0 < delay <= MAX_VERIFY_DELAY
            &&& f.stage matches Stage::Verifying { started, .. }
            &&& clock::since(started, now) + delay <= VERIFY_BUDGET
        },
{
}

/// Only the gateway's answer is followed to where it redirects.
pub proof fn redirects_are_bounded(f: FlowModel, event: AuthEvent, now: u64)
    ensures
        auth_advanced(f, event, now).2 matches AuthActionModel::Get { redirects, .. } ==> {
            if f.stage is Login {
                redirects == 0
            } else {
                redirects == 5
            }
        },
{
}

proof fn lemma_code_pair(pairs: Seq<web::Pair>, from: int)
    ensures
        code_pair(pairs, from) matches Some(code) ==> code.len() > 0,
    decreases pairs.len() - from,
{
    if 0 <= from < pairs.len() {
        lemma_code_pair(pairs, from + 1);
    }
}

proof fn lemma_code_from(value: JsonModel, from: int)
    ensures
        code_from(value, from) matches Some(code) ==> code.len() > 0,
    decreases
            value,
            match value {
                JsonModel::Object(members) => members.len() - from,
                JsonModel::Array(items) => items.len() - from,
                _ => 0,
            },
{
    match value {
        JsonModel::Object(members) => {
            if 0 <= from < members.len() {
                lemma_code_from(members[from].1, 0);
                lemma_code_from(value, from + 1);
            }
        },
        JsonModel::Array(items) => {
            if 0 <= from < items.len() {
                lemma_code_from(items[from], 0);
                lemma_code_from(value, from + 1);
            }
        },
        _ => {},
    }
}

/// A code or a token that is found is never empty.
pub proof fn found_secrets_are_not_empty(value: Seq<char>, body: Seq<u8>)
    ensures
        code_in(value) matches Some(code) ==> code.len() > 0,
        token_in(body) matches Ok(token) ==> token.len() > 0,
{
    if let Ok(url) = web::parsed_url(value) {
        lemma_code_pair(web::query_of(url), 0);
    }
    lemma_code_pair(web::form_pairs(query_part(value)), 0);
    if let Ok(tree) = json::parsed_json(vstd::utf8::encode_utf8(value)) {
        lemma_code_from(tree, 0);
    }
}

/// The redirect in the OAuth URL holds no character that could end its
/// parameter: no ampersand, no question mark, no number sign, no white space.
pub proof fn redirect_stays_one_parameter(inner: Seq<char>)
    ensures
        forall|k: int|
            0 <= k < legacy_redirect(inner).len() ==> web::form_char(
                #[trigger] legacy_redirect(inner)[k],
            ),
{
    web::encoding_is_plain(text::replace(inner, "?"@, "%3F"@));
}

// ---------------------------------------------------------------------------
// What the URLs are for
// ---------------------------------------------------------------------------

/// Read again as a web address, the final URL tells the gateway the code, the
/// carrier, the apartment and the room, each under its own name.
pub proof fn gateway_reads_the_room(
    config: AppConfig,
    code: Seq<char>,
    inner: Seq<char>,
    url: Seq<char>,
    u: web::UrlModel,
)
    requires
        web::carries(inner, final_pairs(config, code), url),
        web::parsed_url(url) == Ok::<_, Seq<char>>(u),
        u.scheme == "http"@ || u.scheme == "https"@,
    ensures
        web::query_of(u).len() >= 4,
        web::query_of(u)[web::query_of(u).len() - 4] == ("code"@, code),
        web::query_of(u)[web::query_of(u).len() - 3] == ("serviceName"@, config.service_name@),
        web::query_of(u)[web::query_of(u).len() - 2] == ("apartmentId"@, config.apartment_id@),
        web::query_of(u)[web::query_of(u).len() - 1] == ("roomId"@, config.room_id@),
        web::parsed_url(inner) matches Ok(b) && web::query_of(u).take(web::query_of(u).len() - 4)
            == web::query_of(b),
{
    let q = web::query_of(u);
    let b = web::parsed_url(inner)->Ok_0;
    assert(q.take(q.len() - 4) =~= web::query_of(b));
}

/// Read again as a web address, the inner URL gives the portal's parameters
/// back, each under the name that the portal gave it, and says how the client
/// is connected.
pub proof fn gateway_reads_the_parameters(
    config: AppConfig,
    params: ParamsModel,
    inner: Seq<char>,
    u: web::UrlModel,
)
    requires
        web::carries(config.gateway@, inner_pairs(params), inner),
        web::parsed_url(inner) == Ok::<_, Seq<char>>(u),
        u.scheme == "http"@ || u.scheme == "https"@,
    ensures
        web::query_of(u).len() >= 13,
        web::query_of(u).contains(("wlanuserip"@, params.wlan_user_ip)),
        web::query_of(u).contains(("wlanacname"@, params.wlan_ac_name)),
        web::query_of(u).contains(("nasip"@, params.nas_ip)),
        web::query_of(u).contains(("mac"@, params.mac)),
        web::query_of(u).contains(("url"@, params.original_url)),
        web::query_of(u).contains(("nasid"@, params.nas_id)),
        web::query_of(u).contains(("vid"@, params.vid)),
        web::query_of(u).contains(("port"@, params.port)),
        web::query_of(u).contains(("nasportid"@, params.nas_port_id)),
        web::query_of(u).contains(("t"@, "wireless-v2"@)),
        web::query_of(u).contains(("ssid"@, Seq::empty())),
        web::query_of(u).contains(("snmpagentip"@, Seq::empty())),
        web::query_of(u).contains(("apmac"@, Seq::empty())),
        web::parsed_url(config.gateway@) matches Ok(g) && web::query_of(u).take(
            web::query_of(u).len() - 13,
        ) == web::query_of(g),
{
    let q = web::query_of(u);
    let n = q.len() - 13;
    let p = inner_pairs(params);
    let g = web::parsed_url(config.gateway@)->Ok_0;
    assert(q.take(n) =~= web::query_of(g));
    assert forall|k: int| 0 <= k < 13 implies q[n + k] == #[trigger] p[k] by {}
    assert(q[n] == p[0] && q[n + 1] == p[1] && q[n + 2] == p[2] && q[n + 3] == p[3]);
    assert(q[n + 4] == p[4] && q[n + 5] == p[5] && q[n + 6] == p[6] && q[n + 7] == p[7]);
    assert(q[n + 8] == p[8] && q[n + 9] == p[9] && q[n + 10] == p[10] && q[n + 11] == p[11]);
    assert(q[n + 12] == p[12]);
}

proof fn lemma_final_names(config: AppConfig, code: Seq<char>, i: int)
    requires
        0 <= i < 4,
    ensures
        forall|k: int|
            0 <= k < final_pairs(config, code)[i].0.len() ==> web::stays(
                #[trigger] final_pairs(config, code)[i].0[k],
            ),
{
    reveal_strlit("code");
    reveal_strlit("serviceName");
    reveal_strlit("apartmentId");
    reveal_strlit("roomId");
}

/// The text of the final URL: behind the inner URL's stem a query that, decoded
/// by hand, holds the code, the carrier, the apartment and the room, each under
/// its own name.
pub proof fn final_url_spells_the_room(
    config: AppConfig,
    params: ParamsModel,
    code: Seq<char>,
    inner: Seq<char>,
    url: Seq<char>,
) -> (r: (web::UrlModel, Seq<char>))
    requires
        inner_url(config, params) == Ok::<_, Seq<char>>(inner),
        final_url(config, params, code) == Ok::<_, Seq<char>>(url),
    ensures
        web::parsed_url(inner) == Ok::<_, Seq<char>>(r.0),
        url == r.0.stem + "?"@ + r.1 + r.0.tail,
        text::starts_with(r.1, web::query_text(r.0)),
        web::spelled(r.1, "code"@, code),
        web::spelled(r.1, "serviceName"@, config.service_name@),
        web::spelled(r.1, "apartmentId"@, config.apartment_id@),
        web::spelled(r.1, "roomId"@, config.room_id@),
{
    let m = web::parsed_url(inner)->Ok_0;
    let pairs = final_pairs(config, code);
    let query = web::appended(web::query_text(m), pairs);
    lemma_final_names(config, code, 0);
    lemma_final_names(config, code, 1);
    lemma_final_names(config, code, 2);
    lemma_final_names(config, code, 3);
    web::appended_pairs_are_spelled(web::query_text(m), pairs, 0);
    web::appended_pairs_are_spelled(web::query_text(m), pairs, 1);
    web::appended_pairs_are_spelled(web::query_text(m), pairs, 2);
    web::appended_pairs_are_spelled(web::query_text(m), pairs, 3);
    lemma_appended_keeps(web::query_text(m), pairs);
    (m, query)
}

proof fn lemma_appended_keeps(query: Seq<char>, pairs: Seq<web::Pair>)
    ensures
        text::starts_with(web::appended(query, pairs), query),
    decreases pairs.len(),
{
    let all = web::appended(query, pairs);
    let n = query.len() as int;
    if pairs.len() == 0 {
        assert(all.subrange(0, n) =~= query);
    } else {
        let front = web::appended(query, pairs.drop_last());
        lemma_appended_keeps(query, pairs.drop_last());
        assert(all.subrange(0, n) =~= front.subrange(0, n));
    }
}

/// Two final URLs of one portal are the same only where code, carrier,
/// apartment and room are: whoever changes the carrier gets another URL.
pub proof fn final_urls_tell_rooms_apart(
    a: AppConfig,
    b: AppConfig,
    params: ParamsModel,
    code: Seq<char>,
    other: Seq<char>,
    url: Seq<char>,
)
    requires
        a.gateway@ == b.gateway@,
        final_url(a, params, code) == Ok::<_, Seq<char>>(url),
        final_url(b, params, other) == Ok::<_, Seq<char>>(url),
    ensures
        code == other,
        a.service_name@ == b.service_name@,
        a.apartment_id@ == b.apartment_id@,
        a.room_id@ == b.room_id@,
{
    let inner = inner_url(a, params)->Ok_0;
    let m = web::parsed_url(inner)->Ok_0;
    let p = final_pairs(a, code);
    let q = final_pairs(b, other);
    let start = m.stem + "?"@;
    let x = web::appended(web::query_text(m), p);
    let y = web::appended(web::query_text(m), q);
    assert(url == start + x + m.tail && url == start + y + m.tail);
    assert((start + x + m.tail).len() == start.len() + x.len() + m.tail.len());
    assert((start + y + m.tail).len() == start.len() + y.len() + m.tail.len());
    assert(x.len() == y.len());
    assert(x =~= url.subrange(start.len() as int, (start.len() + x.len()) as int));
    assert(y =~= url.subrange(start.len() as int, (start.len() + y.len()) as int));
    web::appended_values_are_told_apart(web::query_text(m), p, q);
    assert(p[0] == q[0] && p[1] == q[1] && p[2] == q[2] && p[3] == q[3]);
}

proof fn lemma_inner_names(params: ParamsModel, i: int)
    requires
        0 <= i < 13,
    ensures
        forall|k: int|
            0 <= k < inner_pairs(params)[i].0.len() ==> web::stays(
                #[trigger] inner_pairs(params)[i].0[k],
            ),
{
    reveal_strlit("wlanuserip");
    reveal_strlit("wlanacname");
    reveal_strlit("ssid");
    reveal_strlit("nasip");
    reveal_strlit("snmpagentip");
    reveal_strlit("mac");
    reveal_strlit("t");
    reveal_strlit("url");
    reveal_strlit("apmac");
    reveal_strlit("nasid");
    reveal_strlit("vid");
    reveal_strlit("port");
    reveal_strlit("nasportid");
    assert(i == 0 || i == 1 || i == 2 || i == 3 || i == 4 || i == 5 || i == 6 || i == 7 || i == 8
        || i == 9 || i == 10 || i == 11 || i == 12);
}

proof fn lemma_inner_spelled(query: Seq<char>, params: ParamsModel, i: int)
    requires
        0 <= i < 13,
    ensures
        web::spelled(
            web::appended(query, inner_pairs(params)),
            inner_pairs(params)[i].0,
            inner_pairs(params)[i].1,
        ),
{
    lemma_inner_names(params, i);
    web::appended_pairs_are_spelled(query, inner_pairs(params), i);
}

/// The text of the inner URL: behind the gateway's stem a query that, decoded
/// by hand, holds each of the portal's parameters under its own name.
pub proof fn inner_url_spells_the_parameters(
    config: AppConfig,
    params: ParamsModel,
    inner: Seq<char>,
) -> (r: (web::UrlModel, Seq<char>))
    requires
        inner_url(config, params) == Ok::<_, Seq<char>>(inner),
    ensures
        web::parsed_url(config.gateway@) == Ok::<_, Seq<char>>(r.0),
        inner == r.0.stem + "?"@ + r.1 + r.0.tail,
        text::starts_with(r.1, web::query_text(r.0)),
        web::spelled(r.1, "wlanuserip"@, params.wlan_user_ip),
        web::spelled(r.1, "wlanacname"@, params.wlan_ac_name),
        web::spelled(r.1, "ssid"@, Seq::empty()),
        web::spelled(r.1, "nasip"@, params.nas_ip),
        web::spelled(r.1, "snmpagentip"@, Seq::empty()),
        web::spelled(r.1, "mac"@, params.mac),
        web::spelled(r.1, "t"@, "wireless-v2"@),
        web::spelled(r.1, "url"@, params.original_url),
        web::spelled(r.1, "apmac"@, Seq::empty()),
        web::spelled(r.1, "nasid"@, params.nas_id),
        web::spelled(r.1, "vid"@, params.vid),
        web::spelled(r.1, "port"@, params.port),
        web::spelled(r.1, "nasportid"@, params.nas_port_id),
{
    let m = web::parsed_url(config.gateway@)->Ok_0;
    let q = web::query_text(m);
    lemma_inner_spelled(q, params, 0);
    lemma_inner_spelled(q, params, 1);
    lemma_inner_spelled(q, params, 2);
    lemma_inner_spelled(q, params, 3);
    lemma_inner_spelled(q, params, 4);
    lemma_inner_spelled(q, params, 5);
    lemma_inner_spelled(q, params, 6);
    lemma_inner_spelled(q, params, 7);
    lemma_inner_spelled(q, params, 8);
    lemma_inner_spelled(q, params, 9);
    lemma_inner_spelled(q, params, 10);
    lemma_inner_spelled(q, params, 11);
    lemma_inner_spelled(q, params, 12);
    lemma_appended_keeps(q, inner_pairs(params));
    (m, web::appended(q, inner_pairs(params)))
}

/// What the portal says of one of its parameters, and be it nothing, comes back
/// under the same name in the URL that the gateway is asked with.
pub proof fn portal_parameters_come_back(
    config: AppConfig,
    pairs: Seq<web::Pair>,
    name: Seq<char>,
    value: Seq<char>,
    inner: Seq<char>,
) -> (r: (web::UrlModel, Seq<char>))
    requires
        portal::protocol_name(name),
        portal::last_named(pairs, name, value) || (portal::unnamed(pairs, name) && value
            == Seq::<char>::empty()),
        inner_url(config, portal::params_of(pairs)) == Ok::<_, Seq<char>>(inner),
    ensures
        web::parsed_url(config.gateway@) == Ok::<_, Seq<char>>(r.0),
        inner == r.0.stem + "?"@ + r.1 + r.0.tail,
        web::spelled(r.1, name, value),
{
    let params = portal::params_of(pairs);
    portal::parameters_are_read_by_name(pairs);
    let r = inner_url_spells_the_parameters(config, params, inner);
    let empty = Seq::<char>::empty();
    if portal::unnamed(pairs, name) {
        let field = if name == "wlanuserip"@ {
            params.wlan_user_ip
        } else if name == "wlanacname"@ {
            params.wlan_ac_name
        } else if name == "nasip"@ {
            params.nas_ip
        } else if name == "mac"@ {
            params.mac
        } else if name == "url"@ {
            params.original_url
        } else if name == "nasid"@ {
            params.nas_id
        } else if name == "vid"@ {
            params.vid
        } else if name == "port"@ {
            params.port
        } else {
            params.nas_port_id
        };
        assert(field =~= empty);
        assert(web::spelled(r.1, name, field));
        if portal::last_named(pairs, name, value) {
            assert(value == field);
        }
    }
    r
}

/// Two inner URLs of one gateway are the same only where all the parameters
/// are.
pub proof fn inner_urls_tell_portals_apart(
    config: AppConfig,
    a: ParamsModel,
    b: ParamsModel,
    inner: Seq<char>,
)
    requires
        inner_url(config, a) == Ok::<_, Seq<char>>(inner),
        inner_url(config, b) == Ok::<_, Seq<char>>(inner),
    ensures
        a == b,
{
    let m = web::parsed_url(config.gateway@)->Ok_0;
    let p = inner_pairs(a);
    let q = inner_pairs(b);
    let start = m.stem + "?"@;
    let x = web::appended(web::query_text(m), p);
    let y = web::appended(web::query_text(m), q);
    assert(inner == start + x + m.tail && inner == start + y + m.tail);
    assert((start + x + m.tail).len() == start.len() + x.len() + m.tail.len());
    assert((start + y + m.tail).len() == start.len() + y.len() + m.tail.len());
    assert(x.len() == y.len());
    assert(x =~= inner.subrange(start.len() as int, (start.len() + x.len()) as int));
    assert(y =~= inner.subrange(start.len() as int, (start.len() + y.len()) as int));
    web::appended_values_are_told_apart(web::query_text(m), p, q);
    assert(p[0] == q[0] && p[1] == q[1] && p[3] == q[3] && p[5] == q[5] && p[7] == q[7]);
    assert(p[9] == q[9] && p[10] == q[10] && p[11] == q[11] && p[12] == q[12]);
}

/// Where the gateway is no URL there is none to ask, and the crate's message
/// says why; where it is one, only its length can be too much.
pub proof fn urls_fail_for_a_reason(
    config: AppConfig,
    params: ParamsModel,
    code: Seq<char>,
    message: Seq<char>,
)
    ensures
        web::parsed_url(config.gateway@) == Err::<web::UrlModel, _>(message) ==> inner_url(
            config,
            params,
        ) == Err::<Seq<char>, _>(message) && final_url(config, params, code) == Err::<Seq<char>, _>(
            message,
        ),
        web::parsed_url(config.gateway@) matches Ok(m) ==> {
            ||| inner_url(config, params) is Ok
            ||| inner_url(config, params) == Err::<Seq<char>, _>(
                "URLs more than 4 GB are not supported"@,
            ) && !web::holdable(m, inner_pairs(params))
        },
        inner_url(config, params) matches Ok(inner) ==> (web::parsed_url(inner) matches Ok(m)
            ==> web::holdable(m, final_pairs(config, code)) ==> final_url(config, params, code)
            is Ok),
{
}

/// A question mark in the inner URL is written `%3F` before the whole is
/// encoded; everything else goes into the encoding as it is.
pub proof fn redirects_are_written_the_old_way(
    before: Seq<char>,
    after: Seq<char>,
)
    requires
        forall|k: int| 0 <= k < before.len() ==> #[trigger] before[k] != '?',
        forall|k: int| 0 <= k < after.len() ==> #[trigger] after[k] != '?',
    ensures
        legacy_redirect(before) == web::encoded(before),
        legacy_redirect(before + "?"@ + after) == web::encoded(before + "%3F"@ + after),
        web::form_decoded(legacy_redirect(before + "?"@ + after)) == vstd::utf8::encode_utf8(
            before + "%3F"@ + after,
        ),
{
    reveal_strlit("?");
    let s = before + "?"@ + after;
    assert forall|k: int| 0 <= k < before.len() implies !text::matches_at(s, "?"@, k) by {
        if text::matches_at(s, "?"@, k) {
            assert(s.subrange(k, k + 1)[0] == '?');
            assert(s[k] == before[k]);
        }
    }
    assert forall|k: int| !text::matches_at(before, "?"@, k) by {
        if text::matches_at(before, "?"@, k) {
            assert(before.subrange(k, k + 1)[0] == '?');
        }
    }
    assert forall|k: int| !text::matches_at(after, "?"@, k) by {
        if text::matches_at(after, "?"@, k) {
            assert(after.subrange(k, k + 1)[0] == '?');
        }
    }
    text::patterns_are_replaced(before, "?"@, after, "%3F"@);
    text::patterns_are_replaced(after, "?"@, after, "%3F"@);
    web::encoding_can_be_undone(before + "%3F"@ + after);
}

/// The OAuth request asks for a code, names the client, and carries the
/// redirect as it is and the carrier encoded.
pub proof fn oauth_asks_for_a_code(redirect: Seq<char>, service_name: Seq<char>)
    ensures
        oauth_url(redirect, service_name) == "https://api.215123.cn/ac/auth/oauthRedirect"@
            + "?response_type="@ + "code"@ + "&client_id="@ + "6d6bc6f3b5f04107a5fc1c62e39dd5f4"@
            + "&redirect_uri="@ + redirect + "&serviceName="@ + web::encoded(service_name),
        web::form_decoded(web::encoded(service_name)) == vstd::utf8::encode_utf8(service_name),
{
    reveal_strlit("code");
    reveal_strlit("6d6bc6f3b5f04107a5fc1c62e39dd5f4");
    web::plain_texts_stay("code"@);
    web::plain_texts_stay("6d6bc6f3b5f04107a5fc1c62e39dd5f4"@);
    web::encoding_can_be_undone(service_name);
}

// ---------------------------------------------------------------------------
// What the exchange is for
// ---------------------------------------------------------------------------

/// The bounds of the exchange: three seconds for the verification with probes
/// of 750 milliseconds and pauses from 100 to 800 milliseconds, and ten
/// mebibytes of a body.
pub proof fn exchange_bounds_are_these(f: AuthFlow, started: u64, delay: u64)
    ensures
        VERIFY_BUDGET == 3_000_000_000,
        VERIFY_PROBE_TIMEOUT == 750_000_000,
        FIRST_VERIFY_DELAY == 100_000_000,
        MAX_VERIFY_DELAY == 800_000_000,
        MAX_CODE_BODY_BYTES == 10_485_760,
        f.stage == (Stage::Verifying { started, delay }) || f.stage == (Stage::Pausing {
            started,
            delay,
        }) ==> (f.wf() <==> 100_000_000 <= delay <= 800_000_000),
        !(f.stage is Verifying) && !(f.stage is Pausing) ==> f.wf(),
{
}

proof fn lemma_member_held(
    members: Seq<(Seq<char>, JsonModel)>,
    key: Seq<char>,
    from: int,
    value: JsonModel,
)
    requires
        0 <= from,
        json::member_from(members, key, from) == Some(value),
    ensures
        members.contains((key, value)),
    decreases members.len() - from,
{
    if from < members.len() {
        if members[from].0 == key {
            assert(members[from] == (key, value));
        } else {
            lemma_member_held(members, key, from + 1, value);
        }
    }
}

/// The exchange begins with the account, posted to the school's login as a JSON
/// object of exactly three texts: the phone number, the identifier and an empty
/// captcha key.
pub proof fn login_posts_the_account(
    config: AppConfig,
    credentials: Credentials,
    params: ParamsModel,
    logging: bool,
    flow: FlowModel,
    notes: Seq<NoteModel>,
    action: AuthActionModel,
) -> (members: Seq<(Seq<char>, JsonModel)>)
    requires
        auth_begun(config, credentials, params, logging, flow, notes, action),
    ensures
        flow.config == config,
        flow.params == params,
        flow.logging == logging,
        flow.stage is Login,
        action matches AuthActionModel::Post { url, body, timeout } && {
            &&& url == "https://api.215123.cn/ac/auth/loginByPhoneAndUid"@
            &&& timeout == 10_000_000_000
            &&& json::reads_as(body, JsonModel::Object(members))
            &&& body == json::json_written(JsonModel::Object(members))
            &&& body == json::flat_text(JsonModel::Object(members))
        },
        members.contains(("phone"@, JsonModel::Text(credentials.phone@))),
        members.contains(("uid"@, JsonModel::Text(credentials.uid@))),
        members.contains(("captchaKey"@, JsonModel::Text(Seq::empty()))),
        forall|k: int|
            0 <= k < members.len() ==> {
                let name = (#[trigger] members[k]).0;
                name == "phone"@ || name == "uid"@ || name == "captchaKey"@
            },
        forall|i: int, j: int|
            0 <= i < j < members.len() ==> (#[trigger] members[i]).0 != (#[trigger] members[j]).0,
        logging ==> notes == seq![("auth_login_start"@, "credentials_present=true"@)],
        !logging ==> notes.len() == 0,
{
    let body = action->Post_body;
    let value = choose|value: JsonModel|
        {
            &&& #[trigger] json::reads_as(body, value)
            &&& body == json::json_written(value)
            &&& body == json::flat_text(value)
            &&& json::flat(value)
            &&& json::member(value, "phone"@) == Some(JsonModel::Text(credentials.phone@))
            &&& json::member(value, "uid"@) == Some(JsonModel::Text(credentials.uid@))
            &&& json::member(value, "captchaKey"@) == Some(JsonModel::Text(Seq::empty()))
            &&& value matches JsonModel::Object(members) && json::distinct_members(members)
                && forall|k: int|
                0 <= k < members.len() ==> {
                    let name = (#[trigger] members[k]).0;
                    name == "phone"@ || name == "uid"@ || name == "captchaKey"@
                }
        };
    let members = value->Object_0;
    lemma_member_held(members, "phone"@, 0, JsonModel::Text(credentials.phone@));
    lemma_member_held(members, "uid"@, 0, JsonModel::Text(credentials.uid@));
    lemma_member_held(members, "captchaKey"@, 0, JsonModel::Text(Seq::empty()));
    members
}

/// The token is the text under `token` in the object under `data`: nothing else
/// counts, and not an empty one.
pub proof fn tokens_are_data_tokens(
    body: Seq<u8>,
    value: JsonModel,
    message: Seq<char>,
    token: Seq<char>,
)
    ensures
        json::parsed_json(body) == Err::<JsonModel, _>(message) ==> token_in(body) == Err::<
            Seq<char>,
            _,
        >("Failed to read JSON: "@ + message),
        json::parsed_json(body) == Ok::<_, Seq<char>>(value) ==> {
            let found = json::member(value, "data"@) matches Some(data) && json::member(
                data,
                "token"@,
            ) == Some(JsonModel::Text(token)) && token.len() > 0;
            &&& found ==> token_in(body) == Ok::<_, Seq<char>>(token)
            &&& token_in(body) == Ok::<_, Seq<char>>(token) ==> found
            &&& token_in(body) is Err ==> token_in(body) == Err::<Seq<char>, _>(
                "登录接口未返回 token"@,
            )
        },
{
}

/// With a token the exchange goes on to OAuth: the token and the cookies of the
/// answer go along, the redirect is the inner URL, and nothing is followed.
pub proof fn tokens_lead_to_oauth(
    f: FlowModel,
    answer: Answer,
    now: u64,
    token: Seq<char>,
    inner: Seq<char>,
)
    requires
        f.stage is Login,
        answer.body matches Ok(body) && token_in(body@) == Ok::<_, Seq<char>>(token),
        inner_url(f.config, f.params) == Ok::<_, Seq<char>>(inner),
    ensures
        ({
            let (g, notes, action) = auth_advanced(f, AuthEvent::Answered(answer), now);
            let cookies = cookies_sent(text::texts(answer.cookies@));
            &&& g.stage is OAuth
            &&& action matches AuthActionModel::Get { url, headers, timeout, redirects, read } && {
                &&& url == "https://api.215123.cn/ac/auth/oauthRedirect"@ + "?response_type="@
                    + "code"@ + "&client_id="@ + "6d6bc6f3b5f04107a5fc1c62e39dd5f4"@
                    + "&redirect_uri="@ + legacy_redirect(inner) + "&serviceName="@ + web::encoded(
                    f.config.service_name@,
                )
                &&& headers.len() > 0 && headers[0] == ("satoken"@, token)
                &&& cookies.len() == 0 ==> headers.len() == 1
                &&& cookies.len() > 0 ==> headers.len() == 2 && headers[1] == ("Cookie"@, cookies)
                &&& timeout == 15_000_000_000
                &&& redirects == 0
                &&& read == 10_485_761
            }
            &&& f.logging ==> notes == seq![("auth_token_received"@, "token_present=true"@)]
        }),
{
    oauth_asks_for_a_code(legacy_redirect(inner), f.config.service_name@);
}

/// Without a token, or without a URL to come back to, the exchange ends, and
/// says why.
pub proof fn login_fails_for_a_reason(
    f: FlowModel,
    answer: Answer,
    now: u64,
    message: Seq<char>,
)
    requires
        f.stage is Login,
        match answer.body {
            Err(text) => message == text@,
            Ok(body) => match token_in(body@) {
                Err(text) => message == text,
                Ok(_) => inner_url(f.config, f.params) == Err::<Seq<char>, _>(message),
            },
        },
    ensures
        auth_advanced(f, AuthEvent::Answered(answer), now).0.stage is Finished,
        auth_advanced(f, AuthEvent::Answered(answer), now).2 == AuthActionModel::Done(
            Err(AuthErrorModel::Protocol(message)),
        ),
{
}

proof fn lemma_code_first(pairs: Seq<web::Pair>, from: int, k: int)
    requires
        0 <= from <= k <= pairs.len(),
        forall|j: int|
            from <= j < k ==> (#[trigger] pairs[j]).0 != "code"@ || pairs[j].1.len() == 0,
        k < pairs.len() ==> pairs[k].0 == "code"@ && pairs[k].1.len() > 0,
    ensures
        k < pairs.len() ==> code_pair(pairs, from) == Some(pairs[k].1),
        k == pairs.len() ==> code_pair(pairs, from) is None,
    decreases k - from,
{
    if from < k {
        assert(pairs[from].0 != "code"@ || pairs[from].1.len() == 0);
        lemma_code_first(pairs, from + 1, k);
    }
}

/// Of a list of pairs the code is the first value named `code` that is not
/// empty, and there is none where none is so named.
pub proof fn first_named_code_counts(pairs: Seq<web::Pair>, k: int)
    requires
        0 <= k <= pairs.len(),
        forall|j: int| 0 <= j < k ==> (#[trigger] pairs[j]).0 != "code"@ || pairs[j].1.len() == 0,
        k < pairs.len() ==> pairs[k].0 == "code"@ && pairs[k].1.len() > 0,
    ensures
        k < pairs.len() ==> code_pair(pairs, 0) == Some(pairs[k].1),
        k == pairs.len() ==> code_pair(pairs, 0) is None,
{
    lemma_code_first(pairs, 0, k);
}

/// A URL that names a code in its query gives that code, whatever else the
/// text may be.
pub proof fn codes_are_read_of_urls(
    value: Seq<char>,
    url: web::UrlModel,
    k: int,
)
    requires
        web::parsed_url(value) == Ok::<_, Seq<char>>(url),
        0 <= k < web::query_of(url).len(),
        web::query_of(url)[k].0 == "code"@,
        web::query_of(url)[k].1.len() > 0,
        forall|j: int|
            0 <= j < k ==> (#[trigger] web::query_of(url)[j]).0 != "code"@ || web::query_of(
                url,
            )[j].1.len() == 0,
    ensures
        code_in(value) == Some(web::query_of(url)[k].1),
{
    lemma_code_first(web::query_of(url), 0, k);
}

/// A text that is no URL gives the code of what stands between its first
/// question mark and a number sign.
pub proof fn codes_are_read_of_queries(
    before: Seq<char>,
    query: Seq<char>,
    after: Seq<char>,
    k: int,
)
    requires
        forall|j: int| 0 <= j < before.len() ==> #[trigger] before[j] != '?',
        forall|j: int| 0 <= j < query.len() ==> #[trigger] query[j] != '#',
        web::parsed_url(before + "?"@ + query) is Err,
        web::parsed_url(before + "?"@ + query + "#"@ + after) is Err,
        0 <= k < web::form_pairs(query).len(),
        web::form_pairs(query)[k].0 == "code"@,
        web::form_pairs(query)[k].1.len() > 0,
        forall|j: int|
            0 <= j < k ==> (#[trigger] web::form_pairs(query)[j]).0 != "code"@ || web::form_pairs(
                query,
            )[j].1.len() == 0,
    ensures
        code_in(before + "?"@ + query) == Some(web::form_pairs(query)[k].1),
        code_in(before + "?"@ + query + "#"@ + after) == Some(web::form_pairs(query)[k].1),
{
    reveal_strlit("?");
    reveal_strlit("#");
    lemma_code_first(web::form_pairs(query), 0, k);
    let tail = query + seq!['#'] + after;
    text::texts_are_parted_once(before, '?', query);
    text::texts_are_parted_once(before, '?', tail);
    text::texts_are_parted_once(query, '#', after);
    assert(before + "?"@ + query =~= before + seq!['?'] + query);
    assert(before + "?"@ + query + "#"@ + after =~= before + seq!['?'] + tail);
}

/// A key that is `code` in letters of either case.
pub open spec fn code_key(key: Seq<char>) -> bool {
    &&& key.len() == 4
    &&& key[0] == 'c' || key[0] == 'C'
    &&& key[1] == 'o' || key[1] == 'O'
    &&& key[2] == 'd' || key[2] == 'D'
    &&& key[3] == 'e' || key[3] == 'E'
}

proof fn lemma_code_key(key: Seq<char>)
    ensures
        code_key(key) <==> text::lower(key) == text::lower("code"@),
{
    reveal_strlit("code");
    let low = text::lower("code"@);
    assert(low[0] == 'c' && low[1] == 'o' && low[2] == 'd' && low[3] == 'e');
    if text::lower(key) == low {
        assert(text::lower(key).len() == 4);
        assert(key.len() == 4);
        assert(text::lower(key)[0] == 'c' && text::lower(key)[1] == 'o');
        assert(text::lower(key)[2] == 'd' && text::lower(key)[3] == 'e');
        assert(text::lower_char(key[0]) == 'c' && text::lower_char(key[1]) == 'o');
        assert(text::lower_char(key[2]) == 'd' && text::lower_char(key[3]) == 'e');
    }
    if code_key(key) {
        assert(text::lower(key) =~= low);
    }
}

/// Somewhere in the JSON value, at whatever depth, a member named `code` in
/// letters of either case holds this text, and it is not empty.
pub open spec fn mentions(value: JsonModel, code: Seq<char>) -> bool
    decreases value,
{
    match value {
        JsonModel::Object(members) => exists|k: int|
            {
                &&& 0 <= k < members.len()
                &&& {
                    ||| code_key((#[trigger] members[k]).0) && members[k].1 == JsonModel::Text(code)
                        && code.len() > 0
                    ||| mentions(members[k].1, code)
                }
            },
        JsonModel::Array(items) => exists|k: int|
            0 <= k < items.len() && mentions(#[trigger] items[k], code),
        _ => false,
    }
}

proof fn lemma_code_mentioned(value: JsonModel, from: int)
    requires
        0 <= from,
    ensures
        code_from(value, from) matches Some(code) ==> mentions(value, code),
    decreases
            value,
            match value {
                JsonModel::Object(members) => members.len() - from,
                JsonModel::Array(items) => items.len() - from,
                _ => 0,
            },
{
    match value {
        JsonModel::Object(members) => {
            if from < members.len() {
                lemma_code_key(members[from].0);
                lemma_code_mentioned(members[from].1, 0);
                lemma_code_mentioned(value, from + 1);
            }
        },
        JsonModel::Array(items) => {
            if from < items.len() {
                lemma_code_mentioned(items[from], 0);
                lemma_code_mentioned(value, from + 1);
            }
        },
        _ => {},
    }
}

proof fn lemma_code_missed(value: JsonModel, from: int, k: int, code: Seq<char>)
    requires
        0 <= from <= k,
        match value {
            JsonModel::Object(members) => k < members.len() && ((code_key(members[k].0)
                && members[k].1 == JsonModel::Text(code) && code.len() > 0) || mentions(
                members[k].1,
                code,
            )),
            JsonModel::Array(items) => k < items.len() && mentions(items[k], code),
            _ => false,
        },
    ensures
        code_from(value, from) is Some,
    decreases value, k - from,
{
    match value {
        JsonModel::Object(members) => {
            if from < k {
                lemma_code_missed(value, from + 1, k, code);
            } else {
                lemma_code_key(members[k].0);
                if mentions(members[k].1, code) {
                    lemma_code_found(members[k].1, code);
                }
            }
        },
        JsonModel::Array(items) => {
            if from < k {
                lemma_code_missed(value, from + 1, k, code);
            } else {
                lemma_code_found(items[k], code);
            }
        },
        _ => {},
    }
}

proof fn lemma_code_found(value: JsonModel, code: Seq<char>)
    requires
        mentions(value, code),
    ensures
        code_from(value, 0) is Some,
    decreases
            value,
            match value {
                JsonModel::Object(members) => members.len() + 1,
                JsonModel::Array(items) => items.len() + 1,
                _ => 0,
            },
{
    match value {
        JsonModel::Object(members) => {
            let k = choose|k: int|
                {
                    &&& 0 <= k < members.len()
                    &&& {
                        ||| code_key((#[trigger] members[k]).0) && members[k].1 == JsonModel::Text(
                            code,
                        ) && code.len() > 0
                        ||| mentions(members[k].1, code)
                    }
                };
            lemma_code_missed(value, 0, k, code);
        },
        JsonModel::Array(items) => {
            let k = choose|k: int| 0 <= k < items.len() && mentions(#[trigger] items[k], code);
            lemma_code_missed(value, 0, k, code);
        },
        _ => {},
    }
}

/// Of JSON a code is read exactly where one is mentioned, at whatever depth,
/// and what is read is mentioned.
pub proof fn mentioned_codes_are_found(value: JsonModel, code: Seq<char>)
    ensures
        code_from(value, 0) matches Some(found) ==> mentions(value, found),
        mentions(value, code) ==> code_from(value, 0) is Some,
{
    lemma_code_mentioned(value, 0);
    if mentions(value, code) {
        lemma_code_found(value, code);
    }
}

/// JSON is asked last: a text that is no URL and has no code in its query gives
/// what its JSON mentions, and one that is not JSON gives nothing.
pub proof fn codes_are_read_of_json(value: Seq<char>, tree: JsonModel, code: Seq<char>)
    requires
        match web::parsed_url(value) {
            Ok(url) => forall|j: int|
                0 <= j < web::query_of(url).len() ==> (#[trigger] web::query_of(url)[j]).0
                    != "code"@ || web::query_of(url)[j].1.len() == 0,
            Err(_) => true,
        },
        forall|j: int|
            0 <= j < web::form_pairs(query_part(value)).len() ==> (#[trigger] web::form_pairs(
                query_part(value),
            )[j]).0 != "code"@ || web::form_pairs(query_part(value))[j].1.len() == 0,
    ensures
        json::parsed_json(vstd::utf8::encode_utf8(value)) == Ok::<_, Seq<char>>(tree) ==> {
            &&& mentions(tree, code) ==> code_in(value) is Some
            &&& code_in(value) == Some(code) ==> mentions(tree, code)
        },
        json::parsed_json(vstd::utf8::encode_utf8(value)) is Err ==> code_in(value) is None,
{
    if let Ok(url) = web::parsed_url(value) {
        lemma_code_first(web::query_of(url), 0, web::query_of(url).len() as int);
    }
    let pairs = web::form_pairs(query_part(value));
    lemma_code_first(pairs, 0, pairs.len() as int);
    mentioned_codes_are_found(tree, code);
}

/// The location is asked before the body, and a body of more than ten mebibytes
/// or one that could not be read is not asked at all.
pub proof fn location_is_asked_first(answer: Answer, code: Seq<char>)
    ensures
        answer.location matches Some(location) && code_in(location@) == Some(code)
            ==> answer_code(answer) == Some(code),
        answer.location is None || (answer.location matches Some(location) && code_in(location@)
            is None) ==> answer_code(answer) == match answer.body {
            Ok(bytes) => if bytes@.len() <= 10_485_760 {
                code_in(text::utf8_lossy(bytes@))
            } else {
                code_in(Seq::empty())
            },
            Err(_) => code_in(Seq::empty()),
        },
{
}

/// With a code the exchange goes on to the gateway: the final URL with that
/// code, the session that the answer set, and at most five redirects.
pub proof fn codes_lead_to_the_gateway(
    f: FlowModel,
    answer: Answer,
    now: u64,
    code: Seq<char>,
    url: Seq<char>,
)
    requires
        f.stage is OAuth,
        answer_code(answer) == Some(code),
        final_url(f.config, f.params, code) == Ok::<_, Seq<char>>(url),
    ensures
        ({
            let (g, notes, action) = auth_advanced(f, AuthEvent::Answered(answer), now);
            let session = session_of(text::texts(answer.cookies@));
            &&& g.stage is Gateway
            &&& action matches AuthActionModel::Get {
                url: asked,
                headers,
                timeout,
                redirects,
                read,
            } && {
                &&& asked == url
                &&& session.len() == 0 ==> headers.len() == 0
                &&& session.len() > 0 ==> headers.len() == 1 && headers[0] == (
                    "Cookie"@,
                    "JSESSIONID="@ + session,
                )
                &&& timeout == 20_000_000_000
                &&& redirects == 5
                &&& read == 0
            }
            &&& f.logging ==> notes == seq![
                ("auth_oauth_response"@, "status_received=true"@),
                ("auth_code_received"@, "code_present=true"@),
            ]
        }),
{
}

/// Without a code, or without a URL to take it to, the exchange ends, and says
/// why.
pub proof fn oauth_fails_for_a_reason(
    f: FlowModel,
    answer: Answer,
    now: u64,
    message: Seq<char>,
)
    requires
        f.stage is OAuth,
        match answer_code(answer) {
            None => message == "OAuth 响应未返回 code"@,
            Some(code) => final_url(f.config, f.params, code) == Err::<Seq<char>, _>(message),
        },
    ensures
        auth_advanced(f, AuthEvent::Answered(answer), now).0.stage is Finished,
        auth_advanced(f, AuthEvent::Answered(answer), now).2 == AuthActionModel::Done(
            Err(AuthErrorModel::Protocol(message)),
        ),
{
}

/// The gateway's answer, whatever it says, is followed by a look at the network
/// at once; the budget runs from there.
pub proof fn gateway_is_followed_by_a_look(f: FlowModel, answer: Answer, now: u64)
    requires
        f.stage is Gateway,
    ensures
        auth_advanced(f, AuthEvent::Answered(answer), now).0.stage == (Stage::Verifying {
            started: now,
            delay: 100_000_000,
        }),
        auth_advanced(f, AuthEvent::Answered(answer), now).2 == (AuthActionModel::Probe {
            timeout: 750_000_000,
        }),
        f.logging ==> auth_advanced(f, AuthEvent::Answered(answer), now).1 == seq![
            ("auth_final_request"@, "request_sent=true"@),
        ],
{
}

/// A network that is up ends the exchange with success, whatever the time.
pub proof fn network_up_is_success(f: FlowModel, result: ProbeResult, now: u64)
    requires
        f.stage is Verifying,
        result is Online,
    ensures
        auth_advanced(f, AuthEvent::Probed(result), now).0.stage is Finished,
        auth_advanced(f, AuthEvent::Probed(result), now).2 == AuthActionModel::Done(Ok(())),
        f.logging ==> auth_advanced(f, AuthEvent::Probed(result), now).1 == seq![
            ("auth_verify"@, "verified=true"@),
        ],
{
}

/// A network that is not up is looked at again after a pause, as long as three
/// seconds have not passed; the pauses double up to 800 milliseconds and do not
/// reach beyond the three seconds. After these the exchange has failed.
pub proof fn network_down_is_looked_at_again(
    f: FlowModel,
    started: u64,
    delay: u64,
    passed: u64,
    result: ProbeResult,
)
    requires
        f.stage == (Stage::Verifying { started, delay }),
        started + passed <= u64::MAX,
        100_000_000 <= delay <= 800_000_000,
        !(result is Online),
    ensures
        ({
            let (g, notes, action) = auth_advanced(
                f,
                AuthEvent::Probed(result),
                (started + passed) as u64,
            );
            &&& passed >= 3_000_000_000 ==> {
                &&& g.stage is Finished
                &&& action == AuthActionModel::Done(Err(AuthErrorModel::VerifyFailed))
                &&& f.logging ==> notes == seq![("auth_verify"@, "verified=false"@)]
            }
            &&& passed < 3_000_000_000 ==> {
                &&& notes.len() == 0
                &&& g.stage matches Stage::Pausing { started: again, delay: next } && again
                    == started && (delay <= 400_000_000 ==> next == 2 * delay) && (delay
                    > 400_000_000 ==> next == 800_000_000)
                &&& action matches AuthActionModel::Sleep(pause) && (passed + delay
                    <= 3_000_000_000 ==> pause == delay) && (passed + delay > 3_000_000_000
                    ==> pause == 3_000_000_000 - passed)
            }
        }),
{
}

/// A pause is followed by the next look; the budget runs on.
pub proof fn pauses_are_followed_by_a_look(f: FlowModel, started: u64, delay: u64, now: u64)
    requires
        f.stage == (Stage::Pausing { started, delay }),
    ensures
        auth_advanced(f, AuthEvent::Slept, now).0.stage == (Stage::Verifying { started, delay }),
        auth_advanced(f, AuthEvent::Slept, now).1.len() == 0,
        auth_advanced(f, AuthEvent::Slept, now).2 == (AuthActionModel::Probe {
            timeout: 750_000_000,
        }),
{
}

/// A request that fails ends the exchange with the category of the failure.
pub proof fn failed_requests_end_the_exchange(f: FlowModel, kind: String, now: u64)
    requires
        f.stage is Login || f.stage is OAuth || f.stage is Gateway,
    ensures
        auth_advanced(f, AuthEvent::Failed(kind), now).0.stage is Finished,
        auth_advanced(f, AuthEvent::Failed(kind), now).1.len() == 0,
        auth_advanced(f, AuthEvent::Failed(kind), now).2 == AuthActionModel::Done(
            Err(AuthErrorModel::Transport(kind@)),
        ),
{
}

proof fn lemma_session_part(parts: Seq<Seq<char>>, from: int, k: int, value: Seq<char>)
    requires
        0 <= from <= k <= parts.len(),
        forall|j: int|
            from <= j < k ==> !text::starts_with(text::trim(#[trigger] parts[j]), "JSESSIONID="@),
        k < parts.len() ==> text::trim(parts[k]) == "JSESSIONID="@ + value,
    ensures
        k < parts.len() ==> session_part(parts, from) == Some(value),
        k == parts.len() ==> session_part(parts, from) is None,
    decreases k - from,
{
    if from < k {
        assert(!text::starts_with(text::trim(parts[from]), "JSESSIONID="@));
        lemma_session_part(parts, from + 1, k, value);
    } else if k < parts.len() {
        text::patterns_are_held(Seq::empty(), "JSESSIONID="@, value);
    }
}

/// The session is what follows `JSESSIONID=` in the first part between
/// semicolons that begins so; without such a part there is none.
pub proof fn sessions_are_named(header: Seq<char>, k: int, value: Seq<char>)
    requires
        0 <= k <= text::split(header, ';').len(),
        forall|j: int|
            0 <= j < k ==> !text::starts_with(
                text::trim(#[trigger] text::split(header, ';')[j]),
                "JSESSIONID="@,
            ),
        k < text::split(header, ';').len() ==> text::trim(text::split(header, ';')[k])
            == "JSESSIONID="@ + value,
    ensures
        k < text::split(header, ';').len() ==> session_cookie(header) == Some(value),
        k == text::split(header, ';').len() ==> session_cookie(header) is None,
{
    lemma_session_part(text::split(header, ';'), 0, k, value);
}

proof fn lemma_session_from(headers: Seq<Seq<char>>, from: int, k: int)
    requires
        0 <= from <= k <= headers.len(),
        forall|j: int| from <= j < k ==> session_cookie(#[trigger] headers[j]) is None,
        k < headers.len() ==> session_cookie(headers[k]) is Some,
    ensures
        k < headers.len() ==> session_from(headers, from) == session_cookie(headers[k]),
        k == headers.len() ==> session_from(headers, from) is None,
    decreases k - from,
{
    if from < k {
        assert(session_cookie(headers[from]) is None);
        lemma_session_from(headers, from + 1, k);
    }
}

/// Of several headers the first that sets a session counts.
pub proof fn first_session_counts(headers: Seq<Seq<char>>, k: int)
    requires
        0 <= k <= headers.len(),
        forall|j: int| 0 <= j < k ==> session_cookie(#[trigger] headers[j]) is None,
        k < headers.len() ==> session_cookie(headers[k]) is Some,
    ensures
        k < headers.len() ==> session_cookie(headers[k]) == Some(session_of(headers)),
        k == headers.len() ==> session_of(headers).len() == 0,
{
    lemma_session_from(headers, 0, k);
}

/// Nothing but white space.
pub open spec fn all_white(s: Seq<char>) -> bool {
    forall|k: int| 0 <= k < s.len() ==> text::is_white(#[trigger] s[k])
}

/// Something, with no white space at either end.
pub open spec fn trimmed(s: Seq<char>) -> bool {
    s.len() > 0 && !text::is_white(s[0]) && !text::is_white(s[s.len() - 1])
}

/// A cookie is sent back as its name and value, without what stands around them
/// and without its attributes.
pub proof fn cookies_are_name_and_value(
    w1: Seq<char>,
    name: Seq<char>,
    w2: Seq<char>,
    w3: Seq<char>,
    value: Seq<char>,
    w4: Seq<char>,
    rest: Seq<char>,
)
    requires
        all_white(w1),
        all_white(w2),
        all_white(w3),
        all_white(w4),
        trimmed(name),
        trimmed(value),
        forall|k: int| 0 <= k < name.len() ==> #[trigger] name[k] != '=' && name[k] != ';',
        forall|k: int| 0 <= k < value.len() ==> #[trigger] value[k] != ';',
    ensures
        cookie_pair(w1 + name + w2 + "="@ + w3 + value + w4) == Some(name + "="@ + value),
        cookie_pair(w1 + name + w2 + "="@ + w3 + value + w4 + ";"@ + rest) == Some(
            name + "="@ + value,
        ),
{
    reveal_strlit("=");
    reveal_strlit(";");
    let front = w1 + name + w2 + "="@ + w3 + value + w4;
    let kept = name + w2 + "="@ + w3 + value;
    let left = name + w2;
    let right = w3 + value;
    let none = Seq::<char>::empty();
    assert forall|k: int| 0 <= k < front.len() implies #[trigger] front[k] != ';' by {
        let a = w1.len() as int;
        let b = a + name.len();
        let c = b + w2.len();
        let d = c + 1 + w3.len();
        let e = d + value.len();
        if k < a {
            assert(front[k] == w1[k] && text::is_white(w1[k]));
        } else if k < b {
            assert(front[k] == name[k - a]);
        } else if k < c {
            assert(front[k] == w2[k - b] && text::is_white(w2[k - b]));
        } else if c < k < d {
            assert(front[k] == w3[k - c - 1] && text::is_white(w3[k - c - 1]));
        } else if d <= k < e {
            assert(front[k] == value[k - d]);
        } else if e <= k {
            assert(front[k] == w4[k - e] && text::is_white(w4[k - e]));
        }
    }
    text::texts_are_parted(front, ';', rest);
    assert(front + ";"@ + rest =~= front + seq![';'] + rest);
    assert(front =~= w1 + kept + w4);
    text::white_ends_are_trimmed(w1, kept, w4);
    assert forall|k: int| 0 <= k < left.len() implies #[trigger] left[k] != '=' by {
        if k < name.len() {
            assert(left[k] == name[k]);
        } else {
            assert(left[k] == w2[k - name.len()] && text::is_white(w2[k - name.len()]));
        }
    }
    text::texts_are_parted_once(left, '=', right);
    assert(kept =~= left + seq!['='] + right);
    text::white_ends_are_trimmed(none, name, w2);
    text::white_ends_are_trimmed(w3, value, none);
    assert(none + name + w2 =~= left);
    assert(w3 + value + none =~= right);
}

/// What has no equals sign before its first semicolon is no cookie.
pub proof fn cookies_have_an_equals_sign(front: Seq<char>, rest: Seq<char>)
    requires
        forall|k: int| 0 <= k < front.len() ==> #[trigger] front[k] != '=' && front[k] != ';',
    ensures
        cookie_pair(front) is None,
        cookie_pair(front + ";"@ + rest) is None,
{
    reveal_strlit(";");
    text::texts_are_parted(front, ';', rest);
    assert(front + ";"@ + rest =~= front + seq![';'] + rest);
    let kept = text::trim(front);
    let keep = text::non(text::white());
    text::lemma_first_where(front, keep, 0);
    let from = text::first_not(front, text::white(), 0);
    text::lemma_end_without(front, text::white(), from, front.len() as int);
    assert forall|k: int| 0 <= k < kept.len() implies #[trigger] kept[k] != '=' by {
        assert(kept[k] == front[from + k]);
    }
    text::texts_are_parted_once(kept, '=', kept);
}

/// The cookies of an answer go into one header, in their order, with a
/// semicolon and a space between each two; what is no cookie is left out.
pub proof fn cookies_are_sent_in_order(headers: Seq<Seq<char>>, header: Seq<char>)
    ensures
        cookies_sent(Seq::empty()).len() == 0,
        cookie_pair(header) is None ==> cookies_sent(headers.push(header)) == cookies_sent(headers),
        cookie_pair(header) matches Some(pair) ==> cookies_sent(headers.push(header)) == if (exists|
            k: int,
        |
            0 <= k < headers.len() && cookie_pair(#[trigger] headers[k]) is Some) {
            cookies_sent(headers) + "; "@ + pair
        } else {
            pair
        },
{
    let n = headers.len() as int;
    let all = headers.push(header);
    lemma_cookie_pairs_of(headers, all, n);
    lemma_some_cookie(headers, n);
    let before = cookie_pairs(headers, n);
    if let Some(pair) = cookie_pair(header) {
        text::parts_are_joined(before, pair, pair, "; "@);
        if before.len() == 0 {
            assert(before.push(pair) =~= seq![pair]);
        }
    }
}

proof fn lemma_cookie_pairs_of(headers: Seq<Seq<char>>, all: Seq<Seq<char>>, n: int)
    requires
        0 <= n <= headers.len() <= all.len(),
        forall|k: int| 0 <= k < headers.len() ==> #[trigger] all[k] == headers[k],
    ensures
        cookie_pairs(all, n) == cookie_pairs(headers, n),
    decreases n,
{
    if n > 0 {
        assert(all[n - 1] == headers[n - 1]);
        lemma_cookie_pairs_of(headers, all, n - 1);
    }
}

proof fn lemma_some_cookie(headers: Seq<Seq<char>>, n: int)
    requires
        0 <= n <= headers.len(),
    ensures
        cookie_pairs(headers, n).len() > 0 <==> exists|k: int|
            0 <= k < n && cookie_pair(#[trigger] headers[k]) is Some,
    decreases n,
{
    if n > 0 {
        lemma_some_cookie(headers, n - 1);
        if cookie_pair(headers[n - 1]) is None {
            if exists|k: int| 0 <= k < n && cookie_pair(#[trigger] headers[k]) is Some {
                let k = choose|k: int| 0 <= k < n && cookie_pair(#[trigger] headers[k]) is Some;
                assert(k < n - 1);
            }
        } else {
            assert(cookie_pair(headers[n - 1]) is Some);
        }
    }
}

/// Errors, flows, actions and notes are seen as they are.
pub proof fn exchange_is_seen_as_it_is(
    error: AuthError,
    flow: AuthFlow,
    action: AuthAction,
    notes: Seq<Note>,
)
    ensures
        match error {
            AuthError::Transport(s) => error@ == AuthErrorModel::Transport(s@),
            AuthError::Protocol(s) => error@ == AuthErrorModel::Protocol(s@),
            AuthError::VerifyFailed => error@ == AuthErrorModel::VerifyFailed,
        },
        flow@.config == flow.config,
        flow@.params == flow.params@,
        flow@.logging == flow.logging,
        flow@.stage == flow.stage,
        match action {
            AuthAction::Post { url, body, timeout } => action@ == (AuthActionModel::Post {
                url: url@,
                body: body@,
                timeout,
            }),
            AuthAction::Get { url, headers, timeout, redirects, read } => action@ matches
                AuthActionModel::Get {
                url: asked,
                headers: sent,
                timeout: bound,
                redirects: most,
                read: bytes,
            } && asked == url@ && bound == timeout && most == redirects && bytes == read
                && sent.len() == headers@.len() && forall|k: int|
                0 <= k < sent.len() ==> (#[trigger] sent[k]) == (headers@[k].0@, headers@[k].1@),
            AuthAction::Probe { timeout } => action@ == (AuthActionModel::Probe { timeout }),
            AuthAction::Sleep(delay) => action@ == AuthActionModel::Sleep(delay),
            AuthAction::Done(Ok(_)) => action@ == AuthActionModel::Done(Ok(())),
            AuthAction::Done(Err(e)) => action@ == AuthActionModel::Done(Err(e@)),
        },
        notes_view(notes).len() == notes.len(),
        forall|k: int|
            0 <= k < notes.len() ==> (#[trigger] notes_view(notes)[k]) == (
                notes[k].event@,
                notes[k].detail@,
            ),
{
}

/// What an exchange waits for, in every stage: an answer or a failure of its
/// request, the result of its probe, or the end of its pause.
pub proof fn exchange_waits_for_what_it_asked(f: AuthFlow, event: AuthEvent)
    ensures
        f.stage is Login || f.stage is OAuth || f.stage is Gateway ==> (f.expects(event)
            <==> event is Answered || event is Failed),
        f.stage is Verifying ==> (f.expects(event) <==> event is Probed),
        f.stage is Pausing ==> (f.expects(event) <==> event is Slept),
        f.stage is Finished ==> !f.expects(event),
{
}

} // verus!
