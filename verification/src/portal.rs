//! Recognising the configured campus portal and reading its parameters.

use crate::model::AppConfig;
use crate::probe::{ProbeModel, ProbeResult};
use crate::text;
use crate::text::{
    blank, chars_between, chars_of, contains_chars, eq_ignore_ascii_case, find_chars, fits,
    is_ascii_alphanumeric, is_whitespace, join2, join3, lower_chars, replace_chars, same, scan,
    string_between, string_of, to_ascii_lowercase, trim_matches, trim_text,
};
use crate::web;
use crate::web::{parse_form, parse_url, query_pairs_of};
use vstd::prelude::*;

verus! {

/// The longest parameter value read from a body, in bytes of UTF-8.
pub const MAX_VALUE_LEN: usize = 512;

pub const MAX_ID_LEN: usize = 128;

/// The dynamic parameters that the portal hands to a client.
#[derive(Debug)]
pub struct PortalParams {
    pub wlan_user_ip: String,
    pub wlan_ac_name: String,
    pub nas_ip: String,
    pub mac: String,
    pub original_url: String,
    pub nas_id: String,
    pub vid: String,
    pub port: String,
    pub nas_port_id: String,
}

pub struct ParamsModel {
    pub wlan_user_ip: Seq<char>,
    pub wlan_ac_name: Seq<char>,
    pub nas_ip: Seq<char>,
    pub mac: Seq<char>,
    pub original_url: Seq<char>,
    pub nas_id: Seq<char>,
    pub vid: Seq<char>,
    pub port: Seq<char>,
    pub nas_port_id: Seq<char>,
}

impl View for PortalParams {
    type V = ParamsModel;

    open spec fn view(&self) -> ParamsModel {
        ParamsModel {
            wlan_user_ip: self.wlan_user_ip@,
            wlan_ac_name: self.wlan_ac_name@,
            nas_ip: self.nas_ip@,
            mac: self.mac@,
            original_url: self.original_url@,
            nas_id: self.nas_id@,
            vid: self.vid@,
            port: self.port@,
            nas_port_id: self.nas_port_id@,
        }
    }
}

impl Clone for PortalParams {
    fn clone(&self) -> (r: Self)
        ensures
            r == *self,
    {
        PortalParams {
            wlan_user_ip: self.wlan_user_ip.clone(),
            wlan_ac_name: self.wlan_ac_name.clone(),
            nas_ip: self.nas_ip.clone(),
            mac: self.mac.clone(),
            original_url: self.original_url.clone(),
            nas_id: self.nas_id.clone(),
            vid: self.vid.clone(),
            port: self.port.clone(),
            nas_port_id: self.nas_port_id.clone(),
        }
    }
}

impl Default for PortalParams {
    fn default() -> (r: Self)
        ensures
            r@ == no_params(),
    {
        PortalParams {
            wlan_user_ip: String::new(),
            wlan_ac_name: String::new(),
            nas_ip: String::new(),
            mac: String::new(),
            original_url: String::new(),
            nas_id: String::new(),
            vid: String::new(),
            port: String::new(),
            nas_port_id: String::new(),
        }
    }
}

pub open spec fn no_params() -> ParamsModel {
    ParamsModel {
        wlan_user_ip: Seq::empty(),
        wlan_ac_name: Seq::empty(),
        nas_ip: Seq::empty(),
        mac: Seq::empty(),
        original_url: Seq::empty(),
        nas_id: Seq::empty(),
        vid: Seq::empty(),
        port: Seq::empty(),
        nas_port_id: Seq::empty(),
    }
}

#[derive(Debug)]
pub struct CaptivePortal {
    pub params: PortalParams,
    pub status: u16,
    /// Safe for diagnostics: scheme, host and path only, with query and
    /// fragment removed. A complete Location URL is never kept for a log.
    pub location: String,
}

pub struct CaptiveModel {
    pub params: ParamsModel,
    pub status: u16,
    pub location: Seq<char>,
}

impl Clone for CaptivePortal {
    fn clone(&self) -> (r: Self)
        ensures
            r == *self,
    {
        CaptivePortal {
            params: self.params.clone(),
            status: self.status,
            location: self.location.clone(),
        }
    }
}

impl View for CaptivePortal {
    type V = CaptiveModel;

    open spec fn view(&self) -> CaptiveModel {
        CaptiveModel { params: self.params@, status: self.status, location: self.location@ }
    }
}

// ---------------------------------------------------------------------------
// Hosts
// ---------------------------------------------------------------------------

/// The host of the campus gateway: the configured one, else that of the
/// gateway URL.
pub open spec fn portal_host(config: AppConfig) -> Option<Seq<char>> {
    let configured = text::trim(config.portal_host@);
    if configured.len() > 0 {
        Some(text::lower(text::trim_where(configured, text::only('/'))))
    } else {
        match web::parsed_url(config.gateway@) {
            Ok(url) => match url.host {
                Some(host) => Some(text::lower(host)),
                None => None,
            },
            Err(_) => None,
        }
    }
}

/// `host` is there and equals `expected`, the case of letters aside.
pub open spec fn host_is(host: Option<Seq<char>>, expected: Seq<char>) -> bool {
    host matches Some(h) && text::lower(h) == text::lower(expected)
}

pub open spec fn portal_url(config: AppConfig, value: Seq<char>) -> bool {
    match (portal_host(config), web::parsed_url(value)) {
        (Some(expected), Ok(url)) => host_is(url.host, expected),
        _ => false,
    }
}

/// A candidate may be the portal's: a URL of the expected host, or no URL.
pub open spec fn allowed(candidate: Seq<char>, expected: Option<Seq<char>>) -> bool {
    match expected {
        None => false,
        Some(host) => match web::parsed_url(candidate) {
            Ok(url) => host_is(url.host, host),
            Err(_) => true,
        },
    }
}

fn configured_portal_host(config: &AppConfig) -> (r: Option<String>)
    ensures
        text::opt_view(r) == portal_host(*config),
{
    let configured = trim_text(&config.portal_host);
    if !configured.as_str().is_empty() {
        return Some(to_ascii_lowercase(&trim_matches(&configured, '/')));
    }
    match parse_url(&config.gateway) {
        Ok(url) => match url.host {
            Some(host) => Some(to_ascii_lowercase(&host)),
            None => None,
        },
        Err(_) => None,
    }
}

fn same_host(host: &Option<String>, expected: &str) -> (r: bool)
    ensures
        r == host_is(text::opt_view(*host), expected@),
{
    match host {
        Some(h) => eq_ignore_ascii_case(h, expected),
        None => false,
    }
}

/// Whether an absolute URL belongs to the configured campus gateway, so that
/// arbitrary external URLs with room identifiers cannot write configuration.
pub fn is_portal_url(config: &AppConfig, value: &str) -> (r: bool)
    ensures
        r == portal_url(*config, value@),
{
    match configured_portal_host(config) {
        None => false,
        Some(expected) => match parse_url(value) {
            Ok(url) => same_host(&url.host, &expected),
            Err(_) => false,
        },
    }
}

fn host_allowed(candidate: &str, expected: &Option<String>) -> (r: bool)
    ensures
        r == allowed(candidate@, text::opt_view(*expected)),
{
    match expected {
        None => false,
        Some(host) => match parse_url(candidate) {
            Ok(url) => same_host(&url.host, host),
            Err(_) => true,
        },
    }
}

// ---------------------------------------------------------------------------
// Candidate URLs
// ---------------------------------------------------------------------------

/// The characters that end a URL in a page.
pub open spec fn ends_url(c: char) -> bool {
    text::is_white(c) || c == '"' || c == '\'' || c == '<' || c == '>'
}

pub open spec fn url_end() -> spec_fn(char) -> bool {
    |c: char| ends_url(c)
}

fn is_url_end(c: char) -> (b: bool)
    ensures
        b == ends_url(c),
{
    is_whitespace(c) || c == '"' || c == '\'' || c == '<' || c == '>'
}

/// The earlier of two positions.
pub open spec fn earlier(a: Option<int>, b: Option<int>) -> Option<int> {
    match (a, b) {
        (Some(x), Some(y)) => Some(
            if x < y {
                x
            } else {
                y
            },
        ),
        (Some(x), None) => Some(x),
        (None, y) => y,
    }
}

/// Where the next absolute URL starts: at the next `http://` or `https://`,
/// whichever comes first.
pub open spec fn next_url(low: Seq<char>, from: int) -> Option<int> {
    earlier(text::find(low, "http://"@, from), text::find(low, "https://"@, from))
}

/// The URL written from `start` to `end`, with HTML's ampersands undone.
pub open spec fn written_url(body: Seq<char>, start: int, end: int) -> Seq<char> {
    text::replace(body.subrange(start, end), "&amp;"@, "&"@)
}

/// `found` and, after it, the further absolute URLs in `body` from `from` on,
/// each once.
pub open spec fn urls_from(body: Seq<char>, from: int, found: Seq<Seq<char>>) -> Seq<Seq<char>>
    decreases body.len() - from,
    when 0 <= from <= body.len()
    via urls_from_decreases
{
    match next_url(text::lower(body), from) {
        None => found,
        Some(start) => {
            let end = text::first_where(body, url_end(), start);
            let candidate = written_url(body, start, end);
            let more = if web::parsed_url(candidate) is Ok && !found.contains(candidate) {
                found.push(candidate)
            } else {
                found
            };
            if end >= body.len() {
                more
            } else {
                urls_from(body, end, more)
            }
        },
    }
}

#[via_fn]
proof fn urls_from_decreases(body: Seq<char>, from: int, found: Seq<Seq<char>>) {
    lemma_next_url(body, from);
}

/// The next URL starts at or after `from` and has at least one character.
proof fn lemma_next_url(body: Seq<char>, from: int)
    requires
        0 <= from <= body.len(),
    ensures
        next_url(text::lower(body), from) matches Some(start) ==> {
            let end = text::first_where(body, url_end(), start);
            from <= start < end <= body.len()
        },
{
    let low = text::lower(body);
    text::lemma_find(low, "http://"@, from);
    text::lemma_find(low, "https://"@, from);
    reveal_strlit("http://");
    reveal_strlit("https://");
    if let Some(start) = next_url(low, from) {
        text::lemma_first_where(body, url_end(), start);
        if text::matches_at(low, "http://"@, start) {
            assert(low.subrange(start, start + 7)[0] == 'h');
        } else {
            assert(low.subrange(start, start + 8)[0] == 'h');
        }
        assert(low[start] == 'h');
        assert(text::lower_char(body[start]) == 'h');
        assert(!ends_url(body[start]));
    }
}

/// The absolute URLs of a Location header and of an HTML or script body. No
/// particular path is asked for.
pub open spec fn candidates(location: Seq<char>, body: Seq<char>) -> Seq<Seq<char>> {
    urls_from(
        body,
        0,
        if web::parsed_url(location) is Ok {
            seq![location]
        } else {
            Seq::empty()
        },
    )
}

fn holds(list: &Vec<String>, value: &str) -> (r: bool)
    ensures
        r == text::texts(list@).contains(value@),
{
    let mut i: usize = 0;
    while i < list.len()
        invariant
            0 <= i <= list@.len(),
            forall|k: int| 0 <= k < i ==> list@[k]@ != value@,
        decreases list@.len() - i,
    {
        if same(&list[i], value) {
            assert(text::texts(list@)[i as int] == value@);
            return true;
        }
        i += 1;
    }
    assert(!text::texts(list@).contains(value@)) by {
        if text::texts(list@).contains(value@) {
            let k = text::texts(list@).index_of(value@);
            assert(list@[k]@ == value@);
        }
    }
    false
}

pub fn candidate_urls(location: &str, body: &str) -> (r: Vec<String>)
    ensures
        text::texts(r@) == candidates(location@, body@),
{
    let mut result: Vec<String> = Vec::new();
    if parse_url(location).is_ok() {
        result.push(location.to_string());
        assert(text::texts(result@) =~= seq![location@]);
    } else {
        assert(text::texts(result@) =~= Seq::<Seq<char>>::empty());
    }
    let chars = chars_of(body);
    let low = lower_chars(&chars);
    let plain = chars_of("http://");
    let tls = chars_of("https://");
    let amp = chars_of("&amp;");
    let and = chars_of("&");
    proof {
        reveal_strlit("&amp;");
    }
    let mut offset: usize = 0;
    loop
        invariant_except_break
            offset <= body@.len(),
            chars@ == body@,
            low@ == text::lower(body@),
            plain@ == "http://"@,
            tls@ == "https://"@,
            amp@ == "&amp;"@,
            amp@.len() > 0,
            and@ == "&"@,
            candidates(location@, body@) == urls_from(body@, offset as int, text::texts(result@)),
        ensures
            candidates(location@, body@) == text::texts(result@),
        decreases body@.len() - offset,
    {
        proof {
            lemma_next_url(body@, offset as int);
        }
        let next = match (find_chars(&low, &plain, offset), find_chars(&low, &tls, offset)) {
            (Some(i), Some(j)) => Some(
                if i < j {
                    i
                } else {
                    j
                },
            ),
            (Some(i), None) => Some(i),
            (None, j) => j,
        };
        match next {
            None => {
                break;
            },
            Some(start) => {
                let end = scan(&chars, start, is_url_end, Ghost(url_end()));
                let candidate = string_of(&replace_chars(&chars_between(&chars, start, end), &amp, &and));
                let ghost before = text::texts(result@);
                if parse_url(&candidate).is_ok() && !holds(&result, &candidate) {
                    result.push(candidate);
                    assert(text::texts(result@) =~= before.push(candidate@));
                }
                if end >= chars.len() {
                    break;
                }
                offset = end;
            },
        }
    }
    result
}

pub open spec fn has_portal_url(urls: Seq<Seq<char>>, expected: Seq<char>) -> bool {
    exists|k: int| 0 <= k < urls.len() && allowed(#[trigger] urls[k], Some(expected))
}

/// A body may speak for the portal: it holds a URL of the expected host, or no
/// URL at all.
pub open spec fn body_speaks(body: Seq<char>, expected: Option<Seq<char>>) -> bool {
    match expected {
        None => false,
        Some(host) => has_portal_url(candidates(Seq::empty(), body), host) || (!text::contains(
            body,
            "http://"@,
        ) && !text::contains(body, "https://"@)),
    }
}

fn body_has_allowed_host(body: &str, expected: &Option<String>) -> (r: bool)
    ensures
        r == body_speaks(body@, text::opt_view(*expected)),
{
    if expected.is_none() {
        return false;
    }
    let nothing = String::new();
    let urls = candidate_urls(&nothing, body);
    let mut i: usize = 0;
    while i < urls.len()
        invariant
            0 <= i <= urls@.len(),
            text::texts(urls@) == candidates(Seq::empty(), body@),
            forall|k: int| 0 <= k < i ==> !allowed(urls@[k]@, text::opt_view(*expected)),
        decreases urls@.len() - i,
    {
        if host_allowed(&urls[i], expected) {
            assert(allowed(text::texts(urls@)[i as int], text::opt_view(*expected)));
            return true;
        }
        i += 1;
    }
    let chars = chars_of(body);
    !contains_chars(&chars, &chars_of("http://")) && !contains_chars(&chars, &chars_of("https://"))
}

/// Scheme, host and path of a URL; nothing for what is no URL.
pub open spec fn diagnostic_location(value: Seq<char>) -> Seq<char> {
    match web::parsed_url(value) {
        Err(_) => Seq::empty(),
        Ok(url) => match url.host {
            Some(host) => if host.len() == 0 {
                url.path
            } else {
                url.scheme + "://"@ + host + url.path
            },
            None => url.path,
        },
    }
}

pub fn safe_location(value: &str) -> (r: String)
    ensures
        r@ == diagnostic_location(value@),
{
    match parse_url(value) {
        Err(_) => String::new(),
        Ok(url) => match url.host {
            Some(host) => if host.as_str().is_empty() {
                url.path
            } else {
                join2(&join3(&url.scheme, "://", &host), &url.path)
            },
            None => url.path,
        },
    }
}

// ---------------------------------------------------------------------------
// Parameters
// ---------------------------------------------------------------------------

/// The parameters that are looked for in a page.
pub const PORTAL_KEYS: [&'static str; 9] = [
    "wlanuserip",
    "wlanacname",
    "nasip",
    "mac",
    "url",
    "nasid",
    "vid",
    "port",
    "nasportid",
];

/// The characters that end a value in a page.
pub open spec fn ends_value(c: char) -> bool {
    ends_url(c) || c == '&'
}

pub open spec fn value_stop() -> spec_fn(char) -> bool {
    |c: char| ends_value(c)
}

fn is_value_end(c: char) -> (b: bool)
    ensures
        b == ends_value(c),
{
    is_url_end(c) || c == '&'
}

/// A name at `at` is the tail of a longer one.
pub open spec fn inside_name(s: Seq<char>, at: int) -> bool {
    at > 0 && (text::is_ascii_alnum(s[at - 1]) || s[at - 1] == '_')
}

/// The value of the first pair.
pub open spec fn first_value(pairs: Seq<web::Pair>) -> Seq<char> {
    if pairs.len() > 0 {
        pairs[0].1
    } else {
        Seq::empty()
    }
}

pub open spec fn short_enough(value: Seq<char>) -> bool {
    text::within(value, MAX_VALUE_LEN as int, 0) == value.len()
}

/// The pairs that `key=` introduces in `s` from `from` on. A value that is too
/// long is left out.
pub open spec fn key_pairs(s: Seq<char>, key: Seq<char>, from: int) -> Seq<web::Pair>
    decreases s.len() - from,
    when 0 <= from <= s.len()
    via key_pairs_decreases
{
    let marker = key + "="@;
    match text::find(s, marker, from) {
        None => Seq::empty(),
        Some(at) => {
            let start = at + marker.len();
            if inside_name(s, at) {
                key_pairs(s, key, start)
            } else {
                let end = text::first_where(s, value_stop(), start);
                let value = first_value(web::form_pairs(marker + s.subrange(start, end)));
                let this = if short_enough(value) {
                    seq![(key, value)]
                } else {
                    Seq::empty()
                };
                let next = if end > start {
                    end
                } else {
                    start + 1
                };
                if next >= s.len() {
                    this
                } else {
                    this + key_pairs(s, key, next)
                }
            }
        },
    }
}

#[via_fn]
proof fn key_pairs_decreases(s: Seq<char>, key: Seq<char>, from: int) {
    lemma_marker(s, key, from);
}

proof fn lemma_marker(s: Seq<char>, key: Seq<char>, from: int)
    requires
        0 <= from <= s.len(),
    ensures
        text::find(s, key + "="@, from) matches Some(at) ==> {
            let start = at + key.len() + 1;
            &&& from < start <= s.len()
            &&& (key + "="@).len() == key.len() + 1
            &&& start <= text::first_where(s, value_stop(), start) <= s.len()
        },
{
    reveal_strlit("=");
    let marker = key + "="@;
    text::lemma_find(s, marker, from);
    if let Some(at) = text::find(s, marker, from) {
        text::lemma_first_where(s, value_stop(), at + key.len() + 1);
    }
}

/// The pairs of the first `n` parameters, in their order.
pub open spec fn page_pairs(s: Seq<char>, n: int) -> Seq<web::Pair>
    decreases n,
{
    if n <= 0 {
        Seq::empty()
    } else {
        page_pairs(s, n - 1) + key_pairs(s, PORTAL_KEYS@[n - 1]@, 0)
    }
}

/// The pairs of a source: a URL's query, or what a page holds.
pub open spec fn source_pairs(source: Seq<char>) -> Seq<web::Pair> {
    match web::parsed_url(source) {
        Ok(url) => web::query_of(url),
        Err(_) => page_pairs(text::replace(source, "&amp;"@, "&"@), 9),
    }
}

fn find_key_pairs(s: &Vec<char>, key: &str, found: &mut Vec<(String, String)>)
    ensures
        web::pair_views(final(found)@) == web::pair_views(old(found)@) + key_pairs(s@, key@, 0),
{
    let marker = join2(key, "=");
    let pattern = chars_of(&marker);
    let n: usize = s.len();
    let mut from: usize = 0;
    let ghost before = web::pair_views(found@);
    loop
        invariant_except_break
            from <= s@.len() == n,
            pattern@ == key@ + "="@,
            marker@ == pattern@,
            before + key_pairs(s@, key@, 0) == web::pair_views(found@) + key_pairs(
                s@,
                key@,
                from as int,
            ),
        ensures
            before + key_pairs(s@, key@, 0) == web::pair_views(found@),
        decreases s@.len() - from,
    {
        proof {
            lemma_marker(s@, key@, from as int);
        }
        match find_chars(s, &pattern, from) {
            None => {
                assert(web::pair_views(found@) + key_pairs(s@, key@, from as int)
                    =~= web::pair_views(found@));
                break;
            },
            Some(at) => {
                let start: usize = at + pattern.len();
                if at > 0 && (is_ascii_alphanumeric(s[at - 1]) || s[at - 1] == '_') {
                    from = start;
                } else {
                    let end = scan(s, start, is_value_end, Ghost(value_stop()));
                    let pairs = parse_form(&join2(&marker, &string_between(s, start, end)));
                    let value = if pairs.len() > 0 {
                        assert(web::pair_views(pairs@)[0] == (pairs@[0].0@, pairs@[0].1@));
                        pairs[0].1.clone()
                    } else {
                        String::new()
                    };
                    let ghost had = web::pair_views(found@);
                    let ghost rest = key_pairs(s@, key@, from as int);
                    let ghost mut this = Seq::<web::Pair>::empty();
                    if fits(&chars_of(&value), MAX_VALUE_LEN) {
                        found.push((key.to_string(), value));
                        proof {
                            this = seq![(key@, value@)];
                        }
                    }
                    assert(web::pair_views(found@) =~= had + this);
                    if end > start {
                        from = end;
                    } else if start < s.len() {
                        from = start + 1;
                    } else {
                        assert(rest =~= this);
                        break;
                    }
                    if from >= s.len() {
                        assert(rest =~= this);
                        break;
                    }
                    assert(rest =~= this + key_pairs(s@, key@, from as int));
                    assert(had + rest =~= web::pair_views(found@) + key_pairs(
                        s@,
                        key@,
                        from as int,
                    ));
                }
            },
        }
    }
}

pub fn query_pairs(source: &str) -> (pairs: Vec<(String, String)>)
    ensures
        web::pair_views(pairs@) == source_pairs(source@),
{
    if let Ok(url) = parse_url(source) {
        return query_pairs_of(&url);
    }
    proof {
        reveal_strlit("&amp;");
    }
    let plain = replace_chars(&chars_of(source), &chars_of("&amp;"), &chars_of("&"));
    let mut pairs: Vec<(String, String)> = Vec::new();
    let mut i: usize = 0;
    assert(web::pair_views(pairs@) =~= page_pairs(plain@, 0));
    while i < PORTAL_KEYS.len()
        invariant
            0 <= i <= 9,
            web::pair_views(pairs@) == page_pairs(plain@, i as int),
        decreases 9 - i,
    {
        find_key_pairs(&plain, PORTAL_KEYS[i], &mut pairs);
        i += 1;
    }
    pairs
}

/// The value of the last pair of that name.
pub open spec fn last_value(pairs: Seq<web::Pair>, key: Seq<char>) -> Seq<char>
    decreases pairs.len(),
{
    if pairs.len() == 0 {
        Seq::empty()
    } else if pairs.last().0 == key {
        pairs.last().1
    } else {
        last_value(pairs.drop_last(), key)
    }
}

pub open spec fn params_of(pairs: Seq<web::Pair>) -> ParamsModel {
    ParamsModel {
        wlan_user_ip: last_value(pairs, "wlanuserip"@),
        wlan_ac_name: last_value(pairs, "wlanacname"@),
        nas_ip: last_value(pairs, "nasip"@),
        mac: last_value(pairs, "mac"@),
        original_url: last_value(pairs, "url"@),
        nas_id: last_value(pairs, "nasid"@),
        vid: last_value(pairs, "vid"@),
        port: last_value(pairs, "port"@),
        nas_port_id: last_value(pairs, "nasportid"@),
    }
}

fn set_if(slot: &mut String, wanted: &str, key: &str, value: &str)
    ensures
        final(slot)@ == if key@ == wanted@ {
            value@
        } else {
            old(slot)@
        },
{
    if same(key, wanted) {
        *slot = value.to_string();
    }
}

pub fn extract_params(source: &str) -> (params: PortalParams)
    ensures
        params@ == params_of(source_pairs(source@)),
{
    let pairs = query_pairs(source);
    let ghost all = web::pair_views(pairs@);
    let mut params = PortalParams::default();
    let mut i: usize = 0;
    while i < pairs.len()
        invariant
            0 <= i <= pairs@.len(),
            all == web::pair_views(pairs@),
            params@ == params_of(all.take(i as int)),
        decreases pairs@.len() - i,
    {
        let key = &pairs[i].0;
        let value = &pairs[i].1;
        set_if(&mut params.wlan_user_ip, "wlanuserip", key, value);
        set_if(&mut params.wlan_ac_name, "wlanacname", key, value);
        set_if(&mut params.nas_ip, "nasip", key, value);
        set_if(&mut params.mac, "mac", key, value);
        set_if(&mut params.original_url, "url", key, value);
        set_if(&mut params.nas_id, "nasid", key, value);
        set_if(&mut params.vid, "vid", key, value);
        set_if(&mut params.port, "port", key, value);
        set_if(&mut params.nas_port_id, "nasportid", key, value);
        proof {
            let next = all.take(i + 1);
            assert(next.drop_last() =~= all.take(i as int));
            assert(next.last() == (key@, value@));
        }
        i += 1;
    }
    assert(all.take(i as int) =~= all);
    params
}

// ---------------------------------------------------------------------------
// Room identifiers
// ---------------------------------------------------------------------------

pub open spec fn id_char(c: char) -> bool {
    text::is_ascii_alnum(c) || c == '-' || c == '_' || c == '.'
}

pub open spec fn id_like(s: Seq<char>) -> bool {
    0 < s.len() <= MAX_ID_LEN && forall|k: int| 0 <= k < s.len() ==> id_char(#[trigger] s[k])
}

pub fn valid_id(value: &str) -> (r: bool)
    ensures
        r == id_like(value@),
{
    let s = chars_of(value);
    if s.len() == 0 || s.len() > MAX_ID_LEN {
        return false;
    }
    let mut i: usize = 0;
    while i < s.len()
        invariant
            0 <= i <= s@.len(),
            s@ == value@,
            forall|k: int| 0 <= k < i ==> id_char(#[trigger] s@[k]),
        decreases s@.len() - i,
    {
        let c: char = s[i];
        if !(is_ascii_alphanumeric(c) || c == '-' || c == '_' || c == '.') {
            assert(!id_char(value@[i as int]));
            return false;
        }
        i += 1;
    }
    true
}

/// A pair that names an identifier under `key`.
pub open spec fn names_id(pair: web::Pair, key: Seq<char>) -> bool {
    pair.0 == key && id_like(pair.1)
}

/// `id` is named under `key`, and no other identifier is.
pub open spec fn sole_id(pairs: Seq<web::Pair>, key: Seq<char>, id: Seq<char>) -> bool {
    &&& exists|k: int| 0 <= k < pairs.len() && names_id(#[trigger] pairs[k], key)
    &&& forall|k: int|
        0 <= k < pairs.len() && names_id(#[trigger] pairs[k], key) ==> pairs[k].1 == id
}

/// The two identifiers of a room, where each is named and neither is named
/// differently a second time.
pub open spec fn room_binding(pairs: Seq<web::Pair>) -> Option<(Seq<char>, Seq<char>)> {
    if exists|a: Seq<char>, r: Seq<char>|
        #![trigger sole_id(pairs, "apartmentId"@, a), sole_id(pairs, "roomId"@, r)]
        sole_id(pairs, "apartmentId"@, a) && sole_id(pairs, "roomId"@, r) {
        Some(
            choose|a: Seq<char>, r: Seq<char>|
                #![trigger sole_id(pairs, "apartmentId"@, a), sole_id(pairs, "roomId"@, r)]
                sole_id(pairs, "apartmentId"@, a) && sole_id(pairs, "roomId"@, r),
        )
    } else {
        None
    }
}

pub open spec fn url_binding(value: Seq<char>) -> Option<(Seq<char>, Seq<char>)> {
    match web::parsed_url(value) {
        Ok(url) => room_binding(web::query_of(url)),
        Err(_) => None,
    }
}

/// The binding of a URL of the expected host; a blank host lets every URL pass.
pub open spec fn url_binding_for(value: Seq<char>, expected_host: Seq<char>) -> Option<
    (Seq<char>, Seq<char>),
> {
    match web::parsed_url(value) {
        Ok(url) => if text::is_blank(expected_host) || host_is(
            url.host,
            text::trim(expected_host),
        ) {
            url_binding(value)
        } else {
            None
        },
        Err(_) => None,
    }
}

pub open spec fn binding_view(b: Option<(String, String)>) -> Option<(Seq<char>, Seq<char>)> {
    match b {
        Some((a, r)) => Some((a@, r@)),
        None => None,
    }
}

/// What a slot holds of the pairs read so far.
spec fn slot_holds(slot: Option<String>, pairs: Seq<web::Pair>, key: Seq<char>) -> bool {
    match slot {
        None => forall|k: int| 0 <= k < pairs.len() ==> !names_id(#[trigger] pairs[k], key),
        Some(id) => sole_id(pairs, key, id@),
    }
}

fn set_unique(slot: &mut Option<String>, value: &String) -> (fresh: bool)
    ensures
        match *old(slot) {
            Some(existing) => *final(slot) == *old(slot) && fresh == (existing@ == value@),
            None => fresh && *final(slot) == Some(*value),
        },
{
    match slot {
        Some(existing) => same(existing, value),
        None => {
            *slot = Some(value.clone());
            true
        },
    }
}

/// One more pair keeps a slot's meaning.
proof fn lemma_slot_step(
    before: Option<String>,
    after: Option<String>,
    pairs: Seq<web::Pair>,
    key: Seq<char>,
    i: int,
)
    requires
        0 <= i < pairs.len(),
        slot_holds(before, pairs.take(i), key),
        !names_id(pairs[i], key) ==> after == before,
        names_id(pairs[i], key) && before is None ==> after is Some && after->0@ == pairs[i].1,
        names_id(pairs[i], key) && before is Some ==> after == before && before->0@ == pairs[i].1,
    ensures
        slot_holds(after, pairs.take(i + 1), key),
{
    let short = pairs.take(i);
    let long = pairs.take(i + 1);
    assert(long[i] == pairs[i]);
    assert(forall|k: int| 0 <= k < i ==> #[trigger] long[k] == short[k]);
    if let Some(id) = after {
        if names_id(pairs[i], key) {
            assert(names_id(long[i], key));
        } else {
            let k = choose|k: int| 0 <= k < short.len() && names_id(#[trigger] short[k], key);
            assert(names_id(long[k], key));
        }
    }
}

/// Two identifiers under one name leave no binding.
proof fn lemma_conflict(pairs: Seq<web::Pair>, key: Seq<char>, i: int, id: Seq<char>)
    requires
        0 <= i < pairs.len(),
        sole_id(pairs.take(i), key, id),
        names_id(pairs[i], key),
        pairs[i].1 != id,
    ensures
        forall|other: Seq<char>| !sole_id(pairs, key, other),
{
    let short = pairs.take(i);
    let k = choose|k: int| 0 <= k < short.len() && names_id(#[trigger] short[k], key);
    assert(pairs[k] == short[k]);
    assert(names_id(pairs[k], key));
}

proof fn lemma_sole_is_one(pairs: Seq<web::Pair>, key: Seq<char>, a: Seq<char>, b: Seq<char>)
    requires
        sole_id(pairs, key, a),
        sole_id(pairs, key, b),
    ensures
        a == b,
{
    let k = choose|k: int| 0 <= k < pairs.len() && names_id(#[trigger] pairs[k], key);
    assert(names_id(pairs[k], key));
}

/// The binding that a list of decoded query pairs names.
pub fn binding_of(pairs: &Vec<(String, String)>) -> (r: Option<(String, String)>)
    ensures
        binding_view(r) == room_binding(web::pair_views(pairs@)),
{
    let ghost all = web::pair_views(pairs@);
    let mut apartment: Option<String> = None;
    let mut room: Option<String> = None;
    let mut i: usize = 0;
    proof {
        reveal_strlit("apartmentId");
        reveal_strlit("roomId");
        assert("apartmentId"@.len() != "roomId"@.len());
    }
    while i < pairs.len()
        invariant
            0 <= i <= pairs@.len(),
            all == web::pair_views(pairs@),
            "apartmentId"@ != "roomId"@,
            slot_holds(apartment, all.take(i as int), "apartmentId"@),
            slot_holds(room, all.take(i as int), "roomId"@),
        decreases pairs@.len() - i,
    {
        let key = &pairs[i].0;
        let value = &pairs[i].1;
        assert(all[i as int] == (key@, value@));
        let ghost apartment_before = apartment;
        let ghost room_before = room;
        if valid_id(value) {
            if same(key, "apartmentId") {
                if !set_unique(&mut apartment, value) {
                    proof {
                        lemma_conflict(all, "apartmentId"@, i as int, apartment_before->0@);
                    }
                    return None;
                }
            } else if same(key, "roomId") {
                if !set_unique(&mut room, value) {
                    proof {
                        lemma_conflict(all, "roomId"@, i as int, room_before->0@);
                    }
                    return None;
                }
            }
        }
        proof {
            lemma_slot_step(apartment_before, apartment, all, "apartmentId"@, i as int);
            lemma_slot_step(room_before, room, all, "roomId"@, i as int);
        }
        i += 1;
    }
    assert(all.take(i as int) =~= all);
    match (apartment, room) {
        (Some(a), Some(r)) => {
            proof {
                let (x, y) = room_binding(all)->0;
                assert(sole_id(all, "apartmentId"@, a@) && sole_id(all, "roomId"@, r@));
                lemma_sole_is_one(all, "apartmentId"@, a@, x);
                lemma_sole_is_one(all, "roomId"@, r@, y);
            }
            Some((a, r))
        },
        _ => None,
    }
}

/// Reads the two room identifiers from any request URL. The path is not
/// inspected, so that names such as `login_sso.jsp` remain details of one
/// campus deployment rather than requirements of the protocol.
pub fn extract_room_binding(value: &str) -> (r: Option<(String, String)>)
    ensures
        binding_view(r) == url_binding(value@),
{
    match parse_url(value) {
        Ok(url) => binding_of(&query_pairs_of(&url)),
        Err(_) => None,
    }
}

/// Same extraction with a host that the URL must have, for the capture window.
/// The path is ignored; only the campus gateway host is trusted.
pub fn extract_room_binding_for_host(value: &str, expected_host: &str) -> (r: Option<
    (String, String),
>)
    ensures
        binding_view(r) == url_binding_for(value@, expected_host@),
{
    match parse_url(value) {
        Ok(url) => {
            if !blank(expected_host) && !same_host(&url.host, &trim_text(expected_host)) {
                return None;
            }
            extract_room_binding(value)
        },
        Err(_) => None,
    }
}

// ---------------------------------------------------------------------------
// Classification
// ---------------------------------------------------------------------------

/// A URL of the portal that names the client's address.
pub open spec fn usable(candidate: Seq<char>, expected: Option<Seq<char>>) -> bool {
    allowed(candidate, expected) && params_of(source_pairs(candidate)).wlan_user_ip.len() > 0
}

/// The first usable one of `urls` from `from` on.
pub open spec fn first_usable(
    urls: Seq<Seq<char>>,
    expected: Option<Seq<char>>,
    from: int,
) -> Option<Seq<char>>
    decreases urls.len() - from,
{
    if from < 0 || from >= urls.len() {
        None
    } else if usable(urls[from], expected) {
        Some(urls[from])
    } else {
        first_usable(urls, expected, from + 1)
    }
}

/// The portal that a reply shows: from the first usable URL in it, or else from
/// the body as a whole.
pub open spec fn portal_in(config: AppConfig, result: ProbeModel) -> Option<CaptiveModel> {
    match result {
        ProbeModel::Redirect { status, location, body, .. } => {
            let expected = portal_host(config);
            match first_usable(candidates(location, body), expected, 0) {
                Some(url) => Some(
                    CaptiveModel {
                        params: params_of(source_pairs(url)),
                        status,
                        location: diagnostic_location(url),
                    },
                ),
                None => match expected {
                    Some(host) if body_speaks(body, expected) && params_of(
                        source_pairs(body),
                    ).wlan_user_ip.len() > 0 => Some(
                        CaptiveModel {
                            params: params_of(source_pairs(body)),
                            status,
                            location: "http://"@ + host,
                        },
                    ),
                    _ => None,
                },
            }
        },
        _ => None,
    }
}

pub open spec fn captive_view(p: Option<CaptivePortal>) -> Option<CaptiveModel> {
    match p {
        Some(portal) => Some(portal@),
        None => None,
    }
}

/// Classifies a probe response as the configured campus portal. A redirect is
/// accepted only when the host of its URL matches the configured gateway and
/// it includes usable dynamic parameters, or when the body carries them.
pub fn classify(config: &AppConfig, result: &ProbeResult) -> (r: Option<CaptivePortal>)
    ensures
        captive_view(r) == portal_in(*config, result@),
{
    match result {
        ProbeResult::Redirect { status, location, body, .. } => {
            let urls = candidate_urls(location, body);
            let expected = configured_portal_host(config);
            let ghost host = portal_host(*config);
            let mut i: usize = 0;
            while i < urls.len()
                invariant
                    0 <= i <= urls@.len(),
                    host == text::opt_view(expected),
                    first_usable(text::texts(urls@), host, 0) == first_usable(
                        text::texts(urls@),
                        host,
                        i as int,
                    ),
                    text::texts(urls@) == candidates(location@, body@),
                    host == portal_host(*config),
                    result@ matches ProbeModel::Redirect { status: s, location: l, body: b, .. }
                        && s == *status && l == location@ && b == body@,
                decreases urls@.len() - i,
            {
                assert(text::texts(urls@)[i as int] == urls@[i as int]@);
                if host_allowed(&urls[i], &expected) {
                    let params = extract_params(&urls[i]);
                    if !params.wlan_user_ip.as_str().is_empty() {
                        return Some(
                            CaptivePortal {
                                params,
                                status: *status,
                                location: safe_location(&urls[i]),
                            },
                        );
                    }
                }
                i += 1;
            }
            // Some portals put key=value pairs directly in an HTML or script
            // body rather than inside an absolute URL.
            if body_has_allowed_host(body, &expected) {
                let params = extract_params(body);
                if !params.wlan_user_ip.as_str().is_empty() {
                    if let Some(host_name) = &expected {
                        return Some(
                            CaptivePortal {
                                params,
                                status: *status,
                                location: join2("http://", host_name),
                            },
                        );
                    }
                }
            }
            None
        },
        _ => None,
    }
}

// ---------------------------------------------------------------------------
// Laws
// ---------------------------------------------------------------------------

proof fn lemma_urls_from(body: Seq<char>, from: int, found: Seq<Seq<char>>, k: int)
    requires
        0 <= from <= body.len(),
        forall|i: int| 0 <= i < found.len() ==> web::parsed_url(#[trigger] found[i]) is Ok,
        0 <= k < urls_from(body, from, found).len(),
    ensures
        web::parsed_url(urls_from(body, from, found)[k]) is Ok,
    decreases body.len() - from,
{
    lemma_next_url(body, from);
    if let Some(start) = next_url(text::lower(body), from) {
        let end = text::first_where(body, url_end(), start);
        let candidate = written_url(body, start, end);
        let more = if web::parsed_url(candidate) is Ok && !found.contains(candidate) {
            found.push(candidate)
        } else {
            found
        };
        if end < body.len() {
            lemma_urls_from(body, end, more, k);
        }
    }
}

proof fn lemma_candidates_are_urls(location: Seq<char>, body: Seq<char>, k: int)
    requires
        0 <= k < candidates(location, body).len(),
    ensures
        web::parsed_url(candidates(location, body)[k]) is Ok,
{
    let first = if web::parsed_url(location) is Ok {
        seq![location]
    } else {
        Seq::empty()
    };
    lemma_urls_from(body, 0, first, k);
}

proof fn lemma_first_usable(urls: Seq<Seq<char>>, expected: Option<Seq<char>>, from: int)
    requires
        0 <= from,
    ensures
        first_usable(urls, expected, from) matches Some(url) ==> urls.contains(url) && usable(
            url,
            expected,
        ),
    decreases urls.len() - from,
{
    if from < urls.len() {
        if usable(urls[from], expected) {
            assert(urls.contains(urls[from]));
        } else {
            lemma_first_usable(urls, expected, from + 1);
        }
    }
}

/// Only a redirect, or a page that the probe took for one, can be the portal:
/// a working connection, another HTTP answer and a failed request never are.
pub proof fn only_redirects_show_a_portal(config: AppConfig, result: ProbeModel)
    ensures
        portal_in(config, result) is Some ==> result is Redirect,
{
}

/// A recognised portal names the client's address, and its parameters come from
/// a URL of the configured gateway host, or from a body that holds such a URL
/// or none at all.
pub proof fn recognised_portal_is_the_configured_one(
    config: AppConfig,
    status: u16,
    location: Seq<char>,
    body: Seq<char>,
    elapsed_ms: u128,
)
    ensures
        portal_in(config, ProbeModel::Redirect { status, location, body, elapsed_ms })
            matches Some(portal) ==> {
            &&& portal_host(config) is Some
            &&& portal.status == status
            &&& portal.params.wlan_user_ip.len() > 0
            &&& {
                ||| exists|url: Seq<char>|
                    {
                        &&& #[trigger] candidates(location, body).contains(url)
                        &&& portal_url(config, url)
                        &&& portal.params == params_of(source_pairs(url))
                    }
                ||| body_speaks(body, portal_host(config)) && portal.params == params_of(
                    source_pairs(body),
                )
            }
        },
{
    let expected = portal_host(config);
    let urls = candidates(location, body);
    lemma_first_usable(urls, expected, 0);
    if let Some(url) = first_usable(urls, expected, 0) {
        let k = urls.index_of(url);
        lemma_candidates_are_urls(location, body, k);
        assert(urls.contains(url) && portal_url(config, url));
    }
}

/// A reply whose URLs all lead elsewhere, and whose body holds one, is not the
/// portal.
pub proof fn foreign_redirect_is_no_portal(
    config: AppConfig,
    status: u16,
    location: Seq<char>,
    body: Seq<char>,
    elapsed_ms: u128,
)
    requires
        forall|url: Seq<char>|
            #[trigger] candidates(location, body).contains(url) ==> !portal_url(config, url),
        forall|url: Seq<char>|
            #[trigger] candidates(Seq::empty(), body).contains(url) ==> !portal_url(config, url),
        text::contains(body, "http://"@) || text::contains(body, "https://"@),
    ensures
        portal_in(config, ProbeModel::Redirect { status, location, body, elapsed_ms }) is None,
{
    let expected = portal_host(config);
    let urls = candidates(location, body);
    lemma_first_usable(urls, expected, 0);
    if let Some(url) = first_usable(urls, expected, 0) {
        let k = urls.index_of(url);
        lemma_candidates_are_urls(location, body, k);
        assert(portal_url(config, url));
    }
    let inside = candidates(Seq::empty(), body);
    if let Some(host) = expected {
        if has_portal_url(inside, host) {
            let k = choose|k: int|
                0 <= k < inside.len() && allowed(#[trigger] inside[k], Some(host));
            lemma_candidates_are_urls(Seq::empty(), body, k);
            assert(inside.contains(inside[k]));
            assert(portal_url(config, inside[k]));
        }
    }
}

/// Identifiers that a URL binds are short and hold nothing but letters, digits,
/// hyphens, underscores and full stops.
pub proof fn bound_ids_are_plain(value: Seq<char>)
    ensures
        url_binding(value) matches Some((a, r)) ==> id_like(a) && id_like(r),
{
    if let Ok(url) = web::parsed_url(value) {
        let pairs = web::query_of(url);
        if let Some((a, r)) = room_binding(pairs) {
            let k = choose|k: int|
                0 <= k < pairs.len() && names_id(#[trigger] pairs[k], "apartmentId"@);
            assert(names_id(pairs[k], "apartmentId"@) && pairs[k].1 == a);
            let j = choose|j: int| 0 <= j < pairs.len() && names_id(#[trigger] pairs[j], "roomId"@);
            assert(names_id(pairs[j], "roomId"@) && pairs[j].1 == r);
        }
    }
}

/// With a host given, a URL of another host binds nothing, whatever it names.
pub proof fn foreign_url_binds_nothing(value: Seq<char>, expected_host: Seq<char>)
    requires
        !text::is_blank(expected_host),
        web::parsed_url(value) matches Ok(url) ==> !host_is(url.host, text::trim(expected_host)),
    ensures
        url_binding_for(value, expected_host) is None,
{
}

/// The path of a URL plays no part in the binding.
pub proof fn binding_ignores_the_path(a: Seq<char>, b: Seq<char>)
    requires
        web::parsed_url(a) matches Ok(x) && web::parsed_url(b) matches Ok(y) && x.query == y.query
            && x.host == y.host,
    ensures
        url_binding(a) == url_binding(b),
        forall|host: Seq<char>| #[trigger] url_binding_for(a, host) == url_binding_for(b, host),
{
}

// ---------------------------------------------------------------------------
// What recognising the portal is for
// ---------------------------------------------------------------------------

/// The last pair of that name has the value `v`.
pub open spec fn last_named(pairs: Seq<web::Pair>, name: Seq<char>, v: Seq<char>) -> bool {
    exists|k: int|
        {
            &&& 0 <= k < pairs.len()
            &&& #[trigger] pairs[k] == (name, v)
            &&& forall|j: int| k < j < pairs.len() ==> (#[trigger] pairs[j]).0 != name
        }
}

/// No pair has that name.
pub open spec fn unnamed(pairs: Seq<web::Pair>, name: Seq<char>) -> bool {
    forall|j: int| 0 <= j < pairs.len() ==> (#[trigger] pairs[j]).0 != name
}

/// `field` is what the pairs say of `name`: the value of the last pair of that
/// name, and empty where there is none.
pub open spec fn said_of(pairs: Seq<web::Pair>, name: Seq<char>, field: Seq<char>) -> bool {
    &&& unnamed(pairs, name) ==> field.len() == 0
    &&& forall|v: Seq<char>| #[trigger] last_named(pairs, name, v) ==> field == v
}

proof fn lemma_said(pairs: Seq<web::Pair>, name: Seq<char>)
    ensures
        said_of(pairs, name, last_value(pairs, name)),
    decreases pairs.len(),
{
    if pairs.len() > 0 {
        let before = pairs.drop_last();
        lemma_said(before, name);
        let n = pairs.len() - 1;
        if pairs[n].0 == name {
            assert forall|v: Seq<char>| #[trigger] last_named(pairs, name, v) implies last_value(
                pairs,
                name,
            ) == v by {
                let k = choose|k: int|
                    {
                        &&& 0 <= k < pairs.len()
                        &&& #[trigger] pairs[k] == (name, v)
                        &&& forall|j: int| k < j < pairs.len() ==> (#[trigger] pairs[j]).0 != name
                    };
                if k < n {
                    assert(pairs[n].0 != name);
                }
            }
        } else {
            if unnamed(pairs, name) {
                assert forall|j: int| 0 <= j < before.len() implies (#[trigger] before[j]).0
                    != name by {
                    assert(before[j] == pairs[j]);
                }
            }
            assert forall|v: Seq<char>| #[trigger] last_named(pairs, name, v) implies last_value(
                pairs,
                name,
            ) == v by {
                let k = choose|k: int|
                    {
                        &&& 0 <= k < pairs.len()
                        &&& #[trigger] pairs[k] == (name, v)
                        &&& forall|j: int| k < j < pairs.len() ==> (#[trigger] pairs[j]).0 != name
                    };
                assert(before[k] == (name, v));
                assert forall|j: int| k < j < before.len() implies (#[trigger] before[j]).0
                    != name by {
                    assert(before[j] == pairs[j]);
                }
                assert(last_named(before, name, v));
            }
        }
    }
}

/// Each parameter is read under its own name: the value of the last pair of
/// that name, and nothing where there is none.
pub proof fn parameters_are_read_by_name(pairs: Seq<web::Pair>)
    ensures
        said_of(pairs, "wlanuserip"@, params_of(pairs).wlan_user_ip),
        said_of(pairs, "wlanacname"@, params_of(pairs).wlan_ac_name),
        said_of(pairs, "nasip"@, params_of(pairs).nas_ip),
        said_of(pairs, "mac"@, params_of(pairs).mac),
        said_of(pairs, "url"@, params_of(pairs).original_url),
        said_of(pairs, "nasid"@, params_of(pairs).nas_id),
        said_of(pairs, "vid"@, params_of(pairs).vid),
        said_of(pairs, "port"@, params_of(pairs).port),
        said_of(pairs, "nasportid"@, params_of(pairs).nas_port_id),
{
    lemma_said(pairs, "wlanuserip"@);
    lemma_said(pairs, "wlanacname"@);
    lemma_said(pairs, "nasip"@);
    lemma_said(pairs, "mac"@);
    lemma_said(pairs, "url"@);
    lemma_said(pairs, "nasid"@);
    lemma_said(pairs, "vid"@);
    lemma_said(pairs, "port"@);
    lemma_said(pairs, "nasportid"@);
}

/// One of the nine names of the protocol.
pub open spec fn protocol_name(name: Seq<char>) -> bool {
    name == "wlanuserip"@ || name == "wlanacname"@ || name == "nasip"@ || name == "mac"@ || name
        == "url"@ || name == "nasid"@ || name == "vid"@ || name == "port"@ || name == "nasportid"@
}

proof fn lemma_last_value_skips(
    a: Seq<web::Pair>,
    other: web::Pair,
    b: Seq<web::Pair>,
    name: Seq<char>,
)
    requires
        other.0 != name,
    ensures
        last_value(a + seq![other] + b, name) == last_value(a + b, name),
    decreases b.len(),
{
    if b.len() == 0 {
        assert((a + seq![other] + b).drop_last() =~= a + b);
    } else {
        assert((a + seq![other] + b).drop_last() =~= a + seq![other] + b.drop_last());
        assert((a + b).drop_last() =~= a + b.drop_last());
        lemma_last_value_skips(a, other, b.drop_last(), name);
    }
}

/// A pair of any other name changes no parameter, wherever it stands.
pub proof fn other_pairs_change_no_parameter(
    a: Seq<web::Pair>,
    other: web::Pair,
    b: Seq<web::Pair>,
)
    requires
        !protocol_name(other.0),
    ensures
        params_of(a + seq![other] + b) == params_of(a + b),
{
    lemma_last_value_skips(a, other, b, "wlanuserip"@);
    lemma_last_value_skips(a, other, b, "wlanacname"@);
    lemma_last_value_skips(a, other, b, "nasip"@);
    lemma_last_value_skips(a, other, b, "mac"@);
    lemma_last_value_skips(a, other, b, "url"@);
    lemma_last_value_skips(a, other, b, "nasid"@);
    lemma_last_value_skips(a, other, b, "vid"@);
    lemma_last_value_skips(a, other, b, "port"@);
    lemma_last_value_skips(a, other, b, "nasportid"@);
}

/// Parameters are seen as they are, field by field.
pub proof fn parameters_are_seen_as_they_are(p: PortalParams, c: CaptivePortal)
    ensures
        p@.wlan_user_ip == p.wlan_user_ip@,
        p@.wlan_ac_name == p.wlan_ac_name@,
        p@.nas_ip == p.nas_ip@,
        p@.mac == p.mac@,
        p@.original_url == p.original_url@,
        p@.nas_id == p.nas_id@,
        p@.vid == p.vid@,
        p@.port == p.port@,
        p@.nas_port_id == p.nas_port_id@,
        c@.params == c.params@,
        c@.status == c.status,
        c@.location == c.location@,
{
}

/// The pairs of a URL are those of its query.
pub proof fn urls_speak_by_their_query(source: Seq<char>, url: web::UrlModel)
    requires
        web::parsed_url(source) == Ok::<_, Seq<char>>(url),
    ensures
        url.query matches Some(query) ==> source_pairs(source) == web::form_pairs(query),
        url.query is None ==> source_pairs(source) == web::form_pairs(Seq::empty()),
{
}

/// Ends a value in a page: white space, a quotation mark, an apostrophe, an
/// angle bracket or an ampersand.
pub open spec fn value_breaks(c: char) -> bool {
    text::is_white(c) || c == '"' || c == '\'' || c == '<' || c == '>' || c == '&'
}

/// In `s` the assignment `name=v` stands at the length of `p` and nowhere else:
/// no longer name ends there, and the value ends with `v`.
pub open spec fn assigned_once(
    s: Seq<char>,
    p: Seq<char>,
    name: Seq<char>,
    v: Seq<char>,
    rest: Seq<char>,
) -> bool {
    &&& s == p + name + "="@ + v + rest
    &&& p.len() > 0 ==> !text::is_ascii_alnum(p[p.len() - 1]) && p[p.len() - 1] != '_'
    &&& forall|k: int| 0 <= k < v.len() ==> !value_breaks(#[trigger] v[k])
    &&& rest.len() > 0 ==> value_breaks(rest[0])
    &&& forall|k: int| k != p.len() ==> !text::matches_at(s, name + "="@, k)
}

/// What follows `name=` in a page, decoded as a form.
pub open spec fn decoded_value(name: Seq<char>, v: Seq<char>) -> Seq<char> {
    let pairs = web::form_pairs(name + "="@ + v);
    if pairs.len() > 0 {
        pairs[0].1
    } else {
        Seq::empty()
    }
}

proof fn lemma_no_more_pairs(s: Seq<char>, key: Seq<char>, from: int)
    requires
        0 <= from <= s.len(),
        forall|k: int| from <= k ==> !text::matches_at(s, key + "="@, k),
    ensures
        key_pairs(s, key, from).len() == 0,
{
    text::lemma_find(s, key + "="@, from);
}

proof fn lemma_assigned_once(
    s: Seq<char>,
    p: Seq<char>,
    key: Seq<char>,
    v: Seq<char>,
    rest: Seq<char>,
)
    requires
        assigned_once(s, p, key, v, rest),
        vstd::utf8::encode_utf8(decoded_value(key, v)).len() <= 512,
    ensures
        key_pairs(s, key, 0) == seq![(key, decoded_value(key, v))],
{
    reveal_strlit("=");
    let marker = key + "="@;
    let at = p.len() as int;
    let start = at + marker.len();
    let end = start + v.len();
    assert(s.subrange(at, at + marker.len()) =~= marker);
    assert(text::matches_at(s, marker, at));
    text::lemma_find_is(s, marker, 0, at);
    if at > 0 {
        assert(s[at - 1] == p[at - 1]);
    }
    assert forall|k: int| start <= k < end implies !value_stop()(#[trigger] s[k]) by {
        assert(s[k] == v[k - start]);
        assert(!value_breaks(v[k - start]));
    }
    if end < s.len() {
        assert(s[end] == rest[0]);
    }
    text::lemma_first_where_is(s, value_stop(), start, end);
    assert(s.subrange(start, end) =~= v);
    let value = decoded_value(key, v);
    assert(value.skip(0) =~= value);
    text::lemma_within_whole(value, 512, 0);
    let next = if end > start {
        end
    } else {
        start + 1
    };
    if next < s.len() {
        lemma_no_more_pairs(s, key, next);
        assert(seq![(key, value)] + key_pairs(s, key, next) =~= seq![(key, value)]);
    }
}

proof fn lemma_key_pairs_named(s: Seq<char>, key: Seq<char>, from: int)
    requires
        0 <= from <= s.len(),
    ensures
        forall|k: int|
            0 <= k < key_pairs(s, key, from).len() ==> (#[trigger] key_pairs(s, key, from)[k]).0
                == key,
    decreases s.len() - from,
{
    lemma_marker(s, key, from);
    if let Some(at) = text::find(s, key + "="@, from) {
        let start = at + key.len() + 1;
        if inside_name(s, at) {
            lemma_key_pairs_named(s, key, start);
            assert(key_pairs(s, key, from) == key_pairs(s, key, start));
        } else {
            let end = text::first_where(s, value_stop(), start);
            let next = if end > start {
                end
            } else {
                start + 1
            };
            let value = first_value(web::form_pairs(key + "="@ + s.subrange(start, end)));
            let this = if short_enough(value) {
                seq![(key, value)]
            } else {
                Seq::empty()
            };
            if next < s.len() {
                lemma_key_pairs_named(s, key, next);
                let rest = key_pairs(s, key, next);
                assert(key_pairs(s, key, from) == this + rest);
                assert forall|k: int| 0 <= k < (this + rest).len() implies (#[trigger] (this
                    + rest)[k]).0 == key by {
                    if k >= this.len() {
                        assert((this + rest)[k] == rest[k - this.len()]);
                    }
                }
            } else {
                assert(key_pairs(s, key, from) == this);
            }
        }
    }
}

proof fn lemma_portal_keys()
    ensures
        PORTAL_KEYS@.len() == 9,
        PORTAL_KEYS@[0]@ == "wlanuserip"@,
        PORTAL_KEYS@[1]@ == "wlanacname"@,
        PORTAL_KEYS@[2]@ == "nasip"@,
        PORTAL_KEYS@[3]@ == "mac"@,
        PORTAL_KEYS@[4]@ == "url"@,
        PORTAL_KEYS@[5]@ == "nasid"@,
        PORTAL_KEYS@[6]@ == "vid"@,
        PORTAL_KEYS@[7]@ == "port"@,
        PORTAL_KEYS@[8]@ == "nasportid"@,
{
}

proof fn lemma_portal_keys_differ(i: int, j: int)
    requires
        0 <= i < j < 9,
    ensures
        PORTAL_KEYS@[i]@ != PORTAL_KEYS@[j]@,
{
    lemma_portal_keys();
    reveal_strlit("wlanuserip");
    reveal_strlit("wlanacname");
    reveal_strlit("nasip");
    reveal_strlit("mac");
    reveal_strlit("url");
    reveal_strlit("nasid");
    reveal_strlit("vid");
    reveal_strlit("port");
    reveal_strlit("nasportid");
    assert("wlanuserip"@.len() == 10 && "wlanuserip"@[4] == 'u');
    assert("wlanacname"@.len() == 10 && "wlanacname"@[4] == 'a');
    assert("nasip"@.len() == 5 && "nasip"@[4] == 'p');
    assert("mac"@.len() == 3 && "mac"@[0] == 'm');
    assert("url"@.len() == 3 && "url"@[0] == 'u');
    assert("nasid"@.len() == 5 && "nasid"@[4] == 'd');
    assert("vid"@.len() == 3 && "vid"@[0] == 'v');
    assert("port"@.len() == 4 && "nasportid"@.len() == 9);
    assert(i == 0 || i == 1 || i == 2 || i == 3 || i == 4 || i == 5 || i == 6 || i == 7);
    assert(j == 1 || j == 2 || j == 3 || j == 4 || j == 5 || j == 6 || j == 7 || j == 8);
}

/// Of the pairs of a page, those named by the key at `i` are those that the key
/// introduces.
proof fn lemma_page_pairs(s: Seq<char>, n: int, i: int, value: Seq<char>)
    requires
        0 <= i < n <= 9,
        key_pairs(s, PORTAL_KEYS@[i]@, 0) == seq![(PORTAL_KEYS@[i]@, value)],
    ensures
        last_named(page_pairs(s, n), PORTAL_KEYS@[i]@, value),
    decreases n,
{
    lemma_portal_keys();
    let key = PORTAL_KEYS@[i]@;
    let before = page_pairs(s, n - 1);
    let these = key_pairs(s, PORTAL_KEYS@[n - 1]@, 0);
    let all = before + these;
    if i == n - 1 {
        assert(all[before.len() as int] == (key, value));
        assert(last_named(all, key, value));
    } else {
        lemma_page_pairs(s, n - 1, i, value);
        lemma_key_pairs_named(s, PORTAL_KEYS@[n - 1]@, 0);
        let k = choose|k: int|
            {
                &&& 0 <= k < before.len()
                &&& #[trigger] before[k] == (key, value)
                &&& forall|j: int| k < j < before.len() ==> (#[trigger] before[j]).0 != key
            };
        lemma_portal_keys_differ(i, n - 1);
        assert(all[k] == (key, value));
        assert forall|j: int| k < j < all.len() implies (#[trigger] all[j]).0 != key by {
            if j < before.len() {
                assert(all[j] == before[j]);
            } else {
                assert(all[j] == these[j - before.len()]);
            }
        }
        assert(last_named(all, key, value));
    }
}

/// A parameter that a page assigns once, outside of any URL, is read: its value
/// is what stands behind `name=`, decoded, unless it is longer than 512 bytes.
pub proof fn pages_are_read(
    source: Seq<char>,
    p: Seq<char>,
    name: Seq<char>,
    v: Seq<char>,
    rest: Seq<char>,
)
    requires
        web::parsed_url(source) is Err,
        protocol_name(name),
        assigned_once(text::replace(source, "&amp;"@, "&"@), p, name, v, rest),
        vstd::utf8::encode_utf8(decoded_value(name, v)).len() <= 512,
    ensures
        last_named(source_pairs(source), name, decoded_value(name, v)),
{
    let s = text::replace(source, "&amp;"@, "&"@);
    let value = decoded_value(name, v);
    lemma_portal_keys();
    lemma_assigned_once(s, p, name, v, rest);
    let i: int = if name == "wlanuserip"@ {
        0
    } else if name == "wlanacname"@ {
        1
    } else if name == "nasip"@ {
        2
    } else if name == "mac"@ {
        3
    } else if name == "url"@ {
        4
    } else if name == "nasid"@ {
        5
    } else if name == "vid"@ {
        6
    } else if name == "port"@ {
        7
    } else {
        8
    };
    assert(PORTAL_KEYS@[i]@ == name);
    lemma_page_pairs(s, 9, i, value);
}

/// The host of the portal: the configured one without white space and slashes
/// around it, or where that is blank the host of the gateway; in small letters.
pub proof fn portal_host_is_the_configured_one(config: AppConfig)
    ensures
        !text::is_blank(config.portal_host@) ==> portal_host(config) == Some(
            text::lower(
                text::trim_where(
                    text::trim_where(config.portal_host@, text::white()),
                    text::only('/'),
                ),
            ),
        ),
        text::is_blank(config.portal_host@) ==> match web::parsed_url(config.gateway@) {
            Ok(url) => match url.host {
                Some(host) => portal_host(config) == Some(text::lower(host)),
                None => portal_host(config) is None,
            },
            Err(_) => portal_host(config) is None,
        },
{
}

/// A URL belongs to the portal exactly where its host is the portal's, whatever
/// the case of the letters; with no host to go by none does.
pub proof fn portal_urls_have_the_host(
    config: AppConfig,
    value: Seq<char>,
    expected: Seq<char>,
    host: Seq<char>,
)
    requires
        portal_host(config) == Some(expected),
        web::parsed_url(value) matches Ok(url) && url.host == Some(host),
    ensures
        portal_url(config, value) <==> text::lower(host) == text::lower(expected),
        allowed(value, Some(expected)) <==> text::lower(host) == text::lower(expected),
{
}

proof fn lemma_urls_grow(body: Seq<char>, from: int, found: Seq<Seq<char>>)
    requires
        0 <= from <= body.len(),
    ensures
        found.len() <= urls_from(body, from, found).len(),
        forall|k: int|
            0 <= k < found.len() ==> urls_from(body, from, found)[k] == #[trigger] found[k],
    decreases body.len() - from,
{
    lemma_next_url(body, from);
    if let Some(start) = next_url(text::lower(body), from) {
        let end = text::first_where(body, url_end(), start);
        let candidate = written_url(body, start, end);
        let more = if web::parsed_url(candidate) is Ok && !found.contains(candidate) {
            found.push(candidate)
        } else {
            found
        };
        if end < body.len() {
            lemma_urls_grow(body, end, more);
            assert forall|k: int| 0 <= k < found.len() implies urls_from(body, from, found)[k]
                == #[trigger] found[k] by {
                assert(more[k] == found[k]);
            }
        }
    }
}

/// A location that is a URL is the first candidate.
pub proof fn location_comes_first(location: Seq<char>, body: Seq<char>)
    requires
        web::parsed_url(location) is Ok,
    ensures
        candidates(location, body).len() > 0,
        candidates(location, body)[0] == location,
{
    lemma_urls_grow(body, 0, seq![location]);
    assert(seq![location][0] == location);
}

/// Ends a URL in a page: white space, a quotation mark, an apostrophe or an
/// angle bracket.
pub open spec fn url_breaks(c: char) -> bool {
    text::is_white(c) || c == '"' || c == '\'' || c == '<' || c == '>'
}

/// `u` is written like an absolute URL: it begins with `http://` or `https://`
/// in letters of either case and holds nothing that ends a URL.
pub open spec fn url_like(u: Seq<char>) -> bool {
    &&& text::starts_with(text::lower(u), "http://"@) || text::starts_with(
        text::lower(u),
        "https://"@,
    )
    &&& forall|k: int| 0 <= k < u.len() ==> !url_breaks(#[trigger] u[k])
}

/// In `body` the text `u` is set off from what stands around it.
pub open spec fn stands_apart(
    body: Seq<char>,
    a: Seq<char>,
    u: Seq<char>,
    b: Seq<char>,
) -> bool {
    &&& body == a + u + b
    &&& a.len() > 0 ==> url_breaks(a[a.len() - 1])
    &&& b.len() > 0 ==> url_breaks(b[0])
}

proof fn lemma_url_found(
    body: Seq<char>,
    a: Seq<char>,
    u: Seq<char>,
    b: Seq<char>,
    from: int,
    found: Seq<Seq<char>>,
)
    requires
        stands_apart(body, a, u, b),
        url_like(u),
        0 <= from <= a.len(),
        web::parsed_url(text::replace(u, "&amp;"@, "&"@)) is Ok,
    ensures
        urls_from(body, from, found).contains(text::replace(u, "&amp;"@, "&"@)),
    decreases body.len() - from,
{
    let low = text::lower(body);
    let n = a.len() as int;
    reveal_strlit("http://");
    reveal_strlit("https://");
    lemma_next_url(body, from);
    text::lemma_find(low, "http://"@, from);
    text::lemma_find(low, "https://"@, from);
    if text::starts_with(text::lower(u), "http://"@) {
        assert(low.subrange(n, n + 7) =~= text::lower(u).subrange(0, 7));
        assert(text::matches_at(low, "http://"@, n));
    } else {
        assert(low.subrange(n, n + 8) =~= text::lower(u).subrange(0, 8));
        assert(text::matches_at(low, "https://"@, n));
    }
    let start = next_url(low, from)->0;
    assert(start <= n);
    let end = text::first_where(body, url_end(), start);
    let candidate = written_url(body, start, end);
    let more = if web::parsed_url(candidate) is Ok && !found.contains(candidate) {
        found.push(candidate)
    } else {
        found
    };
    text::lemma_first_where(body, url_end(), start);
    if start < n {
        assert(body[n - 1] == a[n - 1]);
        if end > n - 1 {
            assert(!url_end()(body[n - 1]));
        }
        lemma_url_found(body, a, u, b, end, more);
    } else {
        let stop = n + u.len();
        assert forall|k: int| n <= k < stop implies !url_end()(#[trigger] body[k]) by {
            assert(body[k] == u[k - n]);
        }
        if stop < body.len() {
            assert(body[stop] == b[0]);
        }
        text::lemma_first_where_is(body, url_end(), n, stop);
        assert(body.subrange(n, stop) =~= u);
        assert(more.contains(candidate)) by {
            if !found.contains(candidate) {
                assert(more[found.len() as int] == candidate);
            }
        }
        if end < body.len() {
            lemma_urls_grow(body, end, more);
            let k = more.index_of(candidate);
            assert(urls_from(body, end, more)[k] == more[k]);
        }
    }
}

/// Every absolute URL that is set off in a page is a candidate, plain or
/// secure, with its HTML ampersands undone.
pub proof fn urls_in_pages_are_found(
    location: Seq<char>,
    a: Seq<char>,
    u: Seq<char>,
    b: Seq<char>,
)
    requires
        stands_apart(a + u + b, a, u, b),
        url_like(u),
        web::parsed_url(text::replace(u, "&amp;"@, "&"@)) is Ok,
    ensures
        candidates(location, a + u + b).contains(text::replace(u, "&amp;"@, "&"@)),
{
    let first = if web::parsed_url(location) is Ok {
        seq![location]
    } else {
        Seq::empty()
    };
    lemma_url_found(a + u + b, a, u, b, 0, first);
}

proof fn lemma_some_usable(
    urls: Seq<Seq<char>>,
    expected: Option<Seq<char>>,
    from: int,
    k: int,
)
    requires
        0 <= from <= k < urls.len(),
        usable(urls[k], expected),
    ensures
        first_usable(urls, expected, from) is Some,
    decreases k - from,
{
    if from < k && !usable(urls[from], expected) {
        lemma_some_usable(urls, expected, from + 1, k);
    }
}

/// A location on the portal's host that names the client's address is the
/// portal: its parameters are those of the location's query, and what is kept
/// of the location is its scheme, host and path.
pub proof fn portal_location_is_recognised(
    config: AppConfig,
    status: u16,
    location: Seq<char>,
    body: Seq<char>,
    elapsed_ms: u128,
    expected: Seq<char>,
    url: web::UrlModel,
    host: Seq<char>,
    ip: Seq<char>,
)
    requires
        portal_host(config) == Some(expected),
        web::parsed_url(location) == Ok::<_, Seq<char>>(url),
        url.host == Some(host),
        host.len() > 0,
        text::lower(host) == text::lower(expected),
        last_named(web::query_of(url), "wlanuserip"@, ip),
        ip.len() > 0,
    ensures
        portal_in(config, ProbeModel::Redirect { status, location, body, elapsed_ms }) == Some(
            CaptiveModel {
                params: params_of(web::query_of(url)),
                status,
                location: url.scheme + "://"@ + host + url.path,
            },
        ),
{
    location_comes_first(location, body);
    lemma_said(web::query_of(url), "wlanuserip"@);
    assert(usable(location, Some(expected)));
}

/// A page that holds a URL of the portal with the client's address, set off
/// from the rest, is recognised, wherever the URL stands and whatever else the
/// page and the location hold.
pub proof fn portal_url_in_a_page_is_recognised(
    config: AppConfig,
    status: u16,
    location: Seq<char>,
    a: Seq<char>,
    u: Seq<char>,
    b: Seq<char>,
    elapsed_ms: u128,
    expected: Seq<char>,
    url: web::UrlModel,
    ip: Seq<char>,
)
    requires
        portal_host(config) == Some(expected),
        stands_apart(a + u + b, a, u, b),
        url_like(u),
        web::parsed_url(text::replace(u, "&amp;"@, "&"@)) == Ok::<_, Seq<char>>(url),
        url.host matches Some(host) && text::lower(host) == text::lower(expected),
        last_named(web::query_of(url), "wlanuserip"@, ip),
        ip.len() > 0,
    ensures
        portal_in(
            config,
            ProbeModel::Redirect { status, location, body: a + u + b, elapsed_ms },
        ) is Some,
{
    let body = a + u + b;
    let candidate = text::replace(u, "&amp;"@, "&"@);
    urls_in_pages_are_found(location, a, u, b);
    lemma_said(web::query_of(url), "wlanuserip"@);
    let urls = candidates(location, body);
    let k = urls.index_of(candidate);
    assert(usable(urls[k], Some(expected)));
    lemma_some_usable(urls, Some(expected), 0, k);
}

proof fn lemma_no_urls(body: Seq<char>, found: Seq<Seq<char>>)
    requires
        !text::contains(text::lower(body), "http://"@),
        !text::contains(text::lower(body), "https://"@),
    ensures
        urls_from(body, 0, found) == found,
        !text::contains(body, "http://"@),
        !text::contains(body, "https://"@),
{
    reveal_strlit("http://");
    reveal_strlit("https://");
    text::lemma_contains_is_find(text::lower(body), "http://"@);
    text::lemma_contains_is_find(text::lower(body), "https://"@);
    if text::contains(body, "http://"@) {
        let k = choose|k: int| text::matches_at(body, "http://"@, k);
        assert forall|j: int| 0 <= j < 7 implies text::lower(body).subrange(k, k + 7)[j]
            == "http://"@[j] by {
            assert(body.subrange(k, k + 7)[j] == "http://"@[j]);
        }
        assert(text::lower(body).subrange(k, k + 7) =~= "http://"@);
        assert(text::matches_at(text::lower(body), "http://"@, k));
    }
    if text::contains(body, "https://"@) {
        let k = choose|k: int| text::matches_at(body, "https://"@, k);
        assert forall|j: int| 0 <= j < 8 implies text::lower(body).subrange(k, k + 8)[j]
            == "https://"@[j] by {
            assert(body.subrange(k, k + 8)[j] == "https://"@[j]);
        }
        assert(text::lower(body).subrange(k, k + 8) =~= "https://"@);
        assert(text::matches_at(text::lower(body), "https://"@, k));
    }
}

/// A page without any URL that assigns the client's address is the portal,
/// where no location says otherwise: the parameters are those of the page, and
/// the location is the portal's host.
pub proof fn portal_page_is_recognised(
    config: AppConfig,
    status: u16,
    location: Seq<char>,
    body: Seq<char>,
    elapsed_ms: u128,
    expected: Seq<char>,
    ip: Seq<char>,
)
    requires
        portal_host(config) == Some(expected),
        web::parsed_url(location) is Err,
        !text::contains(text::lower(body), "http://"@),
        !text::contains(text::lower(body), "https://"@),
        last_named(source_pairs(body), "wlanuserip"@, ip),
        ip.len() > 0,
    ensures
        portal_in(config, ProbeModel::Redirect { status, location, body, elapsed_ms }) == Some(
            CaptiveModel {
                params: params_of(source_pairs(body)),
                status,
                location: "http://"@ + expected,
            },
        ),
{
    lemma_no_urls(body, Seq::empty());
    lemma_said(source_pairs(body), "wlanuserip"@);
}

/// Where nothing names the client's address there is no portal.
pub proof fn no_address_no_portal(
    config: AppConfig,
    status: u16,
    location: Seq<char>,
    body: Seq<char>,
    elapsed_ms: u128,
)
    requires
        forall|url: Seq<char>|
            #[trigger] candidates(location, body).contains(url) ==> unnamed(
                source_pairs(url),
                "wlanuserip"@,
            ),
        unnamed(source_pairs(body), "wlanuserip"@),
    ensures
        portal_in(config, ProbeModel::Redirect { status, location, body, elapsed_ms }) is None,
{
    let urls = candidates(location, body);
    lemma_first_usable(urls, portal_host(config), 0);
    lemma_said(source_pairs(body), "wlanuserip"@);
    if let Some(url) = first_usable(urls, portal_host(config), 0) {
        lemma_said(source_pairs(url), "wlanuserip"@);
    }
}

/// What is kept of a location for the log: its scheme, host and path, whatever
/// its query and fragment; nothing of what is no URL.
pub proof fn diagnostics_hold_no_query(value: Seq<char>, url: web::UrlModel, host: Seq<char>)
    ensures
        web::parsed_url(value) is Err ==> diagnostic_location(value).len() == 0,
        web::parsed_url(value) == Ok::<_, Seq<char>>(url) && url.host == Some(host) && host.len() > 0
            ==> diagnostic_location(value) == url.scheme + "://"@ + host + url.path,
        web::parsed_url(value) == Ok::<_, Seq<char>>(url) && url.host is None
            ==> diagnostic_location(value) == url.path,
{
}

/// Letters, digits, hyphens, underscores and full stops, at least one and at
/// most 128 of them.
pub open spec fn plain_id(s: Seq<char>) -> bool {
    &&& 1 <= s.len() <= 128
    &&& forall|k: int|
        0 <= k < s.len() ==> {
            let c = #[trigger] s[k];
            ('0' <= c && c <= '9') || ('A' <= c && c <= 'Z') || ('a' <= c && c <= 'z') || c == '-'
                || c == '_' || c == '.'
        }
}

/// Identifiers are exactly those.
pub proof fn identifiers_are_plain(s: Seq<char>)
    ensures
        id_like(s) <==> plain_id(s),
{
    if id_like(s) {
        assert forall|k: int| 0 <= k < s.len() implies {
            let c = #[trigger] s[k];
            ('0' <= c && c <= '9') || ('A' <= c && c <= 'Z') || ('a' <= c && c <= 'z') || c == '-'
                || c == '_' || c == '.'
        } by {
            assert(id_char(s[k]));
        }
    }
    if plain_id(s) {
        assert forall|k: int| 0 <= k < s.len() implies id_char(#[trigger] s[k]) by {}
    }
}

/// A list of pairs that names an apartment and a room, each without a
/// contradiction, binds them: the apartment first, then the room. Values that
/// are no identifiers do not count.
pub proof fn named_room_is_bound(
    pairs: Seq<web::Pair>,
    i: int,
    j: int,
    apartment: Seq<char>,
    room: Seq<char>,
)
    requires
        0 <= i < pairs.len(),
        0 <= j < pairs.len(),
        pairs[i] == ("apartmentId"@, apartment),
        pairs[j] == ("roomId"@, room),
        plain_id(apartment),
        plain_id(room),
        forall|k: int|
            0 <= k < pairs.len() && (#[trigger] pairs[k]).0 == "apartmentId"@ && plain_id(
                pairs[k].1,
            ) ==> pairs[k].1 == apartment,
        forall|k: int|
            0 <= k < pairs.len() && (#[trigger] pairs[k]).0 == "roomId"@ && plain_id(pairs[k].1)
                ==> pairs[k].1 == room,
    ensures
        room_binding(pairs) == Some((apartment, room)),
{
    identifiers_are_plain(apartment);
    identifiers_are_plain(room);
    assert forall|k: int| 0 <= k < pairs.len() && names_id(#[trigger] pairs[k], "apartmentId"@)
        implies pairs[k].1 == apartment by {
        identifiers_are_plain(pairs[k].1);
    }
    assert forall|k: int| 0 <= k < pairs.len() && names_id(#[trigger] pairs[k], "roomId"@) implies
        pairs[k].1 == room by {
        identifiers_are_plain(pairs[k].1);
    }
    assert(names_id(pairs[i], "apartmentId"@));
    assert(names_id(pairs[j], "roomId"@));
    assert(sole_id(pairs, "apartmentId"@, apartment) && sole_id(pairs, "roomId"@, room));
    let (x, y) = room_binding(pairs)->0;
    lemma_sole_is_one(pairs, "apartmentId"@, apartment, x);
    lemma_sole_is_one(pairs, "roomId"@, room, y);
}

/// A room that is not named, or named in two ways, is not bound.
pub proof fn unclear_room_is_not_bound(pairs: Seq<web::Pair>, name: Seq<char>, i: int, j: int)
    requires
        name == "apartmentId"@ || name == "roomId"@,
        (forall|k: int|
            0 <= k < pairs.len() ==> (#[trigger] pairs[k]).0 != name || !plain_id(pairs[k].1)) || (0
            <= i < pairs.len() && 0 <= j < pairs.len() && pairs[i].0 == name && pairs[j].0 == name
            && plain_id(pairs[i].1) && plain_id(pairs[j].1) && pairs[i].1 != pairs[j].1),
    ensures
        room_binding(pairs) is None,
{
    if room_binding(pairs) is Some {
        let (x, y) = room_binding(pairs)->0;
        let id = if name == "apartmentId"@ {
            x
        } else {
            y
        };
        assert(sole_id(pairs, "apartmentId"@, x) && sole_id(pairs, "roomId"@, y));
        if "apartmentId"@ == "roomId"@ {
            reveal_strlit("apartmentId");
            reveal_strlit("roomId");
            assert("apartmentId"@.len() != "roomId"@.len());
        }
        assert(sole_id(pairs, name, id));
        let k = choose|k: int| 0 <= k < pairs.len() && names_id(#[trigger] pairs[k], name);
        identifiers_are_plain(pairs[k].1);
        if 0 <= i < pairs.len() && 0 <= j < pairs.len() {
            identifiers_are_plain(pairs[i].1);
            identifiers_are_plain(pairs[j].1);
            if names_id(pairs[i], name) && names_id(pairs[j], name) {
                assert(pairs[i].1 == id && pairs[j].1 == id);
            }
        }
    }
}

/// A URL binds what its query names; with a host to look for, only a URL of
/// that host does, and a blank host lets every URL pass.
pub proof fn urls_bind_by_their_query(
    value: Seq<char>,
    expected_host: Seq<char>,
    url: web::UrlModel,
    host: Seq<char>,
)
    ensures
        web::parsed_url(value) is Err ==> url_binding(value) is None && url_binding_for(
            value,
            expected_host,
        ) is None,
        web::parsed_url(value) == Ok::<_, Seq<char>>(url) ==> {
            &&& url_binding(value) == room_binding(web::query_of(url))
            &&& text::is_blank(expected_host) ==> url_binding_for(value, expected_host)
                == room_binding(web::query_of(url))
            &&& !text::is_blank(expected_host) && url.host == Some(host) && text::lower(host)
                == text::lower(text::trim(expected_host)) ==> url_binding_for(
                value,
                expected_host,
            ) == room_binding(web::query_of(url))
        },
{
}

} // verus!
