//! The `url` crate: what the library reads of a URL, as plain values.

use crate::text;
use vstd::prelude::*;

verus! {

/// What the library reads of a parsed URL.
#[derive(Debug)]
pub struct UrlParts {
    pub scheme: String,
    pub host: Option<String>,
    pub path: String,
    /// The query as written, without the question mark.
    pub query: Option<String>,
    /// The URL as written, up to its query or fragment.
    pub stem: String,
    /// The fragment as written, with its number sign; empty where there is none.
    pub tail: String,
}

pub struct UrlModel {
    pub scheme: Seq<char>,
    pub host: Option<Seq<char>>,
    pub path: Seq<char>,
    pub query: Option<Seq<char>>,
    pub stem: Seq<char>,
    pub tail: Seq<char>,
}

impl View for UrlParts {
    type V = UrlModel;

    open spec fn view(&self) -> UrlModel {
        UrlModel {
            scheme: self.scheme@,
            host: text::opt_view(self.host),
            path: self.path@,
            query: text::opt_view(self.query),
            stem: self.stem@,
            tail: self.tail@,
        }
    }
}

/// Names and values as texts.
pub type Pair = (Seq<char>, Seq<char>);

pub open spec fn pair_views(pairs: Seq<(String, String)>) -> Seq<Pair> {
    pairs.map_values(|pair: (String, String)| (pair.0@, pair.1@))
}

pub open spec fn url_result(r: Result<UrlParts, String>) -> Result<UrlModel, Seq<char>> {
    match r {
        Ok(parts) => Ok(parts@),
        Err(message) => Err(message@),
    }
}

pub open spec fn text_result(r: Result<String, String>) -> Result<Seq<char>, Seq<char>> {
    match r {
        Ok(value) => Ok(value@),
        Err(message) => Err(message@),
    }
}

/// What `url::Url::parse` makes of a text: the parts, or the error's message.
pub uninterp spec fn parsed_url(value: Seq<char>) -> Result<UrlModel, Seq<char>>;

/// The pairs that `url::form_urlencoded::parse` reads from a text.
pub uninterp spec fn form_pairs(value: Seq<char>) -> Seq<Pair>;

/// A URL's query as written; empty where it has none.
pub open spec fn query_text(url: UrlModel) -> Seq<char> {
    match url.query {
        Some(query) => query,
        None => Seq::empty(),
    }
}

/// The pairs of a URL's query; none where it has no query.
pub open spec fn query_of(url: UrlModel) -> Seq<Pair> {
    form_pairs(query_text(url))
}

/// A host name of small letters and full stops, with a letter at its end and no
/// longer than a host name can be.
pub open spec fn plain_host(host: Seq<char>) -> bool {
    &&& 0 < host.len() <= 253
    &&& forall|k: int|
        0 <= k < host.len() ==> ('a' <= #[trigger] host[k] && host[k] <= 'z') || host[k] == '.'
    &&& host[host.len() - 1] != '.'
}

/// The URL of a host, with nothing behind its name.
pub open spec fn home(host: Seq<char>) -> Result<UrlModel, Seq<char>> {
    Ok(
        UrlModel {
            scheme: "http"@,
            host: Some(host),
            path: "/"@,
            query: None,
            stem: "http://"@ + host + "/"@,
            tail: Seq::empty(),
        },
    )
}

/// `url::Url::parse`, read off by `scheme`, `host_str`, `path`, `query` and the
/// positions after path and query: the result depends on the text alone. A
/// plain host behind `http://` is taken as it stands, and its path becomes `/`.
/// Which other texts are URLs, and how they are normalised, is the crate's
/// matter and is not said here.
#[verifier::external_body]
pub(crate) fn parse_url(value: &str) -> (r: Result<UrlParts, String>)
    ensures
        url_result(r) == parsed_url(value@),
        text::after_prefix(value@, "http://"@) matches Some(host) ==> plain_host(host)
            ==> url_result(r) == home(host),
{
    match url::Url::parse(value) {
        Ok(parsed) => Ok(UrlParts {
            scheme: parsed.scheme().to_string(),
            host: parsed.host_str().map(|host| host.to_string()),
            path: parsed.path().to_string(),
            query: parsed.query().map(|query| query.to_string()),
            stem: parsed[..url::Position::AfterPath].to_string(),
            tail: parsed[url::Position::AfterQuery..].to_string(),
        }),
        Err(error) => Err(error.to_string()),
    }
}

/// A URL as written.
pub open spec fn url_text(url: UrlModel) -> Seq<char> {
    match url.query {
        Some(query) => url.stem + "?"@ + query + url.tail,
        None => url.stem + url.tail,
    }
}

pub fn text_of_url(parts: &UrlParts) -> (r: String)
    ensures
        r@ == url_text(parts@),
{
    let mut r = parts.stem.clone();
    if let Some(query) = &parts.query {
        r.append("?");
        r.append(query);
    }
    r.append(&parts.tail);
    r
}

/// `url::form_urlencoded::parse`: the names and values of a query, decoded, in
/// order. The result depends on the text alone; how it is decoded is the
/// crate's matter.
#[verifier::external_body]
pub(crate) fn parse_form(value: &str) -> (pairs: Vec<(String, String)>)
    ensures
        pair_views(pairs@) == form_pairs(value@),
{
    url::form_urlencoded::parse(value.as_bytes()).into_owned().collect()
}

/// The pairs of a parsed URL's query.
pub fn query_pairs_of(parts: &UrlParts) -> (pairs: Vec<(String, String)>)
    ensures
        pair_views(pairs@) == query_of(parts@),
{
    match &parts.query {
        Some(query) => parse_form(query),
        None => {
            let nothing = String::new();
            parse_form(&nothing)
        },
    }
}

/// A query with the pairs appended: each form-encoded, and an ampersand before
/// it where something stands there already.
pub open spec fn appended(query: Seq<char>, pairs: Seq<Pair>) -> Seq<char>
    decreases pairs.len(),
{
    if pairs.len() == 0 {
        query
    } else {
        let before = appended(query, pairs.drop_last());
        let (name, value) = pairs.last();
        (if before.len() > 0 {
            before + "&"@
        } else {
            before
        }) + encoded(name) + "="@ + encoded(value)
    }
}

/// A URL with the pairs appended to its query, as written.
pub open spec fn with_pairs(url: UrlModel, pairs: Seq<Pair>) -> Seq<char> {
    url.stem + "?"@ + appended(query_text(url), pairs) + url.tail
}

/// The length of a text in UTF-8.
pub open spec fn byte_len(s: Seq<char>) -> int {
    vstd::utf8::encode_utf8(s).len() as int
}

/// The length of a query of `size` bytes with the pairs appended.
pub open spec fn appended_size(size: int, pairs: Seq<Pair>) -> int
    decreases pairs.len(),
{
    if pairs.len() == 0 {
        size
    } else {
        let before = appended_size(size, pairs.drop_last());
        let (name, value) = pairs.last();
        (if before > 0 {
            before + 1
        } else {
            before
        }) + encoded(name).len() + 1 + encoded(value).len()
    }
}

/// The `url` crate can append the pairs: it keeps the positions of query and
/// fragment in 32 bits.
pub open spec fn holdable(url: UrlModel, pairs: Seq<Pair>) -> bool {
    let stem = byte_len(url.stem);
    let query = appended_size(byte_len(query_text(url)), pairs);
    &&& url.query is None ==> stem <= u32::MAX
    &&& url.tail.len() > 0 ==> stem + 1 + query <= u32::MAX
}

/// `url` is `base` with the pairs appended: read again as a web address, its
/// query holds the pairs of the base, and then these.
pub open spec fn carries(base: Seq<char>, pairs: Seq<Pair>, url: Seq<char>) -> bool {
    parsed_url(base) matches Ok(b) && (parsed_url(url) matches Ok(u) ==> (u.scheme == "http"@
        || u.scheme == "https"@) ==> query_of(u) == query_of(b) + pairs)
}

/// Read again as a web address, the URL has these pairs at the end of its query.
pub open spec fn ends_in(url: Seq<char>, pairs: Seq<Pair>) -> bool {
    parsed_url(url) matches Ok(u) ==> (u.scheme == "http"@ || u.scheme == "https"@) ==> {
        &&& query_of(u).len() >= pairs.len()
        &&& query_of(u).skip(query_of(u).len() - pairs.len()) == pairs
    }
}

/// What was appended to a URL stands at the end of its query, decoded.
pub proof fn appended_pairs_are_read_last(base: Seq<char>, pairs: Seq<Pair>, url: Seq<char>)
    requires
        carries(base, pairs, url),
    ensures
        ends_in(url, pairs),
{
    if let (Ok(b), Ok(u)) = (parsed_url(base), parsed_url(url)) {
        if u.scheme == "http"@ || u.scheme == "https"@ {
            assert(query_of(u).skip(query_of(u).len() - pairs.len()) =~= pairs);
        }
    }
}

/// What was appended in two steps stands at the end in this order.
pub proof fn pairs_appended_twice_are_read_in_order(
    base: Seq<char>,
    first: Seq<Pair>,
    inner: Seq<char>,
    second: Seq<Pair>,
    url: Seq<char>,
)
    requires
        carries(base, first, inner),
        carries(inner, second, url),
        parsed_url(inner) matches Ok(b) && (b.scheme == "http"@ || b.scheme == "https"@),
    ensures
        ends_in(url, first + second),
{
    if let (Ok(b), Ok(m), Ok(u)) = (parsed_url(base), parsed_url(inner), parsed_url(url)) {
        if u.scheme == "http"@ || u.scheme == "https"@ {
            let both = first + second;
            assert(query_of(u).skip(query_of(u).len() - both.len()) =~= both);
        }
    }
}

/// `url::Url::parse_with_params`: the base parsed, the pairs appended to its
/// query before the fragment, the whole written out; an error exactly where the
/// base is no URL, with the same message. What is written, read again as a web
/// address, has the pairs behind those of the base. Left out is what the crate
/// cannot hold: there it panics.
#[verifier::external_body]
pub(crate) fn append_params(base: &str, pairs: &Vec<(String, String)>) -> (r: Result<String, String>)
    requires
        parsed_url(base@) matches Ok(url) ==> holdable(url, pair_views(pairs@)),
    ensures
        match parsed_url(base@) {
            Ok(url) => r matches Ok(text) && text@ == with_pairs(url, pair_views(pairs@)),
            Err(message) => r matches Err(text) && text@ == message,
        },
        r matches Ok(text) ==> carries(base@, pair_views(pairs@), text@),
{
    match url::Url::parse_with_params(base, pairs) {
        Ok(parsed) => Ok(parsed.into()),
        Err(error) => Err(error.to_string()),
    }
}

/// Whether the pairs can be appended to a parsed URL.
pub fn can_append(parts: &UrlParts, pairs: &Vec<(String, String)>) -> (r: bool)
    ensures
        r == holdable(parts@, pair_views(pairs@)),
{
    let ghost all = pair_views(pairs@);
    let limit: u128 = u32::MAX as u128;
    let stem: u128 = parts.stem.as_str().as_bytes_vec().len() as u128;
    let start: u128 = match &parts.query {
        Some(query) => query.as_str().as_bytes_vec().len() as u128,
        None => {
            if stem > limit {
                return false;
            }
            0
        },
    };
    assert(start == byte_len(query_text(parts@)));
    if parts.tail.as_str().is_empty() {
        return true;
    }
    let mut size: u128 = start;
    let mut i: usize = 0;
    assert(all.take(0) =~= Seq::<Pair>::empty());
    while i < pairs.len()
        invariant
            0 <= i <= pairs@.len(),
            all == pair_views(pairs@),
            limit == u32::MAX,
            start <= usize::MAX,
            size <= 4 * usize::MAX,
            size == appended_size(start as int, all.take(i as int)) || (size > limit
                && appended_size(start as int, all.take(i as int)) > limit),
        decreases pairs@.len() - i,
    {
        let name: u128 = encode_component(&pairs[i].0).as_str().unicode_len() as u128;
        let value: u128 = encode_component(&pairs[i].1).as_str().unicode_len() as u128;
        proof {
            let next = all.take(i + 1);
            assert(next.drop_last() =~= all.take(i as int));
            assert(next.last() == (pairs@[i as int].0@, pairs@[i as int].1@));
        }
        if size <= limit {
            size = size + name + value + if size > 0 {
                2u128
            } else {
                1u128
            };
        }
        i += 1;
    }
    assert(all.take(i as int) =~= all);
    stem + 1 + size <= limit
}

// ---------------------------------------------------------------------------
// Form encoding
// ---------------------------------------------------------------------------

/// The bytes that stand for themselves in a form-encoded text.
pub open spec fn form_plain(b: u8) -> bool {
    ||| b == 0x2a
    ||| b == 0x2d
    ||| b == 0x2e
    ||| 0x30 <= b <= 0x39
    ||| 0x41 <= b <= 0x5a
    ||| b == 0x5f
    ||| 0x61 <= b <= 0x7a
}

/// The hexadecimal digit of `n`, in capitals.
pub open spec fn hex_digit(n: int) -> char {
    if n < 10 {
        (0x30 + n) as char
    } else {
        (0x37 + n) as char
    }
}

pub open spec fn form_byte(b: u8) -> Seq<char> {
    if form_plain(b) {
        seq![b as char]
    } else if b == 0x20 {
        seq!['+']
    } else {
        seq!['%', hex_digit((b / 16) as int), hex_digit((b % 16) as int)]
    }
}

/// Bytes in the `application/x-www-form-urlencoded` syntax.
pub open spec fn form_encoded(bytes: Seq<u8>) -> Seq<char>
    decreases bytes.len(),
{
    if bytes.len() == 0 {
        Seq::empty()
    } else {
        form_encoded(bytes.drop_last()) + form_byte(bytes.last())
    }
}

/// A text, taken as UTF-8, in form encoding.
pub open spec fn encoded(s: Seq<char>) -> Seq<char> {
    form_encoded(vstd::utf8::encode_utf8(s))
}

/// `url::form_urlencoded::byte_serialize` on the UTF-8 bytes of `value`:
/// letters, digits and `*-._` stay, a space becomes `+`, every other byte
/// becomes `%` and two hexadecimal digits.
#[verifier::external_body]
pub(crate) fn encode_component(value: &str) -> (r: String)
    ensures
        r@ == encoded(value@),
{
    url::form_urlencoded::byte_serialize(value.as_bytes()).collect()
}

/// The characters that occur in a form-encoded text.
pub open spec fn form_char(c: char) -> bool {
    text::is_ascii_alnum(c) || c == '*' || c == '-' || c == '.' || c == '_' || c == '+' || c == '%'
}

proof fn lemma_form_encoded(bytes: Seq<u8>)
    ensures
        forall|k: int|
            0 <= k < form_encoded(bytes).len() ==> form_char(#[trigger] form_encoded(bytes)[k]),
    decreases bytes.len(),
{
    if bytes.len() > 0 {
        lemma_form_encoded(bytes.drop_last());
        let before = form_encoded(bytes.drop_last());
        let last = form_byte(bytes.last());
        assert forall|k: int| 0 <= k < (before + last).len() implies form_char(
            #[trigger] (before + last)[k],
        ) by {
            if k < before.len() {
                assert((before + last)[k] == before[k]);
            } else {
                assert((before + last)[k] == last[k - before.len()]);
            }
        }
    }
}

/// A form-encoded text holds letters, digits and `*-._+%` only.
pub proof fn encoding_is_plain(s: Seq<char>)
    ensures
        forall|k: int| 0 <= k < encoded(s).len() ==> form_char(#[trigger] encoded(s)[k]),
{
    lemma_form_encoded(vstd::utf8::encode_utf8(s));
}

// ---------------------------------------------------------------------------
// Reading back what was written
// ---------------------------------------------------------------------------

/// The value of a hexadecimal digit, in capitals.
pub open spec fn hex_value(c: char) -> int {
    if '0' <= c && c <= '9' {
        c as int - 0x30
    } else {
        c as int - 0x37
    }
}

/// The bytes that a form-encoded text stands for.
pub open spec fn form_decoded(t: Seq<char>) -> Seq<u8>
    decreases t.len(),
{
    if t.len() == 0 {
        Seq::empty()
    } else if t[0] == '%' && t.len() >= 3 {
        seq![(16 * hex_value(t[1]) + hex_value(t[2])) as u8] + form_decoded(t.skip(3))
    } else if t[0] == '+' {
        seq![0x20u8] + form_decoded(t.skip(1))
    } else {
        seq![t[0] as u8] + form_decoded(t.skip(1))
    }
}

proof fn lemma_form_first(bytes: Seq<u8>)
    requires
        bytes.len() > 0,
    ensures
        form_encoded(bytes) == form_byte(bytes[0]) + form_encoded(bytes.drop_first()),
    decreases bytes.len(),
{
    reveal_with_fuel(form_encoded, 2);
    if bytes.len() == 1 {
        assert(bytes.drop_last() =~= Seq::<u8>::empty());
        assert(bytes.drop_first() =~= Seq::<u8>::empty());
        assert(form_encoded(bytes) =~= form_byte(bytes[0]));
    } else {
        let before = bytes.drop_last();
        lemma_form_first(before);
        assert(bytes.drop_first().drop_last() =~= before.drop_first());
        assert(bytes.drop_first().last() == bytes.last());
        assert(form_encoded(bytes) =~= form_byte(bytes[0]) + (form_encoded(before.drop_first())
            + form_byte(bytes.last())));
    }
}

proof fn lemma_form_decoded(bytes: Seq<u8>)
    ensures
        form_decoded(form_encoded(bytes)) == bytes,
    decreases bytes.len(),
{
    if bytes.len() > 0 {
        let b = bytes[0];
        let rest = bytes.drop_first();
        let t = form_encoded(bytes);
        let u = form_encoded(rest);
        lemma_form_first(bytes);
        lemma_form_decoded(rest);
        assert(seq![b] + rest =~= bytes);
        if form_plain(b) || b == 0x20 {
            assert(t.skip(1) =~= u);
        } else {
            assert(t.skip(3) =~= u);
            assert(t[1] == hex_digit((b / 16) as int) && t[2] == hex_digit((b % 16) as int));
            assert(hex_value(hex_digit((b / 16) as int)) == b / 16);
            assert(hex_value(hex_digit((b % 16) as int)) == b % 16);
        }
    }
}

/// Form encoding loses nothing: the bytes of the text can be read back.
pub proof fn encoding_can_be_undone(s: Seq<char>)
    ensures
        form_decoded(encoded(s)) == vstd::utf8::encode_utf8(s),
{
    lemma_form_decoded(vstd::utf8::encode_utf8(s));
}

/// Two texts with the same form encoding are the same.
pub proof fn encoding_tells_texts_apart(a: Seq<char>, b: Seq<char>)
    requires
        encoded(a) == encoded(b),
    ensures
        a == b,
{
    encoding_can_be_undone(a);
    encoding_can_be_undone(b);
    vstd::utf8::encode_utf8_decode_utf8(a);
    vstd::utf8::encode_utf8_decode_utf8(b);
}

proof fn lemma_plain_bytes(bytes: Seq<u8>)
    requires
        forall|k: int| 0 <= k < bytes.len() ==> form_plain(#[trigger] bytes[k]),
    ensures
        form_encoded(bytes).len() == bytes.len(),
        forall|k: int|
            0 <= k < bytes.len() ==> #[trigger] form_encoded(bytes)[k] == bytes[k] as char,
    decreases bytes.len(),
{
    if bytes.len() > 0 {
        lemma_plain_bytes(bytes.drop_last());
    }
}

/// A letter, a digit or one of `*-._`.
pub open spec fn stays(c: char) -> bool {
    ('a' <= c && c <= 'z') || ('A' <= c && c <= 'Z') || ('0' <= c && c <= '9') || c == '*' || c
        == '-' || c == '.' || c == '_'
}

/// Letters, digits and `*-._` stand for themselves.
pub proof fn plain_texts_stay(s: Seq<char>)
    requires
        forall|k: int| 0 <= k < s.len() ==> stays(#[trigger] s[k]),
    ensures
        encoded(s) == s,
{
    assert(vstd::utf8::is_ascii_chars(s));
    vstd::utf8::is_ascii_chars_encode_utf8(s);
    let bytes = vstd::utf8::encode_utf8(s);
    assert forall|k: int| 0 <= k < bytes.len() implies form_plain(#[trigger] bytes[k]) by {
        assert(stays(s[k]) && s[k] as u8 == bytes[k]);
    }
    lemma_plain_bytes(bytes);
    assert forall|k: int| 0 <= k < s.len() implies encoded(s)[k] == s[k] by {
        assert(stays(s[k]) && s[k] as u8 == bytes[k]);
        assert(form_encoded(bytes)[k] == bytes[k] as char);
    }
    assert(encoded(s) =~= s);
}

/// What stands for a value holds nothing that could end it.
proof fn lemma_no_ampersand(s: Seq<char>)
    ensures
        forall|k: int| 0 <= k < encoded(s).len() ==> #[trigger] encoded(s)[k] != '&',
{
    encoding_is_plain(s);
    assert forall|k: int| 0 <= k < encoded(s).len() implies #[trigger] encoded(s)[k] != '&' by {
        assert(form_char(encoded(s)[k]));
    }
}

/// In a query, between `before` and `after`: a parameter of that name, with a
/// text that stands for that value.
pub open spec fn spelled_at(
    query: Seq<char>,
    before: Seq<char>,
    name: Seq<char>,
    written: Seq<char>,
    after: Seq<char>,
    value: Seq<char>,
) -> bool {
    &&& query == before + name + "="@ + written + after
    &&& before.len() > 0 ==> before[before.len() - 1] == '&'
    &&& after.len() > 0 ==> after[0] == '&'
    &&& forall|k: int| 0 <= k < written.len() ==> #[trigger] written[k] != '&'
    &&& form_decoded(written) == vstd::utf8::encode_utf8(value)
}

/// The query holds a parameter of that name and, decoded, of that value.
pub open spec fn spelled(query: Seq<char>, name: Seq<char>, value: Seq<char>) -> bool {
    exists|before: Seq<char>, written: Seq<char>, after: Seq<char>| #[trigger]
        spelled_at(query, before, name, written, after, value)
}

/// A pair that is appended to a query can be read back from it, wherever it
/// stands among the others.
pub proof fn appended_pairs_are_spelled(query: Seq<char>, pairs: Seq<Pair>, i: int)
    requires
        0 <= i < pairs.len(),
        forall|k: int| 0 <= k < pairs[i].0.len() ==> stays(#[trigger] pairs[i].0[k]),
    ensures
        spelled(appended(query, pairs), pairs[i].0, pairs[i].1),
    decreases pairs.len(),
{
    reveal_strlit("&");
    reveal_strlit("=");
    let (name, value) = pairs[i];
    let front = appended(query, pairs.drop_last());
    let (n, v) = pairs.last();
    let all = appended(query, pairs);
    if i == pairs.len() - 1 {
        plain_texts_stay(name);
        encoding_can_be_undone(value);
        lemma_no_ampersand(value);
        let before = if front.len() > 0 {
            front + "&"@
        } else {
            Seq::empty()
        };
        assert(all =~= before + name + "="@ + encoded(value) + Seq::empty());
        assert(spelled_at(all, before, name, encoded(value), Seq::empty(), value));
    } else {
        assert(pairs.drop_last()[i] == pairs[i]);
        appended_pairs_are_spelled(query, pairs.drop_last(), i);
        let (before, written, after) = choose|
            before: Seq<char>,
            written: Seq<char>,
            after: Seq<char>,
        | #[trigger]
            spelled_at(front, before, name, written, after, value);
        assert(front.len() > 0);
        let more = after + "&"@ + encoded(n) + "="@ + encoded(v);
        assert(all =~= before + name + "="@ + written + more);
        assert(spelled_at(all, before, name, written, more, value));
    }
}

/// One more pair: an ampersand where something stands already, the name as it
/// is, an equals sign, the value encoded.
pub proof fn appended_pair_is_written(
    query: Seq<char>,
    pairs: Seq<Pair>,
    name: Seq<char>,
    value: Seq<char>,
)
    requires
        forall|k: int| 0 <= k < name.len() ==> stays(#[trigger] name[k]),
    ensures
        appended(query, pairs.push((name, value))) == (if appended(query, pairs).len() > 0 {
            appended(query, pairs) + "&"@
        } else {
            Seq::empty()
        }) + name + "="@ + encoded(value),
{
    plain_texts_stay(name);
    assert(pairs.push((name, value)).drop_last() =~= pairs);
    let front = appended(query, pairs);
    if front.len() == 0 {
        assert(front =~= Seq::<char>::empty());
    }
}

/// What stands before a last part, with an ampersand where it is something.
spec fn led(front: Seq<char>) -> Seq<char> {
    if front.len() > 0 {
        front.push('&')
    } else {
        front
    }
}

/// A last part without an ampersand tells what stands before it.
proof fn lemma_led(a: Seq<char>, x: Seq<char>, b: Seq<char>, y: Seq<char>)
    requires
        led(a) + x == led(b) + y,
        forall|k: int| 0 <= k < x.len() ==> #[trigger] x[k] != '&',
        forall|k: int| 0 <= k < y.len() ==> #[trigger] y[k] != '&',
    ensures
        a == b,
        x == y,
{
    let all = led(a) + x;
    let other = led(b) + y;
    let i = led(a).len() as int;
    let j = led(b).len() as int;
    assert(all == other);
    assert(all.len() == i + x.len());
    assert(other.len() == j + y.len());
    if i < j {
        assert(other[j - 1] == '&');
        assert(all[j - 1] == x[j - 1 - i]);
    }
    if j < i {
        assert(all[i - 1] == '&');
        assert(other[i - 1] == y[i - 1 - j]);
    }
    assert(led(a) =~= all.take(i));
    assert(led(b) =~= other.take(i));
    assert(x =~= all.skip(i));
    assert(y =~= other.skip(i));
    if i > 0 {
        assert(a =~= led(a).drop_last());
        assert(b =~= led(b).drop_last());
    } else {
        assert(a =~= b);
    }
}

/// The last pair of a query, and what stands before it.
proof fn lemma_appended_last(query: Seq<char>, pairs: Seq<Pair>)
    requires
        pairs.len() > 0,
    ensures
        appended(query, pairs) == led(appended(query, pairs.drop_last())) + (encoded(pairs.last().0)
            + "="@ + encoded(pairs.last().1)),
        forall|k: int|
            0 <= k < (encoded(pairs.last().0) + "="@ + encoded(pairs.last().1)).len()
                ==> #[trigger] (encoded(pairs.last().0) + "="@ + encoded(pairs.last().1))[k] != '&',
{
    reveal_strlit("&");
    reveal_strlit("=");
    let front = appended(query, pairs.drop_last());
    let n = encoded(pairs.last().0);
    let v = encoded(pairs.last().1);
    lemma_no_ampersand(pairs.last().0);
    lemma_no_ampersand(pairs.last().1);
    assert(front + "&"@ =~= front.push('&'));
    assert(led(front) + n + "="@ + v =~= led(front) + (n + "="@ + v));
    assert forall|k: int| 0 <= k < (n + "="@ + v).len() implies #[trigger] (n + "="@ + v)[k]
        != '&' by {
        if k < n.len() {
            assert((n + "="@ + v)[k] == n[k]);
        } else if k > n.len() {
            assert((n + "="@ + v)[k] == v[k - n.len() - 1]);
        }
    }
}

/// A query tells apart the values of what is appended to it: where the names
/// are the same, the same text means the same values.
pub proof fn appended_values_are_told_apart(query: Seq<char>, p: Seq<Pair>, q: Seq<Pair>)
    requires
        p.len() == q.len(),
        forall|k: int| 0 <= k < p.len() ==> (#[trigger] p[k]).0 == q[k].0,
        appended(query, p) == appended(query, q),
    ensures
        p == q,
    decreases p.len(),
{
    if p.len() == 0 {
        assert(p =~= q);
    } else {
        let a = appended(query, p.drop_last());
        let b = appended(query, q.drop_last());
        let (n, v) = p.last();
        let w = q.last().1;
        assert(p[p.len() - 1].0 == q[p.len() - 1].0);
        let name = encoded(n) + "="@;
        lemma_appended_last(query, p);
        lemma_appended_last(query, q);
        lemma_led(a, name + encoded(v), b, name + encoded(w));
        assert(encoded(v) =~= (name + encoded(v)).skip(name.len() as int));
        assert(encoded(w) =~= (name + encoded(w)).skip(name.len() as int));
        encoding_tells_texts_apart(v, w);
        assert forall|k: int| 0 <= k < p.drop_last().len() implies (#[trigger] p.drop_last()[k]).0
            == q.drop_last()[k].0 by {
            assert(p[k].0 == q[k].0);
        }
        appended_values_are_told_apart(query, p.drop_last(), q.drop_last());
        assert(p =~= p.drop_last().push(p.last()));
        assert(q =~= q.drop_last().push(q.last()));
    }
}

/// A URL's parts are seen as they are.
pub proof fn parts_are_seen_as_they_are(parts: UrlParts)
    ensures
        parts@.scheme == parts.scheme@,
        parts.host matches Some(host) ==> parts@.host == Some(host@),
        parts.host is None ==> parts@.host is None,
        parts@.path == parts.path@,
        parts.query matches Some(query) ==> parts@.query == Some(query@),
        parts.query is None ==> parts@.query is None,
        parts@.stem == parts.stem@,
        parts@.tail == parts.tail@,
{
}

/// A URL is written as its parts stand: the stem, a question mark and the query
/// where it has one, the fragment.
pub proof fn urls_are_written_out(url: UrlModel, query: Seq<char>)
    ensures
        url.query is None ==> url_text(url) == url.stem + url.tail,
        url.query == Some(query) ==> url_text(url) == url.stem + "?"@ + query + url.tail,
        url.query is None ==> query_of(url) == form_pairs(Seq::empty()),
        url.query == Some(query) ==> query_of(url) == form_pairs(query),
{
}

proof fn lemma_byte_len(a: Seq<char>, b: Seq<char>)
    ensures
        byte_len(a + b) == byte_len(a) + byte_len(b),
        a.len() > 0 ==> byte_len(a) > 0,
    decreases a.len(),
{
    if a.len() == 0 {
        assert(a + b =~= b);
    } else {
        lemma_byte_len(a.drop_first(), b);
        assert((a + b).drop_first() =~= a.drop_first() + b);
        assert((a + b)[0] == a[0]);
    }
}

proof fn lemma_encoded_len(s: Seq<char>)
    ensures
        byte_len(encoded(s)) == encoded(s).len(),
{
    encoding_is_plain(s);
    assert forall|k: int| 0 <= k < encoded(s).len() implies (encoded(s)[k] as u32) < 128 by {
        assert(form_char(encoded(s)[k]));
    }
    assert(vstd::utf8::is_ascii_chars(encoded(s)));
    vstd::utf8::is_ascii_chars_encode_utf8(encoded(s));
}

proof fn lemma_appended_size(query: Seq<char>, pairs: Seq<Pair>)
    ensures
        appended_size(byte_len(query), pairs) == byte_len(appended(query, pairs)),
    decreases pairs.len(),
{
    if pairs.len() > 0 {
        reveal_strlit("&");
        reveal_strlit("=");
        assert(vstd::utf8::is_ascii_chars("&"@));
        assert(vstd::utf8::is_ascii_chars("="@));
        vstd::utf8::is_ascii_chars_encode_utf8("&"@);
        vstd::utf8::is_ascii_chars_encode_utf8("="@);
        lemma_appended_size(query, pairs.drop_last());
        let front = appended(query, pairs.drop_last());
        let (name, value) = pairs.last();
        let start = if front.len() > 0 {
            front + "&"@
        } else {
            front
        };
        lemma_byte_len(front, "&"@);
        lemma_encoded_len(name);
        lemma_encoded_len(value);
        lemma_byte_len(start, encoded(name));
        lemma_byte_len(start + encoded(name), "="@);
        lemma_byte_len(start + encoded(name) + "="@, encoded(value));
    }
}

/// The pairs can be appended exactly where the positions of query and fragment
/// in the text that comes of it take no more than 32 bits.
pub proof fn positions_fit(url: UrlModel, pairs: Seq<Pair>)
    ensures
        holdable(url, pairs) <==> {
            &&& url.query is None ==> vstd::utf8::encode_utf8(url.stem).len() <= 4_294_967_295
            &&& url.tail.len() > 0 ==> vstd::utf8::encode_utf8(
                url.stem + "?"@ + appended(query_text(url), pairs),
            ).len() <= 4_294_967_295
        },
{
    reveal_strlit("?");
    assert(vstd::utf8::is_ascii_chars("?"@));
    vstd::utf8::is_ascii_chars_encode_utf8("?"@);
    lemma_appended_size(query_text(url), pairs);
    lemma_byte_len(url.stem, "?"@);
    lemma_byte_len(url.stem + "?"@, appended(query_text(url), pairs));
}

} // verus!
