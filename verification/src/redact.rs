//! Redaction of log details: what a caller passes may hold secrets, what is
//! written may not.

use crate::text;
use crate::text::{
    chars_of, find_chars, find_white, fit, is_ascii_alphanumeric, is_ascii_whitespace, lower_chars,
    string_of,
};
use vstd::prelude::*;

verus! {

/// The longest detail that is written, in bytes of UTF-8.
pub const MAX_DETAIL_BYTES: usize = 1000;

pub const SECRET_KEYS: usize = 12;

/// The names whose values must not be written, in the order in which they are
/// searched for.
pub open spec fn secret_keys() -> Seq<Seq<char>> {
    seq![
        "password"@,
        "passwd"@,
        "uid"@,
        "token"@,
        "code"@,
        "cookie"@,
        "phone"@,
        "satoken"@,
        "authorization"@,
        "set-cookie"@,
        "apartmentid"@,
        "roomid"@,
    ]
}

/// What stands in place of a separator and a value.
pub open spec fn mask() -> Seq<char> {
    "=<redacted>"@
}

pub open spec fn ascii_white() -> spec_fn(char) -> bool {
    |c: char| text::is_ascii_white(c)
}

/// The control characters: those below the space, and U+007F to U+009F.
pub open spec fn control(c: char) -> bool {
    let u = c as u32;
    u < 0x20 || 0x7f <= u <= 0x9f
}

/// Control characters become spaces.
pub open spec fn flat_char(c: char) -> char {
    if control(c) {
        ' '
    } else {
        c
    }
}

pub open spec fn flatten(s: Seq<char>) -> Seq<char> {
    s.map_values(|c: char| flat_char(c))
}

/// No letter or digit stands right before `start`.
pub open spec fn boundary(s: Seq<char>, start: int) -> bool {
    start == 0 || !text::is_ascii_alnum(s[start - 1])
}

/// Where the separator stands that follows a name ending at `after`.
pub open spec fn separator(s: Seq<char>, after: int) -> int {
    text::first_not(s, ascii_white(), after)
}

pub open spec fn is_separator(s: Seq<char>, at: int) -> bool {
    0 <= at < s.len() && (s[at] == '=' || s[at] == ':')
}

/// The end of the value that follows the separator at `at`.
pub open spec fn value_end(s: Seq<char>, at: int) -> int {
    text::first_where(s, text::white(), text::first_not(s, ascii_white(), at + 1))
}

/// `s` from `from` on, with each assignment to `key` replaced by the key and
/// the mask.
pub open spec fn scrub_from(s: Seq<char>, key: Seq<char>, from: int) -> Seq<char>
    decreases s.len() - from,
    when 0 <= from <= s.len() && key.len() > 0
    via scrub_from_decreases
{
    match text::find(text::lower(s), key, from) {
        None => s.skip(from),
        Some(start) => {
            let after = start + key.len();
            let at = separator(s, after);
            if !boundary(s, start) {
                s.subrange(from, after) + scrub_from(s, key, after)
            } else if is_separator(s, at) {
                s.subrange(from, start) + key + mask() + scrub_from(s, key, value_end(s, at))
            } else {
                s.subrange(from, at) + scrub_from(s, key, at)
            }
        },
    }
}

#[via_fn]
proof fn scrub_from_decreases(s: Seq<char>, key: Seq<char>, from: int) {
    text::lemma_find(text::lower(s), key, from);
    if let Some(start) = text::find(text::lower(s), key, from) {
        let after = start + key.len();
        text::lemma_first_where(s, text::non(ascii_white()), after);
        let at = separator(s, after);
        if is_separator(s, at) {
            text::lemma_first_where(s, text::non(ascii_white()), at + 1);
            text::lemma_first_where(s, text::white(), text::first_not(s, ascii_white(), at + 1));
        }
    }
}

pub open spec fn scrub(s: Seq<char>, key: Seq<char>) -> Seq<char> {
    scrub_from(s, key, 0)
}

/// `s` scrubbed for the first `n` secret keys, one after the other.
pub open spec fn scrub_keys(s: Seq<char>, n: int) -> Seq<char>
    decreases n,
{
    if n <= 0 {
        s
    } else {
        scrub(scrub_keys(s, n - 1), secret_keys()[n - 1])
    }
}

/// `s` itself where it fits into `limit` bytes, else the longest prefix that
/// fits, with an ellipsis.
pub open spec fn clip(s: Seq<char>, limit: int) -> Seq<char> {
    let n = text::within(s, limit, 0);
    if n == s.len() {
        s
    } else {
        s.take(n).push('…')
    }
}

pub open spec fn redacted(s: Seq<char>) -> Seq<char> {
    clip(scrub_keys(flatten(s), SECRET_KEYS as int), MAX_DETAIL_BYTES as int)
}

fn secret_key(i: usize) -> (key: &'static str)
    requires
        i < SECRET_KEYS,
    ensures
        key@ == secret_keys()[i as int],
{
    if i == 0 {
        "password"
    } else if i == 1 {
        "passwd"
    } else if i == 2 {
        "uid"
    } else if i == 3 {
        "token"
    } else if i == 4 {
        "code"
    } else if i == 5 {
        "cookie"
    } else if i == 6 {
        "phone"
    } else if i == 7 {
        "satoken"
    } else if i == 8 {
        "authorization"
    } else if i == 9 {
        "set-cookie"
    } else if i == 10 {
        "apartmentid"
    } else {
        "roomid"
    }
}

fn is_control(c: char) -> (r: bool)
    ensures
        r == control(c),
{
    let u: u32 = c as u32;
    u < 0x20 || (0x7f <= u && u <= 0x9f)
}

fn flatten_chars(s: &Vec<char>) -> (r: Vec<char>)
    ensures
        r@ == flatten(s@),
{
    let mut r: Vec<char> = Vec::new();
    let mut i: usize = 0;
    while i < s.len()
        invariant
            0 <= i <= s@.len(),
            r@ == flatten(s@).take(i as int),
        decreases s@.len() - i,
    {
        let c = s[i];
        r.push(
            if is_control(c) {
                ' '
            } else {
                c
            },
        );
        i += 1;
        assert(r@ =~= flatten(s@).take(i as int));
    }
    assert(flatten(s@).take(i as int) =~= flatten(s@));
    r
}

fn skip_ascii_white(s: &Vec<char>, from: usize) -> (i: usize)
    requires
        from <= s@.len(),
    ensures
        i == text::first_not(s@, ascii_white(), from as int),
        from <= i <= s@.len(),
{
    let mut i: usize = from;
    while i < s.len() && is_ascii_whitespace(s[i])
        invariant
            from <= i <= s@.len(),
            text::first_not(s@, ascii_white(), from as int) == text::first_not(s@, ascii_white(), i as int),
        decreases s@.len() - i,
    {
        i += 1;
    }
    i
}

fn append_chars(target: &mut Vec<char>, s: &Vec<char>, from: usize, to: usize)
    requires
        from <= to <= s@.len(),
    ensures
        final(target)@ == old(target)@ + s@.subrange(from as int, to as int),
{
    let mut i: usize = from;
    while i < to
        invariant
            from <= i <= to <= s@.len(),
            target@ == old(target)@ + s@.subrange(from as int, i as int),
        decreases to - i,
    {
        target.push(s[i]);
        i += 1;
        assert(target@ =~= old(target)@ + s@.subrange(from as int, i as int));
    }
}

fn scrub_chars(s: &Vec<char>, key: &Vec<char>) -> (r: Vec<char>)
    requires
        key@.len() > 0,
    ensures
        r@ == scrub(s@, key@),
{
    let total: usize = s.len();
    let low = lower_chars(s);
    let replacement = chars_of("=<redacted>");
    let mut r: Vec<char> = Vec::new();
    let mut from: usize = 0;
    assert(scrub(s@, key@) =~= r@ + scrub_from(s@, key@, 0));
    loop
        invariant_except_break
            from <= s@.len(),
            key@.len() > 0,
            low@ == text::lower(s@),
            total == s@.len(),
            replacement@ == mask(),
            scrub(s@, key@) == r@ + scrub_from(s@, key@, from as int),
        ensures
            r@ == scrub(s@, key@),
        decreases s@.len() - from,
    {
        proof {
            text::lemma_find(low@, key@, from as int);
        }
        let ghost before = r@;
        match find_chars(&low, key, from) {
            None => {
                append_chars(&mut r, s, from, s.len());
                assert(s@.skip(from as int) =~= s@.subrange(from as int, s@.len() as int));
                break;
            },
            Some(start) => {
                let after: usize = start + key.len();
                if start > 0 && is_ascii_alphanumeric(low[start - 1]) {
                    assert(text::is_ascii_alnum(s@[start - 1]));
                    append_chars(&mut r, s, from, after);
                    from = after;
                } else {
                    assert(boundary(s@, start as int));
                    let at = skip_ascii_white(s, after);
                    if at < s.len() && (s[at] == '=' || s[at] == ':') {
                        let value = skip_ascii_white(s, at + 1);
                        let end = find_white(s, value);
                        append_chars(&mut r, s, from, start);
                        append_chars(&mut r, key, 0, key.len());
                        append_chars(&mut r, &replacement, 0, replacement.len());
                        assert(key@.subrange(0, key@.len() as int) =~= key@);
                        assert(mask().subrange(0, mask().len() as int) =~= mask());
                        from = end;
                    } else {
                        append_chars(&mut r, s, from, at);
                        from = at;
                    }
                }
            },
        }
        assert(scrub(s@, key@) =~= r@ + scrub_from(s@, key@, from as int));
    }
    r
}

/// Removes secrets and control characters even if a caller passes an untrusted
/// error, and bounds the length.
pub fn redact(value: &str) -> (r: String)
    ensures
        r@ == redacted(value@),
{
    let mut s = flatten_chars(&chars_of(value));
    let mut k: usize = 0;
    while k < SECRET_KEYS
        invariant
            0 <= k <= SECRET_KEYS,
            s@ == scrub_keys(flatten(value@), k as int),
        decreases SECRET_KEYS - k,
    {
        let key = chars_of(secret_key(k));
        proof {
            lemma_secret_key(k as int);
        }
        s = scrub_chars(&s, &key);
        k += 1;
    }
    let n = fit(&s, MAX_DETAIL_BYTES);
    if n < s.len() {
        let ghost whole = s@;
        s.truncate(n);
        s.push('…');
        assert(s@ =~= whole.take(n as int).push('…'));
    }
    string_of(&s)
}

// ---------------------------------------------------------------------------
// What redaction hides
// ---------------------------------------------------------------------------

pub open spec fn is_lower_letter(c: char) -> bool {
    'a' <= c && c <= 'z'
}

/// The shape of a secret key: small letters and hyphens, with a letter first.
pub open spec fn key_shape(key: Seq<char>) -> bool {
    &&& key.len() >= 2
    &&& is_lower_letter(key[0])
    &&& !(key[0] == 'r' && key[1] == 'e')
    &&& forall|i: int| 0 <= i < key.len() ==> is_lower_letter(#[trigger] key[i]) || key[i] == '-'
}

pub proof fn lemma_secret_key(i: int)
    requires
        0 <= i < SECRET_KEYS,
    ensures
        key_shape(secret_keys()[i]),
{
    reveal_strlit("password");
    reveal_strlit("passwd");
    reveal_strlit("uid");
    reveal_strlit("token");
    reveal_strlit("code");
    reveal_strlit("cookie");
    reveal_strlit("phone");
    reveal_strlit("satoken");
    reveal_strlit("authorization");
    reveal_strlit("set-cookie");
    reveal_strlit("apartmentid");
    reveal_strlit("roomid");
}

/// `key` is assigned a value at `start`: it stands there in any mix of cases,
/// no letter or digit before it, and a separator follows.
pub open spec fn assignment(s: Seq<char>, key: Seq<char>, start: int) -> bool {
    &&& text::matches_at(text::lower(s), key, start)
    &&& boundary(s, start)
    &&& is_separator(s, separator(s, start + key.len()))
}

/// The value assigned at `start` is the mask, up to white space or the end.
pub open spec fn hidden(s: Seq<char>, key: Seq<char>, start: int) -> bool {
    let after = start + key.len() + mask().len();
    &&& text::matches_at(s, mask(), start + key.len())
    &&& after == s.len() || text::is_white(s[after])
}

/// Each assignment to `key` before `n` is hidden.
pub open spec fn clean_upto(s: Seq<char>, key: Seq<char>, n: int) -> bool {
    forall|start: int| 0 <= start < n && #[trigger] assignment(s, key, start) ==> hidden(s, key, start)
}

pub open spec fn clean(s: Seq<char>, key: Seq<char>) -> bool {
    clean_upto(s, key, s.len() as int)
}

/// `other` cannot start right after a hyphen of `key`.
pub open spec fn apart(key: Seq<char>, other: Seq<char>) -> bool {
    forall|i: int| 0 <= i < key.len() - 1 && #[trigger] key[i] == '-' ==> key[i + 1] != other[0]
}

proof fn lemma_mask()
    ensures
        mask().len() == 11,
        mask()[0] == '=',
        mask()[1] == '<',
        mask()[2] == 'r',
        mask()[3] == 'e',
        mask()[10] == '>',
        forall|i: int| 2 <= i < 10 ==> is_lower_letter(#[trigger] mask()[i]),
{
    reveal_strlit("=<redacted>");
}

pub proof fn lemma_apart(i: int, j: int)
    requires
        0 <= i <= j < SECRET_KEYS,
    ensures
        apart(secret_keys()[i], secret_keys()[j]),
{
    reveal_strlit("password");
    reveal_strlit("passwd");
    reveal_strlit("uid");
    reveal_strlit("token");
    reveal_strlit("code");
    reveal_strlit("cookie");
    reveal_strlit("phone");
    reveal_strlit("satoken");
    reveal_strlit("authorization");
    reveal_strlit("set-cookie");
    reveal_strlit("apartmentid");
    reveal_strlit("roomid");
}

/// What a match of a key says of the characters below it.
pub proof fn lemma_match_char(s: Seq<char>, key: Seq<char>, start: int, i: int)
    requires
        text::matches_at(text::lower(s), key, start),
        key_shape(key),
        0 <= i < key.len(),
    ensures
        0 <= start + i < s.len(),
        text::lower_char(s[start + i]) == key[i],
        s[start + i] == '-' || text::is_ascii_alnum(s[start + i]),
        i == 0 ==> text::is_ascii_alnum(s[start + i]),
        key[i] == '-' ==> s[start + i] == '-',
        is_lower_letter(key[i]) ==> text::is_ascii_alnum(s[start + i]),
{
    assert(text::lower(s).subrange(start, start + key.len())[i] == key[i]);
}

pub proof fn lemma_match_from_chars(s: Seq<char>, key: Seq<char>, start: int)
    requires
        0 <= start,
        start + key.len() <= s.len(),
        forall|i: int|
            0 <= i < key.len() ==> text::lower_char(#[trigger] s[start + i]) == key[i],
    ensures
        text::matches_at(text::lower(s), key, start),
{
    assert forall|i: int| 0 <= i < key.len() implies text::lower(s).subrange(start, start + key.len())[i]
        == key[i] by {
        assert(text::lower_char(s[start + i]) == key[i]);
    }
    assert(text::lower(s).subrange(start, start + key.len()) =~= key);
}

/// Two texts that agree from `x` and `y` on have their separators at the same
/// distance.
proof fn lemma_separator_shift(s: Seq<char>, t: Seq<char>, x: int, y: int)
    requires
        0 <= x <= s.len(),
        0 <= y <= t.len(),
        s.skip(x) == t.skip(y),
    ensures
        separator(s, x) - x == separator(t, y) - y,
        x <= separator(s, x) <= s.len(),
        is_separator(s, separator(s, x)) == is_separator(t, separator(t, y)),
{
    let stop = text::non(ascii_white());
    text::lemma_first_where(s, stop, x);
    let i = separator(s, x);
    assert(i == text::first_where(s, stop, x));
    assert(s.skip(x).len() == s.len() - x);
    assert(t.skip(y).len() == t.len() - y);
    assert(s.len() - x == t.len() - y);
    let j = i - x + y;
    assert forall|k: int| y <= k < j implies !stop(#[trigger] t[k]) by {
        assert(t[k] == t.skip(y)[k - y]);
        assert(s[k - y + x] == s.skip(x)[k - y]);
    }
    if j < t.len() {
        assert(t[j] == t.skip(y)[j - y]);
        assert(s[i] == s.skip(x)[i - x]);
    }
    text::lemma_first_where_is(t, stop, y, j);
}

/// Replacing one assignment leaves the earlier part of the text clean.
proof fn lemma_replace_before(
    a: Seq<char>,
    v: Seq<char>,
    w: Seq<char>,
    key: Seq<char>,
    other: Seq<char>,
    p: int,
)
    requires
        key_shape(key),
        key_shape(other),
        apart(other, key),
        v.len() >= key.len(),
        text::matches_at(text::lower(a + v + w), key, a.len() as int),
        boundary(a + v + w, a.len() as int),
        clean_upto(a + v + w, other, a.len() as int),
        0 <= p < a.len(),
        assignment(a + key + mask() + w, other, p),
    ensures
        hidden(a + key + mask() + w, other, p),
{
    lemma_mask();
    let t = a + v + w;
    let t2 = a + key + mask() + w;
    let n = a.len() as int;
    lemma_match_char(t, key, n, 0);
    lemma_match_char(t, key, n, 1);
    assert(t2[n] == key[0]);
    assert(forall|i: int| 0 <= i < n ==> t[i] == a[i] && t2[i] == a[i]);
    let after = p + other.len();
    if after > n {
        // The other key would reach over a hyphen into the replaced one.
        let j = n - p;
        lemma_match_char(t2, other, p, j - 1);
        lemma_match_char(t2, other, p, j);
        assert(!text::is_ascii_alnum(t[n - 1]));
        assert(other[j - 1] == '-');
        assert(other[j] == key[0]);
        assert(false);
    }
    let stop = text::non(ascii_white());
    let at = separator(t2, after);
    text::lemma_first_where(t2, stop, after);
    if at >= n {
        if at > n {
            assert(!stop(t2[n]));
        }
        assert(false);
    }
    text::lemma_first_where_is(t, stop, after, at);
    assert forall|i: int| 0 <= i < other.len() implies text::lower_char(#[trigger] t[p + i])
        == other[i] by {
        lemma_match_char(t2, other, p, i);
    }
    lemma_match_from_chars(t, other, p);
    assert(assignment(t, other, p));
    assert(hidden(t, other, p));
    let m = mask();
    assert forall|i: int| 0 <= i < 11 implies t[after + i] == #[trigger] m[i] by {
        assert(t.subrange(after, after + m.len())[i] == m[i]);
    }
    let last = after + 11;
    if last > n {
        let j = n - after;
        // The replaced key would start inside the mask.
        assert(t[n] == m[j]);
        if j >= 1 {
            assert(t[n - 1] == m[j - 1]);
        }
        if j == 2 {
            assert(t[n + 1] == m[3]);
        }
        assert(false);
    }
    if last == n {
        assert(!text::is_white(t[n]));
        assert(false);
    }
    assert(t2.subrange(after, after + m.len()) =~= m);
}

/// The replacement itself is clean.
proof fn lemma_replace_inside(
    a: Seq<char>,
    w: Seq<char>,
    key: Seq<char>,
    other: Seq<char>,
    p: int,
)
    requires
        key_shape(key),
        key_shape(other),
        w.len() > 0 ==> text::is_white(w[0]),
        a.len() <= p < a.len() + key.len() + mask().len(),
        assignment(a + key + mask() + w, other, p),
    ensures
        hidden(a + key + mask() + w, other, p),
{
    lemma_mask();
    let t2 = a + key + mask() + w;
    let n = a.len() as int;
    let m = mask();
    let k = key.len() as int;
    assert(forall|i: int| 0 <= i < k ==> t2[n + i] == key[i]);
    assert forall|i: int| 0 <= i < 11 implies t2[n + k + i] == #[trigger] m[i] by {}
    let off = p - n;
    lemma_match_char(t2, other, p, 0);
    if off >= k {
        assert(t2[p] == m[off - k]);
        if off - k == 2 {
            lemma_match_char(t2, other, p, 1);
            assert(t2[p + 1] == m[3]);
        }
        if off - k > 2 {
            assert(t2[p - 1] == m[off - k - 1]);
        }
        assert(false);
    }
    let after = p + other.len();
    let stop = text::non(ascii_white());
    if off + other.len() > k {
        lemma_match_char(t2, other, p, k - off);
        assert(t2[n + k] == m[0]);
        assert(false);
    }
    if off + other.len() < k {
        let c = key[off + other.len()];
        assert(t2[after] == c);
        assert(is_lower_letter(c) || c == '-');
        text::lemma_first_where_is(t2, stop, after, after);
        assert(false);
    }
    assert(t2.subrange(after, after + m.len()) =~= m);
    if w.len() > 0 {
        assert(t2[after + 11] == w[0]);
    }
}

/// What follows the replacement stays clean.
proof fn lemma_replace_after(
    a: Seq<char>,
    v: Seq<char>,
    w: Seq<char>,
    key: Seq<char>,
    other: Seq<char>,
    p: int,
)
    requires
        key_shape(key),
        key_shape(other),
        w.len() > 0 ==> text::is_white(w[0]),
        clean(a + v + w, other),
        a.len() + key.len() + mask().len() <= p,
        assignment(a + key + mask() + w, other, p),
    ensures
        hidden(a + key + mask() + w, other, p),
{
    lemma_mask();
    let t = a + v + w;
    let t2 = a + key + mask() + w;
    let b2 = (a.len() + key.len() + mask().len()) as int;
    let b = (a.len() + v.len()) as int;
    let q = p - b2 + b;
    lemma_match_char(t2, other, p, 0);
    assert(forall|i: int| b2 <= i < t2.len() ==> t2[i] == w[i - b2]);
    assert(forall|i: int| b <= i < t.len() ==> t[i] == w[i - b]);
    if p == b2 {
        assert(t2[p] == w[0]);
        assert(false);
    }
    assert(t2[p - 1] == t[q - 1]);
    assert forall|i: int| 0 <= i < other.len() implies text::lower_char(#[trigger] t[q + i])
        == other[i] by {
        lemma_match_char(t2, other, p, i);
        assert(t2[p + i] == w[p + i - b2]);
    }
    lemma_match_char(t2, other, p, other.len() - 1);
    lemma_match_from_chars(t, other, q);
    assert(t2.skip(p + other.len()) =~= t.skip(q + other.len()));
    lemma_separator_shift(t2, t, p + other.len(), q + other.len());
    assert(assignment(t, other, q));
    assert(hidden(t, other, q));
    let m = mask();
    assert(t2.subrange(p + other.len(), p + other.len() + m.len()) =~= t.subrange(
        q + other.len(),
        q + other.len() + m.len(),
    ));
}

/// A match of `key` in `done + s.skip(from)` beyond `done` is one in `s`.
proof fn lemma_match_in_rest(done: Seq<char>, s: Seq<char>, from: int, key: Seq<char>, p: int)
    requires
        key_shape(key),
        0 <= from <= s.len(),
        done.len() <= p,
        text::matches_at(text::lower(done + s.skip(from)), key, p),
    ensures
        text::matches_at(text::lower(s), key, p - done.len() + from),
{
    let t = done + s.skip(from);
    let q = p - done.len() + from;
    lemma_match_char(t, key, p, key.len() - 1);
    assert forall|i: int| 0 <= i < key.len() implies text::lower_char(#[trigger] s[q + i])
        == key[i] by {
        lemma_match_char(t, key, p, i);
        assert(t[p + i] == s[q + i]);
    }
    lemma_match_from_chars(s, key, q);
}

/// The text written so far joins the rest as it does in the source, as far as
/// the boundary before the next match goes.
spec fn joins(done: Seq<char>, s: Seq<char>, from: int) -> bool {
    ||| from == s.len()
    ||| text::is_white(s[from])
    ||| from == 0 && done.len() == 0
    ||| from > 0 && done.len() > 0 && done[done.len() - 1] == s[from - 1]
}

/// Up to the end of the next match of the key, that match alone can be an
/// assignment.
proof fn lemma_next_match(
    done: Seq<char>,
    s: Seq<char>,
    key: Seq<char>,
    from: int,
    start: int,
    p: int,
)
    requires
        key_shape(key),
        apart(key, key),
        0 <= from <= s.len(),
        joins(done, s, from),
        text::find(text::lower(s), key, from) == Some(start),
        done.len() <= p < done.len() + start - from + key.len(),
        assignment(done + s.skip(from), key, p),
    ensures
        p == done.len() + start - from,
        boundary(s, start),
{
    let t = done + s.skip(from);
    let d = done.len() as int;
    let ps = d + start - from;
    text::lemma_find(text::lower(s), key, from);
    lemma_match_in_rest(done, s, from, key, p);
    assert(forall|i: int| from <= i < s.len() ==> t[d + i - from] == s[i]);
    if p > ps {
        let i = p - ps;
        assert(t[p - 1] == s[start + i - 1]);
        lemma_match_char(s, key, start, i - 1);
        lemma_match_char(s, key, start, i);
        assert(t[p] == s[start + i]);
        lemma_match_char(t, key, p, 0);
        assert(key[i - 1] == '-');
        assert(key[i] == key[0]);
        assert(false);
    }
    lemma_match_char(s, key, start, 0);
    if start > from {
        assert(t[ps - 1] == s[start - 1]);
    }
}

/// Where the value of an assignment ends.
proof fn lemma_value_end(s: Seq<char>, key: Seq<char>, start: int)
    requires
        0 <= start,
        start + key.len() <= s.len(),
        is_separator(s, separator(s, start + key.len())),
    ensures
        ({
            let end = value_end(s, separator(s, start + key.len()));
            &&& start + key.len() < end <= s.len()
            &&& end < s.len() ==> text::is_white(s[end])
        }),
{
    let at = separator(s, start + key.len());
    text::lemma_first_where(s, text::non(ascii_white()), start + key.len());
    text::lemma_first_where(s, text::non(ascii_white()), at + 1);
    text::lemma_first_where(s, text::white(), text::first_not(s, ascii_white(), at + 1));
}

/// The next match of the key, seen behind what is already written: nothing
/// before it is unmasked.
proof fn lemma_match_behind(done: Seq<char>, s: Seq<char>, key: Seq<char>, from: int, start: int)
    requires
        key_shape(key),
        apart(key, key),
        0 <= from <= s.len(),
        joins(done, s, from),
        text::find(text::lower(s), key, from) == Some(start),
        boundary(s, start),
        clean_upto(done + s.skip(from), key, done.len() as int),
    ensures
        ({
            let t = done + s.skip(from);
            let p = done.len() + start - from;
            &&& text::matches_at(text::lower(t), key, p)
            &&& boundary(t, p)
            &&& clean_upto(t, key, p)
        }),
{
    let t = done + s.skip(from);
    let d = done.len() as int;
    let ps = d + start - from;
    text::lemma_find(text::lower(s), key, from);
    lemma_match_char(s, key, start, key.len() - 1);
    assert forall|i: int| 0 <= i < key.len() implies text::lower_char(#[trigger] t[ps + i])
        == key[i] by {
        lemma_match_char(s, key, start, i);
        assert(t[ps + i] == s[start + i]);
    }
    lemma_match_from_chars(t, key, ps);
    lemma_match_char(s, key, start, 0);
    if start > from {
        assert(t[ps - 1] == s[start - 1]);
    }
    assert forall|p: int| 0 <= p < ps && #[trigger] assignment(t, key, p) implies hidden(
        t,
        key,
        p,
    ) by {
        if p >= d {
            lemma_next_match(done, s, key, from, start, p);
        }
    }
}

/// The parts of the text at an assignment: what stands before it, the
/// assignment itself, and what follows its value.
proof fn lemma_parts(done: Seq<char>, s: Seq<char>, key: Seq<char>, from: int, start: int)
    requires
        key_shape(key),
        apart(key, key),
        0 <= from <= s.len(),
        joins(done, s, from),
        text::find(text::lower(s), key, from) == Some(start),
        boundary(s, start),
        is_separator(s, separator(s, start + key.len())),
        clean_upto(done + s.skip(from), key, done.len() as int),
    ensures
        ({
            let end = value_end(s, separator(s, start + key.len()));
            let a = done + s.subrange(from, start);
            let v = s.subrange(start, end);
            let w = s.skip(end);
            let t = a + v + w;
            &&& from <= start
            &&& start + key.len() < end <= s.len()
            &&& end < s.len() ==> text::is_white(s[end])
            &&& w.len() > 0 ==> text::is_white(w[0])
            &&& t == done + s.skip(from)
            &&& text::matches_at(text::lower(t), key, a.len() as int)
            &&& boundary(t, a.len() as int)
            &&& clean_upto(t, key, a.len() as int)
        }),
{
    text::lemma_find(text::lower(s), key, from);
    lemma_match_char(s, key, start, key.len() - 1);
    lemma_value_end(s, key, start);
    lemma_match_behind(done, s, key, from, start);
    let end = value_end(s, separator(s, start + key.len()));
    let a = done + s.subrange(from, start);
    assert(a + s.subrange(start, end) + s.skip(end) =~= done + s.skip(from));
    assert(a.len() == done.len() + start - from);
}

/// Masking one assignment leaves the text clean for its own key up to the end
/// of the mask.
proof fn lemma_step_key(a: Seq<char>, v: Seq<char>, w: Seq<char>, key: Seq<char>)
    requires
        key_shape(key),
        apart(key, key),
        v.len() >= key.len(),
        w.len() > 0 ==> text::is_white(w[0]),
        text::matches_at(text::lower(a + v + w), key, a.len() as int),
        boundary(a + v + w, a.len() as int),
        clean_upto(a + v + w, key, a.len() as int),
    ensures
        clean_upto(a + key + mask() + w, key, (a + key + mask()).len() as int),
{
    let t2 = a + key + mask() + w;
    let n = (a + key + mask()).len() as int;
    assert forall|p: int| 0 <= p < n && #[trigger] assignment(t2, key, p) implies hidden(
        t2,
        key,
        p,
    ) by {
        if p < a.len() {
            lemma_replace_before(a, v, w, key, key, p);
        } else {
            lemma_replace_inside(a, w, key, key, p);
        }
    }
}

/// Masking one assignment keeps the text clean for another key.
proof fn lemma_step_other(
    a: Seq<char>,
    v: Seq<char>,
    w: Seq<char>,
    key: Seq<char>,
    other: Seq<char>,
)
    requires
        key_shape(key),
        key_shape(other),
        apart(other, key),
        v.len() >= key.len(),
        w.len() > 0 ==> text::is_white(w[0]),
        text::matches_at(text::lower(a + v + w), key, a.len() as int),
        boundary(a + v + w, a.len() as int),
        clean(a + v + w, other),
    ensures
        clean(a + key + mask() + w, other),
{
    let t2 = a + key + mask() + w;
    let n = (a + key + mask()).len() as int;
    assert forall|p: int| 0 <= p < t2.len() && #[trigger] assignment(t2, other, p) implies hidden(
        t2,
        other,
        p,
    ) by {
        if p < a.len() {
            lemma_replace_before(a, v, w, key, other, p);
        } else if p < n {
            lemma_replace_inside(a, w, key, other, p);
        } else {
            lemma_replace_after(a, v, w, key, other, p);
        }
    }
}

/// The step over an assignment.
proof fn lemma_step(
    done: Seq<char>,
    s: Seq<char>,
    key: Seq<char>,
    other: Seq<char>,
    from: int,
    start: int,
)
    requires
        key_shape(key),
        key_shape(other),
        apart(key, key),
        apart(other, key),
        0 <= from <= s.len(),
        joins(done, s, from),
        text::find(text::lower(s), key, from) == Some(start),
        boundary(s, start),
        is_separator(s, separator(s, start + key.len())),
        clean_upto(done + s.skip(from), key, done.len() as int),
    ensures
        ({
            let t = done + s.skip(from);
            let end = value_end(s, separator(s, start + key.len()));
            let done2 = done + s.subrange(from, start) + key + mask();
            let t2 = done2 + s.skip(end);
            &&& start < end <= s.len()
            &&& joins(done2, s, end)
            &&& clean_upto(t2, key, done2.len() as int)
            &&& clean(t, other) ==> clean(t2, other)
        }),
{
    let t = done + s.skip(from);
    let end = value_end(s, separator(s, start + key.len()));
    let a = done + s.subrange(from, start);
    let v = s.subrange(start, end);
    let w = s.skip(end);
    lemma_parts(done, s, key, from, start);
    lemma_step_key(a, v, w, key);
    if clean(t, other) {
        lemma_step_other(a, v, w, key, other);
    }
}

/// The step over a match that is no assignment: the text is as clean as before.
proof fn lemma_step_kept(
    done: Seq<char>,
    s: Seq<char>,
    key: Seq<char>,
    from: int,
    start: int,
    next: int,
)
    requires
        key_shape(key),
        apart(key, key),
        0 <= from <= s.len(),
        joins(done, s, from),
        text::find(text::lower(s), key, from) == Some(start),
        if boundary(s, start) {
            next == separator(s, start + key.len()) && !is_separator(s, next)
        } else {
            next == start + key.len()
        },
        clean_upto(done + s.skip(from), key, done.len() as int),
    ensures
        ({
            let done2 = done + s.subrange(from, next);
            &&& from < next <= s.len()
            &&& joins(done2, s, next)
            &&& done2 + s.skip(next) == done + s.skip(from)
            &&& clean_upto(done + s.skip(from), key, done2.len() as int)
        }),
{
    let t = done + s.skip(from);
    let d = done.len() as int;
    let after = start + key.len();
    let ps = d + start - from;
    text::lemma_find(text::lower(s), key, from);
    lemma_match_char(s, key, start, key.len() - 1);
    text::lemma_first_where(s, text::non(ascii_white()), after);
    let done2 = done + s.subrange(from, next);
    assert(done2 + s.skip(next) =~= t);
    assert(done2[done2.len() - 1] == s[next - 1]);
    assert forall|p: int| 0 <= p < done2.len() && #[trigger] assignment(t, key, p) implies hidden(
        t,
        key,
        p,
    ) by {
        if p >= ps + key.len() {
            assert(t[p] == s[p - d + from]);
            assert(!text::non(ascii_white())(s[p - d + from]));
            lemma_match_char(t, key, p, 0);
        } else if p >= d {
            lemma_next_match(done, s, key, from, start, p);
            assert(t.skip(ps + key.len()) =~= s.skip(after));
            lemma_separator_shift(t, s, ps + key.len(), after);
        }
    }
}

/// One pass over the text from `from` on, with `done` already written: the
/// result is clean for the key of the pass, and for `other` if it was before.
proof fn lemma_scrub_from(
    done: Seq<char>,
    s: Seq<char>,
    key: Seq<char>,
    other: Seq<char>,
    from: int,
)
    requires
        key_shape(key),
        key_shape(other),
        apart(key, key),
        apart(other, key),
        0 <= from <= s.len(),
        joins(done, s, from),
        clean_upto(done + s.skip(from), key, done.len() as int),
    ensures
        clean(done + scrub_from(s, key, from), key),
        clean(done + s.skip(from), other) ==> clean(done + scrub_from(s, key, from), other),
    decreases s.len() - from,
{
    let t = done + s.skip(from);
    let d = done.len() as int;
    text::lemma_find(text::lower(s), key, from);
    match text::find(text::lower(s), key, from) {
        None => {
            assert forall|p: int| 0 <= p < t.len() && #[trigger] assignment(t, key, p) implies hidden(
                t,
                key,
                p,
            ) by {
                if p >= d {
                    lemma_match_in_rest(done, s, from, key, p);
                }
            }
        },
        Some(start) => {
            let after = start + key.len();
            let at = separator(s, after);
            if boundary(s, start) && is_separator(s, at) {
                let done2 = done + s.subrange(from, start) + key + mask();
                let end = value_end(s, at);
                lemma_step(done, s, key, other, from, start);
                lemma_scrub_from(done2, s, key, other, end);
                assert(done2 + scrub_from(s, key, end) =~= done + scrub_from(s, key, from));
            } else {
                let next = if boundary(s, start) {
                    at
                } else {
                    after
                };
                let done2 = done + s.subrange(from, next);
                lemma_step_kept(done, s, key, from, start, next);
                lemma_scrub_from(done2, s, key, other, next);
                assert(done2 + scrub_from(s, key, next) =~= done + scrub_from(s, key, from));
            }
        },
    }
}

/// A pass for `key` makes the text clean for it and keeps it clean for `other`.
proof fn lemma_scrub(s: Seq<char>, key: Seq<char>, other: Seq<char>)
    requires
        key_shape(key),
        key_shape(other),
        apart(key, key),
        apart(other, key),
    ensures
        clean(scrub(s, key), key),
        clean(s, other) ==> clean(scrub(s, key), other),
{
    let nothing = Seq::<char>::empty();
    assert(nothing + s.skip(0) =~= s);
    assert(nothing + scrub_from(s, key, 0) =~= scrub(s, key));
    lemma_scrub_from(nothing, s, key, other, 0);
}

proof fn lemma_scrub_keys_clean(s: Seq<char>, n: int, i: int)
    requires
        0 <= i < n <= SECRET_KEYS,
    ensures
        clean(scrub_keys(s, n), secret_keys()[i]),
    decreases n,
{
    lemma_secret_key(n - 1);
    lemma_apart(n - 1, n - 1);
    lemma_secret_key(i);
    lemma_apart(i, n - 1);
    if i < n - 1 {
        lemma_scrub_keys_clean(s, n - 1, i);
    }
    lemma_scrub(scrub_keys(s, n - 1), secret_keys()[n - 1], secret_keys()[i]);
}

/// What follows a name is the mask, up to white space, the end or the ellipsis
/// of a clipped text.
pub open spec fn masked(s: Seq<char>, at: int) -> bool {
    let rest = s.skip(at);
    ||| text::starts_with(rest, mask()) && (rest.len() == mask().len() || text::is_white(rest[mask().len() as int]))
    ||| exists|j: int| 0 < j <= mask().len() && rest == #[trigger] mask().take(j).push('…')
}

/// In a redacted text, wherever a secret key is assigned a value, in any mix of
/// cases and with `=` or `:`, that value is the mask.
pub proof fn redaction_hides_assignments(value: Seq<char>, i: int, start: int)
    requires
        0 <= i < SECRET_KEYS,
        assignment(redacted(value), secret_keys()[i], start),
    ensures
        masked(redacted(value), start + secret_keys()[i].len()),
{
    let full = scrub_keys(flatten(value), SECRET_KEYS as int);
    let s = redacted(value);
    let key = secret_keys()[i];
    lemma_scrub_keys_clean(flatten(value), SECRET_KEYS as int, i);
    lemma_secret_key(i);
    lemma_clipped_assignment(full, key, start);
}

/// A clipped text shows of each assignment no more than the mask, where the
/// whole text does.
proof fn lemma_clipped_assignment(full: Seq<char>, key: Seq<char>, start: int)
    requires
        key_shape(key),
        clean(full, key),
        assignment(clip(full, MAX_DETAIL_BYTES as int), key, start),
    ensures
        masked(clip(full, MAX_DETAIL_BYTES as int), start + key.len()),
{
    let s = clip(full, MAX_DETAIL_BYTES as int);
    let n = text::within(full, MAX_DETAIL_BYTES as int, 0);
    text::lemma_within(full, MAX_DETAIL_BYTES as int, 0);
    lemma_mask();
    let m = mask();
    let after = start + key.len();
    let stop = text::non(ascii_white());
    let at = separator(s, after);
    lemma_match_char(s, key, start, key.len() - 1);
    text::lemma_first_where(s, stop, after);
    assert(after <= at);
    assert(forall|k: int| 0 <= k < n ==> s[k] == full[k]);
    if n < full.len() {
        assert(s[n] == '…');
    }
    assert(at < n);
    text::lemma_first_where_is(full, stop, after, at);
    assert forall|k: int| 0 <= k < key.len() implies text::lower_char(
        #[trigger] full[start + k],
    ) == key[k] by {
        lemma_match_char(s, key, start, k);
    }
    lemma_match_from_chars(full, key, start);
    assert(assignment(full, key, start));
    assert(hidden(full, key, start));
    let rest = s.skip(after);
    assert forall|k: int| 0 <= k < 11 implies full[after + k] == #[trigger] m[k] by {
        assert(full.subrange(after, after + m.len())[k] == m[k]);
    }
    if n == full.len() || after + 11 < n {
        assert(rest.subrange(0, m.len() as int) =~= m);
        if after + 11 < full.len() {
            assert(rest[11] == full[after + 11]);
        }
    } else {
        let j = n - after;
        assert(rest =~= m.take(j).push('…'));
    }
}

spec fn single_line(s: Seq<char>) -> bool {
    forall|k: int| 0 <= k < s.len() ==> flat_char(#[trigger] s[k]) == s[k]
}

proof fn lemma_scrub_single_line(s: Seq<char>, key: Seq<char>, from: int)
    requires
        single_line(s),
        key_shape(key),
        0 <= from <= s.len(),
    ensures
        single_line(scrub_from(s, key, from)),
    decreases s.len() - from,
{
    lemma_mask();
    text::lemma_find(text::lower(s), key, from);
    if let Some(start) = text::find(text::lower(s), key, from) {
        let after = start + key.len();
        let at = separator(s, after);
        text::lemma_first_where(s, text::non(ascii_white()), after);
        if !boundary(s, start) {
            lemma_scrub_single_line(s, key, after);
        } else if is_separator(s, at) {
            text::lemma_first_where(s, text::non(ascii_white()), at + 1);
            text::lemma_first_where(s, text::white(), text::first_not(s, ascii_white(), at + 1));
            lemma_scrub_single_line(s, key, value_end(s, at));
        } else {
            lemma_scrub_single_line(s, key, at);
        }
    }
}

proof fn lemma_scrub_keys_single_line(s: Seq<char>, n: int)
    requires
        0 <= n <= SECRET_KEYS,
        single_line(s),
    ensures
        single_line(scrub_keys(s, n)),
    decreases n,
{
    if n > 0 {
        lemma_scrub_keys_single_line(s, n - 1);
        lemma_secret_key(n - 1);
        lemma_scrub_single_line(scrub_keys(s, n - 1), secret_keys()[n - 1], 0);
    }
}

/// A redacted text holds no control character, so it stays on one line, and
/// takes at most the bytes of a detail and those of the ellipsis.
pub proof fn redaction_keeps_one_line(value: Seq<char>)
    ensures
        vstd::utf8::encode_utf8(redacted(value)).len() <= MAX_DETAIL_BYTES + 3,
        forall|k: int|
            0 <= k < redacted(value).len() ==> !control(#[trigger] redacted(value)[k]),
{
    assert(single_line(flatten(value)));
    lemma_scrub_keys_single_line(flatten(value), SECRET_KEYS as int);
    let full = scrub_keys(flatten(value), SECRET_KEYS as int);
    let n = text::within(full, MAX_DETAIL_BYTES as int, 0);
    text::lemma_within(full, MAX_DETAIL_BYTES as int, 0);
    text::lemma_within_bytes(full, MAX_DETAIL_BYTES as int, 0);
    assert(full.subrange(0, n) =~= full.take(n));
    if n == full.len() {
        assert(full.take(n) =~= full);
    } else {
        text::lemma_push_bytes(full.take(n), '…');
    }
    assert forall|k: int| 0 <= k < redacted(value).len() implies !control(
        #[trigger] redacted(value)[k],
    ) by {
        if k < n {
            assert(redacted(value)[k] == full[k]);
        }
    }
}

/// A detail in which no secret key occurs is only flattened and clipped.
pub proof fn redaction_keeps_harmless_text(value: Seq<char>)
    requires
        forall|i: int|
            0 <= i < SECRET_KEYS ==> !text::contains(text::lower(flatten(value)), #[trigger] secret_keys()[i]),
    ensures
        redacted(value) == clip(flatten(value), MAX_DETAIL_BYTES as int),
{
    lemma_harmless(flatten(value), SECRET_KEYS as int);
}

proof fn lemma_harmless(s: Seq<char>, n: int)
    requires
        0 <= n <= SECRET_KEYS,
        forall|i: int| 0 <= i < n ==> !text::contains(text::lower(s), #[trigger] secret_keys()[i]),
    ensures
        scrub_keys(s, n) == s,
    decreases n,
{
    if n > 0 {
        lemma_harmless(s, n - 1);
        lemma_secret_key(n - 1);
        text::lemma_contains_is_find(text::lower(s), secret_keys()[n - 1]);
        assert(s.skip(0) =~= s);
    }
}

// ---------------------------------------------------------------------------
// What redaction leaves
// ---------------------------------------------------------------------------

/// These twelve names are secret, this stands in place of their values, and
/// this much of a detail is written.
pub proof fn secret_names_are_these()
    ensures
        SECRET_KEYS == 12,
        secret_keys().len() == 12,
        secret_keys().contains("password"@),
        secret_keys().contains("passwd"@),
        secret_keys().contains("uid"@),
        secret_keys().contains("token"@),
        secret_keys().contains("code"@),
        secret_keys().contains("cookie"@),
        secret_keys().contains("phone"@),
        secret_keys().contains("satoken"@),
        secret_keys().contains("authorization"@),
        secret_keys().contains("set-cookie"@),
        secret_keys().contains("apartmentid"@),
        secret_keys().contains("roomid"@),
        mask() == "=<redacted>"@,
        MAX_DETAIL_BYTES == 1000,
{
    let k = secret_keys();
    assert(k[0] == "password"@ && k[1] == "passwd"@ && k[2] == "uid"@ && k[3] == "token"@);
    assert(k[4] == "code"@ && k[5] == "cookie"@ && k[6] == "phone"@ && k[7] == "satoken"@);
    assert(k[8] == "authorization"@ && k[9] == "set-cookie"@ && k[10] == "apartmentid"@ && k[11]
        == "roomid"@);
}

/// Control characters become spaces, one for one; everything else stays.
pub proof fn control_characters_become_spaces(s: Seq<char>, c: char)
    ensures
        control(c) <==> c < ' ' || ('\u{7f}' <= c && c <= '\u{9f}'),
        control(c) ==> flat_char(c) == ' ',
        !control(c) ==> flat_char(c) == c,
        flatten(s).len() == s.len(),
        forall|k: int| 0 <= k < s.len() ==> #[trigger] flatten(s)[k] == flat_char(s[k]),
{
}

/// A text that fits stays; of a longer one the longest front that fits is kept,
/// and an ellipsis follows.
pub proof fn long_texts_are_cut(s: Seq<char>, limit: int) -> (n: int)
    requires
        0 <= limit,
    ensures
        vstd::utf8::encode_utf8(s).len() <= limit ==> clip(s, limit) == s,
        vstd::utf8::encode_utf8(s).len() > limit ==> {
            &&& 0 <= n < s.len()
            &&& clip(s, limit) == s.take(n) + "…"@
            &&& vstd::utf8::encode_utf8(s.take(n)).len() <= limit
            &&& vstd::utf8::encode_utf8(s.take(n + 1)).len() > limit
        },
{
    reveal_strlit("…");
    text::what_fits_is_the_longest(s, limit);
    let n = text::within(s, limit, 0);
    if n < s.len() {
        assert(s.take(n).push('…') =~= s.take(n) + "…"@);
    }
    n
}

/// A value that a secret name is assigned: a name in letters of any case, white
/// space as it may stand around the separator, and the value.
pub open spec fn assigned(
    name: Seq<char>,
    w1: Seq<char>,
    separator: char,
    w2: Seq<char>,
    value: Seq<char>,
) -> Seq<char> {
    name + w1 + seq![separator] + w2 + value
}

/// The spaces, tabs and line ends of ASCII, and nothing else.
pub open spec fn all_ascii_white(s: Seq<char>) -> bool {
    forall|k: int| 0 <= k < s.len() ==> text::is_ascii_white(#[trigger] s[k])
}

/// Where the parts of an assignment stand.
proof fn lemma_assigned_places(
    before: Seq<char>,
    name: Seq<char>,
    w1: Seq<char>,
    separator: char,
    w2: Seq<char>,
    value: Seq<char>,
    after: Seq<char>,
)
    requires
        separator == '=' || separator == ':',
        all_ascii_white(w1),
        all_ascii_white(w2),
        value.len() > 0,
        forall|k: int| 0 <= k < value.len() ==> !text::is_white(#[trigger] value[k]),
        after.len() > 0 ==> text::is_white(after[0]),
    ensures
        ({
            let s = before + assigned(name, w1, separator, w2, value) + after;
            let at = before.len() + name.len() + w1.len();
            let end = at + 1 + w2.len() + value.len();
            &&& text::first_not(s, ascii_white(), (before.len() + name.len()) as int) == at
            &&& is_separator(s, at as int)
            &&& value_end(s, at as int) == end
            &&& end <= s.len()
            &&& s.skip(end as int) == after
            &&& s.take(before.len() as int) == before
            &&& forall|i: int| 0 <= i < name.len() ==> #[trigger] s[before.len() + i] == name[i]
        }),
{
    let s = before + assigned(name, w1, separator, w2, value) + after;
    let n = before.len() as int;
    let stop = text::non(ascii_white());
    let a = n + name.len();
    let at = a + w1.len();
    assert forall|k: int| a <= k < at implies !stop(#[trigger] s[k]) by {
        assert(s[k] == w1[k - a]);
    }
    assert(s[at] == separator);
    text::lemma_first_where_is(s, stop, a, at);
    let v = at + 1 + w2.len();
    assert forall|k: int| at + 1 <= k < v implies !stop(#[trigger] s[k]) by {
        assert(s[k] == w2[k - at - 1]);
    }
    assert(s[v] == value[0]);
    assert(!text::is_white(value[0]));
    text::lemma_first_where_is(s, stop, at + 1, v);
    let end = v + value.len();
    assert forall|k: int| v <= k < end implies !text::white()(#[trigger] s[k]) by {
        assert(s[k] == value[k - v]);
    }
    if end < s.len() {
        assert(s[end] == after[0]);
    }
    text::lemma_first_where_is(s, text::white(), v, end);
    assert(s.skip(end) =~= after);
    assert(s.take(n) =~= before);
}

/// A text with one assignment to a key, and no other place where it stands.
proof fn lemma_scrub_at(s: Seq<char>, key: Seq<char>, n: int, at: int, end: int)
    requires
        key_shape(key),
        text::matches_at(text::lower(s), key, n),
        forall|k: int| k != n ==> !text::matches_at(text::lower(s), key, k),
        boundary(s, n),
        separator(s, n + key.len()) == at,
        is_separator(s, at),
        value_end(s, at) == end,
        n < end <= s.len(),
    ensures
        scrub(s, key) == s.take(n) + key + mask() + s.skip(end),
{
    text::lemma_find_is(text::lower(s), key, 0, n);
    text::lemma_find(text::lower(s), key, end);
    assert(text::find(text::lower(s), key, end) is None) by {
        if let Some(k) = text::find(text::lower(s), key, end) {
            assert(text::matches_at(text::lower(s), key, k));
        }
    }
    assert(s.subrange(0, n) =~= s.take(n));
    assert(scrub_from(s, key, end) == s.skip(end));
    assert(scrub_from(s, key, 0) == s.subrange(0, n) + key + mask() + scrub_from(s, key, end));
}

proof fn lemma_scrub_one(
    before: Seq<char>,
    name: Seq<char>,
    w1: Seq<char>,
    separator: char,
    w2: Seq<char>,
    value: Seq<char>,
    after: Seq<char>,
    key: Seq<char>,
)
    requires
        key_shape(key),
        text::lower(name) == key,
        separator == '=' || separator == ':',
        before.len() > 0 ==> !text::is_ascii_alnum(before[before.len() - 1]),
        all_ascii_white(w1),
        all_ascii_white(w2),
        value.len() > 0,
        forall|k: int| 0 <= k < value.len() ==> !text::is_white(#[trigger] value[k]),
        after.len() > 0 ==> text::is_white(after[0]),
        forall|k: int|
            k != before.len() ==> !text::matches_at(
                text::lower(before + assigned(name, w1, separator, w2, value) + after),
                key,
                k,
            ),
    ensures
        scrub(before + assigned(name, w1, separator, w2, value) + after, key) == before + key
            + mask() + after,
{
    let s = before + assigned(name, w1, separator, w2, value) + after;
    let n = before.len() as int;
    assert(name.len() == key.len()) by {
        assert(text::lower(name).len() == name.len());
    }
    lemma_assigned_places(before, name, w1, separator, w2, value, after);
    assert forall|i: int| 0 <= i < key.len() implies text::lower_char(#[trigger] s[n + i])
        == key[i] by {
        assert(s[before.len() + i] == name[i]);
        assert(text::lower(name)[i] == key[i]);
    }
    lemma_match_from_chars(s, key, n);
    if n > 0 {
        assert(s.take(n)[n - 1] == before[n - 1]);
    }
    let at = n + name.len() + w1.len();
    lemma_scrub_at(s, key, n, at, at + 1 + w2.len() + value.len());
}

proof fn lemma_one_key(s: Seq<char>, t: Seq<char>, i: int, n: int)
    requires
        0 <= i < n <= SECRET_KEYS,
        forall|j: int|
            0 <= j < i ==> !text::contains(text::lower(s), #[trigger] secret_keys()[j]),
        scrub(s, secret_keys()[i]) == t,
        forall|j: int|
            i < j < SECRET_KEYS ==> !text::contains(text::lower(t), #[trigger] secret_keys()[j]),
    ensures
        scrub_keys(s, n) == t,
    decreases n,
{
    if n == i + 1 {
        lemma_harmless(s, i);
    } else {
        lemma_one_key(s, t, i, n - 1);
        lemma_secret_key(n - 1);
        text::lemma_contains_is_find(text::lower(t), secret_keys()[n - 1]);
        assert(t.skip(0) =~= t);
    }
}

/// A detail in which one secret name is assigned a value, and no other occurs,
/// is written with the name and the mask in place of the assignment, and as it
/// was before and behind it.
pub proof fn one_assignment_is_masked(
    before: Seq<char>,
    name: Seq<char>,
    w1: Seq<char>,
    separator: char,
    w2: Seq<char>,
    value: Seq<char>,
    after: Seq<char>,
    i: int,
)
    requires
        0 <= i < 12,
        text::lower(name) == secret_keys()[i],
        separator == '=' || separator == ':',
        before.len() > 0 ==> !text::is_ascii_alnum(before[before.len() - 1]),
        all_ascii_white(w1),
        all_ascii_white(w2),
        value.len() > 0,
        forall|k: int| 0 <= k < value.len() ==> !text::is_white(#[trigger] value[k]),
        after.len() > 0 ==> text::is_white(after[0]),
        flatten(before + assigned(name, w1, separator, w2, value) + after) == before + assigned(
            name,
            w1,
            separator,
            w2,
            value,
        ) + after,
        forall|k: int|
            k != before.len() ==> !text::matches_at(
                text::lower(before + assigned(name, w1, separator, w2, value) + after),
                secret_keys()[i],
                k,
            ),
        forall|j: int|
            0 <= j < i ==> !text::contains(
                text::lower(before + assigned(name, w1, separator, w2, value) + after),
                #[trigger] secret_keys()[j],
            ),
        forall|j: int|
            i < j < 12 ==> !text::contains(
                text::lower(before + secret_keys()[i] + "=<redacted>"@ + after),
                #[trigger] secret_keys()[j],
            ),
    ensures
        redacted(before + assigned(name, w1, separator, w2, value) + after) == clip(
            before + secret_keys()[i] + "=<redacted>"@ + after,
            1000,
        ),
{
    let s = before + assigned(name, w1, separator, w2, value) + after;
    let t = before + secret_keys()[i] + "=<redacted>"@ + after;
    lemma_secret_key(i);
    lemma_scrub_one(before, name, w1, separator, w2, value, after, secret_keys()[i]);
    lemma_one_key(s, t, i, 12);
}

} // verus!
