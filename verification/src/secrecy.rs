//! What a redacted detail tells of a secret: nothing. Two details that differ
//! only in the value of a secret key are written alike.

use crate::redact;
use crate::text;
use vstd::prelude::*;

verus! {

/// A value that is written in one piece: it is not empty, and no white space,
/// no control character and no secret key occurs in it.
pub open spec fn plain_value(v: Seq<char>) -> bool {
    &&& v.len() > 0
    &&& forall|j: int|
        0 <= j < v.len() ==> !text::is_white(#[trigger] v[j]) && !redact::control(v[j])
    &&& forall|i: int|
        0 <= i < redact::SECRET_KEYS ==> !text::contains(
            text::lower(v),
            #[trigger] redact::secret_keys()[i],
        )
}

/// One or more digits.
pub open spec fn digits(s: Seq<char>) -> bool {
    s.len() > 0 && forall|j: int| 0 <= j < s.len() ==> '0' <= #[trigger] s[j] && s[j] <= '9'
}

/// `h` ends in an assignment to the key `k`, whose name starts at `m` and whose
/// separator comes last.
spec fn heads(h: Seq<char>, m: int, k: Seq<char>) -> bool {
    &&& redact::key_shape(k)
    &&& 0 <= m
    &&& m + k.len() + 1 == h.len()
    &&& text::matches_at(text::lower(h), k, m)
    &&& redact::boundary(h, m)
    &&& h[h.len() - 1] == '=' || h[h.len() - 1] == ':'
}

/// A value in which no white space and no `key` occurs.
spec fn unbroken(v: Seq<char>, key: Seq<char>) -> bool {
    &&& v.len() > 0
    &&& forall|j: int| 0 <= j < v.len() ==> !text::is_white(#[trigger] v[j])
    &&& !text::contains(text::lower(v), key)
}

/// Nothing, or something that starts with white space.
spec fn set_off(w: Seq<char>) -> bool {
    w.len() == 0 || text::is_white(w[0])
}

proof fn lemma_whole(h: Seq<char>, v: Seq<char>, w: Seq<char>)
    ensures
        (h + v + w).len() == h.len() + v.len() + w.len(),
        forall|j: int| 0 <= j < h.len() ==> #[trigger] (h + v + w)[j] == h[j],
        forall|j: int|
            h.len() <= j < h.len() + v.len() ==> #[trigger] (h + v + w)[j] == v[j - h.len()],
        forall|j: int|
            h.len() + v.len() <= j < (h + v + w).len() ==> #[trigger] (h + v + w)[j] == w[j
                - h.len() - v.len()],
{
}

/// The name consists of letters, digits and hyphens, with no hyphen first.
proof fn lemma_name_chars(h: Seq<char>, m: int, k: Seq<char>, j: int)
    requires
        heads(h, m, k),
        m <= j < h.len() - 1,
    ensures
        h[j] == '-' || text::is_ascii_alnum(h[j]),
        j == m ==> text::is_ascii_alnum(h[j]) && text::lower_char(h[j]) == k[0],
{
    redact::lemma_match_char(h, k, m, j - m);
}

/// A key stands before the separator, or behind the value.
proof fn lemma_match_place(
    h: Seq<char>,
    m: int,
    k: Seq<char>,
    v: Seq<char>,
    w: Seq<char>,
    key: Seq<char>,
    start: int,
)
    requires
        heads(h, m, k),
        redact::key_shape(key),
        unbroken(v, key),
        set_off(w),
        text::matches_at(text::lower(h + v + w), key, start),
    ensures
        start + key.len() <= h.len() - 1 || h.len() + v.len() < start,
{
    let s = h + v + w;
    let d = h.len() as int;
    let e = d + v.len();
    lemma_whole(h, v, w);
    if start <= d - 1 < start + key.len() {
        redact::lemma_match_char(s, key, start, d - 1 - start);
        assert(s[d - 1] == h[d - 1]);
    }
    if d <= start <= e < start + key.len() {
        redact::lemma_match_char(s, key, start, e - start);
        assert(s[e] == w[0]);
    }
    if d <= start && start + key.len() <= e {
        assert forall|i: int| 0 <= i < key.len() implies text::lower_char(
            #[trigger] v[start - d + i],
        ) == key[i] by {
            redact::lemma_match_char(s, key, start, i);
            assert(s[start + i] == v[start - d + i]);
        }
        redact::lemma_match_from_chars(v, key, start - d);
        assert(text::contains(text::lower(v), key));
    }
}

/// A key that ends before the value stands in the other text, too.
proof fn lemma_match_before(
    h: Seq<char>,
    x: Seq<char>,
    y: Seq<char>,
    key: Seq<char>,
    start: int,
)
    requires
        redact::key_shape(key),
        text::matches_at(text::lower(h + x), key, start),
        start + key.len() <= h.len(),
    ensures
        text::matches_at(text::lower(h + y), key, start),
{
    let s = h + x;
    let t = h + y;
    assert forall|i: int| 0 <= i < key.len() implies text::lower_char(#[trigger] t[start + i])
        == key[i] by {
        redact::lemma_match_char(s, key, start, i);
        assert(t[start + i] == s[start + i]);
    }
    redact::lemma_match_from_chars(t, key, start);
}

/// A key behind the value stands in the other text, too, behind its value.
proof fn lemma_match_behind(
    s: Seq<char>,
    t: Seq<char>,
    x: int,
    y: int,
    key: Seq<char>,
    start: int,
)
    requires
        redact::key_shape(key),
        0 <= x <= s.len(),
        0 <= y <= t.len(),
        s.skip(x) == t.skip(y),
        x <= start,
        text::matches_at(text::lower(s), key, start),
    ensures
        text::matches_at(text::lower(t), key, start - x + y),
{
    let q = start - x + y;
    assert(s.skip(x).len() == s.len() - x && t.skip(y).len() == t.len() - y);
    redact::lemma_match_char(s, key, start, key.len() - 1);
    assert forall|i: int| 0 <= i < key.len() implies text::lower_char(#[trigger] t[q + i])
        == key[i] by {
        redact::lemma_match_char(s, key, start, i);
        assert(t[q + i] == t.skip(y)[q + i - y]);
        assert(s[start + i] == s.skip(x)[start + i - x]);
    }
    redact::lemma_match_from_chars(t, key, q);
}

/// Two texts that agree from `x` and `y` on have what is searched for at the
/// same distance.
proof fn lemma_where_shift(
    s: Seq<char>,
    t: Seq<char>,
    p: spec_fn(char) -> bool,
    x: int,
    y: int,
)
    requires
        0 <= x <= s.len(),
        0 <= y <= t.len(),
        s.skip(x) == t.skip(y),
    ensures
        text::first_where(s, p, x) - x == text::first_where(t, p, y) - y,
        x <= text::first_where(s, p, x) <= s.len(),
{
    text::lemma_first_where(s, p, x);
    let i = text::first_where(s, p, x);
    assert(s.skip(x).len() == s.len() - x && t.skip(y).len() == t.len() - y);
    let j = i - x + y;
    assert forall|k: int| y <= k < j implies !p(#[trigger] t[k]) by {
        assert(t[k] == t.skip(y)[k - y]);
        assert(s[k - y + x] == s.skip(x)[k - y]);
    }
    if j < t.len() {
        assert(t[j] == t.skip(y)[j - y]);
        assert(s[i] == s.skip(x)[i - x]);
    }
    text::lemma_first_where_is(t, p, y, j);
}

proof fn lemma_skip_on(s: Seq<char>, t: Seq<char>, x: int, y: int, n: int)
    requires
        0 <= x <= s.len(),
        0 <= y <= t.len(),
        s.skip(x) == t.skip(y),
        0 <= n <= s.len() - x,
    ensures
        s.skip(x + n) == t.skip(y + n),
        s.subrange(x, x + n) == t.subrange(y, y + n),
{
    assert(s.skip(x).len() == s.len() - x && t.skip(y).len() == t.len() - y);
    assert(s.skip(x + n) =~= s.skip(x).skip(n));
    assert(t.skip(y + n) =~= t.skip(y).skip(n));
    assert(s.subrange(x, x + n) =~= s.skip(x).take(n));
    assert(t.subrange(y, y + n) =~= t.skip(y).take(n));
}

/// What follows the two values is scrubbed alike.
proof fn lemma_scrub_behind(s: Seq<char>, t: Seq<char>, x: int, y: int, key: Seq<char>, n: int)
    requires
        redact::key_shape(key),
        0 <= x <= s.len(),
        0 <= y <= t.len(),
        s.skip(x) == t.skip(y),
        set_off(s.skip(x)),
        0 <= n <= s.len() - x,
    ensures
        redact::scrub_from(s, key, x + n) == redact::scrub_from(t, key, y + n),
    decreases s.len() - x - n,
{
    let from = x + n;
    let with = y + n;
    assert(s.skip(x).len() == s.len() - x && t.skip(y).len() == t.len() - y);
    lemma_skip_on(s, t, x, y, n);
    text::lemma_find(text::lower(s), key, from);
    text::lemma_find(text::lower(t), key, with);
    match text::find(text::lower(s), key, from) {
        None => {
            if let Some(q) = text::find(text::lower(t), key, with) {
                lemma_match_behind(t, s, y, x, key, q);
            }
        },
        Some(start) => {
            let q = start - x + y;
            lemma_match_behind(s, t, x, y, key, start);
            assert forall|j: int| with <= j < q implies !text::matches_at(
                text::lower(t),
                key,
                j,
            ) by {
                if text::matches_at(text::lower(t), key, j) {
                    lemma_match_behind(t, s, y, x, key, j);
                }
            }
            text::lemma_find_is(text::lower(t), key, with, q);
            redact::lemma_match_char(s, key, start, 0);
            redact::lemma_match_char(s, key, start, key.len() - 1);
            assert(s[start] == s.skip(x)[start - x]);
            assert(start > x);
            assert(s[start - 1] == s.skip(x)[start - 1 - x]);
            assert(t[q - 1] == t.skip(y)[q - 1 - y]);
            assert(redact::boundary(s, start) == redact::boundary(t, q));
            let after = start + key.len();
            let stop = text::non(redact::ascii_white());
            lemma_skip_on(s, t, x, y, after - x);
            lemma_where_shift(s, t, stop, after, q + key.len());
            let at = redact::separator(s, after);
            lemma_skip_on(s, t, from, with, start - from);
            lemma_skip_on(s, t, from, with, after - from);
            lemma_skip_on(s, t, from, with, at - from);
            if at < s.len() {
                assert(s[at] == s.skip(x)[at - x]);
                assert(t[at - x + y] == t.skip(y)[at - x]);
            }
            if !redact::boundary(s, start) {
                lemma_scrub_behind(s, t, x, y, key, after - x);
            } else if redact::is_separator(s, at) {
                lemma_skip_on(s, t, x, y, at + 1 - x);
                lemma_where_shift(s, t, stop, at + 1, at + 1 - x + y);
                let value = text::first_not(s, redact::ascii_white(), at + 1);
                lemma_skip_on(s, t, x, y, value - x);
                lemma_where_shift(s, t, text::white(), value, value - x + y);
                lemma_scrub_behind(s, t, x, y, key, redact::value_end(s, at) - x);
            } else {
                lemma_scrub_behind(s, t, x, y, key, at - x);
            }
        },
    }
}

/// Where no key starts before `m`, the text up to there is kept as it is.
proof fn lemma_scrub_split(s: Seq<char>, key: Seq<char>, from: int, m: int)
    requires
        redact::key_shape(key),
        0 <= from <= m <= s.len(),
        forall|j: int| from <= j < m ==> !text::matches_at(text::lower(s), key, j),
    ensures
        redact::scrub_from(s, key, from) == s.subrange(from, m) + redact::scrub_from(s, key, m),
{
    text::lemma_find(text::lower(s), key, from);
    text::lemma_find(text::lower(s), key, m);
    let kept = s.subrange(from, m);
    match text::find(text::lower(s), key, m) {
        None => {
            assert(text::find(text::lower(s), key, from) is None);
            assert(s.skip(from) =~= kept + s.skip(m));
        },
        Some(start) => {
            assert(text::find(text::lower(s), key, from) == Some(start));
            let after = start + key.len();
            let at = redact::separator(s, after);
            text::lemma_first_where(s, text::non(redact::ascii_white()), after);
            assert(s.subrange(from, start) =~= kept + s.subrange(m, start));
            assert(s.subrange(from, after) =~= kept + s.subrange(m, after));
            assert(s.subrange(from, at) =~= kept + s.subrange(m, at));
            assert(redact::scrub_from(s, key, from) =~= kept + redact::scrub_from(s, key, m));
        },
    }
}

/// What is set off stays so.
proof fn lemma_stays_set_off(s: Seq<char>, e: int, key: Seq<char>)
    requires
        redact::key_shape(key),
        0 <= e <= s.len(),
        set_off(s.skip(e)),
    ensures
        set_off(redact::scrub_from(s, key, e)),
{
    if e < s.len() {
        assert(s.skip(e)[0] == s[e]);
        assert(!text::matches_at(text::lower(s), key, e)) by {
            if text::matches_at(text::lower(s), key, e) {
                redact::lemma_match_char(s, key, e, 0);
            }
        }
        lemma_scrub_split(s, key, e, e + 1);
        let rest = redact::scrub_from(s, key, e + 1);
        assert((s.subrange(e, e + 1) + rest)[0] == s[e]);
    } else {
        text::lemma_find(text::lower(s), key, e);
        assert(redact::scrub_from(s, key, e) == s.skip(e));
    }
}

/// Behind the two values the two texts agree.
proof fn lemma_rest(h: Seq<char>, v: Seq<char>, u: Seq<char>, w: Seq<char>, key: Seq<char>)
    requires
        redact::key_shape(key),
        set_off(w),
    ensures
        redact::scrub_from(h + v + w, key, (h.len() + v.len()) as int) == redact::scrub_from(
            h + u + w,
            key,
            (h.len() + u.len()) as int,
        ),
        set_off(redact::scrub_from(h + v + w, key, (h.len() + v.len()) as int)),
{
    let s = h + v + w;
    let t = h + u + w;
    let e = (h.len() + v.len()) as int;
    let f = (h.len() + u.len()) as int;
    assert(s.skip(e) =~= w);
    assert(t.skip(f) =~= w);
    lemma_scrub_behind(s, t, e, f, key, 0);
    lemma_stays_set_off(s, e, key);
}

/// Where no key starts before the separator, all is kept up to the end of the
/// value.
proof fn lemma_scrub_clear(
    h: Seq<char>,
    m: int,
    k: Seq<char>,
    v: Seq<char>,
    w: Seq<char>,
    key: Seq<char>,
    from: int,
)
    requires
        heads(h, m, k),
        redact::key_shape(key),
        unbroken(v, key),
        set_off(w),
        0 <= from <= h.len() - 1,
        forall|j: int|
            from <= j < h.len() - 1 ==> !text::matches_at(text::lower(h + v + w), key, j),
    ensures
        redact::scrub_from(h + v + w, key, from) == h.skip(from) + v + redact::scrub_from(
            h + v + w,
            key,
            (h.len() + v.len()) as int,
        ),
{
    let s = h + v + w;
    let e = (h.len() + v.len()) as int;
    assert forall|j: int| from <= j < e implies !text::matches_at(text::lower(s), key, j) by {
        if text::matches_at(text::lower(s), key, j) {
            lemma_match_place(h, m, k, v, w, key, j);
        }
    }
    lemma_scrub_split(s, key, from, e);
    assert(s.subrange(from, e) =~= h.skip(from) + v);
}

/// A key that is found before the separator is found there in both texts.
proof fn lemma_found_before(
    h: Seq<char>,
    m: int,
    k: Seq<char>,
    v: Seq<char>,
    u: Seq<char>,
    w: Seq<char>,
    key: Seq<char>,
    from: int,
    start: int,
)
    requires
        heads(h, m, k),
        redact::key_shape(key),
        unbroken(v, key),
        unbroken(u, key),
        set_off(w),
        0 <= from,
        text::find(text::lower(h + v + w), key, from) == Some(start),
        start < h.len() - 1,
    ensures
        from <= start,
        start + key.len() <= h.len() - 1,
        text::find(text::lower(h + u + w), key, from) == Some(start),
{
    let s = h + v + w;
    let t = h + u + w;
    assert(s =~= h + (v + w));
    assert(t =~= h + (u + w));
    text::lemma_find(text::lower(s), key, from);
    lemma_match_place(h, m, k, v, w, key, start);
    lemma_match_before(h, v + w, u + w, key, start);
    assert forall|j: int| from <= j < start implies !text::matches_at(text::lower(t), key, j) by {
        if text::matches_at(text::lower(t), key, j) {
            lemma_match_place(h, m, k, u, w, key, j);
            lemma_match_before(h, u + w, v + w, key, j);
        }
    }
    text::lemma_find_is(text::lower(t), key, from, start);
}

/// Where no key starts before a position in one text, none does in the other.
proof fn lemma_none_before(
    h: Seq<char>,
    m: int,
    k: Seq<char>,
    v: Seq<char>,
    u: Seq<char>,
    w: Seq<char>,
    key: Seq<char>,
    from: int,
    to: int,
)
    requires
        heads(h, m, k),
        redact::key_shape(key),
        unbroken(u, key),
        set_off(w),
        0 <= from <= to <= h.len() - 1,
        forall|j: int| from <= j < to ==> !text::matches_at(text::lower(h + v + w), key, j),
    ensures
        forall|j: int| from <= j < to ==> !text::matches_at(text::lower(h + u + w), key, j),
{
    let s = h + v + w;
    let t = h + u + w;
    assert(s =~= h + (v + w));
    assert(t =~= h + (u + w));
    assert forall|j: int| from <= j < to implies !text::matches_at(text::lower(t), key, j) by {
        if text::matches_at(text::lower(t), key, j) {
            lemma_match_place(h, m, k, u, w, key, j);
            lemma_match_before(h, u + w, v + w, key, j);
        }
    }
}

/// The value of the assignment ends where it does.
proof fn lemma_value_end(h: Seq<char>, v: Seq<char>, w: Seq<char>, key: Seq<char>, value: int)
    requires
        unbroken(v, key),
        set_off(w),
        0 <= value <= h.len(),
        forall|j: int| value <= j < h.len() ==> !text::is_white(#[trigger] h[j]),
    ensures
        text::first_where(h + v + w, text::white(), value) == h.len() + v.len(),
{
    lemma_whole(h, v, w);
    let s = h + v + w;
    let e = (h.len() + v.len()) as int;
    assert forall|j: int| value <= j < e implies !text::white()(#[trigger] s[j]) by {
        if j < h.len() {
            assert(s[j] == h[j]);
        } else {
            assert(s[j] == v[j - h.len()]);
        }
    }
    if e < s.len() {
        assert(s[e] == w[0]);
    }
    text::lemma_first_where_is(s, text::white(), value, e);
}

/// One pass over the name: the value is masked, or it is kept where it is.
proof fn lemma_scrub_name(
    h: Seq<char>,
    m: int,
    k: Seq<char>,
    v: Seq<char>,
    u: Seq<char>,
    w: Seq<char>,
    key: Seq<char>,
    from: int,
)
    requires
        heads(h, m, k),
        redact::key_shape(key),
        unbroken(v, key),
        unbroken(u, key),
        set_off(w),
        m <= from <= h.len() - 1,
    ensures
        ({
            let s = h + v + w;
            let t = h + u + w;
            let x = redact::scrub_from(s, key, from);
            let y = redact::scrub_from(t, key, from);
            &&& key == k && from == m ==> x == y
            &&& x == y || {
                &&& x == h.skip(from) + v + redact::scrub_from(s, key, (h.len() + v.len()) as int)
                &&& y == h.skip(from) + u + redact::scrub_from(t, key, (h.len() + u.len()) as int)
            }
        }),
    decreases h.len() - from,
{
    let s = h + v + w;
    let t = h + u + w;
    let d = h.len() as int;
    lemma_whole(h, v, w);
    lemma_whole(h, u, w);
    lemma_rest(h, v, u, w, key);
    text::lemma_find(text::lower(s), key, from);
    if key == k && from == m {
        assert(s =~= h + (v + w));
        assert(h =~= h + Seq::<char>::empty());
        lemma_match_before(h, Seq::empty(), v + w, key, m);
    }
    let found = text::find(text::lower(s), key, from);
    if found matches Some(start) && start < d - 1 {
        let start = found->Some_0;
        lemma_found_before(h, m, k, v, u, w, key, from, start);
        let after = start + key.len();
        let stop = text::non(redact::ascii_white());
        assert(s.subrange(from, start) =~= t.subrange(from, start));
        assert(s.subrange(from, after) =~= t.subrange(from, after));
        assert(redact::boundary(s, start) == redact::boundary(t, start));
        if after < d - 1 {
            lemma_name_chars(h, m, k, after);
            assert(s[after] == h[after] && t[after] == h[after]);
        } else {
            assert(s[after] == h[d - 1] && t[after] == h[d - 1]);
        }
        text::lemma_first_where_is(s, stop, after, after);
        text::lemma_first_where_is(t, stop, after, after);
        if after == d - 1 && redact::boundary(s, start) {
            assert(s[d] == v[0] && t[d] == u[0]);
            text::lemma_first_where_is(s, stop, d, d);
            text::lemma_first_where_is(t, stop, d, d);
            lemma_value_end(h, v, w, key, d);
            lemma_value_end(h, u, w, key, d);
        } else {
            lemma_scrub_name(h, m, k, v, u, w, key, after);
            let kept = s.subrange(from, after);
            assert(kept + h.skip(after) =~= h.skip(from));
            let x = redact::scrub_from(s, key, from);
            let y = redact::scrub_from(t, key, from);
            if x != y {
                assert(x =~= h.skip(from) + v + redact::scrub_from(s, key, d + v.len()));
                assert(y =~= h.skip(from) + u + redact::scrub_from(t, key, d + u.len()));
            }
        }
    } else {
        assert(forall|j: int|
            from <= j < d - 1 ==> !text::matches_at(text::lower(s), key, j));
        lemma_none_before(h, m, k, v, u, w, key, from, d - 1);
        lemma_scrub_clear(h, m, k, v, w, key, from);
        lemma_scrub_clear(h, m, k, u, w, key, from);
    }
}

/// What is left of the text up to the name, `x`, joins it as before.
spec fn reaches(x: Seq<char>, h: Seq<char>, m: int, from: int) -> bool {
    if from == m {
        x.len() == 0
    } else {
        x.len() > 0 && x[x.len() - 1] == h[m - 1]
    }
}

/// The two texts, scrubbed for `key` from `from` on, differ in the value alone.
spec fn still_twins(
    x: Seq<char>,
    h: Seq<char>,
    m: int,
    v: Seq<char>,
    u: Seq<char>,
    w: Seq<char>,
    key: Seq<char>,
    from: int,
) -> bool {
    let s = h + v + w;
    let t = h + u + w;
    let rest = redact::scrub_from(s, key, (h.len() + v.len()) as int);
    &&& reaches(x, h, m, from)
    &&& redact::scrub_from(s, key, from) == x + h.skip(m) + v + rest
    &&& redact::scrub_from(t, key, from) == x + h.skip(m) + u + rest
}

/// A key that starts before the name ends there at the latest.
proof fn lemma_match_up_to_name(
    h: Seq<char>,
    m: int,
    k: Seq<char>,
    key: Seq<char>,
    s: Seq<char>,
    start: int,
)
    requires
        heads(h, m, k),
        redact::key_shape(key),
        redact::apart(key, k),
        h.len() <= s.len(),
        h == s.take(h.len() as int),
        text::matches_at(text::lower(s), key, start),
        start < m,
    ensures
        start + key.len() <= m,
{
    if start + key.len() > m {
        let j = m - start;
        redact::lemma_match_char(s, key, start, j - 1);
        redact::lemma_match_char(s, key, start, j);
        lemma_name_chars(h, m, k, m);
        assert(h[m - 1] == s[m - 1] && h[m] == s[m]);
        assert(key[j - 1] == '-');
        assert(key[j] == k[0]);
    }
}

/// Up to the name, what is searched for stands at the same place in both texts.
proof fn lemma_where_before(
    h: Seq<char>,
    x: Seq<char>,
    y: Seq<char>,
    p: spec_fn(char) -> bool,
    from: int,
    m: int,
)
    requires
        0 <= from <= m < h.len(),
        p(h[m]),
    ensures
        from <= text::first_where(h + x, p, from) <= m,
        text::first_where(h + x, p, from) == text::first_where(h + y, p, from),
{
    let s = h + x;
    let t = h + y;
    text::lemma_first_where(s, p, from);
    let i = text::first_where(s, p, from);
    assert(s[m] == h[m]);
    if i > m {
        assert(!p(s[m]));
    }
    assert forall|j: int| from <= j < i implies !p(#[trigger] t[j]) by {
        assert(t[j] == s[j]);
    }
    assert(t[i] == s[i]);
    text::lemma_first_where_is(t, p, from, i);
}

/// Where the value of an assignment before the name ends: before the name, at
/// the same place in both texts, or behind the values.
proof fn lemma_value_before(
    h: Seq<char>,
    m: int,
    k: Seq<char>,
    v: Seq<char>,
    u: Seq<char>,
    w: Seq<char>,
    key: Seq<char>,
    at: int,
)
    requires
        heads(h, m, k),
        unbroken(v, key),
        unbroken(u, key),
        set_off(w),
        0 <= at < m,
    ensures
        ({
            let end = redact::value_end(h + v + w, at);
            let other = redact::value_end(h + u + w, at);
            ||| at < end < m && other == end
            ||| end == h.len() + v.len() && other == h.len() + u.len()
        }),
{
    let s = h + v + w;
    let t = h + u + w;
    let stop = text::non(redact::ascii_white());
    assert(s =~= h + (v + w));
    assert(t =~= h + (u + w));
    lemma_name_chars(h, m, k, m);
    lemma_where_before(h, v + w, u + w, stop, at + 1, m);
    let value = text::first_not(s, redact::ascii_white(), at + 1);
    let end = redact::value_end(s, at);
    text::lemma_first_where(s, text::white(), value);
    if end < m {
        assert(forall|j: int| value <= j <= end ==> t[j] == s[j]);
        text::lemma_first_where_is(t, text::white(), value, end);
    } else {
        assert forall|j: int| value <= j < h.len() implies !text::is_white(#[trigger] h[j]) by {
            if j < m {
                assert(!text::white()(s[j]));
                assert(s[j] == h[j]);
            } else if j < h.len() - 1 {
                lemma_name_chars(h, m, k, j);
            }
        }
        lemma_value_end(h, v, w, key, value);
        lemma_value_end(h, u, w, key, value);
    }
}

/// The step over a key before the name: what is written, and where the pass
/// goes on, in both texts.
proof fn lemma_step_before(
    h: Seq<char>,
    m: int,
    k: Seq<char>,
    v: Seq<char>,
    u: Seq<char>,
    w: Seq<char>,
    key: Seq<char>,
    from: int,
    start: int,
) -> (step: (Seq<char>, Option<int>))
    requires
        heads(h, m, k),
        redact::key_shape(key),
        redact::apart(key, k),
        unbroken(v, key),
        unbroken(u, key),
        set_off(w),
        0 <= from <= start < m,
        text::find(text::lower(h + v + w), key, from) == Some(start),
    ensures
        ({
            let s = h + v + w;
            let t = h + u + w;
            let (next, other) = match step.1 {
                Some(next) => (next, next),
                None => ((h.len() + v.len()) as int, (h.len() + u.len()) as int),
            };
            &&& redact::scrub_from(s, key, from) == step.0 + redact::scrub_from(s, key, next)
            &&& redact::scrub_from(t, key, from) == step.0 + redact::scrub_from(t, key, other)
            &&& step.1 matches Some(next) ==> {
                &&& from < next <= m
                &&& next == m ==> step.0.len() > 0 && step.0[step.0.len() - 1] == h[m - 1]
            }
        }),
{
    let s = h + v + w;
    let t = h + u + w;
    let d = h.len() as int;
    let stop = text::non(redact::ascii_white());
    lemma_found_before(h, m, k, v, u, w, key, from, start);
    text::lemma_find(text::lower(s), key, from);
    assert(s =~= h + (v + w));
    assert(t =~= h + (u + w));
    assert(s.take(d) =~= h);
    assert(t.take(d) =~= h);
    lemma_match_up_to_name(h, m, k, key, s, start);
    lemma_name_chars(h, m, k, m);
    let after = start + key.len();
    lemma_where_before(h, v + w, u + w, stop, after, m);
    let at = redact::separator(s, after);
    assert(redact::boundary(s, start) == redact::boundary(t, start));
    assert(s[at] == t[at]);
    assert(s[m] == h[m]);
    if redact::boundary(s, start) && redact::is_separator(s, at) {
        let done = s.subrange(from, start) + key + redact::mask();
        assert(s.subrange(from, start) =~= t.subrange(from, start));
        lemma_value_before(h, m, k, v, u, w, key, at);
        let end = redact::value_end(s, at);
        if end < m {
            (done, Some(end))
        } else {
            (done, None)
        }
    } else {
        let next = if redact::boundary(s, start) {
            at
        } else {
            after
        };
        let done = s.subrange(from, next);
        assert(done =~= t.subrange(from, next));
        assert(done[done.len() - 1] == h[next - 1]);
        (done, Some(next))
    }
}

/// Twins behind what is already written.
proof fn lemma_twins_join(
    done: Seq<char>,
    x: Seq<char>,
    h: Seq<char>,
    m: int,
    v: Seq<char>,
    u: Seq<char>,
    w: Seq<char>,
    key: Seq<char>,
    from: int,
    next: int,
)
    requires
        from < next <= m,
        still_twins(x, h, m, v, u, w, key, next),
        redact::scrub_from(h + v + w, key, from) == done + redact::scrub_from(h + v + w, key, next),
        redact::scrub_from(h + u + w, key, from) == done + redact::scrub_from(h + u + w, key, next),
        next == m ==> done.len() > 0 && done[done.len() - 1] == h[m - 1],
    ensures
        still_twins(done + x, h, m, v, u, w, key, from),
{
    let rest = redact::scrub_from(h + v + w, key, (h.len() + v.len()) as int);
    let all = done + x;
    assert(all + h.skip(m) + v + rest =~= done + (x + h.skip(m) + v + rest));
    assert(all + h.skip(m) + u + rest =~= done + (x + h.skip(m) + u + rest));
}

/// One pass over the text before the name, and over the name.
proof fn lemma_scrub_twins(
    h: Seq<char>,
    m: int,
    k: Seq<char>,
    v: Seq<char>,
    u: Seq<char>,
    w: Seq<char>,
    key: Seq<char>,
    from: int,
) -> (left: Option<Seq<char>>)
    requires
        heads(h, m, k),
        redact::key_shape(key),
        redact::apart(key, k),
        unbroken(v, key),
        unbroken(u, key),
        set_off(w),
        0 <= from <= m,
    ensures
        key == k ==> left is None,
        left is None ==> redact::scrub_from(h + v + w, key, from) == redact::scrub_from(
            h + u + w,
            key,
            from,
        ),
        left matches Some(x) ==> still_twins(x, h, m, v, u, w, key, from),
    decreases m - from,
{
    let s = h + v + w;
    let t = h + u + w;
    lemma_rest(h, v, u, w, key);
    text::lemma_find(text::lower(s), key, from);
    let found = text::find(text::lower(s), key, from);
    if found matches Some(start) && start < m {
        let start = found->Some_0;
        let (done, goes_on) = lemma_step_before(h, m, k, v, u, w, key, from, start);
        match goes_on {
            None => None,
            Some(next) => {
                let left = lemma_scrub_twins(h, m, k, v, u, w, key, next);
                match left {
                    None => None,
                    Some(x) => {
                        lemma_twins_join(done, x, h, m, v, u, w, key, from, next);
                        Some(done + x)
                    },
                }
            },
        }
    } else {
        assert(forall|j: int| from <= j < m ==> !text::matches_at(text::lower(s), key, j));
        lemma_none_before(h, m, k, v, u, w, key, from, m);
        lemma_scrub_split(s, key, from, m);
        lemma_scrub_split(t, key, from, m);
        lemma_scrub_name(h, m, k, v, u, w, key, m);
        let x = s.subrange(from, m);
        assert(x =~= t.subrange(from, m));
        if redact::scrub_from(s, key, m) == redact::scrub_from(t, key, m) {
            None
        } else {
            let rest = redact::scrub_from(s, key, (h.len() + v.len()) as int);
            assert(x + h.skip(m) + v + rest =~= x + (h.skip(m) + v + rest));
            assert(x + h.skip(m) + u + rest =~= x + (h.skip(m) + u + rest));
            if from < m {
                assert(x[x.len() - 1] == h[m - 1]);
            }
            Some(x)
        }
    }
}

/// What stands before the value after a pass, with the name where it was.
proof fn lemma_heads_on(x: Seq<char>, h: Seq<char>, m: int, k: Seq<char>)
    requires
        heads(h, m, k),
        reaches(x, h, m, 0),
    ensures
        heads(x + h.skip(m), x.len() as int, k),
{
    let g = x + h.skip(m);
    let n = x.len() as int;
    assert(g.len() == n + k.len() + 1);
    assert forall|i: int| 0 <= i < k.len() implies text::lower_char(#[trigger] g[n + i])
        == k[i] by {
        redact::lemma_match_char(h, k, m, i);
        assert(g[n + i] == h[m + i]);
    }
    redact::lemma_match_from_chars(g, k, n);
    assert(g[g.len() - 1] == h[h.len() - 1]);
    if n > 0 {
        assert(g[n - 1] == x[n - 1]);
    }
}

/// The passes for the first `n` keys: the two texts become the same, or they
/// still differ in the value alone.
proof fn lemma_keys_twins(
    h: Seq<char>,
    m: int,
    i: int,
    v: Seq<char>,
    u: Seq<char>,
    w: Seq<char>,
    n: int,
) -> (left: Option<(Seq<char>, int, Seq<char>)>)
    requires
        0 <= i < redact::SECRET_KEYS,
        0 <= n <= i + 1,
        heads(h, m, redact::secret_keys()[i]),
        plain_value(v),
        plain_value(u),
        set_off(w),
    ensures
        n == i + 1 ==> left is None,
        left is None ==> redact::scrub_keys(h + v + w, n) == redact::scrub_keys(h + u + w, n),
        left matches Some((g, a, r)) ==> {
            &&& heads(g, a, redact::secret_keys()[i])
            &&& set_off(r)
            &&& redact::scrub_keys(h + v + w, n) == g + v + r
            &&& redact::scrub_keys(h + u + w, n) == g + u + r
        },
    decreases n,
{
    if n == 0 {
        Some((h, m, w))
    } else {
        let k = redact::secret_keys()[i];
        let key = redact::secret_keys()[n - 1];
        redact::lemma_secret_key(n - 1);
        redact::lemma_apart(n - 1, i);
        match lemma_keys_twins(h, m, i, v, u, w, n - 1) {
            None => None,
            Some((g, a, r)) => {
                let left = lemma_scrub_twins(g, a, k, v, u, r, key, 0);
                match left {
                    None => None,
                    Some(x) => {
                        lemma_heads_on(x, g, a, k);
                        lemma_rest(g, v, u, r, key);
                        let rest = redact::scrub_from(g + v + r, key, (g.len() + v.len()) as int);
                        Some((x + g.skip(a), x.len() as int, rest))
                    },
                }
            },
        }
    }
}

proof fn lemma_same_on(s: Seq<char>, t: Seq<char>, a: int, n: int)
    requires
        0 <= a <= n,
        redact::scrub_keys(s, a) == redact::scrub_keys(t, a),
    ensures
        redact::scrub_keys(s, n) == redact::scrub_keys(t, n),
    decreases n,
{
    if n > a {
        lemma_same_on(s, t, a, n - 1);
    }
}

/// Flattening leaves name, separator and value as they are.
proof fn lemma_flat_whole(
    before: Seq<char>,
    name: Seq<char>,
    separator: char,
    value: Seq<char>,
    after: Seq<char>,
    k: Seq<char>,
)
    requires
        redact::key_shape(k),
        text::lower(name) == k,
        separator == '=' || separator == ':',
        plain_value(value),
    ensures
        redact::flatten(before + name + seq![separator] + value + after) == redact::flatten(before)
            + name + seq![separator] + value + redact::flatten(after),
{
    assert(name.len() == k.len());
    assert forall|j: int| 0 <= j < name.len() implies redact::flat_char(#[trigger] name[j])
        == name[j] by {
        assert(text::lower(name)[j] == k[j]);
        assert(redact::is_lower_letter(k[j]) || k[j] == '-');
    }
    assert(redact::flatten(before + name + seq![separator] + value + after) =~= redact::flatten(
        before,
    ) + name + seq![separator] + value + redact::flatten(after));
}

/// A redacted detail does not depend on the value of a secret key: with the
/// name of the key in any mix of cases, with no letter or digit before it,
/// with `=` or `:` behind it, and with the end of the detail or white space
/// behind the value, one value is written like any other.
pub proof fn redaction_does_not_depend_on_secrets(
    before: Seq<char>,
    name: Seq<char>,
    separator: char,
    value: Seq<char>,
    other: Seq<char>,
    after: Seq<char>,
    i: int,
)
    requires
        0 <= i < redact::SECRET_KEYS,
        text::lower(name) == redact::secret_keys()[i],
        separator == '=' || separator == ':',
        before.len() > 0 ==> !text::is_ascii_alnum(before[before.len() - 1]),
        after.len() > 0 ==> text::is_white(after[0]) || redact::control(after[0]),
        plain_value(value),
        plain_value(other),
    ensures
        redact::redacted(before + name + seq![separator] + value + after) == redact::redacted(
            before + name + seq![separator] + other + after,
        ),
{
    let k = redact::secret_keys()[i];
    let m = before.len() as int;
    let h = redact::flatten(before) + name + seq![separator];
    let w = redact::flatten(after);
    redact::lemma_secret_key(i);
    assert(name.len() == k.len());
    assert forall|j: int| 0 <= j < k.len() implies text::lower_char(#[trigger] h[m + j]) == k[j] by {
        assert(h[m + j] == name[j]);
        assert(text::lower(name)[j] == k[j]);
    }
    redact::lemma_match_from_chars(h, k, m);
    assert(h[h.len() - 1] == separator);
    if m > 0 {
        assert(h[m - 1] == redact::flat_char(before[m - 1]));
    }
    assert(heads(h, m, k));
    if after.len() > 0 {
        assert(w[0] == redact::flat_char(after[0]));
    }
    lemma_flat_whole(before, name, separator, value, after, k);
    lemma_flat_whole(before, name, separator, other, after, k);
    lemma_keys_twins(h, m, i, value, other, w, i + 1);
    lemma_same_on(h + value + w, h + other + w, i + 1, redact::SECRET_KEYS as int);
}

/// Of a number that is assigned to a secret key, nothing shows.
pub proof fn redaction_does_not_depend_on_numbers(
    p: Seq<char>,
    a: Seq<char>,
    b: Seq<char>,
    q: Seq<char>,
    i: int,
)
    requires
        0 <= i < redact::SECRET_KEYS,
        p.len() > 0 ==> p[p.len() - 1] == ' ',
        digits(a),
        digits(b),
    ensures
        redact::redacted(p + redact::secret_keys()[i] + "="@ + a + " "@ + q) == redact::redacted(
            p + redact::secret_keys()[i] + "="@ + b + " "@ + q,
        ),
{
    let k = redact::secret_keys()[i];
    reveal_strlit("=");
    reveal_strlit(" ");
    redact::lemma_secret_key(i);
    assert(text::lower(k) =~= k);
    assert("="@ =~= seq!['=']);
    lemma_digits_plain(a);
    lemma_digits_plain(b);
    assert((" "@ + q)[0] == ' ');
    redaction_does_not_depend_on_secrets(p, k, '=', a, b, " "@ + q, i);
    assert(p + k + "="@ + a + (" "@ + q) =~= p + k + "="@ + a + " "@ + q);
    assert(p + k + "="@ + b + (" "@ + q) =~= p + k + "="@ + b + " "@ + q);
}

proof fn lemma_digits_plain(s: Seq<char>)
    requires
        digits(s),
    ensures
        plain_value(s),
{
    assert forall|i: int| 0 <= i < redact::SECRET_KEYS implies !text::contains(
        text::lower(s),
        #[trigger] redact::secret_keys()[i],
    ) by {
        let key = redact::secret_keys()[i];
        redact::lemma_secret_key(i);
        if text::contains(text::lower(s), key) {
            let at = choose|at: int| text::matches_at(text::lower(s), key, at);
            redact::lemma_match_char(s, key, at, 0);
        }
    }
}

} // verus!
