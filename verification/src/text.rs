//! Text as sequences of characters: searching, trimming, splitting and
//! rendering, each operation with its meaning on `Seq<char>`.

use vstd::prelude::*;

verus! {

/// `String::push` appends one character and changes nothing else.
pub assume_specification[ String::push ](s: &mut String, c: char)
    ensures
        final(s)@ == old(s)@.push(c),
;

// ---------------------------------------------------------------------------
// Character classes
// ---------------------------------------------------------------------------

/// The characters with the Unicode property `White_Space`.
pub open spec fn is_white(c: char) -> bool {
    let u = c as u32;
    ||| 0x09 <= u <= 0x0d
    ||| u == 0x20
    ||| u == 0x85
    ||| u == 0xa0
    ||| u == 0x1680
    ||| 0x2000 <= u <= 0x200a
    ||| u == 0x2028
    ||| u == 0x2029
    ||| u == 0x202f
    ||| u == 0x205f
    ||| u == 0x3000
}

/// Space, tab, line feed, form feed and carriage return.
pub open spec fn is_ascii_white(c: char) -> bool {
    c == ' ' || c == '\t' || c == '\n' || c == '\u{c}' || c == '\r'
}

pub open spec fn is_ascii_alnum(c: char) -> bool {
    ('0' <= c && c <= '9') || ('A' <= c && c <= 'Z') || ('a' <= c && c <= 'z')
}

/// `A` to `Z` become `a` to `z`; every other character stays.
pub open spec fn lower_char(c: char) -> char {
    if 'A' <= c && c <= 'Z' {
        (c as u32 + 32) as char
    } else {
        c
    }
}

pub fn is_whitespace(c: char) -> (b: bool)
    ensures
        b == is_white(c),
{
    let u: u32 = c as u32;
    (0x09 <= u && u <= 0x0d) || u == 0x20 || u == 0x85 || u == 0xa0 || u == 0x1680 || (0x2000 <= u
        && u <= 0x200a) || u == 0x2028 || u == 0x2029 || u == 0x202f || u == 0x205f || u == 0x3000
}

pub fn is_ascii_whitespace(c: char) -> (b: bool)
    ensures
        b == is_ascii_white(c),
{
    c == ' ' || c == '\t' || c == '\n' || c == '\u{c}' || c == '\r'
}

pub fn is_ascii_alphanumeric(c: char) -> (b: bool)
    ensures
        b == is_ascii_alnum(c),
{
    ('0' <= c && c <= '9') || ('A' <= c && c <= 'Z') || ('a' <= c && c <= 'z')
}

pub fn to_lower_char(c: char) -> (r: char)
    ensures
        r == lower_char(c),
{
    if 'A' <= c && c <= 'Z' {
        let u: u8 = c as u8;
        (u + 32) as char
    } else {
        c
    }
}

// ---------------------------------------------------------------------------
// Conversions
// ---------------------------------------------------------------------------

pub fn chars_of(text: &str) -> (chars: Vec<char>)
    ensures
        chars@ == text@,
{
    let mut chars: Vec<char> = Vec::new();
    for c in it: text.chars()
        invariant
            chars@ == it.seq().take(it.index() as int),
            it.seq() == text@,
    {
        chars.push(c);
    }
    chars
}

pub fn string_of(chars: &Vec<char>) -> (text: String)
    ensures
        text@ == chars@,
{
    string_between(chars, 0, chars.len())
}

/// The characters from `from` up to but excluding `to`.
pub fn string_between(chars: &Vec<char>, from: usize, to: usize) -> (text: String)
    requires
        from <= to <= chars@.len(),
    ensures
        text@ == chars@.subrange(from as int, to as int),
{
    let mut text = String::new();
    let mut i: usize = from;
    while i < to
        invariant
            from <= i <= to <= chars@.len(),
            text@ == chars@.subrange(from as int, i as int),
        decreases to - i,
    {
        text.push(chars[i]);
        i += 1;
        assert(text@ =~= chars@.subrange(from as int, i as int));
    }
    text
}

pub fn chars_between(chars: &Vec<char>, from: usize, to: usize) -> (part: Vec<char>)
    requires
        from <= to <= chars@.len(),
    ensures
        part@ == chars@.subrange(from as int, to as int),
{
    let mut part: Vec<char> = Vec::new();
    let mut i: usize = from;
    while i < to
        invariant
            from <= i <= to <= chars@.len(),
            part@ == chars@.subrange(from as int, i as int),
        decreases to - i,
    {
        part.push(chars[i]);
        i += 1;
        assert(part@ =~= chars@.subrange(from as int, i as int));
    }
    part
}

pub fn push_text(target: &mut String, part: &str)
    ensures
        final(target)@ == old(target)@ + part@,
{
    target.append(part);
}

pub fn join2(a: &str, b: &str) -> (text: String)
    ensures
        text@ == a@ + b@,
{
    let mut text = a.to_string();
    text.append(b);
    text
}

pub fn join3(a: &str, b: &str, c: &str) -> (text: String)
    ensures
        text@ == a@ + b@ + c@,
{
    let mut text = a.to_string();
    text.append(b);
    text.append(c);
    text
}

/// The views of a list of texts.
pub open spec fn texts(list: Seq<String>) -> Seq<Seq<char>> {
    list.map_values(|text: String| text@)
}

pub fn same(a: &str, b: &str) -> (r: bool)
    ensures
        r == (a@ == b@),
{
    let x = chars_of(a);
    let y = chars_of(b);
    same_chars(&x, &y)
}

pub fn same_chars(x: &Vec<char>, y: &Vec<char>) -> (r: bool)
    ensures
        r == (x@ == y@),
{
    if x.len() != y.len() {
        return false;
    }
    let mut i: usize = 0;
    while i < x.len()
        invariant
            0 <= i <= x@.len(),
            x@.len() == y@.len(),
            forall|k: int| 0 <= k < i ==> x@[k] == y@[k],
        decreases x@.len() - i,
    {
        if x[i] != y[i] {
            return false;
        }
        i += 1;
    }
    assert(x@ =~= y@);
    true
}

// ---------------------------------------------------------------------------
// Case
// ---------------------------------------------------------------------------

pub open spec fn lower(s: Seq<char>) -> Seq<char> {
    s.map_values(|c: char| lower_char(c))
}

pub fn lower_chars(s: &Vec<char>) -> (r: Vec<char>)
    ensures
        r@ == lower(s@),
{
    let mut r: Vec<char> = Vec::new();
    let mut i: usize = 0;
    while i < s.len()
        invariant
            0 <= i <= s@.len(),
            r@ == lower(s@).take(i as int),
        decreases s@.len() - i,
    {
        r.push(to_lower_char(s[i]));
        i += 1;
        assert(r@ =~= lower(s@).take(i as int));
    }
    assert(lower(s@).take(i as int) =~= lower(s@));
    r
}

pub fn to_ascii_lowercase(text: &str) -> (r: String)
    ensures
        r@ == lower(text@),
{
    string_of(&lower_chars(&chars_of(text)))
}

pub fn eq_ignore_ascii_case(a: &str, b: &str) -> (r: bool)
    ensures
        r == (lower(a@) == lower(b@)),
{
    same_chars(&lower_chars(&chars_of(a)), &lower_chars(&chars_of(b)))
}

// ---------------------------------------------------------------------------
// Searching
// ---------------------------------------------------------------------------

/// `pattern` stands in `s` at position `i`.
pub open spec fn matches_at(s: Seq<char>, pattern: Seq<char>, i: int) -> bool {
    &&& 0 <= i
    &&& i + pattern.len() <= s.len()
    &&& s.subrange(i, i + pattern.len()) == pattern
}

/// The first position from `from` on at which `pattern` stands.
pub open spec fn find(s: Seq<char>, pattern: Seq<char>, from: int) -> Option<int>
    decreases s.len() + 1 - from,
{
    if from < 0 || from + pattern.len() > s.len() {
        None
    } else if matches_at(s, pattern, from) {
        Some(from)
    } else {
        find(s, pattern, from + 1)
    }
}

pub open spec fn contains(s: Seq<char>, pattern: Seq<char>) -> bool {
    exists|i: int| matches_at(s, pattern, i)
}

/// `find` gives a match, and none stands before it.
pub proof fn lemma_find(s: Seq<char>, pattern: Seq<char>, from: int)
    requires
        0 <= from,
    ensures
        find(s, pattern, from) matches Some(i) ==> {
            &&& from <= i
            &&& matches_at(s, pattern, i)
            &&& forall|k: int| from <= k < i ==> !matches_at(s, pattern, k)
        },
        find(s, pattern, from) is None ==> forall|k: int| from <= k ==> !matches_at(s, pattern, k),
    decreases s.len() + 1 - from,
{
    if from + pattern.len() > s.len() {
    } else if matches_at(s, pattern, from) {
    } else {
        lemma_find(s, pattern, from + 1);
    }
}

/// A match with none before it is what `find` gives.
pub proof fn lemma_find_is(s: Seq<char>, pattern: Seq<char>, from: int, i: int)
    requires
        0 <= from <= i,
        matches_at(s, pattern, i),
        forall|k: int| from <= k < i ==> !matches_at(s, pattern, k),
    ensures
        find(s, pattern, from) == Some(i),
    decreases i - from,
{
    if from < i {
        lemma_find_is(s, pattern, from + 1, i);
    }
}

pub proof fn lemma_contains_is_find(s: Seq<char>, pattern: Seq<char>)
    ensures
        contains(s, pattern) == (find(s, pattern, 0) is Some),
{
    lemma_find(s, pattern, 0);
    if contains(s, pattern) {
        let i = choose|i: int| matches_at(s, pattern, i);
        assert(matches_at(s, pattern, i));
    }
}

pub fn stands_at(s: &Vec<char>, pattern: &Vec<char>, i: usize) -> (r: bool)
    ensures
        r == matches_at(s@, pattern@, i as int),
{
    let n: usize = s.len();
    if pattern.len() > n || i > n - pattern.len() {
        return false;
    }
    let mut k: usize = 0;
    while k < pattern.len()
        invariant
            0 <= k <= pattern@.len(),
            i + pattern@.len() <= s@.len() == n,
            forall|j: int| 0 <= j < k ==> s@[i + j] == pattern@[j],
        decreases pattern@.len() - k,
    {
        if s[i + k] != pattern[k] {
            assert(s@.subrange(i as int, i + pattern@.len())[k as int] != pattern@[k as int]);
            return false;
        }
        k += 1;
    }
    assert(s@.subrange(i as int, i + pattern@.len()) =~= pattern@);
    true
}

pub fn find_chars(s: &Vec<char>, pattern: &Vec<char>, from: usize) -> (r: Option<usize>)
    ensures
        match find(s@, pattern@, from as int) {
            Some(i) => r == Some(i as usize) && 0 <= i <= s@.len(),
            None => r is None,
        },
{
    proof {
        lemma_find(s@, pattern@, from as int);
    }
    if pattern.len() > s.len() {
        return None;
    }
    let last: usize = s.len() - pattern.len();
    let mut i: usize = from;
    while i < last
        invariant
            from <= i,
            last == s@.len() - pattern@.len(),
            find(s@, pattern@, from as int) == find(s@, pattern@, i as int),
        decreases last - i,
    {
        if stands_at(s, pattern, i) {
            return Some(i);
        }
        i += 1;
    }
    if i == last && stands_at(s, pattern, i) {
        Some(i)
    } else {
        assert(find(s@, pattern@, i + 1) is None);
        None
    }
}

pub fn contains_chars(s: &Vec<char>, pattern: &Vec<char>) -> (r: bool)
    ensures
        r == contains(s@, pattern@),
{
    proof {
        lemma_contains_is_find(s@, pattern@);
    }
    find_chars(s, pattern, 0).is_some()
}

pub open spec fn starts_with(s: Seq<char>, prefix: Seq<char>) -> bool {
    matches_at(s, prefix, 0)
}

pub open spec fn ends_with(s: Seq<char>, suffix: Seq<char>) -> bool {
    matches_at(s, suffix, s.len() - suffix.len())
}

pub fn text_starts_with(text: &str, prefix: &str) -> (r: bool)
    ensures
        r == starts_with(text@, prefix@),
{
    stands_at(&chars_of(text), &chars_of(prefix), 0)
}

pub fn text_ends_with(text: &str, suffix: &str) -> (r: bool)
    ensures
        r == ends_with(text@, suffix@),
{
    let s = chars_of(text);
    let p = chars_of(suffix);
    if p.len() > s.len() {
        return false;
    }
    stands_at(&s, &p, s.len() - p.len())
}

/// What follows `prefix`, where the text starts with it.
pub open spec fn after_prefix(s: Seq<char>, prefix: Seq<char>) -> Option<Seq<char>> {
    if starts_with(s, prefix) {
        Some(s.skip(prefix.len() as int))
    } else {
        None
    }
}

pub open spec fn opt_view(o: Option<String>) -> Option<Seq<char>> {
    match o {
        Some(text) => Some(text@),
        None => None,
    }
}

pub fn strip_prefix(text: &str, prefix: &str) -> (r: Option<String>)
    ensures
        opt_view(r) == after_prefix(text@, prefix@),
{
    let s = chars_of(text);
    let p = chars_of(prefix);
    if stands_at(&s, &p, 0) {
        let rest = string_between(&s, p.len(), s.len());
        assert(rest@ =~= text@.skip(prefix@.len() as int));
        Some(rest)
    } else {
        None
    }
}

// ---------------------------------------------------------------------------
// Scanning
// ---------------------------------------------------------------------------

pub open spec fn white() -> spec_fn(char) -> bool {
    |c: char| is_white(c)
}

pub open spec fn non(p: spec_fn(char) -> bool) -> spec_fn(char) -> bool {
    |c: char| !p(c)
}

pub open spec fn only(x: char) -> spec_fn(char) -> bool {
    |c: char| c == x
}

/// The first position from `from` on whose character has the property `p`, or
/// the length where there is none.
pub open spec fn first_where(s: Seq<char>, p: spec_fn(char) -> bool, from: int) -> int
    decreases s.len() - from,
{
    if from >= s.len() {
        s.len() as int
    } else if p(s[from]) {
        from
    } else {
        first_where(s, p, from + 1)
    }
}

/// The first position from `from` on whose character lacks the property `p`.
pub open spec fn first_not(s: Seq<char>, p: spec_fn(char) -> bool, from: int) -> int {
    first_where(s, non(p), from)
}

/// The end of `s` with the characters that have the property `p` dropped, but
/// no further back than `from`.
pub open spec fn end_without(s: Seq<char>, p: spec_fn(char) -> bool, from: int, end: int) -> int
    decreases end - from,
{
    if end > from && p(s[end - 1]) {
        end_without(s, p, from, end - 1)
    } else {
        end
    }
}

/// `s` without the characters at either end that have the property `p`.
pub open spec fn trim_where(s: Seq<char>, p: spec_fn(char) -> bool) -> Seq<char> {
    let from = first_not(s, p, 0);
    s.subrange(from, end_without(s, p, from, s.len() as int))
}

pub open spec fn trim(s: Seq<char>) -> Seq<char> {
    trim_where(s, white())
}

pub proof fn lemma_first_where(s: Seq<char>, p: spec_fn(char) -> bool, from: int)
    requires
        0 <= from <= s.len(),
    ensures
        from <= first_where(s, p, from) <= s.len(),
        forall|k: int| from <= k < first_where(s, p, from) ==> !p(#[trigger] s[k]),
        first_where(s, p, from) < s.len() ==> p(s[first_where(s, p, from)]),
    decreases s.len() - from,
{
    if from < s.len() && !p(s[from]) {
        lemma_first_where(s, p, from + 1);
    }
}

pub proof fn lemma_first_where_is(s: Seq<char>, p: spec_fn(char) -> bool, from: int, i: int)
    requires
        0 <= from <= i <= s.len(),
        forall|k: int| from <= k < i ==> !p(#[trigger] s[k]),
        i < s.len() ==> p(s[i]),
    ensures
        first_where(s, p, from) == i,
    decreases i - from,
{
    if from < i {
        lemma_first_where_is(s, p, from + 1, i);
    }
}

pub proof fn lemma_end_without(s: Seq<char>, p: spec_fn(char) -> bool, from: int, end: int)
    requires
        0 <= from <= end <= s.len(),
    ensures
        from <= end_without(s, p, from, end) <= end,
        forall|k: int| end_without(s, p, from, end) <= k < end ==> p(#[trigger] s[k]),
        end_without(s, p, from, end) > from ==> !p(s[end_without(s, p, from, end) - 1]),
    decreases end - from,
{
    if end > from && p(s[end - 1]) {
        lemma_end_without(s, p, from, end - 1);
    }
}

/// A text with no character of the property at either end is left as it is.
pub proof fn lemma_trim_nothing(s: Seq<char>, p: spec_fn(char) -> bool)
    requires
        s.len() > 0 ==> !p(s[0]) && !p(s[s.len() - 1]),
    ensures
        trim_where(s, p) == s,
{
    if s.len() > 0 {
        lemma_first_where_is(s, non(p), 0, 0);
    }
    assert(trim_where(s, p) =~= s);
}

pub(crate) fn scan<F: Fn(char) -> bool>(
    s: &Vec<char>,
    from: usize,
    test: F,
    Ghost(p): Ghost<spec_fn(char) -> bool>,
) -> (i: usize)
    requires
        from <= s@.len(),
        forall|c: char| call_requires(test, (c,)),
        forall|c: char, b: bool| call_ensures(test, (c,), b) ==> b == p(c),
    ensures
        i == first_where(s@, p, from as int),
        from <= i <= s@.len(),
{
    let mut i: usize = from;
    while i < s.len()
        invariant
            from <= i <= s@.len(),
            first_where(s@, p, from as int) == first_where(s@, p, i as int),
            forall|c: char| call_requires(test, (c,)),
            forall|c: char, b: bool| call_ensures(test, (c,), b) ==> b == p(c),
        decreases s@.len() - i,
    {
        if test(s[i]) {
            return i;
        }
        i += 1;
    }
    i
}

pub fn find_white(s: &Vec<char>, from: usize) -> (i: usize)
    requires
        from <= s@.len(),
    ensures
        i == first_where(s@, white(), from as int),
        from <= i <= s@.len(),
{
    scan(
        s,
        from,
        is_whitespace,
        Ghost(white()),
    )
}

pub fn find_char(s: &Vec<char>, x: char, from: usize) -> (i: usize)
    requires
        from <= s@.len(),
    ensures
        i == first_where(s@, only(x), from as int),
        from <= i <= s@.len(),
{
    let mut i: usize = from;
    while i < s.len() && s[i] != x
        invariant
            from <= i <= s@.len(),
            first_where(s@, only(x), from as int) == first_where(s@, only(x), i as int),
        decreases s@.len() - i,
    {
        i += 1;
    }
    i
}

pub fn trim_chars(s: &Vec<char>) -> (r: Vec<char>)
    ensures
        r@ == trim(s@),
{
    let mut from: usize = 0;
    while from < s.len() && is_whitespace(s[from])
        invariant
            from <= s@.len(),
            first_not(s@, white(), 0) == first_not(s@, white(), from as int),
        decreases s@.len() - from,
    {
        from += 1;
    }
    assert(from as int == first_not(s@, white(), 0));
    let mut end: usize = s.len();
    while end > from && is_whitespace(s[end - 1])
        invariant
            from <= end <= s@.len(),
            end_without(s@, white(), from as int, s@.len() as int) == end_without(
                s@,
                white(),
                from as int,
                end as int,
            ),
        decreases end,
    {
        end -= 1;
    }
    chars_between(s, from, end)
}

pub fn trim_text(text: &str) -> (r: String)
    ensures
        r@ == trim(text@),
{
    string_of(&trim_chars(&chars_of(text)))
}

/// `text` without the characters `x` at either end.
pub fn trim_matches(text: &str, x: char) -> (r: String)
    ensures
        r@ == trim_where(text@, only(x)),
{
    let s = chars_of(text);
    let mut from: usize = 0;
    while from < s.len() && s[from] == x
        invariant
            from <= s@.len(),
            first_not(s@, only(x), 0) == first_not(s@, only(x), from as int),
        decreases s@.len() - from,
    {
        from += 1;
    }
    assert(from as int == first_not(s@, only(x), 0));
    let mut end: usize = s.len();
    while end > from && s[end - 1] == x
        invariant
            from <= end <= s@.len(),
            end_without(s@, only(x), from as int, s@.len() as int) == end_without(
                s@,
                only(x),
                from as int,
                end as int,
            ),
        decreases end,
    {
        end -= 1;
    }
    string_between(&s, from, end)
}

/// Nothing but white space.
pub open spec fn is_blank(s: Seq<char>) -> bool {
    trim(s).len() == 0
}

pub fn blank(text: &str) -> (r: bool)
    ensures
        r == is_blank(text@),
{
    trim_chars(&chars_of(text)).len() == 0
}

/// A text is blank exactly when each of its characters is white space.
pub proof fn lemma_blank_is_all_white(s: Seq<char>)
    ensures
        is_blank(s) == (forall|k: int| 0 <= k < s.len() ==> is_white(#[trigger] s[k])),
{
    let keep = non(white());
    lemma_first_where(s, keep, 0);
    let from = first_not(s, white(), 0);
    lemma_end_without(s, white(), from, s.len() as int);
    assert(from == first_where(s, keep, 0));
    if is_blank(s) {
        assert forall|k: int| 0 <= k < s.len() implies is_white(#[trigger] s[k]) by {
            if k < from {
                assert(!keep(s[k]));
            } else {
                assert(white()(s[k]));
            }
        }
    }
    if forall|k: int| 0 <= k < s.len() ==> is_white(#[trigger] s[k]) {
        if from < s.len() {
            assert(keep(s[from]));
        }
    }
}

// ---------------------------------------------------------------------------
// Replacing and splitting
// ---------------------------------------------------------------------------

/// `s` from `from` on with each occurrence of `pattern`, leftmost first and
/// without overlap, replaced by `with`.
pub open spec fn replace_from(
    s: Seq<char>,
    pattern: Seq<char>,
    with: Seq<char>,
    from: int,
) -> Seq<char>
    decreases s.len() - from,
{
    if from < 0 || from >= s.len() || pattern.len() == 0 {
        Seq::empty()
    } else if matches_at(s, pattern, from) {
        with + replace_from(s, pattern, with, from + pattern.len())
    } else {
        seq![s[from]] + replace_from(s, pattern, with, from + 1)
    }
}

pub open spec fn replace(s: Seq<char>, pattern: Seq<char>, with: Seq<char>) -> Seq<char> {
    replace_from(s, pattern, with, 0)
}

pub fn replace_chars(s: &Vec<char>, pattern: &Vec<char>, with: &Vec<char>) -> (r: Vec<char>)
    requires
        pattern@.len() > 0,
    ensures
        r@ == replace(s@, pattern@, with@),
{
    let mut r: Vec<char> = Vec::new();
    let mut i: usize = 0;
    while i < s.len()
        invariant
            0 <= i <= s@.len(),
            pattern@.len() > 0,
            replace(s@, pattern@, with@) == r@ + replace_from(s@, pattern@, with@, i as int),
        decreases s@.len() - i,
    {
        let ghost before = r@;
        if stands_at(s, pattern, i) {
            let mut k: usize = 0;
            while k < with.len()
                invariant
                    0 <= k <= with@.len(),
                    r@ == before + with@.take(k as int),
                decreases with@.len() - k,
            {
                r.push(with[k]);
                k += 1;
                assert(r@ =~= before + with@.take(k as int));
            }
            assert(with@.take(k as int) =~= with@);
            i += pattern.len();
        } else {
            r.push(s[i]);
            i += 1;
        }
        assert(replace(s@, pattern@, with@) =~= r@ + replace_from(s@, pattern@, with@, i as int));
    }
    assert(r@ + replace_from(s@, pattern@, with@, i as int) =~= r@);
    r
}

/// What stands before and after the first `x`.
pub open spec fn split_once(s: Seq<char>, x: char) -> Option<(Seq<char>, Seq<char>)> {
    let i = first_where(s, only(x), 0);
    if i < s.len() {
        Some((s.take(i), s.skip(i + 1)))
    } else {
        None
    }
}

/// The parts of `s` from `from` on between the characters `x`.
pub open spec fn split_from(s: Seq<char>, x: char, from: int) -> Seq<Seq<char>>
    decreases s.len() - from + 1,
    via split_from_decreases
{
    let i = first_where(s, only(x), from);
    if 0 <= from && i < s.len() {
        seq![s.subrange(from, i)] + split_from(s, x, i + 1)
    } else {
        seq![s.skip(from)]
    }
}

#[via_fn]
proof fn split_from_decreases(s: Seq<char>, x: char, from: int) {
    if 0 <= from <= s.len() {
        lemma_first_where(s, only(x), from);
    }
}

pub open spec fn split(s: Seq<char>, x: char) -> Seq<Seq<char>> {
    split_from(s, x, 0)
}

pub fn split_once_chars(s: &Vec<char>, x: char) -> (r: Option<(Vec<char>, Vec<char>)>)
    ensures
        match split_once(s@, x) {
            Some((a, b)) => r matches Some((head, tail)) && head@ == a && tail@ == b,
            None => r is None,
        },
{
    let i = find_char(s, x, 0);
    if i < s.len() {
        let a = chars_between(s, 0, i);
        let b = chars_between(s, i + 1, s.len());
        assert(a@ =~= s@.take(i as int));
        assert(b@ =~= s@.skip(i + 1));
        Some((a, b))
    } else {
        None
    }
}

/// The views of a list of character vectors.
pub open spec fn char_views(list: Seq<Vec<char>>) -> Seq<Seq<char>> {
    list.map_values(|chars: Vec<char>| chars@)
}

pub fn split_chars(s: &Vec<char>, x: char) -> (r: Vec<Vec<char>>)
    ensures
        char_views(r@) == split(s@, x),
        r@.len() > 0,
{
    let mut r: Vec<Vec<char>> = Vec::new();
    let mut from: usize = 0;
    assert(split(s@, x) =~= char_views(r@) + split_from(s@, x, 0));
    loop
        invariant_except_break
            from <= s@.len(),
            split(s@, x) == char_views(r@) + split_from(s@, x, from as int),
        ensures
            split(s@, x) == char_views(r@),
            r@.len() > 0,
        decreases s@.len() - from + 1,
    {
        let i = find_char(s, x, from);
        let ghost before = r@;
        let part = chars_between(s, from, i);
        r.push(part);
        assert(char_views(r@) =~= char_views(before).push(part@));
        if i >= s.len() {
            assert(part@ =~= s@.skip(from as int));
            assert(split(s@, x) =~= char_views(r@));
            break;
        }
        from = i + 1;
        assert(split(s@, x) =~= char_views(r@) + split_from(s@, x, from as int));
    }
    r
}

/// The parts with `separator` between each two.
pub open spec fn joined(parts: Seq<Seq<char>>, separator: Seq<char>) -> Seq<char>
    decreases parts.len(),
{
    if parts.len() == 0 {
        Seq::empty()
    } else if parts.len() == 1 {
        parts[0]
    } else {
        joined(parts.drop_last(), separator) + separator + parts.last()
    }
}

pub fn join_texts(parts: &Vec<String>, separator: &str) -> (r: String)
    ensures
        r@ == joined(texts(parts@), separator@),
{
    let ghost all = texts(parts@);
    let mut r = String::new();
    let mut i: usize = 0;
    assert(joined(all.take(0), separator@) =~= Seq::<char>::empty());
    while i < parts.len()
        invariant
            0 <= i <= parts@.len(),
            all == texts(parts@),
            r@ == joined(all.take(i as int), separator@),
        decreases parts@.len() - i,
    {
        if i > 0 {
            r.append(separator);
        }
        r.append(&parts[i]);
        proof {
            let next = all.take(i + 1);
            assert(next.drop_last() =~= all.take(i as int));
            assert(next.last() == parts@[i as int]@);
            assert(i == 0 ==> r@ =~= next[0]);
        }
        i += 1;
    }
    assert(all.take(i as int) =~= all);
    r
}

// ---------------------------------------------------------------------------
// Numbers
// ---------------------------------------------------------------------------

pub open spec fn digit(d: int) -> char {
    (0x30 + d) as char
}

/// A number in decimal notation.
pub open spec fn decimal(n: nat) -> Seq<char>
    decreases n,
{
    if n < 10 {
        seq![digit(n as int)]
    } else {
        decimal(n / 10).push(digit((n % 10) as int))
    }
}

/// Ten to the power of `k`.
pub open spec fn ten_to(k: nat) -> nat
    decreases k,
{
    if k == 0 {
        1
    } else {
        10 * ten_to((k - 1) as nat)
    }
}

/// A number below a power of ten has no more digits than that.
pub proof fn lemma_decimal_len(n: nat, k: nat)
    requires
        0 < k,
        n < ten_to(k),
    ensures
        decimal(n).len() <= k,
    decreases k,
{
    if n >= 10 {
        if k == 1 {
            reveal_with_fuel(ten_to, 2);
        } else {
            lemma_decimal_len(n / 10, (k - 1) as nat);
        }
    }
}

fn decimal_chars(n: u128) -> (r: Vec<char>)
    ensures
        r@ == decimal(n as nat),
    decreases n,
{
    let d: u8 = (n % 10) as u8;
    let c: char = (0x30 + d) as char;
    if n < 10 {
        let mut r: Vec<char> = Vec::new();
        r.push(c);
        assert(r@ =~= seq![digit(n as int)]);
        r
    } else {
        let mut r = decimal_chars(n / 10);
        r.push(c);
        r
    }
}

pub fn decimal_text(n: u128) -> (text: String)
    ensures
        text@ == decimal(n as nat),
{
    string_of(&decimal_chars(n))
}

// ---------------------------------------------------------------------------
// Decoding
// ---------------------------------------------------------------------------

/// What `String::from_utf8_lossy` makes of bytes.
pub uninterp spec fn utf8_lossy(bytes: Seq<u8>) -> Seq<char>;

/// `String::from_utf8_lossy`: valid UTF-8 is decoded; of other bytes only that
/// the result depends on them alone is said, not where the replacement
/// characters stand.
#[verifier::external_body]
pub(crate) fn decode_lossy(bytes: &Vec<u8>) -> (r: String)
    ensures
        r@ == utf8_lossy(bytes@),
        vstd::utf8::valid_utf8(bytes@) ==> r@ == vstd::utf8::decode_utf8(bytes@),
{
    String::from_utf8_lossy(bytes).into_owned()
}

// ---------------------------------------------------------------------------
// Length in UTF-8
// ---------------------------------------------------------------------------

/// The number of bytes that a character takes in UTF-8.
pub open spec fn utf8_width(c: char) -> int {
    let u = c as u32;
    if u < 0x80 {
        1
    } else if u < 0x800 {
        2
    } else if u < 0x10000 {
        3
    } else {
        4
    }
}

/// How far `s` reaches from `from` on within `room` bytes.
pub open spec fn within(s: Seq<char>, room: int, from: int) -> int
    decreases s.len() - from,
{
    if from < s.len() && utf8_width(s[from]) <= room {
        within(s, room - utf8_width(s[from]), from + 1)
    } else {
        from
    }
}

pub proof fn lemma_within(s: Seq<char>, room: int, from: int)
    requires
        0 <= from <= s.len(),
        0 <= room,
    ensures
        from <= within(s, room, from) <= s.len(),
        within(s, room, from) - from <= room,
    decreases s.len() - from,
{
    if from < s.len() && utf8_width(s[from]) <= room {
        lemma_within(s, room - utf8_width(s[from]), from + 1);
    }
}

proof fn lemma_char_bytes(c: char)
    ensures
        vstd::utf8::encode_scalar(c as u32).len() == utf8_width(c),
{
}

/// The prefix that fits takes no more than the room there is.
pub proof fn lemma_within_bytes(s: Seq<char>, room: int, from: int)
    requires
        0 <= from <= s.len(),
        0 <= room,
    ensures
        vstd::utf8::encode_utf8(s.subrange(from, within(s, room, from))).len() <= room,
    decreases s.len() - from,
{
    let n = within(s, room, from);
    lemma_within(s, room, from);
    if from < s.len() && utf8_width(s[from]) <= room {
        lemma_within(s, room - utf8_width(s[from]), from + 1);
        lemma_within_bytes(s, room - utf8_width(s[from]), from + 1);
        lemma_char_bytes(s[from]);
        assert(s.subrange(from, n).drop_first() =~= s.subrange(from + 1, n));
    }
}

/// A text that takes no more than the room there is fits as a whole.
pub proof fn lemma_within_whole(s: Seq<char>, room: int, from: int)
    requires
        0 <= from <= s.len(),
        vstd::utf8::encode_utf8(s.skip(from)).len() <= room,
    ensures
        within(s, room, from) == s.len(),
    decreases s.len() - from,
{
    if from < s.len() {
        lemma_char_bytes(s[from]);
        assert(s.skip(from)[0] == s[from]);
        assert(s.skip(from).drop_first() =~= s.skip(from + 1));
        lemma_within_whole(s, room - utf8_width(s[from]), from + 1);
    }
}

/// One more character takes its own bytes more.
pub proof fn lemma_push_bytes(s: Seq<char>, c: char)
    ensures
        vstd::utf8::encode_utf8(s.push(c)).len() == vstd::utf8::encode_utf8(s).len() + utf8_width(c),
    decreases s.len(),
{
    if s.len() == 0 {
        assert(s.push(c).drop_first() =~= s);
    } else {
        lemma_push_bytes(s.drop_first(), c);
        assert(s.push(c).drop_first() =~= s.drop_first().push(c));
    }
}

/// A text takes at least as many bytes as it has characters, and at most four
/// times as many.
pub proof fn lemma_bytes_by_chars(s: Seq<char>)
    ensures
        s.len() <= vstd::utf8::encode_utf8(s).len() <= 4 * s.len(),
    decreases s.len(),
{
    if s.len() > 0 {
        lemma_char_bytes(s[0]);
        lemma_bytes_by_chars(s.drop_first());
    }
}

/// How many characters of `s` fit into `limit` bytes.
pub fn fit(s: &Vec<char>, limit: usize) -> (n: usize)
    ensures
        n == within(s@, limit as int, 0),
        n <= s@.len(),
{
    let mut room: usize = limit;
    let mut i: usize = 0;
    while i < s.len()
        invariant
            0 <= i <= s@.len(),
            within(s@, limit as int, 0) == within(s@, room as int, i as int),
        decreases s@.len() - i,
    {
        let u: u32 = s[i] as u32;
        let width: usize = if u < 0x80 {
            1
        } else if u < 0x800 {
            2
        } else if u < 0x10000 {
            3
        } else {
            4
        };
        if width > room {
            return i;
        }
        room -= width;
        i += 1;
    }
    i
}

/// Whether `text` takes at most `limit` bytes.
pub fn fits(text: &Vec<char>, limit: usize) -> (r: bool)
    ensures
        r == (within(text@, limit as int, 0) == text@.len()),
{
    fit(text, limit) == text.len()
}

// ---------------------------------------------------------------------------
// What the operations on texts are for
// ---------------------------------------------------------------------------

/// Which characters are white space, which ASCII white space, which letters and
/// digits, and which letter is the small one of which.
pub proof fn classes_are_these(c: char)
    ensures
        is_white(c) <==> c == '\t' || c == '\n' || c == '\u{b}' || c == '\u{c}' || c == '\r' || c
            == ' ' || c == '\u{85}' || c == '\u{a0}' || c == '\u{1680}' || ('\u{2000}' <= c && c
            <= '\u{200a}') || c == '\u{2028}' || c == '\u{2029}' || c == '\u{202f}' || c
            == '\u{205f}' || c == '\u{3000}',
        is_ascii_white(c) <==> c == ' ' || c == '\t' || c == '\n' || c == '\u{c}' || c == '\r',
        is_ascii_alnum(c) <==> ('0' <= c && c <= '9') || ('A' <= c && c <= 'Z') || ('a' <= c && c
            <= 'z'),
        'A' <= c && c <= 'Z' ==> lower_char(c) as int == c as int + 32,
        !('A' <= c && c <= 'Z') ==> lower_char(c) == c,
{
}

/// A text in small letters is as long, and differs in the capital letters only.
pub proof fn small_letters_are_these(s: Seq<char>)
    ensures
        lower(s).len() == s.len(),
        forall|k: int|
            0 <= k < s.len() ==> {
                let c = #[trigger] s[k];
                if 'A' <= c && c <= 'Z' {
                    lower(s)[k] as int == c as int + 32
                } else {
                    lower(s)[k] == c
                }
            },
        lower(lower(s)) == lower(s),
{
    assert(lower(lower(s)) =~= lower(s));
}

/// A text holds a pattern exactly where it is the pattern with something before
/// and after it; it starts or ends with it where there is nothing before or
/// after.
pub proof fn patterns_are_held(before: Seq<char>, pattern: Seq<char>, after: Seq<char>)
    ensures
        contains(before + pattern + after, pattern),
        starts_with(pattern + after, pattern),
        ends_with(before + pattern, pattern),
        matches_at(before + pattern + after, pattern, before.len() as int),
        after_prefix(pattern + after, pattern) == Some(after),
{
    let s = before + pattern + after;
    let n = before.len() as int;
    assert(s.subrange(n, n + pattern.len()) =~= pattern);
    assert(matches_at(s, pattern, n));
    assert((pattern + after).subrange(0, pattern.len() as int) =~= pattern);
    assert((before + pattern).subrange(n, n + pattern.len()) =~= pattern);
    assert((pattern + after).skip(pattern.len() as int) =~= after);
}

/// And where a text holds a pattern, it is made up so.
pub proof fn held_patterns_part_the_text(s: Seq<char>, pattern: Seq<char>) -> (r: (
    Seq<char>,
    Seq<char>,
))
    ensures
        contains(s, pattern) ==> s == r.0 + pattern + r.1,
        starts_with(s, pattern) ==> s == pattern + s.skip(pattern.len() as int),
        ends_with(s, pattern) ==> s == s.take(s.len() - pattern.len()) + pattern,
        after_prefix(s, pattern) matches Some(rest) ==> s == pattern + rest,
        after_prefix(s, pattern) is None <==> !starts_with(s, pattern),
{
    if starts_with(s, pattern) {
        assert(s =~= s.subrange(0, pattern.len() as int) + s.skip(pattern.len() as int));
    }
    if ends_with(s, pattern) {
        let n = s.len() - pattern.len();
        assert(s =~= s.take(n) + s.subrange(n, n + pattern.len()));
    }
    if contains(s, pattern) {
        let i = choose|i: int| matches_at(s, pattern, i);
        assert(s =~= s.take(i) + s.subrange(i, i + pattern.len()) + s.skip(i + pattern.len()));
        (s.take(i), s.skip(i + pattern.len()))
    } else {
        (s, s)
    }
}

/// Trimming takes away what has the property at either end, and nothing else.
pub proof fn ends_are_trimmed(
    before: Seq<char>,
    kept: Seq<char>,
    after: Seq<char>,
    p: spec_fn(char) -> bool,
)
    requires
        forall|k: int| 0 <= k < before.len() ==> p(#[trigger] before[k]),
        forall|k: int| 0 <= k < after.len() ==> p(#[trigger] after[k]),
        kept.len() > 0 ==> !p(kept[0]) && !p(kept[kept.len() - 1]),
    ensures
        trim_where(before + kept + after, p) == kept,
{
    let s = before + kept + after;
    let keep = non(p);
    let from = first_not(s, p, 0);
    lemma_first_where(s, keep, 0);
    lemma_end_without(s, p, from, s.len() as int);
    let end = end_without(s, p, from, s.len() as int);
    let n = before.len() as int;
    let m = n + kept.len();
    if kept.len() > 0 {
        assert forall|k: int| 0 <= k < n implies !keep(#[trigger] s[k]) by {
            assert(s[k] == before[k]);
        }
        assert(keep(s[n])) by {
            assert(s[n] == kept[0]);
        }
        lemma_first_where_is(s, keep, 0, n);
        assert(s[m - 1] == kept[kept.len() - 1]);
        if end > m {
            assert(s[end - 1] == after[end - 1 - m]);
        }
        if end < m {
            assert(p(s[m - 1]));
        }
        assert(s.subrange(n, m) =~= kept);
    } else {
        if from < s.len() {
            assert(keep(s[from]));
            if from < n {
                assert(s[from] == before[from]);
            } else {
                assert(s[from] == after[from - n]);
            }
        }
        assert(trim_where(s, p) =~= kept);
    }
}

/// So it is with white space.
pub proof fn white_ends_are_trimmed(before: Seq<char>, kept: Seq<char>, after: Seq<char>)
    requires
        forall|k: int| 0 <= k < before.len() ==> is_white(#[trigger] before[k]),
        forall|k: int| 0 <= k < after.len() ==> is_white(#[trigger] after[k]),
        kept.len() > 0 ==> !is_white(kept[0]) && !is_white(kept[kept.len() - 1]),
    ensures
        trim(before + kept + after) == kept,
        is_blank(before + kept + after) <==> kept.len() == 0,
{
    assert forall|k: int| 0 <= k < before.len() implies white()(#[trigger] before[k]) by {
        assert(is_white(before[k]));
    }
    assert forall|k: int| 0 <= k < after.len() implies white()(#[trigger] after[k]) by {
        assert(is_white(after[k]));
    }
    ends_are_trimmed(before, kept, after, white());
}

/// A text is parted at the first of the characters, and not at all where there
/// is none.
pub proof fn texts_are_parted_once(before: Seq<char>, x: char, after: Seq<char>)
    requires
        forall|k: int| 0 <= k < before.len() ==> #[trigger] before[k] != x,
    ensures
        split_once(before + seq![x] + after, x) == Some((before, after)),
        split_once(before, x) is None,
{
    let s = before + seq![x] + after;
    let n = before.len() as int;
    assert forall|k: int| 0 <= k < n implies !only(x)(#[trigger] s[k]) by {
        assert(s[k] == before[k]);
    }
    assert forall|k: int| 0 <= k < n implies !only(x)(#[trigger] before[k]) by {}
    lemma_first_where_is(s, only(x), 0, n);
    lemma_first_where_is(before, only(x), 0, n);
    assert(s.take(n) =~= before);
    assert(s.skip(n + 1) =~= after);
}

/// `parts` with one more part in front.
proof fn lemma_joined_first(first: Seq<char>, parts: Seq<Seq<char>>, separator: Seq<char>)
    requires
        parts.len() > 0,
    ensures
        joined(seq![first] + parts, separator) == first + separator + joined(parts, separator),
    decreases parts.len(),
{
    let all = seq![first] + parts;
    if parts.len() == 1 {
        assert(all.drop_last() =~= seq![first]);
        assert(joined(all.drop_last(), separator) == first);
        assert(all.last() == parts[0]);
    } else {
        lemma_joined_first(first, parts.drop_last(), separator);
        assert(all.drop_last() =~= seq![first] + parts.drop_last());
        assert(all.last() == parts.last());
        assert(joined(all, separator) =~= first + separator + joined(parts, separator));
    }
}

/// Joining puts the separator between each two parts and nowhere else.
pub proof fn parts_are_joined(
    parts: Seq<Seq<char>>,
    part: Seq<char>,
    more: Seq<char>,
    separator: Seq<char>,
)
    ensures
        joined(Seq::empty(), separator).len() == 0,
        joined(seq![part], separator) == part,
        joined(seq![part, more], separator) == part + separator + more,
        parts.len() > 0 ==> joined(parts.push(part), separator) == joined(parts, separator)
            + separator + part,
        parts.len() > 0 ==> joined(seq![part] + parts, separator) == part + separator + joined(
            parts,
            separator,
        ),
{
    if parts.len() > 0 {
        assert(parts.push(part).drop_last() =~= parts);
        lemma_joined_first(part, parts, separator);
    }
    reveal_with_fuel(joined, 2);
    assert(seq![part, more].drop_last() =~= seq![part]);
    assert(seq![part, more].last() == more);
}

proof fn lemma_split_from(s: Seq<char>, x: char, from: int)
    requires
        0 <= from <= s.len(),
    ensures
        split_from(s, x, from).len() > 0,
        joined(split_from(s, x, from), seq![x]) == s.skip(from),
        forall|i: int, k: int|
            0 <= i < split_from(s, x, from).len() && 0 <= k < split_from(s, x, from)[i].len()
                ==> #[trigger] split_from(s, x, from)[i][k] != x,
    decreases s.len() - from,
{
    lemma_first_where(s, only(x), from);
    let i = first_where(s, only(x), from);
    if i < s.len() {
        let head = s.subrange(from, i);
        let rest = split_from(s, x, i + 1);
        lemma_split_from(s, x, i + 1);
        lemma_joined_first(head, rest, seq![x]);
        assert(head + seq![x] + s.skip(i + 1) =~= s.skip(from));
        let all = seq![head] + rest;
        assert forall|j: int, k: int| 0 <= j < all.len() && 0 <= k < all[j].len() implies
            #[trigger] all[j][k] != x by {
            if j == 0 {
                assert(!only(x)(s[from + k]));
            } else {
                assert(all[j] == rest[j - 1]);
            }
        }
    } else {
        assert forall|j: int, k: int|
            0 <= j < split_from(s, x, from).len() && 0 <= k < split_from(s, x, from)[j].len()
            implies #[trigger] split_from(s, x, from)[j][k] != x by {
            assert(!only(x)(s[from + k]));
        }
    }
}

/// The parts of a text, joined again, are the text, and no part holds the
/// character at which it is split.
pub proof fn parts_make_up_the_text(s: Seq<char>, x: char)
    ensures
        split(s, x).len() > 0,
        joined(split(s, x), seq![x]) == s,
        forall|i: int, k: int|
            0 <= i < split(s, x).len() && 0 <= k < split(s, x)[i].len() ==> #[trigger] split(
                s,
                x,
            )[i][k] != x,
{
    lemma_split_from(s, x, 0);
    assert(s.skip(0) =~= s);
}

proof fn lemma_split_shifts(head: Seq<char>, s: Seq<char>, x: char, from: int)
    requires
        0 <= from <= s.len(),
    ensures
        split_from(head + s, x, head.len() + from) == split_from(s, x, from),
    decreases s.len() - from,
{
    let t = head + s;
    let n = head.len() as int;
    lemma_first_where(s, only(x), from);
    let i = first_where(s, only(x), from);
    assert forall|k: int| n + from <= k < n + i implies !only(x)(#[trigger] t[k]) by {
        assert(t[k] == s[k - n]);
        assert(!only(x)(s[k - n]));
    }
    if i < s.len() {
        assert(t[n + i] == s[i]);
    }
    lemma_first_where_is(t, only(x), n + from, n + i);
    if i < s.len() {
        lemma_split_shifts(head, s, x, i + 1);
        assert(t.subrange(n + from, n + i) =~= s.subrange(from, i));
    } else {
        assert(t.skip(n + from) =~= s.skip(from));
    }
}

/// The first part is what stands before the first of the characters; the
/// others are the parts of what stands behind it.
pub proof fn texts_are_parted(before: Seq<char>, x: char, after: Seq<char>)
    requires
        forall|k: int| 0 <= k < before.len() ==> #[trigger] before[k] != x,
    ensures
        split(before + seq![x] + after, x) == seq![before] + split(after, x),
        split(before, x) == seq![before],
{
    let s = before + seq![x] + after;
    let n = before.len() as int;
    assert forall|k: int| 0 <= k < n implies !only(x)(#[trigger] s[k]) by {
        assert(s[k] == before[k]);
    }
    assert forall|k: int| 0 <= k < n implies !only(x)(#[trigger] before[k]) by {}
    lemma_first_where_is(s, only(x), 0, n);
    lemma_first_where_is(before, only(x), 0, n);
    lemma_split_shifts(before + seq![x], after, x, 0);
    assert(s.subrange(0, n) =~= before);
    assert(before.skip(0) =~= before);
}

proof fn lemma_replace_kept(
    s: Seq<char>,
    pattern: Seq<char>,
    with: Seq<char>,
    from: int,
    to: int,
)
    requires
        0 <= from <= to <= s.len(),
        pattern.len() > 0,
        forall|k: int| from <= k < to ==> !matches_at(s, pattern, k),
    ensures
        replace_from(s, pattern, with, from) == s.subrange(from, to) + replace_from(
            s,
            pattern,
            with,
            to,
        ),
    decreases to - from,
{
    if from < to {
        lemma_replace_kept(s, pattern, with, from + 1, to);
        assert(!matches_at(s, pattern, from));
        assert(seq![s[from]] + s.subrange(from + 1, to) =~= s.subrange(from, to));
        assert(replace_from(s, pattern, with, from) =~= s.subrange(from, to) + replace_from(
            s,
            pattern,
            with,
            to,
        ));
    } else {
        assert(s.subrange(from, to) + replace_from(s, pattern, with, to) =~= replace_from(
            s,
            pattern,
            with,
            to,
        ));
    }
}

proof fn lemma_replace_shifts(
    head: Seq<char>,
    s: Seq<char>,
    pattern: Seq<char>,
    with: Seq<char>,
    from: int,
)
    requires
        0 <= from <= s.len(),
        pattern.len() > 0,
    ensures
        replace_from(head + s, pattern, with, head.len() + from) == replace_from(
            s,
            pattern,
            with,
            from,
        ),
    decreases s.len() - from,
{
    let t = head + s;
    let n = head.len() as int;
    if from < s.len() {
        if from + pattern.len() <= s.len() {
            assert(t.subrange(n + from, n + from + pattern.len()) =~= s.subrange(
                from,
                from + pattern.len(),
            ));
        }
        assert(matches_at(t, pattern, n + from) == matches_at(s, pattern, from));
        if matches_at(s, pattern, from) {
            lemma_replace_shifts(head, s, pattern, with, from + pattern.len());
        } else {
            lemma_replace_shifts(head, s, pattern, with, from + 1);
            assert(t[n + from] == s[from]);
        }
    }
}

/// Where a pattern stands for the first time, what is before it stays, the
/// replacement takes its place, and it goes on behind it; a text without the
/// pattern stays as it is.
pub proof fn patterns_are_replaced(
    before: Seq<char>,
    pattern: Seq<char>,
    after: Seq<char>,
    with: Seq<char>,
)
    requires
        pattern.len() > 0,
    ensures
        (forall|k: int|
            0 <= k < before.len() ==> !matches_at(before + pattern + after, pattern, k))
            ==> replace(before + pattern + after, pattern, with) == before + with + replace(
            after,
            pattern,
            with,
        ),
        !contains(before, pattern) ==> replace(before, pattern, with) == before,
{
    let s = before + pattern + after;
    let n = before.len() as int;
    if forall|k: int| 0 <= k < before.len() ==> !matches_at(s, pattern, k) {
        lemma_replace_kept(s, pattern, with, 0, n);
        assert(s.subrange(0, n) =~= before);
        assert(s.subrange(n, n + pattern.len()) =~= pattern);
        assert(matches_at(s, pattern, n));
        lemma_replace_shifts(before + pattern, after, pattern, with, 0);
        assert(replace(s, pattern, with) =~= before + with + replace(after, pattern, with));
    }
    if !contains(before, pattern) {
        lemma_replace_kept(before, pattern, with, 0, n);
        assert(before.subrange(0, n) + replace_from(before, pattern, with, n) =~= before);
    }
}

/// The number that a text of digits stands for.
pub open spec fn number(s: Seq<char>) -> int
    decreases s.len(),
{
    if s.len() == 0 {
        0
    } else {
        10 * number(s.drop_last()) + (s.last() as int - 0x30)
    }
}

/// The decimal notation of a number reads back as the number, in digits only
/// and without a zero in front of others.
pub proof fn decimal_reads_back(n: nat)
    ensures
        number(decimal(n)) == n,
        decimal(n).len() > 0,
        forall|k: int|
            0 <= k < decimal(n).len() ==> '0' <= #[trigger] decimal(n)[k] && decimal(n)[k] <= '9',
        n > 0 ==> decimal(n)[0] != '0',
    decreases n,
{
    reveal_with_fuel(number, 2);
    if n >= 10 {
        decimal_reads_back(n / 10);
        let front = decimal(n / 10);
        let d = digit((n % 10) as int);
        assert(front.push(d).drop_last() =~= front);
        assert(decimal(n)[0] == front[0]);
    } else {
        assert(decimal(n).drop_last() =~= Seq::<char>::empty());
    }
}

/// What fits is the longest front that takes no more than the room there is.
pub proof fn what_fits_is_the_longest(s: Seq<char>, room: int)
    requires
        0 <= room,
    ensures
        0 <= within(s, room, 0) <= s.len(),
        vstd::utf8::encode_utf8(s.take(within(s, room, 0))).len() <= room,
        within(s, room, 0) < s.len() ==> vstd::utf8::encode_utf8(
            s.take(within(s, room, 0) + 1),
        ).len() > room,
        within(s, room, 0) == s.len() <==> vstd::utf8::encode_utf8(s).len() <= room,
{
    lemma_within(s, room, 0);
    lemma_within_bytes(s, room, 0);
    let n = within(s, room, 0);
    assert(s.subrange(0, n) =~= s.take(n));
    if n < s.len() {
        lemma_within_stops(s, room, 0);
        assert(s.subrange(0, n + 1) =~= s.take(n + 1));
    }
    assert(s.skip(0) =~= s);
    if vstd::utf8::encode_utf8(s).len() <= room {
        lemma_within_whole(s, room, 0);
    } else if n == s.len() {
        assert(s.take(n) =~= s);
    }
}

proof fn lemma_within_stops(s: Seq<char>, room: int, from: int)
    requires
        0 <= from <= s.len(),
        0 <= room,
        within(s, room, from) < s.len(),
    ensures
        vstd::utf8::encode_utf8(s.subrange(from, within(s, room, from) + 1)).len() > room,
    decreases s.len() - from,
{
    let n = within(s, room, from);
    lemma_within(s, room, from);
    lemma_char_bytes(s[from]);
    assert(s.subrange(from, n + 1)[0] == s[from]);
    if utf8_width(s[from]) <= room {
        lemma_within(s, room - utf8_width(s[from]), from + 1);
        lemma_within_stops(s, room - utf8_width(s[from]), from + 1);
        assert(s.subrange(from, n + 1).drop_first() =~= s.subrange(from + 1, n + 1));
    }
}

/// Lists of texts are seen text by text.
pub proof fn lists_are_seen_as_they_are(list: Seq<String>, chars: Seq<Vec<char>>, o: Option<String>)
    ensures
        texts(list).len() == list.len(),
        forall|k: int| 0 <= k < list.len() ==> #[trigger] texts(list)[k] == list[k]@,
        char_views(chars).len() == chars.len(),
        forall|k: int| 0 <= k < chars.len() ==> #[trigger] char_views(chars)[k] == chars[k]@,
        o is None <==> opt_view(o) is None,
        o matches Some(text) ==> opt_view(o) == Some(text@),
{
}

} // verus!
