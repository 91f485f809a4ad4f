//! Reading the log back for display and export.

use crate::json;
use crate::json::{get_text, read_json_with, JsonModel};
use crate::logger;
use crate::logger::{sort_names, ARCHIVE_PREFIX, CURRENT_LOG};
use crate::redact;
use crate::text;
use crate::text::{
    chars_of, decimal_text, join3, push_text, same, split_once_chars, string_between, string_of,
    strip_prefix, text_ends_with, text_starts_with, trim_matches,
};
use vstd::prelude::*;

verus! {

pub const ARCHIVE_SUFFIX: &'static str = ".jsonl";

/// A line of the log as it is shown.
#[derive(Debug)]
pub struct LogEntry {
    pub time: String,
    pub kind: String,
    pub label: String,
    pub message: String,
}

pub struct EntryModel {
    pub time: Seq<char>,
    pub kind: Seq<char>,
    pub label: Seq<char>,
    pub message: Seq<char>,
}

impl View for LogEntry {
    type V = EntryModel;

    open spec fn view(&self) -> EntryModel {
        EntryModel {
            time: self.time@,
            kind: self.kind@,
            label: self.label@,
            message: self.message@,
        }
    }
}

pub open spec fn entries_view(list: Seq<LogEntry>) -> Seq<EntryModel> {
    list.map_values(|entry: LogEntry| entry@)
}

// ---------------------------------------------------------------------------
// Files
// ---------------------------------------------------------------------------

pub open spec fn archive(name: Seq<char>) -> bool {
    text::starts_with(name, ARCHIVE_PREFIX@) && text::ends_with(name, ARCHIVE_SUFFIX@)
}

/// The current shard and the archives among the first `n` names.
pub open spec fn shown_names(names: Seq<Seq<char>>, n: int) -> Seq<Seq<char>>
    decreases n,
{
    if n <= 0 {
        seq![CURRENT_LOG@]
    } else if archive(names[n - 1]) {
        shown_names(names, n - 1).push(names[n - 1])
    } else {
        shown_names(names, n - 1)
    }
}

pub open spec fn shown_order(names: Seq<Seq<char>>) -> Seq<Seq<char>> {
    let shown = shown_names(names, names.len() as int);
    logger::in_order(shown, shown.len() as int)
}

/// The files that are shown, in the order in which they are read.
pub fn files_to_show(names: &Vec<String>) -> (r: Vec<String>)
    ensures
        text::texts(r@) == shown_order(text::texts(names@)),
{
    let ghost all = text::texts(names@);
    let mut shown: Vec<String> = Vec::new();
    shown.push(CURRENT_LOG.to_string());
    let mut i: usize = 0;
    assert(text::texts(shown@) =~= shown_names(all, 0));
    while i < names.len()
        invariant
            0 <= i <= names@.len(),
            all == text::texts(names@),
            text::texts(shown@) == shown_names(all, i as int),
        decreases names@.len() - i,
    {
        let ghost before = text::texts(shown@);
        assert(all[i as int] == names@[i as int]@);
        if text_starts_with(&names[i], ARCHIVE_PREFIX) && text_ends_with(&names[i], ARCHIVE_SUFFIX) {
            shown.push(names[i].clone());
            assert(text::texts(shown@) =~= before.push(all[i as int]));
        }
        i += 1;
    }
    sort_names(&shown)
}

// ---------------------------------------------------------------------------
// Lines
// ---------------------------------------------------------------------------

/// A line without a carriage return at its end.
pub open spec fn without_return(s: Seq<char>) -> Seq<char> {
    if s.len() > 0 && s[s.len() - 1] == '\r' {
        s.drop_last()
    } else {
        s
    }
}

/// The lines of `s` from `from` on. They end with a line feed, or with a
/// carriage return and a line feed; the last may have no end.
pub open spec fn lines_from(s: Seq<char>, from: int) -> Seq<Seq<char>>
    decreases s.len() - from,
    when 0 <= from <= s.len()
    via lines_from_decreases
{
    let end = text::first_where(s, text::only('\n'), from);
    if from == s.len() {
        Seq::empty()
    } else if end >= s.len() {
        seq![s.skip(from)]
    } else {
        seq![without_return(s.subrange(from, end))] + lines_from(s, end + 1)
    }
}

#[via_fn]
proof fn lines_from_decreases(s: Seq<char>, from: int) {
    text::lemma_first_where(s, text::only('\n'), from);
}

pub open spec fn lines_of(s: Seq<char>) -> Seq<Seq<char>> {
    lines_from(s, 0)
}

pub fn lines(content: &str) -> (r: Vec<String>)
    ensures
        text::texts(r@) == lines_of(content@),
{
    let s = chars_of(content);
    let n: usize = s.len();
    let mut r: Vec<String> = Vec::new();
    let mut from: usize = 0;
    assert(text::texts(r@) + lines_from(s@, 0) =~= lines_of(s@));
    while from < n
        invariant
            from <= n == s@.len(),
            lines_of(s@) == text::texts(r@) + lines_from(s@, from as int),
        decreases n - from,
    {
        let ghost had = text::texts(r@);
        let end = text::find_char(&s, '\n', from);
        if end >= n {
            let line = string_between(&s, from, n);
            assert(line@ =~= s@.skip(from as int));
            r.push(line);
            assert(text::texts(r@) =~= had.push(line@));
            from = n;
        } else {
            let stop: usize = if end > from && s[end - 1] == '\r' {
                end - 1
            } else {
                end
            };
            let line = string_between(&s, from, stop);
            assert(line@ =~= without_return(s@.subrange(from as int, end as int)));
            r.push(line);
            assert(text::texts(r@) =~= had.push(line@));
            from = end + 1;
        }
        assert(lines_of(s@) =~= text::texts(r@) + lines_from(s@, from as int));
    }
    assert(lines_from(s@, from as int) =~= Seq::<Seq<char>>::empty());
    assert(text::texts(r@) =~= lines_of(s@));
    r
}

// ---------------------------------------------------------------------------
// Entries
// ---------------------------------------------------------------------------

pub open spec fn or_else(value: Option<Seq<char>>, other: Seq<char>) -> Seq<char> {
    match value {
        Some(s) => s,
        None => other,
    }
}

fn or_text(value: Option<String>, other: &str) -> (r: String)
    ensures
        r@ == or_else(text::opt_view(value), other@),
{
    match value {
        Some(s) => s,
        None => other.to_string(),
    }
}

/// Errors, authentication and everything else.
pub open spec fn kind_of(level: Seq<char>, event: Seq<char>) -> Seq<char> {
    if level == "ERROR"@ {
        "error"@
    } else if text::starts_with(event, "auth"@) {
        "auth"@
    } else {
        "network"@
    }
}

/// What stands before the first space of what is left of a line.
pub open spec fn word(rest: Option<Seq<char>>) -> Seq<char> {
    match rest {
        Some(s) => match text::split_once(s, ' ') {
            Some((head, _)) => head,
            None => s,
        },
        None => Seq::empty(),
    }
}

/// What is left of a line after that.
pub open spec fn after_word(rest: Option<Seq<char>>) -> Option<Seq<char>> {
    match rest {
        Some(s) => match text::split_once(s, ' ') {
            Some((_, after)) => Some(after),
            None => None,
        },
        None => None,
    }
}

/// Time, level, event and message of a line that is no JSON.
pub open spec fn plain_line(line: Seq<char>) -> (Seq<char>, Seq<char>, Seq<char>, Seq<char>) {
    let second = after_word(Some(line));
    let third = after_word(second);
    let fourth = after_word(third);
    (
        or_else(text::after_prefix(word(Some(line)), "ts="@), Seq::empty()),
        or_else(text::after_prefix(word(second), "level="@), "INFO"@),
        or_else(text::after_prefix(word(third), "event="@), "event"@),
        or_else(fourth, Seq::empty()),
    )
}

/// Time, level, event and message of a line that is JSON.
pub open spec fn json_line(value: JsonModel) -> (Seq<char>, Seq<char>, Seq<char>, Seq<char>) {
    (
        text::trim_where(
            or_else(json::member_written(value, "ts"@), Seq::empty()),
            text::only('"'),
        ),
        or_else(json::as_text(json::member(value, "level"@)), "INFO"@),
        or_else(json::as_text(json::member(value, "event"@)), "event"@),
        or_else(json::as_text(json::member(value, "detail"@)), Seq::empty()),
    )
}

pub open spec fn line_parts(line: Seq<char>) -> (Seq<char>, Seq<char>, Seq<char>, Seq<char>) {
    match json::parsed_json(vstd::utf8::encode_utf8(line)) {
        Ok(value) => json_line(value),
        Err(_) => plain_line(line),
    }
}

/// A line as it is shown.
pub open spec fn entry_of(line: Seq<char>) -> EntryModel {
    let (time, level, event, message) = line_parts(line);
    EntryModel { time, kind: kind_of(level, event), label: event, message }
}

/// The first word of what is left, and what is left then.
fn next_word(rest: Option<Vec<char>>) -> (r: (String, Option<Vec<char>>))
    ensures
        ({
            let before = match rest {
                Some(s) => Some(s@),
                None => None,
            };
            &&& r.0@ == word(before)
            &&& match r.1 {
                Some(s) => after_word(before) == Some(s@),
                None => after_word(before) is None,
            }
        }),
{
    match rest {
        Some(s) => match split_once_chars(&s, ' ') {
            Some((head, after)) => (string_of(&head), Some(after)),
            None => (string_of(&s), None),
        },
        None => (String::new(), None),
    }
}

fn split_plain(line: &str) -> (r: (String, String, String, String))
    ensures
        (r.0@, r.1@, r.2@, r.3@) == plain_line(line@),
{
    let (first, rest) = next_word(Some(chars_of(line)));
    let (second, rest) = next_word(rest);
    let (third, rest) = next_word(rest);
    let message = match rest {
        Some(s) => string_of(&s),
        None => String::new(),
    };
    let nothing = String::new();
    (
        or_text(strip_prefix(&first, "ts="), &nothing),
        or_text(strip_prefix(&second, "level="), "INFO"),
        or_text(strip_prefix(&third, "event="), "event"),
        message,
    )
}

pub fn read_entry(line: &str) -> (r: LogEntry)
    ensures
        r@ == entry_of(line@),
{
    let (time, level, event, message) = match read_json_with(&line.as_bytes_vec(), "ts") {
        Some((value, written)) => {
            let nothing = String::new();
            (
                trim_matches(&or_text(written, &nothing), '"'),
                or_text(get_text(&value, "level"), "INFO"),
                or_text(get_text(&value, "event"), "event"),
                or_text(get_text(&value, "detail"), &nothing),
            )
        },
        None => split_plain(line),
    };
    let kind = if same(&level, "ERROR") {
        "error"
    } else if text_starts_with(&event, "auth") {
        "auth"
    } else {
        "network"
    };
    LogEntry { time, kind: kind.to_string(), label: event, message }
}

/// The lines of a file as they are shown.
pub open spec fn entries_of(content: Seq<char>) -> Seq<EntryModel> {
    lines_of(content).map_values(|line: Seq<char>| entry_of(line))
}

/// The entries of the first `n` files, one file after the other; a file that
/// could not be read is passed over.
pub open spec fn all_entries(files: Seq<Option<String>>, n: int) -> Seq<EntryModel>
    decreases n,
{
    if n <= 0 {
        Seq::empty()
    } else {
        match files[n - 1] {
            Some(content) => all_entries(files, n - 1) + entries_of(content@),
            None => all_entries(files, n - 1),
        }
    }
}

fn read_entries(content: &str, entries: &mut Vec<LogEntry>)
    ensures
        entries_view(final(entries)@) == entries_view(old(entries)@) + entries_of(content@),
{
    let list = lines(content);
    let ghost before = entries_view(entries@);
    let ghost all = entries_of(content@);
    let mut i: usize = 0;
    assert(before + all.take(0) =~= before);
    while i < list.len()
        invariant
            0 <= i <= list@.len(),
            text::texts(list@) == lines_of(content@),
            all == entries_of(content@),
            entries_view(entries@) == before + all.take(i as int),
        decreases list@.len() - i,
    {
        let ghost had = entries_view(entries@);
        let entry = read_entry(&list[i]);
        assert(text::texts(list@)[i as int] == list@[i as int]@);
        assert(all[i as int] == entry@);
        entries.push(entry);
        i += 1;
        assert(entries_view(entries@) =~= had.push(entry@));
        assert(entries_view(entries@) =~= before + all.take(i as int));
    }
    assert(all.take(i as int) =~= all);
}

/// The entries of the files that were read, in their order.
pub fn get_logs(files: &Vec<Option<String>>) -> (entries: Vec<LogEntry>)
    ensures
        entries_view(entries@) == all_entries(files@, files@.len() as int),
{
    let mut entries: Vec<LogEntry> = Vec::new();
    let mut i: usize = 0;
    assert(entries_view(entries@) =~= all_entries(files@, 0));
    while i < files.len()
        invariant
            0 <= i <= files@.len(),
            entries_view(entries@) == all_entries(files@, i as int),
        decreases files@.len() - i,
    {
        if let Some(content) = &files[i] {
            read_entries(content, &mut entries);
        }
        i += 1;
    }
    entries
}

// ---------------------------------------------------------------------------
// Export
// ---------------------------------------------------------------------------

/// What could be read of a file, and a line feed.
pub open spec fn exported(content: Option<String>) -> Seq<char> {
    match content {
        Some(s) => s@ + "\n"@,
        None => Seq::empty(),
    }
}

/// The diagnostics of the previous and the current log in one text.
pub fn export_logs(previous: Option<String>, current: Option<String>) -> (r: String)
    ensures
        r@ == exported(previous) + exported(current),
{
    let mut r = String::new();
    if let Some(content) = &previous {
        push_text(&mut r, content);
        push_text(&mut r, "\n");
    }
    if let Some(content) = &current {
        push_text(&mut r, content);
        push_text(&mut r, "\n");
    }
    assert(r@ =~= exported(previous) + exported(current));
    r
}

pub fn export_name(stamp: u64) -> (r: String)
    ensures
        r@ == "diagnostics-"@ + text::decimal(stamp as nat) + ".log"@,
{
    join3("diagnostics-", &decimal_text(stamp as u128), ".log")
}

// ---------------------------------------------------------------------------
// Laws
// ---------------------------------------------------------------------------

proof fn lemma_lines_shift(a: Seq<char>, b: Seq<char>, from: int)
    requires
        0 <= from <= b.len(),
    ensures
        lines_from(a + b, a.len() + from) == lines_from(b, from),
    decreases b.len() - from,
{
    let s = a + b;
    let end = text::first_where(b, text::only('\n'), from);
    text::lemma_first_where(b, text::only('\n'), from);
    assert forall|k: int| a.len() + from <= k < a.len() + end implies !text::only('\n')(
        #[trigger] s[k],
    ) by {
        assert(s[k] == b[k - a.len()]);
    }
    if end < b.len() {
        assert(s[a.len() + end] == b[end]);
    }
    text::lemma_first_where_is(s, text::only('\n'), a.len() + from, a.len() + end);
    assert(s.skip(a.len() + from) =~= b.skip(from));
    if from < b.len() && end < b.len() {
        assert(s.subrange(a.len() + from, a.len() + end) =~= b.subrange(from, end));
        lemma_lines_shift(a, b, end + 1);
    }
}

/// A line without control characters, ended by a line feed, is the first line
/// of what it begins.
proof fn lemma_first_line(line: Seq<char>, rest: Seq<char>)
    requires
        forall|k: int| 0 <= k < line.len() ==> #[trigger] line[k] as u32 >= 0x20,
    ensures
        lines_of(line + "\n"@ + rest) == seq![line] + lines_of(rest),
{
    reveal_strlit("\n");
    let s = line + "\n"@ + rest;
    let head = line + "\n"@;
    assert(s =~= head + rest);
    assert forall|k: int| 0 <= k < line.len() implies !text::only('\n')(#[trigger] s[k]) by {
        assert(s[k] == line[k]);
    }
    assert(s[line.len() as int] == '\n');
    text::lemma_first_where_is(s, text::only('\n'), 0, line.len() as int);
    assert(s.subrange(0, line.len() as int) =~= line);
    assert(without_return(line) == line) by {
        if line.len() > 0 {
            assert(line[line.len() - 1] as u32 >= 0x20);
        }
    }
    lemma_lines_shift(head, rest, 0);
}

proof fn lemma_decimal(n: nat)
    ensures
        text::decimal(n).len() > 0,
        forall|k: int|
            0 <= k < text::decimal(n).len() ==> '0' <= #[trigger] text::decimal(n)[k]
                && text::decimal(n)[k] <= '9',
    decreases n,
{
    if n >= 10 {
        lemma_decimal(n / 10);
    }
}

/// What is logged is shown: a file that begins with the record of an event
/// begins, when shown, with the time, the cleaned name and the redacted detail
/// of that event, and goes on with the rest.
pub proof fn logged_events_are_shown(
    line: Seq<char>,
    rest: Seq<char>,
    session: Seq<char>,
    now: u64,
    level: Seq<char>,
    event: Seq<char>,
    detail: Seq<char>,
)
    requires
        logger::is_record(line, session, now, level, event, detail),
    ensures
        entries_of(line + "\n"@ + rest) == seq![
            EntryModel {
                time: text::decimal(now as nat),
                kind: kind_of(logger::level_name(level), logger::token(event)),
                label: logger::token(event),
                message: redact::redacted(detail),
            },
        ] + entries_of(rest),
{
    lemma_first_line(line, rest);
    lemma_decimal(now as nat);
    text::lemma_trim_nothing(text::decimal(now as nat), text::only('"'));
    let shown = EntryModel {
        time: text::decimal(now as nat),
        kind: kind_of(logger::level_name(level), logger::token(event)),
        label: logger::token(event),
        message: redact::redacted(detail),
    };
    assert(entry_of(line) == shown);
    assert(entries_of(line + "\n"@ + rest) =~= seq![shown] + entries_of(rest));
}

/// A shard that was rotated out is still part of the log, for cleaning up, for
/// export and for display.
pub proof fn rotated_shards_are_kept(millis: u128, process_id: u32)
    ensures
        logger::log_name(logger::archive_file(millis, process_id)),
        archive(logger::archive_file(millis, process_id)),
{
    let name = logger::archive_file(millis, process_id);
    let p = ARCHIVE_PREFIX@;
    let q = ARCHIVE_SUFFIX@;
    assert(name.subrange(0, 0 + p.len() as int) =~= p);
    assert(name.subrange(name.len() - q.len(), name.len() - q.len() + q.len()) =~= q);
}

// ---------------------------------------------------------------------------
// What reading the log back is for
// ---------------------------------------------------------------------------

/// An archive by its name.
pub open spec fn archive_named() -> spec_fn(Seq<char>) -> bool {
    |name: Seq<char>| text::starts_with(name, "archive-"@) && text::ends_with(name, ".jsonl"@)
}

proof fn lemma_shown_names(names: Seq<Seq<char>>, n: int)
    requires
        0 <= n <= names.len(),
    ensures
        shown_names(names, n) == seq!["current.log"@] + names.take(n).filter(archive_named()),
    decreases n,
{
    let p = archive_named();
    reveal(Seq::filter);
    if n > 0 {
        lemma_shown_names(names, n - 1);
        assert(names.take(n).drop_last() =~= names.take(n - 1));
        assert(names.take(n).last() == names[n - 1]);
        let front = names.take(n - 1).filter(p);
        if p(names[n - 1]) {
            assert((seq!["current.log"@] + front).push(names[n - 1]) =~= seq!["current.log"@]
                + front.push(names[n - 1]));
        }
    } else {
        assert(names.take(0) =~= Seq::<Seq<char>>::empty());
        assert(seq!["current.log"@] + names.take(0).filter(p) =~= seq!["current.log"@]);
    }
}

/// What is shown is the current shard and every archive of the listing, each
/// once, in the order of their names.
pub proof fn shown_files_are_the_log(names: Seq<Seq<char>>, name: Seq<char>)
    ensures
        archive(name) <==> text::starts_with(name, "archive-"@) && text::ends_with(
            name,
            ".jsonl"@,
        ),
        shown_names(names, names.len() as int) == seq!["current.log"@] + names.filter(
            archive_named(),
        ),
        logger::name_sorted(shown_order(names)),
        shown_order(names).to_multiset() == (seq!["current.log"@] + names.filter(
            archive_named(),
        )).to_multiset(),
{
    lemma_shown_names(names, names.len() as int);
    assert(names.take(names.len() as int) =~= names);
    logger::name_order_is_a_sort(shown_names(names, names.len() as int));
}

/// Errors are shown as such, whatever the event; what begins with `auth` as
/// authentication; everything else as the network's.
pub proof fn kinds_are_these(level: Seq<char>, event: Seq<char>)
    ensures
        level == "ERROR"@ ==> kind_of(level, event) == "error"@,
        level != "ERROR"@ && text::starts_with(event, "auth"@) ==> kind_of(level, event)
            == "auth"@,
        level != "ERROR"@ && !text::starts_with(event, "auth"@) ==> kind_of(level, event)
            == "network"@,
{
}

/// No space.
pub open spec fn one_word(s: Seq<char>) -> bool {
    forall|k: int| 0 <= k < s.len() ==> #[trigger] s[k] != ' '
}

/// A line that is no JSON is read word by word: time, level and event behind
/// their names, and all the rest is the message.
pub proof fn plain_lines_are_read_by_words(
    time: Seq<char>,
    level: Seq<char>,
    event: Seq<char>,
    message: Seq<char>,
)
    requires
        one_word(time),
        one_word(level),
        one_word(event),
    ensures
        plain_line(
            "ts="@ + time + " "@ + ("level="@ + level + " "@ + ("event="@ + event + " "@ + message)),
        ) == (time, level, event, message),
{
    reveal_strlit(" ");
    reveal_strlit("ts=");
    reveal_strlit("level=");
    reveal_strlit("event=");
    let a = "ts="@ + time;
    let b = "level="@ + level;
    let c = "event="@ + event;
    let third = c + " "@ + message;
    let second = b + " "@ + third;
    let line = a + " "@ + second;
    assert forall|k: int| 0 <= k < a.len() implies #[trigger] a[k] != ' ' by {
        if k >= 3 {
            assert(a[k] == time[k - 3]);
        }
    }
    assert forall|k: int| 0 <= k < b.len() implies #[trigger] b[k] != ' ' by {
        if k >= 6 {
            assert(b[k] == level[k - 6]);
        }
    }
    assert forall|k: int| 0 <= k < c.len() implies #[trigger] c[k] != ' ' by {
        if k >= 6 {
            assert(c[k] == event[k - 6]);
        }
    }
    text::texts_are_parted_once(a, ' ', second);
    text::texts_are_parted_once(b, ' ', third);
    text::texts_are_parted_once(c, ' ', message);
    assert(line =~= a + seq![' '] + second);
    assert(second =~= b + seq![' '] + third);
    assert(third =~= c + seq![' '] + message);
    text::patterns_are_held(Seq::empty(), "ts="@, time);
    text::patterns_are_held(Seq::empty(), "level="@, level);
    text::patterns_are_held(Seq::empty(), "event="@, event);
}

/// Words that are not named so do not count: a line of one word has no time,
/// the usual level and event, and no message.
pub proof fn bare_lines_have_the_usual_parts(line: Seq<char>)
    requires
        one_word(line),
        !text::starts_with(line, "ts="@),
    ensures
        plain_line(line).0.len() == 0,
        plain_line(line).1 == "INFO"@,
        plain_line(line).2 == "event"@,
        plain_line(line).3.len() == 0,
{
    text::texts_are_parted_once(line, ' ', line);
    reveal_strlit("level=");
    reveal_strlit("event=");
    assert(!text::starts_with(Seq::<char>::empty(), "level="@));
    assert(!text::starts_with(Seq::<char>::empty(), "event="@));
}

/// A line that is JSON is read by its members; what is missing, or is no text
/// where a text is due, counts as the usual level, event or nothing.
pub proof fn json_lines_are_read_by_members(
    line: Seq<char>,
    value: JsonModel,
    level: Seq<char>,
    event: Seq<char>,
    detail: Seq<char>,
)
    requires
        json::parsed_json(vstd::utf8::encode_utf8(line)) == Ok::<_, Seq<char>>(value),
    ensures
        ({
            let (time, l, e, m) = line_parts(line);
            &&& json::member(value, "level"@) == Some(JsonModel::Text(level)) ==> l == level
            &&& json::as_text(json::member(value, "level"@)) is None ==> l == "INFO"@
            &&& json::member(value, "event"@) == Some(JsonModel::Text(event)) ==> e == event
            &&& json::as_text(json::member(value, "event"@)) is None ==> e == "event"@
            &&& json::member(value, "detail"@) == Some(JsonModel::Text(detail)) ==> m == detail
            &&& json::as_text(json::member(value, "detail"@)) is None ==> m.len() == 0
            &&& json::member_written(value, "ts"@) matches Some(ts) ==> time == text::trim_where(
                ts,
                text::only('"'),
            )
            &&& json::member_written(value, "ts"@) is None ==> time.len() == 0
        }),
{
    let empty = Seq::<char>::empty();
    if json::member_written(value, "ts"@) is None {
        text::ends_are_trimmed(empty, empty, empty, text::only('"'));
        assert(empty + empty + empty =~= empty);
    }
}

/// What is no JSON is read word by word, and an entry shows the time, the kind,
/// the event and the message of its line.
pub proof fn entries_show_their_lines(line: Seq<char>)
    ensures
        json::parsed_json(vstd::utf8::encode_utf8(line)) is Err ==> line_parts(line) == plain_line(
            line,
        ),
        entry_of(line).time == line_parts(line).0,
        entry_of(line).kind == kind_of(line_parts(line).1, line_parts(line).2),
        entry_of(line).label == line_parts(line).2,
        entry_of(line).message == line_parts(line).3,
{
}

/// A line ends with a line feed, or with a carriage return before it; the last
/// one needs no end, and there is none behind the last line feed.
pub proof fn lines_end_with_line_feeds(line: Seq<char>, rest: Seq<char>)
    requires
        forall|k: int| 0 <= k < line.len() ==> #[trigger] line[k] != '\n' && line[k] != '\r',
    ensures
        lines_of(line + "\n"@ + rest) == seq![line] + lines_of(rest),
        lines_of(line + "\r\n"@ + rest) == seq![line] + lines_of(rest),
        line.len() > 0 ==> lines_of(line) == seq![line],
        lines_of(Seq::empty()).len() == 0,
{
    reveal_strlit("\n");
    reveal_strlit("\r\n");
    let n = line.len() as int;
    let p = text::only('\n');
    let a = line + "\n"@;
    let b = line + "\r\n"@;
    let s = a + rest;
    let t = b + rest;
    assert(line + "\n"@ + rest =~= s);
    assert(line + "\r\n"@ + rest =~= t);
    assert forall|k: int| 0 <= k < n implies !p(#[trigger] s[k]) by {
        assert(s[k] == line[k]);
    }
    assert forall|k: int| 0 <= k < n + 1 implies !p(#[trigger] t[k]) by {
        if k < n {
            assert(t[k] == line[k]);
        }
    }
    assert forall|k: int| 0 <= k < n implies !p(#[trigger] line[k]) by {}
    assert(s[n] == '\n' && t[n] == '\r' && t[n + 1] == '\n');
    text::lemma_first_where_is(s, p, 0, n);
    text::lemma_first_where_is(t, p, 0, n + 1);
    text::lemma_first_where_is(line, p, 0, n);
    assert(s.subrange(0, n) =~= line);
    assert(t.subrange(0, n + 1) =~= line.push('\r'));
    assert(line.push('\r').drop_last() =~= line);
    if n > 0 {
        assert(line[n - 1] != '\r');
    }
    lemma_lines_shift(a, rest, 0);
    lemma_lines_shift(b, rest, 0);
    assert(line.skip(0) =~= line);
}

/// The files are shown one after the other, line by line; one that could not be
/// read is passed over.
pub proof fn files_are_shown_in_order(files: Seq<Option<String>>, file: Option<String>, content: String)
    ensures
        all_entries(Seq::empty(), 0).len() == 0,
        file == Some(content) ==> all_entries(files.push(file), (files.len() + 1) as int)
            == all_entries(files, files.len() as int) + entries_of(content@),
        file is None ==> all_entries(files.push(file), (files.len() + 1) as int) == all_entries(
            files,
            files.len() as int,
        ),
        entries_of(content@).len() == lines_of(content@).len(),
        forall|k: int|
            0 <= k < lines_of(content@).len() ==> #[trigger] entries_of(content@)[k] == entry_of(
                lines_of(content@)[k],
            ),
{
    lemma_entries_same(files.push(file), files, files.len() as int);
}

proof fn lemma_entries_same(a: Seq<Option<String>>, b: Seq<Option<String>>, n: int)
    requires
        0 <= n <= a.len(),
        n <= b.len(),
        forall|k: int| 0 <= k < n ==> a[k] == b[k],
    ensures
        all_entries(a, n) == all_entries(b, n),
    decreases n,
{
    if n > 0 {
        lemma_entries_same(a, b, n - 1);
    }
}

/// What is exported of a file is the file and a line feed, and nothing of one
/// that could not be read.
pub proof fn files_are_exported_whole(file: Option<String>, content: String)
    ensures
        file is None ==> exported(file).len() == 0,
        file == Some(content) ==> exported(file) == content@ + "\n"@,
{
}

/// Entries are seen as they are.
pub proof fn entries_are_seen_as_they_are(entry: LogEntry, list: Seq<LogEntry>)
    ensures
        entry@.time == entry.time@,
        entry@.kind == entry.kind@,
        entry@.label == entry.label@,
        entry@.message == entry.message@,
        entries_view(list).len() == list.len(),
        forall|k: int| 0 <= k < list.len() ==> #[trigger] entries_view(list)[k] == list[k]@,
{
}

} // verus!
