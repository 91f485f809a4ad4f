//! The log: one JSON object per line, in shards that are rotated and cleaned
//! up by age and total size.

use crate::json;
use crate::json::{object_text, Field, JsonModel};
use crate::paths;
use crate::paths::Location;
use crate::redact;
use crate::redact::redact;
use crate::text;
use crate::text::{
    chars_of, decimal_text, decode_lossy, eq_ignore_ascii_case, is_ascii_alphanumeric, join3,
    same, string_of, text_starts_with,
};
use vstd::prelude::*;

verus! {

pub const MAX_SHARD_BYTES: u64 = 5 * 1024 * 1024;

pub const MAX_TOTAL_BYTES: u64 = 35 * 1024 * 1024;

pub const RETENTION_SECONDS: u64 = 7 * 24 * 60 * 60;

pub const MAX_TOKEN_CHARS: usize = 80;

/// The version that each record carries.
pub const VERSION: &'static str = "0.1.5";

/// The shard that is written to.
pub const CURRENT_LOG: &'static str = "current.log";

pub const ARCHIVE_PREFIX: &'static str = "archive-";

#[derive(Debug)]
pub struct Logger {
    pub session_id: String,
}

// ---------------------------------------------------------------------------
// Records
// ---------------------------------------------------------------------------

pub open spec fn level_name(value: Seq<char>) -> Seq<char> {
    let v = text::lower(value);
    if v == text::lower("ERROR"@) {
        "ERROR"@
    } else if v == text::lower("WARN"@) || v == text::lower("WARNING"@) {
        "WARN"@
    } else if v == text::lower("DEBUG"@) {
        "DEBUG"@
    } else {
        "INFO"@
    }
}

pub fn normalize_level(value: &str) -> (r: &'static str)
    ensures
        r@ == level_name(value@),
{
    if eq_ignore_ascii_case(value, "ERROR") {
        "ERROR"
    } else if eq_ignore_ascii_case(value, "WARN") || eq_ignore_ascii_case(value, "WARNING") {
        "WARN"
    } else if eq_ignore_ascii_case(value, "DEBUG") {
        "DEBUG"
    } else {
        "INFO"
    }
}

pub open spec fn token_char(c: char) -> bool {
    text::is_ascii_alnum(c) || c == '_' || c == '-' || c == '.'
}

/// The token characters of `s` from `from` on, at most `room` of them.
pub open spec fn token_from(s: Seq<char>, from: int, room: int) -> Seq<char>
    decreases s.len() - from,
{
    if from < 0 || from >= s.len() || room <= 0 {
        Seq::empty()
    } else if token_char(s[from]) {
        seq![s[from]] + token_from(s, from + 1, room - 1)
    } else {
        token_from(s, from + 1, room)
    }
}

pub open spec fn token(s: Seq<char>) -> Seq<char> {
    token_from(s, 0, MAX_TOKEN_CHARS as int)
}

pub fn sanitize_token(value: &str) -> (r: String)
    ensures
        r@ == token(value@),
{
    let s = chars_of(value);
    let mut kept: Vec<char> = Vec::new();
    let mut i: usize = 0;
    assert(kept@ + token_from(s@, 0, MAX_TOKEN_CHARS as int) =~= token(s@));
    while i < s.len() && kept.len() < MAX_TOKEN_CHARS
        invariant
            0 <= i <= s@.len(),
            kept@.len() <= MAX_TOKEN_CHARS,
            token(s@) == kept@ + token_from(s@, i as int, MAX_TOKEN_CHARS - kept@.len()),
        decreases s@.len() - i,
    {
        let c: char = s[i];
        let ghost before = kept@;
        if is_ascii_alphanumeric(c) || c == '_' || c == '-' || c == '.' {
            kept.push(c);
        }
        i += 1;
        assert(token(s@) =~= kept@ + token_from(s@, i as int, MAX_TOKEN_CHARS - kept@.len()));
    }
    assert(token(s@) =~= kept@);
    string_of(&kept)
}

/// `value` is what the record of an event says: an object with exactly these
/// six members.
pub open spec fn record_value(
    value: JsonModel,
    session: Seq<char>,
    now: u64,
    level: Seq<char>,
    event: Seq<char>,
    detail: Seq<char>,
) -> bool {
    &&& json::member(value, "ts"@) == Some(JsonModel::Number(text::decimal(now as nat)))
    &&& json::member(value, "level"@) == Some(JsonModel::Text(level_name(level)))
    &&& json::member(value, "event"@) == Some(JsonModel::Text(token(event)))
    &&& json::member(value, "detail"@) == Some(JsonModel::Text(redact::redacted(detail)))
    &&& json::member(value, "version"@) == Some(JsonModel::Text(VERSION@))
    &&& json::member(value, "session_id"@) == Some(JsonModel::Text(session))
    &&& value matches JsonModel::Object(members) && json::distinct_members(members) && forall|
        k: int,
    |
        0 <= k < members.len() ==> record_name((#[trigger] members[k]).0)
}

/// `line` is the record of an event: its value as JSON, on one line.
pub open spec fn is_record(
    line: Seq<char>,
    session: Seq<char>,
    now: u64,
    level: Seq<char>,
    event: Seq<char>,
    detail: Seq<char>,
) -> bool {
    &&& forall|k: int| 0 <= k < line.len() ==> #[trigger] line[k] as u32 >= 0x20
    &&& exists|value: JsonModel|
        {
            &&& #[trigger] json::reads_as(line, value)
            &&& line == json::json_written(value)
            &&& line == json::flat_text(value)
            &&& record_value(value, session, now, level, event, detail)
        }
}

pub open spec fn record_name(name: Seq<char>) -> bool {
    name == "ts"@ || name == "level"@ || name == "event"@ || name == "detail"@ || name
        == "version"@ || name == "session_id"@
}

fn text_field(name: &str, value: &str) -> (r: (String, Field))
    ensures
        r.0@ == name@,
        r.1@ == JsonModel::Text(value@),
{
    (name.to_string(), Field::Text(value.to_string()))
}

/// The six names are different.
proof fn lemma_record_names()
    ensures
        "ts"@ != "level"@ && "ts"@ != "event"@ && "ts"@ != "detail"@ && "ts"@ != "version"@ && "ts"@
            != "session_id"@,
        "level"@ != "event"@ && "level"@ != "detail"@ && "level"@ != "version"@ && "level"@
            != "session_id"@,
        "event"@ != "detail"@ && "event"@ != "version"@ && "event"@ != "session_id"@,
        "detail"@ != "version"@ && "detail"@ != "session_id"@,
        "version"@ != "session_id"@,
{
    reveal_strlit("ts");
    reveal_strlit("level");
    reveal_strlit("event");
    reveal_strlit("detail");
    reveal_strlit("version");
    reveal_strlit("session_id");
    assert("ts"@[0] == 't');
    assert("level"@[0] == 'l');
    assert("event"@[0] == 'e');
    assert("detail"@[0] == 'd');
    assert("version"@[0] == 'v');
    assert("session_id"@[0] == 's');
}

/// The session of a run: the time of its start and the process.
pub open spec fn session_name(epoch: u64, process_id: u32) -> Seq<char> {
    text::decimal(epoch as nat) + "-"@ + text::decimal(process_id as nat)
}

/// The bytes that a record takes in a shard, with the end of its line.
pub open spec fn record_size(line: Seq<char>) -> nat {
    vstd::utf8::encode_utf8(line).len() + 1
}

impl Logger {
    /// The session is named as a run names it.
    pub open spec fn of_a_run(&self) -> bool {
        exists|epoch: u64, process_id: u32|
            self.session_id@ == #[trigger] session_name(epoch, process_id)
    }

    pub fn new(epoch: u64, process_id: u32) -> (logger: Self)
        ensures
            logger.session_id@ == session_name(epoch, process_id),
            logger.of_a_run(),
    {
        let logger = Logger {
            session_id: join3(
                &decimal_text(epoch as u128),
                "-",
                &decimal_text(process_id as u128),
            ),
        };
        assert(logger.session_id@ == session_name(epoch, process_id));
        logger
    }

    /// The record of an event, without the end of its line. Secrets in the
    /// detail are redacted, and the record of a run fits into a shard.
    pub fn event(&self, now: u64, level: &str, event: &str, detail: &str) -> (line: String)
        ensures
            is_record(line@, self.session_id@, now, level@, event@, detail@),
            self.of_a_run() ==> record_size(line@) <= MAX_SHARD_BYTES,
    {
        let mut fields: Vec<(String, Field)> = Vec::new();
        fields.push(("ts".to_string(), Field::Number(now)));
        fields.push(text_field("level", normalize_level(level)));
        fields.push(text_field("event", &sanitize_token(event)));
        fields.push(text_field("detail", &redact(detail)));
        fields.push(text_field("version", VERSION));
        fields.push(text_field("session_id", &self.session_id));
        let line = object_text(&fields);
        proof {
            lemma_record_names();
            let value = choose|value: JsonModel|
                {
                    &&& #[trigger] json::holds_fields(value, fields@)
                    &&& line@ == json::json_written(value)
                    &&& line@ == json::flat_text(value)
                    &&& json::reads_as(line@, value)
                };
            assert(json::last_of_name(fields@, 0));
            assert(json::last_of_name(fields@, 1));
            assert(json::last_of_name(fields@, 2));
            assert(json::last_of_name(fields@, 3));
            assert(json::last_of_name(fields@, 4));
            assert(json::last_of_name(fields@, 5));
            assert(fields@[0].1@ == JsonModel::Number(text::decimal(now as nat)));
            assert(json::member(value, fields@[1].0@) == Some(fields@[1].1@));
            assert(json::member(value, fields@[2].0@) == Some(fields@[2].1@));
            assert(json::member(value, fields@[3].0@) == Some(fields@[3].1@));
            assert(json::member(value, fields@[4].0@) == Some(fields@[4].1@));
            assert(json::member(value, fields@[5].0@) == Some(fields@[5].1@));
            assert(json::reads_as(line@, value));
            if self.of_a_run() {
                let (epoch, process_id) = choose|epoch: u64, process_id: u32|
                    self.session_id@ == #[trigger] session_name(epoch, process_id);
                records_fit_a_shard(line@, epoch, process_id, now, level@, event@, detail@);
            }
        }
        line
    }

    /// The newest part of the log: what was read of the file, its last
    /// `max_bytes`, as text.
    pub fn read(&self, data: Vec<u8>, max_bytes: usize) -> (r: String)
        ensures
            r@ == text::utf8_lossy(tail(data@, max_bytes as int)),
    {
        read_tail(data, max_bytes)
    }
}

/// The last `n` bytes, or all where there are fewer.
pub open spec fn tail(data: Seq<u8>, n: int) -> Seq<u8> {
    if data.len() > n {
        data.skip(data.len() - n)
    } else {
        data
    }
}

fn read_tail(data: Vec<u8>, max_bytes: usize) -> (r: String)
    ensures
        r@ == text::utf8_lossy(tail(data@, max_bytes as int)),
{
    let mut all = data;
    if all.len() > max_bytes {
        let at: usize = all.len() - max_bytes;
        let last = all.split_off(at);
        assert(last@ =~= data@.skip(at as int));
        decode_lossy(&last)
    } else {
        decode_lossy(&all)
    }
}

// ---------------------------------------------------------------------------
// Shards
// ---------------------------------------------------------------------------

/// A file as a listing of the log directory has it.
#[derive(Debug)]
pub struct LogFile {
    pub name: String,
    /// Nanoseconds since the epoch, negative before it; nothing where it could
    /// not be told.
    pub modified: Option<i128>,
    /// Bytes; nothing where it could not be told.
    pub size: Option<u64>,
}

impl Clone for LogFile {
    fn clone(&self) -> (r: Self)
        ensures
            r == *self,
    {
        LogFile { name: self.name.clone(), modified: self.modified, size: self.size }
    }
}

/// The current shard makes way for a record. `size` is the shard's length,
/// where it is there, and `record` that of the record with the end of its line,
/// in bytes. An empty shard is never moved.
pub open spec fn rotates(size: Option<u64>, record: u64) -> bool {
    size matches Some(n) && n > 0 && n + record > MAX_SHARD_BYTES
}

/// Whether the current shard is moved away before a record is written.
pub fn should_rotate(size: Option<u64>, record: u64) -> (r: bool)
    ensures
        r == rotates(size, record),
{
    match size {
        Some(n) => n > 0 && (record > MAX_SHARD_BYTES || n > MAX_SHARD_BYTES - record),
        None => false,
    }
}

pub open spec fn archive_file(millis: u128, process_id: u32) -> Seq<char> {
    ARCHIVE_PREFIX@ + text::decimal(millis as nat) + "-"@ + text::decimal(process_id as nat)
        + ".jsonl"@
}

/// The name that a full shard gets.
pub fn archive_name(millis: u128, process_id: u32) -> (r: String)
    ensures
        r@ == archive_file(millis, process_id),
{
    let stem = join3(ARCHIVE_PREFIX, &decimal_text(millis), "-");
    join3(&stem, &decimal_text(process_id as u128), ".jsonl")
}

pub open spec fn current(name: Seq<char>) -> bool {
    name == CURRENT_LOG@
}

/// The file belongs to the log.
pub open spec fn log_name(name: Seq<char>) -> bool {
    current(name) || text::starts_with(name, ARCHIVE_PREFIX@)
}

pub fn is_log_name(name: &str) -> (r: bool)
    ensures
        r == log_name(name@),
{
    same(name, CURRENT_LOG) || text_starts_with(name, ARCHIVE_PREFIX)
}

/// The first `n` files, those that do not belong to the log left out.
pub open spec fn shards(files: Seq<LogFile>, n: int) -> Seq<LogFile>
    decreases n,
{
    if n <= 0 {
        Seq::empty()
    } else if log_name(files[n - 1].name@) {
        shards(files, n - 1).push(files[n - 1])
    } else {
        shards(files, n - 1)
    }
}

pub fn log_files(files: &Vec<LogFile>) -> (r: Vec<LogFile>)
    ensures
        r@ == shards(files@, files@.len() as int),
{
    let mut r: Vec<LogFile> = Vec::new();
    let mut i: usize = 0;
    while i < files.len()
        invariant
            0 <= i <= files@.len(),
            r@ == shards(files@, i as int),
        decreases files@.len() - i,
    {
        if is_log_name(&files[i].name) {
            r.push(files[i].clone());
        }
        i += 1;
    }
    r
}

/// An archive whose last change lies more than the retention before `now`.
pub open spec fn expired(file: LogFile, now: u64) -> bool {
    &&& !current(file.name@)
    &&& file.modified matches Some(t) && t >= 0 && now - t as int / 1_000_000_000
        > RETENTION_SECONDS
}

fn is_expired(file: &LogFile, now: u64) -> (r: bool)
    ensures
        r == expired(*file, now),
{
    if same(&file.name, CURRENT_LOG) {
        return false;
    }
    match file.modified {
        Some(t) => {
            if t < 0 {
                return false;
            }
            let seconds: i128 = t / 1_000_000_000;
            now as i128 - seconds > RETENTION_SECONDS as i128
        },
        None => false,
    }
}

/// The names of the expired ones of the first `n` files.
pub open spec fn expired_names(files: Seq<LogFile>, now: u64, n: int) -> Seq<Seq<char>>
    decreases n,
{
    if n <= 0 {
        Seq::empty()
    } else if log_name(files[n - 1].name@) && expired(files[n - 1], now) {
        expired_names(files, now, n - 1).push(files[n - 1].name@)
    } else {
        expired_names(files, now, n - 1)
    }
}

/// The archives that are too old, to be removed first.
pub fn expired_files(files: &Vec<LogFile>, now: u64) -> (r: Vec<String>)
    ensures
        text::texts(r@) == expired_names(files@, now, files@.len() as int),
{
    let mut r: Vec<String> = Vec::new();
    let mut i: usize = 0;
    assert(text::texts(r@) =~= expired_names(files@, now, 0));
    while i < files.len()
        invariant
            0 <= i <= files@.len(),
            text::texts(r@) == expired_names(files@, now, i as int),
        decreases files@.len() - i,
    {
        let ghost before = text::texts(r@);
        if is_log_name(&files[i].name) && is_expired(&files[i], now) {
            r.push(files[i].name.clone());
            assert(text::texts(r@) =~= before.push(files@[i as int].name@));
        }
        i += 1;
    }
    r
}

/// `a` was changed before `b`; an unknown time counts as the earliest.
pub open spec fn older(a: LogFile, b: LogFile) -> bool {
    match (a.modified, b.modified) {
        (None, Some(_)) => true,
        (Some(x), Some(y)) => x < y,
        _ => false,
    }
}

fn is_older(a: &LogFile, b: &LogFile) -> (r: bool)
    ensures
        r == older(*a, *b),
{
    match (a.modified, b.modified) {
        (None, Some(_)) => true,
        (Some(x), Some(y)) => x < y,
        _ => false,
    }
}

/// Where `file` goes among the first `n` of a list ordered by age: behind all
/// that are not younger.
pub open spec fn place(order: Seq<LogFile>, file: LogFile, n: int) -> int
    decreases n,
{
    if n > 0 && older(file, order[n - 1]) {
        place(order, file, n - 1)
    } else {
        n
    }
}

/// The first `n` files ordered by age, files of one age in their given order.
pub open spec fn by_age(files: Seq<LogFile>, n: int) -> Seq<LogFile>
    decreases n,
{
    if n <= 0 {
        Seq::empty()
    } else {
        let before = by_age(files, n - 1);
        before.insert(place(before, files[n - 1], before.len() as int), files[n - 1])
    }
}

proof fn lemma_place(order: Seq<LogFile>, file: LogFile, n: int)
    requires
        0 <= n <= order.len(),
    ensures
        0 <= place(order, file, n) <= n,
        forall|k: int| place(order, file, n) <= k < n ==> older(file, #[trigger] order[k]),
        place(order, file, n) > 0 ==> !older(file, order[place(order, file, n) - 1]),
    decreases n,
{
    if n > 0 && older(file, order[n - 1]) {
        lemma_place(order, file, n - 1);
    }
}

fn sort_by_age(files: &Vec<LogFile>) -> (r: Vec<LogFile>)
    ensures
        r@ == by_age(files@, files@.len() as int),
{
    let mut r: Vec<LogFile> = Vec::new();
    let mut i: usize = 0;
    while i < files.len()
        invariant
            0 <= i <= files@.len(),
            r@ == by_age(files@, i as int),
        decreases files@.len() - i,
    {
        let mut at: usize = r.len();
        proof {
            lemma_place(r@, files@[i as int], r@.len() as int);
        }
        while at > 0 && is_older(&files[i], &r[at - 1])
            invariant
                i < files@.len(),
                at <= r@.len(),
                place(r@, files@[i as int], r@.len() as int) == place(
                    r@,
                    files@[i as int],
                    at as int,
                ),
            decreases at,
        {
            at -= 1;
        }
        r.insert(at, files[i].clone());
        i += 1;
    }
    r
}

/// The known sizes of the first `n` files together.
pub open spec fn total_size(files: Seq<LogFile>, n: int) -> int
    decreases n,
{
    if n <= 0 {
        0
    } else {
        total_size(files, n - 1) + match files[n - 1].size {
            Some(size) => size as int,
            None => 0,
        }
    }
}

fn sum_sizes(files: &Vec<LogFile>) -> (total: u128)
    ensures
        total == total_size(files@, files@.len() as int),
{
    let mut total: u128 = 0;
    let mut i: usize = 0;
    let n: usize = files.len();
    while i < n
        invariant
            0 <= i <= n == files@.len(),
            total == total_size(files@, i as int),
            total <= i * u64::MAX,
        decreases n - i,
    {
        if let Some(size) = files[i].size {
            total = total + size as u128;
        }
        i += 1;
    }
    total
}

/// What is left of `total` without `size`.
pub open spec fn less(total: int, size: int) -> int {
    if total > size {
        total - size
    } else {
        0
    }
}

/// The archives to be removed from position `from` of the list on, while the
/// total is too large. A file of unknown size stays.
pub open spec fn surplus_from(order: Seq<LogFile>, from: int, total: int) -> Seq<Seq<char>>
    decreases order.len() - from,
{
    if from < 0 || from >= order.len() {
        Seq::empty()
    } else if current(order[from].name@) {
        surplus_from(order, from + 1, total)
    } else if total <= MAX_TOTAL_BYTES {
        Seq::empty()
    } else {
        match order[from].size {
            Some(size) => seq![order[from].name@] + surplus_from(
                order,
                from + 1,
                less(total, size as int),
            ),
            None => surplus_from(order, from + 1, total),
        }
    }
}

/// The log files of a listing, oldest first.
pub open spec fn shards_by_age(files: Seq<LogFile>) -> Seq<LogFile> {
    let kept = shards(files, files.len() as int);
    by_age(kept, kept.len() as int)
}

pub open spec fn shards_size(files: Seq<LogFile>) -> int {
    let kept = shards(files, files.len() as int);
    total_size(kept, kept.len() as int)
}

/// The archives that are to go because the log is too large, oldest first.
pub fn surplus_files(files: &Vec<LogFile>) -> (r: Vec<String>)
    ensures
        text::texts(r@) == surplus_from(shards_by_age(files@), 0, shards_size(files@)),
{
    let kept = log_files(files);
    let mut total: u128 = sum_sizes(&kept);
    let order = sort_by_age(&kept);
    let ghost all = surplus_from(order@, 0, total as int);
    let limit: u128 = MAX_TOTAL_BYTES as u128;
    let mut r: Vec<String> = Vec::new();
    let mut i: usize = 0;
    assert(all =~= text::texts(r@) + surplus_from(order@, 0, total as int));
    while i < order.len()
        invariant_except_break
            0 <= i <= order@.len(),
            limit == MAX_TOTAL_BYTES,
            all == text::texts(r@) + surplus_from(order@, i as int, total as int),
        ensures
            all == text::texts(r@),
        decreases order@.len() - i,
    {
        let ghost had = text::texts(r@);
        if !same(&order[i].name, CURRENT_LOG) {
            if total <= limit {
                assert(all =~= text::texts(r@));
                break;
            }
            if let Some(size) = order[i].size {
                r.push(order[i].name.clone());
                assert(text::texts(r@) =~= had.push(order@[i as int].name@));
                let ghost rest = surplus_from(order@, i + 1, less(total as int, size as int));
                assert(had + (seq![order@[i as int].name@] + rest) =~= text::texts(r@) + rest);
                total = total.saturating_sub(size as u128);
            }
        }
        i += 1;
        assert(all =~= text::texts(r@) + surplus_from(order@, i as int, total as int));
        assert(i == order@.len() ==> surplus_from(order@, i as int, total as int)
            =~= Seq::<Seq<char>>::empty());
    }
    r
}

// ---------------------------------------------------------------------------
// Names in order
// ---------------------------------------------------------------------------

/// `a` comes before `b`, character by character from `from` on.
pub open spec fn precedes(a: Seq<char>, b: Seq<char>, from: int) -> bool
    decreases b.len() - from,
{
    if from < 0 || from >= b.len() {
        false
    } else if from >= a.len() {
        true
    } else if a[from] != b[from] {
        a[from] < b[from]
    } else {
        precedes(a, b, from + 1)
    }
}

fn comes_before(a: &str, b: &str) -> (r: bool)
    ensures
        r == precedes(a@, b@, 0),
{
    let x = chars_of(a);
    let y = chars_of(b);
    let mut i: usize = 0;
    while i < y.len()
        invariant
            0 <= i <= y@.len(),
            i <= x@.len(),
            x@ == a@,
            y@ == b@,
            precedes(x@, y@, 0) == precedes(x@, y@, i as int),
        decreases y@.len() - i,
    {
        if i >= x.len() {
            return true;
        }
        if x[i] != y[i] {
            return x[i] < y[i];
        }
        i += 1;
    }
    false
}

/// Where `name` goes among the first `n` of a list in order.
pub open spec fn name_place(order: Seq<Seq<char>>, name: Seq<char>, n: int) -> int
    decreases n,
{
    if n > 0 && precedes(name, order[n - 1], 0) {
        name_place(order, name, n - 1)
    } else {
        n
    }
}

/// The first `n` names in order.
pub open spec fn in_order(names: Seq<Seq<char>>, n: int) -> Seq<Seq<char>>
    decreases n,
{
    if n <= 0 {
        Seq::empty()
    } else {
        let before = in_order(names, n - 1);
        before.insert(name_place(before, names[n - 1], before.len() as int), names[n - 1])
    }
}

proof fn lemma_name_place(order: Seq<Seq<char>>, name: Seq<char>, n: int)
    requires
        0 <= n <= order.len(),
    ensures
        0 <= name_place(order, name, n) <= n,
        forall|k: int|
            name_place(order, name, n) <= k < n ==> precedes(name, #[trigger] order[k], 0),
        name_place(order, name, n) > 0 ==> !precedes(
            name,
            order[name_place(order, name, n) - 1],
            0,
        ),
    decreases n,
{
    if n > 0 && precedes(name, order[n - 1], 0) {
        lemma_name_place(order, name, n - 1);
    }
}

pub(crate) fn sort_names(names: &Vec<String>) -> (r: Vec<String>)
    ensures
        text::texts(r@) == in_order(text::texts(names@), names@.len() as int),
{
    let ghost all = text::texts(names@);
    let mut r: Vec<String> = Vec::new();
    let mut i: usize = 0;
    assert(text::texts(r@) =~= in_order(all, 0));
    while i < names.len()
        invariant
            0 <= i <= names@.len(),
            all == text::texts(names@),
            text::texts(r@) == in_order(all, i as int),
        decreases names@.len() - i,
    {
        let mut at: usize = r.len();
        let ghost before = text::texts(r@);
        assert(all[i as int] == names@[i as int]@);
        proof {
            lemma_name_place(before, all[i as int], before.len() as int);
        }
        while at > 0 && comes_before(&names[i], &r[at - 1])
            invariant
                i < names@.len(),
                all == text::texts(names@),
                all[i as int] == names@[i as int]@,
                at <= r@.len(),
                before == text::texts(r@),
                name_place(before, all[i as int], before.len() as int) == name_place(
                    before,
                    all[i as int],
                    at as int,
                ),
            decreases at,
        {
            at -= 1;
        }
        let name = names[i].clone();
        r.insert(at, name);
        assert(text::texts(r@) =~= before.insert(at as int, all[i as int]));
        i += 1;
    }
    r
}

/// The first `n` names, those that do not belong to the log left out.
pub open spec fn shard_names(names: Seq<Seq<char>>, n: int) -> Seq<Seq<char>>
    decreases n,
{
    if n <= 0 {
        Seq::empty()
    } else if log_name(names[n - 1]) {
        shard_names(names, n - 1).push(names[n - 1])
    } else {
        shard_names(names, n - 1)
    }
}

pub open spec fn export_order(names: Seq<Seq<char>>) -> Seq<Seq<char>> {
    let kept = shard_names(names, names.len() as int);
    in_order(kept, kept.len() as int)
}

impl Logger {
    pub fn log_dir(&self, local_app_data: Option<String>, app_data: Option<String>) -> (r: Location)
        ensures
            r@ == paths::below(paths::local_location(local_app_data, app_data), "logs"@),
    {
        paths::log_dir(local_app_data, app_data)
    }

    /// The files of a listing that are copied, one after the other, when all
    /// retained shards are exported.
    pub fn export_to(&self, names: &Vec<String>) -> (r: Vec<String>)
        ensures
            text::texts(r@) == export_order(text::texts(names@)),
    {
        let ghost all = text::texts(names@);
        let mut kept: Vec<String> = Vec::new();
        let mut i: usize = 0;
        assert(text::texts(kept@) =~= shard_names(all, 0));
        while i < names.len()
            invariant
                0 <= i <= names@.len(),
                all == text::texts(names@),
                text::texts(kept@) == shard_names(all, i as int),
            decreases names@.len() - i,
        {
            let ghost before = text::texts(kept@);
            assert(all[i as int] == names@[i as int]@);
            if is_log_name(&names[i]) {
                kept.push(names[i].clone());
                assert(text::texts(kept@) =~= before.push(all[i as int]));
            }
            i += 1;
        }
        sort_names(&kept)
    }
}

// ---------------------------------------------------------------------------
// Laws
// ---------------------------------------------------------------------------

proof fn lemma_token(s: Seq<char>, from: int, room: int)
    requires
        0 <= room,
    ensures
        token_from(s, from, room).len() <= room,
        forall|k: int|
            0 <= k < token_from(s, from, room).len() ==> token_char(
                #[trigger] token_from(s, from, room)[k],
            ),
    decreases s.len() - from,
{
    if 0 <= from < s.len() && room > 0 {
        if token_char(s[from]) {
            lemma_token(s, from + 1, room - 1);
        } else {
            lemma_token(s, from + 1, room);
        }
    }
}

/// The event of a record is short and holds nothing but letters, digits,
/// underscores, hyphens and full stops; its level is one of four.
pub proof fn records_name_plain_events(event: Seq<char>, level: Seq<char>)
    ensures
        token(event).len() <= MAX_TOKEN_CHARS,
        forall|k: int| 0 <= k < token(event).len() ==> token_char(#[trigger] token(event)[k]),
        level_name(level) == "ERROR"@ || level_name(level) == "WARN"@ || level_name(level)
            == "DEBUG"@ || level_name(level) == "INFO"@,
{
    lemma_token(event, 0, MAX_TOKEN_CHARS as int);
}

proof fn lemma_insert_multiset<A>(s: Seq<A>, i: int, a: A)
    requires
        0 <= i <= s.len(),
    ensures
        s.insert(i, a).to_multiset() == s.to_multiset().insert(a),
{
    broadcast use vstd::seq_lib::group_to_multiset_ensures;

    let t = s.insert(i, a);
    assert(t.remove(i) =~= s);
    assert(t[i] == a);
    assert(t.contains(a));
    assert(t.to_multiset() =~= s.to_multiset().insert(a));
}

/// Files in the order of their age: none stands before an older one.
pub open spec fn age_sorted(order: Seq<LogFile>) -> bool {
    forall|i: int, j: int| 0 <= i < j < order.len() ==> !older(#[trigger] order[j], #[trigger] order[i])
}

proof fn lemma_by_age(files: Seq<LogFile>, n: int)
    requires
        0 <= n <= files.len(),
    ensures
        age_sorted(by_age(files, n)),
        by_age(files, n).to_multiset() == files.take(n).to_multiset(),
        by_age(files, n).len() == n,
    decreases n,
{
    broadcast use vstd::seq_lib::group_to_multiset_ensures;

    if n > 0 {
        lemma_by_age(files, n - 1);
        let before = by_age(files, n - 1);
        let file = files[n - 1];
        let at = place(before, file, before.len() as int);
        lemma_place(before, file, before.len() as int);
        lemma_insert_multiset(before, at, file);
        assert(files.take(n) =~= files.take(n - 1).push(file));
    } else {
        assert(files.take(0) =~= Seq::<LogFile>::empty());
    }
}

/// Ordering by age loses no file, adds none and puts the oldest first.
pub proof fn age_order_is_a_sort(files: Seq<LogFile>)
    ensures
        age_sorted(by_age(files, files.len() as int)),
        by_age(files, files.len() as int).to_multiset() == files.to_multiset(),
{
    lemma_by_age(files, files.len() as int);
    assert(files.take(files.len() as int) =~= files);
}

proof fn lemma_precedes_not_both(a: Seq<char>, b: Seq<char>, from: int)
    requires
        0 <= from,
        precedes(a, b, from),
    ensures
        !precedes(b, a, from),
    decreases b.len() - from,
{
    if from < a.len() && a[from] == b[from] {
        lemma_precedes_not_both(a, b, from + 1);
    }
}

proof fn lemma_precedes_through(a: Seq<char>, b: Seq<char>, c: Seq<char>, from: int)
    requires
        0 <= from,
        precedes(a, b, from),
        !precedes(c, b, from),
    ensures
        precedes(a, c, from),
    decreases b.len() - from,
{
    if from < a.len() && from < c.len() && a[from] == b[from] && c[from] == b[from] {
        lemma_precedes_through(a, b, c, from + 1);
    }
}

/// Names in order: none stands before one that precedes it.
pub open spec fn name_sorted(order: Seq<Seq<char>>) -> bool {
    forall|i: int, j: int|
        0 <= i < j < order.len() ==> !precedes(#[trigger] order[j], #[trigger] order[i], 0)
}

proof fn lemma_in_order(names: Seq<Seq<char>>, n: int)
    requires
        0 <= n <= names.len(),
    ensures
        name_sorted(in_order(names, n)),
        in_order(names, n).to_multiset() == names.take(n).to_multiset(),
        in_order(names, n).len() == n,
    decreases n,
{
    broadcast use vstd::seq_lib::group_to_multiset_ensures;

    if n > 0 {
        lemma_in_order(names, n - 1);
        let before = in_order(names, n - 1);
        let name = names[n - 1];
        let at = name_place(before, name, before.len() as int);
        lemma_name_place(before, name, before.len() as int);
        lemma_insert_multiset(before, at, name);
        assert(names.take(n) =~= names.take(n - 1).push(name));
        let after = before.insert(at, name);
        assert forall|i: int, j: int| 0 <= i < j < after.len() implies !precedes(
            #[trigger] after[j],
            #[trigger] after[i],
            0,
        ) by {
            if i < at && j == at {
                if precedes(name, before[i], 0) && i < at - 1 {
                    lemma_precedes_through(name, before[i], before[at - 1], 0);
                }
            } else if i == at {
                lemma_precedes_not_both(name, before[j - 1], 0);
            }
        }
    } else {
        assert(names.take(0) =~= Seq::<Seq<char>>::empty());
    }
}

/// Ordering names loses none, adds none and puts them in order.
pub proof fn name_order_is_a_sort(names: Seq<Seq<char>>)
    ensures
        name_sorted(in_order(names, names.len() as int)),
        in_order(names, names.len() as int).to_multiset() == names.to_multiset(),
{
    lemma_in_order(names, names.len() as int);
    assert(names.take(names.len() as int) =~= names);
}

proof fn lemma_expired_names(files: Seq<LogFile>, now: u64, n: int, name: Seq<char>)
    requires
        0 <= n <= files.len(),
    ensures
        expired_names(files, now, n).contains(name) <==> exists|k: int|
            0 <= k < n && (#[trigger] files[k]).name@ == name && log_name(name) && expired(
                files[k],
                now,
            ),
    decreases n,
{
    if n > 0 {
        lemma_expired_names(files, now, n - 1, name);
        let before = expired_names(files, now, n - 1);
        let file = files[n - 1];
        if log_name(file.name@) && expired(file, now) {
            let after = before.push(file.name@);
            if after.contains(name) {
                let k = after.index_of(name);
                if k < before.len() {
                    assert(before[k] == name);
                }
            }
            if before.contains(name) {
                let k = before.index_of(name);
                assert(after[k] == name);
            }
            assert(after[before.len() as int] == file.name@);
        }
    }
}

/// Of a listing, exactly the archives are removed for their age that were last
/// changed more than seven days ago.
pub proof fn retention_is_seven_days(files: Seq<LogFile>, now: u64, name: Seq<char>)
    ensures
        expired_names(files, now, files.len() as int).contains(name) <==> exists|k: int|
            0 <= k < files.len() && (#[trigger] files[k]).name@ == name && log_name(name)
                && expired(files[k], now),
        RETENTION_SECONDS == 7 * 86400,
{
    lemma_expired_names(files, now, files.len() as int, name);
}

/// The length of the current shard once a record is written, with the shard
/// moved away before that where it makes way.
pub open spec fn written_size(size: Option<u64>, record: u64) -> int {
    match size {
        Some(n) if !rotates(size, record) => n + record,
        _ => record as int,
    }
}

/// The length of what is moved away before a record is written.
pub open spec fn moved_size(size: Option<u64>, record: u64) -> int {
    match size {
        Some(n) if rotates(size, record) => n as int,
        _ => 0,
    }
}

/// Each member of a run's record is short, whatever was logged.
proof fn lemma_member_of_record(
    value: JsonModel,
    k: int,
    epoch: u64,
    process_id: u32,
    now: u64,
    level: Seq<char>,
    event: Seq<char>,
    detail: Seq<char>,
)
    requires
        record_value(value, session_name(epoch, process_id), now, level, event, detail),
        0 <= k < value->Object_0.len(),
    ensures
        json::member_text(value->Object_0[k]).len() <= 6100,
{
    let members = value->Object_0;
    let name = members[k].0;
    json::lemma_distinct_member(members, k, 0);
    json::lemma_member_len(members[k]);
    reveal_strlit("ts");
    reveal_strlit("level");
    reveal_strlit("event");
    reveal_strlit("detail");
    reveal_strlit("version");
    reveal_strlit("session_id");
    assert(name.len() <= 10);
    if name == "ts"@ {
        lemma_run_numbers(now, process_id);
    } else if name == "level"@ {
        reveal_strlit("ERROR");
        reveal_strlit("WARN");
        reveal_strlit("DEBUG");
        reveal_strlit("INFO");
    } else if name == "event"@ {
        lemma_token(event, 0, MAX_TOKEN_CHARS as int);
    } else if name == "detail"@ {
        redact::redaction_keeps_one_line(detail);
        text::lemma_bytes_by_chars(redact::redacted(detail));
    } else if name == "version"@ {
        reveal_strlit("0.1.5");
    } else {
        lemma_run_numbers(epoch, process_id);
        reveal_strlit("-");
    }
}

proof fn lemma_run_numbers(n: u64, process_id: u32)
    ensures
        text::decimal(n as nat).len() <= 20,
        text::decimal(process_id as nat).len() <= 10,
{
    reveal_with_fuel(text::ten_to, 21);
    text::lemma_decimal_len(n as nat, 20);
    text::lemma_decimal_len(process_id as nat, 10);
}

/// A record has no more members than there are names for them.
proof fn lemma_record_members(members: Seq<(Seq<char>, JsonModel)>)
    requires
        json::distinct_members(members),
        forall|k: int| 0 <= k < members.len() ==> record_name((#[trigger] members[k]).0),
    ensures
        members.len() <= 6,
{
    let names = members.map_values(|member: (Seq<char>, JsonModel)| member.0);
    let known = seq!["ts"@, "level"@, "event"@, "detail"@, "version"@, "session_id"@];
    assert(names.no_duplicates()) by {
        assert forall|i: int, j: int|
            0 <= i < names.len() && 0 <= j < names.len() && i != j implies names[i] != names[j] by {
            if i < j {
                assert(members[i].0 != members[j].0);
            } else {
                assert(members[j].0 != members[i].0);
            }
        }
    }
    names.unique_seq_to_set();
    vstd::seq_lib::seq_to_set_is_finite(known);
    assert(names.to_set().subset_of(known.to_set())) by {
        assert forall|name: Seq<char>| names.to_set().contains(name) implies known.to_set().contains(
            name,
        ) by {
            let k = names.index_of(name);
            assert(record_name(members[k].0));
            assert(known[0] == "ts"@ && known[1] == "level"@ && known[2] == "event"@ && known[3]
                == "detail"@ && known[4] == "version"@ && known[5] == "session_id"@);
            assert(known.contains(name));
        }
    }
    vstd::set_lib::lemma_len_subset(names.to_set(), known.to_set());
    known.lemma_cardinality_of_set();
}

/// The record of a run fits into a shard, whatever was logged.
pub proof fn records_fit_a_shard(
    line: Seq<char>,
    epoch: u64,
    process_id: u32,
    now: u64,
    level: Seq<char>,
    event: Seq<char>,
    detail: Seq<char>,
)
    requires
        is_record(line, session_name(epoch, process_id), now, level, event, detail),
    ensures
        record_size(line) <= MAX_SHARD_BYTES,
{
    let session = session_name(epoch, process_id);
    let value = choose|value: JsonModel|
        {
            &&& #[trigger] json::reads_as(line, value)
            &&& line == json::json_written(value)
            &&& line == json::flat_text(value)
            &&& record_value(value, session, now, level, event, detail)
        };
    let members = value->Object_0;
    assert forall|k: int| 0 <= k < members.len() implies json::member_text(
        #[trigger] members[k],
    ).len() <= 6100 by {
        lemma_member_of_record(value, k, epoch, process_id, now, level, event, detail);
    }
    lemma_record_members(members);
    json::lemma_members_len(members, 6100);
    assert(members.len() * 6101 <= 6 * 6101);
    text::lemma_bytes_by_chars(line);
}

/// The current shard of a run is within the limit after each write, and so is
/// what is moved away if it was before.
pub proof fn shards_stay_small(
    size: Option<u64>,
    line: Seq<char>,
    epoch: u64,
    process_id: u32,
    now: u64,
    level: Seq<char>,
    event: Seq<char>,
    detail: Seq<char>,
)
    requires
        is_record(line, session_name(epoch, process_id), now, level, event, detail),
    ensures
        ({
            let record = record_size(line) as u64;
            &&& record == record_size(line)
            &&& written_size(size, record) <= MAX_SHARD_BYTES
            &&& (size matches Some(n) ==> n <= MAX_SHARD_BYTES) ==> moved_size(size, record)
                <= MAX_SHARD_BYTES
        }),
{
    records_fit_a_shard(line, epoch, process_id, now, level, event, detail);
}

/// What a file counts for: its size, where it is known, unless it is removed.
pub open spec fn weight(file: LogFile, removed: Seq<Seq<char>>) -> int {
    match file.size {
        Some(size) if !removed.contains(file.name@) => size as int,
        _ => 0,
    }
}

/// The known sizes of those of the first `n` files that are not removed.
pub open spec fn kept_size(files: Seq<LogFile>, removed: Seq<Seq<char>>, n: int) -> int
    decreases n,
{
    if n <= 0 {
        0
    } else {
        kept_size(files, removed, n - 1) + weight(files[n - 1], removed)
    }
}

pub open spec fn distinct_names(files: Seq<LogFile>) -> bool {
    forall|i: int, j: int|
        0 <= i < j < files.len() ==> (#[trigger] files[i]).name@ != (#[trigger] files[j]).name@
}

proof fn lemma_kept_same(a: Seq<LogFile>, b: Seq<LogFile>, removed: Seq<Seq<char>>, n: int)
    requires
        0 <= n <= a.len(),
        n <= b.len(),
        forall|k: int| 0 <= k < n ==> a[k] == b[k],
    ensures
        kept_size(a, removed, n) == kept_size(b, removed, n),
    decreases n,
{
    if n > 0 {
        lemma_kept_same(a, b, removed, n - 1);
    }
}

proof fn lemma_kept_insert(
    s: Seq<LogFile>,
    at: int,
    file: LogFile,
    removed: Seq<Seq<char>>,
    n: int,
)
    requires
        0 <= at <= n <= s.len(),
    ensures
        kept_size(s.insert(at, file), removed, n + 1) == kept_size(s, removed, n) + weight(
            file,
            removed,
        ),
    decreases n,
{
    let t = s.insert(at, file);
    if n == at {
        lemma_kept_same(s, t, removed, at);
        assert(t[at] == file);
    } else {
        lemma_kept_insert(s, at, file, removed, n - 1);
        assert(t[n] == s[n - 1]);
    }
}

proof fn lemma_kept_by_age(files: Seq<LogFile>, removed: Seq<Seq<char>>, n: int)
    requires
        0 <= n <= files.len(),
    ensures
        by_age(files, n).len() == n,
        kept_size(by_age(files, n), removed, n) == kept_size(files, removed, n),
    decreases n,
{
    if n > 0 {
        lemma_kept_by_age(files, removed, n - 1);
        let before = by_age(files, n - 1);
        lemma_place(before, files[n - 1], before.len() as int);
        lemma_kept_insert(
            before,
            place(before, files[n - 1], before.len() as int),
            files[n - 1],
            removed,
            n - 1,
        );
    }
}

proof fn lemma_kept_all(files: Seq<LogFile>, n: int)
    ensures
        kept_size(files, Seq::empty(), n) == total_size(files, n),
    decreases n,
{
    if n > 0 {
        lemma_kept_all(files, n - 1);
    }
}

/// No more is kept of the files from `from` on than there is of them.
proof fn lemma_kept_at_most(files: Seq<LogFile>, removed: Seq<Seq<char>>, from: int, n: int)
    requires
        0 <= from <= n <= files.len(),
    ensures
        kept_size(files, removed, n) - kept_size(files, removed, from) <= total_size(files, n)
            - total_size(files, from),
    decreases n,
{
    if from < n {
        lemma_kept_at_most(files, removed, from, n - 1);
    }
}

/// Removal goes on until what is kept is within the limit, or until only the
/// current shard and files of unknown size are left.
proof fn lemma_removal(order: Seq<LogFile>, removed: Seq<Seq<char>>, from: int, total: int)
    requires
        0 <= from <= order.len(),
        forall|k: int|
            0 <= k < surplus_from(order, from, total).len() ==> removed.contains(
                #[trigger] surplus_from(order, from, total)[k],
            ),
        kept_size(order, removed, from) + total_size(order, order.len() as int) - total_size(
            order,
            from,
        ) <= total,
        forall|k: int|
            0 <= k < from ==> weight(#[trigger] order[k], removed) == 0 || current(order[k].name@),
    ensures
        kept_size(order, removed, order.len() as int) <= MAX_TOTAL_BYTES || forall|k: int|
            0 <= k < order.len() ==> weight(#[trigger] order[k], removed) == 0 || current(
                order[k].name@,
            ),
    decreases order.len() - from,
{
    let going = surplus_from(order, from, total);
    if from < order.len() {
        if current(order[from].name@) {
            assert(going == surplus_from(order, from + 1, total));
            lemma_removal(order, removed, from + 1, total);
        } else if total <= MAX_TOTAL_BYTES {
            lemma_kept_at_most(order, removed, from, order.len() as int);
        } else {
            match order[from].size {
                Some(size) => {
                    let left = less(total, size as int);
                    let rest = surplus_from(order, from + 1, left);
                    assert(going == seq![order[from].name@] + rest);
                    assert(going[0] == order[from].name@);
                    assert forall|k: int| 0 <= k < rest.len() implies removed.contains(
                        #[trigger] rest[k],
                    ) by {
                        assert(going[k + 1] == rest[k]);
                    }
                    assert(weight(order[from], removed) == 0);
                    lemma_kept_not_negative(order, removed, from);
                    lemma_total_grows(order, from + 1, order.len() as int);
                    lemma_removal(order, removed, from + 1, left);
                },
                None => {
                    assert(going == surplus_from(order, from + 1, total));
                    lemma_removal(order, removed, from + 1, total);
                },
            }
        }
    }
}

proof fn lemma_kept_not_negative(files: Seq<LogFile>, removed: Seq<Seq<char>>, n: int)
    ensures
        kept_size(files, removed, n) >= 0,
    decreases n,
{
    if n > 0 {
        lemma_kept_not_negative(files, removed, n - 1);
    }
}

proof fn lemma_total_grows(files: Seq<LogFile>, from: int, n: int)
    requires
        0 <= from <= n,
    ensures
        total_size(files, from) <= total_size(files, n),
    decreases n,
{
    if from < n {
        lemma_total_grows(files, from, n - 1);
    }
}

proof fn lemma_shards(files: Seq<LogFile>, n: int)
    requires
        0 <= n <= files.len(),
    ensures
        forall|k: int|
            0 <= k < shards(files, n).len() ==> exists|j: int|
                0 <= j < n && #[trigger] files[j] == #[trigger] shards(files, n)[k],
        distinct_names(files) ==> distinct_names(shards(files, n)),
    decreases n,
{
    if n > 0 {
        lemma_shards(files, n - 1);
        let before = shards(files, n - 1);
        let all = shards(files, n);
        assert forall|k: int| 0 <= k < all.len() implies exists|j: int|
            0 <= j < n && #[trigger] files[j] == #[trigger] all[k] by {
            if k < before.len() {
                assert(all[k] == before[k]);
                let j = choose|j: int|
                    0 <= j < n - 1 && #[trigger] files[j] == #[trigger] before[k];
                assert(files[j] == all[k]);
            } else {
                assert(files[n - 1] == all[k]);
            }
        }
        if distinct_names(files) {
            assert forall|i: int, j: int| 0 <= i < j < all.len() implies (#[trigger] all[i]).name@
                != (#[trigger] all[j]).name@ by {
                assert(all[i] == before[i]);
                if j < before.len() {
                    assert(all[j] == before[j]);
                } else {
                    let m = choose|m: int|
                        0 <= m < n - 1 && #[trigger] files[m] == #[trigger] before[i];
                    assert(all[j] == files[n - 1]);
                }
            }
        }
    }
}

/// Where only the current shard counts, there is no more than it.
proof fn lemma_only_current(files: Seq<LogFile>, removed: Seq<Seq<char>>, n: int)
    requires
        0 <= n <= files.len(),
        distinct_names(files),
        forall|k: int|
            0 <= k < files.len() ==> weight(#[trigger] files[k], removed) == 0 || current(
                files[k].name@,
            ),
        forall|k: int|
            0 <= k < files.len() && current((#[trigger] files[k]).name@) ==> weight(
                files[k],
                removed,
            ) <= MAX_TOTAL_BYTES,
    ensures
        kept_size(files, removed, n) <= MAX_TOTAL_BYTES,
        kept_size(files, removed, n) == 0 || exists|k: int|
            0 <= k < n && current((#[trigger] files[k]).name@),
    decreases n,
{
    if n > 0 {
        lemma_only_current(files, removed, n - 1);
        if weight(files[n - 1], removed) != 0 {
            assert(current(files[n - 1].name@));
        }
    }
}

proof fn lemma_surplus(order: Seq<LogFile>, from: int, total: int)
    requires
        0 <= from,
    ensures
        !surplus_from(order, from, total).contains(CURRENT_LOG@),
        total <= MAX_TOTAL_BYTES ==> surplus_from(order, from, total).len() == 0,
    decreases order.len() - from,
{
    if from < order.len() {
        if current(order[from].name@) {
            lemma_surplus(order, from + 1, total);
        } else if total > MAX_TOTAL_BYTES {
            match order[from].size {
                Some(size) => {
                    let rest = surplus_from(order, from + 1, less(total, size as int));
                    lemma_surplus(order, from + 1, less(total, size as int));
                    let all = seq![order[from].name@] + rest;
                    if all.contains(CURRENT_LOG@) {
                        let k = all.index_of(CURRENT_LOG@);
                        if k > 0 {
                            assert(rest[k - 1] == CURRENT_LOG@);
                            assert(rest.contains(CURRENT_LOG@));
                        }
                    }
                },
                None => {
                    lemma_surplus(order, from + 1, total);
                },
            }
        }
    }
}

/// Once the surplus is removed, the shards that are left are within the total,
/// as far as their sizes are known and if the current shard alone is; nothing
/// is removed from a log within its total.
pub proof fn total_is_bounded(files: Seq<LogFile>)
    requires
        distinct_names(files),
        forall|k: int|
            0 <= k < files.len() && current((#[trigger] files[k]).name@) ==> {
                files[k].size matches Some(size) ==> size <= MAX_TOTAL_BYTES
            },
    ensures
        ({
            let kept = shards(files, files.len() as int);
            let removed = surplus_from(shards_by_age(files), 0, shards_size(files));
            &&& kept_size(kept, removed, kept.len() as int) <= MAX_TOTAL_BYTES
            &&& shards_size(files) <= MAX_TOTAL_BYTES ==> removed.len() == 0
        }),
{
    let kept = shards(files, files.len() as int);
    let n = kept.len() as int;
    let order = shards_by_age(files);
    let total = shards_size(files);
    let removed = surplus_from(order, 0, total);
    lemma_surplus(order, 0, total);
    lemma_shards(files, files.len() as int);
    lemma_kept_by_age(kept, removed, n);
    lemma_kept_by_age(kept, Seq::empty(), n);
    lemma_kept_all(kept, n);
    lemma_kept_all(order, n);
    assert forall|k: int| 0 <= k < removed.len() implies removed.contains(
        #[trigger] removed[k],
    ) by {}
    lemma_removal(order, removed, 0, total);
    if kept_size(order, removed, n) > MAX_TOTAL_BYTES {
        lemma_by_age(kept, n);
        assert(kept.take(n) =~= kept);
        assert forall|k: int| 0 <= k < n implies weight(#[trigger] kept[k], removed) == 0 || current(
            kept[k].name@,
        ) by {
            broadcast use vstd::seq_lib::group_to_multiset_ensures;

            assert(kept.contains(kept[k]));
            assert(kept.to_multiset().count(kept[k]) > 0);
            assert(order.contains(kept[k]));
        }
        lemma_only_current(kept, removed, n);
    }
}

/// The shard that is written to is never removed.
pub proof fn current_shard_stays(files: Seq<LogFile>, now: u64)
    ensures
        !expired_names(files, now, files.len() as int).contains(CURRENT_LOG@),
        !surplus_from(shards_by_age(files), 0, shards_size(files)).contains(CURRENT_LOG@),
{
    lemma_expired_names(files, now, files.len() as int, CURRENT_LOG@);
    lemma_surplus(shards_by_age(files), 0, shards_size(files));
}

// ---------------------------------------------------------------------------
// What the log is for
// ---------------------------------------------------------------------------

/// The bounds and names of the log.
pub proof fn log_bounds_are_these()
    ensures
        MAX_SHARD_BYTES == 5_242_880,
        MAX_TOTAL_BYTES == 36_700_160,
        RETENTION_SECONDS == 604_800,
        MAX_TOKEN_CHARS == 80,
        VERSION@ == "0.1.5"@,
        CURRENT_LOG@ == "current.log"@,
        ARCHIVE_PREFIX@ == "archive-"@,
{
}

/// Levels are told in letters of either case: an error, a warning under two
/// names, a detail for debugging; anything else is information.
pub proof fn levels_are_told_in_any_case(value: Seq<char>)
    ensures
        text::lower(value) == "error"@ ==> level_name(value) == "ERROR"@,
        text::lower(value) == "warn"@ ==> level_name(value) == "WARN"@,
        text::lower(value) == "warning"@ ==> level_name(value) == "WARN"@,
        text::lower(value) == "debug"@ ==> level_name(value) == "DEBUG"@,
        text::lower(value) != "error"@ && text::lower(value) != "warn"@ && text::lower(value)
            != "warning"@ && text::lower(value) != "debug"@ ==> level_name(value) == "INFO"@,
{
    reveal_strlit("ERROR");
    reveal_strlit("error");
    reveal_strlit("WARN");
    reveal_strlit("warn");
    reveal_strlit("WARNING");
    reveal_strlit("warning");
    reveal_strlit("DEBUG");
    reveal_strlit("debug");
    assert(text::lower("ERROR"@) =~= "error"@);
    assert(text::lower("WARN"@) =~= "warn"@);
    assert(text::lower("WARNING"@) =~= "warning"@);
    assert(text::lower("DEBUG"@) =~= "debug"@);
    assert("error"@.len() == 5 && "error"@[0] == 'e');
    assert("debug"@.len() == 5 && "debug"@[0] == 'd');
    assert("warn"@.len() == 4 && "warning"@.len() == 7);
}

/// A letter, a digit, an underscore, a hyphen or a full stop.
pub open spec fn plain_in_names(c: char) -> bool {
    ('0' <= c && c <= '9') || ('A' <= c && c <= 'Z') || ('a' <= c && c <= 'z') || c == '_' || c
        == '-' || c == '.'
}

proof fn lemma_token_skips(a: Seq<char>, c: char, b: Seq<char>, from: int, room: int)
    requires
        0 <= from <= a.len(),
        !token_char(c),
    ensures
        token_from(a + seq![c] + b, from, room) == token_from(a + b, from, room),
    decreases a.len() - from,
{
    let s = a + seq![c] + b;
    let t = a + b;
    if from < a.len() {
        assert(s[from] == a[from] && t[from] == a[from]);
        if token_char(a[from]) {
            lemma_token_skips(a, c, b, from + 1, room - 1);
        } else {
            lemma_token_skips(a, c, b, from + 1, room);
        }
    } else {
        assert(s[from] == c);
        lemma_token_shifts(a + seq![c], a, b, 0, room);
        if room > 0 {
            assert(token_from(s, from, room) == token_from(s, from + 1, room));
        }
    }
}

proof fn lemma_token_shifts(a: Seq<char>, c: Seq<char>, b: Seq<char>, from: int, room: int)
    requires
        0 <= from <= b.len(),
    ensures
        token_from(a + b, a.len() + from, room) == token_from(c + b, c.len() + from, room),
    decreases b.len() - from,
{
    let s = a + b;
    let t = c + b;
    if from < b.len() {
        assert(s[a.len() + from] == b[from] && t[c.len() + from] == b[from]);
        if token_char(b[from]) {
            lemma_token_shifts(a, c, b, from + 1, room - 1);
        } else {
            lemma_token_shifts(a, c, b, from + 1, room);
        }
    }
}

proof fn lemma_token_plain(s: Seq<char>, from: int, room: int)
    requires
        0 <= from <= s.len(),
        0 <= room,
        forall|k: int| 0 <= k < s.len() ==> token_char(#[trigger] s[k]),
    ensures
        token_from(s, from, room) == if s.len() - from <= room {
            s.skip(from)
        } else {
            s.subrange(from, from + room)
        },
    decreases s.len() - from,
{
    if from < s.len() && room > 0 {
        lemma_token_plain(s, from + 1, room - 1);
        assert(token_char(s[from]));
        if s.len() - from <= room {
            assert(seq![s[from]] + s.skip(from + 1) =~= s.skip(from));
        } else {
            assert(seq![s[from]] + s.subrange(from + 1, from + room) =~= s.subrange(
                from,
                from + room,
            ));
        }
    } else if from == s.len() {
        assert(s.skip(from) =~= Seq::<char>::empty());
    } else {
        assert(s.subrange(from, from) =~= Seq::<char>::empty());
    }
}

/// The name of an event keeps its plain characters in their order, up to the
/// first eighty, and every other character is left out.
pub proof fn event_names_keep_plain_characters(
    s: Seq<char>,
    before: Seq<char>,
    c: char,
    after: Seq<char>,
)
    ensures
        token_char(c) <==> plain_in_names(c),
        !plain_in_names(c) ==> token(before + seq![c] + after) == token(before + after),
        (forall|k: int| 0 <= k < s.len() ==> plain_in_names(#[trigger] s[k])) ==> token(s)
            == if s.len() <= 80 {
            s
        } else {
            s.take(80)
        },
{
    if !token_char(c) {
        lemma_token_skips(before, c, after, 0, 80);
    }
    if forall|k: int| 0 <= k < s.len() ==> plain_in_names(#[trigger] s[k]) {
        assert forall|k: int| 0 <= k < s.len() implies token_char(#[trigger] s[k]) by {
            assert(plain_in_names(s[k]));
        }
        lemma_token_plain(s, 0, 80);
        assert(s.skip(0) =~= s);
        if s.len() > 80 {
            assert(s.subrange(0, 80) =~= s.take(80));
        }
    }
}

proof fn lemma_member_held(
    members: Seq<(Seq<char>, JsonModel)>,
    key: Seq<char>,
    from: int,
    value: JsonModel,
)
    requires
        0 <= from,
        json::member_from(members, key, from) == Some(value),
    ensures
        members.contains((key, value)),
    decreases members.len() - from,
{
    if from < members.len() {
        if members[from].0 == key {
            assert(members[from] == (key, value));
        } else {
            lemma_member_held(members, key, from + 1, value);
        }
    }
}

/// A record says when, how urgent, what, with which details, from which version
/// and in which run, and nothing else; each under its own name.
pub proof fn records_say_what_happened(
    line: Seq<char>,
    session: Seq<char>,
    now: u64,
    level: Seq<char>,
    event: Seq<char>,
    detail: Seq<char>,
) -> (r: (Seq<(Seq<char>, JsonModel)>, Seq<char>))
    requires
        is_record(line, session, now, level, event, detail),
    ensures
        json::reads_as(line, JsonModel::Object(r.0)),
        line == json::flat_text(JsonModel::Object(r.0)),
        text::number(r.1) == now,
        r.0.contains(("ts"@, JsonModel::Number(r.1))),
        r.0.contains(("level"@, JsonModel::Text(level_name(level)))),
        r.0.contains(("event"@, JsonModel::Text(token(event)))),
        r.0.contains(("detail"@, JsonModel::Text(redact::redacted(detail)))),
        r.0.contains(("version"@, JsonModel::Text("0.1.5"@))),
        r.0.contains(("session_id"@, JsonModel::Text(session))),
        forall|k: int|
            0 <= k < r.0.len() ==> {
                let name = (#[trigger] r.0[k]).0;
                name == "ts"@ || name == "level"@ || name == "event"@ || name == "detail"@ || name
                    == "version"@ || name == "session_id"@
            },
        forall|i: int, j: int|
            0 <= i < j < r.0.len() ==> (#[trigger] r.0[i]).0 != (#[trigger] r.0[j]).0,
        forall|k: int| 0 <= k < line.len() ==> #[trigger] line[k] as u32 >= 0x20,
{
    let value = choose|value: JsonModel|
        {
            &&& #[trigger] json::reads_as(line, value)
            &&& line == json::json_written(value)
            &&& line == json::flat_text(value)
            &&& record_value(value, session, now, level, event, detail)
        };
    let members = value->Object_0;
    let digits = text::decimal(now as nat);
    text::decimal_reads_back(now as nat);
    lemma_member_held(members, "ts"@, 0, JsonModel::Number(digits));
    lemma_member_held(members, "level"@, 0, JsonModel::Text(level_name(level)));
    lemma_member_held(members, "event"@, 0, JsonModel::Text(token(event)));
    lemma_member_held(members, "detail"@, 0, JsonModel::Text(redact::redacted(detail)));
    lemma_member_held(members, "version"@, 0, JsonModel::Text(VERSION@));
    lemma_member_held(members, "session_id"@, 0, JsonModel::Text(session));
    assert forall|k: int| 0 <= k < members.len() implies {
        let name = (#[trigger] members[k]).0;
        name == "ts"@ || name == "level"@ || name == "event"@ || name == "detail"@ || name
            == "version"@ || name == "session_id"@
    } by {
        assert(record_name(members[k].0));
    }
    (members, digits)
}

proof fn lemma_dashed(a: nat, x: Seq<char>, c: nat, y: Seq<char>)
    requires
        text::decimal(a) + "-"@ + x == text::decimal(c) + "-"@ + y,
    ensures
        a == c,
        x == y,
{
    reveal_strlit("-");
    text::decimal_reads_back(a);
    text::decimal_reads_back(c);
    let p = text::decimal(a);
    let q = text::decimal(c);
    let s = p + "-"@ + x;
    assert(s[p.len() as int] == '-');
    assert((q + "-"@ + y)[q.len() as int] == '-');
    if p.len() < q.len() {
        assert((q + "-"@ + y)[p.len() as int] == q[p.len() as int]);
    }
    if q.len() < p.len() {
        assert(s[q.len() as int] == p[q.len() as int]);
    }
    assert(p =~= s.take(p.len() as int));
    assert(q =~= s.take(p.len() as int));
    assert(x =~= s.skip((p.len() + 1) as int));
    assert(y =~= s.skip((p.len() + 1) as int));
}

/// Runs that started at different times, or as different processes, have
/// different sessions; a session is two numbers with a hyphen between them.
pub proof fn sessions_tell_runs_apart(a: u64, p: u32, b: u64, q: u32) -> (r: (Seq<char>, Seq<char>))
    ensures
        session_name(a, p) == session_name(b, q) ==> a == b && p == q,
        session_name(a, p) == r.0 + "-"@ + r.1,
        text::number(r.0) == a,
        text::number(r.1) == p,
{
    text::decimal_reads_back(a as nat);
    text::decimal_reads_back(p as nat);
    text::decimal_reads_back(q as nat);
    if session_name(a, p) == session_name(b, q) {
        lemma_dashed(a as nat, text::decimal(p as nat), b as nat, text::decimal(q as nat));
    }
    (text::decimal(a as nat), text::decimal(p as nat))
}

/// An archive is named after the moment and the process that moved it away;
/// two such moments or processes give two names.
pub proof fn archives_tell_moments_apart(a: u128, p: u32, b: u128, q: u32) -> (r: (
    Seq<char>,
    Seq<char>,
))
    ensures
        archive_file(a, p) == archive_file(b, q) ==> a == b && p == q,
        archive_file(a, p) == "archive-"@ + r.0 + "-"@ + r.1 + ".jsonl"@,
        text::number(r.0) == a,
        text::number(r.1) == p,
{
    text::decimal_reads_back(a as nat);
    text::decimal_reads_back(p as nat);
    text::decimal_reads_back(q as nat);
    let da = text::decimal(a as nat);
    let dp = text::decimal(p as nat);
    let db = text::decimal(b as nat);
    let dq = text::decimal(q as nat);
    if archive_file(a, p) == archive_file(b, q) {
        let x = dp + ".jsonl"@;
        let y = dq + ".jsonl"@;
        let n = ARCHIVE_PREFIX@.len() as int;
        let s = archive_file(a, p);
        assert(s.skip(n) =~= da + "-"@ + x);
        assert(s.skip(n) =~= db + "-"@ + y);
        lemma_dashed(a as nat, x, b as nat, y);
        assert(dp.len() == dq.len()) by {
            assert(x.len() == dp.len() + ".jsonl"@.len());
            assert(y.len() == dq.len() + ".jsonl"@.len());
        }
        assert(dp =~= x.take(dp.len() as int));
        assert(dq =~= y.take(dp.len() as int));
    }
    (da, dp)
}

/// Of what was read the newest bytes are shown: the last ones, as many as are
/// asked for, or all.
pub proof fn newest_bytes_are_shown(before: Seq<u8>, newest: Seq<u8>, n: int)
    ensures
        tail(before + newest, newest.len() as int) == newest,
        before.len() <= n ==> tail(before, n) == before,
        0 <= n ==> tail(before, n).len() <= n,
{
    if before.len() > 0 {
        assert((before + newest).skip(before.len() as int) =~= newest);
    } else {
        assert(before + newest =~= newest);
    }
}

/// A shard makes way exactly where it holds something and the record would make
/// it longer than five mebibytes.
pub proof fn full_shards_make_way(n: u64, record: u64)
    ensures
        !rotates(None, record),
        !rotates(Some(0), record),
        n > 0 ==> (rotates(Some(n), record) <==> n + record > 5_242_880),
{
}

/// The log is the current shard and the archives.
pub open spec fn in_log() -> spec_fn(LogFile) -> bool {
    |file: LogFile|
        file.name@ == "current.log"@ || text::starts_with(file.name@, "archive-"@)
}

pub open spec fn named_in_log() -> spec_fn(Seq<char>) -> bool {
    |name: Seq<char>| name == "current.log"@ || text::starts_with(name, "archive-"@)
}

proof fn lemma_filter_push<A>(s: Seq<A>, x: A, p: spec_fn(A) -> bool)
    ensures
        s.push(x).filter(p) == if p(x) {
            s.filter(p).push(x)
        } else {
            s.filter(p)
        },
        Seq::<A>::empty().filter(p) == Seq::<A>::empty(),
{
    reveal(Seq::filter);
    assert(s.push(x).drop_last() =~= s);
}

proof fn lemma_shards_filter(files: Seq<LogFile>, n: int)
    requires
        0 <= n <= files.len(),
    ensures
        shards(files, n) == files.take(n).filter(in_log()),
    decreases n,
{
    if n > 0 {
        lemma_shards_filter(files, n - 1);
        assert(files.take(n) =~= files.take(n - 1).push(files[n - 1]));
        lemma_filter_push(files.take(n - 1), files[n - 1], in_log());
    } else {
        assert(files.take(0) =~= Seq::<LogFile>::empty());
        lemma_filter_push(files.take(0), files[0], in_log());
    }
}

proof fn lemma_names_filter(names: Seq<Seq<char>>, n: int)
    requires
        0 <= n <= names.len(),
    ensures
        shard_names(names, n) == names.take(n).filter(named_in_log()),
    decreases n,
{
    if n > 0 {
        lemma_names_filter(names, n - 1);
        assert(names.take(n) =~= names.take(n - 1).push(names[n - 1]));
        lemma_filter_push(names.take(n - 1), names[n - 1], named_in_log());
    } else {
        assert(names.take(0) =~= Seq::<Seq<char>>::empty());
        lemma_filter_push(names.take(0), names[0], named_in_log());
    }
}

/// Of a listing, exactly the current shard and the archives belong to the log,
/// in the order of the listing; what is exported are these names in order.
pub proof fn log_files_are_picked_by_name(
    files: Seq<LogFile>,
    names: Seq<Seq<char>>,
    name: Seq<char>,
)
    ensures
        log_name(name) <==> name == "current.log"@ || text::starts_with(name, "archive-"@),
        current(name) <==> name == "current.log"@,
        shards(files, files.len() as int) == files.filter(in_log()),
        name_sorted(export_order(names)),
        export_order(names).to_multiset() == names.filter(named_in_log()).to_multiset(),
{
    lemma_shards_filter(files, files.len() as int);
    assert(files.take(files.len() as int) =~= files);
    lemma_names_filter(names, names.len() as int);
    assert(names.take(names.len() as int) =~= names);
    name_order_is_a_sort(shard_names(names, names.len() as int));
}

/// Too old is an archive that was changed more than 604800 seconds ago; the
/// current shard never is, nor what has no time or one before the epoch.
pub open spec fn too_old(now: u64) -> spec_fn(LogFile) -> bool {
    |file: LogFile|
        {
            &&& file.name@ != "current.log"@
            &&& text::starts_with(file.name@, "archive-"@)
            &&& file.modified matches Some(t) && t >= 0 && now - t as int / 1_000_000_000 > 604_800
        }
}

pub open spec fn file_names(files: Seq<LogFile>) -> Seq<Seq<char>> {
    files.map_values(|file: LogFile| file.name@)
}

proof fn lemma_expired_filter(files: Seq<LogFile>, now: u64, n: int)
    requires
        0 <= n <= files.len(),
    ensures
        expired_names(files, now, n) == file_names(files.take(n).filter(too_old(now))),
    decreases n,
{
    let p = too_old(now);
    if n > 0 {
        lemma_expired_filter(files, now, n - 1);
        let front = files.take(n - 1);
        let file = files[n - 1];
        assert(files.take(n) =~= front.push(file));
        lemma_filter_push(front, file, p);
        if p(file) {
            assert(file_names(front.filter(p).push(file)) =~= file_names(front.filter(p)).push(
                file.name@,
            ));
        }
    } else {
        assert(files.take(0) =~= Seq::<LogFile>::empty());
        lemma_filter_push(files.take(0), files[0], p);
        assert(file_names(Seq::empty()) =~= Seq::<Seq<char>>::empty());
    }
}

/// Exactly the archives that are too old are removed for their age, in the
/// order of the listing.
pub proof fn old_archives_are_removed(files: Seq<LogFile>, now: u64)
    ensures
        expired_names(files, now, files.len() as int) == file_names(files.filter(too_old(now))),
{
    lemma_expired_filter(files, now, files.len() as int);
    assert(files.take(files.len() as int) =~= files);
}

/// The earlier change is the older file; an unknown one is older than any.
pub proof fn age_is_the_last_change(a: LogFile, b: LogFile, x: i128, y: i128)
    ensures
        a.modified == Some(x) && b.modified == Some(y) ==> (older(a, b) <==> x < y),
        a.modified is None && b.modified is Some ==> older(a, b),
        b.modified is None ==> !older(a, b),
{
}

/// Changed at that time, or at an unknown one.
pub open spec fn of_age(modified: Option<i128>) -> spec_fn(LogFile) -> bool {
    |file: LogFile| file.modified == modified
}

proof fn lemma_none_of_age(files: Seq<LogFile>, modified: Option<i128>)
    requires
        forall|k: int| 0 <= k < files.len() ==> (#[trigger] files[k]).modified != modified,
    ensures
        files.filter(of_age(modified)) == Seq::<LogFile>::empty(),
    decreases files.len(),
{
    if files.len() > 0 {
        let front = files.drop_last();
        assert forall|k: int| 0 <= k < front.len() implies (#[trigger] front[k]).modified
            != modified by {
            assert(front[k] == files[k]);
        }
        lemma_none_of_age(front, modified);
        assert(files =~= front.push(files.last()));
        lemma_filter_push(front, files.last(), of_age(modified));
    } else {
        assert(files =~= Seq::<LogFile>::empty());
        lemma_filter_push(files, files[0], of_age(modified));
    }
}

proof fn lemma_stable(files: Seq<LogFile>, n: int, modified: Option<i128>)
    requires
        0 <= n <= files.len(),
    ensures
        by_age(files, n).filter(of_age(modified)) == files.take(n).filter(of_age(modified)),
    decreases n,
{
    let p = of_age(modified);
    if n > 0 {
        lemma_stable(files, n - 1, modified);
        let before = by_age(files, n - 1);
        let file = files[n - 1];
        let at = place(before, file, before.len() as int);
        lemma_place(before, file, before.len() as int);
        let left = before.take(at);
        let right = before.skip(at);
        assert(before =~= left + right);
        assert(before.insert(at, file) =~= left.push(file) + right);
        assert(files.take(n) =~= files.take(n - 1).push(file));
        lemma_filter_push(files.take(n - 1), file, p);
        lemma_filter_push(left, file, p);
        Seq::filter_distributes_over_add(left.push(file), right, p);
        Seq::filter_distributes_over_add(left, right, p);
        if p(file) {
            assert forall|k: int| 0 <= k < right.len() implies (#[trigger] right[k]).modified
                != modified by {
                assert(older(file, before[at + k]));
            }
            lemma_none_of_age(right, modified);
            assert(left.filter(p) + right.filter(p) =~= left.filter(p));
            assert(left.filter(p).push(file) + right.filter(p) =~= left.filter(p).push(file));
        }
    } else {
        assert(files.take(0) =~= Seq::<LogFile>::empty());
    }
}

/// Files of one age keep the order of the listing.
pub proof fn files_of_one_age_keep_their_order(files: Seq<LogFile>, modified: Option<i128>)
    ensures
        by_age(files, files.len() as int).filter(of_age(modified)) == files.filter(
            of_age(modified),
        ),
        shards_by_age(files).filter(of_age(modified)) == files.filter(in_log()).filter(
            of_age(modified),
        ),
        age_sorted(shards_by_age(files)),
        shards_by_age(files).to_multiset() == files.filter(in_log()).to_multiset(),
{
    let kept = shards(files, files.len() as int);
    lemma_stable(files, files.len() as int, modified);
    assert(files.take(files.len() as int) =~= files);
    lemma_shards_filter(files, files.len() as int);
    lemma_stable(kept, kept.len() as int, modified);
    assert(kept.take(kept.len() as int) =~= kept);
    age_order_is_a_sort(kept);
}

proof fn lemma_total_same(a: Seq<LogFile>, b: Seq<LogFile>, n: int)
    requires
        0 <= n <= a.len(),
        n <= b.len(),
        forall|k: int| 0 <= k < n ==> a[k] == b[k],
    ensures
        total_size(a, n) == total_size(b, n),
    decreases n,
{
    if n > 0 {
        lemma_total_same(a, b, n - 1);
    }
}

/// The known sizes add up; an unknown one adds nothing.
pub proof fn sizes_add_up(files: Seq<LogFile>, file: LogFile, size: u64)
    ensures
        total_size(Seq::empty(), 0) == 0,
        file.size == Some(size) ==> total_size(files.push(file), (files.len() + 1) as int) == total_size(
            files,
            files.len() as int,
        ) + size,
        file.size is None ==> total_size(files.push(file), (files.len() + 1) as int) == total_size(
            files,
            files.len() as int,
        ),
        shards_size(files) == total_size(files.filter(in_log()), files.filter(in_log()).len() as int),
{
    lemma_total_same(files.push(file), files, files.len() as int);
    lemma_shards_filter(files, files.len() as int);
    assert(files.take(files.len() as int) =~= files);
}

/// An archive of known size, which may be removed to make room.
pub open spec fn removable() -> spec_fn(LogFile) -> bool {
    |file: LogFile| file.name@ != "current.log"@ && file.size is Some
}

proof fn lemma_total_first(first: LogFile, rest: Seq<LogFile>, n: int)
    requires
        0 <= n <= rest.len(),
    ensures
        total_size(seq![first] + rest, n + 1) == total_size(rest, n) + match first.size {
            Some(size) => size as int,
            None => 0,
        },
    decreases n,
{
    let all = seq![first] + rest;
    if n > 0 {
        lemma_total_first(first, rest, n - 1);
        assert(all[n] == rest[n - 1]);
    } else {
        reveal_with_fuel(total_size, 2);
        assert(all[0] == first);
    }
}

proof fn lemma_filter_first(first: LogFile, rest: Seq<LogFile>, p: spec_fn(LogFile) -> bool)
    ensures
        (seq![first] + rest).filter(p) == if p(first) {
            seq![first] + rest.filter(p)
        } else {
            rest.filter(p)
        },
{
    Seq::filter_distributes_over_add(seq![first], rest, p);
    lemma_filter_push(Seq::<LogFile>::empty(), first, p);
    assert(Seq::<LogFile>::empty().push(first) =~= seq![first]);
    if !p(first) {
        assert(Seq::<LogFile>::empty() + rest.filter(p) =~= rest.filter(p));
    }
}

proof fn lemma_filter_total(files: Seq<LogFile>, p: spec_fn(LogFile) -> bool)
    ensures
        total_size(files.filter(p), files.filter(p).len() as int) <= total_size(
            files,
            files.len() as int,
        ),
    decreases files.len(),
{
    if files.len() > 0 {
        let front = files.drop_last();
        let last = files.last();
        lemma_filter_total(front, p);
        assert(files =~= front.push(last));
        lemma_filter_push(front, last, p);
        lemma_total_same(files, front, front.len() as int);
        lemma_total_same(front.filter(p).push(last), front.filter(p), front.filter(p).len() as int);
    } else {
        assert(files =~= Seq::<LogFile>::empty());
        lemma_filter_push(files, files[0], p);
    }
}

proof fn lemma_surplus_is(order: Seq<LogFile>, from: int, total: int) -> (k: int)
    requires
        0 <= from <= order.len(),
        total_size(
            order.skip(from).filter(removable()),
            order.skip(from).filter(removable()).len() as int,
        ) <= total,
    ensures
        ({
            let c = order.skip(from).filter(removable());
            &&& 0 <= k <= c.len()
            &&& surplus_from(order, from, total) == file_names(c.take(k))
            &&& k > 0 ==> total - total_size(c, k - 1) > MAX_TOTAL_BYTES
            &&& k < c.len() ==> total - total_size(c, k) <= MAX_TOTAL_BYTES
        }),
    decreases order.len() - from,
{
    let c = order.skip(from).filter(removable());
    if from == order.len() {
        assert(order.skip(from) =~= Seq::<LogFile>::empty());
        lemma_filter_push(order.skip(from), order[0], removable());
        assert(file_names(c.take(0)) =~= Seq::<Seq<char>>::empty());
        0
    } else {
        let first = order[from];
        let rest = order.skip(from + 1);
        let d = rest.filter(removable());
        assert(order.skip(from) =~= seq![first] + rest);
        lemma_filter_first(first, rest, removable());
        if current(first.name@) {
            lemma_surplus_is(order, from + 1, total)
        } else if total <= MAX_TOTAL_BYTES {
            assert(file_names(c.take(0)) =~= Seq::<Seq<char>>::empty());
            0
        } else {
            match first.size {
                Some(size) => {
                    lemma_total_first(first, d, d.len() as int);
                    lemma_total_grows(d, 0, d.len() as int);
                    let left = less(total, size as int);
                    assert(left == total - size);
                    let k = lemma_surplus_is(order, from + 1, left);
                    assert(c.take(k + 1) =~= seq![first] + d.take(k));
                    assert(file_names(c.take(k + 1)) =~= seq![first.name@] + file_names(d.take(k)));
                    if k > 0 {
                        lemma_total_first(first, d, k - 1);
                    }
                    lemma_total_first(first, d, k);
                    k + 1
                },
                None => { lemma_surplus_is(order, from + 1, total) },
            }
        }
    }
}

/// Where the log is too large, archives of known size go, the oldest first, and
/// no more of them than it takes to come down to 35 mebibytes.
pub proof fn surplus_goes_oldest_first(files: Seq<LogFile>) -> (k: int)
    ensures
        ({
            let going = shards_by_age(files).filter(removable());
            let removed = surplus_from(shards_by_age(files), 0, shards_size(files));
            &&& 0 <= k <= going.len()
            &&& removed == file_names(going.take(k))
            &&& k > 0 ==> shards_size(files) - total_size(going, k - 1) > 36_700_160
            &&& k < going.len() ==> shards_size(files) - total_size(going, k) <= 36_700_160
        }),
{
    let kept = shards(files, files.len() as int);
    let n = kept.len() as int;
    let order = shards_by_age(files);
    lemma_kept_by_age(kept, Seq::empty(), n);
    lemma_kept_all(kept, n);
    lemma_kept_all(order, n);
    assert(order.skip(0) =~= order);
    lemma_filter_total(order, removable());
    lemma_surplus_is(order, 0, shards_size(files))
}

proof fn lemma_precedes_at(a: Seq<char>, b: Seq<char>, from: int, k: int)
    requires
        0 <= from <= k <= a.len(),
        k <= b.len(),
        forall|j: int| from <= j < k ==> #[trigger] a[j] == b[j],
        k == a.len() || k == b.len() || a[k] != b[k],
    ensures
        precedes(a, b, from) <==> k < b.len() && (k == a.len() || a[k] < b[k]),
    decreases k - from,
{
    if from < k {
        assert(a[from] == b[from]);
        lemma_precedes_at(a, b, from + 1, k);
    }
}

/// Of two names the one that is smaller at the first place where they differ
/// comes first, or the one that ends there.
pub proof fn names_are_ordered_by_characters(a: Seq<char>, b: Seq<char>, k: int)
    requires
        0 <= k <= a.len(),
        k <= b.len(),
        forall|j: int| 0 <= j < k ==> #[trigger] a[j] == b[j],
        k == a.len() || k == b.len() || a[k] != b[k],
    ensures
        precedes(a, b, 0) <==> k < b.len() && (k == a.len() || a[k] < b[k]),
{
    lemma_precedes_at(a, b, 0, k);
}

} // verus!
