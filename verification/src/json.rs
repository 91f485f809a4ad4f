//! JSON values, read and written with `serde_json`.

use crate::text;
use crate::text::same;
use vstd::prelude::*;

verus! {

/// A JSON value as plain data. A number is its decimal text; the members of an
/// object stand in the order in which `serde_json` walks them.
#[derive(Debug)]
pub enum Json {
    Null,
    Bool(bool),
    Number(String),
    Text(String),
    Array(Vec<Json>),
    Object(Vec<(String, Json)>),
}

pub enum JsonModel {
    Null,
    Bool(bool),
    Number(Seq<char>),
    Text(Seq<char>),
    Array(Seq<JsonModel>),
    Object(Seq<(Seq<char>, JsonModel)>),
}

impl View for Json {
    type V = JsonModel;

    open spec fn view(&self) -> JsonModel {
        tree_model(*self)
    }
}

pub open spec fn tree_model(tree: Json) -> JsonModel
    decreases tree, 0int,
{
    match tree {
        Json::Null => JsonModel::Null,
        Json::Bool(b) => JsonModel::Bool(b),
        Json::Number(n) => JsonModel::Number(n@),
        Json::Text(s) => JsonModel::Text(s@),
        Json::Array(items) => JsonModel::Array(items_model(items@, items@.len() as int)),
        Json::Object(members) => JsonModel::Object(
            members_model(members@, members@.len() as int),
        ),
    }
}

pub open spec fn items_model(items: Seq<Json>, n: int) -> Seq<JsonModel>
    decreases items, n,
{
    if n <= 0 || n > items.len() {
        Seq::empty()
    } else {
        items_model(items, n - 1).push(tree_model(items[n - 1]))
    }
}

pub open spec fn members_model(members: Seq<(String, Json)>, n: int) -> Seq<(Seq<char>, JsonModel)>
    decreases members, n,
{
    if n <= 0 || n > members.len() {
        Seq::empty()
    } else {
        members_model(members, n - 1).push((members[n - 1].0@, tree_model(members[n - 1].1)))
    }
}

pub proof fn lemma_items_model(items: Seq<Json>, n: int)
    requires
        0 <= n <= items.len(),
    ensures
        items_model(items, n).len() == n,
        forall|k: int| 0 <= k < n ==> #[trigger] items_model(items, n)[k] == items[k]@,
    decreases n,
{
    if n > 0 {
        lemma_items_model(items, n - 1);
    }
}

pub proof fn lemma_members_model(members: Seq<(String, Json)>, n: int)
    requires
        0 <= n <= members.len(),
    ensures
        members_model(members, n).len() == n,
        forall|k: int|
            0 <= k < n ==> (#[trigger] members_model(members, n)[k]) == (
                members[k].0@,
                members[k].1@,
            ),
    decreases n,
{
    if n > 0 {
        lemma_members_model(members, n - 1);
    }
}

/// `serde_json::Value`, a tree of JSON values.
#[verifier::external_type_specification]
#[verifier::external_body]
pub struct ExValue(serde_json::Value);

/// What a `serde_json::Value` holds.
pub uninterp spec fn json_model(value: serde_json::Value) -> JsonModel;

/// What `serde_json::from_slice` makes of bytes: a value, or the error's
/// message.
pub uninterp spec fn parsed_json(bytes: Seq<u8>) -> Result<JsonModel, Seq<char>>;

/// The compact text of a value.
pub uninterp spec fn json_written(value: JsonModel) -> Seq<char>;

/// `serde_json::from_slice` to a `Value`. The result depends on the bytes
/// alone; which bytes are JSON is the crate's matter.
#[verifier::external_body]
fn parse_value(bytes: &Vec<u8>) -> (r: Result<serde_json::Value, String>)
    ensures
        match parsed_json(bytes@) {
            Ok(model) => r matches Ok(value) && json_model(value) == model,
            Err(message) => r matches Err(text) && text@ == message,
        },
{
    serde_json::from_slice(bytes).map_err(|error| error.to_string())
}

/// The plain data of a `serde_json::Value`: the variants one for one, numbers
/// by their `Display`, members in the order of `Map::iter`.
#[verifier::external_body]
fn tree_of(value: &serde_json::Value) -> (tree: Json)
    ensures
        tree@ == json_model(*value),
{
    match value {
        serde_json::Value::Null => Json::Null,
        serde_json::Value::Bool(b) => Json::Bool(*b),
        serde_json::Value::Number(n) => Json::Number(n.to_string()),
        serde_json::Value::String(s) => Json::Text(s.clone()),
        serde_json::Value::Array(items) => Json::Array(items.iter().map(tree_of).collect()),
        serde_json::Value::Object(members) => Json::Object(
            members.iter().map(|(key, member)| (key.clone(), tree_of(member))).collect(),
        ),
    }
}

pub open spec fn json_result(r: Result<Json, String>) -> Result<JsonModel, Seq<char>> {
    match r {
        Ok(tree) => Ok(tree@),
        Err(message) => Err(message@),
    }
}

pub fn read_json(bytes: &Vec<u8>) -> (r: Result<Json, String>)
    ensures
        json_result(r) == parsed_json(bytes@),
{
    match parse_value(bytes) {
        Ok(value) => Ok(tree_of(&value)),
        Err(message) => Err(message),
    }
}

// ---------------------------------------------------------------------------
// Members
// ---------------------------------------------------------------------------

/// The first of `members` from `from` on that is named `key`.
pub open spec fn member_from(
    members: Seq<(Seq<char>, JsonModel)>,
    key: Seq<char>,
    from: int,
) -> Option<JsonModel>
    decreases members.len() - from,
{
    if from < 0 || from >= members.len() {
        None
    } else if members[from].0 == key {
        Some(members[from].1)
    } else {
        member_from(members, key, from + 1)
    }
}

/// The member of an object; nothing for what is no object.
pub open spec fn member(value: JsonModel, key: Seq<char>) -> Option<JsonModel> {
    match value {
        JsonModel::Object(members) => member_from(members, key, 0),
        _ => None,
    }
}

pub open spec fn as_text(value: Option<JsonModel>) -> Option<Seq<char>> {
    match value {
        Some(JsonModel::Text(s)) => Some(s),
        _ => None,
    }
}

pub fn get<'a>(value: &'a Json, key: &str) -> (r: Option<&'a Json>)
    ensures
        match member(value@, key@) {
            Some(model) => r matches Some(found) && found@ == model,
            None => r is None,
        },
{
    match value {
        Json::Object(members) => {
            let ghost all = value@->Object_0;
            proof {
                lemma_members_model(members@, members@.len() as int);
            }
            let mut i: usize = 0;
            while i < members.len()
                invariant
                    0 <= i <= members@.len() == all.len(),
                    forall|k: int|
                        0 <= k < all.len() ==> (#[trigger] all[k]) == (
                            members@[k].0@,
                            members@[k].1@,
                        ),
                    member(value@, key@) == member_from(all, key@, i as int),
                decreases members@.len() - i,
            {
                if same(&members[i].0, key) {
                    return Some(&members[i].1);
                }
                i += 1;
            }
            None
        },
        _ => None,
    }
}

/// The text of a member that is a text.
pub fn get_text(value: &Json, key: &str) -> (r: Option<String>)
    ensures
        text::opt_view(r) == as_text(member(value@, key@)),
{
    match get(value, key) {
        Some(Json::Text(s)) => Some(s.clone()),
        _ => None,
    }
}

// ---------------------------------------------------------------------------
// Writing
// ---------------------------------------------------------------------------

/// The value of a member that is to be written.
#[derive(Debug)]
pub enum Field {
    Text(String),
    Number(u64),
}

impl View for Field {
    type V = JsonModel;

    open spec fn view(&self) -> JsonModel {
        match *self {
            Field::Text(s) => JsonModel::Text(s@),
            Field::Number(n) => JsonModel::Number(text::decimal(n as nat)),
        }
    }
}

/// No later field has the name of the field at `i`.
pub open spec fn last_of_name(fields: Seq<(String, Field)>, i: int) -> bool {
    forall|j: int| i < j < fields.len() ==> (#[trigger] fields[j]).0@ != fields[i].0@
}

/// An object whose members are texts and whole numbers.
pub open spec fn flat(value: JsonModel) -> bool {
    value matches JsonModel::Object(members) && forall|k: int|
        0 <= k < members.len() ==> match (#[trigger] members[k]).1 {
            JsonModel::Text(_) => true,
            JsonModel::Number(digits) => exists|n: u64| digits == #[trigger] text::decimal(n as nat),
            _ => false,
        }
}

/// No two members have one name.
pub open spec fn distinct_members(members: Seq<(Seq<char>, JsonModel)>) -> bool {
    forall|i: int, j: int|
        0 <= i < j < members.len() ==> (#[trigger] members[i]).0 != (#[trigger] members[j]).0
}

/// The members of an object that the fields make, whatever their order.
pub open spec fn holds_fields(value: JsonModel, fields: Seq<(String, Field)>) -> bool {
    &&& flat(value)
    &&& forall|i: int|
        0 <= i < fields.len() && last_of_name(fields, i) ==> member(
            value,
            (#[trigger] fields[i]).0@,
        ) == Some(fields[i].1@)
    &&& value matches JsonModel::Object(members) && distinct_members(members) && forall|k: int|
        0 <= k < members.len() ==> exists|i: int|
            0 <= i < fields.len() && (#[trigger] fields[i]).0@ == (#[trigger] members[k]).0
}

/// The hexadecimal digit of `n`, in small letters.
pub open spec fn hex_digit(n: int) -> char {
    if n < 10 {
        (0x30 + n) as char
    } else {
        (0x57 + n) as char
    }
}

/// A character within a text: quotation marks, backslashes and the characters
/// below the space are escaped.
pub open spec fn escaped_char(c: char) -> Seq<char> {
    let u = c as u32;
    if c == '"' || c == '\\' {
        seq!['\\', c]
    } else if u == 0x08 {
        seq!['\\', 'b']
    } else if u == 0x09 {
        seq!['\\', 't']
    } else if u == 0x0a {
        seq!['\\', 'n']
    } else if u == 0x0c {
        seq!['\\', 'f']
    } else if u == 0x0d {
        seq!['\\', 'r']
    } else if u < 0x20 {
        seq!['\\', 'u', '0', '0', hex_digit((u / 16) as int), hex_digit((u % 16) as int)]
    } else {
        seq![c]
    }
}

pub open spec fn escaped(s: Seq<char>) -> Seq<char>
    decreases s.len(),
{
    if s.len() == 0 {
        Seq::empty()
    } else {
        escaped(s.drop_last()) + escaped_char(s.last())
    }
}

pub open spec fn quoted(s: Seq<char>) -> Seq<char> {
    seq!['"'] + escaped(s) + seq!['"']
}

/// A member that is a text or a number, as written.
pub open spec fn member_text(member: (Seq<char>, JsonModel)) -> Seq<char> {
    quoted(member.0) + seq![':'] + match member.1 {
        JsonModel::Text(s) => quoted(s),
        JsonModel::Number(digits) => digits,
        _ => Seq::empty(),
    }
}

/// Members one after the other, commas between them.
pub open spec fn members_text(members: Seq<(Seq<char>, JsonModel)>) -> Seq<char>
    decreases members.len(),
{
    if members.len() == 0 {
        Seq::empty()
    } else if members.len() == 1 {
        member_text(members[0])
    } else {
        members_text(members.drop_last()) + seq![','] + member_text(members.last())
    }
}

/// An object of texts and whole numbers, as written.
pub open spec fn flat_text(value: JsonModel) -> Seq<char> {
    match value {
        JsonModel::Object(members) => seq!['{'] + members_text(members) + seq!['}'],
        _ => Seq::empty(),
    }
}

/// Where no name comes twice, each member is found by its name.
pub proof fn lemma_distinct_member(members: Seq<(Seq<char>, JsonModel)>, k: int, from: int)
    requires
        distinct_members(members),
        0 <= from <= k < members.len(),
    ensures
        member_from(members, members[k].0, from) == Some(members[k].1),
    decreases k - from,
{
    if from < k {
        assert(members[from].0 != members[k].0);
        lemma_distinct_member(members, k, from + 1);
    }
}

proof fn lemma_escaped_len(s: Seq<char>)
    ensures
        escaped(s).len() <= 6 * s.len(),
    decreases s.len(),
{
    if s.len() > 0 {
        lemma_escaped_len(s.drop_last());
    }
}

/// What is written of a member is bounded by the lengths of its name and value.
pub proof fn lemma_member_len(member: (Seq<char>, JsonModel))
    ensures
        member_text(member).len() <= 6 * member.0.len() + 5 + match member.1 {
            JsonModel::Text(s) => 6 * s.len(),
            JsonModel::Number(digits) => digits.len(),
            _ => 0,
        },
{
    lemma_escaped_len(member.0);
    if let JsonModel::Text(s) = member.1 {
        lemma_escaped_len(s);
    }
}

pub proof fn lemma_members_len(members: Seq<(Seq<char>, JsonModel)>, most: nat)
    requires
        forall|k: int| 0 <= k < members.len() ==> member_text(#[trigger] members[k]).len() <= most,
    ensures
        members_text(members).len() <= members.len() * (most + 1),
    decreases members.len(),
{
    if members.len() == 1 {
        assert(member_text(members[0]).len() <= most);
    } else if members.len() > 1 {
        let n = members.len();
        lemma_members_len(members.drop_last(), most);
        assert(member_text(members[n - 1]).len() <= most);
        assert((n - 1) * (most + 1) + (most + 1) == n * (most + 1)) by (nonlinear_arith);
    }
}

/// A text that is read as `value`.
pub open spec fn reads_as(s: Seq<char>, value: JsonModel) -> bool {
    parsed_json(vstd::utf8::encode_utf8(s)) matches Ok(read) && read == value
}

/// A `serde_json::Value` with the fields as its members: a `Map` collected from
/// them, so that no name comes twice and of fields with one name the last stays.
/// The order of the members is the crate's matter.
#[verifier::external_body]
fn object_value(fields: &Vec<(String, Field)>) -> (value: serde_json::Value)
    ensures
        holds_fields(json_model(value), fields@),
{
    serde_json::Value::Object(
        fields.iter().map(
            |(name, field)|
                match field {
                    Field::Text(s) => (name.clone(), serde_json::Value::from(s.as_str())),
                    Field::Number(n) => (name.clone(), serde_json::Value::from(*n)),
                },
        ).collect(),
    )
}

/// `Value::to_string`, the compact text. It holds no control characters; a
/// number is its own text; and an object of texts and whole numbers is written
/// member by member and reads back as it was. Of values with other members the
/// reading back is not stated, as a floating-point number may come back with
/// another last digit.
#[verifier::external_body]
fn value_text(value: &serde_json::Value) -> (r: String)
    ensures
        r@ == json_written(json_model(*value)),
        forall|k: int| 0 <= k < r@.len() ==> #[trigger] r@[k] as u32 >= 0x20,
        json_model(*value) matches JsonModel::Number(digits) ==> r@ == digits,
        flat(json_model(*value)) ==> r@ == flat_text(json_model(*value)),
        flat(json_model(*value)) ==> reads_as(r@, json_model(*value)),
{
    value.to_string()
}

/// `Value::get`: the member of an object, and nothing for what is no object.
#[verifier::external_body]
fn value_member(value: &serde_json::Value, key: &str) -> (r: Option<serde_json::Value>)
    ensures
        match member(json_model(*value), key@) {
            Some(model) => r matches Some(found) && json_model(found) == model,
            None => r is None,
        },
{
    value.get(key).cloned()
}

/// `s` is the text of an object with these fields, on one line, and reads back
/// as such.
pub open spec fn object_line(s: Seq<char>, fields: Seq<(String, Field)>) -> bool {
    &&& forall|k: int| 0 <= k < s.len() ==> #[trigger] s[k] as u32 >= 0x20
    &&& exists|value: JsonModel|
        {
            &&& #[trigger] holds_fields(value, fields)
            &&& s == json_written(value)
            &&& s == flat_text(value)
            &&& reads_as(s, value)
        }
}

pub fn object_text(fields: &Vec<(String, Field)>) -> (r: String)
    ensures
        object_line(r@, fields@),
{
    let value = object_value(fields);
    let r = value_text(&value);
    r
}

/// The text of a member, of whatever kind.
pub open spec fn member_written(value: JsonModel, key: Seq<char>) -> Option<Seq<char>> {
    match member(value, key) {
        Some(JsonModel::Number(digits)) => Some(digits),
        Some(model) => Some(json_written(model)),
        None => None,
    }
}

/// The value read from `bytes`, and the text of its member `key`.
pub fn read_json_with(bytes: &Vec<u8>, key: &str) -> (r: Option<(Json, Option<String>)>)
    ensures
        match parsed_json(bytes@) {
            Ok(model) => r matches Some((tree, written)) && tree@ == model && text::opt_view(
                written,
            ) == member_written(model, key@),
            Err(_) => r is None,
        },
{
    match parse_value(bytes) {
        Ok(value) => {
            let written = match value_member(&value, key) {
                Some(found) => Some(value_text(&found)),
                None => None,
            };
            Some((tree_of(&value), written))
        },
        Err(_) => None,
    }
}

proof fn lemma_member_first(members: Seq<(Seq<char>, JsonModel)>, key: Seq<char>, from: int, k: int)
    requires
        0 <= from <= k <= members.len(),
        forall|j: int| from <= j < k ==> (#[trigger] members[j]).0 != key,
        k < members.len() ==> members[k].0 == key,
    ensures
        k < members.len() ==> member_from(members, key, from) == Some(members[k].1),
        k == members.len() ==> member_from(members, key, from) is None,
    decreases k - from,
{
    if from < k {
        assert(members[from].0 != key);
        lemma_member_first(members, key, from + 1, k);
    }
}

/// A member is found by its name: the first of that name, and none where no
/// member has it or where the value is no object.
pub proof fn members_are_found_by_name(
    members: Seq<(Seq<char>, JsonModel)>,
    key: Seq<char>,
    k: int,
    value: JsonModel,
)
    requires
        0 <= k <= members.len(),
        forall|j: int| 0 <= j < k ==> (#[trigger] members[j]).0 != key,
        k < members.len() ==> members[k].0 == key,
    ensures
        k < members.len() ==> member(JsonModel::Object(members), key) == Some(members[k].1),
        k == members.len() ==> member(JsonModel::Object(members), key) is None,
        !(value is Object) ==> member(value, key) is None,
{
    lemma_member_first(members, key, 0, k);
}

/// A text is read of a text only.
pub proof fn texts_are_read_of_texts(value: Option<JsonModel>, s: Seq<char>)
    ensures
        as_text(Some(JsonModel::Text(s))) == Some(s),
        as_text(value) matches Some(t) ==> value == Some(JsonModel::Text(t)),
        value is None ==> as_text(value) is None,
{
}

/// The text of a member is its number as it stands, and what is written of any
/// other value.
pub proof fn members_are_written_out(value: JsonModel, key: Seq<char>, held: JsonModel)
    ensures
        member(value, key) is None ==> member_written(value, key) is None,
        member(value, key) == Some(held) ==> member_written(value, key) == Some(
            match held {
                JsonModel::Number(digits) => digits,
                _ => json_written(held),
            },
        ),
{
}

/// Values are seen as they are, part by part.
pub proof fn values_are_seen_as_they_are(value: Json)
    ensures
        match value {
            Json::Null => value@ == JsonModel::Null,
            Json::Bool(b) => value@ == JsonModel::Bool(b),
            Json::Number(n) => value@ == JsonModel::Number(n@),
            Json::Text(s) => value@ == JsonModel::Text(s@),
            Json::Array(items) => value@ matches JsonModel::Array(seen) && seen.len()
                == items@.len() && forall|k: int|
                0 <= k < seen.len() ==> #[trigger] seen[k] == items@[k]@,
            Json::Object(members) => value@ matches JsonModel::Object(seen) && seen.len()
                == members@.len() && forall|k: int|
                0 <= k < seen.len() ==> (#[trigger] seen[k]) == (members@[k].0@, members@[k].1@),
        },
{
    match value {
        Json::Array(items) => {
            lemma_items_model(items@, items@.len() as int);
        },
        Json::Object(members) => {
            lemma_members_model(members@, members@.len() as int);
        },
        _ => {},
    }
}

/// A field is seen as its text, or as its number in decimal notation.
pub proof fn fields_are_seen_as_they_are(field: Field)
    ensures
        match field {
            Field::Text(s) => field@ == JsonModel::Text(s@),
            Field::Number(n) => field@ matches JsonModel::Number(digits) && text::number(digits)
                == n,
        },
{
    if let Field::Number(n) = field {
        text::decimal_reads_back(n as nat);
    }
}

} // verus!
