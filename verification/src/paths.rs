//! Where files are kept.

use crate::text;
use vstd::prelude::*;

verus! {

/// The directory of the client.
pub const DATA_DIR_NAME: &'static str = "CampusAutoLogin";

/// A path as a base and what is joined to it, one part after the other.
#[derive(Debug)]
pub struct Location {
    pub base: String,
    pub parts: Vec<String>,
}

pub struct LocationModel {
    pub base: Seq<char>,
    pub parts: Seq<Seq<char>>,
}

impl View for Location {
    type V = LocationModel;

    open spec fn view(&self) -> LocationModel {
        LocationModel { base: self.base@, parts: text::texts(self.parts@) }
    }
}

pub open spec fn below(l: LocationModel, part: Seq<char>) -> LocationModel {
    LocationModel { base: l.base, parts: l.parts.push(part) }
}

impl Location {
    pub fn join(self, part: &str) -> (r: Location)
        ensures
            r@ == below(self@, part@),
    {
        let mut parts = self.parts;
        parts.push(part.to_string());
        assert(text::texts(parts@) =~= self@.parts.push(part@));
        Location { base: self.base, parts }
    }
}

/// The client's directory under a base.
pub open spec fn client_dir(base: Seq<char>) -> LocationModel {
    LocationModel { base, parts: seq![DATA_DIR_NAME@] }
}

fn dir_under(base: String) -> (r: Location)
    ensures
        r@ == client_dir(base@),
{
    let empty = Location { base, parts: Vec::new() };
    let r = empty.join(DATA_DIR_NAME);
    assert(r@.parts =~= seq![DATA_DIR_NAME@]);
    r
}

/// Settings live under `APPDATA`, or where that is not set under the current
/// directory.
pub open spec fn data_location(app_data: Option<String>) -> LocationModel {
    match app_data {
        Some(base) => client_dir(base@),
        None => client_dir("."@),
    }
}

/// Logs live under `LOCALAPPDATA`, or where that is not set with the settings.
pub open spec fn local_location(
    local_app_data: Option<String>,
    app_data: Option<String>,
) -> LocationModel {
    match local_app_data {
        Some(base) => client_dir(base@),
        None => data_location(app_data),
    }
}

/// `app_data` is the value of the environment variable `APPDATA`.
pub fn data_dir(app_data: Option<String>) -> (r: Location)
    ensures
        r@ == data_location(app_data),
{
    match app_data {
        Some(base) => dir_under(base),
        None => dir_under(".".to_string()),
    }
}

/// `local_app_data` is the value of the environment variable `LOCALAPPDATA`.
pub fn local_data_dir(local_app_data: Option<String>, app_data: Option<String>) -> (r: Location)
    ensures
        r@ == local_location(local_app_data, app_data),
{
    match local_app_data {
        Some(base) => dir_under(base),
        None => data_dir(app_data),
    }
}

pub fn config_path(app_data: Option<String>) -> (r: Location)
    ensures
        r@ == below(data_location(app_data), "config.json"@),
{
    data_dir(app_data).join("config.json")
}

pub fn credentials_path(app_data: Option<String>) -> (r: Location)
    ensures
        r@ == below(data_location(app_data), "credentials.bin"@),
{
    data_dir(app_data).join("credentials.bin")
}

pub fn log_dir(local_app_data: Option<String>, app_data: Option<String>) -> (r: Location)
    ensures
        r@ == below(local_location(local_app_data, app_data), "logs"@),
{
    local_data_dir(local_app_data, app_data).join("logs")
}

/// Settings are kept in the client's own directory under `APPDATA`, or under
/// the current one where that is not set.
pub proof fn settings_are_kept_apart(app_data: Option<String>, base: String)
    ensures
        app_data == Some(base) ==> data_location(app_data).base == base@,
        app_data is None ==> data_location(app_data).base == "."@,
        data_location(app_data).parts == seq!["CampusAutoLogin"@],
{
}

/// Logs are kept in the client's own directory under `LOCALAPPDATA`, or where
/// that is not set beside the settings.
pub proof fn logs_are_kept_apart(
    local_app_data: Option<String>,
    app_data: Option<String>,
    base: String,
)
    ensures
        local_app_data == Some(base) ==> local_location(local_app_data, app_data).base == base@,
        local_app_data is None && app_data == Some(base) ==> local_location(
            local_app_data,
            app_data,
        ).base == base@,
        local_app_data is None && app_data is None ==> local_location(
            local_app_data,
            app_data,
        ).base == "."@,
        local_location(local_app_data, app_data).parts == seq!["CampusAutoLogin"@],
{
}

/// What is joined to a path comes last, and nothing before it changes.
pub proof fn parts_are_joined_last(l: LocationModel, part: Seq<char>, path: Location)
    ensures
        below(l, part).base == l.base,
        below(l, part).parts.len() == l.parts.len() + 1,
        below(l, part).parts[l.parts.len() as int] == part,
        forall|k: int|
            0 <= k < l.parts.len() ==> #[trigger] below(l, part).parts[k] == l.parts[k],
        path@.base == path.base@,
        path@.parts.len() == path.parts@.len(),
        forall|k: int|
            0 <= k < path.parts@.len() ==> #[trigger] path@.parts[k] == path.parts@[k]@,
{
}

} // verus!
