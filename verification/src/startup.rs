//! Starting with Windows.

use crate::config::save_config;
use crate::model;
use crate::model::AppConfig;
use crate::text;
use crate::text::{decimal_text, join2, join3};
use vstd::prelude::*;

verus! {

pub const RUN_KEY: &'static str = "Software\\Microsoft\\Windows\\CurrentVersion\\Run";

pub const RUN_VALUE: &'static str = "CampusAutoLogin";

/// The argument that keeps the panel closed.
pub const BACKGROUND_FLAG: &'static str = "--background";

/// The configuration that is to be saved when automatic start is switched, or
/// why it cannot be.
pub fn set_enabled(config: Result<AppConfig, String>, enabled: bool) -> (r: Result<
    AppConfig,
    String,
>)
    ensures
        match config {
            Err(message) => r matches Err(text) && text@ == message@,
            Ok(value) => if model::known_service(value.service_name@) {
                r matches Ok(changed) && changed == (AppConfig { auto_start: enabled, ..value })
            } else {
                r matches Err(text) && text@ == "运营商必须选择中国电信、中国联通或中国移动"@
            },
        },
{
    let mut value = match config {
        Err(message) => {
            return Err(message);
        },
        Ok(value) => value,
    };
    value.auto_start = enabled;
    match save_config(&value) {
        Ok(_) => Ok(value),
        Err(message) => Err(message),
    }
}

/// The command that starts the client quietly. A manual launch without the flag
/// always opens the panel.
pub fn run_command(exe: &str) -> (r: String)
    ensures
        r@ == "\""@ + exe@ + "\" "@ + BACKGROUND_FLAG@,
{
    join2(&join3("\"", exe, "\" "), BACKGROUND_FLAG)
}

/// What is done to the registry.
#[derive(Clone, Copy, Debug, PartialEq, Eq, Structural)]
pub enum RegistryCall {
    Open,
    Write,
    Delete,
}

pub open spec fn call_name(call: RegistryCall) -> Seq<char> {
    match call {
        RegistryCall::Open => "open"@,
        RegistryCall::Write => "write"@,
        RegistryCall::Delete => "delete"@,
    }
}

/// The status codes that count as success: zero, and for a deletion also that
/// the value was not there.
pub open spec fn call_succeeded(call: RegistryCall, status: u32) -> bool {
    status == 0 || (call is Delete && status == 2)
}

pub fn registry_outcome(call: RegistryCall, status: u32) -> (r: Result<(), String>)
    ensures
        r is Ok <==> call_succeeded(call, status),
        r matches Err(text) ==> text@ == "registry "@ + call_name(call) + " failed: "@
            + text::decimal(status as nat),
{
    let name = match call {
        RegistryCall::Open => "open",
        RegistryCall::Write => "write",
        RegistryCall::Delete => {
            if status == 2 {
                return Ok(());
            }
            "delete"
        },
    };
    if status == 0 {
        return Ok(());
    }
    Err(join2(&join3("registry ", name, " failed: "), &decimal_text(status as u128)))
}

/// Where Windows looks for what it starts, under which name the client stands
/// there, and with which argument it starts.
pub proof fn registry_names_are_these()
    ensures
        RUN_KEY@ == "Software\\Microsoft\\Windows\\CurrentVersion\\Run"@,
        RUN_VALUE@ == "CampusAutoLogin"@,
        BACKGROUND_FLAG@ == "--background"@,
{
}

/// A call succeeds with the status zero; only a deletion also succeeds where
/// there is nothing to delete. A failure is told by the name of the call.
pub proof fn registry_calls_succeed_with_zero(call: RegistryCall, status: u32)
    ensures
        call_succeeded(call, 0),
        call_succeeded(RegistryCall::Delete, status) <==> status == 0 || status == 2,
        call_succeeded(RegistryCall::Open, status) <==> status == 0,
        call_succeeded(RegistryCall::Write, status) <==> status == 0,
        call_name(RegistryCall::Open) == "open"@,
        call_name(RegistryCall::Write) == "write"@,
        call_name(RegistryCall::Delete) == "delete"@,
{
}

} // verus!
