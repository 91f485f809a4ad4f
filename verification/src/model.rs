//! The data that the client keeps, shows and saves.

use crate::text;
use crate::text::{blank, same};
use vstd::prelude::*;

verus! {

/// The settings of one installation.
#[derive(Debug)]
pub struct AppConfig {
    pub apartment_id: String,
    pub room_id: String,
    /// Internal carrier identifier expected by the campus gateway.
    pub service_name: String,
    pub gateway: String,
    pub check_url: String,
    pub portal_host: String,
    pub auto_start: bool,
}

/// The carriers that the campus gateway knows.
pub const SERVICE_NAMES: [&'static str; 3] = ["chinaTelecom", "chinaUnicom", "chinaMobile"];

/// `s` names one of the carriers.
pub open spec fn known_service(s: Seq<char>) -> bool {
    s == "chinaTelecom"@ || s == "chinaUnicom"@ || s == "chinaMobile"@
}

pub fn default_service_name() -> (name: String)
    ensures
        name@ == "chinaTelecom"@,
{
    "chinaTelecom".to_string()
}

pub fn is_valid_service_name(value: &str) -> (r: bool)
    ensures
        r == known_service(value@),
{
    let mut i: usize = 0;
    while i < SERVICE_NAMES.len()
        invariant
            0 <= i <= 3,
            i > 0 ==> value@ != "chinaTelecom"@,
            i > 1 ==> value@ != "chinaUnicom"@,
            i > 2 ==> value@ != "chinaMobile"@,
        decreases 3 - i,
    {
        if same(value, SERVICE_NAMES[i]) {
            return true;
        }
        i += 1;
    }
    false
}

impl Clone for AppConfig {
    fn clone(&self) -> (r: Self)
        ensures
            r == *self,
    {
        AppConfig {
            apartment_id: self.apartment_id.clone(),
            room_id: self.room_id.clone(),
            service_name: self.service_name.clone(),
            gateway: self.gateway.clone(),
            check_url: self.check_url.clone(),
            portal_host: self.portal_host.clone(),
            auto_start: self.auto_start,
        }
    }
}

impl Default for AppConfig {
    /// Nothing set.
    fn default() -> (r: Self)
        ensures
            r.apartment_id@ == Seq::<char>::empty(),
            r.room_id@ == Seq::<char>::empty(),
            r.service_name@ == Seq::<char>::empty(),
            r.gateway@ == Seq::<char>::empty(),
            r.check_url@ == Seq::<char>::empty(),
            r.portal_host@ == Seq::<char>::empty(),
            !r.auto_start,
    {
        AppConfig {
            apartment_id: String::new(),
            room_id: String::new(),
            service_name: String::new(),
            gateway: String::new(),
            check_url: String::new(),
            portal_host: String::new(),
            auto_start: false,
        }
    }
}

impl AppConfig {
    /// Both room identifiers hold more than white space.
    pub open spec fn bound(&self) -> bool {
        !text::is_blank(self.apartment_id@) && !text::is_blank(self.room_id@)
    }

    pub open spec fn is_default(&self) -> bool {
        &&& self.apartment_id@ == Seq::<char>::empty()
        &&& self.room_id@ == Seq::<char>::empty()
        &&& self.service_name@ == "chinaTelecom"@
        &&& self.gateway@ == "http://10.10.16.101:8080/eportal/login_sso.jsp"@
        &&& self.check_url@ == "http://connect.rom.miui.com/generate_204"@
        &&& self.portal_host@ == "10.10.16.101"@
        &&& !self.auto_start
    }

    pub fn defaults() -> (config: Self)
        ensures
            config.is_default(),
    {
        AppConfig {
            apartment_id: String::new(),
            room_id: String::new(),
            service_name: default_service_name(),
            gateway: "http://10.10.16.101:8080/eportal/login_sso.jsp".to_string(),
            check_url: "http://connect.rom.miui.com/generate_204".to_string(),
            portal_host: "10.10.16.101".to_string(),
            auto_start: false,
        }
    }

    pub fn has_room_binding(&self) -> (r: bool)
        ensures
            r == self.bound(),
    {
        !blank(&self.apartment_id) && !blank(&self.room_id)
    }
}

#[derive(Debug)]
pub struct Credentials {
    pub phone: String,
    pub uid: String,
}

impl Clone for Credentials {
    fn clone(&self) -> (r: Self)
        ensures
            r == *self,
    {
        Credentials { phone: self.phone.clone(), uid: self.uid.clone() }
    }
}

impl Default for Credentials {
    fn default() -> (r: Self)
        ensures
            r.phone@ == Seq::<char>::empty(),
            r.uid@ == Seq::<char>::empty(),
    {
        Credentials { phone: String::new(), uid: String::new() }
    }
}

/// What the settings page shows.
#[derive(Clone, Debug)]
pub struct ConfigView {
    pub config: AppConfig,
    pub has_credentials: bool,
}

#[derive(Clone, Copy, Debug, PartialEq, Eq, Structural)]
pub enum AppStatus {
    SetupRequired,
    Online,
    Checking,
    ProbeFailed { consecutive: u8 },
    PortalDetected,
    Authenticating { attempt: u8 },
    WaitingToRetry { seconds: u64 },
    Offline,
    Paused,
    NeedsAttention,
}

impl Default for AppStatus {
    fn default() -> (status: Self)
        ensures
            status == AppStatus::SetupRequired,
    {
        AppStatus::SetupRequired
    }
}

#[derive(Clone, Debug)]
pub struct StatusView {
    pub status: AppStatus,
    pub detail: String,
    /// Whether the last known-good connection is being checked again. This is
    /// separate from `status` so that progress can be shown without turning a
    /// still-connected state into an outage warning.
    pub checking: bool,
    pub last_check: Option<String>,
    pub last_success: Option<String>,
    pub last_error: Option<String>,
}

/// The room identifiers that a capture found.
#[derive(Clone, Debug)]
pub struct CaptureResult {
    pub apartment_id: String,
    pub room_id: String,
}

/// The carriers are these three, and nothing else is one.
pub proof fn carriers_are_these(s: Seq<char>)
    ensures
        SERVICE_NAMES@.len() == 3,
        SERVICE_NAMES@[0]@ == "chinaTelecom"@,
        SERVICE_NAMES@[1]@ == "chinaUnicom"@,
        SERVICE_NAMES@[2]@ == "chinaMobile"@,
        known_service(s) <==> s == "chinaTelecom"@ || s == "chinaUnicom"@ || s == "chinaMobile"@,
        known_service(s) <==> exists|k: int| 0 <= k < 3 && s == (#[trigger] SERVICE_NAMES@[k])@,
{
    assert(SERVICE_NAMES@[0]@ == "chinaTelecom"@);
    assert(SERVICE_NAMES@[1]@ == "chinaUnicom"@);
    assert(SERVICE_NAMES@[2]@ == "chinaMobile"@);
}

/// A room is named where both the apartment and the room hold something other
/// than white space.
pub proof fn rooms_need_both_parts(config: AppConfig)
    ensures
        config.bound() <==> {
            &&& exists|k: int|
                0 <= k < config.apartment_id@.len() && !text::is_white(
                    #[trigger] config.apartment_id@[k],
                )
            &&& exists|k: int|
                0 <= k < config.room_id@.len() && !text::is_white(#[trigger] config.room_id@[k])
        },
{
    text::lemma_blank_is_all_white(config.apartment_id@);
    text::lemma_blank_is_all_white(config.room_id@);
}

/// The settings before anything is set.
pub proof fn defaults_are_these(config: AppConfig)
    requires
        config.is_default(),
    ensures
        config.service_name@ == "chinaTelecom"@,
        config.gateway@ == "http://10.10.16.101:8080/eportal/login_sso.jsp"@,
        config.check_url@ == "http://connect.rom.miui.com/generate_204"@,
        config.portal_host@ == "10.10.16.101"@,
        config.apartment_id@.len() == 0,
        config.room_id@.len() == 0,
        !config.auto_start,
        !config.bound(),
        known_service(config.service_name@),
{
    rooms_need_both_parts(config);
}

} // verus!
