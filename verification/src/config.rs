//! Settings and credentials: what is accepted, and what is made of the files.

use crate::model;
use crate::model::{default_service_name, is_valid_service_name, AppConfig, ConfigView, Credentials};
use crate::secure_store;
use crate::secure_store::StoreError;
use crate::text;
use crate::text::blank;
use vstd::prelude::*;

verus! {

/// What the configuration file gave.
#[derive(Debug)]
pub enum ConfigFile {
    Missing,
    /// The file could not be read, or holds no configuration; the message.
    Unusable(String),
    Read(AppConfig),
}

/// A failure as the text that users see.
pub open spec fn outcome_text<T>(r: Result<T, String>) -> Result<T, Seq<char>> {
    match r {
        Ok(value) => Ok(value),
        Err(text) => Err(text@),
    }
}

/// `config` with the default carrier where it names none.
pub open spec fn completed(config: AppConfig, read: AppConfig) -> bool {
    &&& config.apartment_id == read.apartment_id
    &&& config.room_id == read.room_id
    &&& config.gateway == read.gateway
    &&& config.check_url == read.check_url
    &&& config.portal_host == read.portal_host
    &&& config.auto_start == read.auto_start
    &&& if text::is_blank(read.service_name@) {
        config.service_name@ == "chinaTelecom"@
    } else {
        config.service_name == read.service_name
    }
}

/// The configuration: the defaults where there is no file. A blank carrier from
/// an old or hand-edited file counts as the default one.
pub fn load_config(file: ConfigFile) -> (r: Result<AppConfig, String>)
    ensures
        match file {
            ConfigFile::Missing => r matches Ok(config) && config.is_default(),
            ConfigFile::Unusable(message) => r matches Err(text) && text@ == message@,
            ConfigFile::Read(read) => r matches Ok(config) && completed(config, read),
        },
{
    match file {
        ConfigFile::Missing => Ok(AppConfig::defaults()),
        ConfigFile::Unusable(message) => Err(message),
        ConfigFile::Read(read) => {
            let mut config = read;
            if blank(&config.service_name) {
                config.service_name = default_service_name();
            }
            Ok(config)
        },
    }
}

/// Whether a configuration may be saved: it names one of the known carriers.
pub fn save_config(config: &AppConfig) -> (r: Result<(), String>)
    ensures
        outcome_text(r) == if model::known_service(config.service_name@) {
            Ok(())
        } else {
            Err("运营商必须选择中国电信、中国联通或中国移动"@)
        },
{
    if !is_valid_service_name(&config.service_name) {
        return Err("运营商必须选择中国电信、中国联通或中国移动".to_string());
    }
    Ok(())
}

/// Whether a configuration from the settings page names a room.
pub fn check_room(config: &AppConfig) -> (r: Result<(), String>)
    ensures
        outcome_text(r) == if config.bound() {
            Ok(())
        } else {
            Err("请填写楼栋/公寓 ID 和房间 ID，也可以先使用自动获取"@)
        },
{
    if !config.has_room_binding() {
        return Err("请填写楼栋/公寓 ID 和房间 ID，也可以先使用自动获取".to_string());
    }
    Ok(())
}

/// Credentials of which neither part is empty.
pub open spec fn present(stored: Option<Credentials>) -> bool {
    stored matches Some(c) && c.phone@.len() > 0 && c.uid@.len() > 0
}

/// What the settings page shows. A configuration that cannot be read comes
/// before a store that cannot.
pub fn read_view(
    config: Result<AppConfig, String>,
    stored: Result<Option<Credentials>, StoreError>,
) -> (r: Result<ConfigView, String>)
    ensures
        match config {
            Err(message) => r matches Err(text) && text@ == message@,
            Ok(value) => match stored {
                Err(error) => r matches Err(text) && text@ == secure_store::store_message(error@),
                Ok(credentials) => r matches Ok(view) && view.config == value
                    && view.has_credentials == present(credentials),
            },
        },
{
    let config = match config {
        Err(message) => {
            return Err(message);
        },
        Ok(value) => value,
    };
    match stored {
        Err(error) => Err(error.message()),
        Ok(credentials) => {
            let has_credentials = match &credentials {
                Some(c) => !c.phone.as_str().is_empty() && !c.uid.as_str().is_empty(),
                None => false,
            };
            Ok(ConfigView { config, has_credentials })
        },
    }
}

/// Whether credentials may be saved: neither part is blank.
pub fn save_credentials(credentials: &Credentials) -> (r: Result<(), String>)
    ensures
        outcome_text(r) == if text::is_blank(credentials.phone@) || text::is_blank(
            credentials.uid@,
        ) {
            Err("手机号和 UID/认证码不能为空"@)
        } else {
            Ok(())
        },
{
    if blank(&credentials.phone) || blank(&credentials.uid) {
        return Err("手机号和 UID/认证码不能为空".to_string());
    }
    Ok(())
}

/// The stored credentials, an error of the store as text.
pub fn load_credentials(stored: Result<Option<Credentials>, StoreError>) -> (r: Result<
    Option<Credentials>,
    String,
>)
    ensures
        match stored {
            Ok(credentials) => r matches Ok(value) && value == credentials,
            Err(error) => r matches Err(text) && text@ == secure_store::store_message(error@),
        },
{
    match stored {
        Ok(credentials) => Ok(credentials),
        Err(error) => Err(error.message()),
    }
}

/// A configuration that was accepted for saving is kept as it is when it is
/// loaded.
pub proof fn saved_config_is_kept(config: AppConfig, loaded: AppConfig)
    requires
        model::known_service(config.service_name@),
        completed(loaded, config),
    ensures
        loaded == config,
{
    reveal_strlit("chinaTelecom");
    reveal_strlit("chinaUnicom");
    reveal_strlit("chinaMobile");
    text::lemma_blank_is_all_white(config.service_name@);
    assert(!text::is_white(config.service_name@[0]));
}

/// A configuration that was read keeps everything but a blank carrier, which
/// becomes the default one.
pub proof fn read_settings_are_kept(config: AppConfig, read: AppConfig)
    requires
        completed(config, read),
    ensures
        config.apartment_id == read.apartment_id,
        config.room_id == read.room_id,
        config.gateway == read.gateway,
        config.check_url == read.check_url,
        config.portal_host == read.portal_host,
        config.auto_start == read.auto_start,
        (exists|k: int|
            0 <= k < read.service_name@.len() && !text::is_white(#[trigger] read.service_name@[k]))
            ==> config == read,
        (forall|k: int|
            0 <= k < read.service_name@.len() ==> text::is_white(#[trigger] read.service_name@[k]))
            ==> config.service_name@ == "chinaTelecom"@,
{
    text::lemma_blank_is_all_white(read.service_name@);
}

/// Credentials are there where there is a phone number and an identifier.
pub proof fn credentials_need_both_parts(stored: Option<Credentials>, c: Credentials)
    ensures
        stored is None ==> !present(stored),
        stored == Some(c) ==> (present(stored) <==> c.phone@.len() > 0 && c.uid@.len() > 0),
{
}

/// Failures are seen as their texts.
pub proof fn failures_are_seen_as_texts<T>(r: Result<T, String>)
    ensures
        match r {
            Ok(value) => outcome_text(r) == Ok::<_, Seq<char>>(value),
            Err(text) => outcome_text(r) == Err::<T, _>(text@),
        },
{
}

} // verus!
