use campus_auto_login::capture::{
    capture_binding, capture_host, capture_start_url, captured_config, CaptureError,
    CaptureLifecycle, CloseStep, OpenStep,
};
use campus_auto_login::config::{
    check_room, load_config, load_credentials, read_view, save_config, save_credentials, ConfigFile,
};
use campus_auto_login::desktop::{menu_action, refuses_exit, stays_in_background, MenuAction};
use campus_auto_login::model::{is_valid_service_name, AppConfig, Credentials};
use campus_auto_login::paths::{
    config_path, credentials_path, data_dir, local_data_dir, log_dir, Location,
};
use campus_auto_login::secure_store::{load, save, StoreError, StoredFile};
use campus_auto_login::startup::{registry_outcome, run_command, set_enabled, RegistryCall};
use campus_auto_login::text::is_whitespace;

fn config() -> AppConfig {
    AppConfig {
        apartment_id: "a".into(),
        room_id: "r".into(),
        ..AppConfig::defaults()
    }
}

fn path(location: Location) -> String {
    let mut all = vec![location.base];
    all.extend(location.parts);
    all.join("/")
}

#[test]
fn service_name_whitelist_matches_campus_values() {
    assert!(is_valid_service_name("chinaTelecom"));
    assert!(is_valid_service_name("chinaUnicom"));
    assert!(is_valid_service_name("chinaMobile"));
    assert!(!is_valid_service_name("telecom"));
    assert!(!is_valid_service_name(""));
}

#[test]
fn white_space_is_what_the_standard_library_says() {
    for u in 0..=0x10ffffu32 {
        if let Some(c) = char::from_u32(u) {
            assert_eq!(is_whitespace(c), c.is_whitespace(), "{u:x}");
        }
    }
}

#[test]
fn missing_configuration_is_the_default_one() {
    let config = load_config(ConfigFile::Missing).unwrap();
    assert_eq!(config.gateway, "http://10.10.16.101:8080/eportal/login_sso.jsp");
    assert_eq!(config.check_url, "http://connect.rom.miui.com/generate_204");
    assert_eq!(config.portal_host, "10.10.16.101");
    assert_eq!(config.service_name, "chinaTelecom");
    assert!(!config.auto_start);
    assert!(!config.has_room_binding());
}

#[test]
fn empty_values_are_empty() {
    assert_eq!(AppConfig::default().gateway, "");
    assert!(!AppConfig::default().has_room_binding());
    assert_eq!(Credentials::default().phone, "");
}

#[test]
fn blank_carriers_become_the_default_one() {
    let mut old = config();
    old.service_name = " \t".into();
    old.room_id = "kept".into();
    let loaded = load_config(ConfigFile::Read(old)).unwrap();
    assert_eq!(loaded.service_name, "chinaTelecom");
    assert_eq!(loaded.room_id, "kept");
    let mut other = config();
    other.service_name = "somethingElse".into();
    assert_eq!(
        load_config(ConfigFile::Read(other)).unwrap().service_name,
        "somethingElse"
    );
    assert_eq!(
        load_config(ConfigFile::Unusable("broken".into())).unwrap_err(),
        "broken"
    );
}

#[test]
fn configurations_are_checked_before_saving() {
    assert_eq!(save_config(&config()), Ok(()));
    let mut bad = config();
    bad.service_name = "telecom".into();
    assert_eq!(
        save_config(&bad),
        Err("运营商必须选择中国电信、中国联通或中国移动".to_string())
    );
    assert_eq!(check_room(&config()), Ok(()));
    assert_eq!(
        check_room(&AppConfig::defaults()),
        Err("请填写楼栋/公寓 ID 和房间 ID，也可以先使用自动获取".to_string())
    );
    let mut half = config();
    half.room_id = "  ".into();
    assert!(check_room(&half).is_err());
}

#[test]
fn credentials_need_both_parts() {
    let credentials = |phone: &str, uid: &str| Credentials {
        phone: phone.into(),
        uid: uid.into(),
    };
    assert_eq!(save_credentials(&credentials("1", "2")), Ok(()));
    let message = Err("手机号和 UID/认证码不能为空".to_string());
    assert_eq!(save_credentials(&credentials(" ", "2")), message);
    assert_eq!(save_credentials(&credentials("1", "")), message);
    let has = |stored: Option<Credentials>| {
        read_view(Ok(config()), Ok(stored)).unwrap().has_credentials
    };
    assert!(has(Some(credentials("1", "2"))));
    // White space counts as present here.
    assert!(has(Some(credentials(" ", " "))));
    assert!(!has(Some(credentials("", "2"))));
    assert!(!has(None));
}

#[test]
fn store_errors_become_messages() {
    assert_eq!(
        read_view(Err("config".into()), Err(StoreError::InvalidData)).unwrap_err(),
        "config"
    );
    assert_eq!(
        read_view(Ok(config()), Err(StoreError::InvalidData)).unwrap_err(),
        "credential store: InvalidData"
    );
    assert_eq!(
        load_credentials(Err(StoreError::Platform("CryptProtectData failed".into()))).unwrap_err(),
        "credential store: Platform(\"CryptProtectData failed\")"
    );
    assert_eq!(
        load_credentials(Err(StoreError::Io("Kind(NotFound)".into()))).unwrap_err(),
        "credential store: Io(Kind(NotFound))"
    );
    assert!(load_credentials(Ok(None)).unwrap().is_none());
}

#[test]
fn stored_bytes_come_back() {
    for n in 0..70usize {
        let bytes: Vec<u8> = (0..n).map(|i| (i * 37 + n) as u8).collect();
        let content = save(&bytes);
        assert_eq!(
            load(StoredFile::Text(content.clone())).unwrap(),
            Some(bytes.clone())
        );
        let padded = format!("\r\n {content}\n");
        assert_eq!(load(StoredFile::Text(padded)).unwrap(), Some(bytes));
    }
    assert_eq!(save(&b"hello".to_vec()), "aGVsbG8=");
    assert_eq!(save(&vec![0xfb, 0xff, 0xfe, 0xff]), "+//+/w==");
}

#[test]
fn damaged_stores_are_refused() {
    for text in ["aGVsbG8", "aGVsbG8==", "aGVs bG8=", "aGVsbG9=", "!", "===="] {
        assert!(
            matches!(
                load(StoredFile::Text(text.into())),
                Err(StoreError::InvalidData)
            ),
            "{text}"
        );
    }
    assert!(matches!(load(StoredFile::Missing), Ok(None)));
    assert!(matches!(
        load(StoredFile::Unreadable("denied".into())),
        Err(StoreError::Io(text)) if text == "denied"
    ));
}

#[test]
fn files_have_their_places() {
    let roaming = Some("R".to_string());
    let local = Some("L".to_string());
    assert_eq!(path(data_dir(roaming.clone())), "R/CampusAutoLogin");
    assert_eq!(path(data_dir(None)), "./CampusAutoLogin");
    assert_eq!(
        path(config_path(roaming.clone())),
        "R/CampusAutoLogin/config.json"
    );
    assert_eq!(
        path(credentials_path(roaming.clone())),
        "R/CampusAutoLogin/credentials.bin"
    );
    assert_eq!(
        path(local_data_dir(local.clone(), roaming.clone())),
        "L/CampusAutoLogin"
    );
    assert_eq!(
        path(local_data_dir(None, roaming.clone())),
        "R/CampusAutoLogin"
    );
    assert_eq!(
        path(log_dir(local.clone(), roaming.clone())),
        "L/CampusAutoLogin/logs"
    );
    let logger = campus_auto_login::logger::Logger::new(1, 2);
    assert_eq!(
        path(logger.log_dir(None, None)),
        "./CampusAutoLogin/logs"
    );
}

#[test]
fn automatic_start_changes_one_setting() {
    let changed = set_enabled(Ok(config()), true).unwrap();
    assert!(changed.auto_start);
    assert_eq!(changed.room_id, "r");
    assert_eq!(set_enabled(Err("x".into()), true).unwrap_err(), "x");
    let mut bad = config();
    bad.service_name = String::new();
    assert!(set_enabled(Ok(bad), false).is_err());
    assert_eq!(
        run_command("C:\\Program Files\\campus.exe"),
        "\"C:\\Program Files\\campus.exe\" --background"
    );
}

#[test]
fn registry_codes_become_outcomes() {
    assert_eq!(registry_outcome(RegistryCall::Open, 0), Ok(()));
    assert_eq!(
        registry_outcome(RegistryCall::Open, 5),
        Err("registry open failed: 5".to_string())
    );
    assert_eq!(
        registry_outcome(RegistryCall::Write, 2),
        Err("registry write failed: 2".to_string())
    );
    assert_eq!(registry_outcome(RegistryCall::Delete, 2), Ok(()));
    assert_eq!(
        registry_outcome(RegistryCall::Delete, 5),
        Err("registry delete failed: 5".to_string())
    );
}

#[test]
fn capture_starts_at_the_portal_trigger() {
    assert_eq!(capture_start_url(None), Ok("http://baidu.com/".to_string()));
    assert_eq!(
        capture_start_url(Some(" http://127.0.0.1:80?a=b c#d".into())),
        Ok("http://127.0.0.1/?a=b%20c#d".to_string())
    );
    assert_eq!(
        capture_start_url(Some("http://127.0.0.1:99/x".into())),
        Ok("http://127.0.0.1:99/x".to_string())
    );
    assert_eq!(
        capture_start_url(Some("nonsense".into())),
        Err("invalid capture fixture URL".to_string())
    );
    for other in ["https://127.0.0.1/", "http://10.0.0.1/"] {
        assert_eq!(
            capture_start_url(Some(other.into())),
            Err("capture fixture must use loopback HTTP".to_string())
        );
    }
}

#[test]
fn captures_trust_the_campus_host() {
    let mut value = config();
    assert_eq!(
        capture_host(&Some(value.clone())),
        Some("10.10.16.101".to_string())
    );
    value.portal_host = " ".into();
    value.gateway = "http://GW.example/x".into();
    let host = capture_host(&Some(value.clone()));
    assert_eq!(host, Some("gw.example".to_string()));
    value.gateway = "broken".into();
    assert_eq!(capture_host(&Some(value)), Some(String::new()));
    assert_eq!(capture_host(&None), None);
    let url = "http://gw.example/?apartmentId=a1&roomId=r1";
    let bound = Some(("a1".to_string(), "r1".to_string()));
    assert_eq!(capture_binding(&host, url), bound);
    assert_eq!(capture_binding(&None, url), bound);
    assert_eq!(capture_binding(&Some("other".into()), url), None);
}

#[test]
fn captured_rooms_go_into_the_configuration() {
    let saved = captured_config(Ok(AppConfig::defaults()), &"a1".into(), &"r1".into()).unwrap();
    assert_eq!(saved.apartment_id, "a1");
    assert_eq!(saved.room_id, "r1");
    assert_eq!(saved.portal_host, "10.10.16.101");
    assert!(matches!(
        captured_config(Err("x".into()), &"a".into(), &"r".into()),
        Err(CaptureError::Read(text)) if text == "x"
    ));
    let mut bad = AppConfig::defaults();
    bad.service_name = "?".into();
    assert!(matches!(
        captured_config(Ok(bad), &"a".into(), &"r".into()),
        Err(CaptureError::Save(_))
    ));
}

#[test]
fn capture_window_is_destroyed_once() {
    let mut window = CaptureLifecycle::new();
    assert_eq!(window.open(false), OpenStep::Create);
    window.created();
    assert_eq!(window.open(true), OpenStep::Show);
    assert!(window.close_requested());
    assert!(!window.close_requested());
    assert_eq!(window.close(true), CloseStep::Await);
    assert_eq!(window.open(true), OpenStep::Await);
    window.destroyed();
    window.closed();
    assert_eq!(window.open(false), OpenStep::Create);

    window.created();
    assert_eq!(window.close(true), CloseStep::DestroyAndAwait);
    window.destroy_failed();
    assert_eq!(window.open(true), OpenStep::Show);
    assert_eq!(window.close(false), CloseStep::Await);
    assert_eq!(window.open(false), OpenStep::Await);

    let mut idle = CaptureLifecycle::new();
    assert_eq!(idle.close(true), CloseStep::Destroy);
    assert_eq!(idle.close(false), CloseStep::Nothing);
    idle.destroyed();
    assert_eq!(idle.open(false), OpenStep::Create);
}

#[test]
fn tray_and_command_line_are_understood() {
    assert_eq!(menu_action("open"), MenuAction::OpenPanel);
    assert_eq!(menu_action("login"), MenuAction::Login);
    assert_eq!(menu_action("pause"), MenuAction::TogglePause);
    assert_eq!(menu_action("quit"), MenuAction::Quit);
    assert_eq!(menu_action("other"), MenuAction::Nothing);
    let args = |list: &[&str]| list.iter().map(|s| s.to_string()).collect::<Vec<String>>();
    assert!(stays_in_background(&args(&["app", "x", "--background"])));
    assert!(!stays_in_background(&args(&["--background"])));
    assert!(!stays_in_background(&args(&["app", "--Background"])));
    assert!(!stays_in_background(&Vec::new()));
    assert!(refuses_exit(None));
    assert!(!refuses_exit(Some(0)));
}
