use steam_art_manager::steam::{
    account_id_of, can_get_active_user, flatpak_steam_dir, get_active_user, get_appinfo_path,
    get_grids_directory, get_library_cache_directory, get_localconfig_path, get_shortcuts_path,
    get_steam_apps, get_steam_root_dir, parse_u64, LoginUser, SteamApp, SteamInstall,
    STEAM_ID_BASE,
};

fn user(steam_id: &str, most_recent: &str) -> LoginUser {
    LoginUser { steam_id: steam_id.to_string(), most_recent: most_recent.to_string() }
}

fn app(app_id: &str, name: &str) -> SteamApp {
    SteamApp { app_id: app_id.to_string(), name: name.to_string() }
}

#[test]
fn steam_root_depends_on_the_installation() {
    let windows = SteamInstall::Windows { steam_path: "c:\\program files (x86)\\steam".to_string() };
    assert_eq!(get_steam_root_dir(&windows), "c:/program files (x86)/steam");
    let linux = SteamInstall::Linux { home: "/home/me".to_string(), flatpak: false };
    assert_eq!(get_steam_root_dir(&linux), "/home/me/.steam/steam");
    let flatpak = SteamInstall::Linux { home: "/home/me".to_string(), flatpak: true };
    assert_eq!(get_steam_root_dir(&flatpak), "/home/me/.var/app/com.valvesoftware.Steam/data/steam");
    assert_eq!(flatpak_steam_dir("/home/me/"), "/home/me/.var/app/com.valvesoftware.Steam/data/steam");
}

#[test]
fn paths_lie_under_the_steam_root() {
    assert_eq!(get_grids_directory("/home/me/.steam/steam", 12345), "/home/me/.steam/steam/userdata/12345/config/grid");
    assert_eq!(get_grids_directory("C:\\Steam", 7), "C:/Steam/userdata/7/config/grid");
    assert_eq!(get_shortcuts_path("/s", 1), "/s/userdata/1/config/shortcuts.vdf");
    assert_eq!(get_localconfig_path("/s", 0), "/s/userdata/0/config/localconfig.vdf");
    assert_eq!(get_library_cache_directory("/s"), "/s/appcache/librarycache");
    assert_eq!(get_appinfo_path("/s/"), "/s/appcache/appinfo.vdf");
}

#[test]
fn decimal_numbers_are_parsed() {
    assert_eq!(parse_u64("0"), Some(0));
    assert_eq!(parse_u64("007"), Some(7));
    assert_eq!(parse_u64("+42"), Some(42));
    assert_eq!(parse_u64("76561197960265728"), Some(76561197960265728));
    assert_eq!(parse_u64("18446744073709551615"), Some(u64::MAX));
    assert_eq!(parse_u64("18446744073709551616"), None);
    assert_eq!(parse_u64("99999999999999999999"), None);
    assert_eq!(parse_u64(""), None);
    assert_eq!(parse_u64("+"), None);
    assert_eq!(parse_u64("-1"), None);
    assert_eq!(parse_u64("12a"), None);
    assert_eq!(parse_u64("1 "), None);
    assert_eq!(parse_u64("++1"), None);
    assert_eq!(parse_u64("１"), None);
}

#[test]
fn parsing_agrees_with_the_standard_library() {
    for text in ["0", "+0", "+18446744073709551615", "18446744073709551616", "", "+", "-0", "1_0", "0x10", "00000000000000000000001"] {
        assert_eq!(parse_u64(text), text.parse::<u64>().ok());
    }
}

#[test]
fn account_is_the_id_above_the_base() {
    assert_eq!(STEAM_ID_BASE, 76561197960265728);
    assert_eq!(account_id_of("76561197960265728"), Some(0));
    assert_eq!(account_id_of("76561198000000000"), Some(39734272));
    assert_eq!(account_id_of("76561202255233023"), Some(u32::MAX));
    assert_eq!(account_id_of("76561202255233024"), None);
    assert_eq!(account_id_of("76561197960265727"), None);
    assert_eq!(account_id_of("12345"), None);
    assert_eq!(account_id_of("someone"), None);
}

#[test]
fn active_user_is_the_most_recent() {
    let users = vec![
        user("76561197960265729", "0"),
        user("76561198000000000", "1"),
        user("76561197960265730", "1"),
    ];
    assert!(can_get_active_user(&users));
    assert_eq!(get_active_user(&users), 39734272);
}

#[test]
fn no_recent_user_means_user_zero() {
    let users = vec![user("76561197960265729", "0"), user("bogus", "")];
    assert!(can_get_active_user(&users));
    assert_eq!(get_active_user(&users), 0);
    assert!(can_get_active_user(&vec![]));
    assert_eq!(get_active_user(&vec![]), 0);
}

#[test]
fn recent_user_without_account_cannot_be_told() {
    assert!(!can_get_active_user(&vec![user("bogus", "1")]));
    assert!(!can_get_active_user(&vec![user("1", "1")]));
    assert!(can_get_active_user(&vec![user("76561197960265728", "1"), user("bogus", "1")]));
}

#[test]
fn apps_are_listed_as_json() {
    assert_eq!(get_steam_apps(&vec![app("730", "Counter-Strike 2")]), "[{\"appId\":730,\"name\":\"Counter-Strike 2\"}]");
    assert_eq!(
        get_steam_apps(&vec![app("10", ""), app("440", "Team Fortress 2")]),
        "[{\"appId\":10,\"name\":\"\"},{\"appId\":440,\"name\":\"Team Fortress 2\"}]"
    );
}
