//! Where Steam keeps its files, who uses it, and which apps it knows.
//!
//! The functions here are told what the machine holds (the home
//! directory, the users that logged in, the apps of the registry) and work
//! out paths, the active user and the list of apps from it.

use crate::text::{
    chars_of, decimal, decimal_chars, join_chars, joined, normalize_chars, normalized, push_all,
    same_chars, string_of,
};
use vstd::prelude::*;

verus! {

/// What is known of the Steam installation of the machine.
#[derive(Clone, Debug, PartialEq, Eq)]
pub enum SteamInstall {
    /// On Windows: the path of Steam as the registry gives it.
    Windows { steam_path: String },
    /// On Linux: the home directory of the user, and whether the directory
    /// of the Flatpak installation (`flatpak_steam_dir`) exists.
    Linux { home: String, flatpak: bool },
}

/// The directory of the Flatpak installation of Steam under `home`.
pub open spec fn flatpak_dir(home: Seq<char>) -> Seq<char> {
    joined(home, ".var/app/com.valvesoftware.Steam/data/steam"@)
}

/// The root directory of Steam. On Windows it is the path of the registry
/// with forward slashes; on Linux the directory of the Flatpak
/// installation where that exists, and `.steam/steam` under the home
/// directory otherwise.
pub open spec fn steam_root_dir(install: SteamInstall) -> Seq<char> {
    match install {
        SteamInstall::Windows { steam_path } => normalized(steam_path@),
        SteamInstall::Linux { home, flatpak } => if flatpak {
            flatpak_dir(home@)
        } else {
            joined(home@, ".steam/steam"@)
        },
    }
}

/// `name` under the directory `root`, with forward slashes.
pub open spec fn path_under(root: Seq<char>, name: Seq<char>) -> Seq<char> {
    normalized(joined(root, name))
}

/// The configuration directory of the user `user` under the Steam root.
pub open spec fn user_config_dir(root: Seq<char>, user: u32) -> Seq<char> {
    joined(joined(root, "userdata"@), decimal(user as nat))
}

/// The directory of the Flatpak installation of Steam under `home`.
pub fn flatpak_steam_dir(home: &str) -> (dir: String)
    ensures
        dir@ == flatpak_dir(home@),
{
    let dir = join_chars(&chars_of(home), &chars_of(".var/app/com.valvesoftware.Steam/data/steam"));
    string_of(&dir)
}

/// The root directory of Steam.
pub fn get_steam_root_dir(install: &SteamInstall) -> (root: String)
    ensures
        root@ == steam_root_dir(*install),
{
    match install {
        SteamInstall::Windows { steam_path } => {
            let path = normalize_chars(&chars_of(steam_path.as_str()));
            string_of(&path)
        },
        SteamInstall::Linux { home, flatpak } => {
            if *flatpak {
                flatpak_steam_dir(home.as_str())
            } else {
                let dir = join_chars(&chars_of(home.as_str()), &chars_of(".steam/steam"));
                string_of(&dir)
            }
        },
    }
}

fn under_root(steam_root: &str, name: &str) -> (path: String)
    ensures
        path@ == path_under(steam_root@, name@),
{
    let path = normalize_chars(&join_chars(&chars_of(steam_root), &chars_of(name)));
    string_of(&path)
}

fn under_user(steam_root: &str, user: u32, name: &str) -> (path: String)
    ensures
        path@ == path_under(user_config_dir(steam_root@, user), name@),
{
    let userdata = join_chars(&chars_of(steam_root), &chars_of("userdata"));
    let user_dir = join_chars(&userdata, &decimal_chars(user as u64));
    let path = normalize_chars(&join_chars(&user_dir, &chars_of(name)));
    string_of(&path)
}

/// The directory in which the grids of the user are filed.
pub fn get_grids_directory(steam_root: &str, steam_active_user_id: u32) -> (dir: String)
    ensures
        dir@ == path_under(user_config_dir(steam_root@, steam_active_user_id), "config/grid"@),
{
    under_user(steam_root, steam_active_user_id, "config/grid")
}

/// The path of the shortcuts file of the user.
pub fn get_shortcuts_path(steam_root: &str, steam_active_user_id: u32) -> (path: String)
    ensures
        path@ == path_under(
            user_config_dir(steam_root@, steam_active_user_id),
            "config/shortcuts.vdf"@,
        ),
{
    under_user(steam_root, steam_active_user_id, "config/shortcuts.vdf")
}

/// The path of the local configuration of the user.
pub fn get_localconfig_path(steam_root: &str, steam_active_user_id: u32) -> (path: String)
    ensures
        path@ == path_under(
            user_config_dir(steam_root@, steam_active_user_id),
            "config/localconfig.vdf"@,
        ),
{
    under_user(steam_root, steam_active_user_id, "config/localconfig.vdf")
}

/// The directory in which Steam caches the artwork of its library.
pub fn get_library_cache_directory(steam_root: &str) -> (dir: String)
    ensures
        dir@ == path_under(steam_root@, "appcache/librarycache"@),
{
    under_root(steam_root, "appcache/librarycache")
}

/// The path of `appinfo.vdf`.
pub fn get_appinfo_path(steam_root: &str) -> (path: String)
    ensures
        path@ == path_under(steam_root@, "appcache/appinfo.vdf"@),
{
    under_root(steam_root, "appcache/appinfo.vdf")
}

/// The number that the digit `c` stands for, or -1 where `c` is no digit.
pub open spec fn digit_value(c: char) -> int {
    if c == '0' {
        0
    } else if c == '1' {
        1
    } else if c == '2' {
        2
    } else if c == '3' {
        3
    } else if c == '4' {
        4
    } else if c == '5' {
        5
    } else if c == '6' {
        6
    } else if c == '7' {
        7
    } else if c == '8' {
        8
    } else if c == '9' {
        9
    } else {
        -1
    }
}

/// Whether every character of `text` is a digit.
pub open spec fn all_digits(text: Seq<char>) -> bool {
    forall|i: int| 0 <= i < text.len() ==> digit_value(#[trigger] text[i]) >= 0
}

/// The number that a text of digits stands for.
pub open spec fn digits_value(text: Seq<char>) -> nat
    decreases text.len(),
{
    if text.len() == 0 {
        0
    } else if digit_value(text.last()) >= 0 {
        digits_value(text.drop_last()) * 10 + digit_value(text.last()) as nat
    } else {
        digits_value(text.drop_last()) * 10
    }
}

/// The number that `text` stands for, read as an unsigned 64-bit number in
/// decimal: digits, with or without a plus sign before them. Text without a
/// digit, with another character, or of a number too large stands for none.
pub open spec fn parsed_u64(text: Seq<char>) -> Option<u64> {
    let digits = if text.len() > 0 && text[0] == '+' {
        text.drop_first()
    } else {
        text
    };
    if digits.len() > 0 && all_digits(digits) && digits_value(digits) <= u64::MAX {
        Some(digits_value(digits) as u64)
    } else {
        None
    }
}

/// The 64-bit id of the account with the number zero: the 64-bit id of an
/// account is its number added to this.
pub const STEAM_ID_BASE: u64 = 76561197960265728;

/// The number of the account with the 64-bit id that `steam_id` spells, if
/// it spells one.
pub open spec fn account_id(steam_id: Seq<char>) -> Option<u32> {
    match parsed_u64(steam_id) {
        Some(id) => if STEAM_ID_BASE <= id && id - STEAM_ID_BASE <= u32::MAX {
            Some((id - STEAM_ID_BASE) as u32)
        } else {
            None
        },
        None => None,
    }
}

/// A longer text of digits stands for no smaller number.
pub proof fn lemma_digits_value_grows(text: Seq<char>, k: int)
    requires
        0 <= k <= text.len(),
    ensures
        digits_value(text.take(k)) <= digits_value(text),
    decreases text.len() - k,
{
    if k < text.len() {
        lemma_digits_value_grows(text, k + 1);
        assert(text.take(k + 1).drop_last() == text.take(k));
    } else {
        assert(text.take(k) == text);
    }
}

fn digit_of(c: char) -> (value: Option<u64>)
    ensures
        match value {
            Some(value) => value == digit_value(c),
            None => digit_value(c) == -1,
        },
{
    if c == '0' {
        Some(0)
    } else if c == '1' {
        Some(1)
    } else if c == '2' {
        Some(2)
    } else if c == '3' {
        Some(3)
    } else if c == '4' {
        Some(4)
    } else if c == '5' {
        Some(5)
    } else if c == '6' {
        Some(6)
    } else if c == '7' {
        Some(7)
    } else if c == '8' {
        Some(8)
    } else if c == '9' {
        Some(9)
    } else {
        None
    }
}

/// Reads an unsigned 64-bit number in decimal.
pub fn parse_u64(text: &str) -> (number: Option<u64>)
    ensures
        number == parsed_u64(text@),
{
    let chars = chars_of(text);
    let start: usize = if chars.len() > 0 && chars[0] == '+' {
        1
    } else {
        0
    };
    let ghost digits = chars@.subrange(start as int, chars@.len() as int);
    assert(digits == if text@.len() > 0 && text@[0] == '+' {
        text@.drop_first()
    } else {
        text@
    });
    if chars.len() == start {
        return None;
    }
    let mut number: u64 = 0;
    let mut i: usize = start;
    assert(digits.take(0) =~= Seq::<char>::empty());
    while i < chars.len()
        invariant
            start <= i <= chars.len(),
            start < chars.len(),
            digits == chars@.subrange(start as int, chars@.len() as int),
            digits == if text@.len() > 0 && text@[0] == '+' {
                text@.drop_first()
            } else {
                text@
            },
            all_digits(digits.take(i - start)),
            number == digits_value(digits.take(i - start)),
        decreases chars.len() - i,
    {
        let ghost k = i - start;
        assert(digits.take(k + 1).drop_last() == digits.take(k));
        assert(digits.take(k + 1).last() == chars@[i as int]);
        let digit = match digit_of(chars[i]) {
            Some(digit) => digit,
            None => {
                assert(digit_value(digits[k]) == -1);
                return None;
            },
        };
        if number > (u64::MAX - digit) / 10 {
            proof {
                lemma_digits_value_grows(digits, k + 1);
            }
            return None;
        }
        number = number * 10 + digit;
        assert forall|j: int| 0 <= j < k + 1 implies digit_value(
            #[trigger] digits.take(k + 1)[j],
        ) >= 0 by {
            if j < k {
                assert(digits.take(k)[j] == digits.take(k + 1)[j]);
            }
        }
        i += 1;
    }
    assert(digits.take(chars.len() - start) == digits);
    Some(number)
}

/// The number of the account with the 64-bit id that `steam_id` spells.
pub fn account_id_of(steam_id: &str) -> (account: Option<u32>)
    ensures
        account == account_id(steam_id@),
{
    match parse_u64(steam_id) {
        Some(id) => {
            if id >= STEAM_ID_BASE && id - STEAM_ID_BASE <= 4294967295 {
                Some((id - STEAM_ID_BASE) as u32)
            } else {
                None
            }
        },
        None => None,
    }
}

/// A user that logged in on this machine.
#[derive(Clone, Debug, PartialEq, Eq)]
pub struct LoginUser {
    /// The 64-bit id of the account, in decimal.
    pub steam_id: String,
    /// `1` for the user that logged in last.
    pub most_recent: String,
}

/// What a `LoginUser` stands for.
pub struct LoginUserView {
    pub steam_id: Seq<char>,
    pub most_recent: Seq<char>,
}

impl DeepView for LoginUser {
    type V = LoginUserView;

    open spec fn deep_view(&self) -> LoginUserView {
        LoginUserView { steam_id: self.steam_id@, most_recent: self.most_recent@ }
    }
}

/// The index of the first user that is marked as the most recent, or the
/// number of users where none is.
pub open spec fn most_recent_index(users: Seq<LoginUserView>) -> int
    decreases users.len(),
{
    if users.len() == 0 {
        0
    } else if users[0].most_recent == "1"@ {
        0
    } else {
        1 + most_recent_index(users.drop_first())
    }
}

/// Whether the active user can be told: whether the id of the first user
/// that is marked as the most recent, if there is one, spells an account.
pub open spec fn active_user_is_known(users: Seq<LoginUserView>) -> bool {
    most_recent_index(users) < users.len() ==> account_id(
        users[most_recent_index(users)].steam_id,
    ) is Some
}

/// The number of the account of the first user that is marked as the most
/// recent, or zero where no user is.
pub open spec fn active_user(users: Seq<LoginUserView>) -> u32 {
    if most_recent_index(users) < users.len() {
        account_id(users[most_recent_index(users)].steam_id)->Some_0
    } else {
        0
    }
}

/// Finds the first user that is marked as the most recent.
fn find_most_recent(users: &Vec<LoginUser>) -> (found: Option<usize>)
    ensures
        match found {
            Some(i) => i < users.len() && i == most_recent_index(users.deep_view()),
            None => most_recent_index(users.deep_view()) == users.len(),
        },
{
    let ghost all = users.deep_view();
    let one = chars_of("1");
    let mut i: usize = 0;
    assert(all.skip(0) == all);
    while i < users.len()
        invariant
            i <= users.len(),
            all == users.deep_view(),
            one@ == "1"@,
            most_recent_index(all) == i + most_recent_index(all.skip(i as int)),
        decreases users.len() - i,
    {
        assert(all.skip(i as int)[0] == users@[i as int].deep_view());
        assert(all.skip(i as int).drop_first() == all.skip(i + 1));
        if same_chars(&chars_of(users[i].most_recent.as_str()), &one) {
            return Some(i);
        }
        i += 1;
    }
    None
}

/// Tells whether `get_active_user` can be asked for the active user.
pub fn can_get_active_user(users: &Vec<LoginUser>) -> (known: bool)
    ensures
        known == active_user_is_known(users.deep_view()),
{
    match find_most_recent(users) {
        Some(i) => account_id_of(users[i].steam_id.as_str()).is_some(),
        None => true,
    }
}

/// The active user: the number of the account of the first user that is
/// marked as the most recent, or zero where no user is.
pub fn get_active_user(users: &Vec<LoginUser>) -> (user: u32)
    requires
        active_user_is_known(users.deep_view()),
    ensures
        user == active_user(users.deep_view()),
{
    match find_most_recent(users) {
        Some(i) => account_id_of(users[i].steam_id.as_str()).unwrap(),
        None => 0,
    }
}

/// An app of the registry: its id and its name, which is empty where the
/// registry gives none.
#[derive(Clone, Debug, PartialEq, Eq)]
pub struct SteamApp {
    pub app_id: String,
    pub name: String,
}

/// What a `SteamApp` stands for.
pub struct SteamAppView {
    pub app_id: Seq<char>,
    pub name: Seq<char>,
}

impl DeepView for SteamApp {
    type V = SteamAppView;

    open spec fn deep_view(&self) -> SteamAppView {
        SteamAppView { app_id: self.app_id@, name: self.name@ }
    }
}

/// An app as a JSON object. Id and name are put in as they are.
pub open spec fn app_json(app: SteamAppView) -> Seq<char> {
    "{\"appId\":"@ + app.app_id + ",\"name\":\""@ + app.name + "\"}"@
}

/// The apps as JSON objects, each followed by a comma.
pub open spec fn apps_json(apps: Seq<SteamAppView>) -> Seq<char>
    decreases apps.len(),
{
    if apps.len() == 0 {
        Seq::empty()
    } else {
        apps_json(apps.drop_last()) + app_json(apps.last()) + ","@
    }
}

/// The apps as a JSON array: the objects of the apps with commas between
/// them, in square brackets.
pub open spec fn steam_apps_json(apps: Seq<SteamAppView>) -> Seq<char>
    recommends
        apps.len() > 0,
{
    "["@ + apps_json(apps).drop_last() + "]"@
}

/// The apps of the registry as a JSON array.
pub fn get_steam_apps(apps: &Vec<SteamApp>) -> (json: String)
    requires
        apps.len() > 0,
    ensures
        json@ == steam_apps_json(apps.deep_view()),
{
    let ghost views = apps.deep_view();
    let mut list: Vec<char> = Vec::new();
    let mut i: usize = 0;
    assert(views.take(0) =~= Seq::<SteamAppView>::empty());
    while i < apps.len()
        invariant
            i <= apps.len(),
            views == apps.deep_view(),
            list@ == apps_json(views.take(i as int)),
            i > 0 ==> list@.len() > 0,
        decreases apps.len() - i,
    {
        let ghost before = list@;
        assert(views.take(i + 1).drop_last() == views.take(i as int));
        assert(views.take(i + 1).last() == apps@[i as int].deep_view());
        push_all(&mut list, &chars_of("{\"appId\":"));
        push_all(&mut list, &chars_of(apps[i].app_id.as_str()));
        push_all(&mut list, &chars_of(",\"name\":\""));
        push_all(&mut list, &chars_of(apps[i].name.as_str()));
        push_all(&mut list, &chars_of("\"}"));
        push_all(&mut list, &chars_of(","));
        proof {
            reveal_strlit(",");
            assert(list@ =~= before + app_json(apps@[i as int].deep_view()) + ","@);
        }
        i += 1;
    }
    assert(views.take(apps.len() as int) == views);
    let mut json = chars_of("[");
    let keep: usize = list.len() - 1;
    list.truncate(keep);
    push_all(&mut json, &list);
    push_all(&mut json, &chars_of("]"));
    string_of(&json)
}

} // verus!
