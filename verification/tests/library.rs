//! Concrete cases for the library's rules, one or more per law, formula and
//! error path.

use volume11::audio::process::{description_text, executable_name};
use volume11::audio::{
    announces_new_session, cached_to_keep, lists_session, sessions_with_key, saved_entry_name, needs_entry, needs_description, session_key, session_label, sort_listed, Command,
    DeviceInfo, SessionKind, SessionSnapshot,
};
use volume11::autostart::{
    decode_run_command, reads_as_enabled, repair, status_record, STATUS_LENGTH,
};
use volume11::config::{without_byte_order_mark, AppEntry, Config, UnknownAppPolicy};
use volume11::keyed::KeyedList;
use volume11::text::{compare_keys, trim, KeyOrder};
use volume11::tray::{respond, TrayInput, TrayMessage, TrayResponse, MENU_EXIT, MENU_OPEN, MENU_SETTINGS};
use volume11::ui::mixer::{
    apply_change, master_label, on_device_changed, on_session_added, on_tray_message,
    save_levels, sync_command, WindowAction,
};
use volume11::ui::placement::{usable_work_area, ScreenRect, TaskbarEdge};
use volume11::ui::theme::{accent_choices, accent_to_hex, default_accent, parse_accent, Rgb};
use volume11::ui::widgets::{typed_change, typed_percent};
use volume11::ui::Panel;

const SPEAKERS: &str = "{0.0.0.00000000}.{speakers}";
const HEADSET: &str = "{0.0.0.00000000}.{headset}";

fn snapshot(key: &str, label: &str, kind: SessionKind, volume: u8) -> SessionSnapshot {
    SessionSnapshot {
        key: key.to_string(),
        label: label.to_string(),
        pid: 7,
        volume,
        muted: false,
        kind,
        executable: None,
    }
}

#[test]
fn keys_are_compared_by_code_point() {
    assert_eq!(compare_keys("a", "b"), KeyOrder::Less);
    assert_eq!(compare_keys("b", "a"), KeyOrder::Greater);
    assert_eq!(compare_keys("ab", "ab"), KeyOrder::Equal);
    assert_eq!(compare_keys("ab", "abc"), KeyOrder::Less);
    assert_eq!(compare_keys("Z", "a"), KeyOrder::Less);
    assert_eq!(compare_keys("", "a"), KeyOrder::Less);
}

#[test]
fn trim_removes_unicode_white_space() {
    assert_eq!(trim("\u{3000} x y\t\n"), "x y");
    assert_eq!(trim("   "), "");
    assert_eq!(trim("x"), "x");
}

#[test]
fn keyed_list_keeps_keys_in_order_and_unique() {
    let mut list: KeyedList<AppEntry> = KeyedList::new();
    let entry = |volume: u8| AppEntry {
        volume,
        muted: false,
        label: String::new(),
    };
    assert!(list.insert("vlc.exe".to_string(), entry(1)).is_none());
    assert!(list.insert("@master".to_string(), entry(2)).is_none());
    assert!(list.insert("firefox.exe".to_string(), entry(3)).is_none());
    let previous = list.insert("vlc.exe".to_string(), entry(4));
    assert_eq!(previous.map(|e| e.volume), Some(1));
    assert_eq!(list.len(), 3);
    let keys: Vec<&str> = list.as_slice().iter().map(|(k, _)| k.as_str()).collect();
    assert_eq!(keys, vec!["@master", "firefox.exe", "vlc.exe"]);
    assert_eq!(list.get("vlc.exe").map(|e| e.volume), Some(4));
    assert_eq!(list.remove("firefox.exe").map(|e| e.volume), Some(3));
    assert!(list.get("firefox.exe").is_none());
    assert!(list.remove("firefox.exe").is_none());
    assert!(!list.is_empty());
}

#[test]
fn apply_list_comes_in_key_order() {
    let mut config = Config::default();
    config.set(SPEAKERS, "Speakers", "vlc.exe", 20, true, "VLC");
    config.set(SPEAKERS, "Speakers", "@master", 60, false, "Master");
    config.set(SPEAKERS, "Speakers", "firefox.exe", 40, false, "Firefox");
    assert_eq!(
        config.apply_list(SPEAKERS),
        vec![
            ("@master".to_string(), 60, false),
            ("firefox.exe".to_string(), 40, false),
            ("vlc.exe".to_string(), 20, true),
        ]
    );
}

#[test]
fn setting_again_replaces_the_level_and_the_device_label() {
    let mut config = Config::default();
    config.set(SPEAKERS, "Speakers", "vlc.exe", 20, false, "VLC");
    config.set(SPEAKERS, "Speakers (USB)", "vlc.exe", 35, true, "VLC media player");
    let entry = config.get(SPEAKERS, "vlc.exe").unwrap();
    assert_eq!((entry.volume, entry.muted), (35, true));
    assert_eq!(entry.label, "VLC media player");
    assert_eq!(config.device(SPEAKERS).unwrap().label, "Speakers (USB)");
}

#[test]
fn removing_one_of_several_keeps_the_device() {
    let mut config = Config::default();
    config.set(SPEAKERS, "Speakers", "vlc.exe", 30, false, "VLC");
    config.set(SPEAKERS, "Speakers", "x.exe", 30, false, "X");
    config.remove(SPEAKERS, "vlc.exe");
    assert!(config.get(SPEAKERS, "vlc.exe").is_none());
    assert_eq!(config.get(SPEAKERS, "x.exe").unwrap().volume, 30);
    config.remove(HEADSET, "x.exe");
    assert_eq!(config.get(SPEAKERS, "x.exe").unwrap().volume, 30);
}

#[test]
fn legacy_levels_need_a_device() {
    let mut config = Config::default();
    config.apps.insert(
        "a.exe".to_string(),
        AppEntry {
            volume: 5,
            muted: false,
            label: String::new(),
        },
    );
    assert!(!config.adopt_legacy("", "Nothing"));
    assert!(!config.apps.is_empty());
    assert!(config.adopt_legacy(HEADSET, "Headset"));
    assert_eq!(config.device(HEADSET).unwrap().label, "Headset");
}

#[test]
fn legacy_levels_keep_an_existing_device_label() {
    let mut config = Config::default();
    config.set(HEADSET, "Old name", "b.exe", 10, false, "B");
    config.apps.insert(
        "a.exe".to_string(),
        AppEntry {
            volume: 5,
            muted: false,
            label: String::new(),
        },
    );
    assert!(config.adopt_legacy(HEADSET, "New name"));
    assert_eq!(config.device(HEADSET).unwrap().label, "Old name");
    assert_eq!(config.get(HEADSET, "a.exe").unwrap().volume, 5);
    assert_eq!(config.get(HEADSET, "b.exe").unwrap().volume, 10);
}

#[test]
fn default_configuration() {
    let config = Config::default();
    assert_eq!(config.version, 2);
    assert!(config.settings.auto_apply);
    assert_eq!(config.settings.unknown_app_policy, UnknownAppPolicy::LeaveAlone);
    assert_eq!(config.settings.default_volume, 50);
    assert_eq!(config.settings.accent, "#9AA3AD");
    assert!(config.settings.oled_black);
    assert!(config.devices.is_empty() && config.apps.is_empty());
}

#[test]
fn byte_order_mark_is_dropped() {
    assert_eq!(without_byte_order_mark("\u{feff}{}"), "{}");
    assert_eq!(without_byte_order_mark("{}"), "{}");
    assert_eq!(without_byte_order_mark(""), "");
}

#[test]
fn executable_names_are_lower_cased_file_names() {
    assert_eq!(
        executable_name(r"C:\Program Files\Mozilla Firefox\Firefox.EXE"),
        Some("firefox.exe".to_string())
    );
    assert_eq!(executable_name("C:/Tools/vlc.exe/"), Some("vlc.exe".to_string()));
    assert_eq!(executable_name(r"C:\Tools\.\"), Some("tools".to_string()));
    assert_eq!(executable_name(r"C:\Tools\.."), None);
    assert_eq!(executable_name("C:"), None);
    assert_eq!(executable_name(""), None);
    assert_eq!(executable_name("Spotify.exe"), Some("spotify.exe".to_string()));
}

#[test]
fn volume_prefixes_are_no_file_names() {
    assert_eq!(executable_name(r"\\server\share"), None);
    assert_eq!(executable_name(r"\\server\share\"), None);
    assert_eq!(executable_name(r"\\server\share\Apps\Tool.exe"), Some("tool.exe".to_string()));
    assert_eq!(executable_name(r"\\server"), Some("server".to_string()));
    assert_eq!(executable_name(r"\\.\COM42"), None);
    assert_eq!(executable_name(r"\\.\pipe\x.exe"), Some("x.exe".to_string()));
    assert_eq!(executable_name(r"\\?\C:\dir\."), None);
    assert_eq!(executable_name(r"\\?\C:\dir\App.exe"), Some("app.exe".to_string()));
    assert_eq!(executable_name(r"\\?\C:\dir\a/b"), Some("a/b".to_string()));
    assert_eq!(executable_name(r"\\?\UNC\server\share"), None);
    assert_eq!(executable_name(r"\\?\UNC\server\share\x.exe"), Some("x.exe".to_string()));
    assert_eq!(executable_name(r"\\?\C:"), None);
}

#[test]
fn friendly_labels_keep_other_names() {
    assert_eq!(friendly_label_of("setup"), "Setup");
    assert_eq!(friendly_label_of("my--tool.EXE"), "My  Tool.EXE");
    assert_eq!(friendly_label_of(""), "");
}

fn friendly_label_of(name: &str) -> String {
    volume11::audio::process::friendly_label(name)
}

#[test]
fn sessions_are_keyed_and_labelled() {
    assert_eq!(session_key(true, None), Some("@system".to_string()));
    assert_eq!(
        session_key(false, Some("vlc.exe".to_string())),
        Some("vlc.exe".to_string())
    );
    assert_eq!(session_key(false, None), None);

    assert_eq!(session_label(true, Some("Whatever"), None, "@system"), "System sounds");
    assert_eq!(
        session_label(false, Some(" Spotify "), Some("Spotify Desktop"), "spotify.exe"),
        "Spotify"
    );
    assert_eq!(
        session_label(false, Some("@%SystemRoot%\\x.dll,-1"), Some("Roblox Studio"), "roblox.exe"),
        "Roblox Studio"
    );
    assert_eq!(session_label(false, None, Some("  "), "some_app.exe"), "Some App");
    assert!(needs_description(false, Some("  ")));
    assert!(!needs_description(false, Some("Spotify")));
    assert!(!needs_description(true, None));

    assert!(lists_session(false, 10, 11, false));
    assert!(!lists_session(false, 11, 11, false));
    assert!(lists_session(true, 11, 11, false));
    assert!(!lists_session(true, 10, 11, true));
}

#[test]
fn sessions_are_listed_by_kind_then_label() {
    let list = vec![
        snapshot("vlc.exe", "vlc", SessionKind::App, 1),
        snapshot("@system", "System sounds", SessionKind::System, 2),
        snapshot("firefox.exe", "Firefox", SessionKind::App, 3),
        snapshot("@master", "Speakers", SessionKind::Master, 4),
    ];
    let sorted = sort_listed(list);
    let keys: Vec<&str> = sorted.iter().map(|s| s.key.as_str()).collect();
    assert_eq!(keys, vec!["@master", "@system", "firefox.exe", "vlc.exe"]);

    let devices = vec![
        DeviceInfo { id: "2".to_string(), name: "speakers".to_string() },
        DeviceInfo { id: "1".to_string(), name: "Headset".to_string() },
    ];
    let sorted = sort_listed(devices);
    assert_eq!(sorted[0].id, "1");
    assert_eq!(sorted[1].id, "2");
}

#[test]
fn the_session_cache_follows_the_listed_processes() {
    assert!(needs_entry(&[10, 20], 30));
    assert!(!needs_entry(&[10, 20], 20));
    assert!(needs_entry(&[], 1));
    assert_eq!(cached_to_keep(&[10, 20, 30], &[30, 40, 10]), vec![true, false, true]);
    assert_eq!(cached_to_keep(&[10], &[]), vec![false]);
    assert_eq!(cached_to_keep(&[], &[1]), Vec::<bool>::new());
}

#[test]
fn equal_labels_keep_their_order() {
    let list = vec![
        snapshot("chrome.exe", "Chrome", SessionKind::App, 1),
        snapshot("a.exe", "Alpha", SessionKind::App, 2),
        snapshot("chrome2.exe", "chrome", SessionKind::App, 3),
        snapshot("chrome3.exe", "CHROME", SessionKind::App, 4),
    ];
    let sorted = sort_listed(list);
    let keys: Vec<&str> = sorted.iter().map(|s| s.key.as_str()).collect();
    assert_eq!(keys, vec!["a.exe", "chrome.exe", "chrome2.exe", "chrome3.exe"]);
}

#[test]
fn autostart_records_round_trip() {
    let on = status_record(true, 0x0102_0304_0506_0708);
    assert_eq!(on.len(), STATUS_LENGTH);
    assert_eq!(on, vec![2, 0, 0, 0, 0, 0, 0, 0, 0, 0, 0, 0]);
    let off = status_record(false, 0x0102_0304_0506_0708);
    assert_eq!(off, vec![3, 0, 0, 0, 8, 7, 6, 5, 4, 3, 2, 1]);
    assert!(reads_as_enabled(true, Some(&on)));
    assert!(!reads_as_enabled(true, Some(&off)));
    assert!(!reads_as_enabled(false, Some(&on)));
    assert!(reads_as_enabled(true, None));
    assert!(reads_as_enabled(true, Some(&[])));

    let (command, status) = volume11::autostart::set(false, r"C:\Program Files\Volume11\Volume11.exe", 9);
    assert_eq!(command, r#""C:\Program Files\Volume11\Volume11.exe""#);
    assert_eq!(status[0], 3);
    assert_eq!(status[4], 9);
}

#[test]
fn only_dead_entries_are_repaired() {
    assert!(repair(Some(r#""C:\Gone\Volume11.exe" --show"#), false));
    assert!(!repair(Some(r#""C:\Here\Volume11.exe""#), true));
    assert!(!repair(None, false));
    assert!(!repair(Some("   "), false));
}

#[test]
fn run_commands_lose_their_terminating_nuls() {
    let units: Vec<u16> = "\"C:\\x.exe\"\0\0".encode_utf16().collect();
    assert_eq!(decode_run_command(&units), "\"C:\\x.exe\"");
    assert_eq!(decode_run_command(&[]), "");
    // A surrogate pair is one character; a surrogate without its partner is U+FFFD.
    let units = [0x41, 0xD834, 0xDD1E, 0xDD1E, 0x42, 0xD834, 0x43, 0xD834];
    assert_eq!(decode_run_command(&units), "A\u{1D11E}\u{FFFD}B\u{FFFD}C\u{FFFD}");
}

#[test]
fn accent_edge_cases() {
    assert_eq!(parse_accent("  ##9aa3ad "), Rgb { r: 0x9A, g: 0xA3, b: 0xAD });
    assert_eq!(parse_accent("+FFFFF"), default_accent());
    assert_eq!(parse_accent("+12345"), default_accent());
    assert_eq!(parse_accent("-12345"), default_accent());
    assert_eq!(parse_accent("+"), default_accent());
    assert_eq!(parse_accent("#1234567"), default_accent());
    assert_eq!(accent_to_hex(Rgb { r: 1, g: 0xAB, b: 0xFF }), "#01ABFF");
    let colour = Rgb { r: 12, g: 200, b: 7 };
    assert_eq!(parse_accent(&accent_to_hex(colour)), colour);
}

#[test]
fn the_seven_accents_are_offered_in_order() {
    let names: Vec<&str> = accent_choices().iter().map(|(name, _)| *name).collect();
    assert_eq!(names, vec!["Grey", "Ice", "Mint", "Amber", "Magenta", "Violet", "White"]);
    assert_eq!(accent_choices()[0].1, "#9AA3AD");
    assert_eq!(parse_accent(accent_choices()[1].1), Rgb { r: 0x4C, g: 0xC2, b: 0xFF });
}

#[test]
fn typed_percentages() {
    assert_eq!(typed_percent("4a2"), ("42".to_string(), Some(42)));
    assert_eq!(typed_percent("250"), ("250".to_string(), Some(100)));
    assert_eq!(typed_percent("12345"), ("123".to_string(), Some(100)));
    assert_eq!(typed_percent("abc"), (String::new(), None));
    assert_eq!(typed_percent("007"), ("007".to_string(), Some(7)));
}

#[test]
fn auto_hiding_taskbar_is_kept_clear() {
    let monitor = ScreenRect { left: 0, top: 0, right: 1920, bottom: 1080 };
    let work = monitor;
    let bar = ScreenRect { left: 0, top: 1040, right: 1920, bottom: 1080 };
    let area = usable_work_area(work, monitor, Some((TaskbarEdge::Bottom, bar)));
    assert_eq!(area, ScreenRect { bottom: 1040, ..work });
    let left_bar = ScreenRect { left: 0, top: 0, right: 60, bottom: 1080 };
    assert_eq!(
        usable_work_area(work, monitor, Some((TaskbarEdge::Left, left_bar))).left,
        60
    );
    let elsewhere = ScreenRect { left: 1920, top: 0, right: 3840, bottom: 40 };
    assert_eq!(usable_work_area(work, monitor, Some((TaskbarEdge::Top, elsewhere))), work);
    assert_eq!(usable_work_area(work, monitor, None), work);
}

#[test]
fn tray_messages() {
    assert_eq!(respond(TrayInput::LeftClick), TrayResponse::Notify(TrayMessage::Toggle));
    assert_eq!(respond(TrayInput::RightClick), TrayResponse::ShowMenu);
    assert_eq!(respond(TrayInput::MenuCommand(MENU_OPEN)), TrayResponse::Notify(TrayMessage::Show));
    assert_eq!(
        respond(TrayInput::MenuCommand(MENU_SETTINGS)),
        TrayResponse::Notify(TrayMessage::ShowSettings)
    );
    assert_eq!(respond(TrayInput::MenuCommand(MENU_EXIT)), TrayResponse::Notify(TrayMessage::Quit));
    assert_eq!(respond(TrayInput::MenuCommand(99)), TrayResponse::Nothing);
    assert_eq!(respond(TrayInput::QuitRequest), TrayResponse::Notify(TrayMessage::Quit));
    assert_eq!(respond(TrayInput::ShowRequest), TrayResponse::Notify(TrayMessage::Show));
    assert_eq!(respond(TrayInput::TaskbarCreated), TrayResponse::RestoreIcon);
    assert_eq!(respond(TrayInput::Other), TrayResponse::PassOn);

    assert_eq!(on_tray_message(true, TrayMessage::Toggle), WindowAction::Hide);
    assert_eq!(on_tray_message(false, TrayMessage::Toggle), WindowAction::Show(Panel::Mixer));
    assert_eq!(on_tray_message(true, TrayMessage::ShowSettings), WindowAction::Show(Panel::Settings));
    assert_eq!(on_tray_message(false, TrayMessage::Quit), WindowAction::Quit);
}

#[test]
fn a_starting_program_gets_its_saved_level() {
    let mut config = Config::default();
    config.set(SPEAKERS, "Speakers", "spotify.exe", 35, true, "Spotify");

    let (commands, status) = on_session_added(&config, SPEAKERS, "spotify.exe", "Spotify");
    assert_eq!(commands.len(), 2);
    assert!(matches!(&commands[0], Command::SetVolume { key, volume: 35 } if key == "spotify.exe"));
    assert!(matches!(&commands[1], Command::SetMute { key, muted: true } if key == "spotify.exe"));
    assert_eq!(status.as_deref(), Some("Spotify: 35 %"));

    // Saved on another device only: unknown here, left alone by default.
    let (commands, status) = on_session_added(&config, HEADSET, "spotify.exe", "Spotify");
    assert!(commands.is_empty() && status.is_none());

    config.settings.unknown_app_policy = UnknownAppPolicy::ApplyDefault;
    config.settings.default_volume = 20;
    let (commands, status) = on_session_added(&config, HEADSET, "spotify.exe", "Spotify");
    assert_eq!(commands.len(), 1);
    assert!(matches!(&commands[0], Command::SetVolume { volume: 20, .. }));
    assert_eq!(status.as_deref(), Some("Spotify: 20 %"));

    config.settings.auto_apply = false;
    let (commands, status) = on_session_added(&config, SPEAKERS, "spotify.exe", "Spotify");
    assert!(commands.is_empty() && status.is_none());
}

#[test]
fn saving_and_syncing_rows() {
    let mut config = Config::default();
    let rows = vec![
        snapshot("@master", "Speakers", SessionKind::Master, 70),
        snapshot("vlc.exe", "VLC", SessionKind::App, 30),
    ];
    assert_eq!(save_levels(&mut config, SPEAKERS, "Speakers", &rows), 2);
    assert_eq!(config.get(SPEAKERS, "vlc.exe").unwrap().volume, 30);
    assert_eq!(config.get(SPEAKERS, "@master").unwrap().label, "Speakers");

    let (command, count) = sync_command(&config, SPEAKERS);
    assert_eq!(count, 2);
    assert!(matches!(command, Command::ApplyAll(ref list) if list.len() == 2));
}

#[test]
fn switching_devices_moves_legacy_levels_once_and_applies_the_set() {
    let mut config = Config::default();
    config.apps.insert(
        "vlc.exe".to_string(),
        AppEntry { volume: 15, muted: false, label: "VLC".to_string() },
    );
    let (moved, command) = on_device_changed(&mut config, HEADSET, "Headset");
    assert!(moved);
    assert!(matches!(command, Command::ApplyAll(ref list) if list == &vec![("vlc.exe".to_string(), 15, false)]));
    let (moved, command) = on_device_changed(&mut config, SPEAKERS, "Speakers");
    assert!(!moved);
    assert!(matches!(command, Command::ApplyAll(ref list) if list.is_empty()));
}

#[test]
fn outside_changes_update_the_first_matching_row() {
    let mut rows = vec![
        snapshot("@master", "Speakers", SessionKind::Master, 70),
        snapshot("vlc.exe", "VLC", SessionKind::App, 30),
        snapshot("vlc.exe", "VLC 2", SessionKind::App, 31),
    ];
    apply_change(&mut rows, "vlc.exe", 5, true);
    assert_eq!((rows[1].volume, rows[1].muted), (5, true));
    assert_eq!((rows[2].volume, rows[2].muted), (31, false));
    apply_change(&mut rows, "nothing.exe", 1, true);
    assert_eq!(rows[0].volume, 70);
    assert_eq!(master_label(&rows).map(|s| s.as_str()), Some("Speakers"));
    assert_eq!(master_label(&rows[1..]), None);
}

#[test]
fn empty_descriptions_are_no_descriptions() {
    let blank: Vec<u16> = "   \0Spotify".encode_utf16().collect();
    assert_eq!(description_text(&blank), None);
    assert_eq!(description_text(&[]), None);
    let named: Vec<u16> = " Spotify\0FileV".encode_utf16().collect();
    assert_eq!(description_text(&named), Some("Spotify".to_string()));
}

#[test]
fn every_new_session_is_announced() {
    assert!(announces_new_session(SessionKind::App));
    assert!(announces_new_session(SessionKind::System));
    assert!(!announces_new_session(SessionKind::Master));
}

#[test]
fn saved_levels_are_listed_by_name() {
    assert_eq!(saved_entry_name("@master", "Speakers"), "Master");
    assert_eq!(saved_entry_name("@system", ""), "System sounds");
    assert_eq!(saved_entry_name("vlc.exe", ""), "vlc.exe");
    assert_eq!(saved_entry_name("firefox.exe", "Firefox"), "Firefox");
}

#[test]
fn typing_the_shown_level_changes_nothing() {
    assert_eq!(typed_change("42", 42), ("42".to_string(), None));
    assert_eq!(typed_change("4x3", 42), ("43".to_string(), Some(43)));
    assert_eq!(typed_change("", 42), (String::new(), None));
    assert_eq!(typed_change("250", 100), ("250".to_string(), None));
    assert_eq!(typed_change("250", 7), ("250".to_string(), Some(100)));
}

#[test]
fn a_level_goes_to_every_session_of_the_program() {
    let keys = vec![
        "firefox.exe".to_string(),
        "vlc.exe".to_string(),
        "firefox.exe".to_string(),
    ];
    assert_eq!(sessions_with_key(&keys, "firefox.exe"), vec![0, 2]);
    assert_eq!(sessions_with_key(&keys, "vlc.exe"), vec![1]);
    assert_eq!(sessions_with_key(&keys, "spotify.exe"), Vec::<usize>::new());
}
