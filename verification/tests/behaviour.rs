//! Scenarios for keys, labels, autostart, saved levels and accents.

use volume11::audio::process::{clean_description, friendly_label, usable_display_name};
use volume11::audio::SessionKind;
use volume11::autostart::{command_target, needs_repair, STATUS_DISABLED, STATUS_ENABLED};
use volume11::config::{AppEntry, Config, CURRENT_VERSION};
use volume11::ui::theme::{
    accent_choices, accent_to_hex, black, default_accent, parse_accent, white, Palette, Rgb,
};

const SPEAKERS: &str = "{0.0.0.00000000}.{speakers}";
const HEADSET: &str = "{0.0.0.00000000}.{headset}";

#[test]
fn master_sorts_before_system_and_apps() {
    assert!(SessionKind::Master.rank() < SessionKind::System.rank());
    assert!(SessionKind::System.rank() < SessionKind::App.rank());
}

#[test]
fn description_stops_at_the_first_nul() {
    let raw: Vec<u16> = "Spotify\0\u{8}\u{1}FileVersion".encode_utf16().collect();
    assert_eq!(clean_description(&raw), "Spotify");

    let padded: Vec<u16> = " Firefox \0".encode_utf16().collect();
    assert_eq!(clean_description(&padded), "Firefox");

    let unterminated: Vec<u16> = "Steam".encode_utf16().collect();
    assert_eq!(clean_description(&unterminated), "Steam");
}

#[test]
fn friendly_label_strips_extension_and_capitalizes() {
    assert_eq!(friendly_label("firefox.exe"), "Firefox");
    assert_eq!(friendly_label("vlc.exe"), "Vlc");
    assert_eq!(friendly_label("some_app-name.exe"), "Some App Name");
}

#[test]
fn indirect_strings_are_rejected() {
    assert_eq!(
        usable_display_name(r"@%SystemRoot%\System32\AudioSrv.Dll,-202"),
        None
    );
    assert_eq!(usable_display_name("   "), None);
    assert_eq!(
        usable_display_name(" Firefox "),
        Some("Firefox".to_string())
    );
}

#[test]
fn status_byte_encodes_enabled_state() {
    assert_eq!(STATUS_ENABLED & 1, 0, "0x02 must read as enabled");
    assert_eq!(STATUS_DISABLED & 1, 1, "0x03 must read as disabled");
}

#[test]
fn command_target_handles_quotes_and_arguments() {
    assert_eq!(
        command_target(r#""C:\Program Files\Volume11\Volume11.exe""#),
        r"C:\Program Files\Volume11\Volume11.exe"
    );
    assert_eq!(
        command_target("\"C:\u{7} b\\Volume11.exe\" --show"),
        "C:\u{7} b\\Volume11.exe"
    );
    assert_eq!(
        command_target(r"C:\Tools\Volume11.exe --show"),
        r"C:\Tools\Volume11.exe"
    );
}

#[test]
fn only_a_missing_target_is_repaired() {
    assert!(needs_repair(r"C:\Users\x\Downloads\Volume11.exe", false));
    assert!(!needs_repair(r"C:\Programs\Volume11\Volume11.exe", true));
    assert!(!needs_repair("  ", false));
}

#[test]
fn devices_keep_separate_levels() {
    let mut config = Config::default();
    config.set(SPEAKERS, "Speakers", "spotify.exe", 80, false, "Spotify");
    config.set(HEADSET, "Headset", "spotify.exe", 30, false, "Spotify");

    assert_eq!(config.get(SPEAKERS, "spotify.exe").unwrap().volume, 80);
    assert_eq!(config.get(HEADSET, "spotify.exe").unwrap().volume, 30);
    assert_eq!(
        config.apply_list(HEADSET),
        vec![("spotify.exe".to_string(), 30, false)]
    );
    assert!(config.apply_list("{unknown}").is_empty());
}

#[test]
fn removing_the_last_entry_drops_the_device() {
    let mut config = Config::default();
    config.set(SPEAKERS, "Speakers", "vlc.exe", 30, false, "VLC");
    config.remove(SPEAKERS, "vlc.exe");
    assert!(config.device(SPEAKERS).is_none());
}

#[test]
fn version_one_levels_move_to_the_current_device() {
    let mut config = Config::default();
    config.version = 1;
    config.apps.insert(
        "spotify.exe".to_string(),
        AppEntry {
            volume: 45,
            muted: false,
            label: "Spotify".to_string(),
        },
    );

    assert!(config.adopt_legacy(HEADSET, "Headset"));
    assert_eq!(config.get(HEADSET, "spotify.exe").unwrap().volume, 45);
    assert!(config.apps.is_empty());
    assert_eq!(config.version, CURRENT_VERSION);

    // Nothing left to move the second time.
    assert!(!config.adopt_legacy(SPEAKERS, "Speakers"));
}

#[test]
fn legacy_levels_do_not_overwrite_newer_ones() {
    let mut config = Config::default();
    config.set(HEADSET, "Headset", "spotify.exe", 70, false, "Spotify");
    config.apps.insert(
        "spotify.exe".to_string(),
        AppEntry {
            volume: 10,
            muted: true,
            label: "Spotify".to_string(),
        },
    );

    config.adopt_legacy(HEADSET, "Headset");
    assert_eq!(config.get(HEADSET, "spotify.exe").unwrap().volume, 70);
}

#[test]
fn volume_is_clamped_on_write() {
    let mut config = Config::default();
    config.set(SPEAKERS, "Speakers", "x.exe", 250, false, "X");
    assert_eq!(config.get(SPEAKERS, "x.exe").unwrap().volume, 100);
}

#[test]
fn parses_hex_with_and_without_hash() {
    assert_eq!(parse_accent("#FF8800"), Rgb { r: 255, g: 136, b: 0 });
    assert_eq!(parse_accent("ff8800"), Rgb { r: 255, g: 136, b: 0 });
}

#[test]
fn invalid_hex_falls_back_to_default() {
    let fallback = default_accent();
    assert_eq!(parse_accent(""), fallback);
    assert_eq!(parse_accent("#xyz"), fallback);
    assert_eq!(parse_accent("#12345"), fallback);
}

#[test]
fn hex_round_trips() {
    for (_, hex) in accent_choices() {
        assert_eq!(accent_to_hex(parse_accent(hex)), hex);
    }
}

#[test]
fn oled_background_is_true_black() {
    let palette = Palette::new(true, white());
    assert_eq!(palette.background, black());
    assert_ne!(Palette::new(false, white()).background, black());
}
