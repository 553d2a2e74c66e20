use generic_launcher::clock::ClockPaddingMap;
use generic_launcher::user_config::{KeyboardMode, UserConfig};

fn defaults() -> UserConfig {
    UserConfig {
        screenshots_destination_directory: "/home/ann/Pictures/Screenshots".to_string(),
        keyboard_mode: KeyboardMode::default(),
    }
}

#[test]
fn keyboard_mode_names() {
    assert_eq!(KeyboardMode::parse("exclusive"), KeyboardMode::Exclusive);
    assert_eq!(KeyboardMode::parse("on_demand"), KeyboardMode::OnDemand);
    assert_eq!(KeyboardMode::parse("ON_DEMAND"), KeyboardMode::OnDemand);
    assert_eq!(KeyboardMode::parse("Exclusive"), KeyboardMode::Exclusive);
    assert_eq!(KeyboardMode::try_parse("On_Demand"), Some(KeyboardMode::OnDemand));
    assert_eq!(KeyboardMode::try_parse("on-demand"), None);
    assert_eq!(KeyboardMode::try_parse(""), None);
    assert_eq!(KeyboardMode::default(), KeyboardMode::Exclusive);
}

#[test]
fn unreadable_or_invalid_config_gives_defaults() {
    let c = UserConfig::load(None, defaults());
    assert_eq!(c.screenshots_destination_directory, "/home/ann/Pictures/Screenshots");
    assert_eq!(c.keyboard_mode, KeyboardMode::Exclusive);
    let c = UserConfig::load(Some("this is = = not toml"), defaults());
    assert_eq!(c.screenshots_destination_directory, "/home/ann/Pictures/Screenshots");
    let c = UserConfig::try_load(None, defaults()).unwrap();
    assert_eq!(c.keyboard_mode, KeyboardMode::Exclusive);
}

#[test]
fn config_values_are_read() {
    let text = "screenshots_destination_directory = \"/tmp/shots\"\nkeyboard_mode = \"On_Demand\"\n";
    let c = UserConfig::load(Some(text), defaults());
    assert_eq!(c.screenshots_destination_directory, "/tmp/shots");
    assert_eq!(c.keyboard_mode, KeyboardMode::OnDemand);
    let c = UserConfig::try_load(Some(text), defaults()).unwrap();
    assert_eq!(c.screenshots_destination_directory, "/tmp/shots");
    assert_eq!(c.keyboard_mode, KeyboardMode::OnDemand);
}

#[test]
fn non_string_values_keep_defaults() {
    let text = "screenshots_destination_directory = 5\nkeyboard_mode = true\n";
    let c = UserConfig::load(Some(text), defaults());
    assert_eq!(c.screenshots_destination_directory, "/home/ann/Pictures/Screenshots");
    assert_eq!(c.keyboard_mode, KeyboardMode::Exclusive);
}

#[test]
fn missing_key_or_unknown_mode_is_refused() {
    assert!(UserConfig::try_load(Some("keyboard_mode = \"exclusive\"\n"), defaults()).is_none());
    assert!(
        UserConfig::try_load(Some("screenshots_destination_directory = \"/tmp\"\n"), defaults())
            .is_none()
    );
    let text = "screenshots_destination_directory = \"/tmp\"\nkeyboard_mode = \"sometimes\"\n";
    assert!(UserConfig::try_load(Some(text), defaults()).is_none());
}

#[test]
fn config_from_table() {
    let table: toml::Table =
        "screenshots_destination_directory = \"/x\"\nkeyboard_mode = \"exclusive\"\n"
            .parse()
            .unwrap();
    let c = UserConfig::from_table(&table, defaults()).unwrap();
    assert_eq!(c.screenshots_destination_directory, "/x");
    assert_eq!(c.keyboard_mode, KeyboardMode::Exclusive);
    let missing: toml::Table = "keyboard_mode = \"exclusive\"\n".parse().unwrap();
    assert!(UserConfig::from_table(&missing, defaults()).is_none());
}

#[test]
fn clock_padding_is_remembered_per_monitor() {
    let mut m = ClockPaddingMap::new();
    assert_eq!(m.check_padding_map((1920, 1080), 12, 30), Some(30));
    assert_eq!(m.check_padding_map((1920, 1080), 12, 99), None);
    assert_eq!(m.check_padding_map((1280, 720), 12, 20), Some(20));
    assert_eq!(m.check_padding_map((1280, 720), 12, 21), None);
    assert_eq!(m.entries.len(), 2);
}

#[test]
fn clock_font_change_drops_every_padding() {
    let mut m = ClockPaddingMap::new();
    assert_eq!(m.check_padding_map((1920, 1080), 12, 30), Some(30));
    assert_eq!(m.check_padding_map((1280, 720), 12, 20), Some(20));
    assert_eq!(m.check_padding_map((1920, 1080), 14, 35), Some(35));
    assert_eq!(m.entries, vec![((1920, 1080), (35, 14))]);
    assert_eq!(m.check_padding_map((1920, 1080), 14, 1), None);
    assert_eq!(m.check_padding_map((1280, 720), 14, 22), Some(22));
}
