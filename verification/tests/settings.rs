use std::collections::BTreeMap;
use usb_probe::view::settings::{default_path, Settings, Theme};

/// What a file says, as whoever reads the file hands it on.
fn read(text: &str) -> Option<Settings> {
    let v: serde_json::Value = serde_json::from_str(text).ok()?;
    let object = v.as_object()?;
    let word = object.get("theme").and_then(|t| t.as_str()).map(String::from);
    Some(Settings { theme: Theme::stored(&word) })
}

fn parse(text: &str) -> Settings {
    Settings::load(read(text))
}

#[test]
fn a_theme_survives_the_file() {
    for t in Theme::ALL {
        let file = BTreeMap::from([("theme", t.slug())]);
        let text = serde_json::to_string(&file).unwrap();
        assert!(text.contains(t.slug()), "{text}");
        assert_eq!(parse(&text).theme, t);
    }
}

#[test]
fn nothing_a_file_can_say_stops_the_app_opening() {
    // Never written yet.
    assert_eq!(parse("{}"), Settings::default());
    // Truncated, or hand-edited into nonsense.
    assert_eq!(parse("{\"theme\""), Settings::default());
    assert_eq!(parse("not json at all"), Settings::default());
    // Present but empty.
    assert_eq!(parse("{\"theme\": null}"), Settings::default());
}

#[test]
fn a_setting_from_a_newer_version_is_not_a_broken_file() {
    let s = read(r#"{"theme": "solarized-midnight"}"#).expect("an unknown scheme must still parse");
    assert_eq!(s.theme, Theme::System);
}

#[test]
fn preferences_do_not_share_a_file_with_device_labels() {
    let ours = default_path(&Some("/tmp/usbdiag-settings-test".into()), &None).unwrap();
    assert!(ours.ends_with("usbdiag/gui.json"), "{ours}");
    assert_ne!(ours, "/tmp/usbdiag-settings-test/usbdiag/devices.json");
}

#[test]
fn the_home_directory_stands_in_for_the_config_one() {
    let home = Some("/home/me".to_string());
    assert_eq!(
        default_path(&None, &home).as_deref(),
        Some("/home/me/.config/usbdiag/gui.json")
    );
    // A relative directory is no place to keep anything.
    assert_eq!(
        default_path(&Some("config".into()), &home).as_deref(),
        Some("/home/me/.config/usbdiag/gui.json")
    );
    assert_eq!(
        default_path(&Some("/etc/xdg/".into()), &home).as_deref(),
        Some("/etc/xdg/usbdiag/gui.json")
    );
    assert_eq!(default_path(&None, &None), None);
}

#[test]
fn themes_are_offered_in_order() {
    for (i, t) in Theme::ALL.iter().enumerate() {
        assert_eq!(t.place(), i);
        assert_eq!(Theme::from_slug(t.slug()), Some(*t));
    }
    assert_eq!(Theme::System.label(), "Follow the system");
    assert_eq!(Theme::from_slug("Dark"), None);
}

#[test]
fn choosing_the_theme_in_force_changes_nothing() {
    let mut s = Settings::default();
    assert!(!s.choose_theme(Theme::System));
    assert!(s.choose_theme(Theme::Dark));
    assert_eq!(s.theme, Theme::Dark);
}
