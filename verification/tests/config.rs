use std::time::Duration;

use pixelcoords_core::config::{
    parse_hex_color, CaptureConfig, Config, ConfigError, HotkeyEntry, MonitorsSetting,
};
use pixelcoords_core::draw::Color;
use pixelcoords_core::hotkeys::{match_event, Action, Edge, KeyName, OverlayState};

#[test]
fn hex_six_digit_with_hash() {
    assert_eq!(parse_hex_color("#FF8000").unwrap(), Color { r: 255, g: 128, b: 0 });
}

#[test]
fn hex_without_hash_and_lowercase() {
    assert_eq!(parse_hex_color("00a0ff").unwrap(), Color { r: 0, g: 160, b: 255 });
}

#[test]
fn hex_three_digit_expands() {
    assert_eq!(parse_hex_color("#F80").unwrap(), Color { r: 255, g: 136, b: 0 });
}

#[test]
fn hex_rejects_bad_input() {
    for bad in ["", "#", "12345", "1234567", "GGGGGG", "#12 456"] {
        assert!(parse_hex_color(bad).is_err(), "{bad:?} should be rejected");
    }
}

/// The monitors a config with this `[capture]` table resolves to; `None`
/// is a config with no `monitors` key (or no table at all).
fn capture(monitors: Option<MonitorsSetting>) -> Result<Vec<String>, ConfigError> {
    let cfg = Config { capture: CaptureConfig { monitors }, ..Config::default() };
    cfg.resolve_monitors()
}

fn one(s: &str) -> Option<MonitorsSetting> {
    Some(MonitorsSetting::One(s.to_string()))
}

fn many(v: &[&str]) -> Option<MonitorsSetting> {
    Some(MonitorsSetting::Many(v.iter().map(|s| s.to_string()).collect()))
}

#[test]
fn no_capture_table_means_every_monitor() {
    assert!(Config::default().resolve_monitors().unwrap().is_empty());
    assert!(capture(None).unwrap().is_empty());
}

#[test]
fn all_is_the_launch_default_said_out_loud() {
    assert!(capture(one("all")).unwrap().is_empty());
    assert!(capture(one("ALL")).unwrap().is_empty());
}

#[test]
fn a_single_query_and_a_list_both_parse() {
    assert_eq!(capture(one("primary")).unwrap(), vec!["primary".to_string()]);
    assert_eq!(
        capture(many(&["DELL", "Built-in"])).unwrap(),
        vec!["DELL".to_string(), "Built-in".to_string()]
    );
}

#[test]
fn empty_and_contradictory_values_are_errors_not_silent_defaults() {
    assert!(capture(one("")).is_err());
    assert!(capture(one("   ")).is_err());
    assert!(capture(many(&[])).is_err());
    assert!(capture(many(&["DELL", ""])).is_err());
    assert!(capture(many(&["all", "DELL"])).is_err());
}

#[test]
fn default_config_resolves() {
    let cfg = Config::default();
    let style = cfg.resolve_style().unwrap();
    assert_eq!(style.thickness, 2);
    assert!(!style.fill);
    assert_eq!(style.label, Color { r: 255, g: 255, b: 255 });
}

#[test]
fn thickness_out_of_range_errors() {
    let mut cfg = Config::default();
    cfg.style.thickness = 513;
    assert_eq!(cfg.resolve_style().unwrap_err(), ConfigError::Thickness(513));
}

#[test]
fn rebinding_a_key_removes_all_its_default_edges() {
    let cfg = Config::default();
    let bindings = cfg.resolve_bindings(&["q=next_tool".to_string()]).unwrap();
    let state = OverlayState { cursor_in_shape: true, ..OverlayState::default() };
    assert_eq!(
        match_event(&bindings, KeyName::Character('Q'), Edge::Press, state),
        Some(Action::NextTool)
    );
    assert_eq!(
        match_event(&bindings, KeyName::Character('Q'), Edge::Repeat, state),
        None,
        "repeat-edge default must be gone"
    );
    assert_eq!(
        match_event(&bindings, KeyName::Character('E'), Edge::Repeat, state),
        Some(Action::RotateCw)
    );
}

#[test]
fn cli_bind_shadows_defaults() {
    let cfg = Config::default();
    let bindings = cfg.resolve_bindings(&["q=undo".to_string()]).unwrap();
    assert_eq!(
        match_event(&bindings, KeyName::Character('Q'), Edge::Press, OverlayState::default()),
        Some(Action::Undo)
    );
}

#[test]
fn bad_hotkey_entry_is_an_error() {
    let mut cfg = Config::default();
    cfg.hotkeys.push(HotkeyEntry {
        key: "z".into(),
        action: "teleport".into(),
        edge: None,
        when: None,
    });
    assert!(matches!(cfg.resolve_bindings(&[]), Err(ConfigError::Hotkey(_))));
}

#[test]
fn the_new_tables_default_to_todays_behavior() {
    let c = Config::default();
    assert_eq!(c.resolve_limits().unwrap().label_length, 64);
    let o = c.resolve_overlay().unwrap();
    assert_eq!(o.polygon_sides, 6);
    assert_eq!(o.grab_tolerance, 6);
    assert_eq!(o.loupe_radius, 15);
    assert_eq!(o.flash, Duration::from_millis(2500));
    assert_eq!(o.flash_brief, Duration::from_millis(1200));
    assert_eq!(o.caret_blink, Some(Duration::from_millis(500)));
}

#[test]
fn snap_defaults_are_on_with_a_small_radius() {
    let settings = Config::default().resolve_snap().unwrap();
    assert!(settings.enabled, "snapping is on unless turned off");
    assert_eq!(settings.radius, 8);
}

#[test]
fn a_snap_radius_outside_the_range_is_an_error_not_a_default() {
    for radius in [0, 65, 10_000] {
        let mut config = Config::default();
        config.snap.radius = radius;
        assert_eq!(config.resolve_snap(), Err(ConfigError::SnapRadius(radius)), "radius {radius}");
    }
}
