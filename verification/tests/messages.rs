use pixelcoords_core::config::{Config, ConfigError};
use pixelcoords_core::diff::DiffError;
use pixelcoords_core::emit::EmitError;
use pixelcoords_core::hotkeys::{Binding, HotkeyError};
use pixelcoords_core::locate::LocateError;
use pixelcoords_core::resolve::ResolveError;
use pixelcoords_core::verdict::VerdictError;

#[test]
fn out_of_range_overlay_values_are_errors_naming_the_field() {
    let cases: [(fn(&mut Config), &str); 7] = [
        (|c| c.overlay.polygon_sides = 2, "polygon_sides"),
        (|c| c.overlay.polygon_sides = 100_000, "polygon_sides"),
        (|c| c.overlay.grab_tolerance = 0, "grab_tolerance"),
        (|c| c.overlay.loupe_radius = 0, "loupe_radius"),
        (|c| c.overlay.flash_ms = 0, "flash_ms"),
        (|c| c.overlay.flash_brief_ms = 999_999, "flash_brief_ms"),
        (|c| c.overlay.caret_blink_ms = 999_999, "caret_blink_ms"),
    ];
    for (set, field) in cases {
        let mut c = Config::default();
        set(&mut c);
        let Err(err) = c.resolve_overlay() else {
            panic!("{field} was accepted");
        };
        let rendered = err.to_string();
        assert!(rendered.contains(field), "{rendered:?} omits {field}");
    }
}

#[test]
fn a_zero_caret_blink_means_do_not_blink() {
    let mut c = Config::default();
    c.overlay.caret_blink_ms = 0;
    assert_eq!(c.resolve_overlay().unwrap().caret_blink, None);
}

#[test]
fn a_polygon_default_past_the_digit_keys_is_allowed() {
    let mut c = Config::default();
    c.overlay.polygon_sides = 24;
    assert_eq!(c.resolve_overlay().unwrap().polygon_sides, 24);
}

#[test]
fn a_label_length_past_what_a_filename_holds_is_refused() {
    let max = pixelcoords_core::config::MAX_LABEL_LEN;
    for len in [0, max + 1] {
        let mut c = Config::default();
        c.limits.label_length = len;
        assert_eq!(c.resolve_limits(), Err(ConfigError::LabelLength(len)));
    }
    let mut c = Config::default();
    c.limits.label_length = max;
    assert!(c.resolve_limits().is_ok());
}

#[test]
fn config_errors_read_as_documented() {
    assert_eq!(ConfigError::Thickness(513).to_string(), "thickness 513 is out of range (0-512)");
    assert_eq!(
        ConfigError::SnapRadius(0).to_string(),
        "[snap] radius 0 is out of range (1-64 logical pixels)"
    );
    assert_eq!(
        ConfigError::Color("#12".into()).to_string(),
        "invalid color '#12': expected hex RGB, 3 or 6 digits, optional '#'"
    );
    assert_eq!(
        ConfigError::Overlay { field: "flash_ms", value: 0, low: 1, high: 60_000 }.to_string(),
        "[overlay] flash_ms 0 is out of range (1-60000)"
    );
    assert!(ConfigError::LabelLength(0).to_string().starts_with("[limits] label_length 0 is out of range (1-"));
    assert_eq!(
        ConfigError::Hotkey(HotkeyError::UnknownAction("fly".into())).to_string(),
        "unknown action 'fly'"
    );
    assert!(ConfigError::Monitors("the list is empty".into())
        .to_string()
        .starts_with("[capture] monitors: the list is empty — expected \"all\""));
}

#[test]
fn hotkey_errors_name_what_was_wrong() {
    assert_eq!(
        Binding::parse("qq=quit").unwrap_err().to_string(),
        "unknown key 'qq' (single character, 'tab', or 'capslock')"
    );
    assert_eq!(
        HotkeyError::Malformed("q=".into()).to_string(),
        "binding 'q=' is not KEY=ACTION[,EDGE][,WHEN]"
    );
    assert_eq!(
        HotkeyError::UnknownEdge("hold".into()).to_string(),
        "unknown edge 'hold' (press, release, or repeat)"
    );
    assert_eq!(
        HotkeyError::UnknownWhen("x".into()).to_string(),
        "unknown condition 'x' (has_selection or cursor_in)"
    );
}

#[test]
fn diff_and_locate_errors_read_as_documented() {
    assert_eq!(DiffError::OutOfFrame { x: -3, y: 40 }.to_string(), "the crop sits outside the frame at (-3, 40)");
    assert_eq!(DiffError::EmptyCrop.to_string(), "the crop has no visible pixels to compare");
    assert_eq!(
        LocateError::FlatTemplate.to_string(),
        "the crop is a flat color, which matches anywhere rather than somewhere"
    );
    assert_eq!(
        LocateError::TemplateLargerThanScreen.to_string(),
        "the crop is larger than the capture it is searched in"
    );
}

#[test]
fn label_errors_list_what_the_session_does_carry() {
    let err = ResolveError::UnknownLabel {
        requested: "sumbit".into(),
        available: vec!["submit".into(), "cancel".into()],
    };
    assert_eq!(
        err.to_string(),
        "no selection is labeled \"sumbit\"; labels in this session: [\"submit\", \"cancel\"]"
    );
    let err = EmitError::UnknownLabel { requested: "x".into(), available: vec![] };
    assert_eq!(err.to_string(), "no selection is labeled \"x\"; labels in this session: []");
    let err = VerdictError::UnknownMonitor { requested: 4, available: vec![0, 1, 12] };
    assert_eq!(err.to_string(), "monitor 4 is not in this session; it has monitors [0, 1, 12]");
    assert_eq!(
        VerdictError::NoCandidates("monitor").to_string(),
        "the session has no selections in monitor space to test against"
    );
    assert_eq!(
        ResolveError::UnknownMonitor { selection: 2, monitor: 7 }.to_string(),
        "selection 2 references monitor 7, which the session does not describe"
    );
    assert_eq!(
        ResolveError::OffTargetMonitor { selection: 1, label: "ok".into() }.to_string(),
        "selection 1 (\"ok\") has no window-relative coordinates: it was marked on a different monitor than the target window — ask in global or monitor space instead"
    );
    assert_eq!(EmitError::NoSelections.to_string(), "the session has no selections to emit");
}
