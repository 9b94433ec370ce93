use pixelcoords_core::emit::{click_targets, render, EmitError, EmitFormat};
use pixelcoords_core::geometry::{Point, Rect, Shape, Size};
use pixelcoords_core::selection::Selection;
use pixelcoords_core::session::{MonitorRecord, SessionFile};
use pixelcoords_core::space::{Platform, Resolved};

fn monitor(index: usize, ox: i32, oy: i32, scale: f64) -> MonitorRecord {
    MonitorRecord {
        index,
        name: format!("Display {index}"),
        primary: index == 0,
        origin_px: Point::new(ox, oy),
        size_px: Size::new(1920, 1080),
        scale_bits: scale.to_bits(),
    }
}

fn labeled(shape: Shape, monitor: usize, label: &str) -> Selection {
    let mut sel = Selection::new(shape, monitor);
    sel.label = label.into();
    sel
}

/// Physical pixels to logical points at `scale`, rounding.
fn logical_of(physical: Point, scale: f64) -> Point {
    Point::new(
        (f64::from(physical.x) / scale).round() as i32,
        (f64::from(physical.y) / scale).round() as i32,
    )
}

/// The snippet for `format`: the library's targets, converted through
/// each one's monitor scale where the tool speaks logical points.
fn emit(
    session: &SessionFile,
    format: EmitFormat,
    platform: Platform,
    label: Option<&str>,
) -> Result<String, EmitError> {
    let units = format.units(platform);
    let mut targets = click_targets(session, units, label)?;
    if units == Resolved::Logical {
        for t in &mut targets {
            let at = t.monitor_at.expect("logical targets name their monitor");
            let scale = f64::from_bits(session.monitors[at].scale_bits);
            t.point = logical_of(t.point, scale);
        }
    }
    Ok(render(format, platform, &session.created_utc, &targets))
}

fn session(monitors: Vec<MonitorRecord>, selections: &[Selection]) -> SessionFile {
    let crops: Vec<String> = (0..selections.len()).map(|i| format!("c{i}.png")).collect();
    SessionFile::build(
        "test",
        "2026-07-27T11:35:42Z".into(),
        monitors,
        selections,
        &crops,
        None,
    )
}

/// One selection per monitor on a mixed-DPI desktop: monitor 0 at
/// scale 1 and monitor 1 at scale 2, offset to global x=1920. The
/// click points are physical (850, 440) and (2040, 230); in logical
/// units the second halves to (1020, 115) and the first does not
/// move. Every format below is checked against the same two.
fn mixed_dpi() -> SessionFile {
    session(
        vec![monitor(0, 0, 0, 1.0), monitor(1, 1920, 0, 2.0)],
        &[
            labeled(Shape::Rect(Rect::new(800, 400, 100, 80)), 0, "left"),
            labeled(Shape::Rect(Rect::new(100, 200, 40, 60)), 1, "right"),
        ],
    )
}

#[test]
fn powershell_emits_physical_pixels_and_one_preamble() {
    let out = emit(
        &mixed_dpi(),
        EmitFormat::Powershell,
        Platform::Windows,
        None,
    )
    .unwrap();
    assert_eq!(
        out,
        "# generated by pixelcoords from a session captured 2026-07-27T11:35:42Z\n\
         # coordinates: physical pixels (Windows) — run on the machine and \
         monitor layout that was captured\n\
         \n\
         Add-Type @\"\n\
         using System;\n\
         using System.Runtime.InteropServices;\n\
         public class PixelCoords {\n\
         \x20 [DllImport(\"user32.dll\")] public static extern bool SetCursorPos(int x, int y);\n\
         \x20 [DllImport(\"user32.dll\")] public static extern void mouse_event(uint f, uint x, uint y, uint d, int i);\n\
         }\n\
         \"@\n\
         \n\
         # left — rect on monitor 0\n\
         [PixelCoords]::SetCursorPos(850, 440)\n\
         [PixelCoords]::mouse_event(0x0002, 0, 0, 0, 0)\n\
         [PixelCoords]::mouse_event(0x0004, 0, 0, 0, 0)\n\
         \n\
         # right — rect on monitor 1\n\
         [PixelCoords]::SetCursorPos(2040, 230)\n\
         [PixelCoords]::mouse_event(0x0002, 0, 0, 0, 0)\n\
         [PixelCoords]::mouse_event(0x0004, 0, 0, 0, 0)\n"
    );
    assert_eq!(
        out.matches("Add-Type").count(),
        1,
        "pasting Add-Type twice for one type is an error, not a no-op"
    );
}

#[test]
fn applescript_emits_logical_points_per_monitor_scale() {
    let out = emit(&mixed_dpi(), EmitFormat::Applescript, Platform::MacOs, None).unwrap();
    assert_eq!(
        out,
        "-- generated by pixelcoords from a session captured 2026-07-27T11:35:42Z\n\
         -- coordinates: logical points (macOS) — run on the machine and \
         monitor layout that was captured\n\
         -- System Events clicking needs Accessibility permission:\n\
         -- System Settings > Privacy & Security > Accessibility\n\
         \n\
         tell application \"System Events\"\n\
         \t-- left — rect on monitor 0\n\
         \tclick at {850, 440}\n\
         \t-- right — rect on monitor 1\n\
         \tclick at {1020, 115}\n\
         end tell\n"
    );
}

#[test]
fn ydotool_emits_physical_pixels_with_the_daemon_caveat() {
    let out = emit(&mixed_dpi(), EmitFormat::Ydotool, Platform::Linux, None).unwrap();
    assert_eq!(
        out,
        "# generated by pixelcoords from a session captured 2026-07-27T11:35:42Z\n\
         # coordinates: physical pixels (Wayland) — run on the machine and \
         monitor layout that was captured\n\
         # needs the ydotoold daemon running and permission on its socket —\n\
         # this is setup on your side, not something the snippet can do\n\
         ydotool mousemove --absolute -x 850 -y 440 && ydotool click 0xC0  \
         # left — rect on monitor 0\n\
         ydotool mousemove --absolute -x 2040 -y 230 && ydotool click 0xC0  \
         # right — rect on monitor 1\n"
    );
}

#[test]
fn each_format_applies_its_own_convention_to_the_same_session() {
    // The point of the table: one session, two monitors at different
    // scales, and each target gets the units *it* speaks — with the
    // second selection converted through monitor 1's scale, never a
    // desktop-wide one.
    let file = mixed_dpi();
    let physical = [
        EmitFormat::Xdotool,
        EmitFormat::Powershell,
        EmitFormat::Ydotool,
    ];
    for format in physical {
        let out = emit(&file, format, Platform::Linux, None).unwrap();
        assert!(out.contains("2040"), "{format:?} should be physical");
        assert!(!out.contains("1020"), "{format:?} must not halve");
    }
    for format in [EmitFormat::Cliclick, EmitFormat::Applescript] {
        let out = emit(&file, format, Platform::MacOs, None).unwrap();
        assert!(out.contains("1020"), "{format:?} should be logical");
        assert!(
            out.contains("850"),
            "{format:?}: the scale-1 monitor must not move"
        );
    }
}

#[test]
fn a_label_filter_reaches_the_new_formats_too() {
    let file = mixed_dpi();
    for format in [
        EmitFormat::Powershell,
        EmitFormat::Applescript,
        EmitFormat::Ydotool,
    ] {
        let out = emit(&file, format, Platform::MacOs, Some("right")).unwrap();
        assert!(out.contains("right"), "{format:?}");
        assert!(!out.contains("# left"), "{format:?} emitted the wrong one");

        let err = emit(&file, format, Platform::MacOs, Some("nope")).unwrap_err();
        assert!(matches!(err, EmitError::UnknownLabel { .. }), "{format:?}");
    }
}

#[test]
fn pyautogui_on_macos_emits_logical_points() {
    // Rect center at physical (100, 60) on a 2x monitor -> (50, 30).
    let file = session(
        vec![monitor(0, 0, 0, 2.0)],
        &[labeled(Shape::Rect(Rect::new(80, 40, 40, 40)), 0, "submit")],
    );
    let out = emit(&file, EmitFormat::Pyautogui, Platform::MacOs, None).unwrap();
    assert_eq!(
        out,
        "# generated by pixelcoords from a session captured 2026-07-27T11:35:42Z\n\
         # coordinates: logical points (macOS) — run on the machine and \
         monitor layout that was captured\n\
         import pyautogui\n\
         \n\
         # submit — rect on monitor 0\n\
         pyautogui.click(50, 30)\n"
    );
}

#[test]
fn pyautogui_elsewhere_emits_physical_pixels() {
    let file = session(
        vec![monitor(0, 0, 0, 2.0)],
        &[labeled(Shape::Rect(Rect::new(80, 40, 40, 40)), 0, "submit")],
    );
    for (platform, note) in [
        (Platform::Windows, "physical pixels (Windows)"),
        (Platform::Linux, "physical pixels (X11)"),
    ] {
        let out = emit(&file, EmitFormat::Pyautogui, platform, None).unwrap();
        assert!(out.contains("pyautogui.click(100, 60)"), "got: {out}");
        assert!(out.contains(note), "got: {out}");
    }
}

#[test]
fn cliclick_escapes_negative_logical_coordinates() {
    // A monitor left of the primary: global physical (-1800, 40) at
    // scale 2 -> logical (-900, 20), with cliclick's `=` escape.
    let file = session(
        vec![monitor(0, -3840, 0, 2.0)],
        &[labeled(Shape::Rect(Rect::new(2020, 20, 40, 40)), 0, "back")],
    );
    let out = emit(&file, EmitFormat::Cliclick, Platform::MacOs, None).unwrap();
    assert!(
        out.contains("cliclick c:=-900,20  # back — rect on monitor 0"),
        "got: {out}"
    );
}

#[test]
fn xdotool_emits_physical_pixels_untouched() {
    let file = session(
        vec![monitor(0, 0, 0, 2.0)],
        &[labeled(
            Shape::Circle {
                cx: 500,
                cy: 300,
                r: 25,
            },
            0,
            "dot",
        )],
    );
    let out = emit(&file, EmitFormat::Xdotool, Platform::Linux, None).unwrap();
    assert!(
        out.contains("xdotool mousemove 500 300 click 1  # dot — circle on monitor 0"),
        "got: {out}"
    );
}

#[test]
fn mixed_dpi_scales_each_selection_by_its_own_monitor() {
    let file = session(
        vec![monitor(0, 0, 0, 1.0), monitor(1, 1920, 0, 2.0)],
        &[
            labeled(Shape::Rect(Rect::new(100, 100, 20, 20)), 0, "left"),
            labeled(Shape::Rect(Rect::new(100, 100, 20, 20)), 1, "right"),
        ],
    );
    let out = emit(&file, EmitFormat::Pyautogui, Platform::MacOs, None).unwrap();
    // Monitor 0 at scale 1: physical (110, 110) stays put. Monitor 1 at
    // scale 2: global physical (2030, 110) -> logical (1015, 55).
    assert!(out.contains("pyautogui.click(110, 110)"), "got: {out}");
    assert!(out.contains("pyautogui.click(1015, 55)"), "got: {out}");
}

#[test]
fn triangles_click_their_centroid_and_unlabeled_selections_get_names() {
    let file = session(
        vec![monitor(0, 0, 0, 1.0)],
        &[labeled(
            Shape::Triangle {
                ax: 30,
                ay: 0,
                bx: 0,
                by: 60,
                cx: 60,
                cy: 60,
            },
            0,
            "",
        )],
    );
    let out = emit(&file, EmitFormat::Xdotool, Platform::Linux, None).unwrap();
    assert!(
        out.contains("xdotool mousemove 30 40 click 1  # selection 0 — triangle on monitor 0"),
        "got: {out}"
    );
}

#[test]
fn a_rotated_rect_clicks_its_pivot() {
    let mut sel = Selection::new(Shape::Rect(Rect::new(10, 10, 40, 10)), 0);
    sel.rot_deg = 90;
    let file = session(vec![monitor(0, 0, 0, 1.0)], &[sel]);
    let out = emit(&file, EmitFormat::Xdotool, Platform::Linux, None).unwrap();
    // The pivot (30, 15) is rotation-invariant, so the click lands
    // inside the silhouette at any angle.
    assert!(
        out.contains("xdotool mousemove 30 15 click 1"),
        "got: {out}"
    );
}

#[test]
fn a_label_filter_emits_only_matching_selections() {
    let file = session(
        vec![monitor(0, 0, 0, 1.0)],
        &[
            labeled(Shape::Rect(Rect::new(0, 0, 10, 10)), 0, "Cancel"),
            labeled(Shape::Rect(Rect::new(100, 100, 10, 10)), 0, "Submit"),
        ],
    );
    let out = emit(&file, EmitFormat::Xdotool, Platform::Linux, Some("submit")).unwrap();
    assert!(out.contains("xdotool mousemove 105 105"), "got: {out}");
    assert!(!out.contains("mousemove 5 5"), "got: {out}");
    // The comment keeps the selection's original session index.
    assert!(out.contains("Submit — rect on monitor 0"), "got: {out}");

    let err = emit(&file, EmitFormat::Xdotool, Platform::Linux, Some("send")).unwrap_err();
    assert_eq!(
        err,
        EmitError::UnknownLabel {
            requested: "send".into(),
            available: vec!["Cancel".into(), "Submit".into()],
        }
    );
}

#[test]
fn an_empty_session_is_an_error() {
    let file = session(vec![monitor(0, 0, 0, 1.0)], &[]);
    let err = emit(&file, EmitFormat::Xdotool, Platform::Linux, None).unwrap_err();
    assert_eq!(err, EmitError::NoSelections);
}

#[test]
fn a_selection_on_an_undescribed_monitor_is_an_error_for_logical_units() {
    let file = session(
        vec![monitor(0, 0, 0, 2.0)],
        &[labeled(Shape::Rect(Rect::new(0, 0, 10, 10)), 3, "orphan")],
    );
    let err = emit(&file, EmitFormat::Cliclick, Platform::MacOs, None).unwrap_err();
    assert_eq!(
        err,
        EmitError::UnknownMonitor {
            selection: 0,
            monitor: 3,
        }
    );
    // Physical units never look the monitor up, so the same session
    // still emits for xdotool.
    assert!(emit(&file, EmitFormat::Xdotool, Platform::Linux, None).is_ok());
}
