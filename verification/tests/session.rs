use pixelcoords_core::geometry::{Line, Point, Rect, Shape, Size, ToolKind, MAX_COORD};
use pixelcoords_core::selection::{Measure, Selection};
use pixelcoords_core::session::{
    distinct_labels, match_monitor, restore_measures, restore_selections, select_by_label,
    MonitorMatch, MonitorRecord, SelectionRecord, SessionError, SessionFile, TargetRecord,
};

fn monitor(index: usize, ox: i32, oy: i32) -> MonitorRecord {
    MonitorRecord {
        index,
        name: format!("Display {index}"),
        primary: index == 0,
        origin_px: Point::new(ox, oy),
        size_px: Size::new(1920, 1080),
        scale_bits: 2.0f64.to_bits(),
    }
}

fn panel(index: usize, name: &str, w: i32, h: i32, scale: f64) -> MonitorRecord {
    MonitorRecord {
        index,
        name: name.into(),
        primary: index == 0,
        origin_px: Point::new(0, 0),
        size_px: Size::new(w, h),
        scale_bits: scale.to_bits(),
    }
}

/// `match_monitor` with the scale comparison the caller makes in floats.
fn matched(saved: &MonitorRecord, live: &[MonitorRecord]) -> MonitorMatch {
    let same: Vec<bool> = live
        .iter()
        .map(|c| {
            (f64::from_bits(c.scale_bits) - f64::from_bits(saved.scale_bits)).abs() < f64::EPSILON
        })
        .collect();
    match_monitor(saved, live, &same)
}

fn empty_session() -> SessionFile {
    SessionFile::build("test", "t".into(), vec![monitor(0, 0, 0)], &[], &[], None)
}

#[test]
fn restoring_measures_recovers_every_ruler_and_recomputes_nothing_wrong() {
    let base = || SessionFile::build("test", "t".into(), vec![monitor(0, 100, 0)], &[], &[], None);
    let file = base().with_measures(&[
        Measure::new(Line::new(Point::new(10, 20), Point::new(40, 60)), 0),
        Measure {
            line: Line::new(Point::new(1, 2), Point::new(3, 4)),
            label: "gutter".into(),
            monitor: 0,
        },
    ]);
    let restored = restore_measures(&file);
    assert_eq!(restored.len(), 2);
    assert_eq!(
        restored[0].line,
        Line::new(Point::new(10, 20), Point::new(40, 60)),
        "monitor-local endpoints, not the global ones"
    );
    assert_eq!(restored[1].label, "gutter");
    assert_eq!(base().with_measures(&restored).measures, file.measures);
}

#[test]
fn an_empty_target_window_is_refused() {
    let mut file = empty_session();
    file.target = Some(TargetRecord {
        app: "App".into(),
        title: "T".into(),
        monitor: 0,
        origin_px: Point::new(0, 0),
        size_px: Size::new(0, 400),
    });
    assert!(matches!(file.validate(), Err(SessionError::TargetSize { w: 0, h: 400 })));
}

#[test]
fn a_target_window_past_the_bound_is_refused() {
    let mut file = empty_session();
    file.target = Some(TargetRecord {
        app: "App".into(),
        title: "T".into(),
        monitor: 0,
        origin_px: Point::new(MAX_COORD + 1, 0),
        size_px: Size::new(400, 400),
    });
    assert!(matches!(file.validate(), Err(SessionError::Coordinate { .. })));
}

#[test]
fn a_valid_session_passes_validation() {
    assert_eq!(empty_session().validate(), Ok(()));
}

#[test]
fn a_scale_that_cannot_divide_is_refused() {
    for bad in [0.0, -2.0, f64::INFINITY, f64::NEG_INFINITY, f64::NAN] {
        let mut file = empty_session();
        file.monitors[0].scale_bits = f64::to_bits(bad);
        let Err(SessionError::Scale { scale_bits, index, .. }) = file.validate() else {
            panic!("scale {bad} was accepted");
        };
        assert_eq!(index, 0);
        assert_eq!(scale_bits, f64::to_bits(bad));
    }
}

#[test]
fn a_positive_scale_below_one_is_fine() {
    let mut file = empty_session();
    file.monitors[0].scale_bits = 0.75f64.to_bits();
    assert_eq!(file.validate(), Ok(()));
}

#[test]
fn an_empty_display_is_refused() {
    for (w, h) in [(0, 1080), (1920, 0), (-1920, 1080)] {
        let mut file = empty_session();
        file.monitors[0].size_px = Size::new(w, h);
        assert!(
            matches!(file.validate(), Err(SessionError::MonitorSize { .. })),
            "{w}x{h} was accepted"
        );
    }
}

#[test]
fn a_coordinate_past_the_bound_is_refused_wherever_it_hides() {
    let far = MAX_COORD + 1;

    let mut in_monitor = empty_session();
    in_monitor.monitors[0].origin_px = Point::new(far, 0);
    assert!(matches!(in_monitor.validate(), Err(SessionError::Coordinate { .. })));

    let mut in_selection = empty_session();
    in_selection.selections.push(SelectionRecord {
        shape: ToolKind::Rect,
        label: String::new(),
        monitor: 0,
        px: Shape::Rect(Rect::new(far, 0, 10, 10)),
        global_px: Shape::Rect(Rect::new(0, 0, 10, 10)),
        rot_deg: None,
        window_px: None,
        crop: "c.png".into(),
        color: None,
    });
    assert!(matches!(in_selection.validate(), Err(SessionError::Coordinate { .. })));

    let mut in_measure =
        empty_session().with_measures(&[Measure::new(Line::new(Point::new(far, 0), Point::new(0, 0)), 0)]);
    in_measure.monitors = vec![monitor(0, 0, 0)];
    assert!(matches!(in_measure.validate(), Err(SessionError::Coordinate { .. })));
}

#[test]
fn the_bound_itself_is_allowed() {
    let mut file = empty_session();
    file.monitors[0].origin_px = Point::new(MAX_COORD, -MAX_COORD);
    assert_eq!(file.validate(), Ok(()));
}

#[test]
fn restoring_a_session_without_measures_yields_none() {
    assert!(restore_measures(&empty_session()).is_empty());
}

#[test]
fn a_replug_that_reorders_enumeration_still_finds_the_panel() {
    let saved = panel(1, "DELL U2723QE", 3840, 2160, 1.0);
    let live = [
        panel(0, "DELL U2723QE", 3840, 2160, 1.0),
        panel(1, "Built-in Retina Display", 3600, 2338, 2.0),
    ];
    assert_eq!(matched(&saved, &live), MonitorMatch::Found(0));
}

#[test]
fn nothing_moved_resolves_to_the_recorded_index() {
    let saved = panel(1, "Built-in Retina Display", 3600, 2338, 2.0);
    let live = [
        panel(0, "DELL U2723QE", 3840, 2160, 1.0),
        panel(1, "Built-in Retina Display", 3600, 2338, 2.0),
    ];
    assert_eq!(matched(&saved, &live), MonitorMatch::Found(1));
}

#[test]
fn identical_twins_break_toward_the_recorded_index_then_the_lowest() {
    let live = [
        panel(0, "DELL U2723QE", 3840, 2160, 1.0),
        panel(1, "DELL U2723QE", 3840, 2160, 1.0),
    ];
    let saved_one = panel(1, "DELL U2723QE", 3840, 2160, 1.0);
    assert_eq!(matched(&saved_one, &live), MonitorMatch::Found(1));
    let saved_seven = panel(7, "DELL U2723QE", 3840, 2160, 1.0);
    assert_eq!(matched(&saved_seven, &live), MonitorMatch::Found(0));
}

#[test]
fn the_lowest_index_wins_regardless_of_enumeration_order() {
    let saved = panel(9, "DELL U2723QE", 3840, 2160, 1.0);
    let live = [
        panel(3, "DELL U2723QE", 3840, 2160, 1.0),
        panel(1, "DELL U2723QE", 3840, 2160, 1.0),
    ];
    assert_eq!(matched(&saved, &live), MonitorMatch::Found(1));
}

#[test]
fn a_resized_display_is_changed_not_missing() {
    let saved = panel(0, "DELL U2723QE", 3840, 2160, 1.0);
    let live = [panel(0, "DELL U2723QE", 2560, 1440, 1.0)];
    assert_eq!(matched(&saved, &live), MonitorMatch::Changed(0));
}

#[test]
fn a_rescaled_display_is_changed_not_missing() {
    let saved = panel(0, "Built-in Retina Display", 3600, 2338, 2.0);
    let live = [panel(0, "Built-in Retina Display", 3600, 2338, 1.0)];
    assert_eq!(matched(&saved, &live), MonitorMatch::Changed(0));
}

#[test]
fn an_exact_match_beats_a_changed_one_of_the_same_name() {
    let saved = panel(0, "DELL U2723QE", 3840, 2160, 1.0);
    let live = [
        panel(0, "DELL U2723QE", 2560, 1440, 1.0),
        panel(1, "DELL U2723QE", 3840, 2160, 1.0),
    ];
    assert_eq!(matched(&saved, &live), MonitorMatch::Found(1));
}

#[test]
fn an_absent_display_is_missing_even_when_something_else_fits() {
    let saved = panel(0, "DELL U2723QE", 3840, 2160, 1.0);
    let live = [panel(0, "LG UltraFine", 3840, 2160, 1.0)];
    assert_eq!(matched(&saved, &live), MonitorMatch::Missing);
}

#[test]
fn no_displays_at_all_is_missing() {
    let saved = panel(0, "DELL U2723QE", 3840, 2160, 1.0);
    assert_eq!(matched(&saved, &[]), MonitorMatch::Missing);
}

fn labeled(labels: &[&str]) -> SessionFile {
    let selections: Vec<Selection> = labels
        .iter()
        .map(|label| {
            let mut sel = Selection::new(Shape::Rect(Rect::new(0, 0, 10, 10)), 0);
            sel.label = (*label).to_string();
            sel
        })
        .collect();
    let crops: Vec<String> = (0..labels.len()).map(|i| format!("crop-{i}.png")).collect();
    SessionFile::build(
        "test",
        "2026-07-27T00:00:00Z".into(),
        vec![monitor(0, 0, 0)],
        &selections,
        &crops,
        None,
    )
}

#[test]
fn select_by_label_keeps_session_indices() {
    let file = labeled(&["submit", "cancel", "submit"]);
    let all = select_by_label(&file, None);
    assert_eq!(all.len(), 3, "no label selects everything");
    assert_eq!(all.iter().map(|(i, _)| *i).collect::<Vec<_>>(), [0, 1, 2]);
    let some = select_by_label(&file, Some("submit"));
    assert_eq!(some.iter().map(|(i, _)| *i).collect::<Vec<_>>(), [0, 2]);
}

#[test]
fn select_by_label_matches_case_insensitively_and_can_come_up_empty() {
    let file = labeled(&["Submit"]);
    assert_eq!(select_by_label(&file, Some("SUBMIT")).len(), 1);
    assert!(select_by_label(&file, Some("nope")).is_empty());
}

#[test]
fn distinct_labels_dedupes_case_insensitively_and_drops_blanks() {
    let file = labeled(&["submit", "", "SUBMIT", "cancel"]);
    assert_eq!(
        distinct_labels(&file.selections),
        ["submit", "cancel"],
        "first spelling wins, session order is kept, unlabeled selections contribute nothing"
    );
}

#[test]
fn distinct_labels_reports_only_what_it_is_given() {
    let file = labeled(&["submit", "cancel"]);
    let first_only = distinct_labels(&file.selections[..1]);
    assert_eq!(first_only, ["submit"]);
}

#[test]
fn global_is_origin_plus_local() {
    let mut sel = Selection::new(Shape::Rect(Rect::new(10, 20, 30, 40)), 1);
    sel.label = "target".into();
    let file = SessionFile::build(
        "0.1.0",
        "2026-07-27T00:00:00Z".into(),
        vec![monitor(0, 0, 0), monitor(1, 1920, 0)],
        &[sel],
        &["crop-0-target.png".into()],
        None,
    );
    assert_eq!(file.selections[0].px, Shape::Rect(Rect::new(10, 20, 30, 40)));
    assert_eq!(file.selections[0].global_px, Shape::Rect(Rect::new(1930, 20, 30, 40)));
}

#[test]
fn target_yields_window_relative_coords() {
    let on_target = Selection::new(Shape::Rect(Rect::new(500, 300, 40, 20)), 0);
    let elsewhere = Selection::new(Shape::Rect(Rect::new(1, 1, 5, 5)), 1);
    let target = TargetRecord {
        app: "Notepad".into(),
        title: "notes.txt".into(),
        monitor: 0,
        origin_px: Point::new(400, 250),
        size_px: Size::new(800, 600),
    };
    let file = SessionFile::build(
        "0.1.0",
        "2026-07-27T00:00:00Z".into(),
        vec![monitor(0, 0, 0), monitor(1, 1920, 0)],
        &[on_target, elsewhere],
        &["a.png".into(), "b.png".into()],
        Some(target),
    );
    assert_eq!(file.selections[0].window_px, Some(Shape::Rect(Rect::new(100, 50, 40, 20))));
    assert_eq!(file.selections[1].window_px, None);
    assert_eq!(file.target.as_ref().unwrap().title, "notes.txt");
}

#[test]
fn restore_then_rebuild_reproduces_every_selection_record() {
    let mut rect_sel = Selection::new(Shape::Rect(Rect::new(10, 20, 30, 40)), 0);
    rect_sel.rot_deg = 45;
    rect_sel.label = "spun".into();
    // The triangle turned 90 degrees about its bbox center (200, 150),
    // rotation baked into its vertices as a session stores it.
    let mut tri_sel = Selection::new(
        Shape::Triangle { ax: 250, ay: 150, bx: 150, by: 50, cx: 150, cy: 250 },
        1,
    );
    tri_sel.rot_deg = 90;
    let circle_sel = Selection::new(Shape::Circle { cx: 9, cy: 9, r: 5 }, 0);

    let monitors = vec![monitor(0, 0, 0), monitor(1, 1920, 0)];
    let crops: Vec<String> = vec!["a.png".into(), "b.png".into(), "c.png".into()];
    let first = SessionFile::build(
        "test",
        "t".into(),
        monitors.clone(),
        &[rect_sel, tri_sel, circle_sel],
        &crops,
        None,
    );
    let (restored, _) = restore_selections(&first);
    let second = SessionFile::build("test", "t".into(), monitors, &restored, &crops, None);
    assert_eq!(first.selections, second.selections);
}
