use pixelcoords_core::geometry::{Point, Rect, Shape, Size};
use pixelcoords_core::locate::Delta;
use pixelcoords_core::resolve::{all_resolved, physical_answer, resolve_request, ResolveError};
use pixelcoords_core::selection::Selection;
use pixelcoords_core::session::{MonitorRecord, SessionFile, TargetRecord};
use pixelcoords_core::space::Origin;

/// Two monitors: index 0 at scale 1, index 1 at scale 2 and offset.
fn mixed_dpi(labels: &[(&str, usize, Rect)]) -> SessionFile {
    let selections: Vec<Selection> = labels
        .iter()
        .map(|&(label, monitor, rect)| {
            let mut sel = Selection::new(Shape::Rect(rect), monitor);
            sel.label = label.to_string();
            sel
        })
        .collect();
    let crops: Vec<String> = (0..labels.len()).map(|i| format!("c{i}.png")).collect();
    SessionFile::build(
        "test",
        "2026-08-01T00:00:00Z".into(),
        vec![
            MonitorRecord {
                index: 0,
                name: "Left".into(),
                primary: true,
                origin_px: Point::new(0, 0),
                size_px: Size::new(1920, 1080),
                scale_bits: 1.0f64.to_bits(),
            },
            MonitorRecord {
                index: 1,
                name: "Right Retina".into(),
                primary: false,
                origin_px: Point::new(1920, 0),
                size_px: Size::new(2560, 1440),
                scale_bits: 2.0f64.to_bits(),
            },
        ],
        &selections,
        &crops,
        None,
    )
}

/// The physical click points a request answers with, without drift.
fn points(file: &SessionFile, label: Option<&str>, origin: Origin) -> Vec<(usize, Point)> {
    resolve_request(file, label, origin)
        .unwrap()
        .iter()
        .map(|(index, shape)| (*index, physical_answer(shape, None).1))
        .collect()
}

#[test]
fn a_physical_answer_is_the_stored_click_point() {
    let file = mixed_dpi(&[("submit", 0, Rect::new(800, 400, 100, 80))]);
    let out = points(&file, None, Origin::Global);
    assert_eq!(out.len(), 1);
    assert_eq!(out[0].1, Point::new(850, 440));
    assert_eq!(Origin::Global.label(), "global");
}

#[test]
fn monitor_space_answers_in_monitor_local_coordinates() {
    let file = mixed_dpi(&[("right", 1, Rect::new(100, 200, 40, 60))]);
    let global = points(&file, None, Origin::Global);
    let local = points(&file, None, Origin::Monitor(1));
    assert_eq!(global[0].1, Point::new(2040, 230));
    assert_eq!(local[0].1, Point::new(120, 230), "origin removed");
    assert_eq!(Origin::Monitor(1).label(), "monitor");
}

#[test]
fn monitor_space_needs_no_index_and_spans_monitors() {
    let file = mixed_dpi(&[
        ("left", 0, Rect::new(800, 400, 100, 80)),
        ("right", 1, Rect::new(100, 200, 40, 60)),
    ]);
    let zero = points(&file, None, Origin::Monitor(0));
    let one = points(&file, None, Origin::Monitor(1));
    assert_eq!(zero, one, "the index carries nothing here");
    assert_eq!(zero[0].1, Point::new(850, 440), "monitor 0, local");
    assert_eq!(zero[1].1, Point::new(120, 230), "monitor 1, local");
    assert_eq!(
        (file.selections[zero[0].0].monitor, file.selections[zero[1].0].monitor),
        (0, 1)
    );
}

#[test]
fn drift_moves_the_physical_region_before_its_point_is_taken() {
    let file = mixed_dpi(&[("right", 1, Rect::new(100, 200, 40, 60))]);
    let out = resolve_request(&file, None, Origin::Monitor(1)).unwrap();
    let (region, point) = physical_answer(&out[0].1, Some(Delta { dx: 40, dy: 0 }));
    assert_eq!(region, Shape::Rect(Rect::new(140, 200, 40, 60)));
    assert_eq!(point, Point::new(160, 230));
}

#[test]
fn a_label_restricts_the_set_and_an_unknown_one_lists_what_exists() {
    let file = mixed_dpi(&[
        ("left", 0, Rect::new(0, 0, 10, 10)),
        ("right", 1, Rect::new(0, 0, 10, 10)),
    ]);
    let out = resolve_request(&file, Some("RIGHT"), Origin::Global).unwrap();
    assert_eq!(out.len(), 1);
    assert_eq!(file.selections[out[0].0].label, "right");

    let err = resolve_request(&file, Some("nope"), Origin::Global).unwrap_err();
    assert_eq!(
        err,
        ResolveError::UnknownLabel {
            requested: "nope".into(),
            available: vec!["left".into(), "right".into()],
        }
    );
}

#[test]
fn a_selection_off_the_target_monitor_has_no_window_answer() {
    let mut on_target = Selection::new(Shape::Rect(Rect::new(110, 60, 20, 20)), 0);
    on_target.label = "on-target".into();
    let mut elsewhere = Selection::new(Shape::Rect(Rect::new(10, 10, 20, 20)), 1);
    elsewhere.label = "elsewhere".into();
    let file = SessionFile::build(
        "test",
        "2026-08-01T00:00:00Z".into(),
        vec![
            MonitorRecord {
                index: 0,
                name: "Left".into(),
                primary: true,
                origin_px: Point::new(0, 0),
                size_px: Size::new(1920, 1080),
                scale_bits: 1.0f64.to_bits(),
            },
            MonitorRecord {
                index: 1,
                name: "Right".into(),
                primary: false,
                origin_px: Point::new(1920, 0),
                size_px: Size::new(1920, 1080),
                scale_bits: 1.0f64.to_bits(),
            },
        ],
        &[on_target, elsewhere],
        &["c0.png".into(), "c1.png".into()],
        Some(TargetRecord {
            app: "Editor".into(),
            title: "main.rs".into(),
            monitor: 0,
            origin_px: Point::new(100, 50),
            size_px: Size::new(800, 600),
        }),
    );

    let ok = points(&file, Some("on-target"), Origin::Window);
    assert_eq!(ok[0].1, Point::new(20, 20));

    let err = resolve_request(&file, Some("elsewhere"), Origin::Window).unwrap_err();
    assert_eq!(
        err,
        ResolveError::OffTargetMonitor {
            selection: 1,
            label: "elsewhere".into(),
        }
    );
}

#[test]
fn resolve_window_space_needs_a_target_session() {
    let file = mixed_dpi(&[("submit", 0, Rect::new(0, 0, 10, 10))]);
    assert_eq!(
        resolve_request(&file, None, Origin::Window).unwrap_err(),
        ResolveError::NoTarget
    );
}

#[test]
fn an_empty_session_is_refused_before_the_label_is_considered() {
    let file = mixed_dpi(&[]);
    assert_eq!(
        resolve_request(&file, Some("anything"), Origin::Global).unwrap_err(),
        ResolveError::NoSelections,
        "an empty session and an unmatched label are different mistakes"
    );
}

#[test]
fn a_selection_on_an_undescribed_monitor_cannot_be_resolved() {
    let mut file = mixed_dpi(&[("lost", 0, Rect::new(0, 0, 10, 10))]);
    file.selections[0].monitor = 7;
    assert_eq!(
        resolve_request(&file, None, Origin::Global).unwrap_err(),
        ResolveError::UnknownMonitor {
            selection: 0,
            monitor: 7
        }
    );
    assert_eq!(
        ResolveError::UnknownMonitor {
            selection: 0,
            monitor: 7
        }
        .to_string(),
        "selection 0 references monitor 7, which the session does not describe"
    );
}

#[test]
fn ok_is_true_without_relocation_and_follows_the_scores_with_it() {
    assert!(all_resolved(&[false], false));
    assert!(
        !all_resolved(&[false], true),
        "asked to relocate and given no score, the point is not trustworthy"
    );
    assert!(all_resolved(&[true], true));
    assert!(!all_resolved(&[], false), "nothing resolved is not success");
}
