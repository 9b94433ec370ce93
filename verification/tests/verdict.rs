use pixelcoords_core::geometry::{Point, Rect, Shape, Size};
use pixelcoords_core::selection::Selection;
use pixelcoords_core::session::{MonitorRecord, SessionFile, TargetRecord};
use pixelcoords_core::space::Origin;
use pixelcoords_core::verdict::{
    admissible, bbox_offsets, judge, nearest_relevant, region_ref, RegionRef, VerdictError,
};

/// `p` turned `deg` degrees clockwise (screen coordinates) about
/// `center`, rounded to the pixel grid.
fn rotate_point_about(p: Point, center: Point, deg: i32) -> Point {
    let rad = f64::from(deg).to_radians();
    let (sin, cos) = rad.sin_cos();
    let dx = f64::from(p.x) - f64::from(center.x);
    let dy = f64::from(p.y) - f64::from(center.y);
    Point::new(
        (f64::from(center.x) + (dx * cos - dy * sin).round()) as i32,
        (f64::from(center.y) + (dx * sin + dy * cos).round()) as i32,
    )
}

fn rotated_bbox(shape: &Shape, deg: i32) -> Rect {
    let b = shape.bbox();
    let pivot = shape.pivot();
    let (x1, y1) = (b.x.saturating_add(b.w), b.y.saturating_add(b.h));
    let turned = [Point::new(b.x, b.y), Point::new(x1, b.y), Point::new(b.x, y1), Point::new(x1, y1)]
        .map(|c| rotate_point_about(c, pivot, deg));
    shape.rotated_bbox(deg, &turned)
}

#[derive(Debug)]
struct Nearest {
    region: RegionRef,
    bbox_distance_px: f64,
}

#[derive(Debug)]
struct Verdict {
    monitor: Option<usize>,
    hit: bool,
    contained_in: Vec<RegionRef>,
    nearest: Option<Nearest>,
}

/// A point judged against the session: the library's candidates, tested
/// through each region's rotation as the user saw it.
fn assess(
    session: &SessionFile,
    point: Point,
    space: Origin,
    expect: Option<&str>,
) -> Result<Verdict, VerdictError> {
    let cands = admissible(session, space, expect)?;
    let rot = |i: usize| session.selections[i].rot_deg.unwrap_or(0);
    let covered: Vec<bool> = cands
        .iter()
        .map(|(i, shape)| {
            let back = rotate_point_about(point, shape.pivot(), -rot(*i));
            shape.hit_test_rotated(rot(*i), point, back)
        })
        .collect();
    let (hit, contained_in) = judge(session, &cands, expect, &covered);
    let nearest = if hit {
        None
    } else {
        let boxes: Vec<Rect> = cands.iter().map(|(i, s)| rotated_bbox(s, rot(*i))).collect();
        nearest_relevant(session, &cands, expect, &boxes, point).map(|k| {
            let (dx, dy) = bbox_offsets(boxes[k], point);
            let index = cands[k].0;
            Nearest {
                region: region_ref(index, &session.selections[index]),
                bbox_distance_px: f64::hypot(dx as f64, dy as f64),
            }
        })
    };
    Ok(Verdict {
        monitor: match space {
            Origin::Monitor(index) => Some(index),
            _ => None,
        },
        hit,
        contained_in,
        nearest,
    })
}

fn monitor(index: usize, ox: i32, oy: i32) -> MonitorRecord {
    MonitorRecord {
        index,
        name: format!("Display {index}"),
        primary: index == 0,
        origin_px: Point::new(ox, oy),
        size_px: Size::new(1920, 1080),
        scale_bits: 2.0f64.to_bits(),
    }
}

fn labeled(shape: Shape, monitor: usize, label: &str) -> Selection {
    let mut sel = Selection::new(shape, monitor);
    sel.label = label.into();
    sel
}

fn session(selections: &[Selection], target: Option<TargetRecord>) -> SessionFile {
    let crops: Vec<String> = (0..selections.len()).map(|i| format!("c{i}.png")).collect();
    SessionFile::build(
        "test",
        "2026-07-27T00:00:00Z".into(),
        vec![monitor(0, 0, 0), monitor(1, 1920, 0)],
        selections,
        &crops,
        target,
    )
}

#[test]
fn global_space_hits_through_the_monitor_origin() {
    // Local (10, 20) on monitor 1 sits at global (1930, 20).
    let file = session(
        &[labeled(Shape::Rect(Rect::new(10, 20, 30, 40)), 1, "submit")],
        None,
    );
    let hit = assess(&file, Point::new(1935, 25), Origin::Global, None).unwrap();
    assert!(hit.hit);
    assert_eq!(hit.contained_in[0].label, "submit");
    assert!(hit.nearest.is_none());
    let miss = assess(&file, Point::new(15, 25), Origin::Global, None).unwrap();
    assert!(!miss.hit);
}

#[test]
fn monitor_space_tests_local_pixels_of_that_monitor_only() {
    let file = session(
        &[
            labeled(Shape::Rect(Rect::new(10, 20, 30, 40)), 1, "right"),
            labeled(Shape::Rect(Rect::new(10, 20, 30, 40)), 0, "left"),
        ],
        None,
    );
    let v = assess(&file, Point::new(15, 25), Origin::Monitor(1), None).unwrap();
    assert!(v.hit);
    assert_eq!(v.monitor, Some(1));
    // Both monitors hold an identical local rect; only monitor 1's is
    // eligible, so exactly one region contains the point.
    assert_eq!(v.contained_in.len(), 1);
    assert_eq!(v.contained_in[0].label, "right");
}

#[test]
fn unknown_monitor_is_an_error_naming_the_real_ones() {
    let file = session(&[labeled(Shape::Rect(Rect::new(0, 0, 5, 5)), 0, "a")], None);
    let err = assess(&file, Point::new(0, 0), Origin::Monitor(7), None).unwrap_err();
    assert_eq!(
        err,
        VerdictError::UnknownMonitor {
            requested: 7,
            available: vec![0, 1],
        }
    );
}

#[test]
fn monitor_with_no_selections_is_no_candidates_not_a_miss() {
    let file = session(&[labeled(Shape::Rect(Rect::new(0, 0, 5, 5)), 0, "a")], None);
    let err = assess(&file, Point::new(2, 2), Origin::Monitor(1), None).unwrap_err();
    assert_eq!(err, VerdictError::NoCandidates("monitor"));
}

#[test]
fn verdict_window_space_needs_a_target_session() {
    let file = session(&[labeled(Shape::Rect(Rect::new(0, 0, 5, 5)), 0, "a")], None);
    let err = assess(&file, Point::new(2, 2), Origin::Window, None).unwrap_err();
    assert_eq!(err, VerdictError::NoTarget);
}

#[test]
fn window_space_uses_window_relative_coords_and_skips_other_monitors() {
    let target = TargetRecord {
        app: "Editor".into(),
        title: "main.rs".into(),
        monitor: 0,
        origin_px: Point::new(400, 250),
        size_px: Size::new(800, 600),
    };
    let file = session(
        &[
            labeled(Shape::Rect(Rect::new(500, 300, 40, 20)), 0, "on target"),
            labeled(Shape::Rect(Rect::new(1, 1, 5, 5)), 1, "elsewhere"),
        ],
        Some(target),
    );
    // Window-relative: the rect sits at (100, 50) from the window origin.
    let v = assess(&file, Point::new(110, 55), Origin::Window, None).unwrap();
    assert!(v.hit);
    assert_eq!(v.contained_in.len(), 1);
    assert_eq!(v.contained_in[0].label, "on target");
}

#[test]
fn label_filter_is_case_insensitive_and_sees_through_overlap() {
    let file = session(
        &[
            labeled(Shape::Rect(Rect::new(0, 0, 100, 100)), 0, "Cancel"),
            labeled(Shape::Rect(Rect::new(200, 0, 50, 50)), 0, "Submit"),
        ],
        None,
    );
    let v = assess(&file, Point::new(10, 10), Origin::Global, Some("SUBMIT")).unwrap();
    // The point is inside "Cancel", so the verdict is a labeled miss
    // that still reports what was actually hit — and how far the
    // wanted region is.
    assert!(!v.hit);
    assert_eq!(v.contained_in.len(), 1);
    assert_eq!(v.contained_in[0].label, "Cancel");
    let nearest = v.nearest.unwrap();
    assert_eq!(nearest.region.label, "Submit");
    assert!(nearest.bbox_distance_px > 0.0);

    let hit = assess(&file, Point::new(210, 10), Origin::Global, Some("submit")).unwrap();
    assert!(hit.hit);
}

#[test]
fn unknown_label_is_an_error_listing_the_real_ones() {
    let file = session(
        &[
            labeled(Shape::Rect(Rect::new(0, 0, 5, 5)), 0, "Submit"),
            labeled(Shape::Rect(Rect::new(9, 9, 5, 5)), 0, "submit"),
            labeled(Shape::Rect(Rect::new(20, 20, 5, 5)), 0, ""),
        ],
        None,
    );
    let err = assess(&file, Point::new(0, 0), Origin::Global, Some("send")).unwrap_err();
    // Case-insensitive duplicates collapse; the unlabeled one is not
    // offered.
    assert_eq!(
        err,
        VerdictError::UnknownLabel {
            requested: "send".into(),
            available: vec!["Submit".into()],
        }
    );
}

#[test]
fn empty_session_is_no_candidates() {
    let file = session(&[], None);
    let err = assess(&file, Point::new(0, 0), Origin::Global, None).unwrap_err();
    assert_eq!(err, VerdictError::NoCandidates("global"));
}

#[test]
fn rotated_rect_is_tested_as_the_user_saw_it() {
    // A wide rect rotated 90° stands tall: x 25..35, y -5..35 visually.
    let mut sel = Selection::new(Shape::Rect(Rect::new(10, 10, 40, 10)), 0);
    sel.rot_deg = 90;
    let file = session(&[sel], None);
    let inside_rotated = Point::new(28, 27);
    let v = assess(&file, inside_rotated, Origin::Global, None).unwrap();
    assert!(v.hit, "point inside the rotated silhouette must hit");
    let inside_unrotated_only = Point::new(45, 15);
    let v = assess(&file, inside_unrotated_only, Origin::Global, None).unwrap();
    assert!(
        !v.hit,
        "the axis-aligned box no longer applies once rotated"
    );
}

#[test]
fn circle_and_triangle_hits_use_their_own_geometry() {
    let file = session(
        &[
            labeled(
                Shape::Circle {
                    cx: 50,
                    cy: 50,
                    r: 10,
                },
                0,
                "dot",
            ),
            labeled(
                Shape::Triangle {
                    ax: 200,
                    ay: 100,
                    bx: 150,
                    by: 200,
                    cx: 250,
                    cy: 200,
                },
                0,
                "tri",
            ),
        ],
        None,
    );
    // On the circle's rim (inclusive), inside the triangle, and in each
    // shape's bbox corner — which its geometry excludes.
    assert!(
        assess(&file, Point::new(60, 50), Origin::Global, None)
            .unwrap()
            .hit
    );
    assert!(
        assess(&file, Point::new(200, 150), Origin::Global, None)
            .unwrap()
            .hit
    );
    let circle_corner = assess(&file, Point::new(41, 41), Origin::Global, None).unwrap();
    assert!(!circle_corner.hit);
    let tri_corner = assess(&file, Point::new(151, 101), Origin::Global, None).unwrap();
    assert!(!tri_corner.hit);
}

#[test]
fn overlapping_hits_come_back_in_stacking_order() {
    let file = session(
        &[
            labeled(Shape::Rect(Rect::new(0, 0, 100, 100)), 0, "below"),
            labeled(Shape::Rect(Rect::new(0, 0, 50, 50)), 0, "above"),
        ],
        None,
    );
    let v = assess(&file, Point::new(10, 10), Origin::Global, None).unwrap();
    let labels: Vec<&str> = v.contained_in.iter().map(|r| r.label.as_str()).collect();
    assert_eq!(labels, ["below", "above"]);
    assert_eq!(v.contained_in[1].index, 1);
}

#[test]
fn miss_distance_is_euclidean_to_the_bbox() {
    let file = session(
        &[labeled(Shape::Rect(Rect::new(10, 10, 20, 20)), 0, "box")],
        None,
    );
    // 3 left of x=10, 4 above y=10: a 3-4-5 triangle.
    let v = assess(&file, Point::new(7, 6), Origin::Global, None).unwrap();
    assert!(!v.hit);
    let nearest = v.nearest.unwrap();
    assert_eq!(nearest.region.label, "box");
    assert!((nearest.bbox_distance_px - 5.0).abs() < f64::EPSILON);
}

#[test]
fn miss_distance_uses_the_rotated_bbox() {
    // Rotated 90°, the wide rect's silhouette spans x 25..35 — a point
    // just right of it measures against that tall box, not the
    // original wide one.
    let mut sel = Selection::new(Shape::Rect(Rect::new(10, 10, 40, 10)), 0);
    sel.rot_deg = 90;
    let file = session(&[sel], None);
    let v = assess(&file, Point::new(40, 0), Origin::Global, None).unwrap();
    assert!(!v.hit);
    // The rotated bbox reaches x=35 at y=0; distance is 40-34=6 in x
    // per half-open inclusion, 0 in y — well under the unrotated
    // bbox's answer (which would include a 10px y gap).
    let d = v.nearest.unwrap().bbox_distance_px;
    assert!(
        d < 8.0,
        "distance {d} should measure the rotated silhouette"
    );
}

#[test]
fn a_miss_measures_only_the_expected_regions() {
    let file = session(
        &[
            labeled(Shape::Rect(Rect::new(0, 0, 10, 10)), 0, "near"),
            labeled(Shape::Rect(Rect::new(100, 0, 10, 10)), 0, "far"),
        ],
        None,
    );
    let v = assess(&file, Point::new(50, 5), Origin::Global, Some("FAR")).unwrap();
    assert!(!v.hit);
    let nearest = v.nearest.unwrap();
    assert_eq!(nearest.region.label, "far");
    assert_eq!(nearest.region.index, 1);
    assert!((nearest.bbox_distance_px - 50.0).abs() < f64::EPSILON);
    let v = assess(&file, Point::new(50, 5), Origin::Global, None).unwrap();
    assert_eq!(v.nearest.unwrap().region.label, "near", "equal distances go to the first");
}
