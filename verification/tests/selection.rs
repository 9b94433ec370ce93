use pixelcoords_core::geometry::{Point, Rect, ResizeHandle, Shape};
use pixelcoords_core::selection::{GrabKind, Selection, SelectionSet};

fn rect_at(x: i32) -> Shape {
    Shape::Rect(Rect::new(x, 0, 100, 100))
}

/// Which selections cover `p`; every selection in these tests is unrotated.
fn covered(set: &SelectionSet, p: Point) -> Vec<bool> {
    set.items().iter().map(|s| s.shape.hit_test(p)).collect()
}

fn grips(set: &SelectionSet, p: Point, tolerance: i32) -> Vec<Option<ResizeHandle>> {
    set.items().iter().map(|s| s.shape.resize_grab(p, tolerance)).collect()
}

fn hit(set: &SelectionSet, monitor: usize, p: Point) -> Option<usize> {
    set.hit_topmost(monitor, &covered(set, p))
}

fn grab(set: &SelectionSet, monitor: usize, p: Point, tolerance: i32) -> Option<(usize, GrabKind)> {
    set.grab_topmost(monitor, &grips(set, p, tolerance), &covered(set, p))
}

fn cycle(set: &mut SelectionSet, monitor: usize, p: Point) -> bool {
    let c = covered(set, p);
    set.cycle_at(monitor, &c)
}

#[test]
fn hit_topmost_prefers_most_recent() {
    let mut set = SelectionSet::new();
    set.add(Selection::new(rect_at(0), 0));
    set.add(Selection::new(rect_at(50), 0));
    assert_eq!(hit(&set, 0, Point::new(60, 10)), Some(1));
    assert_eq!(hit(&set, 0, Point::new(10, 10)), Some(0));
    assert_eq!(hit(&set, 0, Point::new(500, 500)), None);
}

#[test]
fn hit_topmost_filters_by_monitor() {
    let mut set = SelectionSet::new();
    set.add(Selection::new(rect_at(0), 1));
    assert_eq!(hit(&set, 0, Point::new(10, 10)), None);
    assert_eq!(hit(&set, 1, Point::new(10, 10)), Some(0));
}

#[test]
fn undo_add_removes_it() {
    let mut set = SelectionSet::new();
    set.add(Selection::new(rect_at(0), 0));
    assert!(set.undo());
    assert!(set.is_empty());
}

#[test]
fn undo_delete_reinserts_at_original_position() {
    let mut set = SelectionSet::new();
    set.add(Selection::new(rect_at(0), 0));
    set.add(Selection::new(rect_at(200), 0));
    set.add(Selection::new(rect_at(400), 0));
    assert!(set.delete(1));
    assert_eq!(set.len(), 2);
    assert!(set.undo());
    assert_eq!(set.items()[1].shape, rect_at(200));
}

#[test]
fn undo_move_restores_original_shape() {
    let mut set = SelectionSet::new();
    set.add(Selection::new(rect_at(0), 0));
    let original = set.items()[0].shape.clone();
    set.set_shape_live(0, rect_at(300));
    set.commit_move(0, original.clone());
    assert!(set.undo());
    assert_eq!(set.items()[0].shape, original);
}

#[test]
fn commit_move_without_change_records_nothing() {
    let mut set = SelectionSet::new();
    set.add(Selection::new(rect_at(0), 0));
    let original = set.items()[0].shape.clone();
    set.commit_move(0, original.clone());
    assert!(set.undo());
    assert!(set.is_empty());
    assert!(!set.undo());
}

#[test]
fn noop_label_and_move_record_nothing() {
    let mut set = SelectionSet::new();
    set.add(Selection::new(rect_at(0), 0));
    assert!(!set.set_label(0, String::new()));
    assert!(set.set_label(0, "named".into()));
    assert!(!set.set_label(0, "named".into()));
    let original = set.items()[0].shape.clone();
    assert!(!set.commit_move(0, original));
    assert!(set.undo());
    assert_eq!(set.items()[0].label, "");
    assert!(set.undo());
    assert!(!set.undo());
}

#[test]
fn undo_label_restores_previous_text() {
    let mut set = SelectionSet::new();
    set.add(Selection::new(rect_at(0), 0));
    set.set_label(0, "first".into());
    set.set_label(0, "second".into());
    assert!(set.undo());
    assert_eq!(set.items()[0].label, "first");
    assert!(set.undo());
    assert_eq!(set.items()[0].label, "");
}

#[test]
fn cycling_overlap_reaches_the_shape_beneath_and_undoes() {
    let mut set = SelectionSet::new();
    let mut below = Selection::new(Shape::Rect(Rect::new(0, 0, 100, 100)), 0);
    below.label = "below".into();
    let mut above = Selection::new(Shape::Rect(Rect::new(10, 10, 50, 50)), 0);
    above.label = "above".into();
    set.add(below);
    set.add(above);
    let p = Point::new(20, 20);
    assert_eq!(set.items()[hit(&set, 0, p).unwrap()].label, "above");

    assert!(cycle(&mut set, 0, p));
    assert_eq!(
        set.items()[hit(&set, 0, p).unwrap()].label,
        "below",
        "the shape beneath is now grabbable"
    );
    assert!(cycle(&mut set, 0, p));
    assert_eq!(set.items()[hit(&set, 0, p).unwrap()].label, "above");
    assert!(set.undo());
    assert!(set.undo());
    assert_eq!(set.items()[hit(&set, 0, p).unwrap()].label, "above");
    assert_eq!(set.items()[0].label, "below", "original order restored");
}

#[test]
fn get_returns_the_selection_or_nothing() {
    let mut set = SelectionSet::new();
    set.add(Selection::new(Shape::Rect(Rect::new(1, 1, 2, 2)), 0));
    assert!(set.get(0).is_some());
    assert!(set.get(1).is_none());
}

#[test]
fn cycling_needs_at_least_two_shapes_under_the_point() {
    let mut set = SelectionSet::new();
    set.add(Selection::new(Shape::Rect(Rect::new(0, 0, 10, 10)), 0));
    assert!(!cycle(&mut set, 0, Point::new(5, 5)), "one shape: nothing to cycle");
    assert!(!cycle(&mut set, 0, Point::new(50, 50)), "no shape: nothing to cycle");
}

#[test]
fn seeding_restores_items_without_undo_history() {
    let mut sel = Selection::new(Shape::Rect(Rect::new(1, 2, 3, 4)), 0);
    sel.label = "kept".into();
    sel.rot_deg = 30;
    let mut set = SelectionSet::seed(vec![sel]);
    assert_eq!(set.len(), 1);
    assert_eq!(set.items()[0].label, "kept");
    assert!(!set.undo(), "the resume point is the floor of history");
    set.delete(0);
    assert!(set.undo());
    assert_eq!(set.len(), 1);
}

#[test]
fn redo_reapplies_undone_edits_across_every_op_kind() {
    let mut set = SelectionSet::new();
    set.add(Selection::new(Shape::Rect(Rect::new(0, 0, 10, 10)), 0));
    set.set_label(0, "a".into());
    set.rotate(0, 45);
    set.set_shape_live(0, Shape::Rect(Rect::new(5, 5, 10, 10)));
    set.commit_move(0, Shape::Rect(Rect::new(0, 0, 10, 10)));
    set.delete(0);
    while set.undo() {}
    assert!(set.is_empty(), "everything unwinds");
    while set.redo() {}
    assert!(set.is_empty(), "the final delete replays too");
    assert!(set.undo());
    let s = &set.items()[0];
    assert_eq!(s.label, "a");
    assert_eq!(s.rot_deg, 45);
    assert_eq!(s.shape, Shape::Rect(Rect::new(5, 5, 10, 10)));
}

#[test]
fn a_new_edit_empties_the_redo_branch() {
    let mut set = SelectionSet::new();
    set.add(Selection::new(Shape::Rect(Rect::new(0, 0, 10, 10)), 0));
    assert!(set.undo());
    set.add(Selection::new(Shape::Rect(Rect::new(9, 9, 5, 5)), 0));
    assert!(!set.redo(), "a new edit forked history; redo is gone");
}

#[test]
fn redo_with_nothing_undone_is_false() {
    let mut set = SelectionSet::new();
    assert!(!set.redo());
    set.add(Selection::new(Shape::Rect(Rect::new(0, 0, 4, 4)), 0));
    assert!(!set.redo(), "un-undone edits leave nothing to redo");
}

#[test]
fn undo_is_lifo_across_mixed_ops() {
    let mut set = SelectionSet::new();
    set.add(Selection::new(rect_at(0), 0));
    set.set_label(0, "a".into());
    set.delete(0);
    assert!(set.undo());
    assert_eq!(set.items()[0].label, "a");
    assert!(set.undo());
    assert_eq!(set.items()[0].label, "");
    assert!(set.undo());
    assert!(set.is_empty());
    assert!(!set.undo());
}

#[test]
fn delete_out_of_range_is_false() {
    let mut set = SelectionSet::new();
    assert!(!set.delete(0));
}

#[test]
fn rotate_records_undo_and_skips_circles() {
    let mut set = SelectionSet::new();
    set.add(Selection::new(rect_at(0), 0));
    set.add(Selection::new(Shape::Circle { cx: 0, cy: 0, r: 9 }, 0));

    assert_eq!(set.rotate(0, 15), Some(15));
    assert_eq!(set.rotate(0, -30), Some(345));
    assert_eq!(set.rotate(1, 15), None, "circles don't rotate");
    assert_eq!(set.rotate(0, 0), None, "zero delta is a no-op");

    assert!(set.undo());
    assert_eq!(set.items()[0].rot_deg, 15);
    assert!(set.undo());
    assert_eq!(set.items()[0].rot_deg, 0);
}

#[test]
fn grab_prefers_border_resize_over_interior_move() {
    let mut set = SelectionSet::new();
    set.add(Selection::new(rect_at(0), 0));
    let Some((0, GrabKind::Resize(_))) = grab(&set, 0, Point::new(1, 50), 5) else {
        panic!("expected a resize grab on the edge");
    };
    assert_eq!(grab(&set, 0, Point::new(50, 50), 5), Some((0, GrabKind::Move)));
    assert_eq!(grab(&set, 0, Point::new(500, 500), 5), None);
}

#[test]
fn grab_topmost_shape_shadows_lower_border() {
    let mut set = SelectionSet::new();
    set.add(Selection::new(rect_at(0), 0));
    set.add(Selection::new(Shape::Rect(Rect::new(50, 0, 200, 100)), 0));
    assert_eq!(grab(&set, 0, Point::new(100, 50), 5), Some((1, GrabKind::Move)));
}

/// `p` turned `deg` degrees clockwise about `center`, rounded.
fn rotate_point_about(p: Point, center: Point, deg: i32) -> Point {
    let rad = f64::from(deg).to_radians();
    let (sin, cos) = rad.sin_cos();
    let dx = f64::from(p.x) - f64::from(center.x);
    let dy = f64::from(p.y) - f64::from(center.y);
    Point::new(
        (f64::from(center.x) + (dx * cos - dy * sin).round()) as i32,
        (f64::from(center.y) + (dx * sin + dy * cos).round()) as i32,
    )
}

#[test]
fn rotated_selection_hit_follows_rotation() {
    let mut set = SelectionSet::new();
    set.add(Selection::new(Shape::Rect(Rect::new(100, 100, 200, 20)), 0));
    set.rotate(0, 90);
    let covered_turned = |p: Point| -> Vec<bool> {
        set.items()
            .iter()
            .map(|s| s.shape.hit_test_rotated(s.rot_deg, p, rotate_point_about(p, s.shape.pivot(), -s.rot_deg)))
            .collect()
    };
    assert_eq!(set.hit_topmost(0, &covered_turned(Point::new(200, 30))), Some(0));
    assert_eq!(set.hit_topmost(0, &covered_turned(Point::new(290, 110))), None);
}

#[test]
fn undos_rewind_mixed_edits_to_the_seed_and_redos_replay_them() {
    let seed = vec![Selection::new(rect_at(0), 0), Selection::new(rect_at(200), 0)];
    let mut set = SelectionSet::seed(seed.clone());
    set.add(Selection::new(rect_at(400), 1));
    assert_eq!(set.rotate(0, 30), Some(30));
    assert!(set.set_label(1, "ok".to_string()));
    assert!(set.delete(0));
    set.set_shape_live(0, rect_at(250));
    assert!(set.commit_move(0, rect_at(200)));
    let edited: Vec<Selection> = set.items().clone();
    for _ in 0..5 {
        assert!(set.undo());
    }
    assert_eq!(set.items(), &seed);
    assert!(!set.undo());
    assert_eq!(set.items(), &seed);
    for _ in 0..5 {
        assert!(set.redo());
    }
    assert_eq!(set.items(), &edited);
    assert!(!set.redo());
    // An edit after undos drops what could have been redone.
    assert!(set.undo());
    set.add(Selection::new(rect_at(600), 0));
    assert!(!set.redo());
}
