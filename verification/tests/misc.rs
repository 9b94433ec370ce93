use pixelcoords_core::diff::{Baseline, DiffError};
use pixelcoords_core::geometry::{Point, Rect, Shape, MAX_COORD};
use pixelcoords_core::session::raw_values;
use pixelcoords_core::snap::{Snap, SnapHit};
use pixelcoords_core::space::{Origin, Platform, Resolved, Units};
use pixelcoords_core::strings::count;

#[test]
fn auto_follows_the_platforms_input_api() {
    assert_eq!(Units::Auto.resolve(Platform::MacOs), Resolved::Logical);
    assert_eq!(Units::Auto.resolve(Platform::Windows), Resolved::Physical);
    assert_eq!(Units::Auto.resolve(Platform::Linux), Resolved::Physical);
}

#[test]
fn an_explicit_unit_ignores_the_platform() {
    for platform in [Platform::MacOs, Platform::Windows, Platform::Linux] {
        assert_eq!(Units::Physical.resolve(platform), Resolved::Physical);
        assert_eq!(Units::Logical.resolve(platform), Resolved::Logical);
    }
}

#[test]
fn origins_label_themselves_for_json() {
    assert_eq!(Origin::Global.label(), "global");
    assert_eq!(Origin::Monitor(3).label(), "monitor");
    assert_eq!(Origin::Window.label(), "window");
}

#[test]
fn space_labels_name_their_own_space() {
    assert_eq!(Origin::Global.label(), "global");
    assert_eq!(Origin::Monitor(3).label(), "monitor");
    assert_eq!(Origin::Window.label(), "window");
}

#[test]
fn one_is_singular_and_the_rest_are_not() {
    assert_eq!(count(1, "region"), "1 region");
    assert_eq!(count(0, "region"), "0 regions");
    assert_eq!(count(2, "poll"), "2 polls");
}

#[test]
fn snap_applies_only_the_axes_that_hit() {
    let only_x = Snap { x: Some(SnapHit { at: 42, span: (0, 9) }), y: None };
    assert_eq!(only_x.apply(Point::new(40, 7)), Point::new(42, 7));
    assert!(only_x.is_hit());
    assert!(!Snap::default().is_hit());
}

#[test]
fn a_fully_transparent_crop_is_refused_rather_than_dividing_by_zero() {
    let px = vec![0u8; 4 * 4 * 4];
    assert_eq!(Baseline::from_rgba(4, 4, &px).unwrap_err(), DiffError::EmptyCrop);
}

#[test]
fn every_shape_kind_is_walked_for_coordinates() {
    let far = MAX_COORD + 1;
    let shapes = [
        Shape::Rect(Rect::new(far, 0, 1, 1)),
        Shape::Circle { cx: far, cy: 0, r: 1 },
        Shape::Ellipse { cx: far, cy: 0, rx: 1, ry: 1 },
        Shape::Triangle { ax: far, ay: 0, bx: 1, by: 1, cx: 2, cy: 2 },
        Shape::Poly { points: vec![Point::new(far, 0), Point::new(1, 1), Point::new(2, 2)] },
    ];
    for shape in shapes {
        assert!(
            raw_values(&shape).iter().any(|v| v.abs() > MAX_COORD),
            "{shape:?} hid its out-of-range coordinate"
        );
    }
}
