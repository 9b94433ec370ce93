use pixelcoords_core::geometry::{max3, polygon_side_count, Point, Rect, ResizeHandle, Shape, Size};
use pixelcoords_core::locate::crop_origin;

/// `p` turned `deg` degrees clockwise (screen coordinates) about
/// `center`, rounded to the pixel grid.
fn rotate_point_about(p: Point, center: Point, deg: i32) -> Point {
    let rad = f64::from(deg).to_radians();
    let (sin, cos) = rad.sin_cos();
    let dx = f64::from(p.x) - f64::from(center.x);
    let dy = f64::from(p.y) - f64::from(center.y);
    Point::new(
        (f64::from(center.x) + (dx * cos - dy * sin).round()) as i32,
        (f64::from(center.y) + (dx * sin + dy * cos).round()) as i32,
    )
}

/// The corners of the shape's bbox turned `deg` about its pivot.
fn turned_corners(shape: &Shape, deg: i32) -> [Point; 4] {
    let b = shape.bbox();
    let pivot = shape.pivot();
    let (x1, y1) = (b.x.saturating_add(b.w), b.y.saturating_add(b.h));
    [Point::new(b.x, b.y), Point::new(x1, b.y), Point::new(b.x, y1), Point::new(x1, y1)]
        .map(|c| rotate_point_about(c, pivot, deg))
}

fn rotated_bbox(shape: &Shape, deg: i32) -> Rect {
    shape.rotated_bbox(deg, &turned_corners(shape, deg))
}

#[test]
fn rotated_bbox_of_quarter_turned_rect_swaps_dimensions() {
    let s = Shape::Rect(Rect::new(100, 100, 200, 100));
    let bb = rotated_bbox(&s, 90);
    assert_eq!((bb.w, bb.h), (100, 200));
    assert_eq!(bb.x + bb.w / 2, 200);
    assert_eq!(bb.y + bb.h / 2, 150);
    assert_eq!(rotated_bbox(&s, 0), s.bbox());
    let c = Shape::Circle { cx: 50, cy: 50, r: 20 };
    assert_eq!(rotated_bbox(&c, 45), c.bbox());
}

#[test]
fn a_rotated_move_clamps_the_rotated_box_to_bounds() {
    let rect = Shape::Rect(Rect::new(10, 10, 40, 20));
    let bounds = Size::new(200, 200);
    let moved = rect.clamp_move_rotated(
        45,
        rotated_bbox(&rect, 45),
        Point::new(0, 0),
        Point::new(500, 500),
        Rect::new(0, 0, bounds.w, bounds.h),
    );
    let bb = rotated_bbox(&moved, 45);
    assert!(bb.x >= 0 && bb.y >= 0, "{bb:?}");
    assert!(bb.x + bb.w <= bounds.w, "{bb:?}");
    assert!(bb.y + bb.h <= bounds.h, "{bb:?}");
}

#[test]
fn a_rotated_grab_references_the_rotated_box_origin() {
    let rect = Shape::Rect(Rect::new(10, 10, 40, 20));
    assert_eq!(rect.grab_origin_rotated(0, rotated_bbox(&rect, 0)), rect.grab_origin());
    let rotated = rect.grab_origin_rotated(45, rotated_bbox(&rect, 45));
    assert_eq!(rotated, Point::new(rotated_bbox(&rect, 45).x, rotated_bbox(&rect, 45).y));
    let circle = Shape::Circle { cx: 40, cy: 40, r: 9 };
    assert_eq!(circle.grab_origin_rotated(30, rotated_bbox(&circle, 30)), circle.grab_origin());
}

#[test]
fn crop_origin_is_the_clipped_rotated_bbox() {
    let frame = Size::new(1920, 1080);
    let shape = Shape::Rect(Rect::new(100, 50, 40, 30));
    assert_eq!(crop_origin(rotated_bbox(&shape, 0), frame), Point::new(100, 50));
    assert_eq!(crop_origin(rotated_bbox(&shape, 90), frame), Point::new(105, 45));
    let hanging = Shape::Rect(Rect::new(-20, -10, 40, 30));
    assert_eq!(crop_origin(rotated_bbox(&hanging, 0), frame), Point::new(0, 0));
}

#[test]
fn a_crop_origin_past_the_far_edge_is_clipped_to_it() {
    assert_eq!(crop_origin(Rect::new(5000, 2000, 10, 10), Size::new(1920, 1080)), Point::new(1920, 1080));
}

#[test]
fn a_triangle_with_its_rotation_baked_moves_as_given() {
    let tri = Shape::Triangle { ax: 200, ay: 100, bx: 100, by: 200, cx: 300, cy: 200 };
    let turned = turned_corners(&tri, 180);
    assert_eq!(turned[0], Point::new(300, 200));
    let bb = tri.rotated_bbox(180, &turned);
    assert_eq!(bb, Rect::new(100, 100, 200, 100));
}

const BOUNDS_RECT: Rect = Rect { x: 0, y: 0, w: 1920, h: 1080 };

fn hit_test_rotated(shape: &Shape, deg: i32, p: Point) -> bool {
    shape.hit_test_rotated(deg, p, rotate_point_about(p, shape.pivot(), -deg))
}

fn resize_grab_rotated(shape: &Shape, deg: i32, p: Point, tolerance: i32) -> Option<ResizeHandle> {
    shape.resize_grab_rotated(deg, p, rotate_point_about(p, shape.pivot(), -deg), tolerance)
}

/// The cursor is clamped where it lives, on screen, then turned back.
fn resize_to_rotated(
    shape: &Shape,
    deg: i32,
    handle: ResizeHandle,
    cursor: Point,
    region: Rect,
    keep_aspect: bool,
) -> Shape {
    let visual = Point::new(
        cursor.x.clamp(region.x, region.x + region.w - 1),
        cursor.y.clamp(region.y, region.y + region.h - 1),
    );
    let back = rotate_point_about(visual, shape.pivot(), -deg);
    shape.resize_to_rotated(deg, handle, cursor, region, keep_aspect, back)
}

fn with_rotation_baked(shape: &Shape, deg: i32) -> Shape {
    let pivot = shape.pivot();
    let turned: Vec<Point> = match shape {
        Shape::Poly { points } => points.iter().map(|p| rotate_point_about(*p, pivot, deg)).collect(),
        Shape::Triangle { ax, ay, bx, by, cx, cy } => [(*ax, *ay), (*bx, *by), (*cx, *cy)]
            .iter()
            .map(|&(x, y)| rotate_point_about(Point::new(x, y), pivot, deg))
            .collect(),
        _ => Vec::new(),
    };
    shape.with_rotation_baked(deg, &turned)
}

/// The regular polygon with its first vertex at `toward`.
fn regular_polygon(center: Point, toward: Point, sides: u32) -> Shape {
    let sides = polygon_side_count(sides);
    let dx = f64::from(toward.x) - f64::from(center.x);
    let dy = f64::from(toward.y) - f64::from(center.y);
    let r = dx.hypot(dy);
    let base = dy.atan2(dx);
    let step = std::f64::consts::TAU / sides as f64;
    let points = (0..sides)
        .map(|i| {
            let a = base + step * i as f64;
            Point::new(
                f64::from(center.x).mul_add(1.0, r * a.cos()).round() as i32,
                f64::from(center.y).mul_add(1.0, r * a.sin()).round() as i32,
            )
        })
        .collect();
    Shape::Poly { points }
}

#[test]
fn rotated_ellipse_hit_follows_the_turn() {
    let e = Shape::Ellipse {
        cx: 50,
        cy: 40,
        rx: 30,
        ry: 8,
    };
    assert!(hit_test_rotated(&e, 90, Point::new(50, 65)));
    assert!(!hit_test_rotated(&e, 90, Point::new(75, 40)));
    assert!(e.hit_test(Point::new(75, 40)), "unrotated it lies flat");
}

#[test]
fn regular_polygon_puts_the_first_vertex_at_the_cursor() {
    let hex = regular_polygon(Point::new(100, 100), Point::new(140, 100), 6);
    let Shape::Poly { ref points } = hex else {
        panic!("regular polygon is a poly")
    };
    assert_eq!(points.len(), 6);
    assert_eq!(points[0], Point::new(140, 100), "first vertex at cursor");
    for p in points {
        let d = f64::from(p.x - 100).hypot(f64::from(p.y - 100));
        assert!((d - 40.0).abs() < 1.5, "vertex {p:?} off the radius: {d}");
    }
    let tri = regular_polygon(Point::new(0, 0), Point::new(10, 0), 1);
    let Shape::Poly { points } = tri else {
        panic!()
    };
    assert_eq!(points.len(), 3);
    assert_eq!(polygon_side_count(5000), 1000);
}

#[test]
fn poly_moves_resizes_and_rotates_like_any_shape() {
    let square = Shape::Poly {
        points: vec![
            Point::new(10, 10),
            Point::new(30, 10),
            Point::new(30, 30),
            Point::new(10, 30),
        ],
    };
    assert_eq!(square.bbox(), Rect::new(10, 10, 20, 20));
    let moved = square.translated(5, -5);
    assert_eq!(moved.bbox(), Rect::new(15, 5, 20, 20));
    let handle = square.resize_grab(Point::new(30, 20), 2).expect("edge");
    let grown = square.resize_to(handle, Point::new(50, 20), BOUNDS_RECT, false);
    assert_eq!(grown.bbox(), Rect::new(10, 10, 40, 20));
    let turned = with_rotation_baked(&square, 90);
    assert_eq!(turned.bbox(), square.bbox(), "square is 90-symmetric");
    assert!(matches!(turned, Shape::Poly { .. }));
}

#[test]
fn click_point_centers_each_kind() {
    assert_eq!(Shape::Rect(Rect::new(10, 20, 30, 40)).click_point(), Point::new(25, 40));
    assert_eq!(Shape::Circle { cx: 5, cy: 6, r: 7 }.click_point(), Point::new(5, 6));
    let tri = Shape::Triangle {
        ax: 30,
        ay: 0,
        bx: 0,
        by: 60,
        cx: 60,
        cy: 60,
    };
    assert_eq!(tri.click_point(), Point::new(30, 40));
    assert!(tri.hit_test(tri.click_point()));
    let rect = Shape::Rect(Rect::new(10, 10, 40, 10));
    assert!(hit_test_rotated(&rect, 90, rect.click_point()));
}

#[test]
fn rotated_resize_never_moves_the_anchored_edge() {
    let s = Shape::Rect(Rect::new(800, 500, 200, 100));
    let handle = ResizeHandle::RectEdges {
        left: false,
        right: true,
        top: false,
        bottom: false,
    };
    let Shape::Rect(r) = resize_to_rotated(&s, 45, handle, Point::new(1900, 1000), BOUNDS_RECT, false)
    else {
        panic!("still a rect")
    };
    assert_eq!(r.x, 800, "anchored left edge moved");
    assert_eq!(r.y, 500, "anchored top edge moved");
}

#[test]
fn rotated_resize_tracks_cursor_at_screen_edge() {
    let s = Shape::Rect(Rect::new(800, 500, 200, 100));
    let handle = ResizeHandle::RectEdges {
        left: false,
        right: true,
        top: false,
        bottom: false,
    };
    let r45 = resize_to_rotated(&s, 45, handle, Point::new(99_999, 99_999), BOUNDS_RECT, false);
    assert_ne!(r45, s);
}

#[test]
fn rotate_point_quarter_turn() {
    let center = Point::new(100, 100);
    assert_eq!(rotate_point_about(Point::new(110, 100), center, 90), Point::new(100, 110));
    assert_eq!(rotate_point_about(Point::new(110, 100), center, -90), Point::new(100, 90));
    assert_eq!(rotate_point_about(Point::new(110, 100), center, 360), Point::new(110, 100));
}

#[test]
fn rotated_hit_test_follows_the_turned_shape() {
    let s = Shape::Rect(Rect::new(100, 100, 200, 20));
    assert!(hit_test_rotated(&s, 90, Point::new(200, 30)));
    assert!(!hit_test_rotated(&s, 90, Point::new(290, 110)));
    assert!(hit_test_rotated(&s, 0, Point::new(290, 110)));
}

#[test]
fn rotated_resize_grab_finds_the_visual_edge() {
    let s = Shape::Rect(Rect::new(100, 100, 200, 20));
    assert!(resize_grab_rotated(&s, 90, Point::new(190, 110), 5).is_some());
    assert!(resize_grab_rotated(&s, 90, Point::new(150, 110), 5).is_none());
}

#[test]
fn baked_triangle_rotates_vertices_others_unchanged() {
    let tri = Shape::Triangle {
        ax: 200,
        ay: 100,
        bx: 100,
        by: 200,
        cx: 300,
        cy: 200,
    };
    let baked = with_rotation_baked(&tri, 180);
    assert_eq!(
        baked,
        Shape::Triangle {
            ax: 200,
            ay: 200,
            bx: 300,
            by: 100,
            cx: 100,
            cy: 100,
        }
    );
    let rect = Shape::Rect(Rect::new(1, 2, 3, 4));
    assert_eq!(with_rotation_baked(&rect, 90), rect);
    assert_eq!(max3(1, 2, 3), 3);
}

#[test]
fn a_proportional_vertical_edge_resize_keeps_the_aspect() {
    let rect = Shape::Rect(Rect::new(20, 20, 40, 20));
    let resized = resize_to_rotated(
        &rect,
        0,
        ResizeHandle::RectEdges {
            left: false,
            right: false,
            top: true,
            bottom: false,
        },
        Point::new(30, 0),
        Rect::new(0, 0, 300, 300),
        true,
    );
    let bb = resized.bbox();
    assert!(bb.w >= 2 && bb.h >= 2, "{bb:?}");
    assert!(bb.x >= 0 && bb.x + bb.w <= 300, "{bb:?}");
}

#[test]
fn extreme_shapes_do_not_panic() {
    let huge = Shape::Circle {
        cx: 0,
        cy: 0,
        r: 2_000_000_000,
    };
    let bb = huge.bbox();
    assert!(bb.w > 0);
    let far = Shape::Rect(Rect::new(2_000_000_000, 2_000_000_000, 400_000_000, 400_000_000));
    let _ = rotated_bbox(&far, 45);
}

#[test]
fn a_far_rect_click_point_lands_inside_at_any_rotation() {
    // A domain rect whose pivot lies past the coordinate bound.
    let rect = Shape::Rect(Rect::new(1_000_000, 1_000_000, 1_000_000, 1_000_000));
    let cp = rect.click_point();
    assert_eq!(cp, Point::new(1_500_000, 1_500_000));
    assert_eq!(cp, rect.pivot());
    for deg in [0, 1, 30, 45, 90, 135, 180, 270, 359, -45] {
        let back = rotate_point_about(cp, rect.pivot(), -deg);
        assert_eq!(back, cp);
        assert!(rect.hit_test_rotated(deg, cp, back), "deg {deg}");
    }
}

#[test]
fn hit_and_grab_tests_take_points_anywhere_in_i32() {
    let far = [
        Point::new(i32::MAX, i32::MAX),
        Point::new(i32::MIN, i32::MIN),
        Point::new(i32::MIN, i32::MAX),
    ];
    let shapes = [
        Shape::Rect(Rect::new(0, 0, 10, 10)),
        Shape::Circle { cx: 5, cy: 5, r: 3 },
        Shape::Ellipse { cx: 5, cy: 5, rx: 4, ry: 2 },
        Shape::Triangle { ax: 0, ay: 0, bx: 10, by: 0, cx: 0, cy: 10 },
        Shape::Poly { points: vec![Point::new(0, 0), Point::new(10, 0), Point::new(10, 10), Point::new(0, 10)] },
    ];
    for shape in &shapes {
        for p in far {
            assert!(!shape.hit_test(p), "{shape:?} at {p:?}");
            assert_eq!(shape.resize_grab(p, 3), None, "{shape:?} at {p:?}");
            if !matches!(shape, Shape::Circle { .. }) {
                assert!(!shape.hit_test_rotated(30, Point::new(5, 5), p), "{shape:?} turned back to {p:?}");
                assert_eq!(shape.resize_grab_rotated(30, Point::new(5, 5), p, 3), None);
            }
        }
    }
}
