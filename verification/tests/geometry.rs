use pixelcoords_core::geometry::{
    max3, min3, normalize_deg, Line, Point, Rect, ResizeHandle, Shape, Size, ToolKind,
};

const BOUNDS: Size = Size { w: 1920, h: 1080 };
const BOUNDS_RECT: Rect = Rect { x: 0, y: 0, w: 1920, h: 1080 };

#[test]
fn grabbing_prefers_an_endpoint_then_the_segment() {
    let line = Line::new(Point::new(0, 0), Point::new(100, 0));
    assert_eq!(line.endpoint_grab(Point::new(2, 2), 6), Some(true), "a");
    assert_eq!(line.endpoint_grab(Point::new(98, 1), 6), Some(false), "b");
    assert_eq!(line.endpoint_grab(Point::new(50, 0), 6), None, "middle");
    assert!(line.hit_test(Point::new(50, 3), 6), "still on the line");
    assert!(!line.hit_test(Point::new(50, 40), 6));
}

#[test]
fn constraining_a_zero_length_measure_leaves_it_alone() {
    let dot = Line::new(Point::new(9, 9), Point::new(9, 9));
    assert_eq!(dot.constrained(), dot);
}

#[test]
fn rect_preview_normalizes_inverted_drag() {
    let s = Shape::compute_preview(
        ToolKind::Rect,
        Point::new(100, 200),
        Point::new(40, 50),
        BOUNDS_RECT,
        false,
    );
    assert_eq!(s, Some(Shape::Rect(Rect::new(40, 50, 60, 150))));
}

#[test]
fn rect_preview_clamps_cursor_to_bounds() {
    let s = Shape::compute_preview(
        ToolKind::Rect,
        Point::new(1900, 1000),
        Point::new(5000, 5000),
        BOUNDS_RECT,
        false,
    );
    assert_eq!(s, Some(Shape::Rect(Rect::new(1900, 1000, 19, 79))));
}

#[test]
fn rect_preview_degenerate_is_none() {
    assert_eq!(
        Shape::compute_preview(
            ToolKind::Rect,
            Point::new(10, 10),
            Point::new(10, 300),
            BOUNDS_RECT,
            false
        ),
        None
    );
    assert_eq!(
        Shape::compute_preview(
            ToolKind::Rect,
            Point::new(10, 10),
            Point::new(10, 10),
            BOUNDS_RECT,
            false
        ),
        None
    );
}

#[test]
fn circle_preview_radius_is_distance() {
    let s = Shape::compute_preview(
        ToolKind::Circle,
        Point::new(100, 100),
        Point::new(103, 104),
        BOUNDS_RECT,
        false,
    );
    assert_eq!(s, Some(Shape::Circle { cx: 100, cy: 100, r: 5 }));
}

#[test]
fn circle_preview_zero_radius_is_none() {
    assert_eq!(
        Shape::compute_preview(
            ToolKind::Circle,
            Point::new(7, 7),
            Point::new(7, 7),
            BOUNDS_RECT,
            false
        ),
        None
    );
}

#[test]
fn rect_hit_test_edges() {
    let s = Shape::Rect(Rect::new(10, 10, 20, 20));
    assert!(s.hit_test(Point::new(10, 10)));
    assert!(s.hit_test(Point::new(29, 29)));
    assert!(!s.hit_test(Point::new(30, 30)));
    assert!(!s.hit_test(Point::new(9, 10)));
}

#[test]
fn circle_hit_test_boundary_inclusive() {
    let s = Shape::Circle { cx: 0, cy: 0, r: 10 };
    assert!(s.hit_test(Point::new(10, 0)));
    assert!(s.hit_test(Point::new(6, 8)));
    assert!(!s.hit_test(Point::new(8, 8)));
}

#[test]
fn circle_hit_test_survives_extreme_coords() {
    let s = Shape::Circle { cx: 0, cy: 0, r: 5 };
    assert!(!s.hit_test(Point::new(i32::MAX, i32::MAX)));
}

#[test]
fn bbox_of_circle() {
    let s = Shape::Circle { cx: 50, cy: 60, r: 10 };
    assert_eq!(s.bbox(), Rect::new(40, 50, 20, 20));
}

#[test]
fn rect_clamp_move_never_escapes_bounds() {
    let s = Shape::Rect(Rect::new(0, 0, 300, 200));
    let grab = Point::new(0, 0);
    for cx in [-500, 0, 960, 5000] {
        for cy in [-500, 0, 540, 5000] {
            let Shape::Rect(r) = s.clamp_move(grab, Point::new(cx, cy), BOUNDS_RECT) else {
                panic!("rect stayed rect");
            };
            assert!(r.x >= 0 && r.y >= 0, "({cx},{cy}) gave {r:?}");
            assert!(
                r.x + r.w <= BOUNDS.w && r.y + r.h <= BOUNDS.h,
                "({cx},{cy}) gave {r:?}"
            );
        }
    }
}

#[test]
fn circle_clamp_move_never_escapes_bounds() {
    let s = Shape::Circle { cx: 500, cy: 500, r: 40 };
    let grab = Point::new(0, 0);
    for cx in [-500, 0, 960, 5000] {
        for cy in [-500, 0, 540, 5000] {
            let Shape::Circle { cx: ncx, cy: ncy, r } =
                s.clamp_move(grab, Point::new(cx, cy), BOUNDS_RECT)
            else {
                panic!("circle stayed circle");
            };
            assert!(ncx - r >= 0 && ncy - r >= 0, "({cx},{cy}) gave center ({ncx},{ncy})");
            assert!(
                ncx + r <= BOUNDS.w && ncy + r <= BOUNDS.h,
                "({cx},{cy}) gave center ({ncx},{ncy})"
            );
        }
    }
}

#[test]
fn oversized_circle_clamp_is_stable() {
    let s = Shape::Circle { cx: 100, cy: 100, r: 2000 };
    let moved = s.clamp_move(Point::new(0, 0), Point::new(0, 0), BOUNDS_RECT);
    assert_eq!(moved, Shape::Circle { cx: 2000, cy: 2000, r: 2000 });
}

#[test]
fn translated_shifts_both_kinds() {
    assert_eq!(
        Shape::Rect(Rect::new(1, 2, 3, 4)).translated(10, 20),
        Shape::Rect(Rect::new(11, 22, 3, 4))
    );
    assert_eq!(
        Shape::Circle { cx: 1, cy: 2, r: 3 }.translated(10, 20),
        Shape::Circle { cx: 11, cy: 22, r: 3 }
    );
}

#[test]
fn circle_rim_grab_within_tolerance_only() {
    let s = Shape::Circle { cx: 100, cy: 100, r: 50 };
    assert_eq!(s.resize_grab(Point::new(153, 100), 5), Some(ResizeHandle::CircleRadius));
    assert_eq!(s.resize_grab(Point::new(147, 100), 5), Some(ResizeHandle::CircleRadius));
    assert_eq!(s.resize_grab(Point::new(100, 100), 5), None);
    assert_eq!(s.resize_grab(Point::new(160, 100), 5), None);
}

#[test]
fn rect_edge_and_corner_grabs() {
    let s = Shape::Rect(Rect::new(100, 100, 200, 100));
    assert_eq!(
        s.resize_grab(Point::new(100, 150), 5),
        Some(ResizeHandle::RectEdges { left: true, right: false, top: false, bottom: false })
    );
    assert_eq!(
        s.resize_grab(Point::new(302, 150), 5),
        Some(ResizeHandle::RectEdges { left: false, right: true, top: false, bottom: false })
    );
    assert_eq!(
        s.resize_grab(Point::new(298, 202), 5),
        Some(ResizeHandle::RectEdges { left: false, right: true, top: false, bottom: true })
    );
    assert_eq!(s.resize_grab(Point::new(200, 150), 5), None);
    assert_eq!(s.resize_grab(Point::new(90, 150), 5), None);
}

#[test]
fn tiny_rect_grabs_nearer_edge_not_both() {
    let s = Shape::Rect(Rect::new(100, 100, 6, 6));
    let Some(ResizeHandle::RectEdges { left, right, .. }) = s.resize_grab(Point::new(101, 103), 5)
    else {
        panic!("expected an edge grab");
    };
    assert!(left && !right);
}

#[test]
fn circle_resize_follows_cursor_distance() {
    let s = Shape::Circle { cx: 100, cy: 100, r: 50 };
    let resized = s.resize_to(ResizeHandle::CircleRadius, Point::new(100, 180), BOUNDS_RECT, false);
    assert_eq!(resized, Shape::Circle { cx: 100, cy: 100, r: 80 });
    let tiny = s.resize_to(ResizeHandle::CircleRadius, Point::new(100, 100), BOUNDS_RECT, false);
    assert_eq!(tiny, Shape::Circle { cx: 100, cy: 100, r: 2 });
}

#[test]
fn rect_corner_resize_anchors_opposite_corner() {
    let s = Shape::Rect(Rect::new(100, 100, 200, 100));
    let handle = ResizeHandle::RectEdges { left: false, right: true, top: false, bottom: true };
    let resized = s.resize_to(handle, Point::new(400, 300), BOUNDS_RECT, false);
    assert_eq!(resized, Shape::Rect(Rect::new(100, 100, 300, 200)));
}

#[test]
fn rect_edge_resize_moves_one_axis_only() {
    let s = Shape::Rect(Rect::new(100, 100, 200, 100));
    let handle = ResizeHandle::RectEdges { left: true, right: false, top: false, bottom: false };
    let resized = s.resize_to(handle, Point::new(50, 999), BOUNDS_RECT, false);
    assert_eq!(resized, Shape::Rect(Rect::new(50, 100, 250, 100)));
}

#[test]
fn rect_resize_cannot_invert_or_vanish() {
    let s = Shape::Rect(Rect::new(100, 100, 200, 100));
    let handle = ResizeHandle::RectEdges { left: true, right: false, top: false, bottom: false };
    let resized = s.resize_to(handle, Point::new(500, 150), BOUNDS_RECT, false);
    assert_eq!(resized, Shape::Rect(Rect::new(298, 100, 2, 100)));
}

#[test]
fn resize_cursor_is_clamped_to_bounds() {
    let s = Shape::Rect(Rect::new(100, 100, 200, 100));
    let handle = ResizeHandle::RectEdges { left: false, right: true, top: false, bottom: false };
    let resized = s.resize_to(handle, Point::new(99_999, 150), BOUNDS_RECT, false);
    assert_eq!(resized, Shape::Rect(Rect::new(100, 100, BOUNDS.w - 1 - 100, 100)));
}

#[test]
fn locked_corner_resize_keeps_ratio_dominant_axis_wins() {
    let s = Shape::Rect(Rect::new(100, 100, 200, 100));
    let corner = ResizeHandle::RectEdges { left: false, right: true, top: false, bottom: true };
    let resized = s.resize_to(corner, Point::new(400, 300), BOUNDS_RECT, true);
    assert_eq!(resized, Shape::Rect(Rect::new(100, 100, 400, 200)));
}

#[test]
fn locked_corner_resize_anchors_the_opposite_corner() {
    let s = Shape::Rect(Rect::new(100, 100, 200, 100));
    let corner = ResizeHandle::RectEdges { left: true, right: false, top: true, bottom: false };
    let resized = s.resize_to(corner, Point::new(0, 80), BOUNDS_RECT, true);
    let Shape::Rect(r) = resized else { panic!("still a rect") };
    assert_eq!((r.x + r.w, r.y + r.h), (300, 200), "anchor moved");
    assert_eq!(r.w * 100, r.h * 200, "ratio drifted: {r:?}");
}

#[test]
fn locked_corner_resize_caps_scale_at_bounds() {
    let s = Shape::Rect(Rect::new(100, 100, 200, 100));
    let corner = ResizeHandle::RectEdges { left: false, right: true, top: false, bottom: true };
    let resized = s.resize_to(
        corner,
        Point::new(BOUNDS_RECT.w - 1, BOUNDS_RECT.h - 1),
        BOUNDS_RECT,
        true,
    );
    let Shape::Rect(r) = resized else { panic!("still a rect") };
    assert!(r.x + r.w <= BOUNDS.w && r.y + r.h <= BOUNDS.h, "escaped: {r:?}");
    assert_eq!(r.w, BOUNDS.w - 100);
    assert_eq!(r.w, 2 * r.h);
}

#[test]
fn locked_edge_resize_scales_other_axis_centered() {
    let s = Shape::Rect(Rect::new(100, 100, 200, 100));
    let edge = ResizeHandle::RectEdges { left: false, right: true, top: false, bottom: false };
    let resized = s.resize_to(edge, Point::new(500, 150), BOUNDS_RECT, true);
    assert_eq!(resized, Shape::Rect(Rect::new(100, 50, 400, 200)));
}

#[test]
fn locked_edge_resize_clamps_centered_axis_to_bounds() {
    let s = Shape::Rect(Rect::new(100, 10, 200, 100));
    let edge = ResizeHandle::RectEdges { left: false, right: true, top: false, bottom: false };
    let resized = s.resize_to(edge, Point::new(500, 60), BOUNDS_RECT, true);
    let Shape::Rect(r) = resized else { panic!("still a rect") };
    assert_eq!((r.w, r.h), (400, 200));
    assert_eq!(r.y, 0, "clamped to the top edge");
}

#[test]
fn locked_circle_resize_is_unchanged_by_lock() {
    let s = Shape::Circle { cx: 100, cy: 100, r: 50 };
    let unlocked =
        s.resize_to(ResizeHandle::CircleRadius, Point::new(100, 180), BOUNDS_RECT, false);
    let locked = s.resize_to(ResizeHandle::CircleRadius, Point::new(100, 180), BOUNDS_RECT, true);
    assert_eq!(unlocked, locked);
}

#[test]
fn mismatched_handle_is_inert() {
    let s = Shape::Circle { cx: 5, cy: 5, r: 5 };
    let handle = ResizeHandle::RectEdges { left: true, right: false, top: false, bottom: false };
    assert_eq!(s.resize_to(handle, Point::new(50, 50), BOUNDS_RECT, false), s);
}

#[test]
fn ellipse_preview_inscribes_the_drag_box_and_shift_locks_a_circle() {
    let free = Shape::compute_preview(
        ToolKind::Ellipse,
        Point::new(10, 10),
        Point::new(50, 30),
        BOUNDS_RECT,
        false,
    );
    assert_eq!(free, Some(Shape::Ellipse { cx: 30, cy: 20, rx: 20, ry: 10 }));
    let locked = Shape::compute_preview(
        ToolKind::Ellipse,
        Point::new(10, 10),
        Point::new(50, 30),
        BOUNDS_RECT,
        true,
    );
    assert_eq!(
        locked,
        Some(Shape::Ellipse { cx: 30, cy: 20, rx: 10, ry: 10 }),
        "Shift inscribes the circle instead"
    );
}

#[test]
fn ellipse_hit_test_is_boundary_inclusive_and_excludes_bbox_corners() {
    let e = Shape::Ellipse { cx: 50, cy: 40, rx: 30, ry: 10 };
    assert!(e.hit_test(Point::new(50, 40)));
    assert!(e.hit_test(Point::new(80, 40)), "rx vertex inclusive");
    assert!(e.hit_test(Point::new(50, 30)), "ry vertex inclusive");
    assert!(!e.hit_test(Point::new(80, 30)), "bbox corner outside");
    assert!(!e.hit_test(Point::new(81, 40)));
    assert_eq!(e.bbox(), Rect::new(20, 30, 60, 20));
}

#[test]
fn ellipse_resize_rides_its_bounding_box() {
    let e = Shape::Ellipse { cx: 50, cy: 40, rx: 20, ry: 10 };
    let handle = e.resize_grab(Point::new(70, 40), 2).expect("edge grab");
    let resized = e.resize_to(handle, Point::new(90, 40), BOUNDS_RECT, false);
    assert_eq!(
        resized,
        Shape::Ellipse { cx: 60, cy: 40, rx: 30, ry: 10 },
        "left edge anchored, rx grew"
    );
}

#[test]
fn point_in_poly_handles_concave_shapes_edges_included() {
    let u = vec![
        Point::new(0, 0),
        Point::new(10, 0),
        Point::new(10, 30),
        Point::new(20, 30),
        Point::new(20, 0),
        Point::new(30, 0),
        Point::new(30, 40),
        Point::new(0, 40),
    ];
    let shape = Shape::Poly { points: u };
    assert!(shape.hit_test(Point::new(5, 20)), "left arm");
    assert!(shape.hit_test(Point::new(25, 20)), "right arm");
    assert!(shape.hit_test(Point::new(15, 35)), "base");
    assert!(!shape.hit_test(Point::new(15, 10)), "the notch is outside");
    assert!(shape.hit_test(Point::new(0, 0)), "vertex inclusive");
    assert!(shape.hit_test(Point::new(5, 0)), "edge inclusive");
    assert!(!shape.hit_test(Point::new(-1, 20)));
    assert!(shape.hit_test(shape.click_point()));
}

#[test]
fn clamp_point_lands_inside_and_leaves_interior_points_alone() {
    let r = Rect::new(10, 20, 30, 40);
    let inside = Point::new(15, 25);
    assert_eq!(r.clamp_point(inside), inside);
    assert_eq!(r.clamp_point(Point::new(100, 100)), Point::new(39, 59));
    assert_eq!(r.clamp_point(Point::new(-5, -5)), Point::new(10, 20));
    for p in [Point::new(100, 100), Point::new(-5, -5), Point::new(15, 900)] {
        assert!(r.contains(r.clamp_point(p)));
    }
}

#[test]
fn clamp_point_on_a_zero_sized_rect_gives_the_origin_corner() {
    let r = Rect::new(7, 9, 0, 0);
    assert_eq!(r.clamp_point(Point::new(100, 100)), Point::new(7, 9));
}

#[test]
fn line_bbox_spans_both_endpoints_in_any_direction() {
    let down = Line::new(Point::new(10, 20), Point::new(40, 60));
    let up = Line::new(Point::new(40, 60), Point::new(10, 20));
    assert_eq!(down.bbox(), Rect::new(10, 20, 30, 40));
    assert_eq!(up.bbox(), down.bbox());
    let dot = Line::new(Point::new(5, 5), Point::new(5, 5));
    assert_eq!(dot.bbox(), Rect::new(5, 5, 0, 0));
}

#[test]
fn tool_kind_cycles_through_the_drawing_tools() {
    assert_eq!(ToolKind::Rect.next(), ToolKind::Ellipse);
    assert_eq!(ToolKind::Ellipse.next(), ToolKind::Triangle);
    assert_eq!(ToolKind::Triangle.next(), ToolKind::Polygon);
    assert_eq!(ToolKind::Polygon.next(), ToolKind::Freehand);
    assert_eq!(ToolKind::Freehand.next(), ToolKind::Measure);
    assert_eq!(ToolKind::Measure.next(), ToolKind::Rect);
    assert_eq!(ToolKind::Circle.next(), ToolKind::Triangle);
    assert_eq!(ToolKind::Poly.next(), ToolKind::Rect);
}

#[test]
fn triangle_preview_is_apex_top_center_in_drag_box() {
    let s = Shape::compute_preview(
        ToolKind::Triangle,
        Point::new(100, 100),
        Point::new(300, 200),
        BOUNDS_RECT,
        false,
    );
    assert_eq!(
        s,
        Some(Shape::Triangle { ax: 200, ay: 100, bx: 100, by: 200, cx: 300, cy: 200 })
    );
}

fn sample_triangle() -> Shape {
    Shape::Triangle { ax: 200, ay: 100, bx: 100, by: 200, cx: 300, cy: 200 }
}

#[test]
fn triangle_hit_test_excludes_bbox_corners() {
    let tri = sample_triangle();
    assert!(tri.hit_test(Point::new(200, 150)));
    assert!(tri.hit_test(Point::new(200, 100)));
    assert!(tri.hit_test(Point::new(150, 200)));
    assert!(!tri.hit_test(Point::new(105, 105)));
    assert!(!tri.hit_test(Point::new(295, 105)));
}

#[test]
fn triangle_bbox_and_move_clamp() {
    let tri = sample_triangle();
    assert_eq!(tri.bbox(), Rect::new(100, 100, 200, 100));
    let moved = tri.clamp_move(Point::new(0, 0), Point::new(-500, -500), BOUNDS_RECT);
    assert_eq!(moved.bbox(), Rect::new(0, 0, 200, 100));
    assert_eq!(
        moved,
        Shape::Triangle { ax: 100, ay: 0, bx: 0, by: 100, cx: 200, cy: 100 }
    );
}

#[test]
fn triangle_resize_scales_vertices_into_new_bbox() {
    let tri = sample_triangle();
    let handle = ResizeHandle::RectEdges { left: false, right: true, top: false, bottom: true };
    let resized = tri.resize_to(handle, Point::new(500, 300), BOUNDS_RECT, false);
    assert_eq!(
        resized,
        Shape::Triangle { ax: 300, ay: 100, bx: 100, by: 300, cx: 500, cy: 300 }
    );
}

#[test]
fn triangle_resize_grab_is_on_the_bbox_border() {
    let tri = sample_triangle();
    assert_eq!(
        tri.resize_grab(Point::new(150, 100), 5),
        Some(ResizeHandle::RectEdges { left: false, right: false, top: true, bottom: false })
    );
    assert_eq!(tri.resize_grab(Point::new(200, 150), 5), None);
}

#[test]
fn degenerate_triangles_cover_nothing() {
    let point = Shape::Triangle { ax: 0, ay: 0, bx: 0, by: 0, cx: 0, cy: 0 };
    assert!(!point.hit_test(Point::new(500, 500)));
    assert!(!point.hit_test(Point::new(0, 0)));
    let line = Shape::Triangle { ax: 0, ay: 0, bx: 10, by: 10, cx: 20, cy: 20 };
    assert!(!line.hit_test(Point::new(400, 400)));
    assert!(!line.hit_test(Point::new(5, 5)));
}

#[test]
fn resize_of_sub_min_rect_stays_in_bounds() {
    let s = Shape::Rect(Rect::new(0, 0, 1, 100));
    let handle = ResizeHandle::RectEdges { left: true, right: false, top: false, bottom: false };
    let Shape::Rect(r) = s.resize_to(handle, Point::new(0, 50), BOUNDS_RECT, false) else {
        panic!("still a rect")
    };
    assert!(r.x >= 0, "escaped left: {r:?}");
    let s = Shape::Rect(Rect::new(BOUNDS.w - 1, 0, 1, 100));
    let handle = ResizeHandle::RectEdges { left: false, right: true, top: false, bottom: false };
    let Shape::Rect(r) = s.resize_to(handle, Point::new(BOUNDS_RECT.w - 1, 50), BOUNDS_RECT, false)
    else {
        panic!("still a rect")
    };
    assert!(r.x + r.w <= BOUNDS.w, "escaped right: {r:?}");
}

#[test]
fn resize_of_offscreen_local_box_does_not_teleport() {
    let s = Shape::Rect(Rect::new(-90, 0, 200, 20));
    let handle = ResizeHandle::RectEdges { left: false, right: true, top: false, bottom: false };
    let Shape::Rect(r) = s.resize_to(handle, Point::new(120, 10), BOUNDS_RECT, false) else {
        panic!("still a rect")
    };
    assert_eq!(r.x, -90, "shape teleported");
    assert_eq!(r.w, 210);
}

#[test]
fn normalize_deg_wraps_into_range() {
    assert_eq!(normalize_deg(0), 0);
    assert_eq!(normalize_deg(-1), 359);
    assert_eq!(normalize_deg(360), 0);
    assert_eq!(normalize_deg(725), 5);
}

#[test]
fn a_triangle_grabs_from_its_bbox_origin() {
    let tri = Shape::Triangle { ax: 50, ay: 10, bx: 20, by: 70, cx: 80, cy: 70 };
    assert_eq!(tri.grab_origin(), Point::new(20, 10));
}

#[test]
fn min3_and_max3_pick_each_position() {
    assert_eq!(min3(1, 2, 3), 1);
    assert_eq!(min3(2, 1, 3), 1);
    assert_eq!(min3(3, 2, 1), 1);
    assert_eq!(max3(3, 2, 1), 3);
    assert_eq!(max3(1, 3, 2), 3);
    assert_eq!(max3(1, 2, 3), 3);
}

#[test]
fn a_locked_corner_resize_rounds_an_exact_half_up() {
    let rect = Shape::Rect(Rect::new(0, 0, 6, 15));
    let corner = ResizeHandle::RectEdges { left: false, right: true, top: false, bottom: true };
    // Width 49 scales the height by 49/6: exactly 122.5, rounded to 123.
    let resized = rect.resize_to_local(corner, Point::new(49, 100), BOUNDS_RECT, true);
    assert_eq!(resized, Shape::Rect(Rect::new(0, 0, 49, 123)));
}
