use pixelcoords_core::geometry::Point;
use pixelcoords_core::snap::{EdgeMap, Snap, MIN_GRADIENT};

/// A grayscale frame, luma in `0.0..=1.0`, row-major.
#[derive(Clone)]
struct Gray {
    w: usize,
    h: usize,
    px: Vec<f32>,
}

fn quantize(gradient: f32) -> u8 {
    let normalized = (gradient.abs() / 16.0).clamp(0.0, 1.0);
    (normalized * 255.0).round() as u8
}

/// The frame's edge map: forward differences weighted 3:10:3 across the
/// neighbouring lines, the border ring left at zero.
fn edge_map(gray: &Gray) -> EdgeMap {
    let (w, h) = (gray.w, gray.h);
    let mut gx = vec![0u8; w * h];
    let mut gy = vec![0u8; w * h];
    for y in 1..h.saturating_sub(1) {
        for x in 1..w.saturating_sub(1) {
            let at = |dx: usize, dy: usize| gray.px[(y + dy - 1) * w + (x + dx - 1)];
            let (tl, tc, tr) = (at(0, 0), at(1, 0), at(2, 0));
            let (ml, mc, mr) = (at(0, 1), at(1, 1), at(2, 1));
            let (bl, bc) = (at(0, 2), at(1, 2));
            let hx = 3.0f32.mul_add(tc - tl, 10.0f32.mul_add(mc - ml, 3.0 * (bc - bl)));
            let hy = 3.0f32.mul_add(ml - tl, 10.0f32.mul_add(mc - tc, 3.0 * (mr - tr)));
            gx[y * w + x] = quantize(hx);
            gy[y * w + x] = quantize(hy);
        }
    }
    EdgeMap::from_gradients(w, h, gx, gy)
}

fn button(w: usize, h: usize, x0: usize, y0: usize, x1: usize, y1: usize) -> Gray {
    let mut px = vec![0.1f32; w * h];
    for y in y0..y1 {
        for x in x0..x1 {
            px[y * w + x] = 0.9;
        }
    }
    Gray { w, h, px }
}

fn scaled(gray: &Gray, factor: usize) -> Gray {
    let (w, h) = (gray.w * factor, gray.h * factor);
    let mut px = vec![0.0f32; w * h];
    for y in 0..h {
        for x in 0..w {
            px[y * w + x] = gray.px[(y / factor) * gray.w + (x / factor)];
        }
    }
    Gray { w, h, px }
}

#[test]
fn a_corner_snaps_on_both_axes_from_any_approach() {
    let map = edge_map(&button(80, 60, 20, 15, 60, 45));
    for (dx, dy) in [(-4, -4), (4, 4), (-4, 4), (4, -4), (0, 3), (3, 0)] {
        let snap = map.snap(Point::new(20 + dx, 15 + dy), 6);
        assert_eq!(snap.apply(Point::new(20 + dx, 15 + dy)), Point::new(20, 15), "approach ({dx}, {dy})");
    }
}

#[test]
fn every_edge_of_the_button_is_found_on_its_own_axis() {
    let map = edge_map(&button(80, 60, 20, 15, 60, 45));
    for x in [20, 60] {
        let snap = map.snap(Point::new(x + 3, 30), 6);
        assert_eq!(snap.x.map(|hit| hit.at), Some(x), "vertical at {x}");
        assert_eq!(snap.y, None, "no horizontal edge at mid-height");
    }
    for y in [15, 45] {
        let snap = map.snap(Point::new(40, y + 3), 6);
        assert_eq!(snap.y.map(|hit| hit.at), Some(y), "horizontal at {y}");
        assert_eq!(snap.x, None, "no vertical edge at mid-width");
    }
}

#[test]
fn nothing_outside_the_radius_captures_the_point() {
    let map = edge_map(&button(80, 60, 20, 15, 60, 45));
    let far = Point::new(35, 30);
    assert_eq!(map.snap(far, 6), Snap::default());
    assert_eq!(map.snap(far, 6).apply(far), far);
}

#[test]
fn a_low_contrast_edge_below_threshold_does_not_capture() {
    let mut gray = Gray { w: 80, h: 60, px: vec![0.50f32; 80 * 60] };
    for y in 0..60 {
        for x in 30..80 {
            gray.px[y * 80 + x] = 0.51;
        }
    }
    let map = edge_map(&gray);
    assert_eq!(map.snap(Point::new(28, 30), 6).x, None);
}

#[test]
fn snapping_survives_a_scale_change_landing_on_the_scaled_edge() {
    let base = button(40, 30, 10, 8, 30, 22);
    let map = edge_map(&scaled(&base, 2));
    let snap = map.snap(Point::new(24, 30), 6);
    assert_eq!(snap.x.map(|hit| hit.at), Some(20));
}

#[test]
fn a_flipped_image_flips_where_the_snap_lands() {
    let gray = button(80, 60, 15, 15, 45, 45);
    let mut flipped = gray.clone();
    for y in 0..60 {
        for x in 0..80 {
            flipped.px[y * 80 + x] = gray.px[y * 80 + (79 - x)];
        }
    }
    let map = edge_map(&gray);
    let mirror = edge_map(&flipped);
    let hit = map.snap(Point::new(18, 30), 6).x.expect("left edge");
    assert_eq!(hit.at, 15);
    let mirrored = mirror.snap(Point::new(80 - 18, 30), 6).x.expect("mirrored");
    assert_eq!(mirrored.at, 80 - hit.at);
}

#[test]
fn the_reported_span_covers_the_edge_and_stops_at_its_ends() {
    let map = edge_map(&button(80, 60, 20, 15, 60, 45));
    let hit = map.snap(Point::new(22, 30), 6).x.expect("left edge");
    let (lo, hi) = hit.span;
    assert!(lo <= 30 && hi >= 30, "span contains the query row");
    assert!(lo >= 12 && hi <= 47, "span {lo}..{hi} escaped the button");
}

#[test]
fn a_flat_frame_offers_nothing_and_keeps_the_floor_threshold() {
    let map = edge_map(&Gray { w: 40, h: 40, px: vec![0.4f32; 40 * 40] });
    assert_eq!(map.threshold(), MIN_GRADIENT);
    assert_eq!(map.snap(Point::new(20, 20), 8), Snap::default());
}

#[test]
fn a_nonpositive_radius_disables_snapping() {
    let map = edge_map(&button(80, 60, 20, 15, 60, 45));
    let on_the_edge = Point::new(21, 30);
    assert_eq!(map.snap(on_the_edge, 0), Snap::default());
    assert_eq!(map.snap(on_the_edge, -5), Snap::default());
    assert_eq!(map.snap_x(on_the_edge, 0), None);
    assert_eq!(map.snap_y(on_the_edge, -1), None);
}

#[test]
fn the_per_axis_searches_agree_with_the_combined_one() {
    let map = edge_map(&button(80, 60, 20, 15, 60, 45));
    let p = Point::new(23, 18);
    let both = map.snap(p, 6);
    assert_eq!(map.snap_x(p, 6), both.x);
    assert_eq!(map.snap_y(p, 6), both.y);
}

#[test]
fn a_point_outside_the_frame_answers_without_panicking() {
    let map = edge_map(&button(80, 60, 20, 15, 60, 45));
    for p in [Point::new(-100, -100), Point::new(1000, 1000), Point::new(-1, 30), Point::new(79, 59)] {
        let _ = map.snap(p, 8);
    }
}

#[test]
fn a_one_pixel_frame_builds_an_empty_map() {
    let map = edge_map(&Gray { w: 1, h: 1, px: vec![0.5] });
    assert_eq!(map.snap(Point::new(0, 0), 4), Snap::default());
}

#[test]
fn equidistant_edges_break_toward_the_stronger_one() {
    let mut gray = Gray { w: 60, h: 40, px: vec![0.5f32; 60 * 40] };
    for y in 0..40 {
        for x in 0..25 {
            gray.px[y * 60 + x] = 0.0;
        }
        for x in 35..60 {
            gray.px[y * 60 + x] = 0.6;
        }
    }
    let map = edge_map(&gray);
    let hit = map.snap(Point::new(30, 20), 6).x.expect("an edge");
    assert_eq!(hit.at, 25);
}

#[test]
fn the_nearer_of_two_equal_edges_wins() {
    let mut gray = Gray { w: 60, h: 40, px: vec![0.5f32; 60 * 40] };
    for y in 0..40 {
        for x in 20..30 {
            gray.px[y * 60 + x] = 0.0;
        }
    }
    let map = edge_map(&gray);
    let hit = map.snap(Point::new(26, 20), 6).x.expect("an edge");
    assert_eq!(hit.at, 30);
    let other = map.snap(Point::new(24, 20), 6).x.expect("an edge");
    assert_eq!(other.at, 20);
}

#[test]
fn a_snap_from_anywhere_stays_within_its_radius() {
    let map = edge_map(&button(80, 60, 20, 15, 60, 45));
    let far = [
        Point::new(i32::MAX - 200, i32::MIN + 200),
        Point::new(-3_000_000, 30),
        Point::new(40, 5_000_000),
    ];
    for p in far {
        assert_eq!(map.snap(p, 6), Snap::default(), "{p:?}");
    }
    // A radius past the frame reaches the nearest edge, and no further.
    for p in [Point::new(35, 30), Point::new(-500, 30), Point::new(40, 900)] {
        let radius = 200;
        let q = map.snap(p, radius).apply(p);
        assert!((i64::from(q.x) - i64::from(p.x)).abs() <= i64::from(radius), "{p:?}");
        assert!((i64::from(q.y) - i64::from(p.y)).abs() <= i64::from(radius), "{p:?}");
    }
    let q = map.snap(Point::new(35, 30), 200).apply(Point::new(35, 30));
    assert_eq!(q.x, 20, "the nearest vertical edge is the left one");
}

#[test]
fn a_mirrored_frame_snaps_equally_far_from_every_point() {
    let (w, h) = (40usize, 30usize);
    // A button whose two edges can tie: equally far from a centred query.
    for (x0, x1) in [(2usize, 38usize), (10, 30), (5, 21)] {
        let gray = button(w, h, x0, 6, x1, 24);
        let mut flipped = gray.clone();
        for y in 0..h {
            for x in 0..w {
                flipped.px[y * w + x] = gray.px[y * w + (w - 1 - x)];
            }
        }
        let map = edge_map(&gray);
        let mirror = edge_map(&flipped);
        let width = w as i32;
        for radius in [2, 5, 9] {
            for y in 1..h as i32 - 1 {
                for x in 1..width - 1 {
                    let direct = map.snap_x(Point::new(x, y), radius);
                    let reflected = mirror.snap_x(Point::new(width - x, y), radius);
                    assert_eq!(direct.is_some(), reflected.is_some(), "({x}, {y}) r {radius}");
                    assert_eq!(
                        direct.map(|hit| (hit.at - x).abs()),
                        reflected.map(|hit| (hit.at - (width - x)).abs()),
                        "({x}, {y}) r {radius}"
                    );
                }
            }
        }
    }
}
