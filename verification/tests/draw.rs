use pixelcoords_core::draw::{
    apply_alpha_mask_outside, apply_cutout_mask, apply_inverse_cutout_mask, coord_text,
    coverage_window, mark_covered, mark_covered_rotated, smart_text_position, Canvas, Color,
    Glyph,
};
use pixelcoords_core::geometry::{Point, Rect, Shape, Size};

const W: i32 = 100;
const H: i32 = 60;
const RED: Color = Color { r: 255, g: 0, b: 0 };

/// The caption font's glyph advance and line height at scale 1 and 2
/// (a 12 px monospace face: 0.6 em advance, 1.32 em line).
const ADVANCE_1: i32 = 7;
const LINE_1: i32 = 16;
const LINE_2: i32 = 32;

fn text_width(len: i32) -> i32 {
    len * ADVANCE_1
}

fn canvas() -> Canvas {
    Canvas::new(vec![0u32; (W * H) as usize], W, H)
}

fn px(buf: &[u32], x: i32, y: i32) -> u32 {
    buf[(y * W + x) as usize]
}

/// Coverage of the unrotated `shapes` over a `w` by `h` frame.
fn coverage(w: i32, h: i32, shapes: &[Shape]) -> Vec<bool> {
    let mut covered = vec![false; (w * h) as usize];
    for s in shapes {
        mark_covered(&mut covered, w, h, s);
    }
    covered
}

#[test]
fn rect_outline_sets_border_not_interior() {
    let mut c = canvas();
    c.draw_rect_outline(Rect::new(10, 10, 20, 20), RED, 2);
    let buf = c.into_pixels();
    let red = RED.to_0rgb();
    assert_eq!(px(&buf, 10, 10), red);
    assert_eq!(px(&buf, 29, 29), red);
    assert_eq!(px(&buf, 11, 15), red);
    assert_eq!(px(&buf, 15, 15), 0);
    assert_eq!(px(&buf, 9, 10), 0);
}

#[test]
fn fill_rect_clips_to_canvas() {
    let mut c = canvas();
    c.fill_rect(Rect::new(-10, -10, 30, 30), RED);
    let buf = c.into_pixels();
    assert_eq!(px(&buf, 0, 0), RED.to_0rgb());
    assert_eq!(px(&buf, 19, 19), RED.to_0rgb());
    assert_eq!(px(&buf, 20, 20), 0);
}

#[test]
fn fill_rect_fully_off_canvas_is_a_noop() {
    let mut c = canvas();
    c.fill_rect(Rect::new(W + 10, 10, 20, 20), RED);
    c.fill_rect(Rect::new(-50, -50, 20, 20), RED);
    c.fill_rect(Rect::new(10, H + 5, 20, 20), RED);
    assert!(c.pixels().iter().all(|&p| p == 0));
}

#[test]
fn zero_thickness_draws_nothing() {
    let mut c = canvas();
    c.draw_rect_outline(Rect::new(10, 10, 20, 20), RED, 0);
    c.draw_circle_outline(50, 30, 10, RED, 0);
    assert!(c.pixels().iter().all(|&p| p == 0));
}

#[test]
fn ellipse_outline_is_a_band_and_fill_covers_the_interior() {
    let e = Shape::Ellipse { cx: 50, cy: 30, rx: 30, ry: 15 };
    let mut c = canvas();
    c.draw_shape(&e, RED, 3, false);
    let buf = c.into_pixels();
    let red = RED.to_0rgb();
    assert_eq!(px(&buf, 79, 30), red, "on the rim");
    assert_eq!(px(&buf, 50, 30), 0, "outline leaves the center empty");
    assert_eq!(px(&buf, 79, 15), 0, "bbox corner outside");

    let mut c = canvas();
    c.draw_shape(&e, RED, 3, true);
    let buf = c.into_pixels();
    assert_eq!(px(&buf, 50, 30), red, "fill covers the center");
}

#[test]
fn circle_outline_is_an_annulus() {
    let mut c = canvas();
    c.draw_circle_outline(50, 30, 10, RED, 2);
    let buf = c.into_pixels();
    let red = RED.to_0rgb();
    assert_eq!(px(&buf, 60, 30), red);
    assert_eq!(px(&buf, 59, 30), red);
    assert_eq!(px(&buf, 50, 30), 0);
    assert_eq!(px(&buf, 62, 30), 0);
}

#[test]
fn fill_circle_covers_center_and_clips() {
    let mut c = canvas();
    c.fill_circle(0, 0, 10, RED);
    let buf = c.into_pixels();
    assert_eq!(px(&buf, 0, 0), RED.to_0rgb());
    assert_eq!(px(&buf, 7, 7), RED.to_0rgb());
    assert_eq!(px(&buf, 8, 8), 0);
}

#[test]
fn triangle_fill_covers_interior_not_bbox_corners() {
    let tri = Shape::Triangle { ax: 50, ay: 10, bx: 10, by: 50, cx: 90, cy: 50 };
    let mut c = canvas();
    c.draw_shape(&tri, RED, 2, true);
    let buf = c.into_pixels();
    let red = RED.to_0rgb();
    assert_eq!(px(&buf, 50, 40), red);
    assert_eq!(px(&buf, 50, 11), red);
    assert_eq!(px(&buf, 12, 12), 0);
    assert_eq!(px(&buf, 88, 12), 0);
}

#[test]
fn triangle_outline_is_a_band_not_a_fill() {
    let tri = Shape::Triangle { ax: 50, ay: 10, bx: 10, by: 50, cx: 90, cy: 50 };
    let mut c = canvas();
    c.draw_shape(&tri, RED, 2, false);
    let buf = c.into_pixels();
    let red = RED.to_0rgb();
    assert_eq!(px(&buf, 50, 49), red);
    assert_eq!(px(&buf, 50, 35), 0);
    assert_eq!(px(&buf, 12, 12), 0);
}

#[test]
fn smart_position_defaults_above() {
    let p = smart_text_position(
        Rect::new(200, 200, 100, 50),
        Size::new(1920, 1080),
        text_width(10),
        LINE_1,
        1,
    );
    assert_eq!(p, Point::new(200, 200 - LINE_1 - 4));
}

#[test]
fn smart_position_flips_below_at_top_edge() {
    let p = smart_text_position(
        Rect::new(200, 2, 100, 50),
        Size::new(1920, 1080),
        text_width(10),
        LINE_1,
        1,
    );
    assert_eq!(p, Point::new(200, 2 + 50 + 4));
}

#[test]
fn smart_position_flips_left_at_right_edge() {
    let bbox = Rect::new(1900, 200, 15, 50);
    let p = smart_text_position(bbox, Size::new(1920, 1080), text_width(10), LINE_1, 1);
    assert_eq!(p.x, 1900 - text_width(10) - 4);
}

#[test]
fn smart_position_stays_on_screen_in_corners() {
    let bounds = Size::new(1920, 1080);
    let text_len = 20;
    for bbox in [
        Rect::new(0, 0, 50, 50),
        Rect::new(1870, 0, 50, 50),
        Rect::new(0, 1030, 50, 50),
        Rect::new(1870, 1030, 50, 50),
    ] {
        let p = smart_text_position(bbox, bounds, text_width(text_len), LINE_1, 1);
        assert!(p.x >= 0 && p.y >= 0, "{bbox:?} gave {p:?}");
        assert!(
            p.x + text_width(text_len) <= bounds.w && p.y + LINE_1 <= bounds.h,
            "{bbox:?} gave {p:?}"
        );
    }
}

#[test]
fn scaled_smart_position_scales_offsets() {
    let p = smart_text_position(
        Rect::new(200, 200, 100, 50),
        Size::new(1920, 1080),
        2 * text_width(10),
        LINE_2,
        2,
    );
    assert_eq!(p, Point::new(200, 200 - LINE_2 - 8));
}

#[test]
fn coord_text_formats() {
    assert_eq!(coord_text(&Shape::Rect(Rect::new(1, 2, 3, 4))), "(1, 2) 3x4");
    assert_eq!(coord_text(&Shape::Circle { cx: 9, cy: 8, r: 7 }), "(9, 8) r=7");
}

#[test]
fn dim_rect_scales_brightness_and_clips_to_the_canvas() {
    let mut c = Canvas::new(vec![0x00FF_8040u32; (W * H) as usize], W, H);
    c.dim_rect(Rect::new(-10, -10, 20, 20), 128);
    let buf = c.into_pixels();
    assert_eq!(buf[0], 0x007F_4020, "channels each halve");
    assert_eq!(buf[(10 * W + 10) as usize], 0x00FF_8040, "outside the rect untouched");

    let mut c = Canvas::new(vec![0x00FF_FFFFu32; (W * H) as usize], W, H);
    c.dim_rect(Rect::new(0, 0, 2, 1), 0);
    assert_eq!(c.pixels()[0], 0, "strength 0 blacks out");

    let mut c = Canvas::new(vec![0x0012_3456u32; (W * H) as usize], W, H);
    c.dim_rect(Rect::new(0, 0, 1, 1), 256);
    assert_eq!(c.pixels()[0], 0x0012_3456, "strength 256 leaves pixels alone");
    c.dim_rect(Rect::new(-50, -50, 10, 10), 64);
}

#[test]
fn cutout_keeps_every_shape_in_place_and_clears_the_rest() {
    let w = 60;
    let h = 40;
    let mut rgba = vec![200u8; (w * h * 4) as usize];
    let shapes = [Shape::Rect(Rect::new(5, 5, 10, 10)), Shape::Circle { cx: 40, cy: 20, r: 6 }];
    apply_cutout_mask(&mut rgba, w, h, &coverage(w, h, &shapes));
    let pixel = |x: i32, y: i32| {
        let i = ((y * w + x) * 4) as usize;
        (rgba[i], rgba[i + 3])
    };
    assert_eq!(pixel(10, 10), (200, 200));
    assert_eq!(pixel(40, 20), (200, 200));
    assert_eq!(pixel(25, 10), (200, 0));
    assert_eq!(pixel(0, 39), (200, 0));
    assert_eq!(pixel(35, 15), (200, 0));
}

#[test]
fn cutout_clips_offscreen_shapes_instead_of_panicking() {
    let w = 20;
    let h = 20;
    let mut rgba = vec![255u8; (w * h * 4) as usize];
    let shapes = [Shape::Rect(Rect::new(-10, -10, 15, 15))];
    apply_cutout_mask(&mut rgba, w, h, &coverage(w, h, &shapes));
    let alpha = |x: i32, y: i32| rgba[((y * w + x) * 4 + 3) as usize];
    assert_eq!(alpha(2, 2), 255);
    assert_eq!(alpha(10, 10), 0);
}

#[test]
fn cutout_with_no_shapes_clears_everything() {
    let mut rgba = vec![255u8; 4 * 4];
    apply_cutout_mask(&mut rgba, 2, 2, &coverage(2, 2, &[]));
    assert!(rgba.chunks(4).all(|p| p[3] == 0));
}

#[test]
fn inverse_cutout_is_the_exact_complement() {
    let w = 60;
    let h = 40;
    // The circle's 45 degrees of rotation change nothing about its pixels.
    let shapes = [Shape::Rect(Rect::new(5, 5, 10, 10)), Shape::Circle { cx: 40, cy: 20, r: 6 }];
    let covered = coverage(w, h, &shapes);
    let mut primary = vec![255u8; (w * h * 4) as usize];
    let mut inverse = vec![255u8; (w * h * 4) as usize];
    apply_cutout_mask(&mut primary, w, h, &covered);
    apply_inverse_cutout_mask(&mut inverse, w, h, &covered);
    for i in 0..(w * h) as usize {
        let (p, v) = (primary[i * 4 + 3], inverse[i * 4 + 3]);
        assert_eq!(p ^ v, 255, "pixel {i}: primary {p}, inverse {v}");
    }
    let idx = ((10 * w + 10) * 4 + 3) as usize;
    assert_eq!(primary[idx], 255);
    assert_eq!(inverse[idx], 0);
}

#[test]
fn alpha_mask_zeroes_outside_circle_only() {
    let w = 20;
    let h = 20;
    let mut rgba = vec![255u8; (w * h * 4) as usize];
    let circle = Shape::Circle { cx: 10, cy: 10, r: 8 };
    apply_alpha_mask_outside(&mut rgba, w, h, &coverage(w, h, &[circle]));
    let alpha = |x: i32, y: i32| rgba[((y * w + x) * 4 + 3) as usize];
    assert_eq!(alpha(10, 10), 255);
    assert_eq!(alpha(10, 2), 255);
    assert_eq!(alpha(0, 0), 0);
    assert_eq!(rgba[0], 255);
}

#[test]
fn draw_shape_fills_or_outlines_each_kind() {
    for fill in [true, false] {
        for shape in [
            Shape::Rect(Rect::new(10, 10, 20, 20)),
            Shape::Circle { cx: 50, cy: 30, r: 12 },
            Shape::Triangle { ax: 60, ay: 10, bx: 45, by: 40, cx: 75, cy: 40 },
        ] {
            let mut c = canvas();
            c.draw_shape(&shape, RED, 2, fill);
            assert!(
                c.pixels().iter().any(|&p| p == RED.to_0rgb()),
                "{shape:?} fill={fill} drew nothing"
            );
        }
    }
}

#[test]
fn a_caption_flips_inside_the_canvas_at_every_edge() {
    let bounds = Size::new(W, H);
    let len = 6;
    for bbox in [
        Rect::new(0, 0, 20, 20),
        Rect::new(W - 10, 0, 20, 20),
        Rect::new(0, H - 10, 20, 20),
        Rect::new(W - 5, H - 5, 20, 20),
    ] {
        let p = smart_text_position(bbox, bounds, text_width(len), LINE_1, 1);
        assert!(p.x >= 0 && p.y >= 0, "{bbox:?} -> {p:?}");
        assert!(p.x + text_width(len) <= W, "{bbox:?} -> {p:?}");
        assert!(p.y + LINE_1 <= H, "{bbox:?} -> {p:?}");
    }
}

#[test]
fn a_caption_wider_than_the_canvas_starts_off_the_left_edge() {
    let len = 40;
    assert!(text_width(len) > W);
    let p = smart_text_position(Rect::new(0, 0, 20, 20), Size::new(W, H), text_width(len), LINE_1, 1);
    assert!(p.x < 0, "{p:?}");
}

/// A `w` by `h` glyph of uniform coverage whose bitmap bottom sits on the
/// baseline.
fn block_glyph(w: usize, h: usize, alpha: u8) -> Glyph {
    Glyph {
        xmin: 0,
        ymin: 0,
        width: w,
        height: h,
        coverage: vec![alpha; w * h],
    }
}

#[test]
fn text_lays_each_glyph_one_advance_right_of_the_last() {
    let mut c = canvas();
    let glyphs = [block_glyph(2, 3, 255), block_glyph(2, 3, 255)];
    // Line box top at y = 10, baseline 4 below it: bitmaps span y 11..14.
    c.draw_text(10, 10, &glyphs, 5, 4, RED);
    let buf = c.pixels();
    for x in [10, 11, 15, 16] {
        for y in 11..14 {
            assert_eq!(px(buf, x, y), 0xFF0000, "({x}, {y})");
        }
    }
    assert_eq!(px(buf, 12, 12), 0, "the gap between glyphs stays clear");
    assert_eq!(px(buf, 10, 10), 0, "above the bitmap stays clear");
    assert_eq!(px(buf, 10, 14), 0, "the baseline row itself is below the ink");
}

#[test]
fn partial_coverage_blends_and_no_coverage_leaves_the_pixel_alone() {
    let mut c = Canvas::new(vec![0x00_0000FF; (W * H) as usize], W, H);
    let glyph = Glyph {
        xmin: 1,
        ymin: 0,
        width: 2,
        height: 1,
        coverage: vec![0, 51],
    };
    c.blend_glyph(20, 30, &glyph, Color { r: 255, g: 255, b: 255 });
    let buf = c.pixels();
    assert_eq!(px(buf, 21, 29), 0x0000FF, "zero coverage keeps the pixel");
    // 20% white over blue: 255*51/255 = 51 in red and green, blue stays.
    assert_eq!(px(buf, 22, 29), 0x3333FF);
}

#[test]
fn mark_covered_reaches_every_covered_pixel() {
    let (w, h) = (5, 5);
    let circle = Shape::Circle { cx: 1, cy: 1, r: 1 };
    let m = coverage(w, h, &[circle.clone()]);
    for y in 0..h {
        for x in 0..w {
            let expected = circle.hit_test(Point::new(x, y));
            assert_eq!(m[(y * w + x) as usize], expected, "pixel ({x}, {y})");
        }
    }
    assert!(m[(w + 2) as usize], "the far rim pixel (2, 1) is covered");
    assert!(m[(2 * w + 1) as usize], "the far rim pixel (1, 2) is covered");
    assert!(!m[(2 * w + 2) as usize]);
}

#[test]
fn a_fill_ignores_thickness_and_paints_its_hit_test_set() {
    let shapes = [
        Shape::Circle { cx: 50, cy: 30, r: 6 },
        Shape::Ellipse { cx: 20, cy: 20, rx: 9, ry: 4 },
        Shape::Rect(Rect::new(70, 40, 12, 7)),
        Shape::Triangle { ax: 5, ay: 55, bx: 40, by: 45, cx: 25, cy: 35 },
    ];
    for shape in shapes {
        let mut c = canvas();
        c.draw_shape(&shape, RED, i32::MAX, true);
        let buf = c.into_pixels();
        for y in 0..H {
            for x in 0..W {
                let expected = if shape.hit_test(Point::new(x, y)) { RED.to_0rgb() } else { 0 };
                assert_eq!(px(&buf, x, y), expected, "{shape:?} at ({x}, {y})");
            }
        }
    }
}

#[test]
fn coverage_window_clips_the_turned_bbox_to_the_frame() {
    assert_eq!(coverage_window(Rect::new(-5, -5, 10, 10), 20, 20), Some((0, 0, 5, 5)));
    assert_eq!(coverage_window(Rect::new(15, 3, 10, 2), 20, 20), Some((15, 3, 19, 5)));
    assert_eq!(coverage_window(Rect::new(30, 0, 5, 5), 20, 20), None);
    assert_eq!(coverage_window(Rect::new(0, -9, 5, 5), 20, 20), None);
}

#[test]
fn a_turned_rect_marks_the_pixels_its_turned_back_points_land_in() {
    let (w, h) = (20, 20);
    // A 6 by 2 bar centered on (10, 10), turned a quarter: it stands upright.
    let bar = Shape::Rect(Rect::new(7, 9, 6, 2));
    let pivot = bar.pivot();
    assert_eq!(pivot, Point::new(10, 10));
    let win = coverage_window(Rect::new(9, 7, 2, 6), w, h).unwrap();
    let (x0, y0, x1, y1) = win;
    let mut backs = Vec::new();
    for y in y0..=y1 {
        for x in x0..=x1 {
            // A quarter turn back about the pivot: (dx, dy) -> (dy, -dx).
            let (dx, dy) = (x - pivot.x, y - pivot.y);
            backs.push(Point::new(pivot.x + dy, pivot.y - dx));
        }
    }
    let mut covered = vec![false; (w * h) as usize];
    mark_covered_rotated(&mut covered, w, h, &bar, 90, win, &backs);
    let marked: Vec<(i32, i32)> = (0..h)
        .flat_map(|y| (0..w).map(move |x| (x, y)))
        .filter(|&(x, y)| covered[(y * w + x) as usize])
        .collect();
    let expected: Vec<(i32, i32)> = (7..=12).flat_map(|y| (10..=11).map(move |x| (x, y))).collect();
    assert_eq!(marked, expected);
}
