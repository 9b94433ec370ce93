//! CPU rasterizer: shapes and label placement into a `u32` pixel buffer
//! (`0x00RRGGBB`), plus the alpha masks applied to crops. Everything clips
//! to the buffer — drawing partially or fully off-buffer is safe and
//! silent.
//!
//! Every drawing operation is specified pixel by pixel: which pixels of
//! the canvas take the color, and that every other pixel keeps its value.

use vstd::prelude::*;
use crate::arith::{fits_i32, max_i32, max_spec, min_i32, min_spec, sat_add_i32, sat_i32, trunc_div};
use crate::strings::{signed_chars, signed_decimal};
use crate::text::append_chars;
use vstd::string::StringExecFns;
use crate::geometry::{Size, bbox_of, cross_spec, shape_in_domain, coord_ok, covers_spec, lemma_mul_bound, next_vertex, points_in_domain, rect_contains, rotation_is_identity, Point, Rect, Shape, ShapeView, MAX_COORD};

verus! {

#[derive(Debug, Clone, Copy, PartialEq, Eq, Structural)]
pub struct Color {
    pub r: u8,
    pub g: u8,
    pub b: u8,
}

/// A color packed as `0x00RRGGBB`.
pub open spec fn rgb_spec(c: Color) -> u32 {
    ((c.r as u32) << 16u32) | ((c.g as u32) << 8u32) | (c.b as u32)
}

impl Color {
    /// Opaque white.
    pub fn white() -> (c: Self)
        ensures
            c.r == 255 && c.g == 255 && c.b == 255,
    {
        Color { r: 255, g: 255, b: 255 }
    }

    /// The color packed as `0x00RRGGBB`.
    pub fn to_0rgb(self) -> (v: u32)
        ensures
            v == rgb_spec(self),
            v == self.r as int * 65536 + self.g as int * 256 + self.b as int,
    {
        let r = self.r as u32;
        let g = self.g as u32;
        let b = self.b as u32;
        assert(((r << 16u32) | (g << 8u32) | b) == r * 65536 + g * 256 + b) by (bit_vector)
            requires
                r < 256 && g < 256 && b < 256,
        ;
        (r << 16u32) | (g << 8u32) | b
    }
}

/// A pixel buffer `w` pixels wide and `h` high, row-major.
pub struct Canvas {
    px: Vec<u32>,
    pub w: i32,
    pub h: i32,
}

/// The pixel at (`x`, `y`) of a row-major buffer `w` wide.
pub open spec fn at(px: Seq<u32>, w: int, x: int, y: int) -> u32 {
    px[y * w + x]
}

pub open spec fn on_canvas(w: int, h: int, x: int, y: int) -> bool {
    0 <= x < w && 0 <= y < h
}

/// Every pixel of the canvas is `new` where `painted` holds and keeps its
/// `old` value elsewhere.
pub open spec fn painted_with(
    old: Seq<u32>,
    new: Seq<u32>,
    w: int,
    h: int,
    painted: spec_fn(int, int) -> bool,
    c: u32,
) -> bool {
    &&& new.len() == old.len()
    &&& forall|x: int, y: int|
        #![trigger at(new, w, x, y)]
        on_canvas(w, h, x, y) ==> at(new, w, x, y) == if painted(x, y) {
            c
        } else {
            at(old, w, x, y)
        }
}

/// The value of a canvas: its pixels, row-major, and its size.
pub struct CanvasView {
    pub px: Seq<u32>,
    pub w: int,
    pub h: int,
}

/// The buffer holds exactly `w * h` pixels of a non-empty canvas.
pub open spec fn canvas_ok(v: CanvasView) -> bool {
    v.w > 0 && v.h > 0 && v.px.len() == v.w * v.h && v.w <= MAX_COORD && v.h <= MAX_COORD
}

/// `new` is `old` with the pixels where `painted` holds set to `c`.
pub open spec fn paints(old: CanvasView, new: CanvasView, painted: spec_fn(int, int) -> bool, c: u32) -> bool {
    &&& canvas_ok(new)
    &&& new.w == old.w && new.h == old.h
    &&& painted_with(old.px, new.px, old.w, old.h, painted, c)
}

impl View for Canvas {
    type V = CanvasView;

    closed spec fn view(&self) -> CanvasView {
        CanvasView { px: self.px@, w: self.w as int, h: self.h as int }
    }
}

proof fn lemma_index_unique(w: int, x1: int, y1: int, x2: int, y2: int)
    requires
        0 <= x1 < w,
        0 <= x2 < w,
        y1 * w + x1 == y2 * w + x2,
    ensures
        x1 == x2 && y1 == y2,
{
    if y1 < y2 {
        assert((y2 - y1) * w >= w) by (nonlinear_arith)
            requires
                y2 - y1 >= 1,
                w > 0,
        ;
        assert(y2 * w - y1 * w == (y2 - y1) * w) by (nonlinear_arith);
    } else if y2 < y1 {
        assert((y1 - y2) * w >= w) by (nonlinear_arith)
            requires
                y1 - y2 >= 1,
                w > 0,
        ;
        assert(y1 * w - y2 * w == (y1 - y2) * w) by (nonlinear_arith);
    }
}

proof fn lemma_index_in_range(w: int, h: int, x: int, y: int)
    requires
        on_canvas(w, h, x, y),
    ensures
        0 <= y * w + x < w * h,
{
    assert(0 <= y * w) by (nonlinear_arith)
        requires
            y >= 0,
            w > 0,
    ;
    assert(y * w + x < w * h) by (nonlinear_arith)
        requires
            0 <= x < w,
            0 <= y < h,
    ;
}

/// Painting with `p` and then with `q`, in one color, paints their union.
proof fn lemma_paints_compose(
    a: CanvasView,
    b: CanvasView,
    c: CanvasView,
    p: spec_fn(int, int) -> bool,
    q: spec_fn(int, int) -> bool,
    col: u32,
)
    requires
        canvas_ok(a),
        paints(a, b, p, col),
        paints(b, c, q, col),
    ensures
        paints(a, c, |x: int, y: int| p(x, y) || q(x, y), col),
{
    assert forall|x: int, y: int|
        #![trigger at(c.px, a.w, x, y)]
        on_canvas(a.w, a.h, x, y) implies at(c.px, a.w, x, y) == if p(x, y) || q(x, y) {
            col
        } else {
            at(a.px, a.w, x, y)
        } by {
        assert(at(b.px, a.w, x, y) == if p(x, y) { col } else { at(a.px, a.w, x, y) });
    }
}

/// Two descriptions of the painted pixels that agree on the canvas
/// describe the same painting.
proof fn lemma_paints_same(
    a: CanvasView,
    b: CanvasView,
    p: spec_fn(int, int) -> bool,
    q: spec_fn(int, int) -> bool,
    col: u32,
)
    requires
        paints(a, b, p, col),
        forall|x: int, y: int| on_canvas(a.w, a.h, x, y) ==> p(x, y) == q(x, y),
    ensures
        paints(a, b, q, col),
{
    assert forall|x: int, y: int|
        #![trigger at(b.px, a.w, x, y)]
        on_canvas(a.w, a.h, x, y) implies at(b.px, a.w, x, y) == if q(x, y) {
            col
        } else {
            at(a.px, a.w, x, y)
        } by {
        assert(p(x, y) == q(x, y));
    }
}

/// Painting nothing leaves the canvas as it was.
proof fn lemma_paints_nothing(a: CanvasView, col: u32)
    requires
        canvas_ok(a),
    ensures
        paints(a, a, |x: int, y: int| false, col),
{
}

/// Whether offset (`dx`, `dy`) lies inside the origin-centered ellipse
/// with radii (`rx`, `ry`); non-positive radii cover nothing.
pub open spec fn ellipse_in(dx: int, dy: int, rx: int, ry: int) -> bool {
    rx > 0 && ry > 0 && dx * dx * ry * ry + dy * dy * rx * rx <= rx * rx * ry * ry
}

/// Whether (`px`, `py`) is closer than `t` to the segment from
/// (`x1`, `y1`) to (`x2`, `y2`), in exact arithmetic: the distance to the
/// nearer end when the perpendicular foot falls outside the segment, the
/// perpendicular distance otherwise.
pub open spec fn near_segment(px: int, py: int, x1: int, y1: int, x2: int, y2: int, t: int) -> bool {
    let dx = x2 - x1;
    let dy = y2 - y1;
    let len2 = dx * dx + dy * dy;
    let proj = (px - x1) * dx + (py - y1) * dy;
    let da = (px - x1) * (px - x1) + (py - y1) * (py - y1);
    let db = (px - x2) * (px - x2) + (py - y2) * (py - y2);
    let cr = (px - x1) * dy - (py - y1) * dx;
    if len2 == 0 || proj <= 0 {
        da < t * t
    } else if proj >= len2 {
        db < t * t
    } else {
        cr * cr < t * t * len2
    }
}

/// The edge from `a` to `b` crosses the center line of pixel row `y`.
pub open spec fn row_crosses(a: Point, b: Point, y: int) -> bool {
    (a.y <= y) != (b.y <= y)
}

/// The crossing's x coordinate is `cross_num / cross_den` exactly.
pub open spec fn cross_num(a: Point, b: Point, y: int) -> int {
    a.x * (2 * (b.y - a.y)) + (2 * y + 1 - 2 * a.y) * (b.x - a.x)
}

pub open spec fn cross_den(a: Point, b: Point) -> int {
    2 * (b.y - a.y)
}

/// The crossing lies left of `x`.
pub open spec fn crossing_before(a: Point, b: Point, y: int, x: int) -> bool {
    if cross_den(a, b) > 0 {
        cross_num(a, b, y) < x * cross_den(a, b)
    } else {
        cross_num(a, b, y) > x * cross_den(a, b)
    }
}

/// The crossing lies exactly at `x`.
pub open spec fn crossing_on(a: Point, b: Point, y: int, x: int) -> bool {
    cross_num(a, b, y) == x * cross_den(a, b)
}

/// How many of the first `k` edges cross row `y` left of `x`.
pub open spec fn scan_before(pts: Seq<Point>, x: int, y: int, k: int) -> nat
    decreases k,
{
    if k <= 0 {
        0
    } else {
        scan_before(pts, x, y, k - 1) + if row_crosses(pts[k - 1], next_vertex(pts, k - 1), y)
            && crossing_before(pts[k - 1], next_vertex(pts, k - 1), y, x) {
            1nat
        } else {
            0nat
        }
    }
}

/// Whether one of the first `k` edges crosses row `y` exactly at `x`.
pub open spec fn scan_on(pts: Seq<Point>, x: int, y: int, k: int) -> bool
    decreases k,
{
    if k <= 0 {
        false
    } else {
        scan_on(pts, x, y, k - 1) || (row_crosses(pts[k - 1], next_vertex(pts, k - 1), y)
            && crossing_on(pts[k - 1], next_vertex(pts, k - 1), y, x))
    }
}

/// Even-odd scanline coverage: pixel (`x`, `y`) lies between a pair of
/// the sorted crossings of the row's center line, or on a crossing.
pub open spec fn scan_covers(pts: Seq<Point>, x: int, y: int) -> bool {
    pts.len() >= 3 && (scan_before(pts, x, y, pts.len() as int) % 2 == 1 || scan_on(
        pts,
        x,
        y,
        pts.len() as int,
    ))
}

/// What one drawing pass covers.
pub enum Brush {
    /// The half-open box.
    Area(Rect),
    /// Pixels at distance at most `outer` from the center and, unless
    /// `inner` is 0, beyond `inner`.
    Ring { cx: i32, cy: i32, inner: i32, outer: i32 },
    /// Inside the ellipse with radii (`rx`, `ry`) and outside the one with
    /// radii (`irx`, `iry`).
    Oval { cx: i32, cy: i32, rx: i32, ry: i32, irx: i32, iry: i32 },
    /// Inside the triangle and, for a band, closer than it to an edge.
    Tri { ax: i32, ay: i32, bx: i32, by: i32, cx: i32, cy: i32, band: Option<i32> },
    /// Between a pair of the polygon's crossings of the pixel row's
    /// center line (even-odd), crossings included.
    Scan(Vec<Point>),
}

pub open spec fn brush_spec(b: Brush, x: int, y: int) -> bool {
    match b {
        Brush::Scan(pts) => scan_covers(pts@, x, y),
        Brush::Area(r) => r.x <= x < r.x + r.w && r.y <= y < r.y + r.h,
        Brush::Ring { cx, cy, inner, outer } => {
            let d2 = (x - cx) * (x - cx) + (y - cy) * (y - cy);
            d2 <= outer * outer && (inner == 0 || d2 > inner * inner)
        },
        Brush::Oval { cx, cy, rx, ry, irx, iry } => ellipse_in(x - cx, y - cy, rx as int, ry as int)
            && !ellipse_in(x - cx, y - cy, irx as int, iry as int),
        Brush::Tri { ax, ay, bx, by, cx, cy, band } => {
            &&& covers_spec(
                ShapeView::Triangle { ax, ay, bx, by, cx, cy },
                Point { x: x as i32, y: y as i32 },
            )
            &&& match band {
                None => true,
                Some(t) => near_segment(x, y, ax as int, ay as int, bx as int, by as int, t as int)
                    || near_segment(x, y, bx as int, by as int, cx as int, cy as int, t as int)
                    || near_segment(x, y, cx as int, cy as int, ax as int, ay as int, t as int),
            }
        },
    }
}

pub open spec fn brush_ok(b: Brush) -> bool {
    match b {
        Brush::Scan(pts) => points_in_domain(pts@),
        Brush::Area(r) => r.ends_fit(),
        Brush::Ring { cx, cy, inner, outer } => coord_ok(cx as int) && coord_ok(cy as int)
            && coord_ok(inner as int) && coord_ok(outer as int),
        Brush::Oval { cx, cy, rx, ry, irx, iry } => coord_ok(cx as int) && coord_ok(cy as int)
            && coord_ok(rx as int) && coord_ok(ry as int) && coord_ok(irx as int) && coord_ok(
            iry as int,
        ),
        Brush::Tri { ax, ay, bx, by, cx, cy, band } => coord_ok(ax as int) && coord_ok(ay as int)
            && coord_ok(bx as int) && coord_ok(by as int) && coord_ok(cx as int) && coord_ok(
            cy as int,
        ) && match band {
            Some(t) => t > 0,
            None => true,
        },
    }
}

fn ellipse_covers(dx: i32, dy: i32, rx: i32, ry: i32) -> (b: bool)
    requires
        -3 * MAX_COORD <= dx <= 3 * MAX_COORD,
        -3 * MAX_COORD <= dy <= 3 * MAX_COORD,
        coord_ok(rx as int) && coord_ok(ry as int),
    ensures
        b == ellipse_in(dx as int, dy as int, rx as int, ry as int),
{
    if rx <= 0 || ry <= 0 {
        return false;
    }
    let (dx, dy) = (dx as i128, dy as i128);
    let (rx, ry) = (rx as i128, ry as i128);
    proof {
        assert(dx * dx <= 9_000_000_000_000) by (nonlinear_arith)
            requires
                -3_000_000 <= dx <= 3_000_000,
        ;
        assert(dy * dy <= 9_000_000_000_000) by (nonlinear_arith)
            requires
                -3_000_000 <= dy <= 3_000_000,
        ;
        assert(0 <= dx * dx && 0 <= dy * dy) by (nonlinear_arith);
        assert(0 <= rx * rx <= 1_000_000_000_000) by (nonlinear_arith)
            requires
                0 < rx <= 1_000_000,
        ;
        assert(0 <= ry * ry <= 1_000_000_000_000) by (nonlinear_arith)
            requires
                0 < ry <= 1_000_000,
        ;
        assert(dx * dx * ry <= 9_000_000_000_000 * 1_000_000) by (nonlinear_arith)
            requires
                0 <= dx * dx <= 9_000_000_000_000,
                0 < ry <= 1_000_000,
        ;
        assert(0 <= dx * dx * ry) by (nonlinear_arith)
            requires
                0 <= dx * dx,
                0 < ry,
        ;
        assert(dx * dx * ry * ry <= 9_000_000_000_000 * 1_000_000 * 1_000_000) by (nonlinear_arith)
            requires
                0 <= dx * dx * ry <= 9_000_000_000_000 * 1_000_000,
                0 < ry <= 1_000_000,
        ;
        assert(0 <= dx * dx * ry * ry) by (nonlinear_arith)
            requires
                0 <= dx * dx * ry,
                0 < ry,
        ;
        assert(dy * dy * rx <= 9_000_000_000_000 * 1_000_000) by (nonlinear_arith)
            requires
                0 <= dy * dy <= 9_000_000_000_000,
                0 < rx <= 1_000_000,
        ;
        assert(0 <= dy * dy * rx) by (nonlinear_arith)
            requires
                0 <= dy * dy,
                0 < rx,
        ;
        assert(dy * dy * rx * rx <= 9_000_000_000_000 * 1_000_000 * 1_000_000) by (nonlinear_arith)
            requires
                0 <= dy * dy * rx <= 9_000_000_000_000 * 1_000_000,
                0 < rx <= 1_000_000,
        ;
        assert(0 <= dy * dy * rx * rx) by (nonlinear_arith)
            requires
                0 <= dy * dy * rx,
                0 < rx,
        ;
        assert(rx * rx * ry <= 1_000_000_000_000 * 1_000_000) by (nonlinear_arith)
            requires
                0 <= rx * rx <= 1_000_000_000_000,
                0 < ry <= 1_000_000,
        ;
        assert(0 <= rx * rx * ry) by (nonlinear_arith)
            requires
                0 <= rx * rx,
                0 < ry,
        ;
        assert(rx * rx * ry * ry <= 1_000_000_000_000 * 1_000_000 * 1_000_000) by (nonlinear_arith)
            requires
                0 <= rx * rx * ry <= 1_000_000_000_000 * 1_000_000,
                0 < ry <= 1_000_000,
        ;
    }
    dx * dx * ry * ry + dy * dy * rx * rx <= rx * rx * ry * ry
}

fn near_seg(px: i32, py: i32, x1: i32, y1: i32, x2: i32, y2: i32, t: i32) -> (b: bool)
    requires
        coord_ok(px as int) && coord_ok(py as int) && coord_ok(x1 as int) && coord_ok(y1 as int)
            && coord_ok(x2 as int) && coord_ok(y2 as int),
        t > 0,
    ensures
        b == near_segment(px as int, py as int, x1 as int, y1 as int, x2 as int, y2 as int, t as int),
{
    let dx = x2 as i128 - x1 as i128;
    let dy = y2 as i128 - y1 as i128;
    let ax = px as i128 - x1 as i128;
    let ay = py as i128 - y1 as i128;
    let bx = px as i128 - x2 as i128;
    let by = py as i128 - y2 as i128;
    let t = t as i128;
    proof {
        lemma_mul_bound(dx as int, dx as int, 2_000_000, 2_000_000);
        lemma_mul_bound(dy as int, dy as int, 2_000_000, 2_000_000);
        lemma_mul_bound(ax as int, dx as int, 2_000_000, 2_000_000);
        lemma_mul_bound(ay as int, dy as int, 2_000_000, 2_000_000);
        lemma_mul_bound(ax as int, dy as int, 2_000_000, 2_000_000);
        lemma_mul_bound(ay as int, dx as int, 2_000_000, 2_000_000);
        lemma_mul_bound(ax as int, ax as int, 2_000_000, 2_000_000);
        lemma_mul_bound(ay as int, ay as int, 2_000_000, 2_000_000);
        lemma_mul_bound(bx as int, bx as int, 2_000_000, 2_000_000);
        lemma_mul_bound(by as int, by as int, 2_000_000, 2_000_000);
        lemma_mul_bound(t as int, t as int, 0x8000_0000, 0x8000_0000);
    }
    let len2 = dx * dx + dy * dy;
    let proj = ax * dx + ay * dy;
    let tt = t * t;
    if len2 == 0 || proj <= 0 {
        ax * ax + ay * ay < tt
    } else if proj >= len2 {
        bx * bx + by * by < tt
    } else {
        let cr = ax * dy - ay * dx;
        proof {
            lemma_mul_bound(cr as int, cr as int, 8_000_000_000_000, 8_000_000_000_000);
            lemma_mul_bound(tt as int, len2 as int, 0x4000_0000_0000_0000, 8_000_000_000_000);
        }
        cr * cr < tt * len2
    }
}

fn scan_pixel(points: &Vec<Point>, x: i32, y: i32) -> (r: bool)
    requires
        points_in_domain(points@),
        0 <= x <= MAX_COORD && 0 <= y <= MAX_COORD,
    ensures
        r == scan_covers(points@, x as int, y as int),
{
    let n = points.len();
    if n < 3 {
        return false;
    }
    let mut before: usize = 0;
    let mut on = false;
    let mut i: usize = 0;
    while i < n
        invariant
            3 <= n == points@.len(),
            points_in_domain(points@),
            0 <= x <= MAX_COORD && 0 <= y <= MAX_COORD,
            i <= n,
            before == scan_before(points@, x as int, y as int, i as int),
            before <= i,
            on == scan_on(points@, x as int, y as int, i as int),
        decreases n - i,
    {
        let a = points[i];
        let b = points[(i + 1) % n];
        assert(b == next_vertex(points@, i as int));
        assert(a.in_domain() && b.in_domain());
        if (a.y <= y) != (b.y <= y) {
            let den = 2 * (b.y as i64 - a.y as i64);
            proof {
                lemma_mul_bound(a.x as int, den as int, 1_000_000, 4_000_000);
                lemma_mul_bound((2 * y + 1 - 2 * a.y) as int, (b.x - a.x) as int, 4_000_001, 2_000_000);
                lemma_mul_bound(x as int, den as int, 1_000_000, 4_000_000);
            }
            let num = a.x as i64 * den + (2 * y as i64 + 1 - 2 * a.y as i64) * (b.x as i64 - a.x as i64);
            let xd = x as i64 * den;
            let left = if den > 0 { num < xd } else { num > xd };
            if left {
                before = before + 1;
            }
            if num == xd {
                on = true;
            }
        }
        i = i + 1;
    }
    before % 2 == 1 || on
}

fn brush_covers(b: &Brush, x: i32, y: i32) -> (r: bool)
    requires
        brush_ok(*b),
        0 <= x <= MAX_COORD && 0 <= y <= MAX_COORD,
    ensures
        r == brush_spec(*b, x as int, y as int),
{
    match b {
        Brush::Scan(points) => scan_pixel(points, x, y),
        Brush::Area(r) => r.contains(Point::new(x, y)),
        Brush::Ring { cx, cy, inner, outer } => {
            let dx = x as i64 - *cx as i64;
            let dy = y as i64 - *cy as i64;
            proof {
                lemma_mul_bound(dx as int, dx as int, 2_000_000, 2_000_000);
                lemma_mul_bound(dy as int, dy as int, 2_000_000, 2_000_000);
                lemma_mul_bound(*inner as int, *inner as int, 1_000_000, 1_000_000);
                lemma_mul_bound(*outer as int, *outer as int, 1_000_000, 1_000_000);
            }
            let d2 = dx * dx + dy * dy;
            d2 <= (*outer as i64) * (*outer as i64) && (*inner == 0 || d2 > (*inner as i64) * (
            *inner as i64))
        },
        Brush::Oval { cx, cy, rx, ry, irx, iry } => {
            let dx = x - *cx;
            let dy = y - *cy;
            ellipse_covers(dx, dy, *rx, *ry) && !ellipse_covers(dx, dy, *irx, *iry)
        },
        Brush::Tri { ax, ay, bx, by, cx, cy, band } => {
            let tri = Shape::Triangle { ax: *ax, ay: *ay, bx: *bx, by: *by, cx: *cx, cy: *cy };
            if !tri.covers(x, y) {
                return false;
            }
            match band {
                None => true,
                Some(t) => near_seg(x, y, *ax, *ay, *bx, *by, *t) || near_seg(
                    x,
                    y,
                    *bx,
                    *by,
                    *cx,
                    *cy,
                    *t,
                ) || near_seg(x, y, *cx, *cy, *ax, *ay, *t),
            }
        },
    }
}

/// (`x`, `y`) is at squared distance at most `outer` squared from the
/// center and, unless `inner` is 0, beyond `inner`.
pub open spec fn ring_at(cx: int, cy: int, inner: int, outer: int, x: int, y: int) -> bool {
    let d2 = (x - cx) * (x - cx) + (y - cy) * (y - cy);
    d2 <= outer * outer && (inner == 0 || d2 > inner * inner)
}

proof fn lemma_square_bound(d: int, rest: int, r: int)
    requires
        r > 0,
        rest >= 0,
        d * d + rest <= r * r,
    ensures
        -r <= d <= r,
{
    if d > r {
        assert(d * d > r * r) by (nonlinear_arith)
            requires
                d > r > 0,
        ;
    }
    if d < -r {
        assert(d * d > r * r) by (nonlinear_arith)
            requires
                d < -r,
                r > 0,
        ;
    }
}

/// (`x`, `y`) lies in the half-open box.
pub open spec fn in_box(r: Rect, x: int, y: int) -> bool {
    r.x <= x < r.x + r.w && r.y <= y < r.y + r.h
}

/// The ellipse band: inside the outer ellipse and, for a positive
/// thickness, outside the one `thickness` smaller on each radius.
pub open spec fn oval_at(cx: int, cy: int, rx: int, ry: int, thickness: int, x: int, y: int) -> bool {
    let irx = if thickness <= 0 { -1 } else if rx - thickness > 0 { rx - thickness } else { 0 };
    let iry = if thickness <= 0 { -1 } else if ry - thickness > 0 { ry - thickness } else { 0 };
    ellipse_in(x - cx, y - cy, rx, ry) && !ellipse_in(x - cx, y - cy, irx, iry)
}

/// The rect outline: the four strips of width `t` (capped at the rect's
/// size) along its edges.
pub open spec fn outline_at(r: Rect, thickness: int, x: int, y: int) -> bool {
    let t = if thickness <= r.w && thickness <= r.h {
        thickness
    } else if r.w <= r.h {
        r.w as int
    } else {
        r.h as int
    };
    ||| in_box(Rect { x: r.x, y: r.y, w: r.w, h: t as i32 }, x, y)
    ||| in_box(Rect { x: r.x, y: (r.y + r.h - t) as i32, w: r.w, h: t as i32 }, x, y)
    ||| in_box(Rect { x: r.x, y: r.y, w: t as i32, h: r.h }, x, y)
    ||| in_box(Rect { x: (r.x + r.w - t) as i32, y: r.y, w: t as i32, h: r.h }, x, y)
}

proof fn lemma_ellipse_box(dx: int, dy: int, rx: int, ry: int)
    requires
        ellipse_in(dx, dy, rx, ry),
    ensures
        -rx <= dx <= rx,
        -ry <= dy <= ry,
{
    assert(dx * dx <= rx * rx) by (nonlinear_arith)
        requires
            dx * dx * ry * ry + dy * dy * rx * rx <= rx * rx * ry * ry,
            ry > 0,
            rx > 0,
    {
        assert(dy * dy * rx * rx >= 0) by (nonlinear_arith);
        assert(dx * dx * (ry * ry) <= rx * rx * (ry * ry));
        assert(ry * ry > 0) by (nonlinear_arith) requires ry > 0;
    }
    assert(dy * dy <= ry * ry) by (nonlinear_arith)
        requires
            dx * dx * ry * ry + dy * dy * rx * rx <= rx * rx * ry * ry,
            ry > 0,
            rx > 0,
    {
        assert(dx * dx * ry * ry >= 0) by (nonlinear_arith);
        assert(dy * dy * (rx * rx) <= ry * ry * (rx * rx));
        assert(rx * rx > 0) by (nonlinear_arith) requires rx > 0;
    }
    lemma_square_bound(dx, 0, rx);
    lemma_square_bound(dy, 0, ry);
}

pub open spec fn abs_int(v: int) -> int {
    if v < 0 { -v } else { v }
}

/// How many steps a stamped segment takes: its longer axis, at least one.
pub open spec fn stamp_steps(a: Point, b: Point) -> int {
    let dx = abs_int(b.x - a.x);
    let dy = abs_int(b.y - a.y);
    let m = if dx >= dy { dx } else { dy };
    if m >= 1 { m } else { 1 }
}

/// The square stamped at step `k`: centered on the point `k / steps` of
/// the way along (coordinates truncated toward zero), `thickness` wide
/// (at least one pixel), offset by half the thickness.
pub open spec fn stamp_square(a: Point, b: Point, thickness: int, k: int) -> Rect {
    let s = stamp_steps(a, b);
    let half = thickness / 2;
    let side = if thickness >= 1 { thickness } else { 1 };
    let x = a.x + trunc_div((b.x - a.x) * k, s);
    let y = a.y + trunc_div((b.y - a.y) * k, s);
    Rect { x: (x - half) as i32, y: (y - half) as i32, w: side as i32, h: side as i32 }
}

/// A thick segment: the union of its stamped squares.
pub open spec fn stamp_at(a: Point, b: Point, thickness: int, x: int, y: int) -> bool {
    exists|k: int| 0 <= k <= stamp_steps(a, b) && #[trigger] in_box(stamp_square(a, b, thickness, k), x, y)
}

/// The segment is short enough that its step arithmetic stays in `i32`.
pub open spec fn stamp_fits(a: Point, b: Point) -> bool {
    stamp_steps(a, b) * stamp_steps(a, b) <= i32::MAX
}

/// Every edge of the closed outline stamps within `i32`.
pub open spec fn outline_fits(pts: Seq<Point>) -> bool {
    forall|i: int| 0 <= i < pts.len() ==> stamp_fits(#[trigger] pts[i], next_vertex(pts, i))
}

/// The closed polygon outline: every edge, the last back to the first.
pub open spec fn poly_outline_at(pts: Seq<Point>, thickness: int, x: int, y: int) -> bool {
    exists|i: int| 0 <= i < pts.len() && stamp_at(#[trigger] pts[i], next_vertex(pts, i), thickness, x, y)
}

/// Inside the box with both far edges included.
pub open spec fn in_closed_box(r: Rect, x: int, y: int) -> bool {
    r.x <= x <= r.x + r.w && r.y <= y <= r.y + r.h
}

/// A weighted mean lies between the least and the greatest of what it
/// weighs: `s * t` is the sum of `w_i * v_i` with non-negative weights
/// summing to a positive `s`.
proof fn lemma_weighted_mean(w1: int, w2: int, w3: int, v1: int, v2: int, v3: int, t: int)
    requires
        w1 >= 0 && w2 >= 0 && w3 >= 0,
        w1 + w2 + w3 > 0,
        (w1 + w2 + w3) * t == w1 * v1 + w2 * v2 + w3 * v3,
    ensures
        min_spec(v1, min_spec(v2, v3)) <= t <= max_spec(v1, max_spec(v2, v3)),
{
    let lo = min_spec(v1, min_spec(v2, v3));
    let hi = max_spec(v1, max_spec(v2, v3));
    let s = w1 + w2 + w3;
    assert(w1 * v1 + w2 * v2 + w3 * v3 >= s * lo) by (nonlinear_arith)
        requires
            w1 >= 0 && w2 >= 0 && w3 >= 0,
            v1 >= lo && v2 >= lo && v3 >= lo,
            s == w1 + w2 + w3,
    ;
    assert(w1 * v1 + w2 * v2 + w3 * v3 <= s * hi) by (nonlinear_arith)
        requires
            w1 >= 0 && w2 >= 0 && w3 >= 0,
            v1 <= hi && v2 <= hi && v3 <= hi,
            s == w1 + w2 + w3,
    ;
    assert(lo <= t) by (nonlinear_arith)
        requires
            s > 0,
            s * t >= s * lo,
    ;
    assert(t <= hi) by (nonlinear_arith)
        requires
            s > 0,
            s * t <= s * hi,
    ;
}

/// A cross product measured from `p` is the one of the edge's ends taken
/// relative to `p`.
proof fn lemma_cross_from(px: int, py: int, ax: int, ay: int, bx: int, by: int)
    ensures
        cross_spec(px, py, ax, ay, bx, by) == (ax - px) * (by - py) - (ay - py) * (bx - px),
{
    let (a1, a2, b1, b2) = (ax - px, ay - py, bx - px, by - py);
    assert((b1 - a1) * (-a2) - (b2 - a2) * (-a1) == a1 * b2 - a2 * b1) by (nonlinear_arith);
}

/// The three weights weigh the (relative) vertices to nothing.
proof fn lemma_weights_cancel(a1: int, a2: int, b1: int, b2: int, c1: int, c2: int)
    ensures
        (b1 * c2 - b2 * c1) * a1 + (c1 * a2 - c2 * a1) * b1 + (a1 * b2 - a2 * b1) * c1 == 0,
{
    assert((b1 * c2 - b2 * c1) * a1 == b1 * c2 * a1 - b2 * c1 * a1) by (nonlinear_arith);
    assert((c1 * a2 - c2 * a1) * b1 == c1 * a2 * b1 - c2 * a1 * b1) by (nonlinear_arith);
    assert((a1 * b2 - a2 * b1) * c1 == a1 * b2 * c1 - a2 * b1 * c1) by (nonlinear_arith);
    assert(b1 * c2 * a1 == c2 * a1 * b1) by (nonlinear_arith);
    assert(b2 * c1 * a1 == a1 * b2 * c1) by (nonlinear_arith);
    assert(c1 * a2 * b1 == a2 * b1 * c1) by (nonlinear_arith);
}

/// The same for the second coordinate.
proof fn lemma_weights_cancel_y(a1: int, a2: int, b1: int, b2: int, c1: int, c2: int)
    ensures
        (b1 * c2 - b2 * c1) * a2 + (c1 * a2 - c2 * a1) * b2 + (a1 * b2 - a2 * b1) * c2 == 0,
{
    assert((b1 * c2 - b2 * c1) * a2 == b1 * c2 * a2 - b2 * c1 * a2) by (nonlinear_arith);
    assert((c1 * a2 - c2 * a1) * b2 == c1 * a2 * b2 - c2 * a1 * b2) by (nonlinear_arith);
    assert((a1 * b2 - a2 * b1) * c2 == a1 * b2 * c2 - a2 * b1 * c2) by (nonlinear_arith);
    assert(b1 * c2 * a2 == a2 * b1 * c2) by (nonlinear_arith);
    assert(b2 * c1 * a2 == c1 * a2 * b2) by (nonlinear_arith);
    assert(c2 * a1 * b2 == a1 * b2 * c2) by (nonlinear_arith);
}

/// The cross products of a point against a triangle's three edges are its
/// barycentric weights: they sum to twice the triangle's signed area, and
/// weigh the vertices into the point.
proof fn lemma_barycentric(px: int, py: int, ax: int, ay: int, bx: int, by: int, cx: int, cy: int)
    ensures
        ({
            let d1 = cross_spec(px, py, ax, ay, bx, by);
            let d2 = cross_spec(px, py, bx, by, cx, cy);
            let d3 = cross_spec(px, py, cx, cy, ax, ay);
            &&& d1 + d2 + d3 == cross_spec(cx, cy, ax, ay, bx, by)
            &&& (d1 + d2 + d3) * px == d2 * ax + d3 * bx + d1 * cx
            &&& (d1 + d2 + d3) * py == d2 * ay + d3 * by + d1 * cy
        }),
{
    let (a1, a2, b1, b2, c1, c2) = (ax - px, ay - py, bx - px, by - py, cx - px, cy - py);
    lemma_cross_from(px, py, ax, ay, bx, by);
    lemma_cross_from(px, py, bx, by, cx, cy);
    lemma_cross_from(px, py, cx, cy, ax, ay);
    let d1 = a1 * b2 - a2 * b1;
    let d2 = b1 * c2 - b2 * c1;
    let d3 = c1 * a2 - c2 * a1;
    assert(cross_spec(cx, cy, ax, ay, bx, by) == (b1 - a1) * (c2 - a2) - (b2 - a2) * (c1 - a1));
    assert((b1 - a1) * (c2 - a2) - (b2 - a2) * (c1 - a1) == d1 + d2 + d3) by (nonlinear_arith)
        requires
            d1 == a1 * b2 - a2 * b1,
            d2 == b1 * c2 - b2 * c1,
            d3 == c1 * a2 - c2 * a1,
    ;
    lemma_weights_cancel(a1, a2, b1, b2, c1, c2);
    lemma_weights_cancel_y(a1, a2, b1, b2, c1, c2);
    assert(d2 * ax == d2 * a1 + d2 * px) by (nonlinear_arith)
        requires
            ax == a1 + px,
    ;
    assert(d3 * bx == d3 * b1 + d3 * px) by (nonlinear_arith)
        requires
            bx == b1 + px,
    ;
    assert(d1 * cx == d1 * c1 + d1 * px) by (nonlinear_arith)
        requires
            cx == c1 + px,
    ;
    assert(d2 * ay == d2 * a2 + d2 * py) by (nonlinear_arith)
        requires
            ay == a2 + py,
    ;
    assert(d3 * by == d3 * b2 + d3 * py) by (nonlinear_arith)
        requires
            by == b2 + py,
    ;
    assert(d1 * cy == d1 * c2 + d1 * py) by (nonlinear_arith)
        requires
            cy == c2 + py,
    ;
    assert((d1 + d2 + d3) * px == d1 * px + d2 * px + d3 * px) by (nonlinear_arith);
    assert((d1 + d2 + d3) * py == d1 * py + d2 * py + d3 * py) by (nonlinear_arith);
    assert(d2 * a1 + d3 * b1 + d1 * c1 == 0);
    assert(d2 * a2 + d3 * b2 + d1 * c2 == 0);
}

/// A pixel a triangle covers lies in the triangle's closed bounding box.
pub proof fn lemma_triangle_cover_in_box(s: ShapeView, x: int, y: int)
    requires
        s is Triangle,
        shape_in_domain(s),
        covers_spec(s, Point { x: x as i32, y: y as i32 }),
        i32::MIN <= x <= i32::MAX && i32::MIN <= y <= i32::MAX,
    ensures
        in_closed_box(bbox_of(s), x, y),
{
    match s {
        ShapeView::Triangle { ax, ay, bx, by, cx, cy } => {
            let (ax, ay, bx, by, cx, cy) = (ax as int, ay as int, bx as int, by as int, cx as int, cy as int);
            lemma_barycentric(x, y, ax, ay, bx, by, cx, cy);
            let d1 = cross_spec(x, y, ax, ay, bx, by);
            let d2 = cross_spec(x, y, bx, by, cx, cy);
            let d3 = cross_spec(x, y, cx, cy, ax, ay);
            if d1 + d2 + d3 > 0 {
                lemma_weighted_mean(d2, d3, d1, ax, bx, cx, x);
                lemma_weighted_mean(d2, d3, d1, ay, by, cy, y);
            } else {
                assert(-(d1 + d2 + d3) * x == (-d2) * ax + (-d3) * bx + (-d1) * cx) by (nonlinear_arith)
                    requires
                        (d1 + d2 + d3) * x == d2 * ax + d3 * bx + d1 * cx,
                ;
                assert(-(d1 + d2 + d3) * y == (-d2) * ay + (-d3) * by + (-d1) * cy) by (nonlinear_arith)
                    requires
                        (d1 + d2 + d3) * y == d2 * ay + d3 * by + d1 * cy,
                ;
                lemma_weighted_mean(-d2, -d3, -d1, ax, bx, cx, x);
                lemma_weighted_mean(-d2, -d3, -d1, ay, by, cy, y);
            }
        },
        _ => {},
    }
}

/// What the triangle raster paints: nothing but for a triangle; a fill
/// paints the covered pixels of the bounding box, an outline of positive
/// thickness those of them closer than it to an edge.
pub open spec fn tri_paint(s: ShapeView, thickness: int, fill: bool, x: int, y: int) -> bool {
    match s {
        ShapeView::Triangle { ax, ay, bx, by, cx, cy } => {
            &&& fill || thickness > 0
            &&& in_closed_box(bbox_of(s), x, y)
            &&& brush_spec(
                Brush::Tri { ax, ay, bx, by, cx, cy, band: if fill { None } else { Some(thickness as i32) } },
                x,
                y,
            )
        },
        _ => false,
    }
}

/// The arithmetic of drawing the shape at `thickness` stays in `i32`.
pub open spec fn draw_fits(s: ShapeView, thickness: int) -> bool {
    match s {
        ShapeView::Circle { r, .. } => fits_i32(r - thickness),
        ShapeView::Ellipse { rx, ry, .. } => fits_i32(rx - thickness) && fits_i32(ry - thickness),
        ShapeView::Poly(pts) => outline_fits(pts),
        _ => true,
    }
}

/// The pixels drawing a shape paints: a fill covers the shape, an
/// outline (of positive thickness) the band just inside its border.
pub open spec fn shape_paint(s: ShapeView, thickness: int, fill: bool, x: int, y: int) -> bool {
    match s {
        ShapeView::Rect(r) => if fill {
            in_box(r, x, y)
        } else {
            thickness > 0 && outline_at(r, thickness, x, y)
        },
        ShapeView::Circle { cx, cy, r } => if fill {
            r > 0 && ring_at(cx as int, cy as int, 0, r as int, x, y)
        } else {
            thickness > 0 && r > 0 && ring_at(
                cx as int,
                cy as int,
                if r - thickness > 0 { r - thickness } else { 0 },
                r as int,
                x,
                y,
            )
        },
        ShapeView::Ellipse { cx, cy, rx, ry } => oval_at(
            cx as int,
            cy as int,
            rx as int,
            ry as int,
            if fill { 0 } else { thickness },
            x,
            y,
        ),
        ShapeView::Triangle { .. } => tri_paint(s, thickness, fill, x, y),
        ShapeView::Poly(pts) => if fill {
            pts.len() >= 3 && in_closed_box(bbox_of(s), x, y) && scan_covers(pts, x, y)
        } else {
            pts.len() >= 2 && thickness > 0 && poly_outline_at(pts, thickness, x, y)
        },
    }
}

/// A fill paints exactly the pixels the shape's hit test covers, whatever
/// the thickness: a rect, a circle or ellipse of positive radii, or a
/// triangle.
pub proof fn lemma_a_fill_paints_its_cover(s: ShapeView, thickness: int, x: int, y: int)
    requires
        shape_in_domain(s),
        match s {
            ShapeView::Rect(_) | ShapeView::Triangle { .. } => true,
            ShapeView::Circle { r, .. } => r > 0,
            ShapeView::Ellipse { rx, ry, .. } => rx > 0 && ry > 0,
            ShapeView::Poly(_) => false,
        },
        i32::MIN <= x <= i32::MAX && i32::MIN <= y <= i32::MAX,
    ensures
        shape_paint(s, thickness, true, x, y) == covers_spec(s, Point { x: x as i32, y: y as i32 }),
{
    if s is Triangle && covers_spec(s, Point { x: x as i32, y: y as i32 }) {
        lemma_triangle_cover_in_box(s, x, y);
    }
}

/// One pixel dimmed to `s`/256 of its brightness, channel by channel.
pub open spec fn dim_px(p: u32, s: u32) -> u32 {
    let r = ((((p >> 16u32) & 0xFFu32) * s) as u32) >> 8u32;
    let g = ((((p >> 8u32) & 0xFFu32) * s) as u32) >> 8u32;
    let b = (((p & 0xFFu32) * s) as u32) >> 8u32;
    (r << 16u32) | (g << 8u32) | b
}

fn dim_value(p: u32, s: u32) -> (v: u32)
    requires
        s <= 16843009,
    ensures
        v == dim_px(p, s),
{
    let rc = (p >> 16) & 0xFF;
    let gc = (p >> 8) & 0xFF;
    let bc = p & 0xFF;
    assert(rc <= 255 && gc <= 255 && bc <= 255) by (bit_vector)
        requires
            rc == (p >> 16) & 0xFF,
            gc == (p >> 8) & 0xFF,
            bc == p & 0xFF,
    ;
    assert(rc * s <= 4294967295 && gc * s <= 4294967295 && bc * s <= 4294967295) by (nonlinear_arith)
        requires
            rc <= 255 && gc <= 255 && bc <= 255,
            s <= 16843009,
    ;
    let r = (rc * s) >> 8;
    let g = (gc * s) >> 8;
    let b = (bc * s) >> 8;
    (r << 16) | (g << 8) | b
}

/// `color` laid over pixel `dst` at coverage `alpha` (0 keeps the pixel,
/// 255 replaces it), channel by channel, rounding down.
pub open spec fn blend_px(dst: u32, color: Color, alpha: u8) -> u32 {
    let cover = alpha as u32;
    let keep = (255 - cover) as u32;
    let r = ((color.r as u32 * cover + ((dst >> 16u32) & 0xFFu32) * keep) / 255) as u32;
    let g = ((color.g as u32 * cover + ((dst >> 8u32) & 0xFFu32) * keep) / 255) as u32;
    let b = ((color.b as u32 * cover + (dst & 0xFFu32) * keep) / 255) as u32;
    (r << 16u32) | (g << 8u32) | b
}

fn blend_value(dst: u32, color: Color, alpha: u8) -> (v: u32)
    ensures
        v == blend_px(dst, color, alpha),
{
    let cover = alpha as u32;
    let keep = 255 - cover;
    let dr = (dst >> 16) & 0xFF;
    let dg = (dst >> 8) & 0xFF;
    let db = dst & 0xFF;
    assert(dr <= 255 && dg <= 255 && db <= 255) by (bit_vector)
        requires
            dr == (dst >> 16) & 0xFF,
            dg == (dst >> 8) & 0xFF,
            db == dst & 0xFF,
    ;
    assert(color.r as u32 * cover + dr * keep <= 65025 && color.g as u32 * cover + dg * keep <= 65025
        && color.b as u32 * cover + db * keep <= 65025) by (nonlinear_arith)
        requires
            dr <= 255 && dg <= 255 && db <= 255,
            cover <= 255,
            keep == 255 - cover,
            color.r <= 255 && color.g <= 255 && color.b <= 255,
    ;
    let red = (color.r as u32 * cover + dr * keep) / 255;
    let green = (color.g as u32 * cover + dg * keep) / 255;
    let blue = (color.b as u32 * cover + db * keep) / 255;
    (red << 16) | (green << 8) | blue
}

impl Canvas {
    /// Wrap a pixel buffer of `w * h` pixels.
    pub fn new(px: Vec<u32>, w: i32, h: i32) -> (c: Self)
        requires
            0 < w <= MAX_COORD && 0 < h <= MAX_COORD,
            px@.len() == w * h,
        ensures
            canvas_ok(c@),
            c@ == (CanvasView { px: px@, w: w as int, h: h as int }),
    {
        Canvas { px, w, h }
    }

    /// The pixels, row-major.
    pub fn pixels(&self) -> (p: &Vec<u32>)
        ensures
            p@ == self@.px,
    {
        &self.px
    }

    /// Give the buffer back.
    pub fn into_pixels(self) -> (p: Vec<u32>)
        ensures
            p@ == self@.px,
    {
        self.px
    }

    /// Set one pixel; off-canvas coordinates are ignored.
    fn set(&mut self, x: i32, y: i32, color: u32)
        requires
            canvas_ok(old(self)@),
        ensures
            paints(old(self)@, final(self)@, |x2: int, y2: int| x2 == x && y2 == y, color),
    {
        if x >= 0 && y >= 0 && x < self.w && y < self.h {
            let n = self.px.len();
            proof {
                lemma_index_in_range(self.w as int, self.h as int, x as int, y as int);
                assert((y as usize) * (self.w as usize) == y * self.w);
            }
            let i = (y as usize) * (self.w as usize) + (x as usize);
            self.px.set(i, color);
            proof {
                assert forall|x2: int, y2: int|
                    #![trigger at(self.px@, self.w as int, x2, y2)]
                    on_canvas(self.w as int, self.h as int, x2, y2) implies at(
                        self.px@,
                        self.w as int,
                        x2,
                        y2,
                    ) == if x2 == x && y2 == y {
                        color
                    } else {
                        at(old(self).px@, self.w as int, x2, y2)
                    } by {
                    lemma_index_in_range(self.w as int, self.h as int, x2, y2);
                    if y2 * self.w + x2 == i {
                        lemma_index_unique(self.w as int, x2, y2, x as int, y as int);
                    }
                }
            }
        }
    }

    /// Paint every on-canvas pixel of the box `[x0, x1] x [y0, y1]`
    /// (bounds included) that the brush covers.
    fn paint(&mut self, x0: i32, y0: i32, x1: i32, y1: i32, brush: &Brush, c: u32)
        requires
            canvas_ok(old(self)@),
            brush_ok(*brush),
        ensures
            paints(
                old(self)@,
                final(self)@,
                |x: int, y: int| x0 <= x <= x1 && y0 <= y <= y1 && brush_spec(*brush, x, y),
                c,
            ),
    {
        let ghost start = self@;
        let ghost goal = |x: int, y: int| x0 <= x <= x1 && y0 <= y <= y1 && brush_spec(*brush, x, y);
        let ya = max_i32(y0, 0);
        let yb = min_i32(y1, self.h - 1);
        let xa = max_i32(x0, 0);
        let xb = min_i32(x1, self.w - 1);
        proof {
            lemma_paints_nothing(start, c);
        }
        if ya > yb || xa > xb {
            proof {
                lemma_paints_same(start, self@, |x: int, y: int| false, goal, c);
            }
            return;
        }
        let mut y = ya;
        proof {
            lemma_paints_same(start, self@, |x: int, y: int| false, |x2: int, y2: int| goal(x2, y2) && y2 < ya, c);
        }
        while y <= yb
            invariant
                ya <= y <= yb + 1,
                0 <= ya,
                yb < start.h,
                0 <= xa <= xb < start.w,
                xa >= x0 && (xa == x0 || xa == 0) && xb <= x1 && (xb == x1 || xb == start.w - 1),
                ya >= y0 && (ya == y0 || ya == 0) && yb <= y1 && (yb == y1 || yb == start.h - 1),
                canvas_ok(start),
                brush_ok(*brush),
                goal == (|x: int, y: int| x0 <= x <= x1 && y0 <= y <= y1 && brush_spec(*brush, x, y)),
                self.w == start.w && self.h == start.h,
                paints(start, self@, |x2: int, y2: int| goal(x2, y2) && y2 < y, c),
            decreases yb - y + 1,
        {
            let mut x = xa;
            proof {
                lemma_paints_same(start, self@, |x2: int, y2: int| goal(x2, y2) && y2 < y, |x2: int, y2: int| goal(x2, y2) && (y2 < y || (y2 == y && x2 < xa)), c);
            }
            while x <= xb
                invariant
                    xa <= x <= xb + 1,
                    0 <= xa <= xb < start.w,
                    0 <= ya <= y <= yb < start.h,
                    xa >= x0 && (xa == x0 || xa == 0) && xb <= x1 && (xb == x1 || xb == start.w - 1),
                    ya >= y0 && (ya == y0 || ya == 0) && yb <= y1 && (yb == y1 || yb == start.h - 1),
                    canvas_ok(start),
                    brush_ok(*brush),
                    goal == (|x: int, y: int| x0 <= x <= x1 && y0 <= y <= y1 && brush_spec(*brush, x, y)),
                    self.w == start.w && self.h == start.h,
                    paints(start, self@, |x2: int, y2: int| goal(x2, y2) && (y2 < y || (y2 == y && x2 < x)), c),
                decreases xb - x + 1,
            {
                let ghost before = self@;
                if brush_covers(brush, x, y) {
                    self.set(x, y, c);
                    proof {
                        lemma_paints_compose(start, before, self@, |x2: int, y2: int| goal(x2, y2) && (y2 < y || (y2 == y && x2 < x)), |x2: int, y2: int| x2 == x && y2 == y, c);
                    }
                }
                proof {
                    lemma_paints_same(start, self@, |x2: int, y2: int| (goal(x2, y2) && (y2 < y || (y2 == y && x2 < x))) || (brush_spec(*brush, x as int, y as int) && x2 == x && y2 == y), |x2: int, y2: int| goal(x2, y2) && (y2 < y || (y2 == y && x2 < x + 1)), c);
                }
                x = x + 1;
            }
            proof {
                lemma_paints_same(start, self@, |x2: int, y2: int| goal(x2, y2) && (y2 < y || (y2 == y && x2 < x)), |x2: int, y2: int| goal(x2, y2) && y2 < y + 1, c);
            }
            y = y + 1;
        }
        proof {
            lemma_paints_same(start, self@, |x2: int, y2: int| goal(x2, y2) && y2 < y, goal, c);
        }
    }

    /// Fill the on-canvas part of `rect`.
    pub fn fill_rect(&mut self, rect: Rect, color: Color)
        requires
            canvas_ok(old(self)@),
            rect.ends_fit(),
        ensures
            paints(
                old(self)@,
                final(self)@,
                |x: int, y: int| rect.x <= x < rect.x + rect.w && rect.y <= y < rect.y + rect.h,
                rgb_spec(color),
            ),
    {
        let ghost start = self@;
        let c = color.to_0rgb();
        let x0 = max_i32(rect.x, 0);
        let y0 = max_i32(rect.y, 0);
        let x1 = min_i32(rect.x + rect.w, self.w);
        let y1 = min_i32(rect.y + rect.h, self.h);
        let ghost goal = |x: int, y: int| rect.x <= x < rect.x + rect.w && rect.y <= y < rect.y + rect.h;
        if x1 <= x0 || y1 <= y0 {
            proof {
                lemma_paints_nothing(start, c);
                lemma_paints_same(start, self@, |x: int, y: int| false, goal, c);
            }
            return;
        }
        self.paint(x0, y0, x1 - 1, y1 - 1, &Brush::Area(rect), c);
        proof {
            lemma_paints_same(
                start,
                self@,
                |x: int, y: int| x0 <= x <= x1 - 1 && y0 <= y <= y1 - 1 && brush_spec(Brush::Area(rect), x, y),
                goal,
                c,
            );
        }
    }

    /// Fill the pixels whose distance from (`cx`, `cy`) lies in
    /// (`inner`, `outer`] — `inner = 0` fills the disc; a non-positive
    /// `outer` draws nothing.
    fn circle_band(&mut self, cx: i32, cy: i32, inner: i32, outer: i32, color: Color)
        requires
            canvas_ok(old(self)@),
            coord_ok(cx as int) && coord_ok(cy as int) && 0 <= inner <= MAX_COORD && coord_ok(outer as int),
        ensures
            paints(old(self)@, final(self)@, |x: int, y: int| outer > 0 && ring_at(cx as int, cy as int, inner as int, outer as int, x, y), rgb_spec(color)),
    {
        let ghost start = self@;
        let c = color.to_0rgb();
        let ghost goal = |x: int, y: int| outer > 0 && ring_at(cx as int, cy as int, inner as int, outer as int, x, y);
        if outer <= 0 {
            proof {
                lemma_paints_nothing(start, c);
                lemma_paints_same(start, self@, |x: int, y: int| false, goal, c);
            }
            return;
        }
        let brush = Brush::Ring { cx, cy, inner, outer };
        self.paint(cx - outer, cy - outer, cx + outer, cy + outer, &brush, c);
        proof {
            let lhs = |x: int, y: int| cx - outer <= x <= cx + outer && cy - outer <= y <= cy + outer && brush_spec(brush, x, y);
            assert forall|x: int, y: int| on_canvas(start.w, start.h, x, y) implies lhs(x, y) == goal(x, y) by {
                if goal(x, y) {
                    assert((y - cy) * (y - cy) >= 0 && (x - cx) * (x - cx) >= 0) by (nonlinear_arith);
                    lemma_square_bound(x - cx, (y - cy) * (y - cy), outer as int);
                    lemma_square_bound(y - cy, (x - cx) * (x - cx), outer as int);
                }
            }
            lemma_paints_same(start, self@, lhs, goal, c);
        }
    }

    /// Fill the disc of radius `r` about (`cx`, `cy`).
    pub fn fill_circle(&mut self, cx: i32, cy: i32, r: i32, color: Color)
        requires
            canvas_ok(old(self)@),
            coord_ok(cx as int) && coord_ok(cy as int) && coord_ok(r as int),
        ensures
            paints(old(self)@, final(self)@, |x: int, y: int| r > 0 && ring_at(cx as int, cy as int, 0, r as int, x, y), rgb_spec(color)),
    {
        self.circle_band(cx, cy, 0, r, color);
    }

    /// The annulus of width `thickness` just inside radius `r`; a
    /// non-positive thickness draws nothing.
    pub fn draw_circle_outline(&mut self, cx: i32, cy: i32, r: i32, color: Color, thickness: i32)
        requires
            canvas_ok(old(self)@),
            coord_ok(cx as int) && coord_ok(cy as int) && coord_ok(r as int),
            fits_i32(r - thickness),
        ensures
            paints(
                old(self)@,
                final(self)@,
                |x: int, y: int| thickness > 0 && r > 0 && ring_at(cx as int, cy as int, if r - thickness > 0 { r - thickness } else { 0 }, r as int, x, y),
                rgb_spec(color),
            ),
    {
        let ghost start = self@;
        if thickness <= 0 {
            proof {
                lemma_paints_nothing(start, rgb_spec(color));
            }
            return;
        }
        self.circle_band(cx, cy, max_i32(r - thickness, 0), r, color);
    }

    /// Fill the region between the ellipse with radii (`rx`, `ry`) and, for
    /// `thickness > 0`, the concentric ellipse `thickness` smaller on each
    /// radius; thickness 0 fills the whole interior.
    fn ellipse_band(&mut self, cx: i32, cy: i32, rx: i32, ry: i32, thickness: i32, color: Color)
        requires
            canvas_ok(old(self)@),
            coord_ok(cx as int) && coord_ok(cy as int) && coord_ok(rx as int) && coord_ok(ry as int),
            fits_i32(rx - thickness) && fits_i32(ry - thickness),
        ensures
            paints(old(self)@, final(self)@, |x: int, y: int| oval_at(cx as int, cy as int, rx as int, ry as int, thickness as int, x, y), rgb_spec(color)),
    {
        let ghost start = self@;
        let c = color.to_0rgb();
        let ghost goal = |x: int, y: int| oval_at(cx as int, cy as int, rx as int, ry as int, thickness as int, x, y);
        if rx <= 0 || ry <= 0 {
            proof {
                lemma_paints_nothing(start, c);
                lemma_paints_same(start, self@, |x: int, y: int| false, goal, c);
            }
            return;
        }
        let (irx, iry) = if thickness <= 0 {
            (-1i32, -1i32)
        } else {
            (max_i32(rx - thickness, 0), max_i32(ry - thickness, 0))
        };
        let brush = Brush::Oval { cx, cy, rx, ry, irx, iry };
        self.paint(cx - rx, cy - ry, cx + rx, cy + ry, &brush, c);
        proof {
            let lhs = |x: int, y: int| cx - rx <= x <= cx + rx && cy - ry <= y <= cy + ry && brush_spec(brush, x, y);
            assert forall|x: int, y: int| on_canvas(start.w, start.h, x, y) implies lhs(x, y) == goal(x, y) by {
                if goal(x, y) {
                    lemma_ellipse_box(x - cx, y - cy, rx as int, ry as int);
                }
            }
            lemma_paints_same(start, self@, lhs, goal, c);
        }
    }

    /// The band of width `thickness` just inside `rect`; a non-positive
    /// thickness draws nothing. The band is capped at the rect's size.
    pub fn draw_rect_outline(&mut self, rect: Rect, color: Color, thickness: i32)
        requires
            canvas_ok(old(self)@),
            rect.in_domain(),
        ensures
            paints(old(self)@, final(self)@, |x: int, y: int| thickness > 0 && outline_at(rect, thickness as int, x, y), rgb_spec(color)),
    {
        let ghost start = self@;
        let ghost c = rgb_spec(color);
        if thickness <= 0 {
            proof {
                lemma_paints_nothing(start, c);
            }
            return;
        }
        let t = min_i32(min_i32(thickness, rect.w), rect.h);
        let top = Rect::new(rect.x, rect.y, rect.w, t);
        let bottom = Rect::new(rect.x, rect.y + rect.h - t, rect.w, t);
        let left = Rect::new(rect.x, rect.y, t, rect.h);
        let right = Rect::new(rect.x + rect.w - t, rect.y, t, rect.h);
        self.fill_rect(top, color);
        let ghost s1 = self@;
        self.fill_rect(bottom, color);
        let ghost s2 = self@;
        proof {
            lemma_paints_compose(start, s1, s2, |x: int, y: int| in_box(top, x, y), |x: int, y: int| in_box(bottom, x, y), c);
        }
        self.fill_rect(left, color);
        let ghost s3 = self@;
        proof {
            lemma_paints_compose(start, s2, s3, |x: int, y: int| in_box(top, x, y) || in_box(bottom, x, y), |x: int, y: int| in_box(left, x, y), c);
        }
        self.fill_rect(right, color);
        proof {
            lemma_paints_compose(start, s3, self@, |x: int, y: int| (in_box(top, x, y) || in_box(bottom, x, y)) || in_box(left, x, y), |x: int, y: int| in_box(right, x, y), c);
            lemma_paints_same(
                start,
                self@,
                |x: int, y: int| ((in_box(top, x, y) || in_box(bottom, x, y)) || in_box(left, x, y)) || in_box(right, x, y),
                |x: int, y: int| thickness > 0 && outline_at(rect, thickness as int, x, y),
                c,
            );
        }
    }

    /// Triangle raster over its bounding box: fill is coverage; outline is
    /// the covered pixels closer than `thickness` to an edge. Anything but
    /// a triangle, or an outline of non-positive thickness, draws nothing.
    fn draw_triangle(&mut self, shape: &Shape, color: Color, thickness: i32, fill: bool)
        requires
            canvas_ok(old(self)@),
            shape.in_domain(),
        ensures
            paints(old(self)@, final(self)@, |x: int, y: int| tri_paint(shape@, thickness as int, fill, x, y), rgb_spec(color)),
    {
        let ghost start = self@;
        let c = color.to_0rgb();
        let ghost goal = |x: int, y: int| tri_paint(shape@, thickness as int, fill, x, y);
        match shape {
            Shape::Triangle { ax, ay, bx, by, cx, cy } => {
                if !fill && thickness <= 0 {
                    proof {
                        lemma_paints_nothing(start, c);
                        lemma_paints_same(start, self@, |x: int, y: int| false, goal, c);
                    }
                    return;
                }
                let bb = shape.bbox();
                let band = if fill { None } else { Some(thickness) };
                let brush = Brush::Tri { ax: *ax, ay: *ay, bx: *bx, by: *by, cx: *cx, cy: *cy, band };
                proof {
                    crate::geometry::lemma_vertex_bbox(shape@);
                }
                self.paint(bb.x, bb.y, bb.x + bb.w, bb.y + bb.h, &brush, c);
                proof {
                    let lhs = |x: int, y: int| bb.x <= x <= bb.x + bb.w && bb.y <= y <= bb.y + bb.h && brush_spec(brush, x, y);
                    assert forall|x: int, y: int| on_canvas(start.w, start.h, x, y) implies lhs(x, y) == goal(x, y) by {}
                    lemma_paints_same(start, self@, lhs, goal, c);
                }
            },
            _ => {
                proof {
                    lemma_paints_nothing(start, c);
                    lemma_paints_same(start, self@, |x: int, y: int| false, goal, c);
                }
            },
        }
    }

    /// Even-odd scanline fill over the polygon's bounding box — correct for
    /// concave and self-touching outlines. Fewer than three points fill
    /// nothing.
    fn fill_poly(&mut self, points: &Vec<Point>, color: Color)
        requires
            canvas_ok(old(self)@),
            points_in_domain(points@),
        ensures
            paints(old(self)@, final(self)@, |x: int, y: int| points@.len() >= 3 && in_closed_box(bbox_of(ShapeView::Poly(points@)), x, y) && scan_covers(points@, x, y), rgb_spec(color)),
    {
        let ghost start = self@;
        let c = color.to_0rgb();
        let ghost goal = |x: int, y: int| points@.len() >= 3 && in_closed_box(bbox_of(ShapeView::Poly(points@)), x, y) && scan_covers(points@, x, y);
        if points.len() < 3 {
            proof {
                lemma_paints_nothing(start, c);
                lemma_paints_same(start, self@, |x: int, y: int| false, goal, c);
            }
            return;
        }
        let shape = Shape::Poly { points: points.clone() };
        proof {
            assert(shape@ == ShapeView::Poly(points@));
            crate::geometry::lemma_vertex_bbox(shape@);
        }
        let bb = shape.bbox();
        let brush = Brush::Scan(points.clone());
        self.paint(bb.x, bb.y, bb.x + bb.w, bb.y + bb.h, &brush, c);
        proof {
            let lhs = |x: int, y: int| bb.x <= x <= bb.x + bb.w && bb.y <= y <= bb.y + bb.h && brush_spec(brush, x, y);
            assert forall|x: int, y: int| on_canvas(start.w, start.h, x, y) implies lhs(x, y) == goal(x, y) by {}
            lemma_paints_same(start, self@, lhs, goal, c);
        }
    }

    /// A thick segment as a run of small filled squares along it.
    fn stamp_segment(&mut self, a: Point, b: Point, color: Color, thickness: i32)
        requires
            canvas_ok(old(self)@),
            a.in_domain() && b.in_domain(),
            stamp_fits(a, b),
            thickness > 0,
        ensures
            paints(old(self)@, final(self)@, |x: int, y: int| stamp_at(a, b, thickness as int, x, y), rgb_spec(color)),
    {
        let ghost start = self@;
        let ghost c = rgb_spec(color);
        let dx = b.x - a.x;
        let dy = b.y - a.y;
        let adx = if dx < 0 { -dx } else { dx };
        let ady = if dy < 0 { -dy } else { dy };
        let steps = max_i32(max_i32(adx, ady), 1);
        let half = thickness / 2;
        proof {
            assert(steps == stamp_steps(a, b));
            lemma_paints_nothing(start, c);
            lemma_paints_same(start, self@, |x: int, y: int| false, |x: int, y: int| exists|k: int| 0 <= k < 0 && #[trigger] in_box(stamp_square(a, b, thickness as int, k), x, y), c);
        }
        let mut i: i32 = 0;
        while i <= steps
            invariant
                0 <= i <= steps + 1,
                steps == stamp_steps(a, b),
                steps * steps <= i32::MAX,
                dx == b.x - a.x && dy == b.y - a.y,
                -steps <= dx <= steps && -steps <= dy <= steps,
                half == thickness / 2,
                thickness > 0,
                a.in_domain() && b.in_domain(),
                canvas_ok(start),
                c == rgb_spec(color),
                paints(start, self@, |x: int, y: int| exists|k: int| 0 <= k < i && #[trigger] in_box(stamp_square(a, b, thickness as int, k), x, y), c),
            decreases steps + 1 - i,
        {
            proof {
                assert(-(steps * steps) <= dx * i <= steps * steps) by (nonlinear_arith)
                    requires
                        -steps <= dx <= steps,
                        0 <= i <= steps,
                ;
                assert(-(steps * steps) <= dy * i <= steps * steps) by (nonlinear_arith)
                    requires
                        -steps <= dy <= steps,
                        0 <= i <= steps,
                ;
            }
            let nx = dx * i;
            let ny = dy * i;
            let qx = if nx >= 0 { nx / steps } else { -((-nx) / steps) };
            let qy = if ny >= 0 { ny / steps } else { -((-ny) / steps) };
            proof {
                assert(qx == trunc_div(nx as int, steps as int));
                assert(qy == trunc_div(ny as int, steps as int));
                assert(-steps <= qx <= steps) by (nonlinear_arith)
                    requires
                        qx == trunc_div(nx as int, steps as int),
                        -(steps * steps) <= nx <= steps * steps,
                        steps >= 1,
                ;
                assert(-steps <= qy <= steps) by (nonlinear_arith)
                    requires
                        qy == trunc_div(ny as int, steps as int),
                        -(steps * steps) <= ny <= steps * steps,
                        steps >= 1,
                ;
            }
            let x = a.x + qx;
            let y = a.y + qy;
            let side = max_i32(thickness, 1);
            let sq = Rect::new(x - half, y - half, side, side);
            proof {
                assert(sq == stamp_square(a, b, thickness as int, i as int));
            }
            let ghost before = self@;
            self.fill_rect(sq, color);
            proof {
                lemma_paints_compose(start, before, self@, |x2: int, y2: int| exists|k: int| 0 <= k < i && #[trigger] in_box(stamp_square(a, b, thickness as int, k), x2, y2), |x2: int, y2: int| in_box(sq, x2, y2), c);
                let lhs = |x2: int, y2: int| (exists|k: int| 0 <= k < i && #[trigger] in_box(stamp_square(a, b, thickness as int, k), x2, y2)) || in_box(sq, x2, y2);
                let rhs = |x2: int, y2: int| exists|k: int| 0 <= k < i + 1 && #[trigger] in_box(stamp_square(a, b, thickness as int, k), x2, y2);
                assert forall|x2: int, y2: int| on_canvas(start.w, start.h, x2, y2) implies lhs(x2, y2) == rhs(x2, y2) by {
                    if in_box(sq, x2, y2) {
                        assert(in_box(stamp_square(a, b, thickness as int, i as int), x2, y2));
                    }
                    if rhs(x2, y2) {
                        let k = choose|k: int| 0 <= k < i + 1 && #[trigger] in_box(stamp_square(a, b, thickness as int, k), x2, y2);
                        if k == i {
                            assert(in_box(sq, x2, y2));
                        }
                    }
                }
                lemma_paints_same(start, self@, lhs, rhs, c);
            }
            i = i + 1;
        }
        proof {
            lemma_paints_same(start, self@, |x: int, y: int| exists|k: int| 0 <= k < i && #[trigger] in_box(stamp_square(a, b, thickness as int, k), x, y), |x: int, y: int| stamp_at(a, b, thickness as int, x, y), c);
        }
    }

    /// The closed outline as stamped edge segments, the last vertex back
    /// to the first. Fewer than two points or a non-positive thickness
    /// draw nothing.
    fn draw_poly_outline(&mut self, points: &Vec<Point>, color: Color, thickness: i32)
        requires
            canvas_ok(old(self)@),
            points_in_domain(points@),
            outline_fits(points@),
        ensures
            paints(old(self)@, final(self)@, |x: int, y: int| points@.len() >= 2 && thickness > 0 && poly_outline_at(points@, thickness as int, x, y), rgb_spec(color)),
    {
        let ghost start = self@;
        let ghost c = rgb_spec(color);
        let ghost pts = points@;
        let n = points.len();
        proof {
            lemma_paints_nothing(start, c);
        }
        if n < 2 || thickness <= 0 {
            return;
        }
        proof {
            lemma_paints_same(start, self@, |x: int, y: int| false, |x: int, y: int| exists|i: int| 0 <= i < 0 && stamp_at(#[trigger] pts[i], next_vertex(pts, i), thickness as int, x, y), c);
        }
        let mut i: usize = 0;
        while i < n
            invariant
                2 <= n == pts.len(),
                pts == points@,
                i <= n,
                thickness > 0,
                points_in_domain(pts),
                outline_fits(pts),
                canvas_ok(start),
                c == rgb_spec(color),
                paints(start, self@, |x: int, y: int| exists|j: int| 0 <= j < i && stamp_at(#[trigger] pts[j], next_vertex(pts, j), thickness as int, x, y), c),
            decreases n - i,
        {
            let a = points[i];
            let b = points[(i + 1) % n];
            assert(b == next_vertex(pts, i as int));
            assert(a.in_domain() && b.in_domain());
            assert(stamp_fits(pts[i as int], next_vertex(pts, i as int)));
            let ghost before = self@;
            self.stamp_segment(a, b, color, thickness);
            proof {
                let prev = |x: int, y: int| exists|j: int| 0 <= j < i && stamp_at(#[trigger] pts[j], next_vertex(pts, j), thickness as int, x, y);
                let seg = |x: int, y: int| stamp_at(a, b, thickness as int, x, y);
                lemma_paints_compose(start, before, self@, prev, seg, c);
                let next = |x: int, y: int| exists|j: int| 0 <= j < i + 1 && stamp_at(#[trigger] pts[j], next_vertex(pts, j), thickness as int, x, y);
                assert forall|x: int, y: int| on_canvas(start.w, start.h, x, y) implies (prev(x, y) || seg(x, y)) == next(x, y) by {
                    if seg(x, y) {
                        assert(stamp_at(pts[i as int], next_vertex(pts, i as int), thickness as int, x, y));
                    }
                    if next(x, y) {
                        let j = choose|j: int| 0 <= j < i + 1 && stamp_at(#[trigger] pts[j], next_vertex(pts, j), thickness as int, x, y);
                        if j == i {
                            assert(seg(x, y));
                        } else {
                            assert(prev(x, y));
                        }
                    }
                }
                lemma_paints_same(start, self@, |x: int, y: int| prev(x, y) || seg(x, y), next, c);
            }
            i = i + 1;
        }
        proof {
            lemma_paints_same(start, self@, |x: int, y: int| exists|j: int| 0 <= j < n && stamp_at(#[trigger] pts[j], next_vertex(pts, j), thickness as int, x, y), |x: int, y: int| points@.len() >= 2 && thickness > 0 && poly_outline_at(points@, thickness as int, x, y), c);
        }
    }

    /// Draw a selection shape as outline or fill.
    pub fn draw_shape(&mut self, shape: &Shape, color: Color, thickness: i32, fill: bool)
        requires
            canvas_ok(old(self)@),
            shape.in_domain(),
            !fill ==> draw_fits(shape@, thickness as int),
        ensures
            paints(old(self)@, final(self)@, |x: int, y: int| shape_paint(shape@, thickness as int, fill, x, y), rgb_spec(color)),
    {
        let ghost start = self@;
        let ghost c = rgb_spec(color);
        match shape {
            Shape::Rect(r) => {
                if fill {
                    self.fill_rect(*r, color);
                } else {
                    self.draw_rect_outline(*r, color, thickness);
                }
            },
            Shape::Circle { cx, cy, r } => {
                if fill {
                    self.fill_circle(*cx, *cy, *r, color);
                } else {
                    self.draw_circle_outline(*cx, *cy, *r, color, thickness);
                }
            },
            Shape::Ellipse { cx, cy, rx, ry } => {
                if fill {
                    self.ellipse_band(*cx, *cy, *rx, *ry, 0, color);
                } else {
                    self.ellipse_band(*cx, *cy, *rx, *ry, thickness, color);
                }
            },
            Shape::Triangle { .. } => self.draw_triangle(shape, color, thickness, fill),
            Shape::Poly { points } => {
                if fill {
                    self.fill_poly(points, color);
                } else {
                    self.draw_poly_outline(points, color, thickness);
                }
            },
        }
    }

    /// The pixel at (`x`, `y`).
    fn get(&self, x: i32, y: i32) -> (v: u32)
        requires
            canvas_ok(self@),
            on_canvas(self@.w, self@.h, x as int, y as int),
        ensures
            v == at(self@.px, self@.w, x as int, y as int),
    {
        let n = self.px.len();
        proof {
            lemma_index_in_range(self.w as int, self.h as int, x as int, y as int);
            assert((y as usize) * (self.w as usize) == y * self.w);
        }
        self.px[(y as usize) * (self.w as usize) + (x as usize)]
    }

    /// Darken the on-canvas pixels inside `rect` to `strength`/256 of their
    /// brightness, channel by channel — a backdrop panel without an alpha
    /// channel. 0 blacks out, 256 leaves the pixels untouched.
    pub fn dim_rect(&mut self, rect: Rect, strength: u32)
        requires
            canvas_ok(old(self)@),
            rect.ends_fit(),
            strength <= 16843009,
        ensures
            canvas_ok(final(self)@),
            final(self)@.w == old(self)@.w && final(self)@.h == old(self)@.h,
            forall|x: int, y: int|
                #![trigger at(final(self)@.px, old(self)@.w, x, y)]
                on_canvas(old(self)@.w, old(self)@.h, x, y) ==> at(final(self)@.px, old(self)@.w, x, y) == if in_box(rect, x, y) {
                    dim_px(at(old(self)@.px, old(self)@.w, x, y), strength)
                } else {
                    at(old(self)@.px, old(self)@.w, x, y)
                },
    {
        let ghost start = self@;
        let x0 = max_i32(rect.x, 0);
        let y0 = max_i32(rect.y, 0);
        let x1 = min_i32(rect.x + rect.w, self.w);
        let y1 = min_i32(rect.y + rect.h, self.h);
        let mut y = y0;
        while y < y1
            invariant
                0 <= x0 && x0 >= rect.x && (x0 == rect.x || x0 == 0) && x1 <= start.w && x1 <= rect.x + rect.w && (x1 == rect.x + rect.w || x1 == start.w),
                0 <= y0 <= y && y0 >= rect.y && (y0 == rect.y || y0 == 0) && y1 <= start.h && y1 <= rect.y + rect.h && (y1 == rect.y + rect.h || y1 == start.h),
                y0 < y1 ==> y <= y1,
                canvas_ok(start),
                strength <= 16843009,
                self@.w == start.w && self@.h == start.h && canvas_ok(self@),
                forall|x2: int, y2: int|
                    #![trigger at(self@.px, start.w, x2, y2)]
                    on_canvas(start.w, start.h, x2, y2) ==> at(self@.px, start.w, x2, y2) == if in_box(rect, x2, y2) && y2 < y {
                        dim_px(at(start.px, start.w, x2, y2), strength)
                    } else {
                        at(start.px, start.w, x2, y2)
                    },
            decreases y1 - y,
        {
            let mut x = x0;
            while x < x1
                invariant
                    0 <= x0 && x0 >= rect.x && (x0 == rect.x || x0 == 0) && x1 <= start.w && x1 <= rect.x + rect.w && (x1 == rect.x + rect.w || x1 == start.w),
                    0 <= y0 <= y < y1 <= start.h && y0 >= rect.y && y1 <= rect.y + rect.h && (y0 == rect.y || y0 == 0) && (y1 == rect.y + rect.h || y1 == start.h),
                    x0 < x1 ==> x0 <= x <= x1,
                    x0 >= x1 ==> x == x0,
                    canvas_ok(start),
                    strength <= 16843009,
                    self@.w == start.w && self@.h == start.h && canvas_ok(self@),
                    forall|x2: int, y2: int|
                        #![trigger at(self@.px, start.w, x2, y2)]
                        on_canvas(start.w, start.h, x2, y2) ==> at(self@.px, start.w, x2, y2) == if in_box(rect, x2, y2) && (y2 < y || (y2 == y && x2 < x)) {
                            dim_px(at(start.px, start.w, x2, y2), strength)
                        } else {
                            at(start.px, start.w, x2, y2)
                        },
                decreases x1 - x,
            {
                let p = self.get(x, y);
                let v = dim_value(p, strength);
                let ghost before = self@;
                proof {
                    assert(at(before.px, start.w, x as int, y as int) == at(start.px, start.w, x as int, y as int));
                    assert(in_box(rect, x as int, y as int));
                }
                self.set(x, y, v);
                proof {
                    assert forall|x2: int, y2: int|
                        #![trigger at(self@.px, start.w, x2, y2)]
                        on_canvas(start.w, start.h, x2, y2) implies at(self@.px, start.w, x2, y2) == if in_box(rect, x2, y2) && (y2 < y || (y2 == y && x2 < x + 1)) {
                            dim_px(at(start.px, start.w, x2, y2), strength)
                        } else {
                            at(start.px, start.w, x2, y2)
                        } by {
                        assert(at(self@.px, start.w, x2, y2) == if x2 == x && y2 == y { v } else { at(before.px, start.w, x2, y2) });
                        assert(at(before.px, start.w, x2, y2) == if in_box(rect, x2, y2) && (y2 < y || (y2 == y && x2 < x)) {
                            dim_px(at(start.px, start.w, x2, y2), strength)
                        } else {
                            at(start.px, start.w, x2, y2)
                        });
                    }
                }
                x = x + 1;
            }
            y = y + 1;
        }
    }

    /// Source-over blend of `color` at coverage `alpha` onto one pixel;
    /// off-canvas coordinates are ignored.
    pub fn blend(&mut self, col: i32, row: i32, color: Color, alpha: u8)
        requires
            canvas_ok(old(self)@),
        ensures
            paints(
                old(self)@,
                final(self)@,
                |x: int, y: int| x == col && y == row,
                blend_px(at(old(self)@.px, old(self)@.w, col as int, row as int), color, alpha),
            ),
    {
        let ghost start = self@;
        if col < 0 || row < 0 || col >= self.w || row >= self.h {
            proof {
                lemma_paints_nothing(start, blend_px(at(start.px, start.w, col as int, row as int), color, alpha));
                lemma_paints_same(start, self@, |x: int, y: int| false, |x: int, y: int| x == col && y == row, blend_px(at(start.px, start.w, col as int, row as int), color, alpha));
            }
            return;
        }
        let dst = self.get(col, row);
        let v = blend_value(dst, color, alpha);
        self.set(col, row, v);
    }
}

/// One rasterized glyph: where its bitmap sits relative to the pen (`xmin`
/// right of it, `ymin` up from the baseline to the bitmap's bottom row),
/// and its row-major coverage, 0 transparent to 255 full ink.
pub struct Glyph {
    pub xmin: i32,
    pub ymin: i32,
    pub width: usize,
    pub height: usize,
    pub coverage: Vec<u8>,
}

/// A glyph whose coverage fills its bitmap and whose placement is in the
/// coordinate domain.
pub open spec fn glyph_ok(g: Glyph) -> bool {
    &&& g.coverage@.len() == g.width * g.height
    &&& g.width <= MAX_COORD && g.height <= MAX_COORD
    &&& coord_ok(g.xmin as int) && coord_ok(g.ymin as int)
}

/// The coverage glyph `g` lays on pixel (`x`, `y`) with its pen at
/// (`pen_x`, `baseline`); 0 off its bitmap.
pub open spec fn glyph_cover(g: Glyph, pen_x: int, baseline: int, x: int, y: int) -> u8 {
    let col = x - (pen_x + g.xmin);
    let row = y - (baseline - g.height - g.ymin);
    if 0 <= col < g.width && 0 <= row < g.height {
        g.coverage@[row * g.width + col]
    } else {
        0
    }
}

/// A pixel after `color` is laid over it at coverage `a`: blended, or
/// untouched where the coverage is 0.
pub open spec fn laid(dst: u32, color: Color, a: u8) -> u32 {
    if a == 0 {
        dst
    } else {
        blend_px(dst, color, a)
    }
}

/// The part of `glyph_cover` whose cells come before (`row`, `col`) in
/// row-major order.
pub open spec fn cover_before(g: Glyph, pen_x: int, baseline: int, row: int, col: int, x: int, y: int) -> u8 {
    let c = x - (pen_x + g.xmin);
    let r = y - (baseline - g.height - g.ymin);
    if r < row || (r == row && c < col) {
        glyph_cover(g, pen_x, baseline, x, y)
    } else {
        0
    }
}

/// Every pixel of `new` is the one of `old` with `color` laid over it at
/// `cover(x, y)`.
pub open spec fn laid_over(old: CanvasView, new: CanvasView, cover: spec_fn(int, int) -> u8, color: Color) -> bool {
    &&& canvas_ok(new)
    &&& new.w == old.w && new.h == old.h
    &&& forall|x: int, y: int|
        #![trigger at(new.px, new.w, x, y)]
        on_canvas(old.w, old.h, x, y) ==> at(new.px, new.w, x, y) == laid(at(old.px, old.w, x, y), color, cover(x, y))
}

/// The pixel at (`x`, `y`) after the first `k` glyphs of a line of text,
/// each one `advance` right of the last, are laid over `dst`.
pub open spec fn text_pixel(
    dst: u32,
    glyphs: Seq<Glyph>,
    x0: int,
    baseline: int,
    advance: int,
    color: Color,
    x: int,
    y: int,
    k: int,
) -> u32
    decreases k,
{
    if k <= 0 {
        dst
    } else {
        laid(
            text_pixel(dst, glyphs, x0, baseline, advance, color, x, y, k - 1),
            color,
            glyph_cover(glyphs[k - 1], x0 + (k - 1) * advance, baseline, x, y),
        )
    }
}

impl Canvas {
    /// One glyph with its pen at (`pen_x`, `baseline`), blended pixel by
    /// pixel at its coverage; cells of no coverage leave their pixel alone.
    pub fn blend_glyph(&mut self, pen_x: i32, baseline: i32, glyph: &Glyph, color: Color)
        requires
            canvas_ok(old(self)@),
            glyph_ok(*glyph),
            coord_ok(pen_x as int),
            -2 * MAX_COORD <= baseline <= 2 * MAX_COORD,
        ensures
            laid_over(
                old(self)@,
                final(self)@,
                |x: int, y: int| glyph_cover(*glyph, pen_x as int, baseline as int, x, y),
                color,
            ),
    {
        let ghost start = self@;
        let w = glyph.width;
        let h = glyph.height;
        let x0 = pen_x + glyph.xmin;
        let y0 = baseline - h as i32 - glyph.ymin;
        let mut row: usize = 0;
        while row < h
            invariant
                row <= h,
                w == glyph.width && h == glyph.height,
                glyph_ok(*glyph),
                x0 == pen_x + glyph.xmin,
                y0 == baseline - glyph.height - glyph.ymin,
                coord_ok(pen_x as int),
                -2 * MAX_COORD <= baseline <= 2 * MAX_COORD,
                canvas_ok(start),
                laid_over(
                    start,
                    self@,
                    |x: int, y: int| cover_before(*glyph, pen_x as int, baseline as int, row as int, 0, x, y),
                    color,
                ),
            decreases h - row,
        {
            let mut col: usize = 0;
            while col < w
                invariant
                    row < h,
                    col <= w,
                    w == glyph.width && h == glyph.height,
                    glyph_ok(*glyph),
                    x0 == pen_x + glyph.xmin,
                    y0 == baseline - glyph.height - glyph.ymin,
                    coord_ok(pen_x as int),
                    -2 * MAX_COORD <= baseline <= 2 * MAX_COORD,
                    canvas_ok(start),
                    laid_over(
                        start,
                        self@,
                        |x: int, y: int| cover_before(*glyph, pen_x as int, baseline as int, row as int, col as int, x, y),
                        color,
                    ),
                decreases w - col,
            {
                let n = glyph.coverage.len();
                proof {
                    assert(row * w + col < w * h) by (nonlinear_arith)
                        requires
                            row < h,
                            col < w,
                    ;
                    assert(0 <= row * w) by (nonlinear_arith);
                    assert(row * w + col < n);
                }
                let a = glyph.coverage[row * w + col];
                let ghost before = self@;
                let gx = x0 + col as i32;
                let gy = y0 + row as i32;
                if a != 0 {
                    self.blend(gx, gy, color, a);
                }
                proof {
                    assert forall|x: int, y: int| on_canvas(start.w, start.h, x, y) implies #[trigger] at(
                        self@.px,
                        self@.w,
                        x,
                        y,
                    ) == laid(
                        at(start.px, start.w, x, y),
                        color,
                        cover_before(*glyph, pen_x as int, baseline as int, row as int, col + 1, x, y),
                    ) by {
                        assert(at(before.px, before.w, x, y) == laid(
                            at(start.px, start.w, x, y),
                            color,
                            cover_before(*glyph, pen_x as int, baseline as int, row as int, col as int, x, y),
                        ));
                        if x == gx && y == gy {
                            assert(glyph_cover(*glyph, pen_x as int, baseline as int, x, y) == a);
                        }
                    }
                }
                col = col + 1;
            }
            proof {
                assert forall|x: int, y: int| on_canvas(start.w, start.h, x, y) implies #[trigger] at(
                    self@.px,
                    self@.w,
                    x,
                    y,
                ) == laid(
                    at(start.px, start.w, x, y),
                    color,
                    cover_before(*glyph, pen_x as int, baseline as int, row + 1, 0, x, y),
                ) by {
                    assert(at(self@.px, self@.w, x, y) == laid(
                        at(start.px, start.w, x, y),
                        color,
                        cover_before(*glyph, pen_x as int, baseline as int, row as int, w as int, x, y),
                    ));
                }
            }
            row = row + 1;
        }
        proof {
            assert forall|x: int, y: int| on_canvas(start.w, start.h, x, y) implies #[trigger] at(
                self@.px,
                self@.w,
                x,
                y,
            ) == laid(at(start.px, start.w, x, y), color, glyph_cover(*glyph, pen_x as int, baseline as int, x, y)) by {
                assert(at(self@.px, self@.w, x, y) == laid(
                    at(start.px, start.w, x, y),
                    color,
                    cover_before(*glyph, pen_x as int, baseline as int, h as int, 0, x, y),
                ));
            }
        }
    }

    /// A line of text, top-left of its line box at (`x`, `y`): `glyphs`
    /// are its characters rasterized at the size in use, `advance` the
    /// monospace step between pens and `ascent` the baseline's offset from
    /// the top of the box.
    pub fn draw_text(&mut self, x: i32, y: i32, glyphs: &[Glyph], advance: i32, ascent: i32, color: Color)
        requires
            canvas_ok(old(self)@),
            forall|k: int| 0 <= k < glyphs@.len() ==> glyph_ok(#[trigger] glyphs@[k]),
            coord_ok(y as int),
            coord_ok(ascent as int),
            forall|k: int| 0 <= k <= glyphs@.len() ==> #[trigger] coord_ok(x + k * advance),
        ensures
            canvas_ok(final(self)@),
            final(self)@.w == old(self)@.w && final(self)@.h == old(self)@.h,
            forall|px: int, py: int|
                on_canvas(old(self)@.w, old(self)@.h, px, py) ==> #[trigger] at(final(self)@.px, final(self)@.w, px, py)
                    == text_pixel(
                    at(old(self)@.px, old(self)@.w, px, py),
                    glyphs@,
                    x as int,
                    (y + ascent) as int,
                    advance as int,
                    color,
                    px,
                    py,
                    glyphs@.len() as int,
                ),
    {
        let ghost start = self@;
        let baseline = y + ascent;
        let mut pen_x = x;
        let mut k: usize = 0;
        proof {
            assert(coord_ok(x + 0 * advance));
        }
        while k < glyphs.len()
            invariant
                k <= glyphs@.len(),
                canvas_ok(start),
                canvas_ok(self@),
                self@.w == start.w && self@.h == start.h,
                baseline == y + ascent,
                coord_ok(y as int) && coord_ok(ascent as int),
                forall|j: int| 0 <= j < glyphs@.len() ==> glyph_ok(#[trigger] glyphs@[j]),
                forall|j: int| 0 <= j <= glyphs@.len() ==> #[trigger] coord_ok(x + j * advance),
                pen_x == x + k * advance,
                forall|px: int, py: int|
                    on_canvas(start.w, start.h, px, py) ==> #[trigger] at(self@.px, self@.w, px, py)
                        == text_pixel(
                        at(start.px, start.w, px, py),
                        glyphs@,
                        x as int,
                        baseline as int,
                        advance as int,
                        color,
                        px,
                        py,
                        k as int,
                    ),
            decreases glyphs@.len() - k,
        {
            proof {
                assert(coord_ok(x + k * advance));
                assert(coord_ok(x + (k + 1) * advance));
            }
            let ghost before = self@;
            self.blend_glyph(pen_x, baseline, &glyphs[k], color);
            proof {
                assert forall|px: int, py: int| on_canvas(start.w, start.h, px, py) implies #[trigger] at(
                    self@.px,
                    self@.w,
                    px,
                    py,
                ) == text_pixel(
                    at(start.px, start.w, px, py),
                    glyphs@,
                    x as int,
                    baseline as int,
                    advance as int,
                    color,
                    px,
                    py,
                    k + 1,
                ) by {
                    assert(at(before.px, before.w, px, py) == text_pixel(
                        at(start.px, start.w, px, py),
                        glyphs@,
                        x as int,
                        baseline as int,
                        advance as int,
                        color,
                        px,
                        py,
                        k as int,
                    ));
                }
                assert(x + (k + 1) * advance == x + k * advance + advance) by (nonlinear_arith);
            }
            pen_x = pen_x + advance;
            k = k + 1;
        }
    }
}

/// `({x}, {y}) {w}x{h}`.
pub open spec fn box_caption(x: int, y: int, w: int, h: int) -> Seq<char> {
    "("@ + signed_decimal(x) + ", "@ + signed_decimal(y) + ") "@ + signed_decimal(w) + "x"@
        + signed_decimal(h)
}

/// The coordinate caption for a shape: `(120, 448) 300x88` for a rect,
/// `(900, 300) r=64` for a circle, center and radii for an ellipse, and
/// the bounding box for a triangle or polygon.
pub open spec fn caption_spec(s: ShapeView) -> Seq<char> {
    match s {
        ShapeView::Rect(r) => box_caption(r.x as int, r.y as int, r.w as int, r.h as int),
        ShapeView::Circle { cx, cy, r } => "("@ + signed_decimal(cx as int) + ", "@ + signed_decimal(
            cy as int,
        ) + ") r="@ + signed_decimal(r as int),
        ShapeView::Ellipse { cx, cy, rx, ry } => box_caption(cx as int, cy as int, rx as int, ry as int),
        _ => box_caption(
            bbox_of(s).x as int,
            bbox_of(s).y as int,
            bbox_of(s).w as int,
            bbox_of(s).h as int,
        ),
    }
}

fn caption_of_box(x: i32, y: i32, w: i32, h: i32) -> (r: String)
    ensures
        r@ == box_caption(x as int, y as int, w as int, h as int),
{
    let mut r = String::new();
    r.append("(");
    append_chars(&mut r, &signed_chars(x));
    r.append(", ");
    append_chars(&mut r, &signed_chars(y));
    r.append(") ");
    append_chars(&mut r, &signed_chars(w));
    r.append("x");
    append_chars(&mut r, &signed_chars(h));
    r
}

/// The coordinate caption for a shape, e.g. `(120, 448) 300x88` or
/// `(900, 300) r=64`. Triangles and polygons caption their bounding box.
pub fn coord_text(shape: &Shape) -> (r: String)
    ensures
        r@ == caption_spec(shape@),
{
    match shape {
        Shape::Rect(r) => caption_of_box(r.x, r.y, r.w, r.h),
        Shape::Circle { cx, cy, r } => {
            let mut t = String::new();
            t.append("(");
            append_chars(&mut t, &signed_chars(*cx));
            t.append(", ");
            append_chars(&mut t, &signed_chars(*cy));
            t.append(") r=");
            append_chars(&mut t, &signed_chars(*r));
            t
        },
        Shape::Ellipse { cx, cy, rx, ry } => caption_of_box(*cx, *cy, *rx, *ry),
        _ => {
            let b = shape.bbox();
            caption_of_box(b.x, b.y, b.w, b.h)
        },
    }
}

/// Where a caption `text_w` by `text_h` pixels lands near `bbox`: above
/// by default, flipping left, right or below as the screen edges demand,
/// then pushed back inside `bounds` as far as it fits.
pub open spec fn caption_spot(bbox: Rect, bounds: Size, text_w: int, text_h: int, scale: int) -> Point {
    let s = if scale >= 1 { scale } else { 1 };
    let pad = 4 * s;
    let x1 = bbox.x as int;
    let y1 = bbox.y - text_h - pad;
    let x2 = if x1 + text_w > bounds.w { bbox.x - text_w - pad } else { x1 };
    let x3 = if x2 < 0 { bbox.x + bbox.w + pad } else { x2 };
    let y2 = if y1 < 0 { bbox.y + bbox.h + pad } else { y1 };
    let y3 = if y2 + text_h > bounds.h {
        if bbox.y - text_h - pad < 0 { bbox.y + pad } else { bbox.y - text_h - pad }
    } else {
        y2
    };
    let x4 = if x3 >= 0 { x3 } else { 0 };
    let y4 = if y3 >= 0 { y3 } else { 0 };
    let x5 = if x4 + text_w > bounds.w { bounds.w - text_w } else { x4 };
    let y5 = if y4 + text_h > bounds.h { bounds.h - text_h } else { y4 };
    Point { x: x5 as i32, y: y5 as i32 }
}

/// Where to place a caption of `text_w` by `text_h` pixels (its glyphs'
/// width and line height at `scale`) near `bbox` so it stays readable at
/// screen edges: above by default, flipping left, right or below as
/// needed. A caption that fits the screen lands wholly on it.
pub fn smart_text_position(bbox: Rect, bounds: Size, text_w: i32, text_h: i32, scale: i32) -> (p: Point)
    requires
        bbox.in_domain(),
        coord_ok(bounds.w as int) && coord_ok(bounds.h as int),
        0 <= text_w <= MAX_COORD && 0 <= text_h <= MAX_COORD,
        scale <= MAX_COORD,
    ensures
        p == caption_spot(bbox, bounds, text_w as int, text_h as int, scale as int),
        text_w <= bounds.w ==> 0 <= p.x && p.x + text_w <= bounds.w,
        text_h <= bounds.h ==> 0 <= p.y && p.y + text_h <= bounds.h,
{
    let scale = max_i32(scale, 1);
    let padding = 4 * scale;
    let mut x = bbox.x;
    let mut y = bbox.y - text_h - padding;
    if x + text_w > bounds.w {
        x = bbox.x - text_w - padding;
    }
    if x < 0 {
        x = bbox.x + bbox.w + padding;
    }
    if y < 0 {
        y = bbox.y + bbox.h + padding;
    }
    if y + text_h > bounds.h {
        y = bbox.y - text_h - padding;
        if y < 0 {
            y = bbox.y + padding;
        }
    }
    x = max_i32(x, 0);
    y = max_i32(y, 0);
    if x + text_w > bounds.w {
        x = bounds.w - text_w;
    }
    if y + text_h > bounds.h {
        y = bounds.h - text_h;
    }
    Point::new(x, y)
}

/// `new` is the RGBA buffer `old` with the alpha byte of every pixel
/// where `clear` holds set to 0, and every other byte unchanged.
pub open spec fn alpha_cleared(old: Seq<u8>, new: Seq<u8>, npix: int, clear: spec_fn(int) -> bool) -> bool {
    &&& new.len() == old.len()
    &&& forall|p: int, k: int|
        #![trigger new[4 * p + k]]
        0 <= p < npix && 0 <= k < 4 ==> new[4 * p + k] == if k == 3 && clear(p) {
            0u8
        } else {
            old[4 * p + k]
        }
}

/// Clear the alpha of every pixel `p` with `covered[p] == clear_covered`.
fn clear_alpha(rgba: &mut Vec<u8>, npix: usize, covered: &Vec<bool>, clear_covered: bool)
    requires
        old(rgba)@.len() == 4 * npix,
        covered@.len() == npix,
    ensures
        alpha_cleared(old(rgba)@, final(rgba)@, npix as int, |p: int| covered@[p] == clear_covered),
{
    let n = rgba.len();
    let mut i: usize = 0;
    while i < npix
        invariant
            i <= npix,
            n == rgba@.len(),
            rgba@.len() == 4 * npix,
            covered@.len() == npix,
            alpha_cleared(old(rgba)@, rgba@, npix as int, |p: int| p < i && covered@[p] == clear_covered),
        decreases npix - i,
    {
        if covered[i] == clear_covered {
            rgba.set(4 * i + 3, 0);
        }
        proof {
            assert forall|p: int, k: int|
                #![trigger rgba@[4 * p + k]]
                0 <= p < npix && 0 <= k < 4 implies rgba@[4 * p + k] == if k == 3 && (p < i + 1 && covered@[p] == clear_covered) {
                    0u8
                } else {
                    old(rgba)@[4 * p + k]
                } by {
                if 4 * p + k == 4 * i + 3 {
                    assert(p == i && k == 3);
                }
            }
        }
        i = i + 1;
    }
}

/// Zero the alpha of every RGBA pixel that no shape covers — the primary
/// cutout: selections stay visible in place, everything else goes
/// transparent. `covered[y * w + x]` says whether any shape, at its
/// rotation, covers pixel (`x`, `y`).
pub fn apply_cutout_mask(rgba: &mut Vec<u8>, w: i32, h: i32, covered: &Vec<bool>)
    requires
        w >= 0 && h >= 0,
        old(rgba)@.len() == 4 * (w * h),
        covered@.len() == w * h,
    ensures
        alpha_cleared(old(rgba)@, final(rgba)@, w * h, |p: int| !covered@[p]),
{
    let npix = covered.len();
    clear_alpha(rgba, npix, covered, false);
}

/// The exact complement: zero the alpha of every pixel a shape covers —
/// the inverse cutout punches the selections out and keeps the rest.
pub fn apply_inverse_cutout_mask(rgba: &mut Vec<u8>, w: i32, h: i32, covered: &Vec<bool>)
    requires
        w >= 0 && h >= 0,
        old(rgba)@.len() == 4 * (w * h),
        covered@.len() == w * h,
    ensures
        alpha_cleared(old(rgba)@, final(rgba)@, w * h, |p: int| covered@[p]),
{
    let npix = covered.len();
    clear_alpha(rgba, npix, covered, true);
}

/// Zero the alpha of every RGBA pixel the shape does not cover, so the
/// outside of a non-rect crop is transparent. `covered[y * w + x]` says
/// whether the shape, at its rotation, covers pixel (`x`, `y`).
pub fn apply_alpha_mask_outside(rgba: &mut Vec<u8>, w: i32, h: i32, covered: &Vec<bool>)
    requires
        w >= 0 && h >= 0,
        old(rgba)@.len() == 4 * (w * h),
        covered@.len() == w * h,
    ensures
        alpha_cleared(old(rgba)@, final(rgba)@, w * h, |p: int| !covered@[p]),
{
    let npix = covered.len();
    clear_alpha(rgba, npix, covered, false);
}

/// The primary and inverse cutouts of one frame are exact complements:
/// every pixel keeps its alpha in one of the pair and is transparent in
/// the other, so together they reassemble the frame.
pub proof fn lemma_cutouts_complement(
    rgba: Seq<u8>,
    primary: Seq<u8>,
    inverse: Seq<u8>,
    npix: int,
    covered: Seq<bool>,
    p: int,
)
    requires
        rgba.len() == 4 * npix,
        alpha_cleared(rgba, primary, npix, |q: int| !covered[q]),
        alpha_cleared(rgba, inverse, npix, |q: int| covered[q]),
        0 <= p < npix,
    ensures
        (primary[4 * p + 3] == 0 && inverse[4 * p + 3] == rgba[4 * p + 3])
            || (primary[4 * p + 3] == rgba[4 * p + 3] && inverse[4 * p + 3] == 0),
        forall|k: int|
            #![trigger primary[4 * p + k]]
            0 <= k < 3 ==> primary[4 * p + k] == rgba[4 * p + k] && inverse[4 * p + k] == rgba[4 * p + k],
{
    assert(primary[4 * p + 3] == if !covered[p] { 0u8 } else { rgba[4 * p + 3] });
    assert(inverse[4 * p + 3] == if covered[p] { 0u8 } else { rgba[4 * p + 3] });
    assert forall|k: int|
        #![trigger primary[4 * p + k]]
        0 <= k < 3 implies primary[4 * p + k] == rgba[4 * p + k] && inverse[4 * p + k] == rgba[4 * p + k] by {
        assert(primary[4 * p + k] == rgba[4 * p + k]);
        assert(inverse[4 * p + k] == rgba[4 * p + k]);
    }
}

/// The flag for pixel (`x`, `y`) of a row-major mask `w` wide.
pub open spec fn flag(m: Seq<bool>, w: int, x: int, y: int) -> bool {
    m[y * w + x]
}

/// Mark every pixel of the `w` by `h` frame that the unrotated shape
/// covers, keeping what was marked before.
pub fn mark_covered(covered: &mut Vec<bool>, w: i32, h: i32, shape: &Shape)
    requires
        0 < w <= MAX_COORD && 0 < h <= MAX_COORD,
        old(covered)@.len() == w * h,
        shape.in_domain(),
    ensures
        final(covered)@.len() == old(covered)@.len(),
        forall|x: int, y: int|
            #![trigger flag(final(covered)@, w as int, x, y)]
            on_canvas(w as int, h as int, x, y) ==> flag(final(covered)@, w as int, x, y) == (flag(
                old(covered)@,
                w as int,
                x,
                y,
            ) || covers_spec(shape@, Point { x: x as i32, y: y as i32 })),
{
    let m = covered_pixels(w, h, shape);
    let ghost start = covered@;
    let n = covered.len();
    let mut i: usize = 0;
    while i < n
        invariant
            i <= n,
            n == covered@.len() == start.len() == m@.len(),
            forall|j: int| 0 <= j < i ==> #[trigger] covered@[j] == (start[j] || m@[j]),
            forall|j: int| i <= j < n ==> #[trigger] covered@[j] == start[j],
        decreases n - i,
    {
        let v = covered[i] || m[i];
        covered.set(i, v);
        i = i + 1;
    }
    proof {
        assert forall|x: int, y: int| on_canvas(w as int, h as int, x, y) implies #[trigger] flag(
            covered@,
            w as int,
            x,
            y,
        ) == (flag(start, w as int, x, y) || covers_spec(shape@, Point { x: x as i32, y: y as i32 })) by {
            lemma_index_in_range(w as int, h as int, x, y);
            assert(flag(m@, w as int, x, y) == covers_spec(shape@, Point { x: x as i32, y: y as i32 }));
        }
    }
}

/// Whether the shape turned `deg` about its pivot covers `p`, where `back`
/// is `p` turned `-deg` about the pivot: the answer of `hit_test_rotated`.
pub open spec fn rotated_covers(s: ShapeView, deg: i32, p: Point, back: Point) -> bool {
    if rotation_is_identity(s, deg) {
        covers_spec(s, p)
    } else {
        covers_spec(s, back)
    }
}

/// The pixels of a `w` by `h` frame a turned shape's bbox `b` reaches:
/// the closed box from `(b.x, b.y)` to `(b.x + b.w, b.y + b.h)` (far edges
/// saturating), cut to the frame, as `(x0, y0, x1, y1)` inclusive.
pub open spec fn window_spec(b: Rect, w: int, h: int) -> (int, int, int, int) {
    (
        max_spec(b.x as int, 0),
        max_spec(b.y as int, 0),
        min_spec(sat_i32(b.x + b.w), w - 1),
        min_spec(sat_i32(b.y + b.h), h - 1),
    )
}

/// Pixel (`x`, `y`) lies in the inclusive window.
pub open spec fn in_window(win: (i32, i32, i32, i32), x: int, y: int) -> bool {
    win.0 <= x <= win.2 && win.1 <= y <= win.3
}

/// Where pixel (`x`, `y`) of the window sits in its row-major list.
pub open spec fn window_index(win: (i32, i32, i32, i32), x: int, y: int) -> int {
    (y - win.1) * (win.2 - win.0 + 1) + (x - win.0)
}

/// The window of the frame a turned shape with bbox `b` can cover, or
/// `None` when the bbox misses the frame.
pub fn coverage_window(b: Rect, w: i32, h: i32) -> (r: Option<(i32, i32, i32, i32)>)
    requires
        0 < w <= MAX_COORD && 0 < h <= MAX_COORD,
    ensures
        ({
            let (x0, y0, x1, y1) = window_spec(b, w as int, h as int);
            match r {
                Some(win) => x0 <= x1 && y0 <= y1 && win.0 == x0 && win.1 == y0 && win.2 == x1
                    && win.3 == y1,
                None => x0 > x1 || y0 > y1,
            }
        }),
{
    let x0 = max_i32(b.x, 0);
    let y0 = max_i32(b.y, 0);
    let x1 = min_i32(sat_add_i32(b.x, b.w), w - 1);
    let y1 = min_i32(sat_add_i32(b.y, b.h), h - 1);
    if x0 > x1 || y0 > y1 {
        None
    } else {
        Some((x0, y0, x1, y1))
    }
}

proof fn lemma_index_injective(w: int, x: int, y: int, x2: int, y2: int)
    requires
        0 <= x < w,
        0 <= x2 < w,
        y * w + x == y2 * w + x2,
    ensures
        x == x2 && y == y2,
{
    assert(y == y2) by (nonlinear_arith)
        requires
            0 <= x < w,
            0 <= x2 < w,
            y * w + x == y2 * w + x2,
    ;
}

/// Mark every pixel of the window that the shape, turned `deg` about its
/// pivot, covers, keeping what was marked before; `backs` lists each
/// window pixel, row by row, turned `-deg` about the pivot.
pub fn mark_covered_rotated(
    covered: &mut Vec<bool>,
    w: i32,
    h: i32,
    shape: &Shape,
    deg: i32,
    win: (i32, i32, i32, i32),
    backs: &Vec<Point>,
)
    requires
        0 < w <= MAX_COORD && 0 < h <= MAX_COORD,
        old(covered)@.len() == w * h,
        shape.in_domain(),
        0 <= win.0 <= win.2 < w,
        0 <= win.1 <= win.3 < h,
        backs@.len() == (win.2 - win.0 + 1) * (win.3 - win.1 + 1),
    ensures
        final(covered)@.len() == old(covered)@.len(),
        forall|x: int, y: int|
            #![trigger flag(final(covered)@, w as int, x, y)]
            on_canvas(w as int, h as int, x, y) ==> flag(final(covered)@, w as int, x, y) == (flag(
                old(covered)@,
                w as int,
                x,
                y,
            ) || (in_window(win, x, y) && rotated_covers(
                shape@,
                deg,
                Point { x: x as i32, y: y as i32 },
                backs@[window_index(win, x, y)],
            ))),
{
    let ghost start = covered@;
    let ghost wi = w as int;
    let (x0, y0, x1, y1) = win;
    let cols: i32 = x1 - x0 + 1;
    let nb = backs.len();
    let nc = covered.len();
    let mut y: i32 = y0;
    while y <= y1
        invariant
            nb == backs@.len(),
            nc == covered@.len(),
            0 < w <= MAX_COORD && 0 < h <= MAX_COORD,
            wi == w,
            win == (x0, y0, x1, y1),
            cols == x1 - x0 + 1,
            0 <= x0 <= x1 < w,
            0 <= y0 <= y <= y1 + 1,
            y1 < h,
            shape.in_domain(),
            covered@.len() == start.len() == w * h,
            backs@.len() == cols * (y1 - y0 + 1),
            forall|x2: int, y2: int|
                #![trigger flag(covered@, wi, x2, y2)]
                on_canvas(wi, h as int, x2, y2) ==> flag(covered@, wi, x2, y2) == (flag(start, wi, x2, y2) || (
                in_window(win, x2, y2) && y2 < y && rotated_covers(
                    shape@,
                    deg,
                    Point { x: x2 as i32, y: y2 as i32 },
                    backs@[window_index(win, x2, y2)],
                ))),
        decreases y1 + 1 - y,
    {
        let mut x: i32 = x0;
        while x <= x1
            invariant
                nb == backs@.len(),
                nc == covered@.len(),
                0 < w <= MAX_COORD && 0 < h <= MAX_COORD,
                wi == w,
                win == (x0, y0, x1, y1),
                cols == x1 - x0 + 1,
                0 <= x0 <= x <= x1 + 1,
                x1 < w,
                0 <= y0 <= y <= y1,
                y1 < h,
                shape.in_domain(),
                covered@.len() == start.len() == w * h,
                backs@.len() == cols * (y1 - y0 + 1),
                forall|x2: int, y2: int|
                    #![trigger flag(covered@, wi, x2, y2)]
                    on_canvas(wi, h as int, x2, y2) ==> flag(covered@, wi, x2, y2) == (flag(start, wi, x2, y2) || (
                    in_window(win, x2, y2) && (y2 < y || (y2 == y && x2 < x)) && rotated_covers(
                        shape@,
                        deg,
                        Point { x: x2 as i32, y: y2 as i32 },
                        backs@[window_index(win, x2, y2)],
                    ))),
            decreases x1 + 1 - x,
        {
            proof {
                let r = y - y0;
                let c = x - x0;
                assert(0 <= r * cols + c < cols * (y1 - y0 + 1)) by (nonlinear_arith)
                    requires
                        0 <= r <= y1 - y0,
                        0 <= c < cols,
                ;
                assert(window_index(win, x as int, y as int) == r * cols + c);
                assert(0 <= r * cols <= r * cols + c) by (nonlinear_arith)
                    requires
                        0 <= r,
                        0 <= c,
                        0 < cols,
                ;
                lemma_index_in_range(wi, h as int, x as int, y as int);
                assert(0 <= y * wi <= y * wi + x) by (nonlinear_arith)
                    requires
                        0 <= y,
                        0 <= x,
                        0 < wi,
                ;
            }
            let k: usize = ((y - y0) as usize) * (cols as usize) + ((x - x0) as usize);
            let p = Point::new(x, y);
            let hit = shape.hit_test_rotated(deg, p, backs[k]);
            let idx: usize = (y as usize) * (w as usize) + (x as usize);
            let ghost before = covered@;
            if hit {
                covered.set(idx, true);
            }
            proof {
                assert forall|x2: int, y2: int|
                    #![trigger flag(covered@, wi, x2, y2)]
                    on_canvas(wi, h as int, x2, y2) implies flag(covered@, wi, x2, y2) == (flag(start, wi, x2, y2) || (
                    in_window(win, x2, y2) && (y2 < y || (y2 == y && x2 < x + 1)) && rotated_covers(
                        shape@,
                        deg,
                        Point { x: x2 as i32, y: y2 as i32 },
                        backs@[window_index(win, x2, y2)],
                    ))) by {
                    lemma_index_in_range(wi, h as int, x2, y2);
                    if x2 == x && y2 == y {
                    } else {
                        if y2 * wi + x2 == y * wi + x {
                            lemma_index_injective(wi, x2, y2, x as int, y as int);
                        }
                        assert(flag(covered@, wi, x2, y2) == flag(before, wi, x2, y2));
                    }
                }
            }
            x = x + 1;
        }
        y = y + 1;
    }
}

/// Which pixels of the `w` by `h` frame the unrotated shape covers,
/// tested over the whole frame.
pub fn covered_pixels(w: i32, h: i32, shape: &Shape) -> (m: Vec<bool>)
    requires
        0 < w <= MAX_COORD && 0 < h <= MAX_COORD,
        shape.in_domain(),
    ensures
        m@.len() == w * h,
        forall|x: int, y: int|
            #![trigger flag(m@, w as int, x, y)]
            on_canvas(w as int, h as int, x, y) ==> flag(m@, w as int, x, y) == covers_spec(shape@, Point { x: x as i32, y: y as i32 }),
{
    let mut m: Vec<bool> = Vec::new();
    let mut y: i32 = 0;
    proof {
        assert(0 * w == 0);
    }
    while y < h
        invariant
            0 <= y <= h,
            0 < w <= MAX_COORD && 0 < h <= MAX_COORD,
            shape.in_domain(),
            m@.len() == y * w,
            forall|x2: int, y2: int|
                #![trigger flag(m@, w as int, x2, y2)]
                0 <= x2 < w && 0 <= y2 < y ==> flag(m@, w as int, x2, y2) == covers_spec(shape@, Point { x: x2 as i32, y: y2 as i32 }),
        decreases h - y,
    {
        let mut x: i32 = 0;
        while x < w
            invariant
                0 <= x <= w,
                0 <= y < h,
                0 < w <= MAX_COORD && 0 < h <= MAX_COORD,
                shape.in_domain(),
                m@.len() == y * w + x,
                forall|x2: int, y2: int|
                    #![trigger flag(m@, w as int, x2, y2)]
                    0 <= x2 < w && 0 <= y2 < y ==> flag(m@, w as int, x2, y2) == covers_spec(shape@, Point { x: x2 as i32, y: y2 as i32 }),
                forall|x2: int|
                    #![trigger flag(m@, w as int, x2, y as int)]
                    0 <= x2 < x ==> flag(m@, w as int, x2, y as int) == covers_spec(shape@, Point { x: x2 as i32, y: y }),
            decreases w - x,
        {
            let hit = shape.covers(x, y);
            let ghost before = m@;
            m.push(hit);
            proof {
                assert forall|x2: int, y2: int|
                    #![trigger flag(m@, w as int, x2, y2)]
                    0 <= x2 < w && 0 <= y2 < y implies flag(m@, w as int, x2, y2) == covers_spec(shape@, Point { x: x2 as i32, y: y2 as i32 }) by {
                    lemma_index_in_range(w as int, y as int, x2, y2);
                    assert(w * y == y * w) by (nonlinear_arith);
                    assert(flag(m@, w as int, x2, y2) == flag(before, w as int, x2, y2));
                }
                assert forall|x2: int|
                    #![trigger flag(m@, w as int, x2, y as int)]
                    0 <= x2 < x + 1 implies flag(m@, w as int, x2, y as int) == covers_spec(shape@, Point { x: x2 as i32, y: y }) by {
                    if x2 < x {
                        assert(flag(m@, w as int, x2, y as int) == flag(before, w as int, x2, y as int));
                    }
                }
            }
            x = x + 1;
        }
        proof {
            assert(m@.len() == (y + 1) * w) by (nonlinear_arith)
                requires
                    m@.len() == y * w + w,
            ;
        }
        y = y + 1;
    }
    assert(y * w == w * h) by (nonlinear_arith)
        requires
            y == h,
    ;
    m
}

} // verus!
