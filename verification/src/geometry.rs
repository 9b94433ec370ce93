//! Shapes and their interaction math, in monitor-local physical pixels.
//!
//! Coordinates are `i32`, and the domain the arithmetic is proved over is
//! [`MAX_COORD`]: every coordinate and extent at most a million in absolute
//! value. Within it nothing here overflows; functions whose arithmetic could
//! leave `i32` outside it ask for the domain in their `requires`.

use vstd::prelude::*;
use crate::config::{MAX_POLYGON_SIDES, MIN_POLYGON_SIDES};
use crate::arith::{
    abs_i32, abs_spec, clamp_i32, clamp_spec, fits_i32, fits_i64, is_isqrt, isqrt, isqrt_u64, max_i32,
    lemma_round_div_bound, lemma_round_div_exact, lemma_round_div_upper, max_spec, min_i32, min_spec, round_div, round_div_i64,
    sat_add_i32, sat_double_i32, sat_i32,
    sat_sub_i32, trunc_div,
};

verus! {

/// The largest absolute value any coordinate or extent may carry.
///
/// A million pixels is more than an order of magnitude beyond the widest
/// desktop anyone assembles, and small enough that every difference, sum
/// and product here stays far from an integer limit.
pub const MAX_COORD: i32 = 1_000_000;

pub open spec fn coord_ok(v: int) -> bool {
    -MAX_COORD <= v <= MAX_COORD
}

/// The looser range derived values (a bbox of a radius, a resized box)
/// stay in when their inputs are in the domain.
pub open spec fn wide_ok(v: int) -> bool {
    -16 * MAX_COORD <= v <= 16 * MAX_COORD
}

pub open spec fn box_ok(b: Rect) -> bool {
    wide_ok(b.x as int) && wide_ok(b.y as int) && wide_ok(b.w as int) && wide_ok(b.h as int)
}

#[derive(Debug, Clone, Copy, PartialEq, Eq, Structural)]
pub struct Point {
    pub x: i32,
    pub y: i32,
}

impl Point {
    pub fn new(x: i32, y: i32) -> (p: Self)
        ensures
            p.x == x && p.y == y,
    {
        Point { x, y }
    }

    pub open spec fn in_domain(self) -> bool {
        coord_ok(self.x as int) && coord_ok(self.y as int)
    }
}

#[derive(Debug, Clone, Copy, PartialEq, Eq, Structural)]
pub struct Size {
    pub w: i32,
    pub h: i32,
}

impl Size {
    pub fn new(w: i32, h: i32) -> (s: Self)
        ensures
            s.w == w && s.h == h,
    {
        Size { w, h }
    }
}

#[derive(Debug, Clone, Copy, PartialEq, Eq, Structural)]
pub struct Rect {
    pub x: i32,
    pub y: i32,
    pub w: i32,
    pub h: i32,
}

/// Whether `p` lies in the half-open box `[x, x + w) x [y, y + h)`.
pub open spec fn rect_contains(r: Rect, p: Point) -> bool {
    p.x >= r.x && p.y >= r.y && p.x < r.x + r.w && p.y < r.y + r.h
}

impl Rect {
    pub fn new(x: i32, y: i32, w: i32, h: i32) -> (r: Self)
        ensures
            r.x == x && r.y == y && r.w == w && r.h == h,
    {
        Rect { x, y, w, h }
    }

    pub open spec fn in_domain(self) -> bool {
        coord_ok(self.x as int) && coord_ok(self.y as int) && coord_ok(self.w as int) && coord_ok(
            self.h as int,
        )
    }

    /// Whether the far edges `x + w` and `y + h` are representable.
    pub open spec fn ends_fit(self) -> bool {
        fits_i32(self.x + self.w) && fits_i32(self.y + self.h)
    }

    pub fn contains(&self, p: Point) -> (b: bool)
        requires
            self.ends_fit(),
        ensures
            b == rect_contains(*self, p),
    {
        p.x >= self.x && p.y >= self.y && p.x < self.x + self.w && p.y < self.y + self.h
    }

    /// The nearest point inside this rect. The far edges are exclusive to
    /// match `contains`, so a clamped point always satisfies it — a
    /// zero-sized rect is the one exception, and it clamps to the origin.
    pub fn clamp_point(&self, p: Point) -> (q: Point)
        requires
            self.w > i32::MIN && self.h > i32::MIN,
            fits_i32(self.x + max_spec(self.w - 1, 0)),
            fits_i32(self.y + max_spec(self.h - 1, 0)),
        ensures
            q.x == clamp_spec(p.x as int, self.x as int, self.x + max_spec(self.w - 1, 0)),
            q.y == clamp_spec(p.y as int, self.y as int, self.y + max_spec(self.h - 1, 0)),
            self.w >= 1 && self.h >= 1 ==> rect_contains(*self, q),
            rect_contains(*self, p) ==> q == p,
    {
        let hx = self.x + max_i32(self.w - 1, 0);
        let hy = self.y + max_i32(self.h - 1, 0);
        Point::new(clamp_i32(p.x, self.x, hx), clamp_i32(p.y, self.y, hy))
    }
}

#[derive(Debug, Clone, Copy, PartialEq, Eq, Structural)]
pub enum ToolKind {
    Rect,
    /// Legacy records only: a circle is an ellipse with equal radii now.
    Circle,
    Ellipse,
    Triangle,
    /// The regular-N-gon drawing tool; its records store as `Poly`.
    Polygon,
    /// The freehand drawing tool; its records store as `Poly`.
    Freehand,
    /// The two-point ruler; only ever the active tool.
    Measure,
    /// What polygon and freehand records are tagged as.
    Poly,
}

pub open spec fn next_tool(t: ToolKind) -> ToolKind {
    match t {
        ToolKind::Rect => ToolKind::Ellipse,
        ToolKind::Circle | ToolKind::Ellipse => ToolKind::Triangle,
        ToolKind::Triangle => ToolKind::Polygon,
        ToolKind::Polygon => ToolKind::Freehand,
        ToolKind::Freehand => ToolKind::Measure,
        ToolKind::Measure | ToolKind::Poly => ToolKind::Rect,
    }
}

impl ToolKind {
    /// The drawing tool after this one; the record-only kinds lead back
    /// into the cycle.
    pub fn next(self) -> (t: Self)
        ensures
            t == next_tool(self),
    {
        match self {
            ToolKind::Rect => ToolKind::Ellipse,
            ToolKind::Circle | ToolKind::Ellipse => ToolKind::Triangle,
            ToolKind::Triangle => ToolKind::Polygon,
            ToolKind::Polygon => ToolKind::Freehand,
            ToolKind::Freehand => ToolKind::Measure,
            ToolKind::Measure | ToolKind::Poly => ToolKind::Rect,
        }
    }
}

/// A resize grip on a shape's border.
#[derive(Debug, Clone, Copy, PartialEq, Eq, Structural)]
pub enum ResizeHandle {
    /// Dragging the rim of a circle: radius follows the cursor.
    CircleRadius,
    /// Dragging one or two box edges; the others stay anchored.
    RectEdges { left: bool, right: bool, top: bool, bottom: bool },
}

/// A committed or in-progress selection shape.
#[derive(Debug, Clone, PartialEq, Eq)]
pub enum Shape {
    Rect(Rect),
    Circle { cx: i32, cy: i32, r: i32 },
    /// Axis-aligned ellipse; rotation, like a rect's, is metadata.
    Ellipse { cx: i32, cy: i32, rx: i32, ry: i32 },
    Triangle { ax: i32, ay: i32, bx: i32, by: i32, cx: i32, cy: i32 },
    /// An arbitrary closed polygon, either winding.
    Poly { points: Vec<Point> },
}

/// The mathematical value of a [`Shape`]: a polygon's vertices as a
/// sequence.
pub enum ShapeView {
    Rect(Rect),
    Circle { cx: i32, cy: i32, r: i32 },
    Ellipse { cx: i32, cy: i32, rx: i32, ry: i32 },
    Triangle { ax: i32, ay: i32, bx: i32, by: i32, cx: i32, cy: i32 },
    Poly(Seq<Point>),
}

impl View for Shape {
    type V = ShapeView;

    open spec fn view(&self) -> ShapeView {
        match *self {
            Shape::Rect(r) => ShapeView::Rect(r),
            Shape::Circle { cx, cy, r } => ShapeView::Circle { cx, cy, r },
            Shape::Ellipse { cx, cy, rx, ry } => ShapeView::Ellipse { cx, cy, rx, ry },
            Shape::Triangle { ax, ay, bx, by, cx, cy } => ShapeView::Triangle {
                ax,
                ay,
                bx,
                by,
                cx,
                cy,
            },
            Shape::Poly { ref points } => ShapeView::Poly(points@),
        }
    }
}

pub open spec fn points_in_domain(pts: Seq<Point>) -> bool {
    &&& forall|i: int| 0 <= i < pts.len() ==> (#[trigger] pts[i]).in_domain()
    &&& pts.len() * MAX_COORD <= i64::MAX
}

pub open spec fn shape_in_domain(s: ShapeView) -> bool {
    match s {
        ShapeView::Rect(r) => r.in_domain(),
        ShapeView::Circle { cx, cy, r } => coord_ok(cx as int) && coord_ok(cy as int) && coord_ok(
            r as int,
        ),
        ShapeView::Ellipse { cx, cy, rx, ry } => coord_ok(cx as int) && coord_ok(cy as int)
            && coord_ok(rx as int) && coord_ok(ry as int),
        ShapeView::Triangle { ax, ay, bx, by, cx, cy } => coord_ok(ax as int) && coord_ok(
            ay as int,
        ) && coord_ok(bx as int) && coord_ok(by as int) && coord_ok(cx as int) && coord_ok(
            cy as int,
        ),
        ShapeView::Poly(pts) => points_in_domain(pts),
    }
}

pub open spec fn kind_of(s: ShapeView) -> ToolKind {
    match s {
        ShapeView::Rect(_) => ToolKind::Rect,
        ShapeView::Circle { .. } => ToolKind::Circle,
        ShapeView::Ellipse { .. } => ToolKind::Ellipse,
        ShapeView::Triangle { .. } => ToolKind::Triangle,
        ShapeView::Poly(_) => ToolKind::Poly,
    }
}

pub open spec fn min3_spec(a: int, b: int, c: int) -> int {
    min_spec(a, min_spec(b, c))
}

pub open spec fn max3_spec(a: int, b: int, c: int) -> int {
    max_spec(a, max_spec(b, c))
}

pub fn min3(a: i32, b: i32, c: i32) -> (r: i32)
    ensures
        r == min3_spec(a as int, b as int, c as int),
{
    if a <= b && a <= c {
        return a;
    }
    if b <= c {
        return b;
    }
    c
}

pub fn max3(a: i32, b: i32, c: i32) -> (r: i32)
    ensures
        r == max3_spec(a as int, b as int, c as int),
{
    if a >= b && a >= c {
        return a;
    }
    if b >= c {
        return b;
    }
    c
}

/// `(b - a) x (p - a)`: which side of `a -> b` the point `p` lies on.
pub open spec fn cross_spec(px: int, py: int, ax: int, ay: int, bx: int, by: int) -> int {
    (bx - ax) * (py - ay) - (by - ay) * (px - ax)
}

pub proof fn lemma_cross_bounds(px: int, py: int, ax: int, ay: int, bx: int, by: int)
    requires
        fits_i32(px) && fits_i32(py),
        coord_ok(ax) && coord_ok(ay) && coord_ok(bx) && coord_ok(by),
    ensures
        -5_000_000_000_000_000 <= (bx - ax) * (py - ay) <= 5_000_000_000_000_000,
        -5_000_000_000_000_000 <= (by - ay) * (px - ax) <= 5_000_000_000_000_000,
        -10_000_000_000_000_000 <= cross_spec(px, py, ax, ay, bx, by) <= 10_000_000_000_000_000,
{
    lemma_mul_bound(bx - ax, py - ay, 2_000_000, 2_500_000_000);
    lemma_mul_bound(by - ay, px - ax, 2_000_000, 2_500_000_000);
}

/// `|a * b| <= ka * kb` when `|a| <= ka` and `|b| <= kb`.
pub proof fn lemma_mul_bound(a: int, b: int, ka: int, kb: int)
    requires
        -ka <= a <= ka,
        -kb <= b <= kb,
    ensures
        -(ka * kb) <= a * b <= ka * kb,
        0 <= a * a <= ka * ka,
{
    assert(-(ka * kb) <= a * b <= ka * kb) by (nonlinear_arith)
        requires
            -ka <= a <= ka,
            -kb <= b <= kb,
    ;
    assert(0 <= a * a <= ka * ka) by (nonlinear_arith)
        requires
            -ka <= a <= ka,
    ;
}

fn cross(px: i32, py: i32, ax: i32, ay: i32, bx: i32, by: i32) -> (c: i64)
    requires
        coord_ok(ax as int) && coord_ok(ay as int) && coord_ok(bx as int) && coord_ok(by as int),
    ensures
        c == cross_spec(px as int, py as int, ax as int, ay as int, bx as int, by as int),
{
    proof {
        lemma_cross_bounds(px as int, py as int, ax as int, ay as int, bx as int, by as int);
    }
    let abx = bx as i64 - ax as i64;
    let aby = by as i64 - ay as i64;
    let apx = px as i64 - ax as i64;
    let apy = py as i64 - ay as i64;
    abx * apy - aby * apx
}

// ---------------------------------------------------------------------
// Bounding boxes
// ---------------------------------------------------------------------
/// The least `x` among the first `k` vertices, starting from `i32::MAX`.
pub open spec fn fold_min_x(pts: Seq<Point>, k: int) -> int
    decreases k,
{
    if k <= 0 {
        i32::MAX as int
    } else {
        min_spec(fold_min_x(pts, k - 1), pts[k - 1].x as int)
    }
}

pub open spec fn fold_min_y(pts: Seq<Point>, k: int) -> int
    decreases k,
{
    if k <= 0 {
        i32::MAX as int
    } else {
        min_spec(fold_min_y(pts, k - 1), pts[k - 1].y as int)
    }
}

pub open spec fn fold_max_x(pts: Seq<Point>, k: int) -> int
    decreases k,
{
    if k <= 0 {
        i32::MIN as int
    } else {
        max_spec(fold_max_x(pts, k - 1), pts[k - 1].x as int)
    }
}

pub open spec fn fold_max_y(pts: Seq<Point>, k: int) -> int
    decreases k,
{
    if k <= 0 {
        i32::MIN as int
    } else {
        max_spec(fold_max_y(pts, k - 1), pts[k - 1].y as int)
    }
}

pub open spec fn mk_rect(x: int, y: int, w: int, h: int) -> Rect {
    Rect { x: x as i32, y: y as i32, w: w as i32, h: h as i32 }
}

/// The axis-aligned bounding box. Saturating, so absurd values misreport
/// rather than overflow.
pub open spec fn bbox_of(s: ShapeView) -> Rect {
    match s {
        ShapeView::Poly(pts) => if pts.len() == 0 {
            mk_rect(0, 0, 0, 0)
        } else {
            let x0 = fold_min_x(pts, pts.len() as int);
            let y0 = fold_min_y(pts, pts.len() as int);
            mk_rect(
                x0,
                y0,
                sat_i32(fold_max_x(pts, pts.len() as int) - x0),
                sat_i32(fold_max_y(pts, pts.len() as int) - y0),
            )
        },
        ShapeView::Rect(r) => r,
        ShapeView::Ellipse { cx, cy, rx, ry } => mk_rect(
            sat_i32(cx - rx),
            sat_i32(cy - ry),
            sat_i32(2 * rx),
            sat_i32(2 * ry),
        ),
        ShapeView::Circle { cx, cy, r } => mk_rect(
            sat_i32(cx - r),
            sat_i32(cy - r),
            sat_i32(2 * r),
            sat_i32(2 * r),
        ),
        ShapeView::Triangle { ax, ay, bx, by, cx, cy } => {
            let x0 = min3_spec(ax as int, bx as int, cx as int);
            let y0 = min3_spec(ay as int, by as int, cy as int);
            mk_rect(
                x0,
                y0,
                sat_i32(max3_spec(ax as int, bx as int, cx as int) - x0),
                sat_i32(max3_spec(ay as int, by as int, cy as int) - y0),
            )
        },
    }
}

pub proof fn lemma_fold_bounds(pts: Seq<Point>, k: int)
    requires
        0 < k <= pts.len(),
    ensures
        forall|i: int|
            0 <= i < k ==> fold_min_x(pts, k) <= #[trigger] pts[i].x <= fold_max_x(pts, k)
                && fold_min_y(pts, k) <= pts[i].y <= fold_max_y(pts, k),
        exists|i: int| 0 <= i < k && fold_min_x(pts, k) == #[trigger] pts[i].x,
        exists|i: int| 0 <= i < k && fold_min_y(pts, k) == #[trigger] pts[i].y,
        exists|i: int| 0 <= i < k && fold_max_x(pts, k) == #[trigger] pts[i].x,
        exists|i: int| 0 <= i < k && fold_max_y(pts, k) == #[trigger] pts[i].y,
    decreases k,
{
    let last = pts[k - 1];
    if k > 1 {
        lemma_fold_bounds(pts, k - 1);
        let a = choose|i: int| 0 <= i < k - 1 && fold_min_x(pts, k - 1) == #[trigger] pts[i].x;
        let b = choose|i: int| 0 <= i < k - 1 && fold_min_y(pts, k - 1) == #[trigger] pts[i].y;
        let c = choose|i: int| 0 <= i < k - 1 && fold_max_x(pts, k - 1) == #[trigger] pts[i].x;
        let d = choose|i: int| 0 <= i < k - 1 && fold_max_y(pts, k - 1) == #[trigger] pts[i].y;
        let wa = if fold_min_x(pts, k - 1) <= last.x { a } else { k - 1 };
        let wb = if fold_min_y(pts, k - 1) <= last.y { b } else { k - 1 };
        let wc = if fold_max_x(pts, k - 1) >= last.x { c } else { k - 1 };
        let wd = if fold_max_y(pts, k - 1) >= last.y { d } else { k - 1 };
        assert(fold_min_x(pts, k) == pts[wa].x);
        assert(fold_min_y(pts, k) == pts[wb].y);
        assert(fold_max_x(pts, k) == pts[wc].x);
        assert(fold_max_y(pts, k) == pts[wd].y);
    } else {
        assert(fold_min_x(pts, 0) == i32::MAX);
        assert(fold_min_y(pts, 0) == i32::MAX);
        assert(fold_max_x(pts, 0) == i32::MIN);
        assert(fold_max_y(pts, 0) == i32::MIN);
        assert(fold_min_x(pts, 1) == pts[0].x);
        assert(fold_min_y(pts, 1) == pts[0].y);
        assert(fold_max_x(pts, 1) == pts[0].x);
        assert(fold_max_y(pts, 1) == pts[0].y);
    }
}


// ---------------------------------------------------------------------
// Coverage
// ---------------------------------------------------------------------
pub open spec fn cross_pts(a: Point, b: Point, p: Point) -> int {
    (b.x - a.x) * (p.y - a.y) - (b.y - a.y) * (p.x - a.x)
}

/// `p` lies exactly on the segment `a..b`, ends included.
pub open spec fn on_segment_spec(a: Point, b: Point, p: Point) -> bool {
    &&& cross_pts(a, b, p) == 0
    &&& min_spec(a.x as int, b.x as int) <= p.x <= max_spec(a.x as int, b.x as int)
    &&& min_spec(a.y as int, b.y as int) <= p.y <= max_spec(a.y as int, b.y as int)
}

/// The edge `a -> b` crosses the horizontal ray from `p` toward +x.
pub open spec fn edge_crosses(a: Point, b: Point, p: Point) -> bool {
    &&& (a.y > p.y) != (b.y > p.y)
    &&& if b.y > a.y {
        cross_pts(a, b, p) > 0
    } else {
        cross_pts(a, b, p) < 0
    }
}

/// Vertex `i`'s outgoing edge ends at the next vertex, wrapping around.
pub open spec fn next_vertex(pts: Seq<Point>, i: int) -> Point {
    pts[(i + 1) % (pts.len() as int)]
}

/// How many of the first `k` edges cross the ray from `p`.
pub open spec fn crossing_count(pts: Seq<Point>, p: Point, k: int) -> nat
    decreases k,
{
    if k <= 0 {
        0
    } else {
        crossing_count(pts, p, k - 1) + if edge_crosses(pts[k - 1], next_vertex(pts, k - 1), p) {
            1nat
        } else {
            0nat
        }
    }
}

/// Edge-inclusive even-odd containment: on any edge counts as inside,
/// otherwise an odd number of ray crossings does.
pub open spec fn poly_covers(pts: Seq<Point>, p: Point) -> bool {
    &&& pts.len() >= 3
    &&& (exists|i: int| 0 <= i < pts.len() && on_segment_spec(#[trigger] pts[i], next_vertex(pts, i), p))
        || crossing_count(pts, p, pts.len() as int) % 2 == 1
}

/// Whether the shape covers `p`: boundaries are inclusive for every kind
/// but the rect, whose far edges are exclusive; a zero-area triangle
/// covers nothing.
pub open spec fn covers_spec(s: ShapeView, p: Point) -> bool {
    match s {
        ShapeView::Poly(pts) => poly_covers(pts, p),
        ShapeView::Rect(r) => rect_contains(r, p),
        ShapeView::Ellipse { cx, cy, rx, ry } => {
            let dx = p.x - cx;
            let dy = p.y - cy;
            dx * dx * ry * ry + dy * dy * rx * rx <= rx * rx * ry * ry
        },
        ShapeView::Circle { cx, cy, r } => {
            let dx = p.x - cx;
            let dy = p.y - cy;
            dx * dx + dy * dy <= r * r
        },
        ShapeView::Triangle { ax, ay, bx, by, cx, cy } => {
            let d1 = cross_spec(p.x as int, p.y as int, ax as int, ay as int, bx as int, by as int);
            let d2 = cross_spec(p.x as int, p.y as int, bx as int, by as int, cx as int, cy as int);
            let d3 = cross_spec(p.x as int, p.y as int, cx as int, cy as int, ax as int, ay as int);
            &&& cross_spec(cx as int, cy as int, ax as int, ay as int, bx as int, by as int) != 0
            &&& !((d1 < 0 || d2 < 0 || d3 < 0) && (d1 > 0 || d2 > 0 || d3 > 0))
        },
    }
}

fn cross_points(a: Point, b: Point, p: Point) -> (c: i64)
    requires
        a.in_domain() && b.in_domain(),
    ensures
        c == cross_pts(a, b, p),
{
    proof {
        lemma_cross_bounds(p.x as int, p.y as int, a.x as int, a.y as int, b.x as int, b.y as int);
    }
    (b.x - a.x) as i64 * (p.y as i64 - a.y as i64) - (b.y - a.y) as i64 * (p.x as i64 - a.x as i64)
}

fn on_segment(a: Point, b: Point, p: Point) -> (r: bool)
    requires
        a.in_domain() && b.in_domain(),
    ensures
        r == on_segment_spec(a, b, p),
{
    let c = cross_points(a, b, p);
    c == 0 && p.x >= min_i32(a.x, b.x) && p.x <= max_i32(a.x, b.x) && p.y >= min_i32(a.y, b.y)
        && p.y <= max_i32(a.y, b.y)
}

/// Edge-inclusive point-in-polygon in exact integer arithmetic.
fn point_in_poly(points: &Vec<Point>, p: Point) -> (r: bool)
    requires
        points_in_domain(points@),
    ensures
        r == poly_covers(points@, p),
{
    let n = points.len();
    if n < 3 {
        return false;
    }
    let mut inside = false;
    let mut i: usize = 0;
    while i < n
        invariant
            n == points@.len(),
            n >= 3,
            i <= n,
            points_in_domain(points@),
            inside == (crossing_count(points@, p, i as int) % 2 == 1),
            forall|j: int|
                0 <= j < i ==> !on_segment_spec(#[trigger] points@[j], next_vertex(points@, j), p),
        decreases n - i,
    {
        let a = points[i];
        let b = points[(i + 1) % n];
        assert(b == next_vertex(points@, i as int));
        assert(a.in_domain() && b.in_domain());
        if on_segment(a, b, p) {
            assert(on_segment_spec(points@[i as int], next_vertex(points@, i as int), p));
            return true;
        }
        if (a.y > p.y) != (b.y > p.y) {
            let c = cross_points(a, b, p);
            let crosses = if b.y > a.y {
                c > 0
            } else {
                c < 0
            };
            if crosses {
                inside = !inside;
            }
        }
        i = i + 1;
    }
    inside
}

proof fn lemma_ellipse_terms(dx: int, dy: int, rx: int, ry: int)
    requires
        -3_000_000_000 <= dx <= 3_000_000_000,
        -3_000_000_000 <= dy <= 3_000_000_000,
        -1_000_000 <= rx <= 1_000_000,
        -1_000_000 <= ry <= 1_000_000,
    ensures
        0 <= dx * dx <= 9_000_000_000_000_000_000,
        0 <= dy * dy <= 9_000_000_000_000_000_000,
        0 <= rx * rx <= 1_000_000_000_000,
        -9_000_000_000_000_000_000_000_000 <= dx * dx * ry <= 9_000_000_000_000_000_000_000_000,
        -9_000_000_000_000_000_000_000_000 <= dy * dy * rx <= 9_000_000_000_000_000_000_000_000,
        -1_000_000_000_000_000_000 <= rx * rx * ry <= 1_000_000_000_000_000_000,
        0 <= dx * dx * ry * ry <= 9_000_000_000_000_000_000_000_000_000_000,
        0 <= dy * dy * rx * rx <= 9_000_000_000_000_000_000_000_000_000_000,
        0 <= rx * rx * ry * ry <= 1_000_000_000_000_000_000_000_000,
{
    lemma_mul_bound(dx, dx, 3_000_000_000, 3_000_000_000);
    lemma_mul_bound(ry, ry, 1_000_000, 1_000_000);
    lemma_mul_bound(dy, dy, 3_000_000_000, 3_000_000_000);
    lemma_mul_bound(rx, rx, 1_000_000, 1_000_000);
    assert(0 <= (dx * dx) * (ry * ry) <= 9_000_000_000_000_000_000 * 1_000_000_000_000) by (nonlinear_arith)
        requires
            0 <= dx * dx <= 9_000_000_000_000_000_000,
            0 <= ry * ry <= 1_000_000_000_000,
    ;
    assert(0 <= (dy * dy) * (rx * rx) <= 9_000_000_000_000_000_000 * 1_000_000_000_000) by (nonlinear_arith)
        requires
            0 <= dy * dy <= 9_000_000_000_000_000_000,
            0 <= rx * rx <= 1_000_000_000_000,
    ;
    assert(0 <= (rx * rx) * (ry * ry) <= 1_000_000_000_000 * 1_000_000_000_000) by (nonlinear_arith)
        requires
            0 <= rx * rx <= 1_000_000_000_000,
            0 <= ry * ry <= 1_000_000_000_000,
    ;
    lemma_mul_bound(dx * dx, ry, 9_000_000_000_000_000_000, 1_000_000);
    lemma_mul_bound(dy * dy, rx, 9_000_000_000_000_000_000, 1_000_000);
    lemma_mul_bound(rx * rx, ry, 1_000_000_000_000, 1_000_000);
    assert(dx * dx * ry * ry == (dx * dx) * (ry * ry)) by (nonlinear_arith);
    assert(dy * dy * rx * rx == (dy * dy) * (rx * rx)) by (nonlinear_arith);
    assert(rx * rx * ry * ry == (rx * rx) * (ry * ry)) by (nonlinear_arith);
}


// ---------------------------------------------------------------------
// Translation, pivots, click points
// ---------------------------------------------------------------------
pub open spec fn shift(p: Point, dx: int, dy: int) -> Point {
    Point { x: (p.x + dx) as i32, y: (p.y + dy) as i32 }
}

/// Every positional coordinate stays an `i32` after moving by (`dx`, `dy`);
/// radii and extents do not move.
pub open spec fn translate_fits(s: ShapeView, dx: int, dy: int) -> bool {
    match s {
        ShapeView::Poly(pts) => forall|i: int|
            #![trigger pts[i]]
            0 <= i < pts.len() ==> fits_i32(pts[i].x + dx) && fits_i32(pts[i].y + dy),
        ShapeView::Rect(r) => fits_i32(r.x + dx) && fits_i32(r.y + dy),
        ShapeView::Circle { cx, cy, r } => fits_i32(cx + dx) && fits_i32(cy + dy),
        ShapeView::Ellipse { cx, cy, rx, ry } => fits_i32(cx + dx) && fits_i32(cy + dy),
        ShapeView::Triangle { ax, ay, bx, by, cx, cy } => fits_i32(ax + dx) && fits_i32(ay + dy)
            && fits_i32(bx + dx) && fits_i32(by + dy) && fits_i32(cx + dx) && fits_i32(cy + dy),
    }
}

pub open spec fn translate_spec(s: ShapeView, dx: int, dy: int) -> ShapeView {
    match s {
        ShapeView::Poly(pts) => ShapeView::Poly(pts.map_values(|p: Point| shift(p, dx, dy))),
        ShapeView::Rect(r) => ShapeView::Rect(mk_rect(r.x + dx, r.y + dy, r.w as int, r.h as int)),
        ShapeView::Circle { cx, cy, r } => ShapeView::Circle {
            cx: (cx + dx) as i32,
            cy: (cy + dy) as i32,
            r,
        },
        ShapeView::Ellipse { cx, cy, rx, ry } => ShapeView::Ellipse {
            cx: (cx + dx) as i32,
            cy: (cy + dy) as i32,
            rx,
            ry,
        },
        ShapeView::Triangle { ax, ay, bx, by, cx, cy } => ShapeView::Triangle {
            ax: (ax + dx) as i32,
            ay: (ay + dy) as i32,
            bx: (bx + dx) as i32,
            by: (by + dy) as i32,
            cx: (cx + dx) as i32,
            cy: (cy + dy) as i32,
        },
    }
}

/// The bbox center every rotation turns around (saturating).
pub open spec fn pivot_of(s: ShapeView) -> Point {
    let b = bbox_of(s);
    Point {
        x: sat_i32(b.x + trunc_div(b.w as int, 2)) as i32,
        y: sat_i32(b.y + trunc_div(b.h as int, 2)) as i32,
    }
}

pub open spec fn grab_origin_of(s: ShapeView) -> Point {
    match s {
        ShapeView::Rect(r) => Point { x: r.x, y: r.y },
        ShapeView::Circle { cx, cy, .. } => Point { x: cx, y: cy },
        ShapeView::Ellipse { cx, cy, .. } => Point { x: cx, y: cy },
        _ => Point { x: bbox_of(s).x, y: bbox_of(s).y },
    }
}

pub open spec fn sum_x(pts: Seq<Point>, k: int) -> int
    decreases k,
{
    if k <= 0 {
        0
    } else {
        sum_x(pts, k - 1) + pts[k - 1].x
    }
}

pub open spec fn sum_y(pts: Seq<Point>, k: int) -> int
    decreases k,
{
    if k <= 0 {
        0
    } else {
        sum_y(pts, k - 1) + pts[k - 1].y
    }
}

/// The vertex average, each axis rounded toward zero.
pub open spec fn mean_point(pts: Seq<Point>) -> Point {
    Point {
        x: trunc_div(sum_x(pts, pts.len() as int), pts.len() as int) as i32,
        y: trunc_div(sum_y(pts, pts.len() as int), pts.len() as int) as i32,
    }
}

/// Pixel `q` lies in the closed box `[x0, x1] x [y0, y1]`.
pub open spec fn in_closed_box(q: Point, x0: int, y0: int, x1: int, y1: int) -> bool {
    x0 <= q.x <= x1 && y0 <= q.y <= y1
}

/// Pixel `a` comes before `b` in a row-major scan.
pub open spec fn scan_before(a: Point, b: Point) -> bool {
    a.y < b.y || (a.y == b.y && a.x < b.x)
}

/// The bbox pixels (edges included) a scan for an interior point visits.
pub open spec fn in_scan_box(pts: Seq<Point>, q: Point) -> bool {
    let b = bbox_of(ShapeView::Poly(pts));
    in_closed_box(q, b.x as int, b.y as int, b.x + b.w, b.y + b.h)
}

/// What a polygon's click point is: the vertex average when it lands
/// inside, else the first covered pixel of a row-major bbox scan, else the
/// average anyway.
pub open spec fn poly_click_ok(pts: Seq<Point>, r: Point) -> bool {
    if pts.len() == 0 {
        r == Point { x: 0, y: 0 }
    } else if poly_covers(pts, mean_point(pts)) {
        r == mean_point(pts)
    } else if exists|q: Point| in_scan_box(pts, q) && poly_covers(pts, q) {
        &&& in_scan_box(pts, r)
        &&& poly_covers(pts, r)
        &&& forall|q: Point|
            in_scan_box(pts, q) && #[trigger] scan_before(q, r) ==> !poly_covers(pts, q)
    } else {
        r == mean_point(pts)
    }
}

/// The point a click should aim for.
pub open spec fn click_point_ok(s: ShapeView, r: Point) -> bool {
    match s {
        ShapeView::Poly(pts) => poly_click_ok(pts, r),
        ShapeView::Rect(_) => r == pivot_of(s),
        ShapeView::Circle { cx, cy, .. } => r == Point { x: cx, y: cy },
        ShapeView::Ellipse { cx, cy, .. } => r == Point { x: cx, y: cy },
        ShapeView::Triangle { ax, ay, bx, by, cx, cy } => r == Point {
            x: trunc_div(ax + bx + cx, 3) as i32,
            y: trunc_div(ay + by + cy, 3) as i32,
        },
    }
}

proof fn lemma_sum_bounds(pts: Seq<Point>, k: int)
    requires
        0 <= k <= pts.len(),
        forall|i: int| 0 <= i < pts.len() ==> (#[trigger] pts[i]).in_domain(),
    ensures
        -k * MAX_COORD <= sum_x(pts, k) <= k * MAX_COORD,
        -k * MAX_COORD <= sum_y(pts, k) <= k * MAX_COORD,
    decreases k,
{
    if k > 0 {
        lemma_sum_bounds(pts, k - 1);
        assert(pts[k - 1].in_domain());
    }
}

proof fn lemma_trunc_div_mean(s: int, n: int)
    requires
        n > 0,
        -n * MAX_COORD <= s <= n * MAX_COORD,
    ensures
        coord_ok(trunc_div(s, n)),
{
    if s >= 0 {
        assert(s / n <= MAX_COORD) by (nonlinear_arith)
            requires
                n > 0,
                0 <= s <= n * MAX_COORD,
        ;
        assert(s / n >= 0) by (nonlinear_arith)
            requires
                n > 0,
                0 <= s,
        ;
    } else {
        assert((-s) / n <= MAX_COORD) by (nonlinear_arith)
            requires
                n > 0,
                0 <= -s <= n * MAX_COORD,
        ;
        assert((-s) / n >= 0) by (nonlinear_arith)
            requires
                n > 0,
                0 <= -s,
        ;
    }
}


/// Degrees normalized into `0..360`.
pub fn normalize_deg(deg: i32) -> (r: i32)
    ensures
        r == (deg as int) % 360,
        0 <= r < 360,
{
    let m = deg % 360;
    if m < 0 {
        m + 360
    } else {
        m
    }
}

/// The vertex average of a non-empty polygon.
fn poly_mean(points: &Vec<Point>) -> (m: Point)
    requires
        points_in_domain(points@),
        points@.len() > 0,
    ensures
        m == mean_point(points@),
        m.in_domain(),
{
    let n = points.len();
    let ghost pts = points@;
    let mut sx: i64 = 0;
    let mut sy: i64 = 0;
    let mut i: usize = 0;
    while i < n
        invariant
            n == pts.len(),
            pts == points@,
            i <= n,
            points_in_domain(pts),
            sx == sum_x(pts, i as int),
            sy == sum_y(pts, i as int),
        decreases n - i,
    {
        proof {
            lemma_sum_bounds(pts, i as int + 1);
            assert((i + 1) * MAX_COORD <= n * MAX_COORD) by (nonlinear_arith)
                requires
                    i + 1 <= n,
            ;
        }
        sx = sx + points[i].x as i64;
        sy = sy + points[i].y as i64;
        i = i + 1;
    }
    proof {
        lemma_sum_bounds(pts, n as int);
        lemma_trunc_div_mean(sx as int, n as int);
        lemma_trunc_div_mean(sy as int, n as int);
    }
    Point::new((sx / n as i64) as i32, (sy / n as i64) as i32)
}

/// The bbox of a non-empty in-domain polygon is in the domain too.
pub proof fn lemma_poly_bbox_domain(pts: Seq<Point>)
    requires
        points_in_domain(pts),
        pts.len() > 0,
    ensures
        coord_ok(bbox_of(ShapeView::Poly(pts)).x as int),
        coord_ok(bbox_of(ShapeView::Poly(pts)).y as int),
        coord_ok(bbox_of(ShapeView::Poly(pts)).x + bbox_of(ShapeView::Poly(pts)).w),
        coord_ok(bbox_of(ShapeView::Poly(pts)).y + bbox_of(ShapeView::Poly(pts)).h),
        bbox_of(ShapeView::Poly(pts)).w >= 0,
        bbox_of(ShapeView::Poly(pts)).h >= 0,
{
    let n = pts.len() as int;
    lemma_fold_bounds(pts, n);
    let a = choose|i: int| 0 <= i < n && fold_min_x(pts, n) == #[trigger] pts[i].x;
    let b = choose|i: int| 0 <= i < n && fold_min_y(pts, n) == #[trigger] pts[i].y;
    let c = choose|i: int| 0 <= i < n && fold_max_x(pts, n) == #[trigger] pts[i].x;
    let d = choose|i: int| 0 <= i < n && fold_max_y(pts, n) == #[trigger] pts[i].y;
    assert(pts[a].in_domain() && pts[b].in_domain() && pts[c].in_domain() && pts[d].in_domain());
}

/// The first covered pixel of a row-major scan of the polygon's bbox.
fn scan_for_cover(points: &Vec<Point>) -> (r: Option<Point>)
    requires
        points_in_domain(points@),
        points@.len() > 0,
    ensures
        r matches Some(q) ==> in_scan_box(points@, q) && poly_covers(points@, q) && forall|o: Point|
            in_scan_box(points@, o) && #[trigger] scan_before(o, q) ==> !poly_covers(points@, o),
        r is None ==> forall|q: Point| in_scan_box(points@, q) ==> !poly_covers(points@, q),
{
    let ghost pts = points@;
    let shape = Shape::Poly { points: points.clone() };
    let bb = shape.bbox();
    proof {
        lemma_poly_bbox_domain(pts);
    }
    let x_end = bb.x + bb.w;
    let y_end = bb.y + bb.h;
    let mut y = bb.y;
    while y <= y_end
        invariant
            pts == points@,
            points_in_domain(pts),
            bb == bbox_of(ShapeView::Poly(pts)),
            x_end == bb.x + bb.w,
            y_end == bb.y + bb.h,
            coord_ok(bb.x as int) && coord_ok(bb.y as int),
            coord_ok(x_end as int) && coord_ok(y_end as int),
            bb.x <= x_end,
            bb.y <= y <= y_end + 1,
            forall|q: Point| in_scan_box(pts, q) && q.y < y ==> !poly_covers(pts, q),
        decreases y_end + 1 - y,
    {
        let mut x = bb.x;
        while x <= x_end
            invariant
                pts == points@,
                points_in_domain(pts),
                bb == bbox_of(ShapeView::Poly(pts)),
                x_end == bb.x + bb.w,
                y_end == bb.y + bb.h,
                coord_ok(bb.x as int) && coord_ok(bb.y as int),
                coord_ok(x_end as int) && coord_ok(y_end as int),
                bb.x <= x <= x_end + 1,
                bb.y <= y <= y_end,
                forall|q: Point|
                    in_scan_box(pts, q) && (q.y < y || (q.y == y && q.x < x)) ==> !poly_covers(pts, q),
            decreases x_end + 1 - x,
        {
            let q = Point::new(x, y);
            if point_in_poly(points, q) {
                assert(in_scan_box(pts, q));
                return Some(q);
            }
            x = x + 1;
        }
        y = y + 1;
    }
    None
}

/// A point inside the polygon whenever any pixel is: the vertex average
/// when it lands inside, else the first covered pixel of a bbox scan.
fn poly_interior_point(points: &Vec<Point>) -> (r: Point)
    requires
        points_in_domain(points@),
    ensures
        poly_click_ok(points@, r),
{
    if points.len() == 0 {
        return Point::new(0, 0);
    }
    let mean = poly_mean(points);
    if point_in_poly(points, mean) {
        return mean;
    }
    match scan_for_cover(points) {
        Some(q) => q,
        None => mean,
    }
}


// ---------------------------------------------------------------------
// Drawing previews
// ---------------------------------------------------------------------
/// The isosceles triangle inscribed in a box: apex top-center, flat base.
pub open spec fn triangle_in_box_spec(b: Rect) -> ShapeView {
    ShapeView::Triangle {
        ax: (b.x + trunc_div(b.w as int, 2)) as i32,
        ay: b.y,
        bx: b.x,
        by: (b.y + b.h) as i32,
        cx: (b.x + b.w) as i32,
        cy: (b.y + b.h) as i32,
    }
}

/// The ellipse inscribed in a box; `lock` makes it the inscribed circle.
/// Radii never drop below 1.
pub open spec fn ellipse_in_box_spec(b: Rect, lock: bool) -> ShapeView {
    let cx = (b.x + trunc_div(b.w as int, 2)) as i32;
    let cy = (b.y + trunc_div(b.h as int, 2)) as i32;
    let rx = trunc_div(b.w as int, 2);
    let ry = trunc_div(b.h as int, 2);
    if lock {
        let r = max_spec(min_spec(rx, ry), 1) as i32;
        ShapeView::Ellipse { cx, cy, rx: r, ry: r }
    } else {
        ShapeView::Ellipse { cx, cy, rx: max_spec(rx, 1) as i32, ry: max_spec(ry, 1) as i32 }
    }
}

/// The shape previewed while dragging from `start` to `current`, with
/// `current` clamped into `region`; `None` while the drag is degenerate
/// or for tools whose previews need state this function does not have.
pub open spec fn preview_spec(
    tool: ToolKind,
    start: Point,
    current: Point,
    region: Rect,
    lock: bool,
) -> Option<ShapeView> {
    let cx = clamp_spec(current.x as int, region.x as int, region.x + region.w - 1);
    let cy = clamp_spec(current.y as int, region.y as int, region.y + region.h - 1);
    match tool {
        ToolKind::Rect | ToolKind::Triangle | ToolKind::Ellipse => {
            let w = abs_spec(start.x - cx);
            let h = abs_spec(start.y - cy);
            if w <= 1 || h <= 1 {
                None
            } else {
                let b = mk_rect(min_spec(start.x as int, cx), min_spec(start.y as int, cy), w, h);
                Some(
                    match tool {
                        ToolKind::Rect => ShapeView::Rect(b),
                        ToolKind::Ellipse => ellipse_in_box_spec(b, lock),
                        _ => triangle_in_box_spec(b),
                    },
                )
            }
        },
        ToolKind::Circle => {
            let dx = start.x - cx;
            let dy = start.y - cy;
            let r = isqrt(dx * dx + dy * dy);
            if r <= 0 {
                None
            } else {
                Some(ShapeView::Circle { cx: start.x, cy: start.y, r: r as i32 })
            }
        },
        _ => None,
    }
}

/// A drawable region: non-empty, with both corners in the domain.
pub open spec fn region_ok(region: Rect) -> bool {
    &&& region.in_domain()
    &&& region.w >= 1 && region.h >= 1
    &&& coord_ok(region.x + region.w) && coord_ok(region.y + region.h)
}

fn triangle_in_box(b: Rect) -> (s: Shape)
    requires
        box_ok(b),
    ensures
        s@ == triangle_in_box_spec(b),
{
    Shape::Triangle {
        ax: b.x + b.w / 2,
        ay: b.y,
        bx: b.x,
        by: b.y + b.h,
        cx: b.x + b.w,
        cy: b.y + b.h,
    }
}

fn ellipse_in_box(b: Rect, lock: bool) -> (s: Shape)
    requires
        box_ok(b),
    ensures
        s@ == ellipse_in_box_spec(b, lock),
{
    let cx = b.x + b.w / 2;
    let cy = b.y + b.h / 2;
    let rx = b.w / 2;
    let ry = b.h / 2;
    if lock {
        let r = max_i32(min_i32(rx, ry), 1);
        return Shape::Ellipse { cx, cy, rx: r, ry: r };
    }
    Shape::Ellipse { cx, cy, rx: max_i32(rx, 1), ry: max_i32(ry, 1) }
}

// ---------------------------------------------------------------------
// Moving
// ---------------------------------------------------------------------
/// Where a drag-move puts the shape: the cursor minus the grab offset,
/// clamped so the shape (its bbox, or its radius around the center) stays
/// inside `region` when it fits.
pub open spec fn clamp_move_spec(s: ShapeView, grab: Point, cursor: Point, region: Rect) -> ShapeView {
    let right = region.x + region.w;
    let bottom = region.y + region.h;
    let tx = cursor.x - grab.x;
    let ty = cursor.y - grab.y;
    match s {
        ShapeView::Rect(rect) => ShapeView::Rect(
            mk_rect(
                clamp_spec(tx, region.x as int, max_spec(right - rect.w, region.x as int)),
                clamp_spec(ty, region.y as int, max_spec(bottom - rect.h, region.y as int)),
                rect.w as int,
                rect.h as int,
            ),
        ),
        ShapeView::Circle { r, .. } => {
            let min_x = region.x + max_spec(r as int, 0);
            let min_y = region.y + max_spec(r as int, 0);
            ShapeView::Circle {
                cx: clamp_spec(tx, min_x, max_spec(right - r, min_x)) as i32,
                cy: clamp_spec(ty, min_y, max_spec(bottom - r, min_y)) as i32,
                r,
            }
        },
        ShapeView::Ellipse { rx, ry, .. } => {
            let min_x = region.x + max_spec(rx as int, 0);
            let min_y = region.y + max_spec(ry as int, 0);
            ShapeView::Ellipse {
                cx: clamp_spec(tx, min_x, max_spec(right - rx, min_x)) as i32,
                cy: clamp_spec(ty, min_y, max_spec(bottom - ry, min_y)) as i32,
                rx,
                ry,
            }
        },
        _ => {
            let b = bbox_of(s);
            let nx = clamp_spec(tx, region.x as int, max_spec(right - b.w, region.x as int));
            let ny = clamp_spec(ty, region.y as int, max_spec(bottom - b.h, region.y as int));
            translate_spec(s, nx - b.x, ny - b.y)
        },
    }
}

/// A rect that fits the region lands wholly inside it after a move, and
/// so does a circle whose diameter fits.
pub open spec fn move_stays_inside(before: ShapeView, after: ShapeView, region: Rect) -> bool {
    match (before, after) {
        (ShapeView::Rect(a), ShapeView::Rect(b)) => 0 <= a.w <= region.w && 0 <= a.h <= region.h
            ==> region.x <= b.x && b.x + b.w <= region.x + region.w && region.y <= b.y && b.y + b.h
            <= region.y + region.h,
        (ShapeView::Circle { r, .. }, ShapeView::Circle { cx, cy, r: r2 }) => 0 <= 2 * r
            <= region.w && 2 * r <= region.h ==> region.x <= cx - r2 && cx + r2 <= region.x
            + region.w && region.y <= cy - r2 && cy + r2 <= region.y + region.h,
        _ => true,
    }
}

/// The bbox of an in-domain triangle or polygon is in the domain, and the
/// vertices lie inside it.
pub proof fn lemma_vertex_bbox(s: ShapeView)
    requires
        shape_in_domain(s),
        s is Triangle || s is Poly,
    ensures
        coord_ok(bbox_of(s).x as int) && coord_ok(bbox_of(s).y as int),
        0 <= bbox_of(s).w <= 2 * MAX_COORD,
        0 <= bbox_of(s).h <= 2 * MAX_COORD,
        translate_fits(s, 0, 0),
        forall|dx: int, dy: int|
            -4 * MAX_COORD <= dx - bbox_of(s).x <= 4 * MAX_COORD && -4 * MAX_COORD <= dy
                - bbox_of(s).y <= 4 * MAX_COORD ==> #[trigger] translate_fits(
                s,
                dx - bbox_of(s).x,
                dy - bbox_of(s).y,
            ),
{
    match s {
        ShapeView::Poly(pts) => {
            if pts.len() > 0 {
                lemma_poly_bbox_domain(pts);
                lemma_fold_bounds(pts, pts.len() as int);
            }
        },
        _ => {},
    }
}

// ---------------------------------------------------------------------
// Resize grips
// ---------------------------------------------------------------------
/// The grip a point takes on an axis-aligned box's border, within
/// `tolerance` of it; a box narrower than the band grabs the nearer edge.
pub open spec fn box_grab_spec(rect: Rect, p: Point, tolerance: int) -> Option<ResizeHandle> {
    let x1 = rect.x + rect.w;
    let y1 = rect.y + rect.h;
    let within_x = p.x >= rect.x - tolerance && p.x <= x1 + tolerance;
    let within_y = p.y >= rect.y - tolerance && p.y <= y1 + tolerance;
    let left_d = abs_spec(p.x - rect.x);
    let right_d = abs_spec(p.x - x1);
    let top_d = abs_spec(p.y - rect.y);
    let bottom_d = abs_spec(p.y - y1);
    let left0 = left_d <= tolerance && within_y;
    let right0 = right_d <= tolerance && within_y;
    let top0 = top_d <= tolerance && within_x;
    let bottom0 = bottom_d <= tolerance && within_x;
    let right = if left0 && right0 { right_d < left_d } else { right0 };
    let left = if left0 && right0 { !right } else { left0 };
    let bottom = if top0 && bottom0 { bottom_d < top_d } else { bottom0 };
    let top = if top0 && bottom0 { !bottom } else { top0 };
    if left || right || top || bottom {
        Some(ResizeHandle::RectEdges { left, right, top, bottom })
    } else {
        None
    }
}

/// A circle's rim holds `p` when `p`'s distance from the center is within
/// `t` of `r`, stated on squared distances.
pub open spec fn on_rim(d2: int, r: int, t: int) -> bool {
    &&& r + t >= 0
    &&& d2 <= (r + t) * (r + t)
    &&& (r - t <= 0 || d2 >= (r - t) * (r - t))
}

pub open spec fn resize_grab_spec(s: ShapeView, p: Point, tolerance: int) -> Option<ResizeHandle> {
    let t = max_spec(tolerance, 1);
    match s {
        ShapeView::Circle { cx, cy, r } => {
            let dx = p.x - cx;
            let dy = p.y - cy;
            if on_rim(dx * dx + dy * dy, r as int, t) {
                Some(ResizeHandle::CircleRadius)
            } else {
                None
            }
        },
        ShapeView::Rect(rect) => box_grab_spec(rect, p, t),
        _ => box_grab_spec(bbox_of(s), p, t),
    }
}

fn box_border_grab(rect: Rect, p: Point, tolerance: i32) -> (h: Option<ResizeHandle>)
    requires
        box_ok(rect),
        1 <= tolerance <= MAX_COORD,
    ensures
        h == box_grab_spec(rect, p, tolerance as int),
{
    let t = tolerance as i64;
    let px = p.x as i64;
    let py = p.y as i64;
    let x0 = rect.x as i64;
    let y0 = rect.y as i64;
    let x1 = x0 + rect.w as i64;
    let y1 = y0 + rect.h as i64;
    let within_x = px >= x0 - t && px <= x1 + t;
    let within_y = py >= y0 - t && py <= y1 + t;
    let left_d = if px >= x0 { px - x0 } else { x0 - px };
    let right_d = if px >= x1 { px - x1 } else { x1 - px };
    let top_d = if py >= y0 { py - y0 } else { y0 - py };
    let bottom_d = if py >= y1 { py - y1 } else { y1 - py };
    let mut left = left_d <= t && within_y;
    let mut right = right_d <= t && within_y;
    let mut top = top_d <= t && within_x;
    let mut bottom = bottom_d <= t && within_x;
    if left && right {
        right = right_d < left_d;
        left = !right;
    }
    if top && bottom {
        bottom = bottom_d < top_d;
        top = !bottom;
    }
    if left || right || top || bottom {
        Some(ResizeHandle::RectEdges { left, right, top, bottom })
    } else {
        None
    }
}


// ---------------------------------------------------------------------
// Resizing
// ---------------------------------------------------------------------
/// The smallest extent a resize leaves on a dragged axis.
pub const MIN_EXTENT: i32 = 2;

/// A non-negative scale factor held exactly, as `num / den` with `den > 0`.
pub struct Frac {
    pub num: int,
    pub den: int,
}

pub open spec fn frac_max(a: Frac, b: Frac) -> Frac {
    if a.num * b.den >= b.num * a.den {
        a
    } else {
        b
    }
}

pub open spec fn frac_min(a: Frac, b: Frac) -> Frac {
    if a.num * b.den <= b.num * a.den {
        a
    } else {
        b
    }
}

/// The box edges after the grabbed ones follow the cursor, each stopping
/// `MIN_EXTENT` short of the edge it faces: `(x0, x1, y0, y1)`.
pub open spec fn dragged_edges(
    rect: Rect,
    left: bool,
    right: bool,
    top: bool,
    bottom: bool,
    c: Point,
) -> (int, int, int, int) {
    let x0 = if left { min_spec(c.x as int, rect.x + rect.w - 2) } else { rect.x as int };
    let x1 = if right { max_spec(c.x as int, x0 + 2) } else { rect.x + rect.w };
    let y0 = if top { min_spec(c.y as int, rect.y + rect.h - 2) } else { rect.y as int };
    let y1 = if bottom { max_spec(c.y as int, y0 + 2) } else { rect.y + rect.h };
    (x0, x1, y0, y1)
}

/// The edges once the original width:height ratio is restored. On a
/// corner the dominant axis sets the scale, capped by the room the region
/// leaves, and the opposite corner stays put; on a single edge the other
/// axis follows proportionally, centered on the old box and kept inside
/// the region.
///
/// The scaling is exact: each scaled side is an exact fraction rounded half
/// away from zero, so an exact half rounds up even where a floating-point
/// product would fall just short of it (a 6 by 15 box whose corner is
/// dragged to width 49 scales its height to exactly 122.5, which is 123).
pub open spec fn aspect_edges(
    rect: Rect,
    left: bool,
    right: bool,
    top: bool,
    bottom: bool,
    e: (int, int, int, int),
    region: Rect,
) -> (int, int, int, int) {
    let (x0, x1, y0, y1) = e;
    let w0 = rect.w as int;
    let h0 = rect.h as int;
    if (left || right) && (top || bottom) {
        let s0 = frac_max(Frac { num: x1 - x0, den: w0 }, Frac { num: y1 - y0, den: h0 });
        let avail_w = if left { x1 - region.x } else { region.x + region.w - x0 };
        let avail_h = if top { y1 - region.y } else { region.y + region.h - y0 };
        let s = frac_min(
            frac_min(s0, Frac { num: avail_w, den: w0 }),
            Frac { num: avail_h, den: h0 },
        );
        let w = max_spec(round_div(w0 * s.num, s.den), 2);
        let h = max_spec(round_div(h0 * s.num, s.den), 2);
        (
            if left { x1 - w } else { x0 },
            if left { x1 } else { x0 + w },
            if top { y1 - h } else { y0 },
            if top { y1 } else { y0 + h },
        )
    } else if left || right {
        let h = min_spec(max_spec(round_div((x1 - x0) * h0, w0), 2), region.h as int);
        let center_y = rect.y + trunc_div(h0, 2);
        let ny0 = clamp_spec(
            center_y - trunc_div(h, 2),
            region.y as int,
            region.y + region.h - h,
        );
        (x0, x1, ny0, ny0 + h)
    } else {
        let w = min_spec(max_spec(round_div((y1 - y0) * w0, h0), 2), region.w as int);
        let center_x = rect.x + trunc_div(w0, 2);
        let nx0 = clamp_spec(
            center_x - trunc_div(w, 2),
            region.x as int,
            region.x + region.w - w,
        );
        (nx0, nx0 + w, y0, y1)
    }
}

/// A box resized by dragging the given edges to `c`. A box that was
/// already below `MIN_EXTENT` is shifted back inside the region without
/// shrinking; any other box keeps its anchored edges where they were.
pub open spec fn resize_box_spec(
    rect: Rect,
    left: bool,
    right: bool,
    top: bool,
    bottom: bool,
    c: Point,
    region: Rect,
    keep_aspect: bool,
) -> Rect {
    let e = dragged_edges(rect, left, right, top, bottom, c);
    let (x0, x1, y0, y1) = if keep_aspect && rect.w >= 2 && rect.h >= 2 {
        aspect_edges(rect, left, right, top, bottom, e, region)
    } else {
        e
    };
    let w = x1 - x0;
    let h = y1 - y0;
    if rect.w >= 2 && rect.h >= 2 {
        mk_rect(x0, y0, w, h)
    } else {
        mk_rect(
            clamp_spec(x0, region.x as int, max_spec(region.x + region.w - w, region.x as int)),
            clamp_spec(y0, region.y as int, max_spec(region.y + region.h - h, region.y as int)),
            w,
            h,
        )
    }
}

/// A box that stays within the wide range once resized.
pub open spec fn resize_inputs_ok(rect: Rect, c: Point, region: Rect) -> bool {
    &&& -2 * MAX_COORD <= rect.x <= 2 * MAX_COORD
    &&& -2 * MAX_COORD <= rect.y <= 2 * MAX_COORD
    &&& -2 * MAX_COORD <= rect.w <= 2 * MAX_COORD
    &&& -2 * MAX_COORD <= rect.h <= 2 * MAX_COORD
    &&& c.in_domain()
    &&& region_ok(region)
}

fn min_i64(a: i64, b: i64) -> (r: i64)
    ensures
        r == min_spec(a as int, b as int),
{
    if a <= b {
        a
    } else {
        b
    }
}

fn max_i64(a: i64, b: i64) -> (r: i64)
    ensures
        r == max_spec(a as int, b as int),
{
    if a >= b {
        a
    } else {
        b
    }
}

fn clamp_i64(v: i64, lo: i64, hi: i64) -> (r: i64)
    requires
        lo <= hi,
    ensures
        r == clamp_spec(v as int, lo as int, hi as int),
{
    if v < lo {
        lo
    } else if v > hi {
        hi
    } else {
        v
    }
}

/// Which of two positive-denominator fractions is larger (ties: the first).
fn frac_ge(an: i64, ad: i64, bn: i64, bd: i64) -> (r: bool)
    requires
        -20_000_000 <= an <= 20_000_000,
        -20_000_000 <= bn <= 20_000_000,
        0 < ad <= 20_000_000,
        0 < bd <= 20_000_000,
    ensures
        r == (an * bd >= bn * ad),
{
    proof {
        lemma_mul_bound(an as int, bd as int, 20_000_000, 20_000_000);
        lemma_mul_bound(bn as int, ad as int, 20_000_000, 20_000_000);
    }
    an * bd >= bn * ad
}


/// The frac-min chain leaves a scale no larger than either cap.
proof fn lemma_frac_min_caps(s0: Frac, a: Frac, b: Frac)
    requires
        s0.den > 0 && a.den > 0 && b.den > 0,
    ensures
        frac_min(frac_min(s0, a), b).den > 0,
        frac_min(frac_min(s0, a), b).num * a.den <= a.num * frac_min(frac_min(s0, a), b).den,
        frac_min(frac_min(s0, a), b).num * b.den <= b.num * frac_min(frac_min(s0, a), b).den,
{
    let m = frac_min(s0, a);
    let r = frac_min(m, b);
    if m == s0 && s0 != a {
        // s0 <= a, r is s0 or b.
        if r == s0 {
        } else {
            // b < s0 <= a
            assert(b.num * a.den <= a.num * b.den) by (nonlinear_arith)
                requires
                    b.num * s0.den < s0.num * b.den,
                    s0.num * a.den <= a.num * s0.den,
                    s0.den > 0,
                    a.den > 0,
                    b.den > 0,
            ;
        }
    } else {
        if r != m {
            assert(b.num * a.den <= a.num * b.den) by (nonlinear_arith)
                requires
                    b.num * m.den < m.num * b.den,
                    m == a,
                    a.den > 0,
                    b.den > 0,
            ;
        } else {
            assert(r.num * r.den == r.num * r.den);
        }
    }
}

/// Bounds the dragged edges stay within.
pub open spec fn edges_ok(e: (int, int, int, int)) -> bool {
    let (x0, x1, y0, y1) = e;
    &&& -4_000_002 <= x0 <= 4_000_000 && -4_000_000 <= x1 <= 4_000_002
    &&& -4_000_002 <= y0 <= 4_000_000 && -4_000_000 <= y1 <= 4_000_002
}

fn drag_edges(rect: Rect, left: bool, right: bool, top: bool, bottom: bool, c: Point) -> (e: (
    i64,
    i64,
    i64,
    i64,
))
    requires
        -2 * MAX_COORD <= rect.x <= 2 * MAX_COORD,
        -2 * MAX_COORD <= rect.y <= 2 * MAX_COORD,
        -2 * MAX_COORD <= rect.w <= 2 * MAX_COORD,
        -2 * MAX_COORD <= rect.h <= 2 * MAX_COORD,
        c.in_domain(),
    ensures
        (e.0 as int, e.1 as int, e.2 as int, e.3 as int) == dragged_edges(
            rect,
            left,
            right,
            top,
            bottom,
            c,
        ),
        edges_ok((e.0 as int, e.1 as int, e.2 as int, e.3 as int)),
        left || right ==> e.1 - e.0 >= 2,
        top || bottom ==> e.3 - e.2 >= 2,
        !(left || right) ==> e.1 - e.0 == rect.w,
        !(top || bottom) ==> e.3 - e.2 == rect.h,
{
    let mut x0 = rect.x as i64;
    let mut x1 = rect.x as i64 + rect.w as i64;
    let mut y0 = rect.y as i64;
    let mut y1 = rect.y as i64 + rect.h as i64;
    if left {
        x0 = min_i64(c.x as i64, x1 - 2);
    }
    if right {
        x1 = max_i64(c.x as i64, x0 + 2);
    }
    if top {
        y0 = min_i64(c.y as i64, y1 - 2);
    }
    if bottom {
        y1 = max_i64(c.y as i64, y0 + 2);
    }
    (x0, x1, y0, y1)
}

/// The corner case of `aspect_edges`.
#[verifier::rlimit(40)]
fn aspect_corner(
    rect: Rect,
    left: bool,
    right: bool,
    top: bool,
    bottom: bool,
    e: (i64, i64, i64, i64),
    region: Rect,
) -> (r: (i64, i64, i64, i64))
    requires
        left || right,
        top || bottom,
        2 <= rect.w <= 2 * MAX_COORD,
        2 <= rect.h <= 2 * MAX_COORD,
        edges_ok((e.0 as int, e.1 as int, e.2 as int, e.3 as int)),
        e.1 - e.0 >= 2,
        e.3 - e.2 >= 2,
        region_ok(region),
    ensures
        (r.0 as int, r.1 as int, r.2 as int, r.3 as int) == aspect_edges(
            rect,
            left,
            right,
            top,
            bottom,
            (e.0 as int, e.1 as int, e.2 as int, e.3 as int),
            region,
        ),
        -12_000_000 <= r.0 <= 12_000_000 && -12_000_000 <= r.1 <= 12_000_000,
        -12_000_000 <= r.2 <= 12_000_000 && -12_000_000 <= r.3 <= 12_000_000,
        2 <= r.1 - r.0 <= 7_000_000 && 2 <= r.3 - r.2 <= 7_000_000,
{
    let (x0, x1, y0, y1) = e;
    let w0 = rect.w as i64;
    let h0 = rect.h as i64;
    let gx = region.x as i64;
    let gy = region.y as i64;
    let (mut sn, mut sd) = if frac_ge(x1 - x0, w0, y1 - y0, h0) {
        (x1 - x0, w0)
    } else {
        (y1 - y0, h0)
    };
    let ghost s0 = Frac { num: sn as int, den: sd as int };
    let avail_w = if left { x1 - gx } else { gx + region.w as i64 - x0 };
    let avail_h = if top { y1 - gy } else { gy + region.h as i64 - y0 };
    if !frac_ge(avail_w, w0, sn, sd) {
        sn = avail_w;
        sd = w0;
    }
    if !frac_ge(avail_h, h0, sn, sd) {
        sn = avail_h;
        sd = h0;
    }
    proof {
        lemma_frac_min_caps(
            s0,
            Frac { num: avail_w as int, den: w0 as int },
            Frac { num: avail_h as int, den: h0 as int },
        );
        assert(w0 * sn <= max_spec(avail_w as int, 0) * sd) by (nonlinear_arith)
            requires
                sn * w0 <= avail_w * sd,
                sd > 0,
        ;
        assert(h0 * sn <= max_spec(avail_h as int, 0) * sd) by (nonlinear_arith)
            requires
                sn * h0 <= avail_h * sd,
                sd > 0,
        ;
        lemma_round_div_upper(w0 * sn, sd as int, max_spec(avail_w as int, 0));
        lemma_round_div_upper(h0 * sn, sd as int, max_spec(avail_h as int, 0));
        lemma_mul_bound(w0 as int, sn as int, 2_000_000, 20_000_000);
        lemma_mul_bound(h0 as int, sn as int, 2_000_000, 20_000_000);
    }
    let w = max_i64(round_div_i64(w0 * sn, sd), 2);
    let h = max_i64(round_div_i64(h0 * sn, sd), 2);
    let (nx0, nx1) = if left {
        (x1 - w, x1)
    } else {
        (x0, x0 + w)
    };
    let (ny0, ny1) = if top {
        (y1 - h, y1)
    } else {
        (y0, y0 + h)
    };
    (nx0, nx1, ny0, ny1)
}

/// The single-edge cases of `aspect_edges`: `horizontal` when a left or
/// right edge is grabbed, so the height follows.
fn aspect_edge(
    rect: Rect,
    horizontal: bool,
    e: (i64, i64, i64, i64),
    region: Rect,
) -> (r: (i64, i64, i64, i64))
    requires
        2 <= rect.w <= 2 * MAX_COORD,
        2 <= rect.h <= 2 * MAX_COORD,
        -2 * MAX_COORD <= rect.x <= 2 * MAX_COORD,
        -2 * MAX_COORD <= rect.y <= 2 * MAX_COORD,
        edges_ok((e.0 as int, e.1 as int, e.2 as int, e.3 as int)),
        region_ok(region),
    ensures
        horizontal ==> (r.0 as int, r.1 as int, r.2 as int, r.3 as int) == aspect_edges(
            rect,
            true,
            false,
            false,
            false,
            (e.0 as int, e.1 as int, e.2 as int, e.3 as int),
            region,
        ),
        !horizontal ==> (r.0 as int, r.1 as int, r.2 as int, r.3 as int) == aspect_edges(
            rect,
            false,
            false,
            true,
            false,
            (e.0 as int, e.1 as int, e.2 as int, e.3 as int),
            region,
        ),
        -8_000_000 <= r.0 <= 8_000_000 && -8_000_000 <= r.1 <= 8_000_000,
        -8_000_000 <= r.2 <= 8_000_000 && -8_000_000 <= r.3 <= 8_000_000,
        horizontal ==> r.0 == e.0 && r.1 == e.1 && 1 <= r.3 - r.2 <= region.h,
        !horizontal ==> r.2 == e.2 && r.3 == e.3 && 1 <= r.1 - r.0 <= region.w,
{
    let (x0, x1, y0, y1) = e;
    let w0 = rect.w as i64;
    let h0 = rect.h as i64;
    let gx = region.x as i64;
    let gy = region.y as i64;
    let gw = region.w as i64;
    let gh = region.h as i64;
    if horizontal {
        proof {
            lemma_mul_bound((x1 - x0) as int, h0 as int, 9_000_000, 2_000_000);
        }
        let h = min_i64(max_i64(round_div_i64((x1 - x0) * h0, w0), 2), gh);
        let center_y = rect.y as i64 + h0 / 2;
        let ny0 = clamp_i64(center_y - h / 2, gy, gy + gh - h);
        (x0, x1, ny0, ny0 + h)
    } else {
        proof {
            lemma_mul_bound((y1 - y0) as int, w0 as int, 9_000_000, 2_000_000);
        }
        let w = min_i64(max_i64(round_div_i64((y1 - y0) * w0, h0), 2), gw);
        let center_x = rect.x as i64 + w0 / 2;
        let nx0 = clamp_i64(center_x - w / 2, gx, gx + gw - w);
        (nx0, nx0 + w, y0, y1)
    }
}

#[verifier::rlimit(60)]
fn resize_box(
    rect: Rect,
    left: bool,
    right: bool,
    top: bool,
    bottom: bool,
    clamped: Point,
    region: Rect,
    keep_aspect: bool,
) -> (r: Rect)
    requires
        resize_inputs_ok(rect, clamped, region),
    ensures
        r == resize_box_spec(rect, left, right, top, bottom, clamped, region, keep_aspect),
        box_ok(r),
        rect.w >= 1 && rect.h >= 1 ==> r.w >= 1 && r.h >= 1,
{
    let e = drag_edges(rect, left, right, top, bottom, clamped);
    let ghost ei = (e.0 as int, e.1 as int, e.2 as int, e.3 as int);
    let (x0, x1, y0, y1) = if keep_aspect && rect.w >= 2 && rect.h >= 2 {
        if (left || right) && (top || bottom) {
            aspect_corner(rect, left, right, top, bottom, e, region)
        } else if left || right {
            aspect_edge(rect, true, e, region)
        } else {
            aspect_edge(rect, false, e, region)
        }
    } else {
        e
    };
    let w = x1 - x0;
    let h = y1 - y0;
    if rect.w >= 2 && rect.h >= 2 {
        return Rect::new(x0 as i32, y0 as i32, w as i32, h as i32);
    }
    let gx = region.x as i64;
    let gy = region.y as i64;
    let nx0 = clamp_i64(x0, gx, max_i64(gx + region.w as i64 - w, gx));
    let ny0 = clamp_i64(y0, gy, max_i64(gy + region.h as i64 - h, gy));
    Rect::new(nx0 as i32, ny0 as i32, w as i32, h as i32)
}


/// `v` carried from box `old` to box `new` along one axis, rounded to the
/// pixel grid — how vertex shapes scale under a bbox resize.
pub open spec fn map_axis(v: int, old0: int, old_len: int, new0: int, new_len: int) -> int {
    new0 + round_div((v - old0) * new_len, max_spec(old_len, 1))
}

pub open spec fn map_point(p: Point, old: Rect, new: Rect) -> Point {
    Point {
        x: map_axis(p.x as int, old.x as int, old.w as int, new.x as int, new.w as int) as i32,
        y: map_axis(p.y as int, old.y as int, old.h as int, new.y as int, new.h as int) as i32,
    }
}

/// A vertex shape remapped from box `old` into box `new`; other kinds are
/// returned unchanged.
pub open spec fn map_between_spec(s: ShapeView, old: Rect, new: Rect) -> ShapeView {
    match s {
        ShapeView::Triangle { ax, ay, bx, by, cx, cy } => {
            let a = map_point(Point { x: ax, y: ay }, old, new);
            let b = map_point(Point { x: bx, y: by }, old, new);
            let c = map_point(Point { x: cx, y: cy }, old, new);
            ShapeView::Triangle { ax: a.x, ay: a.y, bx: b.x, by: b.y, cx: c.x, cy: c.y }
        },
        ShapeView::Poly(pts) => ShapeView::Poly(pts.map_values(|p: Point| map_point(p, old, new))),
        _ => s,
    }
}

/// The shape resized by dragging `handle` to the (already clamped) point
/// `c`: a circle keeps its center and follows the cursor's distance (at
/// least 2); box shapes resize their bbox and re-inscribe or remap into
/// it; a handle that does not belong to the shape leaves it unchanged.
pub open spec fn resize_local_spec(
    s: ShapeView,
    handle: ResizeHandle,
    c: Point,
    region: Rect,
    keep_aspect: bool,
) -> ShapeView {
    match (s, handle) {
        (ShapeView::Circle { cx, cy, .. }, ResizeHandle::CircleRadius) => {
            let dx = c.x - cx;
            let dy = c.y - cy;
            ShapeView::Circle { cx, cy, r: max_spec(isqrt(dx * dx + dy * dy), 2) as i32 }
        },
        (ShapeView::Rect(rect), ResizeHandle::RectEdges { left, right, top, bottom }) => ShapeView::Rect(
            resize_box_spec(rect, left, right, top, bottom, c, region, keep_aspect),
        ),
        (ShapeView::Ellipse { .. }, ResizeHandle::RectEdges { left, right, top, bottom }) => ellipse_in_box_spec(
            resize_box_spec(bbox_of(s), left, right, top, bottom, c, region, keep_aspect),
            false,
        ),
        (ShapeView::Triangle { .. }, ResizeHandle::RectEdges { left, right, top, bottom }) => map_between_spec(
            s,
            bbox_of(s),
            resize_box_spec(bbox_of(s), left, right, top, bottom, c, region, keep_aspect),
        ),
        (ShapeView::Poly(_), ResizeHandle::RectEdges { left, right, top, bottom }) => map_between_spec(
            s,
            bbox_of(s),
            resize_box_spec(bbox_of(s), left, right, top, bottom, c, region, keep_aspect),
        ),
        _ => s,
    }
}

/// A resize keeps a shape usable: a rect of positive size stays positive
/// from any edge or corner, and circles and ellipses keep radii of at
/// least 2 and 1.
pub open spec fn never_collapses(before: ShapeView, handle: ResizeHandle, after: ShapeView) -> bool {
    match (before, handle) {
        (ShapeView::Rect(a), ResizeHandle::RectEdges { .. }) => a.w >= 1 && a.h >= 1 ==> (
        after matches ShapeView::Rect(b) && b.w >= 1 && b.h >= 1),
        (ShapeView::Circle { .. }, ResizeHandle::CircleRadius) => after matches ShapeView::Circle {
            r,
            ..
        } && r >= 2,
        (ShapeView::Ellipse { .. }, ResizeHandle::RectEdges { .. }) => after matches ShapeView::Ellipse {
            rx,
            ry,
            ..
        } && rx >= 1 && ry >= 1,
        _ => true,
    }
}

/// The cursor clamped into the region, far edges exclusive.
pub open spec fn clamp_into(p: Point, region: Rect) -> Point {
    Point {
        x: clamp_spec(p.x as int, region.x as int, region.x + region.w - 1) as i32,
        y: clamp_spec(p.y as int, region.y as int, region.y + region.h - 1) as i32,
    }
}

fn map_axis_exec(v: i32, old0: i32, old_len: i32, new0: i32, new_len: i32) -> (r: i32)
    requires
        0 <= v - old0 <= max_spec(old_len as int, 0),
        old_len <= 2 * MAX_COORD,
        wide_ok(new0 as int) && wide_ok(new_len as int),
    ensures
        r == map_axis(v as int, old0 as int, old_len as int, new0 as int, new_len as int),
{
    let d: i64 = max_i32(old_len, 1) as i64;
    proof {
        lemma_mul_bound((v - old0) as int, new_len as int, 2_000_000, 16_000_000);
    }
    let n: i64 = (v as i64 - old0 as i64) * new_len as i64;
    let ghost m = abs_spec(new_len as int);
    proof {
        assert(-(m * d) <= n <= m * d) by (nonlinear_arith)
            requires
                n == (v - old0) * new_len,
                0 <= v - old0 <= d,
                m == abs_spec(new_len as int),
                d > 0,
        ;
        lemma_round_div_bound(n as int, d as int, m);
    }
    let q = round_div_i64(n, d);
    (new0 as i64 + q) as i32
}

fn map_point_exec(p: Point, old: Rect, new: Rect) -> (q: Point)
    requires
        old.x <= p.x <= old.x + max_spec(old.w as int, 0),
        old.y <= p.y <= old.y + max_spec(old.h as int, 0),
        old.w <= 2 * MAX_COORD && old.h <= 2 * MAX_COORD,
        box_ok(new),
    ensures
        q == map_point(p, old, new),
{
    Point::new(
        map_axis_exec(p.x, old.x, old.w, new.x, new.w),
        map_axis_exec(p.y, old.y, old.h, new.y, new.h),
    )
}

/// A triangle's vertices remapped from bbox `old` to bbox `new`.
fn mapped_between_boxes(s: &Shape, old: Rect, new: Rect) -> (r: Shape)
    requires
        s.in_domain(),
        s@ is Triangle,
        old == bbox_of(s@),
        box_ok(new),
    ensures
        r@ == map_between_spec(s@, old, new),
{
    match s {
        Shape::Triangle { ax, ay, bx, by, cx, cy } => {
            let a = map_point_exec(Point::new(*ax, *ay), old, new);
            let b = map_point_exec(Point::new(*bx, *by), old, new);
            let c = map_point_exec(Point::new(*cx, *cy), old, new);
            Shape::Triangle { ax: a.x, ay: a.y, bx: b.x, by: b.y, cx: c.x, cy: c.y }
        },
        _ => s.clone_shape(),
    }
}

/// A polygon's vertices remapped from bbox `old` to bbox `new`.
fn scale_into_box(s: &Shape, old: Rect, new: Rect) -> (r: Shape)
    requires
        s.in_domain(),
        s@ is Poly,
        old == bbox_of(s@),
        box_ok(new),
    ensures
        r@ == map_between_spec(s@, old, new),
{
    match s {
        Shape::Poly { points } => {
            let ghost pts = points@;
            proof {
                if pts.len() > 0 {
                    lemma_fold_bounds(pts, pts.len() as int);
                    lemma_poly_bbox_domain(pts);
                }
            }
            let mut out: Vec<Point> = Vec::new();
            let n = points.len();
            let mut i: usize = 0;
            while i < n
                invariant
                    pts == points@,
                    n == pts.len(),
                    i <= n,
                    n > 0 ==> forall|j: int|
                        0 <= j < n ==> fold_min_x(pts, n as int) <= #[trigger] pts[j].x <= fold_max_x(
                            pts,
                            n as int,
                        ) && fold_min_y(pts, n as int) <= pts[j].y <= fold_max_y(pts, n as int),
                    old == bbox_of(ShapeView::Poly(pts)),
                    n > 0 ==> 0 <= old.w <= 2 * MAX_COORD && 0 <= old.h <= 2 * MAX_COORD,
                    n > 0 ==> old.x == fold_min_x(pts, n as int) && old.x + old.w == fold_max_x(
                        pts,
                        n as int,
                    ) && old.y == fold_min_y(pts, n as int) && old.y + old.h == fold_max_y(
                        pts,
                        n as int,
                    ),
                    box_ok(new),
                    out@.len() == i,
                    forall|j: int| 0 <= j < i ==> #[trigger] out@[j] == map_point(pts[j], old, new),
                decreases n - i,
            {
                let p = points[i];
                assert(pts[i as int] == p);
                let q = map_point_exec(p, old, new);
                out.push(q);
                i = i + 1;
            }
            proof {
                assert(out@ =~= pts.map_values(|p: Point| map_point(p, old, new)));
            }
            Shape::Poly { points: out }
        },
        _ => s.clone_shape(),
    }
}

impl Shape {
    pub open spec fn in_domain(&self) -> bool {
        shape_in_domain(self@)
    }

    pub fn kind(&self) -> (k: ToolKind)
        ensures
            k == kind_of(self@),
    {
        match self {
            Shape::Rect(_) => ToolKind::Rect,
            Shape::Circle { .. } => ToolKind::Circle,
            Shape::Ellipse { .. } => ToolKind::Ellipse,
            Shape::Triangle { .. } => ToolKind::Triangle,
            Shape::Poly { .. } => ToolKind::Poly,
        }
    }

    /// Whether `p` lies inside the shape (cursor hit-testing).
    pub fn hit_test(&self, p: Point) -> (b: bool)
        requires
            self.in_domain(),
        ensures
            b == covers_spec(self@, p),
    {
        match self {
            Shape::Poly { points } => point_in_poly(points, p),
            Shape::Rect(r) => r.contains(p),
            Shape::Ellipse { cx, cy, rx, ry } => {
                let dx = p.x as i128 - *cx as i128;
                let dy = p.y as i128 - *cy as i128;
                let rx = *rx as i128;
                let ry = *ry as i128;
                proof {
                    lemma_ellipse_terms(dx as int, dy as int, rx as int, ry as int);
                }
                dx * dx * ry * ry + dy * dy * rx * rx <= rx * rx * ry * ry
            },
            Shape::Circle { cx, cy, r } => {
                let dx = p.x as i128 - *cx as i128;
                let dy = p.y as i128 - *cy as i128;
                proof {
                    lemma_mul_bound(dx as int, dx as int, 3_000_000_000, 3_000_000_000);
                    lemma_mul_bound(dy as int, dy as int, 3_000_000_000, 3_000_000_000);
                    lemma_mul_bound(*r as int, *r as int, 1_000_000, 1_000_000);
                }
                dx * dx + dy * dy <= (*r as i128) * (*r as i128)
            },
            Shape::Triangle { ax, ay, bx, by, cx, cy } => {
                if cross(*cx, *cy, *ax, *ay, *bx, *by) == 0 {
                    return false;
                }
                let d1 = cross(p.x, p.y, *ax, *ay, *bx, *by);
                let d2 = cross(p.x, p.y, *bx, *by, *cx, *cy);
                let d3 = cross(p.x, p.y, *cx, *cy, *ax, *ay);
                let has_neg = d1 < 0 || d2 < 0 || d3 < 0;
                let has_pos = d1 > 0 || d2 > 0 || d3 > 0;
                !(has_neg && has_pos)
            },
        }
    }

    /// Whether the shape covers pixel (`x`, `y`): `hit_test` under the name
    /// the crop and mask code asks by.
    pub fn covers(&self, x: i32, y: i32) -> (b: bool)
        requires
            self.in_domain(),
            coord_ok(x as int) && coord_ok(y as int),
        ensures
            b == covers_spec(self@, Point { x, y }),
    {
        self.hit_test(Point::new(x, y))
    }

    /// The same shape moved by (`dx`, `dy`).
    pub fn translated(&self, dx: i32, dy: i32) -> (t: Shape)
        requires
            translate_fits(self@, dx as int, dy as int),
        ensures
            t@ == translate_spec(self@, dx as int, dy as int),
    {
        match self {
            Shape::Poly { points } => {
                let mut out: Vec<Point> = Vec::new();
                let n = points.len();
                let mut i: usize = 0;
                while i < n
                    invariant
                        n == points@.len(),
                        i <= n,
                        forall|j: int|
                            #![trigger points@[j]]
                            0 <= j < n ==> fits_i32(points@[j].x + dx) && fits_i32(points@[j].y + dy),
                        out@.len() == i,
                        forall|j: int|
                            0 <= j < i ==> #[trigger] out@[j] == shift(points@[j], dx as int, dy as int),
                    decreases n - i,
                {
                    let p = points[i];
                    assert(fits_i32(points@[i as int].x + dx) && fits_i32(points@[i as int].y + dy));
                    out.push(Point::new(p.x + dx, p.y + dy));
                    i = i + 1;
                }
                proof {
                    assert(out@ =~= points@.map_values(|p: Point| shift(p, dx as int, dy as int)));
                }
                Shape::Poly { points: out }
            },
            Shape::Rect(r) => Shape::Rect(Rect::new(r.x + dx, r.y + dy, r.w, r.h)),
            Shape::Circle { cx, cy, r } => Shape::Circle { cx: *cx + dx, cy: *cy + dy, r: *r },
            Shape::Ellipse { cx, cy, rx, ry } => Shape::Ellipse {
                cx: *cx + dx,
                cy: *cy + dy,
                rx: *rx,
                ry: *ry,
            },
            Shape::Triangle { ax, ay, bx, by, cx, cy } => Shape::Triangle {
                ax: *ax + dx,
                ay: *ay + dy,
                bx: *bx + dx,
                by: *by + dy,
                cx: *cx + dx,
                cy: *cy + dy,
            },
        }
    }

    /// The pivot every rotation turns around: the unrotated bbox center.
    pub fn pivot(&self) -> (p: Point)
        ensures
            p == pivot_of(self@),
    {
        let b = self.bbox();
        Point::new(sat_add_i32(b.x, b.w / 2), sat_add_i32(b.y, b.h / 2))
    }

    /// The reference point a drag-move grabs: bbox origin, or a circle's
    /// or ellipse's center.
    pub fn grab_origin(&self) -> (p: Point)
        ensures
            p == grab_origin_of(self@),
    {
        match self {
            Shape::Rect(r) => Point::new(r.x, r.y),
            Shape::Circle { cx, cy, .. } => Point::new(*cx, *cy),
            Shape::Ellipse { cx, cy, .. } => Point::new(*cx, *cy),
            _ => {
                let b = self.bbox();
                Point::new(b.x, b.y)
            },
        }
    }

    /// The point a click should aim for: the pivot for rects, the center
    /// for circles and ellipses, the centroid for triangles, and for
    /// polygons an interior point whenever one exists.
    pub fn click_point(&self) -> (p: Point)
        requires
            self.in_domain(),
        ensures
            click_point_ok(self@, p),
    {
        match self {
            Shape::Poly { points } => poly_interior_point(points),
            Shape::Rect(_) => self.pivot(),
            Shape::Circle { cx, cy, .. } => Point::new(*cx, *cy),
            Shape::Ellipse { cx, cy, .. } => Point::new(*cx, *cy),
            Shape::Triangle { ax, ay, bx, by, cx, cy } => {
                let sx = *ax as i64 + *bx as i64 + *cx as i64;
                let sy = *ay as i64 + *by as i64 + *cy as i64;
                proof {
                    lemma_trunc_div_mean(sx as int, 3);
                    lemma_trunc_div_mean(sy as int, 3);
                }
                Point::new((sx / 3) as i32, (sy / 3) as i32)
            },
        }
    }

    /// The shape previewed while dragging from `start` to `current`.
    /// `current` is clamped into `region` so an off-screen drag keeps the
    /// preview on screen; `lock` (Shift) makes an ellipse a circle.
    pub fn compute_preview(
        tool: ToolKind,
        start: Point,
        current: Point,
        region: Rect,
        lock: bool,
    ) -> (r: Option<Shape>)
        requires
            start.in_domain(),
            current.in_domain(),
            region_ok(region),
        ensures
            match r {
                Some(s) => preview_spec(tool, start, current, region, lock) == Some(s@),
                None => preview_spec(tool, start, current, region, lock) is None,
            },
            r matches Some(s) ==> bbox_of(s@).w > 0 && bbox_of(s@).h > 0,
    {
        let cx = clamp_i32(current.x, region.x, region.x + region.w - 1);
        let cy = clamp_i32(current.y, region.y, region.y + region.h - 1);
        match tool {
            ToolKind::Rect | ToolKind::Triangle | ToolKind::Ellipse => {
                let x = min_i32(start.x, cx);
                let y = min_i32(start.y, cy);
                let w = abs_i32(start.x - cx);
                let h = abs_i32(start.y - cy);
                if w <= 1 || h <= 1 {
                    return None;
                }
                let bbox = Rect::new(x, y, w, h);
                Some(
                    match tool {
                        ToolKind::Rect => Shape::Rect(bbox),
                        ToolKind::Ellipse => ellipse_in_box(bbox, lock),
                        _ => triangle_in_box(bbox),
                    },
                )
            },
            ToolKind::Circle => {
                let dx = (start.x - cx) as i64;
                let dy = (start.y - cy) as i64;
                proof {
                    lemma_mul_bound(dx as int, dx as int, 2_000_000, 2_000_000);
                    lemma_mul_bound(dy as int, dy as int, 2_000_000, 2_000_000);
                }
                let n = (dx * dx + dy * dy) as u64;
                let r = isqrt_u64(n);
                proof {
                    assert(r * r <= n);
                    assert(r <= 3_000_000) by (nonlinear_arith)
                        requires
                            r * r <= n,
                            n <= 8_000_000_000_000,
                            r >= 0,
                    ;
                }
                if r == 0 {
                    return None;
                }
                Some(Shape::Circle { cx: start.x, cy: start.y, r: r as i32 })
            },
            _ => None,
        }
    }

    /// The shape at a drag-move's new position, clamped to `region`.
    /// `grab_offset` is the cursor at grab time minus `grab_origin`.
    pub fn clamp_move(&self, grab_offset: Point, cursor: Point, region: Rect) -> (m: Shape)
        requires
            self.in_domain(),
            grab_offset.in_domain(),
            cursor.in_domain(),
            region.in_domain(),
        ensures
            m@ == clamp_move_spec(self@, grab_offset, cursor, region),
            move_stays_inside(self@, m@, region),
    {
        let right = region.x + region.w;
        let bottom = region.y + region.h;
        let tx = cursor.x - grab_offset.x;
        let ty = cursor.y - grab_offset.y;
        match self {
            Shape::Rect(rect) => {
                let nx = clamp_i32(tx, region.x, max_i32(right - rect.w, region.x));
                let ny = clamp_i32(ty, region.y, max_i32(bottom - rect.h, region.y));
                Shape::Rect(Rect::new(nx, ny, rect.w, rect.h))
            },
            Shape::Circle { r, .. } => {
                let min_x = region.x + max_i32(*r, 0);
                let min_y = region.y + max_i32(*r, 0);
                let cx = clamp_i32(tx, min_x, max_i32(right - *r, min_x));
                let cy = clamp_i32(ty, min_y, max_i32(bottom - *r, min_y));
                Shape::Circle { cx, cy, r: *r }
            },
            Shape::Ellipse { rx, ry, .. } => {
                let min_x = region.x + max_i32(*rx, 0);
                let min_y = region.y + max_i32(*ry, 0);
                let cx = clamp_i32(tx, min_x, max_i32(right - *rx, min_x));
                let cy = clamp_i32(ty, min_y, max_i32(bottom - *ry, min_y));
                Shape::Ellipse { cx, cy, rx: *rx, ry: *ry }
            },
            _ => {
                let b = self.bbox();
                proof {
                    lemma_vertex_bbox(self@);
                }
                let nx = clamp_i32(tx, region.x, max_i32(right - b.w, region.x));
                let ny = clamp_i32(ty, region.y, max_i32(bottom - b.h, region.y));
                proof {
                    assert(translate_fits(self@, nx - b.x, ny - b.y));
                }
                self.translated(nx - b.x, ny - b.y)
            },
        }
    }

    /// Which resize grip, if any, `p` takes: a circle's rim, or an
    /// edge or corner of the bbox, within `tolerance` (at least 1) on
    /// either side of the border.
    pub fn resize_grab(&self, p: Point, tolerance: i32) -> (h: Option<ResizeHandle>)
        requires
            self.in_domain(),
            tolerance <= MAX_COORD,
        ensures
            h == resize_grab_spec(self@, p, tolerance as int),
    {
        let tolerance = max_i32(tolerance, 1);
        match self {
            Shape::Circle { cx, cy, r } => {
                let dx = p.x as i128 - *cx as i128;
                let dy = p.y as i128 - *cy as i128;
                let rr = *r as i128;
                let t = tolerance as i128;
                proof {
                    lemma_mul_bound(dx as int, dx as int, 3_000_000_000, 3_000_000_000);
                    lemma_mul_bound(dy as int, dy as int, 3_000_000_000, 3_000_000_000);
                    lemma_mul_bound(rr + t, rr + t, 2_000_000, 2_000_000);
                    lemma_mul_bound(rr - t, rr - t, 2_000_000, 2_000_000);
                }
                let d2 = dx * dx + dy * dy;
                let on = rr + t >= 0 && d2 <= (rr + t) * (rr + t) && (rr - t <= 0 || d2 >= (rr
                    - t) * (rr - t));
                if on {
                    Some(ResizeHandle::CircleRadius)
                } else {
                    None
                }
            },
            Shape::Rect(rect) => box_border_grab(*rect, p, tolerance),
            _ => {
                let b = self.bbox();
                proof {
                    if self@ is Ellipse {
                    } else {
                        lemma_vertex_bbox(self@);
                    }
                }
                box_border_grab(b, p, tolerance)
            },
        }
    }

    /// A copy of the shape, equal to it as a value.
    pub fn clone_shape(&self) -> (c: Shape)
        ensures
            c@ == self@,
    {
        match self {
            Shape::Poly { points } => {
                let mut out: Vec<Point> = Vec::new();
                let mut i: usize = 0;
                while i < points.len()
                    invariant
                        i <= points@.len(),
                        out@ == points@.subrange(0, i as int),
                    decreases points@.len() - i,
                {
                    out.push(points[i]);
                    i = i + 1;
                    assert(out@ =~= points@.subrange(0, i as int));
                }
                assert(out@ =~= points@);
                Shape::Poly { points: out }
            },
            Shape::Rect(r) => Shape::Rect(*r),
            Shape::Circle { cx, cy, r } => Shape::Circle { cx: *cx, cy: *cy, r: *r },
            Shape::Ellipse { cx, cy, rx, ry } => Shape::Ellipse { cx: *cx, cy: *cy, rx: *rx, ry: *ry },
            Shape::Triangle { ax, ay, bx, by, cx, cy } => Shape::Triangle {
                ax: *ax,
                ay: *ay,
                bx: *bx,
                by: *by,
                cx: *cx,
                cy: *cy,
            },
        }
    }

    /// Whether two shapes are the same value.
    pub fn same_as(&self, other: &Shape) -> (b: bool)
        ensures
            b == (self@ == other@),
    {
        match (self, other) {
            (Shape::Poly { points: a }, Shape::Poly { points: b }) => {
                if a.len() != b.len() {
                    return false;
                }
                let mut i: usize = 0;
                while i < a.len()
                    invariant
                        a@.len() == b@.len(),
                        self@ == ShapeView::Poly(a@),
                        other@ == ShapeView::Poly(b@),
                        i <= a@.len(),
                        forall|j: int| 0 <= j < i ==> a@[j] == b@[j],
                    decreases a@.len() - i,
                {
                    let (p, q) = (a[i], b[i]);
                    if p.x != q.x || p.y != q.y {
                        assert(a@[i as int] != b@[i as int]);
                        return false;
                    }
                    i = i + 1;
                }
                assert(a@ =~= b@);
                true
            },
            (Shape::Rect(a), Shape::Rect(b)) => a.x == b.x && a.y == b.y && a.w == b.w && a.h == b.h,
            (Shape::Circle { cx, cy, r }, Shape::Circle { cx: cx2, cy: cy2, r: r2 }) => *cx == *cx2
                && *cy == *cy2 && *r == *r2,
            (
                Shape::Ellipse { cx, cy, rx, ry },
                Shape::Ellipse { cx: cx2, cy: cy2, rx: rx2, ry: ry2 },
            ) => *cx == *cx2 && *cy == *cy2 && *rx == *rx2 && *ry == *ry2,
            (
                Shape::Triangle { ax, ay, bx, by, cx, cy },
                Shape::Triangle { ax: ax2, ay: ay2, bx: bx2, by: by2, cx: cx2, cy: cy2 },
            ) => *ax == *ax2 && *ay == *ay2 && *bx == *bx2 && *by == *by2 && *cx == *cx2 && *cy
                == *cy2,
            _ => false,
        }
    }

    /// The shape resized by dragging `handle` to `cursor`, which is first
    /// clamped into `region`. The parts not dragged stay anchored, and a
    /// dragged extent never drops below 2. `keep_aspect` (Shift) keeps the
    /// width:height ratio the shape had when the drag began; circles are
    /// proportional already and ignore it.
    pub fn resize_to(
        &self,
        handle: ResizeHandle,
        cursor: Point,
        region: Rect,
        keep_aspect: bool,
    ) -> (r: Shape)
        requires
            self.in_domain(),
            region_ok(region),
        ensures
            r@ == resize_local_spec(self@, handle, clamp_into(cursor, region), region, keep_aspect),
            never_collapses(self@, handle, r@),
    {
        let clamped = Point::new(
            clamp_i32(cursor.x, region.x, region.x + region.w - 1),
            clamp_i32(cursor.y, region.y, region.y + region.h - 1),
        );
        self.resize_to_local(handle, clamped, region, keep_aspect)
    }

    /// `resize_to` with the cursor already clamped.
    pub fn resize_to_local(
        &self,
        handle: ResizeHandle,
        clamped: Point,
        region: Rect,
        keep_aspect: bool,
    ) -> (r: Shape)
        requires
            self.in_domain(),
            clamped.in_domain(),
            region_ok(region),
        ensures
            r@ == resize_local_spec(self@, handle, clamped, region, keep_aspect),
            never_collapses(self@, handle, r@),
    {
        match (self, handle) {
            (Shape::Circle { cx, cy, .. }, ResizeHandle::CircleRadius) => {
                let dx = (clamped.x - *cx) as i64;
                let dy = (clamped.y - *cy) as i64;
                proof {
                    lemma_mul_bound(dx as int, dx as int, 2_000_000, 2_000_000);
                    lemma_mul_bound(dy as int, dy as int, 2_000_000, 2_000_000);
                }
                let n = (dx * dx + dy * dy) as u64;
                let r = isqrt_u64(n);
                proof {
                    assert(r <= 3_000_000) by (nonlinear_arith)
                        requires
                            r * r <= n,
                            n <= 8_000_000_000_000,
                            r >= 0,
                    ;
                }
                Shape::Circle { cx: *cx, cy: *cy, r: max_i32(r as i32, 2) }
            },
            (Shape::Rect(rect), ResizeHandle::RectEdges { left, right, top, bottom }) => Shape::Rect(
                resize_box(*rect, left, right, top, bottom, clamped, region, keep_aspect),
            ),
            (Shape::Ellipse { .. }, ResizeHandle::RectEdges { left, right, top, bottom }) => {
                let bb = resize_box(
                    self.bbox(),
                    left,
                    right,
                    top,
                    bottom,
                    clamped,
                    region,
                    keep_aspect,
                );
                ellipse_in_box(bb, false)
            },
            (Shape::Poly { .. }, ResizeHandle::RectEdges { left, right, top, bottom }) => {
                let old = self.bbox();
                proof {
                    lemma_vertex_bbox(self@);
                }
                let new = resize_box(old, left, right, top, bottom, clamped, region, keep_aspect);
                scale_into_box(self, old, new)
            },
            (Shape::Triangle { .. }, ResizeHandle::RectEdges { left, right, top, bottom }) => {
                let old = self.bbox();
                proof {
                    lemma_vertex_bbox(self@);
                }
                let new = resize_box(old, left, right, top, bottom, clamped, region, keep_aspect);
                mapped_between_boxes(self, old, new)
            },
            _ => self.clone_shape(),
        }
    }

    /// Axis-aligned bounding box; saturating, so it never panics.
    pub fn bbox(&self) -> (b: Rect)
        ensures
            b == bbox_of(self@),
    {
        match self {
            Shape::Poly { points } => {
                let mut x0: i32 = i32::MAX;
                let mut y0: i32 = i32::MAX;
                let mut x1: i32 = i32::MIN;
                let mut y1: i32 = i32::MIN;
                let n = points.len();
                let mut i: usize = 0;
                while i < n
                    invariant
                        n == points@.len(),
                        i <= n,
                        x0 == fold_min_x(points@, i as int),
                        y0 == fold_min_y(points@, i as int),
                        x1 == fold_max_x(points@, i as int),
                        y1 == fold_max_y(points@, i as int),
                    decreases n - i,
                {
                    let p = points[i];
                    x0 = min_i32(x0, p.x);
                    y0 = min_i32(y0, p.y);
                    x1 = max_i32(x1, p.x);
                    y1 = max_i32(y1, p.y);
                    i = i + 1;
                }
                if n == 0 {
                    return Rect::new(0, 0, 0, 0);
                }
                Rect::new(x0, y0, sat_sub_i32(x1, x0), sat_sub_i32(y1, y0))
            },
            Shape::Rect(r) => *r,
            Shape::Ellipse { cx, cy, rx, ry } => Rect::new(
                sat_sub_i32(*cx, *rx),
                sat_sub_i32(*cy, *ry),
                sat_double_i32(*rx),
                sat_double_i32(*ry),
            ),
            Shape::Circle { cx, cy, r } => Rect::new(
                sat_sub_i32(*cx, *r),
                sat_sub_i32(*cy, *r),
                sat_double_i32(*r),
                sat_double_i32(*r),
            ),
            Shape::Triangle { ax, ay, bx, by, cx, cy } => {
                let x0 = min3(*ax, *bx, *cx);
                let y0 = min3(*ay, *by, *cy);
                Rect::new(
                    x0,
                    y0,
                    sat_sub_i32(max3(*ax, *bx, *cx), x0),
                    sat_sub_i32(max3(*ay, *by, *cy), y0),
                )
            },
        }
    }
}

// ---------------------------------------------------------------------
// Measures
// ---------------------------------------------------------------------
/// A two-point measurement: a ruler laid on the frozen image. Not a
/// [`Shape`]: it has no interior, no crop and no click point.
#[derive(Debug, Clone, Copy, PartialEq, Eq, Structural)]
pub struct Line {
    pub a: Point,
    pub b: Point,
}

/// `p` is within `tol` of segment `a..b` — distances compared squared, so
/// the test is exact: beyond either end the distance is to that end,
/// beside the segment it is the perpendicular one.
pub open spec fn segment_within(a: Point, b: Point, p: Point, tol: int) -> bool {
    let dx = b.x - a.x;
    let dy = b.y - a.y;
    let px = p.x - a.x;
    let py = p.y - a.y;
    let len_sq = dx * dx + dy * dy;
    let dot = px * dx + py * dy;
    let cr = px * dy - py * dx;
    if tol < 0 {
        false
    } else if len_sq == 0 || dot <= 0 {
        px * px + py * py <= tol * tol
    } else if dot >= len_sq {
        (px - dx) * (px - dx) + (py - dy) * (py - dy) <= tol * tol
    } else {
        cr * cr <= tol * tol * len_sq
    }
}

/// `x * sqrt(2) > y`, decided in integers.
pub open spec fn sqrt2_times_gt(x: int, y: int) -> bool {
    if x >= 0 {
        if y < 0 {
            true
        } else if x == 0 {
            false
        } else {
            2 * (x * x) > y * y
        }
    } else {
        y < 0 && 2 * (x * x) < y * y
    }
}

/// `x > y * sqrt(2)`, decided in integers.
pub open spec fn gt_sqrt2_times(x: int, y: int) -> bool {
    if y <= 0 {
        if x > 0 {
            true
        } else if y == 0 {
            false
        } else {
            x * x < 2 * (y * y)
        }
    } else {
        x > 0 && x * x > 2 * (y * y)
    }
}

/// A projection onto one of the eight constraint directions: `num` itself
/// on the axes, `num / sqrt(2)` on the diagonals.
pub struct Proj {
    pub num: int,
    pub diagonal: bool,
}

pub open spec fn proj_gt(a: Proj, b: Proj) -> bool {
    if a.diagonal == b.diagonal {
        a.num > b.num
    } else if a.diagonal {
        gt_sqrt2_times(a.num, b.num)
    } else {
        sqrt2_times_gt(a.num, b.num)
    }
}

/// The projection of `(dx, dy)` onto direction `k`, in the order right,
/// left, down, up, then the diagonals (+,+), (+,-), (-,+), (-,-).
pub open spec fn axis_proj(dx: int, dy: int, k: int) -> Proj {
    if k == 0 {
        Proj { num: dx, diagonal: false }
    } else if k == 1 {
        Proj { num: -dx, diagonal: false }
    } else if k == 2 {
        Proj { num: dy, diagonal: false }
    } else if k == 3 {
        Proj { num: -dy, diagonal: false }
    } else if k == 4 {
        Proj { num: dx + dy, diagonal: true }
    } else if k == 5 {
        Proj { num: dx - dy, diagonal: true }
    } else if k == 6 {
        Proj { num: -dx + dy, diagonal: true }
    } else {
        Proj { num: -dx - dy, diagonal: true }
    }
}

/// The first direction among `0..k` with the largest projection.
pub open spec fn best_axis(dx: int, dy: int, k: int) -> int
    decreases k,
{
    if k <= 1 {
        0
    } else {
        let prev = best_axis(dx, dy, k - 1);
        if proj_gt(axis_proj(dx, dy, k - 1), axis_proj(dx, dy, prev)) {
            k - 1
        } else {
            prev
        }
    }
}

/// The endpoint offset along direction `k` that keeps the pointer's
/// reach: the projection of `(dx, dy)` onto it, rounded per axis.
pub open spec fn axis_offset(dx: int, dy: int, k: int) -> (int, int) {
    if k == 0 || k == 1 {
        (dx, 0)
    } else if k == 2 || k == 3 {
        (0, dy)
    } else if k == 4 || k == 7 {
        (round_div(dx + dy, 2), round_div(dx + dy, 2))
    } else {
        (round_div(dx - dy, 2), -round_div(dx - dy, 2))
    }
}

/// `b` moved onto the nearest horizontal, vertical or 45-degree direction
/// from `a`, keeping the projection of the free endpoint onto it.
pub open spec fn constrained_spec(l: Line) -> Line {
    let dx = l.b.x - l.a.x;
    let dy = l.b.y - l.a.y;
    if dx == 0 && dy == 0 {
        l
    } else {
        let k = best_axis(dx, dy, 8);
        let (ox, oy) = axis_offset(dx, dy, k);
        Line { a: l.a, b: Point { x: (l.a.x + ox) as i32, y: (l.a.y + oy) as i32 } }
    }
}

fn sqrt2_times_gt_exec(x: i64, y: i64) -> (r: bool)
    requires
        -10_000_000 <= x <= 10_000_000,
        -10_000_000 <= y <= 10_000_000,
    ensures
        r == sqrt2_times_gt(x as int, y as int),
{
    proof {
        lemma_mul_bound(x as int, x as int, 10_000_000, 10_000_000);
        lemma_mul_bound(y as int, y as int, 10_000_000, 10_000_000);
    }
    if x >= 0 {
        if y < 0 {
            true
        } else if x == 0 {
            false
        } else {
            2 * (x * x) > y * y
        }
    } else {
        y < 0 && 2 * (x * x) < y * y
    }
}

fn gt_sqrt2_times_exec(x: i64, y: i64) -> (r: bool)
    requires
        -10_000_000 <= x <= 10_000_000,
        -10_000_000 <= y <= 10_000_000,
    ensures
        r == gt_sqrt2_times(x as int, y as int),
{
    proof {
        lemma_mul_bound(x as int, x as int, 10_000_000, 10_000_000);
        lemma_mul_bound(y as int, y as int, 10_000_000, 10_000_000);
    }
    if y <= 0 {
        if x > 0 {
            true
        } else if y == 0 {
            false
        } else {
            x * x < 2 * (y * y)
        }
    } else {
        x > 0 && x * x > 2 * (y * y)
    }
}

fn axis_proj_exec(dx: i64, dy: i64, k: usize) -> (r: (i64, bool))
    requires
        -4_000_000 <= dx <= 4_000_000,
        -4_000_000 <= dy <= 4_000_000,
    ensures
        r.0 == axis_proj(dx as int, dy as int, k as int).num,
        r.1 == axis_proj(dx as int, dy as int, k as int).diagonal,
        -8_000_000 <= r.0 <= 8_000_000,
{
    if k == 0 {
        (dx, false)
    } else if k == 1 {
        (-dx, false)
    } else if k == 2 {
        (dy, false)
    } else if k == 3 {
        (-dy, false)
    } else if k == 4 {
        (dx + dy, true)
    } else if k == 5 {
        (dx - dy, true)
    } else if k == 6 {
        (-dx + dy, true)
    } else {
        (-dx - dy, true)
    }
}

impl Line {
    pub fn new(a: Point, b: Point) -> (l: Self)
        ensures
            l.a == a && l.b == b,
    {
        Line { a, b }
    }

    pub open spec fn in_domain(self) -> bool {
        self.a.in_domain() && self.b.in_domain()
    }

    /// Signed horizontal and vertical extent, `b - a`, saturating.
    pub fn delta(self) -> (d: (i32, i32))
        ensures
            d.0 == sat_i32(self.b.x - self.a.x),
            d.1 == sat_i32(self.b.y - self.a.y),
    {
        (sat_sub_i32(self.b.x, self.a.x), sat_sub_i32(self.b.y, self.a.y))
    }

    /// The smallest rect containing both endpoints; extents past `i32`
    /// saturate.
    pub fn bbox(self) -> (r: Rect)
        ensures
            r.x == min_spec(self.a.x as int, self.b.x as int),
            r.y == min_spec(self.a.y as int, self.b.y as int),
            r.w == sat_i32(abs_spec(self.a.x - self.b.x)),
            r.h == sat_i32(abs_spec(self.a.y - self.b.y)),
    {
        let x = min_i32(self.a.x, self.b.x);
        let y = min_i32(self.a.y, self.b.y);
        let w = sat_sub_i32(max_i32(self.a.x, self.b.x), x);
        let h = sat_sub_i32(max_i32(self.a.y, self.b.y), y);
        Rect::new(x, y, w, h)
    }

    pub fn translated(self, dx: i32, dy: i32) -> (l: Self)
        requires
            fits_i32(self.a.x + dx) && fits_i32(self.b.x + dx),
            fits_i32(self.a.y + dy) && fits_i32(self.b.y + dy),
        ensures
            l.a == shift(self.a, dx as int, dy as int),
            l.b == shift(self.b, dx as int, dy as int),
    {
        Line::new(
            Point::new(self.a.x + dx, self.a.y + dy),
            Point::new(self.b.x + dx, self.b.y + dy),
        )
    }

    /// Which endpoint `p` grabs within `tolerance`: `Some(true)` for `a`,
    /// which wins a tie, `Some(false)` for `b`.
    pub fn endpoint_grab(self, p: Point, tolerance: i32) -> (g: Option<bool>)
        requires
            self.in_domain(),
            p.in_domain(),
            coord_ok(tolerance as int),
        ensures
            g == if (p.x - self.a.x) * (p.x - self.a.x) + (p.y - self.a.y) * (p.y - self.a.y)
                <= tolerance * tolerance {
                Some(true)
            } else if (p.x - self.b.x) * (p.x - self.b.x) + (p.y - self.b.y) * (p.y - self.b.y)
                <= tolerance * tolerance {
                Some(false)
            } else {
                None
            },
    {
        let t = tolerance as i64;
        proof {
            lemma_mul_bound(t as int, t as int, 1_000_000, 1_000_000);
        }
        let ax = (p.x - self.a.x) as i64;
        let ay = (p.y - self.a.y) as i64;
        let bx = (p.x - self.b.x) as i64;
        let by = (p.y - self.b.y) as i64;
        proof {
            lemma_mul_bound(ax as int, ax as int, 2_000_000, 2_000_000);
            lemma_mul_bound(ay as int, ay as int, 2_000_000, 2_000_000);
            lemma_mul_bound(bx as int, bx as int, 2_000_000, 2_000_000);
            lemma_mul_bound(by as int, by as int, 2_000_000, 2_000_000);
        }
        if ax * ax + ay * ay <= t * t {
            return Some(true);
        }
        if bx * bx + by * by <= t * t {
            Some(false)
        } else {
            None
        }
    }

    /// Whether `p` is within `tolerance` of the segment: the whole-line
    /// grab, tried after the endpoints.
    pub fn hit_test(self, p: Point, tolerance: i32) -> (h: bool)
        requires
            self.in_domain(),
            p.in_domain(),
            coord_ok(tolerance as int),
        ensures
            h == segment_within(self.a, self.b, p, tolerance as int),
    {
        if tolerance < 0 {
            return false;
        }
        let dx = (self.b.x - self.a.x) as i128;
        let dy = (self.b.y - self.a.y) as i128;
        let px = (p.x - self.a.x) as i128;
        let py = (p.y - self.a.y) as i128;
        let t = tolerance as i128;
        proof {
            lemma_mul_bound(dx as int, dx as int, 2_000_000, 2_000_000);
            lemma_mul_bound(dy as int, dy as int, 2_000_000, 2_000_000);
            lemma_mul_bound(px as int, px as int, 2_000_000, 2_000_000);
            lemma_mul_bound(py as int, py as int, 2_000_000, 2_000_000);
            lemma_mul_bound(px as int, dx as int, 2_000_000, 2_000_000);
            lemma_mul_bound(py as int, dy as int, 2_000_000, 2_000_000);
            lemma_mul_bound(px as int, dy as int, 2_000_000, 2_000_000);
            lemma_mul_bound(py as int, dx as int, 2_000_000, 2_000_000);
            lemma_mul_bound((px - dx) as int, (px - dx) as int, 4_000_000, 4_000_000);
            lemma_mul_bound((py - dy) as int, (py - dy) as int, 4_000_000, 4_000_000);
            lemma_mul_bound(t as int, t as int, 1_000_000, 1_000_000);
        }
        let len_sq = dx * dx + dy * dy;
        let dot = px * dx + py * dy;
        let cr = px * dy - py * dx;
        if len_sq == 0 || dot <= 0 {
            return px * px + py * py <= t * t;
        }
        if dot >= len_sq {
            return (px - dx) * (px - dx) + (py - dy) * (py - dy) <= t * t;
        }
        proof {
            lemma_mul_bound(cr as int, cr as int, 8_000_000_000_000, 8_000_000_000_000);
            lemma_mul_bound((t * t) as int, len_sq as int, 1_000_000_000_000, 8_000_000_000_000);
        }
        cr * cr <= t * t * len_sq
    }

    /// `b` snapped to the nearest horizontal, vertical or 45-degree
    /// direction from `a` (what Shift does while dragging); the reach
    /// along it is the projection of the free endpoint, so the ruler
    /// tracks the pointer. A zero-length measure is left alone.
    pub fn constrained(self) -> (l: Self)
        requires
            self.in_domain(),
        ensures
            l == constrained_spec(self),
    {
        let (dx32, dy32) = self.delta();
        if dx32 == 0 && dy32 == 0 {
            return self;
        }
        let dx = dx32 as i64;
        let dy = dy32 as i64;
        let mut best: usize = 0;
        let (mut best_num, mut best_diag) = axis_proj_exec(dx, dy, 0);
        let mut k: usize = 1;
        while k < 8
            invariant
                1 <= k <= 8,
                -2_000_000 <= dx <= 2_000_000,
                -2_000_000 <= dy <= 2_000_000,
                best as int == best_axis(dx as int, dy as int, k as int),
                best < 8,
                best_num == axis_proj(dx as int, dy as int, best as int).num,
                best_diag == axis_proj(dx as int, dy as int, best as int).diagonal,
                -8_000_000 <= best_num <= 8_000_000,
            decreases 8 - k,
        {
            let (num, diag) = axis_proj_exec(dx, dy, k);
            let greater = if diag == best_diag {
                num > best_num
            } else if diag {
                gt_sqrt2_times_exec(num, best_num)
            } else {
                sqrt2_times_gt_exec(num, best_num)
            };
            if greater {
                best = k;
                best_num = num;
                best_diag = diag;
            }
            k = k + 1;
        }
        let (ox, oy): (i64, i64) = if best == 0 || best == 1 {
            (dx, 0)
        } else if best == 2 || best == 3 {
            (0, dy)
        } else if best == 4 || best == 7 {
            let h = round_div_i64(dx + dy, 2);
            (h, h)
        } else {
            let h = round_div_i64(dx - dy, 2);
            (h, -h)
        };
        proof {
            lemma_round_div_bound(dx + dy, 2, 2_000_000);
            lemma_round_div_bound(dx - dy, 2, 2_000_000);
        }
        Line::new(
            self.a,
            Point::new((self.a.x as i64 + ox) as i32, (self.a.y as i64 + oy) as i32),
        )
    }
}

// ---------------------------------------------------------------------
// Rotated frames
// ---------------------------------------------------------------------
/// Whether rotating by `deg` leaves the shape as it is: a whole turn, or
/// a circle, which has no orientation.
pub open spec fn rotation_is_identity(s: ShapeView, deg: i32) -> bool {
    (deg as int) % 360 == 0 || s is Circle
}

/// The smallest box holding the four points, extents saturating.
pub open spec fn box_of_corners(c: [Point; 4]) -> Rect {
    let x0 = min_spec(min_spec(c[0].x as int, c[1].x as int), min_spec(c[2].x as int, c[3].x as int));
    let y0 = min_spec(min_spec(c[0].y as int, c[1].y as int), min_spec(c[2].y as int, c[3].y as int));
    let x1 = max_spec(max_spec(c[0].x as int, c[1].x as int), max_spec(c[2].x as int, c[3].x as int));
    let y1 = max_spec(max_spec(c[0].y as int, c[1].y as int), max_spec(c[2].y as int, c[3].y as int));
    mk_rect(x0, y0, sat_i32(x1 - x0), sat_i32(y1 - y0))
}

/// An in-domain shape can move by any offset within the wide range.
pub proof fn lemma_wide_translates(s: ShapeView, dx: int, dy: int)
    requires
        shape_in_domain(s),
        -64 * MAX_COORD <= dx <= 64 * MAX_COORD,
        -64 * MAX_COORD <= dy <= 64 * MAX_COORD,
    ensures
        translate_fits(s, dx, dy),
{
    match s {
        ShapeView::Poly(pts) => {
            assert forall|i: int| 0 <= i < pts.len() implies #[trigger] fits_i32(pts[i].x + dx)
                && fits_i32(pts[i].y + dy) by {
                assert(pts[i].in_domain());
            }
        },
        _ => {},
    }
}

impl Shape {
    /// The bounding box of the shape turned `deg` about its pivot, given
    /// `turned`: the corners of its unturned bbox (top-left, top-right,
    /// bottom-left, bottom-right) turned the same way. A whole turn and a
    /// circle keep the plain bbox.
    pub fn rotated_bbox(&self, deg: i32, turned: &[Point; 4]) -> (b: Rect)
        ensures
            rotation_is_identity(self@, deg) ==> b == bbox_of(self@),
            !rotation_is_identity(self@, deg) ==> b == box_of_corners(*turned),
    {
        let circle = match self {
            Shape::Circle { .. } => true,
            _ => false,
        };
        if normalize_deg(deg) == 0 || circle {
            return self.bbox();
        }
        let x0 = min_i32(min_i32(turned[0].x, turned[1].x), min_i32(turned[2].x, turned[3].x));
        let y0 = min_i32(min_i32(turned[0].y, turned[1].y), min_i32(turned[2].y, turned[3].y));
        let x1 = max_i32(max_i32(turned[0].x, turned[1].x), max_i32(turned[2].x, turned[3].x));
        let y1 = max_i32(max_i32(turned[0].y, turned[1].y), max_i32(turned[2].y, turned[3].y));
        Rect::new(x0, y0, sat_sub_i32(x1, x0), sat_sub_i32(y1, y0))
    }

    /// The grab reference for a move at rotation `deg`: the origin of
    /// `turned_box`, the shape's rotated bbox, unless the rotation leaves
    /// the shape as it is.
    pub fn grab_origin_rotated(&self, deg: i32, turned_box: Rect) -> (p: Point)
        ensures
            rotation_is_identity(self@, deg) ==> p == grab_origin_of(self@),
            !rotation_is_identity(self@, deg) ==> p == (Point { x: turned_box.x, y: turned_box.y }),
    {
        let circle = match self {
            Shape::Circle { .. } => true,
            _ => false,
        };
        if normalize_deg(deg) == 0 || circle {
            return self.grab_origin();
        }
        Point::new(turned_box.x, turned_box.y)
    }

    /// `clamp_move` keeping the rotated silhouette, whose bbox is
    /// `turned_box`, inside `region`: the shape moves by whatever puts that
    /// box at the clamped cursor.
    pub fn clamp_move_rotated(
        &self,
        deg: i32,
        turned_box: Rect,
        grab_offset: Point,
        cursor: Point,
        region: Rect,
    ) -> (m: Shape)
        requires
            self.in_domain(),
            box_ok(turned_box),
            grab_offset.in_domain(),
            cursor.in_domain(),
            region.in_domain(),
        ensures
            rotation_is_identity(self@, deg) ==> m@ == clamp_move_spec(self@, grab_offset, cursor, region),
            !rotation_is_identity(self@, deg) ==> m@ == translate_spec(
                self@,
                clamp_spec(
                    cursor.x - grab_offset.x,
                    region.x as int,
                    max_spec(region.x + region.w - turned_box.w, region.x as int),
                ) - turned_box.x,
                clamp_spec(
                    cursor.y - grab_offset.y,
                    region.y as int,
                    max_spec(region.y + region.h - turned_box.h, region.y as int),
                ) - turned_box.y,
            ),
    {
        let circle = match self {
            Shape::Circle { .. } => true,
            _ => false,
        };
        if normalize_deg(deg) == 0 || circle {
            return self.clamp_move(grab_offset, cursor, region);
        }
        let right = region.x + region.w;
        let bottom = region.y + region.h;
        let nx = clamp_i32(
            cursor.x - grab_offset.x,
            region.x,
            max_i32(right - turned_box.w, region.x),
        );
        let ny = clamp_i32(
            cursor.y - grab_offset.y,
            region.y,
            max_i32(bottom - turned_box.h, region.y),
        );
        proof {
            lemma_wide_translates(self@, nx - turned_box.x, ny - turned_box.y);
        }
        self.translated(nx - turned_box.x, ny - turned_box.y)
    }
}

impl Shape {
    /// Whether the shape turned `deg` about its pivot covers `p`, given
    /// `turned_back`: `p` turned `-deg` about the pivot, into the shape's
    /// own frame. A whole turn and a circle test `p` itself.
    pub fn hit_test_rotated(&self, deg: i32, p: Point, turned_back: Point) -> (b: bool)
        requires
            self.in_domain(),
        ensures
            rotation_is_identity(self@, deg) ==> b == covers_spec(self@, p),
            !rotation_is_identity(self@, deg) ==> b == covers_spec(self@, turned_back),
    {
        let circle = match self {
            Shape::Circle { .. } => true,
            _ => false,
        };
        if normalize_deg(deg) == 0 || circle {
            return self.hit_test(p);
        }
        self.hit_test(turned_back)
    }

    /// `resize_grab` in the frame turned `deg`: `turned_back` is the cursor
    /// turned `-deg` about the pivot, so grips sit on the shape as the user
    /// sees it.
    pub fn resize_grab_rotated(&self, deg: i32, p: Point, turned_back: Point, tolerance: i32) -> (h: Option<
        ResizeHandle,
    >)
        requires
            self.in_domain(),
            tolerance <= MAX_COORD,
        ensures
            rotation_is_identity(self@, deg) ==> h == resize_grab_spec(self@, p, tolerance as int),
            !rotation_is_identity(self@, deg) ==> h == resize_grab_spec(
                self@,
                turned_back,
                tolerance as int,
            ),
    {
        let circle = match self {
            Shape::Circle { .. } => true,
            _ => false,
        };
        if normalize_deg(deg) == 0 || circle {
            return self.resize_grab(p, tolerance);
        }
        self.resize_grab(turned_back, tolerance)
    }

    /// `resize_to` in the frame turned `deg`. The cursor is clamped into
    /// `region` where it lives, on screen, and only then turned back:
    /// `turned_back` is that clamped cursor turned `-deg` about the pivot.
    /// The rotation itself is unchanged.
    pub fn resize_to_rotated(
        &self,
        deg: i32,
        handle: ResizeHandle,
        cursor: Point,
        region: Rect,
        keep_aspect: bool,
        turned_back: Point,
    ) -> (r: Shape)
        requires
            self.in_domain(),
            region_ok(region),
            turned_back.in_domain(),
        ensures
            rotation_is_identity(self@, deg) ==> r@ == resize_local_spec(
                self@,
                handle,
                clamp_into(cursor, region),
                region,
                keep_aspect,
            ),
            !rotation_is_identity(self@, deg) ==> r@ == resize_local_spec(
                self@,
                handle,
                turned_back,
                region,
                keep_aspect,
            ),
            never_collapses(self@, handle, r@),
    {
        let circle = match self {
            Shape::Circle { .. } => true,
            _ => false,
        };
        if normalize_deg(deg) == 0 || circle {
            return self.resize_to(handle, cursor, region, keep_aspect);
        }
        self.resize_to_local(handle, turned_back, region, keep_aspect)
    }

    /// A polygon or triangle with a rotation of `deg` baked into its
    /// vertices, given `turned`: its vertices, in order, turned `deg` about
    /// the pivot. Other shapes, and a whole turn, come back unchanged: rects
    /// and ellipses carry their rotation beside them instead.
    pub fn with_rotation_baked(&self, deg: i32, turned: &Vec<Point>) -> (r: Shape)
        requires
            self matches Shape::Poly { points } ==> turned@.len() == points@.len(),
            self is Triangle ==> turned@.len() == 3,
        ensures
            (deg as int) % 360 != 0 && self is Poly ==> r@ == ShapeView::Poly(turned@),
            (deg as int) % 360 != 0 && self is Triangle ==> r@ == (ShapeView::Triangle {
                ax: turned@[0].x,
                ay: turned@[0].y,
                bx: turned@[1].x,
                by: turned@[1].y,
                cx: turned@[2].x,
                cy: turned@[2].y,
            }),
            (deg as int) % 360 == 0 || !(self is Poly || self is Triangle) ==> r@ == self@,
    {
        if normalize_deg(deg) == 0 {
            return self.clone_shape();
        }
        match self {
            Shape::Poly { .. } => Shape::Poly { points: turned.clone() },
            Shape::Triangle { .. } => Shape::Triangle {
                ax: turned[0].x,
                ay: turned[0].y,
                bx: turned[1].x,
                by: turned[1].y,
                cx: turned[2].x,
                cy: turned[2].y,
            },
            _ => self.clone_shape(),
        }
    }
}

/// How many vertices a regular polygon asked for with `sides` gets: the
/// request clamped into `MIN_POLYGON_SIDES..=MAX_POLYGON_SIDES`, so a
/// huge count is no allocation request and a tiny one is still a shape.
pub fn polygon_side_count(sides: u32) -> (n: usize)
    ensures
        n == clamp_spec(sides as int, MIN_POLYGON_SIDES as int, MAX_POLYGON_SIDES as int),
        MIN_POLYGON_SIDES <= n <= MAX_POLYGON_SIDES,
{
    if sides < MIN_POLYGON_SIDES {
        MIN_POLYGON_SIDES as usize
    } else if sides > MAX_POLYGON_SIDES {
        MAX_POLYGON_SIDES as usize
    } else {
        sides as usize
    }
}

} // verus!
