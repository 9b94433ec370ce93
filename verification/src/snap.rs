//! Edge snapping: pull a point onto the UI edges already in the frozen
//! image.
//!
//! The two axes are independent: `x` snaps to vertical edges (a
//! horizontal luma gradient) and `y` to horizontal ones, so dragging a
//! rect corner onto a button corner is one gesture that satisfies two
//! separate searches.

use vstd::prelude::*;
use crate::arith::{abs_spec, fits_i32, max_spec, min_spec};
use crate::geometry::{coord_ok, Point, MAX_COORD};

verus! {

/// A snap that happened: where the point moved to, and how far the edge
/// it landed on runs.
#[derive(Debug, Clone, Copy, PartialEq, Eq)]
pub struct SnapHit {
    /// The snapped coordinate on the queried axis.
    pub at: i32,
    /// Inclusive extent of the edge along the other axis, for drawing
    /// feedback.
    pub span: (i32, i32),
}

/// The result of asking where a point wants to go. Each axis answers on
/// its own: a corner snaps both, a vertical border snaps only `x`, and
/// open space snaps neither.
#[derive(Debug, Clone, Copy, PartialEq, Eq)]
pub struct Snap {
    pub x: Option<SnapHit>,
    pub y: Option<SnapHit>,
}

impl Default for Snap {
    /// No snap on either axis.
    fn default() -> (s: Self)
        ensures
            s.x is None && s.y is None,
    {
        Snap { x: None, y: None }
    }
}

impl Snap {
    /// `p` with each axis moved to its snapped value.
    pub open spec fn apply_spec(self, p: Point) -> Point {
        Point {
            x: match self.x {
                Some(hit) => hit.at,
                None => p.x,
            },
            y: match self.y {
                Some(hit) => hit.at,
                None => p.y,
            },
        }
    }

    /// `p` with each axis moved to its snapped value, leaving axes that
    /// found nothing alone.
    pub fn apply(self, p: Point) -> (q: Point)
        ensures
            q == self.apply_spec(p),
    {
        let x = match self.x {
            Some(hit) => hit.at,
            None => p.x,
        };
        let y = match self.y {
            Some(hit) => hit.at,
            None => p.y,
        };
        Point::new(x, y)
    }

    /// Whether either axis snapped.
    pub fn is_hit(self) -> (b: bool)
        ensures
            b == (self.x is Some || self.y is Some),
    {
        self.x.is_some() || self.y.is_some()
    }
}

/// Gradient strength below which nothing is an edge, on the 0-255 scale
/// the edge maps use: a floor under the adaptive threshold.
pub const MIN_GRADIENT: u8 = 20;

/// The percentile of the frame's gradients an edge must reach.
const EDGE_PERCENT: u64 = 98;

/// How far the reported edge extent is traced either way.
pub const MAX_SPAN: i32 = 160;

/// How many of `s` are at most `v`.
pub open spec fn count_le(s: Seq<u8>, v: int) -> nat
    decreases s.len(),
{
    if s.len() == 0 {
        0
    } else {
        count_le(s.drop_last(), v) + if s.last() <= v {
            1nat
        } else {
            0nat
        }
    }
}

/// How many of `s` are exactly `v`.
pub open spec fn count_eq(s: Seq<u8>, v: int) -> nat
    decreases s.len(),
{
    if s.len() == 0 {
        0
    } else {
        count_eq(s.drop_last(), v) + if s.last() == v {
            1nat
        } else {
            0nat
        }
    }
}

/// The least value from `v` up whose share of `s` at or below it reaches
/// `target`, or 255.
pub open spec fn first_reaching(s: Seq<u8>, target: int, v: int) -> int
    decreases 255 - v,
{
    if v >= 255 || count_le(s, v) >= target {
        v
    } else {
        first_reaching(s, target, v + 1)
    }
}

/// The strength a gradient must reach to count as an edge: the
/// `EDGE_PERCENT` percentile of every gradient of the frame, flat pixels
/// included, floored at `MIN_GRADIENT`.
pub open spec fn threshold_spec(s: Seq<u8>) -> u8 {
    if s.len() == 0 {
        MIN_GRADIENT
    } else {
        max_spec(first_reaching(s, (s.len() * 98 / 100) as int, 0), MIN_GRADIENT as int) as u8
    }
}

proof fn lemma_count_split(s: Seq<u8>, v: int)
    ensures
        v >= 1 ==> count_le(s, v) == count_le(s, v - 1) + count_eq(s, v),
        count_le(s, 0) == count_eq(s, 0),
        count_le(s, 255) == s.len(),
    decreases s.len(),
{
    if s.len() > 0 {
        lemma_count_split(s.drop_last(), v);
    }
}

proof fn lemma_count_push(s: Seq<u8>, g: u8, v: int)
    ensures
        count_eq(s.push(g), v) == count_eq(s, v) + if g == v {
            1nat
        } else {
            0nat
        },
{
    assert(s.push(g).drop_last() =~= s);
}

proof fn lemma_first_reaching_bound(s: Seq<u8>, target: int, v: int)
    requires
        0 <= v <= 255,
    ensures
        v <= first_reaching(s, target, v) <= 255,
    decreases 255 - v,
{
    if !(v >= 255 || count_le(s, v) >= target) {
        lemma_first_reaching_bound(s, target, v + 1);
    }
}

/// The edge threshold of a frame whose two gradient maps are `gx` and
/// `gy`: a histogram over both, then the first value reaching the
/// percentile.
fn adaptive_threshold(gx: &Vec<u8>, gy: &Vec<u8>) -> (t: u8)
    requires
        gx@.len() + gy@.len() <= 2 * MAX_COORD * MAX_COORD,
    ensures
        t == threshold_spec(gx@ + gy@),
        t >= MIN_GRADIENT,
{
    let ghost all = gx@ + gy@;
    let mut histogram: Vec<u64> = Vec::new();
    while histogram.len() < 256
        invariant
            histogram@.len() <= 256,
            forall|u: int| 0 <= u < histogram@.len() ==> histogram@[u] == 0,
        decreases 256 - histogram@.len(),
    {
        histogram.push(0);
    }
    let mut total: u64 = 0;
    let mut i: usize = 0;
    while i < gx.len()
        invariant
            i <= gx@.len(),
            histogram@.len() == 256,
            total == i,
            forall|u: int| 0 <= u < 256 ==> #[trigger] histogram@[u] == count_eq(gx@.take(i as int), u),
        decreases gx@.len() - i,
    {
        let g = gx[i];
        proof {
            assert(gx@.take(i + 1) =~= gx@.take(i as int).push(g));
            assert forall|u: int| 0 <= u < 256 implies #[trigger] count_eq(gx@.take(i + 1), u) == count_eq(
                gx@.take(i as int),
                u,
            ) + if g == u {
                1nat
            } else {
                0nat
            } by {
                lemma_count_push(gx@.take(i as int), g, u);
            }
            assert(count_eq(gx@.take(i as int), g as int) <= i) by {
                lemma_count_split(gx@.take(i as int), g as int);
                lemma_count_eq_le_len(gx@.take(i as int), g as int);
            }
        }
        let n = histogram[g as usize];
        histogram.set(g as usize, n + 1);
        total = total + 1;
        i = i + 1;
    }
    proof {
        assert(gx@.take(i as int) =~= gx@);
        assert(all.take(i as int) =~= gx@);
    }
    let mut j: usize = 0;
    while j < gy.len()
        invariant
            j <= gy@.len(),
            i == gx@.len(),
            all == gx@ + gy@,
            all.len() <= 2 * MAX_COORD * MAX_COORD,
            histogram@.len() == 256,
            total == i + j,
            forall|u: int| 0 <= u < 256 ==> #[trigger] histogram@[u] == count_eq(all.take(i + j), u),
        decreases gy@.len() - j,
    {
        let g = gy[j];
        proof {
            assert(all.take(i + j + 1) =~= all.take(i + j).push(g));
            assert forall|u: int| 0 <= u < 256 implies #[trigger] count_eq(all.take(i + j + 1), u) == count_eq(
                all.take(i + j),
                u,
            ) + if g == u {
                1nat
            } else {
                0nat
            } by {
                lemma_count_push(all.take(i + j), g, u);
            }
            assert(count_eq(all.take(i + j), g as int) <= i + j) by {
                lemma_count_eq_le_len(all.take(i + j), g as int);
            }
        }
        let n = histogram[g as usize];
        histogram.set(g as usize, n + 1);
        total = total + 1;
        j = j + 1;
    }
    proof {
        assert(all.take(i + j) =~= all);
    }
    if total == 0 {
        return MIN_GRADIENT;
    }
    let target = total * EDGE_PERCENT / 100;
    let mut seen: u64 = 0;
    let mut value: usize = 0;
    while value < 256
        invariant
            value <= 256,
            histogram@.len() == 256,
            all == gx@ + gy@,
            all.len() == total,
            total > 0,
            total <= 2 * MAX_COORD * MAX_COORD,
            target == all.len() * 98 / 100,
            forall|u: int| 0 <= u < 256 ==> #[trigger] histogram@[u] == count_eq(all, u),
            value == 0 ==> seen == 0,
            value > 0 ==> seen == count_le(all, value - 1) && seen < target,
            first_reaching(all, target as int, 0) == first_reaching(all, target as int, value as int),
        decreases 256 - value,
    {
        proof {
            lemma_count_split(all, value as int);
            lemma_count_le_le_len(all, value as int);
        }
        seen = seen + histogram[value];
        proof {
            assert(seen == count_le(all, value as int));
        }
        if seen >= target {
            proof {
                lemma_first_reaching_bound(all, target as int, value as int);
                assert(first_reaching(all, target as int, value as int) == value as int);
                assert(target as int == (all.len() * 98 / 100) as int);
            }
            let v = value as u8;
            return if v >= MIN_GRADIENT {
                v
            } else {
                MIN_GRADIENT
            };
        }
        proof {
            assert(value < 255) by {
                lemma_count_split(all, 255);
                if value == 255 {
                    assert(seen == all.len());
                    assert(target <= all.len());
                }
            }
        }
        value = value + 1;
    }
    proof {
        lemma_count_split(all, 255);
        lemma_count_le_le_len(all, 255);
        assert(target <= total);
    }
    MIN_GRADIENT
}

proof fn lemma_count_eq_le_len(s: Seq<u8>, v: int)
    ensures
        count_eq(s, v) <= s.len(),
    decreases s.len(),
{
    if s.len() > 0 {
        lemma_count_eq_le_len(s.drop_last(), v);
    }
}

proof fn lemma_count_le_le_len(s: Seq<u8>, v: int)
    ensures
        count_le(s, v) <= s.len(),
    decreases s.len(),
{
    if s.len() > 0 {
        lemma_count_le_le_len(s.drop_last(), v);
    }
}

/// Per-pixel edge strength for one frozen frame, two maps quantized to
/// `0..=255`: `gx`, high on vertical edges, is what an `x` snap searches,
/// and `gy`, high on horizontal edges, what a `y` snap searches.
pub struct EdgeMap {
    w: usize,
    h: usize,
    gx: Vec<u8>,
    gy: Vec<u8>,
    threshold: u8,
}

/// The value of an [`EdgeMap`].
pub struct EdgeMapView {
    pub w: int,
    pub h: int,
    pub gx: Seq<u8>,
    pub gy: Seq<u8>,
    pub threshold: u8,
}

impl View for EdgeMap {
    type V = EdgeMapView;

    closed spec fn view(&self) -> EdgeMapView {
        EdgeMapView {
            w: self.w as int,
            h: self.h as int,
            gx: self.gx@,
            gy: self.gy@,
            threshold: self.threshold,
        }
    }
}

/// Two full maps of a frame no larger than the coordinate domain, and a
/// threshold at least the floor.
pub open spec fn map_ok(m: EdgeMapView) -> bool {
    &&& 0 <= m.w <= MAX_COORD
    &&& 0 <= m.h <= MAX_COORD
    &&& m.gx.len() == m.w * m.h
    &&& m.gy.len() == m.w * m.h
    &&& m.threshold >= MIN_GRADIENT
}

/// The gradient at (`along`, `across`) on the searched axis (`x` for the
/// vertical-edge map); `None` off the frame.
pub open spec fn grad(m: EdgeMapView, along: int, across: int, x: bool) -> Option<u8> {
    let px = if x {
        along
    } else {
        across
    };
    let py = if x {
        across
    } else {
        along
    };
    if 0 <= px < m.w && 0 <= py < m.h {
        Some(
            if x {
                m.gx[py * m.w + px]
            } else {
                m.gy[py * m.w + px]
            },
        )
    } else {
        None
    }
}

pub open spec fn g_val(g: Option<u8>) -> int {
    match g {
        Some(v) => v as int,
        None => 0,
    }
}

pub open spec fn g_cnt(g: Option<u8>) -> int {
    if g is Some {
        1
    } else {
        0
    }
}

/// The mean of the on-frame gradients in the window of two samples either
/// side of `center` across the searched line (a real edge runs through
/// all of them, a lone speckle is averaged away); 0 when none is on the
/// frame.
pub open spec fn window_avg(m: EdgeMapView, along: int, center: int, x: bool) -> int {
    let t = g_val(grad(m, along, center - 2, x)) + g_val(grad(m, along, center - 1, x)) + g_val(
        grad(m, along, center, x),
    ) + g_val(grad(m, along, center + 1, x)) + g_val(grad(m, along, center + 2, x));
    let c = g_cnt(grad(m, along, center - 2, x)) + g_cnt(grad(m, along, center - 1, x)) + g_cnt(
        grad(m, along, center, x),
    ) + g_cnt(grad(m, along, center + 1, x)) + g_cnt(grad(m, along, center + 2, x));
    if c == 0 {
        0
    } else {
        t / c
    }
}

/// The best window mean for the windows centred `-radius..=o` away from
/// `across`.
pub open spec fn score_upto(m: EdgeMapView, along: int, across: int, radius: int, x: bool, o: int) -> int
    decreases o + radius + 1,
{
    if o < -radius {
        0
    } else {
        max_spec(score_upto(m, along, across, radius, x, o - 1), window_avg(m, along, across + o, x))
    }
}

/// A line's edge score near the query: the best window mean anywhere
/// within the radius, so a corner approached from outside still scores.
pub open spec fn score_spec(m: EdgeMapView, along: int, across: int, radius: int, x: bool) -> int {
    score_upto(m, along, across, radius, x, radius)
}

/// The lines scanned: one past the radius either way, clipped to the frame.
pub open spec fn scan_lo(along: int, radius: int) -> int {
    max_spec(along - radius - 1, 0)
}

pub open spec fn scan_hi(m: EdgeMapView, along: int, radius: int, x: bool) -> int {
    min_spec(
        along + radius + 1,
        (if x {
            m.w
        } else {
            m.h
        }) - 1,
    )
}

/// Whether line `v` is a snap candidate for the query at (`along`,
/// `across`): scanned, within the radius, at or above the threshold, and
/// no weaker than either scanned neighbour.
pub open spec fn eligible(m: EdgeMapView, v: int, along: int, across: int, radius: int, x: bool) -> bool {
    let lo = scan_lo(along, radius);
    let hi = scan_hi(m, along, radius, x);
    let sc = score_spec(m, v, across, radius, x);
    let left = if v > lo {
        score_spec(m, v - 1, across, radius, x)
    } else {
        0
    };
    let right = if v < hi {
        score_spec(m, v + 1, across, radius, x)
    } else {
        0
    };
    &&& lo <= v <= hi
    &&& abs_spec(v - along) <= radius
    &&& sc >= m.threshold
    &&& sc >= left
    &&& sc >= right
}

/// Whether candidate `a` ranks at least as well as `b`: nearer first, then
/// stronger, then the lower coordinate.
pub open spec fn ranks_before(m: EdgeMapView, a: int, b: int, along: int, across: int, radius: int, x: bool) -> bool {
    let da = abs_spec(a - along);
    let db = abs_spec(b - along);
    let sa = score_spec(m, a, across, radius, x);
    let sb = score_spec(m, b, across, radius, x);
    da < db || (da == db && (sa > sb || (sa == sb && a <= b)))
}

/// How many steps, from step `k`, the edge at `along` keeps at least
/// `floor` going `dir` across, up to `MAX_SPAN`.
pub open spec fn run_len(m: EdgeMapView, along: int, across: int, x: bool, dir: int, floor: int, k: int) -> int
    decreases MAX_SPAN - k,
{
    if k >= MAX_SPAN {
        k
    } else {
        match grad(m, along, across + dir * (k + 1), x) {
            Some(g) => if g >= floor {
                run_len(m, along, across, x, dir, floor, k + 1)
            } else {
                k
            },
            None => k,
        }
    }
}

/// The extent of the edge at `along` either side of `across`: where its
/// gradient stays at or above half the threshold, at most `MAX_SPAN` away.
pub open spec fn span_spec(m: EdgeMapView, along: int, across: int, x: bool) -> (int, int) {
    let floor = m.threshold / 2;
    (across - run_len(m, along, across, x, -1, floor as int, 0), across + run_len(m, along, across, x, 1, floor as int, 0))
}

/// What one axis of a snap answers: nothing when no line is eligible,
/// else the best-ranked eligible line and its edge's extent.
pub open spec fn axis_answer(m: EdgeMapView, r: Option<SnapHit>, along: int, across: int, radius: int, x: bool) -> bool {
    match r {
        None => forall|v: int| !#[trigger] eligible(m, v, along, across, radius, x),
        Some(hit) => {
            &&& eligible(m, hit.at as int, along, across, radius, x)
            &&& forall|v: int| #[trigger] eligible(m, v, along, across, radius, x) ==> ranks_before(m, hit.at as int, v, along, across, radius, x)
            &&& (hit.span.0 as int, hit.span.1 as int) == span_spec(m, hit.at as int, across, x)
        },
    }
}

impl EdgeMap {
    #[verifier::type_invariant]
    spec fn inv(&self) -> bool {
        map_ok(self@)
    }

    /// An edge map over a `w` by `h` frame's two gradient maps, with the
    /// threshold computed from them.
    pub fn from_gradients(w: usize, h: usize, gx: Vec<u8>, gy: Vec<u8>) -> (m: Self)
        requires
            w <= MAX_COORD,
            h <= MAX_COORD,
            gx@.len() == w * h,
            gy@.len() == w * h,
        ensures
            m@ == (EdgeMapView {
                w: w as int,
                h: h as int,
                gx: gx@,
                gy: gy@,
                threshold: threshold_spec(gx@ + gy@),
            }),
    {
        proof {
            assert(w * h <= MAX_COORD * MAX_COORD) by (nonlinear_arith)
                requires
                    w <= MAX_COORD,
                    h <= MAX_COORD,
            ;
        }
        let threshold = adaptive_threshold(&gx, &gy);
        EdgeMap { w, h, gx, gy, threshold }
    }

    /// The strength a gradient must reach to count as an edge.
    pub fn threshold(&self) -> (t: u8)
        ensures
            t == self@.threshold,
    {
        self.threshold
    }

    fn gradient(&self, along: i32, across: i32, x: bool) -> (g: Option<u8>)
        ensures
            g == grad(self@, along as int, across as int, x),
    {
        proof {
            use_type_invariant(self);
        }
        let (px, py) = if x {
            (along, across)
        } else {
            (across, along)
        };
        if px < 0 || py < 0 {
            return None;
        }
        let ux = px as usize;
        let uy = py as usize;
        if ux >= self.w || uy >= self.h {
            return None;
        }
        let n = self.gx.len();
        proof {
            assert(uy * self.w + ux < self.w * self.h) by (nonlinear_arith)
                requires
                    ux < self.w,
                    uy < self.h,
            ;
            assert(n == self.w * self.h);
        }
        let index = uy * self.w + ux;
        Some(
            if x {
                self.gx[index]
            } else {
                self.gy[index]
            },
        )
    }

    fn window(&self, along: i32, center: i32, x: bool) -> (a: u16)
        requires
            coord_ok(along as int),
            fits_i32(center - 2) && fits_i32(center + 2),
        ensures
            a == window_avg(self@, along as int, center as int, x),
    {
        let g0 = self.gradient(along, center - 2, x);
        let g1 = self.gradient(along, center - 1, x);
        let g2 = self.gradient(along, center, x);
        let g3 = self.gradient(along, center + 1, x);
        let g4 = self.gradient(along, center + 2, x);
        let mut total: u32 = 0;
        let mut count: u32 = 0;
        if let Some(g) = g0 {
            total = total + g as u32;
            count = count + 1;
        }
        if let Some(g) = g1 {
            total = total + g as u32;
            count = count + 1;
        }
        if let Some(g) = g2 {
            total = total + g as u32;
            count = count + 1;
        }
        if let Some(g) = g3 {
            total = total + g as u32;
            count = count + 1;
        }
        if let Some(g) = g4 {
            total = total + g as u32;
            count = count + 1;
        }
        if count == 0 {
            return 0;
        }
        proof {
            assert(total <= 255 * count);
            assert(total / count <= 255) by (nonlinear_arith)
                requires
                    total <= 255 * count,
                    count > 0,
            ;
        }
        (total / count) as u16
    }

    fn score(&self, along: i32, across: i32, radius: i32, x: bool) -> (sc: u16)
        requires
            coord_ok(along as int),
            1 <= radius,
            fits_i32(across - radius - 2) && fits_i32(across + radius + 2),
        ensures
            sc == score_spec(self@, along as int, across as int, radius as int, x),
            sc <= 255,
    {
        let mut best: u16 = 0;
        let mut offset: i32 = -radius;
        while offset <= radius
            invariant
                coord_ok(along as int),
                1 <= radius,
                fits_i32(across - radius - 2) && fits_i32(across + radius + 2),
                -radius <= offset <= radius + 1,
                best == score_upto(self@, along as int, across as int, radius as int, x, offset - 1),
                best <= 255,
            decreases radius + 1 - offset,
        {
            let a = self.window(along, across + offset, x);
            proof {
                assert(a <= 255) by {
                    assert(window_avg(self@, along as int, (across + offset) as int, x) <= 255) by {
                        lemma_window_bound(self@, along as int, (across + offset) as int, x);
                    }
                }
            }
            if a > best {
                best = a;
            }
            offset = offset + 1;
        }
        best
    }

    fn trace_side(&self, along: i32, across: i32, x: bool, dir: i32) -> (k: i32)
        requires
            coord_ok(along as int),
            fits_i32(across - MAX_SPAN) && fits_i32(across + MAX_SPAN),
            dir == 1 || dir == -1,
        ensures
            k == run_len(self@, along as int, across as int, x, dir as int, (self@.threshold / 2) as int, 0),
            0 <= k <= MAX_SPAN,
    {
        let floor: u8 = self.threshold / 2;
        let mut k: i32 = 0;
        while k < MAX_SPAN
            invariant
                coord_ok(along as int),
                fits_i32(across - MAX_SPAN) && fits_i32(across + MAX_SPAN),
                dir == 1 || dir == -1,
                floor == self@.threshold / 2,
                0 <= k <= MAX_SPAN,
                run_len(self@, along as int, across as int, x, dir as int, floor as int, 0) == run_len(
                    self@,
                    along as int,
                    across as int,
                    x,
                    dir as int,
                    floor as int,
                    k as int,
                ),
            decreases MAX_SPAN - k,
        {
            let g = self.gradient(along, across + dir * (k + 1), x);
            match g {
                Some(v) => {
                    if v < floor {
                        return k;
                    }
                },
                None => {
                    return k;
                },
            }
            k = k + 1;
        }
        k
    }

    fn snap_axis(&self, p: Point, radius: i32, x: bool) -> (r: Option<SnapHit>)
        requires
            1 <= radius,
            snap_fits(p, radius as int),
        ensures
            axis_answer(
                self@,
                r,
                (if x {
                    p.x
                } else {
                    p.y
                }) as int,
                (if x {
                    p.y
                } else {
                    p.x
                }) as int,
                radius as int,
                x,
            ),
            r matches Some(hit) ==> hit.span.0 <= (if x {
                p.y
            } else {
                p.x
            }) <= hit.span.1,
    {
        proof {
            use_type_invariant(self);
        }
        let (along, across) = if x {
            (p.x, p.y)
        } else {
            (p.y, p.x)
        };
        let limit: i32 = if x {
            self.w as i32
        } else {
            self.h as i32
        };
        let lo: i32 = if along - radius - 1 > 0 {
            along - radius - 1
        } else {
            0
        };
        let hi: i32 = if along + radius + 1 < limit - 1 {
            along + radius + 1
        } else {
            limit - 1
        };
        let ghost m = self@;
        let ghost ra = radius as int;
        assert(lo == scan_lo(along as int, ra));
        assert(hi == scan_hi(m, along as int, ra, x));
        let mut scores: Vec<u16> = Vec::new();
        let mut v: i32 = lo;
        while v <= hi
            invariant
                m == self@,
                reach_fits(along as int, radius as int),
                reach_fits(across as int, radius as int),
                1 <= radius,
                lo == scan_lo(along as int, ra),
                hi == scan_hi(m, along as int, ra, x),
                ra == radius,
                hi <= MAX_COORD - 1,
                0 <= lo <= v,
                v <= hi + 1 || hi < lo,
                hi < lo ==> v == lo,
                scores@.len() == v - lo,
                forall|i: int| 0 <= i < scores@.len() ==> #[trigger] scores@[i] == score_spec(m, lo + i, across as int, ra, x),
            decreases hi + 1 - v,
        {
            let sc = self.score(v, across, radius, x);
            scores.push(sc);
            v = v + 1;
        }
        proof {
            assert(scores@.len() == if hi >= lo { hi - lo + 1 } else { 0 });
        }
        let threshold = self.threshold as u16;
        let mut best: Option<(i32, u16, i32)> = None;
        let mut i: usize = 0;
        while i < scores.len()
            invariant
                m == self@,
                threshold == m.threshold,
                reach_fits(along as int, radius as int),
                reach_fits(across as int, radius as int),
                1 <= radius,
                lo == scan_lo(along as int, ra),
                hi == scan_hi(m, along as int, ra, x),
                ra == radius,
                scores@.len() == if hi >= lo { hi - lo + 1 } else { 0 },
                forall|k: int| 0 <= k < scores@.len() ==> #[trigger] scores@[k] == score_spec(m, lo + k, across as int, ra, x),
                i <= scores@.len(),
                match best {
                    Some((b, bs, bd)) => {
                        &&& lo <= b < lo + i
                        &&& bs == score_spec(m, b as int, across as int, ra, x)
                        &&& bd == abs_spec(b - along)
                        &&& eligible(m, b as int, along as int, across as int, ra, x)
                        &&& forall|u: int| lo <= u < lo + i && #[trigger] eligible(m, u, along as int, across as int, ra, x) ==> ranks_before(m, b as int, u, along as int, across as int, ra, x)
                    },
                    None => forall|u: int| lo <= u < lo + i ==> !#[trigger] eligible(m, u, along as int, across as int, ra, x),
                },
            decreases scores@.len() - i,
        {
            let vv: i32 = lo + i as i32;
            let score = scores[i];
            let distance: i32 = if vv >= along {
                vv - along
            } else {
                along - vv
            };
            let left: u16 = if i > 0 {
                scores[i - 1]
            } else {
                0
            };
            let right: u16 = if i + 1 < scores.len() {
                scores[i + 1]
            } else {
                0
            };
            proof {
                assert(vv as int == lo + i);
                assert(i > 0 ==> scores@[i - 1] == score_spec(m, vv - 1, across as int, ra, x));
                assert(i + 1 < scores@.len() ==> scores@[i + 1 as int] == score_spec(m, vv + 1, across as int, ra, x));
            }
            let ok = distance <= radius && score >= threshold && score >= left && score >= right;
            proof {
                assert(ok == eligible(m, vv as int, along as int, across as int, ra, x));
            }
            if ok {
                let better = match best {
                    None => true,
                    Some((_, best_score, best_distance)) => distance < best_distance || (distance == best_distance && score > best_score),
                };
                if better {
                    best = Some((vv, score, distance));
                }
            }
            i = i + 1;
        }
        proof {
            assert forall|u: int| #[trigger] eligible(m, u, along as int, across as int, ra, x) implies lo <= u < lo + scores@.len() by {}
        }
        match best {
            None => None,
            Some((at, _, _)) => {
                let down = self.trace_side(at, across, x, -1);
                let up = self.trace_side(at, across, x, 1);
                Some(SnapHit { at, span: (across - down, across + up) })
            },
        }
    }

    /// Just the vertical-edge search (`x` moves), for callers that move
    /// one axis at a time. A non-positive radius finds nothing.
    pub fn snap_x(&self, p: Point, radius: i32) -> (r: Option<SnapHit>)
        requires
            radius > 0 ==> snap_fits(p, radius as int),
        ensures
            radius <= 0 ==> r is None,
            radius > 0 ==> axis_answer(self@, r, p.x as int, p.y as int, radius as int, true),
            r matches Some(hit) ==> abs_spec(hit.at - p.x) <= radius && hit.span.0 <= p.y <= hit.span.1,
    {
        if radius <= 0 {
            return None;
        }
        self.snap_axis(p, radius, true)
    }

    /// Just the horizontal-edge search (`y` moves). See [`Self::snap_x`].
    pub fn snap_y(&self, p: Point, radius: i32) -> (r: Option<SnapHit>)
        requires
            radius > 0 ==> snap_fits(p, radius as int),
        ensures
            radius <= 0 ==> r is None,
            radius > 0 ==> axis_answer(self@, r, p.y as int, p.x as int, radius as int, false),
            r matches Some(hit) ==> abs_spec(hit.at - p.y) <= radius && hit.span.0 <= p.x <= hit.span.1,
    {
        if radius <= 0 {
            return None;
        }
        self.snap_axis(p, radius, false)
    }

    /// Where `p` wants to go, searching `radius` pixels either way on each
    /// axis independently; a non-positive radius disables snapping. A snap
    /// never moves a point further than the radius on either axis.
    pub fn snap(&self, p: Point, radius: i32) -> (s: Snap)
        requires
            radius > 0 ==> snap_fits(p, radius as int),
        ensures
            radius <= 0 ==> s.x is None && s.y is None,
            radius > 0 ==> axis_answer(self@, s.x, p.x as int, p.y as int, radius as int, true),
            radius > 0 ==> axis_answer(self@, s.y, p.y as int, p.x as int, radius as int, false),
            abs_spec(s.apply_spec(p).x - p.x) <= radius || radius <= 0,
            abs_spec(s.apply_spec(p).y - p.y) <= radius || radius <= 0,
    {
        if radius <= 0 {
            return Snap { x: None, y: None };
        }
        Snap { x: self.snap_x(p, radius), y: self.snap_y(p, radius) }
    }
}

proof fn lemma_window_bound(m: EdgeMapView, along: int, center: int, x: bool)
    ensures
        0 <= window_avg(m, along, center, x) <= 255,
{
    let t = g_val(grad(m, along, center - 2, x)) + g_val(grad(m, along, center - 1, x)) + g_val(
        grad(m, along, center, x),
    ) + g_val(grad(m, along, center + 1, x)) + g_val(grad(m, along, center + 2, x));
    let c = g_cnt(grad(m, along, center - 2, x)) + g_cnt(grad(m, along, center - 1, x)) + g_cnt(
        grad(m, along, center, x),
    ) + g_cnt(grad(m, along, center + 1, x)) + g_cnt(grad(m, along, center + 2, x));
    assert(0 <= t <= 255 * c);
    if c > 0 {
        assert(0 <= t / c <= 255) by (nonlinear_arith)
            requires
                0 <= t <= 255 * c,
                c > 0,
        ;
    }
}

/// A coordinate the snap search can reach out from: `radius` plus the
/// scoring window either way, and the longest traced span, stay in `i32`.
pub open spec fn reach_fits(c: int, radius: int) -> bool {
    &&& fits_i32(c - radius - 2) && fits_i32(c + radius + 2)
    &&& fits_i32(c - MAX_SPAN) && fits_i32(c + MAX_SPAN)
}

/// Both coordinates of `p` are ones the search can reach out from.
pub open spec fn snap_fits(p: Point, radius: int) -> bool {
    reach_fits(p.x as int, radius) && reach_fits(p.y as int, radius)
}

pub open spec fn flat(m: EdgeMapView) -> bool {
    &&& forall|i: int| 0 <= i < m.gx.len() ==> #[trigger] m.gx[i] == 0
    &&& forall|i: int| 0 <= i < m.gy.len() ==> #[trigger] m.gy[i] == 0
}

proof fn lemma_flat_grad(m: EdgeMapView, along: int, across: int, x: bool)
    requires
        map_ok(m),
        flat(m),
    ensures
        g_val(grad(m, along, across, x)) == 0,
{
    let px = if x {
        along
    } else {
        across
    };
    let py = if x {
        across
    } else {
        along
    };
    if 0 <= px < m.w && 0 <= py < m.h {
        assert(0 <= py * m.w + px < m.w * m.h) by (nonlinear_arith)
            requires
                0 <= px < m.w,
                0 <= py < m.h,
        ;
        if x {
            assert(m.gx[py * m.w + px] == 0);
        } else {
            assert(m.gy[py * m.w + px] == 0);
        }
    }
}

proof fn lemma_flat_score(m: EdgeMapView, along: int, across: int, radius: int, x: bool, o: int)
    requires
        map_ok(m),
        flat(m),
    ensures
        score_upto(m, along, across, radius, x, o) == 0,
    decreases o + radius + 1,
{
    if o >= -radius {
        lemma_flat_score(m, along, across, radius, x, o - 1);
        let c = across + o;
        lemma_flat_grad(m, along, c - 2, x);
        lemma_flat_grad(m, along, c - 1, x);
        lemma_flat_grad(m, along, c, x);
        lemma_flat_grad(m, along, c + 1, x);
        lemma_flat_grad(m, along, c + 2, x);
        let cnt = g_cnt(grad(m, along, c - 2, x)) + g_cnt(grad(m, along, c - 1, x)) + g_cnt(
            grad(m, along, c, x),
        ) + g_cnt(grad(m, along, c + 1, x)) + g_cnt(grad(m, along, c + 2, x));
        if cnt > 0 {
            assert(0int / cnt == 0);
        }
    }
}

/// No contrast, no edges: on a frame whose gradients are all zero no line
/// is ever a snap candidate, whatever the query, so nothing snaps.
pub proof fn lemma_a_flat_frame_never_snaps(m: EdgeMapView, along: int, across: int, radius: int, x: bool)
    requires
        map_ok(m),
        flat(m),
    ensures
        forall|v: int| !#[trigger] eligible(m, v, along, across, radius, x),
{
    assert forall|v: int| !#[trigger] eligible(m, v, along, across, radius, x) by {
        lemma_flat_score(m, v, across, radius, x, radius);
    }
}

/// One axis has exactly one answer: the eligible lines are ranked by a
/// total order, so the per-axis searches and the combined one, whose
/// contracts each pin their answer this way, always agree.
pub proof fn lemma_an_axis_has_one_answer(
    m: EdgeMapView,
    a: Option<SnapHit>,
    b: Option<SnapHit>,
    along: int,
    across: int,
    radius: int,
    x: bool,
)
    requires
        axis_answer(m, a, along, across, radius, x),
        axis_answer(m, b, along, across, radius, x),
    ensures
        a == b,
{
    match (a, b) {
        (Some(ha), Some(hb)) => {
            assert(eligible(m, hb.at as int, along, across, radius, x));
            assert(eligible(m, ha.at as int, along, across, radius, x));
            assert(ranks_before(m, ha.at as int, hb.at as int, along, across, radius, x));
            assert(ranks_before(m, hb.at as int, ha.at as int, along, across, radius, x));
            assert(ha.at == hb.at);
            assert(ha.span == hb.span);
        },
        (Some(ha), None) => {
            assert(eligible(m, ha.at as int, along, across, radius, x));
        },
        (None, Some(hb)) => {
            assert(eligible(m, hb.at as int, along, across, radius, x));
        },
        (None, None) => {},
    }
}

// ---------------------------------------------------------------------
// Mirrored frames
// ---------------------------------------------------------------------
/// `n` is `m` reflected left to right: the same frame and threshold, and
/// each column `c` of `n` past the left border carries the vertical-edge
/// gradients of column `w - c` of `m`. A boundary sits on the first pixel
/// of the new region, so the edge before column `c` reflects to the one
/// before column `w - c`.
pub open spec fn mirrored_x(m: EdgeMapView, n: EdgeMapView) -> bool {
    &&& n.w == m.w && n.h == m.h && n.threshold == m.threshold
    &&& forall|c: int, r: int| 1 <= c < m.w ==> #[trigger] grad(n, c, r, true) == grad(m, m.w - c, r, true)
}

/// No two candidates for the query are equally near and equally strong:
/// the one case where the scan's low-to-high tie-break, and so the
/// orientation of the frame, decides.
pub open spec fn no_tie(m: EdgeMapView, along: int, across: int, radius: int) -> bool {
    forall|a: int, b: int|
        #[trigger] eligible(m, a, along, across, radius, true) && #[trigger] eligible(m, b, along, across, radius, true)
            && a != b ==> !(abs_spec(a - along) == abs_spec(b - along) && score_spec(m, a, across, radius, true)
            == score_spec(m, b, across, radius, true))
}

proof fn lemma_mirror_window(m: EdgeMapView, n: EdgeMapView, v: int, center: int)
    requires
        mirrored_x(m, n),
        1 <= v < m.w,
    ensures
        window_avg(n, m.w - v, center, true) == window_avg(m, v, center, true),
{
    let c = m.w - v;
    assert(m.w - c == v);
    assert(grad(n, c, center - 2, true) == grad(m, v, center - 2, true));
    assert(grad(n, c, center - 1, true) == grad(m, v, center - 1, true));
    assert(grad(n, c, center, true) == grad(m, v, center, true));
    assert(grad(n, c, center + 1, true) == grad(m, v, center + 1, true));
    assert(grad(n, c, center + 2, true) == grad(m, v, center + 2, true));
}

proof fn lemma_mirror_score_upto(m: EdgeMapView, n: EdgeMapView, v: int, across: int, radius: int, o: int)
    requires
        mirrored_x(m, n),
        1 <= v < m.w,
    ensures
        score_upto(n, m.w - v, across, radius, true, o) == score_upto(m, v, across, radius, true, o),
    decreases o + radius + 1,
{
    if o >= -radius {
        lemma_mirror_score_upto(m, n, v, across, radius, o - 1);
        lemma_mirror_window(m, n, v, across + o);
    }
}

proof fn lemma_mirror_score(m: EdgeMapView, n: EdgeMapView, v: int, across: int, radius: int)
    requires
        mirrored_x(m, n),
        1 <= v < m.w,
    ensures
        score_spec(n, m.w - v, across, radius, true) == score_spec(m, v, across, radius, true),
{
    lemma_mirror_score_upto(m, n, v, across, radius, radius);
}

proof fn lemma_mirror_run(m: EdgeMapView, n: EdgeMapView, v: int, across: int, dir: int, floor: int, k: int)
    requires
        mirrored_x(m, n),
        1 <= v < m.w,
    ensures
        run_len(n, m.w - v, across, true, dir, floor, k) == run_len(m, v, across, true, dir, floor, k),
    decreases MAX_SPAN - k,
{
    if k < MAX_SPAN {
        let c = m.w - v;
        assert(m.w - c == v);
        assert(grad(n, c, across + dir * (k + 1), true) == grad(m, v, across + dir * (k + 1), true));
        lemma_mirror_run(m, n, v, across, dir, floor, k + 1);
    }
}

/// Eligibility reflects with the frame when the scan stays clear of both
/// side borders.
proof fn lemma_mirror_eligible(m: EdgeMapView, n: EdgeMapView, v: int, along: int, across: int, radius: int)
    requires
        mirrored_x(m, n),
        1 <= along - radius - 1,
        along + radius + 1 <= m.w - 1,
    ensures
        eligible(m, v, along, across, radius, true) == eligible(n, m.w - v, m.w - along, across, radius, true),
{
    let w = m.w;
    let lo = along - radius - 1;
    let hi = along + radius + 1;
    assert(scan_lo(along, radius) == lo);
    assert(scan_hi(m, along, radius, true) == hi);
    assert(scan_lo(w - along, radius) == w - hi);
    assert(scan_hi(n, w - along, radius, true) == w - lo);
    if lo <= v <= hi {
        lemma_mirror_score(m, n, v, across, radius);
        if v > lo {
            lemma_mirror_score(m, n, v - 1, across, radius);
            assert(w - (v - 1) == (w - v) + 1);
        }
        if v < hi {
            lemma_mirror_score(m, n, v + 1, across, radius);
            assert(w - (v + 1) == (w - v) - 1);
        }
        assert(abs_spec(v - along) == abs_spec((w - v) - (w - along)));
    }
}

/// A frame reflected left to right reflects where an `x` snap lands: the
/// query mirrored into the reflected frame (a boundary `b` reflects to
/// `w - b`) snaps to the reflection of the unreflected frame's answer,
/// along an edge of the same extent — or finds nothing exactly when that
/// frame does.
/// This holds while the scan, one past the radius either way, stays clear
/// of both side borders or the border columns carry no gradient, and while
/// no two candidates are equally near and equally strong: such a tie is
/// broken toward the lower coordinate, which reflection turns into the
/// other candidate (the distance still reflects, see
/// `lemma_a_mirrored_frame_mirrors_the_snap_distance`).
pub proof fn lemma_a_mirrored_frame_mirrors_the_snap(
    m: EdgeMapView,
    n: EdgeMapView,
    along: int,
    across: int,
    radius: int,
    a: Option<SnapHit>,
    b: Option<SnapHit>,
)
    requires
        mirrored_x(m, n),
        (1 <= along - radius - 1 && along + radius + 1 <= m.w - 1) || (ring_zero(m) && ring_zero(n)
            && m.threshold > 0),
        no_tie(m, along, across, radius),
        axis_answer(m, a, along, across, radius, true),
        axis_answer(n, b, m.w - along, across, radius, true),
    ensures
        a is None <==> b is None,
        a matches Some(h) ==> (b matches Some(k) && k.at == m.w - h.at && k.span == h.span),
{
    let w = m.w;
    let al = w - along;
    assert forall|v: int| #[trigger] eligible(m, v, along, across, radius, true) == eligible(n, w - v, al, across, radius, true) by {
        lemma_mirror_eligible_either(m, n, v, along, across, radius);
    }
    match (a, b) {
        (Some(h), None) => {
            assert(eligible(m, h.at as int, along, across, radius, true));
            assert(eligible(n, w - h.at, al, across, radius, true));
        },
        (None, Some(k)) => {
            assert(eligible(n, k.at as int, al, across, radius, true));
            assert(w - (w - k.at) == k.at);
            assert(eligible(m, w - k.at, along, across, radius, true));
        },
        (Some(h), Some(k)) => {
            let v1 = h.at as int;
            let v2 = w - k.at;
            assert(w - v2 == k.at);
            assert(eligible(n, k.at as int, al, across, radius, true));
            assert(eligible(m, v2, along, across, radius, true));
            assert(eligible(m, v1, along, across, radius, true));
            assert(eligible(n, w - v1, al, across, radius, true));
            // The candidates lie clear of the borders, so scores reflect.
            if !(1 <= along - radius - 1 && along + radius + 1 <= m.w - 1) {
                lemma_ring_keeps_candidates_inside(m, n, v1, along, across, radius);
                lemma_ring_keeps_candidates_inside(m, n, v2, along, across, radius);
            }
            assert(1 <= v1 < w && 1 <= v2 < w);
            lemma_mirror_score(m, n, v1, across, radius);
            lemma_mirror_score(m, n, v2, across, radius);
            assert(ranks_before(m, v1, v2, along, across, radius, true));
            assert(ranks_before(n, k.at as int, w - v1, al, across, radius, true));
            assert(abs_spec(v2 - along) == abs_spec(k.at - al));
            assert(abs_spec(v1 - along) == abs_spec((w - v1) - al));
            if v1 != v2 {
                assert(!(abs_spec(v1 - along) == abs_spec(v2 - along) && score_spec(m, v1, across, radius, true)
                    == score_spec(m, v2, across, radius, true)));
            }
            assert(v1 == v2);
            let floor = (m.threshold / 2) as int;
            lemma_mirror_run(m, n, v1, across, -1, floor, 0);
            lemma_mirror_run(m, n, v1, across, 1, floor, 0);
            assert(span_spec(n, w - v1, across, true) == span_spec(m, v1, across, true));
        },
        (None, None) => {},
    }
}

/// The vertical-edge map keeps zero on its left and right border columns,
/// as an edge map detected from a frame does: a border pixel has no
/// neighbour on one side to differ from.
pub open spec fn ring_zero(m: EdgeMapView) -> bool {
    &&& forall|r: int| g_val(#[trigger] grad(m, 0, r, true)) == 0
    &&& forall|r: int| g_val(#[trigger] grad(m, m.w - 1, r, true)) == 0
}

proof fn lemma_zero_line_scores_zero(m: EdgeMapView, c: int, across: int, radius: int, o: int)
    requires
        forall|r: int| g_val(#[trigger] grad(m, c, r, true)) == 0,
    ensures
        score_upto(m, c, across, radius, true, o) == 0,
    decreases o + radius + 1,
{
    if o >= -radius {
        lemma_zero_line_scores_zero(m, c, across, radius, o - 1);
        let center = across + o;
        assert(g_val(grad(m, c, center - 2, true)) == 0);
        assert(g_val(grad(m, c, center - 1, true)) == 0);
        assert(g_val(grad(m, c, center, true)) == 0);
        assert(g_val(grad(m, c, center + 1, true)) == 0);
        assert(g_val(grad(m, c, center + 2, true)) == 0);
        assert(window_avg(m, c, center, true) == 0);
    }
}

/// Under a zero border ring, only columns two or more clear of either side
/// can be candidates, in the frame and in its reflection.
proof fn lemma_ring_keeps_candidates_inside(m: EdgeMapView, n: EdgeMapView, v: int, along: int, across: int, radius: int)
    requires
        mirrored_x(m, n),
        ring_zero(m),
        ring_zero(n),
        m.threshold > 0,
    ensures
        eligible(m, v, along, across, radius, true) ==> 2 <= v <= m.w - 2,
        eligible(n, v, along, across, radius, true) ==> 2 <= v <= m.w - 2,
{
    let w = m.w;
    if eligible(m, v, along, across, radius, true) {
        if v == 0 {
            lemma_zero_line_scores_zero(m, 0, across, radius, radius);
        } else if v == w - 1 {
            lemma_zero_line_scores_zero(m, w - 1, across, radius, radius);
        } else if v == 1 {
            assert forall|r: int| g_val(#[trigger] grad(m, 1, r, true)) == 0 by {
                assert(grad(n, w - 1, r, true) == grad(m, w - (w - 1), r, true));
            }
            lemma_zero_line_scores_zero(m, 1, across, radius, radius);
        }
    }
    if eligible(n, v, along, across, radius, true) {
        if v == 0 {
            lemma_zero_line_scores_zero(n, 0, across, radius, radius);
        } else if v == w - 1 {
            lemma_zero_line_scores_zero(n, w - 1, across, radius, radius);
        } else if v == 1 {
            assert forall|r: int| g_val(#[trigger] grad(n, 1, r, true)) == 0 by {
                assert(grad(n, 1, r, true) == grad(m, w - 1, r, true));
            }
            lemma_zero_line_scores_zero(n, 1, across, radius, radius);
        }
    }
}

/// Under a zero border ring, eligibility reflects with the frame for every
/// query, the scan clipped at a border or not.
proof fn lemma_mirror_eligible_in_ring(m: EdgeMapView, n: EdgeMapView, v: int, along: int, across: int, radius: int)
    requires
        mirrored_x(m, n),
        ring_zero(m),
        ring_zero(n),
        m.threshold > 0,
    ensures
        eligible(m, v, along, across, radius, true) == eligible(n, m.w - v, m.w - along, across, radius, true),
{
    let w = m.w;
    let u = w - v;
    let al = w - along;
    lemma_ring_keeps_candidates_inside(m, n, v, along, across, radius);
    lemma_ring_keeps_candidates_inside(m, n, u, al, across, radius);
    if 2 <= v <= w - 2 {
        lemma_mirror_score(m, n, v, across, radius);
        lemma_mirror_score(m, n, v - 1, across, radius);
        lemma_mirror_score(m, n, v + 1, across, radius);
        assert(w - (v - 1) == u + 1);
        assert(w - (v + 1) == u - 1);
        assert(abs_spec(v - along) == abs_spec(u - al));
    }
}

/// Eligibility reflects with the frame when the scan stays clear of both
/// side borders, or when the border ring is zero.
proof fn lemma_mirror_eligible_either(m: EdgeMapView, n: EdgeMapView, v: int, along: int, across: int, radius: int)
    requires
        mirrored_x(m, n),
        (1 <= along - radius - 1 && along + radius + 1 <= m.w - 1) || (ring_zero(m) && ring_zero(n)
            && m.threshold > 0),
    ensures
        eligible(m, v, along, across, radius, true) == eligible(n, m.w - v, m.w - along, across, radius, true),
{
    if 1 <= along - radius - 1 && along + radius + 1 <= m.w - 1 {
        lemma_mirror_eligible(m, n, v, along, across, radius);
    } else {
        lemma_mirror_eligible_in_ring(m, n, v, along, across, radius);
    }
}

/// A frame reflected left to right reflects how far an `x` snap reaches:
/// for every query, the query mirrored into the reflected frame finds an
/// edge exactly when the unreflected query does, and at the same distance.
/// It holds for frames whose border columns carry no gradient, as every
/// detected edge map's do, whether or not the scan reaches a border, and
/// whatever ties the two candidates' ranking breaks.
pub proof fn lemma_a_mirrored_frame_mirrors_the_snap_distance(
    m: EdgeMapView,
    n: EdgeMapView,
    along: int,
    across: int,
    radius: int,
    a: Option<SnapHit>,
    b: Option<SnapHit>,
)
    requires
        map_ok(m),
        mirrored_x(m, n),
        ring_zero(m),
        ring_zero(n),
        axis_answer(m, a, along, across, radius, true),
        axis_answer(n, b, m.w - along, across, radius, true),
    ensures
        a is None <==> b is None,
        a matches Some(h) ==> (b matches Some(k) && abs_spec(h.at - along) == abs_spec(k.at - (m.w - along))),
{
    let w = m.w;
    let al = w - along;
    assert forall|v: int| #[trigger] eligible(m, v, along, across, radius, true) == eligible(n, w - v, al, across, radius, true) by {
        lemma_mirror_eligible_in_ring(m, n, v, along, across, radius);
    }
    match (a, b) {
        (Some(h), None) => {
            assert(eligible(m, h.at as int, along, across, radius, true));
            assert(eligible(n, w - h.at, al, across, radius, true));
        },
        (None, Some(k)) => {
            assert(eligible(n, k.at as int, al, across, radius, true));
            assert(w - (w - k.at) == k.at);
            assert(eligible(m, w - k.at, along, across, radius, true));
        },
        (Some(h), Some(k)) => {
            let v1 = h.at as int;
            let v2 = w - k.at;
            assert(w - v2 == k.at);
            assert(eligible(n, k.at as int, al, across, radius, true));
            assert(eligible(m, v2, along, across, radius, true));
            assert(eligible(m, v1, along, across, radius, true));
            assert(eligible(n, w - v1, al, across, radius, true));
            assert(ranks_before(m, v1, v2, along, across, radius, true));
            assert(ranks_before(n, k.at as int, w - v1, al, across, radius, true));
            assert(abs_spec(v2 - along) == abs_spec(k.at - al));
            assert(abs_spec(v1 - along) == abs_spec((w - v1) - al));
        },
        (None, None) => {},
    }
}

} // verus!
