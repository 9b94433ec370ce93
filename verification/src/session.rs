//! The records of the versioned `session.json` schema, and the decisions
//! made over them: which coordinates a record carries, whether they are in
//! range, how a selection becomes a record and a record a selection
//! again.
//!
//! Coordinates are stored twice per selection: `px` (monitor-local
//! physical pixels, the authoritative space) and `global_px` (monitor
//! origin plus local).

use vstd::prelude::*;
use crate::geometry::{
    bbox_of, coord_ok, kind_of, shape_in_domain, shift, normalize_deg, translate_fits, translate_spec, Line, Point, Rect,
    Shape, ShapeView, Size, ToolKind, MAX_COORD,
};
use crate::selection::{Measure, Selection, SelectionView};
use crate::strings::{decimal, decimal_chars};
use crate::text::{append_chars, chars_of, lower, lowered, same_chars};
use crate::arith::fits_i32;

verus! {

pub const SCHEMA_VERSION: u32 = 1;

pub const APP_NAME: &'static str = "pixelcoords";

/// How the session's frames were obtained.
#[derive(Debug, Clone, Copy, PartialEq, Eq, Structural)]
pub enum CaptureKind {
    /// Whole monitors, no window attachment.
    Desktop,
    /// Attached to a window via `--target`.
    Window,
    /// One window chosen in the desktop portal's picker.
    Pick,
}

/// A measure's two endpoints, flat rather than nested.
#[derive(Debug, Clone, Copy, PartialEq, Eq, Structural)]
pub struct LineRecord {
    pub ax: i32,
    pub ay: i32,
    pub bx: i32,
    pub by: i32,
}

impl From<Line> for LineRecord {
    fn from(line: Line) -> (r: Self) {
        LineRecord { ax: line.a.x, ay: line.a.y, bx: line.b.x, by: line.b.y }
    }
}

impl vstd::std_specs::convert::FromSpecImpl<Line> for LineRecord {
    open spec fn obeys_from_spec() -> bool {
        true
    }

    open spec fn from_spec(line: Line) -> Self {
        LineRecord { ax: line.a.x, ay: line.a.y, bx: line.b.x, by: line.b.y }
    }
}

/// The `--target` window as it stood at the instant of the freeze.
#[derive(Debug, Clone, PartialEq, Eq)]
pub struct TargetRecord {
    pub app: String,
    pub title: String,
    pub monitor: usize,
    /// Window origin in that monitor's local physical pixels.
    pub origin_px: Point,
    pub size_px: Size,
}

#[derive(Debug, Clone, PartialEq, Eq)]
pub struct AppInfo {
    pub name: String,
    pub version: String,
}

/// How a saved monitor resolved against the displays attached now. Both
/// non-`Missing` variants carry an index into the candidates searched.
#[derive(Debug, Clone, Copy, PartialEq, Eq, Structural)]
pub enum MonitorMatch {
    /// Same display, same geometry.
    Found(usize),
    /// A display of that name is attached, but its size or scale moved.
    Changed(usize),
    /// Nothing attached carries that name.
    Missing,
}

#[derive(Debug, Clone, PartialEq, Eq)]
pub struct SelectionRecord {
    pub shape: ToolKind,
    pub label: String,
    pub monitor: usize,
    pub px: Shape,
    pub global_px: Shape,
    /// Rotation in degrees (`1..360`) about the bbox center of `px`; absent
    /// means unrotated. Never present for triangles, polygons or circles.
    pub rot_deg: Option<i32>,
    /// Coordinates relative to the target window's top-left, in target
    /// sessions, for selections on the target's monitor.
    pub window_px: Option<Shape>,
    /// File name of this selection's PNG crop, relative to the session dir.
    pub crop: String,
    /// The captured pixel at this selection's click point, as `#RRGGBB`.
    pub color: Option<String>,
}

/// The value of a [`SelectionRecord`].
pub struct SelectionRecordView {
    pub shape: ToolKind,
    pub label: Seq<char>,
    pub monitor: usize,
    pub px: ShapeView,
    pub global_px: ShapeView,
    pub rot_deg: Option<i32>,
    pub window_px: Option<ShapeView>,
    pub crop: Seq<char>,
    pub color: Option<Seq<char>>,
}

pub open spec fn shape_opt(s: Option<Shape>) -> Option<ShapeView> {
    match s {
        Some(x) => Some(x@),
        None => None,
    }
}

pub open spec fn text_opt(s: Option<String>) -> Option<Seq<char>> {
    match s {
        Some(x) => Some(x@),
        None => None,
    }
}

impl View for SelectionRecord {
    type V = SelectionRecordView;

    open spec fn view(&self) -> SelectionRecordView {
        SelectionRecordView {
            shape: self.shape,
            label: self.label@,
            monitor: self.monitor,
            px: self.px@,
            global_px: self.global_px@,
            rot_deg: self.rot_deg,
            window_px: shape_opt(self.window_px),
            crop: self.crop@,
            color: text_opt(self.color),
        }
    }
}

fn copy_shape_opt(s: &Option<Shape>) -> (r: Option<Shape>)
    ensures
        shape_opt(r) == shape_opt(*s),
{
    match s {
        Some(x) => Some(x.clone_shape()),
        None => None,
    }
}

fn copy_text_opt(s: &Option<String>) -> (r: Option<String>)
    ensures
        text_opt(r) == text_opt(*s),
{
    match s {
        Some(x) => Some(x.clone()),
        None => None,
    }
}

impl SelectionRecord {
    /// The same record with `color` in place of its color.
    pub fn with_color(&self, color: Option<String>) -> (r: Self)
        ensures
            r@ == (SelectionRecordView { color: text_opt(color), ..self@ }),
    {
        SelectionRecord {
            shape: self.shape,
            label: self.label.clone(),
            monitor: self.monitor,
            px: self.px.clone_shape(),
            global_px: self.global_px.clone_shape(),
            rot_deg: self.rot_deg,
            window_px: copy_shape_opt(&self.window_px),
            crop: self.crop.clone(),
            color,
        }
    }
}

/// A monitor as the session recorded it. `scale_bits` is the IEEE 754
/// bit pattern of the monitor's DPI scale factor, an `f64`.
#[derive(Debug, Clone, PartialEq, Eq)]
pub struct MonitorRecord {
    pub index: usize,
    pub name: String,
    pub primary: bool,
    pub origin_px: Point,
    pub size_px: Size,
    pub scale_bits: u64,
}

/// Whether an `f64` bit pattern is a positive finite number: the sign bit
/// clear, the exponent not all ones, and not zero.
pub open spec fn scale_ok(bits: u64) -> bool {
    0 < bits < 0x7FF0_0000_0000_0000
}

/// One measurement: its endpoints locally and on the global desktop
/// grid, and its extent. The length and angle a consumer reads are
/// derived from `px` when the session is written.
#[derive(Debug, Clone, PartialEq, Eq)]
pub struct MeasureRecord {
    pub label: String,
    pub monitor: usize,
    /// Endpoints in monitor-local physical pixels.
    pub px: LineRecord,
    /// The same endpoints on the global desktop grid.
    pub global_px: LineRecord,
    pub dx: i32,
    pub dy: i32,
}

/// A saved session: what was captured, where, and what was marked.
#[derive(Debug, Clone, PartialEq, Eq)]
pub struct SessionFile {
    pub schema: u32,
    pub app: AppInfo,
    pub created_utc: String,
    /// `macos`, `windows`, `linux-x11` or `linux-wayland`.
    pub platform: Option<String>,
    pub capture: Option<CaptureKind>,
    /// A human-friendly session name for pickers and listings.
    pub name: Option<String>,
    pub monitors: Vec<MonitorRecord>,
    pub target: Option<TargetRecord>,
    pub selections: Vec<SelectionRecord>,
    pub measures: Vec<MeasureRecord>,
}

/// The origin of the first recorded monitor whose index is `m`, or the
/// global origin when none is.
pub open spec fn origin_for(ms: Seq<MonitorRecord>, m: usize) -> Point
    decreases ms.len(),
{
    if ms.len() == 0 {
        Point { x: 0, y: 0 }
    } else if ms[0].index == m {
        ms[0].origin_px
    } else {
        origin_for(ms.drop_first(), m)
    }
}

fn origin_of(ms: &Vec<MonitorRecord>, m: usize) -> (p: Point)
    ensures
        p == origin_for(ms@, m),
{
    let mut i: usize = 0;
    assert(ms@.skip(0) =~= ms@);
    while i < ms.len()
        invariant
            i <= ms@.len(),
            origin_for(ms@, m) == origin_for(ms@.skip(i as int), m),
        decreases ms@.len() - i,
    {
        assert(ms@.skip(i as int).drop_first() =~= ms@.skip(i + 1));
        if ms[i].index == m {
            return ms[i].origin_px;
        }
        i = i + 1;
    }
    assert(ms@.skip(i as int).len() == 0);
    Point::new(0, 0)
}

/// Whether a record survives a resume: in a target session, a selection
/// on the target's monitor must carry window coordinates whose bbox lies
/// inside the window.
pub open spec fn restore_keeps(target: Option<TargetRecord>, r: SelectionRecordView) -> bool {
    match target {
        Some(t) => r.monitor != t.monitor || match r.window_px {
            Some(w) => {
                let b = bbox_of(w);
                b.x >= 0 && b.y >= 0 && b.x + b.w <= t.size_px.w && b.y + b.h <= t.size_px.h
            },
            None => false,
        },
        None => true,
    }
}

/// A record back as an editable selection.
pub open spec fn restored(r: SelectionRecordView) -> SelectionView {
    SelectionView {
        shape: r.px,
        label: r.label,
        monitor: r.monitor,
        rot_deg: match r.rot_deg {
            Some(d) => d,
            None => 0,
        },
    }
}

pub open spec fn kept_spec(target: Option<TargetRecord>, rs: Seq<SelectionRecordView>) -> Seq<SelectionView>
    decreases rs.len(),
{
    if rs.len() == 0 {
        Seq::empty()
    } else {
        let before = kept_spec(target, rs.drop_last());
        if restore_keeps(target, rs.last()) {
            before.push(restored(rs.last()))
        } else {
            before
        }
    }
}

pub open spec fn dropped_spec(target: Option<TargetRecord>, rs: Seq<SelectionRecordView>) -> Seq<Seq<char>>
    decreases rs.len(),
{
    if rs.len() == 0 {
        Seq::empty()
    } else {
        let before = dropped_spec(target, rs.drop_last());
        if restore_keeps(target, rs.last()) {
            before
        } else {
            before.push(rs.last().label)
        }
    }
}

pub open spec fn record_views(rs: Seq<SelectionRecord>) -> Seq<SelectionRecordView> {
    rs.map_values(|r: SelectionRecord| r@)
}

pub open spec fn selection_views(v: Seq<Selection>) -> Seq<SelectionView> {
    v.map_values(|s: Selection| s@)
}

pub open spec fn string_views(v: Seq<String>) -> Seq<Seq<char>> {
    v.map_values(|s: String| s@)
}

/// Whether window coordinates lie inside a window of size `size`.
fn inside_window(w: &Shape, size: Size) -> (b: bool)
    ensures
        b == ({
            let bb = bbox_of(w@);
            bb.x >= 0 && bb.y >= 0 && bb.x + bb.w <= size.w && bb.y + bb.h <= size.h
        }),
{
    let bb = w.bbox();
    bb.x >= 0 && bb.y >= 0 && bb.x as i64 + bb.w as i64 <= size.w as i64 && bb.y as i64
        + bb.h as i64 <= size.h as i64
}

/// Rebuild editable selections from a saved session, the inverse of
/// [`SessionFile::build`]: shapes come back in monitor-local px, rects and
/// ellipses reclaim their `rot_deg`. In a target session, selections on
/// the target's monitor whose window coordinates are missing or fall
/// outside the window are dropped, and their labels returned.
pub fn restore_selections(file: &SessionFile) -> (r: (Vec<Selection>, Vec<String>))
    ensures
        selection_views(r.0@) == kept_spec(file.target, record_views(file.selections@)),
        string_views(r.1@) == dropped_spec(file.target, record_views(file.selections@)),
{
    let ghost rs = record_views(file.selections@);
    let mut kept: Vec<Selection> = Vec::new();
    let mut dropped: Vec<String> = Vec::new();
    let mut i: usize = 0;
    while i < file.selections.len()
        invariant
            i <= file.selections@.len(),
            rs == record_views(file.selections@),
            selection_views(kept@) == kept_spec(file.target, rs.take(i as int)),
            string_views(dropped@) == dropped_spec(file.target, rs.take(i as int)),
        decreases file.selections@.len() - i,
    {
        let record = &file.selections[i];
        proof {
            assert(rs.take(i + 1).drop_last() =~= rs.take(i as int));
            assert(rs.take(i + 1).last() == record@);
        }
        let keep = match &file.target {
            Some(t) => record.monitor != t.monitor || match &record.window_px {
                Some(w) => inside_window(w, t.size_px),
                None => false,
            },
            None => true,
        };
        if keep {
            let sel = Selection {
                shape: record.px.clone_shape(),
                label: record.label.clone(),
                monitor: record.monitor,
                rot_deg: match record.rot_deg {
                    Some(d) => d,
                    None => 0,
                },
            };
            kept.push(sel);
            proof {
                assert(selection_views(kept@) =~= kept_spec(file.target, rs.take(i as int)).push(
                    restored(record@),
                ));
            }
        } else {
            dropped.push(record.label.clone());
            proof {
                assert(string_views(dropped@) =~= dropped_spec(file.target, rs.take(i as int)).push(
                    record@.label,
                ));
            }
        }
        i = i + 1;
    }
    proof {
        assert(rs.take(i as int) =~= rs);
    }
    (kept, dropped)
}

/// A measure record back as an editable ruler.
pub open spec fn measure_of(r: MeasureRecord) -> (Line, Seq<char>, usize) {
    (
        Line { a: Point { x: r.px.ax, y: r.px.ay }, b: Point { x: r.px.bx, y: r.px.by } },
        r.label@,
        r.monitor,
    )
}

/// The measures a saved session carries, back as editable rulers. Nothing
/// is dropped, and the derived values are left to be recomputed from the
/// endpoints.
pub fn restore_measures(file: &SessionFile) -> (v: Vec<Measure>)
    ensures
        v@.len() == file.measures@.len(),
        forall|i: int|
            0 <= i < v@.len() ==> (#[trigger] v@[i].line, v@[i].label@, v@[i].monitor) == measure_of(
                file.measures@[i],
            ),
{
    let mut v: Vec<Measure> = Vec::new();
    let mut i: usize = 0;
    while i < file.measures.len()
        invariant
            i <= file.measures@.len(),
            v@.len() == i,
            forall|j: int|
                0 <= j < i ==> (#[trigger] v@[j].line, v@[j].label@, v@[j].monitor) == measure_of(
                    file.measures@[j],
                ),
        decreases file.measures@.len() - i,
    {
        let r = &file.measures[i];
        v.push(
            Measure {
                line: Line::new(Point::new(r.px.ax, r.px.ay), Point::new(r.px.bx, r.px.by)),
                label: r.label.clone(),
                monitor: r.monitor,
            },
        );
        i = i + 1;
    }
    v
}

impl SessionFile {
    /// Stamp provenance onto a built session.
    pub fn with_meta(
        self,
        platform: Option<String>,
        capture: Option<CaptureKind>,
        name: Option<String>,
    ) -> (r: Self)
        ensures
            r == (SessionFile { platform, capture, name, ..self }),
    {
        SessionFile { platform, capture, name, ..self }
    }

    /// Attach the sampled click-point color to each selection, in order; a
    /// shorter slice leaves the rest without a color.
    pub fn with_colors(self, colors: &[Option<String>]) -> (r: Self)
        ensures
            r.selections@.len() == self.selections@.len(),
            forall|i: int|
                0 <= i < r.selections@.len() ==> #[trigger] r.selections@[i]@ == (
                SelectionRecordView {
                    color: if i < colors@.len() {
                        text_opt(colors@[i])
                    } else {
                        self.selections@[i]@.color
                    },
                    ..self.selections@[i]@
                }),
            r.monitors == self.monitors,
            r.measures == self.measures,
            r.target == self.target,
            r.schema == self.schema && r.app == self.app && r.created_utc == self.created_utc,
            r.platform == self.platform && r.capture == self.capture && r.name == self.name,
    {
        let mut this = self;
        let ghost orig = this.selections@;
        let mut i: usize = 0;
        while i < this.selections.len() && i < colors.len()
            invariant
                i <= this.selections@.len(),
                i <= colors@.len(),
                this.selections@.len() == orig.len(),
                this.monitors == self.monitors,
                this.measures == self.measures,
                this.target == self.target,
                this.schema == self.schema && this.app == self.app && this.created_utc
                    == self.created_utc,
                this.platform == self.platform && this.capture == self.capture && this.name
                    == self.name,
                forall|j: int|
                    0 <= j < orig.len() ==> #[trigger] this.selections@[j]@ == (
                    SelectionRecordView {
                        color: if j < i {
                            text_opt(colors@[j])
                        } else {
                            orig[j]@.color
                        },
                        ..orig[j]@
                    }),
            decreases this.selections@.len() - i,
        {
            let updated = this.selections[i].with_color(copy_text_opt(&colors[i]));
            this.selections.set(i, updated);
            i = i + 1;
        }
        proof {
            assert(orig == self.selections@);
            assert forall|j: int| 0 <= j < orig.len() implies #[trigger] this.selections@[j]@ == (
                SelectionRecordView {
                    color: if j < colors@.len() {
                        text_opt(colors@[j])
                    } else {
                        orig[j]@.color
                    },
                    ..orig[j]@
                }) by {
                assert(j < i <==> j < colors@.len());
            }
        }
        this
    }
}

/// An in-domain shape can move by any in-domain offset.
pub proof fn lemma_domain_translates(s: ShapeView, dx: int, dy: int)
    requires
        shape_in_domain(s),
        coord_ok(dx) && coord_ok(dy),
    ensures
        translate_fits(s, dx, dy),
{
    match s {
        ShapeView::Poly(pts) => {
            assert forall|i: int| 0 <= i < pts.len() implies #[trigger] fits_i32(pts[i].x + dx)
                && fits_i32(pts[i].y + dy) by {
                assert(pts[i].in_domain());
            }
        },
        _ => {},
    }
}

/// The rotation a rect or ellipse keeps as metadata: its angle in
/// `1..360`, absent when that is 0. Other kinds carry none.
pub open spec fn kept_rotation(shape: ShapeView, deg: i32) -> Option<i32> {
    if (shape is Rect || shape is Ellipse) && (deg as int) % 360 != 0 {
        Some(((deg as int) % 360) as i32)
    } else {
        None
    }
}

/// The record a selection becomes: its shape locally and moved by its
/// monitor's origin, the rotation kept as metadata where it is one, and
/// window-relative coordinates when the selection shares the target's
/// monitor.
pub open spec fn record_of(
    s: SelectionView,
    origin: Point,
    target: Option<TargetRecord>,
    crop: Seq<char>,
) -> SelectionRecordView {
    SelectionRecordView {
        shape: kind_of(s.shape),
        label: s.label,
        monitor: s.monitor,
        px: s.shape,
        global_px: translate_spec(s.shape, origin.x as int, origin.y as int),
        rot_deg: kept_rotation(s.shape, s.rot_deg),
        window_px: match target {
            Some(t) => if t.monitor == s.monitor {
                Some(translate_spec(s.shape, -t.origin_px.x, -t.origin_px.y))
            } else {
                None
            },
            None => None,
        },
        crop,
        color: None,
    }
}

pub open spec fn origins_ok(ms: Seq<MonitorRecord>) -> bool {
    forall|i: int| 0 <= i < ms.len() ==> (#[trigger] ms[i]).origin_px.in_domain()
}

proof fn lemma_origin_in_domain(ms: Seq<MonitorRecord>, m: usize)
    requires
        origins_ok(ms),
    ensures
        origin_for(ms, m).in_domain(),
    decreases ms.len(),
{
    if ms.len() > 0 {
        assert(ms[0].origin_px.in_domain());
        if ms[0].index != m {
            assert forall|i: int| 0 <= i < ms.drop_first().len() implies (#[trigger] ms.drop_first()[i]).origin_px.in_domain() by {
                assert(ms.drop_first()[i] == ms[i + 1]);
            }
            lemma_origin_in_domain(ms.drop_first(), m);
        }
    }
}

/// One selection as a record.
fn record_for(
    sel: &Selection,
    monitors: &Vec<MonitorRecord>,
    target: &Option<TargetRecord>,
    crop: &String,
) -> (r: SelectionRecord)
    requires
        sel.shape.in_domain(),
        origins_ok(monitors@),
        target matches Some(t) ==> t.origin_px.in_domain(),
    ensures
        r@ == record_of(sel@, origin_for(monitors@, sel.monitor), *target, crop@),
{
    let origin = origin_of(monitors, sel.monitor);
    proof {
        lemma_origin_in_domain(monitors@, sel.monitor);
        lemma_domain_translates(sel.shape@, origin.x as int, origin.y as int);
    }
    let rot_deg = match &sel.shape {
        Shape::Rect(_) | Shape::Ellipse { .. } => {
            let d = normalize_deg(sel.rot_deg);
            if d != 0 {
                Some(d)
            } else {
                None
            }
        },
        _ => None,
    };
    let window_px = match target {
        Some(t) => if t.monitor == sel.monitor {
            proof {
                lemma_domain_translates(sel.shape@, -t.origin_px.x, -t.origin_px.y);
            }
            Some(sel.shape.translated(-t.origin_px.x, -t.origin_px.y))
        } else {
            None
        },
        None => None,
    };
    SelectionRecord {
        shape: sel.shape.kind(),
        label: sel.label.clone(),
        monitor: sel.monitor,
        px: sel.shape.clone_shape(),
        global_px: sel.shape.translated(origin.x, origin.y),
        rot_deg,
        window_px,
        crop: crop.clone(),
        color: None,
    }
}

/// A measure as a record: endpoints locally and through its monitor's
/// origin, and its signed extent.
pub open spec fn measure_record_ok(r: MeasureRecord, m: Measure, origin: Point) -> bool {
    &&& r.label@ == m.label@
    &&& r.monitor == m.monitor
    &&& r.px == LineRecord { ax: m.line.a.x, ay: m.line.a.y, bx: m.line.b.x, by: m.line.b.y }
    &&& r.global_px == LineRecord {
        ax: (m.line.a.x + origin.x) as i32,
        ay: (m.line.a.y + origin.y) as i32,
        bx: (m.line.b.x + origin.x) as i32,
        by: (m.line.b.y + origin.y) as i32,
    }
    &&& r.dx == m.line.b.x - m.line.a.x
    &&& r.dy == m.line.b.y - m.line.a.y
}

impl SessionFile {
    /// Assemble a session. `created_utc` comes from the caller, and
    /// `crops` pairs one to one with `selections`, whose triangles and
    /// polygons carry their rotation already baked into their vertices.
    pub fn build(
        app_version: &str,
        created_utc: String,
        monitors: Vec<MonitorRecord>,
        selections: &[Selection],
        crops: &[String],
        target: Option<TargetRecord>,
    ) -> (r: Self)
        requires
            selections@.len() == crops@.len(),
            forall|i: int| 0 <= i < selections@.len() ==> (#[trigger] selections@[i]).shape.in_domain(),
            origins_ok(monitors@),
            target matches Some(t) ==> t.origin_px.in_domain(),
        ensures
            r.schema == SCHEMA_VERSION,
            r.app.name@ == APP_NAME@,
            r.app.version@ == app_version@,
            r.created_utc == created_utc,
            r.platform is None && r.capture is None && r.name is None,
            r.monitors == monitors,
            r.target == target,
            r.selections@.len() == selections@.len(),
            forall|i: int|
                0 <= i < selections@.len() ==> #[trigger] r.selections@[i]@ == record_of(
                    selections@[i]@,
                    origin_for(monitors@, selections@[i].monitor),
                    target,
                    crops@[i]@,
                ),
            r.measures@.len() == 0,
    {
        let mut records: Vec<SelectionRecord> = Vec::new();
        let mut i: usize = 0;
        while i < selections.len()
            invariant
                i <= selections@.len(),
                selections@.len() == crops@.len(),
                forall|j: int| 0 <= j < selections@.len() ==> (#[trigger] selections@[j]).shape.in_domain(),
                origins_ok(monitors@),
                target matches Some(t) ==> t.origin_px.in_domain(),
                records@.len() == i,
                forall|j: int|
                    0 <= j < i ==> #[trigger] records@[j]@ == record_of(
                        selections@[j]@,
                        origin_for(monitors@, selections@[j].monitor),
                        target,
                        crops@[j]@,
                    ),
            decreases selections@.len() - i,
        {
            let rec = record_for(&selections[i], &monitors, &target, &crops[i]);
            records.push(rec);
            i = i + 1;
        }
        SessionFile {
            schema: SCHEMA_VERSION,
            app: AppInfo { name: APP_NAME.to_owned(), version: app_version.to_owned() },
            created_utc,
            platform: None,
            capture: None,
            name: None,
            monitors,
            target,
            selections: records,
            measures: Vec::new(),
        }
    }

    /// Attach the session's measurements, each carried to global
    /// coordinates through its own monitor's origin.
    pub fn with_measures(self, measures: &[Measure]) -> (r: Self)
        requires
            origins_ok(self.monitors@),
            forall|i: int| 0 <= i < measures@.len() ==> (#[trigger] measures@[i]).line.in_domain(),
        ensures
            r.measures@.len() == measures@.len(),
            forall|i: int|
                0 <= i < measures@.len() ==> measure_record_ok(
                    #[trigger] r.measures@[i],
                    measures@[i],
                    origin_for(self.monitors@, measures@[i].monitor),
                ),
            r == (SessionFile { measures: r.measures, ..self }),
    {
        let mut this = self;
        let mut records: Vec<MeasureRecord> = Vec::new();
        let mut i: usize = 0;
        while i < measures.len()
            invariant
                i <= measures@.len(),
                this == self,
                origins_ok(self.monitors@),
                forall|j: int| 0 <= j < measures@.len() ==> (#[trigger] measures@[j]).line.in_domain(),
                records@.len() == i,
                forall|j: int|
                    0 <= j < i ==> measure_record_ok(
                        #[trigger] records@[j],
                        measures@[j],
                        origin_for(self.monitors@, measures@[j].monitor),
                    ),
            decreases measures@.len() - i,
        {
            let m = &measures[i];
            let origin = origin_of(&this.monitors, m.monitor);
            proof {
                lemma_origin_in_domain(self.monitors@, m.monitor);
                assert(m.line.in_domain());
            }
            let (dx, dy) = m.line.delta();
            let moved = m.line.translated(origin.x, origin.y);
            records.push(
                MeasureRecord {
                    label: m.label.clone(),
                    monitor: m.monitor,
                    px: LineRecord { ax: m.line.a.x, ay: m.line.a.y, bx: m.line.b.x, by: m.line.b.y },
                    global_px: LineRecord { ax: moved.a.x, ay: moved.a.y, bx: moved.b.x, by: moved.b.y },
                    dx,
                    dy,
                },
            );
            i = i + 1;
        }
        this.measures = records;
        this
    }
}

pub open spec fn points_flat(pts: Seq<Point>) -> Seq<i32>
    decreases pts.len(),
{
    if pts.len() == 0 {
        Seq::empty()
    } else {
        points_flat(pts.drop_last()).push(pts.last().x).push(pts.last().y)
    }
}

/// Every raw coordinate a shape carries, field by field.
pub open spec fn raw_values_spec(s: ShapeView) -> Seq<i32> {
    match s {
        ShapeView::Rect(r) => seq![r.x, r.y, r.w, r.h],
        ShapeView::Circle { cx, cy, r } => seq![cx, cy, r],
        ShapeView::Ellipse { cx, cy, rx, ry } => seq![cx, cy, rx, ry],
        ShapeView::Triangle { ax, ay, bx, by, cx, cy } => seq![ax, ay, bx, by, cx, cy],
        ShapeView::Poly(pts) => points_flat(pts),
    }
}

/// Every raw coordinate a shape carries. Deliberately arithmetic-free: it
/// is what the range check reads, and computing anything from an
/// out-of-range shape is what that check exists to prevent.
pub fn raw_values(shape: &Shape) -> (v: Vec<i32>)
    ensures
        v@ == raw_values_spec(shape@),
{
    match shape {
        Shape::Rect(r) => vec![r.x, r.y, r.w, r.h],
        Shape::Circle { cx, cy, r } => vec![*cx, *cy, *r],
        Shape::Ellipse { cx, cy, rx, ry } => vec![*cx, *cy, *rx, *ry],
        Shape::Triangle { ax, ay, bx, by, cx, cy } => vec![*ax, *ay, *bx, *by, *cx, *cy],
        Shape::Poly { points } => {
            let mut v: Vec<i32> = Vec::new();
            let mut i: usize = 0;
            while i < points.len()
                invariant
                    i <= points@.len(),
                    v@ == points_flat(points@.take(i as int)),
                decreases points@.len() - i,
            {
                proof {
                    assert(points@.take(i + 1).drop_last() =~= points@.take(i as int));
                }
                v.push(points[i].x);
                v.push(points[i].y);
                i = i + 1;
            }
            assert(points@.take(i as int) =~= points@);
            v
        },
    }
}

/// Why a session file is not usable, even though it parsed.
#[derive(Debug, PartialEq, Eq)]
pub enum SessionError {
    /// A monitor's scale is not a positive finite number.
    Scale { index: usize, name: String, scale_bits: u64 },
    /// A monitor with no area.
    MonitorSize { index: usize, name: String, w: i32, h: i32 },
    /// A target window with no area.
    TargetSize { w: i32, h: i32 },
    /// A coordinate beyond the `MAX_COORD` a session may describe, and
    /// what carried it.
    Coordinate { what: String, value: i32 },
}

pub enum SessionErrorView {
    Scale { index: usize, name: Seq<char>, scale_bits: u64 },
    MonitorSize { index: usize, name: Seq<char>, w: i32, h: i32 },
    TargetSize { w: i32, h: i32 },
    Coordinate { what: Seq<char>, value: i32 },
}

impl View for SessionError {
    type V = SessionErrorView;

    open spec fn view(&self) -> SessionErrorView {
        match self {
            SessionError::Scale { index, name, scale_bits } => SessionErrorView::Scale {
                index: *index,
                name: name@,
                scale_bits: *scale_bits,
            },
            SessionError::MonitorSize { index, name, w, h } => SessionErrorView::MonitorSize {
                index: *index,
                name: name@,
                w: *w,
                h: *h,
            },
            SessionError::TargetSize { w, h } => SessionErrorView::TargetSize { w: *w, h: *h },
            SessionError::Coordinate { what, value } => SessionErrorView::Coordinate {
                what: what@,
                value: *value,
            },
        }
    }
}

/// The first value beyond `MAX_COORD` either way, if any.
pub open spec fn first_out_of_range(vs: Seq<i32>) -> Option<i32>
    decreases vs.len(),
{
    if vs.len() == 0 {
        None
    } else if !coord_ok(vs[0] as int) {
        Some(vs[0])
    } else {
        first_out_of_range(vs.drop_first())
    }
}

/// The error for the first of `vs` beyond the range, naming `what`.
pub open spec fn coord_error(vs: Seq<i32>, what: Seq<char>) -> Option<SessionErrorView> {
    match first_out_of_range(vs) {
        Some(v) => Some(SessionErrorView::Coordinate { what, value: v }),
        None => None,
    }
}

/// Refuse the first value beyond `MAX_COORD` either way, naming `what`
/// carried it.
pub fn in_range(values: &[i32], what: &str) -> (r: Result<(), SessionError>)
    ensures
        match r {
            Ok(()) => coord_error(values@, what@) is None,
            Err(e) => coord_error(values@, what@) == Some(e@),
        },
{
    let mut i: usize = 0;
    assert(values@.skip(0) =~= values@);
    while i < values.len()
        invariant
            i <= values@.len(),
            first_out_of_range(values@) == first_out_of_range(values@.skip(i as int)),
        decreases values@.len() - i,
    {
        let value = values[i];
        proof {
            assert(values@.skip(i as int)[0] == value);
            assert(values@.skip(i as int).drop_first() =~= values@.skip(i + 1));
        }
        if value < -MAX_COORD || value > MAX_COORD {
            return Err(SessionError::Coordinate { what: what.to_owned(), value });
        }
        i = i + 1;
    }
    assert(values@.skip(i as int) =~= Seq::<i32>::empty());
    Ok(())
}

/// The first error of two, in order.
pub open spec fn either(a: Option<SessionErrorView>, b: Option<SessionErrorView>) -> Option<SessionErrorView> {
    match a {
        Some(e) => Some(e),
        None => b,
    }
}

pub open spec fn monitor_error(m: MonitorRecord) -> Option<SessionErrorView> {
    if !scale_ok(m.scale_bits) {
        Some(SessionErrorView::Scale { index: m.index, name: m.name@, scale_bits: m.scale_bits })
    } else if m.size_px.w <= 0 || m.size_px.h <= 0 {
        Some(
            SessionErrorView::MonitorSize {
                index: m.index,
                name: m.name@,
                w: m.size_px.w,
                h: m.size_px.h,
            },
        )
    } else {
        coord_error(
            seq![m.origin_px.x, m.origin_px.y, m.size_px.w, m.size_px.h],
            "monitor "@ + decimal(m.index as nat),
        )
    }
}

pub open spec fn monitors_error(ms: Seq<MonitorRecord>) -> Option<SessionErrorView>
    decreases ms.len(),
{
    if ms.len() == 0 {
        None
    } else {
        either(monitor_error(ms[0]), monitors_error(ms.drop_first()))
    }
}

pub open spec fn target_error(t: Option<TargetRecord>) -> Option<SessionErrorView> {
    match t {
        Some(t) => if t.size_px.w <= 0 || t.size_px.h <= 0 {
            Some(SessionErrorView::TargetSize { w: t.size_px.w, h: t.size_px.h })
        } else {
            coord_error(
                seq![t.origin_px.x, t.origin_px.y, t.size_px.w, t.size_px.h],
                "the target window"@,
            )
        },
        None => None,
    }
}

pub open spec fn selection_error(i: nat, r: SelectionRecordView) -> Option<SessionErrorView> {
    let what = "selection "@ + decimal(i);
    either(
        coord_error(raw_values_spec(r.px), what),
        either(
            coord_error(raw_values_spec(r.global_px), what),
            match r.window_px {
                Some(w) => coord_error(raw_values_spec(w), what),
                None => None,
            },
        ),
    )
}

pub open spec fn selections_error(rs: Seq<SelectionRecordView>, i: int) -> Option<SessionErrorView>
    decreases rs.len() - i,
{
    if i < 0 || i >= rs.len() {
        None
    } else {
        either(selection_error(i as nat, rs[i]), selections_error(rs, i + 1))
    }
}

pub open spec fn measure_error(i: nat, r: MeasureRecord) -> Option<SessionErrorView> {
    let what = "measure "@ + decimal(i);
    either(
        coord_error(seq![r.px.ax, r.px.ay, r.px.bx, r.px.by], what),
        coord_error(seq![r.global_px.ax, r.global_px.ay, r.global_px.bx, r.global_px.by], what),
    )
}

pub open spec fn measures_error(rs: Seq<MeasureRecord>, i: int) -> Option<SessionErrorView>
    decreases rs.len() - i,
{
    if i < 0 || i >= rs.len() {
        None
    } else {
        either(measure_error(i as nat, rs[i]), measures_error(rs, i + 1))
    }
}

/// What `validate` finds: the first problem among the monitors, then the
/// target window, then the selections and measures in order.
pub open spec fn validate_spec(f: SessionFile) -> Option<SessionErrorView> {
    either(
        monitors_error(f.monitors@),
        either(
            target_error(f.target),
            either(
                selections_error(record_views(f.selections@), 0),
                measures_error(f.measures@, 0),
            ),
        ),
    )
}

/// `prefix` followed by the decimal spelling of `n`.
fn numbered(prefix: &str, n: usize) -> (r: String)
    ensures
        r@ == prefix@ + decimal(n as nat),
{
    let mut r = prefix.to_owned();
    let digits = decimal_chars(n);
    append_chars(&mut r, &digits);
    r
}

fn check_monitor(m: &MonitorRecord) -> (r: Result<(), SessionError>)
    ensures
        match r {
            Ok(()) => monitor_error(*m) is None,
            Err(e) => monitor_error(*m) == Some(e@),
        },
{
    if !(0 < m.scale_bits && m.scale_bits < 0x7FF0_0000_0000_0000u64) {
        return Err(
            SessionError::Scale { index: m.index, name: m.name.clone(), scale_bits: m.scale_bits },
        );
    }
    if m.size_px.w <= 0 || m.size_px.h <= 0 {
        return Err(
            SessionError::MonitorSize {
                index: m.index,
                name: m.name.clone(),
                w: m.size_px.w,
                h: m.size_px.h,
            },
        );
    }
    let what = numbered("monitor ", m.index);
    let vs = [m.origin_px.x, m.origin_px.y, m.size_px.w, m.size_px.h];
    proof {
        assert(vs@ =~= seq![m.origin_px.x, m.origin_px.y, m.size_px.w, m.size_px.h]);
    }
    in_range(&vs, what.as_str())
}

fn check_selection(i: usize, r: &SelectionRecord) -> (res: Result<(), SessionError>)
    ensures
        match res {
            Ok(()) => selection_error(i as nat, r@) is None,
            Err(e) => selection_error(i as nat, r@) == Some(e@),
        },
{
    let what = numbered("selection ", i);
    let px = raw_values(&r.px);
    in_range(px.as_slice(), what.as_str())?;
    let global = raw_values(&r.global_px);
    in_range(global.as_slice(), what.as_str())?;
    match &r.window_px {
        Some(w) => {
            let window = raw_values(w);
            in_range(window.as_slice(), what.as_str())
        },
        None => Ok(()),
    }
}

fn check_measure(i: usize, r: &MeasureRecord) -> (res: Result<(), SessionError>)
    ensures
        match res {
            Ok(()) => measure_error(i as nat, *r) is None,
            Err(e) => measure_error(i as nat, *r) == Some(e@),
        },
{
    let what = numbered("measure ", i);
    let local = [r.px.ax, r.px.ay, r.px.bx, r.px.by];
    let global = [r.global_px.ax, r.global_px.ay, r.global_px.bx, r.global_px.by];
    proof {
        assert(local@ =~= seq![r.px.ax, r.px.ay, r.px.bx, r.px.by]);
        assert(global@ =~= seq![r.global_px.ax, r.global_px.ay, r.global_px.bx, r.global_px.by]);
    }
    in_range(&local, what.as_str())?;
    in_range(&global, what.as_str())
}

impl SessionFile {
    /// Check that a parsed session describes something a coordinate can
    /// mean: every monitor has a positive finite scale and an area, the
    /// target window an area, and no coordinate lies beyond `MAX_COORD`.
    pub fn validate(&self) -> (r: Result<(), SessionError>)
        ensures
            match r {
                Ok(()) => validate_spec(*self) is None,
                Err(e) => validate_spec(*self) == Some(e@),
            },
    {
        let mut i: usize = 0;
        assert(self.monitors@.skip(0) =~= self.monitors@);
        while i < self.monitors.len()
            invariant
                i <= self.monitors@.len(),
                monitors_error(self.monitors@) == monitors_error(self.monitors@.skip(i as int)),
            decreases self.monitors@.len() - i,
        {
            proof {
                assert(self.monitors@.skip(i as int)[0] == self.monitors@[i as int]);
                assert(self.monitors@.skip(i as int).drop_first() =~= self.monitors@.skip(i + 1));
            }
            check_monitor(&self.monitors[i])?;
            i = i + 1;
        }
        proof {
            assert(self.monitors@.skip(i as int).len() == 0);
        }
        match &self.target {
            Some(t) => {
                if t.size_px.w <= 0 || t.size_px.h <= 0 {
                    return Err(SessionError::TargetSize { w: t.size_px.w, h: t.size_px.h });
                }
                let vs = [t.origin_px.x, t.origin_px.y, t.size_px.w, t.size_px.h];
                proof {
                    assert(vs@ =~= seq![t.origin_px.x, t.origin_px.y, t.size_px.w, t.size_px.h]);
                }
                in_range(&vs, "the target window")?;
            },
            None => {},
        }
        let ghost rs = record_views(self.selections@);
        let mut j: usize = 0;
        while j < self.selections.len()
            invariant
                j <= self.selections@.len(),
                rs == record_views(self.selections@),
                monitors_error(self.monitors@) is None,
                target_error(self.target) is None,
                selections_error(rs, 0) == selections_error(rs, j as int),
            decreases self.selections@.len() - j,
        {
            proof {
                assert(rs[j as int] == self.selections@[j as int]@);
            }
            check_selection(j, &self.selections[j])?;
            j = j + 1;
        }
        let mut k: usize = 0;
        while k < self.measures.len()
            invariant
                k <= self.measures@.len(),
                monitors_error(self.monitors@) is None,
                target_error(self.target) is None,
                selections_error(record_views(self.selections@), 0) is None,
                measures_error(self.measures@, 0) == measures_error(self.measures@, k as int),
            decreases self.measures@.len() - k,
        {
            check_measure(k, &self.measures[k])?;
            k = k + 1;
        }
        Ok(())
    }
}

/// `a` and `b` are equal ignoring ASCII case.
pub open spec fn same_ignoring_case(a: Seq<char>, b: Seq<char>) -> bool {
    lower(a) == lower(b)
}

/// The labels of the first `k` records, in order, dropping empty ones and
/// any that repeat an earlier kept label ignoring ASCII case.
pub open spec fn distinct_spec(labels: Seq<Seq<char>>, k: int) -> Seq<Seq<char>>
    decreases k,
{
    if k <= 0 {
        Seq::empty()
    } else {
        let kept = distinct_spec(labels, k - 1);
        let l = labels[k - 1];
        if l.len() == 0 || exists|j: int| 0 <= j < kept.len() && same_ignoring_case(#[trigger] kept[j], l) {
            kept
        } else {
            kept.push(l)
        }
    }
}

pub open spec fn record_labels(records: Seq<SelectionRecord>) -> Seq<Seq<char>> {
    records.map_values(|r: SelectionRecord| r.label@)
}

/// `names` in order, deduplicated ASCII case-insensitively, empty ones
/// dropped.
pub fn distinct_strings(names: &[String]) -> (v: Vec<String>)
    ensures
        v@.map_values(|s: String| s@) == distinct_spec(names@.map_values(|s: String| s@), names@.len() as int),
{
    let ghost labels = names@.map_values(|s: String| s@);
    let mut out: Vec<String> = Vec::new();
    let mut lowers: Vec<Vec<char>> = Vec::new();
    let mut i: usize = 0;
    while i < names.len()
        invariant
            i <= names@.len(),
            labels == names@.map_values(|s: String| s@),
            out@.len() == lowers@.len(),
            out@.map_values(|s: String| s@) == distinct_spec(labels, i as int),
            forall|j: int| 0 <= j < lowers@.len() ==> #[trigger] lowers@[j]@ == lower(out@[j]@),
        decreases names@.len() - i,
    {
        let label = &names[i];
        let l = lowered(&chars_of(label.as_str()));
        let ghost kept = distinct_spec(labels, i as int);
        proof {
            assert(labels[i as int] == label@);
            assert forall|k: int| 0 <= k < kept.len() implies kept[k] == out@[k]@ by {
                assert(out@.map_values(|s: String| s@)[k] == out@[k]@);
            }
        }
        let mut seen = false;
        let mut j: usize = 0;
        while j < lowers.len()
            invariant
                j <= lowers@.len(),
                out@.len() == lowers@.len(),
                kept.len() == out@.len(),
                forall|k: int| 0 <= k < kept.len() ==> kept[k] == out@[k]@,
                l@ == lower(label@),
                forall|k: int| 0 <= k < lowers@.len() ==> #[trigger] lowers@[k]@ == lower(out@[k]@),
                seen == exists|k: int| 0 <= k < j && same_ignoring_case(#[trigger] kept[k], label@),
            decreases lowers@.len() - j,
        {
            if same_chars(&lowers[j], &l) {
                seen = true;
            }
            proof {
                assert(lowers@[j as int]@ == lower(kept[j as int]));
            }
            j = j + 1;
        }
        if l.len() != 0 && !seen {
            let ghost before = out@;
            out.push(label.clone());
            lowers.push(l);
            proof {
                assert(out@.map_values(|s: String| s@) =~= kept.push(label@));
            }
        }
        i = i + 1;
    }
    out
}

/// The labels a `--label` could have matched, in order, deduplicated
/// ASCII case-insensitively; unlabeled selections contribute nothing.
pub fn distinct_labels(records: &[SelectionRecord]) -> (v: Vec<String>)
    ensures
        v@.map_values(|s: String| s@) == distinct_spec(record_labels(records@), records@.len() as int),
{
    let mut names: Vec<String> = Vec::new();
    let mut i: usize = 0;
    while i < records.len()
        invariant
            i <= records@.len(),
            names@.len() == i,
            forall|j: int| 0 <= j < i ==> #[trigger] names@[j]@ == records@[j].label@,
        decreases records@.len() - i,
    {
        names.push(records[i].label.clone());
        i = i + 1;
    }
    proof {
        assert(names@.map_values(|s: String| s@) =~= record_labels(records@));
    }
    distinct_strings(&names)
}

/// Whether a record's label is what `--label` asked for: anything when
/// nothing was asked, else equal ignoring ASCII case.
pub open spec fn label_matches(want: Option<Seq<char>>, label: Seq<char>) -> bool {
    match want {
        Some(w) => same_ignoring_case(label, w),
        None => true,
    }
}

/// The indices, in order, of the first `k` records whose label matches.
pub open spec fn selected_spec(rs: Seq<SelectionRecord>, want: Option<Seq<char>>, k: int) -> Seq<int>
    decreases k,
{
    if k <= 0 {
        Seq::empty()
    } else {
        let before = selected_spec(rs, want, k - 1);
        if label_matches(want, rs[k - 1].label@) {
            before.push(k - 1)
        } else {
            before
        }
    }
}

pub open spec fn str_opt(s: Option<&str>) -> Option<Seq<char>> {
    match s {
        Some(x) => Some(x@),
        None => None,
    }
}

/// Whether `v` pairs each index of `sel`, in order, with its record.
pub open spec fn picked_ok(v: Seq<(usize, &SelectionRecord)>, rs: Seq<SelectionRecord>, sel: Seq<int>) -> bool {
    &&& v.len() == sel.len()
    &&& forall|j: int| 0 <= j < v.len() ==> #[trigger] v[j].0 == sel[j]
    &&& forall|j: int| 0 <= j < v.len() ==> #[trigger] v[j].0 < rs.len()
    &&& forall|j: int| 0 <= j < v.len() ==> *(#[trigger] v[j].1) == rs[v[j].0 as int]
}

/// The selections a `--label` restricts to, each with its index in the
/// session; `None` selects everything. Matching ignores ASCII case.
pub fn select_by_label<'a>(session: &'a SessionFile, label: Option<&str>) -> (v: Vec<(usize, &'a SelectionRecord)>)
    ensures
        picked_ok(v@, session.selections@, selected_spec(session.selections@, str_opt(label), session.selections@.len() as int)),
{
    let want: Option<Vec<char>> = match label {
        Some(l) => Some(lowered(&chars_of(l))),
        None => None,
    };
    let ghost wv = str_opt(label);
    let ghost rs = session.selections@;
    let mut v: Vec<(usize, &'a SelectionRecord)> = Vec::new();
    let mut i: usize = 0;
    while i < session.selections.len()
        invariant
            i <= rs.len(),
            rs == session.selections@,
            wv == str_opt(label),
            match want {
                Some(w) => wv matches Some(x) && w@ == lower(x),
                None => wv is None,
            },
            picked_ok(v@, rs, selected_spec(rs, wv, i as int)),
            forall|j: int| 0 <= j < v@.len() ==> #[trigger] v@[j].0 < i,
        decreases rs.len() - i,
    {
        let record = &session.selections[i];
        let hit = match &want {
            Some(w) => same_chars(&lowered(&chars_of(record.label.as_str())), w),
            None => true,
        };
        proof {
            assert(hit == label_matches(wv, rs[i as int].label@));
        }
        let ghost old_v = v@;
        let ghost old_sel = selected_spec(rs, wv, i as int);
        if hit {
            v.push((i, record));
        }
        proof {
            let sel = selected_spec(rs, wv, i + 1);
            let vv = v@;
            assert(vv.len() == sel.len());
            assert forall|j: int| 0 <= j < vv.len() implies #[trigger] vv[j].0 == sel[j] && vv[j].0 < i + 1 && *vv[j].1 == rs[vv[j].0 as int] by {
                if j < old_v.len() {
                    assert(vv[j] == old_v[j]);
                    assert(sel[j] == old_sel[j]);
                }
            }
            assert(picked_ok(vv, rs, sel));
        }
        i = i + 1;
    }
    v
}

/// Whether candidate `i` is in the pool searched: named like the record,
/// and, when `exact`, of the same size and scale too.
pub open spec fn in_pool(
    record: MonitorRecord,
    cands: Seq<MonitorRecord>,
    same_scale: Seq<bool>,
    exact: bool,
    i: int,
) -> bool {
    &&& 0 <= i < cands.len()
    &&& cands[i].name@ == record.name@
    &&& exact ==> cands[i].size_px == record.size_px && same_scale[i]
}

/// Whether `i` is the pool's pick: the first member carrying the record's
/// index, else, when none does, the first member of least index.
pub open spec fn pool_pick(
    record: MonitorRecord,
    cands: Seq<MonitorRecord>,
    same_scale: Seq<bool>,
    exact: bool,
    i: int,
) -> bool {
    &&& in_pool(record, cands, same_scale, exact, i)
    &&& if exists|j: int| #[trigger] in_pool(record, cands, same_scale, exact, j) && cands[j].index == record.index {
        &&& cands[i].index == record.index
        &&& forall|j: int| 0 <= j < i && #[trigger] in_pool(record, cands, same_scale, exact, j) ==> cands[j].index != record.index
    } else {
        &&& forall|j: int| #[trigger] in_pool(record, cands, same_scale, exact, j) ==> cands[i].index <= cands[j].index
        &&& forall|j: int| 0 <= j < i && #[trigger] in_pool(record, cands, same_scale, exact, j) ==> cands[j].index > cands[i].index
    }
}

fn pick(
    record: &MonitorRecord,
    cands: &[MonitorRecord],
    same_scale: &[bool],
    exact: bool,
) -> (r: Option<usize>)
    requires
        same_scale@.len() == cands@.len(),
    ensures
        match r {
            Some(i) => pool_pick(*record, cands@, same_scale@, exact, i as int),
            None => forall|j: int| !#[trigger] in_pool(*record, cands@, same_scale@, exact, j),
        },
{
    let name = chars_of(record.name.as_str());
    let ghost rc = *record;
    let mut i: usize = 0;
    while i < cands.len()
        invariant
            i <= cands@.len(),
            same_scale@.len() == cands@.len(),
            rc == *record,
            name@ == record.name@,
            forall|j: int| 0 <= j < i && #[trigger] in_pool(rc, cands@, same_scale@, exact, j) ==> cands@[j].index != rc.index,
        decreases cands@.len() - i,
    {
        let c = &cands[i];
        let member = same_chars(&chars_of(c.name.as_str()), &name) && (!exact || (c.size_px == record.size_px && same_scale[i]));
        proof {
            assert(member == in_pool(rc, cands@, same_scale@, exact, i as int));
        }
        if member && c.index == record.index {
            return Some(i);
        }
        i = i + 1;
    }
    let mut best: Option<usize> = None;
    let mut k: usize = 0;
    while k < cands.len()
        invariant
            k <= cands@.len(),
            same_scale@.len() == cands@.len(),
            rc == *record,
            name@ == record.name@,
            forall|j: int| #[trigger] in_pool(rc, cands@, same_scale@, exact, j) ==> cands@[j].index != rc.index,
            match best {
                Some(b) => {
                    &&& b < k
                    &&& in_pool(rc, cands@, same_scale@, exact, b as int)
                    &&& forall|j: int| 0 <= j < k && #[trigger] in_pool(rc, cands@, same_scale@, exact, j) ==> cands@[b as int].index <= cands@[j].index
                    &&& forall|j: int| 0 <= j < b && #[trigger] in_pool(rc, cands@, same_scale@, exact, j) ==> cands@[j].index > cands@[b as int].index
                },
                None => forall|j: int| 0 <= j < k ==> !#[trigger] in_pool(rc, cands@, same_scale@, exact, j),
            },
        decreases cands@.len() - k,
    {
        let c = &cands[k];
        let member = same_chars(&chars_of(c.name.as_str()), &name) && (!exact || (c.size_px == record.size_px && same_scale[k]));
        proof {
            assert(member == in_pool(rc, cands@, same_scale@, exact, k as int));
        }
        if member {
            match best {
                Some(b) => {
                    if c.index < cands[b].index {
                        best = Some(k);
                    }
                },
                None => {
                    best = Some(k);
                },
            }
        }
        k = k + 1;
    }
    best
}

/// Resolve a session's monitor against the live enumeration by identity
/// (name, size and scale) rather than by enumeration index.
/// `same_scale[i]` says whether candidate `i`'s scale equals the record's
/// within `f64::EPSILON`. Ties break toward the candidate carrying the
/// record's index, then toward the lowest index.
pub fn match_monitor(record: &MonitorRecord, candidates: &[MonitorRecord], same_scale: &[bool]) -> (r: MonitorMatch)
    requires
        same_scale@.len() == candidates@.len(),
    ensures
        match r {
            MonitorMatch::Found(i) => pool_pick(*record, candidates@, same_scale@, true, i as int),
            MonitorMatch::Changed(i) => {
                &&& forall|j: int| !#[trigger] in_pool(*record, candidates@, same_scale@, true, j)
                &&& pool_pick(*record, candidates@, same_scale@, false, i as int)
            },
            MonitorMatch::Missing => forall|j: int| !#[trigger] in_pool(*record, candidates@, same_scale@, false, j),
        },
{
    match pick(record, candidates, same_scale, true) {
        Some(i) => MonitorMatch::Found(i),
        None => match pick(record, candidates, same_scale, false) {
            Some(i) => MonitorMatch::Changed(i),
            None => MonitorMatch::Missing,
        },
    }
}

/// Resume is lossless: a selection that becomes a record, comes back as
/// an editable selection and is saved again gives the very same record,
/// for the same monitors, target window and crop.
pub proof fn lemma_restore_then_rebuild(
    s: SelectionView,
    monitors: Seq<MonitorRecord>,
    target: Option<TargetRecord>,
    crop: Seq<char>,
)
    ensures
        ({
            let r = record_of(s, origin_for(monitors, s.monitor), target, crop);
            let back = restored(r);
            record_of(back, origin_for(monitors, back.monitor), target, crop) == r
        }),
{
    let r = record_of(s, origin_for(monitors, s.monitor), target, crop);
    let back = restored(r);
    match r.rot_deg {
        Some(d) => {
            assert(0 < d < 360);
            assert((d as int) % 360 == d as int);
        },
        None => {
            assert(back.rot_deg == 0);
        },
    }
}

/// A session without a target window drops nothing on resume: every
/// record comes back, in order.
pub proof fn lemma_untargeted_restore_keeps_everything(rs: Seq<SelectionRecordView>)
    ensures
        kept_spec(None, rs) == rs.map_values(|r: SelectionRecordView| restored(r)),
        dropped_spec(None, rs) == Seq::<Seq<char>>::empty(),
    decreases rs.len(),
{
    if rs.len() > 0 {
        lemma_untargeted_restore_keeps_everything(rs.drop_last());
        assert(rs.map_values(|r: SelectionRecordView| restored(r)) =~= rs.drop_last().map_values(
            |r: SelectionRecordView| restored(r),
        ).push(restored(rs.last())));
    } else {
        assert(rs.map_values(|r: SelectionRecordView| restored(r)) =~= Seq::<SelectionView>::empty());
    }
}

/// The origin a selection's record is moved by is that of the first
/// recorded monitor carrying the selection's monitor index.
pub proof fn lemma_the_origin_is_the_first_matching_monitors(ms: Seq<MonitorRecord>, m: usize, k: int)
    requires
        0 <= k < ms.len(),
        ms[k].index == m,
        forall|j: int| 0 <= j < k ==> (#[trigger] ms[j]).index != m,
    ensures
        origin_for(ms, m) == ms[k].origin_px,
    decreases k,
{
    if k > 0 {
        assert(ms[0].index != m);
        let rest = ms.drop_first();
        assert(rest[k - 1] == ms[k]);
        assert forall|j: int| 0 <= j < k - 1 implies (#[trigger] rest[j]).index != m by {
            assert(rest[j] == ms[j + 1]);
        }
        lemma_the_origin_is_the_first_matching_monitors(rest, m, k - 1);
    }
}

/// A selection on no recorded monitor is recorded against the global
/// origin.
pub proof fn lemma_no_monitor_means_the_global_origin(ms: Seq<MonitorRecord>, m: usize)
    requires
        forall|j: int| 0 <= j < ms.len() ==> (#[trigger] ms[j]).index != m,
    ensures
        origin_for(ms, m) == (Point { x: 0, y: 0 }),
    decreases ms.len(),
{
    if ms.len() > 0 {
        assert(ms[0].index != m);
        let rest = ms.drop_first();
        assert forall|j: int| 0 <= j < rest.len() implies (#[trigger] rest[j]).index != m by {
            assert(rest[j] == ms[j + 1]);
        }
        lemma_no_monitor_means_the_global_origin(rest, m);
    }
}

/// A record keeps the selection's shape as `px`, and its `global_px` is
/// that shape moved by both coordinates of its monitor's origin `o`: a
/// rect's corner moves by `(o.x, o.y)` at the same size, every polygon
/// vertex moves by `(o.x, o.y)`, the kind is kept, and moving `global_px`
/// back by `(-o.x, -o.y)` gives `px` again.
pub proof fn lemma_a_record_moves_its_selection_by_its_monitor_origin(
    s: SelectionView,
    ms: Seq<MonitorRecord>,
    target: Option<TargetRecord>,
    crop: Seq<char>,
)
    requires
        shape_in_domain(s.shape),
        origins_ok(ms),
    ensures
        ({
            let o = origin_for(ms, s.monitor);
            let r = record_of(s, o, target, crop);
            &&& r.px == s.shape
            &&& kind_of(r.global_px) == kind_of(r.px)
            &&& translate_spec(r.global_px, -o.x, -o.y) == r.px
            &&& (r.px matches ShapeView::Rect(a) ==> (r.global_px matches ShapeView::Rect(g) && g.x == a.x + o.x
                && g.y == a.y + o.y && g.w == a.w && g.h == a.h))
            &&& (r.px matches ShapeView::Poly(pts) ==> (r.global_px matches ShapeView::Poly(gs) && gs.len()
                == pts.len() && forall|i: int|
                0 <= i < pts.len() ==> #[trigger] gs[i].x == pts[i].x + o.x && gs[i].y == pts[i].y + o.y))
        }),
{
    let o = origin_for(ms, s.monitor);
    lemma_origin_in_domain(ms, s.monitor);
    lemma_domain_translates(s.shape, o.x as int, o.y as int);
    let g = translate_spec(s.shape, o.x as int, o.y as int);
    match s.shape {
        ShapeView::Poly(pts) => {
            let gs = pts.map_values(|p: Point| shift(p, o.x as int, o.y as int));
            assert forall|i: int| 0 <= i < pts.len() implies #[trigger] gs[i].x == pts[i].x + o.x && gs[i].y
                == pts[i].y + o.y by {
                assert(fits_i32(pts[i].x + o.x) && fits_i32(pts[i].y + o.y));
            }
            let back = gs.map_values(|p: Point| shift(p, -o.x, -o.y));
            assert forall|i: int| 0 <= i < pts.len() implies #[trigger] back[i] == pts[i] by {
                assert(fits_i32(pts[i].x + o.x) && fits_i32(pts[i].y + o.y));
            }
            assert(back =~= pts);
        },
        _ => {},
    }
}

} // verus!
