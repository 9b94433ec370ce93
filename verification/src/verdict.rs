//! The answer to "did this point land in the right region?": which
//! region a report row refers to, and why a question could not be asked.

use vstd::prelude::*;
use vstd::string::StringExecFns;
use crate::geometry::{Point, Rect, Shape, ShapeView, ToolKind};
use crate::session::{
    distinct_spec, distinct_strings, same_ignoring_case, MonitorRecord, SelectionRecord,
    SelectionRecordView, SessionFile,
};
use crate::space::{origin_label, Origin};
use crate::strings::{debug_index_list, debug_indices, decimal, decimal_chars};
use crate::text::{
    append_chars, chars_of, debug_quoted, debug_string_list, debug_strings, debug_text, lowered,
    same_chars,
};

verus! {

#[derive(Debug, PartialEq, Eq)]
pub enum VerdictError {
    NoTarget,
    UnknownMonitor { requested: usize, available: Vec<usize> },
    UnknownLabel { requested: String, available: Vec<String> },
    /// The space named has no selections to test against.
    NoCandidates(&'static str),
}

/// The message shown for each error.
pub open spec fn verdict_message(e: VerdictError) -> Seq<char> {
    match e {
        VerdictError::NoTarget => "the session has no target window — window-relative points need a session captured with --target"@,
        VerdictError::UnknownMonitor { requested, available } => "monitor "@ + decimal(
            requested as nat,
        ) + " is not in this session; it has monitors "@ + debug_indices(available@),
        VerdictError::UnknownLabel { requested, available } => "no selection is labeled "@
            + debug_text(requested@) + "; labels in this space: "@ + debug_strings(
            available@.map_values(|s: String| s@),
        ),
        VerdictError::NoCandidates(space) => "the session has no selections in "@ + space@
            + " space to test against"@,
    }
}

impl VerdictError {
    /// The message shown to the user.
    pub fn to_string(&self) -> (r: String)
        ensures
            r@ == verdict_message(*self),
    {
        match self {
            VerdictError::NoTarget => "the session has no target window — window-relative points need a session captured with --target".to_owned(),
            VerdictError::UnknownMonitor { requested, available } => {
                let mut r = "monitor ".to_owned();
                append_chars(&mut r, &decimal_chars(*requested));
                r.append(" is not in this session; it has monitors ");
                append_chars(&mut r, &debug_index_list(available));
                r
            },
            VerdictError::UnknownLabel { requested, available } => {
                let mut r = "no selection is labeled ".to_owned();
                let q = debug_quoted(requested.as_str());
                r.append(q.as_str());
                r.append("; labels in this space: ");
                let l = debug_string_list(available);
                r.append(l.as_str());
                r
            },
            VerdictError::NoCandidates(space) => {
                let mut r = "the session has no selections in ".to_owned();
                r.append(space);
                r.append(" space to test against");
                r
            },
        }
    }
}

/// A selection referenced by its position in the session file.
#[derive(Debug, Clone, PartialEq, Eq)]
pub struct RegionRef {
    pub index: usize,
    pub label: String,
    pub shape: ToolKind,
    pub monitor: usize,
}

/// The shape a record offers a question asked in `space`, if it takes
/// part: every record in global space, the records of that monitor in
/// monitor space, and those with window coordinates in window space.
pub open spec fn candidate_shape(r: SelectionRecordView, space: Origin) -> Option<ShapeView> {
    match space {
        Origin::Global => Some(r.global_px),
        Origin::Monitor(w) => if r.monitor == w {
            Some(r.px)
        } else {
            None
        },
        Origin::Window => r.window_px,
    }
}

/// The candidates among the first `k` records, in session (stacking)
/// order, each with its index in the session.
pub open spec fn candidates_upto(rs: Seq<SelectionRecord>, space: Origin, k: int) -> Seq<(int, ShapeView)>
    decreases k,
{
    if k <= 0 {
        Seq::empty()
    } else {
        let before = candidates_upto(rs, space, k - 1);
        match candidate_shape(rs[k - 1]@, space) {
            Some(s) => before.push((k - 1, s)),
            None => before,
        }
    }
}

/// Every candidate of a session for `space`.
pub open spec fn all_candidates(session: SessionFile, space: Origin) -> Seq<(int, ShapeView)> {
    candidates_upto(session.selections@, space, session.selections@.len() as int)
}

pub open spec fn cands_view(v: Seq<(usize, Shape)>) -> Seq<(int, ShapeView)> {
    v.map_values(|c: (usize, Shape)| (c.0 as int, c.1@))
}

/// The monitor indices a session describes, in order.
pub open spec fn monitor_indices(ms: Seq<MonitorRecord>) -> Seq<usize> {
    ms.map_values(|m: MonitorRecord| m.index)
}

/// Whether a question in `space` cannot be asked of this session at all:
/// a monitor it does not describe, or window space without a target.
pub open spec fn space_refused(session: SessionFile, space: Origin) -> bool {
    match space {
        Origin::Global => false,
        Origin::Monitor(w) => !monitor_indices(session.monitors@).contains(w),
        Origin::Window => session.target is None,
    }
}

/// The error that says so.
pub open spec fn refusal_ok(session: SessionFile, space: Origin, e: VerdictError) -> bool {
    match space {
        Origin::Monitor(w) => e matches VerdictError::UnknownMonitor { requested, available }
            && requested == w && available@ == monitor_indices(session.monitors@),
        _ => e == VerdictError::NoTarget,
    }
}

/// The selections testable in `space`, each with its index and the shape
/// the session already stores for that space.
pub fn candidates(session: &SessionFile, space: Origin) -> (r: Result<Vec<(usize, Shape)>, VerdictError>)
    ensures
        space_refused(*session, space) ==> (r matches Err(e) && refusal_ok(*session, space, e)),
        !space_refused(*session, space) ==> (r matches Ok(v) && cands_view(v@) == all_candidates(
            *session,
            space,
        )),
{
    match space {
        Origin::Monitor(wanted) => {
            let mut available: Vec<usize> = Vec::new();
            let mut known = false;
            let mut i: usize = 0;
            while i < session.monitors.len()
                invariant
                    i <= session.monitors@.len(),
                    available@.len() == i,
                    forall|j: int| 0 <= j < i ==> #[trigger] available@[j] == session.monitors@[j].index,
                    known == exists|j: int| 0 <= j < i && #[trigger] available@[j] == wanted,
                decreases session.monitors@.len() - i,
            {
                let m = session.monitors[i].index;
                let ghost before = available@;
                if m == wanted {
                    known = true;
                }
                available.push(m);
                proof {
                    assert(available@[i as int] == m);
                    assert forall|j: int| 0 <= j < i implies #[trigger] available@[j] == before[j] by {}
                    if exists|j: int| 0 <= j < i && #[trigger] before[j] == wanted {
                        let j = choose|j: int| 0 <= j < i && #[trigger] before[j] == wanted;
                        assert(available@[j] == wanted);
                    }
                    if known {
                        assert(exists|j: int| 0 <= j < i + 1 && #[trigger] available@[j] == wanted);
                    } else {
                        assert forall|j: int| 0 <= j < i + 1 implies #[trigger] available@[j] != wanted by {
                            if j < i {
                                assert(available@[j] == before[j]);
                            }
                        }
                    }
                }
                i = i + 1;
            }
            proof {
                assert(available@ =~= monitor_indices(session.monitors@));
                if known {
                    let j = choose|j: int| 0 <= j < available@.len() && #[trigger] available@[j] == wanted;
                    assert(available@.contains(wanted));
                }
            }
            if !known {
                return Err(VerdictError::UnknownMonitor { requested: wanted, available });
            }
        },
        Origin::Window => {
            if session.target.is_none() {
                return Err(VerdictError::NoTarget);
            }
        },
        Origin::Global => {},
    }
    let ghost rs = session.selections@;
    let mut out: Vec<(usize, Shape)> = Vec::new();
    let mut i: usize = 0;
    while i < session.selections.len()
        invariant
            i <= rs.len(),
            rs == session.selections@,
            cands_view(out@) == candidates_upto(rs, space, i as int),
        decreases rs.len() - i,
    {
        let record = &session.selections[i];
        let ghost before = out@;
        let shape: Option<Shape> = match space {
            Origin::Global => Some(record.global_px.clone_shape()),
            Origin::Monitor(w) => if record.monitor == w {
                Some(record.px.clone_shape())
            } else {
                None
            },
            Origin::Window => match &record.window_px {
                Some(w) => Some(w.clone_shape()),
                None => None,
            },
        };
        match shape {
            Some(s) => {
                out.push((i, s));
                proof {
                    assert(cands_view(out@) =~= cands_view(before).push((i as int, s@)));
                }
            },
            None => {},
        }
        i = i + 1;
    }
    Ok(out)
}

/// `a` and `b` equal ignoring ASCII case.
fn same_label(a: &str, b: &str) -> (r: bool)
    ensures
        r == same_ignoring_case(a@, b@),
{
    same_chars(&lowered(&chars_of(a)), &lowered(&chars_of(b)))
}

/// The labels of the candidates `c`, in order.
pub open spec fn cand_labels(rs: Seq<SelectionRecord>, c: Seq<(int, ShapeView)>) -> Seq<Seq<char>> {
    c.map_values(|x: (int, ShapeView)| rs[x.0].label@)
}

/// Whether the `k`-th candidate carries the label `--expect` named (any
/// candidate does when nothing was named).
pub open spec fn expected_at(
    rs: Seq<SelectionRecord>,
    c: Seq<(int, ShapeView)>,
    expect: Option<Seq<char>>,
    k: int,
) -> bool {
    match expect {
        Some(w) => same_ignoring_case(rs[c[k].0].label@, w),
        None => true,
    }
}

/// Whether some candidate carries the expected label.
pub open spec fn expect_known(rs: Seq<SelectionRecord>, c: Seq<(int, ShapeView)>, expect: Option<Seq<char>>) -> bool {
    exists|k: int| 0 <= k < c.len() && #[trigger] expected_at(rs, c, expect, k)
}

pub open spec fn str_view(s: Option<&str>) -> Option<Seq<char>> {
    match s {
        Some(x) => Some(x@),
        None => None,
    }
}

/// The candidates a point is tested against, or why it cannot be: the
/// space is refused, it holds no selection, or `--expect` names a label
/// none of its selections carries (the error then lists the labels this
/// space does carry, not the whole session's).
pub fn admissible(session: &SessionFile, space: Origin, expect: Option<&str>) -> (r: Result<Vec<(usize, Shape)>, VerdictError>)
    ensures
        space_refused(*session, space) ==> (r matches Err(e) && refusal_ok(*session, space, e)),
        !space_refused(*session, space) ==> ({
            let rs = session.selections@;
            let c = all_candidates(*session, space);
            if c.len() == 0 {
                r matches Err(VerdictError::NoCandidates(name)) && name@ == origin_label(space)
            } else if !expect_known(rs, c, str_view(expect)) {
                r matches Err(VerdictError::UnknownLabel { requested, available }) && str_view(expect)
                    == Some(requested@) && available@.map_values(|s: String| s@) == distinct_spec(
                    cand_labels(rs, c),
                    c.len() as int,
                )
            } else {
                r matches Ok(v) && cands_view(v@) == c
            }
        }),
{
    let cands = match candidates(session, space) {
        Ok(c) => c,
        Err(e) => {
            return Err(e);
        },
    };
    let ghost rs = session.selections@;
    let ghost c = all_candidates(*session, space);
    proof {
        assert forall|k: int| 0 <= k < c.len() implies 0 <= #[trigger] c[k].0 < rs.len() by {
            lemma_candidates_index(rs, space, rs.len() as int, k);
        }
    }
    if cands.len() == 0 {
        return Err(VerdictError::NoCandidates(space.label()));
    }
    if let Some(wanted) = expect {
        let mut known = false;
        let mut names: Vec<String> = Vec::new();
        let mut k: usize = 0;
        while k < cands.len()
            invariant
                k <= cands@.len(),
                cands_view(cands@) == c,
                forall|j: int| 0 <= j < c.len() ==> 0 <= #[trigger] c[j].0 < rs.len(),
                rs == session.selections@,
                expect == Some(wanted),
                names@.len() == k,
                forall|j: int| 0 <= j < k ==> #[trigger] names@[j]@ == rs[c[j].0].label@,
                known == exists|j: int| 0 <= j < k && #[trigger] expected_at(rs, c, str_view(expect), j),
            decreases cands@.len() - k,
        {
            proof {
                assert(cands_view(cands@)[k as int] == (cands@[k as int].0 as int, cands@[k as int].1@));
                assert(c[k as int].0 < rs.len());
            }
            let label = &session.selections[cands[k].0].label;
            if same_label(label.as_str(), wanted) {
                known = true;
                assert(expected_at(rs, c, str_view(expect), k as int));
            }
            names.push(label.clone());
            k = k + 1;
        }
        if !known {
            proof {
                assert(names@.map_values(|s: String| s@) =~= cand_labels(rs, c));
            }
            return Err(VerdictError::UnknownLabel { requested: wanted.to_owned(), available: distinct_strings(&names) });
        }
    } else {
        proof {
            assert(expected_at(rs, c, None, 0));
        }
    }
    Ok(cands)
}

/// Each candidate's index is a record of the session.
proof fn lemma_candidates_index(rs: Seq<SelectionRecord>, space: Origin, n: int, k: int)
    requires
        0 <= n <= rs.len(),
        0 <= k < candidates_upto(rs, space, n).len(),
    ensures
        0 <= candidates_upto(rs, space, n)[k].0 < n,
    decreases n,
{
    if n > 0 {
        let before = candidates_upto(rs, space, n - 1);
        if k < before.len() {
            lemma_candidates_index(rs, space, n - 1, k);
        }
    }
}

/// `r` refers to the record `rec` at index `i`.
pub open spec fn refers_to(r: RegionRef, i: int, rec: SelectionRecord) -> bool {
    &&& r.index == i
    &&& r.label@ == rec.label@
    &&& r.shape == rec.shape
    &&& r.monitor == rec.monitor
}

pub fn region_ref(index: usize, record: &SelectionRecord) -> (r: RegionRef)
    ensures
        refers_to(r, index as int, *record),
{
    RegionRef { index, label: record.label.clone(), shape: record.shape, monitor: record.monitor }
}

/// The positions of the first `k` candidates that cover the point, in
/// order.
pub open spec fn covered_positions(covered: Seq<bool>, k: int) -> Seq<int>
    decreases k,
{
    if k <= 0 {
        Seq::empty()
    } else {
        let before = covered_positions(covered, k - 1);
        if covered[k - 1] {
            before.push(k - 1)
        } else {
            before
        }
    }
}

/// Whether a point is a hit: it lands in a region carrying the expected
/// label, or in any region when none was named.
pub open spec fn hit_spec(
    rs: Seq<SelectionRecord>,
    c: Seq<(int, ShapeView)>,
    expect: Option<Seq<char>>,
    covered: Seq<bool>,
) -> bool {
    exists|k: int| 0 <= k < c.len() && covered[k] && #[trigger] expected_at(rs, c, expect, k)
}

/// Whether `v` refers, in order, to the covered candidates.
pub open spec fn contained_ok(
    v: Seq<RegionRef>,
    rs: Seq<SelectionRecord>,
    c: Seq<(int, ShapeView)>,
    covered: Seq<bool>,
    k: int,
) -> bool {
    let pos = covered_positions(covered, k);
    &&& v.len() == pos.len()
    &&& forall|j: int| 0 <= j < v.len() ==> #[trigger] refers_to(v[j], c[pos[j]].0, rs[c[pos[j]].0])
}

/// The verdict on a point, given for each candidate whether its shape, as
/// the user saw it, covers the point: whether it is a hit, and every
/// region it landed in, in stacking order (last is topmost). A miss
/// against `--expect` still lists what the point did land in.
pub fn judge(session: &SessionFile, cands: &Vec<(usize, Shape)>, expect: Option<&str>, covered: &[bool]) -> (r: (bool, Vec<RegionRef>))
    requires
        covered@.len() == cands@.len(),
        forall|k: int| 0 <= k < cands@.len() ==> #[trigger] cands@[k].0 < session.selections@.len(),
    ensures
        r.0 == hit_spec(session.selections@, cands_view(cands@), str_view(expect), covered@),
        contained_ok(r.1@, session.selections@, cands_view(cands@), covered@, covered@.len() as int),
{
    let ghost rs = session.selections@;
    let ghost c = cands_view(cands@);
    let mut hit = false;
    let mut inside: Vec<RegionRef> = Vec::new();
    let mut k: usize = 0;
    while k < cands.len()
        invariant
            k <= cands@.len(),
            covered@.len() == cands@.len(),
            rs == session.selections@,
            c == cands_view(cands@),
            forall|j: int| 0 <= j < cands@.len() ==> #[trigger] cands@[j].0 < rs.len(),
            hit == exists|j: int| 0 <= j < k && covered@[j] && #[trigger] expected_at(rs, c, str_view(expect), j),
            contained_ok(inside@, rs, c, covered@, k as int),
        decreases cands@.len() - k,
    {
        let index = cands[k].0;
        proof {
            assert(c[k as int].0 == index as int);
        }
        if covered[k] {
            let record = &session.selections[index];
            let wanted = match expect {
                Some(w) => same_label(record.label.as_str(), w),
                None => true,
            };
            if wanted {
                hit = true;
                assert(expected_at(rs, c, str_view(expect), k as int));
            }
            let ghost before = inside@;
            inside.push(region_ref(index, record));
            proof {
                let pos = covered_positions(covered@, k + 1);
                assert(pos == covered_positions(covered@, k as int).push(k as int));
                assert forall|j: int| 0 <= j < inside@.len() implies #[trigger] refers_to(
                    inside@[j],
                    c[pos[j]].0,
                    rs[c[pos[j]].0],
                ) by {
                    if j < before.len() {
                        assert(inside@[j] == before[j]);
                    }
                }
            }
        } else {
            proof {
                assert(covered_positions(covered@, k + 1) == covered_positions(covered@, k as int));
            }
        }
        k = k + 1;
    }
    (hit, inside)
}

/// Distance on one axis from `v` to the pixels `start .. start + len`,
/// 0 inside: the same inclusion rule as `Rect::contains`.
pub open spec fn axis_gap(v: int, start: int, len: int) -> int {
    let end = start + len - 1;
    if v < start {
        start - v
    } else if v > end {
        v - end
    } else {
        0
    }
}

/// The squared Euclidean distance from `p` to the nearest pixel of `r`.
pub open spec fn gap_sq(r: Rect, p: Point) -> int {
    let dx = axis_gap(p.x as int, r.x as int, r.w as int);
    let dy = axis_gap(p.y as int, r.y as int, r.h as int);
    dx * dx + dy * dy
}

/// [`axis_gap`], computed wide enough that no `i32` input overflows.
pub fn axis_distance(v: i32, start: i32, len: i32) -> (d: i64)
    ensures
        d == axis_gap(v as int, start as int, len as int),
        0 <= d <= 0x2_0000_0000,
{
    let v = v as i64;
    let start = start as i64;
    let end = start + len as i64 - 1;
    if v < start {
        return start - v;
    }
    if v > end {
        return v - end;
    }
    0
}

/// The offsets on each axis from `p` to the nearest pixel of `rect`; the
/// distance reported for a miss is their Euclidean length.
pub fn bbox_offsets(rect: Rect, p: Point) -> (d: (i64, i64))
    ensures
        d.0 == axis_gap(p.x as int, rect.x as int, rect.w as int),
        d.1 == axis_gap(p.y as int, rect.y as int, rect.h as int),
{
    (axis_distance(p.x, rect.x, rect.w), axis_distance(p.y, rect.y, rect.h))
}

fn gap_squared(rect: Rect, p: Point) -> (g: i128)
    ensures
        g == gap_sq(rect, p),
{
    let (dx, dy) = bbox_offsets(rect, p);
    proof {
        assert(0 <= dx * dx <= 0x2_0000_0000 * 0x2_0000_0000) by (nonlinear_arith)
            requires
                0 <= dx <= 0x2_0000_0000,
        ;
        assert(0 <= dy * dy <= 0x2_0000_0000 * 0x2_0000_0000) by (nonlinear_arith)
            requires
                0 <= dy <= 0x2_0000_0000,
        ;
    }
    let dx = dx as i128;
    let dy = dy as i128;
    dx * dx + dy * dy
}

/// The region a miss is measured against: among the candidates carrying
/// the expected label (all of them when none was named), the first whose
/// bounding box `boxes[k]`, rotated as the user saw it, lies nearest the
/// point. `None` when no candidate is relevant.
pub fn nearest_relevant(
    session: &SessionFile,
    cands: &Vec<(usize, Shape)>,
    expect: Option<&str>,
    boxes: &[Rect],
    point: Point,
) -> (r: Option<usize>)
    requires
        boxes@.len() == cands@.len(),
        forall|k: int| 0 <= k < cands@.len() ==> #[trigger] cands@[k].0 < session.selections@.len(),
    ensures
        ({
            let rs = session.selections@;
            let c = cands_view(cands@);
            let e = str_view(expect);
            &&& r is None <==> !expect_known(rs, c, e)
            &&& r matches Some(k) ==> {
                &&& k < c.len()
                &&& expected_at(rs, c, e, k as int)
                &&& forall|j: int| 0 <= j < c.len() && #[trigger] expected_at(rs, c, e, j) ==> gap_sq(boxes@[k as int], point) <= gap_sq(boxes@[j], point)
                &&& forall|j: int| 0 <= j < k && #[trigger] expected_at(rs, c, e, j) ==> gap_sq(boxes@[k as int], point) < gap_sq(boxes@[j], point)
            }
        }),
{
    let ghost rs = session.selections@;
    let ghost c = cands_view(cands@);
    let ghost e = str_view(expect);
    let mut best: Option<usize> = None;
    let mut best_gap: i128 = 0;
    let mut k: usize = 0;
    while k < cands.len()
        invariant
            k <= cands@.len(),
            boxes@.len() == cands@.len(),
            rs == session.selections@,
            c == cands_view(cands@),
            e == str_view(expect),
            forall|j: int| 0 <= j < cands@.len() ==> #[trigger] cands@[j].0 < rs.len(),
            best is None <==> !exists|j: int| 0 <= j < k && #[trigger] expected_at(rs, c, e, j),
            best matches Some(b) ==> {
                &&& b < k
                &&& expected_at(rs, c, e, b as int)
                &&& best_gap == gap_sq(boxes@[b as int], point)
                &&& forall|j: int| 0 <= j < k && #[trigger] expected_at(rs, c, e, j) ==> best_gap <= gap_sq(boxes@[j], point)
                &&& forall|j: int| 0 <= j < b && #[trigger] expected_at(rs, c, e, j) ==> best_gap < gap_sq(boxes@[j], point)
            },
        decreases cands@.len() - k,
    {
        let index = cands[k].0;
        proof {
            assert(c[k as int].0 == index as int);
        }
        let record = &session.selections[index];
        let relevant = match expect {
            Some(w) => same_label(record.label.as_str(), w),
            None => true,
        };
        assert(relevant == expected_at(rs, c, e, k as int));
        if relevant {
            let g = gap_squared(boxes[k], point);
            match best {
                None => {
                    best = Some(k);
                    best_gap = g;
                },
                Some(_) => {
                    if g < best_gap {
                        best = Some(k);
                        best_gap = g;
                    }
                },
            }
        }
        k = k + 1;
    }
    best
}

/// Every covered candidate is listed among the covered positions.
proof fn lemma_covered_is_listed(covered: Seq<bool>, n: int, k: int)
    requires
        0 <= k < n <= covered.len(),
        covered[k],
    ensures
        covered_positions(covered, n).contains(k),
    decreases n,
{
    if k < n - 1 {
        lemma_covered_is_listed(covered, n - 1, k);
        let before = covered_positions(covered, n - 1);
        let j = choose|j: int| 0 <= j < before.len() && before[j] == k;
        if covered[n - 1] {
            assert(covered_positions(covered, n)[j] == k);
        }
    } else {
        let pos = covered_positions(covered, n);
        assert(pos[pos.len() - 1] == k);
    }
}

/// A hit is never silent about where it landed: whenever a point counts
/// as a hit, with or without an expected label, the regions it is
/// reported to lie in are not empty — and a miss against an expected
/// label still lists every region the point did land in, since what is
/// listed does not depend on the label at all.
pub proof fn lemma_a_hit_lists_its_region(
    rs: Seq<SelectionRecord>,
    c: Seq<(int, ShapeView)>,
    expect: Option<Seq<char>>,
    covered: Seq<bool>,
)
    requires
        covered.len() == c.len(),
        hit_spec(rs, c, expect, covered),
    ensures
        covered_positions(covered, covered.len() as int).len() > 0,
{
    let k = choose|k: int| 0 <= k < c.len() && covered[k] && #[trigger] expected_at(rs, c, expect, k);
    lemma_covered_is_listed(covered, covered.len() as int, k);
}

} // verus!
