//! Why a session's click points could not be resolved.

use vstd::prelude::*;
use vstd::string::StringExecFns;
use crate::geometry::{click_point_ok, shape_in_domain, translate_fits, translate_spec, Point, Shape, ShapeView};
use crate::locate::Delta;
use crate::session::{
    distinct_labels, distinct_spec, label_matches, record_labels, select_by_label, selected_spec,
    str_opt, MonitorRecord, SelectionRecord, SelectionRecordView, SessionFile,
};
use crate::space::Origin;
use crate::strings::{decimal, decimal_chars};
use crate::text::{append_chars, debug_quoted, debug_string_list, debug_strings, debug_text};

verus! {

#[derive(Debug, PartialEq, Eq)]
pub enum ResolveError {
    NoSelections,
    UnknownLabel { requested: String, available: Vec<String> },
    UnknownMonitor { selection: usize, monitor: usize },
    NoTarget,
    OffTargetMonitor { selection: usize, label: String },
}

/// The message shown for each error.
pub open spec fn resolve_message(e: ResolveError) -> Seq<char> {
    match e {
        ResolveError::NoSelections => "the session has no selections to resolve"@,
        ResolveError::UnknownLabel { requested, available } => "no selection is labeled "@
            + debug_text(requested@) + "; labels in this session: "@ + debug_strings(
            available@.map_values(|s: String| s@),
        ),
        ResolveError::UnknownMonitor { selection, monitor } => "selection "@ + decimal(
            selection as nat,
        ) + " references monitor "@ + decimal(monitor as nat)
            + ", which the session does not describe"@,
        ResolveError::NoTarget => "the session has no target window — window-relative points need a session captured with --target"@,
        ResolveError::OffTargetMonitor { selection, label } => "selection "@ + decimal(
            selection as nat,
        ) + " ("@ + debug_text(label@)
            + ") has no window-relative coordinates: it was marked on a different monitor than the target window — ask in global or monitor space instead"@,
    }
}

impl ResolveError {
    /// The message shown to the user.
    pub fn to_string(&self) -> (r: String)
        ensures
            r@ == resolve_message(*self),
    {
        match self {
            ResolveError::NoSelections => "the session has no selections to resolve".to_owned(),
            ResolveError::UnknownLabel { requested, available } => {
                let mut r = "no selection is labeled ".to_owned();
                let q = debug_quoted(requested.as_str());
                r.append(q.as_str());
                r.append("; labels in this session: ");
                let l = debug_string_list(available);
                r.append(l.as_str());
                r
            },
            ResolveError::UnknownMonitor { selection, monitor } => {
                let mut r = "selection ".to_owned();
                append_chars(&mut r, &decimal_chars(*selection));
                r.append(" references monitor ");
                append_chars(&mut r, &decimal_chars(*monitor));
                r.append(", which the session does not describe");
                r
            },
            ResolveError::NoTarget => "the session has no target window — window-relative points need a session captured with --target".to_owned(),
            ResolveError::OffTargetMonitor { selection, label } => {
                let mut r = "selection ".to_owned();
                append_chars(&mut r, &decimal_chars(*selection));
                r.append(" (");
                let q = debug_quoted(label.as_str());
                r.append(q.as_str());
                r.append(
                    ") has no window-relative coordinates: it was marked on a different monitor than the target window — ask in global or monitor space instead",
                );
                r
            },
        }
    }
}

/// The shape a record stores for `origin`: nothing is derived, so a
/// resolved point is the same pixel `assert` tests against.
pub open spec fn stored_for(r: SelectionRecordView, origin: Origin) -> Option<ShapeView> {
    match origin {
        Origin::Global => Some(r.global_px),
        Origin::Monitor(_) => Some(r.px),
        Origin::Window => r.window_px,
    }
}

/// Whether the session describes a monitor of index `m`.
pub open spec fn has_monitor(ms: Seq<MonitorRecord>, m: usize) -> bool {
    exists|i: int| 0 <= i < ms.len() && #[trigger] ms[i].index == m
}

/// Whether `monitors` holds a monitor of index `m`.
fn describes_monitor(monitors: &Vec<MonitorRecord>, m: usize) -> (b: bool)
    ensures
        b == has_monitor(monitors@, m),
{
    let mut i: usize = 0;
    while i < monitors.len()
        invariant
            i <= monitors@.len(),
            forall|j: int| 0 <= j < i ==> #[trigger] monitors@[j].index != m,
        decreases monitors@.len() - i,
    {
        if monitors[i].index == m {
            return true;
        }
        i = i + 1;
    }
    false
}

/// What goes wrong with the `k`-th wanted record, if anything: a monitor
/// the session does not describe, then a missing window shape.
pub open spec fn record_problem(
    ms: Seq<MonitorRecord>,
    index: int,
    r: SelectionRecordView,
    origin: Origin,
) -> Option<(bool, int)> {
    if !has_monitor(ms, r.monitor) {
        Some((true, index))
    } else if stored_for(r, origin) is None {
        Some((false, index))
    } else {
        None
    }
}

/// The first problem among the wanted records `sel[k..]`, in order.
pub open spec fn first_problem(
    ms: Seq<MonitorRecord>,
    rs: Seq<SelectionRecord>,
    sel: Seq<int>,
    origin: Origin,
    k: int,
) -> Option<(bool, int)>
    decreases sel.len() - k,
{
    if k < 0 || k >= sel.len() {
        None
    } else {
        match record_problem(ms, sel[k], rs[sel[k]]@, origin) {
            Some(p) => Some(p),
            None => first_problem(ms, rs, sel, origin, k + 1),
        }
    }
}

/// The error for a problem found at record `index`.
pub open spec fn problem_error(e: ResolveError, rs: Seq<SelectionRecord>, p: (bool, int)) -> bool {
    if p.0 {
        e == ResolveError::UnknownMonitor { selection: p.1 as usize, monitor: rs[p.1].monitor }
    } else {
        e matches ResolveError::OffTargetMonitor { selection, label } && selection == p.1 && label@
            == rs[p.1].label@
    }
}

/// The selections a resolve request answers, each with its index in the
/// session and the shape stored for `origin`; or why the request cannot be
/// answered: no selections at all, a label nothing carries (with the
/// labels that are carried), window space without a target window, or,
/// at the first selection that has one, a monitor the session does not
/// describe or no window coordinates.
pub fn resolve_request(session: &SessionFile, label: Option<&str>, origin: Origin) -> (r: Result<Vec<(usize, Shape)>, ResolveError>)
    ensures
        ({
            let rs = session.selections@;
            let sel = selected_spec(rs, str_opt(label), rs.len() as int);
            match r {
                Ok(v) => {
                    &&& rs.len() > 0
                    &&& sel.len() > 0
                    &&& !(origin is Window && session.target is None)
                    &&& first_problem(session.monitors@, rs, sel, origin, 0) is None
                    &&& v@.len() == sel.len()
                    &&& forall|k: int| 0 <= k < v@.len() ==> #[trigger] v@[k].0 == sel[k] && stored_for(rs[sel[k]]@, origin) == Some(v@[k].1@)
                },
                Err(e) => if rs.len() == 0 {
                    e == ResolveError::NoSelections
                } else if sel.len() == 0 {
                    e matches ResolveError::UnknownLabel { requested, available } && requested@
                        == (match label {
                        Some(l) => l@,
                        None => Seq::<char>::empty(),
                    }) && available@.map_values(|s: String| s@) == distinct_spec(record_labels(rs), rs.len() as int)
                } else if origin is Window && session.target is None {
                    e == ResolveError::NoTarget
                } else {
                    &&& first_problem(session.monitors@, rs, sel, origin, 0) matches Some(p)
                    &&& problem_error(e, rs, p)
                },
            }
        }),
{
    if session.selections.len() == 0 {
        return Err(ResolveError::NoSelections);
    }
    let wanted = select_by_label(session, label);
    if wanted.len() == 0 {
        let requested = match label {
            Some(l) => l.to_owned(),
            None => String::new(),
        };
        return Err(ResolveError::UnknownLabel { requested, available: distinct_labels(&session.selections) });
    }
    let window = match origin {
        Origin::Window => true,
        _ => false,
    };
    if window && session.target.is_none() {
        return Err(ResolveError::NoTarget);
    }
    let ghost rs = session.selections@;
    let ghost sel = selected_spec(rs, str_opt(label), rs.len() as int);
    let mut out: Vec<(usize, Shape)> = Vec::new();
    let mut k: usize = 0;
    while k < wanted.len()
        invariant
            k <= wanted@.len(),
            rs == session.selections@,
            sel == selected_spec(rs, str_opt(label), rs.len() as int),
            wanted@.len() == sel.len(),
            forall|j: int| 0 <= j < wanted@.len() ==> #[trigger] wanted@[j].0 == sel[j],
            forall|j: int| 0 <= j < wanted@.len() ==> #[trigger] wanted@[j].0 < rs.len(),
            forall|j: int| 0 <= j < wanted@.len() ==> *(#[trigger] wanted@[j].1) == rs[wanted@[j].0 as int],
            rs.len() > 0,
            sel.len() > 0,
            !(origin is Window && session.target is None),
            first_problem(session.monitors@, rs, sel, origin, 0) == first_problem(session.monitors@, rs, sel, origin, k as int),
            out@.len() == k,
            forall|j: int| 0 <= j < k ==> #[trigger] out@[j].0 == sel[j] && stored_for(rs[sel[j]]@, origin) == Some(out@[j].1@),
        decreases wanted@.len() - k,
    {
        let (index, record) = wanted[k];
        proof {
            assert(wanted@[k as int].0 == index);
            assert(*record == rs[index as int]);
        }
        let found = describes_monitor(&session.monitors, record.monitor);
        if !found {
            return Err(ResolveError::UnknownMonitor { selection: index, monitor: record.monitor });
        }
        let stored = match origin {
            Origin::Global => record.global_px.clone_shape(),
            Origin::Monitor(_) => record.px.clone_shape(),
            Origin::Window => match &record.window_px {
                Some(w) => w.clone_shape(),
                None => {
                    return Err(ResolveError::OffTargetMonitor { selection: index, label: record.label.clone() });
                },
            },
        };
        proof {
            assert(record_problem(session.monitors@, sel[k as int], rs[sel[k as int]]@, origin) is None);
            assert(first_problem(session.monitors@, rs, sel, origin, k as int) == first_problem(session.monitors@, rs, sel, origin, k + 1));
        }
        out.push((index, stored));
        k = k + 1;
    }
    proof {
        assert(first_problem(session.monitors@, rs, sel, origin, k as int) is None);
    }
    Ok(out)
}

/// The region to act on once a recorded drift is applied, and the point
/// inside it: the drift is in the session's own physical pixels, so it
/// moves the stored shape before anything else happens to it.
pub fn physical_answer(stored: &Shape, moved: Option<Delta>) -> (r: (Shape, Point))
    requires
        match moved {
            Some(d) => translate_fits(stored@, d.dx as int, d.dy as int) && shape_in_domain(
                translate_spec(stored@, d.dx as int, d.dy as int),
            ),
            None => stored.in_domain(),
        },
    ensures
        r.0@ == (match moved {
            Some(d) => translate_spec(stored@, d.dx as int, d.dy as int),
            None => stored@,
        }),
        click_point_ok(r.0@, r.1),
{
    let region = match moved {
        Some(d) => stored.translated(d.dx, d.dy),
        None => stored.clone_shape(),
    };
    let point = region.click_point();
    (region, point)
}

/// Whether every selection resolved, the aggregate a resolve run reports:
/// `scored[k]` says whether the `k`-th answer carries a relocation score.
/// Nothing resolved is no success, and a relocating run vouches only for
/// regions that were found.
pub fn all_resolved(scored: &[bool], relocated: bool) -> (b: bool)
    ensures
        b == (scored@.len() > 0 && (!relocated || forall|k: int| 0 <= k < scored@.len() ==> #[trigger] scored@[k])),
{
    if scored.len() == 0 {
        return false;
    }
    if !relocated {
        return true;
    }
    let mut k: usize = 0;
    while k < scored.len()
        invariant
            k <= scored@.len(),
            relocated,
            forall|j: int| 0 <= j < k ==> #[trigger] scored@[j],
        decreases scored@.len() - k,
    {
        if !scored[k] {
            return false;
        }
        k = k + 1;
    }
    true
}

/// A monitor-space request ignores the monitor index it names: every
/// selection answers in its own monitor's coordinates, so the stored
/// shapes and the first problem found are the same whatever index is
/// given.
pub proof fn lemma_monitor_index_is_ignored(
    ms: Seq<MonitorRecord>,
    rs: Seq<SelectionRecord>,
    sel: Seq<int>,
    a: usize,
    b: usize,
    k: int,
)
    ensures
        first_problem(ms, rs, sel, Origin::Monitor(a), k) == first_problem(ms, rs, sel, Origin::Monitor(b), k),
        forall|r: SelectionRecordView| #[trigger] stored_for(r, Origin::Monitor(a)) == stored_for(r, Origin::Monitor(b)),
    decreases sel.len() - k,
{
    if 0 <= k < sel.len() {
        lemma_monitor_index_is_ignored(ms, rs, sel, a, b, k + 1);
    }
}

} // verus!
