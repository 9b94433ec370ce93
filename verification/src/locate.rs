//! Re-locating saved regions in a fresh capture: where a crop started,
//! how far a region moved, and why a search could not run.

use vstd::prelude::*;
use crate::arith::{abs_spec, clamp_i32, clamp_spec, max_spec, min_spec};
use crate::geometry::{translate_fits, translate_spec, Point, Rect, Shape, Size};
use crate::session::SelectionRecord;

verus! {

#[derive(Debug, Clone, Copy, PartialEq, Eq, Structural)]
pub enum LocateError {
    TemplateLargerThanScreen,
    EmptyTemplate,
    FlatTemplate,
}

/// The message shown for each error.
pub open spec fn locate_message(e: LocateError) -> Seq<char> {
    match e {
        LocateError::TemplateLargerThanScreen => "the crop is larger than the capture it is searched in"@,
        LocateError::EmptyTemplate => "the crop has no visible pixels to match"@,
        LocateError::FlatTemplate => "the crop is a flat color, which matches anywhere rather than somewhere"@,
    }
}

impl LocateError {
    /// The message shown to the user.
    pub fn to_string(&self) -> (r: String)
        ensures
            r@ == locate_message(*self),
    {
        match self {
            LocateError::TemplateLargerThanScreen => "the crop is larger than the capture it is searched in".to_owned(),
            LocateError::EmptyTemplate => "the crop has no visible pixels to match".to_owned(),
            LocateError::FlatTemplate => "the crop is a flat color, which matches anywhere rather than somewhere".to_owned(),
        }
    }
}

/// How far a selection moved.
#[derive(Debug, Clone, Copy, PartialEq, Eq, Structural)]
pub struct Delta {
    pub dx: i32,
    pub dy: i32,
}

/// Where a selection's crop started in its frame: the top-left of
/// `turned_box`, the shape's bounding box at its rotation, clipped to the
/// frame.
pub fn crop_origin(turned_box: Rect, frame: Size) -> (p: Point)
    ensures
        p.x == min_spec(max_spec(turned_box.x as int, 0), frame.w as int),
        p.y == min_spec(max_spec(turned_box.y as int, 0), frame.h as int),
{
    let x = if turned_box.x > 0 {
        turned_box.x
    } else {
        0
    };
    let y = if turned_box.y > 0 {
        turned_box.y
    } else {
        0
    };
    Point::new(
        if x < frame.w {
            x
        } else {
            frame.w
        },
        if y < frame.h {
            y
        } else {
            frame.h
        },
    )
}

/// The downsampling of the coarse scan for a `tw` by `th` template:
/// small templates scan at full resolution, larger ones at half or a
/// quarter.
pub fn scan_factor(tw: usize, th: usize) -> (f: usize)
    ensures
        f == (if min_spec(tw as int, th as int) < 16 {
            1int
        } else if min_spec(tw as int, th as int) < 32 {
            2int
        } else {
            4int
        }),
{
    let m = if tw < th {
        tw
    } else {
        th
    };
    if m < 16 {
        1
    } else if m < 32 {
        2
    } else {
        4
    }
}

/// The candidate a position hint adds to the search: the hint clamped onto
/// the template positions `0..=max_x` by `0..=max_y`.
pub fn hint_candidate(hint: Point, max_x: usize, max_y: usize) -> (c: (usize, usize))
    requires
        max_x <= i32::MAX,
        max_y <= i32::MAX,
    ensures
        c.0 == clamp_spec(hint.x as int, 0, max_x as int),
        c.1 == clamp_spec(hint.y as int, 0, max_y as int),
{
    let x = clamp_i32(hint.x, 0, max_x as i32);
    let y = clamp_i32(hint.y, 0, max_y as i32);
    (x as usize, y as usize)
}

/// The full-resolution window a candidate at (`cx`, `cy`) is refined in:
/// `margin` either way, cut to the template positions `0..=max_x` by
/// `0..=max_y`, as `(x0, y0, x1, y1)` inclusive.
pub fn refine_window(cx: usize, cy: usize, margin: usize, max_x: usize, max_y: usize) -> (r: (usize, usize, usize, usize))
    requires
        cx + margin <= usize::MAX,
        cy + margin <= usize::MAX,
    ensures
        r.0 == max_spec(cx - margin, 0),
        r.1 == max_spec(cy - margin, 0),
        r.2 == min_spec(cx + margin, max_x as int),
        r.3 == min_spec(cy + margin, max_y as int),
{
    let x0 = if cx >= margin { cx - margin } else { 0 };
    let y0 = if cy >= margin { cy - margin } else { 0 };
    let x1 = if cx + margin < max_x { cx + margin } else { max_x };
    let y1 = if cy + margin < max_y { cy + margin } else { max_y };
    (x0, y0, x1, y1)
}

/// Whether a runner-up match at (`x`, `y`) is a genuinely different
/// location from the best at (`bx`, `by`): more than half the `tw` by `th`
/// template away on some axis.
pub fn separated(x: usize, y: usize, bx: usize, by: usize, tw: usize, th: usize) -> (b: bool)
    ensures
        b == (abs_spec(x - bx) > tw / 2 || abs_spec(y - by) > th / 2),
{
    let dx = if x >= bx { x - bx } else { bx - x };
    let dy = if y >= by { y - by } else { by - y };
    dx > tw / 2 || dy > th / 2
}

/// Where a relocated region now is, and how far it moved.
pub struct Moved {
    pub new_px: Shape,
    pub new_global_px: Shape,
    pub delta: Delta,
}

/// What one relocation says of a record whose crop started at `origin`
/// and was matched with its top-left at `at`: whether to report it
/// ambiguous, and, when it was found unambiguously, where it moved — both
/// of its shapes by the same offset. `found` is whether the match scored
/// at the floor or above.
pub fn relocation_outcome(record: &SelectionRecord, origin: Point, at: Point, found: bool, ambiguous: bool) -> (r: (
    bool,
    Option<Moved>,
))
    requires
        found && !ambiguous ==> {
            let dx = at.x - origin.x;
            let dy = at.y - origin.y;
            &&& i32::MIN <= dx <= i32::MAX && i32::MIN <= dy <= i32::MAX
            &&& translate_fits(record.px@, dx, dy)
            &&& translate_fits(record.global_px@, dx, dy)
        },
    ensures
        r.0 == (found && ambiguous),
        r.1 is Some <==> (found && !ambiguous),
        r.1 matches Some(m) ==> {
            &&& m.delta.dx == at.x - origin.x
            &&& m.delta.dy == at.y - origin.y
            &&& m.new_px@ == translate_spec(record.px@, at.x - origin.x, at.y - origin.y)
            &&& m.new_global_px@ == translate_spec(record.global_px@, at.x - origin.x, at.y - origin.y)
        },
{
    if !(found && !ambiguous) {
        return (found && ambiguous, None);
    }
    let dx = at.x - origin.x;
    let dy = at.y - origin.y;
    let moved = Moved {
        new_px: record.px.translated(dx, dy),
        new_global_px: record.global_px.translated(dx, dy),
        delta: Delta { dx, dy },
    };
    (false, Some(moved))
}

/// Every selection was found, unambiguously: `outcomes[k]` is whether the
/// `k`-th was found and whether it was ambiguous. An empty set is no
/// success — the question was about regions and none was answered.
pub fn all_relocated(outcomes: &[(bool, bool)]) -> (b: bool)
    ensures
        b == (outcomes@.len() > 0 && forall|k: int|
            0 <= k < outcomes@.len() ==> (#[trigger] outcomes@[k]).0 && !outcomes@[k].1),
{
    if outcomes.len() == 0 {
        return false;
    }
    let mut k: usize = 0;
    while k < outcomes.len()
        invariant
            k <= outcomes@.len(),
            forall|j: int| 0 <= j < k ==> (#[trigger] outcomes@[j]).0 && !outcomes@[j].1,
        decreases outcomes@.len() - k,
    {
        let (found, ambiguous) = outcomes[k];
        if !found || ambiguous {
            return false;
        }
        k = k + 1;
    }
    true
}

} // verus!
