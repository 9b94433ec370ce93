//! The point stream `assert --stdin` reads: one point per line, with an
//! optional per-line expectation.
//!
//! Every malformed line is an error naming what was wrong with it, because
//! a stream that silently skips what it cannot read looks exactly like one
//! that scored everything. Blank lines and `#` comments are part of the
//! grammar, so each caller does not reinvent stripping them.

use vstd::prelude::*;
use vstd::string::StringExecFns;
use crate::geometry::Point;
use crate::text::{
    chars_of, debug_quoted, debug_text, find_char, find_from, parse_i32, parse_i32_spec, slice_of,
    string_of, trim, trimmed,
};

verus! {

/// One line of the stream.
#[derive(Debug, Clone, PartialEq, Eq)]
pub enum Line {
    /// Empty or whitespace only.
    Blank,
    /// A `#` comment.
    Comment,
    /// A point, and the label it is expected to land in when the line
    /// carried one; a per-line expectation overrides the run's `--expect`
    /// for that line only.
    Point { point: Point, expect: Option<String> },
}

pub enum LineView {
    Blank,
    Comment,
    Point { point: Point, expect: Option<Seq<char>> },
}

impl View for Line {
    type V = LineView;

    open spec fn view(&self) -> LineView {
        match self {
            Line::Blank => LineView::Blank,
            Line::Comment => LineView::Comment,
            Line::Point { point, expect } => LineView::Point {
                point: *point,
                expect: match expect {
                    Some(l) => Some(l@),
                    None => None,
                },
            },
        }
    }
}

#[derive(Debug, PartialEq, Eq)]
pub enum PointError {
    NoComma { input: String },
    NotANumber { value: String, input: String },
    EmptyLabel { input: String },
}

pub enum PointErrorView {
    NoComma { input: Seq<char> },
    NotANumber { value: Seq<char>, input: Seq<char> },
    EmptyLabel { input: Seq<char> },
}

impl View for PointError {
    type V = PointErrorView;

    open spec fn view(&self) -> PointErrorView {
        match self {
            PointError::NoComma { input } => PointErrorView::NoComma { input: input@ },
            PointError::NotANumber { value, input } => PointErrorView::NotANumber {
                value: value@,
                input: input@,
            },
            PointError::EmptyLabel { input } => PointErrorView::EmptyLabel { input: input@ },
        }
    }
}

/// The human-readable message for each error; it names both the offending
/// field and the whole line.
pub open spec fn point_message(e: PointErrorView) -> Seq<char> {
    match e {
        PointErrorView::NoComma { input } => debug_text(input)
            + " is not X,Y[,label] — it has no comma"@,
        PointErrorView::NotANumber { value, input } => debug_text(value) + " in "@ + debug_text(
            input,
        ) + " is not a whole number of pixels"@,
        PointErrorView::EmptyLabel { input } => debug_text(input)
            + " ends in a comma with no label — drop the comma, or name the region the point should land in"@,
    }
}

impl PointError {
    /// The message shown to the user.
    pub fn to_string(&self) -> (r: String)
        ensures
            r@ == point_message(self@),
    {
        match self {
            PointError::NoComma { input } => {
                let mut r = debug_quoted(input.as_str());
                r.append(" is not X,Y[,label] — it has no comma");
                r
            },
            PointError::NotANumber { value, input } => {
                let mut r = debug_quoted(value.as_str());
                r.append(" in ");
                let q = debug_quoted(input.as_str());
                r.append(q.as_str());
                r.append(" is not a whole number of pixels");
                r
            },
            PointError::EmptyLabel { input } => {
                let mut r = debug_quoted(input.as_str());
                r.append(
                    " ends in a comma with no label — drop the comma, or name the region the point should land in",
                );
                r
            },
        }
    }
}

/// A coordinate field: a whole number of pixels, surrounding whitespace
/// ignored; `None` when it is not one.
pub open spec fn coord_spec(field: Seq<char>) -> Option<i32> {
    parse_i32_spec(trim(field))
}

/// What one line means. Only the first two commas are structural, so a
/// label may itself contain commas. The x coordinate is checked before
/// the y coordinate, and both before the label.
pub open spec fn line_spec(text: Seq<char>) -> Result<LineView, PointErrorView> {
    let t = trim(text);
    if t.len() == 0 {
        Ok(LineView::Blank)
    } else if t[0] == '#' {
        Ok(LineView::Comment)
    } else {
        let c1 = find_from(t, ',', 0);
        if c1 >= t.len() {
            Err(PointErrorView::NoComma { input: t })
        } else {
            let x = t.take(c1);
            let after = t.skip(c1 + 1);
            let c2 = find_from(after, ',', 0);
            let y = after.take(c2);
            match coord_spec(x) {
                None => Err(PointErrorView::NotANumber { value: trim(x), input: t }),
                Some(px) => match coord_spec(y) {
                    None => Err(PointErrorView::NotANumber { value: trim(y), input: t }),
                    Some(py) => if c2 < after.len() {
                        let label = trim(after.skip(c2 + 1));
                        if label.len() == 0 {
                            Err(PointErrorView::EmptyLabel { input: t })
                        } else {
                            Ok(LineView::Point { point: Point { x: px, y: py }, expect: Some(label) })
                        }
                    } else {
                        Ok(LineView::Point { point: Point { x: px, y: py }, expect: None })
                    },
                },
            }
        }
    }
}

fn coord(field: &Vec<char>, input: &Vec<char>) -> (r: Result<i32, PointError>)
    ensures
        match r {
            Ok(v) => coord_spec(field@) == Some(v),
            Err(e) => coord_spec(field@) is None && e@ == (PointErrorView::NotANumber {
                value: trim(field@),
                input: input@,
            }),
        },
{
    let t = trimmed(field);
    match parse_i32(&t) {
        Some(v) => Ok(v),
        None => Err(PointError::NotANumber { value: string_of(&t), input: string_of(input) }),
    }
}

/// Parse one line: `X,Y`, `X,Y,label`, blank, or `# comment`. Coordinates
/// are whole physical pixels and may be negative.
pub fn parse_line(text: &str) -> (r: Result<Line, PointError>)
    ensures
        match r {
            Ok(l) => line_spec(text@) == Ok::<LineView, PointErrorView>(l@),
            Err(e) => line_spec(text@) == Err::<LineView, PointErrorView>(e@),
        },
{
    let t = trimmed(&chars_of(text));
    if t.len() == 0 {
        return Ok(Line::Blank);
    }
    if t[0] == '#' {
        return Ok(Line::Comment);
    }
    let c1 = find_char(&t, ',', 0);
    if c1 == t.len() {
        return Err(PointError::NoComma { input: string_of(&t) });
    }
    let x = slice_of(&t, 0, c1);
    let after = slice_of(&t, c1 + 1, t.len());
    let c2 = find_char(&after, ',', 0);
    let y = slice_of(&after, 0, c2);
    proof {
        assert(x@ =~= t@.take(c1 as int));
        assert(after@ =~= t@.skip(c1 + 1));
        assert(y@ =~= after@.take(c2 as int));
    }
    let px = match coord(&x, &t) {
        Ok(v) => v,
        Err(e) => return Err(e),
    };
    let py = match coord(&y, &t) {
        Ok(v) => v,
        Err(e) => return Err(e),
    };
    if c2 < after.len() {
        let rest = slice_of(&after, c2 + 1, after.len());
        proof {
            assert(rest@ =~= after@.skip(c2 + 1));
        }
        let label = trimmed(&rest);
        if label.len() == 0 {
            return Err(PointError::EmptyLabel { input: string_of(&t) });
        }
        Ok(Line::Point { point: Point::new(px, py), expect: Some(string_of(&label)) })
    } else {
        Ok(Line::Point { point: Point::new(px, py), expect: None })
    }
}

} // verus!
