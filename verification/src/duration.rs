//! Human durations on the CLI: `500ms`, `30s`, `2m`.
//!
//! One integer and one unit, and nothing else. A bare number is refused
//! because `--timeout 30` reads as seconds to one person and milliseconds
//! to another. Decimals, compounds (`1m30s`), uppercase, and internal
//! spaces are refused too: a value this program cannot honour exactly is
//! an error with an actionable message, never a guess.

use std::time::Duration;
use vstd::prelude::*;
use vstd::string::StringExecFns;
use crate::text::{
    chars_of, debug_quoted, debug_text, eq_lit, first_non_digit, parse_u64, parse_u64_spec,
    skip_digits, slice_of, string_of,
};

verus! {

#[derive(Debug, PartialEq, Eq)]
pub enum DurationError {
    Empty,
    NoUnit { input: String },
    UnknownUnit { unit: String, input: String },
    NotAnInteger { digits: String, input: String },
    Overflow { input: String },
}

pub enum DurationErrorView {
    Empty,
    NoUnit { input: Seq<char> },
    UnknownUnit { unit: Seq<char>, input: Seq<char> },
    NotAnInteger { digits: Seq<char>, input: Seq<char> },
    Overflow { input: Seq<char> },
}

impl View for DurationError {
    type V = DurationErrorView;

    open spec fn view(&self) -> DurationErrorView {
        match self {
            DurationError::Empty => DurationErrorView::Empty,
            DurationError::NoUnit { input } => DurationErrorView::NoUnit { input: input@ },
            DurationError::UnknownUnit { unit, input } => DurationErrorView::UnknownUnit {
                unit: unit@,
                input: input@,
            },
            DurationError::NotAnInteger { digits, input } => DurationErrorView::NotAnInteger {
                digits: digits@,
                input: input@,
            },
            DurationError::Overflow { input } => DurationErrorView::Overflow { input: input@ },
        }
    }
}

/// The human-readable message for each error.
pub open spec fn duration_message(e: DurationErrorView) -> Seq<char> {
    match e {
        DurationErrorView::Empty => "a duration cannot be empty — write it as 30s, 500ms, or 2m"@,
        DurationErrorView::NoUnit { input } => debug_text(input)
            + " has no unit — write 30s, 500ms, or 2m; a bare number is ambiguous"@,
        DurationErrorView::UnknownUnit { unit, input } => debug_text(unit) + " in "@
            + debug_text(input) + " is not a duration unit — use ms, s, or m"@,
        DurationErrorView::NotAnInteger { digits, input } => debug_text(digits) + " in "@
            + debug_text(input) + " is not a whole number — durations are integers, not 1.5s"@,
        DurationErrorView::Overflow { input } => debug_text(input)
            + " is too large to represent"@,
    }
}

impl DurationError {
    /// The message shown to the user.
    pub fn to_string(&self) -> (r: String)
        ensures
            r@ == duration_message(self@),
    {
        match self {
            DurationError::Empty => {
                let mut r = String::new();
                r.append("a duration cannot be empty — write it as 30s, 500ms, or 2m");
                r
            },
            DurationError::NoUnit { input } => {
                let mut r = debug_quoted(input.as_str());
                r.append(" has no unit — write 30s, 500ms, or 2m; a bare number is ambiguous");
                r
            },
            DurationError::UnknownUnit { unit, input } => {
                let mut r = debug_quoted(unit.as_str());
                r.append(" in ");
                let q = debug_quoted(input.as_str());
                r.append(q.as_str());
                r.append(" is not a duration unit — use ms, s, or m");
                r
            },
            DurationError::NotAnInteger { digits, input } => {
                let mut r = debug_quoted(digits.as_str());
                r.append(" in ");
                let q = debug_quoted(input.as_str());
                r.append(q.as_str());
                r.append(" is not a whole number — durations are integers, not 1.5s");
                r
            },
            DurationError::Overflow { input } => {
                let mut r = debug_quoted(input.as_str());
                r.append(" is too large to represent");
                r
            },
        }
    }
}

/// Milliseconds per unit: `ms`, `s`, `m`, and nothing else.
pub open spec fn unit_millis(unit: Seq<char>) -> Option<u64> {
    if unit == "ms"@ {
        Some(1)
    } else if unit == "s"@ {
        Some(1000)
    } else if unit == "m"@ {
        Some(60000)
    } else {
        None
    }
}

/// What `<integer><unit>` means, in milliseconds, or which error it is.
pub open spec fn duration_spec(t: Seq<char>) -> Result<nat, DurationErrorView> {
    if t.len() == 0 {
        Err(DurationErrorView::Empty)
    } else {
        let split = skip_digits(t, 0);
        let digits = t.take(split);
        let unit = t.skip(split);
        if split == t.len() {
            Err(DurationErrorView::NoUnit { input: t })
        } else if split == 0 {
            Err(DurationErrorView::NotAnInteger { digits, input: t })
        } else {
            match unit_millis(unit) {
                None => if unit[0] == '.' {
                    Err(DurationErrorView::NotAnInteger { digits: t, input: t })
                } else {
                    Err(DurationErrorView::UnknownUnit { unit, input: t })
                },
                Some(per) => match parse_u64_spec(digits) {
                    None => Err(DurationErrorView::Overflow { input: t }),
                    Some(v) => if v * per > u64::MAX {
                        Err(DurationErrorView::Overflow { input: t })
                    } else {
                        Ok((v * per) as nat)
                    },
                },
            }
        }
    }
}

/// How many nanoseconds a duration spans, as `Duration::as_nanos` reports
/// it.
pub uninterp spec fn nanos_of(d: Duration) -> nat;

/// `Duration::from_millis` (std): the duration of that many milliseconds,
/// which spans `ms * 1_000_000` nanoseconds.
#[verifier::external_body]
pub(crate) fn duration_from_millis(ms: u64) -> (d: Duration)
    ensures
        nanos_of(d) == ms as nat * 1_000_000,
{
    Duration::from_millis(ms)
}

/// `Duration::as_nanos` (std): the whole number of nanoseconds the
/// duration spans.
#[verifier::external_body]
pub(crate) fn total_nanos(d: Duration) -> (n: u128)
    ensures
        n == nanos_of(d),
{
    d.as_nanos()
}

/// Parse `<integer><unit>` where unit is `ms`, `s`, or `m`. Zero parses
/// (`0s`): whether a command accepts a zero timeout is that command's rule.
pub fn parse_duration(text: &str) -> (r: Result<Duration, DurationError>)
    ensures
        match r {
            Ok(d) => duration_spec(text@) is Ok && nanos_of(d) == duration_spec(text@)->Ok_0 * 1_000_000,
            Err(e) => duration_spec(text@) == Err::<nat, DurationErrorView>(e@),
        },
{
    let t = chars_of(text);
    if t.len() == 0 {
        return Err(DurationError::Empty);
    }
    let split = first_non_digit(&t);
    if split == t.len() {
        return Err(DurationError::NoUnit { input: string_of(&t) });
    }
    let digits = slice_of(&t, 0, split);
    let unit = slice_of(&t, split, t.len());
    proof {
        assert(digits@ =~= t@.take(split as int));
        assert(unit@ =~= t@.skip(split as int));
    }
    if split == 0 {
        return Err(DurationError::NotAnInteger { digits: string_of(&digits), input: string_of(&t) });
    }
    let per: u64 = if eq_lit(&unit, "ms") {
        1
    } else if eq_lit(&unit, "s") {
        1000
    } else if eq_lit(&unit, "m") {
        60000
    } else if unit[0] == '.' {
        return Err(DurationError::NotAnInteger { digits: string_of(&t), input: string_of(&t) });
    } else {
        return Err(DurationError::UnknownUnit { unit: string_of(&unit), input: string_of(&t) });
    };
    let value = match parse_u64(&digits) {
        Some(v) => v,
        None => return Err(DurationError::Overflow { input: string_of(&t) }),
    };
    match value.checked_mul(per) {
        Some(ms) => Ok(duration_from_millis(ms)),
        None => Err(DurationError::Overflow { input: string_of(&t) }),
    }
}

} // verus!
