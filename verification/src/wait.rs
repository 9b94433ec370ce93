//! Blocking until a region matches or stops matching — the decisions
//! behind `pixelcoords wait`.
//!
//! The loop itself lives in the binary, because polling needs a capture.
//! What lives here decides when it ends: `--timeout` is turned into a poll
//! budget once, up front, so the loop counts rather than consults the
//! time — and gets the same number of chances however slow the machine.

use std::time::Duration;
use vstd::prelude::*;
use vstd::string::StringExecFns;
use crate::duration::{nanos_of, total_nanos};

verus! {

/// What `wait` is waiting for.
#[derive(Debug, Clone, Copy, PartialEq, Eq, Structural)]
pub enum Condition {
    /// Every targeted region matches its saved crop again.
    Match,
    /// Any targeted region has stopped matching.
    Change,
}

#[derive(Debug, PartialEq, Eq)]
pub enum WaitError {
    /// A zero interval would poll as fast as capture allows.
    ZeroInterval,
    /// Nothing would be polled twice.
    IntervalExceedsTimeout { interval: Duration, timeout: Duration },
}

/// How `{:?}` spells a duration (`2s`, `500ms`). The formatting rules are
/// std's and are not restated here.
pub uninterp spec fn duration_debug(d: Duration) -> Seq<char>;

/// `<Duration as Debug>::fmt` (std), through `format!`. The contract names
/// the text; it depends on the duration alone.
#[verifier::external_body]
fn debug_duration(d: Duration) -> (s: String)
    ensures
        s@ == duration_debug(d),
{
    format!("{:?}", d)
}

/// The message for each error.
pub open spec fn wait_message(e: WaitError) -> Seq<char> {
    match e {
        WaitError::ZeroInterval => "--interval 0 would poll as fast as capture allows — pass a nonzero interval"@,
        WaitError::IntervalExceedsTimeout { interval, timeout } => "--interval "@ + duration_debug(
            interval,
        ) + " is longer than --timeout "@ + duration_debug(timeout)
            + ", so nothing would be polled twice — shorten the interval or lengthen the timeout"@,
    }
}

impl WaitError {
    /// The message shown to the user.
    pub fn to_string(&self) -> (r: String)
        ensures
            r@ == wait_message(*self),
    {
        match self {
            WaitError::ZeroInterval => {
                let mut r = String::new();
                r.append("--interval 0 would poll as fast as capture allows — pass a nonzero interval");
                r
            },
            WaitError::IntervalExceedsTimeout { interval, timeout } => {
                let mut r = String::new();
                r.append("--interval ");
                let a = debug_duration(*interval);
                r.append(a.as_str());
                r.append(" is longer than --timeout ");
                let b = debug_duration(*timeout);
                r.append(b.as_str());
                r.append(", so nothing would be polled twice — shorten the interval or lengthen the timeout");
                r
            },
        }
    }
}

/// How many polls a timeout allows at an interval: the first poll is
/// immediate, then one per whole interval that fits (in whole
/// milliseconds), capped at `u32::MAX`.
pub open spec fn budget_spec(timeout_ns: nat, interval_ns: nat) -> u32 {
    let spans = (timeout_ns / 1_000_000) / (interval_ns / 1_000_000);
    if spans >= u32::MAX { u32::MAX } else { (spans + 1) as u32 }
}

/// How many polls a timeout allows. The first poll is immediate, so `30s`
/// at `500ms` allows 61: one at zero, then sixty more. Capture time is
/// deliberately not counted.
pub fn poll_budget(timeout: Duration, interval: Duration) -> (r: Result<u32, WaitError>)
    requires
        nanos_of(interval) == 0 || nanos_of(interval) > nanos_of(timeout) || nanos_of(interval)
            >= 1_000_000,
    ensures
        match r {
            Ok(n) => 0 < nanos_of(interval) <= nanos_of(timeout) && n == budget_spec(
                nanos_of(timeout),
                nanos_of(interval),
            ),
            Err(WaitError::ZeroInterval) => nanos_of(interval) == 0,
            Err(WaitError::IntervalExceedsTimeout { interval: i, timeout: t }) => 0 < nanos_of(interval)
                && nanos_of(interval) > nanos_of(timeout) && i == interval && t == timeout,
        },
{
    let i = total_nanos(interval);
    let t = total_nanos(timeout);
    if i == 0 {
        return Err(WaitError::ZeroInterval);
    }
    if i > t {
        return Err(WaitError::IntervalExceedsTimeout { interval, timeout });
    }
    let spans = (t / 1_000_000) / (i / 1_000_000);
    if spans >= 0xFFFF_FFFF {
        Ok(u32::MAX)
    } else {
        Ok(spans as u32 + 1)
    }
}

/// Whether one poll ends the wait, given for each watched region whether
/// its score cleared the floor: `Match` needs every region to, `Change`
/// fires on the first one below it. No regions satisfies neither — a wait
/// that verified nothing has not succeeded.
pub fn satisfied(condition: Condition, clears: &[bool]) -> (b: bool)
    ensures
        b == (clears@.len() > 0 && match condition {
            Condition::Match => forall|k: int| 0 <= k < clears@.len() ==> #[trigger] clears@[k],
            Condition::Change => exists|k: int| 0 <= k < clears@.len() && !#[trigger] clears@[k],
        }),
{
    if clears.len() == 0 {
        return false;
    }
    let mut k: usize = 0;
    while k < clears.len()
        invariant
            k <= clears@.len(),
            forall|j: int| 0 <= j < k ==> #[trigger] clears@[j],
        decreases clears@.len() - k,
    {
        if !clears[k] {
            return match condition {
                Condition::Match => false,
                Condition::Change => true,
            };
        }
        k = k + 1;
    }
    match condition {
        Condition::Match => true,
        Condition::Change => false,
    }
}

/// For a single watched region the two verbs are exact complements: a
/// score at the floor counts as matching, so exactly one of `Match` and
/// `Change` ends the wait.
pub proof fn lemma_one_region_verbs_are_complements(clears: Seq<bool>)
    requires
        clears.len() == 1,
    ensures
        (forall|k: int| 0 <= k < clears.len() ==> #[trigger] clears[k]) != (exists|k: int|
            0 <= k < clears.len() && !#[trigger] clears[k]),
{
    if !clears[0] {
        assert(exists|k: int| 0 <= k < clears.len() && !#[trigger] clears[k]);
    }
}

/// The poll budget counts whole intervals: for a timeout of `tm` and an
/// interval of `im` whole milliseconds with `0 < im <= tm`, the budget `n`
/// is at least 1, its `n - 1` intervals after the immediate first poll fit
/// in the timeout, and either one interval more would overrun it or the
/// budget sits at the `u32::MAX` cap. So 500 ms at 100 ms gives 6.
pub proof fn lemma_the_budget_counts_whole_intervals(tm: nat, im: nat)
    requires
        0 < im <= tm,
    ensures
        ({
            let n = budget_spec(tm * 1_000_000, im * 1_000_000) as int;
            &&& n >= 1
            &&& (n - 1) * im <= tm
            &&& n == u32::MAX || tm < n * im
        }),
{
    let t = tm * 1_000_000;
    let i = im * 1_000_000;
    assert(t / 1_000_000 == tm) by (nonlinear_arith)
        requires
            t == tm * 1_000_000,
    ;
    assert(i / 1_000_000 == im) by (nonlinear_arith)
        requires
            i == im * 1_000_000,
    ;
    let q = tm / im;
    assert(q * im <= tm < (q + 1) * im) by (nonlinear_arith)
        requires
            im > 0,
            q == tm / im,
    ;
    assert(q >= 1) by (nonlinear_arith)
        requires
            0 < im <= tm,
            q == tm / im,
    ;
    let n = budget_spec(t, i) as int;
    if q >= u32::MAX {
        assert(n == u32::MAX);
        assert((n - 1) * im <= q * im) by (nonlinear_arith)
            requires
                n - 1 <= q,
                im > 0,
        ;
    } else {
        assert(n == q + 1);
    }
}

} // verus!
