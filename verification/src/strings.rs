//! User-facing overlay strings and counted nouns. Everything the overlay
//! renders as text comes from one table so a language table can replace
//! it later. ASCII only — the embedded font covers printable ASCII.

use vstd::prelude::*;
use vstd::string::StringExecFns;
use crate::text::string_of;

verus! {

/// One control-panel row: a short key column and what the key does.
pub type HintRow = (&'static str, &'static str);

#[derive(Debug, Clone, Copy)]
pub struct Strings {
    /// The marking controls, shown while not editing a label.
    pub hud_hint_rows: &'static [HintRow],
    /// The label editor's controls.
    pub hud_edit_rows: &'static [HintRow],
    pub hud_saved_prefix: &'static str,
    pub hud_save_failed_prefix: &'static str,
    pub hud_quit_unsaved: &'static str,
    /// Closing a window that still holds marks: the count goes between
    /// the two halves.
    pub hud_release_blocked_prefix: &'static str,
    pub hud_release_blocked_suffix: &'static str,
    /// A window closed while others remain: that display is live again.
    pub hud_released: &'static str,
    /// A release asked for mid-gesture. Refused rather than fatal.
    pub hud_release_busy: &'static str,
    /// Edge snapping toggled on or off for the rest of the run.
    pub hud_snap_on: &'static str,
    pub hud_snap_off: &'static str,
    /// The panel row's key column for the snap toggle, and the two states
    /// its action column shows.
    pub hud_snap_row_key: &'static str,
    pub hud_snap_row_on: &'static str,
    pub hud_snap_row_off: &'static str,
}

pub open spec fn digit_char(d: nat) -> char {
    (('0' as u32) + d) as char
}

/// The decimal spelling of `n`, without leading zeros.
pub open spec fn decimal(n: nat) -> Seq<char>
    decreases n,
{
    if n < 10 {
        seq![digit_char(n)]
    } else {
        decimal(n / 10).push(digit_char(n % 10))
    }
}

/// The decimal spelling of `n`.
pub fn decimal_chars(n: usize) -> (r: Vec<char>)
    ensures
        r@ == decimal(n as nat),
    decreases n,
{
    let d: u8 = (n % 10) as u8;
    let c: char = (48u8 + d) as char;
    if n < 10 {
        let mut r: Vec<char> = Vec::new();
        r.push(c);
        assert(r@ =~= seq![digit_char(n as nat)]);
        r
    } else {
        let mut r = decimal_chars(n / 10);
        r.push(c);
        r
    }
}

/// The decimal spelling of `n`, for a 64-bit value.
pub fn decimal_chars_u64(n: u64) -> (r: Vec<char>)
    ensures
        r@ == decimal(n as nat),
    decreases n,
{
    let d: u8 = (n % 10) as u8;
    let c: char = (48u8 + d) as char;
    if n < 10 {
        let mut r: Vec<char> = Vec::new();
        r.push(c);
        assert(r@ =~= seq![digit_char(n as nat)]);
        r
    } else {
        let mut r = decimal_chars_u64(n / 10);
        r.push(c);
        r
    }
}

/// The decimal spelling of a signed value: a `-` before the magnitude
/// when negative.
pub open spec fn signed_decimal(v: int) -> Seq<char> {
    if v < 0 {
        seq!['-'] + decimal((-v) as nat)
    } else {
        decimal(v as nat)
    }
}

/// The decimal spelling of `v`, as `{}` formats an `i32`.
pub fn signed_chars(v: i32) -> (r: Vec<char>)
    ensures
        r@ == signed_decimal(v as int),
{
    if v < 0 {
        let m: i64 = -(v as i64);
        let mut r: Vec<char> = Vec::new();
        r.push('-');
        let d = decimal_chars(m as usize);
        let mut i: usize = 0;
        while i < d.len()
            invariant
                i <= d@.len(),
                r@ == seq!['-'] + d@.take(i as int),
            decreases d@.len() - i,
        {
            r.push(d[i]);
            i = i + 1;
            assert(r@ =~= seq!['-'] + d@.take(i as int));
        }
        assert(d@.take(i as int) =~= d@);
        r
    } else {
        decimal_chars(v as usize)
    }
}

/// A count with its noun: `1 region`, and the noun with an `s` added for
/// every other count (`0 regions`, `2 polls`).
pub open spec fn count_spec(n: nat, singular: Seq<char>) -> Seq<char> {
    if n == 1 {
        "1 "@ + singular
    } else {
        decimal(n) + " "@ + singular + "s"@
    }
}

/// `1 region`, `2 regions` — a count with its noun, pluralized by adding
/// an `s`. Every noun this is used with pluralizes that way.
pub fn count(n: usize, singular: &str) -> (r: String)
    ensures
        r@ == count_spec(n as nat, singular@),
{
    if n == 1 {
        let mut r = String::new();
        r.append("1 ");
        r.append(singular);
        r
    } else {
        let mut r = string_of(&decimal_chars(n));
        r.append(" ");
        r.append(singular);
        r.append("s");
        r
    }
}

/// How `{:?}` spells a list of indices: decimals separated by `, `, in
/// brackets.
pub open spec fn debug_indices(v: Seq<usize>) -> Seq<char> {
    seq!['['] + joined_indices(v) + seq![']']
}

pub open spec fn joined_indices(v: Seq<usize>) -> Seq<char>
    decreases v.len(),
{
    if v.len() == 0 {
        Seq::empty()
    } else if v.len() == 1 {
        decimal(v[0] as nat)
    } else {
        joined_indices(v.drop_last()) + seq![',', ' '] + decimal(v.last() as nat)
    }
}

/// `{:?}` of a list of indices.
pub fn debug_index_list(v: &Vec<usize>) -> (r: Vec<char>)
    ensures
        r@ == debug_indices(v@),
{
    let mut r: Vec<char> = Vec::new();
    r.push('[');
    let mut i: usize = 0;
    while i < v.len()
        invariant
            i <= v@.len(),
            r@ == seq!['['] + joined_indices(v@.take(i as int)),
        decreases v@.len() - i,
    {
        let ghost before = r@;
        if i > 0 {
            r.push(',');
            r.push(' ');
        }
        let d = decimal_chars(v[i]);
        let mut k: usize = 0;
        let ghost mid = r@;
        while k < d.len()
            invariant
                k <= d@.len(),
                r@ == mid + d@.take(k as int),
            decreases d@.len() - k,
        {
            r.push(d[k]);
            proof {
                assert(d@.take(k + 1) =~= d@.take(k as int).push(d@[k as int]));
            }
            k = k + 1;
        }
        proof {
            assert(d@.take(k as int) =~= d@);
            assert(v@.take(i + 1).drop_last() =~= v@.take(i as int));
            if i == 0 {
                assert(v@.take(1) =~= seq![v@[0]]);
                assert(r@ =~= seq!['['] + joined_indices(v@.take(1)));
            } else {
                assert(r@ =~= seq!['['] + joined_indices(v@.take(i + 1)));
            }
        }
        i = i + 1;
    }
    r.push(']');
    proof {
        assert(v@.take(i as int) =~= v@);
        assert(r@ =~= debug_indices(v@));
    }
    r
}

} // verus!
