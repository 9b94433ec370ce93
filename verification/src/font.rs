//! Monospace text layout for the overlay's captions: every glyph takes
//! the same advance, so widths are "count times advance". The advance
//! itself comes from the typeface's metrics at the caption's scale.

use vstd::prelude::*;
use crate::text::{chars_of, string_of};

verus! {

/// Pixel width of `len` glyphs whose advance is `advance`.
pub fn text_width(len: usize, advance: i32) -> (w: i32)
    requires
        len * advance <= i32::MAX,
        len * advance >= i32::MIN,
        len <= i32::MAX,
    ensures
        w == len * advance,
{
    (len as i32) * advance
}

/// How many glyphs of advance `advance` (at least 1) fit in `max_width`
/// pixels; none when the width is negative.
pub open spec fn glyph_budget(max_width: int, advance: int) -> int {
    if max_width < 0 {
        0
    } else {
        max_width / (if advance > 1 {
            advance
        } else {
            1
        })
    }
}

/// How many glyphs of advance `advance` (at least 1) fit in `max_width`
/// pixels; none when the width is negative.
pub fn fits_in_width(max_width: i32, advance: i32) -> (n: usize)
    ensures
        n == glyph_budget(max_width as int, advance as int),
{
    let a = if advance > 1 {
        advance
    } else {
        1
    };
    if max_width < 0 {
        return 0;
    }
    (max_width / a) as usize
}

/// `text` as it fits in `budget` glyphs: whole when it fits, cut to
/// `budget - 2` glyphs and marked with `..` when it does not, and empty
/// when not even that leaves anything to say.
pub open spec fn fitted(text: Seq<char>, budget: int) -> Seq<char> {
    if text.len() <= budget {
        text
    } else if budget <= 2 {
        Seq::empty()
    } else {
        text.take(budget - 2) + seq!['.', '.']
    }
}

/// `text` shortened to fit `max_width` pixels at glyph advance `advance`,
/// marking a cut with `..`, so an over-long message shows that it was cut
/// rather than losing its tail silently.
pub fn fit_to_width(text: &str, max_width: i32, advance: i32) -> (r: String)
    ensures
        r@ == fitted(text@, glyph_budget(max_width as int, advance as int)),
{
    let budget = fits_in_width(max_width, advance);
    let chars = chars_of(text);
    if chars.len() <= budget {
        return string_of(&chars);
    }
    if budget <= 2 {
        return String::new();
    }
    let mut kept: Vec<char> = Vec::new();
    let mut i: usize = 0;
    while i < budget - 2
        invariant
            i <= budget - 2,
            budget - 2 < chars@.len(),
            kept@ == chars@.take(i as int),
        decreases budget - 2 - i,
    {
        kept.push(chars[i]);
        proof {
            assert(chars@.take(i + 1) =~= chars@.take(i as int).push(chars@[i as int]));
        }
        i = i + 1;
    }
    kept.push('.');
    kept.push('.');
    proof {
        assert(kept@ =~= chars@.take(budget - 2) + seq!['.', '.']);
    }
    string_of(&kept)
}

} // verus!
