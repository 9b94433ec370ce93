//! Per-region pixel comparison — the counting behind `pixelcoords diff`.
//!
//! A saved crop already carries its shape in its alpha channel, so rotated
//! and concave regions compare by their own silhouette: a pixel is in the
//! mask when its alpha reaches [`MASK_ALPHA_FLOOR`].

use vstd::prelude::*;
use vstd::string::StringExecFns;
use crate::geometry::Point;
use crate::strings::{signed_chars, signed_decimal};
use crate::text::append_chars;

verus! {

/// Alpha at or above this is inside a crop's shape; below it is outside.
pub const MASK_ALPHA_FLOOR: u8 = 128;

#[derive(Debug, PartialEq, Eq)]
pub enum DiffError {
    /// The crop has no visible pixels to compare.
    EmptyCrop,
    /// The crop is larger than the frame it is compared against.
    CropLargerThanFrame,
    /// The crop sits outside the frame at (`x`, `y`).
    OutOfFrame { x: i32, y: i32 },
}

/// The message shown for each error.
pub open spec fn diff_message(e: DiffError) -> Seq<char> {
    match e {
        DiffError::EmptyCrop => "the crop has no visible pixels to compare"@,
        DiffError::CropLargerThanFrame => "the crop is larger than the frame it is compared against"@,
        DiffError::OutOfFrame { x, y } => "the crop sits outside the frame at ("@ + signed_decimal(
            x as int,
        ) + ", "@ + signed_decimal(y as int) + ")"@,
    }
}

impl DiffError {
    /// The message shown to the user.
    pub fn to_string(&self) -> (r: String)
        ensures
            r@ == diff_message(*self),
    {
        match self {
            DiffError::EmptyCrop => "the crop has no visible pixels to compare".to_owned(),
            DiffError::CropLargerThanFrame => "the crop is larger than the frame it is compared against".to_owned(),
            DiffError::OutOfFrame { x, y } => {
                let mut r = "the crop sits outside the frame at (".to_owned();
                append_chars(&mut r, &signed_chars(*x));
                r.append(", ");
                append_chars(&mut r, &signed_chars(*y));
                r.append(")");
                r
            },
        }
    }
}

/// How many of the first `k` pixels are in the mask.
pub open spec fn count_masked(m: Seq<bool>, k: int) -> nat
    decreases k,
{
    if k <= 0 {
        0
    } else {
        count_masked(m, k - 1) + if m[k - 1] { 1nat } else { 0nat }
    }
}

/// The shape mask an RGBA crop carries: one flag per pixel, set where the
/// alpha reaches the floor.
pub open spec fn mask_of(rgba: Seq<u8>, npix: int) -> Seq<bool> {
    Seq::new(npix as nat, |i: int| rgba[4 * i + 3] >= MASK_ALPHA_FLOOR)
}

/// A saved crop prepared for comparison: its colour, and the shape mask
/// its alpha channel carries. Preparing it is where a crop with nothing
/// visible is refused, so a changed share can never divide by zero.
#[derive(Debug, Clone)]
pub struct Baseline {
    w: usize,
    h: usize,
    rgba: Vec<u8>,
    mask: Vec<bool>,
    masked_px: u64,
}

pub struct BaselineView {
    pub w: nat,
    pub h: nat,
    pub rgba: Seq<u8>,
    pub mask: Seq<bool>,
    pub masked_px: nat,
}

impl View for Baseline {
    type V = BaselineView;

    closed spec fn view(&self) -> BaselineView {
        BaselineView {
            w: self.w as nat,
            h: self.h as nat,
            rgba: self.rgba@,
            mask: self.mask@,
            masked_px: self.masked_px as nat,
        }
    }
}

/// The crop is `w` by `h`, its mask follows its alpha, and the count is
/// the mask's.
pub open spec fn baseline_ok(b: BaselineView) -> bool {
    &&& b.rgba.len() == 4 * (b.w * b.h)
    &&& b.mask == mask_of(b.rgba, (b.w * b.h) as int)
    &&& b.masked_px == count_masked(b.mask, (b.w * b.h) as int)
    &&& b.masked_px > 0
}

impl Baseline {
    /// From a crop's RGBA8 bytes. Alpha is the mask, not content; a crop
    /// with no pixel in the mask is refused.
    pub fn from_rgba(w: usize, h: usize, rgba: &[u8]) -> (r: Result<Self, DiffError>)
        requires
            rgba@.len() == w * h * 4,
        ensures
            match r {
                Ok(b) => baseline_ok(b@) && b@.w == w && b@.h == h && b@.rgba == rgba@,
                Err(e) => e == DiffError::EmptyCrop && count_masked(mask_of(rgba@, w * h), w * h) == 0,
            },
    {
        let len = rgba.len();
        let n = len / 4;
        proof {
            assert(n == w * h);
        }
        let mut mask: Vec<bool> = Vec::new();
        let mut count: u64 = 0;
        let mut i: usize = 0;
        while i < n
            invariant
                n == w * h,
                len == rgba@.len(),
                rgba@.len() == 4 * n,
                i <= n,
                mask@.len() == i,
                forall|j: int| 0 <= j < i ==> #[trigger] mask@[j] == (rgba@[4 * j + 3] >= MASK_ALPHA_FLOOR),
                count == count_masked(mask@, i as int),
                count <= i,
            decreases n - i,
        {
            let inside = rgba[4 * i + 3] >= MASK_ALPHA_FLOOR;
            let ghost before = mask@;
            mask.push(inside);
            proof {
                assert forall|k: int| 0 <= k <= i implies count_masked(mask@, k) == count_masked(before, k) by {
                    lemma_count_prefix(mask@, before, k);
                }
            }
            if inside {
                count = count + 1;
            }
            i = i + 1;
        }
        proof {
            assert(mask@ =~= mask_of(rgba@, w * h));
        }
        if count == 0 {
            return Err(DiffError::EmptyCrop);
        }
        let mut bytes: Vec<u8> = Vec::new();
        let mut k: usize = 0;
        while k < rgba.len()
            invariant
                k <= rgba@.len(),
                bytes@ == rgba@.take(k as int),
            decreases rgba@.len() - k,
        {
            bytes.push(rgba[k]);
            k = k + 1;
            assert(bytes@ =~= rgba@.take(k as int));
        }
        assert(bytes@ =~= rgba@);
        Ok(Baseline { w, h, rgba: bytes, mask, masked_px: count })
    }

    /// Pixels the shape covers — the denominator of a changed share.
    pub fn masked_px(&self) -> (n: u64)
        ensures
            n == self@.masked_px,
    {
        self.masked_px
    }
}

proof fn lemma_count_prefix(a: Seq<bool>, b: Seq<bool>, k: int)
    requires
        0 <= k <= b.len(),
        b.len() <= a.len(),
        forall|j: int| 0 <= j < b.len() ==> a[j] == b[j],
    ensures
        count_masked(a, k) == count_masked(b, k),
    decreases k,
{
    if k > 0 {
        lemma_count_prefix(a, b, k - 1);
    }
}

/// The counts behind one region's comparison: pixels in the mask, how
/// many of them changed, and the summed absolute channel difference over
/// those that did.
#[derive(Debug, Clone, Copy, PartialEq, Eq, Structural)]
pub struct PixelDiff {
    pub masked_px: u64,
    pub changed_px: u64,
    pub delta_total: u64,
}

pub open spec fn absdiff(a: u8, b: u8) -> int {
    if a >= b { a - b } else { b - a }
}

/// The summed RGB difference between crop pixel (`col`, `row`) and the
/// frame pixel it lies over when the crop's top-left sits at (`ox`, `oy`).
pub open spec fn pixel_delta(b: BaselineView, frame: Seq<u8>, fw: int, ox: int, oy: int, row: int, col: int) -> int {
    let s = (row * b.w + col) * 4;
    let l = ((oy + row) * fw + ox + col) * 4;
    absdiff(b.rgba[s], frame[l]) + absdiff(b.rgba[s + 1], frame[l + 1]) + absdiff(b.rgba[s + 2], frame[l + 2])
}

/// Over the first `c` pixels of crop row `row`: (changed pixels, summed
/// difference of those).
pub open spec fn row_tally(b: BaselineView, frame: Seq<u8>, fw: int, ox: int, oy: int, row: int, c: int) -> (nat, nat)
    decreases c,
{
    if c <= 0 {
        (0, 0)
    } else {
        let prev = row_tally(b, frame, fw, ox, oy, row, c - 1);
        let d = pixel_delta(b, frame, fw, ox, oy, row, c - 1);
        if b.mask[row * b.w + c - 1] && d > 0 {
            (prev.0 + 1, prev.1 + d as nat)
        } else {
            prev
        }
    }
}

/// Over the first `r` crop rows: (changed pixels, summed difference).
pub open spec fn tally(b: BaselineView, frame: Seq<u8>, fw: int, ox: int, oy: int, r: int) -> (nat, nat)
    decreases r,
{
    if r <= 0 {
        (0, 0)
    } else {
        let prev = tally(b, frame, fw, ox, oy, r - 1);
        let row = row_tally(b, frame, fw, ox, oy, r - 1, b.w as int);
        (prev.0 + row.0, prev.1 + row.1)
    }
}

proof fn lemma_row_tally_bound(b: BaselineView, frame: Seq<u8>, fw: int, ox: int, oy: int, row: int, c: int)
    requires
        c >= 0,
    ensures
        row_tally(b, frame, fw, ox, oy, row, c).0 <= c,
        row_tally(b, frame, fw, ox, oy, row, c).1 <= 765 * c,
    decreases c,
{
    if c > 0 {
        lemma_row_tally_bound(b, frame, fw, ox, oy, row, c - 1);
    }
}

proof fn lemma_tally_bound(b: BaselineView, frame: Seq<u8>, fw: int, ox: int, oy: int, r: int)
    requires
        r >= 0,
    ensures
        tally(b, frame, fw, ox, oy, r).0 <= r * b.w,
        tally(b, frame, fw, ox, oy, r).1 <= 765 * (r * b.w),
    decreases r,
{
    if r > 0 {
        lemma_tally_bound(b, frame, fw, ox, oy, r - 1);
        lemma_row_tally_bound(b, frame, fw, ox, oy, r - 1, b.w as int);
        assert(r * b.w == (r - 1) * b.w + b.w) by (nonlinear_arith);
    }
}

proof fn lemma_crop_index(w: int, h: int, row: int, col: int)
    requires
        0 <= row < h,
        0 <= col < w,
    ensures
        0 <= row * w + col < w * h,
        (row * w + col) * 4 + 3 < 4 * (w * h),
{
    assert(0 <= row * w) by (nonlinear_arith)
        requires
            row >= 0,
            w > 0,
    ;
    assert(row * w + col < w * h) by (nonlinear_arith)
        requires
            0 <= row < h,
            0 <= col < w,
    ;
}

/// Compare a baseline against the same-sized window of `frame` (RGBA8,
/// `frame_w` by `frame_h`) whose top-left is `at`, over the baseline's
/// mask, RGB only: alpha is the mask, never content.
pub fn compare_pixels(b: &Baseline, frame_w: usize, frame_h: usize, frame: &[u8], at: Point) -> (r: Result<PixelDiff, DiffError>)
    requires
        baseline_ok(b@),
        frame@.len() == frame_w * frame_h * 4,
        765 * (b@.w * b@.h) <= u64::MAX,
    ensures
        match r {
            Err(DiffError::CropLargerThanFrame) => b@.w > frame_w || b@.h > frame_h,
            Err(DiffError::OutOfFrame { x, y }) => b@.w <= frame_w && b@.h <= frame_h && x == at.x && y == at.y
                && (at.x < 0 || at.y < 0 || at.x + b@.w > frame_w || at.y + b@.h > frame_h),
            Err(DiffError::EmptyCrop) => false,
            Ok(d) => {
                &&& b@.w <= frame_w && b@.h <= frame_h
                &&& 0 <= at.x && 0 <= at.y && at.x + b@.w <= frame_w && at.y + b@.h <= frame_h
                &&& d.masked_px == b@.masked_px
                &&& (d.changed_px as nat, d.delta_total as nat) == tally(b@, frame@, frame_w as int, at.x as int, at.y as int, b@.h as int)
            },
        },
{
    if b.w > frame_w || b.h > frame_h {
        return Err(DiffError::CropLargerThanFrame);
    }
    if at.x < 0 || at.y < 0 || at.x as usize > frame_w - b.w || at.y as usize > frame_h - b.h {
        return Err(DiffError::OutOfFrame { x: at.x, y: at.y });
    }
    let ox = at.x as usize;
    let oy = at.y as usize;
    let ghost bv = b@;
    let ghost fv = frame@;
    let blen = b.rgba.len();
    let flen = frame.len();
    let mut changed: u64 = 0;
    let mut total: u64 = 0;
    let mut row: usize = 0;
    while row < b.h
        invariant
            bv == b@,
            fv == frame@,
            blen == bv.rgba.len() && flen == fv.len(),
            baseline_ok(bv),
            frame@.len() == frame_w * frame_h * 4,
            765 * (bv.w * bv.h) <= u64::MAX,
            ox + bv.w <= frame_w && oy + bv.h <= frame_h,
            ox == at.x && oy == at.y,
            row <= bv.h,
            (changed as nat, total as nat) == tally(bv, fv, frame_w as int, ox as int, oy as int, row as int),
        decreases bv.h - row,
    {
        let mut col: usize = 0;
        let ghost start = (changed as nat, total as nat);
        proof {
            lemma_tally_bound(bv, fv, frame_w as int, ox as int, oy as int, row as int);
        }
        while col < b.w
            invariant
                bv == b@,
                fv == frame@,
                blen == bv.rgba.len() && flen == fv.len(),
                baseline_ok(bv),
                frame@.len() == frame_w * frame_h * 4,
                765 * (bv.w * bv.h) <= u64::MAX,
                ox + bv.w <= frame_w && oy + bv.h <= frame_h,
                ox == at.x && oy == at.y,
                row < bv.h,
                col <= bv.w,
                start == tally(bv, fv, frame_w as int, ox as int, oy as int, row as int),
                start.0 <= row * bv.w,
                start.1 <= 765 * (row * bv.w),
                changed as nat == start.0 + row_tally(bv, fv, frame_w as int, ox as int, oy as int, row as int, col as int).0,
                total as nat == start.1 + row_tally(bv, fv, frame_w as int, ox as int, oy as int, row as int, col as int).1,
            decreases bv.w - col,
        {
            proof {
                lemma_crop_index(bv.w as int, bv.h as int, row as int, col as int);
                lemma_crop_index(frame_w as int, frame_h as int, (oy + row) as int, (ox + col) as int);
                lemma_row_tally_bound(bv, fv, frame_w as int, ox as int, oy as int, row as int, col as int);
                assert((row + 1) * bv.w <= bv.w * bv.h) by (nonlinear_arith)
                    requires
                        row < bv.h,
                ;
                assert(row * bv.w + col + 1 <= (row + 1) * bv.w) by (nonlinear_arith)
                    requires
                        col < bv.w,
                ;
                assert(row * b.w + col < blen);
            }
            let index = row * b.w + col;
            if b.mask[index] {
                let s = index * 4;
                let l = ((oy + row) * frame_w + ox + col) * 4;
                let d0: u64 = if b.rgba[s] >= frame[l] { (b.rgba[s] - frame[l]) as u64 } else { (frame[l] - b.rgba[s]) as u64 };
                let d1: u64 = if b.rgba[s + 1] >= frame[l + 1] { (b.rgba[s + 1] - frame[l + 1]) as u64 } else { (frame[l + 1] - b.rgba[s + 1]) as u64 };
                let d2: u64 = if b.rgba[s + 2] >= frame[l + 2] { (b.rgba[s + 2] - frame[l + 2]) as u64 } else { (frame[l + 2] - b.rgba[s + 2]) as u64 };
                let delta = d0 + d1 + d2;
                proof {
                    assert(delta == pixel_delta(bv, fv, frame_w as int, ox as int, oy as int, row as int, col as int));
                    assert(765 * (row * bv.w + col + 1) <= 765 * (bv.w * bv.h)) by (nonlinear_arith)
                        requires
                            row * bv.w + col + 1 <= bv.w * bv.h,
                    ;
                }
                if delta > 0 {
                    changed = changed + 1;
                    total = total + delta;
                }
            }
            col = col + 1;
        }
        row = row + 1;
    }
    Ok(PixelDiff { masked_px: b.masked_px, changed_px: changed, delta_total: total })
}

/// How far apart two channel bytes are.
pub open spec fn byte_gap(a: u8, b: u8) -> int {
    if a < b { b - a } else { a - b }
}

/// Where crop pixel `i` (row-major) starts in the crop's bytes and in the
/// frame's, with the crop's top-left at (`ox`, `oy`) of a frame `fw` wide.
pub open spec fn crop_byte(b: BaselineView, i: int) -> int {
    4 * i
}

pub open spec fn frame_byte(b: BaselineView, fw: int, ox: int, oy: int, i: int) -> int {
    4 * ((oy + i / (b.w as int)) * fw + ox + i % (b.w as int))
}

/// Crop pixel `i` differs from the frame pixel under it in red, green or
/// blue.
pub open spec fn rgb_differs(b: BaselineView, frame: Seq<u8>, fw: int, ox: int, oy: int, i: int) -> bool {
    let s = crop_byte(b, i);
    let l = frame_byte(b, fw, ox, oy, i);
    b.rgba[s] != frame[l] || b.rgba[s + 1] != frame[l + 1] || b.rgba[s + 2] != frame[l + 2]
}

/// Crop pixel `i`'s red, green and blue gaps from the frame pixel under it,
/// added up.
pub open spec fn rgb_gap(b: BaselineView, frame: Seq<u8>, fw: int, ox: int, oy: int, i: int) -> int {
    let s = crop_byte(b, i);
    let l = frame_byte(b, fw, ox, oy, i);
    byte_gap(b.rgba[s], frame[l]) + byte_gap(b.rgba[s + 1], frame[l + 1]) + byte_gap(b.rgba[s + 2], frame[l + 2])
}

/// Over the first `k` crop pixels in row-major order: how many are masked
/// and differ in some colour channel, and their summed RGB gaps.
pub open spec fn masked_changes(b: BaselineView, frame: Seq<u8>, fw: int, ox: int, oy: int, k: int) -> (nat, nat)
    decreases k,
{
    if k <= 0 {
        (0, 0)
    } else {
        let prev = masked_changes(b, frame, fw, ox, oy, k - 1);
        if b.mask[k - 1] && rgb_differs(b, frame, fw, ox, oy, k - 1) {
            (prev.0 + 1, prev.1 + rgb_gap(b, frame, fw, ox, oy, k - 1) as nat)
        } else {
            prev
        }
    }
}

proof fn lemma_row_tally_is_flat(b: BaselineView, frame: Seq<u8>, fw: int, ox: int, oy: int, row: int, c: int)
    requires
        b.w > 0,
        row >= 0,
        0 <= c <= b.w,
    ensures
        row_tally(b, frame, fw, ox, oy, row, c).0 + masked_changes(b, frame, fw, ox, oy, row * b.w).0
            == masked_changes(b, frame, fw, ox, oy, row * b.w + c).0,
        row_tally(b, frame, fw, ox, oy, row, c).1 + masked_changes(b, frame, fw, ox, oy, row * b.w).1
            == masked_changes(b, frame, fw, ox, oy, row * b.w + c).1,
    decreases c,
{
    if c > 0 {
        lemma_row_tally_is_flat(b, frame, fw, ox, oy, row, c - 1);
        let w = b.w as int;
        let i = row * w + c - 1;
        vstd::arithmetic::div_mod::lemma_fundamental_div_mod_converse(i, w, row, c - 1);
        assert(i / w == row && i % w == c - 1);
        assert(crop_byte(b, i) == (row * w + (c - 1)) * 4);
        assert(frame_byte(b, fw, ox, oy, i) == ((oy + row) * fw + ox + (c - 1)) * 4);
        let d = pixel_delta(b, frame, fw, ox, oy, row, c - 1);
        assert(d == rgb_gap(b, frame, fw, ox, oy, i));
        assert(d > 0 <==> rgb_differs(b, frame, fw, ox, oy, i));
        assert(row * b.w + c - 1 == i);
    }
}

proof fn lemma_tally_is_flat(b: BaselineView, frame: Seq<u8>, fw: int, ox: int, oy: int, r: int)
    requires
        b.w > 0,
        r >= 0,
    ensures
        tally(b, frame, fw, ox, oy, r) == masked_changes(b, frame, fw, ox, oy, r * b.w),
    decreases r,
{
    if r > 0 {
        lemma_tally_is_flat(b, frame, fw, ox, oy, r - 1);
        lemma_row_tally_is_flat(b, frame, fw, ox, oy, r - 1, b.w as int);
        assert((r - 1) * b.w + b.w == r * b.w) by (nonlinear_arith);
        let prev = tally(b, frame, fw, ox, oy, r - 1);
        let row = row_tally(b, frame, fw, ox, oy, r - 1, b.w as int);
        assert(tally(b, frame, fw, ox, oy, r) == (prev.0 + row.0, prev.1 + row.1));
    } else {
        assert(r * b.w == 0) by (nonlinear_arith)
            requires
                r == 0,
        ;
    }
}

/// What a comparison counts: over the crop's masked pixels, a pixel is
/// changed exactly when its red, green or blue byte differs from the frame
/// pixel it lies over, `changed_px` is how many are, and `delta_total` adds
/// each changed pixel's `|dR| + |dG| + |dB|`. Alpha never counts.
pub proof fn lemma_a_diff_counts_every_colour_channel(b: BaselineView, frame: Seq<u8>, fw: int, ox: int, oy: int)
    requires
        baseline_ok(b),
    ensures
        tally(b, frame, fw, ox, oy, b.h as int) == masked_changes(b, frame, fw, ox, oy, (b.w * b.h) as int),
        forall|i: int| #[trigger] rgb_differs(b, frame, fw, ox, oy, i) <==> rgb_gap(b, frame, fw, ox, oy, i) > 0,
{
    if b.w == 0 {
        assert(b.w * b.h == 0) by (nonlinear_arith)
            requires
                b.w == 0,
        ;
        assert(count_masked(b.mask, 0) == 0);
    } else {
        lemma_tally_is_flat(b, frame, fw, ox, oy, b.h as int);
        assert(b.h * b.w == b.w * b.h) by (nonlinear_arith);
    }
}

} // verus!
