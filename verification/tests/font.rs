use pixelcoords_core::font::{fit_to_width, fits_in_width, text_width};

/// The caption face's glyph advance at scale 1 and 2 (12 px and 24 px,
/// 0.6 em each).
const ADVANCE_1: i32 = 7;
const ADVANCE_2: i32 = 14;

#[test]
fn text_that_fits_is_returned_whole() {
    let width = text_width(20, ADVANCE_1);
    assert_eq!(fit_to_width("Saved", width, ADVANCE_1), "Saved");
}

#[test]
fn over_long_text_is_cut_visibly() {
    let width = text_width(10, ADVANCE_1);
    let fitted = fit_to_width("Save failed: no space left on device", width, ADVANCE_1);
    assert_eq!(fitted.chars().count(), 10);
    assert!(fitted.ends_with(".."), "{fitted}");
    assert!(text_width(fitted.chars().count(), ADVANCE_1) <= width);
}

#[test]
fn fitting_accounts_for_scale() {
    let width = text_width(10, ADVANCE_1);
    assert!(fits_in_width(width, ADVANCE_2) < 10);
    assert!(fits_in_width(width, ADVANCE_2) >= 4);
}

#[test]
fn a_hopeless_budget_yields_nothing_rather_than_junk() {
    assert_eq!(fit_to_width("Save failed", text_width(2, ADVANCE_1), ADVANCE_1), "");
    assert_eq!(fit_to_width("Save failed", 0, ADVANCE_1), "");
}

#[test]
fn a_negative_width_holds_no_glyphs_and_a_zero_advance_counts_as_one() {
    assert_eq!(fits_in_width(-5, ADVANCE_1), 0);
    assert_eq!(fits_in_width(9, 0), 9);
    assert_eq!(fit_to_width("abc", 3, 0), "abc");
    assert_eq!(fit_to_width("abcd", 3, 0), "a..");
    assert_eq!(fit_to_width("abcd", 2, 0), "");
    assert_eq!(fit_to_width("abcdef", 5, 1), "abc..");
}
