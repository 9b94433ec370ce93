use pixelcoords_core::diff::{compare_pixels, Baseline, DiffError};
use pixelcoords_core::geometry::Point;

/// A `w`×`h` RGBA buffer of one colour, fully opaque.
fn solid(w: usize, h: usize, rgb: [u8; 3]) -> Vec<u8> {
    (0..w * h)
        .flat_map(|_| [rgb[0], rgb[1], rgb[2], 255])
        .collect()
}

/// How much of one region changed, with the two ratios taken in floats
/// from the library's exact counts.
struct RegionDiff {
    masked_px: u64,
    changed_px: u64,
    changed_pct: f64,
    mean_delta: f64,
}

fn compare(
    baseline: &Baseline,
    frame_w: usize,
    frame_h: usize,
    frame: &[u8],
    at: Point,
) -> Result<RegionDiff, DiffError> {
    let d = compare_pixels(baseline, frame_w, frame_h, frame, at)?;
    let mean_delta = if d.changed_px == 0 {
        0.0
    } else {
        d.delta_total as f64 / (d.changed_px as f64 * 3.0)
    };
    Ok(RegionDiff {
        masked_px: d.masked_px,
        changed_px: d.changed_px,
        changed_pct: d.changed_px as f64 * 100.0 / d.masked_px as f64,
        mean_delta,
    })
}

#[test]
fn an_identical_region_is_clean_and_reports_no_mean() {
    let px = solid(4, 4, [10, 20, 30]);
    let base = Baseline::from_rgba(4, 4, &px).unwrap();
    let d = compare(&base, 4, 4, &px, Point::new(0, 0)).unwrap();
    assert_eq!((d.masked_px, d.changed_px), (16, 0));
    assert!(d.changed_pct.abs() < f64::EPSILON);
    assert!(d.mean_delta.abs() < f64::EPSILON, "0/0 would be NaN");
}

#[test]
fn one_flipped_pixel_inside_the_mask_is_caught() {
    let base_px = solid(4, 4, [0, 0, 0]);
    let base = Baseline::from_rgba(4, 4, &base_px).unwrap();
    let mut frame = base_px.clone();
    frame[4 * 5] = 9; // pixel (1,1), red channel
    let d = compare(&base, 4, 4, &frame, Point::new(0, 0)).unwrap();
    assert_eq!(d.changed_px, 1);
    assert!((d.changed_pct - 6.25).abs() < 1e-9, "1 of 16 masked");
    assert!((d.mean_delta - 3.0).abs() < 1e-9, "9 over three channels");
}

#[test]
fn a_change_outside_the_mask_is_ignored() {
    let mut px = solid(2, 2, [5, 5, 5]);
    px[3] = 0;
    px[4 * 2 + 3] = 0;
    let base = Baseline::from_rgba(2, 2, &px).unwrap();
    assert_eq!(base.masked_px(), 2);

    let mut frame = solid(2, 2, [5, 5, 5]);
    frame[0] = 200; // masked-out pixel changes wildly
    let d = compare(&base, 2, 2, &frame, Point::new(0, 0)).unwrap();
    assert_eq!(d.changed_px, 0, "shaped regions compare by their own pixels");
}

#[test]
fn alpha_is_the_mask_and_never_content() {
    let mut px = solid(2, 2, [7, 7, 7]);
    for i in 0..4 {
        px[i * 4 + 3] = 200;
    }
    let base = Baseline::from_rgba(2, 2, &px).unwrap();
    let frame = solid(2, 2, [7, 7, 7]);
    let d = compare(&base, 2, 2, &frame, Point::new(0, 0)).unwrap();
    assert_eq!(d.changed_px, 0);
}

#[test]
fn the_region_is_compared_where_it_sits_in_the_frame() {
    let base = Baseline::from_rgba(2, 2, &solid(2, 2, [1, 2, 3])).unwrap();
    let mut frame = solid(8, 8, [0, 0, 0]);
    for y in 0..2 {
        for x in 0..2 {
            let j = ((3 + y) * 8 + 5 + x) * 4;
            frame[j..j + 3].copy_from_slice(&[1, 2, 3]);
        }
    }
    assert_eq!(
        compare(&base, 8, 8, &frame, Point::new(5, 3))
            .unwrap()
            .changed_px,
        0
    );
    assert!(
        compare(&base, 8, 8, &frame, Point::new(0, 0))
            .unwrap()
            .changed_px
            > 0,
        "the same crop elsewhere in the frame does not match"
    );
}

#[test]
fn a_crop_that_does_not_fit_is_refused_by_which_way_it_fails() {
    let base = Baseline::from_rgba(4, 4, &solid(4, 4, [1, 1, 1])).unwrap();
    let small = solid(2, 2, [1, 1, 1]);
    assert!(matches!(
        compare(&base, 2, 2, &small, Point::new(0, 0)),
        Err(DiffError::CropLargerThanFrame)
    ));

    let frame = solid(8, 8, [1, 1, 1]);
    assert!(matches!(
        compare(&base, 8, 8, &frame, Point::new(6, 0)),
        Err(DiffError::OutOfFrame { x: 6, y: 0 })
    ));
    assert!(matches!(
        compare(&base, 8, 8, &frame, Point::new(-1, 0)),
        Err(DiffError::OutOfFrame { x: -1, y: 0 })
    ));
}

#[test]
fn the_changed_total_sums_every_channel_of_every_changed_pixel() {
    let base = Baseline::from_rgba(2, 1, &solid(2, 1, [10, 10, 10])).unwrap();
    let frame = [13, 10, 7, 255, 10, 10, 10, 255];
    let d = compare_pixels(&base, 2, 1, &frame, Point::new(0, 0)).unwrap();
    assert_eq!((d.masked_px, d.changed_px, d.delta_total), (2, 1, 6));
}
