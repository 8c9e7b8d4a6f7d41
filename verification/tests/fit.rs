use std::cell::RefCell;

use songsheet::{
    classify, find_fit, fit_and_render, next_step, Fit, Fitted, LayoutConfig, LayoutError, Size,
    Step,
};

fn size(width: u64, height: u64) -> Size {
    Size { width, height }
}

fn half_points(points: f64) -> u32 {
    (points * 2.0) as u32
}

const PAGE: Size = Size { width: 468, height: 648 };

#[test]
fn first_attempt_is_at_sixteen_points() {
    let c = LayoutConfig::new();
    assert_eq!(c.font_size, half_points(16.0));
    assert_eq!(c.verse_gap, 14 * 1024);
    assert_eq!(c.column_break, None);
}

#[test]
fn the_first_size_that_fits_is_taken() {
    let heights = |c: LayoutConfig| -> Result<Size, LayoutError> {
        let h = match c.font_size {
            32 => 700,
            31 => 680,
            30 => 660,
            29 => 640,
            28 => 620,
            27 => 600,
            _ => 580,
        };
        Ok(size(400, h))
    };
    let fitted = find_fit(LayoutConfig::new(), PAGE, heights).unwrap();
    assert_eq!(fitted.config.font_size, half_points(14.5));
    assert!(fitted.fits);
    assert_eq!(fitted.size, size(400, 640));
    assert_eq!(fitted.tried, vec![size(400, 700), size(400, 680), size(400, 660), size(400, 640)]);
}

#[test]
fn where_nothing_fits_the_smallest_size_is_taken() {
    let fitted = find_fit(LayoutConfig::new(), PAGE, |_| Ok(size(400, 700))).unwrap();
    assert_eq!(fitted.config.font_size, half_points(13.0));
    assert!(!fitted.fits);
    assert_eq!(fitted.size, size(400, 700));
    assert_eq!(fitted.tried.len(), 7);
}

#[test]
fn a_song_that_fits_at_once_is_measured_once() {
    let start = LayoutConfig { font_size: 32, verse_gap: 5, column_break: Some(9) };
    let fitted = find_fit(start, PAGE, |_| Ok(size(468, 648))).unwrap();
    assert_eq!(
        fitted,
        Fitted { config: start, size: size(468, 648), fits: true, tried: vec![size(468, 648)] }
    );
}

#[test]
fn a_song_too_wide_shrinks_like_one_too_tall() {
    let widths = |c: LayoutConfig| Ok(size(15 * c.font_size as u64, 10));
    let fitted = find_fit(LayoutConfig::new(), PAGE, widths).unwrap();
    assert_eq!(fitted.config.font_size, 31);
    assert!(fitted.fits);
    assert_eq!(fitted.tried, vec![size(480, 10), size(465, 10)]);
}

#[test]
fn the_search_starts_where_it_is_told() {
    let start = LayoutConfig { font_size: 20, verse_gap: 1, column_break: None };
    let fitted = find_fit(start, PAGE, |_| Ok(size(500, 1))).unwrap();
    assert_eq!(fitted.config, start);
    assert!(!fitted.fits);
    assert_eq!(fitted.tried.len(), 1);
}

#[test]
fn a_failing_measurement_ends_the_search() {
    let failing = |c: LayoutConfig| {
        if c.font_size > 30 {
            Ok(size(500, 500))
        } else {
            Err(LayoutError::Overflow)
        }
    };
    assert_eq!(find_fit(LayoutConfig::new(), PAGE, failing), Err(LayoutError::Overflow));
}

#[test]
fn width_is_looked_at_before_height() {
    assert_eq!(classify(size(469, 649), PAGE), Fit::TooWide);
    assert_eq!(classify(size(469, 1), PAGE), Fit::TooWide);
    assert_eq!(classify(size(468, 649), PAGE), Fit::TooTall);
    assert_eq!(classify(size(468, 648), PAGE), Fit::Fits);
    assert_eq!(classify(size(0, 0), size(0, 0)), Fit::Fits);
}

#[test]
fn one_step_at_a_time() {
    let mut c = LayoutConfig::new();
    assert_eq!(next_step(&mut c, size(400, 700), PAGE), Step::Retry);
    assert_eq!(c.font_size, half_points(15.5));
    assert_eq!(next_step(&mut c, size(500, 600), PAGE), Step::Retry);
    assert_eq!(c.font_size, half_points(15.0));
    assert_eq!(next_step(&mut c, size(400, 640), PAGE), Step::Commit);
    assert_eq!(c.font_size, half_points(15.0));
    c.font_size = half_points(13.0);
    assert_eq!(next_step(&mut c, size(400, 700), PAGE), Step::CommitOverflowing);
    assert_eq!(c.font_size, half_points(13.0));
    assert_eq!(next_step(&mut c, size(400, 600), PAGE), Step::Commit);
    assert_eq!(c, LayoutConfig { font_size: 26, verse_gap: 14 * 1024, column_break: None });
}

#[test]
fn shrinking_stops_at_thirteen_points() {
    let mut c = LayoutConfig::new();
    let mut steps = 0;
    while c.shrink_h().is_ok() {
        steps += 1;
    }
    assert_eq!(steps, 6);
    assert_eq!(c.font_size, half_points(13.0));
    assert_eq!(c.shrink_v(), Err(()));
    assert_eq!(c.font_size, half_points(13.0));
    let mut c = LayoutConfig::new();
    assert_eq!(c.shrink_v(), Ok(()));
    assert_eq!(c.font_size, half_points(15.5));
    let mut below = LayoutConfig { font_size: 3, verse_gap: 0, column_break: None };
    assert_eq!(below.shrink_h(), Err(()));
    assert_eq!(below.font_size, 3);
}

#[test]
fn the_song_is_painted_once_at_the_size_that_fits() {
    let measured = RefCell::new(Vec::new());
    let painted = RefCell::new(Vec::new());
    let dry_run = |c: LayoutConfig| {
        measured.borrow_mut().push(c.font_size);
        Ok(size(400, if c.font_size > 29 { 700 } else { 640 }))
    };
    let commit = |c: LayoutConfig| {
        painted.borrow_mut().push(c.font_size);
        Ok(())
    };
    let fitted = fit_and_render(LayoutConfig::new(), PAGE, dry_run, commit).unwrap();
    assert_eq!(fitted.config.font_size, half_points(14.5));
    assert!(fitted.fits);
    assert_eq!(*measured.borrow(), vec![32, 31, 30, 29]);
    assert_eq!(*painted.borrow(), vec![29]);
}

#[test]
fn a_song_that_fits_nowhere_is_painted_at_the_smallest_size() {
    let painted = RefCell::new(Vec::new());
    let commit = |c: LayoutConfig| {
        painted.borrow_mut().push(c.font_size);
        Ok(())
    };
    let fitted = fit_and_render(LayoutConfig::new(), PAGE, |_| Ok(size(469, 1)), commit).unwrap();
    assert!(!fitted.fits);
    assert_eq!(fitted.config.font_size, half_points(13.0));
    assert_eq!(*painted.borrow(), vec![26]);
}

#[test]
fn nothing_is_painted_when_measuring_fails() {
    let painted = RefCell::new(0);
    let commit = |_: LayoutConfig| {
        *painted.borrow_mut() += 1;
        Ok(())
    };
    let r = fit_and_render(LayoutConfig::new(), PAGE, |_| Err(LayoutError::Mismatch), commit);
    assert_eq!(r, Err(LayoutError::Mismatch));
    assert_eq!(*painted.borrow(), 0);
}

#[test]
fn a_failure_to_paint_is_handed_on() {
    let r = fit_and_render(
        LayoutConfig::new(),
        PAGE,
        |_| Ok(size(1, 1)),
        |_| Err(LayoutError::Overflow),
    );
    assert_eq!(r, Err(LayoutError::Overflow));
}
