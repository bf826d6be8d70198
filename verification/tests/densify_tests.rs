use rs_weight_tracker::date::Date;
use rs_weight_tracker::densify::densify;
use rs_weight_tracker::series::{Error, Measurement};

fn ymd(year: i32, month: u32, day: u32) -> Date {
    Date::from_ymd(year, month, day).unwrap()
}

fn m(date: Date, value: i64) -> Measurement {
    Measurement { date, value }
}

#[test]
fn empty_store_densifies_to_an_empty_series() {
    let out = densify(&Vec::new(), ymd(2024, 1, 1), ymd(2024, 1, 3)).unwrap();
    assert_eq!(out.len(), 0);
}

#[test]
fn a_single_measurement_is_forward_filled() {
    let ms = vec![m(ymd(2024, 1, 1), 70_000)];
    let out = densify(&ms, ymd(2024, 1, 1), ymd(2024, 1, 5)).unwrap();
    assert_eq!(out.len(), 5);
    assert_eq!(out[0].date, ymd(2024, 1, 1));
    assert_eq!(out[0].value, 70_000);
    assert!(out[0].observed);
    for (i, p) in out.iter().enumerate().skip(1) {
        assert_eq!(p.date, ymd(2024, 1, 1 + i as u32));
        assert_eq!(p.value, 70_000);
        assert!(!p.observed);
    }
}

#[test]
fn gaps_are_linearly_interpolated() {
    let ms = vec![m(ymd(2024, 1, 1), 70_000), m(ymd(2024, 1, 5), 74_000)];
    let out = densify(&ms, ymd(2024, 1, 1), ymd(2024, 1, 5)).unwrap();
    let values: Vec<i64> = out.iter().map(|p| p.value).collect();
    assert_eq!(values, vec![70_000, 71_000, 72_000, 73_000, 74_000]);
    let observed: Vec<bool> = out.iter().map(|p| p.observed).collect();
    assert_eq!(observed, vec![true, false, false, false, true]);
}

#[test]
fn the_midpoint_of_an_even_gap_is_the_mean() {
    let ms = vec![m(ymd(2024, 1, 1), 70_000), m(ymd(2024, 1, 3), 73_000)];
    let out = densify(&ms, ymd(2024, 1, 1), ymd(2024, 1, 3)).unwrap();
    assert_eq!(out[1].date, ymd(2024, 1, 2));
    assert_eq!(out[1].value, (70_000 + 73_000) / 2);
}

#[test]
fn interpolation_also_descends() {
    let ms = vec![m(ymd(2024, 1, 1), 74_000), m(ymd(2024, 1, 5), 70_000)];
    let out = densify(&ms, ymd(2024, 1, 1), ymd(2024, 1, 5)).unwrap();
    let values: Vec<i64> = out.iter().map(|p| p.value).collect();
    assert_eq!(values, vec![74_000, 73_000, 72_000, 71_000, 70_000]);
}

#[test]
fn days_before_the_first_measurement_produce_nothing() {
    let ms = vec![m(ymd(2024, 1, 3), 70_000), m(ymd(2024, 1, 4), 71_000)];
    let out = densify(&ms, ymd(2024, 1, 1), ymd(2024, 1, 5)).unwrap();
    assert_eq!(out.len(), 3);
    assert_eq!(out[0].date, ymd(2024, 1, 3));
    assert_eq!(out[2].date, ymd(2024, 1, 5));
    assert_eq!(out[2].value, 71_000);
    assert!(!out[2].observed);
}

#[test]
fn the_observed_points_reproduce_the_measurements() {
    let ms = vec![
        m(ymd(2024, 1, 2), 70_000),
        m(ymd(2024, 1, 5), 71_500),
        m(ymd(2024, 1, 9), 69_800),
    ];
    let out = densify(&ms, ymd(2024, 1, 1), ymd(2024, 1, 12)).unwrap();
    let observed: Vec<Measurement> = out
        .iter()
        .filter(|p| p.observed)
        .map(|p| Measurement { date: p.date, value: p.value })
        .collect();
    assert_eq!(observed, ms);
}

#[test]
fn the_output_covers_one_point_per_day_of_the_range() {
    let ms = vec![m(ymd(2024, 1, 1), 70_000), m(ymd(2024, 1, 7), 71_000)];
    let out = densify(&ms, ymd(2024, 1, 1), ymd(2024, 1, 31)).unwrap();
    assert_eq!(out.len(), 31);
    for (i, p) in out.iter().enumerate() {
        assert_eq!(p.date.day, ymd(2024, 1, 1).day + i as i64);
    }
}

#[test]
fn a_reversed_range_is_invalid() {
    let start = ymd(2024, 1, 5);
    let end = ymd(2024, 1, 1);
    let r = densify(&Vec::new(), start, end);
    assert_eq!(r, Err(Error::InvalidRange { start_date: start, end_date: end }));
}

#[test]
fn densification_is_deterministic() {
    let ms = vec![m(ymd(2024, 1, 1), 70_000), m(ymd(2024, 1, 6), 74_321)];
    let once = densify(&ms, ymd(2024, 1, 1), ymd(2024, 1, 10)).unwrap();
    let twice = densify(&ms, ymd(2024, 1, 1), ymd(2024, 1, 10)).unwrap();
    assert_eq!(once, twice);
}
