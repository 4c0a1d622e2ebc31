use iit_scoreboard::dates::Date;
use iit_scoreboard::plan::plan;

fn d(y: u32, m: u32, day: u32) -> Date {
    Date::new(y, m, day).unwrap()
}

#[test]
fn plan_skips_persisted_dates() {
    let out = plan(d(2024, 1, 1), d(2024, 1, 10), Some(d(2024, 1, 5)));
    let expected = [6, 7, 8, 9, 10];
    assert_eq!(out.len(), expected.len());
    for (got, want) in out.iter().zip(expected.iter()) {
        assert_eq!(got.year, 2024);
        assert_eq!(got.month, 1);
        assert_eq!(got.day, *want);
    }
}

#[test]
fn plan_never_replans_covered_dates() {
    let persisted = d(2024, 3, 15);
    let out = plan(d(2024, 3, 1), d(2024, 3, 20), Some(persisted));
    for date in &out {
        let after = date.year > persisted.year
            || (date.year == persisted.year
                && (date.month > persisted.month
                    || (date.month == persisted.month && date.day > persisted.day)));
        assert!(after);
    }
    assert_eq!(out.len(), 5);
}

#[test]
fn plan_without_persisted_state_covers_whole_range() {
    let out = plan(d(2024, 1, 1), d(2024, 1, 3), None);
    assert_eq!(out.len(), 3);
    assert_eq!(out[0].day, 1);
    assert_eq!(out[2].day, 3);
}

#[test]
fn plan_empty_when_everything_is_covered() {
    let out = plan(d(2024, 1, 1), d(2024, 1, 10), Some(d(2024, 1, 10)));
    assert!(out.is_empty());
}

#[test]
fn plan_empty_when_start_after_end() {
    let out = plan(d(2024, 2, 2), d(2024, 2, 1), None);
    assert!(out.is_empty());
}

#[test]
fn plan_single_day() {
    let out = plan(d(2024, 6, 15), d(2024, 6, 15), None);
    assert_eq!(out.len(), 1);
    assert_eq!((out[0].year, out[0].month, out[0].day), (2024, 6, 15));
}

#[test]
fn plan_crosses_leap_february() {
    let out = plan(d(2024, 2, 28), d(2024, 3, 1), None);
    let days: Vec<(u32, u32)> = out.iter().map(|x| (x.month, x.day)).collect();
    assert_eq!(days, vec![(2, 28), (2, 29), (3, 1)]);
}

#[test]
fn plan_crosses_plain_february() {
    let out = plan(d(2023, 2, 28), d(2023, 3, 1), None);
    let days: Vec<(u32, u32)> = out.iter().map(|x| (x.month, x.day)).collect();
    assert_eq!(days, vec![(2, 28), (3, 1)]);
}

#[test]
fn plan_crosses_year_end() {
    let out = plan(d(2023, 12, 31), d(2024, 1, 1), None);
    let days: Vec<(u32, u32, u32)> = out.iter().map(|x| (x.year, x.month, x.day)).collect();
    assert_eq!(days, vec![(2023, 12, 31), (2024, 1, 1)]);
}

#[test]
fn date_comparisons_are_chronological() {
    let a = d(2023, 12, 31);
    let b = d(2024, 1, 1);
    assert!(a.lt(b));
    assert!(a.le(b));
    assert!(!b.lt(a));
    assert!(!b.le(a));
    assert!(b.le(b));
    assert!(!b.lt(b));
}

#[test]
fn date_rejects_invalid_days() {
    assert!(Date::new(2023, 2, 29).is_none());
    assert!(Date::new(2024, 2, 29).is_some());
    assert!(Date::new(2024, 13, 1).is_none());
    assert!(Date::new(2024, 4, 31).is_none());
    assert!(Date::new(2024, 0, 1).is_none());
    assert!(Date::new(1900, 2, 29).is_none());
    assert!(Date::new(2000, 2, 29).is_some());
}
