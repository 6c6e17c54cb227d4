use consult_cal::date::{parse_weekday, project, Date, ProjectionError, Weekday};

fn term_start() -> Date {
    Date::from_ymd(2024, 9, 9).unwrap()
}

#[test]
fn from_ymd_gives_day_number() {
    assert_eq!(term_start().days, 739138);
    assert_eq!(Date::from_ymd(1, 1, 1).unwrap().days, 1);
    assert_eq!(Date::from_ymd(2024, 2, 30), None);
    assert_eq!(Date::from_ymd(2024, 13, 1), None);
}

#[test]
fn ymd_reads_back() {
    assert_eq!(term_start().ymd(), Some((2024, 9, 9)));
    assert_eq!(Date { days: 739138 + 23 }.ymd(), Some((2024, 10, 2)));
    assert_eq!(Date { days: i32::MAX }.ymd(), None);
}

#[test]
fn week_one_monday_is_term_start() {
    assert_eq!(project(term_start(), 1, "Mon"), Ok(term_start()));
}

#[test]
fn later_weeks_and_days() {
    let ts = term_start();
    assert_eq!(project(ts, 3, "Wed"), Ok(Date { days: ts.days + 16 }));
    assert_eq!(project(ts, 10, "Sun"), Ok(Date { days: ts.days + 69 }));
    for w in [0u32, 1, 2, 7, 52] {
        for d in ["Mon", "Tue", "Fri", "Sun"] {
            let one = project(ts, 1, d).unwrap();
            let other = project(ts, w, d).unwrap();
            assert_eq!(other.days as i64, one.days as i64 + 7 * (w as i64 - 1));
        }
    }
}

#[test]
fn week_zero_is_before_term_start() {
    let ts = term_start();
    assert_eq!(project(ts, 0, "Mon"), Ok(Date { days: ts.days - 7 }));
}

#[test]
fn unknown_day_is_an_error() {
    assert_eq!(project(term_start(), 1, "Xyz"), Err(ProjectionError::InvalidDay));
    assert_eq!(project(term_start(), 1, "mon"), Err(ProjectionError::InvalidDay));
    assert_eq!(project(term_start(), 1, "Monday"), Err(ProjectionError::InvalidDay));
}

#[test]
fn out_of_range_day_number() {
    let ts = Date { days: i32::MAX - 3 };
    assert_eq!(project(ts, 2, "Mon"), Err(ProjectionError::OutOfRange));
}

#[test]
fn weekday_names() {
    assert_eq!(parse_weekday("Tue"), Some(Weekday::Tue));
    assert_eq!(parse_weekday("Sat").map(|d| d.offset()), Some(5));
    assert_eq!(parse_weekday("SUN"), None);
}
