use consult_cal::date::Date;
use consult_cal::diagnostic::DiagnosticKind;
use consult_cal::identity::{classify_reply, normalize_id, Reply};
use consult_cal::roster::{derive_events, Consultation, Course};

fn term_start() -> Date {
    Date::from_ymd(2024, 9, 9).unwrap()
}

fn session(instructors: &[&str], weeks: &str, day: &str, location: Option<&str>) -> Consultation {
    Consultation {
        instructors: instructors.iter().map(|s| s.to_string()).collect(),
        weeks: weeks.to_string(),
        day: day.to_string(),
        start: "10:00".to_string(),
        end: "11:00".to_string(),
        mode: "Online".to_string(),
        location: location.map(|s| s.to_string()),
    }
}

fn one_course(consult: Vec<Consultation>) -> Vec<Course> {
    vec![Course { course: "COMP101".to_string(), consult }]
}

#[test]
fn end_to_end_example() {
    let roster = one_course(vec![session(&["z1111111"], "1,3-4", "Mon", None)]);
    let ts = term_start();
    let r = derive_events(&roster, "z1111111", ts);
    assert!(r.matched);
    assert!(r.diagnostics.is_empty());
    assert_eq!(r.events.len(), 3);
    let days: Vec<i32> = r.events.iter().map(|e| e.date.days).collect();
    assert_eq!(days, vec![ts.days, ts.days + 14, ts.days + 21]);
    for e in &r.events {
        assert_eq!(e.summary, "COMP101 Help Session");
        assert_eq!(e.location, "Online");
        assert!(e.description.contains("1,3-4"));
        assert_eq!(e.description, "Mode: Online, Weeks: 1,3-4");
    }
    assert_eq!(r.events[0].dt_start, "20240909T100000");
    assert_eq!(r.events[0].dt_end, "20240909T110000");
    assert_eq!(r.events[1].dt_start, "20240923T100000");
    assert_eq!(r.events[2].dt_start, "20240930T100000");
    assert_eq!(r.events[0].uid, "COMP101-Mon-10:00-z1111111-week1");
    assert_eq!(r.events[2].uid, "COMP101-Mon-10:00-z1111111-week4");
}

#[test]
fn unlisted_person_gets_nothing() {
    let roster = one_course(vec![session(&["z1111111"], "1-3", "Mon", None)]);
    let r = derive_events(&roster, "z2222222", term_start());
    assert!(!r.matched);
    assert!(r.events.is_empty());
    assert!(r.diagnostics.is_empty());
    let empty: Vec<Course> = Vec::new();
    let r = derive_events(&empty, "z1111111", term_start());
    assert!(!r.matched);
    assert!(r.events.is_empty());
}

#[test]
fn unknown_day_skips_only_its_occurrences() {
    let roster = vec![
        Course {
            course: "COMP101".to_string(),
            consult: vec![
                session(&["z1"], "1-2", "Xyz", None),
                session(&["z1"], "2", "Fri", Some("K17 G01")),
            ],
        },
    ];
    let r = derive_events(&roster, "z1", term_start());
    assert!(r.matched);
    assert_eq!(r.events.len(), 1);
    assert_eq!(r.events[0].location, "K17 G01");
    assert_eq!(r.events[0].dt_start, "20240920T100000");
    assert_eq!(r.diagnostics.len(), 2);
    for d in &r.diagnostics {
        assert_eq!(d.kind, DiagnosticKind::InvalidDay);
        assert_eq!(d.message(), "Invalid day: Xyz");
    }
}

#[test]
fn matched_even_when_nothing_expands() {
    let roster = one_course(vec![session(&["z1"], "abc", "Mon", None)]);
    let r = derive_events(&roster, "z1", term_start());
    assert!(r.matched);
    assert!(r.events.is_empty());
    assert_eq!(r.diagnostics.len(), 1);
    assert_eq!(r.diagnostics[0].kind, DiagnosticKind::InvalidWeekNumber);
}

#[test]
fn week_zero_lands_a_week_early() {
    let roster = one_course(vec![session(&["z1"], "0", "Tue", None)]);
    let r = derive_events(&roster, "z1", term_start());
    assert_eq!(r.events[0].dt_start, "20240903T100000");
    assert_eq!(r.events[0].uid, "COMP101-Tue-10:00-z1-week0");
}

#[test]
fn date_outside_calendar_is_warned() {
    let roster = one_course(vec![session(&["z1"], "4000000000", "Mon", None)]);
    let r = derive_events(&roster, "z1", term_start());
    assert!(r.events.is_empty());
    assert_eq!(r.diagnostics.len(), 1);
    assert_eq!(r.diagnostics[0].kind, DiagnosticKind::DateOutOfRange);
    assert_eq!(r.diagnostics[0].subject, "4000000000");
}

#[test]
fn uids_are_distinct_across_courses_and_weeks() {
    let roster = vec![
        Course { course: "A1".to_string(), consult: vec![session(&["p", "q"], "1-3", "Mon", None)] },
        Course { course: "B2".to_string(), consult: vec![session(&["p"], "1-3", "Mon", None)] },
    ];
    let r = derive_events(&roster, "p", term_start());
    assert_eq!(r.events.len(), 6);
    let mut uids: Vec<String> = r.events.iter().map(|e| e.uid.clone()).collect();
    uids.sort();
    uids.dedup();
    assert_eq!(uids.len(), 6);
    assert_eq!(r.events[3].summary, "B2 Help Session");
}

#[test]
fn derivation_is_repeatable() {
    let roster = one_course(vec![
        session(&["z1"], "1,3-4,x", "Wed", None),
        session(&["z1"], "2", "Bad", None),
    ]);
    let a = derive_events(&roster, "z1", term_start());
    let b = derive_events(&roster, "z1", term_start());
    assert_eq!(a.matched, b.matched);
    assert_eq!(format!("{:?}", a.events), format!("{:?}", b.events));
    assert_eq!(format!("{:?}", a.diagnostics), format!("{:?}", b.diagnostics));
}

#[test]
fn replies_are_read_case_insensitively() {
    assert_eq!(classify_reply(" Yes \n"), Reply::Confirm);
    assert_eq!(classify_reply("Y"), Reply::Confirm);
    assert_eq!(classify_reply("NO"), Reply::Decline);
    assert_eq!(classify_reply("n"), Reply::Decline);
    assert_eq!(classify_reply("maybe"), Reply::Unrecognised);
    assert_eq!(classify_reply(""), Reply::Unrecognised);
}

#[test]
fn typed_identifier_is_trimmed() {
    assert_eq!(normalize_id("  z1234567\n"), "z1234567");
}
