use consult_cal::diagnostic::DiagnosticKind;
use consult_cal::text::{parse_u32, trim};
use consult_cal::weeks::parse_weeks;

#[test]
fn single_range_single_in_order() {
    let r = parse_weeks("1,3-5,8");
    assert_eq!(r.weeks, vec![1, 3, 4, 5, 8]);
    assert!(r.diagnostics.is_empty());
}

#[test]
fn reversed_range_gives_nothing() {
    let r = parse_weeks("2,5-3,9");
    assert_eq!(r.weeks, vec![2, 9]);
    assert!(r.diagnostics.is_empty());
}

#[test]
fn whitespace_around_tokens_and_sides() {
    let r = parse_weeks(" 2 , 4 - 6 ,\t7 ");
    assert_eq!(r.weeks, vec![2, 4, 5, 6, 7]);
    assert!(r.diagnostics.is_empty());
}

#[test]
fn word_token_is_one_warning() {
    let r = parse_weeks("abc");
    assert!(r.weeks.is_empty());
    assert_eq!(r.diagnostics.len(), 1);
    assert_eq!(r.diagnostics[0].kind, DiagnosticKind::InvalidWeekNumber);
    assert_eq!(r.diagnostics[0].subject, "abc");
    assert_eq!(r.diagnostics[0].message(), "Invalid week number: abc");
}

#[test]
fn range_missing_end_is_one_warning() {
    let r = parse_weeks("3-");
    assert!(r.weeks.is_empty());
    assert_eq!(r.diagnostics.len(), 1);
    assert_eq!(r.diagnostics[0].kind, DiagnosticKind::InvalidWeekRange);
    assert_eq!(r.diagnostics[0].message(), "Invalid week range: 3-");
}

#[test]
fn range_missing_start_is_one_warning() {
    let r = parse_weeks("-4");
    assert!(r.weeks.is_empty());
    assert_eq!(r.diagnostics.len(), 1);
    assert_eq!(r.diagnostics[0].kind, DiagnosticKind::InvalidWeekRange);
}

#[test]
fn range_splits_at_first_dash() {
    let r = parse_weeks("1-2-3");
    assert!(r.weeks.is_empty());
    assert_eq!(r.diagnostics.len(), 1);
    assert_eq!(r.diagnostics[0].subject, "1-2-3");
}

#[test]
fn bad_tokens_do_not_stop_the_rest() {
    let r = parse_weeks("x, 2,3-y,4-5");
    assert_eq!(r.weeks, vec![2, 4, 5]);
    assert_eq!(r.diagnostics.len(), 2);
    assert_eq!(r.diagnostics[0].subject, "x");
    assert_eq!(r.diagnostics[1].subject, "3-y");
}

#[test]
fn empty_spec_is_one_empty_token() {
    let r = parse_weeks("");
    assert!(r.weeks.is_empty());
    assert_eq!(r.diagnostics.len(), 1);
    assert_eq!(r.diagnostics[0].kind, DiagnosticKind::InvalidWeekNumber);
    assert_eq!(r.diagnostics[0].subject, "");
}

#[test]
fn week_zero_and_duplicates_kept() {
    let r = parse_weeks("0,2,2,1-2");
    assert_eq!(r.weeks, vec![0, 2, 2, 1, 2]);
}

#[test]
fn range_at_the_top_of_u32() {
    let r = parse_weeks("4294967294-4294967295");
    assert_eq!(r.weeks, vec![4294967294, 4294967295]);
}

#[test]
fn number_past_u32_is_rejected() {
    let r = parse_weeks("4294967296");
    assert!(r.weeks.is_empty());
    assert_eq!(r.diagnostics.len(), 1);
}

#[test]
fn plus_sign_accepted_like_from_str() {
    assert_eq!(parse_u32("+7"), Some(7));
    assert_eq!(parse_u32("+"), None);
    assert_eq!(parse_u32(""), None);
    assert_eq!(parse_u32("12a"), None);
    assert_eq!(parse_u32("4294967295"), Some(u32::MAX));
    for s in ["0", "17", "+3", "99999999999", "-1", " 1", "٣"] {
        assert_eq!(parse_u32(s), s.parse::<u32>().ok(), "{}", s);
    }
}

#[test]
fn trim_matches_std() {
    for s in ["", "  a b  ", "\t\n x\u{3000}", "\u{a0}\u{2003}", "abc"] {
        assert_eq!(trim(s), s.trim());
    }
}
