//! Properties that hold across the parser, the projector and the derivation.

use vstd::prelude::*;
use crate::date::{Date, ProjectionError, project_spec, projected_day, weekday_of};
use crate::diagnostic::DiagnosticKind;
use crate::roster::{
    Consultation, Course, Derivation, EventView, consultations_outcome, course_lists, event_views,
    lists, occurrences, roster_matched, roster_outcome, uid_text,
};
use crate::diagnostic::diag_views;
use crate::text::{
    all_digits, dec, digit_char, digit_value, digits_val, first_index, has_char, is_digit,
    is_ws, lemma_split_nonempty, parse_u32_spec, split_on, trim_end, trim_start, trimmed,
};
use crate::weeks::{token_parse, tokens_parse, week_range, week_spec};

verus! {

proof fn lemma_split_concat(x: Seq<char>, y: Seq<char>, sep: char)
    ensures
        split_on(x + seq![sep] + y, sep) == split_on(x, sep) + split_on(y, sep),
    decreases y.len(),
{
    let z = x + seq![sep] + y;
    if y.len() == 0 {
        assert(z.drop_last() =~= x);
        assert(split_on(y, sep) =~= seq![Seq::<char>::empty()]);
        assert(split_on(z, sep) =~= split_on(x, sep) + split_on(y, sep));
    } else {
        lemma_split_concat(x, y.drop_last(), sep);
        lemma_split_nonempty(y.drop_last(), sep);
        lemma_split_nonempty(x, sep);
        assert(z.drop_last() =~= x + seq![sep] + y.drop_last());
        assert(z.last() == y.last());
        assert(split_on(z, sep) =~= split_on(x, sep) + split_on(y, sep));
    }
}

proof fn lemma_split_single(s: Seq<char>, sep: char)
    requires
        !has_char(s, sep),
    ensures
        split_on(s, sep) == seq![s],
    decreases s.len(),
{
    if s.len() > 0 {
        assert(!has_char(s.drop_last(), sep)) by {
            if has_char(s.drop_last(), sep) {
                let i = choose|i: int| 0 <= i < s.drop_last().len() && s.drop_last()[i] == sep;
                assert(s[i] == sep);
            }
        }
        lemma_split_single(s.drop_last(), sep);
        assert(s.drop_last().push(s.last()) =~= s);
        assert(s.last() != sep) by {
            if s.last() == sep {
                assert(s[s.len() - 1] == sep);
            }
        }
        assert(seq![s.drop_last()].update(0, s.drop_last().push(s.last())) =~= seq![s]);
    } else {
        assert(s =~= Seq::<char>::empty());
    }
}

proof fn lemma_tokens_parse_concat(a: Seq<Seq<char>>, b: Seq<Seq<char>>)
    ensures
        tokens_parse(a + b) == (tokens_parse(a).0 + tokens_parse(b).0, tokens_parse(a).1
            + tokens_parse(b).1),
    decreases b.len(),
{
    if b.len() == 0 {
        assert(a + b =~= a);
        assert(tokens_parse(a).0 + tokens_parse(b).0 =~= tokens_parse(a).0);
        assert(tokens_parse(a).1 + tokens_parse(b).1 =~= tokens_parse(a).1);
    } else {
        lemma_tokens_parse_concat(a, b.drop_last());
        assert((a + b).drop_last() =~= a + b.drop_last());
        assert((a + b).last() == b.last());
        let p = tokens_parse(a);
        let q = tokens_parse(b.drop_last());
        let t = token_parse(b.last());
        assert(p.0 + q.0 + t.0 =~= p.0 + (q.0 + t.0));
        assert(p.1 + q.1 + t.1 =~= p.1 + (q.1 + t.1));
    }
}

proof fn lemma_tokens_parse_single(t: Seq<char>)
    ensures
        tokens_parse(seq![t]) == token_parse(t),
{
    let ts = seq![t];
    assert(ts.drop_last() =~= Seq::<Seq<char>>::empty());
    assert(ts.last() == t);
    let p = tokens_parse(Seq::<Seq<char>>::empty());
    assert(p.0 + token_parse(t).0 =~= token_parse(t).0);
    assert(p.1 + token_parse(t).1 =~= token_parse(t).1);
}

proof fn lemma_digit_char(d: nat)
    requires
        d < 10,
    ensures
        is_digit(digit_char(d)),
        digit_value(digit_char(d)) == d,
{
}

proof fn lemma_dec(n: nat)
    ensures
        dec(n).len() >= 1,
        all_digits(dec(n)),
        digits_val(dec(n)) == n,
    decreases n,
{
    if n < 10 {
        lemma_digit_char(n);
        let s = seq![digit_char(n)];
        assert(s.drop_last() =~= Seq::<char>::empty());
        assert(digits_val(Seq::<char>::empty()) == 0);
        assert(s.last() == digit_char(n));
        assert(digits_val(s) == digits_val(s.drop_last()) * 10 + digit_value(s.last()));
    } else {
        lemma_dec(n / 10);
        lemma_digit_char(n % 10);
        let s = dec(n);
        assert(s.drop_last() =~= dec(n / 10));
        assert(s.last() == digit_char(n % 10));
        assert(digits_val(s) == digits_val(s.drop_last()) * 10 + digit_value(s.last()));
        assert((n / 10) * 10 + n % 10 == n);
        assert(all_digits(s)) by {
            assert forall|i: int| 0 <= i < s.len() implies is_digit(#[trigger] s[i]) by {
                if i < s.len() - 1 {
                    assert(s[i] == dec(n / 10)[i]);
                }
            }
        }
    }
}

proof fn lemma_digit_not_special(c: char)
    requires
        is_digit(c),
    ensures
        !is_ws(c),
        c != '-',
        c != ',',
        c != '+',
{
}

proof fn lemma_no_char_in_digits(s: Seq<char>, c: char)
    requires
        all_digits(s),
        c == '-' || c == ',',
    ensures
        !has_char(s, c),
{
    assert forall|i: int| 0 <= i < s.len() implies s[i] != c by {
        lemma_digit_not_special(s[i]);
    }
}

proof fn lemma_trim_digits_edges(s: Seq<char>)
    requires
        s.len() >= 1,
        !is_ws(s[0]),
        !is_ws(s.last()),
    ensures
        trimmed(s) == s,
{
    assert(trim_start(s) == s);
    assert(trim_end(s) == s);
}

proof fn lemma_parse_dec(n: u32)
    ensures
        trimmed(dec(n as nat)) == dec(n as nat),
        parse_u32_spec(dec(n as nat)) == Some(n),
        token_parse(dec(n as nat)) == (seq![n], Seq::<(DiagnosticKind, Seq<char>)>::empty()),
{
    let s = dec(n as nat);
    lemma_dec(n as nat);
    lemma_digit_not_special(s[0]);
    lemma_digit_not_special(s[s.len() - 1]);
    lemma_trim_digits_edges(s);
    lemma_no_char_in_digits(s, '-');
}

proof fn lemma_range_token(b: u32, c: u32)
    ensures
        token_parse(dec(b as nat) + seq!['-'] + dec(c as nat)) == (week_range(b, c), Seq::<
            (DiagnosticKind, Seq<char>),
        >::empty()),
{
    let x = dec(b as nat);
    let y = dec(c as nat);
    let t = x + seq!['-'] + y;
    lemma_parse_dec(b);
    lemma_parse_dec(c);
    lemma_dec(b as nat);
    lemma_dec(c as nat);
    lemma_digit_not_special(x[0]);
    lemma_digit_not_special(y[y.len() - 1]);
    assert(t[0] == x[0]);
    assert(t.last() == y.last());
    lemma_trim_digits_edges(t);
    let k = x.len() as int;
    assert(t[k] == '-');
    assert forall|j: int| 0 <= j < k implies t[j] != '-' by {
        assert(t[j] == x[j]);
        lemma_digit_not_special(x[j]);
    }
    assert(has_char(t, '-'));
    let f = first_index(t, '-');
    assert(f == k);
    assert(t.subrange(0, k) =~= x);
    assert(t.subrange(k + 1, t.len() as int) =~= y);
}

/// A specification of a single week, a range and a single week, separated by
/// commas, means that week, the ascending range (empty when reversed), and that
/// week, in this order, with no warning.
pub proof fn lemma_week_list_shape(a: u32, b: u32, c: u32, d: u32)
    ensures
        week_spec(
            dec(a as nat) + seq![','] + dec(b as nat) + seq!['-'] + dec(c as nat) + seq![',']
                + dec(d as nat),
        ).0 == seq![a] + week_range(b, c) + seq![d],
        week_spec(
            dec(a as nat) + seq![','] + dec(b as nat) + seq!['-'] + dec(c as nat) + seq![',']
                + dec(d as nat),
        ).1.len() == 0,
{
    let ta = dec(a as nat);
    let mid = dec(b as nat) + seq!['-'] + dec(c as nat);
    let td = dec(d as nat);
    let s = ta + seq![','] + dec(b as nat) + seq!['-'] + dec(c as nat) + seq![','] + td;
    let rest = mid + seq![','] + td;
    assert(s =~= ta + seq![','] + rest);
    lemma_split_concat(ta, rest, ',');
    lemma_split_concat(mid, td, ',');
    lemma_dec(a as nat);
    lemma_dec(b as nat);
    lemma_dec(c as nat);
    lemma_dec(d as nat);
    lemma_no_char_in_digits(ta, ',');
    lemma_no_char_in_digits(td, ',');
    assert(!has_char(mid, ',')) by {
        lemma_no_char_in_digits(dec(b as nat), ',');
        lemma_no_char_in_digits(dec(c as nat), ',');
        assert forall|i: int| 0 <= i < mid.len() implies mid[i] != ',' by {
            if i < dec(b as nat).len() {
                assert(mid[i] == dec(b as nat)[i]);
            } else if i > dec(b as nat).len() {
                assert(mid[i] == dec(c as nat)[i - dec(b as nat).len() - 1]);
            }
        }
    }
    lemma_split_single(ta, ',');
    lemma_split_single(mid, ',');
    lemma_split_single(td, ',');
    lemma_parse_dec(a);
    lemma_parse_dec(d);
    lemma_range_token(b, c);
    lemma_tokens_parse_concat(seq![ta], seq![mid] + seq![td]);
    lemma_tokens_parse_concat(seq![mid], seq![td]);
    lemma_tokens_parse_single(ta);
    lemma_tokens_parse_single(mid);
    lemma_tokens_parse_single(td);
    assert(seq![ta] + (seq![mid] + seq![td]) =~= seq![ta, mid, td]);
    assert(split_on(s, ',') =~= seq![ta, mid, td]);
    assert(week_spec(s).0 =~= seq![a] + week_range(b, c) + seq![d]);
    assert(week_spec(s).1 =~= Seq::<(DiagnosticKind, Seq<char>)>::empty());
}

/// A specification made of one range token with a side that is not a number
/// gives no weeks and exactly one warning, naming the trimmed token.
pub proof fn lemma_bad_range_token(s: Seq<char>)
    requires
        !has_char(s, ','),
        has_char(trimmed(s), '-'),
        parse_u32_spec(trimmed(trimmed(s).subrange(0, first_index(trimmed(s), '-')))) is None
            || parse_u32_spec(
            trimmed(
                trimmed(s).subrange(first_index(trimmed(s), '-') + 1, trimmed(s).len() as int),
            ),
        ) is None,
    ensures
        week_spec(s).0 == Seq::<u32>::empty(),
        week_spec(s).1 == seq![(DiagnosticKind::InvalidWeekRange, trimmed(s))],
{
    lemma_split_single(s, ',');
    lemma_tokens_parse_single(s);
    assert(week_spec(s).0 =~= Seq::<u32>::empty());
    assert(week_spec(s).1 =~= seq![(DiagnosticKind::InvalidWeekRange, trimmed(s))]);
}

/// A specification made of one single-week token that is not a number gives no
/// weeks and exactly one warning, naming the trimmed token.
pub proof fn lemma_bad_number_token(s: Seq<char>)
    requires
        !has_char(s, ','),
        !has_char(trimmed(s), '-'),
        parse_u32_spec(trimmed(s)) is None,
    ensures
        week_spec(s).0 == Seq::<u32>::empty(),
        week_spec(s).1 == seq![(DiagnosticKind::InvalidWeekNumber, trimmed(s))],
{
    lemma_split_single(s, ',');
    lemma_tokens_parse_single(s);
    assert(week_spec(s).0 =~= Seq::<u32>::empty());
    assert(week_spec(s).1 =~= seq![(DiagnosticKind::InvalidWeekNumber, trimmed(s))]);
}

/// Monday of week 1 is the term start itself.
pub proof fn lemma_first_monday(term_start: Date)
    ensures
        project_spec(term_start, 1, "Mon"@) == Ok::<Date, ProjectionError>(term_start),
{
}

/// Week `w` lies `w - 1` weeks after week 1, on the same weekday.
pub proof fn lemma_week_shift(term_start: Date, w: u32, name: Seq<char>)
    ensures
        weekday_of(name) matches Some(day) ==> projected_day(term_start, w, day) == projected_day(
            term_start,
            1,
            day,
        ) + 7 * (w - 1),
        project_spec(term_start, w, name) matches Ok(d) ==> (project_spec(term_start, 1, name) matches Ok(d1)
            ==> d.days == d1.days + 7 * (w - 1)),
        weekday_of(name) is None ==> project_spec(term_start, w, name) == Err::<
            Date,
            ProjectionError,
        >(ProjectionError::InvalidDay),
{
}

/// Under an unknown weekday name every week of a session gives no event and one
/// warning of its own; the other weeks are handled as usual.
pub proof fn lemma_unknown_day(
    course: Seq<char>,
    c: Consultation,
    person: Seq<char>,
    term_start: Date,
    ws: Seq<u32>,
)
    requires
        weekday_of(c.day@) is None,
    ensures
        occurrences(course, c, person, term_start, ws).0 == Seq::<EventView>::empty(),
        occurrences(course, c, person, term_start, ws).1 == Seq::new(
            ws.len(),
            |i: int| (DiagnosticKind::InvalidDay, c.day@),
        ),
    decreases ws.len(),
{
    if ws.len() > 0 {
        lemma_unknown_day(course, c, person, term_start, ws.drop_last());
        assert(occurrences(course, c, person, term_start, ws).0 =~= Seq::<
            EventView,
        >::empty());
        assert(occurrences(course, c, person, term_start, ws).1 =~= Seq::new(
            ws.len(),
            |i: int| (DiagnosticKind::InvalidDay, c.day@),
        ));
    } else {
        assert(occurrences(course, c, person, term_start, ws).1 =~= Seq::new(
            ws.len(),
            |i: int| (DiagnosticKind::InvalidDay, c.day@),
        ));
    }
}

proof fn lemma_unlisted_consultations(
    course: Seq<char>,
    cs: Seq<Consultation>,
    person: Seq<char>,
    term_start: Date,
)
    requires
        forall|j: int| 0 <= j < cs.len() ==> !lists(#[trigger] cs[j], person),
    ensures
        consultations_outcome(course, cs, person, term_start).0.len() == 0,
        consultations_outcome(course, cs, person, term_start).1.len() == 0,
    decreases cs.len(),
{
    if cs.len() > 0 {
        assert(!lists(cs[cs.len() - 1], person));
        lemma_unlisted_consultations(course, cs.drop_last(), person, term_start);
    }
}

/// A person whom no session names gets no events, no warnings, and no match.
pub proof fn lemma_unlisted_person(courses: Seq<Course>, person: Seq<char>, term_start: Date)
    requires
        forall|i: int, j: int|
            0 <= i < courses.len() && 0 <= j < courses[i].consult@.len() ==> !lists(
                #[trigger] courses[i].consult@[j],
                person,
            ),
    ensures
        roster_outcome(courses, person, term_start).0 == Seq::<EventView>::empty(),
        roster_outcome(courses, person, term_start).1 == Seq::<
            (DiagnosticKind, Seq<char>),
        >::empty(),
        !roster_matched(courses, person),
    decreases courses.len(),
{
    if courses.len() > 0 {
        let last = courses[courses.len() - 1];
        assert forall|j: int| 0 <= j < last.consult@.len() implies !lists(
            #[trigger] last.consult@[j],
            person,
        ) by {
            assert(!lists(courses[courses.len() - 1].consult@[j], person));
        }
        lemma_unlisted_consultations(last.course@, last.consult@, person, term_start);
        assert forall|i: int, j: int|
            0 <= i < courses.drop_last().len() && 0 <= j < courses.drop_last()[i].consult@.len()
            implies !lists(#[trigger] courses.drop_last()[i].consult@[j], person) by {
            assert(courses.drop_last()[i] == courses[i]);
        }
        lemma_unlisted_person(courses.drop_last(), person, term_start);
        assert(roster_outcome(courses, person, term_start).0 =~= Seq::<
            EventView,
        >::empty());
        assert(roster_outcome(courses, person, term_start).1 =~= Seq::<
            (DiagnosticKind, Seq<char>),
        >::empty());
    }
    assert(!roster_matched(courses, person)) by {
        if roster_matched(courses, person) {
            let i = choose|i: int| 0 <= i < courses.len() && course_lists(#[trigger] courses[i], person);
            let j = choose|j: int|
                0 <= j < courses[i].consult@.len() && lists(#[trigger] courses[i].consult@[j], person);
            assert(!lists(courses[i].consult@[j], person));
        }
    }
}

/// Two weeks of the same session get different event keys.
pub proof fn lemma_uid_distinct_weeks(
    course: Seq<char>,
    c: Consultation,
    person: Seq<char>,
    w1: u32,
    w2: u32,
)
    requires
        w1 != w2,
    ensures
        uid_text(course, c, person, w1) != uid_text(course, c, person, w2),
{
    let p = course + "-"@ + c.day@ + "-"@ + c.start@ + "-"@ + person + "-week"@;
    let u1 = uid_text(course, c, person, w1);
    let u2 = uid_text(course, c, person, w2);
    assert(u1 == p + dec(w1 as nat));
    assert(u2 == p + dec(w2 as nat));
    if u1 == u2 {
        assert(u1.subrange(p.len() as int, u1.len() as int) =~= dec(w1 as nat));
        assert(u2.subrange(p.len() as int, u2.len() as int) =~= dec(w2 as nat));
        lemma_dec(w1 as nat);
        lemma_dec(w2 as nat);
    }
}

/// Two derivations from the same roster, person and term start are identical.
pub proof fn lemma_derivation_deterministic(
    courses: Seq<Course>,
    person: Seq<char>,
    term_start: Date,
    r1: Derivation,
    r2: Derivation,
)
    requires
        event_views(r1.events@) == roster_outcome(courses, person, term_start).0,
        diag_views(r1.diagnostics@) == roster_outcome(courses, person, term_start).1,
        r1.matched == roster_matched(courses, person),
        event_views(r2.events@) == roster_outcome(courses, person, term_start).0,
        diag_views(r2.diagnostics@) == roster_outcome(courses, person, term_start).1,
        r2.matched == roster_matched(courses, person),
    ensures
        event_views(r1.events@) == event_views(r2.events@),
        diag_views(r1.diagnostics@) == diag_views(r2.diagnostics@),
        r1.matched == r2.matched,
{
}

} // verus!
