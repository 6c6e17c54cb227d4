//! The roster of consultation sessions and the derivation of one person's
//! calendar events from it.

use vstd::prelude::*;
use vstd::string::*;
use crate::date::{Date, ProjectionError, civil_of, date_digits, project, project_spec, push_date_digits};
use crate::diagnostic::{Diagnostic, DiagnosticKind, DiagnosticView, diag_views, lemma_diag_views_push};
use crate::text::{dec, push_decimal, push_without, text_eq, without_char};
use crate::laws::lemma_unlisted_person;
use crate::weeks::{parse_weeks, week_spec};

verus! {

/// One recurring weekly session.
#[derive(Clone, Debug)]
pub struct Consultation {
    pub instructors: Vec<String>,
    /// Week specification, e.g. `"1-5,7"`.
    pub weeks: String,
    /// Three-letter weekday name, `Mon` .. `Sun`.
    pub day: String,
    /// Clock time `HH:MM`.
    pub start: String,
    /// Clock time `HH:MM`.
    pub end: String,
    pub mode: String,
    pub location: Option<String>,
}

/// A course and its consultation sessions.
#[derive(Clone, Debug)]
pub struct Course {
    pub course: String,
    pub consult: Vec<Consultation>,
}

/// One dated occurrence of a consultation.
#[derive(Clone, Debug)]
pub struct EventInstance {
    pub uid: String,
    pub date: Date,
    /// Naive local timestamp `YYYYMMDDTHHMM00`.
    pub dt_start: String,
    pub dt_end: String,
    pub summary: String,
    pub description: String,
    pub location: String,
}

pub struct EventView {
    pub uid: Seq<char>,
    pub date: Date,
    pub dt_start: Seq<char>,
    pub dt_end: Seq<char>,
    pub summary: Seq<char>,
    pub description: Seq<char>,
    pub location: Seq<char>,
}

impl View for EventInstance {
    type V = EventView;

    open spec fn view(&self) -> EventView {
        EventView {
            uid: self.uid@,
            date: self.date,
            dt_start: self.dt_start@,
            dt_end: self.dt_end@,
            summary: self.summary@,
            description: self.description@,
            location: self.location@,
        }
    }
}

pub open spec fn event_views(v: Seq<EventInstance>) -> Seq<EventView> {
    v.map_values(|e: EventInstance| e@)
}

/// The events of one person, whether any session named them, and the warnings
/// about skipped input.
pub struct Derivation {
    pub events: Vec<EventInstance>,
    pub matched: bool,
    pub diagnostics: Vec<Diagnostic>,
}

/// Events and warnings, in order.
pub type Outcome = (Seq<EventView>, Seq<DiagnosticView>);

/// `YYYYMMDDTHHMM00`: the date, then the clock time without its colons.
pub open spec fn stamp(ymd: (int, int, int), clock: Seq<char>) -> Seq<char> {
    date_digits(ymd.0, ymd.1, ymd.2) + "T"@ + without_char(clock, ':') + "00"@
}

pub open spec fn location_text(location: Option<String>) -> Seq<char> {
    match location {
        Some(l) => l@,
        None => "Online"@,
    }
}

pub open spec fn uid_text(course: Seq<char>, c: Consultation, person: Seq<char>, week: u32) -> Seq<
    char,
> {
    course + "-"@ + c.day@ + "-"@ + c.start@ + "-"@ + person + "-week"@ + dec(week as nat)
}

pub open spec fn event_of(
    course: Seq<char>,
    c: Consultation,
    person: Seq<char>,
    week: u32,
    date: Date,
    ymd: (int, int, int),
) -> EventView {
    EventView {
        uid: uid_text(course, c, person, week),
        date,
        dt_start: stamp(ymd, c.start@),
        dt_end: stamp(ymd, c.end@),
        summary: course + " Help Session"@,
        description: "Mode: "@ + c.mode@ + ", Weeks: "@ + c.weeks@,
        location: location_text(c.location),
    }
}

/// What week `week` of consultation `c` gives: one event, or one warning.
pub open spec fn occurrence(
    course: Seq<char>,
    c: Consultation,
    person: Seq<char>,
    term_start: Date,
    week: u32,
) -> Outcome {
    match project_spec(term_start, week, c.day@) {
        Err(ProjectionError::InvalidDay) => (seq![], seq![(DiagnosticKind::InvalidDay, c.day@)]),
        Err(ProjectionError::OutOfRange) => (
            seq![],
            seq![(DiagnosticKind::DateOutOfRange, dec(week as nat))],
        ),
        Ok(date) => match civil_of(date.days as int) {
            None => (seq![], seq![(DiagnosticKind::DateOutOfRange, dec(week as nat))]),
            Some(ymd) => (seq![event_of(course, c, person, week, date, ymd)], seq![]),
        },
    }
}

pub open spec fn occurrences(
    course: Seq<char>,
    c: Consultation,
    person: Seq<char>,
    term_start: Date,
    ws: Seq<u32>,
) -> Outcome
    decreases ws.len(),
{
    if ws.len() == 0 {
        (seq![], seq![])
    } else {
        let p = occurrences(course, c, person, term_start, ws.drop_last());
        let q = occurrence(course, c, person, term_start, ws.last());
        (p.0 + q.0, p.1 + q.1)
    }
}

/// Whether `person` is among the consultation's instructors.
pub open spec fn lists(c: Consultation, person: Seq<char>) -> bool {
    exists|k: int| 0 <= k < c.instructors@.len() && (#[trigger] c.instructors@[k])@ == person
}

pub open spec fn consultation_outcome(
    course: Seq<char>,
    c: Consultation,
    person: Seq<char>,
    term_start: Date,
) -> Outcome {
    if lists(c, person) {
        let w = week_spec(c.weeks@);
        let o = occurrences(course, c, person, term_start, w.0);
        (o.0, w.1 + o.1)
    } else {
        (seq![], seq![])
    }
}

pub open spec fn consultations_outcome(
    course: Seq<char>,
    cs: Seq<Consultation>,
    person: Seq<char>,
    term_start: Date,
) -> Outcome
    decreases cs.len(),
{
    if cs.len() == 0 {
        (seq![], seq![])
    } else {
        let p = consultations_outcome(course, cs.drop_last(), person, term_start);
        let q = consultation_outcome(course, cs.last(), person, term_start);
        (p.0 + q.0, p.1 + q.1)
    }
}

/// Everything the roster gives for `person`, course by course.
pub open spec fn roster_outcome(courses: Seq<Course>, person: Seq<char>, term_start: Date) -> Outcome
    decreases courses.len(),
{
    if courses.len() == 0 {
        (seq![], seq![])
    } else {
        let p = roster_outcome(courses.drop_last(), person, term_start);
        let q = consultations_outcome(
            courses.last().course@,
            courses.last().consult@,
            person,
            term_start,
        );
        (p.0 + q.0, p.1 + q.1)
    }
}

pub open spec fn course_lists(course: Course, person: Seq<char>) -> bool {
    exists|j: int| 0 <= j < course.consult@.len() && lists(#[trigger] course.consult@[j], person)
}

/// Whether any consultation of the roster names `person`.
pub open spec fn roster_matched(courses: Seq<Course>, person: Seq<char>) -> bool {
    exists|i: int| 0 <= i < courses.len() && course_lists(#[trigger] courses[i], person)
}

proof fn lemma_event_views_push(v: Seq<EventInstance>, e: EventInstance)
    ensures
        event_views(v.push(e)) == event_views(v).push(e@),
{
    assert(event_views(v.push(e)) =~= event_views(v).push(e@));
}

fn lists_person(c: &Consultation, person: &str) -> (r: bool)
    ensures
        r == lists(*c, person@),
{
    let n = c.instructors.len();
    let mut k: usize = 0;
    while k < n
        invariant
            k <= n,
            n == c.instructors@.len(),
            forall|j: int| 0 <= j < k ==> (#[trigger] c.instructors@[j])@ != person@,
        decreases n - k,
    {
        if text_eq(c.instructors[k].as_str(), person) {
            return true;
        }
        k = k + 1;
    }
    false
}

fn push_stamp(s: &mut String, ymd: (i32, u32, u32), clock: &str)
    ensures
        final(s)@ == old(s)@ + stamp((ymd.0 as int, ymd.1 as int, ymd.2 as int), clock@),
{
    let ghost base = s@;
    push_date_digits(s, ymd.0, ymd.1, ymd.2);
    s.append("T");
    push_without(s, clock, ':');
    s.append("00");
    assert(s@ =~= base + stamp((ymd.0 as int, ymd.1 as int, ymd.2 as int), clock@));
}

fn build_event(
    course: &str,
    c: &Consultation,
    person: &str,
    week: u32,
    date: Date,
    ymd: (i32, u32, u32),
) -> (r: EventInstance)
    ensures
        r@ == event_of(course@, *c, person@, week, date, (ymd.0 as int, ymd.1 as int, ymd.2 as int)),
{
    let mut uid = String::from_str(course);
    uid.append("-");
    uid.append(c.day.as_str());
    uid.append("-");
    uid.append(c.start.as_str());
    uid.append("-");
    uid.append(person);
    uid.append("-week");
    push_decimal(&mut uid, week);
    let mut dt_start = String::new();
    push_stamp(&mut dt_start, ymd, c.start.as_str());
    let mut dt_end = String::new();
    push_stamp(&mut dt_end, ymd, c.end.as_str());
    let mut summary = String::from_str(course);
    summary.append(" Help Session");
    let mut description = String::from_str("Mode: ");
    description.append(c.mode.as_str());
    description.append(", Weeks: ");
    description.append(c.weeks.as_str());
    let location = match &c.location {
        Some(l) => l.clone(),
        None => String::from_str("Online"),
    };
    proof {
        assert(uid@ =~= uid_text(course@, *c, person@, week));
        assert(dt_start@ =~= Seq::<char>::empty() + stamp(
            (ymd.0 as int, ymd.1 as int, ymd.2 as int),
            c.start@,
        ));
        assert(dt_end@ =~= Seq::<char>::empty() + stamp(
            (ymd.0 as int, ymd.1 as int, ymd.2 as int),
            c.end@,
        ));
    }
    EventInstance { uid, date, dt_start, dt_end, summary, description, location }
}

fn push_event_diag(diags: &mut Vec<Diagnostic>, d: Diagnostic)
    ensures
        diag_views(final(diags)@) == diag_views(old(diags)@).push(d@),
{
    proof {
        lemma_diag_views_push(diags@, d);
    }
    diags.push(d);
}

fn expand_occurrence(
    course: &str,
    c: &Consultation,
    person: &str,
    term_start: Date,
    week: u32,
    events: &mut Vec<EventInstance>,
    diags: &mut Vec<Diagnostic>,
)
    ensures
        event_views(final(events)@) == event_views(old(events)@) + occurrence(
            course@,
            *c,
            person@,
            term_start,
            week,
        ).0,
        diag_views(final(diags)@) == diag_views(old(diags)@) + occurrence(
            course@,
            *c,
            person@,
            term_start,
            week,
        ).1,
{
    let ghost o = occurrence(course@, *c, person@, term_start, week);
    match project(term_start, week, c.day.as_str()) {
        Err(ProjectionError::InvalidDay) => {
            push_event_diag(diags, Diagnostic::new(DiagnosticKind::InvalidDay, c.day.as_str()));
        },
        Err(ProjectionError::OutOfRange) => {
            let mut w = String::new();
            push_decimal(&mut w, week);
            assert(w@ =~= dec(week as nat));
            push_event_diag(diags, Diagnostic::new(DiagnosticKind::DateOutOfRange, w.as_str()));
        },
        Ok(date) => match date.ymd() {
            None => {
                let mut w = String::new();
                push_decimal(&mut w, week);
                assert(w@ =~= dec(week as nat));
                push_event_diag(
                    diags,
                    Diagnostic::new(DiagnosticKind::DateOutOfRange, w.as_str()),
                );
            },
            Some(ymd) => {
                let e = build_event(course, c, person, week, date, ymd);
                proof {
                    lemma_event_views_push(events@, e);
                }
                events.push(e);
            },
        },
    }
    assert(event_views(events@) =~= event_views(old(events)@) + o.0);
    assert(diag_views(diags@) =~= diag_views(old(diags)@) + o.1);
}

/// Adds what one consultation gives; returns whether it names `person`.
fn expand_consultation(
    course: &str,
    c: &Consultation,
    person: &str,
    term_start: Date,
    events: &mut Vec<EventInstance>,
    diags: &mut Vec<Diagnostic>,
) -> (matched: bool)
    ensures
        matched == lists(*c, person@),
        event_views(final(events)@) == event_views(old(events)@) + consultation_outcome(
            course@,
            *c,
            person@,
            term_start,
        ).0,
        diag_views(final(diags)@) == diag_views(old(diags)@) + consultation_outcome(
            course@,
            *c,
            person@,
            term_start,
        ).1,
{
    if !lists_person(c, person) {
        assert(event_views(events@) =~= event_views(events@) + seq![]);
        assert(diag_views(diags@) =~= diag_views(diags@) + seq![]);
        return false;
    }
    let parsed = parse_weeks(c.weeks.as_str());
    let ws = &parsed.weeks;
    let mut pd = parsed.diagnostics;
    let ghost dbase = diag_views(diags@);
    diags.append(&mut pd);
    assert(diag_views(diags@) =~= dbase + week_spec(c.weeks@).1);
    let ghost ebase = event_views(events@);
    let ghost dmid = diag_views(diags@);
    let n = ws.len();
    let mut k: usize = 0;
    assert(ws@.subrange(0, 0) =~= Seq::<u32>::empty());
    assert(event_views(events@) =~= ebase + seq![]);
    assert(diag_views(diags@) =~= dmid + seq![]);
    while k < n
        invariant
            k <= n,
            n == ws@.len(),
            ws@ == week_spec(c.weeks@).0,
            dmid == dbase + week_spec(c.weeks@).1,
            event_views(events@) == ebase + occurrences(
                course@,
                *c,
                person@,
                term_start,
                ws@.subrange(0, k as int),
            ).0,
            diag_views(diags@) == dmid + occurrences(
                course@,
                *c,
                person@,
                term_start,
                ws@.subrange(0, k as int),
            ).1,
        decreases n - k,
    {
        expand_occurrence(course, c, person, term_start, ws[k], events, diags);
        proof {
            let s1 = ws@.subrange(0, k + 1);
            assert(s1.drop_last() =~= ws@.subrange(0, k as int));
            assert(s1.last() == ws@[k as int]);
            assert(event_views(events@) =~= ebase + occurrences(
                course@,
                *c,
                person@,
                term_start,
                s1,
            ).0);
            assert(diag_views(diags@) =~= dmid + occurrences(
                course@,
                *c,
                person@,
                term_start,
                s1,
            ).1);
        }
        k = k + 1;
    }
    assert(ws@.subrange(0, n as int) =~= ws@);
    assert(diag_views(diags@) =~= dbase + consultation_outcome(course@, *c, person@, term_start).1);
    true
}

/// Adds what one course gives; returns whether any of its sessions names `person`.
fn expand_course(
    course: &Course,
    person: &str,
    term_start: Date,
    events: &mut Vec<EventInstance>,
    diags: &mut Vec<Diagnostic>,
) -> (matched: bool)
    ensures
        matched == course_lists(*course, person@),
        event_views(final(events)@) == event_views(old(events)@) + consultations_outcome(
            course.course@,
            course.consult@,
            person@,
            term_start,
        ).0,
        diag_views(final(diags)@) == diag_views(old(diags)@) + consultations_outcome(
            course.course@,
            course.consult@,
            person@,
            term_start,
        ).1,
{
    let ghost ebase = event_views(events@);
    let ghost dbase = diag_views(diags@);
    let cs = &course.consult;
    let n = cs.len();
    let mut found = false;
    let mut j: usize = 0;
    assert(cs@.subrange(0, 0) =~= Seq::<Consultation>::empty());
    assert(event_views(events@) =~= ebase + seq![]);
    assert(diag_views(diags@) =~= dbase + seq![]);
    while j < n
        invariant
            j <= n,
            n == cs@.len(),
            cs == &course.consult,
            found == exists|x: int| 0 <= x < j && lists(#[trigger] cs@[x], person@),
            event_views(events@) == ebase + consultations_outcome(
                course.course@,
                cs@.subrange(0, j as int),
                person@,
                term_start,
            ).0,
            diag_views(diags@) == dbase + consultations_outcome(
                course.course@,
                cs@.subrange(0, j as int),
                person@,
                term_start,
            ).1,
        decreases n - j,
    {
        let m = expand_consultation(course.course.as_str(), &cs[j], person, term_start, events, diags);
        found = found || m;
        proof {
            let s1 = cs@.subrange(0, j + 1);
            assert(s1.drop_last() =~= cs@.subrange(0, j as int));
            assert(s1.last() == cs@[j as int]);
            assert(event_views(events@) =~= ebase + consultations_outcome(
                course.course@,
                s1,
                person@,
                term_start,
            ).0);
            assert(diag_views(diags@) =~= dbase + consultations_outcome(
                course.course@,
                s1,
                person@,
                term_start,
            ).1);
        }
        j = j + 1;
    }
    assert(cs@.subrange(0, n as int) =~= cs@);
    found
}

/// Derives the calendar events of `person` from the roster. Every session whose
/// instructors include `person` is expanded: one event for each week of its
/// week specification, dated `term_start + (week - 1) weeks + weekday offset`.
/// Malformed week tokens, unknown weekday names and dates outside the calendar
/// are skipped with a warning. `matched` tells whether any session named `person`.
pub fn derive_events(courses: &Vec<Course>, person: &str, term_start: Date) -> (r: Derivation)
    ensures
        event_views(r.events@) == roster_outcome(courses@, person@, term_start).0,
        diag_views(r.diagnostics@) == roster_outcome(courses@, person@, term_start).1,
        r.matched == roster_matched(courses@, person@),
        !r.matched ==> r.events@.len() == 0 && r.diagnostics@.len() == 0,
{
    let mut events: Vec<EventInstance> = Vec::new();
    let mut diags: Vec<Diagnostic> = Vec::new();
    let n = courses.len();
    let mut found = false;
    let mut i: usize = 0;
    assert(courses@.subrange(0, 0) =~= Seq::<Course>::empty());
    assert(event_views(events@) =~= seq![]);
    assert(diag_views(diags@) =~= seq![]);
    while i < n
        invariant
            i <= n,
            n == courses@.len(),
            found == exists|x: int| 0 <= x < i && course_lists(#[trigger] courses@[x], person@),
            event_views(events@) == roster_outcome(
                courses@.subrange(0, i as int),
                person@,
                term_start,
            ).0,
            diag_views(diags@) == roster_outcome(
                courses@.subrange(0, i as int),
                person@,
                term_start,
            ).1,
        decreases n - i,
    {
        let m = expand_course(&courses[i], person, term_start, &mut events, &mut diags);
        found = found || m;
        proof {
            let s1 = courses@.subrange(0, i + 1);
            assert(s1.drop_last() =~= courses@.subrange(0, i as int));
            assert(s1.last() == courses@[i as int]);
        }
        i = i + 1;
    }
    assert(courses@.subrange(0, n as int) =~= courses@);
    proof {
        if !found {
            assert forall|x: int, y: int|
                0 <= x < courses@.len() && 0 <= y < courses@[x].consult@.len() implies !lists(
                #[trigger] courses@[x].consult@[y],
                person@,
            ) by {
                assert(!course_lists(courses@[x], person@));
            }
            lemma_unlisted_person(courses@, person@, term_start);
            assert(event_views(events@).len() == events@.len());
            assert(diag_views(diags@).len() == diags@.len());
        }
    }
    Derivation { events, matched: found, diagnostics: diags }
}

} // verus!
