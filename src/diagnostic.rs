//! Warnings about input that was skipped; they never stop a derivation.

use vstd::prelude::*;
use vstd::string::*;

verus! {

#[derive(Clone, Copy, Debug, PartialEq, Eq, Structural)]
pub enum DiagnosticKind {
    InvalidWeekRange,
    InvalidWeekNumber,
    InvalidDay,
    DateOutOfRange,
}

/// A warning: what went wrong, and the text it concerns.
#[derive(Clone, Debug)]
pub struct Diagnostic {
    pub kind: DiagnosticKind,
    pub subject: String,
}

pub type DiagnosticView = (DiagnosticKind, Seq<char>);

impl View for Diagnostic {
    type V = DiagnosticView;

    open spec fn view(&self) -> DiagnosticView {
        (self.kind, self.subject@)
    }
}

pub open spec fn diag_views(v: Seq<Diagnostic>) -> Seq<DiagnosticView> {
    v.map_values(|d: Diagnostic| d@)
}

pub open spec fn kind_label(k: DiagnosticKind) -> Seq<char> {
    match k {
        DiagnosticKind::InvalidWeekRange => "Invalid week range: "@,
        DiagnosticKind::InvalidWeekNumber => "Invalid week number: "@,
        DiagnosticKind::InvalidDay => "Invalid day: "@,
        DiagnosticKind::DateOutOfRange => "Date out of range for week: "@,
    }
}

pub proof fn lemma_diag_views_push(v: Seq<Diagnostic>, d: Diagnostic)
    ensures
        diag_views(v.push(d)) == diag_views(v).push(d@),
{
    assert(diag_views(v.push(d)) =~= diag_views(v).push(d@));
}

impl Diagnostic {
    pub fn new(kind: DiagnosticKind, subject: &str) -> (r: Diagnostic)
        ensures
            r@ == (kind, subject@),
    {
        Diagnostic { kind, subject: String::from_str(subject) }
    }

    /// The warning as one line of text.
    pub fn message(&self) -> (r: String)
        ensures
            r@ == kind_label(self.kind) + self.subject@,
    {
        let mut r = match self.kind {
            DiagnosticKind::InvalidWeekRange => String::from_str("Invalid week range: "),
            DiagnosticKind::InvalidWeekNumber => String::from_str("Invalid week number: "),
            DiagnosticKind::InvalidDay => String::from_str("Invalid day: "),
            DiagnosticKind::DateOutOfRange => String::from_str("Date out of range for week: "),
        };
        r.append(self.subject.as_str());
        r
    }
}

} // verus!
