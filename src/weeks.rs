//! Week specifications: comma-separated week numbers and inclusive ranges.

use vstd::prelude::*;
use vstd::string::*;
use crate::diagnostic::{Diagnostic, DiagnosticKind, DiagnosticView, diag_views, lemma_diag_views_push};
use crate::text::{
    first_index, has_char, parse_u32, parse_u32_spec, split_on, trim,
    trimmed,
};

verus! {

/// The weeks `a, a+1, ..., b`; empty when `a > b`.
pub open spec fn week_range(a: u32, b: u32) -> Seq<u32> {
    Seq::new(
        if a <= b {
            (b - a + 1) as nat
        } else {
            0
        },
        |i: int| (a + i) as u32,
    )
}

/// The weeks one comma-separated token stands for, and the warning it raises.
pub open spec fn token_parse(tok: Seq<char>) -> (Seq<u32>, Seq<DiagnosticView>) {
    let t = trimmed(tok);
    if has_char(t, '-') {
        let k = first_index(t, '-');
        let a = parse_u32_spec(trimmed(t.subrange(0, k)));
        let b = parse_u32_spec(trimmed(t.subrange(k + 1, t.len() as int)));
        if a is Some && b is Some {
            (week_range(a->0, b->0), seq![])
        } else {
            (seq![], seq![(DiagnosticKind::InvalidWeekRange, t)])
        }
    } else {
        match parse_u32_spec(t) {
            Some(w) => (seq![w], seq![]),
            None => (seq![], seq![(DiagnosticKind::InvalidWeekNumber, t)]),
        }
    }
}

/// The tokens' weeks and warnings, concatenated in order.
pub open spec fn tokens_parse(ts: Seq<Seq<char>>) -> (Seq<u32>, Seq<DiagnosticView>)
    decreases ts.len(),
{
    if ts.len() == 0 {
        (seq![], seq![])
    } else {
        let p = tokens_parse(ts.drop_last());
        let q = token_parse(ts.last());
        (p.0 + q.0, p.1 + q.1)
    }
}

/// The meaning of a whole week specification.
pub open spec fn week_spec(s: Seq<char>) -> (Seq<u32>, Seq<DiagnosticView>) {
    tokens_parse(split_on(s, ','))
}

/// Weeks in order, with one warning for each token that was skipped.
pub struct WeekParse {
    pub weeks: Vec<u32>,
    pub diagnostics: Vec<Diagnostic>,
}

fn push_range(weeks: &mut Vec<u32>, a: u32, b: u32)
    ensures
        final(weeks)@ == old(weeks)@ + week_range(a, b),
{
    let ghost base = weeks@;
    let mut w: u64 = a as u64;
    while w <= b as u64
        invariant
            a <= w,
            a <= b ==> w <= b as u64 + 1,
            a > b ==> w == a,
            weeks@ == base + Seq::new((w - a) as nat, |i: int| (a + i) as u32),
        decreases b as u64 + 1 - w,
    {
        weeks.push(w as u32);
        assert(weeks@ =~= base + Seq::new((w + 1 - a) as nat, |i: int| (a + i) as u32));
        w = w + 1;
    }
    assert(weeks@ =~= base + week_range(a, b));
}

fn push_diag(diags: &mut Vec<Diagnostic>, kind: DiagnosticKind, subject: &str)
    ensures
        diag_views(final(diags)@) == diag_views(old(diags)@).push((kind, subject@)),
{
    let d = Diagnostic::new(kind, subject);
    proof {
        lemma_diag_views_push(diags@, d);
    }
    diags.push(d);
}

/// Adds what one token stands for.
fn parse_token(tok: &str, weeks: &mut Vec<u32>, diags: &mut Vec<Diagnostic>)
    ensures
        final(weeks)@ == old(weeks)@ + token_parse(tok@).0,
        diag_views(final(diags)@) == diag_views(old(diags)@) + token_parse(tok@).1,
{
    let t = trim(tok);
    let n = t.unicode_len();
    let mut k: usize = 0;
    while k < n && t.get_char(k) != '-'
        invariant
            k <= n,
            n == t@.len(),
            forall|j: int| 0 <= j < k ==> t@[j] != '-',
        decreases n - k,
    {
        k = k + 1;
    }
    if k < n {
        assert(has_char(t@, '-'));
        let ghost f = first_index(t@, '-');
        assert(f == k);
        let left = parse_u32(trim(t.substring_char(0, k)));
        let right = parse_u32(trim(t.substring_char(k + 1, n)));
        match (left, right) {
            (Some(a), Some(b)) => {
                push_range(weeks, a, b);
                assert(diag_views(diags@) =~= diag_views(old(diags)@) + seq![]);
            },
            _ => {
                push_diag(diags, DiagnosticKind::InvalidWeekRange, t);
                assert(weeks@ =~= old(weeks)@ + seq![]);
                assert(diag_views(diags@) =~= diag_views(old(diags)@) + token_parse(tok@).1);
            },
        }
    } else {
        assert(!has_char(t@, '-'));
        match parse_u32(t) {
            Some(w) => {
                weeks.push(w);
                assert(weeks@ =~= old(weeks)@ + seq![w]);
                assert(diag_views(diags@) =~= diag_views(old(diags)@) + seq![]);
            },
            None => {
                push_diag(diags, DiagnosticKind::InvalidWeekNumber, t);
                assert(weeks@ =~= old(weeks)@ + seq![]);
                assert(diag_views(diags@) =~= diag_views(old(diags)@) + token_parse(tok@).1);
            },
        }
    }
}

/// Expands a week specification such as `"1,3-5,8"` into week numbers.
/// Tokens are separated by `,` and trimmed. A token holding `-` is an inclusive
/// range split at its first `-`, expanded in ascending order (so a reversed range
/// gives no weeks); any other token is a single week. A token that does not parse
/// gives no weeks and one warning.
pub fn parse_weeks(text: &str) -> (r: WeekParse)
    ensures
        r.weeks@ == week_spec(text@).0,
        diag_views(r.diagnostics@) == week_spec(text@).1,
{
    let n = text.unicode_len();
    let mut weeks: Vec<u32> = Vec::new();
    let mut diags: Vec<Diagnostic> = Vec::new();
    let ghost mut done: Seq<Seq<char>> = seq![];
    let mut st: usize = 0;
    let mut i: usize = 0;
    assert(text@.subrange(0, 0) =~= Seq::<char>::empty());
    assert(diag_views(diags@) =~= seq![]);
    while i < n
        invariant
            st <= i <= n,
            n == text@.len(),
            split_on(text@.subrange(0, i as int), ',') == done.push(
                text@.subrange(st as int, i as int),
            ),
            weeks@ == tokens_parse(done).0,
            diag_views(diags@) == tokens_parse(done).1,
        decreases n - i,
    {
        let c = text.get_char(i);
        let ghost pre = text@.subrange(0, i + 1);
        assert(pre.drop_last() =~= text@.subrange(0, i as int));
        assert(pre.last() == c);
        if c == ',' {
            let tok = text.substring_char(st, i);
            parse_token(tok, &mut weeks, &mut diags);
            proof {
                assert(done.push(tok@).drop_last() =~= done);
                assert(done.push(tok@).last() == tok@);
                done = done.push(tok@);
                assert(text@.subrange(i + 1, i + 1) =~= Seq::<char>::empty());
            }
            st = i + 1;
        } else {
            proof {
                assert(text@.subrange(st as int, i + 1) =~= text@.subrange(st as int, i as int).push(c));
                assert(split_on(pre, ',') =~= done.push(text@.subrange(st as int, i + 1)));
            }
        }
        i = i + 1;
    }
    let tok = text.substring_char(st, n);
    parse_token(tok, &mut weeks, &mut diags);
    proof {
        assert(text@.subrange(0, n as int) =~= text@);
        assert(done.push(tok@).drop_last() =~= done);
        assert(done.push(tok@).last() == tok@);
    }
    WeekParse { weeks, diagnostics: diags }
}

} // verus!
