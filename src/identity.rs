//! Decisions taken while a person confirms who they are: the identifier they
//! typed, and how their yes/no reply reads.

use vstd::prelude::*;
use vstd::string::*;
use crate::text::{text_eq, trim, trimmed};

verus! {

#[derive(Clone, Copy, Debug, PartialEq, Eq, Structural)]
pub enum Reply {
    Confirm,
    Decline,
    Unrecognised,
}

/// The lower-case form of a text, as `str::to_lowercase` computes it.
pub uninterp spec fn lower_of(s: Seq<char>) -> Seq<char>;

/// Relies on `str::to_lowercase`: the result depends on the characters alone.
#[verifier::external_body]
fn lowercase(s: &str) -> (r: String)
    ensures
        r@ == lower_of(s@),
{
    s.to_lowercase()
}

/// How a reply already trimmed and lower-cased reads.
pub open spec fn reply_of(s: Seq<char>) -> Reply {
    if s == "y"@ || s == "yes"@ {
        Reply::Confirm
    } else if s == "n"@ || s == "no"@ {
        Reply::Decline
    } else {
        Reply::Unrecognised
    }
}

pub fn classify_lowered(s: &str) -> (r: Reply)
    ensures
        r == reply_of(s@),
{
    if text_eq(s, "y") || text_eq(s, "yes") {
        Reply::Confirm
    } else if text_eq(s, "n") || text_eq(s, "no") {
        Reply::Decline
    } else {
        Reply::Unrecognised
    }
}

/// Reads a typed reply, ignoring surrounding whitespace and letter case.
pub fn classify_reply(line: &str) -> (r: Reply)
    ensures
        r == reply_of(lower_of(trimmed(line@))),
{
    let t = trim(line);
    let l = lowercase(t);
    classify_lowered(l.as_str())
}

/// The identifier a person typed, without surrounding whitespace.
pub fn normalize_id(line: &str) -> (r: String)
    ensures
        r@ == trimmed(line@),
{
    String::from_str(trim(line))
}

} // verus!
