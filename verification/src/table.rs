//! Finding the table that a statement refers to.
//!
//! The table is the identifier that follows an anchor keyword: `into` for an
//! insert, `from` for a select, update or delete, `merge` for a merge. An
//! update or delete without `from` names its table right after its own
//! keyword. The anchors are matched by regular expressions.

use crate::statement_type::StatementType;
use vstd::prelude::*;

verus! {

/// What the first group of `pattern` captures in the leftmost match of that
/// regular expression in `text`: `None` where `pattern` is no valid regular
/// expression, where it matches nowhere in `text`, or where the group takes no
/// part in the match.
pub uninterp spec fn first_capture(pattern: Seq<char>, text: Seq<char>) -> Option<Seq<char>>;

/// The characters of an optional string.
pub open spec fn text_of(found: Option<String>) -> Option<Seq<char>> {
    match found {
        Some(s) => Some(s@),
        None => None,
    }
}

/// Compiles `pattern` with `regex::Regex::new`, searches `text` with
/// `Regex::captures` and reads group 1 with `Captures::get`. The contract
/// names the outcome `first_capture`; nothing is claimed about it beyond its
/// being fixed by the two arguments.
#[verifier::external_body]
fn capture_first_group(pattern: &str, text: &str) -> (found: Option<String>)
    ensures
        text_of(found) == first_capture(pattern@, text@),
{
    match regex::Regex::new(pattern) {
        Ok(re) => match re.captures(text) {
            Some(caps) => match caps.get(1) {
                Some(m) => Some(String::from(m.as_str())),
                None => None,
            },
            None => None,
        },
        Err(_) => None,
    }
}

/// The regular expression that finds the table of a statement of this kind.
pub open spec fn primary_pattern(kind: StatementType) -> Seq<char> {
    match kind {
        StatementType::Insert => "\\b(?i:into)\\s+([@#[:alnum:]_]+)"@,
        StatementType::Select | StatementType::Update | StatementType::Delete =>
            "\\b(?i:from)\\s+([@#[:alnum:]_]+)"@,
        StatementType::Merge => "\\b(?i:merge)\\s+([@#[:alnum:]_]+)"@,
    }
}

/// The regular expression tried where the primary one finds nothing: an
/// update or a delete is anchored again on its own keyword.
pub open spec fn fallback_pattern(kind: StatementType) -> Option<Seq<char>> {
    match kind {
        StatementType::Update => Some("\\b(?i:update)\\s+([@#[:alnum:]_]+)"@),
        StatementType::Delete => Some("\\b(?i:delete)\\s+([@#[:alnum:]_]+)"@),
        _ => None,
    }
}

/// The table given what the two patterns captured: the primary capture where
/// there is one, else the fallback capture for the kinds that have a
/// fallback.
pub open spec fn resolve_table(
    kind: StatementType,
    primary: Option<Seq<char>>,
    fallback: Option<Seq<char>>,
) -> Option<Seq<char>> {
    match primary {
        Some(t) => Some(t),
        None => if fallback_pattern(kind) is Some {
            fallback
        } else {
            None
        },
    }
}

/// What the fallback pattern of `kind` captures in `text`, `None` for a kind
/// without fallback.
pub open spec fn fallback_capture(kind: StatementType, text: Seq<char>) -> Option<Seq<char>> {
    match fallback_pattern(kind) {
        Some(p) => first_capture(p, text),
        None => None,
    }
}

/// The table that a statement of the given kind and text refers to.
pub open spec fn table_of(kind: StatementType, text: Seq<char>) -> Option<Seq<char>> {
    resolve_table(
        kind,
        first_capture(primary_pattern(kind), text),
        fallback_capture(kind, text),
    )
}

/// The regular expression that finds the table of a statement of this kind.
pub fn primary_anchor(kind: StatementType) -> (pattern: &'static str)
    ensures
        pattern@ == primary_pattern(kind),
{
    match kind {
        StatementType::Insert => "\\b(?i:into)\\s+([@#[:alnum:]_]+)",
        StatementType::Select | StatementType::Update | StatementType::Delete =>
            "\\b(?i:from)\\s+([@#[:alnum:]_]+)",
        StatementType::Merge => "\\b(?i:merge)\\s+([@#[:alnum:]_]+)",
    }
}

/// The regular expression tried where the primary one finds nothing.
pub fn fallback_anchor(kind: StatementType) -> (pattern: Option<&'static str>)
    ensures
        pattern is Some == fallback_pattern(kind) is Some,
        pattern is Some ==> pattern->0@ == fallback_pattern(kind)->0,
{
    match kind {
        StatementType::Update => Some("\\b(?i:update)\\s+([@#[:alnum:]_]+)"),
        StatementType::Delete => Some("\\b(?i:delete)\\s+([@#[:alnum:]_]+)"),
        _ => None,
    }
}

/// Decides the table from what the two patterns captured. `fallback` is read
/// only where `primary` is `None`.
pub fn choose_table(kind: StatementType, primary: Option<String>, fallback: Option<String>) -> (table:
    Option<String>)
    ensures
        text_of(table) == resolve_table(kind, text_of(primary), text_of(fallback)),
{
    match primary {
        Some(t) => Some(t),
        None => match kind {
            StatementType::Update | StatementType::Delete => fallback,
            _ => None,
        },
    }
}

/// Extracts the table that a statement of the given kind refers to.
pub fn parse_table(kind: StatementType, text: &str) -> (table: Option<String>)
    ensures
        text_of(table) == table_of(kind, text@),
{
    let primary = capture_first_group(primary_anchor(kind), text);
    let fallback = if primary.is_none() {
        match fallback_anchor(kind) {
            Some(pattern) => capture_first_group(pattern, text),
            None => None,
        }
    } else {
        None
    };
    choose_table(kind, primary, fallback)
}

/// An update or delete whose text has no `from` anchor takes its table from
/// the capture behind its own keyword.
pub proof fn lemma_fallback_without_from(kind: StatementType, text: Seq<char>)
    requires
        kind == StatementType::Update || kind == StatementType::Delete,
        first_capture(primary_pattern(kind), text) is None,
    ensures
        table_of(kind, text) == first_capture(fallback_pattern(kind)->0, text),
{
}

/// A statement whose primary anchor captures a table refers to that table,
/// whatever else its text holds.
pub proof fn lemma_primary_wins(kind: StatementType, text: Seq<char>)
    requires
        first_capture(primary_pattern(kind), text) is Some,
    ensures
        table_of(kind, text) == first_capture(primary_pattern(kind), text),
{
}

/// A select, insert or merge has no second anchor: without a primary capture
/// it refers to no table.
pub proof fn lemma_no_fallback(kind: StatementType, text: Seq<char>)
    requires
        kind != StatementType::Update,
        kind != StatementType::Delete,
        first_capture(primary_pattern(kind), text) is None,
    ensures
        table_of(kind, text) is None,
{
}

} // verus!
