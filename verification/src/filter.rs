//! Optional per-command line filters, compiled once from a regular-expression
//! pattern at handle-creation time.
//!
//! The regular-expression engine is the `regex` crate; what it decides is
//! named, not restated: `regex_accepts(p, l)` stands for "the regex compiled
//! from pattern `p` matches somewhere in `l`".

use vstd::prelude::*;

verus! {

/// Declares regex::bytes::Regex, the compiled form of a filter pattern, so
/// that handles can carry one; its values are opaque here.
#[verifier::external_type_specification]
#[verifier::external_body]
pub struct ExRegex(regex::bytes::Regex);

/// The pattern text a compiled regex was built from.
pub uninterp spec fn regex_pattern(re: regex::bytes::Regex) -> Seq<char>;

/// Whether a pattern is accepted by the regex compiler.
pub uninterp spec fn pattern_compiles(pattern: Seq<char>) -> bool;

/// Whether the regex compiled from `pattern` matches somewhere in `line`.
pub uninterp spec fn regex_accepts(pattern: Seq<char>, line: Seq<u8>) -> bool;

/// Relies on regex::bytes::Regex::new: compilation succeeds or fails on the
/// pattern text alone, and the compiled regex remembers that pattern.
#[verifier::external_body]
pub(crate) fn compile_filter(pattern: &str) -> (r: Option<regex::bytes::Regex>)
    ensures
        r is Some <==> pattern_compiles(pattern@),
        r is Some ==> regex_pattern(r->0) == pattern@,
{
    regex::bytes::Regex::new(pattern).ok()
}

/// Relies on regex::bytes::Regex::is_match: whether a compiled regex matches
/// a byte haystack depends only on its pattern and the haystack.
#[verifier::external_body]
pub(crate) fn regex_is_match(re: &regex::bytes::Regex, line: &[u8]) -> (r: bool)
    ensures
        r == regex_accepts(regex_pattern(*re), line@),
{
    re.is_match(line)
}

/// Whether a line passes an optional filter: an absent filter admits every
/// line, a present one admits exactly the lines its regex matches.
pub open spec fn spec_passes(filter: Option<Seq<char>>, line: Seq<u8>) -> bool {
    match filter {
        None => true,
        Some(p) => regex_accepts(p, line),
    }
}

/// The view of an optional compiled filter: the pattern it was built from.
pub open spec fn filter_view(re: Option<regex::bytes::Regex>) -> Option<Seq<char>> {
    match re {
        None => None,
        Some(r) => Some(regex_pattern(r)),
    }
}

/// Decides whether `line` is to be emitted under the optional filter `re`.
pub fn line_passes(re: &Option<regex::bytes::Regex>, line: &[u8]) -> (r: bool)
    ensures
        r == spec_passes(filter_view(*re), line@),
{
    match re {
        None => true,
        Some(rx) => regex_is_match(rx, line),
    }
}

} // verus!
