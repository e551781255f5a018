//! Trusted boundary to the pattern-matching backends: the `regex` crate
//! (byte-oriented regular expressions) and the `aho_corasick` crate
//! (multi-pattern substring search).
//!
//! Regular-expression semantics are not restated here: the results of the
//! backend calls are given names (`regex_accepts`, `regex_found`,
//! `regex_spans`), each a pure function of the pattern and the haystack.
//! Multi-pattern search, in contrast, has a short exact statement
//! (`contains_any`), so its wrapper carries a full contract.

use vstd::prelude::*;

verus! {

#[verifier::external_type_specification]
#[verifier::external_body]
pub struct ExRegex(regex::bytes::Regex);

#[verifier::external_type_specification]
#[verifier::external_body]
pub struct ExAhoCorasick(aho_corasick::AhoCorasick);

/// Whether the regex backend accepts this pattern text.
pub uninterp spec fn regex_accepts(pat: Seq<char>) -> bool;

/// The pattern text a compiled matcher was built from.
pub uninterp spec fn regex_pat(re: regex::bytes::Regex) -> Seq<char>;

/// Whether the pattern matches somewhere in the haystack.
pub uninterp spec fn regex_found(pat: Seq<char>, text: Seq<u8>) -> bool;

/// The successive non-overlapping leftmost match spans of the pattern in
/// the haystack, as `(start, end)` byte offsets.
pub uninterp spec fn regex_spans(pat: Seq<char>, text: Seq<u8>) -> Seq<(int, int)>;

/// Whether the multi-pattern backend can build an automaton from these
/// patterns.
pub uninterp spec fn ac_accepts(pats: Seq<Seq<u8>>) -> bool;

/// The patterns a multi-pattern automaton was built from.
pub uninterp spec fn ac_pats(ac: aho_corasick::AhoCorasick) -> Seq<Seq<u8>>;

/// `pat` occurs in `text` starting at byte offset `j`.
pub open spec fn occurs_at(text: Seq<u8>, pat: Seq<u8>, j: int) -> bool {
    0 <= j && j + pat.len() <= text.len() && text.subrange(j, j + pat.len()) == pat
}

/// Some element of `pats` occurs somewhere in `text`.
pub open spec fn contains_any(pats: Seq<Seq<u8>>, text: Seq<u8>) -> bool {
    exists|i: int, j: int| 0 <= i < pats.len() && occurs_at(text, pats[i], j)
}

/// Relies on `regex::bytes::Regex::new`: whether a pattern compiles is a
/// function of the pattern text alone (the default configuration is used),
/// and on success the matcher holds exactly that pattern.
#[verifier::external_body]
pub(crate) fn regex_new(pat: &str) -> (r: Result<regex::bytes::Regex, String>)
    ensures
        r is Ok <==> regex_accepts(pat@),
        r is Ok ==> regex_pat(r->Ok_0) == pat@,
{
    match regex::bytes::Regex::new(pat) {
        Ok(re) => Ok(re),
        Err(e) => Err(e.to_string()),
    }
}

/// Relies on `regex::bytes::Regex::is_match`: the answer is a function of
/// the pattern and the haystack alone.
#[verifier::external_body]
pub(crate) fn regex_is_match(re: &regex::bytes::Regex, text: &Vec<u8>) -> (r: bool)
    ensures
        r == regex_found(regex_pat(*re), text@),
{
    re.is_match(text.as_slice())
}

/// Relies on `regex::bytes::Regex::find_iter`: it yields the successive
/// non-overlapping leftmost matches in order, each a well-formed byte
/// range into the haystack, and the list is a function of the pattern and
/// the haystack alone.
#[verifier::external_body]
pub(crate) fn regex_find_spans(re: &regex::bytes::Regex, text: &Vec<u8>) -> (r: Vec<
    (usize, usize),
>)
    ensures
        r@.map_values(|p: (usize, usize)| (p.0 as int, p.1 as int)) == regex_spans(
            regex_pat(*re),
            text@,
        ),
        forall|k: int|
            0 <= k < r@.len() ==> (#[trigger] r@[k]).0 <= r@[k].1 && r@[k].1 <= text@.len(),
        forall|k: int| 0 <= k < r@.len() - 1 ==> (#[trigger] r@[k]).1 <= r@[k + 1].0,
{
    re.find_iter(text.as_slice()).map(|m| (m.start(), m.end())).collect()
}

/// Relies on `aho_corasick::AhoCorasick::new` with the default
/// configuration: whether building succeeds is a function of the patterns
/// alone (it fails only on internal limits computed from them), and on
/// success the automaton holds exactly the given patterns.
#[verifier::external_body]
pub(crate) fn ac_new(values: &Vec<Vec<u8>>) -> (r: Result<aho_corasick::AhoCorasick, String>)
    ensures
        r is Ok <==> ac_accepts(crate::bytes::views_of(values@)),
        r is Ok ==> ac_pats(r->Ok_0) == crate::bytes::views_of(values@),
{
    match aho_corasick::AhoCorasick::new(values.as_slice()) {
        Ok(ac) => Ok(ac),
        Err(e) => Err(e.to_string()),
    }
}

/// Relies on `aho_corasick::AhoCorasick::is_match`, which holds if and
/// only if some pattern occurs in the haystack (standard match kind; an
/// automaton from the default configuration never fails an unanchored
/// search).
#[verifier::external_body]
pub(crate) fn ac_is_match(ac: &aho_corasick::AhoCorasick, text: &Vec<u8>) -> (r: bool)
    ensures
        r == contains_any(ac_pats(*ac), text@),
{
    ac.is_match(text.as_slice())
}

} // verus!
