//! The external pattern-matching collaborator. The engine does not know how
//! matches are found: it consumes the byte-offset spans that the matcher
//! produces, and propagates the matcher's pattern-compilation failures.

use vstd::prelude::*;

use crate::text::bytes_len;

verus! {

#[verifier::external_type_specification]
#[verifier::external_body]
pub struct ExRegexError(regex::Error);

/// Whether the matcher accepts `p` as a pattern. Compilation is a function
/// of the pattern text alone.
pub uninterp spec fn pattern_compiles(p: Seq<char>) -> bool;

/// The byte-offset spans of the successive non-overlapping matches of the
/// pattern `p` in the text `t`, in order of appearance.
pub uninterp spec fn pattern_spans(p: Seq<char>, t: Seq<char>) -> Seq<(usize, usize)>;

/// An error of the annotated-text engine: the external matcher rejected a
/// pattern. The underlying diagnostic is carried along.
#[derive(Debug)]
pub enum CuteStringError {
    RegexError(regex::Error),
}

/// Relies on `regex::Regex::new` and `regex::Regex::find_iter`: whether a
/// pattern compiles depends on the pattern alone, and the matches of a
/// compiled pattern in a haystack are successive non-overlapping spans of
/// byte offsets into the haystack, each with `start <= end` and both ends
/// within the haystack's byte length.
#[verifier::external_body]
pub(crate) fn find_pattern_spans(pattern: &str, text: &str) -> (r: Result<
    Vec<(usize, usize)>,
    regex::Error,
>)
    ensures
        r is Ok <==> pattern_compiles(pattern@),
        r is Ok ==> r->Ok_0@ == pattern_spans(pattern@, text@),
        r is Ok ==> forall|i: int|
            0 <= i < pattern_spans(pattern@, text@).len()
                ==> (#[trigger] pattern_spans(pattern@, text@)[i]).0 <= pattern_spans(
                pattern@,
                text@,
            )[i].1 <= bytes_len(text@),
{
    match regex::Regex::new(pattern) {
        Ok(re) => Ok(re.find_iter(text).map(|m| (m.start(), m.end())).collect()),
        Err(e) => Err(e),
    }
}

} // verus!
