//! The `regex` crate as this library uses it: compiling a pattern, replacing
//! its matches and finding them.

use regex::Regex;
use vstd::prelude::*;
use vstd::string::StringSliceAdditionalSpecFns;
use vstd::utf8::is_char_boundary;

verus! {

/// A compiled regular expression of the `regex` crate. Nothing inside it is
/// visible here.
#[verifier::external_type_specification]
#[verifier::external_body]
pub struct ExRegex(Regex);

/// What `Regex::new` of the `regex` crate makes of `pattern`: the compiled
/// expression, or `None` where it refuses the pattern.
pub uninterp spec fn regex_of(pattern: Seq<char>) -> Option<Regex>;

/// What `Regex::replace_all` returns for the expression `re`, the text
/// `haystack` and the replacement `rep`.
pub uninterp spec fn regex_replace_all(re: Regex, haystack: Seq<char>, rep: Seq<char>) -> Seq<char>;

/// The byte offsets, start and end, of the successive matches that
/// `Regex::find_iter` of the `regex` crate yields for the expression `re` in
/// the text `haystack`.
pub uninterp spec fn regex_find_all(re: Regex, haystack: Seq<char>) -> Seq<(usize, usize)>;

/// The byte ranges `ranges` lie in `bytes` one after the other without
/// overlap, each from one character boundary to another.
pub open spec fn matches_in_order(bytes: Seq<u8>, ranges: Seq<(usize, usize)>) -> bool {
    &&& forall|k: int|
        0 <= k < ranges.len() ==> {
            &&& (#[trigger] ranges[k]).0 <= ranges[k].1 <= bytes.len()
            &&& is_char_boundary(bytes, ranges[k].0 as int)
            &&& is_char_boundary(bytes, ranges[k].1 as int)
        }
    &&& forall|j: int, k: int|
        0 <= j < k < ranges.len() ==> (#[trigger] ranges[j]).1 <= (#[trigger] ranges[k]).0
}

/// `Regex::new` of the `regex` crate, its error dropped. The contract gives
/// the outcome the name `regex_of`: a pattern always compiles alike.
#[verifier::external_body]
pub(crate) fn compile(pattern: &str) -> (re: Option<Regex>)
    ensures
        re == regex_of(pattern@),
{
    Regex::new(pattern).ok()
}

/// `Regex::replace_all` of the `regex` crate, its result as an owned string.
/// The contract gives the result the name `regex_replace_all`.
#[verifier::external_body]
pub(crate) fn replace_all(re: &Regex, haystack: &str, rep: &str) -> (replaced: String)
    ensures
        replaced@ == regex_replace_all(*re, haystack@, rep@),
{
    re.replace_all(haystack, rep).into_owned()
}

/// `Regex::find_iter` of the `regex` crate, each match given by its `start()`
/// and `end()`. The contract gives the matches the name `regex_find_all`,
/// and says what the crate documents of them: they are successive and do not
/// overlap, no match ends before it starts or beyond the text, and each
/// offset falls on a boundary between UTF-8 encoded characters.
#[verifier::external_body]
pub(crate) fn find_ranges(re: &Regex, haystack: &str) -> (found: Vec<(usize, usize)>)
    ensures
        found@ == regex_find_all(*re, haystack@),
        matches_in_order(haystack.spec_bytes(), found@),
{
    re.find_iter(haystack).map(|m| (m.start(), m.end())).collect()
}

} // verus!
