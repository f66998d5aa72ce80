//! Turning a line of text into lower-case words without punctuation.

use crate::patterns::{compile, regex_of, regex_replace_all, replace_all};
use crate::words::{split_whitespace, texts, whitespace_split};
use regex::Regex;
use vstd::prelude::*;

verus! {

/// The characters that count as punctuation, written as a pattern for the
/// `regex` crate: a class of single characters.
pub const PUNCTUATION: &'static str = r#"([.,;:!?â€'"()\[\]{}_-])"#;

/// What `str::to_lowercase` of std returns for `s`: its lower case by the
/// rules of Unicode.
pub uninterp spec fn unicode_lowercase(s: Seq<char>) -> Seq<char>;

/// `str::to_lowercase` of std. The contract gives the result the name
/// `unicode_lowercase`.
#[verifier::external_body]
fn str_to_lowercase(s: &str) -> (lowered: String)
    ensures
        lowered@ == unicode_lowercase(s@),
{
    s.to_lowercase()
}

/// The expression for `PUNCTUATION`, compiled; `None` if the `regex` crate
/// refuses the pattern.
pub fn punctuation_regex() -> (re: Option<Regex>)
    ensures
        re == regex_of(PUNCTUATION@),
{
    compile(PUNCTUATION)
}

/// `line` with each match of `punctuation` replaced by one space, and the
/// whole then put in lower case.
pub open spec fn tokenized(line: Seq<char>, punctuation: Regex) -> Seq<char> {
    unicode_lowercase(regex_replace_all(punctuation, line, " "@))
}

/// Replaces each match of `punctuation` in `line` by a space and lower-cases
/// the result.
pub fn tokenize_with(line: String, punctuation: &Regex) -> (tokens: String)
    ensures
        tokens@ == tokenized(line@, *punctuation),
{
    let spaced: String = replace_all(punctuation, line.as_str(), " ");
    str_to_lowercase(spaced.as_str())
}

/// The words of `line`: the line as `tokenize_with` leaves it, parted at its
/// white space.
pub fn tokenize_words(line: String, punctuation: &Regex) -> (words: Vec<String>)
    ensures
        texts(words@) == whitespace_split(tokenized(line@, *punctuation)),
{
    let tokens: String = tokenize_with(line, punctuation);
    split_whitespace(tokens.as_str())
}

/// Replaces each punctuation character of `line` by a space and lower-cases
/// the result. The pattern `PUNCTUATION` has to compile.
pub fn _tokenize_line(line: String) -> (tokens: String)
    requires
        regex_of(PUNCTUATION@) is Some,
    ensures
        tokens@ == tokenized(line@, regex_of(PUNCTUATION@).unwrap()),
{
    match punctuation_regex() {
        Some(punctuation) => tokenize_with(line, &punctuation),
        None => line,
    }
}

/// As `_tokenize_line`, and `None` where the pattern `PUNCTUATION` does not
/// compile.
pub fn try_tokenize_line(line: String) -> (tokens: Option<String>)
    ensures
        match regex_of(PUNCTUATION@) {
            Some(punctuation) => tokens matches Some(t) && t@ == tokenized(line@, punctuation),
            None => tokens is None,
        },
{
    match punctuation_regex() {
        Some(_) => Some(_tokenize_line(line)),
        None => None,
    }
}

} // verus!
