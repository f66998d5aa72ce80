//! The words of a line, and the second word of each line of a text.

use vstd::prelude::*;

verus! {

/// The words that `str::split_whitespace` of std finds in `s`, in their
/// order: what stands between stretches of white space.
pub uninterp spec fn whitespace_split(s: Seq<char>) -> Seq<Seq<char>>;

/// The lines that `str::lines` of std finds in `s`, in their order and
/// without their line endings.
pub uninterp spec fn lines_of(s: Seq<char>) -> Seq<Seq<char>>;

/// The texts of the strings of `v`.
pub open spec fn texts(v: Seq<String>) -> Seq<Seq<char>> {
    v.map_values(|s: String| s@)
}

/// `str::split_whitespace` of std, each word as a string of its own. The
/// contract gives the words the name `whitespace_split`.
#[verifier::external_body]
pub(crate) fn split_whitespace(s: &str) -> (words: Vec<String>)
    ensures
        texts(words@) == whitespace_split(s@),
{
    s.split_whitespace().map(String::from).collect()
}

/// `str::lines` of std, each line as a string of its own. The contract gives
/// the lines the name `lines_of`.
#[verifier::external_body]
fn lines(s: &str) -> (found: Vec<String>)
    ensures
        texts(found@) == lines_of(s@),
{
    s.lines().map(String::from).collect()
}

/// The second of the given words, if there are two.
pub open spec fn second_of(words: Seq<Seq<char>>) -> Option<Seq<char>> {
    if words.len() >= 2 {
        Some(words[1])
    } else {
        None
    }
}

/// `found` is the word `expected`, or like it none.
pub open spec fn is_word(found: Option<String>, expected: Option<Seq<char>>) -> bool {
    match expected {
        Some(word) => found matches Some(w) && w@ == word,
        None => found is None,
    }
}

/// Picks the second of the given words, if there are two.
pub fn pick_second(words: &Vec<String>) -> (second: Option<String>)
    ensures
        is_word(second, second_of(texts(words@))),
{
    if words.len() >= 2 {
        Some(words[1].clone())
    } else {
        None
    }
}

/// The second word of `line`, its words parted by white space; `None` where
/// the line has less than two words.
pub fn second_word(line: &str) -> (second: Option<String>)
    ensures
        is_word(second, second_of(whitespace_split(line@))),
{
    let words: Vec<String> = split_whitespace(line);
    pick_second(&words)
}

/// The second word of each line of `content`, in the order of the lines.
pub fn second_words(content: &str) -> (seconds: Vec<Option<String>>)
    ensures
        seconds@.len() == lines_of(content@).len(),
        forall|i: int|
            0 <= i < seconds@.len() ==> is_word(
                #[trigger] seconds@[i],
                second_of(whitespace_split(lines_of(content@)[i])),
            ),
{
    let all: Vec<String> = lines(content);
    let mut ret: Vec<Option<String>> = Vec::new();
    let mut i: usize = 0;
    while i < all.len()
        invariant
            i <= all@.len(),
            texts(all@) == lines_of(content@),
            ret@.len() == i,
            forall|j: int|
                0 <= j < i ==> is_word(
                    #[trigger] ret@[j],
                    second_of(whitespace_split(lines_of(content@)[j])),
                ),
        decreases all@.len() - i,
    {
        assert(texts(all@)[i as int] == all@[i as int]@);
        ret.push(second_word(all[i].as_str()));
        i = i + 1;
    }
    assert(texts(all@).len() == all@.len());
    ret
}

} // verus!
