//! Lower-casing a line of text in three ways: at once, character by
//! character, and at the places that a regular expression matches.

use crate::patterns::{find_ranges, matches_in_order, regex_find_all};
use regex::Regex;
use vstd::prelude::*;
use vstd::string::{StringExecFns, StringSliceAdditionalSpecFns};
use vstd::utf8::{
    char_u32_cast, decode_utf8, encode_scalar, encode_utf8, encode_utf8_decode_utf8,
    encode_utf8_valid_utf8, has_width_1_encoding,
    is_ascii_chars, is_ascii_chars_encode_utf8, is_char_boundary,
    is_char_boundary_iff_not_is_continuation_byte, is_char_boundary_start_end_of_seq, valid_utf8,
    valid_utf8_split,
};

verus! {

/// `c` in ASCII lower case: the letters `A` to `Z` become `a` to `z`, every
/// other character stays.
pub open spec fn ascii_lower(c: char) -> char {
    if 'A' <= c <= 'Z' {
        ((c as u8 + 32) as u8) as char
    } else {
        c
    }
}

/// `s` with each character in ASCII lower case.
pub open spec fn ascii_lowered(s: Seq<char>) -> Seq<char> {
    s.map_values(|c: char| ascii_lower(c))
}

/// Whether `char::is_uppercase` of std holds of `c`: whether Unicode gives
/// the character the property `Uppercase`.
pub uninterp spec fn char_is_uppercase(c: char) -> bool;

/// `str::to_ascii_lowercase` of std. std documents that it maps the ASCII
/// letters `A` to `Z` to `a` to `z` and leaves every other character as it
/// is.
#[verifier::external_body]
fn str_to_ascii_lowercase(s: &str) -> (lowered: String)
    ensures
        lowered@ == ascii_lowered(s@),
{
    s.to_ascii_lowercase()
}

/// `char::is_uppercase` of std. The contract gives its answer the name
/// `char_is_uppercase`, and says that of the ASCII characters the letters `A`
/// to `Z` are upper case and no other.
#[verifier::external_body]
fn is_uppercase(c: char) -> (upper: bool)
    ensures
        upper == char_is_uppercase(c),
        c <= '\u{7f}' ==> (upper <==> 'A' <= c <= 'Z'),
{
    c.is_uppercase()
}

/// `to_string` of std on a `char`: the string of that one character.
#[verifier::external_body]
fn char_to_string(c: char) -> (s: String)
    ensures
        s@ == seq![c],
{
    c.to_string()
}

/// Lower-cases the ASCII letters of `line`.
pub fn _downcase_line(line: String) -> (lowered: String)
    ensures
        lowered@ == ascii_lowered(line@),
{
    str_to_ascii_lowercase(line.as_str())
}

/// One step of lower-casing lines: for the next line as it was read, with its
/// line ending. An empty line is the end of the input: `None`. Else the line
/// with its ASCII letters in lower case.
pub fn downcase_step(line: String) -> (lowered: Option<String>)
    ensures
        match lowered {
            None => line@.len() == 0,
            Some(text) => line@.len() > 0 && text@ == ascii_lowered(line@),
        },
{
    if line.as_str().is_empty() {
        None
    } else {
        Some(_downcase_line(line))
    }
}

/// What becomes of the character `ch`, given whether it is upper case: an
/// upper-case character is put in ASCII lower case, any other is kept.
pub open spec fn downcased(ch: char, upper: bool) -> char {
    if upper {
        ascii_lower(ch)
    } else {
        ch
    }
}

/// The character `ch` in ASCII lower case.
fn to_ascii_lowercase(ch: char) -> (lowered: char)
    ensures
        lowered == ascii_lower(ch),
{
    if 'A' <= ch && ch <= 'Z' {
        ((ch as u8) + 32) as char
    } else {
        ch
    }
}

/// The character that stands for `ch` in a lower-cased line, where `upper`
/// says whether `ch` is upper case.
pub fn downcase_char(ch: char, upper: bool) -> (lowered: char)
    ensures
        lowered == downcased(ch, upper),
{
    if upper {
        to_ascii_lowercase(ch)
    } else {
        ch
    }
}

/// Lower-cases `line` one character at a time: each character that Unicode
/// calls upper case is put in ASCII lower case. That is the line with its
/// ASCII letters in lower case, as `_downcase_line` gives it.
pub fn _downcase_line_by_char_slowly(line: String) -> (lowered: String)
    ensures
        lowered@ == line@.map_values(|ch: char| downcased(ch, char_is_uppercase(ch))),
        lowered@ == ascii_lowered(line@),
{
    let mut result = String::new();
    for ch in it: line.as_str().chars()
        invariant
            it.seq() == line@,
            result@ == line@.take(it.index() as int).map_values(
                |ch: char| downcased(ch, char_is_uppercase(ch)),
            ),
            result@ == ascii_lowered(line@.take(it.index() as int)),
    {
        let lowered: char = downcase_char(ch, is_uppercase(ch));
        let piece: String = char_to_string(lowered);
        result.append(piece.as_str());
    }
    result
}

/// Every range is one byte long.
pub open spec fn single_bytes(ranges: Seq<(usize, usize)>) -> bool {
    forall|k: int| 0 <= k < ranges.len() ==> (#[trigger] ranges[k]).1 - ranges[k].0 == 1
}

/// The byte offset `p` lies in the range `range`.
pub open spec fn covers(range: (usize, usize), p: int) -> bool {
    range.0 <= p < range.1
}

/// The byte offset `p` lies in one of the ranges.
pub open spec fn in_a_match(ranges: Seq<(usize, usize)>, p: int) -> bool {
    exists|m: int| 0 <= m < ranges.len() && covers(#[trigger] ranges[m], p)
}

/// The byte `b` in ASCII lower case.
pub open spec fn lower_byte(b: u8) -> u8 {
    if 65 <= b <= 90 {
        (b + 32) as u8
    } else {
        b
    }
}

/// `bytes` with each byte that lies in one of the ranges put in ASCII lower
/// case.
pub open spec fn lowered_bytes(bytes: Seq<u8>, ranges: Seq<(usize, usize)>) -> Seq<u8> {
    Seq::new(
        bytes.len(),
        |p: int|
            if in_a_match(ranges, p) {
                lower_byte(bytes[p])
            } else {
                bytes[p]
            },
    )
}

/// The encoding of two texts joined is the two encodings joined.
pub proof fn lemma_encode_concat(x: Seq<char>, y: Seq<char>)
    ensures
        encode_utf8(x + y) == encode_utf8(x) + encode_utf8(y),
    decreases x.len(),
{
    if x.len() == 0 {
        assert(x + y =~= y);
        assert(encode_utf8(x) + encode_utf8(y) =~= encode_utf8(y));
    } else {
        lemma_encode_concat(x.drop_first(), y);
        assert((x + y).drop_first() =~= x.drop_first() + y);
        assert(encode_utf8(x + y) =~= encode_utf8(x) + encode_utf8(y));
    }
}

/// No character is encoded in less than one byte.
proof fn lemma_encode_scalar_len(c: char)
    ensures
        encode_scalar(c as u32).len() >= 1,
        encode_scalar(c as u32).len() == 1 ==> has_width_1_encoding(c as u32),
{
}

/// An encoding has at least as many bytes as the text has characters.
proof fn lemma_encode_len(text: Seq<char>)
    ensures
        encode_utf8(text).len() >= text.len(),
    decreases text.len(),
{
    if text.len() > 0 {
        lemma_encode_scalar_len(text[0]);
        lemma_encode_len(text.drop_first());
    }
}

/// A text that is encoded in one byte is one ASCII character, and the byte
/// is that character's number.
pub proof fn lemma_one_byte_text(text: Seq<char>)
    requires
        encode_utf8(text).len() == 1,
    ensures
        text.len() == 1,
        is_ascii_chars(text),
        encode_utf8(text) == seq![text[0] as u8],
{
    lemma_encode_len(text);
    assert(text.len() == 1);
    lemma_encode_scalar_len(text[0]);
    assert(text.drop_first() =~= Seq::<char>::empty());
    assert(encode_utf8(text) =~= encode_scalar(text[0] as u32));
    let u: u32 = text[0] as u32;
    assert(has_width_1_encoding(u));
    char_u32_cast(text[0], u);
    assert('\0' <= (u as char) <= '\u{7f}');
    assert(is_ascii_chars(text));
    is_ascii_chars_encode_utf8(text);
    assert(encode_utf8(text) =~= seq![text[0] as u8]);
}

/// The bytes of a character in ASCII lower case are the bytes of the
/// character, each in ASCII lower case.
proof fn lemma_lower_scalar(c: char)
    ensures
        encode_scalar(ascii_lower(c) as u32) == encode_scalar(c as u32).map_values(
            |b: u8| lower_byte(b),
        ),
{
    let u: u32 = c as u32;
    char_u32_cast(c, u);
    if has_width_1_encoding(u) {
        assert((u & 0x7F) as u8 == u as u8) by (bit_vector)
            requires
                u <= 0x7F,
        ;
        if 'A' <= c <= 'Z' {
            let v: u32 = ascii_lower(c) as u32;
            assert(v == u + 32);
            assert((v & 0x7F) as u8 == v as u8) by (bit_vector)
                requires
                    v <= 0x7F,
            ;
        }
        assert(encode_scalar(ascii_lower(c) as u32) =~= encode_scalar(u).map_values(
            |b: u8| lower_byte(b),
        ));
    } else {
        assert(ascii_lower(c) == c);
        assert(0xC0u8 | ((u >> 6) & 0x1F) as u8 >= 0x80) by (bit_vector);
        assert(0xE0u8 | ((u >> 12) & 0x0F) as u8 >= 0x80) by (bit_vector);
        assert(0xF0u8 | ((u >> 18) & 0x7) as u8 >= 0x80) by (bit_vector);
        assert(0x80u8 | (u & 0x3F) as u8 >= 0x80) by (bit_vector);
        assert(0x80u8 | ((u >> 6) & 0x3F) as u8 >= 0x80) by (bit_vector);
        assert(0x80u8 | ((u >> 12) & 0x3F) as u8 >= 0x80) by (bit_vector);
        assert(encode_scalar(u) =~= encode_scalar(u).map_values(|b: u8| lower_byte(b)));
    }
}

/// The encoding of a text in ASCII lower case is the encoding of the text,
/// each byte in ASCII lower case.
pub proof fn lemma_lowered_text(text: Seq<char>)
    ensures
        encode_utf8(ascii_lowered(text)) == encode_utf8(text).map_values(|b: u8| lower_byte(b)),
    decreases text.len(),
{
    let lower = |b: u8| lower_byte(b);
    if text.len() == 0 {
        assert(encode_utf8(ascii_lowered(text)) =~= encode_utf8(text).map_values(lower));
    } else {
        lemma_lower_scalar(text[0]);
        lemma_lowered_text(text.drop_first());
        assert(ascii_lowered(text).drop_first() =~= ascii_lowered(text.drop_first()));
        assert(ascii_lowered(text)[0] == ascii_lower(text[0]));
        let head = encode_scalar(text[0] as u32);
        let tail = encode_utf8(text.drop_first());
        assert((head + tail).map_values(lower) =~= head.map_values(lower) + tail.map_values(
            lower,
        ));
    }
}

/// The three ways of lower-casing agree where the matches hold every ASCII
/// upper-case letter of the line: lower-casing the bytes in such ranges
/// gives the line in ASCII lower case, as `_downcase_line` does.
pub proof fn lemma_upper_case_matches(text: Seq<char>, ranges: Seq<(usize, usize)>)
    requires
        forall|p: int|
            0 <= p < encode_utf8(text).len() && 65 <= #[trigger] encode_utf8(text)[p] <= 90
                ==> in_a_match(ranges, p),
    ensures
        lowered_bytes(encode_utf8(text), ranges) == encode_utf8(ascii_lowered(text)),
{
    lemma_lowered_text(text);
    assert(lowered_bytes(encode_utf8(text), ranges) =~= encode_utf8(text).map_values(
        |b: u8| lower_byte(b),
    ));
}

/// A boundary between characters of a text is one in each leading part of
/// the text that reaches it.
proof fn lemma_boundary_in_prefix(bytes: Seq<u8>, from: int, to: int)
    requires
        valid_utf8(bytes),
        0 <= from <= to <= bytes.len(),
        is_char_boundary(bytes, from),
        is_char_boundary(bytes, to),
    ensures
        valid_utf8(bytes.subrange(0, to)),
        is_char_boundary(bytes.subrange(0, to), from),
{
    valid_utf8_split(bytes, to);
    let head = bytes.subrange(0, to);
    if from == to {
        is_char_boundary_start_end_of_seq(head);
    } else {
        is_char_boundary_iff_not_is_continuation_byte(bytes, from);
        is_char_boundary_iff_not_is_continuation_byte(head, from);
    }
}

/// The part of `s` from the byte offset `from` up to `to`.
fn slice<'a>(s: &'a str, from: usize, to: usize) -> (part: &'a str)
    requires
        from <= to <= s.spec_bytes().len(),
        is_char_boundary(s.spec_bytes(), from as int),
        is_char_boundary(s.spec_bytes(), to as int),
    ensures
        part.spec_bytes() == s.spec_bytes().subrange(from as int, to as int),
{
    proof {
        encode_utf8_valid_utf8(s@);
        lemma_boundary_in_prefix(s.spec_bytes(), from as int, to as int);
    }
    let (head, _) = s.split_at(to);
    let (_, part) = head.split_at(from);
    assert(part.spec_bytes() =~= s.spec_bytes().subrange(from as int, to as int));
    part
}

/// Whether every range is one byte long.
fn all_single_bytes(ranges: &Vec<(usize, usize)>) -> (all: bool)
    requires
        forall|k: int| 0 <= k < ranges@.len() ==> (#[trigger] ranges@[k]).0 <= ranges@[k].1,
    ensures
        all == single_bytes(ranges@),
{
    let mut k: usize = 0;
    while k < ranges.len()
        invariant
            k <= ranges@.len(),
            forall|j: int| 0 <= j < ranges@.len() ==> (#[trigger] ranges@[j]).0 <= ranges@[j].1,
            forall|j: int| 0 <= j < k ==> (#[trigger] ranges@[j]).1 - ranges@[j].0 == 1,
        decreases ranges@.len() - k,
    {
        let r: (usize, usize) = ranges[k];
        if r.1 - r.0 != 1 {
            return false;
        }
        k = k + 1;
    }
    true
}

/// Lower-cases the bytes of `line` that lie in `ranges`, the matches of an
/// expression for upper-case letters: what lies between two matches is
/// copied, and each match, one byte long, is put in ASCII lower case.
pub fn downcase_matches(line: &str, ranges: &Vec<(usize, usize)>) -> (lowered: String)
    requires
        matches_in_order(line.spec_bytes(), ranges@),
        single_bytes(ranges@),
    ensures
        encode_utf8(lowered@) == lowered_bytes(encode_utf8(line@), ranges@),
        lowered@ == decode_utf8(lowered_bytes(encode_utf8(line@), ranges@)),
{
    let mut result = String::new();
    let mut i: usize = 0;
    let s = line;
    let ghost bytes = s.spec_bytes();
    let ghost target = lowered_bytes(bytes, ranges@);
    proof {
        encode_utf8_valid_utf8(s@);
        is_char_boundary_start_end_of_seq(bytes);
    }
    let mut k: usize = 0;
    while k < ranges.len()
        invariant
            bytes == encode_utf8(s@),
            bytes == s.spec_bytes(),
            valid_utf8(bytes),
            target == lowered_bytes(bytes, ranges@),
            matches_in_order(bytes, ranges@),
            single_bytes(ranges@),
            k <= ranges@.len(),
            i <= bytes.len(),
            is_char_boundary(bytes, i as int),
            forall|j: int| k <= j < ranges@.len() ==> i <= (#[trigger] ranges@[j]).0,
            forall|j: int| 0 <= j < k ==> (#[trigger] ranges@[j]).1 <= i,
            encode_utf8(result@) == target.subrange(0, i as int),
        decreases ranges@.len() - k,
    {
        let r: (usize, usize) = ranges[k];
        assert(r == ranges@[k as int]);
        if r.0 > i {
            let between: &str = slice(s, i, r.0);
            proof {
                lemma_encode_concat(result@, between@);
                assert forall|p: int| i <= p < r.0 implies !in_a_match(ranges@, p) by {
                    assert forall|m: int| 0 <= m < ranges@.len() implies !covers(
                        #[trigger] ranges@[m],
                        p,
                    ) by {
                        if m < k {
                            assert(ranges@[m].1 <= i);
                        } else if m > k {
                            assert(ranges@[k as int].1 <= ranges@[m].0);
                        }
                    }
                }
                assert(target.subrange(0, i as int) + bytes.subrange(i as int, r.0 as int)
                    =~= target.subrange(0, r.0 as int));
            }
            result.append(between);
        }
        let matched: &str = slice(s, r.0, r.1);
        let small: String = str_to_ascii_lowercase(matched);
        proof {
            lemma_one_byte_text(matched@);
            let c = matched@[0];
            assert(small@ =~= seq![ascii_lower(c)]);
            assert(is_ascii_chars(small@));
            is_ascii_chars_encode_utf8(small@);
            assert(bytes.subrange(r.0 as int, r.1 as int)[0] == bytes[r.0 as int]);
            assert(c as u8 == bytes[r.0 as int]);
            assert(encode_utf8(small@) =~= seq![lower_byte(bytes[r.0 as int])]);
            assert(covers(ranges@[k as int], r.0 as int));
            assert(in_a_match(ranges@, r.0 as int));
            lemma_encode_concat(result@, small@);
            assert(target.subrange(0, r.0 as int) + seq![lower_byte(bytes[r.0 as int])]
                =~= target.subrange(0, r.1 as int));
        }
        i = r.1;
        result.append(small.as_str());
        k = k + 1;
    }
    proof {
        is_char_boundary_start_end_of_seq(bytes);
    }
    let end: usize = s.as_bytes().len();
    if i < end {
        let rest: &str = slice(s, i, end);
        proof {
            lemma_encode_concat(result@, rest@);
            assert forall|p: int| i <= p < bytes.len() implies !in_a_match(ranges@, p) by {
                assert forall|m: int| 0 <= m < ranges@.len() implies !covers(
                    #[trigger] ranges@[m],
                    p,
                ) by {
                    assert(ranges@[m].1 <= i);
                }
            }
            assert(target.subrange(0, i as int) + bytes.subrange(i as int, bytes.len() as int)
                =~= target);
        }
        result.append(rest);
    }
    proof {
        assert(target.subrange(0, bytes.len() as int) =~= target);
        encode_utf8_decode_utf8(result@);
    }
    result
}

/// Lower-cases the bytes of `line` that `upper_re` matches. Each match has to
/// be one byte long.
pub fn _downcase_line_with_regex(line: String, upper_re: &Regex) -> (lowered: String)
    requires
        single_bytes(regex_find_all(*upper_re, line@)),
    ensures
        encode_utf8(lowered@) == lowered_bytes(
            encode_utf8(line@),
            regex_find_all(*upper_re, line@),
        ),
        lowered@ == decode_utf8(
            lowered_bytes(encode_utf8(line@), regex_find_all(*upper_re, line@)),
        ),
{
    let ranges: Vec<(usize, usize)> = find_ranges(upper_re, line.as_str());
    downcase_matches(line.as_str(), &ranges)
}

/// As `_downcase_line_with_regex`, and `None` where a match of `upper_re` in
/// `line` is not one byte long.
pub fn try_downcase_line_with_regex(line: String, upper_re: &Regex) -> (lowered: Option<String>)
    ensures
        match lowered {
            Some(text) => single_bytes(regex_find_all(*upper_re, line@)) && encode_utf8(text@)
                == lowered_bytes(encode_utf8(line@), regex_find_all(*upper_re, line@)) && text@
                == decode_utf8(
                lowered_bytes(encode_utf8(line@), regex_find_all(*upper_re, line@)),
            ),
            None => !single_bytes(regex_find_all(*upper_re, line@)),
        },
{
    let ranges: Vec<(usize, usize)> = find_ranges(upper_re, line.as_str());
    if all_single_bytes(&ranges) {
        Some(downcase_matches(line.as_str(), &ranges))
    } else {
        None
    }
}

} // verus!
