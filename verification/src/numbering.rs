//! Numbering the lines of a text, as `cat -n` does.

use vstd::prelude::*;
use vstd::string::StringExecFns;

verus! {

/// Whether `c` is white space: one of the 25 characters to which Unicode
/// gives the property `White_Space`.
pub open spec fn white_space(c: char) -> bool {
    ||| '\u{9}' <= c <= '\u{d}'
    ||| c == ' '
    ||| c == '\u{85}'
    ||| c == '\u{a0}'
    ||| c == '\u{1680}'
    ||| '\u{2000}' <= c <= '\u{200a}'
    ||| c == '\u{2028}'
    ||| c == '\u{2029}'
    ||| c == '\u{202f}'
    ||| c == '\u{205f}'
    ||| c == '\u{3000}'
}

/// `s` without the white space at its end.
pub open spec fn trimmed_end(s: Seq<char>) -> Seq<char>
    decreases s.len(),
{
    if s.len() > 0 && white_space(s.last()) {
        trimmed_end(s.drop_last())
    } else {
        s
    }
}

/// The decimal digit for `d`, a number below 10.
pub open spec fn digit(d: nat) -> char {
    ((48 + d) as u8) as char
}

/// `n` written in decimal digits.
pub open spec fn decimal(n: nat) -> Seq<char>
    decreases n,
{
    if n < 10 {
        seq![digit(n)]
    } else {
        decimal(n / 10).push(digit(n % 10))
    }
}

/// `s` with spaces put before it until it is `width` characters long.
pub open spec fn padded_left(s: Seq<char>, width: nat) -> Seq<char> {
    if s.len() >= width {
        s
    } else {
        Seq::new((width - s.len()) as nat, |i: int| ' ') + s
    }
}

/// The numbered line: the number flush right in six columns, two spaces,
/// and the line without the white space at its end.
pub open spec fn numbered(number: nat, line: Seq<char>) -> Seq<char> {
    padded_left(decimal(number), 6) + seq![' ', ' '] + trimmed_end(line)
}

/// `str::trim_end` of std. std documents that it returns the slice without
/// its trailing white space, which is what has Unicode's property
/// `White_Space`: the contract says that the result is the leading part of
/// `s` after which all is white space, and that it does not end in white
/// space itself.
#[verifier::external_body]
fn trim_end<'a>(s: &'a str) -> (trimmed: &'a str)
    ensures
        trimmed@.len() <= s@.len(),
        trimmed@ == s@.take(trimmed@.len() as int),
        forall|i: int| trimmed@.len() <= i < s@.len() ==> white_space(s@[i]),
        trimmed@.len() > 0 ==> !white_space(trimmed@[trimmed@.len() - 1]),
{
    s.trim_end()
}

/// `format!` of std with `{:>width$}` on an integer that is not negative, for
/// a width of up to 65535 columns. std documents that an integer is written
/// in decimal, and that the text is put flush right in at least `width`
/// columns, filled up with spaces.
#[verifier::external_body]
fn right_align(n: i32, width: usize) -> (text: String)
    requires
        0 <= n,
        width <= 65535,
    ensures
        text@ == padded_left(decimal(n as nat), width as nat),
{
    format!("{:>1$}", n, width)
}

/// The leading part of `s` after which all is white space, and which does not
/// end in white space, is `trimmed_end(s)`.
pub proof fn lemma_trimmed_end(s: Seq<char>, kept: int)
    requires
        0 <= kept <= s.len(),
        forall|i: int| kept <= i < s.len() ==> white_space(s[i]),
        kept > 0 ==> !white_space(s[kept - 1]),
    ensures
        trimmed_end(s) == s.take(kept),
    decreases s.len(),
{
    if kept == s.len() {
        assert(s.take(kept) =~= s);
    } else {
        lemma_trimmed_end(s.drop_last(), kept);
        assert(s.drop_last().take(kept) =~= s.take(kept));
    }
}

/// One step of numbering lines: for the number of the lines so far and the
/// next line as it was read, with its line ending. An empty line is the end
/// of the input: `None`. Else the new count and the numbered line.
///
/// The count is kept in 32 bits: a line that is not empty cannot follow the
/// greatest of them.
pub fn cat_n_step(count: i32, line: &str) -> (next: Option<(i32, String)>)
    requires
        0 <= count,
        line@.len() > 0 ==> count < i32::MAX,
    ensures
        match next {
            None => line@.len() == 0,
            Some((number, text)) => line@.len() > 0 && number == count + 1 && text@ == numbered(
                number as nat,
                line@,
            ),
        },
{
    if line.is_empty() {
        return None;
    }
    let i: i32 = count + 1;
    let kept: &str = trim_end(line);
    let mut text: String = right_align(i, 6);
    proof {
        reveal_strlit("  ");
        lemma_trimmed_end(line@, kept@.len() as int);
        assert("  "@ =~= seq![' ', ' ']);
    }
    text.append("  ");
    text.append(kept);
    Some((i, text))
}

} // verus!
