use finding_breaks::downcase::{
    _downcase_line, _downcase_line_by_char_slowly, _downcase_line_with_regex, downcase_char,
    downcase_matches, downcase_step, try_downcase_line_with_regex,
};
use finding_breaks::numbering::cat_n_step;
use finding_breaks::tokenizer::{
    _tokenize_line, punctuation_regex, tokenize_with, tokenize_words, try_tokenize_line,
    PUNCTUATION,
};
use finding_breaks::words::{pick_second, second_word, second_words};
use regex::Regex;

#[test]
fn downcase_line_lowers_ascii_letters_only() {
    assert_eq!(_downcase_line(String::from("Hello, World!\n")), "hello, world!\n");
    assert_eq!(_downcase_line(String::from("ABC xyz 123")), "abc xyz 123");
    assert_eq!(_downcase_line(String::from("ÀB Δ")), "Àb Δ");
    assert_eq!(_downcase_line(String::new()), "");
    assert_eq!(_downcase_line(String::from("@[`{AZ")), "@[`{az");
}

#[test]
fn downcase_by_char_lowers_ascii_letters_only() {
    assert_eq!(_downcase_line_by_char_slowly(String::from("Hello, World!\n")), "hello, world!\n");
    assert_eq!(_downcase_line_by_char_slowly(String::from("ÀB Δ")), "Àb Δ");
    assert_eq!(_downcase_line_by_char_slowly(String::new()), "");
    assert_eq!(_downcase_line_by_char_slowly(String::from("@[`{AZ")), "@[`{az");
}

#[test]
fn both_ways_of_downcasing_agree() {
    for line in ["The Quick BROWN fox", "ÉCOLE Polytechnique", "", "MiXeD 42 ΣΔ ß"] {
        assert_eq!(
            _downcase_line(String::from(line)),
            _downcase_line_by_char_slowly(String::from(line))
        );
    }
}

#[test]
fn downcase_char_by_its_case() {
    assert_eq!(downcase_char('A', true), 'a');
    assert_eq!(downcase_char('A', false), 'A');
    assert_eq!(downcase_char('Z', true), 'z');
    assert_eq!(downcase_char('Δ', true), 'Δ');
    assert_eq!(downcase_char('q', false), 'q');
}

#[test]
fn downcase_step_stops_at_an_empty_line() {
    assert_eq!(downcase_step(String::new()), None);
    assert_eq!(downcase_step(String::from("AbC\n")), Some(String::from("abc\n")));
    assert_eq!(downcase_step(String::from("\n")), Some(String::from("\n")));
}

#[test]
fn downcase_with_regex_lowers_the_matches() {
    let upper_re = Regex::new(r"([A-Z])").unwrap();
    assert_eq!(_downcase_line_with_regex(String::from("Hello World"), &upper_re), "hello world");
    assert_eq!(_downcase_line_with_regex(String::from("ABC"), &upper_re), "abc");
    assert_eq!(_downcase_line_with_regex(String::from("abc"), &upper_re), "abc");
    assert_eq!(_downcase_line_with_regex(String::new(), &upper_re), "");
    assert_eq!(_downcase_line_with_regex(String::from("xY"), &upper_re), "xy");
    assert_eq!(_downcase_line_with_regex(String::from("Yx\n"), &upper_re), "yx\n");
    assert_eq!(
        _downcase_line_with_regex(String::from("Ünï CODE Δx ÀB"), &upper_re),
        "Ünï code Δx Àb"
    );
}

#[test]
fn downcase_with_regex_lowers_nothing_else() {
    let vowels = Regex::new(r"[AEIOU]").unwrap();
    assert_eq!(_downcase_line_with_regex(String::from("AN EAGLE"), &vowels), "aN eaGLe");
    let digits = Regex::new(r"[0-9]").unwrap();
    assert_eq!(_downcase_line_with_regex(String::from("A1B2"), &digits), "A1B2");
}

#[test]
fn longer_or_empty_matches_are_refused() {
    let runs = Regex::new(r"[A-Z]+").unwrap();
    assert_eq!(try_downcase_line_with_regex(String::from("ABc"), &runs), None);
    assert_eq!(
        try_downcase_line_with_regex(String::from("AbC"), &runs),
        Some(String::from("abc"))
    );
    let wide = Regex::new(r"À").unwrap();
    assert_eq!(try_downcase_line_with_regex(String::from("xÀ"), &wide), None);
    assert_eq!(try_downcase_line_with_regex(String::from("xy"), &wide), Some(String::from("xy")));
    let maybe = Regex::new(r"[A-Z]?").unwrap();
    assert_eq!(try_downcase_line_with_regex(String::from("a"), &maybe), None);
    let upper_re = Regex::new(r"([A-Z])").unwrap();
    assert_eq!(
        try_downcase_line_with_regex(String::from("Hello World"), &upper_re),
        Some(String::from("hello world"))
    );
}

#[test]
fn downcase_matches_by_given_ranges() {
    assert_eq!(downcase_matches("aBcD", &vec![(1, 2), (3, 4)]), "abcd");
    assert_eq!(downcase_matches("ABCD", &vec![(0, 1), (3, 4)]), "aBCd");
    assert_eq!(downcase_matches("ABCD", &Vec::new()), "ABCD");
    assert_eq!(downcase_matches("ÀBC", &vec![(2, 3)]), "ÀbC");
}

#[test]
fn punctuation_pattern_compiles() {
    assert!(punctuation_regex().is_some());
    assert_eq!(punctuation_regex().unwrap().as_str(), PUNCTUATION);
    assert!(Regex::new(PUNCTUATION).is_ok());
}

#[test]
fn tokenize_line_replaces_punctuation_and_lowers() {
    assert_eq!(_tokenize_line(String::from("Hello, World!")), "hello  world ");
    assert_eq!(
        _tokenize_line(String::from("It's (a) [b] {c} d_e f-g; h: i? \"j\".")),
        "it s  a   b   c  d e f g  h  i   j  "
    );
    assert_eq!(_tokenize_line(String::from("ÀB ΣΔ 42\n")), "àb σδ 42\n");
    assert_eq!(_tokenize_line(String::from("5€ â")), "5   ");
    assert_eq!(_tokenize_line(String::new()), "");
    assert_eq!(_tokenize_line(String::from("a+b*c/d")), "a+b*c/d");
}

#[test]
fn try_tokenize_line_is_tokenize_line() {
    assert_eq!(
        try_tokenize_line(String::from("Hello, World!")),
        Some(String::from("hello  world "))
    );
    assert_eq!(try_tokenize_line(String::new()), Some(String::new()));
}

#[test]
fn tokenize_with_a_given_expression() {
    let punctuation = punctuation_regex().unwrap();
    assert_eq!(tokenize_with(String::from("Hello, World!"), &punctuation), "hello  world ");
    let digits = Regex::new(r"[0-9]+").unwrap();
    assert_eq!(tokenize_with(String::from("A1B22C"), &digits), "a b c");
}

#[test]
fn tokenize_words_parts_at_white_space() {
    let punctuation = punctuation_regex().unwrap();
    assert_eq!(
        tokenize_words(String::from("Hello, World!\n"), &punctuation),
        vec!["hello", "world"]
    );
    assert_eq!(
        tokenize_words(String::from("  It's a_b;\tC-3PO  "), &punctuation),
        vec!["it", "s", "a", "b", "c", "3po"]
    );
    assert_eq!(tokenize_words(String::from(" .,;\n"), &punctuation), Vec::<String>::new());
}

#[test]
fn numbered_lines() {
    assert_eq!(cat_n_step(0, "hello  \n"), Some((1, String::from("     1  hello"))));
    assert_eq!(cat_n_step(41, "x"), Some((42, String::from("    42  x"))));
    assert_eq!(cat_n_step(9, "  two words\t\r\n"), Some((10, String::from("    10    two words"))));
    assert_eq!(cat_n_step(99_999, "a\n"), Some((100_000, String::from("100000  a"))));
    assert_eq!(cat_n_step(999_999, "y\n"), Some((1_000_000, String::from("1000000  y"))));
    assert_eq!(
        cat_n_step(2_147_483_646, "z\n"),
        Some((2_147_483_647, String::from("2147483647  z")))
    );
}

#[test]
fn numbering_keeps_blank_lines_and_stops_at_the_end() {
    assert_eq!(cat_n_step(3, "\n"), Some((4, String::from("     4  "))));
    assert_eq!(cat_n_step(3, " \t \n"), Some((4, String::from("     4  "))));
    assert_eq!(cat_n_step(3, ""), None);
    assert_eq!(cat_n_step(0, ""), None);
}

#[test]
fn numbering_stops_at_the_end_whatever_the_count() {
    assert_eq!(cat_n_step(2_147_483_647, ""), None);
}

#[test]
fn trimmed_white_space_is_the_twenty_five_characters() {
    let listed = |c: char| -> bool {
        matches!(
            c,
            '\u{9}'..='\u{d}'
                | ' '
                | '\u{85}'
                | '\u{a0}'
                | '\u{1680}'
                | '\u{2000}'..='\u{200a}'
                | '\u{2028}'
                | '\u{2029}'
                | '\u{202f}'
                | '\u{205f}'
                | '\u{3000}'
        )
    };
    let mut count: usize = 0;
    for c in '\0'..=char::MAX {
        let line: String = format!("x{}", c);
        let trimmed: bool = cat_n_step(0, &line) == Some((1, String::from("     1  x")));
        assert_eq!(trimmed, listed(c), "{:?}", c);
        if trimmed {
            count += 1;
        }
    }
    assert_eq!(count, 25);
}

#[test]
fn second_word_of_a_line() {
    assert_eq!(second_word("7  8"), Some(String::from("8")));
    assert_eq!(second_word(" a\tb c "), Some(String::from("b")));
    assert_eq!(second_word("1.5 -2.25e3 9"), Some(String::from("-2.25e3")));
    assert_eq!(second_word("7"), None);
    assert_eq!(second_word("   "), None);
    assert_eq!(second_word(""), None);
}

#[test]
fn second_of_given_words() {
    assert_eq!(pick_second(&vec![String::from("a"), String::from("b")]), Some(String::from("b")));
    assert_eq!(
        pick_second(&vec![String::from("a"), String::from("b"), String::from("c")]),
        Some(String::from("b"))
    );
    assert_eq!(pick_second(&vec![String::from("a")]), None);
    assert_eq!(pick_second(&Vec::new()), None);
}

#[test]
fn second_words_of_a_text() {
    assert_eq!(
        second_words("1 2\n3 4\r\n5\n\n6 7 8"),
        vec![Some(String::from("2")), Some(String::from("4")), None, None, Some(String::from("7"))]
    );
    assert_eq!(second_words(""), Vec::<Option<String>>::new());
    assert_eq!(second_words("0 1.5\n"), vec![Some(String::from("1.5"))]);
}
