use gresql::split::{joined, split};
use gresql::statement::{comment_level_after, lines_from};
use gresql::text::{
    begins_with_pair, chars_of, cleaned, contains_pair, copy_range, find_pair, is_whitespace,
    leading_word, lowered, string_of, to_lower_char, trimmed, without_leading_semicolons,
};

fn chars(s: &str) -> Vec<char> {
    s.chars().collect()
}

fn text(v: Vec<char>) -> String {
    v.into_iter().collect()
}

#[test]
fn chars_and_strings_convert_both_ways() {
    assert_eq!(chars_of("a\u{e9}\u{1F600}z"), vec!['a', '\u{e9}', '\u{1F600}', 'z']);
    assert_eq!(chars_of(""), Vec::<char>::new());
    assert_eq!(string_of(&['s', 'q', 'l']), "sql");
    assert_eq!(string_of(&[]), "");
    assert_eq!(copy_range(&chars("abcdef"), 2, 4), chars("cd"));
    assert_eq!(copy_range(&chars("abcdef"), 3, 3), chars(""));
}

#[test]
fn whitespace_is_what_std_calls_whitespace() {
    let mut n: u32 = 0;
    while n <= 0x10FFFF {
        if let Some(c) = char::from_u32(n) {
            assert_eq!(is_whitespace(c), c.is_whitespace(), "U+{:04X}", n);
        }
        n += 1;
    }
}

#[test]
fn trimming_removes_white_space_at_both_ends() {
    assert_eq!(text(trimmed(&chars("  a b \t\r\n"))), "a b");
    assert_eq!(text(trimmed(&chars("\u{a0}x\u{3000}"))), "x");
    assert_eq!(text(trimmed(&chars("   "))), "");
    assert_eq!(text(trimmed(&chars(""))), "");
    assert_eq!(text(trimmed(&chars("x"))), "x");
    for s in ["", " ", "a", " a", "a ", " a b ", "\t\ta\u{2003}", "\n"] {
        assert_eq!(text(trimmed(&chars(s))), s.trim());
    }
}

#[test]
fn leading_semicolons_are_removed() {
    assert_eq!(text(without_leading_semicolons(&chars(";;select"))), "select");
    assert_eq!(text(without_leading_semicolons(&chars("; select;"))), " select;");
    assert_eq!(text(without_leading_semicolons(&chars(";")))  , "");
    assert_eq!(text(without_leading_semicolons(&chars("a;"))), "a;");
    assert_eq!(text(without_leading_semicolons(&chars(""))), "");
}

#[test]
fn pairs_are_found_at_their_first_place() {
    assert_eq!(find_pair(&chars("a -- b -- c"), '-', '-'), Some(2));
    assert_eq!(find_pair(&chars("--"), '-', '-'), Some(0));
    assert_eq!(find_pair(&chars("a-b-"), '-', '-'), None);
    assert_eq!(find_pair(&chars("-"), '-', '-'), None);
    assert_eq!(find_pair(&chars(""), '-', '-'), None);
    assert_eq!(find_pair(&chars("x---"), '-', '-'), Some(1));
    assert!(contains_pair(&chars("a /* b"), '/', '*'));
    assert!(!contains_pair(&chars("a / * b"), '/', '*'));
    assert!(contains_pair(&chars("*/"), '*', '/'));
    assert!(!contains_pair(&chars("/*"), '*', '/'));
    assert!(begins_with_pair(&chars("-- x"), '-', '-'));
    assert!(!begins_with_pair(&chars(" -- x"), '-', '-'));
    assert!(!begins_with_pair(&chars("-"), '-', '-'));
}

#[test]
fn cleaning_replaces_tabs_and_cuts_the_comment() {
    assert_eq!(text(cleaned(&chars("a\tb"))), "a b");
    assert_eq!(text(cleaned(&chars("set x = 1 -- why"))), "set x = 1 ");
    assert_eq!(text(cleaned(&chars("set x = '--' , y"))), "set x = '");
    assert_eq!(text(cleaned(&chars("--all"))), "");
    assert_eq!(text(cleaned(&chars("\t-\t-"))), " - -");
    assert_eq!(text(cleaned(&chars(""))), "");
}

#[test]
fn leading_word_is_the_first_token() {
    assert_eq!(text(leading_word(&chars("UPDATE t SET"))), "UPDATE");
    assert_eq!(text(leading_word(&chars("  \tselect\t*"))), "select");
    assert_eq!(text(leading_word(&chars("one"))), "one");
    assert_eq!(text(leading_word(&chars("   "))), "");
    assert_eq!(text(leading_word(&chars(""))), "");
    for s in ["a b", " a", "a", "\u{a0}x\u{a0}y", "insert\tinto"] {
        assert_eq!(text(leading_word(&chars(s))), s.split_whitespace().next().unwrap());
    }
}

#[test]
fn lowering_touches_ascii_capitals_only() {
    assert_eq!(text(lowered(&chars("SeLeCt_1"))), "select_1");
    assert_eq!(text(lowered(&chars("\u{c9}A"))), "\u{c9}a");
    assert_eq!(to_lower_char('A'), 'a');
    assert_eq!(to_lower_char('Z'), 'z');
    assert_eq!(to_lower_char('@'), '@');
    assert_eq!(to_lower_char('['), '[');
    assert_eq!(to_lower_char('q'), 'q');
    let mut n: u32 = 0;
    while n < 128 {
        let c = char::from_u32(n).unwrap();
        assert_eq!(to_lower_char(c), c.to_ascii_lowercase());
        n += 1;
    }
}

#[test]
fn splitting_gives_one_piece_more_than_separators() {
    let pieces = |s: &str, sep: char| -> Vec<String> {
        split(&chars(s), sep).into_iter().map(text).collect()
    };
    assert_eq!(pieces("a,b,c", ','), vec!["a", "b", "c"]);
    assert_eq!(pieces("", ','), vec![""]);
    assert_eq!(pieces(",", ','), vec!["", ""]);
    assert_eq!(pieces("a,", ','), vec!["a", ""]);
    assert_eq!(pieces(",a", ','), vec!["", "a"]);
    assert_eq!(pieces("abc", ','), vec!["abc"]);
    for s in ["", "a", "a:b", ":a::b:", "::", "no colon"] {
        let expected: Vec<String> = s.split(':').map(String::from).collect();
        assert_eq!(pieces(s, ':'), expected);
    }
}

#[test]
fn joining_puts_the_separator_between_neighbours() {
    let v = |items: &[&str]| -> Vec<String> { items.iter().map(|s| s.to_string()).collect() };
    assert_eq!(joined(&v(&["a", "b", "c"]), '|'), "a|b|c");
    assert_eq!(joined(&v(&["a"]), '|'), "a");
    assert_eq!(joined(&v(&[]), '|'), "");
    assert_eq!(joined(&v(&["", ""]), ','), ",");
    assert_eq!(joined(&v(&["a", "", "b"]), ','), "a,,b");
}

#[test]
fn joining_a_split_gives_the_text_back() {
    for s in ["", "a", "a,b", ",a,,b,", ",,", "plain"] {
        let pieces: Vec<String> = split(&chars(s), ',').into_iter().map(text).collect();
        assert_eq!(joined(&pieces, ','), s);
    }
}

#[test]
fn lines_end_at_line_feeds() {
    let lines = |s: &str| -> Vec<String> { lines_from(s).into_iter().map(text).collect() };
    assert_eq!(lines("a\nb\n"), vec!["a", "b"]);
    assert_eq!(lines("a\nb"), vec!["a", "b"]);
    assert_eq!(lines("a\n\n"), vec!["a", ""]);
    assert_eq!(lines("\n"), vec![""]);
    assert_eq!(lines(""), Vec::<String>::new());
    assert_eq!(lines("a\r\nb"), vec!["a\r", "b"]);
}

#[test]
fn comment_level_goes_up_and_down_and_not_below_zero() {
    assert_eq!(comment_level_after(0, &chars("/* open")), 1);
    assert_eq!(comment_level_after(1, &chars("close */")), 0);
    assert_eq!(comment_level_after(0, &chars("/* both */")), 0);
    assert_eq!(comment_level_after(2, &chars("/* both */")), 2);
    assert_eq!(comment_level_after(0, &chars("close */")), 0);
    assert_eq!(comment_level_after(3, &chars("nothing")), 3);
    assert_eq!(comment_level_after(1, &chars("/* deeper")), 2);
}
