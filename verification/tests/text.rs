use skid::decimal::{numeral, padded, parse_usize};
use skid::indent::{indent, indent_endl};
use skid::style::{Colour, Style};
use skid::text::{
    comes_before, is_space_char, join_texts, leading_char, lower_ascii, same, spaces, split,
    split_words, to_chars, trimmed,
};

fn txt_strings(v: &[&str]) -> Vec<String> {
    v.iter().map(|s| String::from(*s)).collect()
}

#[test]
fn split_keeps_empty_pieces() {
    assert_eq!(split("a,b,,c", ','), txt_strings(&["a", "b", "", "c"]));
    assert_eq!(split("", ','), txt_strings(&[""]));
    assert_eq!(split(",", ','), txt_strings(&["", ""]));
    assert_eq!(split("abc", ','), txt_strings(&["abc"]));
    assert_eq!(split("a,", ','), txt_strings(&["a", ""]));
}

#[test]
fn split_builds_pieces_from_pushed_characters() {
    let parts = split("héllo wörld", ' ');
    assert_eq!(parts, txt_strings(&["héllo", "wörld"]));
}

#[test]
fn join_puts_separator_between_neighbours() {
    assert_eq!(join_texts(&txt_strings(&["a", "b", "c"]), ", "), "a, b, c");
    assert_eq!(join_texts(&txt_strings(&["a"]), ","), "a");
    assert_eq!(join_texts(&txt_strings(&[]), ","), "");
    assert_eq!(join_texts(&txt_strings(&["", ""]), ","), ",");
}

#[test]
fn split_undoes_join() {
    let parts = txt_strings(&["one", "", "three four", "5"]);
    assert_eq!(split(join_texts(&parts, ";").as_str(), ';'), parts);
}

#[test]
fn join_undoes_split() {
    let text = ",a,,b;c,";
    assert_eq!(join_texts(&split(text, ','), ","), text);
}

#[test]
fn trimmed_drops_white_space_at_both_ends() {
    assert_eq!(trimmed("  add  cs101 \t\n"), "add  cs101");
    assert_eq!(trimmed(""), "");
    assert_eq!(trimmed(" \u{a0}\u{3000} "), "");
    assert_eq!(trimmed("x"), "x");
}

#[test]
fn white_space_is_what_std_calls_white_space() {
    let mut u: u32 = 0;
    while u < 0x3100 {
        if let Some(c) = char::from_u32(u) {
            assert_eq!(is_space_char(c), c.is_whitespace(), "U+{:04X}", u);
        }
        u += 1;
    }
}

#[test]
fn split_words_gives_runs_without_white_space() {
    assert_eq!(split_words("  add\tcs101  1-1-2025\n"), txt_strings(&["add", "cs101", "1-1-2025"]));
    assert_eq!(split_words(""), txt_strings(&[]));
    assert_eq!(split_words(" \t\u{a0}"), txt_strings(&[]));
    assert_eq!(split_words("one"), txt_strings(&["one"]));
}

#[test]
fn leading_char_skips_white_space() {
    assert_eq!(leading_char("  [x]"), Some('['));
    assert_eq!(leading_char("x ["), Some('x'));
    assert_eq!(leading_char("   "), None);
    assert_eq!(leading_char(""), None);
}

#[test]
fn lower_ascii_folds_only_ascii_capitals() {
    assert_eq!(lower_ascii("PeRiOd"), "period");
    assert_eq!(lower_ascii("ÀB1z"), "Àb1z");
}

#[test]
fn same_compares_character_by_character() {
    assert!(same("abc", "abc"));
    assert!(!same("abc", "abd"));
    assert!(!same("abc", "ab"));
    assert!(same("", ""));
}

#[test]
fn comes_before_is_lexicographic() {
    let c = |s: &str| to_chars(s);
    assert!(comes_before(&c("10"), &c("2")));
    assert!(!comes_before(&c("2"), &c("10")));
    assert!(comes_before(&c("ab"), &c("abc")));
    assert!(!comes_before(&c("abc"), &c("ab")));
    assert!(!comes_before(&c("abc"), &c("abc")));
    assert!(comes_before(&c(""), &c("a")));
    assert!(!comes_before(&c(""), &c("")));
}

#[test]
fn comes_before_agrees_with_string_order() {
    let words = ["", "a", "A", "ab", "b", "10", "2", "é", "z", "zz", "\u{10000}", "\u{ffff}"];
    for x in words.iter() {
        for y in words.iter() {
            assert_eq!(comes_before(&to_chars(x), &to_chars(y)), x < y, "{:?} {:?}", x, y);
        }
    }
}

#[test]
fn spaces_makes_a_run_of_blanks() {
    assert_eq!(spaces(0), "");
    assert_eq!(spaces(3), "   ");
}

#[test]
fn to_chars_lists_the_characters() {
    assert_eq!(to_chars("aé1"), vec!['a', 'é', '1']);
}

#[test]
fn numeral_writes_shortest_decimal() {
    assert_eq!(numeral(0), "0");
    assert_eq!(numeral(7), "7");
    assert_eq!(numeral(10), "10");
    assert_eq!(numeral(12345), "12345");
    assert_eq!(numeral(usize::MAX), usize::MAX.to_string());
}

#[test]
fn padded_adds_zeros_in_front() {
    assert_eq!(padded(1, 2), "01");
    assert_eq!(padded(12, 2), "12");
    assert_eq!(padded(123, 2), "123");
    assert_eq!(padded(0, 4), "0000");
    assert_eq!(padded(2025, 4), "2025");
    assert_eq!(padded(5, 0), "5");
}

#[test]
fn parse_usize_reads_what_std_reads() {
    let max = usize::MAX.to_string();
    let over = format!("{}0", max);
    let inputs = [
        "0", "12", "007", "+5", "+", "", "-0", "-1", "1a", " 1", "1 ", "++1", "abc",
        max.as_str(), over.as_str(), "99999999999999999999999999",
    ];
    for s in inputs.iter() {
        assert_eq!(parse_usize(s), s.parse::<usize>().ok(), "{:?}", s);
    }
}

#[test]
fn parse_usize_undoes_numeral() {
    for n in [0usize, 1, 9, 10, 99, 100, 12345, usize::MAX] {
        assert_eq!(parse_usize(numeral(n).as_str()), Some(n));
    }
}

#[test]
fn indent_puts_blanks_in_front_of_every_line() {
    assert_eq!(indent(txt_strings(&["a", "", "b c"]), 2), txt_strings(&["  a", "  ", "  b c"]));
    assert_eq!(indent(txt_strings(&["a"]), 0), txt_strings(&["a"]));
    assert_eq!(indent(txt_strings(&[]), 4), txt_strings(&[]));
}

#[test]
fn indent_endl_joins_with_newlines() {
    assert_eq!(indent_endl(txt_strings(&["a", "b"]), 2), "  a\n  b");
    assert_eq!(indent_endl(txt_strings(&[]), 2), "");
}

#[test]
fn paint_wraps_text_in_escape_sequences() {
    assert_eq!(Style::bold(Colour::Green).paint("hw1"), "\u{1b}[1;32mhw1\u{1b}[0m");
    assert_eq!(Style::normal(Colour::Green).paint("hw1"), "\u{1b}[32mhw1\u{1b}[0m");
    assert_eq!(Style::bold(Colour::Black).paint(")"), "\u{1b}[1;30m)\u{1b}[0m");
    assert_eq!(Style::normal(Colour::Red).paint("ERR!"), "\u{1b}[31mERR!\u{1b}[0m");
    assert_eq!(Style::bold(Colour::Yellow).paint("1"), "\u{1b}[1;33m1\u{1b}[0m");
    assert_eq!(Style::normal(Colour::Blue).paint(""), "\u{1b}[34m\u{1b}[0m");
    assert_eq!(Style::bold(Colour::Purple).paint("(id)"), "\u{1b}[1;35m(id)\u{1b}[0m");
}

#[test]
fn style_constructors_set_the_weight() {
    assert_eq!(Style::bold(Colour::Blue), Style { colour: Colour::Blue, bold: true });
    assert_eq!(Style::normal(Colour::Blue), Style { colour: Colour::Blue, bold: false });
}
