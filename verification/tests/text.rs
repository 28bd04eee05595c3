use bristol_circuit::lines::split_lines;
use bristol_circuit::number::parse_number;
use bristol_circuit::text::{char_width, str_eq};
use bristol_circuit::tokens::{is_separator, split_tokens};

#[test]
fn numbers_are_decimal_and_fit_in_32_bits() {
    assert_eq!(parse_number("0"), Some(0));
    assert_eq!(parse_number("42"), Some(42));
    assert_eq!(parse_number("1337"), Some(1337));
    assert_eq!(parse_number("4294967295"), Some(4294967295));
    assert_eq!(parse_number("4294967296"), None);
    assert_eq!(parse_number("4294967300"), None);
    assert_eq!(parse_number("99999999999999999999"), None);
}

#[test]
fn numbers_may_have_leading_zeros_and_a_plus() {
    assert_eq!(parse_number("007"), Some(7));
    assert_eq!(parse_number("0000000000000000000001"), Some(1));
    assert_eq!(parse_number("+5"), Some(5));
    assert_eq!(parse_number("+0004294967295"), Some(4294967295));
}

#[test]
fn malformed_numbers_are_refused() {
    for field in ["", "+", "-", "-1", "-0", "++1", "+-1", "1+", "1 ", " 1", "1a", "a1", "0x1", "1.0", "1e3", "\u{ff11}", "\u{661}"] {
        assert_eq!(parse_number(field), None, "{:?}", field);
    }
}

#[test]
fn numbers_agree_with_the_standard_reading() {
    let samples = [
        "", "0", "1", "9", "10", "+", "+1", "-1", "+-1", "00", "0123", "4294967294", "4294967295",
        "4294967296", "4294967305", "42949672950", "18446744073709551616", "12a", "a12", "1_000",
        "\u{661}\u{662}", "٣", "1\u{a0}", "+00000000000000000000000004294967295", "429496729",
        "3999999999", "4300000000", "5000000000",
    ];
    for field in samples {
        assert_eq!(parse_number(field), field.parse::<u32>().ok(), "{:?}", field);
    }
    for n in [0u32, 1, 9, 10, 99, 100, 65535, 65536, 2147483647, 2147483648, 4294967295] {
        assert_eq!(parse_number(&n.to_string()), Some(n));
        assert_eq!(parse_number(&format!("{}0", u64::from(n) + 429496730)), None);
    }
}

#[test]
fn separators_are_the_whitespace_characters() {
    let mut code: u32 = 0;
    while code <= 0x10FFFF {
        if let Some(c) = char::from_u32(code) {
            assert_eq!(is_separator(c), c.is_whitespace(), "U+{:04X}", code);
        }
        code += 1;
    }
}

#[test]
fn fields_are_the_runs_between_separators() {
    assert_eq!(split_tokens("2 1 0 1 4 AND"), vec!["2", "1", "0", "1", "4", "AND"]);
    assert_eq!(split_tokens("  a\t\tbc \u{3000}d\u{a0}"), vec!["a", "bc", "d"]);
    assert_eq!(split_tokens("single"), vec!["single"]);
    assert!(split_tokens("").is_empty());
    assert!(split_tokens(" \t\r\n\u{2028}").is_empty());
}

#[test]
fn fields_agree_with_the_standard_splitting() {
    let samples = [
        "", " ", "a", " a", "a ", " a ", "a b", "a  b", "\ta\tb\t", "2 1 0 1 4 AND", "é ü\u{a0}ß",
        "\u{1680}x\u{2000}y\u{200a}z\u{202f}w\u{205f}v\u{3000}", "a\u{200b}b", "a\u{180e}b",
        "\u{1f600} \u{1f601}\u{2029}\u{10ffff}", "a\u{85}b\u{b}c\u{c}d", "x\u{feff}y z",
    ];
    for line in samples {
        let expected: Vec<&str> = line.split_whitespace().collect();
        assert_eq!(split_tokens(line), expected, "{:?}", line);
    }
}

#[test]
fn lines_end_at_line_feeds_and_blank_ones_are_dropped() {
    assert_eq!(split_lines("a\nb\nc"), vec!["a", "b", "c"]);
    assert_eq!(split_lines("a\nb\nc\n"), vec!["a", "b", "c"]);
    assert_eq!(split_lines("a\n\n\nb\n\nc\n\n"), vec!["a", "b", "c"]);
    assert_eq!(split_lines("\n\na"), vec!["a"]);
    assert!(split_lines("").is_empty());
    assert!(split_lines("\n").is_empty());
    assert!(split_lines("\n\r\n\n").is_empty());
}

#[test]
fn lines_keep_their_whitespace() {
    assert_eq!(split_lines("  a  \n\tb\t\n \n"), vec!["  a  ", "\tb\t", " "]);
}

#[test]
fn only_a_carriage_return_before_a_line_feed_is_dropped() {
    assert_eq!(split_lines("a\r\nb\r\n"), vec!["a", "b"]);
    assert_eq!(split_lines("a\r\r\nb"), vec!["a\r", "b"]);
    assert_eq!(split_lines("a\rb\nc\r"), vec!["a\rb", "c\r"]);
    assert_eq!(split_lines("\r"), vec!["\r"]);
    assert_eq!(split_lines("\r\r\n"), vec!["\r"]);
}

#[test]
fn lines_agree_with_the_standard_splitting() {
    let samples = [
        "", "\n", "\r", "\r\n", "\n\r", "a", "a\n", "a\r\n", "a\r", "\na", "\r\na", "a\n\nb", "a\r\n\r\nb",
        "a\n\r\nb\r", "é\nü\r\n\u{1f600}\n", "\u{2028}\n\u{85}\r\n", "4 8\n4 1 1 1 1\n1 1\n\n2 1 0 1 4 AND\n",
        "x\r\r\ny", "\r\r", "\n\n\n", "a\u{b}b\u{c}c\n",
    ];
    for text in samples {
        let expected: Vec<&str> = text.lines().filter(|line| !line.is_empty()).collect();
        assert_eq!(split_lines(text), expected, "{:?}", text);
    }
}

#[test]
fn no_line_that_is_kept_is_blank() {
    for text in ["\n\na\n\n\r\nb\r\n\n", "\r\n\r\n", "a", "\n \n"] {
        for line in split_lines(text) {
            assert!(!line.is_empty());
        }
    }
}

#[test]
fn widths_are_those_of_the_encoding() {
    for c in ['\0', 'a', '\u{7f}', '\u{80}', 'é', '\u{7ff}', '\u{800}', '\u{d7ff}', '\u{e000}', '\u{ffff}', '\u{10000}', '\u{1f600}', '\u{10ffff}'] {
        assert_eq!(char_width(c), c.len_utf8());
    }
}

#[test]
fn strings_are_equal_when_their_characters_are() {
    assert!(str_eq("", ""));
    assert!(str_eq("XOR", "XOR"));
    assert!(str_eq("é\u{1f600}", "é\u{1f600}"));
    assert!(!str_eq("XOR", "XOr"));
    assert!(!str_eq("XOR", "XO"));
    assert!(!str_eq("XO", "XOR"));
    assert!(!str_eq("", "a"));
    assert!(!str_eq("é", "e"));
}

#[test]
fn the_final_line_feed_is_optional() {
    assert_eq!(split_lines("a\nb"), split_lines("a\nb\n"));
    assert_eq!(split_lines("a"), split_lines("a\n"));
    assert_eq!(split_lines(""), split_lines("\n"));
    assert_ne!(split_lines("a\r"), split_lines("a\r\n"));
}

#[test]
fn a_blank_line_after_a_line_feed_changes_nothing() {
    let before = "4 8\n4 1 1 1 1\n";
    let after = "1 1\n2 1 0 1 4 AND";
    let plain = format!("{}{}", before, after);
    for blank in ["\n", "\r\n", "\n\n", "\r\n\n\r\n"] {
        let spaced = format!("{}{}{}", before, blank, after);
        assert_eq!(split_lines(&spaced), split_lines(&plain));
        let leading = format!("{}{}", blank, plain);
        assert_eq!(split_lines(&leading), split_lines(&plain));
    }
}

#[test]
fn fields_hold_no_separator() {
    for line in ["  2 1\t0\u{a0}1 4 AND ", "\u{3000}x\u{2028}y", "abc"] {
        for field in split_tokens(line) {
            assert!(!field.is_empty());
            assert!(!field.chars().any(is_separator));
        }
    }
}

#[test]
fn a_line_cut_after_a_separator_has_the_fields_of_both_parts() {
    let before = "2 1 0 ";
    let after = "1 4 AND";
    let whole = format!("{}{}", before, after);
    let mut expected = split_tokens(before);
    expected.extend(split_tokens(after));
    assert_eq!(split_tokens(&whole), expected);
    assert_eq!(split_tokens("AND"), vec!["AND"]);
}
