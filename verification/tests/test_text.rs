use psvm::text::{
    chars_of, find, lines, parse_i32, split, str_eq, strip_carriage_return, strip_prefix, trim,
};

#[test]
fn chars_of_lists_every_character() {
    assert_eq!(chars_of(""), Vec::<char>::new());
    assert_eq!(chars_of("a+b"), vec!['a', '+', 'b']);
    assert_eq!(chars_of("héé 日本"), vec!['h', 'é', 'é', ' ', '日', '本']);
}

#[test]
fn str_eq_compares_contents() {
    assert!(str_eq("", ""));
    assert!(str_eq("let", "let"));
    assert!(!str_eq("let", "let "));
    assert!(!str_eq("let", "lot"));
    assert!(!str_eq("abc", "ab"));
    assert!(str_eq("日本", "日本"));
}

#[test]
fn trim_removes_white_space_at_both_ends_only() {
    assert_eq!(trim("  a b  "), "a b");
    assert_eq!(trim("\t\r\n x \n"), "x");
    assert_eq!(trim("x"), "x");
    assert_eq!(trim(""), "");
    assert_eq!(trim("   "), "");
    assert_eq!(trim("\u{a0}\u{3000}é \u{2003}"), "é");
    assert_eq!(trim("_a_"), "_a_");
}

#[test]
fn find_gives_the_first_position_in_characters() {
    assert_eq!(find("a+b+c", '+'), Some(1));
    assert_eq!(find("+", '+'), Some(0));
    assert_eq!(find("abc", '+'), None);
    assert_eq!(find("", '+'), None);
    assert_eq!(find("日本+語", '+'), Some(2));
}

#[test]
fn split_keeps_empty_fields() {
    assert_eq!(split("a=b", '='), vec!["a", "b"]);
    assert_eq!(split("a", '='), vec!["a"]);
    assert_eq!(split("", '='), vec![""]);
    assert_eq!(split("=", '='), vec!["", ""]);
    assert_eq!(split("a==b=", '='), vec!["a", "", "b", ""]);
    assert_eq!(split(" x = 1 + 2 ", '='), vec![" x ", " 1 + 2 "]);
    assert_eq!(split("é=日本=", '='), vec!["é", "日本", ""]);
}

#[test]
fn strip_carriage_return_takes_one_away() {
    assert_eq!(strip_carriage_return("a\r"), "a");
    assert_eq!(strip_carriage_return("a\r\r"), "a\r");
    assert_eq!(strip_carriage_return("\ra"), "\ra");
    assert_eq!(strip_carriage_return("a"), "a");
    assert_eq!(strip_carriage_return(""), "");
}

#[test]
fn lines_end_at_line_feeds() {
    assert_eq!(lines("a\nb"), vec!["a", "b"]);
    assert_eq!(lines("a\nb\n"), vec!["a", "b"]);
    assert_eq!(lines("a\r\nb\r\n"), vec!["a", "b"]);
    assert_eq!(lines("a\n\nb"), vec!["a", "", "b"]);
    assert_eq!(lines("\n"), vec![""]);
    assert_eq!(lines("\n\n"), vec!["", ""]);
    assert_eq!(lines(""), Vec::<&str>::new());
    assert_eq!(lines("no end"), vec!["no end"]);
}

#[test]
fn lines_keep_a_carriage_return_that_ends_no_line() {
    assert_eq!(lines("a\rb"), vec!["a\rb"]);
    assert_eq!(lines("a\r"), vec!["a\r"]);
    assert_eq!(lines("a\r\r\nb"), vec!["a\r", "b"]);
    assert_eq!(lines("\r\n"), vec![""]);
}

#[test]
fn lines_agree_with_the_standard_library() {
    let samples = [
        "",
        "\n",
        "\r",
        "\r\n",
        "a",
        "a\n",
        "a\r\n",
        "a\n\r",
        "a\r\nb\rc\n\nd\r\n\r\n",
        "let x = 2\nlet y = 3\nprint x + y",
        "\n\nlast",
    ];
    for sample in samples {
        let expected: Vec<&str> = sample.lines().collect();
        assert_eq!(lines(sample), expected);
    }
}

#[test]
fn strip_prefix_gives_what_follows() {
    assert_eq!(strip_prefix("let x = 1", "let "), Some("x = 1"));
    assert_eq!(strip_prefix("let ", "let "), Some(""));
    assert_eq!(strip_prefix("let", "let "), None);
    assert_eq!(strip_prefix("letx", "let "), None);
    assert_eq!(strip_prefix(" let x", "let "), None);
    assert_eq!(strip_prefix("anything", ""), Some("anything"));
    assert_eq!(strip_prefix("", "let "), None);
}

#[test]
fn parse_i32_reads_decimal_integers() {
    assert_eq!(parse_i32("0"), Some(0));
    assert_eq!(parse_i32("7"), Some(7));
    assert_eq!(parse_i32("42"), Some(42));
    assert_eq!(parse_i32("-42"), Some(-42));
    assert_eq!(parse_i32("+42"), Some(42));
    assert_eq!(parse_i32("-0"), Some(0));
    assert_eq!(parse_i32("007"), Some(7));
    assert_eq!(parse_i32("0000000000000000000000012"), Some(12));
}

#[test]
fn parse_i32_knows_the_limits() {
    assert_eq!(parse_i32("2147483647"), Some(i32::MAX));
    assert_eq!(parse_i32("+2147483647"), Some(i32::MAX));
    assert_eq!(parse_i32("-2147483648"), Some(i32::MIN));
    assert_eq!(parse_i32("2147483648"), None);
    assert_eq!(parse_i32("-2147483649"), None);
    assert_eq!(parse_i32("99999999999999999999999999"), None);
    assert_eq!(parse_i32("-99999999999999999999999999"), None);
}

#[test]
fn parse_i32_rejects_what_is_no_integer() {
    assert_eq!(parse_i32(""), None);
    assert_eq!(parse_i32("+"), None);
    assert_eq!(parse_i32("-"), None);
    assert_eq!(parse_i32("--1"), None);
    assert_eq!(parse_i32("+-1"), None);
    assert_eq!(parse_i32("1 "), None);
    assert_eq!(parse_i32(" 1"), None);
    assert_eq!(parse_i32("1_000"), None);
    assert_eq!(parse_i32("12a"), None);
    assert_eq!(parse_i32("a12"), None);
    assert_eq!(parse_i32("1.5"), None);
    assert_eq!(parse_i32("٣"), None);
    assert_eq!(parse_i32("99999999999999999999999999x"), None);
}

#[test]
fn parse_i32_agrees_with_the_standard_library() {
    let samples = [
        "", "0", "-0", "+0", "1", "-1", "+1", "12345", "-12345", "2147483647", "2147483648",
        "-2147483648", "-2147483649", "4294967296", "00000000004294967296", "+", "-", "1+",
        "1-1", "0x10", " 5", "5 ", "５",
    ];
    for sample in samples {
        assert_eq!(parse_i32(sample), sample.parse::<i32>().ok());
    }
}

#[test]
fn trim_agrees_with_the_standard_library() {
    let samples = [
        "",
        " ",
        "a",
        " a",
        "a ",
        "  a  b  ",
        "\t\n\r a \u{b}\u{c}",
        "\u{85}x\u{85}",
        "\u{a0}x\u{a0}",
        "\u{1680}\u{2000}\u{200a}x\u{2028}\u{2029}\u{202f}\u{205f}\u{3000}",
        "\u{200b}x\u{200b}",
        "\u{feff}x",
        "_ x _",
    ];
    for sample in samples {
        assert_eq!(trim(sample), sample.trim());
    }
}

#[test]
fn split_agrees_with_the_standard_library() {
    let samples = ["", "=", "a", "a=b", "=a=", "a==b", "x = 1 + 2", "日=本"];
    for sample in samples {
        let expected: Vec<&str> = sample.split('=').collect();
        assert_eq!(split(sample, '='), expected);
    }
}

#[test]
fn find_agrees_with_the_standard_library() {
    // The standard library counts bytes; in these samples each character is one byte.
    let samples = ["", "+", "a+b", "ab", "a+b+c", "++"];
    for sample in samples {
        assert_eq!(find(sample, '+'), sample.find('+'));
    }
}

#[test]
fn strip_prefix_agrees_with_the_standard_library() {
    let samples = ["", "let", "let ", "let x", "letx", " let x", "print 1", "logShow z"];
    for sample in samples {
        for prefix in ["let ", "print ", "logShow ", ""] {
            assert_eq!(strip_prefix(sample, prefix), sample.strip_prefix(prefix));
        }
    }
}
