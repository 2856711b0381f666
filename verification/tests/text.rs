use whichport::number::decimal_string;
use whichport::order::{compare_text, Rank};
use whichport::search::{contains, find};
use whichport::split::{join_strings, split_lines, split_tokens};
use whichport::text::{
    chars_of, is_ascii_digit, is_whitespace, to_ascii_lowercase, to_lower_char, trim,
};

fn text(chars: &[char]) -> String {
    chars.iter().collect()
}

fn texts(parts: &[Vec<char>]) -> Vec<String> {
    parts.iter().map(|part| text(part)).collect()
}

#[test]
fn chars_of_keeps_every_character() {
    assert_eq!(chars_of(""), Vec::<char>::new());
    assert_eq!(chars_of("a:1"), vec!['a', ':', '1']);
    assert_eq!(chars_of("é→𝄞"), vec!['é', '→', '𝄞']);
}

#[test]
fn white_space_is_what_the_standard_library_says() {
    let mut c = '\0';
    loop {
        assert_eq!(is_whitespace(c), c.is_whitespace(), "{:?}", c);
        assert_eq!(is_ascii_digit(c), c.is_ascii_digit(), "{:?}", c);
        assert_eq!(to_lower_char(c), c.to_ascii_lowercase(), "{:?}", c);
        if c == char::MAX {
            break;
        }
        c = char::from_u32(c as u32 + 1).unwrap_or('\u{e000}');
    }
}

#[test]
fn lowercase_touches_ascii_letters_only() {
    let lowered = to_ascii_lowercase(&chars_of("PostGRES-Ärger 9Z[`@"));
    assert_eq!(text(&lowered), "postgres-Ärger 9z[`@");
}

#[test]
fn trim_removes_white_space_at_both_ends() {
    for s in [
        "",
        " ",
        "\n\t \r",
        "a",
        "  a b  ",
        "\u{a0}x\u{3000}",
        "lsof: no such file\n",
        "x \u{85}",
        "\u{200b}x",
    ] {
        assert_eq!(trim(s), s.trim(), "{s:?}");
    }
}

#[test]
fn decimal_of_numbers() {
    assert_eq!(decimal_string(0), "0");
    assert_eq!(decimal_string(7), "7");
    assert_eq!(decimal_string(10), "10");
    assert_eq!(decimal_string(65535), "65535");
    assert_eq!(decimal_string(1700000000), "1700000000");
    assert_eq!(decimal_string(u64::MAX), "18446744073709551615");
    for n in 0..3000u64 {
        assert_eq!(decimal_string(n), n.to_string());
    }
}

#[test]
fn lines_are_split_as_the_standard_library_splits_them() {
    for s in [
        "",
        "\n",
        "a",
        "a\n",
        "a\nb",
        "a\n\nb\n",
        "a\r\nb\r\n",
        "a\rb\r",
        "a\r",
        "\r\n",
        "\r",
        "\n\n",
        "a\r\r\n",
        "p1\ncx\nn*:1\n",
    ] {
        let expected: Vec<String> = s.lines().map(|line| line.to_string()).collect();
        assert_eq!(texts(&split_lines(&chars_of(s))), expected, "{s:?}");
    }
}

#[test]
fn tokens_are_split_as_the_standard_library_splits_them() {
    for s in [
        "",
        " ",
        "a",
        " a ",
        "a b",
        "a  b\tc",
        "LISTEN 0 128 *:22 *:*",
        "\u{3000}x\u{a0}y\u{2003}",
        "x\u{200b}y",
    ] {
        let expected: Vec<String> = s.split_whitespace().map(|w| w.to_string()).collect();
        assert_eq!(texts(&split_tokens(&chars_of(s))), expected, "{s:?}");
    }
}

#[test]
fn join_puts_the_separator_between() {
    let none: Vec<String> = Vec::new();
    assert_eq!(join_strings(&none, ", "), "");
    assert_eq!(join_strings(&vec!["a".to_string()], ", "), "a");
    assert_eq!(
        join_strings(&vec!["a".to_string(), "".to_string(), "c".to_string()], " | "),
        "a |  | c"
    );
}

#[test]
fn find_gives_the_first_occurrence() {
    let cases = [
        ("", "", Some(0)),
        ("abc", "", Some(0)),
        ("", "a", None),
        ("abcabc", "bc", Some(1)),
        ("abc", "abc", Some(0)),
        ("abc", "abcd", None),
        ("aab", "ab", Some(1)),
        ("pid=1,pid=2", "pid=", Some(0)),
        ("xpi=pid", "pid=", None),
    ];
    for (hay, needle, expected) in cases {
        assert_eq!(find(&chars_of(hay), &chars_of(needle)), expected);
        assert_eq!(
            contains(&chars_of(hay), &chars_of(needle)),
            hay.contains(needle)
        );
    }
}

#[test]
fn texts_are_ordered_as_strings_are() {
    let samples = [
        "", "*", "*:80", "*:8080", "0.0.0.0:80", "127.0.0.1:80", "[::1]:80", "[::]:80", "a", "ab",
        "b", "Z", "é", "z", "\u{ffff}", "\u{10000}", "𝄞", "\u{7f}", "\u{80}",
    ];
    for a in samples {
        for b in samples {
            let rank = compare_text(&chars_of(a), &chars_of(b));
            let expected = if a < b {
                Rank::Below
            } else if a == b {
                Rank::Same
            } else {
                Rank::Above
            };
            assert!(
                matches!(
                    (&rank, &expected),
                    (Rank::Below, Rank::Below) | (Rank::Same, Rank::Same) | (Rank::Above, Rank::Above)
                ),
                "{a:?} {b:?}"
            );
        }
    }
}
