use crag_web::text::{
    append_decimal, char_is_whitespace, chars_of, find, parse_number, skip_whitespace_at,
    starts_with, token_end_at, trimmed,
};

fn chars(text: &str) -> Vec<char> {
    text.chars().collect()
}

fn text(chars: &[char]) -> String {
    chars.iter().collect()
}

#[test]
fn whitespace_is_what_std_calls_whitespace() {
    for code in 0..=0x10FFFFu32 {
        if let Some(c) = char::from_u32(code) {
            assert_eq!(char_is_whitespace(c), c.is_whitespace(), "U+{code:04X}");
        }
    }
}

#[test]
fn chars_of_gives_the_characters() {
    assert_eq!(chars_of(""), Vec::<char>::new());
    assert_eq!(chars_of("a\u{e9}\u{1f980}"), vec!['a', '\u{e9}', '\u{1f980}']);
}

#[test]
fn scanning_steps_over_runs() {
    let line = chars("  ab\tc ");
    assert_eq!(skip_whitespace_at(&line, 0), 2);
    assert_eq!(skip_whitespace_at(&line, 2), 2);
    assert_eq!(token_end_at(&line, 2), 4);
    assert_eq!(skip_whitespace_at(&line, 4), 5);
    assert_eq!(token_end_at(&line, 5), 6);
    assert_eq!(skip_whitespace_at(&line, 6), 7);
    assert_eq!(token_end_at(&line, 7), 7);
}

#[test]
fn trimmed_agrees_with_trim() {
    for sample in [
        "",
        " ",
        "a",
        " a",
        "a ",
        "  a b  ",
        "\r\n",
        "Content-Length: 5\r\n",
        "\u{3000}x\u{a0}",
        "\t\n 12 \u{2028}",
    ] {
        assert_eq!(text(trimmed(&chars(sample))), sample.trim(), "{sample:?}");
    }
}

#[test]
fn find_gives_the_first_position() {
    let line = chars("a:b:c");
    assert_eq!(find(&line, ':', 0), 1);
    assert_eq!(find(&line, ':', 1), 1);
    assert_eq!(find(&line, ':', 2), 3);
    assert_eq!(find(&line, ':', 4), 5);
    assert_eq!(find(&line, 'x', 0), 5);
    assert_eq!(find(&line, ':', 5), 5);
}

#[test]
fn starts_with_agrees_with_std() {
    for (sample, prefix) in [
        ("Content-Length: 5", "Content-Length:"),
        ("content-length: 5", "Content-Length:"),
        ("Content-Length", "Content-Length:"),
        (" Content-Length: 5", "Content-Length:"),
        ("", ""),
        ("a", ""),
        ("", "a"),
        ("ab", "ab"),
    ] {
        assert_eq!(
            starts_with(&chars(sample), &chars(prefix)),
            sample.starts_with(prefix),
            "{sample:?} {prefix:?}"
        );
    }
}

#[test]
fn parse_number_agrees_with_std() {
    let max = usize::MAX.to_string();
    let over = format!("{}0", usize::MAX);
    let next = format!("{}", usize::MAX as u128 + 1);
    let padded = format!("000{}", usize::MAX);
    for sample in [
        "0",
        "5",
        "42",
        "007",
        "+7",
        "+",
        "",
        "-1",
        "-0",
        "++1",
        "1+",
        " 1",
        "1 ",
        "1_000",
        "12a",
        "a12",
        "\u{661}",
        "\u{ff11}",
        "0x10",
        max.as_str(),
        over.as_str(),
        next.as_str(),
        padded.as_str(),
        "99999999999999999999999999999999999999",
    ] {
        assert_eq!(
            parse_number(&chars(sample)),
            sample.parse::<usize>().ok(),
            "{sample:?}"
        );
    }
    assert_eq!(parse_number(&chars("1234")), Some(1234));
}

#[test]
fn append_decimal_writes_the_number() {
    for number in [0usize, 1, 9, 10, 11, 99, 100, 12345, usize::MAX] {
        let mut out = String::from("n=");
        append_decimal(&mut out, number);
        assert_eq!(out, format!("n={number}"));
    }
}
