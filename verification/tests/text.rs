use rinton::number::{digit_in, push_decimal, push_signed_decimal, read_unsigned};
use rinton::text::{
    char_is_whitespace, chars_eq, chars_of, find, find_char, nth_token, rfind_char, scan_run,
    string_of, trim_bounds, trim_end_matches_len,
};

fn chars(s: &str) -> Vec<char> {
    s.chars().collect()
}

#[test]
fn characters_and_strings() {
    assert_eq!(chars_of("aあ\u{1F600}b"), vec!['a', 'あ', '\u{1F600}', 'b']);
    assert_eq!(chars_of(""), Vec::<char>::new());
    assert_eq!(string_of(&chars("hello"), 1, 4), "ell");
    assert_eq!(string_of(&chars("hello"), 2, 2), "");
    assert!(chars_eq(&chars("ab"), &chars("ab")));
    assert!(!chars_eq(&chars("ab"), &chars("ac")));
    assert!(!chars_eq(&chars("ab"), &chars("abc")));
}

#[test]
fn searches() {
    let text = chars("a://b://c");
    assert_eq!(find(&text, &chars("://")), Some(1));
    assert_eq!(find(&text, &chars("c")), Some(8));
    assert_eq!(find(&text, &chars("")), Some(0));
    assert_eq!(find(&text, &chars(":/:")), None);
    assert_eq!(find(&chars("ab"), &chars("abc")), None);
    assert_eq!(find(&chars(""), &chars("")), Some(0));
    assert_eq!(find_char(&text, '/'), Some(2));
    assert_eq!(rfind_char(&text, '/'), Some(7));
    assert_eq!(find_char(&text, 'x'), None);
    assert_eq!(rfind_char(&text, 'x'), None);
    assert_eq!(rfind_char(&text, 'a'), Some(0));
}

#[test]
fn white_space() {
    for c in [
        ' ', '\t', '\n', '\u{b}', '\u{c}', '\r', '\u{85}', '\u{a0}', '\u{1680}', '\u{2000}',
        '\u{200a}', '\u{2028}', '\u{2029}', '\u{202f}', '\u{205f}', '\u{3000}',
    ] {
        assert!(char_is_whitespace(c));
    }
    for c in ['a', '0', '\u{0}', '\u{8}', '\u{e}', '\u{200b}', '\u{feff}', '\u{180e}'] {
        assert!(!char_is_whitespace(c));
    }
    let mut code: u32 = 0;
    while code < 0x11000 {
        if let Some(c) = char::from_u32(code) {
            assert_eq!(char_is_whitespace(c), c.is_whitespace());
        }
        code += 1;
    }
}

#[test]
fn tokens_and_trimming() {
    let text = chars("  one\ttwo \u{3000} three  ");
    assert_eq!(nth_token(&text, 0), Some((2, 5)));
    assert_eq!(nth_token(&text, 1), Some((6, 9)));
    assert_eq!(nth_token(&text, 2), Some((12, 17)));
    assert_eq!(nth_token(&text, 3), None);
    assert_eq!(nth_token(&chars(""), 0), None);
    assert_eq!(nth_token(&chars("   "), 0), None);
    assert_eq!(scan_run(&text, 0, true), 2);
    assert_eq!(scan_run(&text, 2, false), 5);
    assert_eq!(scan_run(&text, 2, true), 2);
    assert_eq!(trim_bounds(&text), (2, 17));
    assert_eq!(trim_bounds(&chars("x")), (0, 1));
    assert_eq!(trim_bounds(&chars(" \r\n")), (3, 3));
    assert_eq!(trim_bounds(&chars("")), (0, 0));
    assert_eq!(trim_end_matches_len(&chars("a\r\n\r\n"), &chars("\r\n")), 1);
    assert_eq!(trim_end_matches_len(&chars("a\r\n\n"), &chars("\r\n")), 4);
    assert_eq!(trim_end_matches_len(&chars("\r\n"), &chars("\r\n")), 0);
    assert_eq!(trim_end_matches_len(&chars("abc"), &chars("")), 3);
}

#[test]
fn numbers_are_read() {
    assert_eq!(read_unsigned(&chars("0"), 10, 100), Some(0));
    assert_eq!(read_unsigned(&chars("+42"), 10, 100), Some(42));
    assert_eq!(read_unsigned(&chars("0100"), 10, 100), Some(100));
    assert_eq!(read_unsigned(&chars("101"), 10, 100), None);
    assert_eq!(read_unsigned(&chars(""), 10, 100), None);
    assert_eq!(read_unsigned(&chars("+"), 10, 100), None);
    assert_eq!(read_unsigned(&chars("-1"), 10, 100), None);
    assert_eq!(read_unsigned(&chars("++1"), 10, 100), None);
    assert_eq!(read_unsigned(&chars("1 "), 10, 100), None);
    assert_eq!(read_unsigned(&chars("1_0"), 10, 100), None);
    assert_eq!(read_unsigned(&chars("١"), 10, 100), None);
    assert_eq!(read_unsigned(&chars("fF"), 16, 1000), Some(255));
    assert_eq!(read_unsigned(&chars("g"), 16, 1000), None);
    assert_eq!(read_unsigned(&chars("a"), 10, 1000), None);
    assert_eq!(read_unsigned(&chars("z"), 36, 1000), Some(35));
    assert_eq!(
        read_unsigned(&chars("18446744073709551615"), 10, u64::MAX),
        Some(u64::MAX)
    );
    assert_eq!(read_unsigned(&chars("18446744073709551616"), 10, u64::MAX), None);
    assert_eq!(
        read_unsigned(&chars("ffffffffffffffff"), 16, u64::MAX),
        Some(u64::MAX)
    );
    assert_eq!(read_unsigned(&chars("10000000000000000"), 16, u64::MAX), None);
    assert_eq!(digit_in('7', 10), Some(7));
    assert_eq!(digit_in('a', 10), None);
    assert_eq!(digit_in('a', 16), Some(10));
    assert_eq!(digit_in('G', 16), None);
}

#[test]
fn numbers_are_written() {
    let mut out = String::from(">");
    push_decimal(&mut out, 0);
    out.push(' ');
    push_decimal(&mut out, 7);
    out.push(' ');
    push_decimal(&mut out, 1203);
    out.push(' ');
    push_decimal(&mut out, u64::MAX);
    out.push(' ');
    push_signed_decimal(&mut out, -45);
    out.push(' ');
    push_signed_decimal(&mut out, i64::MIN);
    out.push(' ');
    push_signed_decimal(&mut out, i64::MAX);
    out.push(' ');
    push_signed_decimal(&mut out, 0);
    assert_eq!(
        out,
        ">0 7 1203 18446744073709551615 -45 -9223372036854775808 9223372036854775807 0"
    );
}
