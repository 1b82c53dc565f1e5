use rinton::percent::{encode, hex_to_u8, percent_decode, try_percent_decode};

#[test]
fn test_encode() {
    assert_eq!(encode("abc"), "abc");
    assert_eq!(encode("あいう"), "%E3%81%82%E3%81%84%E3%81%86");
    assert_eq!(encode("a b c"), "a%20b%20c");
    assert_eq!(encode("a+b+c"), "a%2Bb%2Bc");
    assert_eq!(encode("a=b=c"), "a%3Db%3Dc");
    assert_eq!(encode("a:b:c"), "a%3Ab%3Ac");
    assert_eq!(encode("a~b~c"), "a~b~c");
    assert_eq!(encode("a!b!c"), "a%21b%21c");
    assert_eq!(encode("a*b*c"), "a%2Ab%2Ac");
    assert_eq!(encode("a'b'c"), "a%27b%27c");
    assert_eq!(encode("a(c)c"), "a%28c%29c");
    assert_eq!(encode("a)c)c"), "a%29c%29c");
    assert_eq!(encode("a;c;c"), "a%3Bc%3Bc");
    assert_eq!(encode("a:c:c"), "a%3Ac%3Ac");
    assert_eq!(encode("a,d,c"), "a%2Cd%2Cc");
    assert_eq!(encode("a/d/c"), "a%2Fd%2Fc");
    assert_eq!(encode("a\\d\\c"), "a%5Cd%5Cc");
    assert_eq!(encode("a?d?c"), "a%3Fd%3Fc");
    assert_eq!(encode("a#d#c"), "a%23d%23c");
    assert_eq!(encode("a&d&c"), "a%26d%26c");
    assert_eq!(encode("a=d=c"), "a%3Dd%3Dc");
    assert_eq!(encode("a@d@c"), "a%40d%40c");
    assert_eq!(encode("a$d$c"), "a%24d%24c");
    assert_eq!(encode("a`d`c"), "a%60d%60c");
}

#[test]
fn encode_keeps_unreserved_characters() {
    assert_eq!(encode(""), "");
    assert_eq!(encode("AZaz09-_.~"), "AZaz09-_.~");
    assert_eq!(encode("\u{0}\u{7f}%"), "%00%7F%25");
}

#[test]
fn percent_decode_reads_hexadecimal_digits_of_either_case() {
    assert_eq!(percent_decode("a%20b%2Bc"), "a b+c");
    assert_eq!(percent_decode("%e3%81%82%E3%81%84x"), "あいx");
    assert_eq!(percent_decode("plain"), "plain");
    assert_eq!(percent_decode(""), "");
}

#[test]
fn percent_sign_near_the_end_stands_for_itself() {
    assert_eq!(percent_decode("%41"), "A");
    assert_eq!(percent_decode("%41 "), "A ");
    assert_eq!(percent_decode("100%"), "100%");
    assert_eq!(percent_decode("%4"), "%4");
    assert_eq!(percent_decode("x%z"), "x%z");
    assert_eq!(percent_decode("%"), "%");
}

#[test]
fn percent_decode_has_no_result_for_bad_digits_or_bad_text() {
    assert_eq!(try_percent_decode("%zz"), None);
    assert_eq!(try_percent_decode("%zz1"), None);
    assert_eq!(try_percent_decode("%4g1"), None);
    assert_eq!(try_percent_decode("%ff1"), None);
    assert_eq!(try_percent_decode("%41x"), Some("Ax".to_string()));
}

#[test]
fn decoding_gives_back_what_was_encoded() {
    let text = "q=東京 & 100% <ok>~";
    let mut encoded = encode(text);
    encoded.push('.');
    assert_eq!(percent_decode(&encoded), "q=東京 & 100% <ok>~.");
}

#[test]
fn hex_digits() {
    assert_eq!(hex_to_u8(b'0'), Some(0));
    assert_eq!(hex_to_u8(b'9'), Some(9));
    assert_eq!(hex_to_u8(b'a'), Some(10));
    assert_eq!(hex_to_u8(b'F'), Some(15));
    assert_eq!(hex_to_u8(b'g'), None);
    assert_eq!(hex_to_u8(b'/'), None);
}
