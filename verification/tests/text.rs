use anytls::text::{
    append_decimal, chars_of, contains_word, find_char, is_white_space, is_word, parse_number,
    split_chars, split_once_chars, trim_chars,
};

fn text_of(s: &[char]) -> String {
    s.iter().collect()
}

#[test]
fn white_space_is_that_of_unicode() {
    for n in 0..=0x10ffffu32 {
        if let Some(c) = char::from_u32(n) {
            assert_eq!(is_white_space(c), c.is_whitespace());
        }
    }
}

#[test]
fn trimming() {
    for s in ["", " ", "a", " a", "a ", " \t a b \r\n", "\u{3000}x\u{85}", "\u{200b}x"] {
        assert_eq!(text_of(&trim_chars(&chars_of(s))), s.trim());
    }
}

#[test]
fn splitting() {
    for s in ["", ",", "a", "a,b", ",a,,b,", "\u{e9},x"] {
        let parts: Vec<String> = split_chars(&chars_of(s), ',').iter().map(|p| text_of(p)).collect();
        assert_eq!(parts, s.split(',').collect::<Vec<&str>>());
    }
}

#[test]
fn splitting_once() {
    for s in ["", "=", "a", "a=b", "a=b=c", "=b", "a="] {
        let parts: Option<(String, String)> =
            split_once_chars(&chars_of(s), '=').map(|(a, b)| (text_of(&a), text_of(&b)));
        let expected: Option<(String, String)> =
            s.split_once('=').map(|(a, b)| (a.to_string(), b.to_string()));
        assert_eq!(parts, expected);
    }
}

#[test]
fn numbers() {
    for s in [
        "", "+", "-", "0", "7", "+7", "-7", "007", "255", "256", "300", "1000000", " 1", "1 ", "1a",
        "\u{661}", "++1", "99999999999999999999999999",
    ] {
        assert_eq!(parse_number(&chars_of(s), 255), s.parse::<u8>().ok().map(u64::from));
        assert_eq!(parse_number(&chars_of(s), u64::MAX), s.parse::<u64>().ok());
    }
    assert_eq!(parse_number(&chars_of("5"), 4), None);
    assert_eq!(parse_number(&chars_of("4"), 4), Some(4));
    assert_eq!(parse_number(&chars_of("00"), 0), Some(0));
    assert_eq!(parse_number(&chars_of("1"), 0), None);
    assert_eq!(parse_number(&chars_of("18446744073709551615"), u64::MAX), Some(u64::MAX));
    assert_eq!(parse_number(&chars_of("18446744073709551616"), u64::MAX), None);
}

#[test]
fn numbers_in_decimal() {
    for n in [0u32, 7, 10, 255, 1000, u32::MAX] {
        let mut out: String = String::from("n=");
        append_decimal(&mut out, n);
        assert_eq!(out, format!("n={}", n));
        assert_eq!(parse_number(&chars_of(&out[2..]), u64::MAX), Some(n as u64));
    }
}

#[test]
fn words() {
    assert!(is_word(&chars_of("stop"), "stop"));
    assert!(!is_word(&chars_of("stop "), "stop"));
    assert!(!is_word(&chars_of("stow"), "stop"));
    assert!(contains_word(&chars_of("utun3"), "tun"));
    assert!(contains_word(&chars_of("x"), ""));
    assert!(!contains_word(&chars_of("tu"), "tun"));
    assert!(!contains_word(&chars_of("t-un"), "tun"));
    assert_eq!(find_char(&chars_of("a-b-c"), '-'), Some(1));
    assert_eq!(find_char(&chars_of("abc"), '-'), None);
}
