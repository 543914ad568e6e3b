use portal::number::{decimal_of, hex_of, parse_signed, parse_unsigned, push_decimal, push_signed_decimal};
use portal::text::{
    char_is_white, char_lower, chars_of, lines_of, lowered, not_after, replaced, same_text,
    split_on, string_of, substring, trimmed,
};

#[test]
fn whitespace_is_what_std_calls_whitespace() {
    for n in 0..=0x10ffffu32 {
        if let Some(c) = char::from_u32(n) {
            assert_eq!(char_is_white(c), c.is_whitespace(), "{n:x}");
        }
    }
}

#[test]
fn only_ascii_letters_change_case() {
    for n in 0..0x3000u32 {
        if let Some(c) = char::from_u32(n) {
            assert_eq!(char_lower(c), c.to_ascii_lowercase(), "{n:x}");
        }
    }
    assert_eq!(lowered("MiXeD ÄÉ 9"), "mixed ÄÉ 9");
}

#[test]
fn trimming_keeps_the_inside() {
    for s in ["", " ", "a", "  a b\t", "\u{3000}x\u{a0}", "\n\n", "é "] {
        assert_eq!(trimmed(s), s.trim());
        assert_eq!(trimmed(&trimmed(s)), s.trim());
    }
}

#[test]
fn pieces_are_what_stands_between_separators() {
    for s in ["", ",", "a", "a,b", ",a,,b,"] {
        let want: Vec<&str> = s.split(',').collect();
        assert_eq!(split_on(s, ','), want);
    }
}

#[test]
fn lines_end_at_newlines() {
    for s in ["", "\n", "a", "a\n", "a\nb", "a\r\nb\r\n", "\n\na", "a\rb", "a\r"] {
        let want: Vec<&str> = s.lines().collect();
        assert_eq!(lines_of(s), want, "{s:?}");
    }
}

#[test]
fn every_occurrence_is_replaced_from_the_left() {
    assert_eq!(replaced("{a}-{a}", "{a}", "x"), "x-x");
    assert_eq!(replaced("aaa", "aa", "b"), "aaa".replace("aa", "b"));
    assert_eq!(replaced("none", "{a}", "x"), "none");
    assert_eq!(replaced("{a}", "{a}", "{a}{a}"), "{a}{a}");
}

#[test]
fn texts_sort_as_std_sorts_them() {
    let all = ["", "a", "aa", "ab", "b", "Z", "é", "\u{ffff}", "\u{10000}"];
    for a in all {
        for b in all {
            assert_eq!(not_after(a, b), a <= b, "{a} {b}");
            assert_eq!(same_text(a, b), a == b);
        }
    }
}

#[test]
fn characters_round_trip() {
    let chars = chars_of("héllo");
    assert_eq!(chars.len(), 5);
    assert_eq!(string_of(&chars), "héllo");
    assert_eq!(substring(&chars, 1, 3), "él");
}

#[test]
fn numbers_render_as_std_renders_them() {
    for n in [0u64, 9, 10, 99, 65535, u64::MAX] {
        assert_eq!(decimal_of(n), n.to_string());
    }
    let mut out = "n=".to_string();
    push_decimal(&mut out, 42);
    push_signed_decimal(&mut out, -7);
    push_signed_decimal(&mut out, i64::MIN);
    push_signed_decimal(&mut out, 0);
    assert_eq!(out, format!("n=42-7{}0", i64::MIN));
    assert_eq!(hex_of(&[0x00, 0x0f, 0xa9, 0xff]), "000fa9ff");
}

#[test]
fn numbers_read_as_std_reads_them() {
    for s in ["", "+", "-", "0", "007", "+5", "-5", "65535", "65536", "1e3", " 1", "٣"] {
        assert_eq!(parse_unsigned(s, 65535), s.parse::<u16>().ok().map(u64::from), "{s}");
        assert_eq!(parse_signed(s), s.parse::<i64>().ok(), "{s}");
    }
    for s in ["9223372036854775807", "9223372036854775808", "-9223372036854775808", "-9223372036854775809"] {
        assert_eq!(parse_signed(s), s.parse::<i64>().ok(), "{s}");
    }
}
