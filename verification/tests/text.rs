//! Texts and numbers.

use miyagi::text::{
    characters, is_text_before, parse_number, push_decimal, push_hexadecimal, push_signed,
    same_text,
};

#[test]
fn numbers_are_written_in_full() {
    for value in [0u64, 7, 10, 99, 100, 12345678901234567890, u64::MAX] {
        let mut out = String::from("=");
        push_decimal(&mut out, value);
        assert_eq!(out, format!("={value}"));
    }
    for value in [0i32, -1, 41, i32::MIN, i32::MAX] {
        let mut out = String::new();
        push_signed(&mut out, value);
        assert_eq!(out, format!("{value}"));
    }
    for value in [0u64, 0xabc, 0xe961_17fb_9439_f82d, u64::MAX] {
        let mut out = String::new();
        push_hexadecimal(&mut out, value, 16);
        assert_eq!(out, format!("{value:016x}"));
    }
}

#[test]
fn numbers_read_back() {
    for value in [0usize, 5, 10, 64, 4096, usize::MAX] {
        let digits = characters(&format!("{value}"));
        assert_eq!(parse_number(&digits), Some(value));
    }
    for text in ["", "+", "-1", "1x", " 1", "18446744073709551616", "+-3", "१"] {
        assert_eq!(parse_number(&characters(text)), text.parse::<usize>().ok(), "{text}");
    }
    for text in ["+7", "007", "+0"] {
        assert_eq!(parse_number(&characters(text)), text.parse::<usize>().ok(), "{text}");
    }
}

#[test]
fn texts_are_ordered_by_their_characters() {
    let texts = ["", "a", "ab", "b", "ba", "z", "é", "日本", "\u{1F600}"];
    for a in texts {
        for b in texts {
            assert_eq!(same_text(a, b), a == b);
            assert_eq!(is_text_before(a, b), a < b, "{a} before {b}");
        }
    }
}
