//! Texts.
use logdive::text::{
    align_right, bytes_before, decimal_text, fold, is_blank, is_numeral, trim, whole_number,
};

#[test]
fn trimming_is_that_of_std() {
    for s in ["", " ", "a", " a ", "\u{2003}a b\u{3000}", "\t\r\n", "\u{200b}x", "\u{85}é\u{a0}"] {
        assert_eq!(trim(s), s.trim());
        assert_eq!(is_blank(s), s.trim().is_empty());
    }
}

#[test]
fn white_space_is_that_of_std() {
    for n in 0..0x1_0000u32 {
        if let Some(c) = char::from_u32(n) {
            assert_eq!(logdive::text::is_white_space(c), c.is_whitespace());
        }
    }
}

#[test]
fn numerals() {
    for n in [0, 9, 10, 99, 100, 1000, u64::MAX] {
        assert_eq!(decimal_text(n), n.to_string());
        assert_eq!(whole_number(&n.to_string()), Some(n));
    }
    assert_eq!(whole_number("007"), Some(7));
    assert_eq!(whole_number("18446744073709551616"), None);
    assert_eq!(whole_number(""), None);
    assert_eq!(whole_number("+1"), None);
    assert!(is_numeral("0123"));
    assert!(!is_numeral(""));
    assert!(!is_numeral("1a"));
}

#[test]
fn alignment() {
    assert_eq!(align_right("ab", 5), "   ab");
    assert_eq!(align_right("abcdef", 5), "abcdef");
    assert_eq!(align_right("é", 3), "  é");
}

#[test]
fn folding_is_ascii() {
    assert_eq!(fold("ÄBC xyz"), "Äbc xyz");
}

#[test]
fn bytes_in_front_of_characters() {
    let s = "aé€😀z";
    let offsets: Vec<usize> = (0..6).map(|i| bytes_before(s, i)).collect();
    assert_eq!(offsets, vec![0, 1, 3, 6, 10, 11]);
}
