use process_observer::text::{
    chars_of, decimal_string, hexadecimal_string, is_before, numbers_string, parse_u64, same_text,
    string_of, trim_zeros, two_decimals_string,
};
use process_observer::utf16::{decode_utf16_lossy, encode_wide};

#[test]
fn numbers_are_written_in_base_ten() {
    assert_eq!(decimal_string(0), "0");
    assert_eq!(decimal_string(9), "9");
    assert_eq!(decimal_string(10), "10");
    assert_eq!(decimal_string(907), "907");
    assert_eq!(decimal_string(u64::MAX), "18446744073709551615");
}

#[test]
fn numbers_are_written_in_base_sixteen() {
    assert_eq!(hexadecimal_string(0), "0");
    assert_eq!(hexadecimal_string(0x7A), "7A");
    assert_eq!(hexadecimal_string(u32::MAX), "FFFFFFFF");
}

#[test]
fn hundredths_have_two_decimals() {
    assert_eq!(two_decimals_string(0), "0.00");
    assert_eq!(two_decimals_string(5), "0.05");
    assert_eq!(two_decimals_string(1250), "12.50");
    assert_eq!(two_decimals_string(10000), "100.00");
}

#[test]
fn numbers_are_joined_by_semicolons() {
    assert_eq!(numbers_string(&vec![]), "");
    assert_eq!(numbers_string(&vec![7]), "7");
    assert_eq!(numbers_string(&vec![4, 120, 0]), "4;120;0");
}

#[test]
fn numbers_are_read() {
    assert_eq!(parse_u64("0"), Some(0));
    assert_eq!(parse_u64("007"), Some(7));
    assert_eq!(parse_u64("+42"), Some(42));
    assert_eq!(parse_u64("18446744073709551615"), Some(u64::MAX));
}

#[test]
fn what_is_no_number_is_not_read() {
    assert_eq!(parse_u64(""), None);
    assert_eq!(parse_u64("+"), None);
    assert_eq!(parse_u64("-1"), None);
    assert_eq!(parse_u64("++1"), None);
    assert_eq!(parse_u64(" 1"), None);
    assert_eq!(parse_u64("1.5"), None);
    assert_eq!(parse_u64("\u{ff11}"), None);
    assert_eq!(parse_u64("18446744073709551616"), None);
    assert_eq!(parse_u64("99999999999999999999"), None);
}

#[test]
fn reading_agrees_with_the_standard_library() {
    for s in ["", "+", "-0", "0", "+0", "12a", "18446744073709551615", "18446744073709551616"] {
        assert_eq!(parse_u64(s), s.parse::<u64>().ok());
    }
}

#[test]
fn written_numbers_are_read_back() {
    for n in [0, 1, 9, 10, 99, 100, 1000, 300, u64::MAX - 1, u64::MAX] {
        assert_eq!(parse_u64(&decimal_string(n)), Some(n));
    }
}

#[test]
fn texts_are_compared_by_their_bytes() {
    assert!(is_before("", "a"));
    assert!(is_before("a", "b"));
    assert!(is_before("a", "aa"));
    assert!(is_before("z", "\u{e9}"));
    assert!(!is_before("a", "a"));
    assert!(!is_before("b", "a"));
    assert!(!is_before("a", ""));
    assert!(same_text("caf\u{e9}", "caf\u{e9}"));
    assert!(!same_text("caf\u{e9}", "cafe"));
    assert!(!same_text("a", "ab"));
}

#[test]
fn characters_make_up_a_text() {
    assert_eq!(chars_of("a\u{1F600}"), vec!['a', '\u{1F600}']);
    assert_eq!(string_of(&vec!['x', '\u{e9}']), "x\u{e9}");
}

#[test]
fn zeros_are_trimmed_at_the_end_only() {
    let mut chars = vec!['\0', 'a', '\0', 'b', '\0', '\0'];
    trim_zeros(&mut chars);
    assert_eq!(chars, vec!['\0', 'a', '\0', 'b']);
    let mut zeros = vec!['\0', '\0'];
    trim_zeros(&mut zeros);
    assert!(zeros.is_empty());
}

#[test]
fn wide_strings_end_in_zero() {
    assert_eq!(encode_wide(""), vec![0]);
    assert_eq!(encode_wide("runas"), vec![0x72, 0x75, 0x6E, 0x61, 0x73, 0]);
    assert_eq!(encode_wide("a\u{1F600}"), vec![0x61, 0xD83D, 0xDE00, 0]);
}

#[test]
fn lone_surrogates_are_replaced() {
    assert_eq!(decode_utf16_lossy(&vec![0xD83D]), vec!['\u{FFFD}']);
    assert_eq!(decode_utf16_lossy(&vec![0xDE00, 0x61]), vec!['\u{FFFD}', 'a']);
    assert_eq!(decode_utf16_lossy(&vec![0xD83D, 0x61]), vec!['\u{FFFD}', 'a']);
    assert_eq!(
        decode_utf16_lossy(&vec![0xD83D, 0xD83D, 0xDE00]),
        vec!['\u{FFFD}', '\u{1F600}']
    );
}

#[test]
fn encoded_text_is_decoded_to_itself() {
    for s in ["", "notepad.exe", "\u{e9}\u{ffff}\u{10000}\u{10ffff}"] {
        let mut units = encode_wide(s);
        assert_eq!(units.pop(), Some(0));
        assert_eq!(string_of(&decode_utf16_lossy(&units)), s);
        assert_eq!(String::from_utf16_lossy(&units), s);
    }
}
