use calculator::my_extension::MyStringExtension;
use calculator::text::{
    chars_of, index_text, int_to_text, parse_integer, push_decimal, string_of, trimmed, white_space,
};

#[test]
fn white_space_is_unicode_white_space() {
    for code in 0u32..0x3100 {
        if let Some(c) = char::from_u32(code) {
            assert_eq!(white_space(c), c.is_whitespace(), "code point {:x}", code);
        }
    }
    assert!(!white_space('\u{feff}'));
}

#[test]
fn trimming_is_str_trim() {
    for text in ["  1+2 ", "\t(3)\n", "", "   ", "\u{3000}x\u{85}", "a b"] {
        let t = trimmed(&text.chars().collect());
        let s: String = t.into_iter().collect();
        assert_eq!(s, text.trim());
    }
}

#[test]
fn trimming_twice_changes_nothing_more() {
    let once = trimmed(&" \t 12*3 \n".chars().collect());
    let twice = trimmed(&once);
    assert_eq!(once, twice);
}

#[test]
fn characters_and_strings() {
    let chars = chars_of(&"a(é)".to_string());
    assert_eq!(chars, vec!['a', '(', 'é', ')']);
    assert_eq!(string_of(&chars), "a(é)");
    assert_eq!(string_of(&vec!['x', 'y']), "xy");
}

#[test]
fn integers_written_as_to_string() {
    for v in [0i128, 7, -7, 10, 12345, -100, i64::MIN as i128, u64::MAX as i128, i128::MAX] {
        assert_eq!(int_to_text(v), v.to_string());
    }
    assert_eq!(index_text(0), "0");
    assert_eq!(index_text(305), "305");
    let mut s = String::from("n=");
    push_decimal(&mut s, 42);
    assert_eq!(s, "n=42");
}

#[test]
fn integers_read_as_from_str() {
    let i64_range = (i64::MIN as i128, i64::MAX as i128);
    let u64_range = (0i128, u64::MAX as i128);
    let u32_range = (0i128, u32::MAX as i128);
    for text in ["0", "42", "-42", "+42", "", "-", "+", "1-2", " 1", "007", "18446744073709551615",
        "18446744073709551616", "-9223372036854775808", "-9223372036854775809", "9223372036854775807",
        "9223372036854775808", "4294967295", "4294967296", "1.5", "99999999999999999999999999999"]
    {
        let s = text.to_string();
        assert_eq!(parse_integer(&s, true, i64_range.0, i64_range.1), text.parse::<i64>().ok().map(|v| v as i128));
        assert_eq!(parse_integer(&s, false, u64_range.0, u64_range.1), text.parse::<u64>().ok().map(|v| v as i128));
        assert_eq!(parse_integer(&s, false, u32_range.0, u32_range.1), text.parse::<u32>().ok().map(|v| v as i128));
    }
}

#[test]
fn writing_then_reading_gives_the_integer_back() {
    for v in [0i128, 5, -5, 123456789, -9223372036854775808, 9223372036854775807] {
        let text = int_to_text(v);
        assert_eq!(parse_integer(&text, true, i64::MIN as i128, i64::MAX as i128), Some(v));
        if v >= 0 {
            assert_eq!(parse_integer(&text, false, 0, u64::MAX as i128), Some(v));
        }
    }
}

#[test]
fn string_queries() {
    assert!("1.5".to_string().is_float());
    assert!(!"15".to_string().is_float());
    let mut s = "abc".to_string();
    s.reverse();
    assert_eq!(s, "cba");
    s.reverse();
    assert_eq!(s, "abc");
    assert!("(-5)".to_string().is_negative_opening_parenthesis(0));
    assert!(!"(5)".to_string().is_negative_opening_parenthesis(0));
    assert!("(1-)".to_string().is_negative_opening_parenthesis(0));
    assert!(!"(-".to_string().is_negative_opening_parenthesis(0));
}
