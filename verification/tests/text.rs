use hgame_launcher::text::{decimal_i64, is_whitespace, join_texts, parse_i32, same_text, trim};

#[test]
fn parse_i32_reads_signed_decimals() {
    assert_eq!(parse_i32("0"), Some(0));
    assert_eq!(parse_i32("+5"), Some(5));
    assert_eq!(parse_i32("-12"), Some(-12));
    assert_eq!(parse_i32("007"), Some(7));
    assert_eq!(parse_i32("2147483647"), Some(i32::MAX));
    assert_eq!(parse_i32("-2147483648"), Some(i32::MIN));
}

#[test]
fn parse_i32_refuses_what_std_refuses() {
    for s in ["", "+", "-", "2147483648", "-2147483649", "12a", " 1", "1 ", "1_000", "1.0", "99999999999999999999", "１"] {
        assert_eq!(parse_i32(s), None, "{s:?}");
        assert_eq!(parse_i32(s), s.parse::<i32>().ok(), "{s:?}");
    }
}

#[test]
fn decimal_writes_like_display() {
    for v in [0i64, 7, 10, 20000, -1, -90, i64::MAX, i64::MIN] {
        assert_eq!(decimal_i64(v), v.to_string());
    }
}

#[test]
fn decimals_read_back() {
    for n in [0i32, 1, -1, 42, -2147483648, 2147483647, 10000] {
        assert_eq!(parse_i32(&decimal_i64(n as i64)), Some(n));
    }
}

#[test]
fn same_text_compares_characters() {
    assert!(same_text("エラー(SQL間違い)", "エラー(SQL間違い)"));
    assert!(!same_text("abc", "abd"));
    assert!(!same_text("ab", "abc"));
}

#[test]
fn join_texts_puts_nodes_end_to_end() {
    let nodes = vec!["ab".to_string(), "".to_string(), "c".to_string()];
    assert_eq!(join_texts(&nodes), "abc");
    assert_eq!(join_texts(&Vec::new()), "");
}

#[test]
fn trim_drops_white_space_at_both_ends() {
    for s in ["  エラー(SQL間違い)  ", "\n\t x y \r\n", "", "   ", "\u{3000}全角\u{3000}", "\u{85}a\u{a0}", "a\u{200b}"] {
        assert_eq!(trim(s), s.trim(), "{s:?}");
    }
    assert_eq!(trim("  エラー(SQL間違い)  "), "エラー(SQL間違い)");
}

#[test]
fn whitespace_agrees_with_std() {
    for u in 0u32..0x3100 {
        if let Some(c) = char::from_u32(u) {
            assert_eq!(is_whitespace(c), c.is_whitespace(), "{u:#x}");
        }
    }
}
