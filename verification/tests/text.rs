use xemm_rust::text;

#[test]
fn search() {
    assert!(text::contains("HTTP 429 Too Many", "429"));
    assert!(!text::contains("HTTP 42", "429"));
    assert!(text::contains("abc", ""));
    assert!(!text::contains("", "a"));
    assert!(text::ends_with("SOLUSDT", "USDT"));
    assert!(!text::ends_with("USD", "USDT"));
    assert!(text::same("über", "über"));
    assert!(!text::same("uber", "über"));
    let v = text::characters("aXbXc");
    assert_eq!(text::find(&v, &text::characters("X")), Some(1));
    assert_eq!(text::find(&v, &text::characters("Y")), None);
    assert_eq!(text::text_of(&v, 1, 4), "XbX");
}

#[test]
fn letter_case() {
    assert_eq!(text::to_ascii_lowercase("AbZ-Ä9"), "abz-Ä9");
    assert_eq!(text::to_ascii_uppercase("abz-ä9"), "ABZ-ä9");
    assert!(text::eq_ignore_ascii_case("SolUsdt", "SOLUSDT"));
    assert!(!text::eq_ignore_ascii_case("SOL", "SOLUSDT"));
    assert!(text::is_yes("YES"));
    assert!(text::is_yes("1"));
    assert!(text::is_yes("True"));
    assert!(text::is_yes("y"));
    assert!(!text::is_yes("on"));
    assert_eq!(text::replace("xyz:CL", ':', '_'), "xyz_CL");
}

#[test]
fn white_space() {
    assert_eq!(text::trim("  a b\t\n"), "a b");
    assert_eq!(text::trim("\u{3000}\u{a0}x\u{2028}"), "x");
    assert_eq!(text::trim("   "), "");
    assert!(text::is_blank(" \t\u{85}"));
    assert!(text::is_blank(""));
    assert!(!text::is_blank(" x "));
    for c in (0u32..0x11000).filter_map(char::from_u32) {
        let s = c.to_string();
        assert_eq!(text::is_blank(&s), c.is_whitespace(), "{:x}", c as u32);
    }
    assert_eq!(text::trim_end("1.500", '0'), "1.5");
    assert_eq!(text::trim_end("000", '0'), "");
}

#[test]
fn numerals() {
    for n in [0u64, 7, 10, 99, 100, 1776172019921, u64::MAX] {
        assert_eq!(text::number(n), n.to_string());
        assert_eq!(text::number_at(&text::characters(&n.to_string()), 0), Some(n));
    }
    for n in [0i64, -1, 42, i64::MIN, i64::MAX] {
        assert_eq!(text::signed_number(n), n.to_string());
    }
    assert_eq!(text::number_at(&text::characters("18446744073709551616"), 0), None);
    assert_eq!(text::number_at(&text::characters("18446744073709551615!"), 0), Some(u64::MAX));
    assert_eq!(text::number_at(&text::characters("99999999999999999999999"), 0), None);
    assert_eq!(text::number_at(&text::characters("x12y"), 1), Some(12));
    assert_eq!(text::number_at(&text::characters("x12y"), 0), None);
    assert_eq!(text::number_at(&text::characters("007"), 0), Some(7));
}

#[test]
fn optional_texts() {
    let s = Some("a".to_string());
    assert_eq!(text::copy_optional(&s), s);
    assert_eq!(text::slice_optional(&s), Some("a"));
    assert_eq!(text::copy_optional(&None), None);
}
