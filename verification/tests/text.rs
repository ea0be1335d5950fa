use pinki::text::{decimal_text, is_blank, owned, starts_with, trim};

#[test]
fn trim_drops_unicode_white_space_at_both_ends() {
    assert_eq!(trim("  kept \t\n"), "kept");
    assert_eq!(trim("\u{3000}mid dle\u{a0}"), "mid dle");
    assert_eq!(trim(""), "");
    assert_eq!(trim("   "), "");
}

#[test]
fn blank_means_nothing_but_white_space() {
    assert!(is_blank(""));
    assert!(is_blank(" \t\r\n"));
    assert!(!is_blank(" x "));
}

#[test]
fn the_small_string_helpers() {
    assert_eq!(pinki::text::concat("ab", "cd"), "abcd");
    assert_eq!(owned("α"), "α");
    assert!(starts_with("pnk_1", "pnk_"));
    assert!(!starts_with("pn", "pnk_"));
    assert_eq!(decimal_text(0), "0");
    assert_eq!(decimal_text(8192), "8192");
    assert_eq!(decimal_text(u64::MAX), "18446744073709551615");
}

#[test]
fn the_character_classes_agree_with_std_on_every_char() {
    for u in 0..=0x10ffffu32 {
        if let Some(c) = char::from_u32(u) {
            assert_eq!(pinki::text::char_is_whitespace(c), c.is_whitespace(), "U+{u:04X}");
            assert_eq!(pinki::text::char_is_control(c), c.is_control(), "U+{u:04X}");
        }
    }
}
