use clip_win::models::ClipboardEntry;
use clip_win::text::is_whitespace;

fn entry(content: &str) -> ClipboardEntry {
    ClipboardEntry {
        id: 1,
        content: content.to_string(),
        created_at: "2024-01-01T00:00:00.000Z".to_string(),
        is_pinned: false,
    }
}

#[test]
fn display_title_short_text_is_kept() {
    assert_eq!(entry("Hello, World!").display_title(40), "Hello, World!");
}

#[test]
fn display_title_folds_lines_and_trims() {
    assert_eq!(entry("  line one\r\nline two\n").display_title(40), "line one line two");
}

#[test]
fn display_title_cuts_long_text_with_ellipsis() {
    assert_eq!(entry("abcdefghij").display_title(4), "abcd…");
}

#[test]
fn display_title_exact_length_has_no_ellipsis() {
    assert_eq!(entry("abcd").display_title(4), "abcd");
}

#[test]
fn display_title_counts_characters_not_bytes() {
    assert_eq!(entry("お疲れ様です").display_title(3), "お疲れ…");
    assert_eq!(entry("お疲れ様です").display_title(6), "お疲れ様です");
}

#[test]
fn display_title_of_blank_text_is_empty() {
    assert_eq!(entry(" \t\r\n\u{3000}").display_title(10), "");
}

#[test]
fn display_title_zero_length_is_just_ellipsis() {
    assert_eq!(entry("x").display_title(0), "…");
}

#[test]
fn whitespace_matches_std_for_every_char() {
    for u in 0u32..=0x10FFFF {
        if let Some(c) = char::from_u32(u) {
            assert_eq!(is_whitespace(c), c.is_whitespace(), "U+{:04X}", u);
        }
    }
}
