use marrow_run::preview::{
    diagnostic_bytes_preview, diagnostic_text_preview, render_bytes_hex, truncate_preview_chars,
    DIAGNOSTIC_PREVIEW_SCALAR_LIMIT,
};

const SIXTY_FOUR_CHAR_PREFIX: &str =
    "abcdefghijklmnopqrstuvwxyzABCDEFGHIJKLMNOPQRSTUVWXYZ0123456789!?";
const LONG_TEXT_PREVIEW: &str =
    "\"abcdefghijklmnopqrstuvwxyzABCDEFGHIJKLMNOPQRSTUVWXYZ0123456789!?...\"";

fn long_diagnostic_text() -> String {
    format!("{SIXTY_FOUR_CHAR_PREFIX}-tail-marker")
}

#[test]
fn diagnostic_text_preview_truncates_after_sixty_four_chars() {
    let text = long_diagnostic_text();
    let preview = diagnostic_text_preview(&text);

    assert_eq!(SIXTY_FOUR_CHAR_PREFIX.chars().count(), 64);
    assert_eq!(preview, LONG_TEXT_PREVIEW);
    assert!(!preview.contains("tail-marker"), "{preview}");
}

#[test]
fn diagnostic_text_preview_escapes_like_escape_default() {
    let text = "a\"b\\c\td\ne\u{7f}é'";
    let expected: String = std::iter::once('"')
        .chain(text.chars().flat_map(|c| c.escape_default()))
        .chain(std::iter::once('"'))
        .collect();
    assert_eq!(diagnostic_text_preview(text), expected);
    assert_eq!(diagnostic_text_preview("é"), "\"\\u{e9}\"");
    assert_eq!(diagnostic_text_preview(""), "\"\"");
}

#[test]
fn diagnostic_text_preview_keeps_exactly_sixty_four_chars() {
    assert_eq!(
        diagnostic_text_preview(SIXTY_FOUR_CHAR_PREFIX),
        format!("\"{SIXTY_FOUR_CHAR_PREFIX}\"")
    );
}

#[test]
fn truncate_preview_chars_cuts_after_the_limit() {
    assert_eq!(truncate_preview_chars("abcdef", 3), "abc...");
    assert_eq!(truncate_preview_chars("abc", 3), "abc");
    assert_eq!(truncate_preview_chars("", 0), "");
    assert_eq!(truncate_preview_chars("é文字", 1), "é...");
}

#[test]
fn bytes_render_as_bounded_hex() {
    assert_eq!(render_bytes_hex(b"abc"), "0x616263");
    assert_eq!(diagnostic_bytes_preview(b"abc"), "0x616263");
    let long = vec![0xab; DIAGNOSTIC_PREVIEW_SCALAR_LIMIT + 8];
    let preview = diagnostic_bytes_preview(&long);
    assert!(preview.ends_with("..."), "{preview}");
    assert_eq!(
        preview.trim_end_matches("..."),
        format!("0x{}", "ab".repeat(DIAGNOSTIC_PREVIEW_SCALAR_LIMIT))
    );
}
