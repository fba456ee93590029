use engram_mcp::text::{contains_char, is_blank_text, is_white_space_char, trim_text};

#[test]
fn trim_matches_std_trim() {
    let samples = [
        "",
        "   ",
        "  a b  ",
        "\u{3000}x\u{2028}",
        "\u{85}\u{a0}mid\u{1680}",
        "no-space",
        "\u{200b}zero-width\u{200b}",
    ];
    for sample in samples {
        assert_eq!(trim_text(sample), sample.trim());
        assert_eq!(is_blank_text(sample), sample.trim().is_empty());
    }
}

#[test]
fn white_space_matches_char_is_whitespace() {
    for value in 0u32..0x3100 {
        if let Some(c) = char::from_u32(value) {
            assert_eq!(is_white_space_char(c), c.is_whitespace(), "{value:#x}");
        }
    }
}

#[test]
fn contains_char_finds_line_breaks() {
    assert!(contains_char("a\nb", '\n'));
    assert!(!contains_char("ab", '\r'));
}
