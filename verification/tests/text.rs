use darkfi::text::{char_is_whitespace, is_whitespace, line_glyph_colors};

#[test]
fn char_whitespace_agrees_with_std() {
    for n in 0..=0x10FFFFu32 {
        if let Some(c) = char::from_u32(n) {
            assert_eq!(char_is_whitespace(c), c.is_whitespace(), "U+{:04X}", n);
        }
    }
}

#[test]
fn whitespace_strings() {
    assert!(is_whitespace(""));
    assert!(is_whitespace(" "));
    assert!(is_whitespace(" \t\n\u{3000}\u{a0}"));
    assert!(!is_whitespace(" a "));
    assert!(!is_whitespace("x"));
    assert!(!is_whitespace("\u{200b}"));
}

fn glyphs(parts: &[&str]) -> Vec<String> {
    parts.iter().map(|s| s.to_string()).collect()
}

#[test]
fn nick_colored_up_to_first_space() {
    let g = glyphs(&["b", "o", "b", " ", "h", "i", " ", "x"]);
    let colors = line_glyph_colors(&g, true, 'N', 'T');
    assert_eq!(colors, vec!['N', 'N', 'N', 'N', 'T', 'T', 'T', 'T']);
}

#[test]
fn continuation_lines_use_text_color() {
    let g = glyphs(&["b", "o", " ", "x"]);
    let colors = line_glyph_colors(&g, false, 1u8, 2u8);
    assert_eq!(colors, vec![2, 2, 2, 2]);
}

#[test]
fn nick_line_without_space_is_all_nick_colored() {
    let g = glyphs(&["a", "b", "c"]);
    let colors = line_glyph_colors(&g, true, [1.0f32, 0.0, 0.0, 1.0], [0.5f32, 0.5, 0.5, 1.0]);
    assert_eq!(colors, vec![[1.0f32, 0.0, 0.0, 1.0]; 3]);
    let empty: Vec<String> = Vec::new();
    assert!(line_glyph_colors(&empty, true, 0u8, 1u8).is_empty());
}

#[test]
fn leading_space_ends_nick_section() {
    let g = glyphs(&[" ", "a"]);
    assert_eq!(line_glyph_colors(&g, true, 'N', 'T'), vec!['N', 'T']);
}
