use hugh::text::{chars_of, same_text, string_of, trim_chars, white_space};

#[test]
fn trimming_removes_unicode_white_space_at_both_ends() {
    for sample in ["  hi  ", "\u{3000}x y\u{2029}", "\t\n", "", "abc", "\u{85}a\u{a0}"] {
        let chars = chars_of(sample);
        let trimmed = string_of(&trim_chars(&chars));
        assert_eq!(trimmed, sample.trim());
    }
}

#[test]
fn white_space_matches_the_standard_library() {
    for c in ['\u{0}', ' ', '\t', '\u{b}', '\u{1c}', '\u{85}', '\u{a0}', '\u{1680}', '\u{180e}', '\u{2007}', '\u{200b}', '\u{202f}', '\u{205f}', '\u{3000}', 'a', 'é'] {
        assert_eq!(white_space(c), c.is_whitespace(), "{c:?}");
    }
}

#[test]
fn same_text_compares_every_character() {
    assert!(same_text("quarantine", "quarantine"));
    assert!(!same_text("quarantine", "Quarantine"));
    assert!(!same_text("quarantine", "quarantin"));
    assert!(same_text("", ""));
}
