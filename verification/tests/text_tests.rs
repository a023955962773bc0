use system_audio::text::{char_is_white_space, contains_chars, str_to_chars, trimmed};

#[test]
fn trimmed_matches_std_trim() {
    for s in ["", "  ", "\t x \n", "\u{2003}mid dle\u{3000}", "\u{85}a\u{a0}", "no-trim", "\r\n"] {
        assert_eq!(trimmed(s), s.trim());
    }
}

#[test]
fn white_space_matches_std() {
    for c in ['\t', '\n', '\u{b}', '\u{c}', '\r', ' ', '\u{85}', '\u{a0}', '\u{1680}', '\u{2000}', '\u{200a}', '\u{2028}', '\u{2029}', '\u{202f}', '\u{205f}', '\u{3000}', 'a', '\u{200b}', '\u{180e}', '\u{feff}', '0'] {
        assert_eq!(char_is_white_space(c), c.is_whitespace(), "{:?}", c);
    }
}

#[test]
fn str_to_chars_keeps_every_char() {
    assert_eq!(str_to_chars("héllo ♪"), vec!['h', 'é', 'l', 'l', 'o', ' ', '♪']);
}

#[test]
fn contains_matches_std() {
    let cases = [("built-in audio", "in au"), ("abc", ""), ("", ""), ("", "a"), ("abc", "abcd"), ("aab", "ab"), ("abc", "c"), ("abc", "d")];
    for (hay, needle) in cases {
        assert_eq!(contains_chars(&str_to_chars(hay), &str_to_chars(needle)), hay.contains(needle));
    }
}
