use nyanmd::text::{char_is_whitespace, trim_str};

#[test]
fn white_space_is_what_std_says() {
    for u in 0u32..=0x10FFFF {
        if let Some(c) = char::from_u32(u) {
            assert_eq!(char_is_whitespace(c), c.is_whitespace(), "U+{:04X}", u);
        }
    }
}

#[test]
fn trim_is_what_std_says() {
    for s in ["", "  ", " a ", "\u{3000}x\u{85}", "a b", "\n\tq\r\n", "\u{200B}z"] {
        assert_eq!(trim_str(s), s.trim());
    }
}
