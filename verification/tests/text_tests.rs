use speech_server::text::{chars_of, trim_str, white_space};

#[test]
fn trim_removes_surrounding_white_space() {
    assert_eq!(trim_str("  hello world \n"), "hello world");
    assert_eq!(trim_str("\t\r\nabc"), "abc");
    assert_eq!(trim_str("abc"), "abc");
}

#[test]
fn trim_of_white_space_only_is_empty() {
    assert_eq!(trim_str(" \t\n  "), "");
    assert_eq!(trim_str(""), "");
}

#[test]
fn trim_agrees_with_std_on_unicode_white_space() {
    let texts = [
        "\u{3000}wide\u{3000}",
        "\u{a0}x\u{85}",
        "\u{2028}a b\u{2029}",
        "\u{200b}zero width\u{200b}",
        "\u{1680}\u{2000}\u{200a}y\u{202f}\u{205f}",
        "\u{b}\u{c}v",
    ];
    for t in texts {
        assert_eq!(trim_str(t), t.trim());
    }
}

#[test]
fn white_space_agrees_with_std() {
    for u in 0u32..0x3100 {
        if let Some(c) = char::from_u32(u) {
            assert_eq!(white_space(c), c.is_whitespace(), "at {:x}", u);
        }
    }
}

#[test]
fn chars_of_lists_characters() {
    assert_eq!(chars_of("añb"), vec!['a', 'ñ', 'b']);
}
