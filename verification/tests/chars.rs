use winget_core::chars::{
    chars_of, is_blank_chars, is_whitespace, safe_char_substring, same_chars, slice_chars,
    string_of, trim_chars,
};

fn chars(s: &str) -> Vec<char> {
    s.chars().collect()
}

#[test]
fn chars_of_gives_the_scalar_values() {
    assert_eq!(chars_of("Sürüm"), vec!['S', 'ü', 'r', 'ü', 'm']);
    assert_eq!(chars_of(""), Vec::<char>::new());
    assert_eq!(chars_of("a\u{2014}b").len(), 3);
}

#[test]
fn string_of_undoes_chars_of() {
    for s in ["", "7-Zip", "Kullanılabilir", "  spaced  ", "İsim\tSürüm\r\n"] {
        assert_eq!(string_of(&chars_of(s)), s);
    }
}

#[test]
fn whitespace_is_what_std_calls_whitespace() {
    for code in 0..=0x10FFFFu32 {
        if let Some(c) = char::from_u32(code) {
            assert_eq!(is_whitespace(c), c.is_whitespace(), "U+{:04X}", code);
        }
    }
}

#[test]
fn trim_removes_whitespace_at_both_ends_only() {
    for s in [
        "",
        " ",
        "   \t\r\n",
        "abc",
        "  abc",
        "abc  ",
        "  a b  c \t",
        "\u{a0}x\u{3000}",
        "\u{2003}Sürüm 1.0\u{2028}",
        "-",
    ] {
        let v = chars(s);
        assert_eq!(trim_chars(&v).to_vec(), chars(s.trim()), "{:?}", s);
        assert_eq!(is_blank_chars(&v), s.trim().is_empty(), "{:?}", s);
    }
}

#[test]
fn trim_of_padded_text_is_the_text() {
    assert_eq!(trim_chars(&chars("  7zip.7zip      ")).to_vec(), chars("7zip.7zip"));
}

#[test]
fn slice_inside_the_text() {
    let v = chars("0123456789");
    assert_eq!(slice_chars(&v, 2, 5).to_vec(), chars("234"));
    assert_eq!(slice_chars(&v, 0, 10).to_vec(), chars("0123456789"));
    assert_eq!(slice_chars(&v, 9, 10).to_vec(), chars("9"));
}

#[test]
fn slice_is_cut_off_at_the_end_of_the_text() {
    let v = chars("0123456789");
    assert_eq!(slice_chars(&v, 7, 999).to_vec(), chars("789"));
    assert_eq!(slice_chars(&v, 0, usize::MAX).to_vec(), chars("0123456789"));
}

#[test]
fn slice_beyond_the_text_is_empty() {
    let v = chars("short");
    assert!(slice_chars(&v, 5, 999).is_empty());
    assert!(slice_chars(&v, 30, 60).is_empty());
    assert!(slice_chars(&[], 0, 10).is_empty());
}

#[test]
fn inverted_or_empty_range_is_empty() {
    let v = chars("0123456789");
    assert!(slice_chars(&v, 5, 2).is_empty());
    assert!(slice_chars(&v, 3, 3).is_empty());
    assert!(slice_chars(&v, 0, 0).is_empty());
}

#[test]
fn safe_char_substring_counts_characters_not_bytes() {
    assert_eq!(safe_char_substring("İsim Sürüm", 5, 10), "Sürüm");
    assert_eq!(safe_char_substring("İsim Sürüm", 0, 4), "İsim");
    assert_eq!(safe_char_substring("Kullanılabilir", 6, 9), "ıla");
}

#[test]
fn safe_char_substring_never_fails_on_bad_ranges() {
    assert_eq!(safe_char_substring("abc", 3, 10), "");
    assert_eq!(safe_char_substring("abc", 100, 200), "");
    assert_eq!(safe_char_substring("abc", 2, 1), "");
    assert_eq!(safe_char_substring("abc", 1, 1), "");
    assert_eq!(safe_char_substring("abc", 1, 100), "bc");
    assert_eq!(safe_char_substring("", 0, 1), "");
}

#[test]
fn same_chars_compares_contents() {
    assert!(same_chars(&chars("19.00"), &chars("19.00")));
    assert!(same_chars(&[], &[]));
    assert!(!same_chars(&chars("19.00"), &chars("19.01")));
    assert!(!same_chars(&chars("19.0"), &chars("19.00")));
    assert!(!same_chars(&chars("a"), &[]));
}
