use winget_core::words::{keep_nonblank, split_chunks, split_words};

fn chars(s: &str) -> Vec<char> {
    s.chars().collect()
}

fn words_of(s: &str) -> Vec<String> {
    let v = chars(s);
    split_words(&v).iter().map(|w| w.iter().collect::<String>()).collect()
}

fn chunks_of(s: &str) -> Vec<String> {
    let v = chars(s);
    split_chunks(&v).iter().map(|w| w.iter().collect::<String>()).collect()
}

#[test]
fn words_are_split_at_any_whitespace_run() {
    assert_eq!(words_of("7zip.7zip   19.00\t21.07 winget"), vec!["7zip.7zip", "19.00", "21.07", "winget"]);
    assert_eq!(words_of("  lead and trail  "), vec!["lead", "and", "trail"]);
    assert_eq!(words_of("one"), vec!["one"]);
}

#[test]
fn blank_text_has_no_words() {
    assert_eq!(words_of(""), Vec::<String>::new());
    assert_eq!(words_of("   \t "), Vec::<String>::new());
}

#[test]
fn words_agree_with_std() {
    for s in ["", " ", "a", " a", "a ", "a b", "a  b", "\u{a0}a\u{3000}b\u{2003}", "Sürüm 1.0\r", "a\nb\tc"] {
        let expected: Vec<String> = s.split_whitespace().map(|w| w.to_string()).collect();
        assert_eq!(words_of(s), expected, "{:?}", s);
    }
}

#[test]
fn text_without_a_gap_is_one_chunk() {
    assert_eq!(chunks_of("a b c"), vec!["a b c"]);
    assert_eq!(chunks_of(""), vec![""]);
}

#[test]
fn one_gap_gives_two_chunks() {
    assert_eq!(chunks_of("Foo  foo.id 1.0"), vec!["Foo", "foo.id 1.0"]);
    assert_eq!(chunks_of("a  "), vec!["a", ""]);
}

#[test]
fn the_third_chunk_is_all_that_follows_the_second_gap() {
    assert_eq!(chunks_of("A  B  C  D"), vec!["A", "B", "C  D"]);
    assert_eq!(chunks_of("A    B  C"), vec!["A", "", "B  C"]);
    assert_eq!(chunks_of("A   B"), vec!["A", " B"]);
}

#[test]
fn chunks_agree_with_std() {
    for s in ["", " ", "  ", "   ", "    ", "a", "a  b", "a   b", "a    b", "a  b  c  d", "  a", "a  ", "7-Zip                7zip.7zip               19.00"] {
        let expected: Vec<String> = s.splitn(3, "  ").map(|w| w.to_string()).collect();
        assert_eq!(chunks_of(s), expected, "{:?}", s);
    }
}

#[test]
fn blank_chunks_are_dropped_in_order() {
    let a = chars("A");
    let blank = chars("   ");
    let empty: Vec<char> = Vec::new();
    let b = chars(" B ");
    let parts: Vec<&[char]> = vec![&a, &blank, &empty, &b];
    let kept = keep_nonblank(&parts);
    assert_eq!(kept.len(), 2);
    assert_eq!(kept[0].to_vec(), chars("A"));
    assert_eq!(kept[1].to_vec(), chars(" B "));
    assert!(keep_nonblank(&vec![&blank[..], &empty[..]]).is_empty());
}
