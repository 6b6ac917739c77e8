use winget_core::search::{contains_chars, find_chars, occurs_at_chars};

fn chars(s: &str) -> Vec<char> {
    s.chars().collect()
}

fn std_find(hay: &str, needle: &str) -> Option<usize> {
    hay.find(needle).map(|byte| hay[..byte].chars().count())
}

#[test]
fn find_gives_the_first_position() {
    assert_eq!(find_chars(&chars("Name   Id   Id"), &chars("Id")), Some(7));
    assert_eq!(find_chars(&chars("aaa"), &chars("aa")), Some(0));
    assert_eq!(find_chars(&chars("abcabc"), &chars("c")), Some(2));
    assert_eq!(find_chars(&chars("abc"), &chars("abc")), Some(0));
}

#[test]
fn find_counts_characters_not_bytes() {
    assert_eq!(find_chars(&chars("İsim   Sürüm"), &chars("Sürüm")), Some(7));
    assert_eq!("İsim   Sürüm".find("Sürüm"), Some(8));
}

#[test]
fn find_of_what_is_absent_is_none() {
    assert_eq!(find_chars(&chars("Name"), &chars("Id")), None);
    assert_eq!(find_chars(&chars("Na"), &chars("Name")), None);
    assert_eq!(find_chars(&[], &chars("x")), None);
}

#[test]
fn empty_needle_stands_at_the_start() {
    assert_eq!(find_chars(&chars("abc"), &[]), Some(0));
    assert_eq!(find_chars(&[], &[]), Some(0));
    assert!(contains_chars(&[], &[]));
}

#[test]
fn find_agrees_with_std() {
    let hays = ["", "a", "--", "---", "a---b", "ab ab  ab", "Ad Kimlik Sürüm", "İİİsim", "xxxyxxxy"];
    let needles = ["", "a", "-", "---", "ab", "  ", "Sürüm", "İsim", "xxy", "Kimlik "];
    for hay in hays {
        for needle in needles {
            assert_eq!(
                find_chars(&chars(hay), &chars(needle)),
                std_find(hay, needle),
                "{:?} in {:?}",
                needle,
                hay
            );
            assert_eq!(contains_chars(&chars(hay), &chars(needle)), hay.contains(needle));
        }
    }
}

#[test]
fn occurs_at_checks_one_position() {
    let hay = chars("a---b");
    assert!(occurs_at_chars(&hay, &chars("---"), 1));
    assert!(!occurs_at_chars(&hay, &chars("---"), 0));
    assert!(!occurs_at_chars(&hay, &chars("---"), 2));
    assert!(!occurs_at_chars(&hay, &chars("---"), 3));
    assert!(!occurs_at_chars(&hay, &chars("b"), 5));
    assert!(occurs_at_chars(&hay, &[], 5));
    assert!(!occurs_at_chars(&hay, &[], 6));
    assert!(!occurs_at_chars(&hay, &chars("b"), usize::MAX));
}
