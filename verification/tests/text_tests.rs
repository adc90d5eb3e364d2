use aspnav::text::{contains_text, find_first, remove_first, str_eq};

#[test]
fn find_first_returns_earliest_match() {
    assert_eq!(find_first("a. b. a.", "a."), Some(0));
    assert_eq!(find_first("a. b. a.", "b."), Some(3));
    assert_eq!(find_first("a. b. a.", "c."), None);
    assert_eq!(find_first("abc", ""), Some(0));
    assert_eq!(find_first("ab", "abc"), None);
}

#[test]
fn remove_first_removes_one_occurrence() {
    assert_eq!(remove_first("a. b. a.", "a. "), "b. a.");
    assert_eq!(remove_first("a. b. a.", "zzz"), "a. b. a.");
    assert_eq!(remove_first("aaa", "aa"), "a");
}

#[test]
fn str_eq_compares_characters() {
    assert!(str_eq("p(1,2)", "p(1,2)"));
    assert!(!str_eq("p(1,2)", "p(1,3)"));
    assert!(!str_eq("a", "ab"));
    assert!(str_eq("", ""));
}

#[test]
fn contains_text_matches_by_characters() {
    let atoms = vec!["a".to_owned(), "b".to_owned()];
    assert!(contains_text(&atoms, "a"));
    assert!(contains_text(&atoms, "b"));
    assert!(!contains_text(&atoms, "c"));
}
