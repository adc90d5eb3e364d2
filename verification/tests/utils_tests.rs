use aspnav::utils::ToHashSet;

fn vs(xs: &[&str]) -> Vec<String> {
    xs.iter().map(|x| (*x).to_owned()).collect()
}

#[test]
fn to_hashset_collects_distinct_elements() {
    let set = vs(&["a", "b", "a", "e"]).to_hashset();
    assert_eq!(set.len(), 3);
    assert!(set.contains("a"));
    assert!(set.contains("b"));
    assert!(set.contains("e"));
    assert!(!set.contains("c"));
}

#[test]
fn difference_keeps_first_occurrences() {
    let brave = vs(&["b", "c", "d", "e"]);
    let cautious = vs(&["b", "e"]);
    assert_eq!(brave.difference(&cautious), vs(&["c", "d"]));
    assert_eq!(vs(&["a", "a", "b"]).difference(&vs(&["b"])), vs(&["a"]));
    let nothing: Vec<String> = Vec::new();
    assert_eq!(nothing.difference(&cautious), Vec::<String>::new());
}

#[test]
fn difference_as_set_matches_difference() {
    let brave = vs(&["b", "c", "d", "e"]);
    let cautious = vs(&["b", "e"]);
    let set = brave.difference_as_set(&cautious);
    assert_eq!(set.len(), 2);
    assert!(set.contains("c"));
    assert!(set.contains("d"));
    assert!(!set.contains("b"));
}
