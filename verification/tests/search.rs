use const_split_str::search::{chars_of, find_in, matches_at};

fn chars(text: &str) -> Vec<char> {
    text.chars().collect()
}

#[test]
fn chars_of_gives_the_characters() {
    assert_eq!(chars_of("héllo"), vec!['h', 'é', 'l', 'l', 'o']);
    assert_eq!(chars_of(""), Vec::<char>::new());
}

#[test]
fn matches_at_each_index() {
    let text = chars("abcabc");
    let needle = chars("bc");
    let found: Vec<bool> = (0..8).map(|at| matches_at(&text, &needle, at)).collect();
    assert_eq!(found, vec![false, true, false, false, true, false, false, false]);
}

#[test]
fn matches_at_the_end_and_beyond() {
    let text = chars("abc");
    assert!(matches_at(&text, &chars("c"), 2));
    assert!(!matches_at(&text, &chars("c"), 3));
    assert!(!matches_at(&text, &chars("cd"), 2));
    assert!(!matches_at(&text, &chars("abcd"), 0));
    assert!(!matches_at(&text, &chars("a"), usize::MAX));
}

#[test]
fn empty_needle_matches_at_every_boundary() {
    let text = chars("ab");
    let none = chars("");
    assert!(matches_at(&text, &none, 0));
    assert!(matches_at(&text, &none, 1));
    assert!(matches_at(&text, &none, 2));
    assert!(!matches_at(&text, &none, 3));
    assert!(matches_at(&none, &none, 0));
}

#[test]
fn find_in_gives_the_leftmost_index() {
    assert_eq!(find_in(&chars("abcabc"), &chars("bc")), Some(1));
    assert_eq!(find_in(&chars("abcabc"), &chars("abc")), Some(0));
    assert_eq!(find_in(&chars("abcabc"), &chars("c")), Some(2));
    assert_eq!(find_in(&chars("aab"), &chars("ab")), Some(1));
    assert_eq!(find_in(&chars("abc"), &chars("")), Some(0));
    assert_eq!(find_in(&chars(""), &chars("")), Some(0));
    assert_eq!(find_in(&chars("xyz"), &chars("z")), Some(2));
}

#[test]
fn find_in_counts_characters_not_bytes() {
    assert_eq!(find_in(&chars("日本語"), &chars("語")), Some(2));
    assert_eq!("日本語".find("語"), Some(6));
}

#[test]
fn find_in_gives_none_where_absent() {
    assert_eq!(find_in(&chars("abc"), &chars("d")), None);
    assert_eq!(find_in(&chars("abc"), &chars("abcd")), None);
    assert_eq!(find_in(&chars(""), &chars("a")), None);
    assert_eq!(find_in(&chars("abab"), &chars("bb")), None);
}
