use const_split_str::segments::{split_text, split_text_once, text_contains};

fn strings(parts: &[&str]) -> Vec<String> {
    parts.iter().map(|part| part.to_string()).collect()
}

fn pair(head: &str, tail: &str) -> Option<(String, String)> {
    Some((head.to_string(), tail.to_string()))
}

/// Subjects and delimiters that cover the corners: empty texts, delimiters at
/// the ends, neighbours, overlaps, and characters of more than one byte.
const CASES: [(&str, &str); 24] = [
    ("head-tail", "-"),
    ("a-b-c", "-"),
    ("abc", "-"),
    ("", "-"),
    ("", ""),
    ("abc", ""),
    ("-", "-"),
    ("--", "-"),
    ("-a-", "-"),
    ("a--b", "-"),
    ("a--b", "--"),
    ("aaa", "aa"),
    ("aaaa", "aa"),
    ("aaaaa", "aa"),
    ("abab", "aba"),
    ("ab", "abc"),
    ("abc", "abc"),
    ("1.2.3", "."),
    ("a::b::c", "::"),
    ("a:b::c", "::"),
    ("héllo→wörld→", "→"),
    ("日本語", ""),
    ("日本語", "本"),
    ("x\ny\n", "\n"),
];

#[test]
fn split_text_agrees_with_std() {
    for (subject, delimiter) in CASES {
        let expected: Vec<String> = subject.split(delimiter).map(String::from).collect();
        assert_eq!(split_text(subject, delimiter), expected, "{subject:?} on {delimiter:?}");
    }
}

#[test]
fn split_text_once_agrees_with_std() {
    for (subject, delimiter) in CASES {
        let expected = subject
            .split_once(delimiter)
            .map(|(head, tail)| (head.to_string(), tail.to_string()));
        assert_eq!(split_text_once(subject, delimiter), expected, "{subject:?} on {delimiter:?}");
    }
}

#[test]
fn text_contains_agrees_with_std() {
    for (subject, delimiter) in CASES {
        assert_eq!(
            text_contains(subject, delimiter),
            subject.contains(delimiter),
            "{subject:?} on {delimiter:?}"
        );
    }
}

#[test]
fn segments_join_back_to_the_subject() {
    for (subject, delimiter) in CASES {
        assert_eq!(split_text(subject, delimiter).join(delimiter), subject);
    }
}

#[test]
fn halves_join_back_to_the_subject() {
    for (subject, delimiter) in CASES {
        if let Some((head, tail)) = split_text_once(subject, delimiter) {
            assert_eq!(format!("{head}{delimiter}{tail}"), subject);
            assert!(delimiter.is_empty() || !head.contains(delimiter));
        }
    }
}

#[test]
fn at_least_two_segments_exactly_where_contained() {
    for (subject, delimiter) in CASES {
        let parts = split_text(subject, delimiter);
        assert_eq!(parts.len() >= 2, text_contains(subject, delimiter));
        assert_eq!(split_text_once(subject, delimiter).is_some(), parts.len() >= 2);
    }
}

#[test]
fn no_segment_holds_the_delimiter() {
    for (subject, delimiter) in CASES {
        if !delimiter.is_empty() {
            for part in split_text(subject, delimiter) {
                assert!(!text_contains(&part, delimiter));
            }
        }
    }
}

#[test]
fn first_segment_is_the_head() {
    for (subject, delimiter) in CASES {
        if let Some((head, tail)) = split_text_once(subject, delimiter) {
            if !delimiter.is_empty() {
                let mut expected = vec![head];
                expected.extend(split_text(&tail, delimiter));
                assert_eq!(split_text(subject, delimiter), expected);
            }
        }
    }
}

#[test]
fn empty_delimiter_splits_between_all_characters() {
    assert_eq!(split_text("rust", ""), strings(&["", "r", "u", "s", "t", ""]));
    assert_eq!(split_text("", ""), strings(&["", ""]));
    assert_eq!(split_text_once("rust", ""), pair("", "rust"));
    assert!(text_contains("", ""));
}

#[test]
fn neighbouring_delimiters_leave_empty_segments() {
    assert_eq!(split_text("a--b", "-"), strings(&["a", "", "b"]));
    assert_eq!(split_text("-a-", "-"), strings(&["", "a", ""]));
    assert_eq!(split_text("--", "-"), strings(&["", "", ""]));
}

#[test]
fn matches_do_not_overlap() {
    assert_eq!(split_text("aaa", "aa"), strings(&["", "a"]));
    assert_eq!(split_text("aaaa", "aa"), strings(&["", "", ""]));
    assert_eq!(split_text("abab", "aba"), strings(&["", "b"]));
    assert_eq!(split_text_once("aaa", "aa"), pair("", "a"));
}

#[test]
fn subject_without_delimiter_is_one_segment() {
    assert_eq!(split_text("abc", "-"), strings(&["abc"]));
    assert_eq!(split_text("", "-"), strings(&[""]));
    assert_eq!(split_text_once("abc", "-"), None);
    assert!(!text_contains("ab", "abc"));
}

#[test]
fn subject_equal_to_delimiter() {
    assert_eq!(split_text("abc", "abc"), strings(&["", ""]));
    assert_eq!(split_text_once("abc", "abc"), pair("", ""));
}

#[test]
fn characters_of_several_bytes() {
    assert_eq!(split_text("héllo→wörld→", "→"), strings(&["héllo", "wörld", ""]));
    assert_eq!(split_text("日本語", ""), strings(&["", "日", "本", "語", ""]));
    assert_eq!(split_text_once("日本語", "本"), pair("日", "語"));
}
