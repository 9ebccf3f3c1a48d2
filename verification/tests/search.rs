use poe_screenshot::search::{contains_bytes, find_last};

#[test]
fn finds_the_last_of_several() {
    assert_eq!(find_last(b"a(#1)(#2)", b"(#"), Some(5));
    assert_eq!(find_last(b"abcabc", b"abc"), Some(3));
    assert_eq!(find_last(b"aaaa", b"aa"), Some(2));
}

#[test]
fn finds_at_either_end() {
    assert_eq!(find_last(b"abc", b"a"), Some(0));
    assert_eq!(find_last(b"abc", b"c"), Some(2));
    assert_eq!(find_last(b"abc", b"abc"), Some(0));
}

#[test]
fn finds_nothing_that_is_absent() {
    assert_eq!(find_last(b"abc", b"d"), None);
    assert_eq!(find_last(b"abc", b"abcd"), None);
    assert_eq!(find_last(b"", b"a"), None);
    assert_eq!(find_last(b"(x#", b"(#"), None);
}

#[test]
fn the_empty_needle_stands_at_the_end() {
    assert_eq!(find_last(b"abc", b""), Some(3));
    assert_eq!(find_last(b"", b""), Some(0));
}

#[test]
fn contains_what_it_finds() {
    assert!(contains_bytes(b"  adapter_name=x", b"adapter_name"));
    assert!(contains_bytes(b"adapter_name", b"adapter_name"));
    assert!(!contains_bytes(b"adapter-name", b"adapter_name"));
    assert!(!contains_bytes(b"adapter_nam", b"adapter_name"));
    assert!(contains_bytes(b"", b""));
}

#[test]
fn agrees_with_std_on_text() {
    let hays = ["", "a", "ab", "abab", "(#(#))", "x)y)z", "adapter_name(#1)", "))((##"];
    let needles = ["", "a", "b", "ab", "(#", ")", "adapter_name", "#("];
    for hay in hays {
        for needle in needles {
            assert_eq!(
                find_last(hay.as_bytes(), needle.as_bytes()),
                hay.rfind(needle),
                "{:?} in {:?}",
                needle,
                hay
            );
            assert_eq!(
                contains_bytes(hay.as_bytes(), needle.as_bytes()),
                hay.contains(needle),
                "{:?} in {:?}",
                needle,
                hay
            );
        }
    }
}
