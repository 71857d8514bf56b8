use yaml_recfmt::text::{ends_line_at, occurs_at, push_all, replace_at_line_ends, to_chars};

fn chars(s: &str) -> Vec<char> {
    s.chars().collect()
}

fn replaced(text: &str, from: &str, to: &str) -> String {
    replace_at_line_ends(&chars(text), &chars(from), &chars(to)).iter().collect()
}

#[test]
fn to_chars_gives_the_characters_in_order() {
    assert_eq!(vec!['a', 'ß', '→', '\n'], to_chars("aß→\n"));
    assert!(to_chars("").is_empty());
}

#[test]
fn push_all_appends() {
    let mut out = chars("ab");
    push_all(&mut out, &chars("cd"));
    assert_eq!(chars("abcd"), out);
    push_all(&mut out, &chars(""));
    assert_eq!(chars("abcd"), out);
}

#[test]
fn occurs_at_tests_one_position() {
    let text = chars("abcabc");
    assert!(occurs_at(&text, 0, &chars("abc")));
    assert!(!occurs_at(&text, 1, &chars("abc")));
    assert!(occurs_at(&text, 3, &chars("abc")));
    assert!(!occurs_at(&text, 4, &chars("abc")));
    assert!(occurs_at(&text, 6, &chars("")));
    assert!(!occurs_at(&text, 6, &chars("a")));
    assert!(occurs_at(&text, 5, &chars("c")));
}

#[test]
fn ends_line_at_tests_one_position() {
    let text = chars("ab\nabc\nab");
    assert!(ends_line_at(&text, 0, &chars("ab")));
    assert!(!ends_line_at(&text, 3, &chars("ab")));
    assert!(ends_line_at(&text, 3, &chars("abc")));
    assert!(ends_line_at(&text, 7, &chars("ab")));
    assert!(!ends_line_at(&text, 7, &chars("a")));
    assert!(ends_line_at(&text, 9, &chars("")));
    assert!(!ends_line_at(&text, 1, &chars("a")));
}

#[test]
fn replace_at_line_ends_replaces_before_a_line_feed() {
    assert_eq!("foo: 'bar'\nbaz\nfoo: 'bar'\n", replaced("foo: bar\nbaz\nfoo: bar\n", "foo: bar", "foo: 'bar'"));
    assert_eq!("x: 'y'\n\n", replaced("x: y\n\n", "x: y", "x: 'y'"));
}

#[test]
fn replace_at_line_ends_replaces_at_the_end_of_the_text() {
    assert_eq!("a: 'b'", replaced("a: b", "a: b", "a: 'b'"));
    assert_eq!("a: b\na: 'b'", replaced("a: b\na: b", "a: b", "a: 'b'").replace("a: 'b'\n", "a: b\n"));
    assert_eq!("c\na: 'b'", replaced("c\na: b", "a: b", "a: 'b'"));
}

#[test]
fn replace_at_line_ends_leaves_what_ends_no_line() {
    assert_eq!("k: v2\n", replaced("k: v2\n", "k: v", "k: 'v'"));
    assert_eq!("k: v k: 'v'", replaced("k: v k: v", "k: v", "k: 'v'"));
    assert_eq!("abab", replaced("abab", "c", "x"));
    assert_eq!("", replaced("", "c", "x"));
}

#[test]
fn replace_at_line_ends_takes_places_from_the_left() {
    assert_eq!("aab", replaced("aaaa", "aa", "b"));
    assert_eq!("b\nb", replaced("aa\naa", "aa", "b"));
}

#[test]
fn replace_at_line_ends_does_not_search_what_it_put_in() {
    assert_eq!("aaa", replaced("aa", "a", "aa"));
    assert_eq!("a\na\n", replaced("a\n", "a", "a\na"));
}

#[test]
fn replace_at_line_ends_finds_an_empty_pattern_nowhere() {
    assert_eq!("ab\n", replaced("ab\n", "", "-"));
    assert_eq!("", replaced("", "", "x"));
}

#[test]
fn replace_at_line_ends_is_str_replace_with_the_line_feed() {
    let texts = ["", "a\n", "a: b\nc: d\na: b\n", "ß: →\nß: →→\n", "- x\n  - x\n"];
    let patterns = ["a", "a: b", "ß: →", "- x", "zzz"];
    let replacements = ["", "x", "a: 'b'", "→→"];
    for text in texts {
        for from in patterns {
            for to in replacements {
                let with_feed = text.replace(&format!("{from}\n"), &format!("{to}\n"));
                assert_eq!(with_feed, replaced(text, from, to));
            }
        }
    }
}
