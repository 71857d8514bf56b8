use yaml_recfmt::requote::{
    is_quote_mark, quote_zero_prefixed, requote, restore_quotes, sequence_elements,
};

#[test]
fn quoted_seq_values_are_captured() {
    let text = r#"
            - a
            - "b"
            - 'c'
        "#;
    let elements = sequence_elements(text);
    let mut caps = elements.iter();

    let caps1 = caps.next().unwrap();
    assert_eq!("\"", &caps1.lquote);
    assert_eq!("b", &caps1.value);
    assert_eq!("\"", &caps1.rquote);

    let caps2 = caps.next().unwrap();
    assert_eq!("\'", &caps2.lquote);
    assert_eq!("c", &caps2.value);
    assert_eq!("\'", &caps2.rquote);
}

#[test]
fn requote_requotes_all_values() {
    let original = r#"
            foo: foo
            bar: "bar"
            baz: 'baz'
            - 'test'
        "#;
    let unquoted = r#"
            foo: foo
            bar: bar
            baz: baz
            - test
        "#;
    let requoted = requote(original, unquoted);
    assert_eq!(original, requoted);
}

#[test]
fn quoted_map_entries_are_captured() {
    let text = r#"
            a: a
            b: "b"
            c: 'c'
        "#;
    let entries = yaml_recfmt::requote::map_entries(text);
    assert_eq!(2, entries.len());
    assert_eq!("b", &entries[0].key);
    assert_eq!("\"", &entries[0].lquote);
    assert_eq!("b", &entries[0].value);
    assert_eq!("\"", &entries[0].rquote);
    assert_eq!("c", &entries[1].key);
    assert_eq!("\'", &entries[1].lquote);
    assert_eq!("c", &entries[1].value);
    assert_eq!("\'", &entries[1].rquote);
}

#[test]
fn text_behind_the_closing_quote_hides_a_map_entry() {
    let text = r#"
            a: a .
            b: "b" .
            c: 'c'
        "#;
    let entries = yaml_recfmt::requote::map_entries(text);
    assert_eq!(1, entries.len());
    assert_eq!("c", &entries[0].key);
    assert_eq!("\'", &entries[0].lquote);
    assert_eq!("c", &entries[0].value);
    assert_eq!("\'", &entries[0].rquote);
}

#[test]
fn text_without_quotes_has_no_entries() {
    assert!(yaml_recfmt::requote::map_entries("foo: bar\n- baz\n").is_empty());
    assert!(sequence_elements("foo: bar\n- baz\n").is_empty());
    assert!(yaml_recfmt::requote::map_entries("").is_empty());
    assert!(sequence_elements("").is_empty());
}

fn groups(texts: &[Option<&str>]) -> Vec<Option<String>> {
    texts.iter().map(|text| text.map(|t| t.to_string())).collect()
}

#[test]
fn map_entries_come_from_groups_one_to_four() {
    let matches = vec![
        groups(&[Some("k: 'v'"), Some("k"), Some("'"), Some("v"), Some("'")]),
        groups(&[Some("x"), Some("k"), None, Some("v"), Some("'")]),
        groups(&[Some("x"), Some("k"), Some("'"), Some("v")]),
        groups(&[Some("l: \"w\""), Some("l"), Some("\""), Some("w"), Some("\""), Some("more")]),
    ];
    let entries = yaml_recfmt::requote::map_entries_from(&matches);
    assert_eq!(2, entries.len());
    assert_eq!("k", &entries[0].key);
    assert_eq!("'", &entries[0].lquote);
    assert_eq!("v", &entries[0].value);
    assert_eq!("'", &entries[0].rquote);
    assert_eq!("l", &entries[1].key);
    assert_eq!("\"", &entries[1].lquote);
    assert_eq!("w", &entries[1].value);
    assert_eq!("\"", &entries[1].rquote);
}

#[test]
fn sequence_elements_come_from_groups_one_to_three() {
    let matches = vec![
        groups(&[Some("- 'v'"), Some("'"), Some("v"), Some("'")]),
        groups(&[Some("x"), Some("'"), None, Some("'")]),
        groups(&[Some("x"), Some("'"), Some("v")]),
        groups(&[]),
    ];
    let elements = yaml_recfmt::requote::sequence_elements_from(&matches);
    assert_eq!(1, elements.len());
    assert_eq!("'", &elements[0].lquote);
    assert_eq!("v", &elements[0].value);
    assert_eq!("'", &elements[0].rquote);
}

#[test]
fn entry_lines_are_built_from_the_parts() {
    let entry = yaml_recfmt::requote::MapEntry {
        key: "bar".to_string(),
        lquote: "\"".to_string(),
        value: "baz".to_string(),
        rquote: "'".to_string(),
    };
    assert_eq!("bar: baz", entry.plain().iter().collect::<String>());
    assert_eq!("bar: \"baz'", entry.quoted().iter().collect::<String>());
    let element = yaml_recfmt::requote::SequenceElement {
        lquote: "'".to_string(),
        value: "baz".to_string(),
        rquote: "\"".to_string(),
    };
    assert_eq!("- baz", element.plain().iter().collect::<String>());
    assert_eq!("- 'baz\"", element.quoted().iter().collect::<String>());
}

#[test]
fn entries_are_put_back_in_their_order() {
    let entries = vec![
        yaml_recfmt::requote::MapEntry {
            key: "a".to_string(),
            lquote: "'".to_string(),
            value: "1".to_string(),
            rquote: "'".to_string(),
        },
        yaml_recfmt::requote::MapEntry {
            key: "a".to_string(),
            lquote: "\"".to_string(),
            value: "1".to_string(),
            rquote: "\"".to_string(),
        },
    ];
    let requoted = yaml_recfmt::requote::requote_with_map_entries(&entries, "a: 1\nb: 2\na: 1\n");
    assert_eq!("a: '1'\nb: 2\na: '1'\n", requoted);
    let none: Vec<yaml_recfmt::requote::MapEntry> = Vec::new();
    assert_eq!("a: 1\n", yaml_recfmt::requote::requote_with_map_entries(&none, "a: 1\n"));
}

#[test]
fn elements_are_put_back_in_their_order() {
    let elements = vec![yaml_recfmt::requote::SequenceElement {
        lquote: "'".to_string(),
        value: "x".to_string(),
        rquote: "'".to_string(),
    }];
    let requoted =
        yaml_recfmt::requote::requote_with_sequence_elements(&elements, "- x\n- y\n  - x\n- x");
    assert_eq!("- 'x'\n- y\n  - 'x'\n- 'x'", requoted);
}

#[test]
fn explicitly_quoted_value_keeps_its_quotes() {
    let original = "foo: bar\nbar: \"bar\"\n";
    let unquoted = "foo: bar\nbar: bar\n";
    assert_eq!("foo: bar\nbar: \"bar\"\n", requote(original, unquoted));
}

#[test]
fn value_that_was_not_quoted_gains_no_quotes() {
    let original = "foo: bar\nbaz:\n- qux\n";
    assert_eq!(original, requote(original, original));
}

#[test]
fn quoted_sequence_element_keeps_its_quotes() {
    let original = "- '123'\n- 456\n";
    let unquoted = "- 123\n- 456\n";
    assert_eq!("- '123'\n- 456\n", requote(original, unquoted));
}

#[test]
fn requote_map_entries_leaves_sequence_elements() {
    let original = "a: 'x'\n- 'x'\n";
    let unquoted = "a: x\n- x\n";
    assert_eq!("a: 'x'\n- x\n", yaml_recfmt::requote::requote_map_entries(original, unquoted));
    assert_eq!("a: x\n- 'x'\n", yaml_recfmt::requote::requote_sequence_elements(original, unquoted));
    assert_eq!("a: 'x'\n- 'x'\n", requote(original, unquoted));
}

#[test]
fn last_line_without_line_feed_is_requoted() {
    assert_eq!("a: 'x'", requote("a: 'x'\n", "a: x"));
    assert_eq!("a: 'b'", requote("a: 'b'", "a: b"));
    assert_eq!("- 'b'", requote("- 'b'", "- b"));
}

#[test]
fn entry_with_more_text_behind_it_is_left() {
    assert_eq!("k: v2\n", requote("k: 'v'\n", "k: v2\n"));
    assert_eq!("k: v 2\nk: 'v'\n", requote("k: 'v'\n", "k: v 2\nk: v\n"));
    assert_eq!("- v2\n- 'v'", requote("- 'v'\n", "- v2\n- v"));
}

#[test]
fn requote_quotes_zero_prefixed_numbers_that_were_bare() {
    assert_eq!("baz: '0123'\n", requote("baz: 0123\n", "baz: 0123\n"));
    assert_eq!("- '007'\n", requote("", "- 007\n"));
}

#[test]
fn restore_quotes_leaves_zero_prefixed_numbers() {
    assert_eq!("a: 'x'\nb: 012\n", restore_quotes("a: 'x'\n", "a: x\nb: 012\n"));
    assert_eq!("a: 'x'\nb: '012'\n", requote("a: 'x'\n", "a: x\nb: 012\n"));
}

#[test]
fn requote_quotes_every_occurrence_of_a_quoted_line() {
    let original = r#"
            foo:
                foo: test
            bar:
                foo: 'test'
        "#;
    let unquoted = r#"
            foo:
                foo: test
            bar:
                foo: test
        "#;
    let expected = r#"
            foo:
                foo: 'test'
            bar:
                foo: 'test'
        "#;
    let requoted = requote(original, unquoted);
    assert_eq!(expected, requoted);
    assert_ne!(original, requoted);
}

#[test]
fn zero_prefixed_numbers_are_quoted() {
    assert_eq!("foo: '0123'\n", quote_zero_prefixed("foo: 0123\n"));
    assert_eq!("- '0123'\n", quote_zero_prefixed("- 0123\n"));
    assert_eq!("foo:   '00'", quote_zero_prefixed("foo:   00"));
    assert_eq!("a: '01'\nb: '02'\n", quote_zero_prefixed("a: 01\nb: 02\n"));
}

#[test]
fn other_numbers_are_not_quoted() {
    assert_eq!("foo: 123\n", quote_zero_prefixed("foo: 123\n"));
    assert_eq!("foo: 0\n", quote_zero_prefixed("foo: 0\n"));
    assert_eq!("foo: 00 003 821\n", quote_zero_prefixed("foo: 00 003 821\n"));
    assert_eq!("foo: '0123'\n", quote_zero_prefixed("foo: '0123'\n"));
    assert_eq!("foo: 0123 # id\n", quote_zero_prefixed("foo: 0123 # id\n"));
    assert_eq!("", quote_zero_prefixed(""));
}

#[test]
fn requote_restores_quotes_and_quotes_zero_prefixed_numbers() {
    let original = "a: \"x\"\nb: 012\nc: \"034\"\n- 'y'\n";
    let reformatted = "a: x\nb: 012\nc: 034\n- y\n";
    assert_eq!("a: \"x\"\nb: '012'\nc: \"034\"\n- 'y'\n", requote(original, reformatted));
}

#[test]
fn patterns_have_their_text() {
    assert_eq!(r#"(?m)^\s*(.*):\s*(['"])(.*)(['"])\s*$"#, yaml_recfmt::requote::QUOTED_MAP);
    assert_eq!(r#"(?m)^\s*-\s*(['"])(.*)(['"])\s*$"#, yaml_recfmt::requote::QUOTED_SEQ);
    assert_eq!(r#"(?m)([:-])(\s*)(0\d+)$"#, yaml_recfmt::requote::ZERO_PREFIXED_NUMBERS);
    assert_eq!("$1$2'$3'", yaml_recfmt::requote::QUOTED_ZERO_PREFIXED);
}

#[test]
fn quote_marks_are_told_from_other_text() {
    assert!(is_quote_mark("'"));
    assert!(is_quote_mark("\""));
    assert!(!is_quote_mark(""));
    assert!(!is_quote_mark("''"));
    assert!(!is_quote_mark("`"));
    assert!(!is_quote_mark("a"));
}

#[test]
fn groups_without_quote_marks_describe_nothing() {
    let matches = vec![
        groups(&[Some("k: |v|"), Some("k"), Some("|"), Some("v"), Some("|")]),
        groups(&[Some("k: 'v"), Some("k"), Some("'"), Some("v"), Some("")]),
        groups(&[Some("k: 'v'"), Some("k"), Some("'"), Some("v"), Some("\"")]),
    ];
    let entries = yaml_recfmt::requote::map_entries_from(&matches);
    assert_eq!(1, entries.len());
    assert_eq!("\"", &entries[0].rquote);
    let matches = vec![
        groups(&[Some("- |v|"), Some("|"), Some("v"), Some("|")]),
        groups(&[Some("- ''v'"), Some("''"), Some("v"), Some("'")]),
        groups(&[Some("- \"v'"), Some("\""), Some("v"), Some("'")]),
    ];
    let elements = yaml_recfmt::requote::sequence_elements_from(&matches);
    assert_eq!(1, elements.len());
    assert_eq!("\"", &elements[0].lquote);
}

#[test]
fn text_without_quote_characters_restores_nothing() {
    let original = "foo: bar\n- baz\nqux:   1\n";
    let unquoted = "foo: bar\n- baz\nqux: 1\nnum: 012\n";
    assert_eq!(unquoted, restore_quotes(original, unquoted));
    assert_eq!(unquoted, yaml_recfmt::requote::requote_map_entries(original, unquoted));
    assert_eq!(unquoted, yaml_recfmt::requote::requote_sequence_elements(original, unquoted));
    assert_eq!("foo: bar\n- baz\nqux: 1\nnum: '012'\n", requote(original, unquoted));
}
