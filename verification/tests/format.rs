use yaml_recfmt::format::format_recursive;

#[test]
fn format_does_not_change_normal_yaml() {
    let input = r#"foo: bar
"#;
    let expected = format_recursive(input).unwrap();
    assert_eq!(input, expected)
}

#[test]
fn format_unnecessary_whitespace_is_removed() {
    let input = r#"foo:    bar
"#;
    let expected = r#"foo: bar
"#;
    let output = format_recursive(input).unwrap();
    assert_eq!(expected, output)
}

#[test]
fn format_mapping_fields_are_deindented() {
    let input = r#"foo:
        bar: 123
        baz: 345
"#;
    let expected = r#"foo:
  bar: 123
  baz: 345
"#;
    let output = format_recursive(input).unwrap();
    assert_eq!(expected, output)
}

#[test]
fn format_nested_yaml_gets_formatted() {
    let input = r#"foo: |
    bar:
        baz: 345
"#;
    let expected = r#"foo: |
  bar:
    baz: 345
"#;
    let output = format_recursive(input).unwrap();
    assert_eq!(expected, output)
}

#[test]
fn format_sequences_are_formatted() {
    let input = r#"sequence: |
            - foo: 1
              bar:
              - a
              - b
            - foo: 3
              bar: 4
"#;
    let expected = r#"sequence: |
  - foo: 1
    bar:
    - a
    - b
  - foo: 3
    bar: 4
"#;
    let output = format_recursive(input).unwrap();
    assert_eq!(expected, output)
}

#[test]
fn format_quotes_are_kept_if_zero_prefix() {
    let input = r#"foo:
  bar: '123'
  baz: '0123'
"#;
    let expected = r#"foo:
  bar: '123'
  baz: '0123'
"#;
    let output = format_recursive(input).unwrap();
    assert_eq!(expected, output)
}

#[test]
fn format_quotes_are_kept_if_zero_prefix_when_nested() {
    let input = r#"foo: |
  bar: '123'
  baz: '0123'
"#;
    let expected = r#"foo: |
  bar: '123'
  baz: '0123'
"#;
    let output = format_recursive(input).unwrap();
    assert_eq!(expected, output)
}

#[test]
fn format_quotes_are_kept_if_zero_prefix_in_sequence() {
    let input = r#"foo:
  - '123'
  - '0123'
"#;
    let expected = r#"foo:
- '123'
- '0123'
"#;
    let output = format_recursive(input).unwrap();
    assert_eq!(expected, output)
}

#[test]
fn infix_zero_prefixed_numbers_are_not_changed() {
    let input = r#"foo: 00 003 821"#;
    let expected = r#"foo: 00 003 821
"#;
    let output = format_recursive(input).unwrap();
    assert_eq!(expected, output)
}

