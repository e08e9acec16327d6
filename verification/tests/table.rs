use keycloak_openapi_transformer::table::{cell, label_row, parse_table_rows, Cell};
use keycloak_openapi_transformer::text::{
    chars_eq, ends_with, find_in, from_chars, join_chars, split_on, split_whitespace,
    starts_with, to_chars, trimmed,
};

fn strings(items: &[&str]) -> Vec<String> {
    items.iter().map(|s| s.to_string()).collect()
}

fn labelled(heading: &str, value: &str) -> Cell {
    Cell { heading: heading.to_string(), value: value.to_string() }
}

fn chars(text: &str) -> Vec<char> {
    text.chars().collect()
}

#[test]
fn cells_stand_under_their_headings() {
    let rows = parse_table_rows(
        &strings(&["Type", "Name", "Schema"]),
        &vec![
            strings(&["Path", "realm", "string"]),
            strings(&["Query", "first"]),
            strings(&["Body", "rep", "Foo", "too many"]),
        ],
    );
    assert_eq!(
        rows,
        vec![
            vec![labelled("Type", "Path"), labelled("Name", "realm"), labelled("Schema", "string")],
            vec![labelled("Type", "Query"), labelled("Name", "first")],
            vec![labelled("Type", "Body"), labelled("Name", "rep"), labelled("Schema", "Foo")],
        ]
    );
    assert_eq!(cell(&rows[0], "Name"), Some("realm".to_string()));
    assert_eq!(cell(&rows[1], "Schema"), None);
}

#[test]
fn the_last_cell_under_a_heading_counts() {
    let row = label_row(&strings(&["A", "B", "A"]), &strings(&["1", "2", "3"]));
    assert_eq!(cell(&row, "A"), Some("3".to_string()));
    assert_eq!(cell(&row, "B"), Some("2".to_string()));
    assert_eq!(cell(&row, "C"), None);
    assert_eq!(cell(&vec![], "A"), None);
}

#[test]
fn characters_round_trip() {
    let text = "a\u{e9}\u{1f600} {id}";
    assert_eq!(to_chars(text), chars(text));
    assert_eq!(from_chars(&to_chars(text)), text);
    assert_ne!(from_chars(&chars("ab")), "a");
}

#[test]
fn prefixes_suffixes_and_occurrences() {
    let text = chars("{id}/x/{id}");
    assert!(starts_with(&text, &chars("{id}")));
    assert!(ends_with(&text, &chars("/{id}")));
    assert!(!starts_with(&text, &chars("/{id}")));
    assert!(starts_with(&text, &[]));
    assert!(chars_eq(&text, &chars("{id}/x/{id}")));
    assert!(!chars_eq(&text, &chars("{id}/x/{id")));
    assert_eq!(find_in(&text, &chars("{id}")), Some(0));
    assert_eq!(find_in(&text, &chars("/{")), Some(6));
    assert_eq!(find_in(&text, &chars("y")), None);
    assert_eq!(find_in(&text, &[]), Some(0));
    assert_eq!(find_in(&chars("ab"), &chars("abc")), None);
}

#[test]
fn splitting_agrees_with_the_standard_library() {
    for (text, separator) in [
        ("a, b, c", ", "),
        (", a, ", ", "),
        ("", ", "),
        ("aaa", "aa"),
        ("{id}{id}", "{id}"),
        ("/a//b/", "/"),
        ("no separator", "\n"),
    ] {
        let expected: Vec<Vec<char>> = text.split(separator).map(chars).collect();
        assert_eq!(split_on(&chars(text), &chars(separator)), expected);
    }
    assert_eq!(
        join_chars(&vec![chars("a"), chars(""), chars("b")], &chars("_by_")),
        chars("a_by__by_b")
    );
    assert_eq!(join_chars(&vec![], &chars("_")), chars(""));
}

#[test]
fn white_space_is_what_the_standard_library_says() {
    for text in ["  a b  ", "\u{a0}x\u{2003}", "\t\n", "", "a", " a\u{85}b c\r\n"] {
        assert_eq!(trimmed(&chars(text)), chars(text.trim()).as_slice());
        let expected: Vec<Vec<char>> = text.split_whitespace().map(chars).collect();
        assert_eq!(split_whitespace(&chars(text)), expected);
    }
}
