use keycloak_openapi_transformer::paths::verb_path::VerbPath;

fn header(verb: &str, path: &str) -> VerbPath {
    VerbPath::new(verb.to_string(), path.to_string())
}

#[test]
fn wildcard_path_is_unrepresentable() {
    assert!(header("GET", "/{any}").unrepresentable());
    assert!(!header("GET", "/{any}/").unrepresentable());
    assert!(!header("GET", "/").unrepresentable());
    assert!(!header("GET", "/{realm}").unrepresentable());
}

#[test]
fn repeated_ids_are_counted() {
    assert_eq!(header("GET", "/{realm}/clients").repeating_ids(), None);
    assert_eq!(header("GET", "/{realm}/clients/{id}").repeating_ids(), None);
    assert_eq!(
        header("GET", "/{realm}/clients/{id}/protocol-mappers/models/{id}").repeating_ids(),
        Some(2)
    );
    assert_eq!(header("GET", "/{id}/{id}/{id}").repeating_ids(), Some(3));
    assert_eq!(header("GET", "/{id1}/{id2}").repeating_ids(), None);
}

#[test]
fn canonical_path_numbers_repeated_ids() {
    assert_eq!(header("GET", "/").path(), "/");
    assert_eq!(header("GET", "/{realm}/users/{id}").path(), "/{realm}/users/{id}");
    assert_eq!(
        header("GET", "/{realm}/clients/{id}/protocol-mappers/models/{id}").path(),
        "/{realm}/clients/{id1}/protocol-mappers/models/{id2}"
    );
    assert_eq!(header("GET", "{id}{id}").path(), "{id1}{id2}");
}

#[test]
fn canonical_path_counts_in_decimal() {
    let raw = "/{id}".repeat(11);
    let expected: String = (1..=11).map(|i| format!("/{{id{}}}", i)).collect();
    assert_eq!(header("GET", &raw).path(), expected);
}

#[test]
fn header_lines_are_read_by_words() {
    let parsed = VerbPath::parse("GET /{realm}/users").unwrap();
    assert_eq!(parsed.verb, "GET");
    assert_eq!(parsed.path(), "/{realm}/users");
    let spaced = VerbPath::parse("  DELETE \t\n /{realm}   trailing words").unwrap();
    assert_eq!(spaced.verb(), "DELETE");
    assert_eq!(spaced.raw(), "/{realm}");
    assert_eq!(VerbPath::parse("GET"), None);
    assert_eq!(VerbPath::parse("   "), None);
    assert_eq!(VerbPath::parse(""), None);
}

#[test]
fn header_lines_parse_through_from_str() {
    let parsed: VerbPath = "PUT /{realm}/users/{id}".parse().unwrap();
    assert_eq!(parsed, header("PUT", "/{realm}/users/{id}"));
    assert_eq!("PUT".parse::<VerbPath>(), Err(()));
}

#[test]
fn duplicate_keeps_both_texts() {
    let first = header("POST", "/{realm}/groups/{id}/children");
    assert_eq!(first.duplicate(), first);
}
