use keycloak_openapi_transformer::info::TransformError;
use keycloak_openapi_transformer::paths::parameters::ParameterRow;
use keycloak_openapi_transformer::paths::verb_path::VerbPath;
use keycloak_openapi_transformer::paths::{
    document_census, paths, reading_order, OperationEntry, PathItem, Paths, Section,
};

fn path_row(name: &str) -> ParameterRow {
    ParameterRow {
        location: "Path".to_string(),
        name: name.to_string(),
        required: true,
        description: Some(format!("the {}", name)),
        raw_schema: "string".to_string(),
    }
}

fn section(tag: &str, verb: &str, path: &str, params: &[&str]) -> Section {
    Section {
        tag: tag.to_string(),
        verb_path: VerbPath::new(verb.to_string(), path.to_string()),
        rows: params.iter().map(|name| path_row(name)).collect(),
    }
}

fn entry(section: usize, operation_id: &str, tag: &str) -> Option<OperationEntry> {
    Some(OperationEntry {
        section,
        operation_id: operation_id.to_string(),
        tag: tag.to_string(),
    })
}

fn get_path<'a>(found: &'a Paths, path: &str) -> &'a PathItem {
    match found.items.iter().find(|item| item.path == path) {
        Some(item) => item,
        None => panic!("Couldn't extract path"),
    }
}

fn document() -> Vec<Section> {
    vec![
        section("Realms Admin", "DELETE", "/{realm}", &["realm"]),
        section("Realms Admin", "GET", "/{any}", &[]),
        section("Groups", "GET", "/{realm}/groups/{id}/role-mappings", &["id", "realm"]),
        section("Groups", "POST", "/{realm}/groups/{id}/children", &["realm", "id"]),
        section("Users", "PUT", "/{realm}/users/{id}", &["realm", "id"]),
        section("Users", "GET", "/{realm}/users/{id}", &["id"]),
        section("Users", "PUT", "/{realm}/users/{id}", &[]),
        section("Root", "GET", "/", &[]),
    ]
}

#[test]
fn correctly_parses_simple_delete_case() {
    let found = paths(&document()).unwrap();
    let path_item = get_path(&found, "/{realm}");
    assert_eq!(path_item.delete, entry(0, "deleteByRealm", "Realms Admin"));
    assert_eq!(path_item.get, None);
    assert_eq!(path_item.parameters.len(), 1);
    assert_eq!(path_item.parameters[0].name, "realm");
}

#[test]
fn correctly_parses_the_get_case() {
    let found = paths(&document()).unwrap();
    let path_item = get_path(&found, "/{realm}/groups/{id}/role-mappings");
    assert_eq!(path_item.get, entry(2, "getRoleMappings", "Groups"));
    let names: Vec<&str> = path_item.parameters.iter().map(|p| p.name.as_str()).collect();
    assert_eq!(names, vec!["realm", "id"]);
}

#[test]
fn does_not_parse_the_any_path() {
    let found = paths(&document()).unwrap();
    assert!(!found.items.iter().any(|item| item.path == "/{any}"));
    let only = paths(&vec![section("T", "BREW", "/{any}", &["x"])]).unwrap();
    assert_eq!(only, Paths { items: vec![], tags: vec![] });
}

#[test]
fn correctly_parses_the_post_case() {
    let found = paths(&document()).unwrap();
    let path_item = get_path(&found, "/{realm}/groups/{id}/children");
    assert_eq!(path_item.post, entry(3, "postChildren", "Groups"));
}

#[test]
fn correctly_parses_the_put_case() {
    let found = paths(&document()).unwrap();
    let path_item = get_path(&found, "/{realm}/users/{id}");
    assert_eq!(path_item.put, entry(4, "putUserByRealmById", "Users"));
    assert_eq!(path_item.get, entry(5, "getUser", "Users"));
    let names: Vec<&str> = path_item.parameters.iter().map(|p| p.name.as_str()).collect();
    assert_eq!(names, vec!["realm", "id"]);
}

#[test]
fn paths_are_sorted_and_tags_stand_in_order_of_first_occurrence() {
    let found = paths(&document()).unwrap();
    let keys: Vec<&str> = found.items.iter().map(|item| item.path.as_str()).collect();
    assert_eq!(
        keys,
        vec![
            "/",
            "/{realm}",
            "/{realm}/groups/{id}/children",
            "/{realm}/groups/{id}/role-mappings",
            "/{realm}/users/{id}",
        ]
    );
    assert_eq!(found.tags, vec!["Realms Admin", "Groups", "Users", "Root"]);
    assert_eq!(get_path(&found, "/").parameters, vec![]);
    assert_eq!(get_path(&found, "/").get, entry(7, "get", "Root"));
}

#[test]
fn paths_are_sorted_by_the_numbers_of_their_characters() {
    let found = paths(&vec![
        section("T", "GET", "/b", &[]),
        section("T", "GET", "/\u{e9}", &[]),
        section("T", "GET", "/B", &[]),
        section("T", "GET", "/a/x", &[]),
        section("T", "GET", "/a", &[]),
        section("T", "POST", "/b", &[]),
    ])
    .unwrap();
    let keys: Vec<&str> = found.items.iter().map(|item| item.path.as_str()).collect();
    assert_eq!(keys, vec!["/B", "/a", "/a/x", "/b", "/\u{e9}"]);
    assert_eq!(found.items[3].get, entry(0, "getBBy", "T"));
    assert_eq!(found.items[3].post, entry(5, "postB", "T"));
    assert_eq!(found.items[0].get, entry(2, "getBBy", "T"));
}

#[test]
fn the_census_covers_every_section() {
    let counted = document_census(&document());
    assert_eq!(counted.count("putUser"), 2);
    assert_eq!(counted.count("putUserByRealmById"), 2);
    assert_eq!(counted.count("getUser"), 1);
    assert_eq!(counted.count("getByAny"), 0);
}

#[test]
fn the_first_failing_section_decides_the_error() {
    let unsupported = vec![
        section("A", "GET", "/a", &[]),
        section("A", "HEAD", "/a", &["ignored"]),
        section("A", "GET", "/b", &["missing"]),
    ];
    assert_eq!(
        paths(&unsupported),
        Err(TransformError::UnsupportedVerb("HEAD".to_string()))
    );
    let unmatched = vec![
        section("A", "GET", "/a", &[]),
        section("A", "HEAD", "/b", &["missing"]),
    ];
    assert_eq!(
        paths(&unmatched),
        Err(TransformError::UnmatchedPathParameter {
            verb: "HEAD".to_string(),
            path: "/b".to_string(),
            name: "missing".to_string(),
        })
    );
}

#[test]
fn repeated_ids_key_the_canonical_path() {
    let found = paths(&vec![section(
        "Clients",
        "GET",
        "/{realm}/clients/{id}/protocol-mappers/models/{id}",
        &["id", "realm"],
    )])
    .unwrap();
    assert_eq!(found.items.len(), 1);
    assert_eq!(found.items[0].path, "/{realm}/clients/{id1}/protocol-mappers/models/{id2}");
    assert_eq!(found.items[0].get, entry(0, "getModel", "Clients"));
    let names: Vec<&str> = found.items[0].parameters.iter().map(|p| p.name.as_str()).collect();
    assert_eq!(names, vec!["realm", "id1", "id2"]);
}

#[test]
fn sections_are_read_backwards_within_their_group() {
    assert_eq!(
        reading_order(vec![vec![1, 2, 3], vec![], vec![4, 5]]),
        vec![3, 2, 1, 5, 4]
    );
    assert_eq!(reading_order(Vec::<Vec<u8>>::new()), Vec::<u8>::new());
    let groups = vec![
        vec![
            section("Users", "GET", "/{realm}/users", &["realm"]),
            section("Users", "GET", "/{realm}/users", &[]),
        ],
    ];
    let found = paths(&reading_order(groups)).unwrap();
    assert_eq!(found.items[0].parameters, vec![]);
    assert_eq!(found.items[0].get, entry(0, "getUsersByRealm", "Users"));
}
