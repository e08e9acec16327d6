use keycloak_openapi_transformer::components::schemas::{
    item_type, parse_schema, parse_schemas, parse_type, NamedSchema, ObjectSchema, PrimitiveKind,
    Property, PropertyRow, SchemaSection, TypeNode,
};

fn primitive(kind: PrimitiveKind) -> TypeNode {
    TypeNode::Primitive { kind }
}

fn array(items: TypeNode, unique: bool) -> TypeNode {
    TypeNode::Array { items: Box::new(items), unique }
}

fn reference(name: &str) -> TypeNode {
    TypeNode::Reference { name: name.to_string() }
}

fn row(name: &str, raw_type: &str) -> PropertyRow {
    PropertyRow { name: name.to_string(), raw_type: raw_type.to_string() }
}

fn property(name: &str, schema: TypeNode) -> Property {
    Property { name: name.to_string(), schema }
}

fn schema_of(title: &str, rows: Vec<PropertyRow>) -> ObjectSchema {
    let mut found = parse_schemas(&vec![SchemaSection { title: title.to_string(), rows }]);
    assert_eq!(found.len(), 1);
    let NamedSchema { name, schema } = found.remove(0);
    assert_eq!(name, title);
    schema
}

#[test]
fn literal_names_denote_primitives() {
    assert_eq!(item_type("Integer"), Some(primitive(PrimitiveKind::Int32)));
    assert_eq!(item_type("integer(int32)"), Some(primitive(PrimitiveKind::Int32)));
    assert_eq!(item_type("Long"), Some(primitive(PrimitiveKind::Int64)));
    assert_eq!(item_type("integer(int64)"), Some(primitive(PrimitiveKind::Int64)));
    assert_eq!(item_type("Boolean"), Some(primitive(PrimitiveKind::Boolean)));
    assert_eq!(item_type("boolean"), Some(primitive(PrimitiveKind::Boolean)));
    assert_eq!(item_type("Object"), Some(primitive(PrimitiveKind::Object)));
    assert_eq!(item_type("string"), Some(primitive(PrimitiveKind::String)));
    assert_eq!(item_type("String"), Some(primitive(PrimitiveKind::String)));
    assert_eq!(item_type("gibberish"), None);
}

#[test]
fn literal_names_are_case_sensitive() {
    assert_eq!(item_type("integer"), None);
    assert_eq!(item_type("long"), None);
    assert_eq!(item_type("object"), None);
    assert_eq!(item_type(" Integer"), None);
    assert_eq!(item_type(""), None);
}

#[test]
fn streams_and_bare_lists_are_arrays() {
    assert_eq!(item_type("Stream"), Some(array(TypeNode::Mapping, false)));
    assert_eq!(item_type("InputStream"), Some(array(TypeNode::Mapping, false)));
    assert_eq!(item_type("List"), Some(array(primitive(PrimitiveKind::Object), false)));
}

#[test]
fn list_and_set_forms() {
    assert_eq!(
        item_type("List  of Integer"),
        Some(array(primitive(PrimitiveKind::Int32), false))
    );
    assert_eq!(
        item_type("Set  of String"),
        Some(array(primitive(PrimitiveKind::String), true))
    );
    assert_eq!(item_type("List of Integer"), None);
    assert_eq!(
        item_type("List  of List  of Long"),
        Some(array(array(primitive(PrimitiveKind::Int64), false), false))
    );
}

#[test]
fn array_forms_refer_to_unknown_items() {
    assert_eq!(item_type("< Foo > array"), Some(array(reference("Foo"), false)));
    assert_eq!(item_type("< Foo > array(csv)"), item_type("< Foo > array"));
    assert_eq!(
        item_type("< string > array(csv)"),
        Some(array(primitive(PrimitiveKind::String), false))
    );
    assert_eq!(item_type("< > array"), None);
}

#[test]
fn enumerations_keep_order_and_duplicates() {
    assert_eq!(
        item_type("enum (A, B, C)"),
        Some(TypeNode::StringEnum {
            values: vec!["A".to_string(), "B".to_string(), "C".to_string()]
        })
    );
    assert_eq!(
        item_type("enum (A, A,B)"),
        Some(TypeNode::StringEnum { values: vec!["A".to_string(), "A,B".to_string()] })
    );
    assert_eq!(
        item_type("enum ()"),
        Some(TypeNode::StringEnum { values: vec!["".to_string()] })
    );
}

#[test]
fn bracket_wrapper_is_unwrapped() {
    assert_eq!(item_type("[Integer]"), item_type("Integer"));
    assert_eq!(item_type("[Object]"), item_type("Object"));
    assert_eq!(item_type("[[Long]]"), Some(primitive(PrimitiveKind::Int64)));
    assert_eq!(
        item_type("[enum (A, B)]"),
        Some(TypeNode::StringEnum { values: vec!["A".to_string(), "B".to_string()] })
    );
    assert_eq!(item_type("[Foo]"), None);
    assert_eq!(item_type("[]"), None);
}

#[test]
fn byte_array_phrase_is_one_byte_string() {
    assert_eq!(item_type("< string(byte) > array"), Some(TypeNode::ByteString));
    assert_ne!(
        item_type("< string(byte) > array"),
        Some(array(TypeNode::ByteString, false))
    );
}

#[test]
fn map_forms() {
    assert_eq!(item_type("Map"), Some(TypeNode::Mapping));
    assert_eq!(item_type("Map[<<>>]"), Some(TypeNode::Mapping));
    assert_eq!(item_type("Map  of String"), Some(TypeNode::Mapping));
    assert_eq!(item_type("Map[string,string]"), Some(TypeNode::Mapping));
    assert_eq!(item_type("Mapping"), None);
}

#[test]
fn unknown_expressions_become_trimmed_references() {
    assert_eq!(parse_type("Integer"), primitive(PrimitiveKind::Int32));
    assert_eq!(parse_type("RealmRepresentation"), reference("RealmRepresentation"));
    assert_eq!(parse_type("  Foo \n"), reference("Foo"));
    assert_eq!(parse_type("< Foo  > array"), array(reference("Foo"), false));
}

#[test]
fn later_rows_replace_earlier_ones_in_place() {
    let schema = parse_schema(&vec![
        row("a", "Integer"),
        row("b", "String"),
        row("a", "Long"),
    ]);
    assert_eq!(
        schema.properties,
        vec![
            property("a", primitive(PrimitiveKind::Int64)),
            property("b", primitive(PrimitiveKind::String)),
        ]
    );
}

#[test]
fn later_sections_replace_earlier_ones_in_place() {
    let found = parse_schemas(&vec![
        SchemaSection { title: "A".to_string(), rows: vec![row("x", "Integer")] },
        SchemaSection { title: "B".to_string(), rows: vec![] },
        SchemaSection { title: "A".to_string(), rows: vec![row("y", "Boolean")] },
    ]);
    assert_eq!(found.len(), 2);
    assert_eq!(found[0].name, "A");
    assert_eq!(
        found[0].schema.properties,
        vec![property("y", primitive(PrimitiveKind::Boolean))]
    );
    assert_eq!(found[1].name, "B");
    assert_eq!(found[1].schema.properties, vec![]);
}

#[test]
fn parses_string_only_schema_as_expected() {
    let schema = schema_of("AccessToken-CertConf", vec![row("x5t#S256", "string")]);
    assert_eq!(
        schema.properties,
        vec![property("x5t#S256", primitive(PrimitiveKind::String))]
    );
}

#[test]
fn parses_int32_only_schema_as_expected() {
    let schema = schema_of(
        "ClientInitialAccessCreatePresentation",
        vec![row("count", "integer(int32)"), row("expiration", "integer(int32)")],
    );
    assert_eq!(
        schema.properties,
        vec![
            property("count", primitive(PrimitiveKind::Int32)),
            property("expiration", primitive(PrimitiveKind::Int32)),
        ]
    );
}

#[test]
fn parses_schema_with_bool_as_expected() {
    let schema = schema_of(
        "SynchronizationResult",
        vec![
            row("added", "integer(int32)"),
            row("ignored", "boolean"),
            row("status", "string"),
        ],
    );
    assert_eq!(
        schema.properties,
        vec![
            property("added", primitive(PrimitiveKind::Int32)),
            property("ignored", primitive(PrimitiveKind::Boolean)),
            property("status", primitive(PrimitiveKind::String)),
        ]
    );
}

#[test]
fn parses_schema_with_float_as_expected() {
    let schema = schema_of(
        "MultivaluedHashMap",
        vec![
            row("empty", "boolean"),
            row("loadFactor", "number(float)"),
            row("threshold", "integer(int32)"),
        ],
    );
    assert_eq!(
        schema.properties,
        vec![
            property("empty", primitive(PrimitiveKind::Boolean)),
            property("loadFactor", reference("number(float)")),
            property("threshold", primitive(PrimitiveKind::Int32)),
        ]
    );
}

#[test]
fn parses_schema_with_int64_as_expected() {
    let schema = schema_of(
        "MemoryInfoRepresentation",
        vec![row("free", "integer(int64)"), row("freeFormated", "string")],
    );
    assert_eq!(
        schema.properties,
        vec![
            property("free", primitive(PrimitiveKind::Int64)),
            property("freeFormated", primitive(PrimitiveKind::String)),
        ]
    );
}

#[test]
fn parses_schema_only_map_as_expected() {
    let schema = schema_of(
        "SpiInfoRepresentation",
        vec![row("internal", "boolean"), row("providers", "Map")],
    );
    assert_eq!(
        schema.properties,
        vec![
            property("internal", primitive(PrimitiveKind::Boolean)),
            property("providers", TypeNode::Mapping),
        ]
    );
}

#[test]
fn parses_schema_with_string_array_as_expected() {
    let schema = schema_of(
        "GlobalRequestResult",
        vec![
            row("failedRequests", "< string > array"),
            row("successRequests", "< string > array"),
        ],
    );
    assert_eq!(
        schema.properties,
        vec![
            property("failedRequests", array(primitive(PrimitiveKind::String), false)),
            property("successRequests", array(primitive(PrimitiveKind::String), false)),
        ]
    );
}

#[test]
fn parses_schema_with_enum_as_expected() {
    let schema = schema_of(
        "PolicyRepresentation",
        vec![
            row("decisionStrategy", "enum (AFFIRMATIVE, UNANIMOUS, CONSENSUS)"),
            row("logic", "enum (POSITIVE, NEGATIVE)"),
        ],
    );
    assert_eq!(
        schema.properties,
        vec![
            property(
                "decisionStrategy",
                TypeNode::StringEnum {
                    values: vec![
                        "AFFIRMATIVE".to_string(),
                        "UNANIMOUS".to_string(),
                        "CONSENSUS".to_string()
                    ]
                }
            ),
            property(
                "logic",
                TypeNode::StringEnum {
                    values: vec!["POSITIVE".to_string(), "NEGATIVE".to_string()]
                }
            ),
        ]
    );
}

#[test]
fn parses_schema_with_object_as_expected() {
    let schema = schema_of(
        "ConfigPropertyRepresentation",
        vec![row("defaultValue", "Object"), row("secret", "boolean")],
    );
    assert_eq!(
        schema.properties,
        vec![
            property("defaultValue", primitive(PrimitiveKind::Object)),
            property("secret", primitive(PrimitiveKind::Boolean)),
        ]
    );
}

#[test]
fn parses_schema_with_reference_as_expected() {
    let schema = schema_of(
        "ComponentExportRepresentation",
        vec![row("config", "MultivaluedHashMap"), row("id", "string")],
    );
    assert_eq!(
        schema.properties,
        vec![
            property("config", reference("MultivaluedHashMap")),
            property("id", primitive(PrimitiveKind::String)),
        ]
    );
}

#[test]
fn parses_schema_only_reference_array_as_expected() {
    let schema = schema_of(
        "AccessToken-Authorization",
        vec![row("permissions", "< Permission > array")],
    );
    assert_eq!(
        schema.properties,
        vec![property("permissions", array(reference("Permission"), false))]
    );
}
