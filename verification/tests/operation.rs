use keycloak_openapi_transformer::components::schemas::{PrimitiveKind, TypeNode};
use keycloak_openapi_transformer::paths::operation::{
    description, parse, parse_status_code, status_code, OperationSource, StatusCode,
};
use keycloak_openapi_transformer::paths::parameters::ParameterRow;
use keycloak_openapi_transformer::paths::request_body;
use keycloak_openapi_transformer::paths::response;
use keycloak_openapi_transformer::paths::response::MediaContent;

fn body_row(raw_schema: &str) -> ParameterRow {
    ParameterRow {
        location: "Body".to_string(),
        name: "body".to_string(),
        required: true,
        description: None,
        raw_schema: raw_schema.to_string(),
    }
}

fn query_row(name: &str) -> ParameterRow {
    ParameterRow {
        location: "Query".to_string(),
        name: name.to_string(),
        required: true,
        description: Some("a filter".to_string()),
        raw_schema: "boolean".to_string(),
    }
}

#[test]
fn status_codes_lie_between_100_and_599() {
    assert_eq!(parse_status_code("200"), Some(StatusCode::Code(200)));
    assert_eq!(parse_status_code("100"), Some(StatusCode::Code(100)));
    assert_eq!(parse_status_code("599"), Some(StatusCode::Code(599)));
    assert_eq!(parse_status_code("+204"), Some(StatusCode::Code(204)));
    assert_eq!(parse_status_code("0404"), Some(StatusCode::Code(404)));
    assert_eq!(parse_status_code("99"), None);
    assert_eq!(parse_status_code("600"), None);
    assert_eq!(parse_status_code("65735"), None);
    assert_eq!(parse_status_code("99999999999999999999"), None);
    assert_eq!(parse_status_code(""), None);
    assert_eq!(parse_status_code("+"), None);
    assert_eq!(parse_status_code("-200"), None);
    assert_eq!(parse_status_code("2xx"), None);
    assert_eq!(parse_status_code(" 200"), None);
    assert_eq!(parse_status_code("default"), None);
}

#[test]
fn status_codes_agree_with_the_standard_parser() {
    for text in ["0", "7", "42", "100", "65535", "65536", "+1", "++1", "1+", "00599", "5 9"] {
        let expected = match text.parse::<u16>() {
            Ok(n) if (100..=599).contains(&n) => Some(StatusCode::Code(n)),
            _ => None,
        };
        assert_eq!(parse_status_code(text), expected);
    }
}

#[test]
fn missing_status_is_the_range_of_success() {
    assert_eq!(status_code(Some(" 204\n")), StatusCode::Code(204));
    assert_eq!(status_code(Some("default")), StatusCode::Range(2));
    assert_eq!(status_code(None), StatusCode::Range(2));
}

#[test]
fn missing_summary_is_said_so() {
    assert_eq!(description(Some("  Delete the realm \n")), "Delete the realm");
    assert_eq!(description(Some("")), "");
    assert_eq!(description(None), "Missing description");
}

#[test]
fn octet_streams() {
    let found = response::parse("success", "< string(byte) > array", Some("application/octet-stream"));
    assert_eq!(
        found.content,
        Some(MediaContent {
            media_type: "application/octet-stream".to_string(),
            schema: TypeNode::ByteString,
        })
    );
}

#[test]
fn json() {
    let found = response::parse(
        "success",
        "AuthenticatorConfigRepresentation",
        Some("application/json"),
    );
    assert_eq!(found.description, "success");
    assert_eq!(
        found.content,
        Some(MediaContent {
            media_type: "application/json".to_string(),
            schema: TypeNode::Reference { name: "AuthenticatorConfigRepresentation".to_string() },
        })
    );
}

#[test]
fn no_content() {
    assert!(response::parse("success", "Foo", None).content.is_none());
}

#[test]
fn no_content_response() {
    assert!(response::parse("success", "<<>>", Some("application/json")).content.is_none());
    assert!(response::parse("success", "<<>>", None).content.is_none());
}

#[test]
fn most_operations_are_json() {
    let consumes = vec!["application/json".to_string()];
    match request_body::parse(&vec![query_row("q"), body_row("RoleRepresentation")], &consumes) {
        Some(body) => assert_eq!(body.content.media_type, "application/json"),
        None => panic!("couldn't get content"),
    }
}

#[test]
fn operations_have_a_type_even_when_not_defined() {
    match request_body::parse(&vec![body_row("< string > array")], &vec![]) {
        Some(body) => {
            assert_eq!(body.content.media_type, "application/json");
            assert_eq!(
                body.content.schema,
                TypeNode::Array {
                    items: Box::new(TypeNode::Primitive { kind: PrimitiveKind::String }),
                    unique: false
                }
            );
        }
        None => panic!("couldn't get content"),
    }
}

#[test]
fn string_outputs_are_text_only() {
    let consumes = vec!["application/xml".to_string(), "text/plain".to_string()];
    match request_body::parse(&vec![body_row("string"), body_row("Foo")], &consumes) {
        Some(body) => {
            assert_eq!(body.content.media_type, "text/plain");
            assert_eq!(body.content.schema, TypeNode::Primitive { kind: PrimitiveKind::String });
            assert!(body.required);
            assert_eq!(body.description, None);
        }
        None => panic!("couldn't get content"),
    }
}

#[test]
fn operations_without_body_rows_have_no_body() {
    assert_eq!(request_body::parse(&vec![query_row("q")], &vec!["text/plain".to_string()]), None);
}

#[test]
fn an_operation_is_put_together_from_its_parts() {
    let found = parse(&OperationSource {
        summary: Some(" Get role mappings ".to_string()),
        status: Some("200".to_string()),
        response_description: "success".to_string(),
        response_schema: "MappingsRepresentation".to_string(),
        produces: Some("application/json".to_string()),
        consumes: vec![],
        rows: vec![query_row("briefRepresentation\noptional"), body_row("Long")],
    });
    assert_eq!(found.description, "Get role mappings");
    assert_eq!(found.status, StatusCode::Code(200));
    assert_eq!(found.response.description, "success");
    assert_eq!(
        found.response.content.map(|c| c.schema),
        Some(TypeNode::Reference { name: "MappingsRepresentation".to_string() })
    );
    assert_eq!(found.parameters.len(), 1);
    assert_eq!(found.parameters[0].name, "briefRepresentation");
    assert!(!found.parameters[0].required);
    assert_eq!(
        found.request_body.map(|b| b.content.schema),
        Some(TypeNode::Primitive { kind: PrimitiveKind::Int64 })
    );
}
