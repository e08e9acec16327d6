use keycloak_openapi_transformer::info::{extract_string, parse, Extract, Info, TransformError};

fn found(selector: &str, text: &str) -> Extract {
    Extract { selector: selector.to_string(), text: Some(text.to_string()) }
}

fn missing(selector: &str) -> Extract {
    Extract { selector: selector.to_string(), text: None }
}

#[test]
fn parses_as_expected() {
    assert_eq!(
        parse(
            &found("h1", "Keycloak Admin REST API\n"),
            &found("#_overview", "\nThis is a REST API reference for the Keycloak Admin "),
            &found("#_version_information", " Version: 1 "),
        ),
        Ok(Info {
            title: "Keycloak Admin REST API".to_string(),
            description: Some("This is a REST API reference for the Keycloak Admin".to_string()),
            version: "1".to_string(),
        })
    );
}

#[test]
fn every_version_introduction_is_removed() {
    let info = parse(
        &found("a", "t"),
        &found("b", "d"),
        &found("c", "Version: 22.0.0 Version: beta"),
    )
    .unwrap();
    assert_eq!(info.version, "22.0.0 beta");
    let plain = parse(&found("a", "t"), &found("b", "d"), &found("c", "Version:1")).unwrap();
    assert_eq!(plain.version, "Version:1");
}

#[test]
fn the_first_missing_element_is_reported() {
    assert_eq!(
        parse(&missing("h1"), &missing("p"), &missing("v")),
        Err(TransformError::NoFindErr("h1".to_string()))
    );
    assert_eq!(
        parse(&found("h1", "t"), &missing("p"), &missing("v")),
        Err(TransformError::NoFindErr("p".to_string()))
    );
    assert_eq!(
        parse(&found("h1", "t"), &found("p", "d"), &missing("v")),
        Err(TransformError::NoFindErr("v".to_string()))
    );
    assert_eq!(extract_string(&found("x", " \u{a0}a b\t")), Ok("a b".to_string()));
}

#[test]
fn errors_describe_themselves() {
    assert_eq!(
        TransformError::NoFindErr("Selector(h1)".to_string()).message(),
        "Could not find element by Selector(h1)"
    );
    assert_eq!(
        TransformError::UnsupportedVerb("HEAD".to_string()).message(),
        "Unexpected HTTP verb: HEAD"
    );
    assert_eq!(
        TransformError::UnmatchedPathParameter {
            verb: "GET".to_string(),
            path: "/{realm}".to_string(),
            name: "id".to_string(),
        }
        .message(),
        "No placeholder for path parameter id of GET /{realm}"
    );
}
