use keycloak_openapi_transformer::info::TransformError;
use keycloak_openapi_transformer::paths::verb_path::VerbPath;
use keycloak_openapi_transformer::paths::{
    assign, census, generate_operation_ids, operation_id_sources, parse_method,
    select_operation_id, CollisionCensus, Method,
};

fn header(verb: &str, path: &str) -> VerbPath {
    VerbPath::new(verb.to_string(), path.to_string())
}

fn strings(items: &[&str]) -> Vec<String> {
    items.iter().map(|s| s.to_string()).collect()
}

#[test]
fn sources_grow_from_the_last_segment() {
    assert_eq!(
        operation_id_sources(
            "GET",
            "/{realm}/clients/{id}/roles/{role-name}/management/permissions"
        ),
        strings(&[
            "GET_permissions_",
            "GET_management_permissions_",
            "GET_role_management_permissions_",
            "GET_client_role_management_permissions_",
            "GET_client_role_management_permissions__by_realm_by_id_by_role-name",
        ])
    );
}

#[test]
fn sources_of_paths_without_words() {
    assert_eq!(operation_id_sources("GET", "/{realm}"), strings(&["GET__by_realm"]));
    assert_eq!(operation_id_sources("GET", "/"), strings(&["GET__", "GET___by_"]));
    assert_eq!(operation_id_sources("GET", ""), strings(&["GET__", "GET___by_"]));
}

#[test]
fn only_collection_names_lose_their_s() {
    assert_eq!(
        operation_id_sources("POST", "clients/{id}/roles"),
        strings(&["POST_roles_", "POST_client_roles_", "POST_client_roles__by_id"])
    );
    assert_eq!(
        operation_id_sources("POST", "/class/{id}/"),
        strings(&["POST_clas_", "POST_clas__by_id"])
    );
    assert_eq!(
        operation_id_sources("POST", "/s/{id}"),
        strings(&["POST__", "POST___by_id"])
    );
    assert_eq!(
        operation_id_sources("POST", "/a/{}/b"),
        strings(&["POST_b_", "POST_a_b_", "POST_a_b__by_"])
    );
}

#[test]
fn candidates_are_lower_camel_case() {
    assert_eq!(
        generate_operation_ids(
            "GET",
            "/{realm}/clients/{id}/roles/{role-name}/management/permissions"
        ),
        strings(&[
            "getPermissions",
            "getManagementPermissions",
            "getRoleManagementPermissions",
            "getClientRoleManagementPermissions",
            "getClientRoleManagementPermissionsByRealmByIdByRoleName",
        ])
    );
    assert_eq!(generate_operation_ids("DELETE", "/{realm}"), strings(&["deleteByRealm"]));
}

#[test]
fn role_operations_share_their_qualified_prefix() {
    let roles = generate_operation_ids("GET", "/clients/{id}/roles");
    let mappings = generate_operation_ids("GET", "/clients/{id}/role-mappings");
    assert_eq!(roles, strings(&["getRoles", "getClientRoles", "getClientRolesById"]));
    assert_eq!(
        mappings,
        strings(&["getRoleMappings", "getClientRoleMappings", "getClientRoleMappingsById"])
    );
    assert!(roles.iter().any(|id| id.starts_with("getClientRole")));
    assert!(mappings.iter().any(|id| id.starts_with("getClientRole")));
    let operations = vec![
        header("GET", "/clients/{id}/roles"),
        header("GET", "/clients/{id}/role-mappings"),
    ];
    let counted = census(&operations);
    let first = assign(&operations[0], &counted).unwrap();
    let second = assign(&operations[1], &counted).unwrap();
    assert_ne!(first, second);
    assert_ne!(first, "getClientRole");
    assert_ne!(second, "getClientRole");
}

#[test]
fn colliding_candidates_fall_back_to_longer_ones() {
    let operations = vec![
        header("GET", "/clients/{id}/roles"),
        header("GET", "/groups/{id}/roles"),
        header("GET", "/{realm}/users"),
    ];
    let counted = census(&operations);
    assert_eq!(counted.count("getRoles"), 2);
    assert_eq!(counted.count("getClientRoles"), 1);
    assert_eq!(counted.count("getUsers"), 1);
    assert_eq!(counted.count("getNothing"), 0);
    assert_eq!(assign(&operations[0], &counted), Ok("getClientRoles".to_string()));
    assert_eq!(assign(&operations[1], &counted), Ok("getGroupRoles".to_string()));
    assert_eq!(assign(&operations[2], &counted), Ok("getUsers".to_string()));
}

#[test]
fn identical_operations_end_at_the_fallback() {
    let operations = vec![header("GET", "/a/{x}"), header("GET", "/a/{x}")];
    let counted = census(&operations);
    assert_eq!(assign(&operations[0], &counted), Ok("getAByX".to_string()));
    assert_eq!(assign(&operations[1], &counted), Ok("getAByX".to_string()));
}

#[test]
fn census_counts_every_candidate_and_skips_the_wildcard() {
    let counted = census(&vec![
        header("GET", "/{any}"),
        header("GET", "/a//b"),
        header("POST", "/{id}/x/{id}"),
    ]);
    assert_eq!(counted.count("getByAny"), 0);
    assert_eq!(counted.count("getB"), 2);
    assert_eq!(counted.count("getAB"), 1);
    assert_eq!(counted.count("postX"), 1);
    assert_eq!(counted.count("postXById1ById2"), 1);
}

#[test]
fn two_runs_assign_the_same_identifiers() {
    let operations = vec![
        header("GET", "/{realm}/clients/{id}/roles"),
        header("GET", "/{realm}/groups/{id}/roles"),
        header("PUT", "/{realm}/clients/{id}/protocol-mappers/models/{id}"),
        header("DELETE", "/{realm}"),
    ];
    let run = |ops: &Vec<VerbPath>| -> Vec<Result<String, TransformError>> {
        let counted = census(ops);
        ops.iter().map(|op| assign(op, &counted)).collect()
    };
    let first = run(&operations);
    let second = run(&operations);
    assert_eq!(first, second);
    assert_eq!(
        first,
        vec![
            Ok("getClientRoles".to_string()),
            Ok("getGroupRoles".to_string()),
            Ok("putModel".to_string()),
            Ok("deleteByRealm".to_string()),
        ]
    );
}

#[test]
fn selection_takes_the_first_unique_or_the_last() {
    let mut counted = CollisionCensus::new();
    counted.record(strings(&["a", "b", "a", "c", "c", "c"]));
    assert_eq!(select_operation_id(&strings(&["a", "b", "d"]), &counted), "b");
    assert_eq!(select_operation_id(&strings(&["a", "c", "d"]), &counted), "d");
    assert_eq!(select_operation_id(&strings(&["a", "c"]), &counted), "c");
    assert_eq!(select_operation_id(&strings(&["a"]), &counted), "a");
}

#[test]
fn only_six_verbs_are_supported() {
    assert_eq!(parse_method("DELETE"), Ok(Method::Delete));
    assert_eq!(parse_method("GET"), Ok(Method::Get));
    assert_eq!(parse_method("PATCH"), Ok(Method::Patch));
    assert_eq!(parse_method("POST"), Ok(Method::Post));
    assert_eq!(parse_method("PUT"), Ok(Method::Put));
    assert_eq!(parse_method("OPTIONS"), Ok(Method::Options));
    assert_eq!(
        parse_method("HEAD"),
        Err(TransformError::UnsupportedVerb("HEAD".to_string()))
    );
    assert_eq!(parse_method("get"), Err(TransformError::UnsupportedVerb("get".to_string())));
    let counted = census(&vec![header("TRACE", "/x")]);
    assert_eq!(
        assign(&header("TRACE", "/x"), &counted),
        Err(TransformError::UnsupportedVerb("TRACE".to_string()))
    );
}
