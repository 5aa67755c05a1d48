use darshjdb_core::json::{json_eq_exec, JsonNumber, JsonValue};
use darshjdb_core::schema::strict::{
    check_upsert, StrictFieldDef, StrictSchemaCache, StrictValidationError, StrictValueType,
};

fn def(
    attribute: &str,
    value_type: &str,
    required: bool,
    default_val: Option<JsonValue>,
) -> StrictFieldDef {
    StrictFieldDef {
        collection: "users".into(),
        attribute: attribute.into(),
        value_type: value_type.into(),
        required,
        unique_index: required,
        default_val,
        validator: None,
    }
}

fn users_schema() -> Vec<StrictFieldDef> {
    vec![
        def("email", "string", true, None),
        def("age", "number", false, Some(JsonValue::Number(JsonNumber::PosInt(0)))),
        def("profile_id", "link:profiles", false, None),
    ]
}

fn enforcer(strict: bool) -> StrictSchemaCache {
    let mut cache = StrictSchemaCache::new(strict);
    cache.reload(users_schema());
    cache
}

fn doc(pairs: &[(&str, JsonValue)]) -> Vec<(String, JsonValue)> {
    pairs
        .iter()
        .map(|(k, v)| (k.to_string(), darshjdb_core::json::clone_json(v)))
        .collect()
}

fn s(x: &str) -> JsonValue {
    JsonValue::String(x.to_string())
}

fn n(x: u64) -> JsonValue {
    JsonValue::Number(JsonNumber::PosInt(x))
}

#[test]
fn strict_off_is_always_pass_through() {
    let e = enforcer(false);
    let d = doc(&[("anything", n(42))]);
    let report = e.validate_create("users", &d);
    assert!(report.is_valid());
    assert_eq!(report.document.len(), 1);
    assert!(json_eq_exec(&report.document[0].1, &n(42)));
}

#[test]
fn missing_required_is_flagged_with_canonical_code() {
    let e = enforcer(true);
    let report = e.validate_create("users", &vec![]);
    assert!(!report.is_valid());
    assert_eq!(report.errors.len(), 1, "only email is required");
    assert_eq!(report.errors[0].field, "email");
    assert_eq!(report.errors[0].code, "REQUIRED");
}

#[test]
fn default_value_is_injected_when_optional_field_missing() {
    let e = enforcer(true);
    let report = e.validate_create("users", &doc(&[("email", s("darsh@example.com"))]));
    assert!(report.is_valid(), "errors: {:?}", report.errors);
    let age = report.document.iter().find(|(k, _)| k == "age").unwrap();
    assert!(json_eq_exec(&age.1, &n(0)));
}

#[test]
fn type_mismatch_is_flagged() {
    let e = enforcer(true);
    let report = e.validate_create("users", &doc(&[("email", n(123)), ("age", s("thirty"))]));
    assert_eq!(report.errors.len(), 2);
    for err in &report.errors {
        assert_eq!(err.code, "TYPE_MISMATCH");
    }
}

#[test]
fn link_type_requires_uuid_string() {
    let e = enforcer(true);
    let good = doc(&[
        ("email", s("ok@example.com")),
        ("profile_id", s("550e8400-e29b-41d4-a716-446655440000")),
    ]);
    assert!(e.validate_create("users", &good).is_valid());
    let bad = doc(&[("email", s("ok@example.com")), ("profile_id", s("not-a-uuid"))]);
    let report = e.validate_create("users", &bad);
    assert!(!report.is_valid());
    assert_eq!(report.errors[0].field, "profile_id");
}

#[test]
fn unknown_collection_passes_through_without_errors() {
    let e = enforcer(true);
    assert!(e.validate_create("posts", &doc(&[("x", n(1))])).is_valid());
}

#[test]
fn patch_only_type_checks_supplied_fields() {
    let e = enforcer(true);
    assert!(e.validate_patch("users", &doc(&[("age", n(30))])).is_valid());
    let report = e.validate_patch("users", &doc(&[("age", s("thirty"))]));
    assert!(!report.is_valid());
    assert_eq!(report.errors[0].code, "TYPE_MISMATCH");
}

#[test]
fn error_payload_matches_slice_contract() {
    let e = enforcer(true);
    let report = e.validate_create("users", &vec![]);
    let payload = report.error_payload();
    let errors = match &payload {
        JsonValue::Object(entries) => match &entries[0] {
            (k, JsonValue::Array(items)) if k == "errors" => items,
            _ => panic!("errors array"),
        },
        _ => panic!("object"),
    };
    assert_eq!(errors.len(), 1);
    let field = |item: &JsonValue, key: &str| match item {
        JsonValue::Object(es) => es.iter().find(|(k, _)| k == key).map(|(_, v)| darshjdb_core::json::clone_json(v)),
        _ => None,
    };
    assert!(json_eq_exec(&field(&errors[0], "field").unwrap(), &s("email")));
    assert!(json_eq_exec(&field(&errors[0], "code").unwrap(), &s("REQUIRED")));
}

#[test]
fn reload_groups_and_replaces_definitions() {
    let mut cache = StrictSchemaCache::new(true);
    let mut posts = def("title", "string", true, None);
    posts.collection = "posts".into();
    let mut rows = users_schema();
    rows.push(posts);
    rows.push(def("email", "number", false, None));
    cache.reload(rows);
    assert_eq!(cache.collections(), vec!["posts".to_string(), "users".to_string()]);
    let users = cache.get("users").unwrap();
    assert_eq!(users.len(), 3);
    assert_eq!(users[0].attribute, "email");
    assert_eq!(users[0].value_type, "number");
    assert!(cache.get("nothing").is_none());
    cache.reload(vec![]);
    assert!(cache.collections().is_empty());
}

#[test]
fn upsert_checks() {
    assert_eq!(
        check_upsert("  ", &users_schema()),
        Err("collection name must not be empty".to_string())
    );
    assert!(check_upsert("users", &users_schema()).is_ok());
    assert_eq!(
        check_upsert("users", &vec![def("x", "tiff", false, None)]),
        Err("unknown value_type 'tiff' for users/x".to_string())
    );
}

#[test]
fn value_type_matching() {
    let t = StrictValueType::parse("number").unwrap();
    assert!(t.matches(&n(3)));
    assert!(!t.matches(&s("3")));
    let link = StrictValueType::parse("link:users").unwrap();
    assert!(link.matches(&s("550e8400-e29b-41d4-a716-446655440000")));
    assert!(!link.matches(&s("x")));
}

#[test]
fn validation_error_builder() {
    let e = StrictValidationError::new("f", "CODE").with_message("bad");
    assert_eq!(e.field, "f");
    assert_eq!(e.code, "CODE");
    assert_eq!(e.message.as_deref(), Some("bad"));
}
