use darshjdb_core::json::{json_eq_exec, FloatNumber, JsonNumber, JsonValue};
use darshjdb_core::schema::validator::{coerce_value, evaluate_assert, SchemaValidator, ValueOps};
use darshjdb_core::schema::{FieldDefinition, FieldType, TableSchema};

// ── Conversions between serde_json and the library's JSON model ────

fn number_of(n: &serde_json::Number) -> JsonNumber {
    if let Some(u) = n.as_u64() {
        JsonNumber::PosInt(u)
    } else if let Some(i) = n.as_i64() {
        JsonNumber::NegInt(i)
    } else {
        JsonNumber::Float(FloatNumber {
            bits: n.as_f64().unwrap().to_bits(),
            text: n.to_string(),
        })
    }
}

fn to_json(v: &serde_json::Value) -> JsonValue {
    match v {
        serde_json::Value::Null => JsonValue::Null,
        serde_json::Value::Bool(b) => JsonValue::Bool(*b),
        serde_json::Value::Number(n) => JsonValue::Number(number_of(n)),
        serde_json::Value::String(s) => JsonValue::String(s.clone()),
        serde_json::Value::Array(a) => JsonValue::Array(a.iter().map(to_json).collect()),
        serde_json::Value::Object(m) => {
            JsonValue::Object(m.iter().map(|(k, v)| (k.clone(), to_json(v))).collect())
        }
    }
}

fn j(text: &str) -> JsonValue {
    to_json(&serde_json::from_str(text).unwrap())
}

fn as_f64(n: &JsonNumber) -> f64 {
    match n {
        JsonNumber::PosInt(u) => *u as f64,
        JsonNumber::NegInt(i) => *i as f64,
        JsonNumber::Float(f) => f64::from_bits(f.bits),
    }
}

/// Floating-point steps, as serde_json and `f64` perform them.
struct F64Ops;

impl ValueOps for F64Ops {
    fn number_to_int(&self, n: &JsonNumber) -> Result<i64, String> {
        let f = as_f64(n);
        if f.fract() == 0.0 && f >= i64::MIN as f64 && f <= i64::MAX as f64 {
            Ok(f as i64)
        } else {
            Err(format!("expected int, got float {f}"))
        }
    }

    fn parse_float(&self, text: &str) -> Option<JsonValue> {
        let f = text.parse::<f64>().ok()?;
        Some(match serde_json::Number::from_f64(f) {
            Some(n) => JsonValue::Number(number_of(&n)),
            None => JsonValue::Null,
        })
    }

    fn is_float_text(&self, text: &str) -> bool {
        text.parse::<f64>().is_ok()
    }

    fn compare(&self, value: &JsonNumber, op: &str, threshold: &str) -> Result<(), String> {
        let threshold: f64 = threshold.parse().unwrap();
        let val_num = as_f64(value);
        let pass = match op {
            ">=" => val_num >= threshold,
            "<=" => val_num <= threshold,
            "!=" => (val_num - threshold).abs() > f64::EPSILON,
            "==" => (val_num - threshold).abs() < f64::EPSILON,
            ">" => val_num > threshold,
            _ => val_num < threshold,
        };
        if pass {
            Ok(())
        } else {
            Err(format!("assertion failed: {val_num} {op} {threshold}"))
        }
    }

    fn parse_json_array(&self, text: &str) -> Option<Vec<JsonValue>> {
        let items: Vec<serde_json::Value> = serde_json::from_str(text).ok()?;
        Some(items.iter().map(to_json).collect())
    }
}

fn doc(pairs: &[(&str, &str)]) -> Vec<(String, JsonValue)> {
    pairs.iter().map(|(k, v)| (k.to_string(), j(v))).collect()
}

fn get<'a>(document: &'a [(String, JsonValue)], key: &str) -> Option<&'a JsonValue> {
    document.iter().find(|(k, _)| k == key).map(|(_, v)| v)
}

fn make_schemafull_users() -> TableSchema {
    TableSchema::schemafull("users")
        .define_field(
            FieldDefinition::new("name", FieldType::String)
                .required()
                .with_assert(r#"$value != """#),
        )
        .define_field(
            FieldDefinition::new("age", FieldType::Int)
                .with_default(j("0"))
                .with_assert("$value >= 0"),
        )
        .define_field(
            FieldDefinition::new("email", FieldType::String)
                .required()
                .unique(),
        )
        .define_field(FieldDefinition::new(
            "tags",
            FieldType::Array(Box::new(FieldType::String)),
        ))
}

fn make_mixed_posts() -> TableSchema {
    TableSchema::mixed("posts")
        .define_field(FieldDefinition::new("title", FieldType::String).required())
        .define_field(FieldDefinition::new("views", FieldType::Int).with_default(j("0")))
}

// ── SCHEMAFULL ──────────────────────────────────────────────────────

#[test]
fn schemafull_valid_insert() {
    let schema = make_schemafull_users();
    let document = doc(&[
        ("name", r#""Alice""#),
        ("email", r#""alice@example.com""#),
        ("age", "30"),
    ]);
    let result = SchemaValidator::validate_insert(&schema, &document, &F64Ops);
    assert!(result.is_valid(), "errors: {}", result.error_message());
}

#[test]
fn schemafull_rejects_unknown_field() {
    let schema = make_schemafull_users();
    let document = doc(&[
        ("name", r#""Alice""#),
        ("email", r#""alice@example.com""#),
        ("unknown_field", r#""oops""#),
    ]);
    let result = SchemaValidator::validate_insert(&schema, &document, &F64Ops);
    assert!(!result.is_valid());
    assert!(
        result.errors.iter().any(|e| e.field == "unknown_field"),
        "should reject unknown field"
    );
}

#[test]
fn schemafull_missing_required_field() {
    let schema = make_schemafull_users();
    let document = doc(&[("email", r#""alice@example.com""#)]);
    let result = SchemaValidator::validate_insert(&schema, &document, &F64Ops);
    assert!(!result.is_valid());
    assert!(
        result.errors.iter().any(|e| e.field == "name"),
        "should flag missing required field 'name'"
    );
}

#[test]
fn schemafull_default_injection() {
    let schema = make_schemafull_users();
    let document = doc(&[("name", r#""Bob""#), ("email", r#""bob@example.com""#)]);
    let result = SchemaValidator::validate_insert(&schema, &document, &F64Ops);
    assert!(result.is_valid(), "errors: {}", result.error_message());
    assert!(json_eq_exec(get(&result.document, "age").unwrap(), &j("0")));
}

#[test]
fn schemafull_type_coercion_string_to_int() {
    let schema = make_schemafull_users();
    let document = doc(&[
        ("name", r#""Charlie""#),
        ("email", r#""charlie@example.com""#),
        ("age", r#""25""#),
    ]);
    let result = SchemaValidator::validate_insert(&schema, &document, &F64Ops);
    assert!(result.is_valid(), "errors: {}", result.error_message());
    assert!(json_eq_exec(get(&result.document, "age").unwrap(), &j("25")));
}

#[test]
fn schemafull_type_mismatch() {
    let schema = make_schemafull_users();
    let document = doc(&[
        ("name", r#""Dave""#),
        ("email", r#""dave@example.com""#),
        ("age", "true"),
    ]);
    let result = SchemaValidator::validate_insert(&schema, &document, &F64Ops);
    assert!(!result.is_valid());
    assert!(
        result.errors.iter().any(|e| e.field == "age"),
        "should reject bool for int field"
    );
}

#[test]
fn schemafull_assert_empty_string_rejected() {
    let schema = make_schemafull_users();
    let document = doc(&[("name", r#""""#), ("email", r#""x@y.com""#)]);
    let result = SchemaValidator::validate_insert(&schema, &document, &F64Ops);
    assert!(!result.is_valid());
    assert!(result.errors.iter().any(|e| e.field == "name"));
}

#[test]
fn schemafull_assert_negative_age_rejected() {
    let schema = make_schemafull_users();
    let document = doc(&[
        ("name", r#""Eve""#),
        ("email", r#""eve@example.com""#),
        ("age", "-5"),
    ]);
    let result = SchemaValidator::validate_insert(&schema, &document, &F64Ops);
    assert!(!result.is_valid());
    assert!(result.errors.iter().any(|e| e.field == "age"));
}

#[test]
fn error_message_joins_field_errors() {
    let schema = make_schemafull_users();
    let document = doc(&[("email", r#""a@b.c""#), ("age", "true")]);
    let result = SchemaValidator::validate_insert(&schema, &document, &F64Ops);
    assert_eq!(result.errors.len(), 2);
    let msg = result.error_message();
    assert!(msg.contains("; "), "{msg}");
    assert_eq!(
        result.errors[0].to_string(),
        format!("field '{}': {}", result.errors[0].field, result.errors[0].message)
    );
}

// ── MIXED ───────────────────────────────────────────────────────────

#[test]
fn mixed_allows_unknown_fields() {
    let schema = make_mixed_posts();
    let document = doc(&[
        ("title", r#""Hello World""#),
        ("extra_stuff", r#""anything goes""#),
    ]);
    let result = SchemaValidator::validate_insert(&schema, &document, &F64Ops);
    assert!(result.is_valid(), "errors: {}", result.error_message());
    assert!(get(&result.document, "extra_stuff").is_some());
}

#[test]
fn mixed_still_validates_defined_fields() {
    let schema = make_mixed_posts();
    let document = doc(&[("views", r#""not a number""#)]);
    let result = SchemaValidator::validate_insert(&schema, &document, &F64Ops);
    assert!(!result.is_valid());
    assert!(result.errors.iter().any(|e| e.field == "title"));
}

#[test]
fn mixed_coerces_string_to_int_for_views() {
    let schema = make_mixed_posts();
    let document = doc(&[("title", r#""Post""#), ("views", r#""100""#)]);
    let result = SchemaValidator::validate_insert(&schema, &document, &F64Ops);
    assert!(result.is_valid(), "errors: {}", result.error_message());
    assert!(json_eq_exec(get(&result.document, "views").unwrap(), &j("100")));
}

// ── SCHEMALESS ──────────────────────────────────────────────────────

#[test]
fn schemaless_accepts_anything() {
    let schema = TableSchema::schemaless("logs");
    let document = doc(&[
        ("whatever", "[true]"),
        ("deeply", r#"{"nested": {"value": 42}}"#),
    ]);
    let result = SchemaValidator::validate_insert(&schema, &document, &F64Ops);
    assert!(result.is_valid());
    assert_eq!(result.document.len(), 2);
    assert!(json_eq_exec(
        get(&result.document, "deeply").unwrap(),
        &j(r#"{"nested": {"value": 42}}"#)
    ));
}

// ── UPDATE ──────────────────────────────────────────────────────────

#[test]
fn update_skips_required_check() {
    let schema = make_schemafull_users();
    let document = doc(&[("age", "31")]);
    let result = SchemaValidator::validate_update(&schema, &document, &F64Ops);
    assert!(result.is_valid(), "errors: {}", result.error_message());
}

#[test]
fn update_readonly_field_rejected() {
    let schema = TableSchema::schemafull("config")
        .define_field(FieldDefinition::new("created_by", FieldType::String).readonly());
    let document = doc(&[("created_by", r#""someone_else""#)]);
    let result = SchemaValidator::validate_update(&schema, &document, &F64Ops);
    assert!(!result.is_valid());
    assert!(result.errors.iter().any(|e| e.field == "created_by"));
}

// ── Assert expressions ──────────────────────────────────────────────

#[test]
fn assert_in_expression() {
    let schema = TableSchema::schemafull("orders").define_field(
        FieldDefinition::new("status", FieldType::String)
            .with_assert(r#"$value IN ["pending", "active", "closed"]"#),
    );
    let valid = doc(&[("status", r#""active""#)]);
    let invalid = doc(&[("status", r#""unknown""#)]);

    assert!(SchemaValidator::validate_insert(&schema, &valid, &F64Ops).is_valid());
    assert!(!SchemaValidator::validate_insert(&schema, &invalid, &F64Ops).is_valid());
}

#[test]
fn assert_string_len() {
    let schema = TableSchema::schemafull("users").define_field(
        FieldDefinition::new("password", FieldType::String).with_assert("string::len($value) >= 8"),
    );
    let short = doc(&[("password", r#""abc""#)]);
    let ok = doc(&[("password", r#""longpassword""#)]);

    assert!(!SchemaValidator::validate_insert(&schema, &short, &F64Ops).is_valid());
    assert!(SchemaValidator::validate_insert(&schema, &ok, &F64Ops).is_valid());
}

#[test]
fn assert_pattern_contains() {
    let v = JsonValue::String("hello world".into());
    assert!(evaluate_assert(&v, r#"$value =~ "world""#, &F64Ops).is_ok());
    assert!(evaluate_assert(&v, r#"$value =~ "xyz""#, &F64Ops).is_err());
    assert!(evaluate_assert(&j("3"), r#"$value =~ "x""#, &F64Ops).is_err());
}

#[test]
fn assert_numeric_on_non_number_fails() {
    let r = evaluate_assert(&JsonValue::String("a".into()), "$value > 1", &F64Ops);
    assert_eq!(r, Err("assertion requires numeric value, got string".to_string()));
}

#[test]
fn assert_unknown_expression_passes() {
    assert!(evaluate_assert(&j("1"), "something else entirely", &F64Ops).is_ok());
}

// ── Coercion ────────────────────────────────────────────────────────

#[test]
fn coerce_bool_from_string() {
    let c = |s: &str| coerce_value(&JsonValue::String(s.into()), &FieldType::Bool, &F64Ops).unwrap();
    assert!(json_eq_exec(&c("true"), &JsonValue::Bool(true)));
    assert!(json_eq_exec(&c("false"), &JsonValue::Bool(false)));
    assert!(json_eq_exec(&c("yes"), &JsonValue::Bool(true)));
    assert!(json_eq_exec(&c("no"), &JsonValue::Bool(false)));
}

#[test]
fn coerce_null_always_passes() {
    assert!(json_eq_exec(
        &coerce_value(&JsonValue::Null, &FieldType::Int, &F64Ops).unwrap(),
        &JsonValue::Null
    ));
    assert!(json_eq_exec(
        &coerce_value(&JsonValue::Null, &FieldType::String, &F64Ops).unwrap(),
        &JsonValue::Null
    ));
}

#[test]
fn coerce_array_validates_elements() {
    let inner = FieldType::Array(Box::new(FieldType::Int));
    let valid = j("[1, 2, 3]");
    let invalid = j(r#"[1, "not a number", 3]"#);

    assert!(coerce_value(&valid, &inner, &F64Ops).is_ok());
    assert!(coerce_value(&invalid, &inner, &F64Ops).is_err());
}

#[test]
fn coerce_array_error_names_element() {
    let inner = FieldType::Array(Box::new(FieldType::Int));
    let err = coerce_value(&j(r#"[1, "x"]"#), &inner, &F64Ops).unwrap_err();
    assert_eq!(err, "array element [1]: cannot coerce string 'x' to int");
}

#[test]
fn coerce_union_picks_first_match() {
    let union = FieldType::Union(vec![FieldType::Int, FieldType::String]);
    let result = coerce_value(&j("42"), &union, &F64Ops).unwrap();
    assert!(json_eq_exec(&result, &j("42")));

    let result = coerce_value(&JsonValue::String("hello".into()), &union, &F64Ops).unwrap();
    assert!(json_eq_exec(&result, &j(r#""hello""#)));
}

#[test]
fn coerce_union_error_lists_types() {
    let union = FieldType::Union(vec![FieldType::Int, FieldType::Bool]);
    let err = coerce_value(&j("[1]"), &union, &F64Ops).unwrap_err();
    assert_eq!(err, "value does not match any of: int, bool");
}

#[test]
fn coerce_float_text_and_whole_float_to_int() {
    let f = coerce_value(&JsonValue::String("2.5".into()), &FieldType::Float, &F64Ops).unwrap();
    assert!(json_eq_exec(&f, &j("2.5")));
    let i = coerce_value(&j("4.0"), &FieldType::Int, &F64Ops).unwrap();
    assert!(json_eq_exec(&i, &j("4")));
    assert!(coerce_value(&j("4.5"), &FieldType::Int, &F64Ops).is_err());
}

#[test]
fn coerce_number_to_string() {
    let s = coerce_value(&j("17"), &FieldType::String, &F64Ops).unwrap();
    assert!(json_eq_exec(&s, &JsonValue::String("17".into())));
}

#[test]
fn assert_not_null() {
    assert!(evaluate_assert(&JsonValue::Null, "$value != NONE", &F64Ops).is_err());
    assert!(evaluate_assert(&JsonValue::String("ok".into()), "$value != NONE", &F64Ops).is_ok());
}

#[test]
fn match_assertion_is_a_regex_match() {
    assert!(evaluate_assert(&j(r#""ABC""#), r#"$value =~ "^[a-z]+$""#, &F64Ops).is_err());
    assert!(evaluate_assert(&j(r#""abc""#), r#"$value =~ "^[a-z]+$""#, &F64Ops).is_ok());
    assert!(evaluate_assert(&j(r#""abc""#), r#"$value =~ "a.c""#, &F64Ops).is_ok());
    assert!(evaluate_assert(&j(r#""xxabcxx""#), r#"$value =~ "a.c""#, &F64Ops).is_ok());
    assert!(evaluate_assert(&j(r#""ac""#), r#"$value =~ "a.c""#, &F64Ops).is_err());
    assert!(evaluate_assert(&j(r#""user@example.com""#), r#"$value =~ "^[^@]+@[^@]+\.[a-z]+$""#, &F64Ops).is_ok());
    assert!(evaluate_assert(&j(r#""user.example.com""#), r#"$value =~ "^[^@]+@[^@]+\.[a-z]+$""#, &F64Ops).is_err());
    assert!(evaluate_assert(&j(r#""order-42""#), r#"$value =~ "-\d+$""#, &F64Ops).is_ok());
    assert!(evaluate_assert(&j(r#""order-""#), r#"$value =~ "-\d+$""#, &F64Ops).is_err());
    assert!(evaluate_assert(&j(r#""colour""#), r#"$value =~ "^colou?r$""#, &F64Ops).is_ok());
    assert!(evaluate_assert(&j(r#""color""#), r#"$value =~ "^colou?r$""#, &F64Ops).is_ok());
    assert!(evaluate_assert(&j(r#""aaa""#), r#"$value =~ "^a*$""#, &F64Ops).is_ok());
    assert!(evaluate_assert(&j(r#""""#), r#"$value =~ "^a+$""#, &F64Ops).is_err());
}

#[test]
fn match_assertion_rejects_patterns_outside_the_dialect() {
    let r = evaluate_assert(&j(r#""ab""#), r#"$value =~ "(a|b)""#, &F64Ops);
    assert_eq!(r, Err("invalid regex pattern '(a|b)'".to_string()));
    assert!(evaluate_assert(&j(r#""ab""#), r#"$value =~ "a{2}""#, &F64Ops).is_err());
}

#[test]
fn array_of_float_strings_coerces_element_by_element() {
    let r = coerce_value(&j(r#"["1.5", "2"]"#), &FieldType::Array(Box::new(FieldType::Float)), &F64Ops).unwrap();
    assert!(json_eq_exec(&r, &j("[1.5, 2.0]")));
    let e = coerce_value(&j(r#"["1.5", "x"]"#), &FieldType::Array(Box::new(FieldType::Float)), &F64Ops);
    assert_eq!(e.unwrap_err(), "array element [1]: cannot coerce string 'x' to float");
}
