use darshjdb_core::json::{json_eq_exec, FloatNumber, JsonNumber, JsonValue};
use darshjdb_core::sync::live_query::{
    parse_live_select, parse_value_array, parse_value_literal, parse_where_clause, project_fields,
    split_preserving_strings, Comparison, FilterPredicate, LiveAction, LiveQueryManager,
    LiveSelectFields, NumericOps,
};
use darshjdb_core::sync::ChangeEvent;

fn number_of(n: &serde_json::Number) -> JsonNumber {
    if let Some(u) = n.as_u64() {
        JsonNumber::PosInt(u)
    } else if let Some(i) = n.as_i64() {
        JsonNumber::NegInt(i)
    } else {
        JsonNumber::Float(FloatNumber {
            bits: n.as_f64().unwrap().to_bits(),
            text: n.to_string(),
        })
    }
}

fn to_json(v: &serde_json::Value) -> JsonValue {
    match v {
        serde_json::Value::Null => JsonValue::Null,
        serde_json::Value::Bool(b) => JsonValue::Bool(*b),
        serde_json::Value::Number(n) => JsonValue::Number(number_of(n)),
        serde_json::Value::String(s) => JsonValue::String(s.clone()),
        serde_json::Value::Array(a) => JsonValue::Array(a.iter().map(to_json).collect()),
        serde_json::Value::Object(m) => {
            JsonValue::Object(m.iter().map(|(k, v)| (k.clone(), to_json(v))).collect())
        }
    }
}

fn j(text: &str) -> JsonValue {
    to_json(&serde_json::from_str(text).unwrap())
}

fn as_f64(v: &JsonValue) -> Option<f64> {
    match v {
        JsonValue::Number(JsonNumber::PosInt(u)) => Some(*u as f64),
        JsonValue::Number(JsonNumber::NegInt(i)) => Some(*i as f64),
        JsonValue::Number(JsonNumber::Float(f)) => Some(f64::from_bits(f.bits)),
        JsonValue::String(s) => s.parse::<f64>().ok(),
        _ => None,
    }
}

/// Floating-point steps, as `f64` and serde_json perform them.
struct F64Ops;

impl NumericOps for F64Ops {
    fn parse_float(&self, text: &str) -> Option<Option<FloatNumber>> {
        let n = text.parse::<f64>().ok()?;
        Some(serde_json::Number::from_f64(n).map(|num| FloatNumber {
            bits: num.as_f64().unwrap().to_bits(),
            text: num.to_string(),
        }))
    }

    fn compare(&self, field: Option<&JsonValue>, threshold: &JsonValue, cmp: Comparison) -> bool {
        match (field.and_then(as_f64), as_f64(threshold)) {
            (Some(a), Some(b)) => match cmp {
                Comparison::Gt => a > b,
                Comparison::Gte => a >= b,
                Comparison::Lt => a < b,
                Comparison::Lte => a <= b,
            },
            _ => false,
        }
    }
}

fn eq_pred(field: &str, value: &str) -> FilterPredicate {
    FilterPredicate::Eq {
        field: field.into(),
        value: j(value),
    }
}

fn m(f: &FilterPredicate, entity: &str) -> bool {
    f.matches(&j(entity), &F64Ops)
}

// ── Predicates ──────────────────────────────────────────────────────

#[test]
fn filter_all_matches_everything() {
    let f = FilterPredicate::All;
    assert!(m(&f, "{}"));
    assert!(m(&f, r#"{"x": 1}"#));
}

#[test]
fn filter_eq() {
    let f = eq_pred("age", "25");
    assert!(m(&f, r#"{"age": 25}"#));
    assert!(!m(&f, r#"{"age": 30}"#));
    assert!(!m(&f, r#"{"name": "Alice"}"#));
}

#[test]
fn filter_ne() {
    let f = FilterPredicate::Ne {
        field: "status".into(),
        value: j(r#""inactive""#),
    };
    assert!(m(&f, r#"{"status": "active"}"#));
    assert!(!m(&f, r#"{"status": "inactive"}"#));
    assert!(m(&f, "{}"));
}

#[test]
fn filter_gt() {
    let f = FilterPredicate::Gt {
        field: "age".into(),
        value: j("18"),
    };
    assert!(m(&f, r#"{"age": 19}"#));
    assert!(m(&f, r#"{"age": 100}"#));
    assert!(!m(&f, r#"{"age": 18}"#));
    assert!(!m(&f, r#"{"age": 17}"#));
}

#[test]
fn filter_gte() {
    let f = FilterPredicate::Gte {
        field: "score".into(),
        value: j("50"),
    };
    assert!(m(&f, r#"{"score": 50}"#));
    assert!(m(&f, r#"{"score": 51}"#));
    assert!(!m(&f, r#"{"score": 49}"#));
}

#[test]
fn filter_lt_lte() {
    let lt = FilterPredicate::Lt {
        field: "price".into(),
        value: j("100"),
    };
    assert!(m(&lt, r#"{"price": 99}"#));
    assert!(!m(&lt, r#"{"price": 100}"#));

    let lte = FilterPredicate::Lte {
        field: "price".into(),
        value: j("100"),
    };
    assert!(m(&lte, r#"{"price": 100}"#));
    assert!(!m(&lte, r#"{"price": 101}"#));
}

#[test]
fn filter_contains_string() {
    let f = FilterPredicate::Contains {
        field: "name".into(),
        value: j(r#""Ali""#),
    };
    assert!(m(&f, r#"{"name": "Alice"}"#));
    assert!(!m(&f, r#"{"name": "Bob"}"#));
}

#[test]
fn filter_contains_array() {
    let f = FilterPredicate::Contains {
        field: "tags".into(),
        value: j(r#""rust""#),
    };
    assert!(m(&f, r#"{"tags": ["rust", "wasm"]}"#));
    assert!(!m(&f, r#"{"tags": ["python"]}"#));
}

#[test]
fn filter_in() {
    let f = FilterPredicate::In {
        field: "role".into(),
        values: vec![j(r#""admin""#), j(r#""moderator""#)],
    };
    assert!(m(&f, r#"{"role": "admin"}"#));
    assert!(m(&f, r#"{"role": "moderator"}"#));
    assert!(!m(&f, r#"{"role": "user"}"#));
}

#[test]
fn filter_and() {
    let f = FilterPredicate::And {
        predicates: vec![
            FilterPredicate::Gt {
                field: "age".into(),
                value: j("18"),
            },
            eq_pred("active", "true"),
        ],
    };
    assert!(m(&f, r#"{"age": 25, "active": true}"#));
    assert!(!m(&f, r#"{"age": 25, "active": false}"#));
    assert!(!m(&f, r#"{"age": 17, "active": true}"#));
}

#[test]
fn filter_or() {
    let f = FilterPredicate::Or {
        predicates: vec![eq_pred("role", r#""admin""#), eq_pred("role", r#""super""#)],
    };
    assert!(m(&f, r#"{"role": "admin"}"#));
    assert!(m(&f, r#"{"role": "super"}"#));
    assert!(!m(&f, r#"{"role": "user"}"#));
}

#[test]
fn filter_not() {
    let f = FilterPredicate::Not {
        predicate: Box::new(eq_pred("banned", "true")),
    };
    assert!(m(&f, r#"{"banned": false}"#));
    assert!(!m(&f, r#"{"banned": true}"#));
}

#[test]
fn filter_empty_and_or() {
    let and = FilterPredicate::And { predicates: vec![] };
    let or = FilterPredicate::Or { predicates: vec![] };
    assert!(m(&and, "{}"));
    assert!(!m(&or, "{}"));
}

// ── Parsing ─────────────────────────────────────────────────────────

fn chars(s: &str) -> Vec<char> {
    s.chars().collect()
}

#[test]
fn parse_simple_select_all() {
    let result = parse_live_select("LIVE SELECT * FROM users", &F64Ops).unwrap();
    assert_eq!(result.collection, "users");
    assert!(matches!(result.fields, LiveSelectFields::All));
    assert!(matches!(result.filter, FilterPredicate::All));
}

#[test]
fn parse_select_with_where() {
    let result = parse_live_select("LIVE SELECT * FROM users WHERE age > 18", &F64Ops).unwrap();
    assert_eq!(result.collection, "users");
    assert!(matches!(result.filter, FilterPredicate::Gt { .. }));
}

#[test]
fn parse_select_named_fields() {
    let result =
        parse_live_select("LIVE SELECT name, email FROM users WHERE active = true", &F64Ops).unwrap();
    assert_eq!(result.collection, "users");
    match &result.fields {
        LiveSelectFields::Named(names) => assert_eq!(names, &["name", "email"]),
        _ => panic!("expected named fields"),
    }
}

#[test]
fn parse_select_compound_where() {
    let result = parse_live_select(
        "LIVE SELECT * FROM orders WHERE status = 'pending' AND total > 100",
        &F64Ops,
    )
    .unwrap();
    assert_eq!(result.collection, "orders");
    assert!(matches!(result.filter, FilterPredicate::And { .. }));
}

#[test]
fn parse_select_missing_from() {
    assert!(parse_live_select("LIVE SELECT * users", &F64Ops).is_err());
}

#[test]
fn parse_select_case_insensitive() {
    let result = parse_live_select("live select * from Users where Age > 18", &F64Ops).unwrap();
    assert_eq!(result.collection, "Users");
}

#[test]
fn parse_select_error_messages() {
    assert_eq!(
        parse_live_select("SELECT * FROM users", &F64Ops).unwrap_err(),
        "query must start with LIVE SELECT"
    );
}

#[test]
fn parse_where_or_and_in() {
    let p = parse_where_clause(&chars("role IN ['a', 'b'] OR age >= 21"), &F64Ops).unwrap();
    match p {
        FilterPredicate::Or { predicates } => {
            assert_eq!(predicates.len(), 2);
            assert!(matches!(&predicates[0], FilterPredicate::In { values, .. } if values.len() == 2));
            assert!(matches!(&predicates[1], FilterPredicate::Gte { .. }));
        }
        other => panic!("expected OR, got {other:?}"),
    }
}

#[test]
fn parse_literals() {
    assert!(json_eq_exec(&parse_value_literal(&chars("'x y'"), &F64Ops).unwrap(), &j(r#""x y""#)));
    assert!(json_eq_exec(&parse_value_literal(&chars("TRUE"), &F64Ops).unwrap(), &j("true")));
    assert!(json_eq_exec(&parse_value_literal(&chars("none"), &F64Ops).unwrap(), &j("null")));
    assert!(json_eq_exec(&parse_value_literal(&chars("-12"), &F64Ops).unwrap(), &j("-12")));
    assert!(json_eq_exec(&parse_value_literal(&chars("2.5"), &F64Ops).unwrap(), &j("2.5")));
    assert!(json_eq_exec(&parse_value_literal(&chars("abc"), &F64Ops).unwrap(), &j(r#""abc""#)));
    let arr = parse_value_array(&chars("[1, 'two', 3]"), &F64Ops).unwrap();
    assert_eq!(arr.len(), 3);
    assert!(json_eq_exec(&arr[1], &j(r#""two""#)));
}

#[test]
fn split_keeps_quoted_delimiters() {
    let parts = split_preserving_strings(&chars("a = 'x AND y' AND b = 2"), " AND ");
    let parts: Vec<String> = parts.into_iter().map(|p| p.into_iter().collect()).collect();
    assert_eq!(parts, vec!["a = 'x AND y'", "b = 2"]);
}

// ── Manager ─────────────────────────────────────────────────────────

fn sid() -> u128 {
    uuid::Uuid::new_v4().as_u128()
}

fn event(tx_id: i64, id: &str, attr: &str, entity_type: &str) -> ChangeEvent {
    ChangeEvent {
        tx_id,
        entity_ids: vec![id.into()],
        attributes: vec![attr.into()],
        entity_type: Some(entity_type.into()),
        actor_id: None,
    }
}

#[test]
fn manager_register_and_kill() {
    let mut mgr = LiveQueryManager::new();
    let sid = sid();
    let live_id = mgr
        .register(sid, "LIVE SELECT * FROM users WHERE age > 18", &F64Ops)
        .unwrap();
    assert_eq!(mgr.query_count(), 1);
    assert_eq!(mgr.session_queries(sid).len(), 1);
    assert!(mgr.kill(live_id, sid));
    assert_eq!(mgr.query_count(), 0);
}

#[test]
fn manager_register_rejects_bad_query() {
    let mut mgr = LiveQueryManager::new();
    assert!(mgr.register(sid(), "LIVE SELECT * users", &F64Ops).is_err());
    assert_eq!(mgr.query_count(), 0);
}

#[test]
fn manager_kill_wrong_session_rejected() {
    let mut mgr = LiveQueryManager::new();
    let sid1 = sid();
    let sid2 = sid();
    let live_id = mgr.register(sid1, "LIVE SELECT * FROM users", &F64Ops).unwrap();
    assert!(!mgr.kill(live_id, sid2));
    assert_eq!(mgr.query_count(), 1);
}

#[test]
fn manager_kill_session_cleans_all() {
    let mut mgr = LiveQueryManager::new();
    let sid = sid();
    mgr.register(sid, "LIVE SELECT * FROM users", &F64Ops).unwrap();
    mgr.register(sid, "LIVE SELECT * FROM orders", &F64Ops).unwrap();
    mgr.register(sid, "LIVE SELECT * FROM products", &F64Ops).unwrap();
    assert_eq!(mgr.query_count(), 3);
    let removed = mgr.kill_session(sid);
    assert_eq!(removed, 3);
    assert_eq!(mgr.query_count(), 0);
}

#[test]
fn manager_process_change_matching() {
    let mut mgr = LiveQueryManager::new();
    let sid = sid();
    mgr.register(sid, "LIVE SELECT * FROM users WHERE age > 18", &F64Ops)
        .unwrap();
    let data = vec![(
        "user-1".to_string(),
        j(r#"{"_id": "user-1", "name": "Alice", "age": 25}"#),
    )];
    let results = mgr.process_change(&event(42, "user-1", "age", "users"), &data, LiveAction::Update, &F64Ops);
    assert_eq!(results.len(), 1);
    assert_eq!(results[0].0, sid);
    assert_eq!(results[0].1.action, LiveAction::Update);
    assert_eq!(results[0].1.tx_id, 42);
    assert!(json_eq_exec(&results[0].1.result, &data[0].1));
}

#[test]
fn manager_process_change_no_match_filter() {
    let mut mgr = LiveQueryManager::new();
    let sid = sid();
    mgr.register(sid, "LIVE SELECT * FROM users WHERE age > 18", &F64Ops)
        .unwrap();
    let data = vec![(
        "user-2".to_string(),
        j(r#"{"_id": "user-2", "name": "Bob", "age": 16}"#),
    )];
    let results = mgr.process_change(&event(43, "user-2", "age", "users"), &data, LiveAction::Create, &F64Ops);
    assert!(results.is_empty(), "age=16 should not match age > 18");
}

#[test]
fn manager_process_change_wrong_collection() {
    let mut mgr = LiveQueryManager::new();
    mgr.register(sid(), "LIVE SELECT * FROM users", &F64Ops).unwrap();
    let data = vec![("order-1".to_string(), j(r#"{"_id": "order-1", "total": 99}"#))];
    let results = mgr.process_change(&event(44, "order-1", "total", "orders"), &data, LiveAction::Create, &F64Ops);
    assert!(results.is_empty(), "orders change should not match users query");
}

#[test]
fn manager_process_change_projects_fields() {
    let mut mgr = LiveQueryManager::new();
    mgr.register(sid(), "LIVE SELECT name FROM users", &F64Ops).unwrap();
    let data = vec![(
        "u".to_string(),
        j(r#"{"_id": "u", "name": "Alice", "age": 25}"#),
    )];
    let results = mgr.process_change(&event(1, "u", "name", "users"), &data, LiveAction::Delete, &F64Ops);
    assert_eq!(results.len(), 1);
    assert!(json_eq_exec(&results[0].1.result, &j(r#"{"_id": "u", "name": "Alice"}"#)));
    assert_eq!(LiveAction::Delete.to_string(), "DELETE");
}

// ── Projection ──────────────────────────────────────────────────────

#[test]
fn project_all_returns_full_entity() {
    let entity = j(r#"{"_id": "1", "name": "Alice", "age": 25}"#);
    let result = project_fields(&entity, &LiveSelectFields::All);
    assert!(json_eq_exec(&result, &entity));
}

#[test]
fn project_named_fields_includes_id() {
    let entity = j(r#"{"_id": "1", "name": "Alice", "age": 25, "email": "a@b.c"}"#);
    let result = project_fields(&entity, &LiveSelectFields::Named(vec!["name".into()]));
    let keys: Vec<&str> = match &result {
        JsonValue::Object(entries) => entries.iter().map(|(k, _)| k.as_str()).collect(),
        _ => panic!("expected object"),
    };
    assert!(keys.contains(&"_id"));
    assert!(keys.contains(&"name"));
    assert!(!keys.contains(&"age"));
    assert!(!keys.contains(&"email"));
}

#[test]
fn not_and_or_over_comparisons() {
    let gt = || FilterPredicate::Gt { field: "age".into(), value: j("18") };
    let lt = || FilterPredicate::Lt { field: "age".into(), value: j("65") };
    let not_gt = FilterPredicate::Not { predicate: Box::new(gt()) };
    assert!(m(&not_gt, r#"{"age": 18}"#));
    assert!(!m(&not_gt, r#"{"age": 19}"#));
    assert!(m(&not_gt, r#"{}"#));
    let both = FilterPredicate::And { predicates: vec![gt(), lt()] };
    assert!(m(&both, r#"{"age": 30}"#));
    assert!(!m(&both, r#"{"age": 70}"#));
    let either = FilterPredicate::Or { predicates: vec![gt(), lt()] };
    assert!(m(&either, r#"{"age": 70}"#));
    assert!(!m(&either, r#"{"name": "x"}"#));
}

#[test]
fn lone_quote_literal_is_an_error() {
    let r = parse_live_select("LIVE SELECT * FROM users WHERE name = '", &F64Ops);
    assert_eq!(r.unwrap_err(), "unterminated quoted literal");
    let r = parse_value_literal(&"\"".chars().collect(), &F64Ops);
    assert_eq!(r.unwrap_err(), "unterminated quoted literal");
}

#[test]
fn kill_sequence_removes_for_good() {
    let mut mgr = LiveQueryManager::new();
    let s1 = sid();
    let s2 = sid();
    let keep = mgr.register(s2, "LIVE SELECT * FROM posts", &F64Ops).unwrap();
    let id = mgr.register(s1, "LIVE SELECT * FROM users", &F64Ops).unwrap();
    assert!(!mgr.kill(id, s2));
    assert_eq!(mgr.query_count(), 2);
    assert_eq!(mgr.session_queries(s1), vec![id]);
    assert!(mgr.kill(id, s1));
    assert_eq!(mgr.query_count(), 1);
    assert!(mgr.session_queries(s1).is_empty());
    assert_eq!(mgr.session_queries(s2), vec![keep]);
    assert!(!mgr.kill(id, s1));
    assert_eq!(mgr.query_count(), 1);
}
