use std::hash::{Hash, Hasher};

use darshjdb_core::json::{json_eq_exec, FloatNumber, JsonNumber, JsonValue};
use darshjdb_core::sync::diff::{
    compute_diff, compute_entity_patch, extract_entity_id, hash_result_set, hash_value, QueryDiff,
};

fn number_of(n: &serde_json::Number) -> JsonNumber {
    if let Some(u) = n.as_u64() {
        JsonNumber::PosInt(u)
    } else if let Some(i) = n.as_i64() {
        JsonNumber::NegInt(i)
    } else {
        JsonNumber::Float(FloatNumber {
            bits: n.as_f64().unwrap().to_bits(),
            text: n.to_string(),
        })
    }
}

fn to_json(v: &serde_json::Value) -> JsonValue {
    match v {
        serde_json::Value::Null => JsonValue::Null,
        serde_json::Value::Bool(b) => JsonValue::Bool(*b),
        serde_json::Value::Number(n) => JsonValue::Number(number_of(n)),
        serde_json::Value::String(s) => JsonValue::String(s.clone()),
        serde_json::Value::Array(a) => JsonValue::Array(a.iter().map(to_json).collect()),
        serde_json::Value::Object(m) => {
            JsonValue::Object(m.iter().map(|(k, v)| (k.clone(), to_json(v))).collect())
        }
    }
}

fn j(text: &str) -> JsonValue {
    to_json(&serde_json::from_str(text).unwrap())
}

fn rows(texts: &[&str]) -> Vec<JsonValue> {
    texts.iter().map(|t| j(t)).collect()
}

fn changed<'a>(fields: &'a [(String, JsonValue)], key: &str) -> Option<&'a JsonValue> {
    fields.iter().find(|(k, _)| k == key).map(|(_, v)| v)
}

#[test]
fn identical_results_produce_empty_diff() {
    let data = rows(&[r#"{"_id": "1", "name": "Alice"}"#]);
    let diff = compute_diff(&data, &data);
    assert!(diff.is_empty());
}

#[test]
fn detects_added_entities() {
    let old = rows(&[r#"{"_id": "1", "name": "Alice"}"#]);
    let new = rows(&[
        r#"{"_id": "1", "name": "Alice"}"#,
        r#"{"_id": "2", "name": "Bob"}"#,
    ]);
    let diff = compute_diff(&old, &new);
    assert_eq!(diff.added.len(), 1);
    assert_eq!(diff.removed.len(), 0);
    assert_eq!(diff.updated.len(), 0);
    assert!(json_eq_exec(&diff.added[0], &new[1]));
}

#[test]
fn detects_removed_entities() {
    let old = rows(&[
        r#"{"_id": "1", "name": "Alice"}"#,
        r#"{"_id": "2", "name": "Bob"}"#,
    ]);
    let new = rows(&[r#"{"_id": "1", "name": "Alice"}"#]);
    let diff = compute_diff(&old, &new);
    assert_eq!(diff.removed, vec!["2"]);
}

#[test]
fn detects_field_changes() {
    let old = rows(&[r#"{"_id": "1", "name": "Alice", "age": 30}"#]);
    let new = rows(&[r#"{"_id": "1", "name": "Alice", "age": 31}"#]);
    let diff = compute_diff(&old, &new);
    assert_eq!(diff.updated.len(), 1);
    assert_eq!(diff.updated[0].entity_id, "1");
    assert!(json_eq_exec(changed(&diff.updated[0].changed_fields, "age").unwrap(), &j("31")));
}

#[test]
fn detects_removed_fields() {
    let old = rows(&[r#"{"_id": "1", "name": "Alice", "temp": true}"#]);
    let new = rows(&[r#"{"_id": "1", "name": "Alice"}"#]);
    let diff = compute_diff(&old, &new);
    assert_eq!(diff.updated.len(), 1);
    assert_eq!(diff.updated[0].removed_fields, vec!["temp"]);
}

#[test]
fn empty_to_empty_produces_empty_diff() {
    let diff = compute_diff(&vec![], &vec![]);
    assert!(diff.is_empty());
    assert_eq!(diff.change_count(), 0);
    assert!(QueryDiff::new().is_empty());
}

#[test]
fn empty_to_nonempty_all_added() {
    let new = rows(&[r#"{"_id": "1", "x": 1}"#, r#"{"_id": "2", "x": 2}"#]);
    let diff = compute_diff(&vec![], &new);
    assert_eq!(diff.added.len(), 2);
    assert!(diff.removed.is_empty());
    assert!(diff.updated.is_empty());
}

#[test]
fn nonempty_to_empty_all_removed() {
    let old = rows(&[r#"{"_id": "1", "x": 1}"#, r#"{"_id": "2", "x": 2}"#]);
    let diff = compute_diff(&old, &vec![]);
    assert_eq!(diff.removed.len(), 2);
    assert!(diff.added.is_empty());
    assert!(diff.updated.is_empty());
}

#[test]
fn nested_object_change_detected() {
    let old = rows(&[r#"{"_id": "1", "meta": {"level": 1, "tag": "a"}}"#]);
    let new = rows(&[r#"{"_id": "1", "meta": {"level": 2, "tag": "a"}}"#]);
    let diff = compute_diff(&old, &new);
    assert_eq!(diff.updated.len(), 1);
    assert!(json_eq_exec(
        changed(&diff.updated[0].changed_fields, "meta").unwrap(),
        &j(r#"{"level": 2, "tag": "a"}"#)
    ));
}

#[test]
fn array_field_change_detected() {
    let old = rows(&[r#"{"_id": "1", "tags": ["a", "b"]}"#]);
    let new = rows(&[r#"{"_id": "1", "tags": ["a", "c"]}"#]);
    let diff = compute_diff(&old, &new);
    assert_eq!(diff.updated.len(), 1);
    assert!(json_eq_exec(
        changed(&diff.updated[0].changed_fields, "tags").unwrap(),
        &j(r#"["a", "c"]"#)
    ));
}

#[test]
fn null_value_changes() {
    let old = rows(&[r#"{"_id": "1", "value": null}"#]);
    let new = rows(&[r#"{"_id": "1", "value": 42}"#]);
    let diff = compute_diff(&old, &new);
    assert_eq!(diff.updated.len(), 1);
    assert!(json_eq_exec(changed(&diff.updated[0].changed_fields, "value").unwrap(), &j("42")));
}

#[test]
fn value_to_null_change() {
    let old = rows(&[r#"{"_id": "1", "value": 42}"#]);
    let new = rows(&[r#"{"_id": "1", "value": null}"#]);
    let diff = compute_diff(&old, &new);
    assert_eq!(diff.updated.len(), 1);
    assert!(json_eq_exec(
        changed(&diff.updated[0].changed_fields, "value").unwrap(),
        &JsonValue::Null
    ));
}

#[test]
fn added_new_field() {
    let old = rows(&[r#"{"_id": "1", "name": "Alice"}"#]);
    let new = rows(&[r#"{"_id": "1", "name": "Alice", "email": "a@b.c"}"#]);
    let diff = compute_diff(&old, &new);
    assert_eq!(diff.updated.len(), 1);
    assert!(json_eq_exec(
        changed(&diff.updated[0].changed_fields, "email").unwrap(),
        &j(r#""a@b.c""#)
    ));
    assert!(diff.updated[0].removed_fields.is_empty());
}

#[test]
fn simultaneous_add_remove_update() {
    let old = rows(&[
        r#"{"_id": "1", "name": "Alice"}"#,
        r#"{"_id": "2", "name": "Bob"}"#,
    ]);
    let new = rows(&[
        r#"{"_id": "1", "name": "Alice2"}"#,
        r#"{"_id": "3", "name": "Charlie"}"#,
    ]);
    let diff = compute_diff(&old, &new);
    assert_eq!(diff.added.len(), 1);
    assert_eq!(diff.removed, vec!["2"]);
    assert_eq!(diff.updated.len(), 1);
    assert_eq!(diff.change_count(), 3);
}

#[test]
fn entities_with_numeric_ids() {
    let old = rows(&[r#"{"id": 1, "val": "a"}"#]);
    let new = rows(&[r#"{"id": 1, "val": "b"}"#]);
    let diff = compute_diff(&old, &new);
    assert_eq!(diff.updated.len(), 1);
    assert_eq!(diff.updated[0].entity_id, "1");
}

#[test]
fn entities_without_ids_treated_as_unkeyed() {
    let old = rows(&[r#"{"name": "Alice"}"#]);
    let new = rows(&[r#"{"name": "Bob"}"#]);
    let diff = compute_diff(&old, &new);
    assert_eq!(diff.added.len(), 1);
    assert_eq!(diff.removed.len(), 1);
    assert!(diff.removed[0].starts_with("__unkeyed:"));
}

#[test]
fn unkeyed_identical_rows_are_unchanged() {
    let data = rows(&[r#"{"name": "Alice"}"#]);
    assert!(compute_diff(&data, &data).is_empty());
}

#[test]
fn hash_value_canonical_key_order() {
    let a = JsonValue::Object(vec![
        ("z".into(), j("1")),
        ("a".into(), j("2")),
        ("m".into(), j("3")),
    ]);
    let b = JsonValue::Object(vec![
        ("a".into(), j("2")),
        ("m".into(), j("3")),
        ("z".into(), j("1")),
    ]);
    assert_eq!(hash_value(&a), hash_value(&b));
}

#[test]
fn hash_value_nested_canonical() {
    let a = JsonValue::Object(vec![(
        "outer".into(),
        JsonValue::Object(vec![("z".into(), j("1")), ("a".into(), j("2"))]),
    )]);
    let b = JsonValue::Object(vec![(
        "outer".into(),
        JsonValue::Object(vec![("a".into(), j("2")), ("z".into(), j("1"))]),
    )]);
    assert_eq!(hash_value(&a), hash_value(&b));
}

#[test]
fn hash_result_set_order_independent() {
    let a = rows(&[r#"{"_id": "1"}"#, r#"{"_id": "2"}"#]);
    let b = rows(&[r#"{"_id": "2"}"#, r#"{"_id": "1"}"#]);
    assert_eq!(hash_result_set(&a), hash_result_set(&b));
}

#[test]
fn hash_result_set_different_content() {
    let a = rows(&[r#"{"_id": "1"}"#]);
    let b = rows(&[r#"{"_id": "2"}"#]);
    assert_ne!(hash_result_set(&a), hash_result_set(&b));
}

#[test]
fn hash_result_set_is_xor_of_row_hashes() {
    let a = rows(&[r#"{"_id": "1"}"#, r#"{"_id": "2"}"#]);
    let len_hash = |n: usize| {
        let mut h = std::collections::hash_map::DefaultHasher::new();
        n.hash(&mut h);
        h.finish()
    };
    assert_eq!(
        hash_result_set(&a),
        len_hash(2) ^ hash_value(&a[0]) ^ hash_value(&a[1])
    );
    assert_eq!(hash_result_set(&vec![]), len_hash(0));
}

#[test]
fn hash_distinguishes_types() {
    assert_ne!(hash_value(&j("null")), hash_value(&j("false")));
    assert_ne!(hash_value(&j("0")), hash_value(&j(r#""0""#)));
    assert_ne!(hash_value(&j("[]")), hash_value(&j("{}")));
}

#[test]
fn deeply_nested_diff() {
    let old = rows(&[r#"{"_id": "1", "a": {"b": {"c": {"d": 1}}}}"#]);
    let new = rows(&[r#"{"_id": "1", "a": {"b": {"c": {"d": 2}}}}"#]);
    let diff = compute_diff(&old, &new);
    assert_eq!(diff.updated.len(), 1);
    assert!(changed(&diff.updated[0].changed_fields, "a").is_some());
}

#[test]
fn entity_id_extraction_priority() {
    let entity = j(r#"{"_id": "preferred", "id": "fallback"}"#);
    assert_eq!(extract_entity_id(&entity), Some("preferred".into()));

    let entity = j(r#"{"id": "used", "entity_id": "fallback"}"#);
    assert_eq!(extract_entity_id(&entity), Some("used".into()));

    let entity = j(r#"{"entity_id": "last"}"#);
    assert_eq!(extract_entity_id(&entity), Some("last".into()));

    assert_eq!(extract_entity_id(&j(r#"{"name": "x"}"#)), None);
    assert_eq!(extract_entity_id(&j(r#"{"_id": true}"#)), Some("true".into()));
    assert_eq!(
        extract_entity_id(&j(r#"{"id": {"a": [1, "x"]}}"#)),
        Some(r#"{"a":[1,"x"]}"#.into())
    );
    assert_eq!(extract_entity_id(&j("[1]")), None);
}

#[test]
fn same_entities_different_order_no_diff() {
    let old = rows(&[
        r#"{"_id": "1", "name": "Alice"}"#,
        r#"{"_id": "2", "name": "Bob"}"#,
    ]);
    let new = rows(&[
        r#"{"_id": "2", "name": "Bob"}"#,
        r#"{"_id": "1", "name": "Alice"}"#,
    ]);
    let diff = compute_diff(&old, &new);
    assert!(diff.is_empty());
}

#[test]
fn triple_change_added_field() {
    let old = rows(&[r#"{"_id": "1", "name": "Alice"}"#]);
    let new = rows(&[r#"{"_id": "1", "name": "Alice", "email": "a@b.c"}"#]);
    let diff = compute_diff(&old, &new);
    assert_eq!(diff.updated.len(), 1);
    let patch = &diff.updated[0];
    assert_eq!(patch.added_triples.len(), 1);
    assert_eq!(patch.added_triples[0].attribute, "email");
    assert!(json_eq_exec(&patch.added_triples[0].value, &j(r#""a@b.c""#)));
    assert!(patch.updated_triples.is_empty());
    assert!(patch.removed_triples.is_empty());
}

#[test]
fn triple_change_removed_field() {
    let old = rows(&[r#"{"_id": "1", "name": "Alice", "temp": true}"#]);
    let new = rows(&[r#"{"_id": "1", "name": "Alice"}"#]);
    let diff = compute_diff(&old, &new);
    assert_eq!(diff.updated.len(), 1);
    let patch = &diff.updated[0];
    assert_eq!(patch.removed_triples.len(), 1);
    assert_eq!(patch.removed_triples[0].attribute, "temp");
    assert!(json_eq_exec(&patch.removed_triples[0].value, &j("true")));
    assert!(patch.added_triples.is_empty());
    assert!(patch.updated_triples.is_empty());
}

#[test]
fn triple_change_updated_field() {
    let old = rows(&[r#"{"_id": "1", "name": "Alice", "age": 30}"#]);
    let new = rows(&[r#"{"_id": "1", "name": "Alice", "age": 31}"#]);
    let diff = compute_diff(&old, &new);
    assert_eq!(diff.updated.len(), 1);
    let patch = &diff.updated[0];
    assert_eq!(patch.updated_triples.len(), 1);
    assert_eq!(patch.updated_triples[0].attribute, "age");
    assert!(json_eq_exec(&patch.updated_triples[0].value, &j("31")));
    assert!(patch.added_triples.is_empty());
    assert!(patch.removed_triples.is_empty());
}

#[test]
fn triple_change_mixed_operations() {
    let old = rows(&[r#"{"_id": "1", "name": "Alice", "age": 30, "temp": true}"#]);
    let new = rows(&[r#"{"_id": "1", "name": "Alice", "age": 31, "email": "a@b.c"}"#]);
    let diff = compute_diff(&old, &new);
    assert_eq!(diff.updated.len(), 1);
    let patch = &diff.updated[0];
    assert_eq!(patch.updated_triples.len(), 1);
    assert_eq!(patch.updated_triples[0].attribute, "age");
    assert_eq!(patch.added_triples.len(), 1);
    assert_eq!(patch.added_triples[0].attribute, "email");
    assert_eq!(patch.removed_triples.len(), 1);
    assert_eq!(patch.removed_triples[0].attribute, "temp");
}

#[test]
fn entity_patch_of_non_objects() {
    assert!(compute_entity_patch("1", &j("1"), &j("2")).is_none());
    assert!(compute_entity_patch("1", &j(r#"{"a": 1}"#), &j(r#"{"a": 1}"#)).is_none());
    let p = compute_entity_patch("9", &j(r#"{"a": 1}"#), &j(r#"{"a": 2}"#)).unwrap();
    assert_eq!(p.entity_id, "9");
}

#[test]
fn large_result_set_diff() {
    let old: Vec<JsonValue> = (0..100)
        .map(|i| j(&format!(r#"{{"_id": "{i}", "val": {i}}}"#)))
        .collect();
    let mut new: Vec<JsonValue> = (0..100)
        .filter(|i| *i != 50)
        .map(|i| {
            let val = if i == 25 { 999 } else { i };
            j(&format!(r#"{{"_id": "{i}", "val": {val}}}"#))
        })
        .collect();
    new.push(j(r#"{"_id": "100", "val": 100}"#));
    let diff = compute_diff(&old, &new);
    assert_eq!(diff.added.len(), 1);
    assert_eq!(diff.removed.len(), 1);
    assert_eq!(diff.updated.len(), 1);
    assert_eq!(diff.removed[0], "50");
    assert_eq!(diff.updated[0].entity_id, "25");
}

#[test]
fn equal_hashes_of_different_sets_still_diff() {
    let old = rows(&[r#"{"_id":"1"}"#, r#"{"_id":"1"}"#]);
    let new = rows(&[r#"{"_id":"2"}"#, r#"{"_id":"2"}"#]);
    assert_eq!(hash_result_set(&old), hash_result_set(&new));
    let d = compute_diff(&old, &new);
    assert_eq!(d.removed, vec!["1".to_string()]);
    assert_eq!(d.added.len(), 1);
    assert!(json_eq_exec(&d.added[0], &j(r#"{"_id":"2"}"#)));
    assert!(d.updated.is_empty());
}

#[test]
fn diff_of_a_set_with_itself_is_empty() {
    let a = rows(&[r#"{"_id":"1","x":1}"#, r#"{"id":"2","y":[1,2]}"#, r#"{"z":3}"#]);
    let d = compute_diff(&a, &a);
    assert!(d.added.is_empty());
    assert!(d.removed.is_empty());
    assert!(d.updated.is_empty());
}
