use darshjdb_core::json::{json_eq_exec, FloatNumber, JsonNumber, JsonValue};
use darshjdb_core::tables::migration::{
    check_merge, copied_triples, duplicate_config, merge_retractions, move_attribute, rename_retractions,
    renamed_config, split_attribute, split_groups,
    split_table_config, split_table_name,
};
use darshjdb_core::triple_store::Triple;
use darshjdb_core::tables::templates::{
    builtin_templates, get_template, infer_triple_value_type, plan_from_template, project_tracker,
};
use darshjdb_core::tables::{
    slugify, FieldId, TableConfig, TableId, TableSettings,
};

fn number_of(n: &serde_json::Number) -> JsonNumber {
    if let Some(u) = n.as_u64() {
        JsonNumber::PosInt(u)
    } else if let Some(i) = n.as_i64() {
        JsonNumber::NegInt(i)
    } else {
        JsonNumber::Float(FloatNumber {
            bits: n.as_f64().unwrap().to_bits(),
            text: n.to_string(),
        })
    }
}

fn to_json(v: &serde_json::Value) -> JsonValue {
    match v {
        serde_json::Value::Null => JsonValue::Null,
        serde_json::Value::Bool(b) => JsonValue::Bool(*b),
        serde_json::Value::Number(n) => JsonValue::Number(number_of(n)),
        serde_json::Value::String(s) => JsonValue::String(s.clone()),
        serde_json::Value::Array(a) => JsonValue::Array(a.iter().map(to_json).collect()),
        serde_json::Value::Object(m) => {
            JsonValue::Object(m.iter().map(|(k, v)| (k.clone(), to_json(v))).collect())
        }
    }
}

fn j(text: &str) -> JsonValue {
    to_json(&serde_json::from_str(text).unwrap())
}

// ── Identifiers and settings ────────────────────────────────────────

#[test]
fn table_id_generates_unique() {
    let a = TableId::new();
    let b = TableId::new();
    assert_ne!(a, b);
}

#[test]
fn table_id_default() {
    let a = TableId::default();
    let b = TableId::default();
    assert_ne!(a, b);
}

#[test]
fn table_id_entity_id_matches() {
    let id = TableId::new();
    assert_eq!(id.entity_id(), id.0);
}

#[test]
fn table_id_display() {
    let id = TableId(0);
    assert_eq!(id.to_string(), uuid::Uuid::nil().to_string());
    let v = uuid::Uuid::new_v4();
    assert_eq!(TableId(v.as_u128()).to_string(), v.to_string());
}

#[test]
fn field_id_generates_unique() {
    let a = FieldId::new();
    let b = FieldId::new();
    assert_ne!(a, b);
}

#[test]
fn ids_are_version_4_uuids() {
    let id = uuid::Uuid::from_u128(TableId::new().0);
    assert_eq!(id.get_version_num(), 4);
}

#[test]
fn table_settings_default() {
    let s = TableSettings::default();
    assert!(s.allow_duplicates);
    assert!(s.enable_history);
    assert_eq!(s.max_records, None);
    assert!(!s.enable_comments);
}

#[test]
fn table_config_new() {
    let config = TableConfig::new("My Test Table");
    assert_eq!(config.name, "My Test Table");
    assert_eq!(config.slug, "my-test-table");
    assert!(config.description.is_none());
    assert!(config.icon.is_none());
    assert!(config.color.is_none());
    assert!(config.primary_field.is_none());
    assert!(config.field_ids.is_empty());
    assert!(config.default_view_id.is_none());
    assert_eq!(config.settings, TableSettings::default());
    assert_eq!(config.created_at, config.updated_at);
}

// ── Slugs ───────────────────────────────────────────────────────────

#[test]
fn slugify_basic() {
    assert_eq!(slugify("Hello World"), "hello-world");
}

#[test]
fn slugify_special_chars() {
    assert_eq!(slugify("My Table! (v2)"), "my-table-v2");
}

#[test]
fn slugify_consecutive_specials() {
    assert_eq!(slugify("a---b   c"), "a-b-c");
}

#[test]
fn slugify_leading_trailing() {
    assert_eq!(slugify("  hello  "), "hello");
}

#[test]
fn slugify_numbers() {
    assert_eq!(slugify("Phase 3 Plan"), "phase-3-plan");
}

#[test]
fn slugify_empty() {
    assert_eq!(slugify(""), "");
}

#[test]
fn slugify_only_special() {
    assert_eq!(slugify("!@#$%"), "");
}

#[test]
fn slugify_is_idempotent_on_examples() {
    for s in ["Hello World", "a---b   c", "  x  ", "Q3 Plan!"] {
        let once = slugify(s);
        assert_eq!(slugify(&once), once);
    }
}

// ── Table restructuring ─────────────────────────────────────────────

#[test]
fn slugify_for_rename() {
    let old = slugify("My Table");
    let new = slugify("Your Table");
    assert_ne!(old, new);
    assert_eq!(old, "my-table");
    assert_eq!(new, "your-table");
}

#[test]
fn slugify_same_name_same_slug() {
    let a = slugify("Projects");
    let b = slugify("Projects");
    assert_eq!(a, b);
}

#[test]
fn split_field_attribute_format() {
    assert_eq!(split_attribute("project-tracker", "Status"), "project-tracker/status");
}

#[test]
fn merge_same_table_would_fail() {
    let id = TableId::new();
    assert_eq!(
        check_merge(id, id),
        Err("Cannot merge a table into itself".to_string())
    );
    assert!(check_merge(id, TableId::new()).is_ok());
}

#[test]
fn new_table_name_on_split() {
    assert_eq!(split_table_name("Contacts", "Engineering"), "Contacts - Engineering");
}

#[test]
fn uncategorized_fallback() {
    assert_eq!(split_table_name("Contacts", "__none__"), "Contacts - Uncategorized");
}

#[test]
fn move_attribute_between_slugs() {
    assert_eq!(move_attribute("a/name", "a", "b"), "b/name");
    assert_eq!(move_attribute("c/name", "a", "b"), "c/name");
    assert_eq!(move_attribute(&move_attribute("a/x/y", "a", "b"), "b", "a"), "a/x/y");
}

// ── Templates ───────────────────────────────────────────────────────

fn field_names(name: &str) -> Vec<String> {
    get_template(name)
        .unwrap()
        .fields
        .iter()
        .map(|f| f.name.clone())
        .collect()
}

#[test]
fn builtin_templates_not_empty() {
    let templates = builtin_templates();
    assert!(templates.len() >= 5);
}

#[test]
fn all_templates_have_fields() {
    for t in builtin_templates() {
        assert!(!t.fields.is_empty(), "Template '{}' has no fields", t.name);
    }
}

#[test]
fn all_templates_have_names() {
    for t in builtin_templates() {
        assert!(!t.name.is_empty());
        assert!(!t.description.is_empty());
    }
}

#[test]
fn get_template_by_name() {
    let t = get_template("project_tracker").unwrap();
    assert_eq!(t.name, "project_tracker");
    assert!(t.fields.len() >= 6);
}

#[test]
fn get_template_case_insensitive() {
    let t = get_template("PROJECT_TRACKER").unwrap();
    assert_eq!(t.name, "project_tracker");
}

#[test]
fn get_template_unknown_returns_none() {
    assert!(get_template("nonexistent").is_none());
}

#[test]
fn project_tracker_fields() {
    let names = field_names("project_tracker");
    for n in ["Name", "Status", "Priority", "Assignee", "Due Date", "Description"] {
        assert!(names.iter().any(|x| x == n), "{n}");
    }
}

#[test]
fn contacts_fields() {
    let names = field_names("contacts");
    for n in ["Name", "Email", "Phone", "Company", "Tags", "Notes", "Last Contact"] {
        assert!(names.iter().any(|x| x == n), "{n}");
    }
}

#[test]
fn inventory_fields() {
    let names = field_names("inventory");
    for n in ["Product Name", "SKU", "Quantity", "Price", "Reorder Level"] {
        assert!(names.iter().any(|x| x == n), "{n}");
    }
}

#[test]
fn content_calendar_fields() {
    let names = field_names("content_calendar");
    for n in ["Title", "Status", "Author", "Publish Date", "URL"] {
        assert!(names.iter().any(|x| x == n), "{n}");
    }
}

#[test]
fn bug_tracker_fields() {
    let names = field_names("bug_tracker");
    for n in ["Title", "Severity", "Status", "Reporter", "Steps to Reproduce", "Environment"] {
        assert!(names.iter().any(|x| x == n), "{n}");
    }
}

#[test]
fn project_tracker_has_sample_data() {
    let t = get_template("project_tracker").unwrap();
    assert!(!t.sample_data.is_empty());
    let first = &t.sample_data[0];
    assert!(first.iter().any(|(k, _)| k == "Name"));
    assert!(first.iter().any(|(k, _)| k == "Status"));
}

#[test]
fn select_fields_have_choices() {
    for t in builtin_templates() {
        for f in &t.fields {
            if f.field_type == "select" {
                let choices = f
                    .options
                    .iter()
                    .find(|(k, _)| k == "choices")
                    .map(|(_, v)| v);
                assert!(
                    choices.is_some(),
                    "Select field '{}' in template '{}' missing choices",
                    f.name,
                    t.name
                );
                match choices.unwrap() {
                    JsonValue::Array(items) => assert!(
                        !items.is_empty(),
                        "Select field '{}' has empty choices",
                        f.name
                    ),
                    other => panic!("choices is not an array: {other:?}"),
                }
            }
        }
    }
}

#[test]
fn infer_value_type_string() {
    assert_eq!(infer_triple_value_type(&j(r#""hello""#)), 0);
}

#[test]
fn infer_value_type_integer() {
    assert_eq!(infer_triple_value_type(&j("42")), 1);
}

#[test]
fn infer_value_type_float() {
    assert_eq!(infer_triple_value_type(&j("3.14")), 2);
}

#[test]
fn infer_value_type_bool() {
    assert_eq!(infer_triple_value_type(&j("true")), 3);
}

#[test]
fn infer_value_type_json_object() {
    assert_eq!(infer_triple_value_type(&j(r#"{"key": "val"}"#)), 6);
}

#[test]
fn infer_value_type_json_array() {
    assert_eq!(infer_triple_value_type(&j("[1, 2, 3]")), 6);
}

#[test]
fn plan_from_unknown_template_fails() {
    let err = plan_from_template("nope", "X").unwrap_err();
    assert_eq!(
        err,
        "Unknown template 'nope'. Available: project_tracker, contacts, inventory, content_calendar, bug_tracker"
    );
}

#[test]
fn plan_from_template_lays_out_fields_and_records() {
    let t = project_tracker();
    let plan = plan_from_template("project_tracker", "My Projects").unwrap();
    assert_eq!(plan.config.name, "My Projects");
    assert_eq!(plan.config.slug, "my-projects");
    assert_eq!(plan.config.description.as_deref(), Some(t.description.as_str()));
    assert_eq!(plan.config.field_ids.len(), t.fields.len());
    assert_eq!(plan.config.primary_field, Some(plan.config.field_ids[0]));
    assert_eq!(plan.field_triples.len(), t.fields.len());
    assert_eq!(plan.record_ids.len(), t.sample_data.len());

    let first_field = &plan.field_triples[0];
    assert_eq!(first_field.len(), 6);
    assert_eq!(first_field[0].attribute, ":db/type");
    assert!(json_eq_exec(&first_field[0].value, &j(r#""__field""#)));
    assert_eq!(first_field[1].attribute, "field/table_id");
    assert!(json_eq_exec(
        &first_field[1].value,
        &JsonValue::String(plan.config.id.to_string())
    ));
    assert_eq!(first_field[5].attribute, "field/order");
    assert!(json_eq_exec(&first_field[5].value, &j("0")));

    let rec = &plan.record_triples[0];
    assert_eq!(rec[0].entity_id, plan.record_ids[0]);
    assert!(json_eq_exec(&rec[0].value, &j(r#""my-projects""#)));
    assert_eq!(rec.len(), 1 + t.sample_data[0].len());
    assert!(rec[1..].iter().all(|x| x.attribute.starts_with("my-projects/")));
}

#[test]
fn inventory_sample_price_is_a_float() {
    let t = get_template("inventory").unwrap();
    let price = t
        .sample_data
        .iter()
        .flat_map(|row| row.iter())
        .find(|(k, _)| k == "Price")
        .map(|(_, v)| v)
        .expect("a sample row has a price");
    match price {
        JsonValue::Number(JsonNumber::Float(FloatNumber { bits, text })) => {
            assert_eq!(*bits, 29.99f64.to_bits());
            assert_eq!(text, "29.99");
        }
        other => panic!("price is not a float: {other:?}"),
    }
}

fn fact(entity: u128, attribute: &str, value: JsonValue) -> Triple {
    Triple {
        id: 0,
        entity_id: entity,
        attribute: attribute.to_string(),
        value,
        value_type: 0,
        tx_id: 1,
        created_at: 0,
        retracted: false,
        expires_at: None,
    }
}

#[test]
fn split_groups_by_field_value_in_order_of_first_sight() {
    let records = vec![
        (1u128, vec![fact(1, ":db/type", j(r#""tasks""#)), fact(1, "tasks/status", j(r#""open""#))]),
        (2u128, vec![fact(2, "tasks/status", j(r#""done""#))]),
        (3u128, vec![fact(3, "tasks/title", j(r#""x""#))]),
        (4u128, vec![fact(4, "tasks/status", j(r#""open""#))]),
        (5u128, vec![fact(5, "tasks/status", j("7"))]),
    ];
    let groups = split_groups(&records, "tasks/status").unwrap();
    let summary: Vec<(String, Vec<u128>)> = groups;
    assert_eq!(
        summary,
        vec![
            ("open".to_string(), vec![1, 4]),
            ("done".to_string(), vec![2]),
            ("__none__".to_string(), vec![3]),
            ("7".to_string(), vec![5]),
        ]
    );
    let err = split_groups(&vec![], "tasks/status").unwrap_err();
    assert_eq!(err, "No records found to split");
}

#[test]
fn split_table_config_copies_structure_with_fresh_fields() {
    let mut source = TableConfig::new("Tasks");
    source.description = Some("d".into());
    source.icon = Some("i".into());
    source.color = Some("#fff".into());
    source.field_ids = vec![FieldId::new(), FieldId::new()];
    let c = split_table_config(&source, "__none__");
    assert_eq!(c.name, "Tasks - Uncategorized");
    assert_eq!(c.slug, "tasks-uncategorized");
    assert_eq!(c.description.as_deref(), Some("d"));
    assert_eq!(c.icon.as_deref(), Some("i"));
    assert!(c.color.is_none());
    assert_eq!(c.field_ids.len(), 2);
    assert!(!c.field_ids.contains(&source.field_ids[0]));
    assert_eq!(c.primary_field, Some(c.field_ids[0]));
}

#[test]
fn duplicate_config_maps_the_primary_field() {
    let mut source = TableConfig::new("Tasks");
    source.color = Some("#fff".into());
    let a = FieldId::new();
    let b = FieldId::new();
    source.field_ids = vec![a, b];
    source.primary_field = Some(b);
    let c = duplicate_config(&source, "Copy");
    assert_eq!(c.name, "Copy");
    assert_eq!(c.slug, "copy");
    assert_eq!(c.color.as_deref(), Some("#fff"));
    assert_eq!(c.field_ids.len(), 2);
    assert_eq!(c.primary_field, Some(c.field_ids[1]));
    source.primary_field = Some(FieldId::new());
    assert_eq!(duplicate_config(&source, "Copy").primary_field, None);
}

#[test]
fn copied_triples_point_at_the_new_table() {
    let triples = vec![
        fact(1, "tasks/title", j(r#""x""#)),
        fact(1, ":db/type", j(r#""tasks""#)),
        fact(1, "other/attr", j("3")),
    ];
    let out = copied_triples(9, &triples, "tasks", "copy");
    assert_eq!(out.len(), 3);
    assert!(out.iter().all(|t| t.entity_id == 9));
    assert_eq!(out[0].attribute, "copy/title");
    assert_eq!(out[1].attribute, ":db/type");
    assert!(json_eq_exec(&out[1].value, &j(r#""copy""#)));
    assert_eq!(out[2].attribute, "other/attr");
}

#[test]
fn builtin_template_names_are_distinct_and_rows_name_fields() {
    let all = builtin_templates();
    for (a, t) in all.iter().enumerate() {
        for u in all.iter().skip(a + 1) {
            assert_ne!(t.name, u.name);
        }
        for row in &t.sample_data {
            for (k, _) in row {
                assert!(t.fields.iter().any(|f| &f.name == k), "{k}");
            }
        }
    }
}

#[test]
fn renamed_config_tells_when_records_move() {
    let config = TableConfig::new("Tasks");
    let (same, moves) = renamed_config(&config, "TASKS", 99);
    assert!(!moves);
    assert_eq!(same.name, "TASKS");
    assert_eq!(same.slug, "tasks");
    assert_eq!(same.updated_at, 99);
    assert_eq!(same.id, config.id);
    let (other, moves) = renamed_config(&config, "Jobs", 100);
    assert!(moves);
    assert_eq!(other.slug, "jobs");
}

#[test]
fn retractions_for_merge_and_rename() {
    let triples = vec![
        fact(1, ":db/type", j(r#""tasks""#)),
        fact(1, "tasks/title", j(r#""x""#)),
        fact(1, "other/attr", j("3")),
        fact(1, "tasks/done", j("true")),
    ];
    assert_eq!(
        merge_retractions(&triples),
        vec![":db/type".to_string(), "tasks/title".into(), "other/attr".into(), "tasks/done".into()]
    );
    assert_eq!(
        rename_retractions(&triples, "tasks"),
        vec![":db/type".to_string(), "tasks/title".into(), "tasks/done".into()]
    );
}

#[test]
fn config_from_request_checks_the_name() {
    let req = darshjdb_core::tables::CreateTableRequest {
        name: "Orders".into(),
        description: Some("d".into()),
        icon: None,
        color: Some("#000".into()),
        settings: None,
        template: None,
    };
    let c = darshjdb_core::tables::config_from_request(&req).unwrap();
    assert_eq!(c.name, "Orders");
    assert_eq!(c.slug, "orders");
    assert_eq!(c.description.as_deref(), Some("d"));
    assert_eq!(c.color.as_deref(), Some("#000"));
    assert_eq!(c.settings, TableSettings::default());
    let blank = darshjdb_core::tables::CreateTableRequest { name: "  ".into(), ..req };
    assert_eq!(
        darshjdb_core::tables::config_from_request(&blank).unwrap_err(),
        "Table name must not be empty"
    );
}

#[test]
fn slug_is_the_lowercased_alphanumeric_runs() {
    assert_eq!(slugify("  Hello,  World!! 42 "), "hello-world-42");
    assert_eq!(slugify("ÄÖ über-Straße"), "ber-stra-e");
    assert_eq!(slugify("a"), "a");
}
