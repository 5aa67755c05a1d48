use darshjdb_core::json::{JsonNumber, JsonValue};
use darshjdb_core::schema::migration::{backfill_plan, SchemaMigrationAction, SchemaMigrationEngine};
use darshjdb_core::schema::strict::StrictValueType;
use darshjdb_core::schema::{
    opt_ft_equal, FieldDefinition, FieldType, IndexDefinition, SchemaMode, TableSchema,
};

fn parses_to(input: &str, expected: Option<FieldType>) -> bool {
    opt_ft_equal(&FieldType::parse(input), &expected)
}

#[test]
fn schema_mode_parse_round_trip() {
    for (input, expected) in [
        ("SCHEMAFULL", SchemaMode::Schemafull),
        ("schemafull", SchemaMode::Schemafull),
        ("STRICT", SchemaMode::Schemafull),
        ("SCHEMALESS", SchemaMode::Schemaless),
        ("FLEXIBLE", SchemaMode::Schemaless),
        ("MIXED", SchemaMode::Mixed),
        ("HYBRID", SchemaMode::Mixed),
    ] {
        assert_eq!(SchemaMode::parse(input), Some(expected), "parse({input})");
    }
    assert_eq!(SchemaMode::parse("invalid"), None);
}

#[test]
fn schema_mode_display() {
    assert_eq!(SchemaMode::Schemafull.to_string(), "SCHEMAFULL");
    assert_eq!(SchemaMode::Schemaless.to_string(), "SCHEMALESS");
    assert_eq!(SchemaMode::Mixed.to_string(), "MIXED");
}

#[test]
fn schema_mode_default_is_schemaless() {
    assert_eq!(SchemaMode::default(), SchemaMode::Schemaless);
}

#[test]
fn field_type_parse_basic() {
    assert!(parses_to("string", Some(FieldType::String)));
    assert!(parses_to("INT", Some(FieldType::Int)));
    assert!(parses_to("float", Some(FieldType::Float)));
    assert!(parses_to("bool", Some(FieldType::Bool)));
    assert!(parses_to("datetime", Some(FieldType::Datetime)));
    assert!(parses_to("uuid", Some(FieldType::Uuid)));
    assert!(parses_to("json", Some(FieldType::Json)));
    assert!(parses_to("any", Some(FieldType::Any)));
}

#[test]
fn field_type_parse_record() {
    assert!(parses_to("record", Some(FieldType::Record(None))));
    assert!(parses_to(
        "record(users)",
        Some(FieldType::Record(Some("users".into())))
    ));
}

#[test]
fn field_type_parse_array() {
    assert!(parses_to(
        "array<string>",
        Some(FieldType::Array(Box::new(FieldType::String)))
    ));
    assert!(parses_to(
        "array<int>",
        Some(FieldType::Array(Box::new(FieldType::Int)))
    ));
}

#[test]
fn field_type_parse_union() {
    let ft = FieldType::parse("string | int").unwrap();
    assert!(opt_ft_equal(
        &Some(ft),
        &Some(FieldType::Union(vec![FieldType::String, FieldType::Int]))
    ));
}

#[test]
fn field_type_parse_rejects_unknown() {
    assert!(FieldType::parse("bogus").is_none());
    assert!(FieldType::parse("array<bogus>").is_none());
}

#[test]
fn field_type_display() {
    assert_eq!(FieldType::String.to_string(), "string");
    assert_eq!(FieldType::Int.to_string(), "int");
    assert_eq!(
        FieldType::Record(Some("users".into())).to_string(),
        "record(users)"
    );
    assert_eq!(
        FieldType::Array(Box::new(FieldType::String)).to_string(),
        "array<string>"
    );
}

#[test]
fn field_type_display_parses_back() {
    for text in ["string", "record(users)", "array<int>", "record", "json"] {
        let ft = FieldType::parse(text).unwrap();
        assert_eq!(ft.to_string(), text);
    }
}

#[test]
fn field_definition_builder() {
    let field = FieldDefinition::new("email", FieldType::String)
        .required()
        .unique()
        .with_assert("$value != \"\"");

    assert_eq!(field.name, "email");
    assert!(field.required);
    assert!(field.unique);
    assert_eq!(field.assert_expr.as_deref(), Some("$value != \"\""));
}

#[test]
fn table_schema_schemafull_builder() {
    let schema = TableSchema::schemafull("users")
        .define_field(FieldDefinition::new("name", FieldType::String).required())
        .define_field(
            FieldDefinition::new("age", FieldType::Int)
                .with_default(JsonValue::Number(JsonNumber::PosInt(0))),
        )
        .define_index(IndexDefinition {
            name: "idx_email".into(),
            fields: vec!["email".into()],
            unique: true,
        });

    assert_eq!(schema.name, "users");
    assert_eq!(schema.mode, SchemaMode::Schemafull);
    assert_eq!(schema.fields.len(), 2);
    assert_eq!(schema.indexes.len(), 1);
    assert!(schema.index("idx_email").unwrap().unique);
}

#[test]
fn table_schema_define_field_replaces_same_name() {
    let schema = TableSchema::schemafull("users")
        .define_field(FieldDefinition::new("name", FieldType::String))
        .define_field(FieldDefinition::new("name", FieldType::Int).required());
    assert_eq!(schema.fields.len(), 1);
    let f = schema.field("name").unwrap();
    assert!(f.required);
    assert_eq!(f.field_type.as_ref().unwrap().to_string(), "int");
}

#[test]
fn table_schema_schemaless_by_default() {
    let schema = TableSchema::schemaless("logs");
    assert_eq!(schema.mode, SchemaMode::Schemaless);
    assert!(schema.fields.is_empty());
}

#[test]
fn field_type_to_value_type_discriminator() {
    assert_eq!(FieldType::String.to_value_type_i16(), 0);
    assert_eq!(FieldType::Int.to_value_type_i16(), 1);
    assert_eq!(FieldType::Float.to_value_type_i16(), 2);
    assert_eq!(FieldType::Bool.to_value_type_i16(), 3);
    assert_eq!(FieldType::Datetime.to_value_type_i16(), 4);
    assert_eq!(FieldType::Uuid.to_value_type_i16(), 5);
    assert_eq!(FieldType::Record(None).to_value_type_i16(), 5);
    assert_eq!(FieldType::Json.to_value_type_i16(), 6);
}

#[test]
fn value_type_parse_accepts_all_slice_tags() {
    for tag in [
        "string",
        "number",
        "boolean",
        "datetime",
        "uuid",
        "array",
        "object",
        "geometry",
        "vector",
        "link:users",
    ] {
        assert!(
            StrictValueType::parse(tag).is_some(),
            "tag {tag} must parse"
        );
    }
    assert!(StrictValueType::parse("bogus").is_none());
    assert!(
        StrictValueType::parse("link:").is_none(),
        "empty link target is invalid"
    );
}

// ── Schema migration diff ───────────────────────────────────────────

#[test]
fn diff_no_changes() {
    let schema = TableSchema::schemafull("users")
        .define_field(FieldDefinition::new("name", FieldType::String));
    let actions = SchemaMigrationEngine::diff(&schema, &schema.clone());
    assert!(actions.is_empty());
}

#[test]
fn diff_mode_change() {
    let old = TableSchema::schemaless("users");
    let new = TableSchema::schemafull("users");
    let actions = SchemaMigrationEngine::diff(&old, &new);
    assert_eq!(actions.len(), 1);
    assert!(matches!(
        &actions[0],
        SchemaMigrationAction::ChangeMode {
            from: SchemaMode::Schemaless,
            to: SchemaMode::Schemafull,
            ..
        }
    ));
}

#[test]
fn diff_add_field() {
    let old = TableSchema::schemafull("users");
    let new = TableSchema::schemafull("users")
        .define_field(FieldDefinition::new("email", FieldType::String).required());
    let actions = SchemaMigrationEngine::diff(&old, &new);
    assert_eq!(actions.len(), 1);
    assert!(matches!(
        &actions[0],
        SchemaMigrationAction::AddField { field, .. } if field.name == "email"
    ));
}

#[test]
fn diff_remove_field() {
    let old = TableSchema::schemafull("users")
        .define_field(FieldDefinition::new("old_field", FieldType::String));
    let new = TableSchema::schemafull("users");
    let actions = SchemaMigrationEngine::diff(&old, &new);
    assert_eq!(actions.len(), 1);
    assert!(matches!(
        &actions[0],
        SchemaMigrationAction::RemoveField { field_name, .. } if field_name == "old_field"
    ));
}

#[test]
fn diff_alter_field_type() {
    let old = TableSchema::schemafull("users")
        .define_field(FieldDefinition::new("score", FieldType::Int));
    let new = TableSchema::schemafull("users")
        .define_field(FieldDefinition::new("score", FieldType::Float));
    let actions = SchemaMigrationEngine::diff(&old, &new);
    assert!(actions.iter().any(|a| matches!(
        a,
        SchemaMigrationAction::AlterFieldType { field_name, .. } if field_name == "score"
    )));
}

#[test]
fn diff_alter_required_flag() {
    let old = TableSchema::schemafull("users")
        .define_field(FieldDefinition::new("bio", FieldType::String));
    let new = TableSchema::schemafull("users")
        .define_field(FieldDefinition::new("bio", FieldType::String).required());
    let actions = SchemaMigrationEngine::diff(&old, &new);
    assert!(actions.iter().any(|a| matches!(
        a,
        SchemaMigrationAction::AlterFieldRequired {
            from: false,
            to: true,
            ..
        }
    )));
}

#[test]
fn diff_add_index() {
    let old = TableSchema::schemafull("users");
    let new = TableSchema::schemafull("users").define_index(IndexDefinition {
        name: "idx_email".into(),
        fields: vec!["email".into()],
        unique: true,
    });
    let actions = SchemaMigrationEngine::diff(&old, &new);
    assert!(actions.iter().any(|a| matches!(
        a,
        SchemaMigrationAction::AddIndex { index_name, unique: true, .. } if index_name == "idx_email"
    )));
}

#[test]
fn diff_remove_index() {
    let old = TableSchema::schemafull("users").define_index(IndexDefinition {
        name: "idx_old".into(),
        fields: vec!["old".into()],
        unique: false,
    });
    let new = TableSchema::schemafull("users");
    let actions = SchemaMigrationEngine::diff(&old, &new);
    assert!(actions.iter().any(|a| matches!(
        a,
        SchemaMigrationAction::RemoveIndex { index_name, .. } if index_name == "idx_old"
    )));
}

#[test]
fn diff_complex_migration() {
    let old = TableSchema::schemaless("posts")
        .define_field(FieldDefinition::new("title", FieldType::String).required())
        .define_field(FieldDefinition::new("body", FieldType::String))
        .define_index(IndexDefinition {
            name: "idx_old".into(),
            fields: vec!["title".into()],
            unique: false,
        });

    let new = TableSchema::schemafull("posts")
        .define_field(FieldDefinition::new("title", FieldType::String).required())
        .define_field(
            FieldDefinition::new("views", FieldType::Int)
                .with_default(JsonValue::Number(JsonNumber::PosInt(0))),
        )
        .define_index(IndexDefinition {
            name: "idx_title".into(),
            fields: vec!["title".into()],
            unique: true,
        });

    let actions = SchemaMigrationEngine::diff(&old, &new);

    assert!(actions
        .iter()
        .any(|a| matches!(a, SchemaMigrationAction::ChangeMode { .. })));
    assert!(actions.iter().any(|a| matches!(
        a,
        SchemaMigrationAction::AddField { field, .. } if field.name == "views"
    )));
    assert!(actions.iter().any(|a| matches!(
        a,
        SchemaMigrationAction::RemoveField { field_name, .. } if field_name == "body"
    )));
    assert!(actions.iter().any(|a| matches!(
        a,
        SchemaMigrationAction::AddIndex { index_name, .. } if index_name == "idx_title"
    )));
    assert!(actions.iter().any(|a| matches!(
        a,
        SchemaMigrationAction::RemoveIndex { index_name, .. } if index_name == "idx_old"
    )));
}

#[test]
fn diff_deterministic_order() {
    let old = TableSchema::schemafull("t")
        .define_field(FieldDefinition::new("z", FieldType::String))
        .define_field(FieldDefinition::new("a", FieldType::String));
    let new = TableSchema::schemafull("t")
        .define_field(FieldDefinition::new("m", FieldType::Int))
        .define_field(FieldDefinition::new("b", FieldType::Bool));

    let first = SchemaMigrationEngine::diff(&old, &new);
    for _ in 0..20 {
        let again = SchemaMigrationEngine::diff(&old, &new);
        assert_eq!(
            format!("{first:?}"),
            format!("{again:?}"),
            "diff must be deterministic"
        );
    }
}

#[test]
fn diff_adds_and_removes_in_name_order() {
    let old = TableSchema::schemafull("t")
        .define_field(FieldDefinition::new("z", FieldType::String))
        .define_field(FieldDefinition::new("a", FieldType::String));
    let new = TableSchema::schemafull("t")
        .define_field(FieldDefinition::new("m", FieldType::Int))
        .define_field(FieldDefinition::new("b", FieldType::Bool));
    let actions = SchemaMigrationEngine::diff(&old, &new);
    let names: Vec<String> = actions
        .iter()
        .map(|a| match a {
            SchemaMigrationAction::AddField { field, .. } => format!("+{}", field.name),
            SchemaMigrationAction::RemoveField { field_name, .. } => format!("-{field_name}"),
            other => format!("{other:?}"),
        })
        .collect();
    assert_eq!(names, vec!["+b", "+m", "-a", "-z"]);
}

#[test]
fn keyword_types_display_then_parse_back() {
    let types = vec![
        FieldType::String,
        FieldType::Int,
        FieldType::Float,
        FieldType::Bool,
        FieldType::Datetime,
        FieldType::Uuid,
        FieldType::Json,
        FieldType::Record(None),
        FieldType::Any,
        FieldType::Array(Box::new(FieldType::Array(Box::new(FieldType::Int)))),
    ];
    for t in types {
        assert!(parses_to(&t.to_string(), Some(t.clone())), "{}", t.to_string());
    }
}

#[test]
fn backfill_plan_names_attribute_and_type() {
    let f = FieldDefinition::new("age", FieldType::Int).with_default(JsonValue::Number(JsonNumber::PosInt(18)));
    let (attr, value, vt) = backfill_plan("users", &f).unwrap();
    assert_eq!(attr, "users/age");
    assert!(matches!(value, JsonValue::Number(JsonNumber::PosInt(18))));
    assert_eq!(vt, FieldType::Int.to_value_type_i16());
    let mut untyped = f.clone();
    untyped.field_type = None;
    assert_eq!(backfill_plan("users", &untyped).unwrap().2, 6);
    assert!(backfill_plan("users", &FieldDefinition::new("x", FieldType::Int)).is_none());
}

#[test]
fn union_and_record_types_display_then_parse_back() {
    let types = vec![
        FieldType::Record(Some("Users".into())),
        FieldType::Array(Box::new(FieldType::Record(Some("tags".into())))),
        FieldType::Union(vec![FieldType::String, FieldType::Int]),
        FieldType::Union(vec![
            FieldType::Record(Some("Users".into())),
            FieldType::Array(Box::new(FieldType::Float)),
            FieldType::Any,
        ]),
    ];
    for t in types {
        assert!(parses_to(&t.to_string(), Some(t.clone())), "{}", t.to_string());
    }
}
