use darshjdb_core::json::JsonValue;
use darshjdb_core::triple_store::infer::{schema_from_rows, schema_from_text_rows, EntityTypeBuilder};
use darshjdb_core::triple_store::schema::{
    AttributeInfo, EntityType, MigrationAction, MigrationGenerator, ReferenceInfo, Schema,
    ValueType,
};
use darshjdb_core::triple_store::{Triple, TripleError, TripleInput};

fn same<T: std::fmt::Debug>(a: &T, b: &T) -> bool {
    format!("{a:?}") == format!("{b:?}")
}

fn attr(name: &str, vts: Vec<ValueType>, required: bool, card: u64) -> AttributeInfo {
    AttributeInfo {
        name: name.to_string(),
        value_types: vts,
        required,
        cardinality: card,
    }
}

fn entity_type(name: &str, attrs: Vec<(&str, Vec<ValueType>, bool, u64)>, count: u64) -> EntityType {
    EntityType {
        name: name.to_string(),
        attributes: attrs
            .into_iter()
            .map(|(aname, vts, req, card)| attr(aname, vts, req, card))
            .collect(),
        references: vec![],
        entity_count: count,
    }
}

fn schema_with(types: Vec<EntityType>) -> Schema {
    Schema {
        entity_types: types,
        as_of_tx: 0,
    }
}

const ALL: [ValueType; 7] = [
    ValueType::String,
    ValueType::Integer,
    ValueType::Float,
    ValueType::Boolean,
    ValueType::Timestamp,
    ValueType::Reference,
    ValueType::Json,
];

// ── ValueType ───────────────────────────────────────────────────────

#[test]
fn value_type_round_trip_all_variants() {
    for v in ALL {
        let raw = v as i16;
        assert_eq!(ValueType::from_i16(raw), Some(v), "from_i16 failed for {v:?}");
        assert_eq!(ValueType::try_from(raw), Ok(v), "TryFrom failed for {v:?}");
        assert_eq!(v.to_i16(), raw);
    }
}

#[test]
fn value_type_from_i16_invalid() {
    assert_eq!(ValueType::from_i16(-1), None);
    assert_eq!(ValueType::from_i16(7), None);
    assert_eq!(ValueType::from_i16(99), None);
    assert_eq!(ValueType::from_i16(i16::MAX), None);
    assert_eq!(ValueType::from_i16(i16::MIN), None);
}

#[test]
fn value_type_try_from_invalid_returns_raw() {
    assert_eq!(ValueType::try_from(42_i16), Err(42));
    assert_eq!(ValueType::try_from(-1_i16), Err(-1));
}

#[test]
fn value_type_display_matches_label() {
    for v in ALL {
        assert_eq!(v.to_string(), v.label());
    }
}

#[test]
fn value_type_labels_are_lowercase() {
    for i in 0..=ValueType::max_discriminator() {
        let vt = ValueType::from_i16(i).unwrap();
        let label = vt.label();
        assert_eq!(label, label.to_lowercase(), "label not lowercase: {label}");
        assert!(!label.is_empty());
    }
}

#[test]
fn value_type_discriminator_contiguous() {
    for i in 0..=ValueType::max_discriminator() {
        assert!(ValueType::from_i16(i).is_some(), "gap at discriminator {i}");
    }
    assert!(ValueType::from_i16(ValueType::max_discriminator() + 1).is_none());
}

#[test]
fn value_type_labels() {
    let labels: Vec<&str> = ALL.iter().map(|v| v.label()).collect();
    assert_eq!(
        labels,
        vec!["string", "integer", "float", "boolean", "timestamp", "reference", "json"]
    );
}

// ── Schema types ────────────────────────────────────────────────────

#[test]
fn attribute_info_equality() {
    let a1 = attr("email", vec![ValueType::String], true, 5);
    let a2 = attr("email", vec![ValueType::String], true, 5);
    assert!(same(&a1, &a2));

    let a3 = attr("email", vec![ValueType::String], false, 5);
    assert!(!same(&a1, &a3));
}

#[test]
fn schema_default_is_empty() {
    let s = Schema::default();
    assert!(s.entity_types.is_empty());
    assert_eq!(s.as_of_tx, 0);
}

#[test]
fn reference_info_equality() {
    let r1 = ReferenceInfo {
        attribute: "author_id".into(),
        target_type: "User".into(),
        cardinality: 3,
    };
    let r2 = r1.clone();
    assert!(same(&r1, &r2));
}

#[test]
fn entity_type_with_no_attributes() {
    let et = entity_type("Empty", vec![], 0);
    assert!(et.attributes.is_empty());
    assert_eq!(et.entity_count, 0);
}

#[test]
fn schema_equality() {
    let s1 = schema_with(vec![entity_type(
        "X",
        vec![("a", vec![ValueType::Boolean], true, 1)],
        1,
    )]);
    let s2 = s1.clone();
    assert!(same(&s1, &s2));
}

#[test]
fn schema_inequality_different_tx() {
    let mut s1 = Schema::default();
    let mut s2 = Schema::default();
    s1.as_of_tx = 10;
    s2.as_of_tx = 20;
    assert!(!same(&s1, &s2));
}

#[test]
fn schema_lookups_by_name() {
    let s = schema_with(vec![entity_type(
        "User",
        vec![("name", vec![ValueType::String], true, 5)],
        5,
    )]);
    let et = s.entity_type("User").unwrap();
    assert_eq!(et.attribute("name").unwrap().cardinality, 5);
    assert!(et.attribute("age").is_none());
    assert!(s.entity_type("Post").is_none());
}

// ── Schema diff ─────────────────────────────────────────────────────

#[test]
fn diff_empty_to_empty() {
    let actions = MigrationGenerator::diff(&Schema::default(), &Schema::default());
    assert!(actions.is_empty());
}

#[test]
fn diff_empty_to_new_type() {
    let old = Schema::default();
    let new = schema_with(vec![entity_type(
        "User",
        vec![("name", vec![ValueType::String], true, 10)],
        10,
    )]);
    let actions = MigrationGenerator::diff(&old, &new);
    assert_eq!(actions.len(), 2);
    assert!(matches!(&actions[0], MigrationAction::AddEntityType { name } if name == "User"));
    assert!(matches!(
        &actions[1],
        MigrationAction::AddAttribute { entity_type, attribute, .. }
        if entity_type == "User" && attribute == "name"
    ));
}

#[test]
fn diff_remove_type() {
    let old = schema_with(vec![entity_type(
        "User",
        vec![("name", vec![ValueType::String], true, 5)],
        5,
    )]);
    let actions = MigrationGenerator::diff(&old, &Schema::default());
    assert_eq!(actions.len(), 1);
    assert!(matches!(&actions[0], MigrationAction::RemoveEntityType { name } if name == "User"));
}

#[test]
fn diff_add_attribute_to_existing_type() {
    let old = schema_with(vec![entity_type(
        "User",
        vec![("name", vec![ValueType::String], true, 5)],
        5,
    )]);
    let new = schema_with(vec![entity_type(
        "User",
        vec![
            ("name", vec![ValueType::String], true, 5),
            ("age", vec![ValueType::Integer], false, 3),
        ],
        5,
    )]);
    let actions = MigrationGenerator::diff(&old, &new);
    assert_eq!(actions.len(), 1);
    assert!(matches!(
        &actions[0],
        MigrationAction::AddAttribute { entity_type, attribute, .. }
        if entity_type == "User" && attribute == "age"
    ));
}

#[test]
fn diff_remove_attribute_from_existing_type() {
    let old = schema_with(vec![entity_type(
        "User",
        vec![
            ("name", vec![ValueType::String], true, 5),
            ("age", vec![ValueType::Integer], false, 3),
        ],
        5,
    )]);
    let new = schema_with(vec![entity_type(
        "User",
        vec![("name", vec![ValueType::String], true, 5)],
        5,
    )]);
    let actions = MigrationGenerator::diff(&old, &new);
    assert_eq!(actions.len(), 1);
    assert!(matches!(
        &actions[0],
        MigrationAction::RemoveAttribute { entity_type, attribute }
        if entity_type == "User" && attribute == "age"
    ));
}

#[test]
fn diff_alter_attribute_type_change() {
    let old = schema_with(vec![entity_type(
        "User",
        vec![("score", vec![ValueType::Integer], true, 5)],
        5,
    )]);
    let new = schema_with(vec![entity_type(
        "User",
        vec![("score", vec![ValueType::Float], true, 5)],
        5,
    )]);
    let actions = MigrationGenerator::diff(&old, &new);
    assert_eq!(actions.len(), 1);
    assert!(matches!(
        &actions[0],
        MigrationAction::AlterAttribute { entity_type, attribute, old_types, new_types }
        if entity_type == "User" && attribute == "score"
            && *old_types == vec![ValueType::Integer] && *new_types == vec![ValueType::Float]
    ));
}

#[test]
fn diff_attribute_type_widening() {
    let old = schema_with(vec![entity_type(
        "Doc",
        vec![("payload", vec![ValueType::String], true, 5)],
        5,
    )]);
    let new = schema_with(vec![entity_type(
        "Doc",
        vec![("payload", vec![ValueType::String, ValueType::Json], true, 5)],
        5,
    )]);
    let actions = MigrationGenerator::diff(&old, &new);
    assert_eq!(actions.len(), 1);
    assert!(matches!(&actions[0], MigrationAction::AlterAttribute { .. }));
}

#[test]
fn diff_no_change_is_empty() {
    let s = schema_with(vec![entity_type(
        "User",
        vec![("name", vec![ValueType::String], true, 5)],
        5,
    )]);
    let actions = MigrationGenerator::diff(&s, &s.clone());
    assert!(actions.is_empty());
}

#[test]
fn diff_multiple_types_add_and_remove() {
    let old = schema_with(vec![entity_type("A", vec![], 1), entity_type("B", vec![], 2)]);
    let new = schema_with(vec![entity_type("B", vec![], 2), entity_type("C", vec![], 3)]);
    let actions = MigrationGenerator::diff(&old, &new);
    assert!(actions
        .iter()
        .any(|a| matches!(a, MigrationAction::AddEntityType { name } if name == "C")));
    assert!(actions
        .iter()
        .any(|a| matches!(a, MigrationAction::RemoveEntityType { name } if name == "A")));
    let add_pos = actions
        .iter()
        .position(|a| matches!(a, MigrationAction::AddEntityType { .. }))
        .unwrap();
    let rem_pos = actions
        .iter()
        .position(|a| matches!(a, MigrationAction::RemoveEntityType { .. }))
        .unwrap();
    assert!(add_pos < rem_pos, "additions must precede removals");
}

#[test]
fn diff_deterministic_ordering() {
    let old = schema_with(vec![
        entity_type("Zebra", vec![("z", vec![ValueType::String], true, 1)], 1),
        entity_type("Apple", vec![("a", vec![ValueType::String], true, 1)], 1),
    ]);
    let new = schema_with(vec![
        entity_type("Mango", vec![("m", vec![ValueType::Integer], true, 1)], 1),
        entity_type("Banana", vec![("b", vec![ValueType::Boolean], true, 1)], 1),
    ]);
    let first = MigrationGenerator::diff(&old, &new);
    for _ in 0..20 {
        let again = MigrationGenerator::diff(&old, &new);
        assert!(same(&first, &again), "diff output must be deterministic");
    }
}

#[test]
fn diff_orders_types_by_name() {
    let old = schema_with(vec![
        entity_type("Zebra", vec![], 1),
        entity_type("Apple", vec![], 1),
    ]);
    let new = schema_with(vec![
        entity_type("Mango", vec![], 1),
        entity_type("Banana", vec![], 1),
    ]);
    let names: Vec<String> = MigrationGenerator::diff(&old, &new)
        .iter()
        .map(|a| match a {
            MigrationAction::AddEntityType { name } => format!("+{name}"),
            MigrationAction::RemoveEntityType { name } => format!("-{name}"),
            other => format!("{other:?}"),
        })
        .collect();
    assert_eq!(names, vec!["+Banana", "+Mango", "-Apple", "-Zebra"]);
}

#[test]
fn diff_complex_scenario() {
    let old = schema_with(vec![
        entity_type(
            "User",
            vec![
                ("name", vec![ValueType::String], true, 5),
                ("email", vec![ValueType::String], true, 5),
            ],
            5,
        ),
        entity_type("Post", vec![("title", vec![ValueType::String], true, 3)], 3),
    ]);
    let new = schema_with(vec![
        entity_type(
            "User",
            vec![
                ("name", vec![ValueType::String], true, 5),
                ("age", vec![ValueType::Integer], false, 3),
            ],
            5,
        ),
        entity_type(
            "Post",
            vec![
                ("title", vec![ValueType::String], true, 3),
                ("body", vec![ValueType::String], false, 2),
            ],
            3,
        ),
        entity_type("Comment", vec![("text", vec![ValueType::String], true, 10)], 10),
    ]);
    let actions = MigrationGenerator::diff(&old, &new);
    let count = |f: fn(&MigrationAction) -> bool| actions.iter().filter(|a| f(a)).count();
    assert_eq!(
        count(|a| matches!(a, MigrationAction::AddEntityType { .. })),
        1,
        "one new type: Comment"
    );
    assert_eq!(
        count(|a| matches!(a, MigrationAction::AddAttribute { .. })),
        3,
        "Comment.text + Post.body + User.age"
    );
    assert_eq!(
        count(|a| matches!(a, MigrationAction::RemoveAttribute { .. })),
        1,
        "User.email removed"
    );
}

// ── Triples ─────────────────────────────────────────────────────────

fn input(attribute: String, value: JsonValue, value_type: i16) -> TripleInput {
    TripleInput {
        entity_id: uuid::Uuid::new_v4().as_u128(),
        attribute,
        value,
        value_type,
        ttl_seconds: None,
    }
}

#[test]
fn triple_clone_is_independent() {
    let t = Triple {
        id: 1,
        entity_id: uuid::Uuid::new_v4().as_u128(),
        attribute: "x".into(),
        value: JsonValue::Null,
        value_type: 1,
        tx_id: 1,
        created_at: 0,
        retracted: false,
        expires_at: None,
    };
    let mut cloned = t.clone();
    cloned.retracted = true;
    assert!(!t.retracted);
    assert!(cloned.retracted);
}

#[test]
fn triple_input_valid() {
    let i = input("user/email".into(), JsonValue::String("a@b.com".into()), ValueType::String as i16);
    assert!(i.validate().is_ok());
}

#[test]
fn triple_input_empty_attribute_rejected() {
    let err = input("".into(), JsonValue::String("x".into()), 0).validate().unwrap_err();
    assert!(
        matches!(err, TripleError::InvalidAttribute(ref msg) if msg.contains("empty")),
        "expected InvalidAttribute(empty), got: {err:?}"
    );
}

#[test]
fn triple_input_overlong_attribute_rejected() {
    let err = input("a".repeat(513), JsonValue::String("x".into()), 0)
        .validate()
        .unwrap_err();
    assert!(
        matches!(err, TripleError::InvalidAttribute(ref msg) if msg.contains("512")),
        "expected InvalidAttribute(512), got: {err:?}"
    );
}

#[test]
fn triple_input_overlong_counts_bytes() {
    let err = input("é".repeat(257), JsonValue::Null, 0).validate().unwrap_err();
    assert!(
        matches!(err, TripleError::InvalidAttribute(ref msg) if msg == "attribute name exceeds 512 bytes: 514 bytes"),
        "{err:?}"
    );
}

#[test]
fn triple_input_invalid_value_type_rejected() {
    let err = input("valid".into(), JsonValue::Null, 99).validate().unwrap_err();
    assert!(
        matches!(err, TripleError::TypeMismatch { .. }),
        "expected TypeMismatch, got: {err:?}"
    );
}

#[test]
fn triple_input_negative_value_type_rejected() {
    assert!(input("valid".into(), JsonValue::Bool(true), -1).validate().is_err());
}

#[test]
fn triple_input_all_valid_types_accepted() {
    for vt in 0..=ValueType::max_discriminator() {
        assert!(
            input("a".into(), JsonValue::Null, vt).validate().is_ok(),
            "value_type {vt} should be valid"
        );
    }
}

#[test]
fn triple_input_boundary_attribute_length() {
    assert!(input("a".repeat(512), JsonValue::Null, 0).validate().is_ok());
}

// ── Entity type inference ───────────────────────────────────────────

fn uid() -> u128 {
    uuid::Uuid::new_v4().as_u128()
}

#[test]
fn builder_single_entity_single_attr() {
    let mut b = EntityTypeBuilder::new("User".into());
    b.observe(uid(), "name", ValueType::String as i16);
    let et = b.build(None, "_unknown");
    assert_eq!(et.name, "User");
    assert_eq!(et.entity_count, 1);
    assert_eq!(et.attributes.len(), 1);
    let attr = et.attribute("name").unwrap();
    assert_eq!(attr.value_types, vec![ValueType::String]);
    assert!(attr.required);
}

#[test]
fn builder_required_detection() {
    let mut b = EntityTypeBuilder::new("User".into());
    let e1 = uid();
    let e2 = uid();
    b.observe(e1, "name", ValueType::String as i16);
    b.observe(e2, "name", ValueType::String as i16);
    b.observe(e1, "bio", ValueType::String as i16);
    let et = b.build(None, "_unknown");
    assert!(et.attribute("name").unwrap().required, "name seen on all entities");
    assert!(!et.attribute("bio").unwrap().required, "bio not seen on all entities");
}

#[test]
fn builder_polymorphic_value_types() {
    let mut b = EntityTypeBuilder::new("Doc".into());
    let eid = uid();
    b.observe(eid, "data", ValueType::String as i16);
    b.observe(eid, "data", ValueType::Json as i16);
    let et = b.build(None, "_unknown");
    let vts = &et.attribute("data").unwrap().value_types;
    assert!(vts.contains(&ValueType::String));
    assert!(vts.contains(&ValueType::Json));
}

#[test]
fn builder_unknown_value_type_filtered() {
    let mut b = EntityTypeBuilder::new("X".into());
    b.observe(uid(), "weird", 99);
    let et = b.build(None, "_unknown");
    assert!(et.attribute("weird").unwrap().value_types.is_empty());
}

#[test]
fn builder_reference_detection() {
    let mut b = EntityTypeBuilder::new("Post".into());
    b.observe(uid(), "author_id", ValueType::Reference as i16);
    let et = b.build(None, "_unknown");
    assert_eq!(et.references.len(), 1);
    assert_eq!(et.references[0].attribute, "author_id");
    assert_eq!(et.references[0].target_type, "_unknown");
}

#[test]
fn builder_no_entities_no_required() {
    let b = EntityTypeBuilder::new("Empty".into());
    let et = b.build(None, "_unknown");
    assert_eq!(et.entity_count, 0);
    assert!(et.attributes.is_empty());
}

#[test]
fn builder_deduplicates_value_types() {
    let mut b = EntityTypeBuilder::new("T".into());
    let eid = uid();
    for _ in 0..3 {
        b.observe(eid, "x", ValueType::Integer as i16);
    }
    let et = b.build(None, "_unknown");
    assert_eq!(et.attribute("x").unwrap().value_types.len(), 1);
}

#[test]
fn builder_cardinality_counts_distinct_entities() {
    let mut b = EntityTypeBuilder::new("T".into());
    let e1 = uid();
    let e2 = uid();
    b.observe(e1, "x", 0);
    b.observe(e1, "x", 0);
    b.observe(e2, "x", 0);
    let et = b.build(None, "_unknown");
    assert_eq!(et.attribute("x").unwrap().cardinality, 2);
}

#[test]
fn builder_skips_named_attribute() {
    let mut b = EntityTypeBuilder::new("T".into());
    let e = uid();
    b.observe(e, ":db/type", 0);
    b.observe(e, "x", 0);
    let et = b.build(Some(":db/type"), "unknown");
    assert_eq!(et.attributes.len(), 1);
    assert!(et.attribute(":db/type").is_none());
}

#[test]
fn schema_from_rows_groups_by_type() {
    let u1 = 1u128;
    let u2 = 2u128;
    let p1 = 3u128;
    let users = Some(JsonValue::String("users".into()));
    let posts = Some(JsonValue::String("posts".into()));
    let rows = vec![
        (u1, "name".to_string(), 0i16, users.clone()),
        (u2, "name".to_string(), 0i16, users.clone()),
        (u1, "bio".to_string(), 0i16, users),
        (p1, "author".to_string(), 5i16, posts),
        (9u128, "loose".to_string(), 0i16, None),
    ];
    let schema = schema_from_rows(&rows, 77);
    assert_eq!(schema.as_of_tx, 77);
    let names: Vec<&str> = schema.entity_types.iter().map(|t| t.name.as_str()).collect();
    assert_eq!(names, vec!["users", "posts", "_untyped"]);
    let users = schema.entity_type("users").unwrap();
    assert_eq!(users.entity_count, 2);
    assert!(users.attribute("name").unwrap().required);
    assert!(!users.attribute("bio").unwrap().required);
    let posts = schema.entity_type("posts").unwrap();
    assert_eq!(posts.references[0].target_type, "_unknown");
}

#[test]
fn schema_from_text_rows_uses_db_type() {
    let types = vec![
        ("a".to_string(), "users".to_string()),
        ("b".to_string(), "users".to_string()),
    ];
    let rows = vec![
        ("a".to_string(), ":db/type".to_string(), 0i16),
        ("a".to_string(), "name".to_string(), 0i16),
        ("b".to_string(), "name".to_string(), 0i16),
        ("c".to_string(), "orphan".to_string(), 0i16),
    ];
    let schema = schema_from_text_rows(&types, &rows, 5);
    let names: Vec<&str> = schema.entity_types.iter().map(|t| t.name.as_str()).collect();
    assert_eq!(names, vec!["users", "_untyped"]);
    let users = &schema.entity_types[0];
    assert_eq!(users.entity_count, 2);
    assert_eq!(users.attributes.len(), 2);
    assert!(users.attribute("name").unwrap().required);
    assert!(!users.attribute(":db/type").unwrap().required);
    assert_eq!(schema.entity_type("_untyped").unwrap().entity_count, 1);
}

#[test]
fn diff_orders_all_additions_before_removals() {
    let old = schema_with(vec![
        entity_type("A", vec![("x", vec![ValueType::String], true, 1)], 1),
        entity_type("B", vec![], 1),
    ]);
    let new = schema_with(vec![
        entity_type("A", vec![], 1),
        entity_type("B", vec![("y", vec![ValueType::Integer], true, 1)], 1),
    ]);
    let actions = MigrationGenerator::diff(&old, &new);
    assert_eq!(actions.len(), 2);
    assert!(matches!(
        &actions[0],
        MigrationAction::AddAttribute { entity_type, attribute, .. }
        if entity_type == "B" && attribute == "y"
    ));
    assert!(matches!(
        &actions[1],
        MigrationAction::RemoveAttribute { entity_type, attribute }
        if entity_type == "A" && attribute == "x"
    ));
}

#[test]
fn text_schema_is_the_schema_of_the_same_facts() {
    let types = vec![("good".to_string(), "user".to_string())];
    let rows = vec![
        ("good".to_string(), ":db/type".to_string(), 0i16),
        ("good".to_string(), "user/email".to_string(), 0i16),
        ("good".to_string(), "user/friend".to_string(), 5i16),
        ("bad".to_string(), ":db/type".to_string(), 6i16),
        ("bad".to_string(), "user/email".to_string(), 0i16),
    ];
    let text = schema_from_text_rows(&types, &rows, 1);
    let user_type = Some(JsonValue::String("user".into()));
    let typed = vec![
        (0u128, ":db/type".to_string(), 0i16, user_type.clone()),
        (0u128, "user/email".to_string(), 0i16, user_type.clone()),
        (0u128, "user/friend".to_string(), 5i16, user_type.clone()),
        (1u128, ":db/type".to_string(), 6i16, None),
        (1u128, "user/email".to_string(), 0i16, None),
    ];
    let pg = schema_from_rows(&typed, 1);
    assert!(same(&text, &pg));
    let names: Vec<&str> = text.entity_types.iter().map(|t| t.name.as_str()).collect();
    assert_eq!(names, vec!["user", "_untyped"]);
    let user = text.entity_type("user").unwrap();
    assert_eq!(user.references[0].target_type, "_unknown");
}
