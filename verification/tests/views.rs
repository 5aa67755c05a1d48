use darshjdb_core::json::{json_eq_exec, JsonValue};
use darshjdb_core::triple_store::Triple;
use darshjdb_core::views::query::{
    apply_view_filters, apply_view_sorts, apply_view_to_query, filter_to_where, project_fields,
    OrderClause, SortDirection, WhereClause, WhereOp,
};
use darshjdb_core::views::store::{build_triples, reconstruct, view_config_blob, view_entity_id};
use darshjdb_core::views::{
    apply_update, new_view, CreateViewRequest, FilterClause, FilterOp, SortClause, SortDir,
    ViewConfig, ViewError, ViewKind, ViewUpdate,
};

// ── Kinds ───────────────────────────────────────────────────────────

#[test]
fn view_kind_roundtrip() {
    for kind in [
        ViewKind::Grid,
        ViewKind::Form,
        ViewKind::Kanban,
        ViewKind::Gallery,
        ViewKind::Calendar,
    ] {
        let s = kind.as_str();
        let parsed = ViewKind::from_str_value(s).expect("should parse");
        assert_eq!(parsed, kind);
    }
}

#[test]
fn view_kind_display() {
    assert_eq!(ViewKind::Grid.to_string(), "grid");
    assert_eq!(ViewKind::Kanban.to_string(), "kanban");
}

#[test]
fn view_kind_rejects_unknown() {
    assert_eq!(ViewKind::from_str_value("table"), None);
    assert_eq!(ViewKind::from_str_value("Grid"), None);
}

// ── Creating and updating ───────────────────────────────────────────

fn request(name: &str, table: &str) -> CreateViewRequest {
    CreateViewRequest {
        name: name.into(),
        kind: ViewKind::Kanban,
        table_entity_type: table.into(),
        filters: vec![FilterClause {
            field: "archived".into(),
            op: FilterOp::Eq,
            value: JsonValue::Bool(false),
        }],
        sorts: vec![SortClause {
            field: "priority".into(),
            direction: SortDir::Asc,
        }],
        field_order: vec![],
        hidden_fields: vec![],
        group_by: None,
        kanban_field: Some("status".into()),
        calendar_field: None,
        color_field: None,
        row_height: None,
    }
}

#[test]
fn new_view_validates_names() {
    assert_eq!(new_view(request("  ", "Task"), 1, 2, 3).unwrap_err(), ViewError::EmptyName);
    assert_eq!(new_view(request("Board", " "), 1, 2, 3).unwrap_err(), ViewError::EmptyTable);
    assert_eq!(ViewError::EmptyName.message(), "view name must not be empty");
    let v = new_view(request("Board", "Task"), 1, 2, 3).unwrap();
    assert_eq!(v.id, 1);
    assert_eq!(v.created_by, 2);
    assert_eq!((v.created_at, v.updated_at), (3, 3));
    assert_eq!(v.kind, ViewKind::Kanban);
    assert_eq!(v.kanban_field.as_deref(), Some("status"));
    assert_eq!(v.filters.len(), 1);
    assert_eq!(v.sorts.len(), 1);
}

#[test]
fn view_update_partial() {
    let mut v = new_view(request("Board", "Task"), 1, 2, 3).unwrap();
    let update = ViewUpdate {
        name: Some("Renamed View".into()),
        filters: Some(vec![FilterClause {
            field: "done".into(),
            op: FilterOp::Eq,
            value: JsonValue::Bool(true),
        }]),
        ..Default::default()
    };
    apply_update(&mut v, update, 10).unwrap();
    assert_eq!(v.name, "Renamed View");
    assert_eq!(v.filters[0].field, "done");
    assert_eq!(v.kind, ViewKind::Kanban);
    assert_eq!(v.sorts.len(), 1);
    assert_eq!(v.updated_at, 10);
    assert_eq!(v.created_at, 3);

    let blank = ViewUpdate {
        name: Some(" ".into()),
        ..Default::default()
    };
    assert_eq!(apply_update(&mut v, blank, 11), Err(ViewError::EmptyName));
    assert_eq!(v.updated_at, 10);
}

// ── Query rewriting ─────────────────────────────────────────────────

fn make_view() -> ViewConfig {
    ViewConfig {
        id: 7,
        name: "Test".into(),
        kind: ViewKind::Grid,
        table_entity_type: "Task".into(),
        filters: vec![
            FilterClause {
                field: "status".into(),
                op: FilterOp::Neq,
                value: JsonValue::String("archived".into()),
            },
            FilterClause {
                field: "assigned".into(),
                op: FilterOp::IsNotEmpty,
                value: JsonValue::Null,
            },
        ],
        sorts: vec![SortClause {
            field: "priority".into(),
            direction: SortDir::Asc,
        }],
        field_order: vec!["title".into(), "status".into(), "priority".into()],
        hidden_fields: vec!["internal_id".into()],
        group_by: None,
        kanban_field: None,
        calendar_field: None,
        color_field: None,
        row_height: None,
        created_by: 0,
        created_at: 0,
        updated_at: 0,
    }
}

#[test]
fn apply_filters_prepends_view_filters() {
    let view = make_view();
    let mut wheres = vec![WhereClause {
        attribute: "title".into(),
        op: WhereOp::Contains,
        value: JsonValue::String("urgent".into()),
    }];
    apply_view_filters(&mut wheres, &view);
    assert_eq!(wheres.len(), 3);
    assert_eq!(wheres[0].attribute, "status");
    assert_eq!(wheres[1].attribute, "assigned");
    assert_eq!(wheres[2].attribute, "title");
}

#[test]
fn apply_sorts_sets_view_sort_when_user_has_none() {
    let view = make_view();
    let mut order: Vec<OrderClause> = vec![];
    apply_view_sorts(&mut order, &view);
    assert_eq!(order.len(), 1);
    assert_eq!(order[0].attribute, "priority");
    assert_eq!(order[0].direction, SortDirection::Asc);
}

#[test]
fn apply_sorts_preserves_user_sort() {
    let view = make_view();
    let mut order = vec![OrderClause {
        attribute: "created_at".into(),
        direction: SortDirection::Desc,
    }];
    apply_view_sorts(&mut order, &view);
    assert_eq!(order.len(), 1);
    assert_eq!(order[0].attribute, "created_at");
}

#[test]
fn apply_view_to_query_does_both() {
    let view = make_view();
    let mut wheres: Vec<WhereClause> = vec![];
    let mut order: Vec<OrderClause> = vec![];
    apply_view_to_query(&mut wheres, &mut order, &view);
    assert_eq!(wheres.len(), 2);
    assert_eq!(wheres[1].op, WhereOp::Neq);
    assert_eq!(order.len(), 1);
}

fn row(pairs: &[(&str, JsonValue)]) -> Vec<(String, JsonValue)> {
    pairs.iter().map(|(k, v)| (k.to_string(), clone(v))).collect()
}

fn clone(v: &JsonValue) -> JsonValue {
    darshjdb_core::json::clone_json(v)
}

#[test]
fn project_fields_hides_and_reorders() {
    let view = make_view();
    let mut rows = vec![row(&[
        ("extra", JsonValue::String("data".into())),
        ("internal_id", JsonValue::String("abc123".into())),
        ("priority", JsonValue::Bool(true)),
        ("status", JsonValue::String("open".into())),
        ("title", JsonValue::String("Fix bug".into())),
    ])];
    project_fields(&mut rows, &view);
    let keys: Vec<&str> = rows[0].iter().map(|(k, _)| k.as_str()).collect();
    assert!(!keys.contains(&"internal_id"));
    assert_eq!(keys[0], "title");
    assert_eq!(keys[1], "status");
    assert_eq!(keys[2], "priority");
    assert!(keys.contains(&"extra"));
}

#[test]
fn project_fields_noop_when_no_config() {
    let mut view = make_view();
    view.field_order.clear();
    view.hidden_fields.clear();
    let mut rows = vec![row(&[("a", JsonValue::Null), ("b", JsonValue::Bool(false))])];
    let original_len = rows[0].len();
    project_fields(&mut rows, &view);
    assert_eq!(rows[0].len(), original_len);
}

#[test]
fn is_empty_filter_produces_null_eq() {
    let filter = FilterClause {
        field: "notes".into(),
        op: FilterOp::IsEmpty,
        value: JsonValue::Null,
    };
    let wheres = filter_to_where(&filter);
    assert_eq!(wheres.len(), 1);
    assert_eq!(wheres[0].op, WhereOp::Eq);
    assert!(matches!(wheres[0].value, JsonValue::Null));
}

#[test]
fn is_not_empty_filter_produces_null_neq() {
    let filter = FilterClause {
        field: "notes".into(),
        op: FilterOp::IsNotEmpty,
        value: JsonValue::Null,
    };
    let wheres = filter_to_where(&filter);
    assert_eq!(wheres.len(), 1);
    assert_eq!(wheres[0].op, WhereOp::Neq);
    assert!(matches!(wheres[0].value, JsonValue::Null));
}

// ── Persistence as triples ──────────────────────────────────────────

#[test]
fn entity_id_deterministic() {
    let id = uuid::Uuid::parse_str("a1b2c3d4-e5f6-7890-abcd-ef1234567890")
        .unwrap()
        .as_u128();
    let eid1 = view_entity_id(id);
    let eid2 = view_entity_id(id);
    assert_eq!(eid1, eid2);
    assert_ne!(eid1, view_entity_id(id + 1));
}

fn to_triples(e: u128, inputs: Vec<darshjdb_core::triple_store::TripleInput>) -> Vec<Triple> {
    inputs
        .into_iter()
        .enumerate()
        .map(|(i, t)| Triple {
            id: i as i64,
            entity_id: e,
            attribute: t.attribute,
            value: t.value,
            value_type: t.value_type,
            tx_id: 1,
            created_at: 0,
            retracted: false,
            expires_at: None,
        })
        .collect()
}

fn member<'a>(v: &'a JsonValue, key: &str) -> Option<&'a JsonValue> {
    match v {
        JsonValue::Object(entries) => entries.iter().find(|(k, _)| k == key).map(|(_, v)| v),
        _ => None,
    }
}

fn text(v: &JsonValue) -> &str {
    match v {
        JsonValue::String(s) => s,
        _ => panic!("not text: {v:?}"),
    }
}

/// Decodes the `filters` and `sorts` members of a stored view blob.
fn decode_clauses(blob: &JsonValue) -> (Vec<FilterClause>, Vec<SortClause>) {
    let op_of = |s: &str| match s {
        "eq" => FilterOp::Eq,
        "neq" => FilterOp::Neq,
        "gt" => FilterOp::Gt,
        "gte" => FilterOp::Gte,
        "lt" => FilterOp::Lt,
        "lte" => FilterOp::Lte,
        "contains" => FilterOp::Contains,
        "is_empty" => FilterOp::IsEmpty,
        _ => FilterOp::IsNotEmpty,
    };
    let mut filters = vec![];
    if let Some(JsonValue::Array(items)) = member(blob, "filters") {
        for f in items {
            filters.push(FilterClause {
                field: text(member(f, "field").unwrap()).to_string(),
                op: op_of(text(member(f, "op").unwrap())),
                value: clone(member(f, "value").unwrap()),
            });
        }
    }
    let mut sorts = vec![];
    if let Some(JsonValue::Array(items)) = member(blob, "sorts") {
        for s in items {
            sorts.push(SortClause {
                field: text(member(s, "field").unwrap()).to_string(),
                direction: if text(member(s, "direction").unwrap()) == "desc" {
                    SortDir::Desc
                } else {
                    SortDir::Asc
                },
            });
        }
    }
    (filters, sorts)
}

fn triple(e: u128, attr: &str, value: JsonValue) -> Triple {
    Triple {
        id: 0,
        entity_id: e,
        attribute: attr.to_string(),
        value,
        value_type: 0,
        tx_id: 1,
        created_at: 0,
        retracted: false,
        expires_at: None,
    }
}

fn s(x: &str) -> JsonValue {
    JsonValue::String(x.to_string())
}

#[test]
fn reconstruct_from_triples() {
    let view_id = uuid::Uuid::new_v4();
    let e = view_entity_id(view_id.as_u128());
    let config = JsonValue::Object(vec![
        ("field_order".into(), JsonValue::Array(vec![s("name"), s("email")])),
        ("filters".into(), JsonValue::Array(vec![])),
        ("hidden_fields".into(), JsonValue::Array(vec![s("internal_id")])),
        (
            "sorts".into(),
            JsonValue::Array(vec![JsonValue::Object(vec![
                ("direction".into(), s("asc")),
                ("field".into(), s("name")),
            ])]),
        ),
    ]);
    let triples = vec![
        triple(e, "view/id", s(&view_id.to_string())),
        triple(e, "view/name", s("Test View")),
        triple(e, "view/kind", s("grid")),
        triple(e, "view/table", s("Contact")),
        triple(e, "view/config", config),
        triple(e, "view/created_by", s(&uuid::Uuid::nil().to_string())),
        triple(e, "view/created_at", s("2024-01-02T03:04:05+00:00")),
        triple(e, "view/updated_at", s("2024-01-02T03:04:05+00:00")),
    ];
    let blob = view_config_blob(e, &triples);
    let (filters, sorts) = decode_clauses(&blob);
    let view = reconstruct(e, &triples, filters, sorts, 0).unwrap();
    assert_eq!(view.id, view_id.as_u128());
    assert_eq!(view.name, "Test View");
    assert_eq!(view.kind, ViewKind::Grid);
    assert_eq!(view.table_entity_type, "Contact");
    assert_eq!(view.sorts.len(), 1);
    assert_eq!(view.field_order, vec!["name", "email"]);
    assert_eq!(view.hidden_fields, vec!["internal_id"]);
    assert_eq!(view.created_by, 0);
    assert_eq!(view.created_at, 1704164645000);
}

#[test]
fn reconstruct_errors() {
    let e = view_entity_id(1);
    assert_eq!(
        reconstruct(e, &[], vec![], vec![], 0).unwrap_err(),
        "view missing view/id"
    );
    let bad_kind = vec![
        triple(e, "view/id", s(&uuid::Uuid::nil().to_string())),
        triple(e, "view/kind", s("table")),
    ];
    assert_eq!(
        reconstruct(e, &bad_kind, vec![], vec![], 0).unwrap_err(),
        "unknown view kind: table"
    );
    let bad_id = vec![triple(e, "view/id", s("nope"))];
    assert!(reconstruct(e, &bad_id, vec![], vec![], 0)
        .unwrap_err()
        .starts_with("invalid view/id: "));
}

#[test]
fn build_triples_roundtrip() {
    let view_id = uuid::Uuid::new_v4().as_u128();
    let e = view_entity_id(view_id);
    let now = 1_700_000_000_123;
    let view = ViewConfig {
        id: view_id,
        name: "Kanban Board".into(),
        kind: ViewKind::Kanban,
        table_entity_type: "Task".into(),
        filters: vec![FilterClause {
            field: "status".into(),
            op: FilterOp::Neq,
            value: s("archived"),
        }],
        sorts: vec![],
        field_order: vec!["title".into(), "status".into()],
        hidden_fields: vec![],
        group_by: None,
        kanban_field: Some("status".into()),
        calendar_field: None,
        color_field: Some("priority".into()),
        row_height: Some(40),
        created_by: 0,
        created_at: now,
        updated_at: now,
    };
    let inputs = build_triples(e, &view).unwrap();
    assert_eq!(inputs.len(), 8);
    let triples = to_triples(e, inputs);
    let blob = view_config_blob(e, &triples);
    let (filters, sorts) = decode_clauses(&blob);
    let back = reconstruct(e, &triples, filters, sorts, 0).unwrap();
    assert_eq!(back.id, view_id);
    assert_eq!(back.name, "Kanban Board");
    assert_eq!(back.kind, ViewKind::Kanban);
    assert_eq!(back.kanban_field, Some("status".into()));
    assert_eq!(back.color_field, Some("priority".into()));
    assert_eq!(back.row_height, Some(40));
    assert_eq!(back.filters.len(), 1);
    assert_eq!(back.filters[0].op, FilterOp::Neq);
    assert!(json_eq_exec(&back.filters[0].value, &s("archived")));
    assert_eq!(back.field_order, vec!["title", "status"]);
    assert_eq!(back.created_at, now);
    assert_eq!(back.updated_at, now);
}

#[test]
fn written_view_reads_back() {
    let mut v = new_view(request("Board", "Task"), 42, 0, 1_704_164_645_000).unwrap();
    v.kind = ViewKind::Kanban;
    v.field_order = vec!["title".into(), "status".into()];
    v.hidden_fields = vec!["secret".into()];
    v.kanban_field = Some("status".into());
    v.row_height = Some(48);
    let e = view_entity_id(v.id);
    let written = build_triples(e, &v).unwrap();
    assert_eq!(written.len(), 8);
    assert_eq!(written[4].attribute, "view/config");
    assert_eq!(written[4].value_type, 6);
    let triples: Vec<Triple> = written
        .into_iter()
        .map(|t| triple(t.entity_id, &t.attribute, t.value))
        .collect();
    let blob = view_config_blob(e, &triples);
    let (filters, sorts) = decode_clauses(&blob);
    let back = reconstruct(e, &triples, filters, sorts, 0).unwrap();
    assert_eq!(back.id, v.id);
    assert_eq!(back.name, "Board");
    assert_eq!(back.kind, ViewKind::Kanban);
    assert_eq!(back.table_entity_type, "Task");
    assert_eq!(back.field_order, vec!["title", "status"]);
    assert_eq!(back.hidden_fields, vec!["secret"]);
    assert_eq!(back.kanban_field.as_deref(), Some("status"));
    assert!(back.group_by.is_none());
    assert_eq!(back.row_height, Some(48));
    assert_eq!(back.created_at, v.created_at);
}
