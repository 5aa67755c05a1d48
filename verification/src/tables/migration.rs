//! Table evolution: the rules by which records move between tables when
//! a table is renamed, merged into another, or split by a field's value.
//!
//! A record of a table carries `:db/type` = the table's slug, and its
//! field attributes are named `{slug}/{field}`.  Moving records rewrites
//! both.
use vstd::prelude::*;
use crate::json::{JsonValue, JsonView, clone_json, clone_string, json_text, push_json_text};
use crate::text::{chars_of, string_of, has_prefix, starts_with, push_str_chars, push_chars, slice_chars, chars_eq};
use crate::triple_store::{Triple, TripleInput, TripleInputView, input_views};
use super::{slugify, slug_of, is_v4_uuid, FieldId, TableConfig, TableId};

verus! {

/// The attribute that holds a record's table slug.
pub open spec fn db_type_attr() -> Seq<char> {
    ":db/type"@
}

/// The attribute for `field` on records of the table with slug `slug`.
pub open spec fn field_attribute(slug: Seq<char>, field: Seq<char>) -> Seq<char> {
    slug + "/"@ + slug_of(field)
}

/// The attribute key a table is split on: `{slug}/{slugify(field)}`.
pub fn split_attribute(slug: &str, field: &str) -> (r: String)
    ensures
        r@ == field_attribute(slug@, field@),
{
    let mut v = chars_of(slug);
    push_str_chars(&mut v, "/");
    let f = chars_of(slugify(field).as_str());
    push_chars(&mut v, &f);
    string_of(v.as_slice())
}

/// The group value that stands for records without the split field.
pub open spec fn no_value_group() -> Seq<char> {
    "__none__"@
}

/// The name of the table that receives the records of one group when
/// splitting `base`: `"{base} - {value}"`, with `Uncategorized` for the
/// group of records that lack the field.
pub open spec fn split_table_name_spec(base: Seq<char>, value: Seq<char>) -> Seq<char> {
    base + " - "@ + if value == no_value_group() {
        "Uncategorized"@
    } else {
        value
    }
}

/// The name of the table for one group of a split.
pub fn split_table_name(base: &str, value: &str) -> (r: String)
    ensures
        r@ == split_table_name_spec(base@, value@),
{
    let mut v = chars_of(base);
    push_str_chars(&mut v, " - ");
    let val = chars_of(value);
    let none = chars_of("__none__");
    if chars_eq(val.as_slice(), none.as_slice()) {
        push_str_chars(&mut v, "Uncategorized");
    } else {
        push_chars(&mut v, &val);
    }
    string_of(v.as_slice())
}

/// `attr` moved from the table with slug `from` to the table with slug
/// `to`: `{from}/{rest}` becomes `{to}/{rest}`; other attributes stay.
pub open spec fn moved_attribute(attr: Seq<char>, from: Seq<char>, to: Seq<char>) -> Seq<char> {
    let p = from + "/"@;
    if has_prefix(attr, p) {
        to + "/"@ + attr.subrange(p.len() as int, attr.len() as int)
    } else {
        attr
    }
}

/// Moves one attribute name between table slugs.
pub fn move_attribute(attr: &str, from: &str, to: &str) -> (r: String)
    ensures
        r@ == moved_attribute(attr@, from@, to@),
{
    let a = chars_of(attr);
    let mut p = chars_of(from);
    push_str_chars(&mut p, "/");
    if starts_with(a.as_slice(), p.as_slice()) {
        let mut v = chars_of(to);
        push_str_chars(&mut v, "/");
        let rest = slice_chars(&a, p.len(), a.len());
        push_chars(&mut v, &rest);
        string_of(v.as_slice())
    } else {
        string_of(a.as_slice())
    }
}

/// The `:db/type` triple that places `entity` in the table with slug `slug`.
pub open spec fn type_triple(entity: u128, slug: Seq<char>) -> TripleInputView {
    TripleInputView {
        entity_id: entity,
        attribute: db_type_attr(),
        value: JsonView::String(slug),
        value_type: 0,
        ttl_seconds: None,
    }
}

/// The triples of a record re-written into the table with slug `to`: the
/// new `:db/type` triple first, then every other triple of the record, in
/// order, with its attribute moved from `from` to `to`.
pub open spec fn retyped_spec(entity: u128, triples: Seq<Triple>, from: Seq<char>, to: Seq<char>) -> Seq<
    TripleInputView,
>
    decreases triples.len(),
{
    if triples.len() == 0 {
        seq![type_triple(entity, to)]
    } else {
        let t = triples.last();
        let rest = retyped_spec(entity, triples.drop_last(), from, to);
        if t.attribute@ == db_type_attr() {
            rest
        } else {
            rest.push(
                TripleInputView {
                    entity_id: entity,
                    attribute: moved_attribute(t.attribute@, from, to),
                    value: t.value@,
                    value_type: t.value_type,
                    ttl_seconds: None,
                },
            )
        }
    }
}

/// The triples of a renamed table's record: the new `:db/type` triple,
/// then the triples whose attribute carries the old slug's prefix, with
/// that prefix replaced by the new slug's.
pub open spec fn renamed_spec(entity: u128, triples: Seq<Triple>, from: Seq<char>, to: Seq<char>) -> Seq<
    TripleInputView,
>
    decreases triples.len(),
{
    if triples.len() == 0 {
        seq![type_triple(entity, to)]
    } else {
        let t = triples.last();
        let rest = renamed_spec(entity, triples.drop_last(), from, to);
        if has_prefix(t.attribute@, from + "/"@) {
            rest.push(
                TripleInputView {
                    entity_id: entity,
                    attribute: moved_attribute(t.attribute@, from, to),
                    value: t.value@,
                    value_type: t.value_type,
                    ttl_seconds: None,
                },
            )
        } else {
            rest
        }
    }
}

fn type_triple_exec(entity: u128, slug: &str) -> (r: TripleInput)
    ensures
        r@ == type_triple(entity, slug@),
{
    TripleInput {
        entity_id: entity,
        attribute: string_of(chars_of(":db/type").as_slice()),
        value: JsonValue::String(slug.to_owned()),
        value_type: 0,
        ttl_seconds: None,
    }
}

/// The triples that place a record of the table `from` into the table `to`
/// (merging and splitting tables).
pub fn retyped_triples(entity: u128, triples: &Vec<Triple>, from: &str, to: &str) -> (r: Vec<TripleInput>)
    ensures
        input_views(r@) == retyped_spec(entity, triples@, from@, to@),
{
    let mut out: Vec<TripleInput> = Vec::new();
    out.push(type_triple_exec(entity, to));
    let ty = chars_of(":db/type");
    let mut i: usize = 0;
    while i < triples.len()
        invariant
            i <= triples@.len(),
            ty@ == db_type_attr(),
            input_views(out@) == retyped_spec(entity, triples@.subrange(0, i as int), from@, to@),
        decreases triples.len() - i,
    {
        let t = &triples[i];
        proof {
            assert(triples@.subrange(0, i + 1).drop_last() =~= triples@.subrange(0, i as int));
        }
        let a = chars_of(t.attribute.as_str());
        if !chars_eq(a.as_slice(), ty.as_slice()) {
            let ghost before = input_views(out@);
            out.push(TripleInput {
                entity_id: entity,
                attribute: move_attribute(t.attribute.as_str(), from, to),
                value: clone_json(&t.value),
                value_type: t.value_type,
                ttl_seconds: None,
            });
            assert(input_views(out@) =~= before.push(input_views(out@).last()));
        }
        i += 1;
    }
    assert(triples@.subrange(0, triples@.len() as int) =~= triples@);
    out
}

/// The triples that move a record of a renamed table from slug `from` to
/// slug `to`.
pub fn renamed_triples(entity: u128, triples: &Vec<Triple>, from: &str, to: &str) -> (r: Vec<TripleInput>)
    ensures
        input_views(r@) == renamed_spec(entity, triples@, from@, to@),
{
    let mut out: Vec<TripleInput> = Vec::new();
    out.push(type_triple_exec(entity, to));
    let mut p = chars_of(from);
    push_str_chars(&mut p, "/");
    let mut i: usize = 0;
    while i < triples.len()
        invariant
            i <= triples@.len(),
            p@ == from@ + "/"@,
            input_views(out@) == renamed_spec(entity, triples@.subrange(0, i as int), from@, to@),
        decreases triples.len() - i,
    {
        let t = &triples[i];
        proof {
            assert(triples@.subrange(0, i + 1).drop_last() =~= triples@.subrange(0, i as int));
        }
        let a = chars_of(t.attribute.as_str());
        if starts_with(a.as_slice(), p.as_slice()) {
            let ghost before = input_views(out@);
            out.push(TripleInput {
                entity_id: entity,
                attribute: move_attribute(t.attribute.as_str(), from, to),
                value: clone_json(&t.value),
                value_type: t.value_type,
                ttl_seconds: None,
            });
            assert(input_views(out@) =~= before.push(input_views(out@).last()));
        }
        i += 1;
    }
    assert(triples@.subrange(0, triples@.len() as int) =~= triples@);
    out
}

/// A table can be merged only into another table.
pub fn check_merge(source: TableId, target: TableId) -> (r: Result<(), String>)
    ensures
        r is Ok <==> source != target,
        r matches Err(m) ==> m@ == "Cannot merge a table into itself"@,
{
    if source.0 == target.0 {
        Err(string_of(chars_of("Cannot merge a table into itself").as_slice()))
    } else {
        Ok(())
    }
}

/// Moving an attribute of table `from` to table `to` and back restores it.
pub proof fn lemma_move_attribute_round_trip(attr: Seq<char>, from: Seq<char>, to: Seq<char>)
    requires
        has_prefix(attr, from + "/"@),
    ensures
        has_prefix(moved_attribute(attr, from, to), to + "/"@),
        moved_attribute(moved_attribute(attr, from, to), to, from) == attr,
{
    let p = from + "/"@;
    let q = to + "/"@;
    let rest = attr.subrange(p.len() as int, attr.len() as int);
    let m = q + rest;
    assert(m.subrange(0, q.len() as int) =~= q);
    assert(m.subrange(q.len() as int, m.len() as int) =~= rest);
    assert(p + rest =~= attr) by {
        assert(attr.subrange(0, p.len() as int) =~= p);
    }
}

// ── Splitting a table by a field's value ──────────────────────────

/// The position of the first triple with attribute `attr`.
pub open spec fn first_with_attr(triples: Seq<Triple>, attr: Seq<char>) -> Option<int>
    decreases triples.len(),
{
    if triples.len() == 0 {
        None
    } else {
        match first_with_attr(triples.drop_last(), attr) {
            Some(i) => Some(i),
            None => if triples.last().attribute@ == attr {
                Some(triples.len() - 1)
            } else {
                None
            },
        }
    }
}

/// The text a value groups under: a string's own text, the JSON text of
/// any other value.
pub open spec fn value_key(v: JsonView) -> Seq<char> {
    match v {
        JsonView::String(s) => s,
        _ => json_text(v),
    }
}

/// The group of a record: the key of its first triple with attribute
/// `attr`, [`no_value_group`] when it has none.
pub open spec fn group_key(triples: Seq<Triple>, attr: Seq<char>) -> Seq<char> {
    match first_with_attr(triples, attr) {
        Some(i) => value_key(triples[i].value@),
        None => no_value_group(),
    }
}

/// The position of the first group with key `key`.
pub open spec fn group_index(gs: Seq<(Seq<char>, Seq<u128>)>, key: Seq<char>) -> Option<int>
    decreases gs.len(),
{
    if gs.len() == 0 {
        None
    } else {
        match group_index(gs.drop_last(), key) {
            Some(i) => Some(i),
            None => if gs.last().0 == key {
                Some(gs.len() - 1)
            } else {
                None
            },
        }
    }
}

/// The groups of the records `records[0..n]`: each group's key and its
/// records' entity ids, groups in order of first sight, ids in order.
pub open spec fn split_groups_spec(records: Seq<(u128, Seq<Triple>)>, attr: Seq<char>, n: int) -> Seq<
    (Seq<char>, Seq<u128>),
>
    decreases n,
{
    if n <= 0 {
        Seq::empty()
    } else {
        let gs = split_groups_spec(records, attr, n - 1);
        let (e, ts) = records[n - 1];
        let key = group_key(ts, attr);
        match group_index(gs, key) {
            Some(i) => gs.update(i, (key, gs[i].1.push(e))),
            None => gs.push((key, seq![e])),
        }
    }
}

pub open spec fn record_views(records: Seq<(u128, Vec<Triple>)>) -> Seq<(u128, Seq<Triple>)> {
    Seq::new(records.len(), |i: int| (records[i].0, records[i].1@))
}

pub open spec fn group_views(gs: Seq<(String, Vec<u128>)>) -> Seq<(Seq<char>, Seq<u128>)> {
    Seq::new(gs.len(), |i: int| (gs[i].0@, gs[i].1@))
}

fn first_with_attr_exec(triples: &Vec<Triple>, attr: &Vec<char>) -> (r: Option<usize>)
    ensures
        r matches Some(i) ==> i < triples@.len() && first_with_attr(triples@, attr@) == Some(i as int),
        r is None ==> first_with_attr(triples@, attr@) is None,
{
    let mut i: usize = 0;
    while i < triples.len()
        invariant
            i <= triples@.len(),
            first_with_attr(triples@.subrange(0, i as int), attr@) is None,
        decreases triples.len() - i,
    {
        let ghost pre = triples@.subrange(0, i as int);
        let ghost nxt = triples@.subrange(0, i + 1);
        assert(nxt.drop_last() =~= pre);
        if chars_eq(chars_of(triples[i].attribute.as_str()).as_slice(), attr.as_slice()) {
            proof {
                lemma_first_with_attr_prefix(triples@, attr@, i + 1);
            }
            return Some(i);
        }
        i += 1;
    }
    assert(triples@.subrange(0, triples@.len() as int) =~= triples@);
    None
}

/// A first match within a prefix is the first match of the whole.
proof fn lemma_first_with_attr_prefix(ts: Seq<Triple>, attr: Seq<char>, n: int)
    requires
        0 <= n <= ts.len(),
        first_with_attr(ts.subrange(0, n), attr) is Some,
    ensures
        first_with_attr(ts, attr) == first_with_attr(ts.subrange(0, n), attr),
    decreases ts.len() - n,
{
    if n < ts.len() {
        let p = ts.subrange(0, n + 1);
        assert(p.drop_last() =~= ts.subrange(0, n));
        lemma_first_with_attr_prefix(ts, attr, n + 1);
    } else {
        assert(ts.subrange(0, n) =~= ts);
    }
}

fn group_key_exec(triples: &Vec<Triple>, attr: &Vec<char>) -> (r: Vec<char>)
    ensures
        r@ == group_key(triples@, attr@),
{
    proof {
        lemma_first_with_attr_found(triples@, attr@);
    }
    match first_with_attr_exec(triples, attr) {
        Some(i) => match &triples[i].value {
            JsonValue::String(s) => {
                assert(triples@[i as int].value@ == JsonView::String(s@));
                chars_of(s.as_str())
            },
            v => {
                assert(!(v@ is String));
                let mut out: Vec<char> = Vec::new();
                push_json_text(&mut out, v);
                assert(out@ =~= json_text(v@));
                out
            },
        },
        None => chars_of("__none__"),
    }
}

fn group_index_exec(gs: &Vec<(String, Vec<u128>)>, key: &Vec<char>) -> (r: Option<usize>)
    ensures
        r matches Some(i) ==> i < gs@.len() && group_index(group_views(gs@), key@) == Some(i as int),
        r is None ==> group_index(group_views(gs@), key@) is None,
{
    let ghost gv = group_views(gs@);
    let mut i: usize = 0;
    while i < gs.len()
        invariant
            i <= gs@.len(),
            gv == group_views(gs@),
            group_index(gv.subrange(0, i as int), key@) is None,
        decreases gs.len() - i,
    {
        let ghost nxt = gv.subrange(0, i + 1);
        assert(nxt.drop_last() =~= gv.subrange(0, i as int));
        if chars_eq(chars_of(gs[i].0.as_str()).as_slice(), key.as_slice()) {
            proof {
                lemma_group_index_prefix(gv, key@, i + 1);
            }
            return Some(i);
        }
        i += 1;
    }
    assert(gv.subrange(0, gs@.len() as int) =~= gv);
    None
}

proof fn lemma_group_index_found(gs: Seq<(Seq<char>, Seq<u128>)>, key: Seq<char>)
    ensures
        group_index(gs, key) matches Some(i) ==> 0 <= i < gs.len() && gs[i].0 == key,
    decreases gs.len(),
{
    if gs.len() > 0 {
        lemma_group_index_found(gs.drop_last(), key);
    }
}

proof fn lemma_first_with_attr_found(ts: Seq<Triple>, attr: Seq<char>)
    ensures
        first_with_attr(ts, attr) matches Some(i) ==> 0 <= i < ts.len() && ts[i].attribute@ == attr,
    decreases ts.len(),
{
    if ts.len() > 0 {
        lemma_first_with_attr_found(ts.drop_last(), attr);
    }
}

proof fn lemma_group_index_prefix(gs: Seq<(Seq<char>, Seq<u128>)>, key: Seq<char>, n: int)
    requires
        0 <= n <= gs.len(),
        group_index(gs.subrange(0, n), key) is Some,
    ensures
        group_index(gs, key) == group_index(gs.subrange(0, n), key),
    decreases gs.len() - n,
{
    if n < gs.len() {
        let p = gs.subrange(0, n + 1);
        assert(p.drop_last() =~= gs.subrange(0, n));
        lemma_group_index_prefix(gs, key, n + 1);
    } else {
        assert(gs.subrange(0, n) =~= gs);
    }
}

/// The groups a table's records fall into when the table is split on the
/// attribute `split_attr`: each group's key (the text of the record's
/// first `split_attr` triple, `__none__` without one) and its records'
/// entity ids, groups in order of first sight.  With no records there is
/// nothing to split.
pub fn split_groups(records: &Vec<(u128, Vec<Triple>)>, split_attr: &str) -> (r: Result<Vec<(String, Vec<u128>)>, String>)
    ensures
        records@.len() == 0 <==> r is Err,
        r matches Err(m) ==> m@ == "No records found to split"@,
        r matches Ok(gs) ==> group_views(gs@) == split_groups_spec(
            record_views(records@),
            split_attr@,
            records@.len() as int,
        ),
{
    if records.len() == 0 {
        return Err(string_of(chars_of("No records found to split").as_slice()));
    }
    let ghost rv = record_views(records@);
    let attr = chars_of(split_attr);
    let mut gs: Vec<(String, Vec<u128>)> = Vec::new();
    let mut i: usize = 0;
    assert(group_views(gs@) =~= split_groups_spec(rv, split_attr@, 0));
    while i < records.len()
        invariant
            i <= records@.len(),
            rv == record_views(records@),
            attr@ == split_attr@,
            group_views(gs@) == split_groups_spec(rv, split_attr@, i as int),
        decreases records.len() - i,
    {
        let e = records[i].0;
        assert(rv[i as int] == (e, records@[i as int].1@));
        let key = group_key_exec(&records[i].1, &attr);
        let ghost before = group_views(gs@);
        match group_index_exec(&gs, &key) {
            Some(g) => {
                let mut entry: (String, Vec<u128>) = (String::new(), Vec::new());
                proof {
                    lemma_group_index_found(before, key@);
                }
                assert(before[g as int].0 == key@);
                std::mem::swap(&mut entry, &mut gs[g]);
                assert(entry.0@ == before[g as int].0 && entry.1@ == before[g as int].1);
                entry.1.push(e);
                gs.set(g, entry);
                assert(group_views(gs@) =~= before.update(g as int, (key@, before[g as int].1.push(e))));
            },
            None => {
                let mut ids: Vec<u128> = Vec::new();
                ids.push(e);
                gs.push((string_of(key.as_slice()), ids));
                assert(group_views(gs@) =~= before.push((key@, seq![e])));
            },
        }
        i += 1;
    }
    Ok(gs)
}

// ── New table configurations ───────────────────────────────────────

/// Fresh field ids, one per source field, and the first of them as the
/// primary field.
pub open spec fn fresh_fields(ids: Seq<FieldId>, n: nat) -> bool {
    &&& ids.len() == n
    &&& forall|k: int| 0 <= k < ids.len() ==> is_v4_uuid(#[trigger] ids[k].0)
}

fn fresh_field_ids(n: usize) -> (r: Vec<FieldId>)
    ensures
        fresh_fields(r@, n as nat),
{
    let mut v: Vec<FieldId> = Vec::new();
    let mut k: usize = 0;
    while k < n
        invariant
            k <= n,
            fresh_fields(v@, k as nat),
        decreases n - k,
    {
        v.push(FieldId::new());
        k += 1;
    }
    v
}

/// The configuration of the table that receives the group `value` when
/// `source` is split: named after the source and the group, with the
/// source's description, icon and settings, and one fresh field id per
/// source field, the first of them primary.
pub fn split_table_config(source: &TableConfig, value: &str) -> (r: TableConfig)
    ensures
        r.name@ == split_table_name_spec(source.name@, value@),
        r.slug@ == slug_of(r.name@),
        is_v4_uuid(r.id.0),
        crate::schema::opt_str_view(r.description) == crate::schema::opt_str_view(source.description),
        crate::schema::opt_str_view(r.icon) == crate::schema::opt_str_view(source.icon),
        r.color is None,
        r.settings == source.settings,
        fresh_fields(r.field_ids@, source.field_ids@.len()),
        r.primary_field == (if r.field_ids@.len() > 0 { Some(r.field_ids@[0]) } else { None::<FieldId> }),
        r.default_view_id is None,
        r.created_at == r.updated_at,
{
    let name = split_table_name(source.name.as_str(), value);
    let mut c = TableConfig::new(name.as_str());
    c.description = crate::schema::clone_opt_string(&source.description);
    c.icon = crate::schema::clone_opt_string(&source.icon);
    c.settings = source.settings;
    c.field_ids = fresh_field_ids(source.field_ids.len());
    c.primary_field = if c.field_ids.len() > 0 { Some(c.field_ids[0]) } else { None };
    c
}

/// The last position of `id` among `ids`.
pub open spec fn last_pos(ids: Seq<FieldId>, id: FieldId) -> Option<int>
    decreases ids.len(),
{
    if ids.len() == 0 {
        None
    } else if ids.last() == id {
        Some(ids.len() - 1)
    } else {
        last_pos(ids.drop_last(), id)
    }
}

/// The configuration of a copy of `source` named `name`: the name's slug,
/// the source's description, icon, color and settings, one fresh field id
/// per source field (in the same order), and as primary field the new id
/// standing where the source's primary field stands (its last place, when
/// the source lists it more than once).
pub fn duplicate_config(source: &TableConfig, name: &str) -> (r: TableConfig)
    ensures
        r.name@ == name@,
        r.slug@ == slug_of(name@),
        is_v4_uuid(r.id.0),
        crate::schema::opt_str_view(r.description) == crate::schema::opt_str_view(source.description),
        crate::schema::opt_str_view(r.icon) == crate::schema::opt_str_view(source.icon),
        crate::schema::opt_str_view(r.color) == crate::schema::opt_str_view(source.color),
        r.settings == source.settings,
        fresh_fields(r.field_ids@, source.field_ids@.len()),
        r.primary_field == match source.primary_field {
            Some(pf) => match last_pos(source.field_ids@, pf) {
                Some(k) => Some(r.field_ids@[k]),
                None => None::<FieldId>,
            },
            None => None::<FieldId>,
        },
        r.default_view_id is None,
        r.created_at == r.updated_at,
{
    let mut c = TableConfig::new(name);
    c.description = crate::schema::clone_opt_string(&source.description);
    c.icon = crate::schema::clone_opt_string(&source.icon);
    c.color = crate::schema::clone_opt_string(&source.color);
    c.settings = source.settings;
    c.field_ids = fresh_field_ids(source.field_ids.len());
    c.primary_field = match source.primary_field {
        Some(pf) => {
            let mut k = source.field_ids.len();
            let mut found: Option<FieldId> = None;
            assert(source.field_ids@.subrange(0, k as int) =~= source.field_ids@);
            while k > 0
                invariant
                    k <= source.field_ids@.len(),
                    c.field_ids@.len() == source.field_ids@.len(),
                    found is None ==> last_pos(source.field_ids@, pf) == last_pos(source.field_ids@.subrange(0, k as int), pf),
                    found matches Some(f) ==> last_pos(source.field_ids@, pf) matches Some(p) && f == c.field_ids@[p],
                decreases k,
            {
                if found.is_none() {
                    let ghost pre = source.field_ids@.subrange(0, k as int);
                    assert(pre.drop_last() =~= source.field_ids@.subrange(0, k - 1));
                    assert(pre.last() == source.field_ids@[k - 1]);
                    if source.field_ids[k - 1] == pf {
                        found = Some(c.field_ids[k - 1]);
                    }
                }
                k -= 1;
            }
            proof {
                if found is None {
                    assert(source.field_ids@.subrange(0, 0) =~= Seq::<FieldId>::empty());
                }
            }
            found
        },
        None => None,
    };
    c
}

/// The triples of a copy of a record under the new entity `entity`, in
/// the source's order: the `:db/type` triple names the slug `to`, other
/// attributes move from `from` to `to`, values and value types stay.
pub open spec fn copied_spec(entity: u128, triples: Seq<Triple>, from: Seq<char>, to: Seq<char>) -> Seq<TripleInputView> {
    Seq::new(
        triples.len(),
        |i: int|
            if triples[i].attribute@ == db_type_attr() {
                TripleInputView {
                    entity_id: entity,
                    attribute: db_type_attr(),
                    value: JsonView::String(to),
                    value_type: triples[i].value_type,
                    ttl_seconds: None,
                }
            } else {
                TripleInputView {
                    entity_id: entity,
                    attribute: moved_attribute(triples[i].attribute@, from, to),
                    value: triples[i].value@,
                    value_type: triples[i].value_type,
                    ttl_seconds: None,
                }
            },
    )
}

/// The triples that copy a record of the table `from` into its duplicate
/// `to` as the new entity `entity`.
pub fn copied_triples(entity: u128, triples: &Vec<Triple>, from: &str, to: &str) -> (r: Vec<TripleInput>)
    ensures
        input_views(r@) == copied_spec(entity, triples@, from@, to@),
{
    let ty = chars_of(":db/type");
    let mut out: Vec<TripleInput> = Vec::new();
    let mut i: usize = 0;
    while i < triples.len()
        invariant
            i <= triples@.len(),
            ty@ == db_type_attr(),
            out@.len() == i,
            input_views(out@) == copied_spec(entity, triples@, from@, to@).subrange(0, i as int),
        decreases triples.len() - i,
    {
        let t = &triples[i];
        let ghost before = input_views(out@);
        if chars_eq(chars_of(t.attribute.as_str()).as_slice(), ty.as_slice()) {
            out.push(TripleInput {
                entity_id: entity,
                attribute: string_of(ty.as_slice()),
                value: JsonValue::String(to.to_owned()),
                value_type: t.value_type,
                ttl_seconds: None,
            });
        } else {
            out.push(TripleInput {
                entity_id: entity,
                attribute: move_attribute(t.attribute.as_str(), from, to),
                value: clone_json(&t.value),
                value_type: t.value_type,
                ttl_seconds: None,
            });
        }
        assert(out@.len() == i + 1);
        assert(input_views(out@).len() == i + 1);
        assert(out@[i as int]@ == copied_spec(entity, triples@, from@, to@)[i as int]);
        assert(input_views(out@)[i as int] == copied_spec(entity, triples@, from@, to@)[i as int]);
        i += 1;
        assert(input_views(out@) =~= copied_spec(entity, triples@, from@, to@).subrange(0, i as int));
    }
    assert(copied_spec(entity, triples@, from@, to@).subrange(0, i as int) =~= copied_spec(entity, triples@, from@, to@));
    out
}

// ── Renaming a table ──────────────────────────────────────────────

/// `config` renamed to `new_name` at time `now`, and whether its records
/// must move to the new slug (they must when the slug changes).  Every
/// other part of the configuration stays.
pub fn renamed_config(config: &TableConfig, new_name: &str, now: i64) -> (r: (TableConfig, bool))
    ensures
        r.1 == (slug_of(new_name@) != config.slug@),
        r.0.name@ == new_name@,
        r.0.slug@ == slug_of(new_name@),
        r.0.updated_at == now,
        r.0.id == config.id,
        crate::schema::opt_str_view(r.0.description) == crate::schema::opt_str_view(config.description),
        crate::schema::opt_str_view(r.0.icon) == crate::schema::opt_str_view(config.icon),
        crate::schema::opt_str_view(r.0.color) == crate::schema::opt_str_view(config.color),
        r.0.primary_field == config.primary_field,
        r.0.field_ids@ == config.field_ids@,
        r.0.default_view_id == config.default_view_id,
        r.0.settings == config.settings,
        r.0.created_at == config.created_at,
{
    let slug = slugify(new_name);
    let moves = !chars_eq(chars_of(slug.as_str()).as_slice(), chars_of(config.slug.as_str()).as_slice());
    let mut field_ids: Vec<FieldId> = Vec::new();
    let mut i: usize = 0;
    while i < config.field_ids.len()
        invariant
            i <= config.field_ids@.len(),
            field_ids@ == config.field_ids@.take(i as int),
        decreases config.field_ids.len() - i,
    {
        field_ids.push(config.field_ids[i]);
        i += 1;
        assert(field_ids@ =~= config.field_ids@.take(i as int));
    }
    assert(config.field_ids@.take(config.field_ids@.len() as int) =~= config.field_ids@);
    let c = TableConfig {
        id: config.id,
        name: new_name.to_owned(),
        slug,
        description: crate::schema::clone_opt_string(&config.description),
        icon: crate::schema::clone_opt_string(&config.icon),
        color: crate::schema::clone_opt_string(&config.color),
        primary_field: config.primary_field,
        field_ids,
        default_view_id: config.default_view_id,
        settings: config.settings,
        created_at: config.created_at,
        updated_at: now,
    };
    (c, moves)
}

// ── What moving a record retracts ─────────────────────────────────

/// The attributes of a record that moving it to another slug retracts:
/// when merging, every one of its triples' attributes, in order.
pub open spec fn merge_retractions_spec(triples: Seq<Triple>) -> Seq<Seq<char>> {
    Seq::new(triples.len(), |i: int| triples[i].attribute@)
}

/// When renaming from slug `from`: the record's `:db/type`, then each
/// attribute that carries the old slug's prefix, in order.
pub open spec fn rename_retractions_spec(triples: Seq<Triple>, from: Seq<char>) -> Seq<Seq<char>> {
    seq![db_type_attr()] + triples.filter(|t: Triple| has_prefix(t.attribute@, from + "/"@)).map_values(
        |t: Triple| t.attribute@,
    )
}

/// The attributes to retract from a record merged into another table.
pub fn merge_retractions(triples: &Vec<Triple>) -> (r: Vec<String>)
    ensures
        Seq::new(r@.len(), |i: int| r@[i]@) == merge_retractions_spec(triples@),
{
    let mut out: Vec<String> = Vec::new();
    let mut i: usize = 0;
    while i < triples.len()
        invariant
            i <= triples@.len(),
            out@.len() == i,
            Seq::new(out@.len(), |k: int| out@[k]@) == merge_retractions_spec(triples@).take(i as int),
        decreases triples.len() - i,
    {
        out.push(clone_string(&triples[i].attribute));
        i += 1;
        assert(Seq::new(out@.len(), |k: int| out@[k]@) =~= merge_retractions_spec(triples@).take(i as int));
    }
    assert(merge_retractions_spec(triples@).take(i as int) =~= merge_retractions_spec(triples@));
    out
}

/// The attributes to retract from a record of a table renamed away from
/// slug `from`.
pub fn rename_retractions(triples: &Vec<Triple>, from: &str) -> (r: Vec<String>)
    ensures
        Seq::new(r@.len(), |i: int| r@[i]@) == rename_retractions_spec(triples@, from@),
{
    let mut p = chars_of(from);
    push_str_chars(&mut p, "/");
    let mut out: Vec<String> = Vec::new();
    out.push(string_of(chars_of(":db/type").as_slice()));
    let ghost f = |t: Triple| has_prefix(t.attribute@, from@ + "/"@);
    let ghost g = |t: Triple| t.attribute@;
    let mut i: usize = 0;
    assert(Seq::new(out@.len(), |k: int| out@[k]@) =~= seq![db_type_attr()] + triples@.take(0).filter(f).map_values(g));
    while i < triples.len()
        invariant
            i <= triples@.len(),
            p@ == from@ + "/"@,
            f == (|t: Triple| has_prefix(t.attribute@, from@ + "/"@)),
            g == (|t: Triple| t.attribute@),
            Seq::new(out@.len(), |k: int| out@[k]@) == seq![db_type_attr()] + triples@.take(i as int).filter(f).map_values(g),
        decreases triples.len() - i,
    {
        let ghost before = Seq::new(out@.len(), |k: int| out@[k]@);
        proof {
            reveal(Seq::filter);
            assert(triples@.take(i + 1).drop_last() =~= triples@.take(i as int));
            assert(triples@.take(i + 1).last() == triples@[i as int]);
        }
        if starts_with(chars_of(triples[i].attribute.as_str()).as_slice(), p.as_slice()) {
            out.push(clone_string(&triples[i].attribute));
            proof {
                let pre = triples@.take(i as int).filter(f);
                let t = triples@[i as int];
                assert(triples@.take(i + 1).filter(f) == pre.push(t));
                assert(pre.push(t).map_values(g) =~= pre.map_values(g).push(t.attribute@));
                assert(Seq::new(out@.len(), |k: int| out@[k]@) =~= before.push(t.attribute@));
                assert(seq![db_type_attr()] + pre.map_values(g).push(t.attribute@) =~= (seq![db_type_attr()] + pre.map_values(g)).push(t.attribute@));
            }
        } else {
            proof {
                assert(triples@.take(i + 1).filter(f) == triples@.take(i as int).filter(f));
            }
        }
        i += 1;
    }
    assert(triples@.take(i as int) =~= triples@);
    out
}

} // verus!
