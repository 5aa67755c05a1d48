//! How a view is kept in the triple store: one entity per view, derived
//! from the view id, carrying `view/id`, `view/name`, `view/kind`,
//! `view/table`, `view/config` (a JSON blob), `view/created_by`,
//! `view/created_at` and `view/updated_at`.
use vstd::prelude::*;
use vstd::utf8::encode_utf8;
use crate::json::{JsonNumber, JsonValue, JsonView, NumberView, clone_json, clone_string, first_key_pos, json_views};
use crate::text::{chars_of, push_str_chars, string_of};
use crate::tables::{uuid_string, uuid_text};
use crate::triple_store::{Triple, TripleInput, TripleInputView, input_views};
use crate::storage::{sha256, sha256_of};
use crate::schema::strict::{parse_uuid, uuid_value_of, uuid_error_text};
use super::{FilterClause, FilterOp, SortClause, SortDir, ViewConfig, ViewKind, view_kind_str, view_kind_of};

verus! {

// ── The view's entity ──────────────────────────────────────────────

/// The value of big-endian bytes `b[0..n]`.
pub open spec fn be_value(b: Seq<u8>, n: int) -> int
    decreases n,
{
    if n <= 0 {
        0
    } else {
        be_value(b, n - 1) * 256 + b[n - 1] as int
    }
}

/// The text hashed to derive a view's entity: `darshjdb:view:{id}`.
pub open spec fn view_seed(id: u128) -> Seq<char> {
    "darshjdb:view:"@ + uuid_text(id)
}

/// The entity of a view: the first 16 bytes of the SHA-256 digest of its
/// seed, with the UUID version set to 4 and the variant to RFC 4122, read
/// as a big-endian UUID.
pub open spec fn view_entity(id: u128) -> u128 {
    let h = sha256_of(encode_utf8(view_seed(id)));
    let b = h.take(16).update(6, ((h[6] & 0x0f) | 0x40) as u8).update(8, ((h[8] & 0x3f) | 0x80) as u8);
    be_value(b, 16) as u128
}

/// `256^n`.
pub open spec fn pow256(n: nat) -> nat
    decreases n,
{
    if n == 0 {
        1
    } else {
        pow256((n - 1) as nat) * 256
    }
}

proof fn lemma_be_value_bound(b: Seq<u8>, n: int)
    requires
        0 <= n <= b.len(),
    ensures
        0 <= be_value(b, n) < pow256(n as nat),
    decreases n,
{
    if n > 0 {
        lemma_be_value_bound(b, n - 1);
        let p = pow256((n - 1) as nat);
        let v = be_value(b, n - 1);
        let x = b[n - 1] as int;
        assert(v * 256 + x < p * 256) by (nonlinear_arith)
            requires
                0 <= v < p,
                0 <= x < 256,
        ;
    }
}

proof fn lemma_pow256_monotone(a: nat, b: nat)
    requires
        a <= b,
    ensures
        pow256(a) <= pow256(b),
    decreases b,
{
    if a < b {
        lemma_pow256_monotone(a, (b - 1) as nat);
    }
}

/// The entity that holds the view `id`.
pub fn view_entity_id(id: u128) -> (r: u128)
    ensures
        r == view_entity(id),
{
    let mut seed: Vec<char> = Vec::new();
    push_str_chars(&mut seed, "darshjdb:view:");
    let ids = uuid_string(id);
    push_str_chars(&mut seed, ids.as_str());
    let text = string_of(seed.as_slice());
    let h = sha256(text.as_str().as_bytes());
    let mut b: Vec<u8> = Vec::new();
    let mut i: usize = 0;
    while i < 16
        invariant
            i <= 16,
            h@.len() == 32,
            b@ == h@.take(i as int),
        decreases 16 - i,
    {
        b.push(h[i]);
        i += 1;
        assert(b@ =~= h@.take(i as int));
    }
    let b6 = (h[6] & 0x0f) | 0x40;
    let b8 = (h[8] & 0x3f) | 0x80;
    b.set(6, b6);
    b.set(8, b8);
    let ghost bs = b@;
    let mut acc: u128 = 0;
    let mut k: usize = 0;
    while k < 16
        invariant
            k <= 16,
            b@ == bs,
            bs.len() == 16,
            acc as int == be_value(bs, k as int),
        decreases 16 - k,
    {
        proof {
            lemma_be_value_bound(bs, k + 1);
            lemma_pow256_monotone((k + 1) as nat, 16);
            reveal_with_fuel(pow256, 17);
            assert(pow256(16) == 0x1_0000_0000_0000_0000_0000_0000_0000_0000);
        }
        acc = acc * 256 + b[k] as u128;
        k += 1;
    }
    proof {
        assert(seed@ == view_seed(id));
    }
    acc
}

// ── Writing a view ─────────────────────────────────────────────────

pub open spec fn filter_op_str(op: FilterOp) -> Seq<char> {
    match op {
        FilterOp::Eq => "eq"@,
        FilterOp::Neq => "neq"@,
        FilterOp::Gt => "gt"@,
        FilterOp::Gte => "gte"@,
        FilterOp::Lt => "lt"@,
        FilterOp::Lte => "lte"@,
        FilterOp::Contains => "contains"@,
        FilterOp::IsEmpty => "is_empty"@,
        FilterOp::IsNotEmpty => "is_not_empty"@,
    }
}

fn filter_op_text(op: FilterOp) -> (r: &'static str)
    ensures
        r@ == filter_op_str(op),
{
    match op {
        FilterOp::Eq => "eq",
        FilterOp::Neq => "neq",
        FilterOp::Gt => "gt",
        FilterOp::Gte => "gte",
        FilterOp::Lt => "lt",
        FilterOp::Lte => "lte",
        FilterOp::Contains => "contains",
        FilterOp::IsEmpty => "is_empty",
        FilterOp::IsNotEmpty => "is_not_empty",
    }
}

pub open spec fn sort_dir_str(d: SortDir) -> Seq<char> {
    match d {
        SortDir::Asc => "asc"@,
        SortDir::Desc => "desc"@,
    }
}

/// A filter clause as JSON: `{"field", "op", "value"}`, the operator in
/// snake case.
pub open spec fn filter_json(c: FilterClause) -> JsonView {
    JsonView::Object(
        seq![("field"@, JsonView::String(c.field@)), ("op"@, JsonView::String(filter_op_str(c.op))), ("value"@, c.value@)],
    )
}

/// A sort clause as JSON: `{"field", "direction"}`.
pub open spec fn sort_json(c: SortClause) -> JsonView {
    JsonView::Object(seq![("field"@, JsonView::String(c.field@)), ("direction"@, JsonView::String(sort_dir_str(c.direction)))])
}

pub open spec fn strings_json(v: Seq<String>) -> JsonView {
    JsonView::Array(Seq::new(v.len(), |i: int| JsonView::String(v[i]@)))
}

pub open spec fn opt_string_json(v: Option<String>) -> JsonView {
    match v {
        Some(s) => JsonView::String(s@),
        None => JsonView::Null,
    }
}

/// The configuration blob of a view: filters, sorts, field order, hidden
/// fields, and the display settings (`null` where unset), in this order.
pub open spec fn config_blob(v: ViewConfig) -> JsonView {
    JsonView::Object(
        seq![
            ("filters"@, JsonView::Array(Seq::new(v.filters@.len(), |i: int| filter_json(v.filters@[i])))),
            ("sorts"@, JsonView::Array(Seq::new(v.sorts@.len(), |i: int| sort_json(v.sorts@[i])))),
            ("field_order"@, strings_json(v.field_order@)),
            ("hidden_fields"@, strings_json(v.hidden_fields@)),
            ("group_by"@, opt_string_json(v.group_by)),
            ("kanban_field"@, opt_string_json(v.kanban_field)),
            ("calendar_field"@, opt_string_json(v.calendar_field)),
            ("color_field"@, opt_string_json(v.color_field)),
            (
                "row_height"@,
                match v.row_height {
                    Some(h) => JsonView::Number(NumberView::PosInt(h as u64)),
                    None => JsonView::Null,
                },
            ),
        ],
    )
}

/// What chrono's `DateTime::<Utc>::from_timestamp_millis(ms)` followed by
/// `to_rfc3339` gives; `None` when the time has no calendar date.
pub uninterp spec fn rfc3339_of_millis(ms: i64) -> Option<Seq<char>>;

/// Whether the time `ms` (Unix milliseconds) falls in the years 0 to
/// 9999, the four-digit years of RFC 3339.
pub open spec fn four_digit_year(ms: i64) -> bool {
    -62_167_219_200_000 <= ms <= 253_402_300_799_999
}

/// chrono `DateTime::<Utc>::from_timestamp_millis` then `to_rfc3339`; for a
/// time in the four-digit years, chrono's `str::parse::<DateTime<Utc>>`
/// reads the text back as the same millisecond.
#[verifier::external_body]
fn rfc3339_text(ms: i64) -> (r: Option<String>)
    ensures
        match rfc3339_of_millis(ms) {
            Some(t) => r is Some && r->0@ == t,
            None => r is None,
        },
        four_digit_year(ms) ==> (r matches Some(t) ==> utc_millis_of(t@) == Some(ms)),
{
    match chrono::DateTime::<chrono::Utc>::from_timestamp_millis(ms) {
        Some(d) => Some(d.to_rfc3339()),
        None => None,
    }
}

pub open spec fn string_triple(e: u128, attribute: Seq<char>, text: Seq<char>) -> TripleInputView {
    TripleInputView { entity_id: e, attribute, value: JsonView::String(text), value_type: 0, ttl_seconds: None }
}

/// The triples that persist the view `v` on the entity `e`.
pub open spec fn view_triples(e: u128, v: ViewConfig, created: Seq<char>, updated: Seq<char>) -> Seq<TripleInputView> {
    seq![
        string_triple(e, "view/id"@, uuid_text(v.id)),
        string_triple(e, "view/name"@, v.name@),
        string_triple(e, "view/kind"@, view_kind_str(v.kind)),
        string_triple(e, "view/table"@, v.table_entity_type@),
        TripleInputView { entity_id: e, attribute: "view/config"@, value: config_blob(v), value_type: 6, ttl_seconds: None },
        string_triple(e, "view/created_by"@, uuid_text(v.created_by)),
        string_triple(e, "view/created_at"@, created),
        string_triple(e, "view/updated_at"@, updated),
    ]
}

fn message(s: &str) -> (r: String)
    ensures
        r@ == s@,
{
    string_of(chars_of(s).as_slice())
}

fn string_input(e: u128, attribute: &str, text: String) -> (r: TripleInput)
    ensures
        r@ == string_triple(e, attribute@, text@),
{
    TripleInput { entity_id: e, attribute: message(attribute), value: JsonValue::String(text), value_type: 0, ttl_seconds: None }
}

fn opt_string_value(v: &Option<String>) -> (r: JsonValue)
    ensures
        r@ == opt_string_json(*v),
{
    match v {
        Some(s) => JsonValue::String(clone_string(s)),
        None => JsonValue::Null,
    }
}

fn strings_value(v: &Vec<String>) -> (r: JsonValue)
    ensures
        r@ == strings_json(v@),
{
    let mut items: Vec<JsonValue> = Vec::new();
    let mut i: usize = 0;
    while i < v.len()
        invariant
            i <= v@.len(),
            json_views(items@) == Seq::new(i as nat, |j: int| JsonView::String(v@[j]@)),
        decreases v.len() - i,
    {
        let ghost before = items@;
        items.push(JsonValue::String(clone_string(&v[i])));
        assert(json_views(items@) =~= json_views(before).push(items@[i as int]@));
        i += 1;
        assert(json_views(items@) =~= Seq::new(i as nat, |j: int| JsonView::String(v@[j]@)));
    }
    proof {
        crate::json::lemma_array_view(items);
    }
    JsonValue::Array(items)
}

fn filter_value(c: &FilterClause) -> (r: JsonValue)
    ensures
        r@ == filter_json(*c),
{
    let mut e: Vec<(String, JsonValue)> = Vec::new();
    e.push((message("field"), JsonValue::String(clone_string(&c.field))));
    e.push((message("op"), JsonValue::String(message(filter_op_text(c.op)))));
    e.push((message("value"), clone_json(&c.value)));
    proof {
        crate::json::lemma_object_view(e);
        assert(crate::json::entry_views(e@) =~= seq![
            ("field"@, JsonView::String(c.field@)),
            ("op"@, JsonView::String(filter_op_str(c.op))),
            ("value"@, c.value@),
        ]);
    }
    JsonValue::Object(e)
}

fn sort_value(c: &SortClause) -> (r: JsonValue)
    ensures
        r@ == sort_json(*c),
{
    let d = match c.direction {
        SortDir::Asc => "asc",
        SortDir::Desc => "desc",
    };
    let mut e: Vec<(String, JsonValue)> = Vec::new();
    e.push((message("field"), JsonValue::String(clone_string(&c.field))));
    e.push((message("direction"), JsonValue::String(message(d))));
    proof {
        crate::json::lemma_object_view(e);
        assert(crate::json::entry_views(e@) =~= seq![
            ("field"@, JsonView::String(c.field@)),
            ("direction"@, JsonView::String(sort_dir_str(c.direction))),
        ]);
    }
    JsonValue::Object(e)
}

fn config_value(v: &ViewConfig) -> (r: JsonValue)
    ensures
        r@ == config_blob(*v),
{
    let mut fs: Vec<JsonValue> = Vec::new();
    let mut i: usize = 0;
    while i < v.filters.len()
        invariant
            i <= v.filters@.len(),
            json_views(fs@) == Seq::new(i as nat, |j: int| filter_json(v.filters@[j])),
        decreases v.filters.len() - i,
    {
        let ghost before = fs@;
        fs.push(filter_value(&v.filters[i]));
        assert(json_views(fs@) =~= json_views(before).push(fs@[i as int]@));
        i += 1;
        assert(json_views(fs@) =~= Seq::new(i as nat, |j: int| filter_json(v.filters@[j])));
    }
    let mut ss: Vec<JsonValue> = Vec::new();
    let mut k: usize = 0;
    while k < v.sorts.len()
        invariant
            k <= v.sorts@.len(),
            json_views(ss@) == Seq::new(k as nat, |j: int| sort_json(v.sorts@[j])),
        decreases v.sorts.len() - k,
    {
        let ghost before = ss@;
        ss.push(sort_value(&v.sorts[k]));
        assert(json_views(ss@) =~= json_views(before).push(ss@[k as int]@));
        k += 1;
        assert(json_views(ss@) =~= Seq::new(k as nat, |j: int| sort_json(v.sorts@[j])));
    }
    proof {
        crate::json::lemma_array_view(fs);
        crate::json::lemma_array_view(ss);
    }
    let rh = match v.row_height {
        Some(h) => JsonValue::Number(JsonNumber::PosInt(h as u64)),
        None => JsonValue::Null,
    };
    let mut e: Vec<(String, JsonValue)> = Vec::new();
    e.push((message("filters"), JsonValue::Array(fs)));
    e.push((message("sorts"), JsonValue::Array(ss)));
    e.push((message("field_order"), strings_value(&v.field_order)));
    e.push((message("hidden_fields"), strings_value(&v.hidden_fields)));
    e.push((message("group_by"), opt_string_value(&v.group_by)));
    e.push((message("kanban_field"), opt_string_value(&v.kanban_field)));
    e.push((message("calendar_field"), opt_string_value(&v.calendar_field)));
    e.push((message("color_field"), opt_string_value(&v.color_field)));
    e.push((message("row_height"), rh));
    proof {
        crate::json::lemma_object_view(e);
        match config_blob(*v) {
            JsonView::Object(want) => {
                assert(crate::json::entry_views(e@) =~= want);
            },
            _ => {},
        }
    }
    JsonValue::Object(e)
}

/// `ins` are the triples that persist `v` on `e`, with the facts that
/// reading them back relies on: each id's text reads back as the id, and
/// each time in the four-digit years reads back as itself.
pub open spec fn written_view(e: u128, v: ViewConfig, ins: Seq<TripleInputView>) -> bool {
    exists|c: Seq<char>, u: Seq<char>|
        {
            &&& ins == view_triples(e, v, c, u)
            &&& rfc3339_of_millis(v.created_at) == Some(c)
            &&& rfc3339_of_millis(v.updated_at) == Some(u)
            &&& uuid_value_of(uuid_text(v.id)) == Some(v.id)
            &&& uuid_value_of(uuid_text(v.created_by)) == Some(v.created_by)
            &&& (four_digit_year(v.created_at) ==> utc_millis_of(c) == Some(v.created_at))
            &&& (four_digit_year(v.updated_at) ==> utc_millis_of(u) == Some(v.updated_at))
        }
}

/// The triples that persist `view` on the entity `e`; `None` when one of
/// its times has no calendar date (then there is no RFC 3339 text for it).
pub fn build_triples(e: u128, view: &ViewConfig) -> (r: Option<Vec<TripleInput>>)
    ensures
        match (rfc3339_of_millis(view.created_at), rfc3339_of_millis(view.updated_at)) {
            (Some(c), Some(u)) => r matches Some(ts) && input_views(ts@) == view_triples(e, *view, c, u),
            _ => r is None,
        },
        r matches Some(ts) ==> written_view(e, *view, input_views(ts@)),
{
    let created = match rfc3339_text(view.created_at) {
        Some(t) => t,
        None => {
            return None;
        },
    };
    let updated = match rfc3339_text(view.updated_at) {
        Some(t) => t,
        None => {
            return None;
        },
    };
    let ghost cv = created@;
    let ghost uv = updated@;
    let mut ts: Vec<TripleInput> = Vec::new();
    let id_text = uuid_string(view.id);
    let by_text = uuid_string(view.created_by);
    ts.push(string_input(e, "view/id", id_text));
    ts.push(string_input(e, "view/name", clone_string(&view.name)));
    ts.push(string_input(e, "view/kind", message(view.kind.as_str())));
    ts.push(string_input(e, "view/table", clone_string(&view.table_entity_type)));
    ts.push(
        TripleInput {
            entity_id: e,
            attribute: message("view/config"),
            value: config_value(view),
            value_type: 6,
            ttl_seconds: None,
        },
    );
    ts.push(string_input(e, "view/created_by", by_text));
    ts.push(string_input(e, "view/created_at", created));
    ts.push(string_input(e, "view/updated_at", updated));
    assert(input_views(ts@) =~= view_triples(e, *view, cv, uv));
    assert(written_view(e, *view, input_views(ts@)));
    Some(ts)
}

// ── Reading a view back ────────────────────────────────────────────

/// The triple is a live fact `name` of `e`.
pub open spec fn is_live_attr(t: Triple, e: u128, name: Seq<char>) -> bool {
    t.entity_id == e && t.attribute@ == name && !t.retracted
}

/// The position of the first live fact `name` of `e` among `ts[k..]`.
pub open spec fn attr_pos(e: u128, ts: Seq<Triple>, name: Seq<char>, k: int) -> Option<int>
    decreases ts.len() - k,
{
    if k < 0 || k >= ts.len() {
        None
    } else if is_live_attr(ts[k], e, name) {
        Some(k)
    } else {
        attr_pos(e, ts, name, k + 1)
    }
}

proof fn lemma_attr_pos(e: u128, ts: Seq<Triple>, name: Seq<char>, k: int)
    requires
        0 <= k,
    ensures
        attr_pos(e, ts, name, k) matches Some(p) ==> k <= p < ts.len() && is_live_attr(ts[p], e, name),
    decreases ts.len() - k,
{
    if k < ts.len() && !is_live_attr(ts[k], e, name) {
        lemma_attr_pos(e, ts, name, k + 1);
    }
}

/// The value of the first live fact `name` of `e`.
pub open spec fn attr_value(e: u128, ts: Seq<Triple>, name: Seq<char>) -> Option<JsonView> {
    match attr_pos(e, ts, name, 0) {
        Some(p) => Some(ts[p].value@),
        None => None,
    }
}

/// The text of a string value.
pub open spec fn as_text(v: Option<JsonView>) -> Option<Seq<char>> {
    match v {
        Some(JsonView::String(s)) => Some(s),
        _ => None,
    }
}

pub open spec fn text_or(v: Option<JsonView>, default: Seq<char>) -> Seq<char> {
    match as_text(v) {
        Some(s) => s,
        None => default,
    }
}

/// The configuration blob of a view entity (`{}` when it has none).
pub open spec fn stored_config(e: u128, ts: Seq<Triple>) -> JsonView {
    match attr_value(e, ts, "view/config"@) {
        Some(v) => v,
        None => JsonView::Object(Seq::empty()),
    }
}

/// The member `key` of an object value.
pub open spec fn member(obj: JsonView, key: Seq<char>) -> Option<JsonView> {
    match obj {
        JsonView::Object(entries) => match first_key_pos(entries, key) {
            Some(p) => Some(entries[p].1),
            None => None,
        },
        _ => None,
    }
}

/// A list of strings read from JSON: the strings of an array that holds
/// only strings, otherwise (or when absent) the empty list.
pub open spec fn strings_of(v: Option<JsonView>) -> Seq<Seq<char>> {
    match v {
        Some(JsonView::Array(items)) => if forall|i: int| 0 <= i < items.len() ==> #[trigger] items[i] is String {
            Seq::new(items.len(), |i: int| as_text(Some(items[i]))->0)
        } else {
            Seq::empty()
        },
        _ => Seq::empty(),
    }
}

/// A row height read from JSON: a non-negative integer, truncated to
/// 32 bits.
pub open spec fn row_height_of(v: Option<JsonView>) -> Option<u32> {
    match v {
        Some(JsonView::Number(NumberView::PosInt(u))) => Some(u as u32),
        _ => None,
    }
}

/// What chrono's `str::parse::<DateTime<Utc>>` reads from this text, as
/// Unix milliseconds (`timestamp_millis`); `None` when it rejects it.
pub uninterp spec fn utc_millis_of(s: Seq<char>) -> Option<i64>;

/// chrono `str::parse::<DateTime<Utc>>` then `timestamp_millis`.
#[verifier::external_body]
fn parse_utc_millis(s: &str) -> (r: Option<i64>)
    ensures
        r == utc_millis_of(s@),
{
    match s.parse::<chrono::DateTime<chrono::Utc>>() {
        Ok(d) => Some(d.timestamp_millis()),
        Err(_) => None,
    }
}

pub open spec fn time_or(v: Option<JsonView>, now: i64) -> i64 {
    match as_text(v) {
        Some(s) => match utc_millis_of(s) {
            Some(ms) => ms,
            None => now,
        },
        None => now,
    }
}

pub open spec fn nil_uuid_text() -> Seq<char> {
    "00000000-0000-0000-0000-000000000000"@
}

pub open spec fn opt_text_view(v: Option<String>) -> Option<Seq<char>> {
    match v {
        Some(s) => Some(s@),
        None => None,
    }
}

/// Why reading a view back failed, if it does: no `view/id` text, an id
/// that is no UUID, or an unknown kind (`grid` when absent).
pub open spec fn reconstruct_error(e: u128, ts: Seq<Triple>) -> Option<Seq<char>> {
    match as_text(attr_value(e, ts, "view/id"@)) {
        None => Some("view missing view/id"@),
        Some(id) => match uuid_value_of(id) {
            None => Some("invalid view/id: "@ + uuid_error_text(id)),
            Some(_) => {
                let kind = text_or(attr_value(e, ts, "view/kind"@), "grid"@);
                match view_kind_of(kind) {
                    None => Some("unknown view kind: "@ + kind),
                    Some(_) => None,
                }
            },
        },
    }
}

/// `v` is the view read back from the facts `ts` of entity `e`, with the
/// given decoded filters and sorts and `now` for missing or unreadable
/// times: name `Untitled`, table `""` and creator nil UUID when absent;
/// field lists, display settings and row height from the config blob.
pub open spec fn is_reconstruction(
    v: ViewConfig,
    e: u128,
    ts: Seq<Triple>,
    filters: Seq<FilterClause>,
    sorts: Seq<SortClause>,
    now: i64,
) -> bool {
    let cfg = stored_config(e, ts);
    &&& Some(v.id) == uuid_value_of(as_text(attr_value(e, ts, "view/id"@))->0)
    &&& v.name@ == text_or(attr_value(e, ts, "view/name"@), "Untitled"@)
    &&& Some(v.kind) == view_kind_of(text_or(attr_value(e, ts, "view/kind"@), "grid"@))
    &&& v.table_entity_type@ == text_or(attr_value(e, ts, "view/table"@), Seq::empty())
    &&& v.filters@ == filters
    &&& v.sorts@ == sorts
    &&& Seq::new(v.field_order@.len(), |i: int| v.field_order@[i]@) == strings_of(member(cfg, "field_order"@))
    &&& Seq::new(v.hidden_fields@.len(), |i: int| v.hidden_fields@[i]@) == strings_of(member(cfg, "hidden_fields"@))
    &&& opt_text_view(v.group_by) == as_text(member(cfg, "group_by"@))
    &&& opt_text_view(v.kanban_field) == as_text(member(cfg, "kanban_field"@))
    &&& opt_text_view(v.calendar_field) == as_text(member(cfg, "calendar_field"@))
    &&& opt_text_view(v.color_field) == as_text(member(cfg, "color_field"@))
    &&& v.row_height == row_height_of(member(cfg, "row_height"@))
    &&& v.created_by == (match uuid_value_of(text_or(attr_value(e, ts, "view/created_by"@), nil_uuid_text())) {
        Some(u) => u,
        None => 0,
    })
    &&& v.created_at == time_or(attr_value(e, ts, "view/created_at"@), now)
    &&& v.updated_at == time_or(attr_value(e, ts, "view/updated_at"@), now)
}

/// The position of the first live fact `name` of `e`.
pub fn find_attr(e: u128, ts: &[Triple], name: &str) -> (r: Option<usize>)
    ensures
        match attr_pos(e, ts@, name@, 0) {
            Some(p) => r == Some(p as usize),
            None => r is None,
        },
{
    let n = chars_of(name);
    let mut i: usize = 0;
    while i < ts.len()
        invariant
            i <= ts@.len(),
            n@ == name@,
            attr_pos(e, ts@, name@, 0) == attr_pos(e, ts@, name@, i as int),
        decreases ts.len() - i,
    {
        if ts[i].entity_id == e && !ts[i].retracted && crate::text::chars_eq(
            chars_of(ts[i].attribute.as_str()).as_slice(),
            n.as_slice(),
        ) {
            return Some(i);
        }
        i += 1;
    }
    None
}

fn attr_ref<'a>(e: u128, ts: &'a [Triple], name: &str) -> (r: Option<&'a JsonValue>)
    ensures
        match attr_value(e, ts@, name@) {
            Some(v) => r matches Some(x) && x@ == v,
            None => r is None,
        },
{
    proof {
        lemma_attr_pos(e, ts@, name@, 0);
    }
    match find_attr(e, ts, name) {
        Some(p) => Some(&ts[p].value),
        None => None,
    }
}

fn text_ref(v: Option<&JsonValue>) -> (r: Option<&String>)
    ensures
        match v {
            Some(x) => match x@ {
                JsonView::String(s) => r matches Some(t) && t@ == s,
                _ => r is None,
            },
            None => r is None,
        },
{
    match v {
        Some(JsonValue::String(s)) => Some(s),
        _ => None,
    }
}

/// The configuration blob of the view entity `e` (`{}` when it has none).
pub fn view_config_blob(e: u128, ts: &[Triple]) -> (r: JsonValue)
    ensures
        r@ == stored_config(e, ts@),
{
    match attr_ref(e, ts, "view/config") {
        Some(v) => clone_json(v),
        None => {
            let empty: Vec<(String, JsonValue)> = Vec::new();
            proof {
                crate::json::lemma_object_view(empty);
                assert(crate::json::entry_views(empty@) =~= Seq::<(Seq<char>, JsonView)>::empty());
            }
            JsonValue::Object(empty)
        },
    }
}

fn member_ref<'a>(obj: &'a JsonValue, key: &str) -> (r: Option<&'a JsonValue>)
    ensures
        match member(obj@, key@) {
            Some(v) => r matches Some(x) && x@ == v,
            None => r is None,
        },
{
    match obj {
        JsonValue::Object(entries) => {
            proof {
                crate::json::lemma_object_view(*entries);
            }
            match crate::json::key_position(entries, &chars_of(key)) {
                Some(p) => Some(&entries[p].1),
                None => None,
            }
        },
        _ => None,
    }
}

fn strings_from(v: Option<&JsonValue>) -> (r: Vec<String>)
    ensures
        Seq::new(r@.len(), |i: int| r@[i]@) == strings_of(
            match v {
                Some(x) => Some(x@),
                None => None,
            },
        ),
{
    let empty: Vec<String> = Vec::new();
    assert(Seq::new(empty@.len(), |i: int| empty@[i]@) =~= Seq::<Seq<char>>::empty());
    match v {
        Some(JsonValue::Array(items)) => {
            proof {
                crate::json::lemma_array_view(*items);
            }
            let ghost iv = json_views(items@);
            let mut out: Vec<String> = Vec::new();
            let mut i: usize = 0;
            while i < items.len()
                invariant
                    i <= items@.len(),
                    iv == json_views(items@),
                    empty@.len() == 0,
                    match v {
                        Some(x) => x@ == JsonView::Array(iv),
                        None => false,
                    },
                    forall|j: int| 0 <= j < i ==> #[trigger] iv[j] is String,
                    Seq::new(out@.len(), |j: int| out@[j]@) == Seq::new(i as nat, |j: int| as_text(Some(iv[j]))->0),
                decreases items.len() - i,
            {
                assert(iv[i as int] == items@[i as int]@);
                let ghost before = out@;
                match &items[i] {
                    JsonValue::String(s) => {
                        out.push(clone_string(s));
                        assert(Seq::new(out@.len(), |j: int| out@[j]@) =~= Seq::new(before.len(), |j: int| before[j]@).push(
                            s@,
                        ));
                    },
                    _ => {
                        assert(!(iv[i as int] is String));
                        return empty;
                    },
                }
                i += 1;
                assert(Seq::new(out@.len(), |j: int| out@[j]@) =~= Seq::new(
                    i as nat,
                    |j: int| as_text(Some(iv[j]))->0,
                ));
            }
            out
        },
        _ => empty,
    }
}

fn opt_text(v: Option<&JsonValue>) -> (r: Option<String>)
    ensures
        opt_text_view(r) == as_text(
            match v {
                Some(x) => Some(x@),
                None => None,
            },
        ),
{
    match v {
        Some(JsonValue::String(s)) => Some(clone_string(s)),
        _ => None,
    }
}

fn time_from(v: Option<&JsonValue>, now: i64) -> (r: i64)
    ensures
        r == time_or(
            match v {
                Some(x) => Some(x@),
                None => None,
            },
            now,
        ),
{
    match v {
        Some(JsonValue::String(s)) => match parse_utc_millis(s.as_str()) {
            Some(ms) => ms,
            None => now,
        },
        _ => now,
    }
}

/// Read the view held by the facts `ts` of entity `e` back into a
/// [`ViewConfig`]; `filters` and `sorts` are what the blob's `filters` and
/// `sorts` members decode to, and `now` stands for missing times.
pub fn reconstruct(
    e: u128,
    ts: &[Triple],
    filters: Vec<FilterClause>,
    sorts: Vec<SortClause>,
    now: i64,
) -> (r: Result<ViewConfig, String>)
    ensures
        match reconstruct_error(e, ts@) {
            Some(m) => r matches Err(x) && x@ == m,
            None => r matches Ok(v) && is_reconstruction(v, e, ts@, filters@, sorts@, now),
        },
{
    let id_text = match text_ref(attr_ref(e, ts, "view/id")) {
        Some(s) => s,
        None => {
            return Err(message("view missing view/id"));
        },
    };
    let id = match parse_uuid(id_text.as_str()) {
        Ok(v) => v,
        Err(m) => {
            let mut t: Vec<char> = Vec::new();
            push_str_chars(&mut t, "invalid view/id: ");
            push_str_chars(&mut t, m.as_str());
            return Err(string_of(t.as_slice()));
        },
    };
    let name = match text_ref(attr_ref(e, ts, "view/name")) {
        Some(s) => clone_string(s),
        None => message("Untitled"),
    };
    let kind_text = match text_ref(attr_ref(e, ts, "view/kind")) {
        Some(s) => clone_string(s),
        None => message("grid"),
    };
    let kind = match ViewKind::from_str_value(kind_text.as_str()) {
        Some(k) => k,
        None => {
            let mut t: Vec<char> = Vec::new();
            push_str_chars(&mut t, "unknown view kind: ");
            push_str_chars(&mut t, kind_text.as_str());
            return Err(string_of(t.as_slice()));
        },
    };
    let table = match text_ref(attr_ref(e, ts, "view/table")) {
        Some(s) => clone_string(s),
        None => String::new(),
    };
    let cfg = view_config_blob(e, ts);
    let field_order = strings_from(member_ref(&cfg, "field_order"));
    let hidden_fields = strings_from(member_ref(&cfg, "hidden_fields"));
    let group_by = opt_text(member_ref(&cfg, "group_by"));
    let kanban_field = opt_text(member_ref(&cfg, "kanban_field"));
    let calendar_field = opt_text(member_ref(&cfg, "calendar_field"));
    let color_field = opt_text(member_ref(&cfg, "color_field"));
    let row_height = match member_ref(&cfg, "row_height") {
        Some(JsonValue::Number(JsonNumber::PosInt(u))) => Some(*u as u32),
        _ => None,
    };
    let creator_text = match text_ref(attr_ref(e, ts, "view/created_by")) {
        Some(s) => clone_string(s),
        None => message("00000000-0000-0000-0000-000000000000"),
    };
    let created_by = match parse_uuid(creator_text.as_str()) {
        Ok(u) => u,
        Err(_) => 0,
    };
    let created_at = time_from(attr_ref(e, ts, "view/created_at"), now);
    let updated_at = time_from(attr_ref(e, ts, "view/updated_at"), now);
    Ok(
        ViewConfig {
            id,
            name,
            kind,
            table_entity_type: table,
            filters,
            sorts,
            field_order,
            hidden_fields,
            group_by,
            kanban_field,
            calendar_field,
            color_field,
            row_height,
            created_by,
            created_at,
            updated_at,
        },
    )
}

// ── Reading back what was written ─────────────────────────────────

/// `ts` are the written triples `ins`, stored as live facts in order.
pub open spec fn stored_as(ts: Seq<Triple>, ins: Seq<TripleInputView>) -> bool {
    &&& ts.len() == ins.len()
    &&& forall|i: int|
        0 <= i < ts.len() ==> {
            &&& (#[trigger] ts[i]).entity_id == ins[i].entity_id
            &&& ts[i].attribute@ == ins[i].attribute
            &&& ts[i].value@ == ins[i].value
            &&& !ts[i].retracted
        }
}

proof fn lemma_first_key_at(s: Seq<(Seq<char>, JsonView)>, k: Seq<char>, j: int)
    requires
        0 <= j < s.len(),
        s[j].0 == k,
        forall|q: int| 0 <= q < j ==> s[q].0 != k,
    ensures
        first_key_pos(s, k) == Some(j),
{
    let i = choose|i: int| 0 <= i < s.len() && s[i].0 == k && forall|q: int| 0 <= q < i ==> s[q].0 != k;
    if i < j {
        assert(s[i].0 != k);
    } else if i > j {
        assert(s[j].0 != k);
    }
}

proof fn lemma_attr_at(e: u128, ts: Seq<Triple>, name: Seq<char>, j: int)
    requires
        0 <= j < ts.len(),
        is_live_attr(ts[j], e, name),
        forall|q: int| 0 <= q < j ==> ts[q].attribute@ != name,
    ensures
        attr_value(e, ts, name) == Some(ts[j].value@),
{
    lemma_attr_pos_from(e, ts, name, 0, j);
}

proof fn lemma_attr_pos_from(e: u128, ts: Seq<Triple>, name: Seq<char>, k: int, j: int)
    requires
        0 <= k <= j < ts.len(),
        is_live_attr(ts[j], e, name),
        forall|q: int| 0 <= q < j ==> ts[q].attribute@ != name,
    ensures
        attr_pos(e, ts, name, k) == Some(j),
    decreases j - k,
{
    if k < j {
        assert(ts[k].attribute@ != name);
        lemma_attr_pos_from(e, ts, name, k + 1, j);
    }
}

/// The strings of a list written as JSON read back as the list.
proof fn lemma_strings_round_trip(v: Seq<String>)
    ensures
        strings_of(Some(strings_json(v))) == Seq::new(v.len(), |i: int| v[i]@),
{
    let items = Seq::new(v.len(), |i: int| JsonView::String(v[i]@));
    assert(strings_json(v) == JsonView::Array(items));
    assert forall|i: int| 0 <= i < items.len() implies #[trigger] items[i] is String by {}
    assert(strings_of(Some(strings_json(v))) =~= Seq::new(v.len(), |i: int| v[i]@));
}

/// A view written as triples and read back gives the same view: its name,
/// kind, table, field order, hidden fields, display settings and row
/// height are those written (the filters and sorts being what their
/// stored JSON decodes to).
pub proof fn lemma_view_round_trip(
    e: u128,
    v: ViewConfig,
    ins: Seq<TripleInputView>,
    ts: Seq<Triple>,
    filters: Seq<FilterClause>,
    sorts: Seq<SortClause>,
    now: i64,
    r: ViewConfig,
)
    requires
        written_view(e, v, ins),
        stored_as(ts, ins),
        is_reconstruction(r, e, ts, filters, sorts, now),
    ensures
        r.id == v.id,
        r.created_by == v.created_by,
        four_digit_year(v.created_at) ==> r.created_at == v.created_at,
        four_digit_year(v.updated_at) ==> r.updated_at == v.updated_at,
        r.name@ == v.name@,
        r.kind == v.kind,
        r.table_entity_type@ == v.table_entity_type@,
        Seq::new(r.field_order@.len(), |i: int| r.field_order@[i]@) == Seq::new(
            v.field_order@.len(),
            |i: int| v.field_order@[i]@,
        ),
        Seq::new(r.hidden_fields@.len(), |i: int| r.hidden_fields@[i]@) == Seq::new(
            v.hidden_fields@.len(),
            |i: int| v.hidden_fields@[i]@,
        ),
        opt_text_view(r.group_by) == opt_text_view(v.group_by),
        opt_text_view(r.kanban_field) == opt_text_view(v.kanban_field),
        opt_text_view(r.calendar_field) == opt_text_view(v.calendar_field),
        opt_text_view(r.color_field) == opt_text_view(v.color_field),
        r.row_height == v.row_height,
        r.filters@ == filters,
        r.sorts@ == sorts,
{
    let (created, updated) = choose|c: Seq<char>, u: Seq<char>|
        {
            &&& ins == view_triples(e, v, c, u)
            &&& rfc3339_of_millis(v.created_at) == Some(c)
            &&& rfc3339_of_millis(v.updated_at) == Some(u)
            &&& uuid_value_of(uuid_text(v.id)) == Some(v.id)
            &&& uuid_value_of(uuid_text(v.created_by)) == Some(v.created_by)
            &&& (four_digit_year(v.created_at) ==> utc_millis_of(c) == Some(v.created_at))
            &&& (four_digit_year(v.updated_at) ==> utc_millis_of(u) == Some(v.updated_at))
        };
    reveal_strlit("view/id");
    reveal_strlit("view/name");
    reveal_strlit("view/kind");
    reveal_strlit("view/table");
    reveal_strlit("view/config");
    assert(ts[0].attribute@ == "view/id"@);
    assert(ts[1].attribute@ == "view/name"@);
    assert(ts[2].attribute@ == "view/kind"@);
    assert(ts[3].attribute@ == "view/table"@);
    assert(ts[4].attribute@ == "view/config"@);
    assert("view/id"@.len() != "view/name"@.len());
    assert("view/name"@[5] != "view/kind"@[5]);
    assert("view/id"@.len() != "view/kind"@.len());
    lemma_attr_at(e, ts, "view/name"@, 1);
    lemma_attr_at(e, ts, "view/kind"@, 2);
    assert forall|q: int| 0 <= q < 3 implies ts[q].attribute@ != "view/table"@ by {
        assert(ts[q].attribute@.len() != "view/table"@.len());
    }
    lemma_attr_at(e, ts, "view/table"@, 3);
    assert forall|q: int| 0 <= q < 4 implies ts[q].attribute@ != "view/config"@ by {
        assert(ts[q].attribute@.len() != "view/config"@.len());
    }
    lemma_attr_at(e, ts, "view/config"@, 4);
    // ids and times
    reveal_strlit("view/created_by");
    reveal_strlit("view/created_at");
    reveal_strlit("view/updated_at");
    lemma_attr_at(e, ts, "view/id"@, 0);
    assert(ts[5].attribute@ == "view/created_by"@);
    assert(ts[6].attribute@ == "view/created_at"@);
    assert(ts[7].attribute@ == "view/updated_at"@);
    assert forall|q: int| 0 <= q < 5 implies ts[q].attribute@ != "view/created_by"@ by {
        assert(ts[q].attribute@.len() != "view/created_by"@.len());
    }
    lemma_attr_at(e, ts, "view/created_by"@, 5);
    assert forall|q: int| 0 <= q < 6 implies ts[q].attribute@ != "view/created_at"@ by {
        if q == 5 {
            assert(ts[q].attribute@[13] != "view/created_at"@[13]);
        } else {
            assert(ts[q].attribute@.len() != "view/created_at"@.len());
        }
    }
    lemma_attr_at(e, ts, "view/created_at"@, 6);
    assert forall|q: int| 0 <= q < 7 implies ts[q].attribute@ != "view/updated_at"@ by {
        if q == 5 || q == 6 {
            assert(ts[q].attribute@[5] != "view/updated_at"@[5]);
        } else {
            assert(ts[q].attribute@.len() != "view/updated_at"@.len());
        }
    }
    lemma_attr_at(e, ts, "view/updated_at"@, 7);
    // the kind written reads back as itself
    reveal_strlit("grid");
    reveal_strlit("form");
    reveal_strlit("kanban");
    reveal_strlit("gallery");
    reveal_strlit("calendar");
    assert(view_kind_of(view_kind_str(v.kind)) == Some(v.kind)) by {
        assert("grid"@[0] != "form"@[0]);
        assert("grid"@.len() != "kanban"@.len());
        assert("form"@.len() != "kanban"@.len());
        assert("grid"@.len() != "gallery"@.len());
        assert("form"@.len() != "gallery"@.len());
        assert("kanban"@.len() != "gallery"@.len());
        assert("grid"@.len() != "calendar"@.len());
        assert("form"@.len() != "calendar"@.len());
        assert("kanban"@.len() != "calendar"@.len());
        assert("gallery"@.len() != "calendar"@.len());
    }
    // the members of the configuration blob
    let cfg = stored_config(e, ts);
    assert(cfg == config_blob(v));
    let es = match config_blob(v) {
        JsonView::Object(es) => es,
        _ => Seq::empty(),
    };
    reveal_strlit("filters");
    reveal_strlit("sorts");
    reveal_strlit("field_order");
    reveal_strlit("hidden_fields");
    reveal_strlit("group_by");
    reveal_strlit("kanban_field");
    reveal_strlit("calendar_field");
    reveal_strlit("color_field");
    reveal_strlit("row_height");
    assert(es[0].0 == "filters"@);
    assert(es[1].0 == "sorts"@);
    assert(es[2].0 == "field_order"@);
    assert(es[3].0 == "hidden_fields"@);
    assert(es[4].0 == "group_by"@);
    assert(es[5].0 == "kanban_field"@);
    assert(es[6].0 == "calendar_field"@);
    assert(es[7].0 == "color_field"@);
    assert(es[8].0 == "row_height"@);
    assert forall|q: int| 0 <= q < 2 implies es[q].0 != "field_order"@ by {
        assert(es[q].0.len() != "field_order"@.len());
    }
    lemma_first_key_at(es, "field_order"@, 2);
    assert forall|q: int| 0 <= q < 3 implies es[q].0 != "hidden_fields"@ by {
        assert(es[q].0.len() != "hidden_fields"@.len());
    }
    lemma_first_key_at(es, "hidden_fields"@, 3);
    assert forall|q: int| 0 <= q < 4 implies es[q].0 != "group_by"@ by {
        assert(es[q].0.len() != "group_by"@.len());
    }
    lemma_first_key_at(es, "group_by"@, 4);
    assert forall|q: int| 0 <= q < 5 implies es[q].0 != "kanban_field"@ by {
        assert(es[q].0.len() != "kanban_field"@.len());
    }
    lemma_first_key_at(es, "kanban_field"@, 5);
    assert forall|q: int| 0 <= q < 6 implies es[q].0 != "calendar_field"@ by {
        assert(es[q].0.len() != "calendar_field"@.len());
    }
    lemma_first_key_at(es, "calendar_field"@, 6);
    assert forall|q: int| 0 <= q < 7 implies es[q].0 != "color_field"@ by {
        if q == 2 {
            assert(es[q].0[0] != "color_field"@[0]);
        } else {
            assert(es[q].0.len() != "color_field"@.len());
        }
    }
    lemma_first_key_at(es, "color_field"@, 7);
    assert forall|q: int| 0 <= q < 8 implies es[q].0 != "row_height"@ by {
        assert(es[q].0.len() != "row_height"@.len());
    }
    lemma_first_key_at(es, "row_height"@, 8);
    lemma_strings_round_trip(v.field_order@);
    lemma_strings_round_trip(v.hidden_fields@);
}

} // verus!
