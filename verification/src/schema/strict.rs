//! Strict schema enforcement: per-collection attribute definitions that
//! documents are checked against before they are written.
//!
//! Enforcement is active only in strict mode; otherwise every document
//! passes through unchanged.  A document is a JSON map held as its entries
//! (distinct keys, in insertion order).
use vstd::prelude::*;
use crate::json::{
    JsonValue, JsonView, clone_json, clone_string, entry_views, first_key_pos, insert_key, key_position,
    insert_entry, opt_json_view,
};
use crate::text::{
    chars_of, chars_eq, has_prefix, lowercase_of, push_chars, push_str_chars, slice_chars, starts_with, string_of,
    to_lower, trim, trim_chars,
};

verus! {

// ── Value types ────────────────────────────────────────────────────

/// Recognised value-type tags of a definition.
#[derive(Debug, Clone)]
pub enum StrictValueType {
    String,
    Number,
    Boolean,
    Datetime,
    Uuid,
    Array,
    Object,
    Geometry,
    Vector,
    /// `link:<collection>` — foreign key to another collection.
    Link(String),
}

pub enum StrictTypeView {
    String,
    Number,
    Boolean,
    Datetime,
    Uuid,
    Array,
    Object,
    Geometry,
    Vector,
    Link(Seq<char>),
}

pub open spec fn strict_type_view(t: StrictValueType) -> StrictTypeView {
    match t {
        StrictValueType::String => StrictTypeView::String,
        StrictValueType::Number => StrictTypeView::Number,
        StrictValueType::Boolean => StrictTypeView::Boolean,
        StrictValueType::Datetime => StrictTypeView::Datetime,
        StrictValueType::Uuid => StrictTypeView::Uuid,
        StrictValueType::Array => StrictTypeView::Array,
        StrictValueType::Object => StrictTypeView::Object,
        StrictValueType::Geometry => StrictTypeView::Geometry,
        StrictValueType::Vector => StrictTypeView::Vector,
        StrictValueType::Link(c) => StrictTypeView::Link(c@),
    }
}

/// The type a tag names (trimmed, lower-cased): `link:<target>` with a
/// non-empty (trimmed) target, or one of the type words and their aliases.
pub open spec fn strict_type_of(raw: Seq<char>) -> Option<StrictTypeView> {
    let s = to_lower(trim(raw));
    if has_prefix(s, "link:"@) {
        let target = trim(s.subrange(5, s.len() as int));
        if target.len() == 0 {
            None
        } else {
            Some(StrictTypeView::Link(target))
        }
    } else if s == "string"@ || s == "text"@ {
        Some(StrictTypeView::String)
    } else if s == "number"@ || s == "int"@ || s == "integer"@ || s == "float"@ || s == "double"@ {
        Some(StrictTypeView::Number)
    } else if s == "boolean"@ || s == "bool"@ {
        Some(StrictTypeView::Boolean)
    } else if s == "datetime"@ || s == "timestamp"@ {
        Some(StrictTypeView::Datetime)
    } else if s == "uuid"@ {
        Some(StrictTypeView::Uuid)
    } else if s == "array"@ {
        Some(StrictTypeView::Array)
    } else if s == "object"@ || s == "json"@ {
        Some(StrictTypeView::Object)
    } else if s == "geometry"@ {
        Some(StrictTypeView::Geometry)
    } else if s == "vector"@ {
        Some(StrictTypeView::Vector)
    } else {
        None
    }
}

/// Whether chrono's `DateTime::parse_from_rfc3339` accepts this text.
pub uninterp spec fn rfc3339_parses(s: Seq<char>) -> bool;

/// What uuid's `Uuid::parse_str` reads from this text, as the UUID's
/// `u128` value; `None` when it rejects the text.
pub uninterp spec fn uuid_value_of(s: Seq<char>) -> Option<u128>;

/// The text of the error uuid's `Uuid::parse_str` gives for this text.
pub uninterp spec fn uuid_error_text(s: Seq<char>) -> Seq<char>;

/// Whether uuid's `Uuid::parse_str` accepts this text.
pub open spec fn uuid_parses(s: Seq<char>) -> bool {
    uuid_value_of(s) is Some
}

/// chrono `DateTime::parse_from_rfc3339(..).is_ok()`.
#[verifier::external_body]
pub(crate) fn is_rfc3339(s: &str) -> (r: bool)
    ensures
        r == rfc3339_parses(s@),
{
    chrono::DateTime::parse_from_rfc3339(s).is_ok()
}

/// uuid `Uuid::parse_str`: the UUID's `u128` value, or the text of the
/// error.
#[verifier::external_body]
pub(crate) fn parse_uuid(s: &str) -> (r: Result<u128, String>)
    ensures
        match uuid_value_of(s@) {
            Some(v) => r == Ok::<u128, String>(v),
            None => r is Err && r->Err_0@ == uuid_error_text(s@),
        },
{
    match uuid::Uuid::parse_str(s) {
        Ok(u) => Ok(u.as_u128()),
        Err(e) => Err(e.to_string()),
    }
}

/// Whether uuid's `Uuid::parse_str` accepts this text.
pub(crate) fn is_uuid_text(s: &str) -> (r: bool)
    ensures
        r == uuid_parses(s@),
{
    parse_uuid(s).is_ok()
}

/// Whether a value conforms to a type; links only need a UUID string
/// (referential integrity is checked elsewhere).
pub open spec fn strict_matches(t: StrictTypeView, v: JsonView) -> bool {
    match t {
        StrictTypeView::String => v is String,
        StrictTypeView::Number => v is Number,
        StrictTypeView::Boolean => v is Bool,
        StrictTypeView::Datetime => match v {
            JsonView::String(s) => rfc3339_parses(s),
            _ => false,
        },
        StrictTypeView::Uuid | StrictTypeView::Link(_) => match v {
            JsonView::String(s) => uuid_parses(s),
            _ => false,
        },
        StrictTypeView::Array => v is Array,
        StrictTypeView::Object => v is Object,
        StrictTypeView::Geometry => v is Object || v is Array,
        StrictTypeView::Vector => v is Array,
    }
}

/// The `object` type (also written `json`) accepts exactly the values
/// whose JSON kind is an object: no array, string, number, boolean or
/// null; and the `array` type accepts exactly the arrays.
pub proof fn lemma_object_type_accepts_objects(v: JsonView)
    ensures
        strict_type_of("object"@) == Some(StrictTypeView::Object),
        strict_matches(StrictTypeView::Object, v) <==> crate::json::value_type_label(v) == "object"@,
        strict_matches(StrictTypeView::Array, v) <==> crate::json::value_type_label(v) == "array"@,
        !(strict_matches(StrictTypeView::Object, v) && strict_matches(StrictTypeView::Array, v)),
{
    reveal_strlit("object");
    reveal_strlit("array");
    reveal_strlit("null");
    reveal_strlit("bool");
    reveal_strlit("number");
    reveal_strlit("string");
    reveal_strlit("link:");
    reveal_strlit("text");
    reveal_strlit("int");
    reveal_strlit("integer");
    reveal_strlit("float");
    reveal_strlit("double");
    reveal_strlit("boolean");
    reveal_strlit("datetime");
    reveal_strlit("timestamp");
    reveal_strlit("uuid");
    reveal_strlit("json");
    assert("object"@[0] != "string"@[0]);
    assert("object"@[0] != "number"@[0]);
    assert("object"@.len() != "null"@.len());
    assert("object"@.len() != "bool"@.len());
    assert("object"@.len() != "array"@.len());
    assert("array"@.len() != "null"@.len());
    assert("array"@.len() != "bool"@.len());
    assert("array"@.len() != "number"@.len());
    assert("array"@.len() != "string"@.len());
    let o = "object"@;
    assert(trim(o) =~= o) by {
        assert(crate::text::lead_ws(o) == 0);
        assert(o.last() == o[5]);
        assert(crate::text::trail_ws(o) == 0);
    }
    assert(crate::text::all_ascii(o)) by {
        assert forall|i: int| 0 <= i < o.len() implies crate::text::is_ascii_char(#[trigger] o[i]) by {}
    }
    assert(crate::text::ascii_lower_seq(o) =~= o);
    assert(!has_prefix(o, "link:"@)) by {
        if has_prefix(o, "link:"@) {
            assert(o.subrange(0, 5)[0] == o[0]);
        }
    }
}

/// Each type accepts only values of its JSON kind: strings for `string`
/// (and for `datetime`, `uuid` and links, which also check the text),
/// numbers for `number`, booleans for `boolean`, arrays for `array` and
/// `vector`, objects or arrays for `geometry`; and every value of the kind
/// is accepted by `string`, `number`, `boolean`, `array` and `vector`.
pub proof fn lemma_types_accept_their_kind(v: JsonView, t: StrictTypeView)
    ensures
        strict_matches(StrictTypeView::String, v) <==> v is String,
        strict_matches(StrictTypeView::Number, v) <==> v is Number,
        strict_matches(StrictTypeView::Boolean, v) <==> v is Bool,
        strict_matches(StrictTypeView::Vector, v) <==> v is Array,
        strict_matches(StrictTypeView::Geometry, v) <==> (v is Object || v is Array),
        (t is Datetime || t is Uuid || t is Link) && strict_matches(t, v) ==> v is String,
        v matches JsonView::String(x) ==> (strict_matches(StrictTypeView::Datetime, v) <==> rfc3339_parses(x)),
        v matches JsonView::String(x) ==> (strict_matches(StrictTypeView::Uuid, v) <==> uuid_parses(x)),
        t is Link ==> (v matches JsonView::String(x) ==> (strict_matches(t, v) <==> uuid_parses(x))),
        v is Null ==> !strict_matches(t, v),
{
}

fn is_word(s: &Vec<char>, w: &str) -> (r: bool)
    ensures
        r <==> s@ == w@,
{
    chars_eq(s.as_slice(), chars_of(w).as_slice())
}

impl StrictValueType {
    /// Parse a `value_type` tag; `None` for unrecognised input.
    pub fn parse(raw: &str) -> (r: Option<StrictValueType>)
        ensures
            match strict_type_of(raw@) {
                Some(t) => r matches Some(x) && strict_type_view(x) == t,
                None => r is None,
            },
    {
        let trimmed = string_of(trim_chars(&chars_of(raw)).as_slice());
        let s = lowercase_of(trimmed.as_str());
        let link = chars_of("link:");
        if starts_with(s.as_slice(), link.as_slice()) {
            proof {
                reveal_strlit("link:");
            }
            let target = trim_chars(&slice_chars(&s, 5, s.len()));
            if target.len() == 0 {
                return None;
            }
            return Some(StrictValueType::Link(string_of(target.as_slice())));
        }
        if is_word(&s, "string") || is_word(&s, "text") {
            Some(StrictValueType::String)
        } else if is_word(&s, "number") || is_word(&s, "int") || is_word(&s, "integer") || is_word(&s, "float")
            || is_word(&s, "double") {
            Some(StrictValueType::Number)
        } else if is_word(&s, "boolean") || is_word(&s, "bool") {
            Some(StrictValueType::Boolean)
        } else if is_word(&s, "datetime") || is_word(&s, "timestamp") {
            Some(StrictValueType::Datetime)
        } else if is_word(&s, "uuid") {
            Some(StrictValueType::Uuid)
        } else if is_word(&s, "array") {
            Some(StrictValueType::Array)
        } else if is_word(&s, "object") || is_word(&s, "json") {
            Some(StrictValueType::Object)
        } else if is_word(&s, "geometry") {
            Some(StrictValueType::Geometry)
        } else if is_word(&s, "vector") {
            Some(StrictValueType::Vector)
        } else {
            None
        }
    }

    /// Whether `value` conforms to this type (see [`strict_matches`]).
    pub fn matches(&self, value: &JsonValue) -> (r: bool)
        ensures
            r == strict_matches(strict_type_view(*self), value@),
    {
        match self {
            StrictValueType::String => matches!(value, JsonValue::String(_)),
            StrictValueType::Number => matches!(value, JsonValue::Number(_)),
            StrictValueType::Boolean => matches!(value, JsonValue::Bool(_)),
            StrictValueType::Datetime => match value {
                JsonValue::String(s) => is_rfc3339(s.as_str()),
                _ => false,
            },
            StrictValueType::Uuid | StrictValueType::Link(_) => match value {
                JsonValue::String(s) => is_uuid_text(s.as_str()),
                _ => false,
            },
            StrictValueType::Array => matches!(value, JsonValue::Array(_)),
            StrictValueType::Object => matches!(value, JsonValue::Object(_)),
            StrictValueType::Geometry => matches!(value, JsonValue::Object(_)) || matches!(value, JsonValue::Array(_)),
            StrictValueType::Vector => matches!(value, JsonValue::Array(_)),
        }
    }
}

// ── Errors and reports ─────────────────────────────────────────────

/// A single validation failure reported back to the client.
#[derive(Debug, Clone)]
pub struct StrictValidationError {
    pub field: String,
    pub code: String,
    pub message: Option<String>,
}

pub struct ErrorView {
    pub field: Seq<char>,
    pub code: Seq<char>,
    pub message: Option<Seq<char>>,
}

pub open spec fn error_view(e: StrictValidationError) -> ErrorView {
    ErrorView { field: e.field@, code: e.code@, message: crate::schema::opt_str_view(e.message) }
}

pub open spec fn error_views(v: Seq<StrictValidationError>) -> Seq<ErrorView> {
    Seq::new(v.len(), |i: int| error_view(v[i]))
}

impl StrictValidationError {
    /// An error on `field` with `code` and no message.
    pub fn new(field: &str, code: &str) -> (r: StrictValidationError)
        ensures
            r.field@ == field@,
            r.code@ == code@,
            r.message is None,
    {
        StrictValidationError { field: field.to_owned(), code: code.to_owned(), message: None }
    }

    /// The same error with a message.
    pub fn with_message(self, msg: &str) -> (r: StrictValidationError)
        ensures
            r.field == self.field,
            r.code == self.code,
            r.message matches Some(m) && m@ == msg@,
    {
        StrictValidationError { message: Some(msg.to_owned()), ..self }
    }
}

/// A document's check outcome: the errors, and the document with
/// defaults filled in (meaningful when there are no errors).
#[derive(Debug, Clone)]
pub struct StrictValidationReport {
    pub errors: Vec<StrictValidationError>,
    pub document: Vec<(String, JsonValue)>,
}

impl StrictValidationReport {
    /// No errors.
    pub fn is_valid(&self) -> (r: bool)
        ensures
            r <==> self.errors@.len() == 0,
    {
        self.errors.len() == 0
    }

    /// The error payload: `{"errors":[{"field":..,"code":..,"message":..}]}`
    /// (the message only when there is one).
    pub fn error_payload(&self) -> (r: JsonValue)
        ensures
            r@ == error_payload_of(error_views(self.errors@)),
    {
        let mut items: Vec<JsonValue> = Vec::new();
        let mut i: usize = 0;
        while i < self.errors.len()
            invariant
                i <= self.errors@.len(),
                crate::json::json_views(items@) == Seq::new(
                    i as nat,
                    |k: int| error_json(error_views(self.errors@)[k]),
                ),
            decreases self.errors.len() - i,
        {
            let e = &self.errors[i];
            let mut entries: Vec<(String, JsonValue)> = Vec::new();
            entries.push(("field".to_owned(), JsonValue::String(clone_string(&e.field))));
            entries.push(("code".to_owned(), JsonValue::String(clone_string(&e.code))));
            match &e.message {
                Some(m) => {
                    entries.push(("message".to_owned(), JsonValue::String(clone_string(m))));
                },
                None => {},
            }
            let item = JsonValue::Object(entries);
            proof {
                crate::json::lemma_object_view(entries);
                assert(entry_views(entries@) =~= error_entries(error_views(self.errors@)[i as int]));
            }
            assert(crate::json::json_view(item) == error_json(error_views(self.errors@)[i as int]));
            let ghost before = items@;
            let ghost iv = crate::json::json_view(item);
            items.push(item);
            assert(crate::json::json_views(items@) =~= crate::json::json_views(before).push(iv));
            assert(crate::json::json_views(items@) =~= Seq::new(
                (i + 1) as nat,
                |k: int| error_json(error_views(self.errors@)[k]),
            ));
            i += 1;
        }
        let arr = JsonValue::Array(items);
        proof {
            crate::json::lemma_array_view(items);
        }
        let mut top: Vec<(String, JsonValue)> = Vec::new();
        top.push(("errors".to_owned(), arr));
        proof {
            crate::json::lemma_object_view(top);
            assert(entry_views(top@) =~= seq![("errors"@, JsonView::Array(Seq::new(
                self.errors@.len(),
                |k: int| error_json(error_views(self.errors@)[k]),
            )))]);
        }
        JsonValue::Object(top)
    }
}

pub open spec fn error_entries(e: ErrorView) -> Seq<(Seq<char>, JsonView)> {
    seq![("field"@, JsonView::String(e.field)), ("code"@, JsonView::String(e.code))] + match e.message {
        Some(m) => seq![("message"@, JsonView::String(m))],
        None => Seq::empty(),
    }
}

pub open spec fn error_json(e: ErrorView) -> JsonView {
    JsonView::Object(error_entries(e))
}

pub open spec fn error_payload_of(errors: Seq<ErrorView>) -> JsonView {
    JsonView::Object(seq![("errors"@, JsonView::Array(Seq::new(errors.len(), |k: int| error_json(errors[k]))))])
}

// ── Definitions and the enforcer's cache ───────────────────────────

/// A single definition — one attribute of one collection.
#[derive(Debug, Clone)]
pub struct StrictFieldDef {
    /// Collection / entity-type name (e.g. `"users"`).
    pub collection: String,
    /// Attribute / field name (e.g. `"email"`).
    pub attribute: String,
    /// Declared value type, as accepted by [`StrictValueType::parse`].
    pub value_type: String,
    /// Field must be present on CREATE.
    pub required: bool,
    /// Field must be unique across the whole collection.
    pub unique_index: bool,
    /// Default value injected when the attribute is absent from a CREATE.
    pub default_val: Option<JsonValue>,
    /// Optional validator expression (kept, not interpreted here).
    pub validator: Option<String>,
}

/// The JSON kind of a value, for diagnostic messages.
pub open spec fn kind_name(v: JsonView) -> Seq<char> {
    match v {
        JsonView::Null => "null"@,
        JsonView::Bool(_) => "boolean"@,
        JsonView::Number(_) => "number"@,
        JsonView::String(_) => "string"@,
        JsonView::Array(_) => "array"@,
        JsonView::Object(_) => "object"@,
    }
}

fn kind_name_exec(v: &JsonValue) -> (r: &'static str)
    ensures
        r@ == kind_name(v@),
{
    match v {
        JsonValue::Null => "null",
        JsonValue::Bool(_) => "boolean",
        JsonValue::Number(_) => "number",
        JsonValue::String(_) => "string",
        JsonValue::Array(_) => "array",
        JsonValue::Object(_) => "object",
    }
}

pub open spec fn err_of(field: Seq<char>, code: Seq<char>, message: Option<Seq<char>>) -> ErrorView {
    ErrorView { field, code, message }
}

/// The message of a type mismatch.
pub open spec fn mismatch_message(value_type: Seq<char>, v: JsonView) -> Seq<char> {
    "expected "@ + value_type + ", got "@ + kind_name(v)
}

/// The check of one definition during a CREATE: a missing attribute takes
/// its default, or is reported `REQUIRED`; a `null` for a required one is
/// `REQUIRED`; a present value must match the declared type
/// (`TYPE_MISMATCH`), and an unknown declared type is `SCHEMA_CORRUPT`.
pub open spec fn create_step(errs: Seq<ErrorView>, doc: Seq<(Seq<char>, JsonView)>, d: StrictFieldDef) -> (
    Seq<ErrorView>,
    Seq<(Seq<char>, JsonView)>,
) {
    let a = d.attribute@;
    match first_key_pos(doc, a) {
        None => match d.default_val {
            Some(dv) => (errs, insert_key(doc, a, dv@)),
            None => if d.required {
                (errs.push(err_of(a, "REQUIRED"@, None)), doc)
            } else {
                (errs, doc)
            },
        },
        Some(p) => {
            let v = doc[p].1;
            if v is Null && d.required {
                (errs.push(err_of(a, "REQUIRED"@, None)), doc)
            } else {
                match strict_type_of(d.value_type@) {
                    Some(t) => if !strict_matches(t, v) {
                        (errs.push(err_of(a, "TYPE_MISMATCH"@, Some(mismatch_message(d.value_type@, v)))), doc)
                    } else {
                        (errs, doc)
                    },
                    None => (
                        errs.push(err_of(a, "SCHEMA_CORRUPT"@, Some("unknown value_type '"@ + d.value_type@ + "'"@))),
                        doc,
                    ),
                }
            }
        },
    }
}

/// [`create_step`] for each definition, in order.
pub open spec fn create_checks(defs: Seq<StrictFieldDef>, doc: Seq<(Seq<char>, JsonView)>) -> (
    Seq<ErrorView>,
    Seq<(Seq<char>, JsonView)>,
)
    decreases defs.len(),
{
    if defs.len() == 0 {
        (Seq::empty(), doc)
    } else {
        let (e, d) = create_checks(defs.drop_last(), doc);
        create_step(e, d, defs.last())
    }
}

/// A CREATE and a PATCH judge a supplied non-null value against its
/// definition alike: checking the definition on a CREATE of just that
/// value reports nothing exactly when a PATCH of it reports nothing, and
/// otherwise both report one `TYPE_MISMATCH` for that attribute.
pub proof fn lemma_create_and_patch_agree(d: StrictFieldDef, v: JsonView)
    requires
        !(v is Null),
        strict_type_of(d.value_type@) is Some,
    ensures
        ({
            let a = d.attribute@;
            let c = create_step(Seq::empty(), seq![(a, v)], d).0;
            let p = patch_checks(seq![d], seq![(a, v)]);
            &&& (c.len() == 0 <==> p.len() == 0)
            &&& c.len() <= 1
            &&& c.len() == 1 ==> c[0].code == "TYPE_MISMATCH"@ && c[0].field == a && p == c
        }),
{
    let a = d.attribute@;
    let doc = seq![(a, v)];
    assert(first_key_pos(doc, a) == Some(0int)) by {
        assert(doc[0].0 == a);
        assert(forall|q: int| 0 <= q < 0 ==> doc[q].0 != a);
        let i = choose|i: int| 0 <= i < doc.len() && doc[i].0 == a && forall|q: int| 0 <= q < i ==> doc[q].0 != a;
    }
    let defs = seq![d];
    assert(defs[0].attribute@ == a);
    assert(def_pos(defs, a) == Some(0int));
    let pt = seq![(a, v)];
    assert(pt.drop_last() =~= Seq::<(Seq<char>, JsonView)>::empty());
    assert(patch_checks(defs, Seq::<(Seq<char>, JsonView)>::empty()) == Seq::<ErrorView>::empty());
    let t = strict_type_of(d.value_type@)->0;
    let e = err_of(a, "TYPE_MISMATCH"@, Some(mismatch_message(d.value_type@, v)));
    if strict_matches(t, v) {
        assert(create_step(Seq::empty(), doc, d).0 == Seq::<ErrorView>::empty());
        assert(patch_checks(defs, pt) == Seq::<ErrorView>::empty());
    } else {
        assert(create_step(Seq::empty(), doc, d).0 == Seq::<ErrorView>::empty().push(e));
        assert(patch_checks(defs, pt) == Seq::<ErrorView>::empty().push(e));
    }
}

/// A CREATE missing an attribute: with a default, the default is put in
/// under the attribute and nothing is reported; without one, a required
/// attribute is reported `REQUIRED` (and only that), an optional one is
/// left out silently.
pub proof fn lemma_create_missing(errs: Seq<ErrorView>, doc: Seq<(Seq<char>, JsonView)>, d: StrictFieldDef)
    requires
        first_key_pos(doc, d.attribute@) is None,
    ensures
        ({
            let (e2, doc2) = create_step(errs, doc, d);
            &&& d.default_val matches Some(dv) ==> e2 == errs && first_key_pos(doc2, d.attribute@) == Some(
                doc.len() as int,
            ) && doc2[doc.len() as int].1 == dv@ && doc2.drop_last() == doc
            &&& d.default_val is None && d.required ==> doc2 == doc && e2 == errs.push(
                ErrorView { field: d.attribute@, code: "REQUIRED"@, message: None },
            )
            &&& d.default_val is None && !d.required ==> e2 == errs && doc2 == doc
        }),
{
    let a = d.attribute@;
    match d.default_val {
        Some(dv) => {
            let doc2 = doc.push((a, dv@));
            assert(doc2.drop_last() =~= doc);
            assert forall|q: int| 0 <= q < doc.len() implies doc2[q].0 != a by {
                if doc2[q].0 == a {
                    assert(doc[q].0 == a);
                    let j = choose|j: int| 0 <= j <= q && doc[j].0 == a && forall|r: int| 0 <= r < j ==> doc[r].0 != a;
                    lemma_first_key_exists(doc, a, q);
                }
            }
            let i = choose|i: int| 0 <= i < doc2.len() && doc2[i].0 == a && forall|r: int| 0 <= r < i ==> doc2[r].0 != a;
            assert(doc2[doc.len() as int].0 == a);
            if i < doc.len() {
                assert(doc2[i].0 != a);
            } else if i > doc.len() {
            }
        },
        None => {},
    }
}

/// A key that occurs has a first occurrence.
proof fn lemma_first_key_exists(s: Seq<(Seq<char>, JsonView)>, k: Seq<char>, q: int)
    requires
        0 <= q < s.len(),
        s[q].0 == k,
    ensures
        first_key_pos(s, k) is Some,
    decreases q,
{
    if exists|r: int| 0 <= r < q && s[r].0 == k {
        let r = choose|r: int| 0 <= r < q && s[r].0 == k;
        lemma_first_key_exists(s, k, r);
    } else {
        assert(0 <= q < s.len() && s[q].0 == k && forall|r: int| 0 <= r < q ==> s[r].0 != k);
    }
}

/// The definition of attribute `a` among `defs`, if any.
pub open spec fn def_pos(defs: Seq<StrictFieldDef>, a: Seq<char>) -> Option<int> {
    if exists|i: int| 0 <= i < defs.len() && defs[i].attribute@ == a {
        Some(choose|i: int| 0 <= i < defs.len() && defs[i].attribute@ == a)
    } else {
        None
    }
}

/// The type errors of a PATCH: for each supplied attribute in order that
/// has a definition with a known type, a non-null value that does not
/// match it.
pub open spec fn patch_checks(defs: Seq<StrictFieldDef>, patch: Seq<(Seq<char>, JsonView)>) -> Seq<ErrorView>
    decreases patch.len(),
{
    if patch.len() == 0 {
        Seq::empty()
    } else {
        let r = patch_checks(defs, patch.drop_last());
        let (a, v) = patch.last();
        match def_pos(defs, a) {
            Some(i) => match strict_type_of(defs[i].value_type@) {
                Some(t) => if !strict_matches(t, v) && !(v is Null) {
                    r.push(err_of(a, "TYPE_MISMATCH"@, Some(mismatch_message(defs[i].value_type@, v))))
                } else {
                    r
                },
                None => r,
            },
            None => r,
        }
    }
}

/// The cached definitions, grouped by collection, and the mode.
#[derive(Debug, Clone)]
pub struct StrictSchemaCache {
    /// `(collection, definitions)`, one group per collection, one
    /// definition per attribute within a group.
    pub by_collection: Vec<(String, Vec<StrictFieldDef>)>,
    /// Whether enforcement is active.
    pub strict_mode: bool,
}

pub open spec fn group_pos(groups: Seq<(String, Vec<StrictFieldDef>)>, c: Seq<char>) -> Option<int> {
    if exists|i: int| 0 <= i < groups.len() && groups[i].0@ == c {
        Some(choose|i: int| 0 <= i < groups.len() && groups[i].0@ == c)
    } else {
        None
    }
}

impl StrictSchemaCache {
    /// Collections are distinct, and so are the attributes of each.
    pub open spec fn wf(&self) -> bool {
        &&& forall|i: int, j: int|
            0 <= i < j < self.by_collection@.len() ==> self.by_collection@[i].0@ != self.by_collection@[j].0@
        &&& forall|k: int| 0 <= k < self.by_collection@.len() ==> {
            let d = (#[trigger] self.by_collection@[k]).1@;
            forall|i: int, j: int| 0 <= i < j < d.len() ==> d[i].attribute@ != d[j].attribute@
        }
    }

    /// An empty cache in the given mode.
    pub fn new(strict_mode: bool) -> (r: StrictSchemaCache)
        ensures
            r.wf(),
            r.by_collection@.len() == 0,
            r.strict_mode == strict_mode,
    {
        StrictSchemaCache { by_collection: Vec::new(), strict_mode }
    }

    /// Whether strict enforcement is active.
    pub fn is_strict(&self) -> (r: bool)
        ensures
            r == self.strict_mode,
    {
        self.strict_mode
    }

    fn find_group(&self, c: &Vec<char>) -> (r: Option<usize>)
        requires
            self.wf(),
        ensures
            match r {
                Some(i) => group_pos(self.by_collection@, c@) == Some(i as int) && i < self.by_collection@.len(),
                None => group_pos(self.by_collection@, c@) is None,
            },
    {
        let mut i: usize = 0;
        while i < self.by_collection.len()
            invariant
                i <= self.by_collection@.len(),
                self.wf(),
                forall|j: int| 0 <= j < i ==> self.by_collection@[j].0@ != c@,
            decreases self.by_collection.len() - i,
        {
            if chars_eq(chars_of(self.by_collection[i].0.as_str()).as_slice(), c.as_slice()) {
                proof {
                    let w = choose|j: int| 0 <= j < self.by_collection@.len() && self.by_collection@[j].0@ == c@;
                    if w > i {
                        assert(self.by_collection@[i as int].0@ != self.by_collection@[w].0@);
                    }
                }
                return Some(i);
            }
            i += 1;
        }
        None
    }

    /// Validate a CREATE document for `collection`: in strict mode with
    /// definitions for the collection, the checks of [`create_checks`];
    /// otherwise no errors and the document unchanged.
    pub fn validate_create(&self, collection: &str, document: &Vec<(String, JsonValue)>) -> (r: StrictValidationReport)
        requires
            self.wf(),
        ensures
            match (self.strict_mode, group_pos(self.by_collection@, collection@)) {
                (true, Some(g)) => {
                    let (errs, doc) = create_checks(self.by_collection@[g].1@, entry_views(document@));
                    error_views(r.errors@) == errs && entry_views(r.document@) == doc
                },
                _ => r.errors@.len() == 0 && entry_views(r.document@) == entry_views(document@),
            },
    {
        let doc0 = crate::json::clone_entries(document);
        if !self.strict_mode {
            return StrictValidationReport { errors: Vec::new(), document: doc0 };
        }
        let g = match self.find_group(&chars_of(collection)) {
            Some(g) => g,
            None => {
                return StrictValidationReport { errors: Vec::new(), document: doc0 };
            },
        };
        let defs = &self.by_collection[g].1;
        let mut errors: Vec<StrictValidationError> = Vec::new();
        let mut doc = doc0;
        let mut i: usize = 0;
        while i < defs.len()
            invariant
                i <= defs@.len(),
                (error_views(errors@), entry_views(doc@)) == create_checks(
                    defs@.subrange(0, i as int),
                    entry_views(document@),
                ),
            decreases defs.len() - i,
        {
            let d = &defs[i];
            proof {
                assert(defs@.subrange(0, i + 1).drop_last() =~= defs@.subrange(0, i as int));
                assert(defs@.subrange(0, i + 1).last() == defs@[i as int]);
            }
            let ghost e0 = error_views(errors@);
            let a = chars_of(d.attribute.as_str());
            match key_position(&doc, &a) {
                None => {
                    match &d.default_val {
                        Some(dv) => {
                            insert_entry(&mut doc, clone_string(&d.attribute), clone_json(dv));
                        },
                        None => {
                            if d.required {
                                errors.push(StrictValidationError::new(d.attribute.as_str(), "REQUIRED"));
                                assert(error_views(errors@) =~= e0.push(err_of(d.attribute@, "REQUIRED"@, None)));
                            }
                        },
                    }
                },
                Some(p) => {
                    assert(entry_views(doc@)[p as int] == (doc@[p as int].0@, doc@[p as int].1@));
                    let v = &doc[p].1;
                    let is_null = matches!(v, JsonValue::Null);
                    if is_null && d.required {
                        errors.push(StrictValidationError::new(d.attribute.as_str(), "REQUIRED"));
                        assert(error_views(errors@) =~= e0.push(err_of(d.attribute@, "REQUIRED"@, None)));
                    } else {
                        match StrictValueType::parse(d.value_type.as_str()) {
                            Some(t) => {
                                if !t.matches(v) {
                                    let mut m = chars_of("expected ");
                                    push_str_chars(&mut m, d.value_type.as_str());
                                    push_str_chars(&mut m, ", got ");
                                    push_str_chars(&mut m, kind_name_exec(v));
                                    let msg = string_of(m.as_slice());
                                    errors.push(
                                        StrictValidationError::new(d.attribute.as_str(), "TYPE_MISMATCH").with_message(
                                            msg.as_str(),
                                        ),
                                    );
                                    assert(error_views(errors@) =~= e0.push(
                                        err_of(d.attribute@, "TYPE_MISMATCH"@, Some(mismatch_message(d.value_type@, v@))),
                                    ));
                                }
                            },
                            None => {
                                let mut m = chars_of("unknown value_type '");
                                push_str_chars(&mut m, d.value_type.as_str());
                                push_str_chars(&mut m, "'");
                                let msg = string_of(m.as_slice());
                                errors.push(
                                    StrictValidationError::new(d.attribute.as_str(), "SCHEMA_CORRUPT").with_message(
                                        msg.as_str(),
                                    ),
                                );
                                assert(error_views(errors@) =~= e0.push(
                                    err_of(d.attribute@, "SCHEMA_CORRUPT"@, Some("unknown value_type '"@ + d.value_type@ + "'"@)),
                                ));
                            },
                        }
                    }
                },
            }
            i += 1;
        }
        assert(defs@.subrange(0, defs@.len() as int) =~= defs@);
        StrictValidationReport { errors, document: doc }
    }

    /// Validate a PATCH for `collection`: in strict mode with definitions,
    /// the type errors of [`patch_checks`]; the patch is returned as is.
    pub fn validate_patch(&self, collection: &str, patch: &Vec<(String, JsonValue)>) -> (r: StrictValidationReport)
        requires
            self.wf(),
        ensures
            entry_views(r.document@) == entry_views(patch@),
            match (self.strict_mode, group_pos(self.by_collection@, collection@)) {
                (true, Some(g)) => error_views(r.errors@) == patch_checks(
                    self.by_collection@[g].1@,
                    entry_views(patch@),
                ),
                _ => r.errors@.len() == 0,
            },
    {
        let doc = crate::json::clone_entries(patch);
        if !self.strict_mode {
            return StrictValidationReport { errors: Vec::new(), document: doc };
        }
        let g = match self.find_group(&chars_of(collection)) {
            Some(g) => g,
            None => {
                return StrictValidationReport { errors: Vec::new(), document: doc };
            },
        };
        let defs = &self.by_collection[g].1;
        let ghost pv = entry_views(patch@);
        let mut errors: Vec<StrictValidationError> = Vec::new();
        let mut i: usize = 0;
        while i < patch.len()
            invariant
                i <= patch@.len(),
                pv == entry_views(patch@),
                forall|x: int, y: int| 0 <= x < y < defs@.len() ==> defs@[x].attribute@ != defs@[y].attribute@,
                error_views(errors@) == patch_checks(defs@, pv.subrange(0, i as int)),
            decreases patch.len() - i,
        {
            proof {
                assert(pv.subrange(0, i + 1).drop_last() =~= pv.subrange(0, i as int));
                assert(pv.subrange(0, i + 1).last() == pv[i as int]);
            }
            let ghost e0 = error_views(errors@);
            let a = chars_of(patch[i].0.as_str());
            let v = &patch[i].1;
            let mut j: usize = 0;
            let mut found: Option<usize> = None;
            while j < defs.len() && found.is_none()
                invariant
                    j <= defs@.len(),
                    forall|x: int, y: int| 0 <= x < y < defs@.len() ==> defs@[x].attribute@ != defs@[y].attribute@,
                    found is None ==> forall|x: int| 0 <= x < j ==> defs@[x].attribute@ != a@,
                    found matches Some(f) ==> def_pos(defs@, a@) == Some(f as int) && f < defs@.len(),
                decreases defs.len() - j,
            {
                if chars_eq(chars_of(defs[j].attribute.as_str()).as_slice(), a.as_slice()) {
                    proof {
                        let w = choose|x: int| 0 <= x < defs@.len() && defs@[x].attribute@ == a@;
                        if w > j {
                            assert(defs@[j as int].attribute@ != defs@[w].attribute@);
                        } else if w < j {
                            assert(defs@[w].attribute@ != defs@[j as int].attribute@);
                        }
                    }
                    found = Some(j);
                }
                j += 1;
            }
            match found {
                Some(f) => {
                    let d = &defs[f];
                    match StrictValueType::parse(d.value_type.as_str()) {
                        Some(t) => {
                            if !t.matches(v) && !matches!(v, JsonValue::Null) {
                                let mut m = chars_of("expected ");
                                push_str_chars(&mut m, d.value_type.as_str());
                                push_str_chars(&mut m, ", got ");
                                push_str_chars(&mut m, kind_name_exec(v));
                                let msg = string_of(m.as_slice());
                                errors.push(
                                    StrictValidationError::new(patch[i].0.as_str(), "TYPE_MISMATCH").with_message(
                                        msg.as_str(),
                                    ),
                                );
                                assert(error_views(errors@) =~= e0.push(
                                    err_of(a@, "TYPE_MISMATCH"@, Some(mismatch_message(d.value_type@, v@))),
                                ));
                            }
                        },
                        None => {},
                    }
                },
                None => {},
            }
            i += 1;
        }
        assert(pv.subrange(0, patch@.len() as int) =~= pv);
        StrictValidationReport { errors, document: doc }
    }
}

/// Why an upsert of definitions is refused, if it is: an empty (blank)
/// collection name, or the first definition whose type is unknown.
pub open spec fn upsert_rejection(collection: Seq<char>, defs: Seq<StrictFieldDef>) -> Option<Seq<char>> {
    if trim(collection).len() == 0 {
        Some("collection name must not be empty"@)
    } else if exists|i: int| 0 <= i < defs.len() && strict_type_of(#[trigger] defs[i].value_type@) is None {
        let i = choose|i: int|
            0 <= i < defs.len() && strict_type_of(#[trigger] defs[i].value_type@) is None && forall|j: int|
                0 <= j < i ==> strict_type_of(#[trigger] defs[j].value_type@) is Some;
        Some("unknown value_type '"@ + defs[i].value_type@ + "' for "@ + collection + "/"@ + defs[i].attribute@)
    } else {
        None
    }
}

/// The checks an upsert of definitions must pass before anything is
/// written, so that a batch is accepted or refused as a whole.
pub fn check_upsert(collection: &str, defs: &Vec<StrictFieldDef>) -> (r: Result<(), String>)
    ensures
        match upsert_rejection(collection@, defs@) {
            None => r is Ok,
            Some(m) => r matches Err(x) && x@ == m,
        },
{
    if trim_chars(&chars_of(collection)).len() == 0 {
        return Err("collection name must not be empty".to_owned());
    }
    let mut i: usize = 0;
    while i < defs.len()
        invariant
            i <= defs@.len(),
            trim(collection@).len() != 0,
            forall|j: int| 0 <= j < i ==> strict_type_of(#[trigger] defs@[j].value_type@) is Some,
        decreases defs.len() - i,
    {
        if StrictValueType::parse(defs[i].value_type.as_str()).is_none() {
            proof {
                let w = choose|w: int|
                    0 <= w < defs@.len() && strict_type_of(#[trigger] defs@[w].value_type@) is None && forall|j: int|
                        0 <= j < w ==> strict_type_of(#[trigger] defs@[j].value_type@) is Some;
                if w < i {
                } else if w > i {
                    assert(strict_type_of(defs@[i as int].value_type@) is None);
                }
            }
            let mut m = chars_of("unknown value_type '");
            push_str_chars(&mut m, defs[i].value_type.as_str());
            push_str_chars(&mut m, "' for ");
            push_str_chars(&mut m, collection);
            push_str_chars(&mut m, "/");
            push_str_chars(&mut m, defs[i].attribute.as_str());
            return Err(string_of(m.as_slice()));
        }
        i += 1;
    }
    Ok(())
}

/// Every field of a definition copy is the same.
pub open spec fn same_def(a: StrictFieldDef, b: StrictFieldDef) -> bool {
    &&& a.collection@ == b.collection@
    &&& a.attribute@ == b.attribute@
    &&& a.value_type@ == b.value_type@
    &&& a.required == b.required
    &&& a.unique_index == b.unique_index
    &&& opt_json_view(a.default_val) == opt_json_view(b.default_val)
    &&& crate::schema::opt_str_view(a.validator) == crate::schema::opt_str_view(b.validator)
}

pub fn clone_def(d: &StrictFieldDef) -> (r: StrictFieldDef)
    ensures
        same_def(r, *d),
{
    StrictFieldDef {
        collection: clone_string(&d.collection),
        attribute: clone_string(&d.attribute),
        value_type: clone_string(&d.value_type),
        required: d.required,
        unique_index: d.unique_index,
        default_val: crate::json::clone_opt_json(&d.default_val),
        validator: crate::schema::clone_opt_string(&d.validator),
    }
}

impl StrictSchemaCache {
    /// The definitions of a collection, if it has any.
    pub fn get(&self, collection: &str) -> (r: Option<Vec<StrictFieldDef>>)
        requires
            self.wf(),
        ensures
            match group_pos(self.by_collection@, collection@) {
                None => r is None,
                Some(g) => r matches Some(v) && v@.len() == self.by_collection@[g].1@.len() && forall|i: int|
                    0 <= i < v@.len() ==> same_def(#[trigger] v@[i], self.by_collection@[g].1@[i]),
            },
    {
        match self.find_group(&chars_of(collection)) {
            None => None,
            Some(g) => {
                let defs = &self.by_collection[g].1;
                let mut out: Vec<StrictFieldDef> = Vec::new();
                let mut i: usize = 0;
                while i < defs.len()
                    invariant
                        i <= defs@.len(),
                        out@.len() == i,
                        forall|k: int| 0 <= k < i ==> same_def(#[trigger] out@[k], defs@[k]),
                    decreases defs.len() - i,
                {
                    out.push(clone_def(&defs[i]));
                    i += 1;
                }
                Some(out)
            },
        }
    }

    /// Every known collection name, in increasing order.
    pub fn collections(&self) -> (r: Vec<String>)
        requires
            self.wf(),
        ensures
            Seq::new(r@.len(), |i: int| r@[i]@) == crate::order::sorted_set(
                Seq::new(self.by_collection@.len(), |i: int| self.by_collection@[i].0@).to_set(),
            ),
    {
        let ghost names = Seq::new(self.by_collection@.len(), |i: int| self.by_collection@[i].0@);
        let mut v: Vec<Vec<char>> = Vec::new();
        let mut i: usize = 0;
        while i < self.by_collection.len()
            invariant
                i <= self.by_collection@.len(),
                self.wf(),
                names == Seq::new(self.by_collection@.len(), |k: int| self.by_collection@[k].0@),
                Seq::new(v@.len(), |k: int| v@[k]@) == names.subrange(0, i as int),
            decreases self.by_collection.len() - i,
        {
            let ghost b = Seq::new(v@.len(), |k: int| v@[k]@);
            let c = chars_of(self.by_collection[i].0.as_str());
            v.push(c);
            assert(Seq::new(v@.len(), |k: int| v@[k]@) =~= b.push(c@));
            i += 1;
            assert(Seq::new(v@.len(), |k: int| v@[k]@) =~= names.subrange(0, i as int));
        }
        assert(names.subrange(0, names.len() as int) =~= names);
        assert forall|a: int, b: int| 0 <= a < b < v@.len() implies v@[a]@ != v@[b]@ by {
            assert(v@[a]@ == names[a] && v@[b]@ == names[b]);
        }
        let sorted = crate::order::sort_distinct(v);
        proof {
            crate::order::lemma_is_sorted_set(Seq::new(sorted@.len(), |k: int| sorted@[k]@));
        }
        let mut out: Vec<String> = Vec::new();
        let mut k: usize = 0;
        while k < sorted.len()
            invariant
                k <= sorted@.len(),
                Seq::new(out@.len(), |j: int| out@[j]@) == Seq::new(sorted@.len(), |j: int| sorted@[j]@).subrange(
                    0,
                    k as int,
                ),
            decreases sorted.len() - k,
        {
            let ghost b = Seq::new(out@.len(), |j: int| out@[j]@);
            let t = string_of(sorted[k].as_slice());
            out.push(t);
            assert(Seq::new(out@.len(), |j: int| out@[j]@) =~= b.push(sorted@[k as int]@));
            k += 1;
            assert(Seq::new(out@.len(), |j: int| out@[j]@) =~= Seq::new(sorted@.len(), |j: int| sorted@[j]@).subrange(
                0,
                k as int,
            ));
        }
        assert(Seq::new(sorted@.len(), |j: int| sorted@[j]@).subrange(0, sorted@.len() as int) =~= Seq::new(
            sorted@.len(),
            |j: int| sorted@[j]@,
        ));
        out
    }
}

/// No attribute has two definitions.
pub open spec fn attrs_distinct(d: Seq<StrictFieldDef>) -> bool {
    forall|i: int, j: int| 0 <= i < j < d.len() ==> d[i].attribute@ != d[j].attribute@
}

/// `defs` with `d` in place of the definition of the same attribute, or
/// added at the end.
pub open spec fn def_put(defs: Seq<StrictFieldDef>, d: StrictFieldDef) -> Seq<StrictFieldDef> {
    match def_pos(defs, d.attribute@) {
        Some(i) => defs.update(i, d),
        None => defs.push(d),
    }
}

pub open spec fn group_views(groups: Seq<(String, Vec<StrictFieldDef>)>) -> Seq<(Seq<char>, Seq<StrictFieldDef>)> {
    Seq::new(groups.len(), |i: int| (groups[i].0@, groups[i].1@))
}

pub open spec fn gv_pos(gs: Seq<(Seq<char>, Seq<StrictFieldDef>)>, c: Seq<char>) -> Option<int> {
    if exists|i: int| 0 <= i < gs.len() && gs[i].0 == c {
        Some(choose|i: int| 0 <= i < gs.len() && gs[i].0 == c)
    } else {
        None
    }
}

/// The cache contents the rows load into: one group per collection in
/// order of first appearance, within it one definition per attribute (the
/// last row for it), in order of first appearance.
pub open spec fn groups_of(rows: Seq<StrictFieldDef>) -> Seq<(Seq<char>, Seq<StrictFieldDef>)>
    decreases rows.len(),
{
    if rows.len() == 0 {
        Seq::empty()
    } else {
        let gs = groups_of(rows.drop_last());
        let r = rows.last();
        match gv_pos(gs, r.collection@) {
            Some(g) => gs.update(g, (r.collection@, def_put(gs[g].1, r))),
            None => gs.push((r.collection@, seq![r])),
        }
    }
}

impl StrictSchemaCache {
    /// Replace the cached definitions by those of `rows` (see
    /// [`groups_of`]).
    pub fn reload(&mut self, rows: Vec<StrictFieldDef>)
        requires
            old(self).wf(),
        ensures
            final(self).wf(),
            final(self).strict_mode == old(self).strict_mode,
            group_views(final(self).by_collection@) == groups_of(rows@),
    {
        let ghost all = rows@;
        let ghost total = all.len();
        self.by_collection = Vec::new();
        assert(group_views(self.by_collection@) =~= groups_of(all.take(0)));
        let mut rest = rows;
        while rest.len() > 0
            invariant
                rest@.len() <= total,
                total == all.len(),
                rest@ == all.skip(total - rest@.len()),
                self.wf(),
                self.strict_mode == old(self).strict_mode,
                group_views(self.by_collection@) == groups_of(all.take(total - rest@.len())),
            decreases rest.len(),
        {
            let ghost n = total - rest@.len();
            let ghost gs = group_views(self.by_collection@);
            let ghost bc = self.by_collection@;
            let ghost before = rest@;
            let row = rest.remove(0);
            assert(row == all[n]);
            assert(rest@ =~= all.skip(n + 1));
            assert(all.take(n + 1).drop_last() =~= all.take(n));
            let c = chars_of(row.collection.as_str());
            match self.find_group(&c) {
                Some(g) => {
                    assert(gv_pos(gs, row.collection@) == Some(g as int)) by {
                        assert(gs[g as int].0 == row.collection@);
                        let w = choose|i: int| 0 <= i < gs.len() && gs[i].0 == row.collection@;
                        if w != g {
                            assert(self.by_collection@[w].0@ != self.by_collection@[g as int].0@);
                        }
                    }
                    let (name, mut defs) = self.by_collection.remove(g);
                    let ghost ds = defs@;
                    assert(ds == gs[g as int].1);
                    assert forall|i: int, j: int| 0 <= i < j < ds.len() implies ds[i].attribute@ != ds[j].attribute@ by {
                        assert(attrs_distinct(ds));
                    }
                    let a = chars_of(row.attribute.as_str());
                    let mut k: usize = 0;
                    let mut found: Option<usize> = None;
                    while k < defs.len()
                        invariant
                            k <= defs@.len(),
                            defs@ == ds,
                            a@ == row.attribute@,
                            match found {
                                Some(f) => f < ds.len() && ds[f as int].attribute@ == row.attribute@,
                                None => forall|q: int| 0 <= q < k ==> ds[q].attribute@ != row.attribute@,
                            },
                        decreases defs.len() - k,
                    {
                        if found.is_none() && chars_eq(chars_of(defs[k].attribute.as_str()).as_slice(), a.as_slice()) {
                            found = Some(k);
                        }
                        k += 1;
                    }
                    let ghost d_new = def_put(ds, row);
                    match found {
                        Some(f) => {
                            proof {
                                let w = choose|i: int| 0 <= i < ds.len() && ds[i].attribute@ == row.attribute@;
                                if w != f {
                                    assert(ds[w].attribute@ != ds[f as int].attribute@) by {
                                        assert(attrs_distinct(ds));
                                    }
                                }
                            }
                            defs.set(f, row);
                            assert(defs@ =~= d_new);
                        },
                        None => {
                            defs.push(row);
                            assert(defs@ =~= d_new);
                        },
                    }
                    self.by_collection.insert(g, (name, defs));
                    proof {
                        assert(group_views(self.by_collection@) =~= gs.update(g as int, (all[n].collection@, d_new)));
                        assert(attrs_distinct(d_new)) by {
                            assert forall|i: int, j: int| 0 <= i < j < d_new.len() implies d_new[i].attribute@
                                != d_new[j].attribute@ by {
                                assert(attrs_distinct(ds));
                                if j == ds.len() {
                                    assert(ds[i].attribute@ != row.attribute@);
                                }
                            }
                        }
                        assert forall|i: int, j: int| 0 <= i < j < self.by_collection@.len() implies self.by_collection@[i].0@
                            != self.by_collection@[j].0@ by {
                            assert(gs[i].0 != gs[j].0);
                        }
                        assert forall|q: int| 0 <= q < self.by_collection@.len() implies attrs_distinct(
                            #[trigger] self.by_collection@[q].1@,
                        ) by {
                            if q != g {
                                assert(self.by_collection@[q] == bc[q]);
                            }
                        }
                    }
                },
                None => {
                    let name = crate::json::clone_string(&row.collection);
                    let mut defs: Vec<StrictFieldDef> = Vec::new();
                    defs.push(row);
                    self.by_collection.push((name, defs));
                    proof {
                        assert(defs@ =~= seq![all[n]]);
                        assert(group_views(self.by_collection@) =~= gs.push((all[n].collection@, seq![all[n]])));
                        assert forall|i: int, j: int| 0 <= i < j < self.by_collection@.len() implies self.by_collection@[i].0@
                            != self.by_collection@[j].0@ by {
                            if j < gs.len() {
                                assert(gs[i].0 != gs[j].0);
                            }
                        }
                    }
                },
            }
        }
        assert(all.take(total as int) =~= all);
    }
}

} // verus!
