//! Schema modes, field types and table schema definitions.
//!
//! Three enforcement modes per table:
//!
//! - **SCHEMAFULL**: every field must be defined; unknown fields are rejected.
//! - **SCHEMALESS**: any document is accepted (the default).
//! - **MIXED**: defined fields are type-checked; other fields pass through.
use vstd::prelude::*;
use crate::text::{
    ascii_lower_seq, case_keyword_eq, chars_eq, chars_of, contains_char, ends_with, has_prefix,
    has_suffix, lowercase_of, slice_chars, split_count, split_on, split_piece, starts_with,
    string_of, to_lower, to_upper, trim, trim_chars, uppercase_of, lemma_pieces_in_range,
    lead_ws, trail_ws, push_str_chars, push_chars,
};
use crate::json::{JsonValue, JsonView, clone_opt_json, opt_json_view, opt_json_eq_exec, clone_string};

pub mod migration;
pub mod strict;
pub mod pattern;
pub mod validator;

verus! {

// ── Schema mode ────────────────────────────────────────────────────

/// The enforcement level for a table's schema.
#[derive(Debug, Clone, Copy, PartialEq, Eq, Hash, Structural)]
pub enum SchemaMode {
    /// Strict: all fields must be defined; unknown fields are rejected.
    Schemafull,
    /// Flexible: any document accepted with no validation (default).
    Schemaless,
    /// Hybrid: defined fields are enforced; extras are allowed.
    Mixed,
}

impl Default for SchemaMode {
    fn default() -> (r: Self)
        ensures
            r == SchemaMode::Schemaless,
    {
        SchemaMode::Schemaless
    }
}

/// The mode named by an already upper-cased mode string.
pub open spec fn schema_mode_of_upper(u: Seq<char>) -> Option<SchemaMode> {
    if u == "SCHEMAFULL"@ || u == "STRICT"@ {
        Some(SchemaMode::Schemafull)
    } else if u == "SCHEMALESS"@ || u == "FLEXIBLE"@ {
        Some(SchemaMode::Schemaless)
    } else if u == "MIXED"@ || u == "HYBRID"@ {
        Some(SchemaMode::Mixed)
    } else {
        None
    }
}

impl SchemaMode {
    /// The name the mode is displayed and stored under.
    pub open spec fn display(self) -> Seq<char> {
        match self {
            SchemaMode::Schemafull => "SCHEMAFULL"@,
            SchemaMode::Schemaless => "SCHEMALESS"@,
            SchemaMode::Mixed => "MIXED"@,
        }
    }

    /// Parse a mode string (case-insensitive, via `str::to_uppercase`).
    pub fn parse(s: &str) -> (r: Option<Self>)
        ensures
            r == schema_mode_of_upper(to_upper(s@)),
    {
        let u = uppercase_of(s);
        if case_keyword_eq(&u, "SCHEMAFULL") || case_keyword_eq(&u, "STRICT") {
            Some(SchemaMode::Schemafull)
        } else if case_keyword_eq(&u, "SCHEMALESS") || case_keyword_eq(&u, "FLEXIBLE") {
            Some(SchemaMode::Schemaless)
        } else if case_keyword_eq(&u, "MIXED") || case_keyword_eq(&u, "HYBRID") {
            Some(SchemaMode::Mixed)
        } else {
            None
        }
    }

    pub fn as_str(&self) -> (r: &'static str)
        ensures
            r@ == self.display(),
    {
        match self {
            SchemaMode::Schemafull => "SCHEMAFULL",
            SchemaMode::Schemaless => "SCHEMALESS",
            SchemaMode::Mixed => "MIXED",
        }
    }

    /// The displayed name as an owned string.
    pub fn to_string(&self) -> (r: String)
        ensures
            r@ == self.display(),
    {
        self.as_str().to_owned()
    }
}

} // verus!

verus! {

// ── Field type ─────────────────────────────────────────────────────

/// Supported field types for schema definitions.
#[derive(Debug)]
pub enum FieldType {
    /// UTF-8 text.
    String,
    /// 64-bit signed integer.
    Int,
    /// Binary64 floating point.
    Float,
    /// Boolean.
    Bool,
    /// RFC 3339 timestamp.
    Datetime,
    /// UUID (stored as string, validated as UUID).
    Uuid,
    /// Arbitrary JSON object or array.
    Json,
    /// Reference to another entity (UUID foreign key).
    Record(Option<String>),
    /// Array of a specific type.
    Array(Box<FieldType>),
    /// One of several types.
    Union(Vec<FieldType>),
    /// Any type (no constraint).
    Any,
}

/// The mathematical shape of a [`FieldType`].
pub enum FieldTypeView {
    String,
    Int,
    Float,
    Bool,
    Datetime,
    Uuid,
    Json,
    Record(Option<Seq<char>>),
    Array(Box<FieldTypeView>),
    Union(Seq<FieldTypeView>),
    Any,
}

pub open spec fn ft_view(t: FieldType) -> FieldTypeView
    decreases t,
{
    match t {
        FieldType::String => FieldTypeView::String,
        FieldType::Int => FieldTypeView::Int,
        FieldType::Float => FieldTypeView::Float,
        FieldType::Bool => FieldTypeView::Bool,
        FieldType::Datetime => FieldTypeView::Datetime,
        FieldType::Uuid => FieldTypeView::Uuid,
        FieldType::Json => FieldTypeView::Json,
        FieldType::Record(Some(table)) => FieldTypeView::Record(Some(table@)),
        FieldType::Record(None) => FieldTypeView::Record(None),
        FieldType::Array(inner) => FieldTypeView::Array(Box::new(ft_view(*inner))),
        FieldType::Union(v) => FieldTypeView::Union(
            Seq::new(v@.len(), |i: int| if 0 <= i < v@.len() { ft_view(v@[i]) } else { FieldTypeView::Any }),
        ),
        FieldType::Any => FieldTypeView::Any,
    }
}

impl View for FieldType {
    type V = FieldTypeView;

    open spec fn view(&self) -> FieldTypeView {
        ft_view(*self)
    }
}

pub open spec fn opt_ft_view(t: Option<FieldType>) -> Option<FieldTypeView> {
    match t {
        Some(x) => Some(ft_view(x)),
        None => None,
    }
}

/// The field type named by an already lower-cased keyword.
pub open spec fn field_type_keyword(l: Seq<char>) -> Option<FieldTypeView> {
    if l == "string"@ || l == "text"@ {
        Some(FieldTypeView::String)
    } else if l == "int"@ || l == "integer"@ || l == seq!['i', '6', '4'] {
        Some(FieldTypeView::Int)
    } else if l == "float"@ || l == seq!['f', '6', '4'] || l == "number"@ || l == "decimal"@ {
        Some(FieldTypeView::Float)
    } else if l == "bool"@ || l == "boolean"@ {
        Some(FieldTypeView::Bool)
    } else if l == "datetime"@ || l == "timestamp"@ {
        Some(FieldTypeView::Datetime)
    } else if l == "uuid"@ {
        Some(FieldTypeView::Uuid)
    } else if l == "json"@ || l == "object"@ {
        Some(FieldTypeView::Json)
    } else if l == "record"@ || l == "reference"@ {
        Some(FieldTypeView::Record(None))
    } else if l == "any"@ {
        Some(FieldTypeView::Any)
    } else {
        None
    }
}

/// `FieldType::parse` on the characters `s`.
///
/// The markers it looks for in the lowered text (`|`, `array<`, `>`,
/// `record(`, `)`) are ASCII, and Unicode lowercasing produces them only
/// from the same ASCII characters, so cutting the trimmed text at character
/// positions 6 or 7 and before its last character cuts it where the
/// byte-indexed slices of the text fall.
pub open spec fn parse_ft(s: Seq<char>) -> Option<FieldTypeView>
    decreases s.len(), 1int, 0int,
{
    let t = trim(s);
    let l = to_lower(t);
    let parts = if l.contains('|') && t.contains('|') && t.len() <= s.len() {
        parse_ft_parts(t, 0)
    } else {
        Seq::empty()
    };
    if parts.len() >= 2 {
        Some(FieldTypeView::Union(parts))
    } else if has_prefix(l, "array<"@) && has_suffix(l, ">"@) && 7 <= t.len() <= s.len() {
        match parse_ft(t.subrange(6, t.len() - 1)) {
            Some(inner) => Some(FieldTypeView::Array(Box::new(inner))),
            None => None,
        }
    } else if has_prefix(l, "record("@) && has_suffix(l, ")"@) && 8 <= t.len() {
        Some(FieldTypeView::Record(Some(t.subrange(7, t.len() - 1))))
    } else {
        field_type_keyword(l)
    }
}

/// The parsed types of the pieces `k..` of `t.split('|')`, skipping
/// pieces that do not parse.
pub open spec fn parse_ft_parts(t: Seq<char>, k: int) -> Seq<FieldTypeView>
    decreases t.len(), 0int, split_count(t, '|') - k,
{
    if k < 0 || k >= split_count(t, '|') || !t.contains('|') {
        Seq::empty()
    } else {
        let rest = parse_ft_parts(t, k + 1);
        let piece = split_piece(t, '|', k);
        if trim(piece).len() < t.len() {
            match parse_ft(trim(piece)) {
                Some(x) => seq![x] + rest,
                None => rest,
            }
        } else {
            rest
        }
    }
}

} // verus!

verus! {

pub open spec fn ft_views(v: Seq<FieldType>) -> Seq<FieldTypeView> {
    Seq::new(v.len(), |i: int| ft_view(v[i]))
}

proof fn lemma_parts_step(t: Seq<char>, k: int)
    requires
        0 <= k < split_count(t, '|'),
        t.contains('|'),
    ensures
        parse_ft_parts(t, k) == (if trim(split_piece(t, '|', k)).len() < t.len() {
            match parse_ft(trim(split_piece(t, '|', k))) {
                Some(x) => seq![x],
                None => Seq::<FieldTypeView>::empty(),
            }
        } else {
            Seq::<FieldTypeView>::empty()
        }) + parse_ft_parts(t, k + 1),
{
    let piece = split_piece(t, '|', k);
    if trim(piece).len() < t.len() {
        match parse_ft(trim(piece)) {
            Some(x) => {},
            None => {
                assert(Seq::<FieldTypeView>::empty() + parse_ft_parts(t, k + 1) =~= parse_ft_parts(t, k + 1));
            },
        }
    } else {
        assert(Seq::<FieldTypeView>::empty() + parse_ft_parts(t, k + 1) =~= parse_ft_parts(t, k + 1));
    }
}

proof fn lemma_union_view(v: Vec<FieldType>)
    ensures
        ft_view(FieldType::Union(v)) == FieldTypeView::Union(ft_views(v@)),
{
    let u = ft_view(FieldType::Union(v));
    match u {
        FieldTypeView::Union(a) => {
            assert(a.len() == v@.len());
            assert forall|i: int| 0 <= i < a.len() implies a[i] == ft_views(v@)[i] by {}
            assert(a =~= ft_views(v@));
        },
        _ => {},
    }
}

impl FieldType {
    /// Parse a type string (case-insensitive): `a | b` unions, `array<t>`,
    /// `record(table)`, and the keywords of [`field_type_keyword`].
    pub fn parse(s: &str) -> (r: Option<Self>)
        ensures
            opt_ft_view(r) == parse_ft(s@),
    {
        let v = chars_of(s);
        parse_field_type_chars(&v)
    }
}

fn parse_field_type_chars(s: &Vec<char>) -> (r: Option<FieldType>)
    ensures
        opt_ft_view(r) == parse_ft(s@),
    decreases s.len(),
{
    let t = trim_chars(s);
    proof {
        crate::text::lemma_trim_range(s@);
    }
    let ts = string_of(t.as_slice());
    let l = lowercase_of(ts.as_str());
    let mut parts: Vec<FieldType> = Vec::new();
    let has_pipe = contains_char(l.as_slice(), '|') && contains_char(t.as_slice(), '|');
    if has_pipe {
        let pieces = split_on(&t, '|');
        let mut k: usize = 0;
        while k < pieces.len()
            invariant
                pieces@.len() == split_count(t@, '|'),
                forall|j: int| 0 <= j < pieces@.len() ==> (#[trigger] pieces@[j])@ == split_piece(t@, '|', j),
                k <= pieces.len(),
                t@.contains('|'),
                t@.len() <= s@.len(),
                ft_views(parts@) + parse_ft_parts(t@, k as int) == parse_ft_parts(t@, 0),
            decreases pieces.len() - k,
        {
            let piece_trim = trim_chars(&pieces[k]);
            proof {
                lemma_parts_step(t@, k as int);
                crate::text::lemma_trim_range(pieces@[k as int]@);
                lemma_pieces_in_range(t@, '|', k as int);
                crate::text::lemma_char_positions(t@, '|');
                let pos = crate::text::char_positions(t@, '|');
                let i = choose|i: int| 0 <= i < t@.len() && t@[i] == '|';
                assert(pos.contains(i));
            }
            if piece_trim.len() < t.len() {
                match parse_field_type_chars(&piece_trim) {
                    Some(x) => {
                        let ghost before = parts@;
                        parts.push(x);
                        proof {
                            assert(ft_views(parts@) =~= ft_views(before) + seq![ft_view(x)]);
                            assert(ft_views(parts@) + parse_ft_parts(t@, k + 1) =~= ft_views(before)
                                + parse_ft_parts(t@, k as int));
                        }
                    },
                    None => {
                        assert(ft_views(parts@) + parse_ft_parts(t@, k + 1) =~= ft_views(parts@)
                            + parse_ft_parts(t@, k as int));
                    },
                }
            } else {
                assert(ft_views(parts@) + parse_ft_parts(t@, k + 1) =~= ft_views(parts@) + parse_ft_parts(t@, k as int));
            }
            k += 1;
        }
        proof {
            assert(parse_ft_parts(t@, k as int) == Seq::<FieldTypeView>::empty());
            assert(ft_views(parts@) =~= ft_views(parts@) + Seq::<FieldTypeView>::empty());
        }
    } else {
        assert(ft_views(parts@) =~= Seq::<FieldTypeView>::empty());
    }
    if parts.len() >= 2 {
        let r = FieldType::Union(parts);
        proof {
            lemma_union_view(parts);
        }
        return Some(r);
    }
    let n = t.len();
    if starts_with(l.as_slice(), chars_of("array<").as_slice()) && ends_with(l.as_slice(), chars_of(">").as_slice())
        && n >= 7 {
        let inner = slice_chars(&t, 6, n - 1);
        return match parse_field_type_chars(&inner) {
            Some(x) => Some(FieldType::Array(Box::new(x))),
            None => None,
        };
    }
    if starts_with(l.as_slice(), chars_of("record(").as_slice()) && ends_with(l.as_slice(), chars_of(")").as_slice())
        && n >= 8 {
        let table = slice_chars(&t, 7, n - 1);
        return Some(FieldType::Record(Some(string_of(table.as_slice()))));
    }
    if case_keyword_eq(&l, "string") || case_keyword_eq(&l, "text") {
        Some(FieldType::String)
    } else if case_keyword_eq(&l, "int") || case_keyword_eq(&l, "integer") || chars_eq(l.as_slice(), &['i', '6', '4']) {
        Some(FieldType::Int)
    } else if case_keyword_eq(&l, "float") || chars_eq(l.as_slice(), &['f', '6', '4']) || case_keyword_eq(&l, "number")
        || case_keyword_eq(&l, "decimal") {
        Some(FieldType::Float)
    } else if case_keyword_eq(&l, "bool") || case_keyword_eq(&l, "boolean") {
        Some(FieldType::Bool)
    } else if case_keyword_eq(&l, "datetime") || case_keyword_eq(&l, "timestamp") {
        Some(FieldType::Datetime)
    } else if case_keyword_eq(&l, "uuid") {
        Some(FieldType::Uuid)
    } else if case_keyword_eq(&l, "json") || case_keyword_eq(&l, "object") {
        Some(FieldType::Json)
    } else if case_keyword_eq(&l, "record") || case_keyword_eq(&l, "reference") {
        Some(FieldType::Record(None))
    } else if case_keyword_eq(&l, "any") {
        Some(FieldType::Any)
    } else {
        None
    }
}

} // verus!

verus! {

/// The text a field type is displayed as.
pub open spec fn ft_display(t: FieldTypeView) -> Seq<char>
    decreases t, 0int,
{
    match t {
        FieldTypeView::String => "string"@,
        FieldTypeView::Int => "int"@,
        FieldTypeView::Float => "float"@,
        FieldTypeView::Bool => "bool"@,
        FieldTypeView::Datetime => "datetime"@,
        FieldTypeView::Uuid => "uuid"@,
        FieldTypeView::Json => "json"@,
        FieldTypeView::Record(Some(table)) => "record("@ + table + ")"@,
        FieldTypeView::Record(None) => "record"@,
        FieldTypeView::Array(inner) => "array<"@ + ft_display(*inner) + ">"@,
        FieldTypeView::Union(ts) => ft_display_join(ts, ts.len() as int),
        FieldTypeView::Any => "any"@,
    }
}

/// The displays of `ts[0..n]` joined with `" | "`.
pub open spec fn ft_display_join(ts: Seq<FieldTypeView>, n: int) -> Seq<char>
    decreases ts, n,
{
    if n <= 0 || n > ts.len() {
        Seq::empty()
    } else if n == 1 {
        ft_display(ts[0])
    } else {
        ft_display_join(ts, n - 1) + " | "@ + ft_display(ts[n - 1])
    }
}

#[verifier::loop_isolation(false)]
fn display_chars(t: &FieldType) -> (r: Vec<char>)
    ensures
        r@ == ft_display(t@),
    decreases t,
{
    let mut out: Vec<char> = Vec::new();
    match t {
        FieldType::String => push_str_chars(&mut out, "string"),
        FieldType::Int => push_str_chars(&mut out, "int"),
        FieldType::Float => push_str_chars(&mut out, "float"),
        FieldType::Bool => push_str_chars(&mut out, "bool"),
        FieldType::Datetime => push_str_chars(&mut out, "datetime"),
        FieldType::Uuid => push_str_chars(&mut out, "uuid"),
        FieldType::Json => push_str_chars(&mut out, "json"),
        FieldType::Record(Some(table)) => {
            push_str_chars(&mut out, "record(");
            push_str_chars(&mut out, table.as_str());
            push_str_chars(&mut out, ")");
        },
        FieldType::Record(None) => push_str_chars(&mut out, "record"),
        FieldType::Array(inner) => {
            push_str_chars(&mut out, "array<");
            let d = display_chars(&**inner);
            push_chars(&mut out, &d);
            push_str_chars(&mut out, ">");
        },
        FieldType::Union(ts) => {
            proof {
                lemma_union_view(*ts);
            }
            let ghost tv = ft_views(ts@);
            let mut i: usize = 0;
            while i < ts.len()
                invariant
                    i <= ts.len(),
                    tv == ft_views(ts@),
                    *t == FieldType::Union(*ts),
                    out@ == ft_display_join(tv, i as int),
                decreases ts.len() - i,
            {
                assert(decreases_to!(*ts => ts[i as int]));
                let d = display_chars(&ts[i]);
                if i > 0 {
                    push_str_chars(&mut out, " | ");
                }
                push_chars(&mut out, &d);
                i += 1;
            }
        },
        FieldType::Any => push_str_chars(&mut out, "any"),
    }
    out
}

impl FieldType {
    /// The text this type is displayed as (`array<string>`, `record(users)`,
    /// `string | int`, ...).
    pub fn to_string(&self) -> (r: String)
        ensures
            r@ == ft_display(self@),
    {
        let v = display_chars(self);
        string_of(v.as_slice())
    }

    /// The triple-store value type discriminator for this field type.
    pub fn to_value_type_i16(&self) -> (r: i16)
        ensures
            r == ft_value_type(self@),
    {
        match self {
            FieldType::String => 0,
            FieldType::Int => 1,
            FieldType::Float => 2,
            FieldType::Bool => 3,
            FieldType::Datetime => 4,
            FieldType::Uuid | FieldType::Record(_) => 5,
            FieldType::Json | FieldType::Array(_) => 6,
            FieldType::Union(_) | FieldType::Any => 6,
        }
    }
}

/// Triple-store discriminator of a field type: string 0, int 1, float 2,
/// bool 3, datetime 4, uuid/record 5, everything else (JSON) 6.
pub open spec fn ft_value_type(t: FieldTypeView) -> i16 {
    match t {
        FieldTypeView::String => 0,
        FieldTypeView::Int => 1,
        FieldTypeView::Float => 2,
        FieldTypeView::Bool => 3,
        FieldTypeView::Datetime => 4,
        FieldTypeView::Uuid | FieldTypeView::Record(_) => 5,
        _ => 6,
    }
}

/// Equality of field types (structural).
#[verifier::loop_isolation(false)]
pub fn ft_equal(a: &FieldType, b: &FieldType) -> (r: bool)
    ensures
        r == (a@ == b@),
    decreases a,
{
    match (a, b) {
        (FieldType::String, FieldType::String) => true,
        (FieldType::Int, FieldType::Int) => true,
        (FieldType::Float, FieldType::Float) => true,
        (FieldType::Bool, FieldType::Bool) => true,
        (FieldType::Datetime, FieldType::Datetime) => true,
        (FieldType::Uuid, FieldType::Uuid) => true,
        (FieldType::Json, FieldType::Json) => true,
        (FieldType::Any, FieldType::Any) => true,
        (FieldType::Record(x), FieldType::Record(y)) => match (x, y) {
            (Some(p), Some(q)) => chars_eq(chars_of(p.as_str()).as_slice(), chars_of(q.as_str()).as_slice()),
            (None, None) => true,
            _ => false,
        },
        (FieldType::Array(x), FieldType::Array(y)) => ft_equal(&**x, &**y),
        (FieldType::Union(xs), FieldType::Union(ys)) => {
            proof {
                lemma_union_view(*xs);
                lemma_union_view(*ys);
            }
            if xs.len() != ys.len() {
                assert(ft_views(xs@).len() != ft_views(ys@).len());
                return false;
            }
            let mut i: usize = 0;
            while i < xs.len()
                invariant
                    xs.len() == ys.len(),
                    i <= xs.len(),
                    forall|j: int| 0 <= j < i ==> ft_view(xs@[j]) == ft_view(ys@[j]),
                decreases xs.len() - i,
            {
                assert(decreases_to!(*xs => xs[i as int]));
                if !ft_equal(&xs[i], &ys[i]) {
                    assert(ft_views(xs@)[i as int] != ft_views(ys@)[i as int]);
                    return false;
                }
                i += 1;
            }
            assert(ft_views(xs@) =~= ft_views(ys@));
            true
        },
        _ => false,
    }
}

pub fn opt_ft_equal(a: &Option<FieldType>, b: &Option<FieldType>) -> (r: bool)
    ensures
        r == (opt_ft_view(*a) == opt_ft_view(*b)),
{
    match (a, b) {
        (Some(x), Some(y)) => ft_equal(x, y),
        (None, None) => true,
        _ => false,
    }
}

/// A copy of a field type.
#[verifier::loop_isolation(false)]
pub fn clone_ft(t: &FieldType) -> (r: FieldType)
    ensures
        r@ == t@,
    decreases t,
{
    match t {
        FieldType::String => FieldType::String,
        FieldType::Int => FieldType::Int,
        FieldType::Float => FieldType::Float,
        FieldType::Bool => FieldType::Bool,
        FieldType::Datetime => FieldType::Datetime,
        FieldType::Uuid => FieldType::Uuid,
        FieldType::Json => FieldType::Json,
        FieldType::Any => FieldType::Any,
        FieldType::Record(Some(x)) => FieldType::Record(Some(clone_string(x))),
        FieldType::Record(None) => FieldType::Record(None),
        FieldType::Array(x) => FieldType::Array(Box::new(clone_ft(&**x))),
        FieldType::Union(xs) => {
            let mut out: Vec<FieldType> = Vec::new();
            let mut i: usize = 0;
            while i < xs.len()
                invariant
                    i <= xs.len(),
                    out.len() == i,
                    forall|j: int| 0 <= j < i ==> ft_view(out@[j]) == ft_view(xs@[j]),
                decreases xs.len() - i,
            {
                assert(decreases_to!(*xs => xs[i as int]));
                out.push(clone_ft(&xs[i]));
                i += 1;
            }
            proof {
                lemma_union_view(*xs);
                lemma_union_view(out);
                assert(ft_views(out@) =~= ft_views(xs@));
            }
            FieldType::Union(out)
        },
    }
}

pub fn clone_opt_ft(t: &Option<FieldType>) -> (r: Option<FieldType>)
    ensures
        opt_ft_view(r) == opt_ft_view(*t),
{
    match t {
        Some(x) => Some(clone_ft(x)),
        None => None,
    }
}

impl Clone for FieldType {
    fn clone(&self) -> (r: Self)
        ensures
            r@ == self@,
    {
        clone_ft(self)
    }
}

} // verus!

verus! {

// ── Field definition ───────────────────────────────────────────────

/// A single field within a table schema:
/// `DEFINE FIELD name ON table TYPE type [DEFAULT val] [ASSERT expr]`.
#[derive(Debug, Clone)]
pub struct FieldDefinition {
    /// Field name (e.g. `"name"`, `"email"`, `"age"`).
    pub name: String,
    /// Expected type. `None` means any type is accepted.
    pub field_type: Option<FieldType>,
    /// Default value injected when the field is absent from the document.
    pub default_value: Option<JsonValue>,
    /// Assertion expression evaluated against `$value`.
    pub assert_expr: Option<String>,
    /// Whether the field must be present in every inserted document.
    pub required: bool,
    /// Whether the field must contain a unique value across all entities.
    pub unique: bool,
    /// Whether the field is read-only after initial creation.
    pub readonly: bool,
}

pub struct FieldDefinitionView {
    pub name: Seq<char>,
    pub field_type: Option<FieldTypeView>,
    pub default_value: Option<JsonView>,
    pub assert_expr: Option<Seq<char>>,
    pub required: bool,
    pub unique: bool,
    pub readonly: bool,
}

pub open spec fn opt_str_view(s: Option<String>) -> Option<Seq<char>> {
    match s {
        Some(x) => Some(x@),
        None => None,
    }
}

impl View for FieldDefinition {
    type V = FieldDefinitionView;

    open spec fn view(&self) -> FieldDefinitionView {
        FieldDefinitionView {
            name: self.name@,
            field_type: opt_ft_view(self.field_type),
            default_value: opt_json_view(self.default_value),
            assert_expr: opt_str_view(self.assert_expr),
            required: self.required,
            unique: self.unique,
            readonly: self.readonly,
        }
    }
}

pub fn clone_opt_string(s: &Option<String>) -> (r: Option<String>)
    ensures
        opt_str_view(r) == opt_str_view(*s),
{
    match s {
        Some(x) => Some(clone_string(x)),
        None => None,
    }
}

pub fn opt_string_eq(a: &Option<String>, b: &Option<String>) -> (r: bool)
    ensures
        r == (opt_str_view(*a) == opt_str_view(*b)),
{
    match (a, b) {
        (Some(x), Some(y)) => chars_eq(chars_of(x.as_str()).as_slice(), chars_of(y.as_str()).as_slice()),
        (None, None) => true,
        _ => false,
    }
}

pub fn clone_field(f: &FieldDefinition) -> (r: FieldDefinition)
    ensures
        r@ == f@,
{
    FieldDefinition {
        name: clone_string(&f.name),
        field_type: clone_opt_ft(&f.field_type),
        default_value: clone_opt_json(&f.default_value),
        assert_expr: clone_opt_string(&f.assert_expr),
        required: f.required,
        unique: f.unique,
        readonly: f.readonly,
    }
}

impl FieldDefinition {
    /// A minimal field definition with just a name and type.
    pub fn new(name: &str, field_type: FieldType) -> (r: Self)
        ensures
            r@ == (FieldDefinitionView {
                name: name@,
                field_type: Some(field_type@),
                default_value: None,
                assert_expr: None,
                required: false,
                unique: false,
                readonly: false,
            }),
    {
        FieldDefinition {
            name: name.to_owned(),
            field_type: Some(field_type),
            default_value: None,
            assert_expr: None,
            required: false,
            unique: false,
            readonly: false,
        }
    }

    /// Builder: set the default value.
    pub fn with_default(self, value: JsonValue) -> (r: Self)
        ensures
            r@ == (FieldDefinitionView { default_value: Some(value@), ..self@ }),
    {
        FieldDefinition { default_value: Some(value), ..self }
    }

    /// Builder: set the assert expression.
    pub fn with_assert(self, expr: &str) -> (r: Self)
        ensures
            r@ == (FieldDefinitionView { assert_expr: Some(expr@), ..self@ }),
    {
        FieldDefinition { assert_expr: Some(expr.to_owned()), ..self }
    }

    /// Builder: mark as required.
    pub fn required(self) -> (r: Self)
        ensures
            r@ == (FieldDefinitionView { required: true, ..self@ }),
    {
        FieldDefinition { required: true, ..self }
    }

    /// Builder: mark as unique.
    pub fn unique(self) -> (r: Self)
        ensures
            r@ == (FieldDefinitionView { unique: true, ..self@ }),
    {
        FieldDefinition { unique: true, ..self }
    }

    /// Builder: mark as read-only.
    pub fn readonly(self) -> (r: Self)
        ensures
            r@ == (FieldDefinitionView { readonly: true, ..self@ }),
    {
        FieldDefinition { readonly: true, ..self }
    }
}

// ── Index definition ───────────────────────────────────────────────

/// An index on one or more fields of a table:
/// `DEFINE INDEX idx_name ON table FIELDS field1[, field2] [UNIQUE]`.
#[derive(Debug, Clone)]
pub struct IndexDefinition {
    /// Index name (e.g. `"idx_email"`).
    pub name: String,
    /// Ordered list of fields in the index.
    pub fields: Vec<String>,
    /// Whether the index enforces uniqueness.
    pub unique: bool,
}

pub struct IndexDefinitionView {
    pub name: Seq<char>,
    pub fields: Seq<Seq<char>>,
    pub unique: bool,
}

impl View for IndexDefinition {
    type V = IndexDefinitionView;

    open spec fn view(&self) -> IndexDefinitionView {
        IndexDefinitionView {
            name: self.name@,
            fields: Seq::new(self.fields@.len(), |i: int| self.fields@[i]@),
            unique: self.unique,
        }
    }
}

pub fn clone_strings(v: &Vec<String>) -> (r: Vec<String>)
    ensures
        r@.len() == v@.len(),
        forall|i: int| 0 <= i < v@.len() ==> (#[trigger] r@[i])@ == v@[i]@,
{
    let mut out: Vec<String> = Vec::new();
    let mut i: usize = 0;
    while i < v.len()
        invariant
            i <= v.len(),
            out@.len() == i,
            forall|j: int| 0 <= j < i ==> (#[trigger] out@[j])@ == v@[j]@,
        decreases v.len() - i,
    {
        out.push(clone_string(&v[i]));
        i += 1;
    }
    out
}

// ── Permissions ────────────────────────────────────────────────────

/// Row-level permissions for a table: an expression per operation.
#[derive(Debug, Clone)]
pub struct TablePermissions {
    pub select: Option<String>,
    pub create: Option<String>,
    pub update: Option<String>,
    pub delete: Option<String>,
}

impl Default for TablePermissions {
    fn default() -> (r: Self)
        ensures
            r.select is None && r.create is None && r.update is None && r.delete is None,
    {
        TablePermissions { select: None, create: None, update: None, delete: None }
    }
}

// ── Table schema ───────────────────────────────────────────────────

/// Complete schema definition for a single table:
/// `DEFINE TABLE name [SCHEMAFULL|SCHEMALESS|MIXED]`.
///
/// Fields and indexes are kept in definition order; their names are
/// distinct (see [`TableSchema::wf`]).
#[derive(Debug, Clone)]
pub struct TableSchema {
    /// Table name (e.g. `"users"`).
    pub name: String,
    /// Schema enforcement mode.
    pub mode: SchemaMode,
    /// Field definitions, one per field name.
    pub fields: Vec<FieldDefinition>,
    /// Index definitions, one per index name.
    pub indexes: Vec<IndexDefinition>,
    /// Row-level permissions.
    pub permissions: TablePermissions,
    /// Schema version (monotonically increasing).
    pub version: i64,
    /// When this schema was created or last modified (Unix milliseconds).
    pub updated_at: i64,
}

/// The current time in Unix milliseconds (chrono `Utc::now`); nothing is
/// stated of the value.
#[verifier::external_body]
pub(crate) fn now_millis() -> i64 {
    chrono::Utc::now().timestamp_millis()
}

pub open spec fn field_names_distinct(fields: Seq<FieldDefinition>) -> bool {
    forall|i: int, j: int| 0 <= i < j < fields.len() ==> fields[i].name@ != fields[j].name@
}

pub open spec fn index_names_distinct(indexes: Seq<IndexDefinition>) -> bool {
    forall|i: int, j: int| 0 <= i < j < indexes.len() ==> indexes[i].name@ != indexes[j].name@
}

/// Position of the field named `name`, if any.
pub open spec fn field_pos(fields: Seq<FieldDefinition>, name: Seq<char>) -> Option<int> {
    if exists|i: int| 0 <= i < fields.len() && fields[i].name@ == name {
        Some(choose|i: int| 0 <= i < fields.len() && fields[i].name@ == name)
    } else {
        None
    }
}

/// Position of the index named `name`, if any.
pub open spec fn index_pos(indexes: Seq<IndexDefinition>, name: Seq<char>) -> Option<int> {
    if exists|i: int| 0 <= i < indexes.len() && indexes[i].name@ == name {
        Some(choose|i: int| 0 <= i < indexes.len() && indexes[i].name@ == name)
    } else {
        None
    }
}

pub open spec fn field_name_set(fields: Seq<FieldDefinition>) -> Set<Seq<char>> {
    Set::new(|n: Seq<char>| exists|i: int| 0 <= i < fields.len() && fields[i].name@ == n)
}

pub open spec fn index_name_set(indexes: Seq<IndexDefinition>) -> Set<Seq<char>> {
    Set::new(|n: Seq<char>| exists|i: int| 0 <= i < indexes.len() && indexes[i].name@ == n)
}

pub(crate) fn find_field(fields: &Vec<FieldDefinition>, name: &Vec<char>) -> (r: Option<usize>)
    requires
        field_names_distinct(fields@),
    ensures
        match r {
            Some(i) => field_pos(fields@, name@) == Some(i as int) && i < fields@.len(),
            None => field_pos(fields@, name@) is None,
        },
{
    let mut i: usize = 0;
    while i < fields.len()
        invariant
            i <= fields.len(),
            forall|j: int| 0 <= j < i ==> fields@[j].name@ != name@,
            field_names_distinct(fields@),
        decreases fields.len() - i,
    {
        if chars_eq(chars_of(fields[i].name.as_str()).as_slice(), name.as_slice()) {
            proof {
                let c = choose|c: int| 0 <= c < fields@.len() && fields@[c].name@ == name@;
                if c != i {
                    if c < i {
                        assert(fields@[c].name@ != fields@[i as int].name@);
                    } else {
                        assert(fields@[i as int].name@ != fields@[c].name@);
                    }
                }
            }
            return Some(i);
        }
        i += 1;
    }
    None
}

pub(crate) fn find_index(indexes: &Vec<IndexDefinition>, name: &Vec<char>) -> (r: Option<usize>)
    requires
        index_names_distinct(indexes@),
    ensures
        match r {
            Some(i) => index_pos(indexes@, name@) == Some(i as int) && i < indexes@.len(),
            None => index_pos(indexes@, name@) is None,
        },
{
    let mut i: usize = 0;
    while i < indexes.len()
        invariant
            i <= indexes.len(),
            forall|j: int| 0 <= j < i ==> indexes@[j].name@ != name@,
            index_names_distinct(indexes@),
        decreases indexes.len() - i,
    {
        if chars_eq(chars_of(indexes[i].name.as_str()).as_slice(), name.as_slice()) {
            proof {
                let c = choose|c: int| 0 <= c < indexes@.len() && indexes@[c].name@ == name@;
                if c != i {
                    if c < i {
                        assert(indexes@[c].name@ != indexes@[i as int].name@);
                    } else {
                        assert(indexes@[i as int].name@ != indexes@[c].name@);
                    }
                }
            }
            return Some(i);
        }
        i += 1;
    }
    None
}

impl TableSchema {
    /// Field and index names are distinct.
    pub open spec fn wf(&self) -> bool {
        field_names_distinct(self.fields@) && index_names_distinct(self.indexes@)
    }

    fn with_mode(name: &str, mode: SchemaMode) -> (r: Self)
        ensures
            r.wf(),
            r.name@ == name@,
            r.mode == mode,
            r.fields@.len() == 0,
            r.indexes@.len() == 0,
            r.version == 1,
            r.permissions.select is None && r.permissions.create is None && r.permissions.update is None
                && r.permissions.delete is None,
    {
        TableSchema {
            name: name.to_owned(),
            mode,
            fields: Vec::new(),
            indexes: Vec::new(),
            permissions: TablePermissions::default(),
            version: 1,
            updated_at: now_millis(),
        }
    }

    /// A new schemaless table (no field constraints).
    pub fn schemaless(name: &str) -> (r: Self)
        ensures
            r.wf(),
            r.name@ == name@,
            r.mode == SchemaMode::Schemaless,
            r.fields@.len() == 0,
            r.indexes@.len() == 0,
            r.version == 1,
            r.permissions.select is None && r.permissions.create is None && r.permissions.update is None
                && r.permissions.delete is None,
    {
        Self::with_mode(name, SchemaMode::Schemaless)
    }

    /// A new schemafull table.
    pub fn schemafull(name: &str) -> (r: Self)
        ensures
            r.wf(),
            r.name@ == name@,
            r.mode == SchemaMode::Schemafull,
            r.fields@.len() == 0,
            r.indexes@.len() == 0,
            r.version == 1,
            r.permissions.select is None && r.permissions.create is None && r.permissions.update is None
                && r.permissions.delete is None,
    {
        Self::with_mode(name, SchemaMode::Schemafull)
    }

    /// A new mixed-mode table.
    pub fn mixed(name: &str) -> (r: Self)
        ensures
            r.wf(),
            r.name@ == name@,
            r.mode == SchemaMode::Mixed,
            r.fields@.len() == 0,
            r.indexes@.len() == 0,
            r.version == 1,
            r.permissions.select is None && r.permissions.create is None && r.permissions.update is None
                && r.permissions.delete is None,
    {
        Self::with_mode(name, SchemaMode::Mixed)
    }

    /// Add a field definition, replacing any field of the same name.
    pub fn define_field(self, field: FieldDefinition) -> (r: Self)
        requires
            self.wf(),
        ensures
            r.wf(),
            r.name == self.name && r.mode == self.mode && r.indexes == self.indexes
                && r.permissions == self.permissions && r.version == self.version
                && r.updated_at == self.updated_at,
            match field_pos(self.fields@, field.name@) {
                Some(i) => r.fields@ == self.fields@.update(i, field),
                None => r.fields@ == self.fields@.push(field),
            },
    {
        let mut s = self;
        let name = chars_of(field.name.as_str());
        match find_field(&s.fields, &name) {
            Some(i) => {
                s.fields.set(i, field);
            },
            None => {
                s.fields.push(field);
            },
        }
        s
    }

    /// Add an index definition, replacing any index of the same name.
    pub fn define_index(self, index: IndexDefinition) -> (r: Self)
        requires
            self.wf(),
        ensures
            r.wf(),
            r.name == self.name && r.mode == self.mode && r.fields == self.fields
                && r.permissions == self.permissions && r.version == self.version
                && r.updated_at == self.updated_at,
            match index_pos(self.indexes@, index.name@) {
                Some(i) => r.indexes@ == self.indexes@.update(i, index),
                None => r.indexes@ == self.indexes@.push(index),
            },
    {
        let mut s = self;
        let name = chars_of(index.name.as_str());
        match find_index(&s.indexes, &name) {
            Some(i) => {
                s.indexes.set(i, index);
            },
            None => {
                s.indexes.push(index);
            },
        }
        s
    }

    /// Set table permissions.
    pub fn with_permissions(self, permissions: TablePermissions) -> (r: Self)
        ensures
            r == (TableSchema { permissions, ..self }),
    {
        TableSchema { permissions, ..self }
    }

    /// The field named `name`, if defined.
    pub fn field(&self, name: &str) -> (r: Option<&FieldDefinition>)
        requires
            self.wf(),
        ensures
            match field_pos(self.fields@, name@) {
                Some(i) => r == Some(&self.fields@[i]),
                None => r is None,
            },
    {
        match find_field(&self.fields, &chars_of(name)) {
            Some(i) => Some(&self.fields[i]),
            None => None,
        }
    }

    /// The index named `name`, if defined.
    pub fn index(&self, name: &str) -> (r: Option<&IndexDefinition>)
        requires
            self.wf(),
        ensures
            match index_pos(self.indexes@, name@) {
                Some(i) => r == Some(&self.indexes@[i]),
                None => r is None,
            },
    {
        match find_index(&self.indexes, &chars_of(name)) {
            Some(i) => Some(&self.indexes[i]),
            None => None,
        }
    }
}

// ── Reading back what is displayed ────────────────────────────────

/// A field type whose display reads back as itself: no union, and record
/// tables of ASCII text without `|`, at any depth.
pub open spec fn plain_ft(t: FieldTypeView) -> bool
    decreases t,
{
    match t {
        FieldTypeView::Record(Some(table)) => crate::text::all_ascii(table) && !table.contains('|'),
        FieldTypeView::Union(_) => false,
        FieldTypeView::Array(inner) => plain_ft(*inner),
        _ => true,
    }
}

/// Lower-case ASCII letters only.
pub open spec fn keyword_text(d: Seq<char>) -> bool {
    forall|i: int| 0 <= i < d.len() ==> 'a' <= #[trigger] d[i] <= 'z'
}

/// The shape of a display: ASCII without `|`, starting with a lower-case
/// letter and ending with one, `>` or `)`.
pub open spec fn display_shape(d: Seq<char>) -> bool {
    &&& d.len() > 0
    &&& 'a' <= d[0] <= 'z'
    &&& ('a' <= d.last() <= 'z') || d.last() == '>' || d.last() == ')'
    &&& crate::text::all_ascii(d)
    &&& !d.contains('|')
}

proof fn lemma_concat_shape(a: Seq<char>, b: Seq<char>, c: Seq<char>)
    requires
        crate::text::all_ascii(a),
        crate::text::all_ascii(b),
        crate::text::all_ascii(c),
        !a.contains('|'),
        !b.contains('|'),
        !c.contains('|'),
    ensures
        crate::text::all_ascii(a + b + c),
        !(a + b + c).contains('|'),
{
    let d = a + b + c;
    assert forall|i: int| 0 <= i < d.len() implies crate::text::is_ascii_char(#[trigger] d[i]) by {
        if i < a.len() {
            assert(d[i] == a[i]);
        } else if i < a.len() + b.len() {
            assert(d[i] == b[i - a.len()]);
        } else {
            assert(d[i] == c[i - a.len() - b.len()]);
        }
    }
    if d.contains('|') {
        let i = choose|i: int| 0 <= i < d.len() && d[i] == '|';
        if i < a.len() {
            assert(d[i] == a[i]);
        } else if i < a.len() + b.len() {
            assert(d[i] == b[i - a.len()]);
        } else {
            assert(d[i] == c[i - a.len() - b.len()]);
        }
    }
}

proof fn lemma_keyword_shape(d: Seq<char>)
    requires
        keyword_text(d),
        d.len() > 0,
    ensures
        display_shape(d),
        ascii_lower_seq(d) == d,
{
    assert(d.last() == d[d.len() - 1]);
    assert(crate::text::all_ascii(d)) by {
        assert forall|i: int| 0 <= i < d.len() implies crate::text::is_ascii_char(#[trigger] d[i]) by {
            assert('a' <= d[i] <= 'z');
        }
    }
    assert(ascii_lower_seq(d) =~= d) by {
        assert forall|i: int| 0 <= i < d.len() implies ascii_lower_seq(d)[i] == d[i] by {
            assert('a' <= d[i] <= 'z');
        }
    }
    if d.contains('|') {
        let i = choose|i: int| 0 <= i < d.len() && d[i] == '|';
        assert('a' <= d[i] <= 'z');
    }
}

proof fn lemma_plain_display(t: FieldTypeView)
    requires
        plain_ft(t),
    ensures
        display_shape(ft_display(t)),
    decreases t,
{
    reveal_strlit("string");
    reveal_strlit("int");
    reveal_strlit("float");
    reveal_strlit("bool");
    reveal_strlit("datetime");
    reveal_strlit("uuid");
    reveal_strlit("json");
    reveal_strlit("record");
    reveal_strlit("any");
    reveal_strlit("array<");
    reveal_strlit(">");
    reveal_strlit("record(");
    reveal_strlit(")");
    let d = ft_display(t);
    match t {
        FieldTypeView::Array(inner) => {
            lemma_plain_display(*inner);
            let di = ft_display(*inner);
            assert(d == "array<"@ + di + ">"@);
            assert forall|i: int| 0 <= i < 6 implies crate::text::is_ascii_char(#[trigger] "array<"@[i]) by {}
            assert(!"array<"@.contains('|'));
            assert(!">"@.contains('|'));
            lemma_concat_shape("array<"@, di, ">"@);
            assert(d[0] == 'a');
            assert(d.last() == '>');
        },
        FieldTypeView::Record(Some(table)) => {
            assert(d == "record("@ + table + ")"@);
            assert(!"record("@.contains('|'));
            assert(!")"@.contains('|'));
            lemma_concat_shape("record("@, table, ")"@);
            assert(d[0] == 'r');
            assert(d.last() == ')');
        },
        _ => {
            lemma_keyword_shape(d);
        },
    }
}

/// A display shape is its own trimmed form and holds no `|`; lowering it
/// is the ASCII lowering.
proof fn lemma_shape_trim(d: Seq<char>)
    requires
        display_shape(d),
    ensures
        trim(d) == d,
        to_lower(d) == ascii_lower_seq(d),
{
    assert(lead_ws(d) == 0);
    assert(trail_ws(d) == 0);
    assert(trim(d) =~= d);
}

/// Parsing the display of a field type without unions (and with record
/// tables of ASCII text without `|`) gives the type back.
pub proof fn lemma_parse_display(t: FieldTypeView)
    requires
        plain_ft(t),
    ensures
        parse_ft(ft_display(t)) == Some(t),
    decreases t,
{
    let d = ft_display(t);
    lemma_plain_display(t);
    lemma_shape_trim(d);
    let l = ascii_lower_seq(d);
    reveal_strlit("string");
    reveal_strlit("text");
    reveal_strlit("int");
    reveal_strlit("integer");
    reveal_strlit("float");
    reveal_strlit("number");
    reveal_strlit("decimal");
    reveal_strlit("bool");
    reveal_strlit("boolean");
    reveal_strlit("datetime");
    reveal_strlit("timestamp");
    reveal_strlit("uuid");
    reveal_strlit("json");
    reveal_strlit("object");
    reveal_strlit("record");
    reveal_strlit("reference");
    reveal_strlit("any");
    reveal_strlit("array<");
    reveal_strlit(">");
    reveal_strlit("record(");
    reveal_strlit(")");
    match t {
        FieldTypeView::Array(inner) => {
            lemma_parse_display(*inner);
            let di = ft_display(*inner);
            assert(d == "array<"@ + di + ">"@);
            assert(l.subrange(0, 6) =~= "array<"@) by {
                assert forall|i: int| 0 <= i < 6 implies l.subrange(0, 6)[i] == "array<"@[i] by {
                    assert(d[i] == "array<"@[i]);
                }
            }
            assert(l.subrange(l.len() - 1, l.len() as int) =~= ">"@) by {
                assert(d[d.len() - 1] == '>');
            }
            assert(d.subrange(6, d.len() - 1) =~= di);
        },
        FieldTypeView::Record(Some(table)) => {
            assert(d == "record("@ + table + ")"@);
            assert(l[0] == 'r');
            assert(!has_prefix(l, "array<"@)) by {
                if has_prefix(l, "array<"@) {
                    assert(l.subrange(0, 6)[0] == l[0]);
                }
            }
            assert(l.subrange(0, 7) =~= "record("@) by {
                assert forall|i: int| 0 <= i < 7 implies l.subrange(0, 7)[i] == "record("@[i] by {
                    assert(d[i] == "record("@[i]);
                }
            }
            assert(l.subrange(l.len() - 1, l.len() as int) =~= ")"@) by {
                assert(d[d.len() - 1] == ')');
            }
            assert(d.subrange(7, d.len() - 1) =~= table);
        },
        _ => {
            lemma_keyword_shape(d);
            assert(!has_prefix(d, "array<"@)) by {
                if has_prefix(d, "array<"@) {
                    assert(d.subrange(0, 6)[0] == d[0]);
                    assert(d.subrange(0, 6)[5] == d[5]);
                }
            }
            assert(!has_prefix(d, "record("@)) by {
                if has_prefix(d, "record("@) {
                    assert(d.subrange(0, 7)[6] == d[6]);
                }
            }
        },
    }
}

/// The `k`-th piece of the display of the union of `ts[0..m]` split at
/// `|`: the member's display, with the space before it (but the first)
/// and after it (but the last).
pub open spec fn union_piece(ts: Seq<FieldTypeView>, m: int, k: int) -> Seq<char> {
    (if k == 0 { Seq::<char>::empty() } else { " "@ }) + ft_display(ts[k]) + (if k == m - 1 {
        Seq::<char>::empty()
    } else {
        " "@
    })
}

proof fn lemma_join_pieces(ts: Seq<FieldTypeView>, m: int)
    requires
        1 <= m <= ts.len(),
        forall|k: int| 0 <= k < ts.len() ==> plain_ft(#[trigger] ts[k]),
    ensures
        split_count(ft_display_join(ts, m), '|') == m,
        forall|k: int| 0 <= k < m ==> #[trigger] split_piece(ft_display_join(ts, m), '|', k) == union_piece(ts, m, k),
        crate::text::all_ascii(ft_display_join(ts, m)),
    decreases m,
{
    reveal_strlit(" ");
    reveal_strlit(" | ");
    let d = ft_display(ts[m - 1]);
    assert(plain_ft(ts[m - 1]));
    lemma_plain_display(ts[m - 1]);
    if m == 1 {
        crate::text::lemma_split_free(d, '|');
        assert(union_piece(ts, 1, 0) =~= d);
    } else {
        lemma_join_pieces(ts, m - 1);
        let j = ft_display_join(ts, m - 1);
        let x1 = j + " "@;
        let x2 = x1.push('|');
        let y = " "@ + d;
        assert(ft_display_join(ts, m) =~= x2 + y);
        assert(!" "@.contains('|'));
        assert(!y.contains('|')) by {
            if y.contains('|') {
                let i = choose|i: int| 0 <= i < y.len() && y[i] == '|';
                assert(d[i - 1] == '|');
            }
        }
        crate::text::lemma_split_append_free(j, " "@, '|');
        crate::text::lemma_split_push_sep(x1, '|');
        crate::text::lemma_split_append_free(x2, y, '|');
        assert forall|k: int| 0 <= k < m implies #[trigger] split_piece(ft_display_join(ts, m), '|', k) == union_piece(ts, m, k) by {
            if k < m - 2 {
                assert(split_piece(x2 + y, '|', k) == split_piece(x2, '|', k));
                assert(split_piece(x2, '|', k) == split_piece(x1, '|', k));
                assert(split_piece(x1, '|', k) == split_piece(j, '|', k));
                assert(split_piece(j, '|', k) == union_piece(ts, m - 1, k));
                assert(union_piece(ts, m - 1, k) =~= union_piece(ts, m, k));
            } else if k == m - 2 {
                assert(split_piece(x2 + y, '|', k) == split_piece(x2, '|', k));
                assert(split_piece(x2, '|', k) == split_piece(x1, '|', k));
                assert(split_piece(j, '|', k) == union_piece(ts, m - 1, k));
                assert(union_piece(ts, m - 1, k) + " "@ =~= union_piece(ts, m, k));
            } else {
                assert(Seq::<char>::empty() + y =~= union_piece(ts, m, k));
            }
        }
        assert(crate::text::all_ascii(ft_display_join(ts, m))) by {
            let t = ft_display_join(ts, m);
            assert forall|i: int| 0 <= i < t.len() implies crate::text::is_ascii_char(#[trigger] t[i]) by {
                if i < j.len() {
                    assert(t[i] == j[i]);
                } else if i >= j.len() + 3 {
                    assert(t[i] == d[i - j.len() - 3]);
                }
            }
        }
    }
}

proof fn lemma_trim_padded(d: Seq<char>, pre: Seq<char>, post: Seq<char>)
    requires
        display_shape(d),
        pre == Seq::<char>::empty() || pre == " "@,
        post == Seq::<char>::empty() || post == " "@,
    ensures
        trim(pre + d + post) == d,
{
    reveal_strlit(" ");
    let s = pre + d + post;
    assert(crate::text::is_ws(' '));
    assert(!crate::text::is_ws(d[0]));
    assert(!crate::text::is_ws(d.last()));
    if pre.len() == 1 {
        assert(s[0] == ' ');
        assert(s.drop_first() =~= d + post);
        assert((d + post)[0] == d[0]);
    } else {
        assert(s[0] == d[0]);
    }
    assert(lead_ws(d + post) == 0) by {
        assert((d + post)[0] == d[0]);
    }
    assert(lead_ws(s) == pre.len());
    let ts0 = crate::text::trim_start(s);
    assert(ts0 =~= d + post);
    if post.len() == 1 {
        assert(ts0.last() == ' ');
        assert(ts0.drop_last() =~= d);
        assert(d.last() == d[d.len() - 1]);
        assert(trail_ws(d) == 0);
    } else {
        assert(ts0.last() == d.last());
    }
    assert(trail_ws(ts0) == post.len());
    assert(trim(s) =~= d);
}

proof fn lemma_union_parts(ts: Seq<FieldTypeView>, k: int)
    requires
        ts.len() >= 2,
        0 <= k <= ts.len(),
        forall|i: int| 0 <= i < ts.len() ==> plain_ft(#[trigger] ts[i]),
    ensures
        parse_ft_parts(ft_display_join(ts, ts.len() as int), k) == ts.subrange(k, ts.len() as int),
    decreases ts.len() - k,
{
    let n = ts.len() as int;
    let j = ft_display_join(ts, n);
    lemma_join_pieces(ts, n);
    crate::text::lemma_char_positions(j, '|');
    let p = crate::text::char_positions(j, '|');
    assert(p.len() == n - 1);
    assert(j[p[0]] == '|');
    assert(j.contains('|'));
    if k == n {
        assert(ts.subrange(k, n) =~= Seq::<FieldTypeView>::empty());
    } else {
        lemma_union_parts(ts, k + 1);
        lemma_parts_step(j, k);
        let piece = split_piece(j, '|', k);
        assert(piece == union_piece(ts, n, k));
        let d = ft_display(ts[k]);
        lemma_plain_display(ts[k]);
        reveal_strlit(" ");
        lemma_trim_padded(
            d,
            if k == 0 { Seq::<char>::empty() } else { " "@ },
            if k == n - 1 { Seq::<char>::empty() } else { " "@ },
        );
        lemma_pieces_in_range(j, '|', k);
        assert(trim(piece).len() < j.len());
        lemma_parse_display(ts[k]);
        assert(seq![ts[k]] + ts.subrange(k + 1, n) =~= ts.subrange(k, n));
    }
}

/// Parsing the display of a union of at least two members, none of them a
/// union (and record tables of ASCII text without `|`), gives the union
/// back.
pub proof fn lemma_parse_display_union(ts: Seq<FieldTypeView>)
    requires
        ts.len() >= 2,
        forall|i: int| 0 <= i < ts.len() ==> plain_ft(#[trigger] ts[i]),
    ensures
        parse_ft(ft_display(FieldTypeView::Union(ts))) == Some(FieldTypeView::Union(ts)),
{
    let n = ts.len() as int;
    let j = ft_display_join(ts, n);
    assert(ft_display(FieldTypeView::Union(ts)) == j);
    lemma_join_pieces(ts, n);
    lemma_union_parts(ts, 0);
    assert(ts.subrange(0, n) =~= ts);
    crate::text::lemma_char_positions(j, '|');
    let p = crate::text::char_positions(j, '|');
    assert(j[p[0]] == '|');
    // the first and last characters are a member's
    let d0 = ft_display(ts[0]);
    let dl = ft_display(ts[n - 1]);
    lemma_plain_display(ts[0]);
    lemma_plain_display(ts[n - 1]);
    lemma_pieces_in_range(j, '|', 0);
    lemma_pieces_in_range(j, '|', n - 1);
    reveal_strlit(" ");
    assert(split_piece(j, '|', 0) == union_piece(ts, n, 0));
    assert(union_piece(ts, n, 0)[0] == d0[0]);
    assert(j[0] == split_piece(j, '|', 0)[0]);
    assert(split_piece(j, '|', n - 1) == union_piece(ts, n, n - 1));
    assert(union_piece(ts, n, n - 1) =~= " "@ + dl);
    let lp = split_piece(j, '|', n - 1);
    assert(lp[lp.len() - 1] == dl[dl.len() - 1]);
    assert(j[j.len() - 1] == lp[lp.len() - 1]);
    assert(lead_ws(j) == 0);
    assert(trail_ws(j) == 0) by {
        assert(j.last() == j[j.len() - 1]);
        assert(dl.last() == dl[dl.len() - 1]);
    }
    assert(trim(j) =~= j);
    let l = ascii_lower_seq(j);
    assert(l[p[0]] == '|');
    assert(l.contains('|'));
}

} // verus!
