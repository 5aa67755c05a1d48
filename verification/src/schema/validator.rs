//! Document validation against table schemas: type checking with safe
//! coercion, default injection, assertion expressions, and mode
//! enforcement (SCHEMAFULL rejects unknown fields, MIXED allows them).
//!
//! The steps that need floating-point arithmetic (turning a float into an
//! integer, reading a float from text, comparing numbers with a threshold)
//! and the reading of a JSON array from text are supplied by the caller
//! through [`ValueOps`].  Where a check consults them, its outcome is what
//! they answer; everywhere else the contracts below state it exactly.
use vstd::prelude::*;
use crate::json::{
    FloatNumber, JsonNumber, JsonValue, JsonView, NumberView, clone_json, clone_string, entry_views, first_key_pos,
    insert_key, insert_entry, json_views, key_position, number_view, lemma_array_view,
};
use crate::text::{
    chars_of, chars_eq, contains_char, decimal_of, first_occurrence, has_prefix, has_suffix, lowercase_of,
    parse_unsigned, parse_unsigned_exec, parse_i64, parse_i64_exec, push_chars, push_str_chars, signed_decimal_of,
    signed_decimal_chars, slice_chars, starts_with, ends_with, string_of, to_lower, trim, trim_chars, decimal_chars,
};
use super::{FieldDefinition, FieldType, FieldTypeView, SchemaMode, TableSchema, ft_display, ft_display_join, ft_view, ft_views};
use super::pattern::{regex_match, regex_match_exec};
use super::strict::{rfc3339_parses, uuid_parses, is_rfc3339, is_uuid_text};

verus! {

/// The floating-point and JSON-text steps of validation.
/// Each method's result is named by a spec function of the implementation
/// (the ones given here leave it unspecified); the contracts of this
/// module state their outcomes over those names.
pub trait ValueOps {
    /// What `number_to_int` gives for a number.
    closed spec fn int_of_number(&self, n: NumberView) -> Result<i64, Seq<char>> {
        arbitrary()
    }

    /// What `parse_float` gives for a text.
    closed spec fn float_of_text(&self, text: Seq<char>) -> Option<JsonView> {
        arbitrary()
    }

    /// What `is_float_text` gives for a text.
    closed spec fn reads_as_float(&self, text: Seq<char>) -> bool {
        arbitrary()
    }

    /// What `compare` gives for a number, an operator and a threshold.
    closed spec fn compared(&self, value: NumberView, op: Seq<char>, threshold: Seq<char>) -> Result<(), Seq<char>> {
        arbitrary()
    }

    /// What `parse_json_array` gives for a text.
    closed spec fn array_of_text(&self, text: Seq<char>) -> Option<Seq<JsonView>> {
        arbitrary()
    }

    /// INT coercion of a number that is not an `i64` (a float, or an
    /// integer above `i64::MAX`), through its `f64` value: the integer when
    /// that value is whole and within `i64`, otherwise the error message.
    fn number_to_int(&self, n: &JsonNumber) -> (r: Result<i64, String>)
        ensures
            match r {
                Ok(i) => self.int_of_number(number_view(*n)) == Ok::<i64, Seq<char>>(i),
                Err(m) => self.int_of_number(number_view(*n)) == Err::<i64, Seq<char>>(m@),
            },
    ;

    /// FLOAT coercion of text: `None` when the text is not a float;
    /// otherwise the number (null for a non-finite value).
    fn parse_float(&self, text: &str) -> (r: Option<JsonValue>)
        ensures
            match r {
                Some(v) => self.float_of_text(text@) == Some(v@),
                None => self.float_of_text(text@) is None,
            },
    ;

    /// Whether the text of a threshold reads as a float.
    fn is_float_text(&self, text: &str) -> (r: bool)
        ensures
            r == self.reads_as_float(text@),
    ;

    /// The assertion `value <op> threshold` on a number: `Ok` when it holds,
    /// otherwise the failure message.
    fn compare(&self, value: &JsonNumber, op: &str, threshold: &str) -> (r: Result<(), String>)
        ensures
            unit_result_view(r) == self.compared(number_view(*value), op@, threshold@),
    ;

    /// Reads a JSON array from text; `None` when the text is not one.
    fn parse_json_array(&self, text: &str) -> (r: Option<Vec<JsonValue>>)
        ensures
            match r {
                Some(items) => self.array_of_text(text@) == Some(json_views(items@)),
                None => self.array_of_text(text@) is None,
            },
    ;
}

/// Whether chrono's `NaiveDateTime::parse_from_str(s, "%Y-%m-%dT%H:%M:%S")`
/// accepts this text.
pub uninterp spec fn naive_datetime_parses(s: Seq<char>) -> bool;

/// Whether chrono's `NaiveDate::parse_from_str(s, "%Y-%m-%d")` accepts
/// this text.
pub uninterp spec fn naive_date_parses(s: Seq<char>) -> bool;

/// chrono `NaiveDateTime::parse_from_str(s, "%Y-%m-%dT%H:%M:%S").is_ok()`.
#[verifier::external_body]
fn is_naive_datetime(s: &str) -> (r: bool)
    ensures
        r == naive_datetime_parses(s@),
{
    chrono::NaiveDateTime::parse_from_str(s, "%Y-%m-%dT%H:%M:%S").is_ok()
}

/// chrono `NaiveDate::parse_from_str(s, "%Y-%m-%d").is_ok()`.
#[verifier::external_body]
fn is_naive_date(s: &str) -> (r: bool)
    ensures
        r == naive_date_parses(s@),
{
    chrono::NaiveDate::parse_from_str(s, "%Y-%m-%d").is_ok()
}

// ── Coercion ───────────────────────────────────────────────────────

/// Label of a JSON value's type in messages.
pub open spec fn label_of(v: JsonView) -> Seq<char> {
    crate::json::value_type_label(v)
}

/// The text of a number (serde_json's `Display`).
pub open spec fn number_text(n: NumberView) -> Seq<char> {
    match n {
        NumberView::PosInt(u) => decimal_of(u as nat),
        NumberView::NegInt(i) => signed_decimal_of(i as int),
        NumberView::Float(_, t) => t,
    }
}

/// The `i64` a number is, if it is one (serde_json's `as_i64`).
pub open spec fn number_as_i64(n: NumberView) -> Option<i64> {
    match n {
        NumberView::PosInt(u) => if u <= 0x7FFF_FFFF_FFFF_FFFF {
            Some(u as i64)
        } else {
            None
        },
        NumberView::NegInt(i) => Some(i),
        NumberView::Float(_, _) => None,
    }
}

/// The JSON number of an `i64` (serde_json's `From<i64>`).
pub open spec fn number_of_i64(i: i64) -> NumberView {
    if i < 0 {
        NumberView::NegInt(i)
    } else {
        NumberView::PosInt(i as u64)
    }
}

/// Outcome of a coercion: the coerced value or the error message.
pub type Coerced = Result<JsonView, Seq<char>>;

/// Coerce `v` to `t`:
/// - `null` passes as `null`; `any` passes everything;
/// - string: strings pass, numbers and booleans become their text;
/// - int: integers pass, other numbers convert as `ops` converts them,
///   strings that read as `i64` convert;
/// - float: numbers pass, strings are read as floats by `ops`;
/// - bool: booleans pass, `true`/`1`/`yes` and `false`/`0`/`no`
///   (case-insensitive) convert, integers become `!= 0`;
/// - datetime: RFC 3339, `%Y-%m-%dT%H:%M:%S` or `%Y-%m-%d` strings and
///   numbers pass;
/// - uuid / record: UUID strings pass;
/// - json: objects and arrays pass;
/// - array: arrays whose elements all coerce, element by element;
/// - union: the first alternative that accepts the value.
pub open spec fn coerce_spec<O: ValueOps>(ops: O, v: JsonView, t: FieldTypeView) -> Coerced
    decreases t, v, 1int, 0int,
{
    if v is Null {
        Ok(JsonView::Null)
    } else {
        match t {
            FieldTypeView::Any => Ok(v),
            FieldTypeView::String => match v {
                JsonView::String(_) => Ok(v),
                JsonView::Number(n) => Ok(JsonView::String(number_text(n))),
                JsonView::Bool(b) => Ok(JsonView::String(if b { "true"@ } else { "false"@ })),
                _ => Err("expected string, got "@ + label_of(v)),
            },
            FieldTypeView::Int => match v {
                JsonView::Number(n) => match number_as_i64(n) {
                    Some(i) => Ok(JsonView::Number(number_of_i64(i))),
                    None => match ops.int_of_number(n) {
                        Ok(i) => Ok(JsonView::Number(number_of_i64(i))),
                        Err(m) => Err(m),
                    },
                },
                JsonView::String(s) => match parse_i64(s) {
                    Some(i) => Ok(JsonView::Number(number_of_i64(i as i64))),
                    None => Err("cannot coerce string '"@ + s + "' to int"@),
                },
                _ => Err("expected int, got "@ + label_of(v)),
            },
            FieldTypeView::Float => match v {
                JsonView::Number(_) => Ok(v),
                JsonView::String(s) => match ops.float_of_text(s) {
                    Some(x) => Ok(x),
                    None => Err("cannot coerce string '"@ + s + "' to float"@),
                },
                _ => Err("expected float, got "@ + label_of(v)),
            },
            FieldTypeView::Bool => match v {
                JsonView::Bool(_) => Ok(v),
                JsonView::String(s) => {
                    let l = to_lower(s);
                    if l == "true"@ || l == "1"@ || l == "yes"@ {
                        Ok(JsonView::Bool(true))
                    } else if l == "false"@ || l == "0"@ || l == "no"@ {
                        Ok(JsonView::Bool(false))
                    } else {
                        Err("cannot coerce string '"@ + s + "' to bool"@)
                    }
                },
                JsonView::Number(n) => match number_as_i64(n) {
                    Some(i) => Ok(JsonView::Bool(i != 0)),
                    None => Err("cannot coerce number "@ + number_text(n) + " to bool"@),
                },
                _ => Err("expected bool, got "@ + label_of(v)),
            },
            FieldTypeView::Datetime => match v {
                JsonView::String(s) => if rfc3339_parses(s) || naive_datetime_parses(s) || naive_date_parses(s) {
                    Ok(v)
                } else {
                    Err("cannot parse '"@ + s + "' as datetime"@)
                },
                JsonView::Number(_) => Ok(v),
                _ => Err("expected datetime, got "@ + label_of(v)),
            },
            FieldTypeView::Uuid => match v {
                JsonView::String(s) => if uuid_parses(s) {
                    Ok(v)
                } else {
                    Err("invalid UUID: '"@ + s + "'"@)
                },
                _ => Err("expected uuid string, got "@ + label_of(v)),
            },
            FieldTypeView::Record(hint) => match v {
                JsonView::String(s) => if uuid_parses(s) {
                    Ok(v)
                } else {
                    Err(
                        "invalid record reference: '"@ + s + "'"@ + match hint {
                            Some(h) => " (expected reference to '"@ + h + "')"@,
                            None => Seq::empty(),
                        },
                    )
                },
                _ => Err("expected record reference (UUID string), got "@ + label_of(v)),
            },
            FieldTypeView::Json => match v {
                JsonView::Object(_) | JsonView::Array(_) => Ok(v),
                _ => Err("expected JSON object or array, got "@ + label_of(v)),
            },
            FieldTypeView::Array(inner) => match v {
                JsonView::Array(_) => coerce_items(ops, v, *inner, 0, Seq::empty()),
                _ => Err("expected array, got "@ + label_of(v)),
            },
            FieldTypeView::Union(ts) => coerce_union(ops, v, ts, 0),
        }
    }
}

/// An integer coerces to the boolean "is non-zero", exactly as the
/// strings `"1"` (for a non-zero integer) and `"0"` (for zero) do: `1` is
/// true and `0` is false.
pub proof fn lemma_int_to_bool<O: ValueOps>(ops: O, n: NumberView, i: i64)
    requires
        number_as_i64(n) == Some(i),
    ensures
        coerce_spec(ops, JsonView::Number(n), FieldTypeView::Bool) == Ok::<JsonView, Seq<char>>(JsonView::Bool(i != 0)),
        coerce_spec(ops, JsonView::Number(n), FieldTypeView::Bool) == coerce_spec(
            ops,
            JsonView::String(if i != 0 { "1"@ } else { "0"@ }),
            FieldTypeView::Bool,
        ),
{
    reveal_strlit("1");
    reveal_strlit("0");
    reveal_strlit("true");
    reveal_strlit("false");
    reveal_strlit("yes");
    reveal_strlit("no");
    let one = "1"@;
    let zero = "0"@;
    assert(crate::text::all_ascii(one)) by {
        assert forall|k: int| 0 <= k < one.len() implies crate::text::is_ascii_char(#[trigger] one[k]) by {}
    }
    assert(crate::text::all_ascii(zero)) by {
        assert forall|k: int| 0 <= k < zero.len() implies crate::text::is_ascii_char(#[trigger] zero[k]) by {}
    }
    assert(crate::text::ascii_lower_seq(one) =~= one);
    assert(crate::text::ascii_lower_seq(zero) =~= zero);
    assert(zero.len() != "true"@.len());
    assert(zero.len() != "yes"@.len());
    assert(zero[0] != one[0]);
}

/// Text coerces to a boolean ignoring case: two texts that lower-case
/// alike coerce alike (both fail, or both to the same boolean); `"true"`,
/// `"1"` and `"yes"` give true, `"false"`, `"0"` and `"no"` give false.
pub proof fn lemma_text_to_bool<O: ValueOps>(ops: O, s1: Seq<char>, s2: Seq<char>)
    ensures
        to_lower(s1) == to_lower(s2) ==> ((coerce_spec(ops, JsonView::String(s1), FieldTypeView::Bool) is Ok
            <==> coerce_spec(ops, JsonView::String(s2), FieldTypeView::Bool) is Ok) && (coerce_spec(
            ops,
            JsonView::String(s1),
            FieldTypeView::Bool,
        ) is Ok ==> coerce_spec(ops, JsonView::String(s1), FieldTypeView::Bool) == coerce_spec(
            ops,
            JsonView::String(s2),
            FieldTypeView::Bool,
        ))),
        (to_lower(s1) == "true"@ || to_lower(s1) == "1"@ || to_lower(s1) == "yes"@) ==> coerce_spec(
            ops,
            JsonView::String(s1),
            FieldTypeView::Bool,
        ) == Ok::<JsonView, Seq<char>>(JsonView::Bool(true)),
        (to_lower(s1) == "false"@ || to_lower(s1) == "0"@ || to_lower(s1) == "no"@) ==> coerce_spec(
            ops,
            JsonView::String(s1),
            FieldTypeView::Bool,
        ) == Ok::<JsonView, Seq<char>>(JsonView::Bool(false)),
{
    reveal_strlit("true");
    reveal_strlit("false");
    reveal_strlit("1");
    reveal_strlit("0");
    reveal_strlit("yes");
    reveal_strlit("no");
    assert("false"@.len() != "true"@.len() && "false"@.len() != "1"@.len() && "false"@.len() != "yes"@.len());
    assert("0"@.len() != "true"@.len() && "0"@[0] != "1"@[0] && "0"@.len() != "yes"@.len());
    assert("no"@.len() != "true"@.len() && "no"@.len() != "1"@.len() && "no"@.len() != "yes"@.len());
}

/// Coercing to `string`, `int` or `bool` settles a value: coercing what
/// came out again to the same type gives it back unchanged.
pub proof fn lemma_coerce_settles<O: ValueOps>(ops: O, v: JsonView)
    ensures
        coerce_spec(ops, v, FieldTypeView::String) matches Ok(x) ==> coerce_spec(ops, x, FieldTypeView::String)
            == Ok::<JsonView, Seq<char>>(x),
        coerce_spec(ops, v, FieldTypeView::Int) matches Ok(x) ==> coerce_spec(ops, x, FieldTypeView::Int) == Ok::<
            JsonView,
            Seq<char>,
        >(x),
        coerce_spec(ops, v, FieldTypeView::Bool) matches Ok(x) ==> coerce_spec(ops, x, FieldTypeView::Bool) == Ok::<
            JsonView,
            Seq<char>,
        >(x),
{
    match coerce_spec(ops, v, FieldTypeView::Int) {
        Ok(JsonView::Number(m)) => {
            let i = choose|i: i64| m == number_of_i64(i);
            assert(number_as_i64(number_of_i64(i)) == Some(i));
        },
        _ => {},
    }
}

/// The elements of an array value (empty for any other value).
pub open spec fn array_items(arr: JsonView) -> Seq<JsonView> {
    match arr {
        JsonView::Array(items) => items,
        _ => Seq::empty(),
    }
}

/// Coercing the elements `k..` of the array `arr` to `t`, after `done`.
pub open spec fn coerce_items<O: ValueOps>(ops: O, arr: JsonView, t: FieldTypeView, k: int, done: Seq<JsonView>) -> Coerced
    decreases t, arr, 0int, array_items(arr).len() - k,
{
    if k < 0 || k >= array_items(arr).len() {
        Ok(JsonView::Array(done))
    } else {
        match arr {
            JsonView::Array(items) => match coerce_spec(ops, items[k], t) {
                Err(m) => Err("array element ["@ + decimal_of(k as nat) + "]: "@ + m),
                Ok(c) => coerce_items(ops, arr, t, k + 1, done.push(c)),
            },
            _ => Ok(JsonView::Array(done)),
        }
    }
}

/// Trying the alternatives `ts[k..]` in order.
pub open spec fn coerce_union<O: ValueOps>(ops: O, v: JsonView, ts: Seq<FieldTypeView>, k: int) -> Coerced
    decreases FieldTypeView::Union(ts), v, 0int, ts.len() - k,
{
    if k < 0 || k >= ts.len() {
        Err("value does not match any of: "@ + union_list(ts, ts.len() as int))
    } else {
        proof {
            let u = FieldTypeView::Union(ts);
            assert(u->Union_0 == ts);
            assert(decreases_to!(u => u->Union_0));
            assert(decreases_to!(ts => ts[k]));
        }
        match coerce_spec(ops, v, ts[k]) {
            Ok(c) => Ok(c),
            Err(_) => coerce_union(ops, v, ts, k + 1),
        }
    }
}

/// The displays of `ts[0..n]` joined with `", "`.
pub open spec fn union_list(ts: Seq<FieldTypeView>, n: int) -> Seq<char>
    decreases n,
{
    if n <= 0 || n > ts.len() {
        Seq::empty()
    } else if n == 1 {
        ft_display(ts[0])
    } else {
        union_list(ts, n - 1) + ", "@ + ft_display(ts[n - 1])
    }
}


pub open spec fn value_result_view(r: Result<JsonValue, String>) -> Result<JsonView, Seq<char>> {
    match r {
        Ok(v) => Ok(v@),
        Err(m) => Err(m@),
    }
}

fn number_text_exec(n: &JsonNumber) -> (r: Vec<char>)
    ensures
        r@ == number_text(number_view(*n)),
{
    match n {
        JsonNumber::PosInt(u) => decimal_chars(*u),
        JsonNumber::NegInt(i) => signed_decimal_chars(*i),
        JsonNumber::Float(f) => chars_of(f.text.as_str()),
    }
}

fn number_as_i64_exec(n: &JsonNumber) -> (r: Option<i64>)
    ensures
        r == number_as_i64(number_view(*n)),
{
    match n {
        JsonNumber::PosInt(u) => if *u <= 0x7FFF_FFFF_FFFF_FFFFu64 {
            Some(*u as i64)
        } else {
            None
        },
        JsonNumber::NegInt(i) => Some(*i),
        JsonNumber::Float(_) => None,
    }
}

fn number_of_i64_exec(i: i64) -> (r: JsonValue)
    ensures
        r@ == JsonView::Number(number_of_i64(i)),
{
    if i < 0 {
        JsonValue::Number(JsonNumber::NegInt(i))
    } else {
        JsonValue::Number(JsonNumber::PosInt(i as u64))
    }
}

fn type_error(what: &str, value: &JsonValue) -> (r: String)
    ensures
        r@ == what@ + label_of(value@),
{
    let mut m: Vec<char> = Vec::new();
    push_str_chars(&mut m, what);
    push_str_chars(&mut m, crate::json::value_type_label_exec(value));
    string_of(m.as_slice())
}

fn quoted_error(before: &str, s: &Vec<char>, after: &str) -> (r: String)
    ensures
        r@ == before@ + s@ + after@,
{
    let mut m: Vec<char> = Vec::new();
    push_str_chars(&mut m, before);
    push_chars(&mut m, s);
    push_str_chars(&mut m, after);
    string_of(m.as_slice())
}

/// Coerce `value` to the type `target`: the coerced value, or the message
/// saying why it does not fit, as [`coerce_spec`] states.
pub fn coerce_value<O: ValueOps>(value: &JsonValue, target: &FieldType, ops: &O) -> (r: Result<JsonValue, String>)
    ensures
        value_result_view(r) == coerce_spec(*ops, value@, target@),
    decreases target,
{
    if let JsonValue::Null = value {
        return Ok(JsonValue::Null);
    }
    match target {
        FieldType::Any => Ok(clone_json(value)),
        FieldType::String => match value {
            JsonValue::String(_) => Ok(clone_json(value)),
            JsonValue::Number(n) => Ok(JsonValue::String(string_of(number_text_exec(n).as_slice()))),
            JsonValue::Bool(b) => Ok(JsonValue::String(message(if *b { "true" } else { "false" }))),
            _ => Err(type_error("expected string, got ", value)),
        },
        FieldType::Int => match value {
            JsonValue::Number(n) => match number_as_i64_exec(n) {
                Some(i) => Ok(number_of_i64_exec(i)),
                None => match ops.number_to_int(n) {
                    Ok(i) => Ok(number_of_i64_exec(i)),
                    Err(m) => Err(m),
                },
            },
            JsonValue::String(s) => {
                let sc = chars_of(s.as_str());
                match parse_i64_exec(&sc) {
                    Some(i) => Ok(number_of_i64_exec(i)),
                    None => Err(quoted_error("cannot coerce string '", &sc, "' to int")),
                }
            },
            _ => Err(type_error("expected int, got ", value)),
        },
        FieldType::Float => match value {
            JsonValue::Number(_) => Ok(clone_json(value)),
            JsonValue::String(s) => match ops.parse_float(s.as_str()) {
                Some(v) => Ok(v),
                None => Err(quoted_error("cannot coerce string '", &chars_of(s.as_str()), "' to float")),
            },
            _ => Err(type_error("expected float, got ", value)),
        },
        FieldType::Bool => match value {
            JsonValue::Bool(_) => Ok(clone_json(value)),
            JsonValue::String(s) => {
                let l = lowercase_of(s.as_str());
                if chars_eq(l.as_slice(), chars_of("true").as_slice()) || chars_eq(l.as_slice(), chars_of("1").as_slice())
                    || chars_eq(l.as_slice(), chars_of("yes").as_slice()) {
                    Ok(JsonValue::Bool(true))
                } else if chars_eq(l.as_slice(), chars_of("false").as_slice()) || chars_eq(
                    l.as_slice(),
                    chars_of("0").as_slice(),
                ) || chars_eq(l.as_slice(), chars_of("no").as_slice()) {
                    Ok(JsonValue::Bool(false))
                } else {
                    Err(quoted_error("cannot coerce string '", &chars_of(s.as_str()), "' to bool"))
                }
            },
            JsonValue::Number(n) => match number_as_i64_exec(n) {
                Some(i) => Ok(JsonValue::Bool(i != 0)),
                None => Err(quoted_error("cannot coerce number ", &number_text_exec(n), " to bool")),
            },
            _ => Err(type_error("expected bool, got ", value)),
        },
        FieldType::Datetime => match value {
            JsonValue::String(s) => if is_rfc3339(s.as_str()) || is_naive_datetime(s.as_str()) || is_naive_date(
                s.as_str(),
            ) {
                Ok(clone_json(value))
            } else {
                Err(quoted_error("cannot parse '", &chars_of(s.as_str()), "' as datetime"))
            },
            JsonValue::Number(_) => Ok(clone_json(value)),
            _ => Err(type_error("expected datetime, got ", value)),
        },
        FieldType::Uuid => match value {
            JsonValue::String(s) => if is_uuid_text(s.as_str()) {
                Ok(clone_json(value))
            } else {
                Err(quoted_error("invalid UUID: '", &chars_of(s.as_str()), "'"))
            },
            _ => Err(type_error("expected uuid string, got ", value)),
        },
        FieldType::Record(hint) => match value {
            JsonValue::String(s) => if is_uuid_text(s.as_str()) {
                Ok(clone_json(value))
            } else {
                let mut m: Vec<char> = Vec::new();
                push_str_chars(&mut m, "invalid record reference: '");
                push_str_chars(&mut m, s.as_str());
                push_str_chars(&mut m, "'");
                let ghost head = m@;
                match hint {
                    Some(h) => {
                        push_str_chars(&mut m, " (expected reference to '");
                        push_str_chars(&mut m, h.as_str());
                        push_str_chars(&mut m, "')");
                        assert(m@ =~= head + (" (expected reference to '"@ + h@ + "')"@));
                    },
                    None => {
                        assert(m@ =~= head + Seq::<char>::empty());
                    },
                }
                Err(string_of(m.as_slice()))
            },
            _ => Err(type_error("expected record reference (UUID string), got ", value)),
        },
        FieldType::Json => match value {
            JsonValue::Object(_) | JsonValue::Array(_) => Ok(clone_json(value)),
            _ => Err(type_error("expected JSON object or array, got ", value)),
        },
        FieldType::Array(inner) => match value {
            JsonValue::Array(items) => {
                proof {
                    lemma_array_view(*items);
                }
                let ghost tv = target@;
                let ghost iv = inner@;
                assert(tv == FieldTypeView::Array(Box::new(iv)));
                let mut out: Vec<JsonValue> = Vec::new();
                assert(json_views(out@) =~= Seq::<JsonView>::empty());
                let mut i: usize = 0;
                while i < items.len()
                    invariant
                        i <= items.len(),
                        *target == FieldType::Array(*inner),
                        value@ == JsonView::Array(json_views(items@)),
                        tv == target@,
                        iv == inner@,
                        tv == FieldTypeView::Array(Box::new(iv)),
                        !(value@ is Null),
                        coerce_spec(*ops, value@, tv) == coerce_items(*ops, value@, iv, i as int, json_views(out@)),
                    decreases items.len() - i,
                {
                    assert(json_views(items@)[i as int] == items@[i as int]@);
                    let ghost before = json_views(out@);
                    match coerce_value(&items[i], &**inner, ops) {
                        Ok(c) => {
                            out.push(c);
                            assert(json_views(out@) =~= before.push(c@));
                        },
                        Err(m) => {
                            let mut msg: Vec<char> = Vec::new();
                            push_str_chars(&mut msg, "array element [");
                            push_chars(&mut msg, &decimal_chars(i as u64));
                            push_str_chars(&mut msg, "]: ");
                            push_str_chars(&mut msg, m.as_str());
                            return Err(string_of(msg.as_slice()));
                        },
                    }
                    i += 1;
                }
                proof {
                    lemma_array_view(out);
                }
                Ok(JsonValue::Array(out))
            },
            _ => Err(type_error("expected array, got ", value)),
        },
        FieldType::Union(ts) => {
            proof {
                super::lemma_union_view(*ts);
            }
            let ghost tv = ft_views(ts@);
            let mut k: usize = 0;
            while k < ts.len()
                invariant
                    k <= ts.len(),
                    tv == ft_views(ts@),
                    *target == FieldType::Union(*ts),
                    target@ == FieldTypeView::Union(tv),
                    !(value@ is Null),
                    coerce_spec(*ops, value@, target@) == coerce_union(*ops, value@, tv, k as int),
                decreases ts.len() - k,
            {
                assert(decreases_to!(*ts => ts[k as int]));
                assert(tv[k as int] == ts@[k as int]@);
                match coerce_value(value, &ts[k], ops) {
                    Ok(v) => {
                        return Ok(v);
                    },
                    Err(_) => {},
                }
                k += 1;
            }
            let mut msg: Vec<char> = Vec::new();
            push_str_chars(&mut msg, "value does not match any of: ");
            let ghost head = msg@;
            let mut j: usize = 0;
            while j < ts.len()
                invariant
                    j <= ts.len(),
                    tv == ft_views(ts@),
                    msg@ == head + union_list(tv, j as int),
                decreases ts.len() - j,
            {
                assert(tv[j as int] == ts@[j as int]@);
                if j > 0 {
                    push_str_chars(&mut msg, ", ");
                }
                let d = ts[j].to_string();
                push_str_chars(&mut msg, d.as_str());
                j += 1;
            }
            Err(string_of(msg.as_slice()))
        },
    }
}

// ── Assertion expressions ──────────────────────────────────────────

/// `str::trim_matches('"')`: leading and trailing quote characters removed.
pub open spec fn strip_quotes(s: Seq<char>) -> Seq<char>
    decreases s.len(),
{
    if s.len() > 0 && s[0] == '"' {
        strip_quotes(s.drop_first())
    } else if s.len() > 0 && s.last() == '"' {
        strip_quotes(s.drop_last())
    } else {
        s
    }
}

fn strip_quotes_exec(s: &Vec<char>) -> (r: Vec<char>)
    ensures
        r@ == strip_quotes(s@),
{
    let mut a: usize = 0;
    let mut b: usize = s.len();
    assert(s@.subrange(0, s@.len() as int) =~= s@);
    while a < b && (s[a] == '"' || s[b - 1] == '"')
        invariant
            a <= b <= s.len(),
            strip_quotes(s@) == strip_quotes(s@.subrange(a as int, b as int)),
        decreases b - a,
    {
        let ghost t = s@.subrange(a as int, b as int);
        if s[a] == '"' {
            assert(t.drop_first() =~= s@.subrange(a + 1, b as int));
            a += 1;
        } else {
            assert(t.drop_last() =~= s@.subrange(a as int, b - 1));
            b -= 1;
        }
    }
    slice_chars(s, a, b)
}

/// The text of a string value.
pub open spec fn str_value(v: JsonView) -> Option<Seq<char>> {
    match v {
        JsonView::String(s) => Some(s),
        _ => None,
    }
}

/// The comparison operators of `$value <op> N`, in the order tried.
pub open spec fn numeric_op(k: int) -> Seq<char> {
    if k == 0 {
        ">="@
    } else if k == 1 {
        "<="@
    } else if k == 2 {
        "!="@
    } else if k == 3 {
        "=="@
    } else if k == 4 {
        ">"@
    } else {
        "<"@
    }
}

fn numeric_op_exec(k: usize) -> (r: &'static str)
    ensures
        r@ == numeric_op(k as int),
{
    if k == 0 {
        ">="
    } else if k == 1 {
        "<="
    } else if k == 2 {
        "!="
    } else if k == 3 {
        "=="
    } else if k == 4 {
        ">"
    } else {
        "<"
    }
}

/// The prefix `"$value <op> "` of a comparison.
pub open spec fn op_pattern(k: int) -> Seq<char> {
    "$value "@ + numeric_op(k) + " "@
}

/// The expression begins like a comparison `$value <op> `.
pub open spec fn is_comparison(e: Seq<char>) -> bool {
    exists|k: int| 0 <= k < 6 && has_prefix(e, op_pattern(k))
}

pub open spec fn len_ge_prefix() -> Seq<char> {
    "string::len($value) >= "@
}

pub open spec fn len_le_prefix() -> Seq<char> {
    "string::len($value) <= "@
}

/// `string::len($value) >= N` (`at_least`) or `<= N` on the text after the
/// prefix.
pub open spec fn length_check(v: JsonView, rest: Seq<char>, at_least: bool) -> Result<(), Seq<char>> {
    match parse_unsigned(trim(rest), usize::MAX as int) {
        None => Err("invalid length threshold: "@ + rest),
        Some(n) => match v {
            JsonView::String(s) => {
                let l = crate::triple_store::byte_len(s) as int;
                if at_least {
                    if l >= n {
                        Ok(())
                    } else {
                        Err("assertion failed: string length "@ + decimal_of(l as nat) + " < "@ + decimal_of(n as nat))
                    }
                } else {
                    if l <= n {
                        Ok(())
                    } else {
                        Err("assertion failed: string length "@ + decimal_of(l as nat) + " > "@ + decimal_of(n as nat))
                    }
                }
            },
            _ => Err("string::len requires string value"@),
        },
    }
}

/// `$value =~ "pattern"`: the string must match the regular expression
/// (see [`regex_match`]); a pattern outside the dialect is an error.
pub open spec fn pattern_check(v: JsonView, rest: Seq<char>) -> Result<(), Seq<char>> {
    let pat = strip_quotes(trim(rest));
    match v {
        JsonView::String(s) => match regex_match(pat, s) {
            Some(true) => Ok(()),
            Some(false) => Err("assertion failed: '"@ + s + "' does not match pattern '"@ + pat + "'"@),
            None => Err("invalid regex pattern '"@ + pat + "'"@),
        },
        _ => Err("assertion =~ requires string value"@),
    }
}

/// `$value IN [..]`, given what reading the trimmed text as a JSON array
/// gave.
pub open spec fn membership_check(v: JsonView, rest: Seq<char>, parsed: Option<Seq<JsonView>>) -> Result<(), Seq<char>> {
    match parsed {
        Some(items) => if crate::json::json_contains(items, v) {
            Ok(())
        } else {
            Err("assertion failed: value not in allowed set "@ + rest)
        },
        None => Err("invalid IN expression: "@ + rest),
    }
}

pub open spec fn in_prefix() -> Seq<char> {
    "$value IN "@
}

pub open spec fn match_prefix() -> Seq<char> {
    "$value =~ "@
}

/// The text after the comparison prefix `op_pattern(k)`, trimmed and
/// with its quotes stripped.
pub open spec fn threshold_text(e: Seq<char>, k: int) -> Seq<char> {
    strip_quotes(trim(e.skip(op_pattern(k).len() as int)))
}

/// The comparisons `k..` tried in order: the first whose prefix `e` has
/// and whose threshold `ops` reads as a float decides (a number is
/// compared by `ops`; anything else is an error); `None` when none does.
pub open spec fn comparison_from<O: ValueOps>(ops: O, v: JsonView, e: Seq<char>, k: int) -> Option<Result<(), Seq<char>>>
    decreases 6 - k,
{
    if k < 0 || k >= 6 {
        None
    } else if has_prefix(e, op_pattern(k)) && ops.reads_as_float(threshold_text(e, k)) {
        Some(
            match v {
                JsonView::Number(n) => ops.compared(n, numeric_op(k), threshold_text(e, k)),
                _ => Err("assertion requires numeric value, got "@ + label_of(v)),
            },
        )
    } else {
        comparison_from(ops, v, e, k + 1)
    }
}

/// The outcome of the assertion `expr` on `v`, checked in this order:
/// `$value != ""`, `$value != NONE` / `null`, comparisons `$value <op> N`
/// (one whose threshold is no float passes), `$value =~ "p"`,
/// `$value IN [..]` (the text read as a JSON array by `ops`),
/// `string::len($value) >= N` and `<= N`; any other expression passes.
pub open spec fn assert_spec<O: ValueOps>(ops: O, v: JsonView, expr: Seq<char>) -> Result<(), Seq<char>> {
    let e = trim(expr);
    if e == "$value != \"\""@ {
        match v {
            JsonView::String(s) => if s.len() > 0 {
                Ok(())
            } else {
                Err("assertion failed: value must not be empty"@)
            },
            _ => Ok(()),
        }
    } else if e == "$value != NONE"@ || e == "$value != null"@ {
        if v is Null {
            Err("assertion failed: value must not be null"@)
        } else {
            Ok(())
        }
    } else if is_comparison(e) {
        match comparison_from(ops, v, e, 0) {
            Some(r) => r,
            None => Ok(()),
        }
    } else if has_prefix(e, match_prefix()) {
        pattern_check(v, e.skip(match_prefix().len() as int))
    } else if has_prefix(e, in_prefix()) {
        let rest = trim(e.skip(in_prefix().len() as int));
        membership_check(v, rest, ops.array_of_text(rest))
    } else if has_prefix(e, len_ge_prefix()) {
        length_check(v, e.skip(len_ge_prefix().len() as int), true)
    } else if has_prefix(e, len_le_prefix()) {
        length_check(v, e.skip(len_le_prefix().len() as int), false)
    } else {
        Ok(())
    }
}

/// `string::len($value) >= N` and `<= N` bound the string's length in
/// bytes: `<= N` passes exactly when the length is at most `N` (so every
/// shorter string passes), `>= N` exactly when it is at least `N`; every
/// string passes one of the two, and both exactly when its length is `N`.
/// Raising the bound of `<=` (lowering that of `>=`) never turns a pass
/// into a failure.
pub proof fn lemma_length_bounds(s: Seq<char>, rest: Seq<char>, n: int, rest2: Seq<char>, m: int)
    requires
        parse_unsigned(trim(rest), usize::MAX as int) == Some(n),
        parse_unsigned(trim(rest2), usize::MAX as int) == Some(m),
    ensures
        length_check(JsonView::String(s), rest, false) is Ok <==> crate::triple_store::byte_len(s) <= n,
        length_check(JsonView::String(s), rest, true) is Ok <==> crate::triple_store::byte_len(s) >= n,
        length_check(JsonView::String(s), rest, false) is Ok || length_check(JsonView::String(s), rest, true) is Ok,
        (length_check(JsonView::String(s), rest, false) is Ok && length_check(JsonView::String(s), rest, true) is Ok)
            <==> crate::triple_store::byte_len(s) == n,
        n <= m && length_check(JsonView::String(s), rest, false) is Ok ==> length_check(
            JsonView::String(s),
            rest2,
            false,
        ) is Ok,
        m <= n && length_check(JsonView::String(s), rest, true) is Ok ==> length_check(
            JsonView::String(s),
            rest2,
            true,
        ) is Ok,
{
}

/// An assertion `string::len($value) <= N` on a string passes exactly
/// when the string is at most `N` bytes long.
pub proof fn lemma_length_at_most_assertion<O: ValueOps>(ops: O, s: Seq<char>, expr: Seq<char>, n: int)
    requires
        has_prefix(trim(expr), len_le_prefix()),
        parse_unsigned(trim(trim(expr).skip(len_le_prefix().len() as int)), usize::MAX as int) == Some(n),
    ensures
        assert_spec(ops, JsonView::String(s), expr) is Ok <==> crate::triple_store::byte_len(s) <= n,
{
    let e = trim(expr);
    reveal_strlit("string::len($value) <= ");
    reveal_strlit("string::len($value) >= ");
    assert(e.subrange(0, 23)[0] == e[0]);
    assert(e.subrange(0, 23)[20] == e[20]);
    lemma_length_prefix_routes(e);
    assert(!has_prefix(e, len_ge_prefix())) by {
        if has_prefix(e, len_ge_prefix()) {
            assert(e.subrange(0, 23)[20] == e[20]);
        }
    }
}

/// An assertion `string::len($value) >= N` on a string passes exactly
/// when the string is at least `N` bytes long.
pub proof fn lemma_length_at_least_assertion<O: ValueOps>(ops: O, s: Seq<char>, expr: Seq<char>, n: int)
    requires
        has_prefix(trim(expr), len_ge_prefix()),
        parse_unsigned(trim(trim(expr).skip(len_ge_prefix().len() as int)), usize::MAX as int) == Some(n),
    ensures
        assert_spec(ops, JsonView::String(s), expr) is Ok <==> crate::triple_store::byte_len(s) >= n,
{
    let e = trim(expr);
    reveal_strlit("string::len($value) >= ");
    assert(e.subrange(0, 23)[0] == e[0]);
    lemma_length_prefix_routes(e);
}

/// `$value != NONE` (or `!= null`) fails exactly on null; `$value != ""`
/// fails exactly on the empty string (any other value, string or not,
/// passes).
pub proof fn lemma_presence_assertions<O: ValueOps>(ops: O, v: JsonView, expr: Seq<char>)
    ensures
        (trim(expr) == "$value != NONE"@ || trim(expr) == "$value != null"@) ==> (assert_spec(ops, v, expr) is Ok
            <==> !(v is Null)),
        trim(expr) == "$value != \"\""@ ==> (assert_spec(ops, v, expr) is Err <==> v == JsonView::String(
            Seq::empty(),
        )),
{
    reveal_strlit("$value != NONE");
    reveal_strlit("$value != null");
    reveal_strlit("$value != \"\"");
    assert("$value != NONE"@.len() != "$value != \"\""@.len());
    assert("$value != null"@.len() != "$value != \"\""@.len());
    if trim(expr) == "$value != \"\""@ {
        match v {
            JsonView::String(t) => {
                if t.len() == 0 {
                    assert(t =~= Seq::<char>::empty());
                }
            },
            _ => {},
        }
    }
}

/// `$value IN [...]` passes exactly when some member of the array the text
/// reads as equals the value, and fails when the text is no array.
pub proof fn lemma_in_assertion<O: ValueOps>(ops: O, v: JsonView, expr: Seq<char>)
    requires
        has_prefix(trim(expr), in_prefix()),
    ensures
        ops.array_of_text(trim(trim(expr).skip(in_prefix().len() as int))) matches Some(items) ==> (assert_spec(
            ops,
            v,
            expr,
        ) is Ok <==> exists|i: int| 0 <= i < items.len() && crate::json::json_eq(#[trigger] items[i], v)),
        ops.array_of_text(trim(trim(expr).skip(in_prefix().len() as int))) is None ==> assert_spec(ops, v, expr) is Err,
{
    let e = trim(expr);
    reveal_strlit("$value IN ");
    reveal_strlit("$value != NONE");
    reveal_strlit("$value != null");
    reveal_strlit("$value != \"\"");
    reveal_strlit("$value ");
    reveal_strlit("$value =~ ");
    reveal_strlit(">=");
    reveal_strlit("<=");
    reveal_strlit("!=");
    reveal_strlit("==");
    reveal_strlit(">");
    reveal_strlit("<");
    assert(e.subrange(0, 10)[7] == e[7]);
    assert(e[7] == 'I');
    assert(e != "$value != NONE"@ && e != "$value != null"@ && e != "$value != \"\""@) by {
        assert("$value != NONE"@[7] == '!');
        assert("$value != null"@[7] == '!');
        assert("$value != \"\""@[7] == '!');
    }
    assert forall|k: int| 0 <= k < 6 implies !has_prefix(e, #[trigger] op_pattern(k)) by {
        let p = op_pattern(k);
        assert(p[7] == numeric_op(k)[0]);
        if has_prefix(e, p) {
            assert(e.subrange(0, p.len() as int)[7] == e[7]);
        }
    }
    if has_prefix(e, match_prefix()) {
        assert(e.subrange(0, 10)[7] == e[7]);
    }
}

/// A text that starts with `s` is neither one of the `$value` forms.
proof fn lemma_length_prefix_routes(e: Seq<char>)
    requires
        e.len() > 0,
        e[0] == 's',
    ensures
        e != "$value != \"\""@,
        e != "$value != NONE"@,
        e != "$value != null"@,
        !is_comparison(e),
        !has_prefix(e, match_prefix()),
        !has_prefix(e, in_prefix()),
{
    reveal_strlit("$value != \"\"");
    reveal_strlit("$value != NONE");
    reveal_strlit("$value != null");
    reveal_strlit("$value ");
    reveal_strlit("$value =~ ");
    reveal_strlit("$value IN ");
    assert(e[0] != "$value != \"\""@[0]);
    assert(e[0] != "$value != NONE"@[0]);
    assert(e[0] != "$value != null"@[0]);
    assert forall|k: int| 0 <= k < 6 implies !has_prefix(e, #[trigger] op_pattern(k)) by {
        let p = op_pattern(k);
        assert(p[0] == '$');
        if has_prefix(e, p) {
            assert(e.subrange(0, p.len() as int)[0] == e[0]);
        }
    }
    if has_prefix(e, match_prefix()) {
        assert(e.subrange(0, match_prefix().len() as int)[0] == e[0]);
    }
    if has_prefix(e, in_prefix()) {
        assert(e.subrange(0, in_prefix().len() as int)[0] == e[0]);
    }
}

pub open spec fn unit_result_view(r: Result<(), String>) -> Result<(), Seq<char>> {
    match r {
        Ok(()) => Ok(()),
        Err(m) => Err(m@),
    }
}

fn message(s: &str) -> (r: String)
    ensures
        r@ == s@,
{
    string_of(chars_of(s).as_slice())
}

/// `$value IN [..]` once the text has been read: passes when the array
/// holds a value equal to `value`.
pub fn check_membership(value: &JsonValue, rest: &Vec<char>, parsed: Option<Vec<JsonValue>>) -> (r: Result<(), String>)
    ensures
        unit_result_view(r) == membership_check(
            value@,
            rest@,
            match parsed {
                Some(items) => Some(json_views(items@)),
                None => None,
            },
        ),
{
    match parsed {
        Some(items) => {
            if crate::json::json_contains_exec(&items, value) {
                Ok(())
            } else {
                let mut m: Vec<char> = Vec::new();
                push_str_chars(&mut m, "assertion failed: value not in allowed set ");
                push_chars(&mut m, rest);
                Err(string_of(m.as_slice()))
            }
        },
        None => {
            let mut m: Vec<char> = Vec::new();
            push_str_chars(&mut m, "invalid IN expression: ");
            push_chars(&mut m, rest);
            Err(string_of(m.as_slice()))
        },
    }
}

fn length_check_exec(value: &JsonValue, rest: &Vec<char>, at_least: bool) -> (r: Result<(), String>)
    ensures
        unit_result_view(r) == length_check(value@, rest@, at_least),
{
    let t = trim_chars(rest);
    match parse_unsigned_exec(&t, usize::MAX as u64) {
        None => {
            let mut m: Vec<char> = Vec::new();
            push_str_chars(&mut m, "invalid length threshold: ");
            push_chars(&mut m, rest);
            Err(string_of(m.as_slice()))
        },
        Some(n) => match value {
            JsonValue::String(s) => {
                let l = s.as_str().len();
                let pass = if at_least { l as u64 >= n } else { l as u64 <= n };
                if pass {
                    Ok(())
                } else {
                    let mut m: Vec<char> = Vec::new();
                    push_str_chars(&mut m, "assertion failed: string length ");
                    push_chars(&mut m, &decimal_chars(l as u64));
                    if at_least {
                        push_str_chars(&mut m, " < ");
                    } else {
                        push_str_chars(&mut m, " > ");
                    }
                    push_chars(&mut m, &decimal_chars(n));
                    Err(string_of(m.as_slice()))
                }
            },
            _ => Err(message("string::len requires string value")),
        },
    }
}

fn pattern_check_exec(value: &JsonValue, rest: &Vec<char>) -> (r: Result<(), String>)
    ensures
        unit_result_view(r) == pattern_check(value@, rest@),
{
    let pat = strip_quotes_exec(&trim_chars(rest));
    match value {
        JsonValue::String(s) => {
            let sc = chars_of(s.as_str());
            match regex_match_exec(&pat, &sc) {
                Some(true) => Ok(()),
                Some(false) => {
                    let mut m: Vec<char> = Vec::new();
                    push_str_chars(&mut m, "assertion failed: '");
                    push_chars(&mut m, &sc);
                    push_str_chars(&mut m, "' does not match pattern '");
                    push_chars(&mut m, &pat);
                    push_str_chars(&mut m, "'");
                    Err(string_of(m.as_slice()))
                },
                None => {
                    let mut m: Vec<char> = Vec::new();
                    push_str_chars(&mut m, "invalid regex pattern '");
                    push_chars(&mut m, &pat);
                    push_str_chars(&mut m, "'");
                    Err(string_of(m.as_slice()))
                },
            }
        },
        _ => Err(message("assertion =~ requires string value")),
    }
}

/// Evaluate the assertion `expr` against `value`; `Ok` when it holds (see
/// [`assert_spec`]).
pub fn evaluate_assert<O: ValueOps>(value: &JsonValue, expr: &str, ops: &O) -> (r: Result<(), String>)
    ensures
        unit_result_view(r) == assert_spec(*ops, value@, expr@),
{
    let e = trim_chars(&chars_of(expr));
    if chars_eq(e.as_slice(), chars_of("$value != \"\"").as_slice()) {
        return match value {
            JsonValue::String(s) => if chars_of(s.as_str()).len() > 0 {
                Ok(())
            } else {
                Err(message("assertion failed: value must not be empty"))
            },
            _ => Ok(()),
        };
    }
    if chars_eq(e.as_slice(), chars_of("$value != NONE").as_slice()) || chars_eq(
        e.as_slice(),
        chars_of("$value != null").as_slice(),
    ) {
        return match value {
            JsonValue::Null => Err(message("assertion failed: value must not be null")),
            _ => Ok(()),
        };
    }
    let mut k: usize = 0;
    let mut seen = false;
    while k < 6
        invariant
            k <= 6,
            e@ == trim(expr@),
            e@ != "$value != \"\""@,
            e@ != "$value != NONE"@,
            e@ != "$value != null"@,
            seen ==> is_comparison(e@),
            !seen ==> forall|j: int| 0 <= j < k ==> !has_prefix(e@, #[trigger] op_pattern(j)),
            comparison_from(*ops, value@, e@, 0) == comparison_from(*ops, value@, e@, k as int),
        decreases 6 - k,
    {
        let op = numeric_op_exec(k);
        let mut p: Vec<char> = Vec::new();
        push_str_chars(&mut p, "$value ");
        push_str_chars(&mut p, op);
        push_str_chars(&mut p, " ");
        assert(p@ == op_pattern(k as int));
        if starts_with(e.as_slice(), p.as_slice()) {
            assert(has_prefix(e@, op_pattern(k as int)));
            assert(is_comparison(e@));
            seen = true;
            let rest = strip_quotes_exec(&trim_chars(&slice_chars(&e, p.len(), e.len())));
            let rest_s = string_of(rest.as_slice());
            assert(rest_s@ == threshold_text(e@, k as int));
            if ops.is_float_text(rest_s.as_str()) {
                return match value {
                    JsonValue::Number(n) => {
                        assert(value@ is Number);
                        ops.compare(n, op, rest_s.as_str())
                    },
                    _ => {
                        let mut m: Vec<char> = Vec::new();
                        push_str_chars(&mut m, "assertion requires numeric value, got ");
                        push_str_chars(&mut m, crate::json::value_type_label_exec(value));
                        Err(string_of(m.as_slice()))
                    },
                };
            }
        }
        k += 1;
    }
    if seen {
        return Ok(());
    }
    let mp = chars_of("$value =~ ");
    if starts_with(e.as_slice(), mp.as_slice()) {
        return pattern_check_exec(value, &slice_chars(&e, mp.len(), e.len()));
    }
    let ip = chars_of("$value IN ");
    if starts_with(e.as_slice(), ip.as_slice()) {
        let rest = trim_chars(&slice_chars(&e, ip.len(), e.len()));
        let rest_s = string_of(rest.as_slice());
        let parsed = ops.parse_json_array(rest_s.as_str());
        return check_membership(value, &rest, parsed);
    }
    let gp = chars_of("string::len($value) >= ");
    if starts_with(e.as_slice(), gp.as_slice()) {
        return length_check_exec(value, &slice_chars(&e, gp.len(), e.len()), true);
    }
    let lp = chars_of("string::len($value) <= ");
    if starts_with(e.as_slice(), lp.as_slice()) {
        return length_check_exec(value, &slice_chars(&e, lp.len(), e.len()), false);
    }
    Ok(())
}


// ── Validation result ──────────────────────────────────────────────

/// A single validation error.
#[derive(Debug, Clone)]
pub struct ValidationError {
    /// The field that failed validation (empty for table-level errors).
    pub field: String,
    /// Human-readable description of the failure.
    pub message: String,
}

/// An error as `(field, message)`.
pub type ErrorView = (Seq<char>, Seq<char>);

pub open spec fn error_views(errors: Seq<ValidationError>) -> Seq<ErrorView> {
    Seq::new(errors.len(), |i: int| (errors[i].field@, errors[i].message@))
}

/// The text of an error: the message alone for a table-level error,
/// otherwise `field '<field>': <message>`.
pub open spec fn error_text(e: ErrorView) -> Seq<char> {
    if e.0.len() == 0 {
        e.1
    } else {
        "field '"@ + e.0 + "': "@ + e.1
    }
}

/// The texts of `errors[0..n]` joined with `"; "`.
pub open spec fn joined_errors(errors: Seq<ErrorView>, n: int) -> Seq<char>
    decreases n,
{
    if n <= 0 || n > errors.len() {
        Seq::empty()
    } else if n == 1 {
        error_text(errors[0])
    } else {
        joined_errors(errors, n - 1) + "; "@ + error_text(errors[n - 1])
    }
}

impl ValidationError {
    fn text_chars(&self) -> (r: Vec<char>)
        ensures
            r@ == error_text((self.field@, self.message@)),
    {
        let f = chars_of(self.field.as_str());
        let mut out: Vec<char> = Vec::new();
        if f.len() == 0 {
            push_str_chars(&mut out, self.message.as_str());
            assert(out@ =~= self.message@);
        } else {
            push_str_chars(&mut out, "field '");
            push_chars(&mut out, &f);
            push_str_chars(&mut out, "': ");
            push_str_chars(&mut out, self.message.as_str());
        }
        out
    }

    /// The error as text (see [`error_text`]).
    pub fn to_string(&self) -> (r: String)
        ensures
            r@ == error_text((self.field@, self.message@)),
    {
        string_of(self.text_chars().as_slice())
    }
}

/// Result of validating a document against a schema.
#[derive(Debug)]
pub struct ValidationResult {
    /// Errors encountered during validation. Empty means success.
    pub errors: Vec<ValidationError>,
    /// The document after applying defaults and coercions, as the entries
    /// of a JSON object.  Only meaningful when `errors` is empty.
    pub document: Vec<(String, JsonValue)>,
}

impl ValidationResult {
    /// Whether the document passed all checks.
    pub fn is_valid(&self) -> (r: bool)
        ensures
            r == (self.errors@.len() == 0),
    {
        self.errors.len() == 0
    }

    /// All errors in one message, joined with `"; "`.
    pub fn error_message(&self) -> (r: String)
        ensures
            r@ == joined_errors(error_views(self.errors@), self.errors@.len() as int),
    {
        let ghost ev = error_views(self.errors@);
        let mut out: Vec<char> = Vec::new();
        let mut i: usize = 0;
        while i < self.errors.len()
            invariant
                i <= self.errors@.len(),
                ev == error_views(self.errors@),
                out@ == joined_errors(ev, i as int),
            decreases self.errors.len() - i,
        {
            if i > 0 {
                push_str_chars(&mut out, "; ");
            }
            let t = self.errors[i].text_chars();
            push_chars(&mut out, &t);
            assert(ev[i as int] == (self.errors@[i as int].field@, self.errors@[i as int].message@));
            if i == 0 {
                assert(out@ =~= joined_errors(ev, 1));
            }
            i += 1;
        }
        string_of(out.as_slice())
    }
}

// ── Validator ──────────────────────────────────────────────────────

/// What a field's checks gave: the coercion's outcome and the assertion's.
pub type FieldOutcome = (Result<JsonView, Seq<char>>, Result<(), Seq<char>>);

/// Validation state: the errors so far and the document being built.
pub type ValidationState = (Seq<ErrorView>, Seq<(Seq<char>, JsonView)>);

/// A key that names no field and is no meta-key (`$...`) is unknown.
pub open spec fn is_unknown_key(fields: Seq<FieldDefinition>, key: Seq<char>) -> bool {
    !(key.len() > 0 && key[0] == '$') && !(exists|i: int| 0 <= i < fields.len() && fields[i].name@ == key)
}

/// One error per unknown key of `entries`, in the document's order.
pub open spec fn unknown_field_errors(entries: Seq<(Seq<char>, JsonView)>, fields: Seq<FieldDefinition>, table: Seq<char>) -> Seq<ErrorView>
    decreases entries.len(),
{
    if entries.len() == 0 {
        Seq::empty()
    } else {
        let key = entries.last().0;
        let before = unknown_field_errors(entries.drop_last(), fields, table);
        if is_unknown_key(fields, key) {
            before.push((key, "unknown field '"@ + key + "' on SCHEMAFULL table '"@ + table + "'"@))
        } else {
            before
        }
    }
}

/// The value the assertion of a present field is checked against: the
/// coerced value when the field has a type, the given value otherwise.
pub open spec fn checked_value(f: FieldDefinition, given: JsonView, coerced: Result<JsonView, Seq<char>>) -> JsonView {
    match (f.field_type, coerced) {
        (Some(_), Ok(c)) => c,
        _ => given,
    }
}

/// Validating the field `f` of `input` from the state `st`, given what its
/// coercion and assertion gave:
/// - absent: its default is injected; without one, a required field is
///   an error on insert;
/// - present on an update of a read-only field: an error;
/// - otherwise a typed field's coerced value replaces the given one (or
///   its message is the field's error and the assertion is skipped), then
///   a failing assertion is an error.
pub open spec fn field_step(
    st: ValidationState,
    f: FieldDefinition,
    input: Seq<(Seq<char>, JsonView)>,
    is_update: bool,
    out: FieldOutcome,
) -> ValidationState {
    let name = f.name@;
    let (errs, doc) = st;
    match first_key_pos(input, name) {
        None => match f.default_value {
            Some(d) => (errs, insert_key(doc, name, d@)),
            None => if f.required && !is_update {
                (errs.push((name, "required field '"@ + name + "' is missing"@)), doc)
            } else {
                (errs, doc)
            },
        },
        Some(_) => if is_update && f.readonly {
            (errs.push((name, "field '"@ + name + "' is read-only"@)), doc)
        } else {
            match (f.field_type, out.0) {
                (Some(_), Err(m)) => (errs.push((name, m)), doc),
                _ => {
                    let doc1 = match (f.field_type, out.0) {
                        (Some(_), Ok(c)) => insert_key(doc, name, c),
                        _ => doc,
                    };
                    match (f.assert_expr, out.1) {
                        (Some(_), Err(m)) => (errs.push((name, m)), doc1),
                        _ => (errs, doc1),
                    }
                },
            }
        },
    }
}

/// Checking one field reports at most one error, and only about that
/// field; the errors already found stay as they were.
pub proof fn lemma_field_step_one_error(
    st: ValidationState,
    f: FieldDefinition,
    input: Seq<(Seq<char>, JsonView)>,
    is_update: bool,
    out: FieldOutcome,
)
    ensures
        ({
            let e = field_step(st, f, input, is_update, out).0;
            e == st.0 || (e.len() == st.0.len() + 1 && e.drop_last() == st.0 && e.last().0 == f.name@)
        }),
{
    let e = field_step(st, f, input, is_update, out).0;
    if e != st.0 {
        assert(e.drop_last() =~= st.0);
    }
}

/// A field absent from the document: an update never reports it; an
/// insert reports it as missing exactly when it is required and has no
/// default; and when it has a default, that default is put in under the
/// field's name, on insert and update alike.
pub proof fn lemma_absent_field(
    st: ValidationState,
    f: FieldDefinition,
    input: Seq<(Seq<char>, JsonView)>,
    out: FieldOutcome,
)
    requires
        first_key_pos(input, f.name@) is None,
    ensures
        field_step(st, f, input, true, out).0 == st.0,
        field_step(st, f, input, false, out).0 == (if f.required && f.default_value is None {
            st.0.push((f.name@, "required field '"@ + f.name@ + "' is missing"@))
        } else {
            st.0
        }),
        f.default_value matches Some(d) ==> field_step(st, f, input, false, out).1 == insert_key(st.1, f.name@, d@)
            && field_step(st, f, input, true, out).1 == insert_key(st.1, f.name@, d@),
{
}

/// On an update a read-only field that is given is refused, whatever its
/// value; on an insert it is checked like any other.
pub proof fn lemma_readonly_on_update(
    st: ValidationState,
    f: FieldDefinition,
    input: Seq<(Seq<char>, JsonView)>,
    out: FieldOutcome,
)
    requires
        first_key_pos(input, f.name@) is Some,
        f.readonly,
    ensures
        field_step(st, f, input, true, out) == (st.0.push((f.name@, "field '"@ + f.name@ + "' is read-only"@)), st.1),
{
}

/// The outcomes a field's checks have: coercion and assertion give what
/// [`coerce_spec`] and [`assert_spec`] state for the field's value.
pub open spec fn outcome_allowed<O: ValueOps>(
    ops: O,
    f: FieldDefinition,
    input: Seq<(Seq<char>, JsonView)>,
    is_update: bool,
    out: FieldOutcome,
) -> bool {
    match first_key_pos(input, f.name@) {
        None => true,
        Some(p) => !(is_update && f.readonly) ==> {
            let given = input[p].1;
            &&& (f.field_type matches Some(t) ==> out.0 == coerce_spec(ops, given, ft_view(t)))
            &&& (f.assert_expr matches Some(e) ==> (!(f.field_type is Some && out.0 is Err) ==> out.1 == assert_spec(
                ops,
                checked_value(f, given, out.0),
                e@,
            )))
        },
    }
}

/// The state after the fields `fields[0..outs.len()]`, from `init`.
pub open spec fn run_fields(
    init: ValidationState,
    fields: Seq<FieldDefinition>,
    input: Seq<(Seq<char>, JsonView)>,
    is_update: bool,
    outs: Seq<FieldOutcome>,
) -> ValidationState
    decreases outs.len(),
{
    if outs.len() == 0 {
        init
    } else {
        let n = outs.len() - 1;
        field_step(run_fields(init, fields, input, is_update, outs.drop_last()), fields[n], input, is_update, outs[n])
    }
}

pub open spec fn outcomes_allowed<O: ValueOps>(
    ops: O,
    fields: Seq<FieldDefinition>,
    input: Seq<(Seq<char>, JsonView)>,
    is_update: bool,
    outs: Seq<FieldOutcome>,
) -> bool {
    forall|k: int| 0 <= k < outs.len() ==> #[trigger] outcome_allowed(ops, fields[k], input, is_update, outs[k])
}

/// The validation of `input` against `schema`: unknown keys first (on a
/// SCHEMAFULL table), then each field in the schema's order, from the
/// given document.
pub open spec fn validation_run(
    schema: TableSchema,
    input: Seq<(Seq<char>, JsonView)>,
    is_update: bool,
    outs: Seq<FieldOutcome>,
) -> ValidationState {
    let init_errors = if schema.mode == SchemaMode::Schemafull {
        unknown_field_errors(input, schema.fields@, schema.name@)
    } else {
        Seq::empty()
    };
    run_fields((init_errors, input), schema.fields@, input, is_update, outs)
}

/// What validating `input` against `schema` gives: a schemaless table
/// passes the document through unchanged; otherwise the state that
/// [`validation_run`] reaches with the outcomes of the fields' checks.
pub open spec fn validation_allowed<O: ValueOps>(
    ops: O,
    schema: TableSchema,
    input: Seq<(Seq<char>, JsonView)>,
    is_update: bool,
    result: ValidationState,
) -> bool {
    if schema.mode == SchemaMode::Schemaless {
        result == (Seq::<ErrorView>::empty(), input)
    } else {
        exists|outs: Seq<FieldOutcome>|
            #![trigger validation_run(schema, input, is_update, outs)]
            outs.len() == schema.fields@.len() && outcomes_allowed(ops, schema.fields@, input, is_update, outs)
                && validation_run(schema, input, is_update, outs) == result
    }
}

pub open spec fn result_state(r: ValidationResult) -> ValidationState {
    (error_views(r.errors@), entry_views(r.document@))
}

fn field_error(field: &String, message: String) -> (r: ValidationError)
    ensures
        r.field@ == field@,
        r.message@ == message@,
{
    ValidationError { field: clone_string(field), message }
}

fn names_field(fields: &Vec<FieldDefinition>, key: &Vec<char>) -> (r: bool)
    ensures
        r == exists|i: int| 0 <= i < fields@.len() && fields@[i].name@ == key@,
{
    let mut i: usize = 0;
    while i < fields.len()
        invariant
            i <= fields@.len(),
            forall|j: int| 0 <= j < i ==> fields@[j].name@ != key@,
        decreases fields.len() - i,
    {
        if chars_eq(chars_of(fields[i].name.as_str()).as_slice(), key.as_slice()) {
            return true;
        }
        i += 1;
    }
    false
}

proof fn lemma_push_errors(errors: Seq<ValidationError>, e: ValidationError)
    ensures
        error_views(errors.push(e)) == error_views(errors).push((e.field@, e.message@)),
{
    assert(error_views(errors.push(e)) =~= error_views(errors).push((e.field@, e.message@)));
}

/// Validates and transforms documents according to a [`TableSchema`].
pub struct SchemaValidator;

impl SchemaValidator {
    /// Validate a document for INSERT: every check applies.
    pub fn validate_insert<O: ValueOps>(schema: &TableSchema, document: &Vec<(String, JsonValue)>, ops: &O) -> (r:
        ValidationResult)
        ensures
            validation_allowed(*ops, *schema, entry_views(document@), false, result_state(r)),
    {
        Self::validate_document(schema, document, false, ops)
    }

    /// Validate a document for UPDATE (a partial patch): absent required
    /// fields are no error, and read-only fields may not be given.
    pub fn validate_update<O: ValueOps>(schema: &TableSchema, document: &Vec<(String, JsonValue)>, ops: &O) -> (r:
        ValidationResult)
        ensures
            validation_allowed(*ops, *schema, entry_views(document@), true, result_state(r)),
    {
        Self::validate_document(schema, document, true, ops)
    }

    /// Core validation shared between insert and update.
    fn validate_document<O: ValueOps>(
        schema: &TableSchema,
        document: &Vec<(String, JsonValue)>,
        is_update: bool,
        ops: &O,
    ) -> (r: ValidationResult)
        ensures
            validation_allowed(*ops, *schema, entry_views(document@), is_update, result_state(r)),
    {
        let ghost input = entry_views(document@);
        if schema.mode == SchemaMode::Schemaless {
            let r = ValidationResult { errors: Vec::new(), document: crate::json::clone_entries(document) };
            assert(error_views(r.errors@) =~= Seq::<ErrorView>::empty());
            return r;
        }
        let mut errors: Vec<ValidationError> = Vec::new();
        let mut result_doc = crate::json::clone_entries(document);
        if schema.mode == SchemaMode::Schemafull {
            let mut i: usize = 0;
            assert(input.take(0) =~= Seq::<(Seq<char>, JsonView)>::empty());
            assert(error_views(errors@) =~= Seq::<ErrorView>::empty());
            while i < document.len()
                invariant
                    i <= document@.len(),
                    input == entry_views(document@),
                    error_views(errors@) == unknown_field_errors(input.take(i as int), schema.fields@, schema.name@),
                decreases document.len() - i,
            {
                let key = chars_of(document[i].0.as_str());
                let ghost before = errors@;
                assert(input.take(i + 1).drop_last() =~= input.take(i as int));
                assert(input.take(i + 1).last().0 == key@);
                let meta = key.len() > 0 && key[0] == '$';
                if !meta && !names_field(&schema.fields, &key) {
                    let mut m: Vec<char> = Vec::new();
                    push_str_chars(&mut m, "unknown field '");
                    push_chars(&mut m, &key);
                    push_str_chars(&mut m, "' on SCHEMAFULL table '");
                    push_str_chars(&mut m, schema.name.as_str());
                    push_str_chars(&mut m, "'");
                    let e = field_error(&document[i].0, string_of(m.as_slice()));
                    errors.push(e);
                    proof {
                        lemma_push_errors(before, e);
                    }
                }
                i += 1;
            }
            assert(input.take(document@.len() as int) =~= input);
        }
        let ghost init: ValidationState = (error_views(errors@), input);
        let ghost mut outs: Seq<FieldOutcome> = Seq::empty();
        assert(init == (
            if schema.mode == SchemaMode::Schemafull {
                unknown_field_errors(input, schema.fields@, schema.name@)
            } else {
                Seq::empty()
            },
            input,
        ));
        let mut i: usize = 0;
        while i < schema.fields.len()
            invariant
                i <= schema.fields@.len(),
                input == entry_views(document@),
                outs.len() == i,
                outcomes_allowed(*ops, schema.fields@, input, is_update, outs),
                (error_views(errors@), entry_views(result_doc@)) == run_fields(
                    init,
                    schema.fields@,
                    input,
                    is_update,
                    outs,
                ),
            decreases schema.fields.len() - i,
        {
            let f = &schema.fields[i];
            let ghost st = (error_views(errors@), entry_views(result_doc@));
            let ghost before = errors@;
            let ghost mut out: FieldOutcome = (Ok(JsonView::Null), Ok(()));
            let key = chars_of(f.name.as_str());
            match key_position(document, &key) {
                Some(p) => {
                    let value = &document[p].1;
                    assert(input[p as int].1 == value@);
                    if is_update && f.readonly {
                        let mut m: Vec<char> = Vec::new();
                        push_str_chars(&mut m, "field '");
                        push_chars(&mut m, &key);
                        push_str_chars(&mut m, "' is read-only");
                        let e = field_error(&f.name, string_of(m.as_slice()));
                        errors.push(e);
                        proof {
                            lemma_push_errors(before, e);
                        }
                    } else {
                        let mut coerced: Option<JsonValue> = None;
                        let mut stop = false;
                        match &f.field_type {
                            Some(ft) => match coerce_value(value, ft, ops) {
                                Ok(cv) => {
                                    proof {
                                        out = (Ok(cv@), out.1);
                                    }
                                    insert_entry(&mut result_doc, clone_string(&f.name), clone_json(&cv));
                                    coerced = Some(cv);
                                },
                                Err(m) => {
                                    proof {
                                        out = (Err(m@), out.1);
                                    }
                                    let e = field_error(&f.name, m);
                                    errors.push(e);
                                    proof {
                                        lemma_push_errors(before, e);
                                    }
                                    stop = true;
                                },
                            },
                            None => {},
                        }
                        if !stop {
                            let ghost before2 = errors@;
                            match &f.assert_expr {
                                Some(e) => {
                                    let checked = match &coerced {
                                        Some(cv) => cv,
                                        None => value,
                                    };
                                    assert(checked@ == checked_value(*f, value@, out.0));
                                    let ar = evaluate_assert(checked, e.as_str(), ops);
                                    proof {
                                        out = (out.0, unit_result_view(ar));
                                    }
                                    match ar {
                                        Ok(()) => {},
                                        Err(m) => {
                                            let err = field_error(&f.name, m);
                                            errors.push(err);
                                            proof {
                                                lemma_push_errors(before2, err);
                                            }
                                        },
                                    }
                                },
                                None => {},
                            }
                        }
                    }
                },
                None => {
                    match &f.default_value {
                        Some(d) => {
                            insert_entry(&mut result_doc, clone_string(&f.name), clone_json(d));
                        },
                        None => {
                            if f.required && !is_update {
                                let mut m: Vec<char> = Vec::new();
                                push_str_chars(&mut m, "required field '");
                                push_chars(&mut m, &key);
                                push_str_chars(&mut m, "' is missing");
                                let e = field_error(&f.name, string_of(m.as_slice()));
                                errors.push(e);
                                proof {
                                    lemma_push_errors(before, e);
                                }
                            }
                        },
                    }
                },
            }
            proof {
                let old_outs = outs;
                outs = outs.push(out);
                assert(outs.drop_last() =~= old_outs);
                assert(outcome_allowed(*ops, schema.fields@[i as int], input, is_update, out));
                assert forall|k: int| 0 <= k < outs.len() implies #[trigger] outcome_allowed(
                    *ops,
                    schema.fields@[k],
                    input,
                    is_update,
                    outs[k],
                ) by {
                    if k < i {
                        assert(outs[k] == old_outs[k]);
                    }
                }
            }
            i += 1;
        }
        let r = ValidationResult { errors, document: result_doc };
        assert(validation_run(*schema, input, is_update, outs) == result_state(r));
        r
    }
}

} // verus!
