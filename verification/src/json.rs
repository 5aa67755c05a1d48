//! A JSON value model made of plain values.
//!
//! Mirrors the shape of a `serde_json::Value` whose maps keep insertion
//! order: an object is a vector of `(key, value)` pairs with distinct keys,
//! in the map's order.  Object equality ignores that order, as the map's
//! `==` does.  A floating-point number is carried as the bit pattern of its
//! IEEE-754 binary64 value together with the text that serde_json prints
//! for it.
use vstd::prelude::*;
use crate::text::{chars_eq, chars_of};

verus! {

/// A binary64 number, by its bit pattern and its printed form.
#[derive(Debug, Clone)]
pub struct FloatNumber {
    pub bits: u64,
    pub text: String,
}

/// A JSON number: non-negative integer, negative integer, or float.
#[derive(Debug, Clone)]
pub enum JsonNumber {
    PosInt(u64),
    NegInt(i64),
    Float(FloatNumber),
}

/// A JSON value.
#[derive(Debug)]
pub enum JsonValue {
    Null,
    Bool(bool),
    Number(JsonNumber),
    String(String),
    Array(Vec<JsonValue>),
    Object(Vec<(String, JsonValue)>),
}

/// The mathematical shape of a JSON number.
pub enum NumberView {
    PosInt(u64),
    NegInt(i64),
    Float(u64, Seq<char>),
}

/// The mathematical shape of a JSON value.
pub enum JsonView {
    Null,
    Bool(bool),
    Number(NumberView),
    String(Seq<char>),
    Array(Seq<JsonView>),
    Object(Seq<(Seq<char>, JsonView)>),
}

pub open spec fn number_view(n: JsonNumber) -> NumberView {
    match n {
        JsonNumber::PosInt(x) => NumberView::PosInt(x),
        JsonNumber::NegInt(x) => NumberView::NegInt(x),
        JsonNumber::Float(f) => NumberView::Float(f.bits, f.text@),
    }
}

pub open spec fn json_view(v: JsonValue) -> JsonView
    decreases v,
{
    match v {
        JsonValue::Null => JsonView::Null,
        JsonValue::Bool(b) => JsonView::Bool(b),
        JsonValue::Number(n) => JsonView::Number(number_view(n)),
        JsonValue::String(s) => JsonView::String(s@),
        JsonValue::Array(items) => JsonView::Array(
            Seq::new(items@.len(), |i: int| if 0 <= i < items@.len() { json_view(items@[i]) } else { JsonView::Null }),
        ),
        JsonValue::Object(entries) => JsonView::Object(
            Seq::new(
                entries@.len(),
                |i: int|
                    if 0 <= i < entries@.len() {
                        (entries@[i].0@, json_view(entries@[i].1))
                    } else {
                        (Seq::empty(), JsonView::Null)
                    },
            ),
        ),
    }
}

impl View for JsonValue {
    type V = JsonView;

    open spec fn view(&self) -> JsonView {
        json_view(*self)
    }
}

pub open spec fn entry_views(entries: Seq<(String, JsonValue)>) -> Seq<(Seq<char>, JsonView)> {
    Seq::new(entries.len(), |i: int| (entries[i].0@, json_view(entries[i].1)))
}

pub proof fn lemma_array_view(items: Vec<JsonValue>)
    ensures
        json_view(JsonValue::Array(items)) == JsonView::Array(json_views(items@)),
{
    match json_view(JsonValue::Array(items)) {
        JsonView::Array(x) => {
            assert(x =~= json_views(items@));
        },
        _ => {},
    }
}

pub proof fn lemma_object_view(entries: Vec<(String, JsonValue)>)
    ensures
        json_view(JsonValue::Object(entries)) == JsonView::Object(entry_views(entries@)),
{
    match json_view(JsonValue::Object(entries)) {
        JsonView::Object(x) => {
            assert(x =~= entry_views(entries@));
        },
        _ => {},
    }
}

pub open spec fn opt_json_view(v: Option<JsonValue>) -> Option<JsonView> {
    match v {
        Some(x) => Some(json_view(x)),
        None => None,
    }
}

// ── Floats by bit pattern ─────────────────────────────────────────

pub open spec fn float_exponent(bits: u64) -> int {
    (bits as int / 0x10_0000_0000_0000) % 2048
}

pub open spec fn float_mantissa(bits: u64) -> int {
    bits as int % 0x10_0000_0000_0000
}

pub open spec fn float_is_nan(bits: u64) -> bool {
    float_exponent(bits) == 2047 && float_mantissa(bits) != 0
}

pub open spec fn float_is_zero(bits: u64) -> bool {
    bits == 0 || bits == 0x8000_0000_0000_0000
}

/// `==` on two binary64 values given by their bits.
pub open spec fn float_eq(a: u64, b: u64) -> bool {
    !float_is_nan(a) && !float_is_nan(b) && (a == b || (float_is_zero(a) && float_is_zero(b)))
}

pub fn float_eq_exec(a: u64, b: u64) -> (r: bool)
    ensures
        r == float_eq(a, b),
{
    let na = (a / 0x10_0000_0000_0000) % 2048 == 2047 && a % 0x10_0000_0000_0000 != 0;
    let nb = (b / 0x10_0000_0000_0000) % 2048 == 2047 && b % 0x10_0000_0000_0000 != 0;
    let za = a == 0 || a == 0x8000_0000_0000_0000;
    let zb = b == 0 || b == 0x8000_0000_0000_0000;
    !na && !nb && (a == b || (za && zb))
}

// ── Equality ───────────────────────────────────────────────────────

/// serde_json's `==` on numbers.
pub open spec fn number_eq(a: NumberView, b: NumberView) -> bool {
    match (a, b) {
        (NumberView::PosInt(x), NumberView::PosInt(y)) => x == y,
        (NumberView::NegInt(x), NumberView::NegInt(y)) => x == y,
        (NumberView::Float(x, _), NumberView::Float(y, _)) => float_eq(x, y),
        _ => false,
    }
}

/// serde_json's `==` on values: objects are equal when they have the
/// same number of entries and each entry of the first has an equal entry
/// under the same key in the second (map equality, whatever the order).
pub open spec fn json_eq(a: JsonView, b: JsonView) -> bool
    decreases a, 0int,
{
    match (a, b) {
        (JsonView::Null, JsonView::Null) => true,
        (JsonView::Bool(x), JsonView::Bool(y)) => x == y,
        (JsonView::Number(x), JsonView::Number(y)) => number_eq(x, y),
        (JsonView::String(x), JsonView::String(y)) => x == y,
        (JsonView::Array(x), JsonView::Array(y)) => x.len() == y.len() && forall|i: int|
            0 <= i < x.len() ==> json_eq(#[trigger] x[i], y[i]),
        (JsonView::Object(x), JsonView::Object(y)) => x.len() == y.len() && forall|i: int|
            0 <= i < x.len() ==> has_equal_entry(y, (#[trigger] x[i]).0, x[i].1),
        _ => false,
    }
}

/// `entries` has an entry under key `k` whose value equals `v`.
pub open spec fn has_equal_entry(entries: Seq<(Seq<char>, JsonView)>, k: Seq<char>, v: JsonView) -> bool
    decreases v, 1int,
{
    exists|j: int| 0 <= j < entries.len() && (#[trigger] entries[j]).0 == k && json_eq(v, entries[j].1)
}

/// No float in `v` is a NaN (serde_json never holds one).
pub open spec fn json_no_nan(v: JsonView) -> bool
    decreases v,
{
    match v {
        JsonView::Number(NumberView::Float(b, _)) => !float_is_nan(b),
        JsonView::Array(x) => forall|i: int| 0 <= i < x.len() ==> json_no_nan(#[trigger] x[i]),
        JsonView::Object(x) => forall|i: int| 0 <= i < x.len() ==> json_no_nan(#[trigger] x[i].1),
        _ => true,
    }
}

/// JSON equality is reflexive on NaN-free values.
pub proof fn lemma_json_eq_refl(v: JsonView)
    requires
        json_no_nan(v),
    ensures
        json_eq(v, v),
    decreases v,
{
    match v {
        JsonView::Array(x) => {
            assert forall|i: int| 0 <= i < x.len() implies json_eq(#[trigger] x[i], x[i]) by {
                lemma_json_eq_refl(x[i]);
            }
        },
        JsonView::Object(x) => {
            assert forall|i: int| 0 <= i < x.len() implies has_equal_entry(x, (#[trigger] x[i]).0, x[i].1) by {
                lemma_json_eq_refl(x[i].1);
                assert(0 <= i < x.len() && x[i].0 == x[i].0 && json_eq(x[i].1, x[i].1));
            }
        },
        _ => {},
    }
}

pub fn number_eq_exec(a: &JsonNumber, b: &JsonNumber) -> (r: bool)
    ensures
        r == number_eq(number_view(*a), number_view(*b)),
{
    match (a, b) {
        (JsonNumber::PosInt(x), JsonNumber::PosInt(y)) => *x == *y,
        (JsonNumber::NegInt(x), JsonNumber::NegInt(y)) => *x == *y,
        (JsonNumber::Float(x), JsonNumber::Float(y)) => float_eq_exec(x.bits, y.bits),
        _ => false,
    }
}

#[verifier::loop_isolation(false)]
pub fn json_eq_exec(a: &JsonValue, b: &JsonValue) -> (r: bool)
    ensures
        r == json_eq(a@, b@),
    decreases a,
{
    match (a, b) {
        (JsonValue::Null, JsonValue::Null) => true,
        (JsonValue::Bool(x), JsonValue::Bool(y)) => *x == *y,
        (JsonValue::Number(x), JsonValue::Number(y)) => number_eq_exec(x, y),
        (JsonValue::String(x), JsonValue::String(y)) => chars_eq(&chars_of(x.as_str()), &chars_of(y.as_str())),
        (JsonValue::Array(x), JsonValue::Array(y)) => {
            proof {
                lemma_array_view(*x);
                lemma_array_view(*y);
            }
            if x.len() != y.len() {
                return false;
            }
            let mut i: usize = 0;
            while i < x.len()
                invariant
                    x.len() == y.len(),
                    i <= x.len(),
                    forall|j: int| 0 <= j < i ==> json_eq(#[trigger] json_view(x@[j]), json_view(y@[j])),
                decreases x.len() - i,
            {
                assert(decreases_to!(*x => x[i as int]));
                if !json_eq_exec(&x[i], &y[i]) {
                    assert(json_views(x@)[i as int] == json_view(x@[i as int]));
                    assert(json_views(y@)[i as int] == json_view(y@[i as int]));
                    return false;
                }
                i += 1;
            }
            true
        },
        (JsonValue::Object(x), JsonValue::Object(y)) => {
            proof {
                lemma_object_view(*x);
                lemma_object_view(*y);
            }
            if x.len() != y.len() {
                return false;
            }
            let ghost ys = entry_views(y@);
            let mut i: usize = 0;
            while i < x.len()
                invariant
                    x.len() == y.len(),
                    i <= x.len(),
                    ys == entry_views(y@),
                    ys.len() == y@.len(),
                    forall|k: int| 0 <= k < i ==> has_equal_entry(ys, (#[trigger] entry_views(x@)[k]).0, entry_views(x@)[k].1),
                decreases x.len() - i,
            {
                assert(decreases_to!(*x => x[i as int]));
                let ghost xi = entry_views(x@)[i as int];
                assert(xi == (x@[i as int].0@, json_view(x@[i as int].1)));
                let key = chars_of(x[i].0.as_str());
                let mut found = false;
                let mut j: usize = 0;
                while j < y.len()
                    invariant
                        j <= y.len(),
                        ys == entry_views(y@),
                        ys.len() == y@.len(),
                        key@ == xi.0,
                        xi == entry_views(x@)[i as int],
                        i < x@.len(),
                        found ==> has_equal_entry(ys, xi.0, xi.1),
                        !found ==> forall|m: int| 0 <= m < j ==> !((#[trigger] ys[m]).0 == xi.0 && json_eq(xi.1, ys[m].1)),
                    decreases y.len() - j,
                {
                    assert(ys[j as int] == (y@[j as int].0@, json_view(y@[j as int].1)));
                    if !found && chars_eq(key.as_slice(), chars_of(y[j].0.as_str()).as_slice())
                        && json_eq_exec(&x[i].1, &y[j].1) {
                        found = true;
                    }
                    j += 1;
                }
                if !found {
                    proof {
                        if json_eq(a@, b@) {
                            assert(has_equal_entry(ys, xi.0, xi.1));
                            let w = choose|m: int| 0 <= m < ys.len() && (#[trigger] ys[m]).0 == xi.0 && json_eq(xi.1, ys[m].1);
                            assert(!(ys[w].0 == xi.0 && json_eq(xi.1, ys[w].1)));
                        }
                    }
                    return false;
                }
                i += 1;
            }
            assert(json_eq(a@, b@));
            true
        },
        _ => false,
    }
}

/// `v` occurs (by JSON equality) among `items` (std `[T]::contains`).
pub open spec fn json_contains(items: Seq<JsonView>, v: JsonView) -> bool {
    exists|i: int| 0 <= i < items.len() && json_eq(#[trigger] items[i], v)
}

pub open spec fn json_views(items: Seq<JsonValue>) -> Seq<JsonView> {
    Seq::new(items.len(), |i: int| json_view(items[i]))
}

pub fn json_contains_exec(items: &Vec<JsonValue>, v: &JsonValue) -> (r: bool)
    ensures
        r == json_contains(json_views(items@), v@),
{
    let mut i: usize = 0;
    while i < items.len()
        invariant
            i <= items.len(),
            forall|j: int| 0 <= j < i ==> !json_eq(#[trigger] json_view(items@[j]), v@),
        decreases items.len() - i,
    {
        if json_eq_exec(&items[i], v) {
            assert(json_views(items@)[i as int] == json_view(items@[i as int]));
            return true;
        }
        i += 1;
    }
    assert forall|j: int| 0 <= j < items.len() implies !json_eq(#[trigger] json_views(items@)[j], v@) by {
        assert(json_views(items@)[j] == json_view(items@[j]));
    }
    false
}

// ── Sameness and copying ───────────────────────────────────────────

pub fn clone_string(s: &String) -> (r: String)
    ensures
        r == *s,
        r@ == s@,
{
    s.clone()
}

#[verifier::loop_isolation(false)]
pub fn clone_json(v: &JsonValue) -> (r: JsonValue)
    ensures
        r@ == v@,
    decreases v,
{
    match v {
        JsonValue::Null => JsonValue::Null,
        JsonValue::Bool(b) => JsonValue::Bool(*b),
        JsonValue::Number(n) => JsonValue::Number(
            match n {
                JsonNumber::PosInt(x) => JsonNumber::PosInt(*x),
                JsonNumber::NegInt(x) => JsonNumber::NegInt(*x),
                JsonNumber::Float(f) => JsonNumber::Float(FloatNumber { bits: f.bits, text: clone_string(&f.text) }),
            },
        ),
        JsonValue::String(s) => JsonValue::String(clone_string(s)),
        JsonValue::Array(items) => {
            let mut out: Vec<JsonValue> = Vec::new();
            let mut i: usize = 0;
            while i < items.len()
                invariant
                    i <= items.len(),
                    out.len() == i,
                    forall|j: int| 0 <= j < i ==> json_view(#[trigger] out@[j]) == json_view(items@[j]),
                decreases items.len() - i,
            {
                assert(decreases_to!(*items => items[i as int]));
                out.push(clone_json(&items[i]));
                i += 1;
            }
            let r = JsonValue::Array(out);
            proof {
                let a = json_view(r);
                let b = json_view(*v);
                match (a, b) {
                    (JsonView::Array(x), JsonView::Array(y)) => {
                        assert(x =~= y);
                    },
                    _ => {},
                }
            }
            r
        },
        JsonValue::Object(entries) => {
            let mut out: Vec<(String, JsonValue)> = Vec::new();
            let mut i: usize = 0;
            while i < entries.len()
                invariant
                    i <= entries.len(),
                    out.len() == i,
                    forall|j: int|
                        0 <= j < i ==> (#[trigger] out@[j]).0@ == entries@[j].0@ && json_view(out@[j].1) == json_view(entries@[j].1),
                decreases entries.len() - i,
            {
                assert(decreases_to!(*entries => entries[i as int]));
                let k = clone_string(&entries[i].0);
                let val = clone_json(&entries[i].1);
                out.push((k, val));
                i += 1;
            }
            let r = JsonValue::Object(out);
            proof {
                let a = json_view(r);
                let b = json_view(*v);
                match (a, b) {
                    (JsonView::Object(x), JsonView::Object(y)) => {
                        assert(x =~= y);
                    },
                    _ => {},
                }
            }
            r
        },
    }
}

impl Clone for JsonValue {
    fn clone(&self) -> (r: Self)
        ensures
            r@ == self@,
    {
        clone_json(self)
    }
}

pub fn clone_opt_json(v: &Option<JsonValue>) -> (r: Option<JsonValue>)
    ensures
        opt_json_view(r) == opt_json_view(*v),
{
    match v {
        Some(x) => Some(clone_json(x)),
        None => None,
    }
}

pub open spec fn opt_json_eq(a: Option<JsonView>, b: Option<JsonView>) -> bool {
    match (a, b) {
        (Some(x), Some(y)) => json_eq(x, y),
        (None, None) => true,
        _ => false,
    }
}

pub fn opt_json_eq_exec(a: &Option<JsonValue>, b: &Option<JsonValue>) -> (r: bool)
    ensures
        r == opt_json_eq(opt_json_view(*a), opt_json_view(*b)),
{
    match (a, b) {
        (Some(x), Some(y)) => json_eq_exec(x, y),
        (None, None) => true,
        _ => false,
    }
}

// ── Kinds ──────────────────────────────────────────────────────────

/// The label the schema validator prints for a value's kind.
pub open spec fn value_type_label(v: JsonView) -> Seq<char> {
    match v {
        JsonView::Null => "null"@,
        JsonView::Bool(_) => "bool"@,
        JsonView::Number(_) => "number"@,
        JsonView::String(_) => "string"@,
        JsonView::Array(_) => "array"@,
        JsonView::Object(_) => "object"@,
    }
}

pub fn value_type_label_exec(v: &JsonValue) -> (r: &'static str)
    ensures
        r@ == value_type_label(v@),
{
    match v {
        JsonValue::Null => "null",
        JsonValue::Bool(_) => "bool",
        JsonValue::Number(_) => "number",
        JsonValue::String(_) => "string",
        JsonValue::Array(_) => "array",
        JsonValue::Object(_) => "object",
    }
}

// ── Objects as maps that keep insertion order ────────────────────

/// The first position of key `k` among `s`, if any.
pub open spec fn first_key_pos(s: Seq<(Seq<char>, JsonView)>, k: Seq<char>) -> Option<int> {
    if exists|i: int| 0 <= i < s.len() && s[i].0 == k && forall|q: int| 0 <= q < i ==> s[q].0 != k {
        Some(choose|i: int| 0 <= i < s.len() && s[i].0 == k && forall|q: int| 0 <= q < i ==> s[q].0 != k)
    } else {
        None
    }
}

/// The map's `remove(k)`: the entry under `k` is replaced by the last one.
pub open spec fn remove_key(s: Seq<(Seq<char>, JsonView)>, k: Seq<char>) -> Seq<(Seq<char>, JsonView)> {
    match first_key_pos(s, k) {
        Some(p) => s.update(p, s.last()).drop_last(),
        None => s,
    }
}

/// The map's `insert(k, v)`: replace the value under `k` in place, or
/// append the entry.
pub open spec fn insert_key(s: Seq<(Seq<char>, JsonView)>, k: Seq<char>, v: JsonView) -> Seq<(Seq<char>, JsonView)> {
    match first_key_pos(s, k) {
        Some(p) => s.update(p, (k, v)),
        None => s.push((k, v)),
    }
}

/// The position of key `k` in `entries`, the first one.
pub fn key_position(entries: &Vec<(String, JsonValue)>, k: &Vec<char>) -> (r: Option<usize>)
    ensures
        match r {
            Some(p) => first_key_pos(entry_views(entries@), k@) == Some(p as int) && p < entries@.len(),
            None => first_key_pos(entry_views(entries@), k@) is None,
        },
{
    let ghost s = entry_views(entries@);
    let mut i: usize = 0;
    while i < entries.len()
        invariant
            i <= entries@.len(),
            s == entry_views(entries@),
            forall|q: int| 0 <= q < i ==> s[q].0 != k@,
        decreases entries.len() - i,
    {
        assert(s[i as int].0 == entries@[i as int].0@);
        if chars_eq(chars_of(entries[i].0.as_str()).as_slice(), k.as_slice()) {
            proof {
                let w = choose|j: int| 0 <= j < s.len() && s[j].0 == k@ && forall|q: int| 0 <= q < j ==> s[q].0 != k@;
                if w < i {
                } else if w > i {
                    assert(s[i as int].0 != k@);
                }
            }
            return Some(i);
        }
        i += 1;
    }
    None
}

/// The map's `remove(k)` on a row.
pub fn remove_entry(entries: &mut Vec<(String, JsonValue)>, k: &Vec<char>) -> (r: Option<JsonValue>)
    ensures
        entry_views(final(entries)@) == remove_key(entry_views(old(entries)@), k@),
        match first_key_pos(entry_views(old(entries)@), k@) {
            Some(p) => r matches Some(v) && v@ == entry_views(old(entries)@)[p].1,
            None => r is None,
        },
{
    match key_position(entries, k) {
        Some(p) => {
            let ghost s = entry_views(entries@);
            let (_, v) = entries.swap_remove(p);
            assert(entry_views(entries@) =~= s.update(p as int, s.last()).drop_last());
            Some(v)
        },
        None => None,
    }
}

/// The map's `insert(k, v)` on a row.
pub fn insert_entry(entries: &mut Vec<(String, JsonValue)>, k: String, v: JsonValue)
    ensures
        entry_views(final(entries)@) == insert_key(entry_views(old(entries)@), k@, v@),
{
    let kc = chars_of(k.as_str());
    let ghost s = entry_views(entries@);
    let ghost kv = (k@, v@);
    match key_position(entries, &kc) {
        Some(p) => {
            entries.set(p, (k, v));
            assert(entry_views(entries@) =~= s.update(p as int, kv));
        },
        None => {
            entries.push((k, v));
            assert(entry_views(entries@) =~= s.push(kv));
        },
    }
}

/// A copy of an object's entries.
pub fn clone_entries(v: &Vec<(String, JsonValue)>) -> (r: Vec<(String, JsonValue)>)
    ensures
        entry_views(r@) == entry_views(v@),
{
    let mut out: Vec<(String, JsonValue)> = Vec::new();
    let mut i: usize = 0;
    while i < v.len()
        invariant
            i <= v@.len(),
            entry_views(out@) == entry_views(v@).subrange(0, i as int),
        decreases v.len() - i,
    {
        let ghost before = out@;
        out.push((clone_string(&v[i].0), clone_json(&v[i].1)));
        assert(entry_views(out@) =~= entry_views(before).push((v@[i as int].0@, json_view(v@[i as int].1))));
        i += 1;
        assert(entry_views(out@) =~= entry_views(v@).subrange(0, i as int));
    }
    assert(entry_views(v@).subrange(0, v@.len() as int) =~= entry_views(v@));
    out
}


// ── Compact JSON text ──────────────────────────────────────────────

/// A lower-case hexadecimal digit.
pub open spec fn hex_char(d: int) -> char {
    if d < 10 {
        (('0' as int) + d) as char
    } else {
        (('a' as int) + d - 10) as char
    }
}

/// How serde_json writes a character inside a string: `"` and `\` and the
/// control characters escaped (`\b \t \n \f \r`, others as `\u00XX`).
pub open spec fn escape_char(c: char) -> Seq<char> {
    if c == '"' {
        seq!['\\', '"']
    } else if c == '\\' {
        seq!['\\', '\\']
    } else if c == '\u{8}' {
        seq!['\\', 'b']
    } else if c == '\t' {
        seq!['\\', 't']
    } else if c == '\n' {
        seq!['\\', 'n']
    } else if c == '\u{c}' {
        seq!['\\', 'f']
    } else if c == '\r' {
        seq!['\\', 'r']
    } else if (c as u32) < 0x20 {
        seq!['\\', 'u', '0', '0', hex_char((c as u32) as int / 16), hex_char((c as u32) as int % 16)]
    } else {
        seq![c]
    }
}

/// A string's characters, escaped.
pub open spec fn escaped(s: Seq<char>) -> Seq<char>
    decreases s.len(),
{
    if s.len() == 0 {
        Seq::empty()
    } else {
        escaped(s.drop_last()) + escape_char(s.last())
    }
}

/// A string as a JSON string literal.
pub open spec fn quoted_text(s: Seq<char>) -> Seq<char> {
    seq!['"'] + escaped(s) + seq!['"']
}

/// The compact JSON text of a value (serde_json's `Value::to_string`):
/// numbers as they print, strings quoted and escaped, members in order.
pub open spec fn json_text(v: JsonView) -> Seq<char>
    decreases v, 1int, 0int,
{
    match v {
        JsonView::Null => "null"@,
        JsonView::Bool(b) => if b { "true"@ } else { "false"@ },
        JsonView::Number(n) => crate::schema::validator::number_text(n),
        JsonView::String(s) => quoted_text(s),
        JsonView::Array(items) => seq!['['] + items_text(items, items.len() as int) + seq![']'],
        JsonView::Object(entries) => seq!['{'] + members_text(entries, entries.len() as int) + seq!['}'],
    }
}

/// The texts of `items[0..n]`, comma-separated.
pub open spec fn items_text(items: Seq<JsonView>, n: int) -> Seq<char>
    decreases JsonView::Array(items), 0int, n,
{
    if n <= 0 || n > items.len() {
        Seq::empty()
    } else {
        proof {
            let a = JsonView::Array(items);
            assert(decreases_to!(a => a->Array_0));
            assert(decreases_to!(items => items[n - 1]));
        }
        let t = json_text(items[n - 1]);
        if n == 1 {
            t
        } else {
            items_text(items, n - 1) + seq![','] + t
        }
    }
}

/// The members `entries[0..n]` as `"key":value`, comma-separated.
pub open spec fn members_text(entries: Seq<(Seq<char>, JsonView)>, n: int) -> Seq<char>
    decreases JsonView::Object(entries), 0int, n,
{
    if n <= 0 || n > entries.len() {
        Seq::empty()
    } else {
        proof {
            let o = JsonView::Object(entries);
            assert(decreases_to!(o => o->Object_0));
            assert(decreases_to!(entries => entries[n - 1]));
            assert(decreases_to!(entries[n - 1] => entries[n - 1].1));
        }
        let t = quoted_text(entries[n - 1].0) + seq![':'] + json_text(entries[n - 1].1);
        if n == 1 {
            t
        } else {
            members_text(entries, n - 1) + seq![','] + t
        }
    }
}

fn hex_char_exec(d: u32) -> (r: char)
    requires
        d < 16,
    ensures
        r == hex_char(d as int),
{
    if d < 10 {
        ((('0' as u32) + d) as u8) as char
    } else {
        ((('a' as u32) + d - 10) as u8) as char
    }
}

fn push_escaped(out: &mut Vec<char>, s: &str)
    ensures
        final(out)@ == old(out)@ + escaped(s@),
{
    let cs = chars_of(s);
    let ghost start = out@;
    let mut i: usize = 0;
    assert(cs@.take(0) =~= Seq::<char>::empty());
    assert(start + escaped(Seq::<char>::empty()) =~= start);
    while i < cs.len()
        invariant
            i <= cs@.len(),
            cs@ == s@,
            out@ == start + escaped(cs@.take(i as int)),
        decreases cs.len() - i,
    {
        let c = cs[i];
        let ghost before = out@;
        if c == '"' {
            out.push('\\');
            out.push('"');
        } else if c == '\\' {
            out.push('\\');
            out.push('\\');
        } else if c == '\u{8}' {
            out.push('\\');
            out.push('b');
        } else if c == '\t' {
            out.push('\\');
            out.push('t');
        } else if c == '\n' {
            out.push('\\');
            out.push('n');
        } else if c == '\u{c}' {
            out.push('\\');
            out.push('f');
        } else if c == '\r' {
            out.push('\\');
            out.push('r');
        } else if (c as u32) < 0x20 {
            out.push('\\');
            out.push('u');
            out.push('0');
            out.push('0');
            out.push(hex_char_exec((c as u32) / 16));
            out.push(hex_char_exec((c as u32) % 16));
        } else {
            out.push(c);
        }
        assert(out@ =~= before + escape_char(c));
        assert(cs@.take(i + 1).drop_last() =~= cs@.take(i as int));
        i += 1;
        assert(out@ =~= start + escaped(cs@.take(i as int)));
    }
    assert(cs@.take(cs@.len() as int) =~= cs@);
}

/// Append the compact JSON text of `v`.
#[verifier::loop_isolation(false)]
#[verifier::spinoff_prover]
#[verifier::rlimit(40)]
pub fn push_json_text(out: &mut Vec<char>, v: &JsonValue)
    ensures
        final(out)@ == old(out)@ + json_text(v@),
    decreases v,
{
    let ghost start = out@;
    match v {
        JsonValue::Null => crate::text::push_str_chars(out, "null"),
        JsonValue::Bool(b) => crate::text::push_str_chars(out, if *b { "true" } else { "false" }),
        JsonValue::Number(n) => {
            let t: Vec<char> = match n {
                JsonNumber::PosInt(u) => crate::text::decimal_chars(*u),
                JsonNumber::NegInt(i) => crate::text::signed_decimal_chars(*i),
                JsonNumber::Float(f) => chars_of(f.text.as_str()),
            };
            crate::text::push_chars(out, &t);
        },
        JsonValue::String(s) => {
            out.push('"');
            push_escaped(out, s.as_str());
            out.push('"');
            assert(out@ =~= start + quoted_text(s@));
        },
        JsonValue::Array(items) => {
            proof {
                lemma_array_view(*items);
            }
            let ghost iv = json_views(items@);
            out.push('[');
            let ghost head = out@;
            let mut i: usize = 0;
            while i < items.len()
                invariant
                    i <= items@.len(),
                    iv == json_views(items@),
                    out@ == head + items_text(iv, i as int),
                    *v == JsonValue::Array(*items),
                decreases items.len() - i,
            {
                assert(decreases_to!(*items => items[i as int]));
                assert(iv[i as int] == items@[i as int]@);
                if i > 0 {
                    out.push(',');
                }
                push_json_text(out, &items[i]);
                i += 1;
            }
            out.push(']');
            assert(out@ =~= start + (seq!['['] + items_text(iv, iv.len() as int) + seq![']']));
        },
        JsonValue::Object(entries) => {
            proof {
                lemma_object_view(*entries);
            }
            let ghost ev = entry_views(entries@);
            out.push('{');
            let ghost head = out@;
            let mut i: usize = 0;
            while i < entries.len()
                invariant
                    i <= entries@.len(),
                    ev == entry_views(entries@),
                    out@ == head + members_text(ev, i as int),
                    *v == JsonValue::Object(*entries),
                decreases entries.len() - i,
            {
                assert(decreases_to!(*entries => entries[i as int]));
                assert(decreases_to!(entries[i as int] => entries[i as int].1));
                assert(ev[i as int] == (entries@[i as int].0@, entries@[i as int].1@));
                if i > 0 {
                    out.push(',');
                }
                out.push('"');
                push_escaped(out, entries[i].0.as_str());
                out.push('"');
                out.push(':');
                push_json_text(out, &entries[i].1);
                i += 1;
            }
            out.push('}');
            assert(out@ =~= start + (seq!['{'] + members_text(ev, ev.len() as int) + seq!['}']));
        },
    }
}

} // verus!
