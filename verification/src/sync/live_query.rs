//! LIVE SELECT queries: the filter predicates a live query evaluates on
//! changed entities, the parser for `LIVE SELECT ... FROM ... WHERE ...`
//! statements, and the projection of an entity onto the selected fields.
//!
//! Keywords (`LIVE SELECT`, `FROM`, `WHERE`, `AND`, `OR`, `CONTAINS`,
//! `IN`) are matched ignoring ASCII case.  Reading a float from text and
//! comparing numbers are floating-point steps supplied by the caller
//! through [`NumericOps`]; the contracts below state outcomes over the
//! spec functions that name those steps' results.
use vstd::prelude::*;
use crate::json::{
    FloatNumber, JsonNumber, JsonValue, JsonView, NumberView, clone_json, first_key_pos, json_contains, json_eq,
    json_views, lemma_array_view, lemma_object_view,
};
use crate::text::{
    all_ascii, ascii_upper_seq, chars_of, chars_eq, first_occurrence, has_prefix, has_suffix, occurs_at, parse_i64,
    parse_i64_exec, push_chars, push_str_chars, slice_chars, string_of, trim, trim_chars, find_chars, starts_with,
};

verus! {

// ── Floating-point steps ───────────────────────────────────────────

/// How a numeric predicate compares.
#[derive(Debug, Clone, Copy, PartialEq, Eq, Structural)]
pub enum Comparison {
    Gt,
    Gte,
    Lt,
    Lte,
}

/// The floating-point steps of live queries.
pub trait NumericOps {
    /// What `parse_float` gives for a text: the bits and text of the
    /// number, as `FloatNumber` holds them.
    closed spec fn parsed_float(&self, text: Seq<char>) -> Option<Option<(u64, Seq<char>)>> {
        arbitrary()
    }

    /// `str::parse::<f64>` of a literal: `None` when the text is no float;
    /// `Some(None)` when it is one but not finite; otherwise the number.
    fn parse_float(&self, text: &str) -> (r: Option<Option<FloatNumber>>)
        ensures
            match r {
                Some(Some(f)) => self.parsed_float(text@) == Some(Some((f.bits, f.text@))),
                Some(None) => self.parsed_float(text@) == Some(None::<(u64, Seq<char>)>),
                None => self.parsed_float(text@) is None,
            },
    ;

    /// What `compare` gives for a field (absent or a value), a threshold
    /// and a comparison.
    /// An implementation's own result: the one given here is left
    /// unspecified.
    closed spec fn compared(&self, field: Option<JsonView>, threshold: JsonView, cmp: Comparison) -> bool {
        arbitrary()
    }

    /// `field <cmp> threshold` on the `f64` values of numbers and numeric
    /// strings; `false` when either has none (or the field is absent).
    fn compare(&self, field: Option<&JsonValue>, threshold: &JsonValue, cmp: Comparison) -> (r: bool)
        ensures
            r == self.compared(
                match field {
                    Some(f) => Some(f@),
                    None => None,
                },
                threshold@,
                cmp,
            ),
    ;
}

// ── Filter predicates ──────────────────────────────────────────────

/// A parsed WHERE-clause filter for live query evaluation.
#[derive(Debug)]
pub enum FilterPredicate {
    /// field = value
    Eq { field: String, value: JsonValue },
    /// field != value
    Ne { field: String, value: JsonValue },
    /// field > value (numeric comparison)
    Gt { field: String, value: JsonValue },
    /// field >= value (numeric comparison)
    Gte { field: String, value: JsonValue },
    /// field < value (numeric comparison)
    Lt { field: String, value: JsonValue },
    /// field <= value (numeric comparison)
    Lte { field: String, value: JsonValue },
    /// field CONTAINS value (string contains or array contains)
    Contains { field: String, value: JsonValue },
    /// field IN [values...] (membership check)
    In { field: String, values: Vec<JsonValue> },
    /// All sub-predicates must be true
    And { predicates: Vec<FilterPredicate> },
    /// At least one sub-predicate must be true
    Or { predicates: Vec<FilterPredicate> },
    /// Negation of a sub-predicate
    Not { predicate: Box<FilterPredicate> },
    /// Always matches (no WHERE clause)
    All,
}

/// The mathematical shape of a [`FilterPredicate`].
pub enum PredView {
    Eq(Seq<char>, JsonView),
    Ne(Seq<char>, JsonView),
    Cmp(Comparison, Seq<char>, JsonView),
    Contains(Seq<char>, JsonView),
    In(Seq<char>, Seq<JsonView>),
    And(Seq<PredView>),
    Or(Seq<PredView>),
    Not(Box<PredView>),
    All,
}

pub open spec fn pred_view(p: FilterPredicate) -> PredView
    decreases p,
{
    match p {
        FilterPredicate::Eq { field, value } => PredView::Eq(field@, value@),
        FilterPredicate::Ne { field, value } => PredView::Ne(field@, value@),
        FilterPredicate::Gt { field, value } => PredView::Cmp(Comparison::Gt, field@, value@),
        FilterPredicate::Gte { field, value } => PredView::Cmp(Comparison::Gte, field@, value@),
        FilterPredicate::Lt { field, value } => PredView::Cmp(Comparison::Lt, field@, value@),
        FilterPredicate::Lte { field, value } => PredView::Cmp(Comparison::Lte, field@, value@),
        FilterPredicate::Contains { field, value } => PredView::Contains(field@, value@),
        FilterPredicate::In { field, values } => PredView::In(field@, json_views(values@)),
        FilterPredicate::And { predicates } => PredView::And(
            Seq::new(
                predicates@.len(),
                |i: int| if 0 <= i < predicates@.len() { pred_view(predicates@[i]) } else { PredView::All },
            ),
        ),
        FilterPredicate::Or { predicates } => PredView::Or(
            Seq::new(
                predicates@.len(),
                |i: int| if 0 <= i < predicates@.len() { pred_view(predicates@[i]) } else { PredView::All },
            ),
        ),
        FilterPredicate::Not { predicate } => PredView::Not(Box::new(pred_view(*predicate))),
        FilterPredicate::All => PredView::All,
    }
}

impl View for FilterPredicate {
    type V = PredView;

    open spec fn view(&self) -> PredView {
        pred_view(*self)
    }
}

pub open spec fn pred_views(ps: Seq<FilterPredicate>) -> Seq<PredView> {
    Seq::new(ps.len(), |i: int| pred_view(ps[i]))
}

proof fn lemma_and_view(ps: Vec<FilterPredicate>)
    ensures
        pred_view(FilterPredicate::And { predicates: ps }) == PredView::And(pred_views(ps@)),
        pred_view(FilterPredicate::Or { predicates: ps }) == PredView::Or(pred_views(ps@)),
{
    match pred_view(FilterPredicate::And { predicates: ps }) {
        PredView::And(a) => {
            assert(a =~= pred_views(ps@));
        },
        _ => {},
    }
    match pred_view(FilterPredicate::Or { predicates: ps }) {
        PredView::Or(a) => {
            assert(a =~= pred_views(ps@));
        },
        _ => {},
    }
}

/// The member `field` of an object (`Value::get`); `None` for anything
/// else.
pub open spec fn get_field(entity: JsonView, field: Seq<char>) -> Option<JsonView> {
    match entity {
        JsonView::Object(entries) => match first_key_pos(entries, field) {
            Some(p) => Some(entries[p].1),
            None => None,
        },
        _ => None,
    }
}

/// `p` occurs somewhere in `s` (`str::contains`).
pub open spec fn contains_text(s: Seq<char>, p: Seq<char>) -> bool {
    exists|i: int| occurs_at(s, p, i)
}

/// Whether `p` holds of `entity`:
/// - `=` holds when the field is present and equal, `!=` when it is
///   absent or different;
/// - a numeric comparison is what `ops` compares the field (or its
///   absence) and the value to;
/// - `CONTAINS`: a string field containing the string value, or an array
///   field holding the value;
/// - `IN`: the field is present and one of the values;
/// - `AND` / `OR` hold when all / some of their parts hold (evaluated in
///   order, stopping at the first false / true); `NOT` negates.
pub open spec fn matches_spec<O: NumericOps>(ops: O, p: PredView, e: JsonView) -> bool
    decreases p, 1int, 0int,
{
    match p {
        PredView::All => true,
        PredView::Eq(f, v) => match get_field(e, f) {
            Some(x) => json_eq(x, v),
            None => false,
        },
        PredView::Ne(f, v) => match get_field(e, f) {
            Some(x) => !json_eq(x, v),
            None => true,
        },
        PredView::Cmp(c, f, v) => ops.compared(get_field(e, f), v, c),
        PredView::Contains(f, v) => match get_field(e, f) {
            Some(JsonView::String(s)) => match v {
                JsonView::String(n) => contains_text(s, n),
                _ => false,
            },
            Some(JsonView::Array(a)) => json_contains(a, v),
            _ => false,
        },
        PredView::In(f, vs) => match get_field(e, f) {
            Some(x) => json_contains(vs, x),
            None => false,
        },
        PredView::And(ps) => all_from(ops, ps, 0, e),
        PredView::Or(ps) => any_from(ops, ps, 0, e),
        PredView::Not(q) => !matches_spec(ops, *q, e),
    }
}

/// `ps[k..]` all hold.
pub open spec fn all_from<O: NumericOps>(ops: O, ps: Seq<PredView>, k: int, e: JsonView) -> bool
    decreases PredView::And(ps), 0int, ps.len() - k,
{
    if k < 0 || k >= ps.len() {
        true
    } else {
        proof {
            let a = PredView::And(ps);
            assert(decreases_to!(a => a->And_0));
            assert(decreases_to!(ps => ps[k]));
        }
        matches_spec(ops, ps[k], e) && all_from(ops, ps, k + 1, e)
    }
}

/// Some of `ps[k..]` holds.
pub open spec fn any_from<O: NumericOps>(ops: O, ps: Seq<PredView>, k: int, e: JsonView) -> bool
    decreases PredView::Or(ps), 0int, ps.len() - k,
{
    if k < 0 || k >= ps.len() {
        false
    } else {
        proof {
            let a = PredView::Or(ps);
            assert(decreases_to!(a => a->Or_0));
            assert(decreases_to!(ps => ps[k]));
        }
        matches_spec(ops, ps[k], e) || any_from(ops, ps, k + 1, e)
    }
}

/// `CONTAINS` on a string field holds exactly when the needle occurs in
/// the field's text at some position, at the start or anywhere after it.
pub proof fn lemma_contains_anywhere<O: NumericOps>(ops: O, e: JsonView, f: Seq<char>, s: Seq<char>, n: Seq<char>)
    requires
        get_field(e, f) == Some(JsonView::String(s)),
    ensures
        matches_spec(ops, PredView::Contains(f, JsonView::String(n)), e) <==> exists|i: int|
            0 <= i && i + n.len() <= s.len() && #[trigger] s.subrange(i, i + n.len()) == n,
{
    if matches_spec(ops, PredView::Contains(f, JsonView::String(n)), e) {
        let i = choose|i: int| occurs_at(s, n, i);
        assert(s.subrange(i, i + n.len()) == n);
    }
    if exists|i: int| 0 <= i && i + n.len() <= s.len() && #[trigger] s.subrange(i, i + n.len()) == n {
        let i = choose|i: int| 0 <= i && i + n.len() <= s.len() && #[trigger] s.subrange(i, i + n.len()) == n;
        assert(occurs_at(s, n, i));
    }
}

/// `CONTAINS` on an array field holds exactly when some element equals
/// the value; on a missing field it never holds.
pub proof fn lemma_contains_in_array<O: NumericOps>(ops: O, e: JsonView, f: Seq<char>, v: JsonView)
    ensures
        get_field(e, f) is None ==> !matches_spec(ops, PredView::Contains(f, v), e),
        (get_field(e, f) matches Some(JsonView::String(_)) ==> (!(v is String) ==> !matches_spec(
            ops,
            PredView::Contains(f, v),
            e,
        ))),
        (get_field(e, f) matches Some(JsonView::Array(a)) ==> (matches_spec(ops, PredView::Contains(f, v), e)
            <==> exists|i: int| 0 <= i < a.len() && json_eq(#[trigger] a[i], v))),
{
}

/// `=` holds exactly when the field is present with a value equal to the
/// given one; `IN` exactly when the field is present and equal to some
/// listed value.
pub proof fn lemma_eq_and_in<O: NumericOps>(ops: O, e: JsonView, f: Seq<char>, v: JsonView, vs: Seq<JsonView>)
    ensures
        matches_spec(ops, PredView::Eq(f, v), e) <==> (get_field(e, f) is Some && json_eq(get_field(e, f)->0, v)),
        matches_spec(ops, PredView::In(f, vs), e) <==> (get_field(e, f) is Some && exists|i: int|
            0 <= i < vs.len() && json_eq(#[trigger] vs[i], get_field(e, f)->0)),
{
}

proof fn lemma_all_from<O: NumericOps>(ops: O, ps: Seq<PredView>, k: int, e: JsonView)
    requires
        0 <= k <= ps.len(),
    ensures
        all_from(ops, ps, k, e) == (forall|i: int| k <= i < ps.len() ==> matches_spec(ops, #[trigger] ps[i], e)),
    decreases ps.len() - k,
{
    if k < ps.len() {
        lemma_all_from(ops, ps, k + 1, e);
    }
}

proof fn lemma_any_from<O: NumericOps>(ops: O, ps: Seq<PredView>, k: int, e: JsonView)
    requires
        0 <= k <= ps.len(),
    ensures
        any_from(ops, ps, k, e) == (exists|i: int| k <= i < ps.len() && matches_spec(ops, #[trigger] ps[i], e)),
    decreases ps.len() - k,
{
    if k < ps.len() {
        lemma_any_from(ops, ps, k + 1, e);
        if matches_spec(ops, ps[k], e) {
            assert(exists|i: int| k <= i < ps.len() && matches_spec(ops, #[trigger] ps[i], e));
        }
    }
}

/// How predicates combine, whatever the comparisons give: `!=` holds
/// exactly where `=` does not (an absent field included), `NOT` negates,
/// `AND` holds when every part does, `OR` when some part does, and the
/// empty filter always holds.
pub proof fn lemma_predicate_connectives<O: NumericOps>(
    ops: O,
    e: JsonView,
    f: Seq<char>,
    v: JsonView,
    p: PredView,
    ps: Seq<PredView>,
)
    ensures
        matches_spec(ops, PredView::Ne(f, v), e) == !matches_spec(ops, PredView::Eq(f, v), e),
        matches_spec(ops, PredView::Not(Box::new(p)), e) == !matches_spec(ops, p, e),
        matches_spec(ops, PredView::And(ps), e) == (forall|i: int| 0 <= i < ps.len() ==> matches_spec(ops, #[trigger] ps[i], e)),
        matches_spec(ops, PredView::Or(ps), e) == (exists|i: int| 0 <= i < ps.len() && matches_spec(ops, #[trigger] ps[i], e)),
        matches_spec(ops, PredView::All, e),
{
    lemma_all_from(ops, ps, 0, e);
    lemma_any_from(ops, ps, 0, e);
}

fn field_of<'a>(entity: &'a JsonValue, field: &String) -> (r: Option<&'a JsonValue>)
    ensures
        match get_field(entity@, field@) {
            Some(v) => r matches Some(x) && x@ == v,
            None => r is None,
        },
{
    match entity {
        JsonValue::Object(entries) => {
            proof {
                lemma_object_view(*entries);
            }
            match crate::json::key_position(entries, &chars_of(field.as_str())) {
                Some(p) => Some(&entries[p].1),
                None => None,
            }
        },
        _ => None,
    }
}

impl FilterPredicate {
    /// Evaluate this predicate against an entity (a JSON object).
    pub fn matches<O: NumericOps>(&self, entity: &JsonValue, ops: &O) -> (r: bool)
        ensures
            r == matches_spec(*ops, self@, entity@),
        decreases self,
    {
        match self {
            FilterPredicate::All => true,
            FilterPredicate::Eq { field, value } => match field_of(entity, field) {
                Some(v) => crate::json::json_eq_exec(v, value),
                None => false,
            },
            FilterPredicate::Ne { field, value } => match field_of(entity, field) {
                Some(v) => !crate::json::json_eq_exec(v, value),
                None => true,
            },
            FilterPredicate::Gt { field, value } => ops.compare(field_of(entity, field), value, Comparison::Gt),
            FilterPredicate::Gte { field, value } => ops.compare(field_of(entity, field), value, Comparison::Gte),
            FilterPredicate::Lt { field, value } => ops.compare(field_of(entity, field), value, Comparison::Lt),
            FilterPredicate::Lte { field, value } => ops.compare(field_of(entity, field), value, Comparison::Lte),
            FilterPredicate::Contains { field, value } => match field_of(entity, field) {
                Some(JsonValue::String(s)) => match value {
                    JsonValue::String(n) => find_chars(chars_of(s.as_str()).as_slice(), chars_of(n.as_str()).as_slice()).is_some(),
                    _ => false,
                },
                Some(JsonValue::Array(arr)) => {
                    proof {
                        lemma_array_view(*arr);
                    }
                    crate::json::json_contains_exec(arr, value)
                },
                _ => false,
            },
            FilterPredicate::In { field, values } => match field_of(entity, field) {
                Some(v) => crate::json::json_contains_exec(values, v),
                None => false,
            },
            FilterPredicate::And { predicates } => {
                proof {
                    lemma_and_view(*predicates);
                }
                let ghost pv = pred_views(predicates@);
                let mut i: usize = 0;
                while i < predicates.len()
                    invariant
                        i <= predicates@.len(),
                        pv == pred_views(predicates@),
                        *self == (FilterPredicate::And { predicates: *predicates }),
                        self@ == PredView::And(pv),
                        all_from(*ops, pv, 0, entity@) == all_from(*ops, pv, i as int, entity@),
                    decreases predicates.len() - i,
                {
                    assert(decreases_to!(*predicates => predicates[i as int]));
                    assert(pv[i as int] == predicates@[i as int]@);
                    if !predicates[i].matches(entity, ops) {
                        return false;
                    }
                    i += 1;
                }
                true
            },
            FilterPredicate::Or { predicates } => {
                proof {
                    lemma_and_view(*predicates);
                }
                let ghost pv = pred_views(predicates@);
                let mut i: usize = 0;
                while i < predicates.len()
                    invariant
                        i <= predicates@.len(),
                        pv == pred_views(predicates@),
                        *self == (FilterPredicate::Or { predicates: *predicates }),
                        self@ == PredView::Or(pv),
                        any_from(*ops, pv, 0, entity@) == any_from(*ops, pv, i as int, entity@),
                    decreases predicates.len() - i,
                {
                    assert(decreases_to!(*predicates => predicates[i as int]));
                    assert(pv[i as int] == predicates@[i as int]@);
                    if predicates[i].matches(entity, ops) {
                        return true;
                    }
                    i += 1;
                }
                false
            },
            FilterPredicate::Not { predicate } => !predicate.matches(entity, ops),
        }
    }
}


// ── Literals ───────────────────────────────────────────────────────

/// What a parsing step gives: its result or its error.
pub enum Parsed<T> {
    Done(T),
    Failed(Seq<char>),
}

pub open spec fn lower_ascii(s: Seq<char>) -> Seq<char> {
    crate::text::ascii_lower_seq(s)
}

/// A mantissa: digits, with at most one `.` and at least one digit.
#[verifier::opaque]
pub open spec fn mantissa_ok(m: Seq<char>) -> bool {
    match find_in(m, seq!['.']) {
        None => m.len() > 0 && crate::text::all_digits(m),
        Some(d) => m.len() > 1 && crate::text::all_digits(m.take(d)) && crate::text::all_digits(m.skip(d + 1)),
    }
}

/// An exponent after `e`: an optional sign and digits.
#[verifier::opaque]
pub open spec fn exponent_ok(x: Seq<char>) -> bool {
    let y = if x.len() > 0 && (x[0] == '+' || x[0] == '-') { x.drop_first() } else { x };
    y.len() > 0 && crate::text::all_digits(y)
}

/// Text that `str::parse::<f64>` accepts (its documented grammar, on the
/// lower-cased text): an optional sign, then `inf`, `infinity`, `nan`, or
/// a decimal number with an optional exponent.
pub open spec fn float_text(s: Seq<char>) -> bool {
    let l = lower_ascii(s);
    let b = if l.len() > 0 && (l[0] == '+' || l[0] == '-') { l.drop_first() } else { l };
    ||| b == "inf"@
    ||| b == "infinity"@
    ||| b == "nan"@
    ||| decimal_ok(b)
}

fn find_char(s: &Vec<char>, c: char) -> (r: Option<usize>)
    ensures
        match r {
            Some(j) => find_in(s@, seq![c]) == Some(j as int) && j < s@.len(),
            None => find_in(s@, seq![c]) is None,
        },
{
    reveal(find_in);
    let p = vec![c];
    assert(p@ =~= seq![c]);
    let n = s.len();
    let r = crate::text::find_first(s.as_slice(), p.as_slice());
    assert(s@.len() == n);
    r
}

fn all_digits_exec(s: &Vec<char>) -> (r: bool)
    ensures
        r == crate::text::all_digits(s@),
{
    let mut i: usize = 0;
    while i < s.len()
        invariant
            i <= s@.len(),
            forall|j: int| 0 <= j < i ==> crate::text::is_digit(#[trigger] s@[j]),
        decreases s.len() - i,
    {
        if !('0' <= s[i] && s[i] <= '9') {
            return false;
        }
        i += 1;
    }
    true
}

fn mantissa_ok_exec(m: &Vec<char>) -> (r: bool)
    ensures
        r == mantissa_ok(m@),
{
    reveal(mantissa_ok);
    match find_char(m, '.') {
        None => m.len() > 0 && all_digits_exec(m),
        Some(d) => {
            let a = slice_chars(m, 0, d);
            let n = m.len();
            assert(d < n);
            let b = slice_chars(m, d + 1, n);
            assert(a@ =~= m@.take(d as int));
            assert(b@ =~= m@.skip(d + 1));
            m.len() > 1 && all_digits_exec(&a) && all_digits_exec(&b)
        },
    }
}

fn exponent_ok_exec(x: &Vec<char>) -> (r: bool)
    ensures
        r == exponent_ok(x@),
{
    reveal(exponent_ok);
    let y = if x.len() > 0 && (x[0] == '+' || x[0] == '-') {
        let y = slice_chars(x, 1, x.len());
        assert(y@ =~= x@.drop_first());
        y
    } else {
        slice_chars(x, 0, x.len())
    };
    assert(x@.subrange(0, x@.len() as int) =~= x@);
    y.len() > 0 && all_digits_exec(&y)
}

fn lower_ascii_exec(s: &Vec<char>) -> (r: Vec<char>)
    ensures
        r@ == lower_ascii(s@),
{
    let mut out: Vec<char> = Vec::new();
    let mut i: usize = 0;
    while i < s.len()
        invariant
            i <= s@.len(),
            out@ == lower_ascii(s@.take(i as int)),
        decreases s.len() - i,
    {
        out.push(crate::text::ascii_lower_exec(s[i]));
        i += 1;
        assert(out@ =~= lower_ascii(s@.take(i as int)));
    }
    assert(s@.take(s@.len() as int) =~= s@);
    out
}

fn float_text_exec(s: &Vec<char>) -> (r: bool)
    ensures
        r == float_text(s@),
{
    let l = lower_ascii_exec(s);
    let b = if l.len() > 0 && (l[0] == '+' || l[0] == '-') {
        let b = slice_chars(&l, 1, l.len());
        assert(b@ =~= l@.drop_first());
        b
    } else {
        assert(l@.subrange(0, l@.len() as int) =~= l@);
        slice_chars(&l, 0, l.len())
    };
    if chars_eq(b.as_slice(), chars_of("inf").as_slice()) || chars_eq(b.as_slice(), chars_of("infinity").as_slice())
        || chars_eq(b.as_slice(), chars_of("nan").as_slice()) {
        return true;
    }
    decimal_ok_exec(&b)
}

/// A decimal number with an optional exponent.
pub open spec fn decimal_ok(b: Seq<char>) -> bool {
    match find_in(b, seq!['e']) {
        None => mantissa_ok(b),
        Some(i) => mantissa_ok(b.take(i)) && exponent_ok(b.skip(i + 1)),
    }
}

fn decimal_ok_exec(b: &Vec<char>) -> (r: bool)
    ensures
        r == decimal_ok(b@),
{
    match find_char(b, 'e') {
        None => mantissa_ok_exec(b),
        Some(i) => {
            let m = slice_chars(b, 0, i);
            let n = b.len();
            assert(i < n);
            let x = slice_chars(b, i + 1, n);
            assert(m@ =~= b@.take(i as int));
            assert(x@ =~= b@.skip(i + 1));
            mantissa_ok_exec(&m) && exponent_ok_exec(&x)
        },
    }
}

/// A literal is quoted: it starts and ends with the same quote character.
pub open spec fn quoted(s: Seq<char>) -> bool {
    s.len() > 0 && ((s[0] == '\'' && s.last() == '\'') || (s[0] == '"' && s.last() == '"'))
}

/// A value literal of a WHERE clause (after trimming): a quoted string,
/// `true` / `false`, `null` / `none` (ignoring ASCII case), an `i64`, a
/// float as `ops` reads it (an error when it is not finite; the text as a
/// string when `ops` reads no float), or else the text itself as a string.
pub open spec fn literal_spec<O: NumericOps>(ops: O, t: Seq<char>) -> Parsed<JsonView> {
    let s = trim(t);
    if quoted(s) {
        if s.len() < 2 {
            Parsed::Failed("unterminated quoted literal"@)
        } else {
            Parsed::Done(JsonView::String(s.subrange(1, s.len() - 1)))
        }
    } else if lower_ascii(s) == "true"@ {
        Parsed::Done(JsonView::Bool(true))
    } else if lower_ascii(s) == "false"@ {
        Parsed::Done(JsonView::Bool(false))
    } else if lower_ascii(s) == "null"@ || lower_ascii(s) == "none"@ {
        Parsed::Done(JsonView::Null)
    } else {
        match parse_i64(s) {
            Some(i) => Parsed::Done(JsonView::Number(crate::schema::validator::number_of_i64(i as i64))),
            None => if float_text(s) {
                match ops.parsed_float(s) {
                    Some(Some((bits, text))) => Parsed::Done(JsonView::Number(NumberView::Float(bits, text))),
                    Some(None) => Parsed::Failed("invalid float"@),
                    None => Parsed::Done(JsonView::String(s)),
                }
            } else {
                Parsed::Done(JsonView::String(s))
            },
        }
    }
}

/// Literals read as what they write: the decimal text of a number up to
/// `i64::MAX` is that number; a text in single quotes is the text between
/// them.
pub proof fn lemma_literals_read_back<O: NumericOps>(ops: O, n: nat, x: Seq<char>)
    ensures
        n <= i64::MAX ==> literal_spec(ops, crate::text::decimal_of(n)) == Parsed::Done(
            JsonView::Number(crate::schema::validator::number_of_i64(n as i64)),
        ),
        literal_spec(ops, seq!['\''] + x + seq!['\'']) == Parsed::Done(JsonView::String(x)),
{
    reveal_strlit("true");
    reveal_strlit("false");
    reveal_strlit("null");
    reveal_strlit("none");
    if n <= i64::MAX {
        let d = crate::text::decimal_of(n);
        crate::text::lemma_decimal_round_trip(n);
        assert(crate::text::is_digit(d[0]));
        assert(!quoted(d));
        let l = lower_ascii(d);
        assert(l[0] == d[0]);
        assert(l != "true"@ && l != "false"@ && l != "null"@ && l != "none"@) by {
            assert("true"@[0] != l[0]);
            assert("false"@[0] != l[0]);
            assert("null"@[0] != l[0]);
            assert("none"@[0] != l[0]);
        }
        assert(d[0] != '-');
        assert(parse_i64(d) == Some(n as int));
    }
    let q = seq!['\''] + x + seq!['\''];
    assert(q[0] == '\'');
    assert(q.last() == '\'');
    assert(!crate::text::is_ws(q[0]));
    assert(crate::text::lead_ws(q) == 0);
    assert(crate::text::trail_ws(q) == 0);
    assert(trim(q) =~= q);
    assert(q.subrange(1, q.len() - 1) =~= x);
}

pub open spec fn outcome_of<T>(p: Parsed<T>, r: Result<T, Seq<char>>) -> bool {
    match p {
        Parsed::Done(v) => r == Ok::<T, Seq<char>>(v),
        Parsed::Failed(m) => r == Err::<T, Seq<char>>(m),
    }
}

pub open spec fn value_result(r: Result<JsonValue, String>) -> Result<JsonView, Seq<char>> {
    match r {
        Ok(v) => Ok(v@),
        Err(m) => Err(m@),
    }
}

fn message(s: &str) -> (r: String)
    ensures
        r@ == s@,
{
    string_of(chars_of(s).as_slice())
}

fn lower_is(l: &Vec<char>, word: &str) -> (r: bool)
    ensures
        r == (l@ == word@),
{
    chars_eq(l.as_slice(), chars_of(word).as_slice())
}

/// Parse a literal value from a WHERE clause.
pub fn parse_value_literal<O: NumericOps>(t: &Vec<char>, ops: &O) -> (r: Result<JsonValue, String>)
    ensures
        outcome_of(literal_spec(*ops, t@), value_result(r)),
{
    let s = trim_chars(t);
    let n = s.len();
    if n > 0 && ((s[0] == '\'' && s[n - 1] == '\'') || (s[0] == '"' && s[n - 1] == '"')) {
        if n < 2 {
            return Err(message("unterminated quoted literal"));
        }
        let inner = slice_chars(&s, 1, n - 1);
        return Ok(JsonValue::String(string_of(inner.as_slice())));
    }
    let l = lower_ascii_exec(&s);
    if lower_is(&l, "true") {
        return Ok(JsonValue::Bool(true));
    }
    if lower_is(&l, "false") {
        return Ok(JsonValue::Bool(false));
    }
    if lower_is(&l, "null") || lower_is(&l, "none") {
        return Ok(JsonValue::Null);
    }
    match parse_i64_exec(&s) {
        Some(i) => {
            return Ok(
                if i < 0 {
                    JsonValue::Number(JsonNumber::NegInt(i))
                } else {
                    JsonValue::Number(JsonNumber::PosInt(i as u64))
                },
            );
        },
        None => {},
    }
    if float_text_exec(&s) {
        let text = string_of(s.as_slice());
        return match ops.parse_float(text.as_str()) {
            Some(Some(f)) => Ok(JsonValue::Number(JsonNumber::Float(f))),
            Some(None) => Err(message("invalid float")),
            None => Ok(JsonValue::String(text)),
        };
    }
    Ok(JsonValue::String(string_of(s.as_slice())))
}


// ── Arrays of literals ─────────────────────────────────────────────

/// The literals `items[k..]`, read in order: the first error (or lone
/// quote) stops.
pub open spec fn collect_literals<O: NumericOps>(ops: O, items: Seq<Seq<char>>, k: int) -> Parsed<Seq<JsonView>>
    decreases items.len() - k,
{
    if k < 0 || k >= items.len() {
        Parsed::Done(Seq::empty())
    } else {
        match literal_spec(ops, items[k]) {
            Parsed::Done(v) => match collect_literals(ops, items, k + 1) {
                Parsed::Done(rest) => Parsed::Done(seq![v] + rest),
                other => other,
            },
            Parsed::Failed(m) => Parsed::Failed(m),
        }
    }
}

/// An array literal `[v1, v2, ...]` of an `IN` condition: its items split
/// on commas and read as literals.
pub open spec fn array_spec<O: NumericOps>(ops: O, t: Seq<char>) -> Parsed<Seq<JsonView>> {
    let s = trim(t);
    if !(has_prefix(s, "["@) && has_suffix(s, "]"@)) {
        Parsed::Failed("IN values must be an array like [1, 2, 3]"@)
    } else {
        collect_literals(ops, crate::text::split_seq(s.subrange(1, s.len() - 1), ','), 0)
    }
}

pub open spec fn values_result(r: Result<Vec<JsonValue>, String>) -> Result<Seq<JsonView>, Seq<char>> {
    match r {
        Ok(v) => Ok(json_views(v@)),
        Err(m) => Err(m@),
    }
}

pub open spec fn chars_views(v: Seq<Vec<char>>) -> Seq<Seq<char>> {
    Seq::new(v.len(), |i: int| v[i]@)
}

/// Parse an array literal like `[1, 2, 3]` or `['a', 'b']`.
pub fn parse_value_array<O: NumericOps>(t: &Vec<char>, ops: &O) -> (r: Result<Vec<JsonValue>, String>)
    ensures
        outcome_of(array_spec(*ops, t@), values_result(r)),
{
    let s = trim_chars(t);
    let lb = chars_of("[");
    let rb = chars_of("]");
    if !(starts_with(s.as_slice(), lb.as_slice()) && crate::text::ends_with(s.as_slice(), rb.as_slice())) {
        return Err(message("IN values must be an array like [1, 2, 3]"));
    }
    proof {
        reveal_strlit("[");
        reveal_strlit("]");
        assert(s@.subrange(0, 1)[0] == s@[0]);
        assert(s@.subrange(s@.len() - 1, s@.len() as int)[0] == s@[s@.len() - 1]);
        if s@.len() < 2 {
            assert(s@[0] == '[');
            assert(s@[s@.len() - 1] == ']');
        }
    }
    let inner = slice_chars(&s, 1, s.len() - 1);
    let items = crate::text::split_on(&inner, ',');
    let ghost iv = chars_views(items@);
    assert(iv =~= crate::text::split_seq(inner@, ','));
    assert(array_spec(*ops, t@) == collect_literals(*ops, iv, 0));
    let mut out: Vec<JsonValue> = Vec::new();
    let mut i: usize = 0;
    while i < items.len()
        invariant
            i <= items@.len(),
            out@.len() == i,
            iv == chars_views(items@),
            array_spec(*ops, t@) == collect_literals(*ops, iv, 0),
            collect_literals(*ops, iv, 0) == match collect_literals(*ops, iv, i as int) {
                Parsed::Done(rest) => Parsed::Done(json_views(out@) + rest),
                other => other,
            },
        decreases items.len() - i,
    {
        assert(iv[i as int] == items@[i as int]@);
        let ghost before = out@;
        match parse_value_literal(&items[i], ops) {
            Ok(v) => {
                out.push(v);
                assert(json_views(out@) =~= json_views(before).push(out@[i as int]@));
                proof {
                    match collect_literals(*ops, iv, i + 1) {
                        Parsed::Done(rest) => {
                            assert(json_views(out@) + rest =~= json_views(before) + (seq![v@] + rest));
                        },
                        _ => {},
                    }
                }
            },
            Err(m) => {
                return Err(m);
            },
        }
        i += 1;
    }
    assert(json_views(out@) + Seq::<JsonView>::empty() =~= json_views(out@));
    Ok(out)
}


// ── Conditions ─────────────────────────────────────────────────────

/// The operators of a condition, in the order they are looked for.
pub open spec fn op_name(k: int) -> Seq<char> {
    if k == 0 {
        "!="@
    } else if k == 1 {
        ">="@
    } else if k == 2 {
        "<="@
    } else if k == 3 {
        "CONTAINS"@
    } else if k == 4 {
        "IN"@
    } else if k == 5 {
        "="@
    } else if k == 6 {
        ">"@
    } else {
        "<"@
    }
}

/// What is searched for: `CONTAINS` and `IN` need a space on each side.
pub open spec fn op_search(k: int) -> Seq<char> {
    if k == 3 || k == 4 {
        " "@ + op_name(k) + " "@
    } else {
        op_name(k)
    }
}

fn op_name_exec(k: usize) -> (r: &'static str)
    ensures
        r@ == op_name(k as int),
{
    if k == 0 {
        "!="
    } else if k == 1 {
        ">="
    } else if k == 2 {
        "<="
    } else if k == 3 {
        "CONTAINS"
    } else if k == 4 {
        "IN"
    } else if k == 5 {
        "="
    } else if k == 6 {
        ">"
    } else {
        "<"
    }
}

/// The predicate of operator `k` (other than `IN`) on `field` and `v`.
pub open spec fn pred_of(k: int, field: Seq<char>, v: JsonView) -> PredView {
    if k == 0 {
        PredView::Ne(field, v)
    } else if k == 1 {
        PredView::Cmp(Comparison::Gte, field, v)
    } else if k == 2 {
        PredView::Cmp(Comparison::Lte, field, v)
    } else if k == 3 {
        PredView::Contains(field, v)
    } else if k == 5 {
        PredView::Eq(field, v)
    } else if k == 6 {
        PredView::Cmp(Comparison::Gt, field, v)
    } else {
        PredView::Cmp(Comparison::Lt, field, v)
    }
}

pub open spec fn upper(s: Seq<char>) -> Seq<char> {
    ascii_upper_seq(s)
}

/// The first position of `p` in `s` (`str::find`).
#[verifier::opaque]
pub open spec fn find_in(s: Seq<char>, p: Seq<char>) -> Option<int> {
    first_occurrence(s, p)
}

fn find_text(s: &Vec<char>, p: &Vec<char>) -> (r: Option<usize>)
    ensures
        match r {
            Some(j) => find_in(s@, p@) == Some(j as int) && j + p@.len() <= s@.len(),
            None => find_in(s@, p@) is None,
        },
{
    reveal(find_in);
    let n = s.len();
    let r = crate::text::find_first(s.as_slice(), p.as_slice());
    assert(s@.len() == n);
    r
}

/// A condition `field op value` (already trimmed), trying operators
/// `k..` in order: the first operator found anywhere in the condition
/// (ignoring ASCII case) splits it into field and value.
#[verifier::opaque]
pub open spec fn condition_from<O: NumericOps>(ops: O, c: Seq<char>, k: int) -> Parsed<PredView>
    decreases 8 - k,
{
    if k < 0 || k >= 8 {
        Parsed::Failed("could not parse condition: "@ + c)
    } else {
        match find_in(upper(c), op_search(k)) {
            None => condition_from(ops, c, k + 1),
            Some(pos) => condition_found(ops, c, k, pos),
        }
    }
}

/// The condition `c` split at operator `k` found at `pos`.
#[verifier::opaque]
pub open spec fn condition_found<O: NumericOps>(ops: O, c: Seq<char>, k: int, pos: int) -> Parsed<PredView> {
    let field = trim(c.take(pos));
    let vs = trim(c.skip(pos + op_search(k).len()));
    if field.len() == 0 {
        Parsed::Failed("missing field name before operator '"@ + op_name(k) + "'"@)
    } else {
        match literal_spec(ops, vs) {
            Parsed::Failed(m) => Parsed::Failed(m),
            Parsed::Done(v) => if k == 4 {
                match array_spec(ops, vs) {
                    Parsed::Done(vals) => Parsed::Done(PredView::In(field, vals)),
                    Parsed::Failed(m) => Parsed::Failed(m),
                }
            } else {
                Parsed::Done(pred_of(k, field, v))
            },
        }
    }
}

/// A single condition like `age > 18` or `name = 'Alice'`.
pub open spec fn condition_spec<O: NumericOps>(ops: O, t: Seq<char>) -> Parsed<PredView> {
    condition_from(ops, trim(t), 0)
}

pub open spec fn pred_result(r: Result<FilterPredicate, String>) -> Result<PredView, Seq<char>> {
    match r {
        Ok(p) => Ok(p@),
        Err(m) => Err(m@),
    }
}

fn make_pred(k: usize, field: String, value: JsonValue) -> (r: FilterPredicate)
    requires
        k < 8,
        k != 4,
    ensures
        r@ == pred_of(k as int, field@, value@),
{
    if k == 0 {
        FilterPredicate::Ne { field, value }
    } else if k == 1 {
        FilterPredicate::Gte { field, value }
    } else if k == 2 {
        FilterPredicate::Lte { field, value }
    } else if k == 3 {
        FilterPredicate::Contains { field, value }
    } else if k == 5 {
        FilterPredicate::Eq { field, value }
    } else if k == 6 {
        FilterPredicate::Gt { field, value }
    } else {
        FilterPredicate::Lt { field, value }
    }
}

fn search_chars(k: usize) -> (r: Vec<char>)
    requires
        k < 8,
    ensures
        r@ == op_search(k as int),
{
    let op = op_name_exec(k);
    let mut search: Vec<char> = Vec::new();
    if k == 3 || k == 4 {
        push_str_chars(&mut search, " ");
        push_str_chars(&mut search, op);
        push_str_chars(&mut search, " ");
    } else {
        push_str_chars(&mut search, op);
        assert(search@ =~= op@);
    }
    search
}

fn parse_found<O: NumericOps>(c: &Vec<char>, k: usize, pos: usize, ops: &O) -> (r: Result<FilterPredicate, String>)
    requires
        k < 8,
        pos + op_search(k as int).len() <= c@.len(),
    ensures
        outcome_of(condition_found(*ops, c@, k as int, pos as int), pred_result(r)),
{
    reveal(condition_found);
    let search = search_chars(k);
    let field_chars = trim_chars(&slice_chars(c, 0, pos));
    let cn = c.len();
    let vs = trim_chars(&slice_chars(c, pos + search.len(), cn));
    proof {
        assert(c@.subrange(0, pos as int) =~= c@.take(pos as int));
        assert(c@.subrange(pos + search@.len(), c@.len() as int) =~= c@.skip(pos + search@.len()));
    }
    if field_chars.len() == 0 {
        let op = op_name_exec(k);
        let mut m: Vec<char> = Vec::new();
        push_str_chars(&mut m, "missing field name before operator '");
        push_str_chars(&mut m, op);
        push_str_chars(&mut m, "'");
        return Err(string_of(m.as_slice()));
    }
    let field = string_of(field_chars.as_slice());
    let value = match parse_value_literal(&vs, ops) {
        Ok(v) => v,
        Err(m) => {
            return Err(m);
        },
    };
    if k == 4 {
        return match parse_value_array(&vs, ops) {
            Ok(values) => Ok(FilterPredicate::In { field, values }),
            Err(m) => Err(m),
        };
    }
    Ok(make_pred(k, field, value))
}

/// Parse a single condition like `age > 18` or `name = 'Alice'`.
pub fn parse_single_condition<O: NumericOps>(t: &Vec<char>, ops: &O) -> (r: Result<FilterPredicate, String>)
    ensures
        outcome_of(condition_spec(*ops, t@), pred_result(r)),
{
    let c = trim_chars(t);
    let uc = crate::text::ascii_upper_chars(&c);
    let mut k: usize = 0;
    while k < 8
        invariant
            k <= 8,
            c@ == trim(t@),
            uc@ == upper(c@),
            uc@.len() == c@.len(),
            condition_spec(*ops, t@) == condition_from(*ops, c@, k as int),
        decreases 8 - k,
    {
        let search = search_chars(k);
        let found = find_text(&uc, &search);
        proof {
            reveal(condition_from);
        }
        match found {
            None => {},
            Some(pos) => {
                assert(search@ == op_search(k as int));
                assert(find_in(uc@, search@) == Some(pos as int));
                assert(find_in(upper(c@), op_search(k as int)) == Some(pos as int));
                assert(condition_from(*ops, c@, k as int) == condition_found(*ops, c@, k as int, pos as int));
                return parse_found(&c, k, pos, ops);
            },
        }
        k += 1;
    }
    proof {
        reveal(condition_from);
    }
    let mut m: Vec<char> = Vec::new();
    push_str_chars(&mut m, "could not parse condition: ");
    push_chars(&mut m, &c);
    Err(string_of(m.as_slice()))
}


// ── Splitting outside quotes ───────────────────────────────────────

/// Scanning `s` (with `u` its upper-cased form) for the delimiter `d` from
/// position `i`: quoted stretches (`'...'` or `"..."`) are skipped, each
/// delimiter found outside them ends a part (trimmed), and the rest after
/// the last one is the final part.
pub open spec fn split_scan(
    s: Seq<char>,
    u: Seq<char>,
    d: Seq<char>,
    i: int,
    last: int,
    in_quote: bool,
    q: char,
    parts: Seq<Seq<char>>,
) -> Seq<Seq<char>>
    decreases s.len() - i,
{
    if i < 0 || i >= s.len() {
        parts.push(trim(s.subrange(last, s.len() as int)))
    } else if in_quote {
        split_scan(s, u, d, i + 1, last, s[i] != q, q, parts)
    } else if s[i] == '\'' || s[i] == '"' {
        split_scan(s, u, d, i + 1, last, true, s[i], parts)
    } else if d.len() > 0 && i + d.len() <= s.len() && occurs_at(u, d, i) {
        split_scan(s, u, d, i + d.len(), i + d.len(), in_quote, q, parts.push(trim(s.subrange(last, i))))
    } else {
        split_scan(s, u, d, i + 1, last, in_quote, q, parts)
    }
}

/// `s` split on `delim` (ignoring ASCII case) outside quoted strings,
/// each part trimmed.
pub open spec fn split_outside_quotes(s: Seq<char>, delim: Seq<char>) -> Seq<Seq<char>> {
    split_scan(s, upper(s), upper(delim), 0, 0, false, ' ', Seq::empty())
}

/// Split a string on a delimiter, but only outside quoted strings.
pub fn split_preserving_strings(input: &Vec<char>, delimiter: &str) -> (r: Vec<Vec<char>>)
    ensures
        chars_views(r@) == split_outside_quotes(input@, delimiter@),
{
    let u = crate::text::ascii_upper_chars(input);
    let d = crate::text::ascii_upper_chars(&chars_of(delimiter));
    let n = input.len();
    let mut parts: Vec<Vec<char>> = Vec::new();
    let mut last: usize = 0;
    let mut in_quote = false;
    let mut q = ' ';
    let mut i: usize = 0;
    assert(chars_views(parts@) =~= Seq::<Seq<char>>::empty());
    while i < n
        invariant
            n == input@.len(),
            u@ == upper(input@),
            u@.len() == n,
            d@ == upper(delimiter@),
            last <= i <= n,
            split_outside_quotes(input@, delimiter@) == split_scan(
                input@,
                u@,
                d@,
                i as int,
                last as int,
                in_quote,
                q,
                chars_views(parts@),
            ),
        decreases n - i,
    {
        let ch = input[i];
        if in_quote {
            if ch == q {
                in_quote = false;
            }
            i += 1;
            continue;
        }
        if ch == '\'' || ch == '"' {
            in_quote = true;
            q = ch;
            i += 1;
            continue;
        }
        if d.len() > 0 && crate::text::occurs_at_exec(u.as_slice(), d.as_slice(), i) {
            let piece = trim_chars(&slice_chars(input, last, i));
            let ghost before = chars_views(parts@);
            parts.push(piece);
            assert(chars_views(parts@) =~= before.push(piece@));
            i += d.len();
            last = i;
            continue;
        }
        i += 1;
    }
    let piece = trim_chars(&slice_chars(input, last, n));
    let ghost before = chars_views(parts@);
    parts.push(piece);
    assert(chars_views(parts@) =~= before.push(piece@));
    parts
}

// ── WHERE clauses ──────────────────────────────────────────────────

/// The conditions `parts[k..]`, parsed in order: the first error (or
/// lone quote) stops.
pub open spec fn collect_conditions<O: NumericOps>(ops: O, parts: Seq<Seq<char>>, k: int) -> Parsed<Seq<PredView>>
    decreases parts.len() - k,
{
    if k < 0 || k >= parts.len() {
        Parsed::Done(Seq::empty())
    } else {
        match condition_spec(ops, parts[k]) {
            Parsed::Done(v) => match collect_conditions(ops, parts, k + 1) {
                Parsed::Done(rest) => Parsed::Done(seq![v] + rest),
                other => other,
            },
            Parsed::Failed(m) => Parsed::Failed(m),
        }
    }
}

/// A clause without `OR`: empty means no filter; several parts joined by
/// `AND` (outside quotes) are all required; otherwise one condition.
pub open spec fn and_spec<O: NumericOps>(ops: O, t: Seq<char>) -> Parsed<PredView> {
    let c = trim(t);
    if c.len() == 0 {
        Parsed::Done(PredView::All)
    } else {
        let parts = split_outside_quotes(c, " AND "@);
        if parts.len() > 1 {
            match collect_conditions(ops, parts, 0) {
                Parsed::Done(ps) => Parsed::Done(PredView::And(ps)),
                Parsed::Failed(m) => Parsed::Failed(m),
            }
        } else {
            condition_spec(ops, c)
        }
    }
}

/// The `OR`-separated parts `parts[k..]`, each parsed as an `AND` clause.
pub open spec fn collect_ands<O: NumericOps>(ops: O, parts: Seq<Seq<char>>, k: int) -> Parsed<Seq<PredView>>
    decreases parts.len() - k,
{
    if k < 0 || k >= parts.len() {
        Parsed::Done(Seq::empty())
    } else {
        match and_spec(ops, parts[k]) {
            Parsed::Done(v) => match collect_ands(ops, parts, k + 1) {
                Parsed::Done(rest) => Parsed::Done(seq![v] + rest),
                other => other,
            },
            Parsed::Failed(m) => Parsed::Failed(m),
        }
    }
}

/// A WHERE clause: empty means no filter; `OR` (lower precedence, outside
/// quotes) splits first, each part an `AND` clause; otherwise an `AND`
/// clause.  A part of an `OR` split holds no `OR` of its own, so parsing
/// it as a whole clause again comes to parsing it as an `AND` clause.
pub open spec fn where_spec<O: NumericOps>(ops: O, t: Seq<char>) -> Parsed<PredView> {
    let c = trim(t);
    if c.len() == 0 {
        Parsed::Done(PredView::All)
    } else {
        let parts = split_outside_quotes(c, " OR "@);
        if parts.len() > 1 {
            match collect_ands(ops, parts, 0) {
                Parsed::Done(ps) => Parsed::Done(PredView::Or(ps)),
                Parsed::Failed(m) => Parsed::Failed(m),
            }
        } else {
            and_spec(ops, c)
        }
    }
}

pub open spec fn preds_result(r: Result<Vec<FilterPredicate>, String>) -> Result<Seq<PredView>, Seq<char>> {
    match r {
        Ok(v) => Ok(pred_views(v@)),
        Err(m) => Err(m@),
    }
}

fn parse_conditions<O: NumericOps>(parts: &Vec<Vec<char>>, ops: &O) -> (r: Result<Vec<FilterPredicate>, String>)
    ensures
        outcome_of(collect_conditions(*ops, chars_views(parts@), 0), preds_result(r)),
{
    let ghost iv = chars_views(parts@);
    let mut out: Vec<FilterPredicate> = Vec::new();
    let mut i: usize = 0;
    while i < parts.len()
        invariant
            i <= parts@.len(),
            out@.len() == i,
            iv == chars_views(parts@),
            collect_conditions(*ops, iv, 0) == match collect_conditions(*ops, iv, i as int) {
                Parsed::Done(rest) => Parsed::Done(pred_views(out@) + rest),
                other => other,
            },
        decreases parts.len() - i,
    {
        assert(iv[i as int] == parts@[i as int]@);
        let ghost before = out@;
        match parse_single_condition(&parts[i], ops) {
            Ok(v) => {
                out.push(v);
                assert(pred_views(out@) =~= pred_views(before).push(out@[i as int]@));
                proof {
                    match collect_conditions(*ops, iv, i + 1) {
                        Parsed::Done(rest) => {
                            assert(pred_views(out@) + rest =~= pred_views(before) + (seq![v@] + rest));
                        },
                        _ => {},
                    }
                }
            },
            Err(m) => {
                return Err(m);
            },
        }
        i += 1;
    }
    assert(pred_views(out@) + Seq::<PredView>::empty() =~= pred_views(out@));
    Ok(out)
}

fn parse_and_clause<O: NumericOps>(t: &Vec<char>, ops: &O) -> (r: Result<FilterPredicate, String>)
    ensures
        outcome_of(and_spec(*ops, t@), pred_result(r)),
{
    let c = trim_chars(t);
    if c.len() == 0 {
        return Ok(FilterPredicate::All);
    }
    let parts = split_preserving_strings(&c, " AND ");
    if parts.len() > 1 {
        return match parse_conditions(&parts, ops) {
            Ok(predicates) => {
                proof {
                    lemma_and_view(predicates);
                }
                Ok(FilterPredicate::And { predicates })
            },
            Err(m) => Err(m),
        };
    }
    parse_single_condition(&c, ops)
}

fn parse_and_clauses<O: NumericOps>(parts: &Vec<Vec<char>>, ops: &O) -> (r: Result<Vec<FilterPredicate>, String>)
    ensures
        outcome_of(collect_ands(*ops, chars_views(parts@), 0), preds_result(r)),
{
    let ghost iv = chars_views(parts@);
    let mut out: Vec<FilterPredicate> = Vec::new();
    let mut i: usize = 0;
    while i < parts.len()
        invariant
            i <= parts@.len(),
            out@.len() == i,
            iv == chars_views(parts@),
            collect_ands(*ops, iv, 0) == match collect_ands(*ops, iv, i as int) {
                Parsed::Done(rest) => Parsed::Done(pred_views(out@) + rest),
                other => other,
            },
        decreases parts.len() - i,
    {
        assert(iv[i as int] == parts@[i as int]@);
        let ghost before = out@;
        match parse_and_clause(&parts[i], ops) {
            Ok(v) => {
                out.push(v);
                assert(pred_views(out@) =~= pred_views(before).push(out@[i as int]@));
                proof {
                    match collect_ands(*ops, iv, i + 1) {
                        Parsed::Done(rest) => {
                            assert(pred_views(out@) + rest =~= pred_views(before) + (seq![v@] + rest));
                        },
                        _ => {},
                    }
                }
            },
            Err(m) => {
                return Err(m);
            },
        }
        i += 1;
    }
    assert(pred_views(out@) + Seq::<PredView>::empty() =~= pred_views(out@));
    Ok(out)
}

/// Parse a WHERE clause into a (possibly compound) filter predicate.
pub fn parse_where_clause<O: NumericOps>(t: &Vec<char>, ops: &O) -> (r: Result<FilterPredicate, String>)
    ensures
        outcome_of(where_spec(*ops, t@), pred_result(r)),
{
    let c = trim_chars(t);
    if c.len() == 0 {
        return Ok(FilterPredicate::All);
    }
    let parts = split_preserving_strings(&c, " OR ");
    if parts.len() > 1 {
        return match parse_and_clauses(&parts, ops) {
            Ok(predicates) => {
                proof {
                    lemma_and_view(predicates);
                }
                Ok(FilterPredicate::Or { predicates })
            },
            Err(m) => Err(m),
        };
    }
    parse_and_clause(&c, ops)
}


// ── LIVE SELECT statements ─────────────────────────────────────────

/// Selected fields in a LIVE SELECT.
#[derive(Debug)]
pub enum LiveSelectFields {
    /// `SELECT *`
    All,
    /// `SELECT field1, field2, ...`
    Named(Vec<String>),
}

/// Parsed LIVE SELECT statement.
#[derive(Debug)]
pub struct ParsedLiveSelect {
    /// Target collection (e.g., `users`).
    pub collection: String,
    /// The SELECT fields (`*` means all).
    pub fields: LiveSelectFields,
    /// The WHERE filter (`All` without one).
    pub filter: FilterPredicate,
}

/// The mathematical shape of a [`ParsedLiveSelect`]: the field list is
/// `None` for `*`.
pub struct SelectView {
    pub collection: Seq<char>,
    pub fields: Option<Seq<Seq<char>>>,
    pub filter: PredView,
}

pub open spec fn fields_view(f: LiveSelectFields) -> Option<Seq<Seq<char>>> {
    match f {
        LiveSelectFields::All => None,
        LiveSelectFields::Named(v) => Some(Seq::new(v@.len(), |i: int| v@[i]@)),
    }
}

pub open spec fn select_view(p: ParsedLiveSelect) -> SelectView {
    SelectView { collection: p.collection@, fields: fields_view(p.fields), filter: p.filter@ }
}

/// The non-empty pieces among `parts`, each trimmed, in order.
pub open spec fn nonempty_trimmed(parts: Seq<Seq<char>>) -> Seq<Seq<char>>
    decreases parts.len(),
{
    if parts.len() == 0 {
        Seq::empty()
    } else {
        let before = nonempty_trimmed(parts.drop_last());
        let t = trim(parts.last());
        if t.len() > 0 {
            before.push(t)
        } else {
            before
        }
    }
}

/// A field list: `*`, or the non-empty trimmed names between commas.
pub open spec fn field_list(fs: Seq<char>) -> Option<Seq<Seq<char>>> {
    if fs == "*"@ {
        None
    } else {
        Some(nonempty_trimmed(crate::text::split_seq(fs, ',')))
    }
}

/// A `LIVE SELECT <fields> FROM <collection> [WHERE <clause>]` statement
/// (keywords ignoring ASCII case, text trimmed around each part).
pub open spec fn live_select_spec<O: NumericOps>(ops: O, input: Seq<char>) -> Parsed<SelectView> {
    let s = trim(input);
    if !has_prefix(upper(s), "LIVE SELECT"@) {
        Parsed::Failed("query must start with LIVE SELECT"@)
    } else {
        let rest = trim(s.skip("LIVE SELECT"@.len() as int));
        match find_in(upper(rest), " FROM "@) {
            None => Parsed::Failed("missing FROM clause"@),
            Some(p) => {
                let fields = field_list(trim(rest.take(p)));
                let after = trim(rest.skip(p + " FROM "@.len()));
                let (collection, clause) = match find_in(upper(after), " WHERE "@) {
                    Some(q) => (trim(after.take(q)), Some(trim(after.skip(q + " WHERE "@.len())))),
                    None => (after, None),
                };
                if collection.len() == 0 {
                    Parsed::Failed("missing collection name after FROM"@)
                } else {
                    match clause {
                        None => Parsed::Done(SelectView { collection, fields, filter: PredView::All }),
                        Some(c) => match where_spec(ops, c) {
                            Parsed::Done(f) => Parsed::Done(SelectView { collection, fields, filter: f }),
                            Parsed::Failed(m) => Parsed::Failed(m),
                        },
                    }
                }
            },
        }
    }
}

pub open spec fn select_result(r: Result<ParsedLiveSelect, String>) -> Result<SelectView, Seq<char>> {
    match r {
        Ok(p) => Ok(select_view(p)),
        Err(m) => Err(m@),
    }
}

fn field_names(fs: &Vec<char>) -> (r: LiveSelectFields)
    ensures
        fields_view(r) == field_list(fs@),
{
    if chars_eq(fs.as_slice(), chars_of("*").as_slice()) {
        return LiveSelectFields::All;
    }
    let parts = crate::text::split_on(fs, ',');
    let ghost pv = chars_views(parts@);
    assert(pv =~= crate::text::split_seq(fs@, ','));
    let mut names: Vec<String> = Vec::new();
    let mut i: usize = 0;
    assert(pv.take(0) =~= Seq::<Seq<char>>::empty());
    while i < parts.len()
        invariant
            i <= parts@.len(),
            pv == chars_views(parts@),
            Seq::new(names@.len(), |j: int| names@[j]@) == nonempty_trimmed(pv.take(i as int)),
        decreases parts.len() - i,
    {
        let t = trim_chars(&parts[i]);
        assert(pv.take(i + 1).drop_last() =~= pv.take(i as int));
        assert(pv.take(i + 1).last() == parts@[i as int]@);
        let ghost before = Seq::new(names@.len(), |j: int| names@[j]@);
        if t.len() > 0 {
            names.push(string_of(t.as_slice()));
            assert(Seq::new(names@.len(), |j: int| names@[j]@) =~= before.push(t@));
        }
        i += 1;
    }
    assert(pv.take(parts@.len() as int) =~= pv);
    LiveSelectFields::Named(names)
}

/// Parse a `LIVE SELECT` statement string into structured components.
pub fn parse_live_select<O: NumericOps>(input: &str, ops: &O) -> (r: Result<ParsedLiveSelect, String>)
    ensures
        outcome_of(live_select_spec(*ops, input@), select_result(r)),
{
    let s = trim_chars(&chars_of(input));
    let us = crate::text::ascii_upper_chars(&s);
    let head = chars_of("LIVE SELECT");
    if !starts_with(us.as_slice(), head.as_slice()) {
        return Err(message("query must start with LIVE SELECT"));
    }
    let rest = trim_chars(&slice_chars(&s, head.len(), s.len()));
    assert(s@.subrange(head@.len() as int, s@.len() as int) =~= s@.skip("LIVE SELECT"@.len() as int));
    let ur = crate::text::ascii_upper_chars(&rest);
    let from = chars_of(" FROM ");
    let p = match find_text(&ur, &from) {
        Some(p) => p,
        None => {
            return Err(message("missing FROM clause"));
        },
    };
    let rn = rest.len();
    assert(ur@.len() == rest@.len());
    let fields = field_names(&trim_chars(&slice_chars(&rest, 0, p)));
    let after = trim_chars(&slice_chars(&rest, p + from.len(), rn));
    proof {
        assert(rest@.subrange(0, p as int) =~= rest@.take(p as int));
        assert(rest@.subrange(p + from@.len(), rest@.len() as int) =~= rest@.skip(p + " FROM "@.len()));
    }
    let ua = crate::text::ascii_upper_chars(&after);
    let wh = chars_of(" WHERE ");
    let an = after.len();
    assert(ua@.len() == after@.len());
    let (collection, clause) = match find_text(&ua, &wh) {
        Some(q) => {
            let coll = trim_chars(&slice_chars(&after, 0, q));
            let w = trim_chars(&slice_chars(&after, q + wh.len(), an));
            proof {
                assert(after@.subrange(0, q as int) =~= after@.take(q as int));
                assert(after@.subrange(q + wh@.len(), after@.len() as int) =~= after@.skip(q + " WHERE "@.len()));
            }
            (coll, Some(w))
        },
        None => (after, None),
    };
    if collection.len() == 0 {
        return Err(message("missing collection name after FROM"));
    }
    let filter = match clause {
        Some(c) => match parse_where_clause(&c, ops) {
            Ok(f) => f,
            Err(m) => {
                return Err(m);
            },
        },
        None => FilterPredicate::All,
    };
    Ok(ParsedLiveSelect { collection: string_of(collection.as_slice()), fields, filter })
}


// ── Projection ─────────────────────────────────────────────────────

/// The id keys always kept by a projection, in order.
pub open spec fn id_keys() -> Seq<Seq<char>> {
    seq!["_id"@, "id"@, "entity_id"@]
}

/// Copying the members `keys` of `entries` (those present) into `acc`,
/// in order (a key already there keeps its place).
pub open spec fn copy_members(
    entries: Seq<(Seq<char>, JsonView)>,
    keys: Seq<Seq<char>>,
    acc: Seq<(Seq<char>, JsonView)>,
) -> Seq<(Seq<char>, JsonView)>
    decreases keys.len(),
{
    if keys.len() == 0 {
        acc
    } else {
        let before = copy_members(entries, keys.drop_last(), acc);
        let k = keys.last();
        match first_key_pos(entries, k) {
            Some(p) => crate::json::insert_key(before, k, entries[p].1),
            None => before,
        }
    }
}

/// The entity projected onto the selected fields: all of it for `*`;
/// for named fields of an object, its id keys (`_id`, `id`, `entity_id`)
/// and then the named fields that it has; anything else unchanged.
pub open spec fn projection(entity: JsonView, fields: Option<Seq<Seq<char>>>) -> JsonView {
    match fields {
        None => entity,
        Some(names) => match entity {
            JsonView::Object(entries) => JsonView::Object(
                copy_members(entries, names, copy_members(entries, id_keys(), Seq::empty())),
            ),
            _ => entity,
        },
    }
}

fn copy_members_exec(
    entries: &Vec<(String, JsonValue)>,
    keys: &Vec<String>,
    acc: &mut Vec<(String, JsonValue)>,
)
    ensures
        crate::json::entry_views(final(acc)@) == copy_members(
            crate::json::entry_views(entries@),
            Seq::new(keys@.len(), |i: int| keys@[i]@),
            crate::json::entry_views(old(acc)@),
        ),
{
    let ghost ev = crate::json::entry_views(entries@);
    let ghost kv = Seq::new(keys@.len(), |i: int| keys@[i]@);
    let ghost start = crate::json::entry_views(acc@);
    let mut i: usize = 0;
    assert(kv.take(0) =~= Seq::<Seq<char>>::empty());
    while i < keys.len()
        invariant
            i <= keys@.len(),
            ev == crate::json::entry_views(entries@),
            kv == Seq::new(keys@.len(), |i: int| keys@[i]@),
            crate::json::entry_views(acc@) == copy_members(ev, kv.take(i as int), start),
        decreases keys.len() - i,
    {
        assert(kv.take(i + 1).drop_last() =~= kv.take(i as int));
        assert(kv.take(i + 1).last() == keys@[i as int]@);
        let k = chars_of(keys[i].as_str());
        match crate::json::key_position(entries, &k) {
            Some(p) => {
                crate::json::insert_entry(acc, crate::json::clone_string(&keys[i]), clone_json(&entries[p].1));
            },
            None => {},
        }
        i += 1;
    }
    assert(kv.take(keys@.len() as int) =~= kv);
}

/// Project entity fields according to the LIVE SELECT field list.
pub fn project_fields(entity: &JsonValue, fields: &LiveSelectFields) -> (r: JsonValue)
    ensures
        r@ == projection(entity@, fields_view(*fields)),
{
    match fields {
        LiveSelectFields::All => clone_json(entity),
        LiveSelectFields::Named(names) => match entity {
            JsonValue::Object(entries) => {
                proof {
                    lemma_object_view(*entries);
                }
                let mut ids: Vec<String> = Vec::new();
                ids.push(message("_id"));
                ids.push(message("id"));
                ids.push(message("entity_id"));
                assert(Seq::new(ids@.len(), |i: int| ids@[i]@) =~= id_keys());
                let mut out: Vec<(String, JsonValue)> = Vec::new();
                assert(crate::json::entry_views(out@) =~= Seq::<(Seq<char>, JsonView)>::empty());
                copy_members_exec(entries, &ids, &mut out);
                copy_members_exec(entries, names, &mut out);
                proof {
                    lemma_object_view(out);
                }
                JsonValue::Object(out)
            },
            _ => clone_json(entity),
        },
    }
}

// ── Live events and the registry of live queries ──────────────────

/// Action that triggered a live event.
#[derive(Debug, Clone, Copy, PartialEq, Eq, Structural)]
pub enum LiveAction {
    Create,
    Update,
    Delete,
}

pub open spec fn live_action_str(a: LiveAction) -> Seq<char> {
    match a {
        LiveAction::Create => "CREATE"@,
        LiveAction::Update => "UPDATE"@,
        LiveAction::Delete => "DELETE"@,
    }
}

impl LiveAction {
    /// The action's name: `CREATE`, `UPDATE` or `DELETE`.
    pub fn to_string(&self) -> (r: String)
        ensures
            r@ == live_action_str(*self),
    {
        match self {
            LiveAction::Create => message("CREATE"),
            LiveAction::Update => message("UPDATE"),
            LiveAction::Delete => message("DELETE"),
        }
    }
}

/// An event pushed to a live query subscriber.
#[derive(Debug)]
pub struct LiveEvent {
    /// The live query this event belongs to.
    pub live_id: u128,
    /// What mutation triggered this event.
    pub action: LiveAction,
    /// The entity data (post-mutation for CREATE/UPDATE, pre-mutation for DELETE).
    pub result: JsonValue,
    /// Transaction ID.
    pub tx_id: i64,
}

/// A registered live query.
#[derive(Debug)]
pub struct LiveQuery {
    /// Unique ID for this live query.
    pub id: u128,
    /// Target collection (entity type).
    pub collection: String,
    /// Which fields to include in events.
    pub fields: LiveSelectFields,
    /// Filter predicate to evaluate against changed entities.
    pub filter: FilterPredicate,
    /// Owning session (for cleanup on disconnect).
    pub session_id: u128,
    /// Original query string.
    pub raw_query: String,
}

/// All active LIVE SELECT subscriptions, in registration order, with
/// distinct ids.
pub struct LiveQueryManager {
    queries: Vec<LiveQuery>,
}

pub open spec fn ids_distinct(qs: Seq<LiveQuery>) -> bool {
    forall|i: int, j: int| 0 <= i < j < qs.len() ==> qs[i].id != qs[j].id
}

/// The queries of `qs` not owned by session `s`, in order.
pub open spec fn without_session(qs: Seq<LiveQuery>, s: u128) -> Seq<LiveQuery>
    decreases qs.len(),
{
    if qs.len() == 0 {
        Seq::empty()
    } else if qs[0].session_id == s {
        without_session(qs.drop_first(), s)
    } else {
        seq![qs[0]] + without_session(qs.drop_first(), s)
    }
}

/// The ids of the queries of `qs` owned by session `s`, in order.
pub open spec fn session_ids(qs: Seq<LiveQuery>, s: u128) -> Seq<u128>
    decreases qs.len(),
{
    if qs.len() == 0 {
        Seq::empty()
    } else if qs[0].session_id == s {
        seq![qs[0].id] + session_ids(qs.drop_first(), s)
    } else {
        session_ids(qs.drop_first(), s)
    }
}

/// The position of the query `id`.
pub open spec fn query_pos(qs: Seq<LiveQuery>, id: u128) -> Option<int> {
    if exists|i: int| 0 <= i < qs.len() && qs[i].id == id {
        Some(choose|i: int| 0 <= i < qs.len() && qs[i].id == id)
    } else {
        None
    }
}

/// Killing the query registered last, on behalf of its own session, finds
/// it at the end and leaves the queries as they were before it was
/// registered.
pub proof fn lemma_register_then_kill(qs: Seq<LiveQuery>, q: LiveQuery)
    requires
        ids_distinct(qs.push(q)),
    ensures
        query_pos(qs.push(q), q.id) == Some(qs.len() as int),
        qs.push(q)[qs.len() as int].session_id == q.session_id,
        qs.push(q).remove(qs.len() as int) == qs,
{
    let all = qs.push(q);
    assert(all[qs.len() as int].id == q.id);
    let p = choose|i: int| 0 <= i < all.len() && all[i].id == q.id;
    if p != qs.len() {
        assert(all[p].id != all[qs.len() as int].id);
    }
    assert(all.remove(qs.len() as int) =~= qs);
}

/// A kill by the owner removes the query for good: afterwards the id is
/// found nowhere (a second kill is refused), the owner's queries lose
/// exactly it, and the other sessions' queries stay as they were.
pub proof fn lemma_kill_removes_for_good(qs: Seq<LiveQuery>, id: u128, p: int)
    requires
        ids_distinct(qs),
        query_pos(qs, id) == Some(p),
    ensures
        query_pos(qs.remove(p), id) is None,
        ids_distinct(qs.remove(p)),
        !session_ids(qs.remove(p), qs[p].session_id).contains(id),
        forall|s: u128| s != qs[p].session_id ==> session_ids(qs.remove(p), s) == session_ids(qs, s),
        qs.remove(p).len() == qs.len() - 1,
{
    let r = qs.remove(p);
    assert(0 <= p < qs.len() && qs[p].id == id) by {
        let i = choose|i: int| 0 <= i < qs.len() && qs[i].id == id;
    }
    assert(forall|j: int| 0 <= j < r.len() ==> r[j] == (if j < p { qs[j] } else { qs[j + 1] }));
    assert forall|j: int| 0 <= j < r.len() implies r[j].id != id by {
        if j < p {
            assert(qs[j].id != qs[p].id);
        } else {
            assert(qs[p].id != qs[j + 1].id);
        }
    }
    lemma_session_ids_contains(r, qs[p].session_id, id);
    assert forall|s: u128| s != qs[p].session_id implies session_ids(r, s) == session_ids(qs, s) by {
        lemma_session_ids_remove(qs, p, s);
    }
}

/// A session's ids are ids of its queries.
proof fn lemma_session_ids_contains(qs: Seq<LiveQuery>, s: u128, id: u128)
    requires
        forall|j: int| 0 <= j < qs.len() ==> qs[j].id != id,
    ensures
        !session_ids(qs, s).contains(id),
    decreases qs.len(),
{
    if qs.len() > 0 {
        let t = qs.drop_first();
        assert forall|j: int| 0 <= j < t.len() implies t[j].id != id by {
            assert(t[j] == qs[j + 1]);
        }
        lemma_session_ids_contains(t, s, id);
        if qs[0].session_id == s {
            let x = seq![qs[0].id] + session_ids(t, s);
            if x.contains(id) {
                let k = choose|k: int| 0 <= k < x.len() && x[k] == id;
                if k > 0 {
                    assert(session_ids(t, s)[k - 1] == id);
                }
            }
        }
    }
}

/// Removing a query of another session leaves a session's ids as they
/// were.
proof fn lemma_session_ids_remove(qs: Seq<LiveQuery>, p: int, s: u128)
    requires
        0 <= p < qs.len(),
        qs[p].session_id != s,
    ensures
        session_ids(qs.remove(p), s) == session_ids(qs, s),
    decreases qs.len(),
{
    if p == 0 {
        assert(qs.remove(0) =~= qs.drop_first());
    } else {
        let t = qs.drop_first();
        lemma_session_ids_remove(t, p - 1, s);
        assert(qs.remove(p).drop_first() =~= t.remove(p - 1));
        assert(qs.remove(p)[0] == qs[0]);
    }
}

/// Once a session's queries are killed, none of its queries is left.
pub proof fn lemma_kill_session_leaves_none(qs: Seq<LiveQuery>, s: u128)
    ensures
        session_ids(without_session(qs, s), s) == Seq::<u128>::empty(),
    decreases qs.len(),
{
    if qs.len() > 0 {
        lemma_kill_session_leaves_none(qs.drop_first(), s);
        if qs[0].session_id != s {
            let w = seq![qs[0]] + without_session(qs.drop_first(), s);
            assert(w[0] == qs[0]);
            assert(w.drop_first() =~= without_session(qs.drop_first(), s));
        }
    }
}

impl LiveQueryManager {
    /// The active queries.
    pub closed spec fn queries(&self) -> Seq<LiveQuery> {
        self.queries@
    }

    /// Query ids are distinct.
    pub closed spec fn wf(&self) -> bool {
        ids_distinct(self.queries@)
    }

    /// An empty registry.
    pub fn new() -> (r: Self)
        ensures
            r.wf(),
            r.queries().len() == 0,
    {
        LiveQueryManager { queries: Vec::new() }
    }

    fn position(&self, id: u128) -> (r: Option<usize>)
        requires
            self.wf(),
        ensures
            match r {
                Some(i) => query_pos(self.queries(), id) == Some(i as int) && i < self.queries().len(),
                None => query_pos(self.queries(), id) is None,
            },
    {
        let mut i: usize = 0;
        while i < self.queries.len()
            invariant
                i <= self.queries@.len(),
                ids_distinct(self.queries@),
                forall|j: int| 0 <= j < i ==> self.queries@[j].id != id,
            decreases self.queries.len() - i,
        {
            if self.queries[i].id == id {
                proof {
                    let c = choose|c: int| 0 <= c < self.queries@.len() && self.queries@[c].id == id;
                    assert(c == i);
                }
                return Some(i);
            }
            i += 1;
        }
        None
    }

    /// Register a new LIVE SELECT query for `session_id`: parse it, and
    /// keep it under a fresh random id, which is returned.
    pub fn register<O: NumericOps>(&mut self, session_id: u128, query_str: &str, ops: &O) -> (r: Result<u128, String>)
        requires
            old(self).wf(),
        ensures
            final(self).wf(),
            match r {
                Ok(id) => {
                    &&& crate::tables::is_v4_uuid(id)
                    &&& final(self).queries().len() >= 1
                    &&& final(self).queries().drop_last() == match query_pos(old(self).queries(), id) {
                        Some(p) => old(self).queries().remove(p),
                        None => old(self).queries(),
                    }
                    &&& final(self).queries().last().id == id
                    &&& final(self).queries().last().session_id == session_id
                    &&& final(self).queries().last().raw_query@ == query_str@
                    &&& outcome_of(
                        live_select_spec(*ops, query_str@),
                        Ok(
                            SelectView {
                                collection: final(self).queries().last().collection@,
                                fields: fields_view(final(self).queries().last().fields),
                                filter: final(self).queries().last().filter@,
                            },
                        ),
                    )
                },
                Err(m) => final(self).queries() == old(self).queries() && outcome_of(
                    live_select_spec(*ops, query_str@),
                    Err(m@),
                ),
            },
    {
        let parsed = match parse_live_select(query_str, ops) {
            Ok(p) => p,
            Err(m) => {
                return Err(m);
            },
        };
        let live_id = crate::tables::new_uuid_v4();
        match self.position(live_id) {
            Some(p) => {
                self.queries.remove(p);
                proof {
                    assert forall|i: int, j: int| 0 <= i < j < self.queries@.len() implies self.queries@[i].id
                        != self.queries@[j].id by {
                        let oi = if i < p { i } else { i + 1 };
                        let oj = if j < p { j } else { j + 1 };
                        assert(self.queries@[i] == old(self).queries@[oi]);
                        assert(self.queries@[j] == old(self).queries@[oj]);
                    }
                }
            },
            None => {},
        }
        let ghost before = self.queries@;
        proof {
            assert forall|i: int| 0 <= i < before.len() implies before[i].id != live_id by {
                if query_pos(old(self).queries(), live_id) is None {
                    assert(before[i] == old(self).queries@[i]);
                } else {
                    let p = query_pos(old(self).queries(), live_id)->0;
                    let oi = if i < p { i } else { i + 1 };
                    assert(before[i] == old(self).queries@[oi]);
                    assert(oi != p);
                    if oi < p {
                        assert(old(self).queries@[oi].id != old(self).queries@[p].id);
                    } else {
                        assert(old(self).queries@[p].id != old(self).queries@[oi].id);
                    }
                }
            }
        }
        self.queries.push(
            LiveQuery {
                id: live_id,
                collection: parsed.collection,
                fields: parsed.fields,
                filter: parsed.filter,
                session_id,
                raw_query: message(query_str),
            },
        );
        assert(self.queries@.drop_last() =~= before);
        Ok(live_id)
    }

    /// Kill the live query `live_id` on behalf of `session_id`: refused
    /// (`false`) when another session owns it; `true` when it existed and
    /// was removed.
    pub fn kill(&mut self, live_id: u128, session_id: u128) -> (r: bool)
        requires
            old(self).wf(),
        ensures
            final(self).wf(),
            match query_pos(old(self).queries(), live_id) {
                Some(p) => if old(self).queries()[p].session_id == session_id {
                    r && final(self).queries() == old(self).queries().remove(p)
                } else {
                    !r && final(self).queries() == old(self).queries()
                },
                None => !r && final(self).queries() == old(self).queries(),
            },
    {
        match self.position(live_id) {
            Some(p) => {
                if self.queries[p].session_id != session_id {
                    return false;
                }
                self.queries.remove(p);
                proof {
                    assert forall|i: int, j: int| 0 <= i < j < self.queries@.len() implies self.queries@[i].id
                        != self.queries@[j].id by {
                        let oi = if i < p { i } else { i + 1 };
                        let oj = if j < p { j } else { j + 1 };
                        assert(self.queries@[i] == old(self).queries@[oi]);
                        assert(self.queries@[j] == old(self).queries@[oj]);
                    }
                }
                true
            },
            None => false,
        }
    }

    /// Remove all live queries of a session; the number removed.
    pub fn kill_session(&mut self, session_id: u128) -> (r: usize)
        requires
            old(self).wf(),
        ensures
            final(self).wf(),
            final(self).queries() == without_session(old(self).queries(), session_id),
            r == old(self).queries().len() - final(self).queries().len(),
    {
        let ghost all = self.queries@;
        let total = self.queries.len();
        let mut kept: Vec<LiveQuery> = Vec::new();
        let mut removed: usize = 0;
        assert(kept@ + self.queries@ =~= all);
        while self.queries.len() > 0
            invariant
                ids_distinct(kept@ + self.queries@),
                without_session(all, session_id) == kept@ + without_session(self.queries@, session_id),
                removed + kept@.len() + self.queries@.len() == all.len(),
                all.len() == total,
            decreases self.queries.len(),
        {
            let ghost k = kept@;
            let ghost qs = self.queries@;
            let q = self.queries.remove(0);
            assert(self.queries@ =~= qs.drop_first());
            if q.session_id == session_id {
                removed += 1;
                proof {
                    let n = k.len();
                    assert forall|i: int, j: int| 0 <= i < j < (k + self.queries@).len() implies (k
                        + self.queries@)[i].id != (k + self.queries@)[j].id by {
                        let oi = if i < n { i } else { i + 1 };
                        let oj = if j < n { j } else { j + 1 };
                        assert((k + self.queries@)[i] == (k + qs)[oi]);
                        assert((k + self.queries@)[j] == (k + qs)[oj]);
                    }
                }
            } else {
                kept.push(q);
                assert(kept@ + self.queries@ =~= k + qs);
                assert(k + (seq![qs[0]] + without_session(qs.drop_first(), session_id)) =~= kept@ + without_session(
                    self.queries@,
                    session_id,
                ));
            }
        }
        assert(kept@ + self.queries@ =~= kept@);
        assert(kept@ + Seq::<LiveQuery>::empty() =~= kept@);
        self.queries = kept;
        removed
    }

    /// The number of active live queries.
    pub fn query_count(&self) -> (r: usize)
        ensures
            r == self.queries().len(),
    {
        self.queries.len()
    }

    /// The ids of the live queries of a session, in registration order.
    pub fn session_queries(&self, session_id: u128) -> (r: Vec<u128>)
        ensures
            r@ == session_ids(self.queries(), session_id),
    {
        let mut out: Vec<u128> = Vec::new();
        let mut i: usize = 0;
        assert(self.queries@.skip(0) =~= self.queries@);
        assert(out@ + session_ids(self.queries@, session_id) =~= session_ids(self.queries@, session_id));
        while i < self.queries.len()
            invariant
                i <= self.queries@.len(),
                session_ids(self.queries@, session_id) == out@ + session_ids(self.queries@.skip(i as int), session_id),
            decreases self.queries.len() - i,
        {
            let ghost rest = self.queries@.skip(i as int);
            assert(rest.drop_first() =~= self.queries@.skip(i + 1));
            if self.queries[i].session_id == session_id {
                let ghost before = out@;
                out.push(self.queries[i].id);
                assert(before + (seq![rest[0].id] + session_ids(rest.drop_first(), session_id)) =~= out@
                    + session_ids(self.queries@.skip(i + 1), session_id));
            }
            i += 1;
        }
        assert(session_ids(self.queries@.skip(self.queries@.len() as int), session_id) =~= Seq::<u128>::empty());
        assert(out@ + Seq::<u128>::empty() =~= out@);
        out
    }
}


// ── Evaluating a change against the live queries ──────────────────

pub open spec fn opt_text(v: Option<String>) -> Option<Seq<char>> {
    match v {
        Some(t) => Some(t@),
        None => None,
    }
}

/// A delivered event as `(session, live query, action, result, tx)`.
pub type EventView = (u128, u128, LiveAction, JsonView, i64);

pub open spec fn event_views(v: Seq<(u128, LiveEvent)>) -> Seq<EventView> {
    Seq::new(v.len(), |i: int| (v[i].0, v[i].1.live_id, v[i].1.action, v[i].1.result@, v[i].1.tx_id))
}

/// The entity stored under `id`.
pub open spec fn entity_of(data: Seq<(Seq<char>, JsonView)>, id: Seq<char>) -> Option<JsonView> {
    match first_key_pos(data, id) {
        Some(p) => Some(data[p].1),
        None => None,
    }
}

/// The events of query `q` for the changed entities `ids[0..n]` that have
/// data and match the filter (comparisons as `ops` makes them), in order.
pub open spec fn query_events<O: NumericOps>(
    ops: O,
    q: LiveQuery,
    ids: Seq<Seq<char>>,
    n: int,
    data: Seq<(Seq<char>, JsonView)>,
    action: LiveAction,
    tx: i64,
) -> Seq<EventView>
    decreases n,
{
    if n <= 0 {
        Seq::empty()
    } else {
        let before = query_events(ops, q, ids, n - 1, data, action, tx);
        match entity_of(data, ids[n - 1]) {
            None => before,
            Some(e) => if matches_spec(ops, q.filter@, e) {
                before.push((q.session_id, q.id, action, projection(e, fields_view(q.fields)), tx))
            } else {
                before
            },
        }
    }
}

/// The events of the queries `qs[0..n]` for a change of collection
/// `entity_type` (none when the change has no type), query by query.
pub open spec fn change_events<O: NumericOps>(
    ops: O,
    qs: Seq<LiveQuery>,
    n: int,
    entity_type: Option<Seq<char>>,
    ids: Seq<Seq<char>>,
    data: Seq<(Seq<char>, JsonView)>,
    action: LiveAction,
    tx: i64,
) -> Seq<EventView>
    decreases n,
{
    if n <= 0 {
        Seq::empty()
    } else {
        let before = change_events(ops, qs, n - 1, entity_type, ids, data, action, tx);
        let q = qs[n - 1];
        if entity_type == Some(q.collection@) {
            before + query_events(ops, q, ids, ids.len() as int, data, action, tx)
        } else {
            before
        }
    }
}

fn query_events_exec<O: NumericOps>(
    q: &LiveQuery,
    ids: &Vec<String>,
    data: &Vec<(String, JsonValue)>,
    action: LiveAction,
    tx: i64,
    ops: &O,
    out: &mut Vec<(u128, LiveEvent)>,
)
    ensures
        ({
            let ivs = Seq::new(ids@.len(), |i: int| ids@[i]@);
            event_views(final(out)@) == event_views(old(out)@) + query_events(
                *ops,
                *q,
                ivs,
                ids@.len() as int,
                crate::json::entry_views(data@),
                action,
                tx,
            )
        }),
{
    let ghost ivs = Seq::new(ids@.len(), |i: int| ids@[i]@);
    let ghost dv = crate::json::entry_views(data@);
    let ghost start = event_views(out@);
    let mut i: usize = 0;
    assert(start + Seq::<EventView>::empty() =~= start);
    while i < ids.len()
        invariant
            i <= ids@.len(),
            ivs == Seq::new(ids@.len(), |i: int| ids@[i]@),
            dv == crate::json::entry_views(data@),
            event_views(out@) == start + query_events(*ops, *q, ivs, i as int, dv, action, tx),
        decreases ids.len() - i,
    {
        let ghost before = out@;
        let key = chars_of(ids[i].as_str());
        match crate::json::key_position(data, &key) {
            Some(p) => {
                let e = &data[p].1;
                assert(dv[p as int].1 == e@);
                if q.filter.matches(e, ops) {
                    let ev = LiveEvent { live_id: q.id, action, result: project_fields(e, &q.fields), tx_id: tx };
                    out.push((q.session_id, ev));
                    assert(event_views(out@) =~= event_views(before).push(event_views(out@)[before.len() as int]));
                    proof {
                        let x = query_events(*ops, *q, ivs, i as int, dv, action, tx);
                        assert(event_views(out@) =~= start + x.push(event_views(out@)[before.len() as int]));
                    }
                }
            },
            None => {},
        }
        i += 1;
    }
}

impl LiveQueryManager {
    /// The events a change produces: for each query on the changed
    /// collection (in registration order), each changed entity that has
    /// data and matches the filter, projected onto the query's fields.
    /// Numeric comparisons are as `ops` makes them.
    pub fn process_change<O: NumericOps>(
        &self,
        event: &super::ChangeEvent,
        entity_data: &Vec<(String, JsonValue)>,
        action: LiveAction,
        ops: &O,
    ) -> (r: Vec<(u128, LiveEvent)>)
        ensures
            event_views(r@) == change_events(
                *ops,
                self.queries(),
                self.queries().len() as int,
                opt_text(event.entity_type),
                Seq::new(event.entity_ids@.len(), |i: int| event.entity_ids@[i]@),
                crate::json::entry_views(entity_data@),
                action,
                event.tx_id,
            ),
    {
        let ghost et = opt_text(event.entity_type);
        let ghost ivs = Seq::new(event.entity_ids@.len(), |i: int| event.entity_ids@[i]@);
        let ghost dv = crate::json::entry_views(entity_data@);
        let mut out: Vec<(u128, LiveEvent)> = Vec::new();
        assert(event_views(out@) =~= Seq::<EventView>::empty());
        let mut k: usize = 0;
        while k < self.queries.len()
            invariant
                k <= self.queries@.len(),
                event_views(out@) == change_events(*ops, self.queries@, k as int, et, ivs, dv, action, event.tx_id),
                et == opt_text(event.entity_type),
                ivs == Seq::new(event.entity_ids@.len(), |i: int| event.entity_ids@[i]@),
                dv == crate::json::entry_views(entity_data@),
            decreases self.queries.len() - k,
        {
            let q = &self.queries[k];
            let same = match &event.entity_type {
                Some(t) => chars_eq(chars_of(t.as_str()).as_slice(), chars_of(q.collection.as_str()).as_slice()),
                None => false,
            };
            if same {
                query_events_exec(q, &event.entity_ids, entity_data, action, event.tx_id, ops, &mut out);
            }
            k += 1;
        }
        out
    }
}

} // verus!
