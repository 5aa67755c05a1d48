//! View-aware queries: the view's filters and sorts layered onto a user
//! query, and the projection of result rows onto the view's fields.
//!
//! A result row's attributes form a JSON map that keeps insertion order;
//! it is held as a vector of `(key, value)` entries.  Removing a key moves
//! the last entry into its place (the map's `remove`), and inserting an
//! existing key replaces its value where it stands.
use vstd::prelude::*;
use crate::json::{
    JsonValue, JsonView, entry_views, clone_json, clone_string, first_key_pos, insert_key, remove_key, key_position,
    remove_entry, insert_entry,
};
use crate::text::{chars_of, chars_eq};
use super::{FilterClause, FilterOp, SortClause, SortDir, ViewConfig};

verus! {

// ── Query clauses ──────────────────────────────────────────────────

/// Comparison operator of a query `where` clause.
#[derive(Debug, Clone, Copy, PartialEq, Eq, Structural)]
pub enum WhereOp {
    Eq,
    Neq,
    Gt,
    Gte,
    Lt,
    Lte,
    Contains,
}

/// A query filter: `attribute op value`.
#[derive(Debug, Clone)]
pub struct WhereClause {
    pub attribute: String,
    pub op: WhereOp,
    pub value: JsonValue,
}

/// Sort direction of a query ordering.
#[derive(Debug, Clone, Copy, PartialEq, Eq, Structural)]
pub enum SortDirection {
    Asc,
    Desc,
}

/// A query ordering on one attribute.
#[derive(Debug, Clone)]
pub struct OrderClause {
    pub attribute: String,
    pub direction: SortDirection,
}

pub struct WhereView {
    pub attribute: Seq<char>,
    pub op: WhereOp,
    pub value: JsonView,
}

pub open spec fn where_views(v: Seq<WhereClause>) -> Seq<WhereView> {
    Seq::new(v.len(), |i: int| WhereView { attribute: v[i].attribute@, op: v[i].op, value: v[i].value@ })
}

pub open spec fn order_views(v: Seq<OrderClause>) -> Seq<(Seq<char>, SortDirection)> {
    Seq::new(v.len(), |i: int| (v[i].attribute@, v[i].direction))
}

// ── Filters ────────────────────────────────────────────────────────

/// The query operator of a view operator; the emptiness tests have none.
pub open spec fn where_op_of(op: FilterOp) -> Option<WhereOp> {
    match op {
        FilterOp::Eq => Some(WhereOp::Eq),
        FilterOp::Neq => Some(WhereOp::Neq),
        FilterOp::Gt => Some(WhereOp::Gt),
        FilterOp::Gte => Some(WhereOp::Gte),
        FilterOp::Lt => Some(WhereOp::Lt),
        FilterOp::Lte => Some(WhereOp::Lte),
        FilterOp::Contains => Some(WhereOp::Contains),
        FilterOp::IsEmpty | FilterOp::IsNotEmpty => None,
    }
}

/// Convert a view [`FilterOp`] to a query [`WhereOp`].
pub fn filter_op_to_where_op(op: FilterOp) -> (r: Option<WhereOp>)
    ensures
        r == where_op_of(op),
{
    match op {
        FilterOp::Eq => Some(WhereOp::Eq),
        FilterOp::Neq => Some(WhereOp::Neq),
        FilterOp::Gt => Some(WhereOp::Gt),
        FilterOp::Gte => Some(WhereOp::Gte),
        FilterOp::Lt => Some(WhereOp::Lt),
        FilterOp::Lte => Some(WhereOp::Lte),
        FilterOp::Contains => Some(WhereOp::Contains),
        FilterOp::IsEmpty | FilterOp::IsNotEmpty => None,
    }
}

/// The query clause of a view filter: `IsEmpty` is `= null`,
/// `IsNotEmpty` is `!= null`, the others compare with the filter's value.
pub open spec fn where_of(f: FilterClause) -> WhereView {
    match f.op {
        FilterOp::IsEmpty => WhereView { attribute: f.field@, op: WhereOp::Eq, value: JsonView::Null },
        FilterOp::IsNotEmpty => WhereView { attribute: f.field@, op: WhereOp::Neq, value: JsonView::Null },
        _ => WhereView { attribute: f.field@, op: where_op_of(f.op)->0, value: f.value@ },
    }
}

/// Convert a view filter into query clauses (always exactly one).
pub fn filter_to_where(filter: &FilterClause) -> (r: Vec<WhereClause>)
    ensures
        where_views(r@) == seq![where_of(*filter)],
{
    let mut out: Vec<WhereClause> = Vec::new();
    match filter.op {
        FilterOp::IsEmpty => {
            out.push(WhereClause { attribute: clone_string(&filter.field), op: WhereOp::Eq, value: JsonValue::Null });
        },
        FilterOp::IsNotEmpty => {
            out.push(WhereClause { attribute: clone_string(&filter.field), op: WhereOp::Neq, value: JsonValue::Null });
        },
        _ => {
            match filter_op_to_where_op(filter.op) {
                Some(op) => {
                    out.push(WhereClause { attribute: clone_string(&filter.field), op, value: clone_json(&filter.value) });
                },
                None => {},
            }
        },
    }
    assert(where_views(out@) =~= seq![where_of(*filter)]);
    out
}

/// The query clauses of all the view's filters, in order.
pub open spec fn view_wheres(view: ViewConfig) -> Seq<WhereView> {
    Seq::new(view.filters@.len(), |i: int| where_of(view.filters@[i]))
}

/// Merge the view's filters into a query's clauses: the view's come
/// first, as a mandatory base constraint, and the user's follow.
pub fn apply_view_filters(where_clauses: &mut Vec<WhereClause>, view: &ViewConfig)
    ensures
        where_views(final(where_clauses)@) == view_wheres(*view) + where_views(old(where_clauses)@),
{
    let mut merged: Vec<WhereClause> = Vec::new();
    let mut i: usize = 0;
    while i < view.filters.len()
        invariant
            i <= view.filters@.len(),
            where_views(merged@) == view_wheres(*view).subrange(0, i as int),
        decreases view.filters.len() - i,
    {
        let mut w = filter_to_where(&view.filters[i]);
        let ghost before = merged@;
        let ghost wv = w@;
        merged.append(&mut w);
        assert(merged@ == before + wv);
        assert(where_views(merged@) =~= where_views(before) + where_views(wv));
        assert(view_wheres(*view).subrange(0, i + 1) =~= view_wheres(*view).subrange(0, i as int).push(
            where_of(view.filters@[i as int]),
        ));
        assert(where_views(merged@) =~= view_wheres(*view).subrange(0, i + 1));
        i += 1;
    }
    assert(view_wheres(*view).subrange(0, view.filters@.len() as int) =~= view_wheres(*view));
    let ghost base = merged@;
    merged.append(where_clauses);
    assert(where_views(merged@) =~= where_views(base) + where_views(old(where_clauses)@));
    *where_clauses = merged;
}

// ── Sorts ──────────────────────────────────────────────────────────

pub open spec fn direction_of(d: SortDir) -> SortDirection {
    match d {
        SortDir::Asc => SortDirection::Asc,
        SortDir::Desc => SortDirection::Desc,
    }
}

/// Convert a view [`SortDir`] to a query [`SortDirection`].
pub fn sort_dir_to_direction(dir: SortDir) -> (r: SortDirection)
    ensures
        r == direction_of(dir),
{
    match dir {
        SortDir::Asc => SortDirection::Asc,
        SortDir::Desc => SortDirection::Desc,
    }
}

/// The query ordering of the view's sorts, in order.
pub open spec fn view_orders(view: ViewConfig) -> Seq<(Seq<char>, SortDirection)> {
    Seq::new(view.sorts@.len(), |i: int| (view.sorts@[i].field@, direction_of(view.sorts@[i].direction)))
}

/// Apply the view's sort order, unless the query has its own: a user's
/// ordering takes precedence.
pub fn apply_view_sorts(order: &mut Vec<OrderClause>, view: &ViewConfig)
    ensures
        old(order)@.len() > 0 ==> final(order)@ == old(order)@,
        old(order)@.len() == 0 ==> order_views(final(order)@) == view_orders(*view),
{
    if order.len() > 0 {
        return;
    }
    let mut out: Vec<OrderClause> = Vec::new();
    let mut i: usize = 0;
    while i < view.sorts.len()
        invariant
            i <= view.sorts@.len(),
            order_views(out@) == view_orders(*view).subrange(0, i as int),
        decreases view.sorts.len() - i,
    {
        let s: &SortClause = &view.sorts[i];
        let ghost before = out@;
        out.push(OrderClause { attribute: clone_string(&s.field), direction: sort_dir_to_direction(s.direction) });
        assert(order_views(out@) =~= order_views(before).push((s.field@, direction_of(s.direction))));
        assert(view_orders(*view).subrange(0, i + 1) =~= view_orders(*view).subrange(0, i as int).push(
            (view.sorts@[i as int].field@, direction_of(view.sorts@[i as int].direction)),
        ));
        assert(order_views(out@) =~= view_orders(*view).subrange(0, i + 1));
        i += 1;
    }
    assert(view_orders(*view).subrange(0, view.sorts@.len() as int) =~= view_orders(*view));
    *order = out;
}

/// Apply the view's filters and sorts to a query's clauses.
pub fn apply_view_to_query(where_clauses: &mut Vec<WhereClause>, order: &mut Vec<OrderClause>, view: &ViewConfig)
    ensures
        where_views(final(where_clauses)@) == view_wheres(*view) + where_views(old(where_clauses)@),
        old(order)@.len() > 0 ==> final(order)@ == old(order)@,
        old(order)@.len() == 0 ==> order_views(final(order)@) == view_orders(*view),
{
    apply_view_filters(where_clauses, view);
    apply_view_sorts(order, view);
}

// ── Projection ─────────────────────────────────────────────────────

/// `remove` of each of the keys `ks`, in order.
pub open spec fn remove_keys(s: Seq<(Seq<char>, JsonView)>, ks: Seq<Seq<char>>) -> Seq<(Seq<char>, JsonView)>
    decreases ks.len(),
{
    if ks.len() == 0 {
        s
    } else {
        remove_key(remove_keys(s, ks.drop_last()), ks.last())
    }
}

/// Moving the fields `fs`, in order, out of `s` into a new map: the new
/// map and what is left of `s`.
pub open spec fn pick_fields(s: Seq<(Seq<char>, JsonView)>, fs: Seq<Seq<char>>) -> (
    Seq<(Seq<char>, JsonView)>,
    Seq<(Seq<char>, JsonView)>,
)
    decreases fs.len(),
{
    if fs.len() == 0 {
        (Seq::empty(), s)
    } else {
        let (o, r) = pick_fields(s, fs.drop_last());
        let f = fs.last();
        match first_key_pos(r, f) {
            Some(p) => (insert_key(o, f, r[p].1), r.update(p, r.last()).drop_last()),
            None => (o, r),
        }
    }
}

/// Inserting the entries of `r` whose key is not hidden into `o`, in order.
pub open spec fn append_visible(o: Seq<(Seq<char>, JsonView)>, r: Seq<(Seq<char>, JsonView)>, hidden: Seq<Seq<char>>) -> Seq<
    (Seq<char>, JsonView),
>
    decreases r.len(),
{
    if r.len() == 0 {
        o
    } else {
        let o2 = append_visible(o, r.drop_last(), hidden);
        let e = r.last();
        if hidden.contains(e.0) {
            o2
        } else {
            insert_key(o2, e.0, e.1)
        }
    }
}

/// A row's attributes as the view shows them: the hidden fields removed,
/// then, when the view orders its fields, the ordered fields first (in
/// the view's order) followed by the other visible ones.
pub open spec fn projected(s: Seq<(Seq<char>, JsonView)>, hidden: Seq<Seq<char>>, order: Seq<Seq<char>>) -> Seq<
    (Seq<char>, JsonView),
> {
    let s1 = if hidden.len() > 0 {
        remove_keys(s, hidden)
    } else {
        s
    };
    if order.len() > 0 {
        let (o, r) = pick_fields(s1, order);
        append_visible(o, r, hidden)
    } else {
        s1
    }
}

pub open spec fn string_views(v: Seq<String>) -> Seq<Seq<char>> {
    Seq::new(v.len(), |i: int| v[i]@)
}

fn contains_string(v: &Vec<String>, k: &Vec<char>) -> (r: bool)
    ensures
        r == string_views(v@).contains(k@),
{
    let mut i: usize = 0;
    while i < v.len()
        invariant
            i <= v@.len(),
            forall|q: int| 0 <= q < i ==> v@[q]@ != k@,
        decreases v.len() - i,
    {
        if chars_eq(chars_of(v[i].as_str()).as_slice(), k.as_slice()) {
            assert(string_views(v@)[i as int] == k@);
            return true;
        }
        i += 1;
    }
    assert forall|q: int| 0 <= q < string_views(v@).len() implies string_views(v@)[q] != k@ by {
        assert(string_views(v@)[q] == v@[q]@);
    }
    false
}

/// Project one row's attributes onto the view (see [`projected`]).
pub fn project_row(row: &mut Vec<(String, JsonValue)>, view: &ViewConfig)
    ensures
        entry_views(final(row)@) == projected(
            entry_views(old(row)@),
            string_views(view.hidden_fields@),
            string_views(view.field_order@),
        ),
{
    let ghost hs = string_views(view.hidden_fields@);
    let ghost fs = string_views(view.field_order@);
    let ghost s0 = entry_views(row@);
    let has_hidden = view.hidden_fields.len() > 0;
    let has_order = view.field_order.len() > 0;
    if !has_hidden && !has_order {
        return;
    }
    if has_hidden {
        let mut i: usize = 0;
        while i < view.hidden_fields.len()
            invariant
                i <= view.hidden_fields@.len(),
                hs == string_views(view.hidden_fields@),
                entry_views(row@) == remove_keys(s0, hs.subrange(0, i as int)),
            decreases view.hidden_fields.len() - i,
        {
            let h = chars_of(view.hidden_fields[i].as_str());
            remove_entry(row, &h);
            assert(hs.subrange(0, i + 1).drop_last() =~= hs.subrange(0, i as int));
            i += 1;
        }
        assert(hs.subrange(0, hs.len() as int) =~= hs);
    }
    let ghost s1 = entry_views(row@);
    if has_order {
        let mut ordered: Vec<(String, JsonValue)> = Vec::new();
        let mut i: usize = 0;
        while i < view.field_order.len()
            invariant
                i <= view.field_order@.len(),
                fs == string_views(view.field_order@),
                (entry_views(ordered@), entry_views(row@)) == pick_fields(s1, fs.subrange(0, i as int)),
            decreases view.field_order.len() - i,
        {
            let f = chars_of(view.field_order[i].as_str());
            assert(fs.subrange(0, i + 1).drop_last() =~= fs.subrange(0, i as int));
            let ghost r_before = entry_views(row@);
            match remove_entry(row, &f) {
                Some(v) => {
                    insert_entry(&mut ordered, clone_string(&view.field_order[i]), v);
                },
                None => {},
            }
            i += 1;
        }
        assert(fs.subrange(0, fs.len() as int) =~= fs);
        let ghost o0 = entry_views(ordered@);
        let ghost r0 = entry_views(row@);
        let mut j: usize = 0;
        while j < row.len()
            invariant
                j <= row@.len(),
                r0 == entry_views(row@),
                hs == string_views(view.hidden_fields@),
                entry_views(ordered@) == append_visible(o0, r0.subrange(0, j as int), hs),
            decreases row.len() - j,
        {
            assert(r0.subrange(0, j + 1).drop_last() =~= r0.subrange(0, j as int));
            assert(r0[j as int] == (row@[j as int].0@, row@[j as int].1@));
            let key = chars_of(row[j].0.as_str());
            if !contains_string(&view.hidden_fields, &key) {
                insert_entry(&mut ordered, clone_string(&row[j].0), clone_json(&row[j].1));
            }
            j += 1;
        }
        assert(r0.subrange(0, r0.len() as int) =~= r0);
        *row = ordered;
    }
}

/// Project every row's attributes onto the view's visible fields.
pub fn project_fields(rows: &mut Vec<Vec<(String, JsonValue)>>, view: &ViewConfig)
    ensures
        final(rows)@.len() == old(rows)@.len(),
        forall|i: int| 0 <= i < old(rows)@.len() ==> entry_views(#[trigger] final(rows)@[i]@) == projected(
            entry_views(old(rows)@[i]@),
            string_views(view.hidden_fields@),
            string_views(view.field_order@),
        ),
{
    let mut i: usize = 0;
    while i < rows.len()
        invariant
            i <= rows@.len(),
            rows@.len() == old(rows)@.len(),
            forall|q: int| 0 <= q < i ==> entry_views(#[trigger] rows@[q]@) == projected(
                entry_views(old(rows)@[q]@),
                string_views(view.hidden_fields@),
                string_views(view.field_order@),
            ),
            forall|q: int| i <= q < rows@.len() ==> #[trigger] rows@[q] == old(rows)@[q],
        decreases rows.len() - i,
    {
        let mut row = Vec::new();
        std::mem::swap(&mut row, &mut rows[i]);
        project_row(&mut row, view);
        rows.set(i, row);
        i += 1;
    }
}

} // verus!
