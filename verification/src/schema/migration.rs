//! Schema versioning: the diff between two versions of a table schema.
use vstd::prelude::*;
use crate::text::{chars_of};
use crate::json::{JsonView, opt_json_eq, opt_json_eq_exec, opt_json_view, clone_opt_json, clone_string};
use crate::order::{sort_distinct, sorted_set, strictly_sorted, lemma_is_sorted_set};
use super::{
    IndexDefinition, FieldDefinition, FieldDefinitionView, FieldType, FieldTypeView, SchemaMode, TableSchema,
    clone_field, clone_opt_ft, clone_opt_string, clone_strings, field_name_set, field_names_distinct,
    field_pos, find_field, find_index, index_name_set, index_names_distinct, index_pos, opt_ft_equal,
    opt_ft_view, opt_str_view, opt_string_eq,
};

verus! {

/// A single migration step produced by diffing two schema versions.
#[derive(Debug, Clone)]
pub enum SchemaMigrationAction {
    /// Table schema mode changed (e.g. SCHEMALESS → SCHEMAFULL).
    ChangeMode { table: String, from: SchemaMode, to: SchemaMode },
    /// A new field was added.
    AddField { table: String, field: FieldDefinition },
    /// A field was removed.
    RemoveField { table: String, field_name: String },
    /// A field's type changed.
    AlterFieldType { table: String, field_name: String, from: Option<FieldType>, to: Option<FieldType> },
    /// A field's default value changed.
    AlterFieldDefault {
        table: String,
        field_name: String,
        from: Option<crate::json::JsonValue>,
        to: Option<crate::json::JsonValue>,
    },
    /// A field's assert expression changed.
    AlterFieldAssert { table: String, field_name: String, from: Option<String>, to: Option<String> },
    /// A field's required flag changed.
    AlterFieldRequired { table: String, field_name: String, from: bool, to: bool },
    /// An index was added.
    AddIndex { table: String, index_name: String, fields: Vec<String>, unique: bool },
    /// An index was removed.
    RemoveIndex { table: String, index_name: String },
}

/// The mathematical shape of a [`SchemaMigrationAction`].
pub enum ActionView {
    ChangeMode { table: Seq<char>, from: SchemaMode, to: SchemaMode },
    AddField { table: Seq<char>, field: FieldDefinitionView },
    RemoveField { table: Seq<char>, field_name: Seq<char> },
    AlterFieldType {
        table: Seq<char>,
        field_name: Seq<char>,
        from: Option<FieldTypeView>,
        to: Option<FieldTypeView>,
    },
    AlterFieldDefault { table: Seq<char>, field_name: Seq<char>, from: Option<JsonView>, to: Option<JsonView> },
    AlterFieldAssert { table: Seq<char>, field_name: Seq<char>, from: Option<Seq<char>>, to: Option<Seq<char>> },
    AlterFieldRequired { table: Seq<char>, field_name: Seq<char>, from: bool, to: bool },
    AddIndex { table: Seq<char>, index_name: Seq<char>, fields: Seq<Seq<char>>, unique: bool },
    RemoveIndex { table: Seq<char>, index_name: Seq<char> },
}

impl View for SchemaMigrationAction {
    type V = ActionView;

    open spec fn view(&self) -> ActionView {
        match *self {
            SchemaMigrationAction::ChangeMode { table, from, to } => ActionView::ChangeMode { table: table@, from, to },
            SchemaMigrationAction::AddField { table, field } => ActionView::AddField { table: table@, field: field@ },
            SchemaMigrationAction::RemoveField { table, field_name } => ActionView::RemoveField {
                table: table@,
                field_name: field_name@,
            },
            SchemaMigrationAction::AlterFieldType { table, field_name, from, to } => ActionView::AlterFieldType {
                table: table@,
                field_name: field_name@,
                from: opt_ft_view(from),
                to: opt_ft_view(to),
            },
            SchemaMigrationAction::AlterFieldDefault { table, field_name, from, to } => ActionView::AlterFieldDefault {
                table: table@,
                field_name: field_name@,
                from: opt_json_view(from),
                to: opt_json_view(to),
            },
            SchemaMigrationAction::AlterFieldAssert { table, field_name, from, to } => ActionView::AlterFieldAssert {
                table: table@,
                field_name: field_name@,
                from: opt_str_view(from),
                to: opt_str_view(to),
            },
            SchemaMigrationAction::AlterFieldRequired { table, field_name, from, to } => ActionView::AlterFieldRequired {
                table: table@,
                field_name: field_name@,
                from,
                to,
            },
            SchemaMigrationAction::AddIndex { table, index_name, fields, unique } => ActionView::AddIndex {
                table: table@,
                index_name: index_name@,
                fields: Seq::new(fields@.len(), |i: int| fields@[i]@),
                unique,
            },
            SchemaMigrationAction::RemoveIndex { table, index_name } => ActionView::RemoveIndex {
                table: table@,
                index_name: index_name@,
            },
        }
    }
}

pub open spec fn action_views(v: Seq<SchemaMigrationAction>) -> Seq<ActionView> {
    Seq::new(v.len(), |i: int| v[i]@)
}

/// The actions for the field `n` of `new` (which `new` defines).
pub open spec fn field_actions(old: TableSchema, new: TableSchema, n: Seq<char>) -> Seq<ActionView> {
    let t = new.name@;
    let nf = new.fields@[field_pos(new.fields@, n)->0]@;
    match field_pos(old.fields@, n) {
        None => seq![ActionView::AddField { table: t, field: nf }],
        Some(i) => {
            let of = old.fields@[i]@;
            (if of.field_type != nf.field_type {
                seq![ActionView::AlterFieldType { table: t, field_name: n, from: of.field_type, to: nf.field_type }]
            } else {
                Seq::empty()
            }) + (if !opt_json_eq(of.default_value, nf.default_value) {
                seq![ActionView::AlterFieldDefault { table: t, field_name: n, from: of.default_value, to: nf.default_value }]
            } else {
                Seq::empty()
            }) + (if of.assert_expr != nf.assert_expr {
                seq![ActionView::AlterFieldAssert { table: t, field_name: n, from: of.assert_expr, to: nf.assert_expr }]
            } else {
                Seq::empty()
            }) + (if of.required != nf.required {
                seq![ActionView::AlterFieldRequired { table: t, field_name: n, from: of.required, to: nf.required }]
            } else {
                Seq::empty()
            })
        },
    }
}

/// The field actions for the names `ns`, in order.
pub open spec fn fields_actions(old: TableSchema, new: TableSchema, ns: Seq<Seq<char>>) -> Seq<ActionView>
    decreases ns.len(),
{
    if ns.len() == 0 {
        Seq::empty()
    } else {
        fields_actions(old, new, ns.drop_last()) + field_actions(old, new, ns.last())
    }
}

/// The migration from `old` to `new`:
/// 1. a mode change, if the modes differ;
/// 2. for each field of `new` in name order: `AddField` if `old` lacks it,
///    otherwise the changes of its type, default, assert and required flag;
/// 3. `RemoveField` for each field only `old` has, in name order;
/// 4. `AddIndex` for each index only `new` has, in name order;
/// 5. `RemoveIndex` for each index only `old` has, in name order.
pub open spec fn schema_diff(old: TableSchema, new: TableSchema) -> Seq<ActionView> {
    let t = new.name@;
    let mode_part = if old.mode != new.mode {
        seq![ActionView::ChangeMode { table: t, from: old.mode, to: new.mode }]
    } else {
        Seq::empty()
    };
    let new_fields = sorted_set(field_name_set(new.fields@));
    let removed = sorted_set(field_name_set(old.fields@).difference(field_name_set(new.fields@)));
    let added_idx = sorted_set(index_name_set(new.indexes@).difference(index_name_set(old.indexes@)));
    let removed_idx = sorted_set(index_name_set(old.indexes@).difference(index_name_set(new.indexes@)));
    mode_part + fields_actions(old, new, new_fields) + Seq::new(
        removed.len(),
        |k: int| ActionView::RemoveField { table: t, field_name: removed[k] },
    ) + Seq::new(
        added_idx.len(),
        |k: int|
            {
                let ix = new.indexes@[index_pos(new.indexes@, added_idx[k])->0]@;
                ActionView::AddIndex { table: t, index_name: added_idx[k], fields: ix.fields, unique: ix.unique }
            },
    ) + Seq::new(removed_idx.len(), |k: int| ActionView::RemoveIndex { table: t, index_name: removed_idx[k] })
}

} // verus!

verus! {

pub open spec fn names_view(v: Seq<Vec<char>>) -> Seq<Seq<char>> {
    Seq::new(v.len(), |i: int| v[i]@)
}

/// Names of the fields of `a` that `b` does not define (all of them when
/// `b` is `None`), in the order of `a`.
fn field_names_minus(a: &Vec<FieldDefinition>, b: Option<&Vec<FieldDefinition>>) -> (r: Vec<Vec<char>>)
    requires
        field_names_distinct(a@),
        b matches Some(bb) ==> field_names_distinct(bb@),
    ensures
        forall|i: int, j: int| 0 <= i < j < r@.len() ==> r@[i]@ != r@[j]@,
        names_view(r@).to_set() == (match b {
            Some(bb) => field_name_set(a@).difference(field_name_set(bb@)),
            None => field_name_set(a@),
        }),
{
    let ghost target = match b {
        Some(bb) => field_name_set(a@).difference(field_name_set(bb@)),
        None => field_name_set(a@),
    };
    let mut r: Vec<Vec<char>> = Vec::new();
    let mut i: usize = 0;
    while i < a.len()
        invariant
            i <= a.len(),
            field_names_distinct(a@),
            b matches Some(bb) ==> field_names_distinct(bb@),
            target == (match b {
                Some(bb) => field_name_set(a@).difference(field_name_set(bb@)),
                None => field_name_set(a@),
            }),
            forall|p: int, q: int| 0 <= p < q < r@.len() ==> r@[p]@ != r@[q]@,
            forall|p: int| 0 <= p < r@.len() ==> exists|j: int| 0 <= j < i && (#[trigger] r@[p])@ == a@[j].name@,
            forall|x: Seq<char>| names_view(r@).to_set().contains(x) <==> (target.contains(x) && exists|j: int|
                0 <= j < i && a@[j].name@ == x),
        decreases a.len() - i,
    {
        let n = chars_of(a[i].name.as_str());
        let keep = match b {
            Some(bb) => find_field(bb, &n).is_none(),
            None => true,
        };
        let ghost before = r@;
        if keep {
            proof {
                assert forall|p: int| 0 <= p < r@.len() implies r@[p]@ != n@ by {
                    let j = choose|j: int| 0 <= j < i && (#[trigger] r@[p])@ == a@[j].name@;
                    assert(a@[j].name@ != a@[i as int].name@);
                }
            }
            r.push(n);
        }
        proof {
            assert forall|x: Seq<char>| names_view(r@).to_set().contains(x) <==> (target.contains(x) && exists|j: int|
                0 <= j < i + 1 && a@[j].name@ == x) by {
                if names_view(r@).to_set().contains(x) {
                    let p = choose|p: int| 0 <= p < names_view(r@).len() && names_view(r@)[p] == x;
                    if p < before.len() {
                        assert(names_view(before)[p] == x);
                        assert(names_view(before).to_set().contains(x));
                    } else {
                        assert(x == a@[i as int].name@);
                        assert(field_name_set(a@).contains(x));
                        match b {
                            Some(bb) => {
                                assert(!field_name_set(bb@).contains(x));
                            },
                            None => {},
                        }
                    }
                }
                if target.contains(x) && exists|j: int| 0 <= j < i + 1 && a@[j].name@ == x {
                    let j = choose|j: int| 0 <= j < i + 1 && a@[j].name@ == x;
                    if j < i {
                        assert(names_view(before).to_set().contains(x));
                        let p = choose|p: int| 0 <= p < names_view(before).len() && names_view(before)[p] == x;
                        assert(names_view(r@)[p] == x);
                    } else {
                        match b {
                            Some(bb) => {
                                assert(!field_name_set(bb@).contains(x));
                                assert(keep);
                            },
                            None => {},
                        }
                        assert(names_view(r@)[before.len() as int] == x);
                    }
                }
            }
        }
        i += 1;
    }
    proof {
        assert forall|x: Seq<char>| names_view(r@).to_set().contains(x) <==> target.contains(x) by {
            if target.contains(x) {
                assert(field_name_set(a@).contains(x));
            }
        }
        assert(names_view(r@).to_set() =~= target);
    }
    r
}

/// Names of the indexes of `a` that `b` does not define (all of them when
/// `b` is `None`), in the order of `a`.
fn index_names_minus(a: &Vec<IndexDefinition>, b: Option<&Vec<IndexDefinition>>) -> (r: Vec<Vec<char>>)
    requires
        index_names_distinct(a@),
        b matches Some(bb) ==> index_names_distinct(bb@),
    ensures
        forall|i: int, j: int| 0 <= i < j < r@.len() ==> r@[i]@ != r@[j]@,
        names_view(r@).to_set() == (match b {
            Some(bb) => index_name_set(a@).difference(index_name_set(bb@)),
            None => index_name_set(a@),
        }),
{
    let ghost target = match b {
        Some(bb) => index_name_set(a@).difference(index_name_set(bb@)),
        None => index_name_set(a@),
    };
    let mut r: Vec<Vec<char>> = Vec::new();
    let mut i: usize = 0;
    while i < a.len()
        invariant
            i <= a.len(),
            index_names_distinct(a@),
            b matches Some(bb) ==> index_names_distinct(bb@),
            target == (match b {
                Some(bb) => index_name_set(a@).difference(index_name_set(bb@)),
                None => index_name_set(a@),
            }),
            forall|p: int, q: int| 0 <= p < q < r@.len() ==> r@[p]@ != r@[q]@,
            forall|p: int| 0 <= p < r@.len() ==> exists|j: int| 0 <= j < i && (#[trigger] r@[p])@ == a@[j].name@,
            forall|x: Seq<char>| names_view(r@).to_set().contains(x) <==> (target.contains(x) && exists|j: int|
                0 <= j < i && a@[j].name@ == x),
        decreases a.len() - i,
    {
        let n = chars_of(a[i].name.as_str());
        let keep = match b {
            Some(bb) => find_index(bb, &n).is_none(),
            None => true,
        };
        let ghost before = r@;
        if keep {
            proof {
                assert forall|p: int| 0 <= p < r@.len() implies r@[p]@ != n@ by {
                    let j = choose|j: int| 0 <= j < i && (#[trigger] r@[p])@ == a@[j].name@;
                    assert(a@[j].name@ != a@[i as int].name@);
                }
            }
            r.push(n);
        }
        proof {
            assert forall|x: Seq<char>| names_view(r@).to_set().contains(x) <==> (target.contains(x) && exists|j: int|
                0 <= j < i + 1 && a@[j].name@ == x) by {
                if names_view(r@).to_set().contains(x) {
                    let p = choose|p: int| 0 <= p < names_view(r@).len() && names_view(r@)[p] == x;
                    if p < before.len() {
                        assert(names_view(before)[p] == x);
                        assert(names_view(before).to_set().contains(x));
                    } else {
                        assert(x == a@[i as int].name@);
                        assert(index_name_set(a@).contains(x));
                        match b {
                            Some(bb) => {
                                assert(!index_name_set(bb@).contains(x));
                            },
                            None => {},
                        }
                    }
                }
                if target.contains(x) && exists|j: int| 0 <= j < i + 1 && a@[j].name@ == x {
                    let j = choose|j: int| 0 <= j < i + 1 && a@[j].name@ == x;
                    if j < i {
                        assert(names_view(before).to_set().contains(x));
                        let p = choose|p: int| 0 <= p < names_view(before).len() && names_view(before)[p] == x;
                        assert(names_view(r@)[p] == x);
                    } else {
                        match b {
                            Some(bb) => {
                                assert(!index_name_set(bb@).contains(x));
                                assert(keep);
                            },
                            None => {},
                        }
                        assert(names_view(r@)[before.len() as int] == x);
                    }
                }
            }
        }
        i += 1;
    }
    proof {
        assert forall|x: Seq<char>| names_view(r@).to_set().contains(x) <==> target.contains(x) by {
            if target.contains(x) {
                assert(index_name_set(a@).contains(x));
            }
        }
        assert(names_view(r@).to_set() =~= target);
    }
    r
}

} // verus!

verus! {

fn push_action(actions: &mut Vec<SchemaMigrationAction>, a: SchemaMigrationAction)
    ensures
        action_views(final(actions)@) == action_views(old(actions)@).push(a@),
{
    actions.push(a);
    assert(action_views(actions@) =~= action_views(old(actions)@).push(a@));
}

/// Appends the actions for the field `n` of `new` (at position `ni`).
fn push_field_actions(
    actions: &mut Vec<SchemaMigrationAction>,
    prev: &TableSchema,
    next: &TableSchema,
    n: &Vec<char>,
    ni: usize,
)
    requires
        prev.wf(),
        next.wf(),
        field_pos(next.fields@, n@) == Some(ni as int),
        ni < next.fields@.len(),
    ensures
        action_views(final(actions)@) == action_views(old(actions)@) + field_actions(*prev, *next, n@),
{
    let ghost start = action_views(actions@);
    let nf = &next.fields[ni];
    match find_field(&prev.fields, n) {
        None => {
            push_action(actions, SchemaMigrationAction::AddField { table: clone_string(&next.name), field: clone_field(nf) });
            assert(action_views(actions@) =~= start + field_actions(*prev, *next, n@));
        },
        Some(oi) => {
            let of = &prev.fields[oi];
            let ghost ofv = of@;
            let ghost nfv = nf@;
            let ghost p1 = if ofv.field_type != nfv.field_type {
                seq![ActionView::AlterFieldType { table: next.name@, field_name: n@, from: ofv.field_type, to: nfv.field_type }]
            } else {
                Seq::<ActionView>::empty()
            };
            let ghost p2 = if !opt_json_eq(ofv.default_value, nfv.default_value) {
                seq![ActionView::AlterFieldDefault { table: next.name@, field_name: n@, from: ofv.default_value, to: nfv.default_value }]
            } else {
                Seq::<ActionView>::empty()
            };
            let ghost p3 = if ofv.assert_expr != nfv.assert_expr {
                seq![ActionView::AlterFieldAssert { table: next.name@, field_name: n@, from: ofv.assert_expr, to: nfv.assert_expr }]
            } else {
                Seq::<ActionView>::empty()
            };
            let ghost p4 = if ofv.required != nfv.required {
                seq![ActionView::AlterFieldRequired { table: next.name@, field_name: n@, from: ofv.required, to: nfv.required }]
            } else {
                Seq::<ActionView>::empty()
            };
            if !opt_ft_equal(&of.field_type, &nf.field_type) {
                push_action(actions, SchemaMigrationAction::AlterFieldType {
                    table: clone_string(&next.name),
                    field_name: crate::text::string_of(n.as_slice()),
                    from: clone_opt_ft(&of.field_type),
                    to: clone_opt_ft(&nf.field_type),
                });
            }
            assert(action_views(actions@) =~= start + p1);
            if !opt_json_eq_exec(&of.default_value, &nf.default_value) {
                push_action(actions, SchemaMigrationAction::AlterFieldDefault {
                    table: clone_string(&next.name),
                    field_name: crate::text::string_of(n.as_slice()),
                    from: clone_opt_json(&of.default_value),
                    to: clone_opt_json(&nf.default_value),
                });
            }
            assert(action_views(actions@) =~= start + p1 + p2);
            if !opt_string_eq(&of.assert_expr, &nf.assert_expr) {
                push_action(actions, SchemaMigrationAction::AlterFieldAssert {
                    table: clone_string(&next.name),
                    field_name: crate::text::string_of(n.as_slice()),
                    from: clone_opt_string(&of.assert_expr),
                    to: clone_opt_string(&nf.assert_expr),
                });
            }
            assert(action_views(actions@) =~= start + p1 + p2 + p3);
            if of.required != nf.required {
                push_action(actions, SchemaMigrationAction::AlterFieldRequired {
                    table: clone_string(&next.name),
                    field_name: crate::text::string_of(n.as_slice()),
                    from: of.required,
                    to: nf.required,
                });
            }
            assert(action_views(actions@) =~= start + p1 + p2 + p3 + p4);
            assert(field_actions(*prev, *next, n@) == p1 + p2 + p3 + p4);
            assert(action_views(actions@) =~= start + field_actions(*prev, *next, n@));
        },
    }
}

/// Produces the migration actions between two versions of a table schema.
pub struct SchemaMigrationEngine;

impl SchemaMigrationEngine {
    /// Diff two schema versions and return the migration actions, in the
    /// order [`schema_diff`] states.
    pub fn diff(old: &TableSchema, new: &TableSchema) -> (r: Vec<SchemaMigrationAction>)
        requires
            old.wf(),
            new.wf(),
        ensures
            action_views(r@) == schema_diff(*old, *new),
    {
        let mut actions: Vec<SchemaMigrationAction> = Vec::new();
        let ghost t = new.name@;
        // 1. mode change
        if old.mode != new.mode {
            push_action(&mut actions, SchemaMigrationAction::ChangeMode {
                table: clone_string(&new.name),
                from: old.mode,
                to: new.mode,
            });
        }
        let ghost mode_part = action_views(actions@);
        assert(mode_part =~= (if old.mode != new.mode {
            seq![ActionView::ChangeMode { table: t, from: old.mode, to: new.mode }]
        } else {
            Seq::<ActionView>::empty()
        }));
        // 2. added and altered fields, by name
        let names = sort_distinct(field_names_minus(&new.fields, None));
        let ghost ns = names_view(names@);
        proof {
            assert(ns =~= Seq::new(names@.len(), |i: int| names@[i]@));
            lemma_is_sorted_set(ns);
        }
        let mut k: usize = 0;
        while k < names.len()
            invariant
                old.wf(),
                new.wf(),
                k <= names@.len(),
                ns == names_view(names@),
                ns.to_set() == field_name_set(new.fields@),
                action_views(actions@) == mode_part + fields_actions(*old, *new, ns.subrange(0, k as int)),
            decreases names.len() - k,
        {
            proof {
                assert(ns.to_set().contains(ns[k as int]));
                assert(field_name_set(new.fields@).contains(names@[k as int]@));
            }
            let ni = find_field(&new.fields, &names[k]);
            let ni = match ni {
                Some(x) => x,
                None => {
                    proof {
                        let j = choose|j: int| 0 <= j < new.fields@.len() && new.fields@[j].name@ == names@[k as int]@;
                        assert(false);
                    }
                    0
                },
            };
            push_field_actions(&mut actions, old, new, &names[k], ni);
            proof {
                assert(ns.subrange(0, k + 1).drop_last() =~= ns.subrange(0, k as int));
                assert(ns.subrange(0, k + 1).last() == names@[k as int]@);
            }
            k += 1;
        }
        assert(ns.subrange(0, names@.len() as int) =~= ns);
        // 3. removed fields, by name
        let removed = sort_distinct(field_names_minus(&old.fields, Some(&new.fields)));
        let ghost rs = names_view(removed@);
        proof {
            assert(rs =~= Seq::new(removed@.len(), |i: int| removed@[i]@));
            lemma_is_sorted_set(rs);
        }
        let ghost base3 = action_views(actions@);
        let mut k: usize = 0;
        while k < removed.len()
            invariant
                k <= removed@.len(),
                rs == names_view(removed@),
                action_views(actions@) == base3 + Seq::new(
                    k as nat,
                    |j: int| ActionView::RemoveField { table: t, field_name: rs[j] },
                ),
                t == new.name@,
            decreases removed.len() - k,
        {
            let ghost before = action_views(actions@);
            push_action(&mut actions, SchemaMigrationAction::RemoveField {
                table: clone_string(&new.name),
                field_name: crate::text::string_of(removed[k].as_slice()),
            });
            assert(action_views(actions@) =~= base3 + Seq::new(
                (k + 1) as nat,
                |j: int| ActionView::RemoveField { table: t, field_name: rs[j] },
            ));
            k += 1;
        }
        // 4. added indexes, by name
        let added_idx = sort_distinct(index_names_minus(&new.indexes, Some(&old.indexes)));
        let ghost ais = names_view(added_idx@);
        proof {
            assert(ais =~= Seq::new(added_idx@.len(), |i: int| added_idx@[i]@));
            lemma_is_sorted_set(ais);
        }
        let ghost base4 = action_views(actions@);
        let mut k: usize = 0;
        while k < added_idx.len()
            invariant
                old.wf(),
                new.wf(),
                k <= added_idx@.len(),
                ais == names_view(added_idx@),
                ais.to_set() == index_name_set(new.indexes@).difference(index_name_set(old.indexes@)),
                action_views(actions@) == base4 + Seq::new(
                    k as nat,
                    |j: int|
                        {
                            let ix = new.indexes@[index_pos(new.indexes@, ais[j])->0]@;
                            ActionView::AddIndex { table: t, index_name: ais[j], fields: ix.fields, unique: ix.unique }
                        },
                ),
                t == new.name@,
            decreases added_idx.len() - k,
        {
            proof {
                assert(ais.to_set().contains(ais[k as int]));
            }
            let ii = find_index(&new.indexes, &added_idx[k]);
            let ii = match ii {
                Some(x) => x,
                None => {
                    proof {
                        let j = choose|j: int| 0 <= j < new.indexes@.len() && new.indexes@[j].name@ == added_idx@[k as int]@;
                        assert(false);
                    }
                    0
                },
            };
            let ix = &new.indexes[ii];
            let fields = clone_strings(&ix.fields);
            push_action(&mut actions, SchemaMigrationAction::AddIndex {
                table: clone_string(&new.name),
                index_name: crate::text::string_of(added_idx[k].as_slice()),
                fields,
                unique: ix.unique,
            });
            proof {
                let fv = Seq::new(fields@.len(), |i: int| fields@[i]@);
                assert(fv =~= ix@.fields);
            }
            assert(action_views(actions@) =~= base4 + Seq::new(
                (k + 1) as nat,
                |j: int|
                    {
                        let ix = new.indexes@[index_pos(new.indexes@, ais[j])->0]@;
                        ActionView::AddIndex { table: t, index_name: ais[j], fields: ix.fields, unique: ix.unique }
                    },
            ));
            k += 1;
        }
        // 5. removed indexes, by name
        let removed_idx = sort_distinct(index_names_minus(&old.indexes, Some(&new.indexes)));
        let ghost ris = names_view(removed_idx@);
        proof {
            assert(ris =~= Seq::new(removed_idx@.len(), |i: int| removed_idx@[i]@));
            lemma_is_sorted_set(ris);
        }
        let ghost base5 = action_views(actions@);
        let mut k: usize = 0;
        while k < removed_idx.len()
            invariant
                k <= removed_idx@.len(),
                ris == names_view(removed_idx@),
                action_views(actions@) == base5 + Seq::new(
                    k as nat,
                    |j: int| ActionView::RemoveIndex { table: t, index_name: ris[j] },
                ),
                t == new.name@,
            decreases removed_idx.len() - k,
        {
            push_action(&mut actions, SchemaMigrationAction::RemoveIndex {
                table: clone_string(&new.name),
                index_name: crate::text::string_of(removed_idx[k].as_slice()),
            });
            assert(action_views(actions@) =~= base5 + Seq::new(
                (k + 1) as nat,
                |j: int| ActionView::RemoveIndex { table: t, index_name: ris[j] },
            ));
            k += 1;
        }
        assert(action_views(actions@) =~= schema_diff(*old, *new));
        actions
    }
}

} // verus!

verus! {

/// Defaults of the fields of `s` hold no NaN.
pub open spec fn defaults_nan_free(s: TableSchema) -> bool {
    forall|i: int| 0 <= i < s.fields@.len() ==> match (#[trigger] s.fields@[i]@).default_value {
        Some(v) => crate::json::json_no_nan(v),
        None => true,
    }
}

proof fn lemma_fields_actions_self_empty(s: TableSchema, ns: Seq<Seq<char>>)
    requires
        s.wf(),
        defaults_nan_free(s),
        forall|k: int| 0 <= k < ns.len() ==> field_name_set(s.fields@).contains(#[trigger] ns[k]),
    ensures
        fields_actions(s, s, ns).len() == 0,
    decreases ns.len(),
{
    if ns.len() > 0 {
        lemma_fields_actions_self_empty(s, ns.drop_last());
        let n = ns.last();
        assert(field_name_set(s.fields@).contains(ns[ns.len() - 1]));
        let j = choose|j: int| 0 <= j < s.fields@.len() && s.fields@[j].name@ == n;
        let i = field_pos(s.fields@, n)->0;
        let f = s.fields@[i]@;
        match f.default_value {
            Some(v) => crate::json::lemma_json_eq_refl(v),
            None => {},
        }
    }
}

/// Diffing a (well-formed) schema against itself yields no actions.
pub proof fn lemma_diff_self_is_empty(s: TableSchema)
    requires
        s.wf(),
        defaults_nan_free(s),
    ensures
        schema_diff(s, s).len() == 0,
{
    let ns = sorted_set(field_name_set(s.fields@));
    let fs = field_name_set(s.fields@);
    // the names of `s` in order exist, since `fs` is finite
    let names = Seq::new(s.fields@.len(), |i: int| s.fields@[i].name@);
    assert(names.to_set() =~= fs) by {
        assert forall|x: Seq<char>| names.to_set().contains(x) <==> fs.contains(x) by {
            if fs.contains(x) {
                let j = choose|j: int| 0 <= j < s.fields@.len() && s.fields@[j].name@ == x;
                assert(names[j] == x);
            }
        }
    }
    crate::order::lemma_sorted_exists(names);
    assert forall|k: int| 0 <= k < ns.len() implies fs.contains(#[trigger] ns[k]) by {
        assert(ns.to_set().contains(ns[k]));
    }
    lemma_fields_actions_self_empty(s, ns);
    assert(fs.difference(fs) =~= Set::<Seq<char>>::empty());
    let is = index_name_set(s.indexes@);
    assert(is.difference(is) =~= Set::<Seq<char>>::empty());
    crate::order::lemma_sorted_set_empty();
}

// ── Backfilling defaults ───────────────────────────────────────────

/// What backfilling a field's default writes to each record of `table`
/// that lacks it: the attribute `{table}/{field}`, the default value, and
/// the value type of the field's type (JSON, 6, for an untyped field);
/// nothing when the field has no default.
pub fn backfill_plan(table: &str, field: &super::FieldDefinition) -> (r: Option<(String, crate::json::JsonValue, i16)>)
    ensures
        field.default_value is None <==> r is None,
        r matches Some(p) ==> {
            &&& p.0@ == table@ + "/"@ + field.name@
            &&& Some(p.1@) == opt_json_view(field.default_value)
            &&& p.2 == match field.field_type {
                Some(t) => super::ft_value_type(t@),
                None => 6,
            }
        },
{
    match &field.default_value {
        None => None,
        Some(d) => {
            let mut a = chars_of(table);
            crate::text::push_str_chars(&mut a, "/");
            crate::text::push_str_chars(&mut a, field.name.as_str());
            let vt: i16 = match &field.field_type {
                Some(t) => t.to_value_type_i16(),
                None => 6,
            };
            Some((crate::text::string_of(a.as_slice()), crate::json::clone_json(d), vt))
        },
    }
}

} // verus!
