//! Schema discovery types for the triple store, and the diff between two
//! schema snapshots.
//!
//! A schema maps type names to entity types, and an entity type maps
//! attribute names to attribute information.  Both maps are held as
//! vectors whose items carry their own (distinct) names; the diff visits
//! names in increasing order, so its output does not depend on the order
//! in which the vectors hold their items.
use vstd::prelude::*;
use crate::text::{chars_of, string_of};
use crate::json::clone_string;
use crate::named::{Named, names_distinct, name_set, named_pos, find_named, names_filtered, names_of};
use crate::order::{sort_distinct, sorted_set, strictly_sorted, lemma_is_sorted_set};

verus! {

/// Value type tags stored with every triple value; the tag of a variant
/// is its position in this list, from 0 (`String`) to 6 (`Json`).
#[derive(Debug, Clone, Copy, PartialEq, Eq, Hash, Structural)]
pub enum ValueType {
    /// UTF-8 string.
    String,
    /// 64-bit signed integer.
    Integer,
    /// 64-bit IEEE 754 float.
    Float,
    /// Boolean.
    Boolean,
    /// RFC 3339 timestamp.
    Timestamp,
    /// UUID reference to another entity.
    Reference,
    /// Arbitrary JSON blob.
    Json,
}

/// The `i16` tag of a value type.
pub open spec fn vt_code(v: ValueType) -> i16 {
    match v {
        ValueType::String => 0,
        ValueType::Integer => 1,
        ValueType::Float => 2,
        ValueType::Boolean => 3,
        ValueType::Timestamp => 4,
        ValueType::Reference => 5,
        ValueType::Json => 6,
    }
}

/// The value type with tag `v`, if any.
pub open spec fn vt_from_code(v: i16) -> Option<ValueType> {
    if v == 0 {
        Some(ValueType::String)
    } else if v == 1 {
        Some(ValueType::Integer)
    } else if v == 2 {
        Some(ValueType::Float)
    } else if v == 3 {
        Some(ValueType::Boolean)
    } else if v == 4 {
        Some(ValueType::Timestamp)
    } else if v == 5 {
        Some(ValueType::Reference)
    } else if v == 6 {
        Some(ValueType::Json)
    } else {
        None
    }
}

/// The lower-case label of a value type.
pub open spec fn vt_label(v: ValueType) -> Seq<char> {
    match v {
        ValueType::String => "string"@,
        ValueType::Integer => "integer"@,
        ValueType::Float => "float"@,
        ValueType::Boolean => "boolean"@,
        ValueType::Timestamp => "timestamp"@,
        ValueType::Reference => "reference"@,
        ValueType::Json => "json"@,
    }
}

impl ValueType {
    /// The value type with the given tag; `None` outside `0..=6`.
    pub fn from_i16(v: i16) -> (r: Option<ValueType>)
        ensures
            r == vt_from_code(v),
            r is Some <==> 0 <= v <= 6,
    {
        match v {
            0 => Some(ValueType::String),
            1 => Some(ValueType::Integer),
            2 => Some(ValueType::Float),
            3 => Some(ValueType::Boolean),
            4 => Some(ValueType::Timestamp),
            5 => Some(ValueType::Reference),
            6 => Some(ValueType::Json),
            _ => None,
        }
    }

    /// The tag of this value type.
    pub fn to_i16(self) -> (r: i16)
        ensures
            r == vt_code(self),
    {
        match self {
            ValueType::String => 0,
            ValueType::Integer => 1,
            ValueType::Float => 2,
            ValueType::Boolean => 3,
            ValueType::Timestamp => 4,
            ValueType::Reference => 5,
            ValueType::Json => 6,
        }
    }

    /// Human-readable label used in error messages and schema output.
    pub fn label(self) -> (r: &'static str)
        ensures
            r@ == vt_label(self),
    {
        match self {
            ValueType::String => "string",
            ValueType::Integer => "integer",
            ValueType::Float => "float",
            ValueType::Boolean => "boolean",
            ValueType::Timestamp => "timestamp",
            ValueType::Reference => "reference",
            ValueType::Json => "json",
        }
    }

    /// The label as an owned string (what the type displays as).
    pub fn to_string(self) -> (r: String)
        ensures
            r@ == vt_label(self),
    {
        self.label().to_owned()
    }

    /// The largest valid tag.
    pub fn max_discriminator() -> (r: i16)
        ensures
            r == 6,
            vt_from_code(r) is Some,
            vt_from_code((r + 1) as i16) is None,
    {
        6
    }
}

impl TryFrom<i16> for ValueType {
    type Error = i16;

    /// The value type with the given tag, or the tag itself as the error.
    fn try_from(v: i16) -> (r: Result<ValueType, i16>) {
        match ValueType::from_i16(v) {
            Some(t) => Ok(t),
            None => Err(v),
        }
    }
}

impl vstd::std_specs::convert::TryFromSpecImpl<i16> for ValueType {
    open spec fn obeys_try_from_spec() -> bool {
        true
    }

    open spec fn try_from_spec(v: i16) -> Result<ValueType, i16> {
        match vt_from_code(v) {
            Some(t) => Ok(t),
            None => Err(v),
        }
    }
}

/// Reading a type back from its tag gives the type; a tag that reads as a
/// type is that type's tag; and no two types share a tag.
pub proof fn lemma_value_type_code_round_trip(t: ValueType, v: i16)
    ensures
        vt_from_code(vt_code(t)) == Some(t),
        vt_from_code(v) == Some(t) ==> vt_code(t) == v,
        0 <= vt_code(t) <= 6,
{
}

/// Distinct value types have distinct labels.
pub proof fn lemma_value_type_labels_distinct(a: ValueType, b: ValueType)
    ensures
        a != b ==> vt_label(a) != vt_label(b),
{
    reveal_strlit("string");
    reveal_strlit("integer");
    reveal_strlit("float");
    reveal_strlit("boolean");
    reveal_strlit("timestamp");
    reveal_strlit("reference");
    reveal_strlit("json");
    if a != b {
        assert(vt_label(a)[0] != vt_label(b)[0]);
    }
}

/// Copies a list of value types.
pub fn copy_value_types(v: &Vec<ValueType>) -> (r: Vec<ValueType>)
    ensures
        r@ == v@,
{
    let mut out: Vec<ValueType> = Vec::new();
    let mut i: usize = 0;
    while i < v.len()
        invariant
            i <= v.len(),
            out@ == v@.subrange(0, i as int),
        decreases v.len() - i,
    {
        out.push(v[i]);
        i += 1;
        assert(out@ =~= v@.subrange(0, i as int));
    }
    assert(v@.subrange(0, v@.len() as int) =~= v@);
    out
}

/// Whether two lists of value types are equal.
pub fn value_types_equal(a: &Vec<ValueType>, b: &Vec<ValueType>) -> (r: bool)
    ensures
        r <==> a@ == b@,
{
    if a.len() != b.len() {
        return false;
    }
    let mut i: usize = 0;
    while i < a.len()
        invariant
            i <= a.len(),
            a@.len() == b@.len(),
            forall|j: int| 0 <= j < i ==> a@[j] == b@[j],
        decreases a.len() - i,
    {
        if a[i] != b[i] {
            return false;
        }
        i += 1;
    }
    assert(a@ =~= b@);
    true
}

// ── Schema model ───────────────────────────────────────────────────

/// Information about a single attribute within an entity type.
#[derive(Debug, Clone)]
pub struct AttributeInfo {
    /// The attribute name (e.g. `"email"`, `"created_at"`).
    pub name: String,
    /// Observed value types for this attribute across all entities.
    pub value_types: Vec<ValueType>,
    /// Whether every entity of this type carries the attribute.
    pub required: bool,
    /// Number of distinct entities that have this attribute.
    pub cardinality: u64,
}

impl Named for AttributeInfo {
    open spec fn name_view(&self) -> Seq<char> {
        self.name@
    }

    fn name_chars(&self) -> (r: Vec<char>) {
        chars_of(self.name.as_str())
    }
}

/// A discovered reference from one entity type to another.
#[derive(Debug, Clone)]
pub struct ReferenceInfo {
    /// The attribute name that holds the reference UUID.
    pub attribute: String,
    /// The inferred target entity type (best-effort).
    pub target_type: String,
    /// Number of entities carrying this reference.
    pub cardinality: u64,
}

/// A discovered entity type aggregated from triple data.
#[derive(Debug, Clone)]
pub struct EntityType {
    /// The type name, typically the value of the `:db/type` attribute.
    pub name: String,
    /// Attributes observed on entities of this type, one per name.
    pub attributes: Vec<AttributeInfo>,
    /// Outgoing references to other entity types.
    pub references: Vec<ReferenceInfo>,
    /// Total number of distinct entities of this type.
    pub entity_count: u64,
}

impl Named for EntityType {
    open spec fn name_view(&self) -> Seq<char> {
        self.name@
    }

    fn name_chars(&self) -> (r: Vec<char>) {
        chars_of(self.name.as_str())
    }
}

impl EntityType {
    /// No two attributes share a name.
    pub open spec fn wf(&self) -> bool {
        names_distinct(self.attributes@)
    }

    /// The attribute named `n`, if any.
    pub fn attribute(&self, n: &str) -> (r: Option<&AttributeInfo>)
        requires
            self.wf(),
        ensures
            match r {
                Some(a) => named_pos(self.attributes@, n@) matches Some(i) && *a == self.attributes@[i],
                None => named_pos(self.attributes@, n@) is None,
            },
    {
        let key = chars_of(n);
        match find_named(&self.attributes, &key) {
            Some(i) => Some(&self.attributes[i]),
            None => None,
        }
    }
}

/// Full schema snapshot inferred from the triple store.
#[derive(Debug, Clone)]
pub struct Schema {
    /// The entity types, one per name.
    pub entity_types: Vec<EntityType>,
    /// Transaction id at which this snapshot was taken.
    pub as_of_tx: i64,
}

impl Default for Schema {
    fn default() -> (r: Schema)
        ensures
            r.entity_types@.len() == 0,
            r.as_of_tx == 0,
    {
        Schema { entity_types: Vec::new(), as_of_tx: 0 }
    }
}

impl Schema {
    /// Type names are distinct, and so are the attribute names of each type.
    pub open spec fn wf(&self) -> bool {
        &&& names_distinct(self.entity_types@)
        &&& forall|i: int| 0 <= i < self.entity_types@.len() ==> (#[trigger] self.entity_types@[i]).wf()
    }

    /// The entity type named `n`, if any.
    pub fn entity_type(&self, n: &str) -> (r: Option<&EntityType>)
        requires
            self.wf(),
        ensures
            match r {
                Some(e) => named_pos(self.entity_types@, n@) matches Some(i) && *e == self.entity_types@[i],
                None => named_pos(self.entity_types@, n@) is None,
            },
    {
        let key = chars_of(n);
        match find_named(&self.entity_types, &key) {
            Some(i) => Some(&self.entity_types[i]),
            None => None,
        }
    }
}

// ── Migration actions ──────────────────────────────────────────────

/// A single migration action produced by diffing two schemas.
#[derive(Debug, Clone)]
pub enum MigrationAction {
    /// A new entity type appeared.
    AddEntityType { name: String },
    /// An entity type was removed (all entities retracted).
    RemoveEntityType { name: String },
    /// A new attribute appeared on a type.
    AddAttribute { entity_type: String, attribute: String, value_types: Vec<ValueType> },
    /// An attribute was removed from a type.
    RemoveAttribute { entity_type: String, attribute: String },
    /// An attribute changed its observed value types.
    AlterAttribute {
        entity_type: String,
        attribute: String,
        old_types: Vec<ValueType>,
        new_types: Vec<ValueType>,
    },
}

/// The mathematical shape of a [`MigrationAction`].
pub enum MigrationActionView {
    AddEntityType { name: Seq<char> },
    RemoveEntityType { name: Seq<char> },
    AddAttribute { entity_type: Seq<char>, attribute: Seq<char>, value_types: Seq<ValueType> },
    RemoveAttribute { entity_type: Seq<char>, attribute: Seq<char> },
    AlterAttribute {
        entity_type: Seq<char>,
        attribute: Seq<char>,
        old_types: Seq<ValueType>,
        new_types: Seq<ValueType>,
    },
}

impl View for MigrationAction {
    type V = MigrationActionView;

    open spec fn view(&self) -> MigrationActionView {
        match *self {
            MigrationAction::AddEntityType { name } => MigrationActionView::AddEntityType { name: name@ },
            MigrationAction::RemoveEntityType { name } => MigrationActionView::RemoveEntityType { name: name@ },
            MigrationAction::AddAttribute { entity_type, attribute, value_types } => MigrationActionView::AddAttribute {
                entity_type: entity_type@,
                attribute: attribute@,
                value_types: value_types@,
            },
            MigrationAction::RemoveAttribute { entity_type, attribute } => MigrationActionView::RemoveAttribute {
                entity_type: entity_type@,
                attribute: attribute@,
            },
            MigrationAction::AlterAttribute { entity_type, attribute, old_types, new_types } =>
                MigrationActionView::AlterAttribute {
                entity_type: entity_type@,
                attribute: attribute@,
                old_types: old_types@,
                new_types: new_types@,
            },
        }
    }
}

pub open spec fn migration_views(v: Seq<MigrationAction>) -> Seq<MigrationActionView> {
    Seq::new(v.len(), |i: int| v[i]@)
}

// ── The diff, stated ───────────────────────────────────────────────

/// The attribute named `n` among `attrs` (meaningful when there is one).
pub open spec fn attr_named(attrs: Seq<AttributeInfo>, n: Seq<char>) -> AttributeInfo {
    attrs[named_pos(attrs, n)->0]
}

/// The entity type named `n` among `ets` (meaningful when there is one).
pub open spec fn type_named(ets: Seq<EntityType>, n: Seq<char>) -> EntityType {
    ets[named_pos(ets, n)->0]
}

/// `AddAttribute` for each of the names `ns` of attributes of `et`.
pub open spec fn add_attr_actions(t: Seq<char>, et: EntityType, ns: Seq<Seq<char>>) -> Seq<MigrationActionView> {
    Seq::new(
        ns.len(),
        |k: int|
            MigrationActionView::AddAttribute {
                entity_type: t,
                attribute: ns[k],
                value_types: attr_named(et.attributes@, ns[k]).value_types@,
            },
    )
}

/// The actions for a new entity type: `AddEntityType`, then `AddAttribute`
/// for each of its attributes in name order.
pub open spec fn added_type_actions(et: EntityType) -> Seq<MigrationActionView> {
    seq![MigrationActionView::AddEntityType { name: et.name@ }] + add_attr_actions(
        et.name@,
        et,
        sorted_set(name_set(et.attributes@)),
    )
}

/// The action for the attribute `n` of `new_et`, on a type `old_et` also
/// has: `AddAttribute` when `old_et` lacks it, `AlterAttribute` when its
/// value types changed, none otherwise.
pub open spec fn attr_change(t: Seq<char>, old_et: EntityType, new_et: EntityType, n: Seq<char>) -> Seq<
    MigrationActionView,
> {
    let na = attr_named(new_et.attributes@, n);
    match named_pos(old_et.attributes@, n) {
        None => seq![
            MigrationActionView::AddAttribute { entity_type: t, attribute: n, value_types: na.value_types@ },
        ],
        Some(i) => {
            let oa = old_et.attributes@[i];
            if oa.value_types@ != na.value_types@ {
                seq![
                    MigrationActionView::AlterAttribute {
                        entity_type: t,
                        attribute: n,
                        old_types: oa.value_types@,
                        new_types: na.value_types@,
                    },
                ]
            } else {
                Seq::empty()
            }
        },
    }
}

/// [`attr_change`] for each of the names `ns`, in order.
pub open spec fn attr_changes(t: Seq<char>, old_et: EntityType, new_et: EntityType, ns: Seq<Seq<char>>) -> Seq<
    MigrationActionView,
>
    decreases ns.len(),
{
    if ns.len() == 0 {
        Seq::empty()
    } else {
        attr_changes(t, old_et, new_et, ns.drop_last()) + attr_change(t, old_et, new_et, ns.last())
    }
}

/// The additions and alterations for a type both schemas have, over the
/// new attributes in name order.
pub open spec fn common_type_changes(old_et: EntityType, new_et: EntityType) -> Seq<MigrationActionView> {
    attr_changes(new_et.name@, old_et, new_et, sorted_set(name_set(new_et.attributes@)))
}

/// `RemoveAttribute` for each attribute only the old type has, in name
/// order.
pub open spec fn common_type_removals(old_et: EntityType, new_et: EntityType) -> Seq<MigrationActionView> {
    let removed = sorted_set(name_set(old_et.attributes@).difference(name_set(new_et.attributes@)));
    Seq::new(
        removed.len(),
        |k: int| MigrationActionView::RemoveAttribute { entity_type: new_et.name@, attribute: removed[k] },
    )
}

/// [`added_type_actions`] for the types of `new` named `ns`, in order.
pub open spec fn added_types_actions(new: Schema, ns: Seq<Seq<char>>) -> Seq<MigrationActionView>
    decreases ns.len(),
{
    if ns.len() == 0 {
        Seq::empty()
    } else {
        added_types_actions(new, ns.drop_last()) + added_type_actions(type_named(new.entity_types@, ns.last()))
    }
}

/// [`common_type_changes`] for the types named `ns`, in order.
pub open spec fn common_types_changes(old: Schema, new: Schema, ns: Seq<Seq<char>>) -> Seq<MigrationActionView>
    decreases ns.len(),
{
    if ns.len() == 0 {
        Seq::empty()
    } else {
        common_types_changes(old, new, ns.drop_last()) + common_type_changes(
            type_named(old.entity_types@, ns.last()),
            type_named(new.entity_types@, ns.last()),
        )
    }
}

/// [`common_type_removals`] for the types named `ns`, in order.
pub open spec fn common_types_removals(old: Schema, new: Schema, ns: Seq<Seq<char>>) -> Seq<MigrationActionView>
    decreases ns.len(),
{
    if ns.len() == 0 {
        Seq::empty()
    } else {
        common_types_removals(old, new, ns.drop_last()) + common_type_removals(
            type_named(old.entity_types@, ns.last()),
            type_named(new.entity_types@, ns.last()),
        )
    }
}

/// The migration from `old` to `new`:
/// 1. for each type only `new` has, in name order, its addition and the
///    addition of each of its attributes in name order;
/// 2. for each type both have, in name order, its attribute additions and
///    alterations (in attribute name order);
/// 3. for each type both have, in name order, its attribute removals (in
///    attribute name order);
/// 4. `RemoveEntityType` for each type only `old` has, in name order.
pub open spec fn schema_diff(old: Schema, new: Schema) -> Seq<MigrationActionView> {
    let on = name_set(old.entity_types@);
    let nn = name_set(new.entity_types@);
    let removed = sorted_set(on.difference(nn));
    let common = sorted_set(on.intersect(nn));
    added_types_actions(new, sorted_set(nn.difference(on))) + common_types_changes(old, new, common)
        + common_types_removals(old, new, common) + Seq::new(removed.len(), |k: int| MigrationActionView::RemoveEntityType { name: removed[k] })
}

// ── The diff, computed ─────────────────────────────────────────────

fn push_migration(actions: &mut Vec<MigrationAction>, a: MigrationAction)
    ensures
        migration_views(final(actions)@) == migration_views(old(actions)@).push(a@),
{
    actions.push(a);
    assert(migration_views(actions@) =~= migration_views(old(actions)@).push(a@));
}

/// The names of the items of `v`, distinct and in increasing order.
fn sorted_names<T: Named>(v: &Vec<T>, other: Option<&Vec<T>>, present: bool) -> (r: Vec<Vec<char>>)
    requires
        names_distinct(v@),
        other matches Some(o) ==> names_distinct(o@),
    ensures
        names_of(r@) == sorted_set(
            crate::named::filtered_name_set(
                v@,
                match other {
                    Some(o) => Some(o@),
                    None => None,
                },
                present,
            ),
        ),
        names_of(r@).to_set() == crate::named::filtered_name_set(
            v@,
            match other {
                Some(o) => Some(o@),
                None => None,
            },
            present,
        ),
{
    let picked = names_filtered(v, other, present);
    let names = sort_distinct(picked);
    proof {
        assert(names_of(names@) =~= Seq::new(names@.len(), |i: int| names@[i]@));
        assert(names_of(picked@) =~= Seq::new(picked@.len(), |i: int| picked@[i]@));
        lemma_is_sorted_set(names_of(names@));
    }
    names
}

/// Position of the item named `n`, which `v` is known to have.
fn position_of<T: Named>(v: &Vec<T>, n: &Vec<char>) -> (r: usize)
    requires
        names_distinct(v@),
        name_set(v@).contains(n@),
    ensures
        named_pos(v@, n@) == Some(r as int),
        r < v@.len(),
        v@[r as int].name_view() == n@,
{
    match find_named(v, n) {
        Some(i) => i,
        None => {
            proof {
                let j = choose|j: int| 0 <= j < v@.len() && v@[j].name_view() == n@;
                assert(false);
            }
            0
        },
    }
}

/// Appends the actions for an entity type only the new schema has.
fn push_added_type(actions: &mut Vec<MigrationAction>, et: &EntityType)
    requires
        et.wf(),
    ensures
        migration_views(final(actions)@) == migration_views(old(actions)@) + added_type_actions(*et),
{
    let ghost start = migration_views(actions@);
    let ghost t = et.name@;
    push_migration(actions, MigrationAction::AddEntityType { name: clone_string(&et.name) });
    let ghost base = migration_views(actions@);
    let names = sorted_names(&et.attributes, None, true);
    let ghost ns = names_of(names@);
    assert(ns == sorted_set(name_set(et.attributes@)));
    let mut k: usize = 0;
    while k < names.len()
        invariant
            et.wf(),
            t == et.name@,
            k <= names@.len(),
            ns == names_of(names@),
            ns == sorted_set(name_set(et.attributes@)),
            ns.to_set() == name_set(et.attributes@),
            migration_views(actions@) == base + add_attr_actions(t, *et, ns.subrange(0, k as int)),
        decreases names.len() - k,
    {
        proof {
            assert(ns.to_set().contains(ns[k as int]));
        }
        let ai = position_of(&et.attributes, &names[k]);
        let a = &et.attributes[ai];
        push_migration(actions, MigrationAction::AddAttribute {
            entity_type: clone_string(&et.name),
            attribute: string_of(names[k].as_slice()),
            value_types: copy_value_types(&a.value_types),
        });
        assert(migration_views(actions@) =~= base + add_attr_actions(t, *et, ns.subrange(0, k + 1)));
        k += 1;
    }
    assert(ns.subrange(0, names@.len() as int) =~= ns);
    assert(migration_views(actions@) =~= start + added_type_actions(*et));
}

/// Appends the attribute additions and alterations for an entity type
/// both schemas have.
fn push_common_changes(actions: &mut Vec<MigrationAction>, old_et: &EntityType, new_et: &EntityType)
    requires
        old_et.wf(),
        new_et.wf(),
    ensures
        migration_views(final(actions)@) == migration_views(old(actions)@) + common_type_changes(*old_et, *new_et),
{
    let ghost start = migration_views(actions@);
    let ghost t = new_et.name@;
    let names = sorted_names(&new_et.attributes, None, true);
    let ghost ns = names_of(names@);
    let mut k: usize = 0;
    while k < names.len()
        invariant
            old_et.wf(),
            new_et.wf(),
            t == new_et.name@,
            k <= names@.len(),
            ns == names_of(names@),
            ns == sorted_set(name_set(new_et.attributes@)),
            ns.to_set() == name_set(new_et.attributes@),
            migration_views(actions@) == start + attr_changes(t, *old_et, *new_et, ns.subrange(0, k as int)),
        decreases names.len() - k,
    {
        proof {
            assert(ns.to_set().contains(ns[k as int]));
        }
        let ghost before = migration_views(actions@);
        let ni = position_of(&new_et.attributes, &names[k]);
        let na = &new_et.attributes[ni];
        match find_named(&old_et.attributes, &names[k]) {
            None => {
                push_migration(actions, MigrationAction::AddAttribute {
                    entity_type: clone_string(&new_et.name),
                    attribute: string_of(names[k].as_slice()),
                    value_types: copy_value_types(&na.value_types),
                });
            },
            Some(oi) => {
                let oa = &old_et.attributes[oi];
                if !value_types_equal(&oa.value_types, &na.value_types) {
                    push_migration(actions, MigrationAction::AlterAttribute {
                        entity_type: clone_string(&new_et.name),
                        attribute: string_of(names[k].as_slice()),
                        old_types: copy_value_types(&oa.value_types),
                        new_types: copy_value_types(&na.value_types),
                    });
                }
            },
        }
        proof {
            assert(ns.subrange(0, k + 1).drop_last() =~= ns.subrange(0, k as int));
            assert(ns.subrange(0, k + 1).last() == ns[k as int]);
            assert(migration_views(actions@) =~= before + attr_change(t, *old_et, *new_et, ns[k as int]));
        }
        k += 1;
    }
    assert(ns.subrange(0, names@.len() as int) =~= ns);
}

/// Appends the attribute removals for an entity type both schemas have.
fn push_common_removals(actions: &mut Vec<MigrationAction>, old_et: &EntityType, new_et: &EntityType)
    requires
        old_et.wf(),
        new_et.wf(),
    ensures
        migration_views(final(actions)@) == migration_views(old(actions)@) + common_type_removals(*old_et, *new_et),
{
    let ghost t = new_et.name@;
    let ghost mid = migration_views(actions@);
    let removed = sorted_names(&old_et.attributes, Some(&new_et.attributes), false);
    let ghost rs = names_of(removed@);
    let mut k: usize = 0;
    while k < removed.len()
        invariant
            t == new_et.name@,
            k <= removed@.len(),
            rs == names_of(removed@),
            migration_views(actions@) == mid + Seq::new(
                k as nat,
                |j: int| MigrationActionView::RemoveAttribute { entity_type: t, attribute: rs[j] },
            ),
        decreases removed.len() - k,
    {
        push_migration(actions, MigrationAction::RemoveAttribute {
            entity_type: clone_string(&new_et.name),
            attribute: string_of(removed[k].as_slice()),
        });
        assert(migration_views(actions@) =~= mid + Seq::new(
            (k + 1) as nat,
            |j: int| MigrationActionView::RemoveAttribute { entity_type: t, attribute: rs[j] },
        ));
        k += 1;
    }
    assert(migration_views(actions@) =~= mid + common_type_removals(*old_et, *new_et));
}

/// Diffs two [`Schema`] snapshots and produces migration actions.
pub struct MigrationGenerator;

impl MigrationGenerator {
    /// Compare `old` and `new`, returning the migration actions in the
    /// order [`schema_diff`] states: new types with their attributes, then
    /// attribute additions and alterations on common types, then attribute
    /// removals on common types, then removed types; each group in name
    /// order.
    pub fn diff(old: &Schema, new: &Schema) -> (r: Vec<MigrationAction>)
        requires
            old.wf(),
            new.wf(),
        ensures
            migration_views(r@) == schema_diff(*old, *new),
    {
        let mut actions: Vec<MigrationAction> = Vec::new();
        // 1. added entity types
        let added = sorted_names(&new.entity_types, Some(&old.entity_types), false);
        let ghost ads = names_of(added@);
        let mut k: usize = 0;
        while k < added.len()
            invariant
                old.wf(),
                new.wf(),
                k <= added@.len(),
                ads == names_of(added@),
                ads.to_set() == name_set(new.entity_types@).difference(name_set(old.entity_types@)),
                migration_views(actions@) == added_types_actions(*new, ads.subrange(0, k as int)),
            decreases added.len() - k,
        {
            proof {
                assert(ads.to_set().contains(ads[k as int]));
            }
            let ghost before = migration_views(actions@);
            let ni = position_of(&new.entity_types, &added[k]);
            push_added_type(&mut actions, &new.entity_types[ni]);
            proof {
                assert(ads.subrange(0, k + 1).drop_last() =~= ads.subrange(0, k as int));
                assert(ads.subrange(0, k + 1).last() == ads[k as int]);
            }
            k += 1;
        }
        assert(ads.subrange(0, added@.len() as int) =~= ads);
        let ghost part1 = migration_views(actions@);
        // 2. attribute additions and alterations on common entity types
        let common = sorted_names(&old.entity_types, Some(&new.entity_types), true);
        let ghost cs = names_of(common@);
        let mut k: usize = 0;
        while k < common.len()
            invariant
                old.wf(),
                new.wf(),
                k <= common@.len(),
                cs == names_of(common@),
                cs.to_set() == name_set(old.entity_types@).intersect(name_set(new.entity_types@)),
                migration_views(actions@) == part1 + common_types_changes(*old, *new, cs.subrange(0, k as int)),
            decreases common.len() - k,
        {
            proof {
                assert(cs.to_set().contains(cs[k as int]));
            }
            let oi = position_of(&old.entity_types, &common[k]);
            let ni = position_of(&new.entity_types, &common[k]);
            push_common_changes(&mut actions, &old.entity_types[oi], &new.entity_types[ni]);
            proof {
                assert(cs.subrange(0, k + 1).drop_last() =~= cs.subrange(0, k as int));
                assert(cs.subrange(0, k + 1).last() == cs[k as int]);
            }
            k += 1;
        }
        assert(cs.subrange(0, common@.len() as int) =~= cs);
        let ghost part2 = migration_views(actions@);
        // 3. attribute removals on common entity types
        let mut k: usize = 0;
        while k < common.len()
            invariant
                old.wf(),
                new.wf(),
                k <= common@.len(),
                cs == names_of(common@),
                cs.to_set() == name_set(old.entity_types@).intersect(name_set(new.entity_types@)),
                migration_views(actions@) == part2 + common_types_removals(*old, *new, cs.subrange(0, k as int)),
            decreases common.len() - k,
        {
            proof {
                assert(cs.to_set().contains(cs[k as int]));
            }
            let oi = position_of(&old.entity_types, &common[k]);
            let ni = position_of(&new.entity_types, &common[k]);
            push_common_removals(&mut actions, &old.entity_types[oi], &new.entity_types[ni]);
            proof {
                assert(cs.subrange(0, k + 1).drop_last() =~= cs.subrange(0, k as int));
                assert(cs.subrange(0, k + 1).last() == cs[k as int]);
            }
            k += 1;
        }
        assert(cs.subrange(0, common@.len() as int) =~= cs);
        let ghost part3 = migration_views(actions@);
        // 4. removed entity types
        let removed = sorted_names(&old.entity_types, Some(&new.entity_types), false);
        let ghost rs = names_of(removed@);
        let mut k: usize = 0;
        while k < removed.len()
            invariant
                k <= removed@.len(),
                rs == names_of(removed@),
                migration_views(actions@) == part3 + Seq::new(
                    k as nat,
                    |j: int| MigrationActionView::RemoveEntityType { name: rs[j] },
                ),
            decreases removed.len() - k,
        {
            push_migration(&mut actions, MigrationAction::RemoveEntityType {
                name: string_of(removed[k].as_slice()),
            });
            assert(migration_views(actions@) =~= part3 + Seq::new(
                (k + 1) as nat,
                |j: int| MigrationActionView::RemoveEntityType { name: rs[j] },
            ));
            k += 1;
        }
        assert(migration_views(actions@) =~= schema_diff(*old, *new));
        actions
    }
}

// ── Laws ───────────────────────────────────────────────────────────

/// The sorted names of `v` are exactly its names.
proof fn lemma_sorted_names<T: Named>(v: Seq<T>)
    ensures
        sorted_set(name_set(v)).to_set() == name_set(v),
{
    let names = Seq::new(v.len(), |i: int| v[i].name_view());
    assert(names.to_set() =~= name_set(v)) by {
        assert forall|x: Seq<char>| names.to_set().contains(x) <==> name_set(v).contains(x) by {
            if name_set(v).contains(x) {
                let j = choose|j: int| 0 <= j < v.len() && v[j].name_view() == x;
                assert(names[j] == x);
            }
        }
    }
    crate::order::lemma_sorted_exists(names);
}

proof fn lemma_attr_changes_self(et: EntityType, ns: Seq<Seq<char>>)
    requires
        et.wf(),
        forall|k: int| 0 <= k < ns.len() ==> name_set(et.attributes@).contains(#[trigger] ns[k]),
    ensures
        attr_changes(et.name@, et, et, ns).len() == 0,
    decreases ns.len(),
{
    if ns.len() > 0 {
        lemma_attr_changes_self(et, ns.drop_last());
        assert(name_set(et.attributes@).contains(ns[ns.len() - 1]));
        let j = choose|j: int| 0 <= j < et.attributes@.len() && et.attributes@[j].name_view() == ns.last();
    }
}

proof fn lemma_common_types_self(s: Schema, ns: Seq<Seq<char>>)
    requires
        s.wf(),
        forall|k: int| 0 <= k < ns.len() ==> name_set(s.entity_types@).contains(#[trigger] ns[k]),
    ensures
        common_types_changes(s, s, ns).len() == 0,
        common_types_removals(s, s, ns).len() == 0,
    decreases ns.len(),
{
    if ns.len() > 0 {
        lemma_common_types_self(s, ns.drop_last());
        assert(name_set(s.entity_types@).contains(ns[ns.len() - 1]));
        let j = choose|j: int| 0 <= j < s.entity_types@.len() && s.entity_types@[j].name_view() == ns.last();
        let et = type_named(s.entity_types@, ns.last());
        let attrs = name_set(et.attributes@);
        lemma_sorted_names(et.attributes@);
        let an = sorted_set(attrs);
        assert forall|k: int| 0 <= k < an.len() implies attrs.contains(#[trigger] an[k]) by {
            assert(an.to_set().contains(an[k]));
        }
        lemma_attr_changes_self(et, an);
        assert(attrs.difference(attrs) =~= Set::<Seq<char>>::empty());
        crate::order::lemma_sorted_set_empty();
    }
}

/// Diffing a (well-formed) schema against itself yields no actions.
pub proof fn lemma_schema_diff_self_is_empty(s: Schema)
    requires
        s.wf(),
    ensures
        schema_diff(s, s).len() == 0,
{
    let n = name_set(s.entity_types@);
    assert(n.difference(n) =~= Set::<Seq<char>>::empty());
    assert(n.intersect(n) =~= n);
    crate::order::lemma_sorted_set_empty();
    lemma_sorted_names(s.entity_types@);
    let cs = sorted_set(n);
    assert forall|k: int| 0 <= k < cs.len() implies n.contains(#[trigger] cs[k]) by {
        assert(cs.to_set().contains(cs[k]));
    }
    lemma_common_types_self(s, cs);
}

} // verus!
