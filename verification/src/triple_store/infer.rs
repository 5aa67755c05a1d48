//! Inferring the schema of the triple store from its live facts: each
//! entity type's attributes, the value types seen on them, how many
//! entities carry them, and which hold references.
use vstd::prelude::*;
use crate::json::{JsonValue, JsonView};
use crate::text::{chars_of, chars_eq, string_of};
use super::schema::{AttributeInfo, EntityType, ReferenceInfo, Schema, ValueType, vt_from_code};

verus! {

/// Observations per attribute: its name and the `(entity, value type)`
/// pairs seen, in order.
pub type Observations = Seq<(Seq<char>, Seq<(u128, i16)>)>;

/// Accumulates observations about a single entity type.
pub struct EntityTypeBuilder {
    name: String,
    attrs: Vec<(String, Vec<(u128, i16)>)>,
    entities: Vec<u128>,
}

pub open spec fn attr_names(a: Observations) -> Seq<Seq<char>> {
    Seq::new(a.len(), |i: int| a[i].0)
}

/// Recording that `entity` has `attribute` with a value of type `vt`.
pub open spec fn observe_attrs(a: Observations, entity: u128, attribute: Seq<char>, vt: i16) -> Observations {
    if exists|i: int| 0 <= i < a.len() && a[i].0 == attribute {
        let p = choose|i: int| 0 <= i < a.len() && a[i].0 == attribute;
        a.update(p, (attribute, a[p].1.push((entity, vt))))
    } else {
        a.push((attribute, seq![(entity, vt)]))
    }
}

/// The distinct entities seen, in order of first sight.
pub open spec fn observe_entity(es: Seq<u128>, entity: u128) -> Seq<u128> {
    if es.contains(entity) {
        es
    } else {
        es.push(entity)
    }
}

/// The number of distinct entities among observations.
pub open spec fn cardinality_of(obs: Seq<(u128, i16)>) -> nat {
    Seq::new(obs.len(), |i: int| obs[i].0).to_set().len()
}

/// The value types seen among observations, from tag `c` on, in tag
/// order, each once (tags of no value type are left out).
pub open spec fn types_from(obs: Seq<(u128, i16)>, c: int) -> Seq<ValueType>
    decreases 7 - c,
{
    if c < 0 || c >= 7 {
        Seq::empty()
    } else if exists|i: int| 0 <= i < obs.len() && obs[i].1 == c {
        seq![vt_from_code(c as i16)->0] + types_from(obs, c + 1)
    } else {
        types_from(obs, c + 1)
    }
}

pub open spec fn observed_types(obs: Seq<(u128, i16)>) -> Seq<ValueType> {
    types_from(obs, 0)
}

/// `a` describes the attribute with these observations in a type of
/// `count` entities: required when every entity carries it.
pub open spec fn is_attribute_info(a: AttributeInfo, o: (Seq<char>, Seq<(u128, i16)>), count: nat) -> bool {
    &&& a.name@ == o.0
    &&& a.value_types@ == observed_types(o.1)
    &&& a.cardinality == cardinality_of(o.1)
    &&& a.required == (cardinality_of(o.1) == count && count > 0)
}

/// The references of a type: the attributes `a[0..n]` (but `skip`) that
/// held a reference, as `(attribute, target, cardinality)`.
pub open spec fn references_of(a: Observations, skip: Option<Seq<char>>, target: Seq<char>, n: int) -> Seq<
    (Seq<char>, Seq<char>, nat),
>
    decreases n,
{
    if n <= 0 {
        Seq::empty()
    } else {
        let before = references_of(a, skip, target, n - 1);
        let o = a[n - 1];
        if skip != Some(o.0) && observed_types(o.1).contains(ValueType::Reference) {
            before.push((o.0, target, cardinality_of(o.1)))
        } else {
            before
        }
    }
}

/// The attributes `a[0..n]` but `skip`, in order.
pub open spec fn kept_attributes(a: Observations, skip: Option<Seq<char>>, n: int) -> Observations
    decreases n,
{
    if n <= 0 {
        Seq::empty()
    } else if skip == Some(a[n - 1].0) {
        kept_attributes(a, skip, n - 1)
    } else {
        kept_attributes(a, skip, n - 1).push(a[n - 1])
    }
}

/// `t` is the entity type built from these observations: its attributes
/// (but `skip`) in order of first sight, and the references among them
/// pointing at `target`.
pub open spec fn is_built(
    t: EntityType,
    name: Seq<char>,
    a: Observations,
    es: Seq<u128>,
    skip: Option<Seq<char>>,
    target: Seq<char>,
) -> bool {
    let kept = kept_attributes(a, skip, a.len() as int);
    &&& t.name@ == name
    &&& t.entity_count == es.len()
    &&& t.attributes@.len() == kept.len()
    &&& forall|i: int| 0 <= i < kept.len() ==> is_attribute_info(#[trigger] t.attributes@[i], kept[i], es.len())
    &&& Seq::new(t.references@.len(), |i: int| (t.references@[i].attribute@, t.references@[i].target_type@, t.references@[i].cardinality as nat))
        == references_of(a, skip, target, a.len() as int)
}

impl EntityTypeBuilder {
    pub closed spec fn name_view(&self) -> Seq<char> {
        self.name@
    }

    pub closed spec fn observations(&self) -> Observations {
        Seq::new(self.attrs@.len(), |i: int| (self.attrs@[i].0@, self.attrs@[i].1@))
    }

    pub closed spec fn entities(&self) -> Seq<u128> {
        self.entities@
    }

    /// Attribute names and entities are each distinct.
    pub closed spec fn wf(&self) -> bool {
        &&& attr_names(self.observations()).no_duplicates()
        &&& self.entities@.no_duplicates()
    }

    /// A builder that has seen nothing.
    pub fn new(name: String) -> (r: Self)
        ensures
            r.wf(),
            r.name_view() == name@,
            r.observations() == Seq::<(Seq<char>, Seq<(u128, i16)>)>::empty(),
            r.entities() == Seq::<u128>::empty(),
    {
        let r = EntityTypeBuilder { name, attrs: Vec::new(), entities: Vec::new() };
        assert(r.observations() =~= Seq::<(Seq<char>, Seq<(u128, i16)>)>::empty());
        r
    }

    /// Record that `entity_id` has `attribute` with a value of type `vt`.
    pub fn observe(&mut self, entity_id: u128, attribute: &str, value_type: i16)
        requires
            old(self).wf(),
        ensures
            final(self).wf(),
            final(self).name_view() == old(self).name_view(),
            final(self).observations() == observe_attrs(old(self).observations(), entity_id, attribute@, value_type),
            final(self).entities() == observe_entity(old(self).entities(), entity_id),
    {
        let ghost obs0 = self.observations();
        let ghost es0 = self.entities@;
        let mut seen = false;
        let mut k: usize = 0;
        while k < self.entities.len()
            invariant
                k <= self.entities@.len(),
                self.entities@ == es0,
                !seen ==> forall|j: int| 0 <= j < k ==> self.entities@[j] != entity_id,
                seen ==> es0.contains(entity_id),
            decreases self.entities.len() - k,
        {
            if self.entities[k] == entity_id {
                seen = true;
                assert(es0[k as int] == entity_id);
            }
            k += 1;
        }
        if !seen {
            self.entities.push(entity_id);
        }
        let key = chars_of(attribute);
        let mut pos: Option<usize> = None;
        let mut i: usize = 0;
        while i < self.attrs.len()
            invariant
                i <= self.attrs@.len(),
                obs0 == Seq::new(self.attrs@.len(), |j: int| (self.attrs@[j].0@, self.attrs@[j].1@)),
                attr_names(obs0).no_duplicates(),
                key@ == attribute@,
                match pos {
                    Some(p) => p < self.attrs@.len() && obs0[p as int].0 == attribute@,
                    None => forall|j: int| 0 <= j < i ==> obs0[j].0 != attribute@,
                },
            decreases self.attrs.len() - i,
        {
            if pos.is_none() && chars_eq(chars_of(self.attrs[i].0.as_str()).as_slice(), key.as_slice()) {
                pos = Some(i);
            }
            i += 1;
        }
        match pos {
            Some(p) => {
                let ghost c = choose|j: int| 0 <= j < obs0.len() && obs0[j].0 == attribute@;
                assert(c == p) by {
                    if c != p {
                        assert(attr_names(obs0)[c] == attr_names(obs0)[p as int]);
                    }
                }
                let mut entry = (String::new(), Vec::new());
                std::mem::swap(&mut entry, &mut self.attrs[p]);
                entry.1.push((entity_id, value_type));
                self.attrs.set(p, entry);
                assert(self.observations() =~= obs0.update(p as int, (attribute@, obs0[p as int].1.push((entity_id, value_type)))));
                assert(attr_names(self.observations()) =~= attr_names(obs0));
            },
            None => {
                let mut v: Vec<(u128, i16)> = Vec::new();
                v.push((entity_id, value_type));
                self.attrs.push((string_of(key.as_slice()), v));
                assert(self.observations() =~= obs0.push((attribute@, seq![(entity_id, value_type)])));
                assert(attr_names(self.observations()) =~= attr_names(obs0).push(attribute@));
            },
        }
    }
}


fn distinct_entities(obs: &Vec<(u128, i16)>) -> (r: Vec<u128>)
    ensures
        r@.no_duplicates(),
        r@.to_set() == Seq::new(obs@.len(), |i: int| obs@[i].0).to_set(),
{
    let ghost es = Seq::new(obs@.len(), |i: int| obs@[i].0);
    let mut out: Vec<u128> = Vec::new();
    let mut i: usize = 0;
    assert(out@.to_set() =~= es.take(0).to_set());
    while i < obs.len()
        invariant
            i <= obs@.len(),
            es == Seq::new(obs@.len(), |i: int| obs@[i].0),
            out@.no_duplicates(),
            out@.to_set() == es.take(i as int).to_set(),
        decreases obs.len() - i,
    {
        let e = obs[i].0;
        assert(es.take(i + 1) =~= es.take(i as int).push(e));
        proof {
            es.take(i as int).lemma_push_to_set_commute(e);
        }
        let mut seen = false;
        let mut j: usize = 0;
        while j < out.len()
            invariant
                j <= out@.len(),
                !seen ==> forall|a: int| 0 <= a < j ==> out@[a] != e,
                seen ==> out@.contains(e),
            decreases out.len() - j,
        {
            if out[j] == e {
                seen = true;
                assert(out@[j as int] == e);
            }
            j += 1;
        }
        if !seen {
            let ghost before = out@;
            out.push(e);
            proof {
                before.lemma_push_to_set_commute(e);
            }
        } else {
            assert(out@.to_set().contains(e));
            assert(es.take(i as int).to_set().insert(e) =~= es.take(i as int).to_set());
        }
        i += 1;
    }
    assert(es.take(obs@.len() as int) =~= es);
    out
}

fn observed_types_exec(obs: &Vec<(u128, i16)>) -> (r: Vec<ValueType>)
    ensures
        r@ == observed_types(obs@),
{
    let mut out: Vec<ValueType> = Vec::new();
    let mut c: i16 = 0;
    assert(out@ + types_from(obs@, 0) =~= types_from(obs@, 0));
    while c < 7
        invariant
            0 <= c <= 7,
            observed_types(obs@) == out@ + types_from(obs@, c as int),
        decreases 7 - c,
    {
        let mut found = false;
        let mut i: usize = 0;
        while i < obs.len()
            invariant
                i <= obs@.len(),
                !found ==> forall|j: int| 0 <= j < i ==> obs@[j].1 != c,
                found ==> exists|j: int| 0 <= j < obs@.len() && obs@[j].1 == c,
            decreases obs.len() - i,
        {
            if obs[i].1 == c {
                found = true;
            }
            i += 1;
        }
        let ghost before = out@;
        if found {
            match ValueType::from_i16(c) {
                Some(v) => {
                    out.push(v);
                    assert(before + types_from(obs@, c as int) =~= out@ + types_from(obs@, c + 1));
                },
                None => {},
            }
        }
        c += 1;
    }
    assert(out@ + Seq::<ValueType>::empty() =~= out@);
    out
}

fn attribute_info(name: &String, obs: &Vec<(u128, i16)>, count: u64) -> (r: AttributeInfo)
    ensures
        is_attribute_info(r, (name@, obs@), count as nat),
{
    let d = distinct_entities(obs);
    proof {
        d@.unique_seq_to_set();
    }
    let card = d.len() as u64;
    AttributeInfo {
        name: crate::json::clone_string(name),
        value_types: observed_types_exec(obs),
        required: card == count && count > 0,
        cardinality: card,
    }
}

impl EntityTypeBuilder {
    /// The entity type seen: its attributes but `skip`, with references
    /// pointing at `target`.
    pub fn build(self, skip: Option<&str>, target: &str) -> (r: EntityType)
        requires
            self.wf(),
        ensures
            is_built(r, self.name_view(), self.observations(), self.entities(), opt_view(skip), target@),
    {
        let ghost a = self.observations();
        let ghost sk = opt_view(skip);
        let count = self.entities.len() as u64;
        let mut attributes: Vec<AttributeInfo> = Vec::new();
        let mut references: Vec<ReferenceInfo> = Vec::new();
        let mut i: usize = 0;
        while i < self.attrs.len()
            invariant
                i <= self.attrs@.len(),
                a == Seq::new(self.attrs@.len(), |j: int| (self.attrs@[j].0@, self.attrs@[j].1@)),
                sk == opt_view(skip),
                count == self.entities@.len(),
                attributes@.len() == kept_attributes(a, sk, i as int).len(),
                forall|j: int|
                    0 <= j < attributes@.len() ==> is_attribute_info(
                        #[trigger] attributes@[j],
                        kept_attributes(a, sk, i as int)[j],
                        count as nat,
                    ),
                Seq::new(references@.len(), |j: int| (references@[j].attribute@, references@[j].target_type@, references@[j].cardinality as nat))
                    == references_of(a, sk, target@, i as int),
            decreases self.attrs.len() - i,
        {
            let name = &self.attrs[i].0;
            let obs = &self.attrs[i].1;
            assert(a[i as int] == (name@, obs@));
            let skipped = match skip {
                Some(s) => chars_eq(chars_of(name.as_str()).as_slice(), chars_of(s).as_slice()),
                None => false,
            };
            if !skipped {
                let info = attribute_info(name, obs, count);
                let ghost before = attributes@;
                let ghost rb = Seq::new(references@.len(), |j: int| (references@[j].attribute@, references@[j].target_type@, references@[j].cardinality as nat));
                let is_ref = {
                    let mut found = false;
                    let mut k: usize = 0;
                    while k < info.value_types.len()
                        invariant
                            k <= info.value_types@.len(),
                            found == exists|j: int| 0 <= j < k && info.value_types@[j] == ValueType::Reference,
                        decreases info.value_types.len() - k,
                    {
                        if info.value_types[k] == ValueType::Reference {
                            found = true;
                        }
                        k += 1;
                    }
                    proof {
                        if found {
                            let j = choose|j: int| 0 <= j < k && info.value_types@[j] == ValueType::Reference;
                            assert(info.value_types@.contains(info.value_types@[j]));
                        }
                    }
                    found
                };
                if is_ref {
                    references.push(
                        ReferenceInfo {
                            attribute: crate::json::clone_string(name),
                            target_type: string_of(chars_of(target).as_slice()),
                            cardinality: info.cardinality,
                        },
                    );
                    assert(Seq::new(references@.len(), |j: int| (references@[j].attribute@, references@[j].target_type@, references@[j].cardinality as nat))
                        =~= rb.push((name@, target@, info.cardinality as nat)));
                }
                attributes.push(info);
                assert(kept_attributes(a, sk, i + 1) == kept_attributes(a, sk, i as int).push(a[i as int]));
            } else {
                assert(sk == Some(a[i as int].0));
            }
            i += 1;
        }
        EntityType { name: self.name, attributes, references, entity_count: count }
    }
}

pub open spec fn opt_view(s: Option<&str>) -> Option<Seq<char>> {
    match s {
        Some(t) => Some(t@),
        None => None,
    }
}


// ── Whole schemas ──────────────────────────────────────────────────

/// A group of observations: the type name, its attributes, its entities.
pub type Group = (Seq<char>, Observations, Seq<u128>);

/// Adding the observation `(entity, attribute, vt)` to the group named
/// `t` (a new group at the end when there is none yet).
pub open spec fn group_observe(gs: Seq<Group>, t: Seq<char>, entity: u128, attribute: Seq<char>, vt: i16) -> Seq<Group> {
    if exists|i: int| 0 <= i < gs.len() && gs[i].0 == t {
        let p = choose|i: int| 0 <= i < gs.len() && gs[i].0 == t;
        gs.update(p, (t, observe_attrs(gs[p].1, entity, attribute, vt), observe_entity(gs[p].2, entity)))
    } else {
        gs.push((t, observe_attrs(Seq::empty(), entity, attribute, vt), observe_entity(Seq::empty(), entity)))
    }
}

/// The type name of a row: the text of its `:db/type`, `_untyped` when it
/// has none.
pub open spec fn row_type(t: Option<JsonView>) -> Seq<char> {
    match t {
        Some(JsonView::String(s)) => s,
        _ => "_untyped"@,
    }
}

/// The groups of the rows `rows[0..n]` (entity, attribute, value type,
/// `:db/type` value), by type name in order of first sight.
pub open spec fn groups_of(rows: Seq<(u128, Seq<char>, i16, Option<JsonView>)>, n: int) -> Seq<Group>
    decreases n,
{
    if n <= 0 {
        Seq::empty()
    } else {
        let r = rows[n - 1];
        group_observe(groups_of(rows, n - 1), row_type(r.3), r.0, r.1, r.2)
    }
}

/// `s` holds one entity type per group, built from it.
pub open spec fn is_schema_of(s: Schema, gs: Seq<Group>, skip: Option<Seq<char>>, target: Seq<char>) -> bool {
    &&& s.entity_types@.len() == gs.len()
    &&& forall|i: int|
        0 <= i < gs.len() ==> is_built(#[trigger] s.entity_types@[i], gs[i].0, gs[i].1, gs[i].2, skip, target)
}

pub open spec fn typed_row_views(rows: Seq<(u128, String, i16, Option<JsonValue>)>) -> Seq<(u128, Seq<char>, i16, Option<JsonView>)> {
    Seq::new(
        rows.len(),
        |i: int|
            (
                rows[i].0,
                rows[i].1@,
                rows[i].2,
                match rows[i].3 {
                    Some(v) => Some(v@),
                    None => None,
                },
            ),
    )
}

pub closed spec fn builder_group(b: EntityTypeBuilder) -> Group {
    (b.name@, b.observations(), b.entities())
}

fn find_builder(bs: &Vec<EntityTypeBuilder>, t: &Vec<char>) -> (r: Option<usize>)
    requires
        Seq::new(bs@.len(), |i: int| bs@[i].name@).no_duplicates(),
    ensures
        match r {
            Some(p) => p < bs@.len() && bs@[p as int].name@ == t@ && (choose|i: int|
                0 <= i < bs@.len() && builder_group(bs@[i]).0 == t@) == p,
            None => !(exists|i: int| 0 <= i < bs@.len() && builder_group(bs@[i]).0 == t@),
        },
{
    let ghost names = Seq::new(bs@.len(), |i: int| bs@[i].name@);
    let mut i: usize = 0;
    while i < bs.len()
        invariant
            i <= bs@.len(),
            names == Seq::new(bs@.len(), |i: int| bs@[i].name@),
            names.no_duplicates(),
            forall|j: int| 0 <= j < i ==> bs@[j].name@ != t@,
        decreases bs.len() - i,
    {
        if chars_eq(chars_of(bs[i].name.as_str()).as_slice(), t.as_slice()) {
            proof {
                let c = choose|c: int| 0 <= c < bs@.len() && builder_group(bs@[c]).0 == t@;
                if c != i {
                    assert(names[c] == names[i as int]);
                }
            }
            return Some(i);
        }
        i += 1;
    }
    None
}

/// Feed the observation `(entity, attribute, vt)` of type `t` to the
/// builders.
fn observe_typed(bs: &mut Vec<EntityTypeBuilder>, t: &Vec<char>, entity: u128, attribute: &str, vt: i16)
    requires
        forall|i: int| 0 <= i < old(bs)@.len() ==> (#[trigger] old(bs)@[i]).wf(),
        Seq::new(old(bs)@.len(), |i: int| old(bs)@[i].name@).no_duplicates(),
    ensures
        forall|i: int| 0 <= i < final(bs)@.len() ==> (#[trigger] final(bs)@[i]).wf(),
        Seq::new(final(bs)@.len(), |i: int| final(bs)@[i].name@).no_duplicates(),
        Seq::new(final(bs)@.len(), |i: int| builder_group(final(bs)@[i])) == group_observe(
            Seq::new(old(bs)@.len(), |i: int| builder_group(old(bs)@[i])),
            t@,
            entity,
            attribute@,
            vt,
        ),
{
    let ghost gs0 = Seq::new(bs@.len(), |i: int| builder_group(bs@[i]));
    let ghost names0 = Seq::new(bs@.len(), |i: int| bs@[i].name@);
    match find_builder(bs, t) {
        Some(p) => {
            proof {
                assert(gs0[p as int].0 == t@);
                let c = choose|i: int| 0 <= i < gs0.len() && gs0[i].0 == t@;
                if c != p {
                    assert(names0[c] == names0[p as int]);
                }
            }
            let mut b = EntityTypeBuilder::new(String::new());
            std::mem::swap(&mut b, &mut bs[p]);
            b.observe(entity, attribute, vt);
            bs.set(p, b);
            assert(Seq::new(bs@.len(), |i: int| bs@[i].name@) =~= names0);
            assert(Seq::new(bs@.len(), |i: int| builder_group(bs@[i])) =~= gs0.update(
                p as int,
                (t@, observe_attrs(gs0[p as int].1, entity, attribute@, vt), observe_entity(gs0[p as int].2, entity)),
            ));
        },
        None => {
            assert(!(exists|i: int| 0 <= i < gs0.len() && gs0[i].0 == t@)) by {
                if exists|i: int| 0 <= i < gs0.len() && gs0[i].0 == t@ {
                    let c = choose|i: int| 0 <= i < gs0.len() && gs0[i].0 == t@;
                    assert(builder_group(bs@[c]).0 == t@);
                }
            }
            let mut b = EntityTypeBuilder::new(string_of(t.as_slice()));
            b.observe(entity, attribute, vt);
            bs.push(b);
            assert(Seq::new(bs@.len(), |i: int| bs@[i].name@) =~= names0.push(t@));
            assert(Seq::new(bs@.len(), |i: int| builder_group(bs@[i])) =~= gs0.push(
                (t@, observe_attrs(Seq::empty(), entity, attribute@, vt), observe_entity(Seq::empty(), entity)),
            ));
        },
    }
}

fn build_all(bs: Vec<EntityTypeBuilder>, skip: Option<&str>, target: &str, as_of_tx: i64) -> (r: Schema)
    requires
        forall|i: int| 0 <= i < bs@.len() ==> (#[trigger] bs@[i]).wf(),
    ensures
        r.as_of_tx == as_of_tx,
        is_schema_of(r, Seq::new(bs@.len(), |i: int| builder_group(bs@[i])), opt_view(skip), target@),
{
    let ghost gs = Seq::new(bs@.len(), |i: int| builder_group(bs@[i]));
    let n = bs.len();
    let mut rest = bs;
    let mut out: Vec<EntityType> = Vec::new();
    let mut taken: usize = 0;
    while rest.len() > 0
        invariant
            taken + rest@.len() == n,
            gs.len() == n,
            forall|i: int| 0 <= i < rest@.len() ==> (#[trigger] rest@[i]).wf(),
            forall|i: int| 0 <= i < rest@.len() ==> builder_group(#[trigger] rest@[i]) == gs[taken + i],
            out@.len() == taken,
            forall|i: int|
                0 <= i < taken ==> is_built(#[trigger] out@[i], gs[i].0, gs[i].1, gs[i].2, opt_view(skip), target@),
        decreases rest.len(),
    {
        let ghost r0 = rest@;
        let b = rest.remove(0);
        assert(builder_group(b) == gs[taken as int]);
        assert forall|i: int| 0 <= i < rest@.len() implies builder_group(#[trigger] rest@[i]) == gs[taken + 1 + i] by {
            assert(rest@[i] == r0[i + 1]);
        }
        assert forall|i: int| 0 <= i < rest@.len() implies (#[trigger] rest@[i]).wf() by {
            assert(rest@[i] == r0[i + 1]);
        }
        proof {
            reveal_builder(b);
        }
        let t = b.build(skip, target);
        out.push(t);
        taken += 1;
    }
    Schema { entity_types: out, as_of_tx }
}

proof fn reveal_builder(b: EntityTypeBuilder)
    ensures
        builder_group(b) == (b.name_view(), b.observations(), b.entities()),
{
}

/// The schema of the rows `(entity, attribute, value type, :db/type
/// value)`: one entity type per type name in order of first sight (rows
/// of entities without a type under `_untyped`), references pointing at
/// `_unknown`.
pub fn schema_from_rows(rows: &Vec<(u128, String, i16, Option<JsonValue>)>, as_of_tx: i64) -> (r: Schema)
    ensures
        r.as_of_tx == as_of_tx,
        is_schema_of(r, groups_of(typed_row_views(rows@), rows@.len() as int), None, "_unknown"@),
{
    let ghost rv = typed_row_views(rows@);
    let mut bs: Vec<EntityTypeBuilder> = Vec::new();
    let mut i: usize = 0;
    assert(Seq::new(bs@.len(), |j: int| builder_group(bs@[j])) =~= groups_of(rv, 0));
    assert(Seq::new(bs@.len(), |j: int| bs@[j].name@) =~= Seq::<Seq<char>>::empty());
    while i < rows.len()
        invariant
            i <= rows@.len(),
            rv == typed_row_views(rows@),
            forall|j: int| 0 <= j < bs@.len() ==> (#[trigger] bs@[j]).wf(),
            Seq::new(bs@.len(), |j: int| bs@[j].name@).no_duplicates(),
            Seq::new(bs@.len(), |j: int| builder_group(bs@[j])) == groups_of(rv, i as int),
        decreases rows.len() - i,
    {
        let t = match &rows[i].3 {
            Some(JsonValue::String(s)) => chars_of(s.as_str()),
            _ => chars_of("_untyped"),
        };
        assert(t@ == row_type(rv[i as int].3));
        observe_typed(&mut bs, &t, rows[i].0, rows[i].1.as_str(), rows[i].2);
        i += 1;
    }
    build_all(bs, None, "_unknown", as_of_tx)
}


/// The type recorded for `entity`: the last `(entity, type)` pair for it.
pub open spec fn type_of_entity(types: Seq<(Seq<char>, Seq<char>)>, entity: Seq<char>) -> Option<Seq<char>>
    decreases types.len(),
{
    if types.len() == 0 {
        None
    } else if types.last().0 == entity {
        Some(types.last().1)
    } else {
        type_of_entity(types.drop_last(), entity)
    }
}

/// The distinct entities of the rows `rows[0..n]`, in order of first
/// sight.
pub open spec fn text_entities(rows: Seq<(Seq<char>, Seq<char>, i16)>, n: int) -> Seq<Seq<char>>
    decreases n,
{
    if n <= 0 {
        Seq::empty()
    } else {
        let ids = text_entities(rows, n - 1);
        if ids.contains(rows[n - 1].0) {
            ids
        } else {
            ids.push(rows[n - 1].0)
        }
    }
}

/// The number the entity of row `i` is counted by: its place among the
/// entities in order of first sight.
pub open spec fn entity_number(rows: Seq<(Seq<char>, Seq<char>, i16)>, i: int) -> int {
    choose|k: int| 0 <= k < text_entities(rows, i + 1).len() && #[trigger] text_entities(rows, i + 1)[k] == rows[i].0
}

/// An entity's `:db/type` value as a JSON string, none when it has none.
pub open spec fn type_value(types: Seq<(Seq<char>, Seq<char>)>, e: Seq<char>) -> Option<JsonView> {
    match type_of_entity(types, e) {
        Some(t) => Some(JsonView::String(t)),
        None => None,
    }
}

/// Text facts as the rows `(entity, attribute, value type, :db/type
/// value)` that [`schema_from_rows`] reads: each entity numbered by first
/// sight and given its recorded type.
pub open spec fn as_typed_rows(
    types: Seq<(Seq<char>, Seq<char>)>,
    rows: Seq<(Seq<char>, Seq<char>, i16)>,
) -> Seq<(u128, Seq<char>, i16, Option<JsonView>)> {
    Seq::new(rows.len(), |i: int| (entity_number(rows, i) as u128, rows[i].1, rows[i].2, type_value(types, rows[i].0)))
}

pub open spec fn pair_views(v: Seq<(String, String)>) -> Seq<(Seq<char>, Seq<char>)> {
    Seq::new(v.len(), |i: int| (v[i].0@, v[i].1@))
}

pub open spec fn text_row_views(v: Seq<(String, String, i16)>) -> Seq<(Seq<char>, Seq<char>, i16)> {
    Seq::new(v.len(), |i: int| (v[i].0@, v[i].1@, v[i].2))
}

fn type_of_exec(types: &Vec<(String, String)>, e: &Vec<char>) -> (r: Option<Vec<char>>)
    ensures
        match type_of_entity(pair_views(types@), e@) {
            Some(t) => r matches Some(x) && x@ == t,
            None => r is None,
        },
{
    let ghost tv = pair_views(types@);
    let mut i: usize = types.len();
    assert(tv.take(i as int) =~= tv);
    while i > 0
        invariant
            i <= types@.len(),
            tv == pair_views(types@),
            type_of_entity(tv, e@) == type_of_entity(tv.take(i as int), e@),
        decreases i,
    {
        let ghost pre = tv.take(i as int);
        assert(pre.last() == (types@[i - 1].0@, types@[i - 1].1@));
        assert(pre.drop_last() =~= tv.take(i - 1));
        if chars_eq(chars_of(types[i - 1].0.as_str()).as_slice(), e.as_slice()) {
            return Some(chars_of(types[i - 1].1.as_str()));
        }
        i -= 1;
    }
    None
}

/// The schema of a store that keeps entity ids as text: `types` holds
/// each entity's `:db/type` text (the last pair for an entity counts),
/// `rows` the live facts `(entity, attribute, value type)`.  It is the
/// schema [`schema_from_rows`] infers from the same facts: entities without
/// a type under `_untyped`, references pointing at `_unknown`.
pub fn schema_from_text_rows(
    types: &Vec<(String, String)>,
    rows: &Vec<(String, String, i16)>,
    as_of_tx: i64,
) -> (r: Schema)
    ensures
        r.as_of_tx == as_of_tx,
        is_schema_of(
            r,
            groups_of(as_typed_rows(pair_views(types@), text_row_views(rows@)), rows@.len() as int),
            None,
            "_unknown"@,
        ),
{
    let ghost tv = pair_views(types@);
    let ghost rv = text_row_views(rows@);
    let ghost tr = as_typed_rows(tv, rv);
    let mut bs: Vec<EntityTypeBuilder> = Vec::new();
    let mut ids: Vec<Vec<char>> = Vec::new();
    let mut i: usize = 0;
    assert(Seq::new(bs@.len(), |j: int| builder_group(bs@[j])) =~= groups_of(tr, 0));
    assert(Seq::new(ids@.len(), |j: int| ids@[j]@) =~= text_entities(rv, 0));
    assert(Seq::new(bs@.len(), |j: int| bs@[j].name@) =~= Seq::<Seq<char>>::empty());
    while i < rows.len()
        invariant
            i <= rows@.len(),
            tv == pair_views(types@),
            rv == text_row_views(rows@),
            tr == as_typed_rows(tv, rv),
            forall|j: int| 0 <= j < bs@.len() ==> (#[trigger] bs@[j]).wf(),
            Seq::new(bs@.len(), |j: int| bs@[j].name@).no_duplicates(),
            Seq::new(bs@.len(), |j: int| builder_group(bs@[j])) == groups_of(tr, i as int),
            Seq::new(ids@.len(), |j: int| ids@[j]@) == text_entities(rv, i as int),
            Seq::new(ids@.len(), |j: int| ids@[j]@).no_duplicates(),
        decreases rows.len() - i,
    {
        let e = chars_of(rows[i].0.as_str());
        assert(rv[i as int] == (e@, rows@[i as int].1@, rows@[i as int].2));
        let t = match type_of_exec(types, &e) {
            Some(t) => t,
            None => chars_of("_untyped"),
        };
        assert(t@ == row_type(type_value(tv, e@)));
        let ghost ev = e@;
        let ghost iv = Seq::new(ids@.len(), |j: int| ids@[j]@);
        let mut k: usize = 0;
        let mut found = false;
        while k < ids.len() && !found
            invariant
                k <= ids@.len(),
                e@ == ev,
                iv == Seq::new(ids@.len(), |j: int| ids@[j]@),
                found ==> k > 0 && ids@[k - 1]@ == e@,
                !found ==> forall|j: int| 0 <= j < k ==> ids@[j]@ != e@,
            decreases ids.len() - k + (if found { 0int } else { 1int }),
        {
            if chars_eq(ids[k].as_slice(), e.as_slice()) {
                found = true;
            }
            k += 1;
        }
        let idx: usize = if found {
            k - 1
        } else {
            ids.push(e);
            assert(Seq::new(ids@.len(), |j: int| ids@[j]@) =~= iv.push(e@));
            ids.len() - 1
        };
        let ghost ids2 = Seq::new(ids@.len(), |j: int| ids@[j]@);
        proof {
            if found {
                assert(iv.contains(ev)) by {
                    assert(iv[k - 1] == ev);
                }
            } else {
                assert(!iv.contains(ev)) by {
                    if iv.contains(ev) {
                        let j = choose|j: int| 0 <= j < iv.len() && iv[j] == ev;
                        assert(ids@[j]@ == ev);
                    }
                }
            }
            assert(ids2 == text_entities(rv, i + 1));
            let c = entity_number(rv, i as int);
            assert(ids2[idx as int] == ev);
            if c != idx {
                assert(ids2.no_duplicates());
            }
            assert(tr[i as int] == (idx as u128, rows@[i as int].1@, rows@[i as int].2, type_value(tv, ev)));
        }
        observe_typed(&mut bs, &t, idx as u128, rows[i].1.as_str(), rows[i].2);
        i += 1;
    }
    build_all(bs, None, "_unknown", as_of_tx)
}

} // verus!
