//! Delta diffs between two snapshots of a query's result set: entities
//! added, removed and updated (with field-level patches), and the
//! canonical hashes that tell unchanged rows apart quickly.
//!
//! A value's hash feeds std's `DefaultHasher` a canonical stream: a type
//! tag, then the content, with object members in sorted key order so that
//! member order does not matter.
use vstd::prelude::*;
use vstd::utf8::encode_utf8;
use crate::json::{
    JsonNumber, JsonValue, JsonView, clone_json, clone_string, entry_views, first_key_pos, json_eq, json_text,
    json_views, lemma_array_view, lemma_object_view,
};
use crate::order::{sorted_set, strictly_sorted, sort_distinct};
use crate::schema::validator::number_text;
use crate::text::{chars_of, chars_eq, decimal_of, push_str_chars, push_chars, string_of};
use std::hash::{DefaultHasher, Hasher};
use vstd::std_specs::hash::DefaultHasherAdditionalSpecFns;

verus! {

// ── Hashing ────────────────────────────────────────────────────────
//
// A `DefaultHasher` is seen through the writes made into it (vstd's
// model): `Hash::hash` of a `u8` writes its byte, of a `str` its UTF-8
// bytes and then `0xFF`, of a `usize` its 8 little-endian bytes (on
// 64-bit little-endian targets).

/// The 8 little-endian bytes of `n`.
pub open spec fn le_bytes(n: u64) -> Seq<u8> {
    Seq::new(8, |i: int| ((n as int / vstd::arithmetic::power2::pow2((8 * i) as nat) as int) % 256) as u8)
}

/// The writes that hash a string.
pub open spec fn text_writes(s: Seq<char>) -> Seq<Seq<u8>> {
    seq![encode_utf8(s), seq![0xffu8]]
}

fn write_byte(h: &mut DefaultHasher, x: u8)
    ensures
        final(h)@ == old(h)@.push(seq![x]),
{
    let b = [x];
    assert(b@ =~= seq![x]);
    h.write(&b);
}

fn write_text(h: &mut DefaultHasher, s: &str)
    ensures
        final(h)@ == old(h)@ + text_writes(s@),
{
    h.write(s.as_bytes());
    write_byte(h, 0xff);
    assert(h@ =~= old(h)@ + text_writes(s@));
}

fn write_len(h: &mut DefaultHasher, n: usize)
    ensures
        final(h)@ == old(h)@.push(le_bytes(n as u64)),
{
    let v = n as u64;
    let mut bytes: Vec<u8> = Vec::new();
    let mut i: u64 = 0;
    let mut rest: u64 = v;
    proof {
        vstd::arithmetic::power2::lemma2_to64();
        assert(vstd::arithmetic::power2::pow2((8 * 0) as nat) == 1);
        assert(v as int / 1 == v as int);
    }
    while i < 8
        invariant
            i <= 8,
            bytes@.len() == i,
            rest as int == v as int / vstd::arithmetic::power2::pow2((8 * i) as nat) as int,
            forall|j: int| 0 <= j < i ==> bytes@[j] == le_bytes(v)[j],
        decreases 8 - i,
    {
        proof {
            vstd::arithmetic::power2::lemma_pow2_adds((8 * i) as nat, 8);
            vstd::arithmetic::power2::lemma2_to64();
            vstd::arithmetic::power2::lemma_pow2_pos((8 * i) as nat);
            vstd::arithmetic::div_mod::lemma_div_denominator(
                v as int,
                vstd::arithmetic::power2::pow2((8 * i) as nat) as int,
                256,
            );
        }
        bytes.push((rest % 256) as u8);
        rest = rest / 256;
        i += 1;
    }
    assert(bytes@ =~= le_bytes(v));
    h.write(bytes.as_slice());
}

/// What `DefaultHasher::finish` gives after the writes `log` into a new
/// hasher.
pub open spec fn finish_of(log: Seq<Seq<u8>>) -> u64 {
    DefaultHasher::spec_finish(log)
}

pub open spec fn keys_of(entries: Seq<(Seq<char>, JsonView)>) -> Seq<Seq<char>> {
    Seq::new(entries.len(), |i: int| entries[i].0)
}

/// The member keys of an object in increasing order, each once.
pub open spec fn sorted_keys(entries: Seq<(Seq<char>, JsonView)>) -> Seq<Seq<char>> {
    sorted_set(keys_of(entries).to_set())
}

/// The canonical writes for a value: a type tag (null 0, bool 1, number
/// 2, string 3, array 4, object 5), then a bool's byte, a number's text, a
/// string, or the length and the elements / the sorted keys each with its
/// value.
pub open spec fn value_log(v: JsonView) -> Seq<Seq<u8>>
    decreases v, 1int, 0int,
{
    match v {
        JsonView::Null => seq![seq![0u8]],
        JsonView::Bool(b) => seq![seq![1u8], seq![if b { 1u8 } else { 0u8 }]],
        JsonView::Number(n) => seq![seq![2u8]] + text_writes(number_text(n)),
        JsonView::String(s) => seq![seq![3u8]] + text_writes(s),
        JsonView::Array(items) => seq![seq![4u8], le_bytes(items.len() as u64)] + items_log(
            items,
            items.len() as int,
        ),
        JsonView::Object(entries) => {
            let ks = sorted_keys(entries);
            seq![seq![5u8], le_bytes(ks.len() as u64)] + members_log(entries, ks, ks.len() as int)
        },
    }
}

pub open spec fn items_log(items: Seq<JsonView>, n: int) -> Seq<Seq<u8>>
    decreases JsonView::Array(items), 0int, n,
{
    if n <= 0 || n > items.len() {
        Seq::empty()
    } else {
        proof {
            let a = JsonView::Array(items);
            assert(decreases_to!(a => a->Array_0));
            assert(decreases_to!(items => items[n - 1]));
        }
        items_log(items, n - 1) + value_log(items[n - 1])
    }
}

pub open spec fn members_log(entries: Seq<(Seq<char>, JsonView)>, ks: Seq<Seq<char>>, n: int) -> Seq<Seq<u8>>
    decreases JsonView::Object(entries), 0int, n,
{
    if n <= 0 || n > ks.len() {
        Seq::empty()
    } else {
        let before = members_log(entries, ks, n - 1) + text_writes(ks[n - 1]);
        match first_key_pos(entries, ks[n - 1]) {
            Some(p) => {
                proof {
                    let o = JsonView::Object(entries);
                    assert(decreases_to!(o => o->Object_0));
                    assert(decreases_to!(entries => entries[p]));
                    assert(decreases_to!(entries[p] => entries[p].1));
                }
                before + value_log(entries[p].1)
            },
            None => before,
        }
    }
}

/// The hash of a value (see [`value_log`]).
pub open spec fn value_hash(v: JsonView) -> u64 {
    finish_of(value_log(v))
}

fn distinct_keys(entries: &Vec<(String, JsonValue)>) -> (r: Vec<Vec<char>>)
    ensures
        forall|i: int, j: int| 0 <= i < j < r@.len() ==> r@[i]@ != r@[j]@,
        Seq::new(r@.len(), |i: int| r@[i]@).to_set() == keys_of(entry_views(entries@)).to_set(),
{
    let ghost ks = keys_of(entry_views(entries@));
    let mut out: Vec<Vec<char>> = Vec::new();
    let mut i: usize = 0;
    assert(Seq::new(out@.len(), |j: int| out@[j]@).to_set() =~= ks.take(0).to_set());
    while i < entries.len()
        invariant
            i <= entries@.len(),
            ks == keys_of(entry_views(entries@)),
            forall|a: int, b: int| 0 <= a < b < out@.len() ==> out@[a]@ != out@[b]@,
            Seq::new(out@.len(), |j: int| out@[j]@).to_set() == ks.take(i as int).to_set(),
        decreases entries.len() - i,
    {
        let k = chars_of(entries[i].0.as_str());
        assert(ks[i as int] == k@);
        let mut seen = false;
        let mut j: usize = 0;
        while j < out.len()
            invariant
                j <= out@.len(),
                !seen ==> forall|a: int| 0 <= a < j ==> out@[a]@ != k@,
                seen ==> exists|a: int| 0 <= a < out@.len() && out@[a]@ == k@,
            decreases out.len() - j,
        {
            if chars_eq(out[j].as_slice(), k.as_slice()) {
                seen = true;
            }
            j += 1;
        }
        let ghost before = Seq::new(out@.len(), |j: int| out@[j]@);
        assert(ks.take(i + 1) =~= ks.take(i as int).push(k@));
        proof {
            ks.take(i as int).lemma_push_to_set_commute(k@);
            before.lemma_push_to_set_commute(k@);
        }
        if !seen {
            out.push(k);
            assert(Seq::new(out@.len(), |j: int| out@[j]@) =~= before.push(k@));
            assert(Seq::new(out@.len(), |j: int| out@[j]@).to_set() =~= ks.take(i + 1).to_set());
        } else {
            let ghost a = choose|a: int| 0 <= a < out@.len() && out@[a]@ == k@;
            assert(before[a] == k@);
            assert(ks.take(i + 1).to_set() =~= ks.take(i as int).to_set().insert(k@));
            assert(before.to_set().contains(k@));
            assert(ks.take(i as int).to_set().insert(k@) =~= ks.take(i as int).to_set());
        }
        i += 1;
    }
    assert(ks.take(entries@.len() as int) =~= ks);
    out
}

fn sorted_keys_exec(entries: &Vec<(String, JsonValue)>) -> (r: Vec<Vec<char>>)
    ensures
        Seq::new(r@.len(), |i: int| r@[i]@) == sorted_keys(entry_views(entries@)),
{
    let d = distinct_keys(entries);
    let r = sort_distinct(d);
    proof {
        crate::order::lemma_is_sorted_set(Seq::new(r@.len(), |i: int| r@[i]@));
    }
    r
}

/// Write the canonical form of `value` into `h`.
#[verifier::loop_isolation(false)]
pub fn hash_value_recursive(value: &JsonValue, h: &mut DefaultHasher)
    ensures
        final(h)@ == old(h)@ + value_log(value@),
    decreases value,
{
    let ghost start = h@;
    match value {
        JsonValue::Null => {
            write_byte(h, 0);
        },
        JsonValue::Bool(b) => {
            write_byte(h, 1);
            write_byte(h, if *b { 1 } else { 0 });
        },
        JsonValue::Number(n) => {
            write_byte(h, 2);
            let t: Vec<char> = match n {
                JsonNumber::PosInt(u) => crate::text::decimal_chars(*u),
                JsonNumber::NegInt(i) => crate::text::signed_decimal_chars(*i),
                JsonNumber::Float(f) => chars_of(f.text.as_str()),
            };
            let ts = string_of(t.as_slice());
            write_text(h, ts.as_str());
        },
        JsonValue::String(s) => {
            write_byte(h, 3);
            write_text(h, s.as_str());
        },
        JsonValue::Array(items) => {
            proof {
                lemma_array_view(*items);
            }
            let ghost iv = json_views(items@);
            write_byte(h, 4);
            write_len(h, items.len());
            let ghost head = h@;
            let mut i: usize = 0;
            while i < items.len()
                invariant
                    i <= items@.len(),
                    iv == json_views(items@),
                    h@ == head + items_log(iv, i as int),
                decreases items.len() - i,
            {
                assert(decreases_to!(*items => items[i as int]));
                assert(iv[i as int] == items@[i as int]@);
                hash_value_recursive(&items[i], h);
                i += 1;
            }
        },
        JsonValue::Object(entries) => {
            proof {
                lemma_object_view(*entries);
            }
            let ghost ev = entry_views(entries@);
            let ks = sorted_keys_exec(entries);
            let ghost kv = Seq::new(ks@.len(), |i: int| ks@[i]@);
            write_byte(h, 5);
            write_len(h, ks.len());
            let ghost head = h@;
            let mut i: usize = 0;
            while i < ks.len()
                invariant
                    i <= ks@.len(),
                    ev == entry_views(entries@),
                    kv == Seq::new(ks@.len(), |i: int| ks@[i]@),
                    kv == sorted_keys(ev),
                    h@ == head + members_log(ev, kv, i as int),
                decreases ks.len() - i,
            {
                let ks_i = string_of(ks[i].as_slice());
                write_text(h, ks_i.as_str());
                match crate::json::key_position(entries, &ks[i]) {
                    Some(p) => {
                        assert(decreases_to!(*entries => entries[p as int]));
                        assert(decreases_to!(entries[p as int] => entries[p as int].1));
                        assert(ev[p as int].1 == entries@[p as int].1@);
                        hash_value_recursive(&entries[p].1, h);
                    },
                    None => {},
                }
                i += 1;
            }
        },
    }
}

/// The hash of a value: its canonical form written into a fresh
/// `DefaultHasher`.
pub fn hash_value(value: &JsonValue) -> (r: u64)
    ensures
        r == value_hash(value@),
{
    let mut h = DefaultHasher::new();
    hash_value_recursive(value, &mut h);
    assert(Seq::<Seq<u8>>::empty() + value_log(value@) =~= value_log(value@));
    h.finish()
}


/// The hash of a whole result set: the hash of its length combined by XOR
/// with every row's hash, so row order does not matter.
pub open spec fn result_set_hash(vs: Seq<JsonView>) -> u64 {
    xor_hashes(vs, vs.len() as int, finish_of(seq![le_bytes(vs.len() as u64)]))
}

pub open spec fn xor_hashes(vs: Seq<JsonView>, n: int, base: u64) -> u64
    decreases n,
{
    if n <= 0 {
        base
    } else {
        xor_hashes(vs, n - 1, base) ^ value_hash(vs[n - 1])
    }
}

/// Compute a hash over an entire result set for quick equality checks.
pub fn hash_result_set(results: &Vec<JsonValue>) -> (r: u64)
    ensures
        r == result_set_hash(json_views(results@)),
{
    let ghost vs = json_views(results@);
    let mut lh = DefaultHasher::new();
    write_len(&mut lh, results.len());
    assert(Seq::<Seq<u8>>::empty().push(le_bytes(results.len() as u64)) =~= seq![le_bytes(results.len() as u64)]);
    let mut combined: u64 = lh.finish();
    let mut i: usize = 0;
    while i < results.len()
        invariant
            i <= results@.len(),
            vs == json_views(results@),
            combined == xor_hashes(vs, i as int, finish_of(seq![le_bytes(results@.len() as u64)])),
        decreases results.len() - i,
    {
        assert(vs[i as int] == results@[i as int]@);
        combined = combined ^ hash_value(&results[i]);
        i += 1;
    }
    combined
}

// ── Entity ids ─────────────────────────────────────────────────────

/// How an id value reads: a string as it is, a number as its text,
/// anything else as its JSON text.
pub open spec fn id_text(v: JsonView) -> Seq<char> {
    match v {
        JsonView::String(s) => s,
        JsonView::Number(n) => number_text(n),
        _ => json_text(v),
    }
}

/// The id among the keys `_id`, `id`, `entity_id` from position `k` on:
/// the first one present.
pub open spec fn id_from(entries: Seq<(Seq<char>, JsonView)>, k: int) -> Option<Seq<char>>
    decreases 3 - k,
{
    if k < 0 || k >= 3 {
        None
    } else {
        match first_key_pos(entries, crate::sync::live_query::id_keys()[k]) {
            Some(p) => Some(id_text(entries[p].1)),
            None => id_from(entries, k + 1),
        }
    }
}

/// The id of a result row (an object), if it has one.
pub open spec fn entity_id_of(v: JsonView) -> Option<Seq<char>> {
    match v {
        JsonView::Object(entries) => id_from(entries, 0),
        _ => None,
    }
}

fn id_key(k: usize) -> (r: Vec<char>)
    requires
        k < 3,
    ensures
        r@ == crate::sync::live_query::id_keys()[k as int],
{
    if k == 0 {
        chars_of("_id")
    } else if k == 1 {
        chars_of("id")
    } else {
        chars_of("entity_id")
    }
}

/// Extract the entity ID from a result row: `_id`, `id` or `entity_id`,
/// in that order.
pub fn extract_entity_id(entity: &JsonValue) -> (r: Option<String>)
    ensures
        match entity_id_of(entity@) {
            Some(id) => r matches Some(s) && s@ == id,
            None => r is None,
        },
{
    match entity {
        JsonValue::Object(entries) => {
            proof {
                lemma_object_view(*entries);
            }
            let ghost ev = entry_views(entries@);
            let mut k: usize = 0;
            while k < 3
                invariant
                    k <= 3,
                    ev == entry_views(entries@),
                    entity@ == JsonView::Object(ev),
                    id_from(ev, 0) == id_from(ev, k as int),
                decreases 3 - k,
            {
                let key = id_key(k);
                match crate::json::key_position(entries, &key) {
                    Some(p) => {
                        let val = &entries[p].1;
                        assert(ev[p as int].1 == val@);
                        return Some(
                            match val {
                                JsonValue::String(s) => clone_string(s),
                                _ => {
                                    let mut t: Vec<char> = Vec::new();
                                    crate::json::push_json_text(&mut t, val);
                                    assert(t@ =~= json_text(val@));
                                    string_of(t.as_slice())
                                },
                            },
                        );
                    },
                    None => {},
                }
                k += 1;
            }
            None
        },
        _ => None,
    }
}


// ── Diffs ──────────────────────────────────────────────────────────

/// A single triple change within an entity patch.
#[derive(Debug)]
pub struct TripleChange {
    /// The attribute (triple key) that changed.
    pub attribute: String,
    /// The value (new value for added/updated, old value for removed).
    pub value: JsonValue,
}

/// A patch for a single entity describing which fields changed.
#[derive(Debug)]
pub struct EntityPatch {
    /// The entity ID that was updated.
    pub entity_id: String,
    /// The fields that changed, with their new values (an object's entries).
    pub changed_fields: Vec<(String, JsonValue)>,
    /// Fields that were removed (present in old, absent in new).
    pub removed_fields: Vec<String>,
    /// Triples that were added (new fields not in old).
    pub added_triples: Vec<TripleChange>,
    /// Triples that were removed (old fields not in new).
    pub removed_triples: Vec<TripleChange>,
    /// Triples that were updated (same key, different value).
    pub updated_triples: Vec<TripleChange>,
}

/// A diff between two query result snapshots.
#[derive(Debug)]
pub struct QueryDiff {
    /// Entities present in `new` but not in `old`.
    pub added: Vec<JsonValue>,
    /// Entity IDs present in `old` but not in `new`.
    pub removed: Vec<String>,
    /// Entities present in both but with changed fields.
    pub updated: Vec<EntityPatch>,
}

impl QueryDiff {
    /// The empty diff.
    pub fn new() -> (r: Self)
        ensures
            r.added@.len() == 0 && r.removed@.len() == 0 && r.updated@.len() == 0,
    {
        QueryDiff { added: Vec::new(), removed: Vec::new(), updated: Vec::new() }
    }

    /// Whether the diff contains no changes.
    pub fn is_empty(&self) -> (r: bool)
        ensures
            r == (self.added@.len() == 0 && self.removed@.len() == 0 && self.updated@.len() == 0),
    {
        self.added.len() == 0 && self.removed.len() == 0 && self.updated.len() == 0
    }

    /// Total number of changes across all categories.
    pub fn change_count(&self) -> (r: usize)
        requires
            self.added@.len() + self.removed@.len() + self.updated@.len() <= usize::MAX,
        ensures
            r == self.added@.len() + self.removed@.len() + self.updated@.len(),
    {
        self.added.len() + self.removed.len() + self.updated.len()
    }
}

pub type ChangeView = (Seq<char>, JsonView);

pub open spec fn change_views(v: Seq<TripleChange>) -> Seq<ChangeView> {
    Seq::new(v.len(), |i: int| (v[i].attribute@, v[i].value@))
}

/// A patch as `(id, changed fields, removed fields, added, removed and
/// updated triples)`.
pub type PatchView = (
    Seq<char>,
    Seq<(Seq<char>, JsonView)>,
    Seq<Seq<char>>,
    Seq<ChangeView>,
    Seq<ChangeView>,
    Seq<ChangeView>,
);

pub open spec fn patch_view(p: EntityPatch) -> PatchView {
    (
        p.entity_id@,
        entry_views(p.changed_fields@),
        Seq::new(p.removed_fields@.len(), |i: int| p.removed_fields@[i]@),
        change_views(p.added_triples@),
        change_views(p.removed_triples@),
        change_views(p.updated_triples@),
    )
}

/// Walking the new members `new[0..n]`: the changed fields, and the
/// members added (absent before) and updated (present with a different
/// value).
pub open spec fn new_side(
    old: Seq<(Seq<char>, JsonView)>,
    new: Seq<(Seq<char>, JsonView)>,
    n: int,
) -> (Seq<(Seq<char>, JsonView)>, Seq<ChangeView>, Seq<ChangeView>)
    decreases n,
{
    if n <= 0 {
        (Seq::empty(), Seq::empty(), Seq::empty())
    } else {
        let (c, a, u) = new_side(old, new, n - 1);
        let (k, nv) = new[n - 1];
        match first_key_pos(old, k) {
            Some(p) => if json_eq(old[p].1, nv) {
                (c, a, u)
            } else {
                (c.push((k, nv)), a, u.push((k, nv)))
            },
            None => (c.push((k, nv)), a.push((k, nv)), u),
        }
    }
}

/// Walking the old members `old[0..n]`: those absent from the new
/// object, as names and as triples with their old values.
pub open spec fn old_side(
    old: Seq<(Seq<char>, JsonView)>,
    new: Seq<(Seq<char>, JsonView)>,
    n: int,
) -> (Seq<Seq<char>>, Seq<ChangeView>)
    decreases n,
{
    if n <= 0 {
        (Seq::empty(), Seq::empty())
    } else {
        let (r, t) = old_side(old, new, n - 1);
        let (k, ov) = old[n - 1];
        if first_key_pos(new, k) is None {
            (r.push(k), t.push((k, ov)))
        } else {
            (r, t)
        }
    }
}

/// The field-level patch between two versions of an entity: none unless
/// both are objects and some field changed or went away.
pub open spec fn entity_patch(id: Seq<char>, old: JsonView, new: JsonView) -> Option<PatchView> {
    match (old, new) {
        (JsonView::Object(o), JsonView::Object(n)) => {
            let (c, a, u) = new_side(o, n, n.len() as int);
            let (r, t) = old_side(o, n, o.len() as int);
            if c.len() == 0 && r.len() == 0 {
                None
            } else {
                Some((id, c, r, a, t, u))
            }
        },
        _ => None,
    }
}

fn change(k: &String, v: &JsonValue) -> (r: TripleChange)
    ensures
        r.attribute@ == k@,
        r.value@ == v@,
{
    TripleChange { attribute: clone_string(k), value: clone_json(v) }
}

/// Compute a field-level patch between two versions of the same entity.
pub fn compute_entity_patch(entity_id: &str, old: &JsonValue, new: &JsonValue) -> (r: Option<EntityPatch>)
    ensures
        match entity_patch(entity_id@, old@, new@) {
            Some(p) => r matches Some(x) && patch_view(x) == p,
            None => r is None,
        },
{
    let (o, n) = match (old, new) {
        (JsonValue::Object(o), JsonValue::Object(n)) => (o, n),
        _ => {
            return None;
        },
    };
    proof {
        lemma_object_view(*o);
        lemma_object_view(*n);
    }
    let ghost ov = entry_views(o@);
    let ghost nv = entry_views(n@);
    let mut changed: Vec<(String, JsonValue)> = Vec::new();
    let mut added: Vec<TripleChange> = Vec::new();
    let mut updated: Vec<TripleChange> = Vec::new();
    let mut i: usize = 0;
    while i < n.len()
        invariant
            i <= n@.len(),
            ov == entry_views(o@),
            nv == entry_views(n@),
            new_side(ov, nv, i as int) == (entry_views(changed@), change_views(added@), change_views(updated@)),
        decreases n.len() - i,
    {
        let k = &n[i].0;
        let v = &n[i].1;
        assert(nv[i as int] == (k@, v@));
        let ghost (c0, a0, u0) = (changed@, added@, updated@);
        match crate::json::key_position(o, &chars_of(k.as_str())) {
            Some(p) => {
                assert(ov[p as int].1 == o@[p as int].1@);
                if !crate::json::json_eq_exec(&o[p].1, v) {
                    changed.push((clone_string(k), clone_json(v)));
                    updated.push(change(k, v));
                    assert(entry_views(changed@) =~= entry_views(c0).push((k@, v@)));
                    assert(change_views(updated@) =~= change_views(u0).push((k@, v@)));
                }
            },
            None => {
                changed.push((clone_string(k), clone_json(v)));
                added.push(change(k, v));
                assert(entry_views(changed@) =~= entry_views(c0).push((k@, v@)));
                assert(change_views(added@) =~= change_views(a0).push((k@, v@)));
            },
        }
        i += 1;
    }
    let mut removed_fields: Vec<String> = Vec::new();
    let mut removed_triples: Vec<TripleChange> = Vec::new();
    let mut j: usize = 0;
    assert(Seq::new(removed_fields@.len(), |q: int| removed_fields@[q]@) =~= Seq::<Seq<char>>::empty());
    while j < o.len()
        invariant
            j <= o@.len(),
            ov == entry_views(o@),
            nv == entry_views(n@),
            old_side(ov, nv, j as int) == (
                Seq::new(removed_fields@.len(), |q: int| removed_fields@[q]@),
                change_views(removed_triples@),
            ),
        decreases o.len() - j,
    {
        let k = &o[j].0;
        let v = &o[j].1;
        assert(ov[j as int] == (k@, v@));
        let ghost (r0, t0) = (removed_fields@, removed_triples@);
        if crate::json::key_position(n, &chars_of(k.as_str())).is_none() {
            removed_fields.push(clone_string(k));
            removed_triples.push(change(k, v));
            assert(Seq::new(removed_fields@.len(), |q: int| removed_fields@[q]@) =~= Seq::new(
                r0.len(),
                |q: int| r0[q]@,
            ).push(k@));
            assert(change_views(removed_triples@) =~= change_views(t0).push((k@, v@)));
        }
        j += 1;
    }
    if changed.len() == 0 && removed_fields.len() == 0 {
        return None;
    }
    Some(
        EntityPatch {
            entity_id: string_of(chars_of(entity_id).as_slice()),
            changed_fields: changed,
            removed_fields,
            added_triples: added,
            removed_triples,
            updated_triples: updated,
        },
    )
}


/// The distinct ids among `vs[0..n]`, in order of first appearance.
pub open spec fn ids_in(vs: Seq<JsonView>, n: int) -> Seq<Seq<char>>
    decreases n,
{
    if n <= 0 {
        Seq::empty()
    } else {
        let before = ids_in(vs, n - 1);
        match entity_id_of(vs[n - 1]) {
            Some(id) => if before.contains(id) {
                before
            } else {
                before.push(id)
            },
            None => before,
        }
    }
}

/// The last row among `vs[0..n]` with the id `id` (a later row with the
/// same id replaces an earlier one); `null` when there is none.
pub open spec fn row_with(vs: Seq<JsonView>, id: Seq<char>, n: int) -> JsonView
    decreases n,
{
    if n <= 0 {
        JsonView::Null
    } else if entity_id_of(vs[n - 1]) == Some(id) {
        vs[n - 1]
    } else {
        row_with(vs, id, n - 1)
    }
}

/// The rows without an id among `vs[0..n]`, in order.
pub open spec fn unkeyed_rows(vs: Seq<JsonView>, n: int) -> Seq<JsonView>
    decreases n,
{
    if n <= 0 {
        Seq::empty()
    } else if entity_id_of(vs[n - 1]) is None {
        unkeyed_rows(vs, n - 1).push(vs[n - 1])
    } else {
        unkeyed_rows(vs, n - 1)
    }
}

/// The ids `a[0..n]` that `b` lacks, in order.
pub open spec fn missing_ids(a: Seq<Seq<char>>, b: Seq<Seq<char>>, n: int) -> Seq<Seq<char>>
    decreases n,
{
    if n <= 0 {
        Seq::empty()
    } else if b.contains(a[n - 1]) {
        missing_ids(a, b, n - 1)
    } else {
        missing_ids(a, b, n - 1).push(a[n - 1])
    }
}

/// The rows of `new` for the ids `nids[0..n]` that `oids` lacks.
pub open spec fn added_rows(nids: Seq<Seq<char>>, oids: Seq<Seq<char>>, new: Seq<JsonView>, n: int) -> Seq<JsonView>
    decreases n,
{
    if n <= 0 {
        Seq::empty()
    } else if oids.contains(nids[n - 1]) {
        added_rows(nids, oids, new, n - 1)
    } else {
        added_rows(nids, oids, new, n - 1).push(row_with(new, nids[n - 1], new.len() as int))
    }
}

/// The patches for the ids `oids[0..n]` present on both sides whose rows
/// hash differently and differ in some field.
pub open spec fn patches(
    oids: Seq<Seq<char>>,
    nids: Seq<Seq<char>>,
    old: Seq<JsonView>,
    new: Seq<JsonView>,
    n: int,
) -> Seq<PatchView>
    decreases n,
{
    if n <= 0 {
        Seq::empty()
    } else {
        let before = patches(oids, nids, old, new, n - 1);
        let id = oids[n - 1];
        if !nids.contains(id) {
            before
        } else {
            let o = row_with(old, id, old.len() as int);
            let w = row_with(new, id, new.len() as int);
            if value_hash(o) == value_hash(w) {
                before
            } else {
                match entity_patch(id, o, w) {
                    Some(p) => before.push(p),
                    None => before,
                }
            }
        }
    }
}

/// The hashes of the rows.
pub open spec fn hash_set(rows: Seq<JsonView>) -> Set<u64> {
    Seq::new(rows.len(), |i: int| value_hash(rows[i])).to_set()
}

/// The rows `rows[0..n]` whose hash is not among `hashes`.
pub open spec fn fresh_rows(rows: Seq<JsonView>, hashes: Set<u64>, n: int) -> Seq<JsonView>
    decreases n,
{
    if n <= 0 {
        Seq::empty()
    } else if hashes.contains(value_hash(rows[n - 1])) {
        fresh_rows(rows, hashes, n - 1)
    } else {
        fresh_rows(rows, hashes, n - 1).push(rows[n - 1])
    }
}

/// `__unkeyed:<hash>` for the rows `rows[0..n]` whose hash is not among
/// `hashes`.
pub open spec fn gone_markers(rows: Seq<JsonView>, hashes: Set<u64>, n: int) -> Seq<Seq<char>>
    decreases n,
{
    if n <= 0 {
        Seq::empty()
    } else if hashes.contains(value_hash(rows[n - 1])) {
        gone_markers(rows, hashes, n - 1)
    } else {
        gone_markers(rows, hashes, n - 1).push("__unkeyed:"@ + decimal_of(value_hash(rows[n - 1]) as nat))
    }
}

/// A diff as `(added rows, removed ids, patches)`.
pub type DiffView = (Seq<JsonView>, Seq<Seq<char>>, Seq<PatchView>);

/// The diff between two result sets: rows matched by id give the removed
/// ids, the added rows and the patches (ids in order of first appearance),
/// and when the hashes of the rows without ids differ as sets, the new
/// ones whose hash is new are added and the old ones whose hash is gone
/// are removed as `__unkeyed:<hash>`.
pub open spec fn diff_spec(old: Seq<JsonView>, new: Seq<JsonView>) -> DiffView {
    let oids = ids_in(old, old.len() as int);
    let nids = ids_in(new, new.len() as int);
    let removed = missing_ids(oids, nids, oids.len() as int);
    let added = added_rows(nids, oids, new, nids.len() as int);
    let updated = patches(oids, nids, old, new, oids.len() as int);
    let ou = unkeyed_rows(old, old.len() as int);
    let nu = unkeyed_rows(new, new.len() as int);
    if hash_set(ou) != hash_set(nu) {
        (
            added + fresh_rows(nu, hash_set(ou), nu.len() as int),
            removed + gone_markers(ou, hash_set(nu), ou.len() as int),
            updated,
        )
    } else {
        (added, removed, updated)
    }
}

proof fn lemma_missing_self(a: Seq<Seq<char>>, n: int)
    requires
        n <= a.len(),
    ensures
        missing_ids(a, a, n) == Seq::<Seq<char>>::empty(),
    decreases n,
{
    if n > 0 {
        assert(a.contains(a[n - 1]));
        lemma_missing_self(a, n - 1);
    }
}

proof fn lemma_added_self(a: Seq<Seq<char>>, x: Seq<JsonView>, n: int)
    requires
        n <= a.len(),
    ensures
        added_rows(a, a, x, n) == Seq::<JsonView>::empty(),
    decreases n,
{
    if n > 0 {
        assert(a.contains(a[n - 1]));
        lemma_added_self(a, x, n - 1);
    }
}

proof fn lemma_patches_self(a: Seq<Seq<char>>, x: Seq<JsonView>, n: int)
    requires
        n <= a.len(),
    ensures
        patches(a, a, x, x, n) == Seq::<PatchView>::empty(),
    decreases n,
{
    if n > 0 {
        lemma_patches_self(a, x, n - 1);
    }
}

/// Diffing a result set against itself gives no change at all.
pub proof fn lemma_diff_self_is_empty(x: Seq<JsonView>)
    ensures
        diff_spec(x, x) == (Seq::<JsonView>::empty(), Seq::<Seq<char>>::empty(), Seq::<PatchView>::empty()),
{
    let ids = ids_in(x, x.len() as int);
    lemma_missing_self(ids, ids.len() as int);
    lemma_added_self(ids, x, ids.len() as int);
    lemma_patches_self(ids, x, ids.len() as int);
}

pub open spec fn diff_view(d: QueryDiff) -> DiffView {
    (
        json_views(d.added@),
        Seq::new(d.removed@.len(), |i: int| d.removed@[i]@),
        Seq::new(d.updated@.len(), |i: int| patch_view(d.updated@[i])),
    )
}

pub open spec fn text_views(v: Seq<Vec<char>>) -> Seq<Seq<char>> {
    Seq::new(v.len(), |i: int| v[i]@)
}

fn find_id(ids: &Vec<Vec<char>>, id: &Vec<char>) -> (r: Option<usize>)
    ensures
        match r {
            Some(q) => q < ids@.len() && ids@[q as int]@ == id@,
            None => !text_views(ids@).contains(id@),
        },
{
    let mut q: usize = 0;
    while q < ids.len()
        invariant
            q <= ids@.len(),
            forall|a: int| 0 <= a < q ==> ids@[a]@ != id@,
        decreases ids.len() - q,
    {
        if chars_eq(ids[q].as_slice(), id.as_slice()) {
            return Some(q);
        }
        q += 1;
    }
    proof {
        if text_views(ids@).contains(id@) {
            let a = choose|a: int| 0 <= a < text_views(ids@).len() && text_views(ids@)[a] == id@;
            assert(ids@[a]@ == id@);
        }
    }
    None
}

/// Rows indexed by id: the distinct ids in order, the position of the last
/// row with each, and the positions of the rows without an id.
struct RowIndex {
    ids: Vec<Vec<char>>,
    last: Vec<usize>,
    unkeyed: Vec<usize>,
}

fn index_rows(rows: &Vec<JsonValue>) -> (r: RowIndex)
    ensures
        text_views(r.ids@) == ids_in(json_views(rows@), rows@.len() as int),
        r.last@.len() == r.ids@.len(),
        forall|k: int|
            0 <= k < r.ids@.len() ==> r.last@[k] < rows@.len() && #[trigger] row_with(
                json_views(rows@),
                r.ids@[k]@,
                rows@.len() as int,
            ) == rows@[r.last@[k] as int]@,
        forall|k: int| 0 <= k < r.unkeyed@.len() ==> r.unkeyed@[k] < rows@.len(),
        Seq::new(r.unkeyed@.len(), |k: int| rows@[r.unkeyed@[k] as int]@) == unkeyed_rows(
            json_views(rows@),
            rows@.len() as int,
        ),
{
    let ghost vs = json_views(rows@);
    let mut ids: Vec<Vec<char>> = Vec::new();
    let mut last: Vec<usize> = Vec::new();
    let mut unkeyed: Vec<usize> = Vec::new();
    let mut i: usize = 0;
    assert(text_views(ids@) =~= Seq::<Seq<char>>::empty());
    assert(Seq::new(unkeyed@.len(), |k: int| rows@[unkeyed@[k] as int]@) =~= Seq::<JsonView>::empty());
    while i < rows.len()
        invariant
            i <= rows@.len(),
            vs == json_views(rows@),
            text_views(ids@) == ids_in(vs, i as int),
            last@.len() == ids@.len(),
            forall|a: int, b: int| 0 <= a < b < ids@.len() ==> ids@[a]@ != ids@[b]@,
            forall|k: int|
                0 <= k < ids@.len() ==> last@[k] < i && #[trigger] row_with(vs, ids@[k]@, i as int)
                    == rows@[last@[k] as int]@,
            forall|k: int| 0 <= k < unkeyed@.len() ==> unkeyed@[k] < i,
            Seq::new(unkeyed@.len(), |k: int| rows@[unkeyed@[k] as int]@) == unkeyed_rows(vs, i as int),
        decreases rows.len() - i,
    {
        assert(vs[i as int] == rows@[i as int]@);
        let ghost ids0 = ids@;
        let ghost last0 = last@;
        let ghost unk0 = unkeyed@;
        match extract_entity_id(&rows[i]) {
            Some(id) => {
                let idc = chars_of(id.as_str());
                match find_id(&ids, &idc) {
                    Some(q) => {
                        last.set(q, i);
                        assert(text_views(ids@).contains(idc@)) by {
                            assert(text_views(ids@)[q as int] == idc@);
                        }
                        assert(entity_id_of(vs[i as int]) == Some(idc@));
                        assert forall|k: int| 0 <= k < ids@.len() implies last@[k] < i + 1 && #[trigger] row_with(
                            vs,
                            ids@[k]@,
                            i + 1,
                        ) == rows@[last@[k] as int]@ by {
                            if k != q {
                                assert(ids@[k]@ != ids@[q as int]@);
                                assert(row_with(vs, ids@[k]@, i as int) == rows@[last0[k] as int]@);
                                assert(last@[k] == last0[k]);
                            }
                        }
                    },
                    None => {
                        ids.push(idc);
                        last.push(i);
                        assert(text_views(ids@) =~= text_views(ids0).push(id@));
                        assert forall|a: int, b: int| 0 <= a < b < ids@.len() implies ids@[a]@ != ids@[b]@ by {
                            if b == ids0.len() {
                                assert(text_views(ids0)[a] == ids@[a]@);
                            }
                        }
                        assert(entity_id_of(vs[i as int]) == Some(idc@));
                        assert forall|k: int| 0 <= k < ids@.len() implies last@[k] < i + 1 && #[trigger] row_with(
                            vs,
                            ids@[k]@,
                            i + 1,
                        ) == rows@[last@[k] as int]@ by {
                            if k < ids0.len() {
                                assert(text_views(ids0)[k] == ids@[k]@);
                                assert(ids@[k]@ != id@);
                                assert(row_with(vs, ids0[k]@, i as int) == rows@[last0[k] as int]@);
                                assert(last@[k] == last0[k]);
                            }
                        }
                    },
                }
            },
            None => {
                assert forall|k: int| 0 <= k < ids@.len() implies last@[k] < i + 1 && #[trigger] row_with(
                    vs,
                    ids@[k]@,
                    i + 1,
                ) == rows@[last@[k] as int]@ by {
                    assert(row_with(vs, ids@[k]@, i as int) == rows@[last@[k] as int]@);
                }
                unkeyed.push(i);
                assert(Seq::new(unkeyed@.len(), |k: int| rows@[unkeyed@[k] as int]@) =~= Seq::new(
                    unk0.len(),
                    |k: int| rows@[unk0[k] as int]@,
                ).push(vs[i as int]));
            },
        }
        i += 1;
    }
    RowIndex { ids, last, unkeyed }
}

fn row_hashes(rows: &Vec<JsonValue>, which: &Vec<usize>) -> (r: Vec<u64>)
    requires
        forall|k: int| 0 <= k < which@.len() ==> which@[k] < rows@.len(),
    ensures
        r@ == Seq::new(which@.len(), |k: int| value_hash(rows@[which@[k] as int]@)),
{
    let mut out: Vec<u64> = Vec::new();
    let mut k: usize = 0;
    while k < which.len()
        invariant
            k <= which@.len(),
            forall|q: int| 0 <= q < which@.len() ==> which@[q] < rows@.len(),
            out@ == Seq::new(k as nat, |q: int| value_hash(rows@[which@[q] as int]@)),
        decreases which.len() - k,
    {
        out.push(hash_value(&rows[which[k]]));
        k += 1;
        assert(out@ =~= Seq::new(k as nat, |q: int| value_hash(rows@[which@[q] as int]@)));
    }
    out
}

fn contains_hash(hs: &Vec<u64>, h: u64) -> (r: bool)
    ensures
        r == hs@.to_set().contains(h),
{
    let mut k: usize = 0;
    while k < hs.len()
        invariant
            k <= hs@.len(),
            forall|q: int| 0 <= q < k ==> hs@[q] != h,
        decreases hs.len() - k,
    {
        if hs[k] == h {
            assert(hs@.to_set().contains(hs@[k as int]));
            return true;
        }
        k += 1;
    }
    false
}

fn same_sets(a: &Vec<u64>, b: &Vec<u64>) -> (r: bool)
    ensures
        r == (a@.to_set() == b@.to_set()),
{
    let mut k: usize = 0;
    while k < a.len()
        invariant
            k <= a@.len(),
            forall|q: int| 0 <= q < k ==> b@.to_set().contains(#[trigger] a@[q]),
        decreases a.len() - k,
    {
        if !contains_hash(b, a[k]) {
            assert(a@.to_set().contains(a@[k as int]));
            return false;
        }
        k += 1;
    }
    let mut j: usize = 0;
    while j < b.len()
        invariant
            j <= b@.len(),
            forall|q: int| 0 <= q < a@.len() ==> b@.to_set().contains(#[trigger] a@[q]),
            forall|q: int| 0 <= q < j ==> a@.to_set().contains(#[trigger] b@[q]),
        decreases b.len() - j,
    {
        if !contains_hash(a, b[j]) {
            assert(b@.to_set().contains(b@[j as int]));
            return false;
        }
        j += 1;
    }
    assert(a@.to_set() =~= b@.to_set());
    true
}

/// Compute the diff between an old and a new query result set.
pub fn compute_diff(old: &Vec<JsonValue>, new: &Vec<JsonValue>) -> (r: QueryDiff)
    ensures
        diff_view(r) == diff_spec(json_views(old@), json_views(new@)),
{
    let ghost ov = json_views(old@);
    let ghost nv = json_views(new@);
    let mut diff = QueryDiff::new();
    let oi = index_rows(old);
    let ni = index_rows(new);
    let ghost oids = text_views(oi.ids@);
    let ghost nids = text_views(ni.ids@);
    // Removed ids.
    let mut k: usize = 0;
    assert(Seq::new(diff.removed@.len(), |q: int| diff.removed@[q]@) =~= missing_ids(oids, nids, 0));
    assert(json_views(diff.added@) =~= Seq::<JsonView>::empty());
    while k < oi.ids.len()
        invariant
            k <= oi.ids@.len(),
            oids == text_views(oi.ids@),
            nids == text_views(ni.ids@),
            Seq::new(diff.removed@.len(), |q: int| diff.removed@[q]@) == missing_ids(oids, nids, k as int),
            diff.added@.len() == 0,
            diff.updated@.len() == 0,
        decreases oi.ids.len() - k,
    {
        assert(oids[k as int] == oi.ids@[k as int]@);
        let ghost before = Seq::new(diff.removed@.len(), |q: int| diff.removed@[q]@);
        match find_id(&ni.ids, &oi.ids[k]) {
            None => {
                diff.removed.push(string_of(oi.ids[k].as_slice()));
                assert(Seq::new(diff.removed@.len(), |q: int| diff.removed@[q]@) =~= before.push(oids[k as int]));
            },
            Some(w) => {
                assert(nids[w as int] == oids[k as int]);
            },
        }
        k += 1;
    }
    // Added rows.
    let ghost removed1 = Seq::new(diff.removed@.len(), |j: int| diff.removed@[j]@);
    let mut q: usize = 0;
    assert(json_views(diff.added@) =~= added_rows(nids, oids, nv, 0));
    while q < ni.ids.len()
        invariant
            q <= ni.ids@.len(),
            oids == text_views(oi.ids@),
            nids == text_views(ni.ids@),
            nv == json_views(new@),
            ni.last@.len() == ni.ids@.len(),
            forall|j: int|
                0 <= j < ni.ids@.len() ==> ni.last@[j] < new@.len() && #[trigger] row_with(
                    nv,
                    ni.ids@[j]@,
                    new@.len() as int,
                ) == new@[ni.last@[j] as int]@,
            json_views(diff.added@) == added_rows(nids, oids, nv, q as int),
            Seq::new(diff.removed@.len(), |j: int| diff.removed@[j]@) == removed1,
            diff.updated@.len() == 0,
        decreases ni.ids.len() - q,
    {
        assert(nids[q as int] == ni.ids@[q as int]@);
        let ghost before = diff.added@;
        match find_id(&oi.ids, &ni.ids[q]) {
            None => {
                let row = clone_json(&new[ni.last[q]]);
                diff.added.push(row);
                assert(row_with(nv, ni.ids@[q as int]@, new@.len() as int) == new@[ni.last@[q as int] as int]@);
                assert(json_views(diff.added@) =~= json_views(before).push(row@));
            },
            Some(w) => {
                assert(oids[w as int] == nids[q as int]);
            },
        }
        q += 1;
    }
    // Updated rows.
    let ghost added1 = json_views(diff.added@);
    let mut u: usize = 0;
    assert(Seq::new(diff.updated@.len(), |j: int| patch_view(diff.updated@[j])) =~= patches(oids, nids, ov, nv, 0));
    while u < oi.ids.len()
        invariant
            u <= oi.ids@.len(),
            oids == text_views(oi.ids@),
            nids == text_views(ni.ids@),
            ov == json_views(old@),
            nv == json_views(new@),
            oi.last@.len() == oi.ids@.len(),
            ni.last@.len() == ni.ids@.len(),
            forall|j: int|
                0 <= j < oi.ids@.len() ==> oi.last@[j] < old@.len() && #[trigger] row_with(
                    ov,
                    oi.ids@[j]@,
                    old@.len() as int,
                ) == old@[oi.last@[j] as int]@,
            forall|j: int|
                0 <= j < ni.ids@.len() ==> ni.last@[j] < new@.len() && #[trigger] row_with(
                    nv,
                    ni.ids@[j]@,
                    new@.len() as int,
                ) == new@[ni.last@[j] as int]@,
            Seq::new(diff.updated@.len(), |j: int| patch_view(diff.updated@[j])) == patches(
                oids,
                nids,
                ov,
                nv,
                u as int,
            ),
            Seq::new(diff.removed@.len(), |j: int| diff.removed@[j]@) == removed1,
            json_views(diff.added@) == added1,
        decreases oi.ids.len() - u,
    {
        assert(oids[u as int] == oi.ids@[u as int]@);
        let ghost before = Seq::new(diff.updated@.len(), |j: int| patch_view(diff.updated@[j]));
        match find_id(&ni.ids, &oi.ids[u]) {
            Some(w) => {
                assert(nids[w as int] == ni.ids@[w as int]@);
                assert(nids.contains(oids[u as int]));
                let o = &old[oi.last[u]];
                let n = &new[ni.last[w]];
                assert(row_with(ov, oi.ids@[u as int]@, old@.len() as int) == o@);
                assert(row_with(nv, ni.ids@[w as int]@, new@.len() as int) == n@);
                if hash_value(o) != hash_value(n) {
                    let id = string_of(oi.ids[u].as_slice());
                    match compute_entity_patch(id.as_str(), o, n) {
                        Some(p) => {
                            diff.updated.push(p);
                            assert(Seq::new(diff.updated@.len(), |j: int| patch_view(diff.updated@[j])) =~= before.push(
                                patch_view(p),
                            ));
                        },
                        None => {},
                    }
                }
            },
            None => {},
        }
        u += 1;
    }
    // Rows without ids.
    let ghost updated1 = Seq::new(diff.updated@.len(), |j: int| patch_view(diff.updated@[j]));
    let oh = row_hashes(old, &oi.unkeyed);
    let nh = row_hashes(new, &ni.unkeyed);
    let ghost ou = unkeyed_rows(ov, ov.len() as int);
    let ghost nu = unkeyed_rows(nv, nv.len() as int);
    assert(oh@ =~= Seq::new(ou.len(), |j: int| value_hash(ou[j])));
    assert(nh@ =~= Seq::new(nu.len(), |j: int| value_hash(nu[j])));
    assert(json_views(diff.added@) == added_rows(nids, oids, nv, nids.len() as int));
    if !same_sets(&oh, &nh) {
        let ghost added0 = json_views(diff.added@);
        let mut a: usize = 0;
        assert(added0 + fresh_rows(nu, hash_set(ou), 0) =~= added0);
        while a < ni.unkeyed.len()
            invariant
                a <= ni.unkeyed@.len(),
                nh@.len() == ni.unkeyed@.len(),
                forall|j: int| 0 <= j < ni.unkeyed@.len() ==> ni.unkeyed@[j] < new@.len(),
                nu == Seq::new(ni.unkeyed@.len(), |j: int| new@[ni.unkeyed@[j] as int]@),
                nh@ == Seq::new(nu.len(), |j: int| value_hash(nu[j])),
                oh@.to_set() == hash_set(ou),
                json_views(diff.added@) == added0 + fresh_rows(nu, hash_set(ou), a as int),
                Seq::new(diff.removed@.len(), |j: int| diff.removed@[j]@) == removed1,
                Seq::new(diff.updated@.len(), |j: int| patch_view(diff.updated@[j])) == updated1,
            decreases ni.unkeyed.len() - a,
        {
            let ghost before = json_views(diff.added@);
            if !contains_hash(&oh, nh[a]) {
                let row = clone_json(&new[ni.unkeyed[a]]);
                diff.added.push(row);
                assert(json_views(diff.added@) =~= before.push(row@));
            }
            a += 1;
        }
        let ghost removed0 = Seq::new(diff.removed@.len(), |j: int| diff.removed@[j]@);
        let mut b: usize = 0;
        assert(removed0 + gone_markers(ou, hash_set(nu), 0) =~= removed0);
        while b < oi.unkeyed.len()
            invariant
                b <= oi.unkeyed@.len(),
                oh@.len() == oi.unkeyed@.len(),
                ou == Seq::new(oi.unkeyed@.len(), |j: int| old@[oi.unkeyed@[j] as int]@),
                oh@ == Seq::new(ou.len(), |j: int| value_hash(ou[j])),
                nh@.to_set() == hash_set(nu),
                Seq::new(diff.removed@.len(), |j: int| diff.removed@[j]@) == removed0 + gone_markers(
                    ou,
                    hash_set(nu),
                    b as int,
                ),
                json_views(diff.added@) == added0 + fresh_rows(nu, hash_set(ou), nu.len() as int),
                Seq::new(diff.updated@.len(), |j: int| patch_view(diff.updated@[j])) == updated1,
            decreases oi.unkeyed.len() - b,
        {
            let ghost before = Seq::new(diff.removed@.len(), |j: int| diff.removed@[j]@);
            let h = oh[b];
            if !contains_hash(&nh, h) {
                let mut m: Vec<char> = Vec::new();
                push_str_chars(&mut m, "__unkeyed:");
                push_chars(&mut m, &crate::text::decimal_chars(h));
                diff.removed.push(string_of(m.as_slice()));
                assert(Seq::new(diff.removed@.len(), |j: int| diff.removed@[j]@) =~= before.push(m@));
            }
            b += 1;
        }
        assert(diff_view(diff) =~= diff_spec(ov, nv));
    } else {
        assert(diff_view(diff) =~= diff_spec(ov, nv));
    }
    diff
}

} // verus!
