//! In-memory data backend: tables of records keyed by id, each table kept
//! in increasing key order (the order of `String`'s `Ord`), with a
//! minimal `SELECT` dialect.
use vstd::prelude::*;
use crate::json::{JsonValue, JsonView, clone_json};
use crate::order::{str_less, str_lt, strictly_sorted, lemma_str_lt_asym, lemma_str_lt_irrefl, lemma_str_lt_total, lemma_str_lt_trans};
use crate::text::{
    ascii_lower_seq, chars_eq, chars_of, has_prefix, is_ws, is_ws_exec, lowercase_of, starts_with, string_of,
    to_lower, trim, trim_chars,
};

verus! {

/// A table's records: `(id, value)` pairs.
pub type Records = Seq<(Seq<char>, JsonView)>;

pub open spec fn keys_of(es: Records) -> Seq<Seq<char>> {
    Seq::new(es.len(), |i: int| es[i].0)
}

pub open spec fn records_view(v: Seq<(String, JsonValue)>) -> Records {
    Seq::new(v.len(), |i: int| (v[i].0@, v[i].1@))
}

/// The value stored under `id`.
pub open spec fn lookup(es: Records, id: Seq<char>) -> Option<JsonView> {
    if exists|i: int| 0 <= i < es.len() && es[i].0 == id {
        Some(es[choose|i: int| 0 <= i < es.len() && es[i].0 == id].1)
    } else {
        None
    }
}

/// `es` (in increasing key order) with `(id, v)` stored: in place of the
/// record under `id`, or where its key belongs.
pub open spec fn sorted_put(es: Records, id: Seq<char>, v: JsonView) -> Records
    decreases es.len(),
{
    if es.len() == 0 {
        seq![(id, v)]
    } else if es[0].0 == id {
        es.update(0, (id, v))
    } else if str_lt(id, es[0].0) {
        seq![(id, v)] + es
    } else {
        seq![es[0]] + sorted_put(es.drop_first(), id, v)
    }
}

/// `es` without the record under `id`.
pub open spec fn without_key(es: Records, id: Seq<char>) -> Records
    decreases es.len(),
{
    if es.len() == 0 {
        es
    } else {
        let r = without_key(es.drop_last(), id);
        if es.last().0 == id {
            r
        } else {
            r.push(es.last())
        }
    }
}

/// The records whose key starts with `prefix` (all of them for none), in
/// order.
pub open spec fn with_prefix(es: Records, prefix: Option<Seq<char>>) -> Records
    decreases es.len(),
{
    if es.len() == 0 {
        es
    } else {
        let r = with_prefix(es.drop_last(), prefix);
        match prefix {
            Some(p) => if has_prefix(es.last().0, p) {
                r.push(es.last())
            } else {
                r
            },
            None => r.push(es.last()),
        }
    }
}

/// The values of the records, in order.
pub open spec fn values_of(es: Records) -> Seq<JsonView> {
    Seq::new(es.len(), |i: int| es[i].1)
}

pub proof fn lemma_sorted_put(es: Records, id: Seq<char>, v: JsonView, p: int)
    requires
        strictly_sorted(keys_of(es)),
        0 <= p <= es.len(),
        forall|i: int| 0 <= i < p ==> str_lt(#[trigger] es[i].0, id),
        p < es.len() ==> !str_lt(es[p].0, id),
    ensures
        p < es.len() && es[p].0 == id ==> sorted_put(es, id, v) == es.update(p, (id, v)),
        !(p < es.len() && es[p].0 == id) ==> sorted_put(es, id, v) == es.take(p).push((id, v)) + es.skip(p),
        strictly_sorted(keys_of(sorted_put(es, id, v))),
    decreases es.len(),
{
    if es.len() == 0 {
        assert(es.take(p).push((id, v)) + es.skip(p) =~= seq![(id, v)]);
    } else if p == 0 {
        if es[0].0 == id {
            assert(keys_of(es.update(0, (id, v))) =~= keys_of(es));
        } else {
            lemma_str_lt_total(es[0].0, id);
            assert(str_lt(id, es[0].0));
            assert(es.take(0).push((id, v)) + es.skip(0) =~= seq![(id, v)] + es);
            let r = seq![(id, v)] + es;
            assert forall|a: int, b: int| 0 <= a < b < r.len() implies str_lt(
                #[trigger] keys_of(r)[a],
                #[trigger] keys_of(r)[b],
            ) by {
                if a == 0 {
                    if b > 1 {
                        assert(str_lt(keys_of(es)[0], keys_of(es)[b - 1]));
                        lemma_str_lt_trans(id, es[0].0, es[b - 1].0);
                    }
                } else {
                    assert(str_lt(keys_of(es)[a - 1], keys_of(es)[b - 1]));
                }
            }
        }
    } else {
        let d = es.drop_first();
        assert(str_lt(es[0].0, id));
        lemma_str_lt_irrefl(id);
        assert(es[0].0 != id);
        lemma_str_lt_asym(es[0].0, id);
        assert(!str_lt(id, es[0].0));
        assert forall|a: int, b: int| 0 <= a < b < d.len() implies str_lt(#[trigger] keys_of(d)[a], #[trigger] keys_of(d)[b]) by {
            assert(str_lt(keys_of(es)[a + 1], keys_of(es)[b + 1]));
        }
        assert forall|i: int| 0 <= i < p - 1 implies str_lt(#[trigger] d[i].0, id) by {
            assert(str_lt(es[i + 1].0, id));
        }
        lemma_sorted_put(d, id, v, p - 1);
        let r = sorted_put(es, id, v);
        let rd = sorted_put(d, id, v);
        assert(r == seq![es[0]] + rd);
        if p < es.len() && es[p].0 == id {
            assert(r =~= es.update(p, (id, v)));
        } else {
            assert(r =~= es.take(p).push((id, v)) + es.skip(p));
        }
        assert forall|a: int, b: int| 0 <= a < b < r.len() implies str_lt(#[trigger] keys_of(r)[a], #[trigger] keys_of(r)[b]) by {
            if a == 0 {
                // rd's keys are all greater than es[0]: either a key of d or id.
                if p < es.len() && es[p].0 == id {
                    if b == p {
                        assert(str_lt(es[0].0, id));
                    } else {
                        assert(str_lt(keys_of(es)[0], keys_of(es)[b]));
                    }
                } else {
                    if b < p {
                        assert(str_lt(keys_of(es)[0], keys_of(es)[b]));
                    } else if b == p {
                        assert(str_lt(es[0].0, id));
                    } else {
                        assert(str_lt(keys_of(es)[0], keys_of(es)[b - 1]));
                    }
                }
            } else {
                assert(str_lt(keys_of(rd)[a - 1], keys_of(rd)[b - 1]));
            }
        }
    }
}

/// Tables of records, one per name, each in increasing key order.
pub struct MemoryBackend {
    pub tables: Vec<(String, Vec<(String, JsonValue)>)>,
}

pub open spec fn tables_view(v: Seq<(String, Vec<(String, JsonValue)>)>) -> Seq<(Seq<char>, Records)> {
    Seq::new(v.len(), |i: int| (v[i].0@, records_view(v[i].1@)))
}

/// Position of the table `name`.
pub open spec fn table_pos(ts: Seq<(Seq<char>, Records)>, name: Seq<char>) -> Option<int> {
    if exists|i: int| 0 <= i < ts.len() && ts[i].0 == name {
        Some(choose|i: int| 0 <= i < ts.len() && ts[i].0 == name)
    } else {
        None
    }
}

/// The records of the table `name` (none for a missing table).
pub open spec fn table_records(ts: Seq<(Seq<char>, Records)>, name: Seq<char>) -> Records {
    match table_pos(ts, name) {
        Some(i) => ts[i].1,
        None => Seq::empty(),
    }
}

/// The tables with `es` as the records of `name`, in place or added.
pub open spec fn tables_put(ts: Seq<(Seq<char>, Records)>, name: Seq<char>, es: Records) -> Seq<(Seq<char>, Records)> {
    match table_pos(ts, name) {
        Some(i) => ts.update(i, (name, es)),
        None => ts.push((name, es)),
    }
}

pub open spec fn tables_ok(ts: Seq<(Seq<char>, Records)>) -> bool {
    &&& forall|i: int, j: int| 0 <= i < j < ts.len() ==> ts[i].0 != ts[j].0
    &&& forall|i: int| 0 <= i < ts.len() ==> strictly_sorted(keys_of(#[trigger] ts[i].1))
}

/// Total number of records.
pub open spec fn record_total(ts: Seq<(Seq<char>, Records)>) -> int
    decreases ts.len(),
{
    if ts.len() == 0 {
        0
    } else {
        record_total(ts.drop_last()) + ts.last().1.len()
    }
}

fn clone_records(v: &Vec<(String, JsonValue)>) -> (r: Vec<(String, JsonValue)>)
    ensures
        records_view(r@) == records_view(v@),
{
    let mut out: Vec<(String, JsonValue)> = Vec::new();
    let mut i: usize = 0;
    while i < v.len()
        invariant
            i <= v@.len(),
            records_view(out@) == records_view(v@).take(i as int),
        decreases v.len() - i,
    {
        let ghost before = out@;
        let k = crate::json::clone_string(&v[i].0);
        let x = clone_json(&v[i].1);
        out.push((k, x));
        assert(records_view(out@) =~= records_view(before).push(records_view(v@)[i as int]));
        assert(records_view(out@) =~= records_view(v@).take(i + 1));
        i += 1;
    }
    assert(records_view(v@).take(v@.len() as int) =~= records_view(v@));
    out
}

impl MemoryBackend {
    pub open spec fn view(&self) -> Seq<(Seq<char>, Records)> {
        tables_view(self.tables@)
    }

    pub open spec fn wf(&self) -> bool {
        tables_ok(self.view())
    }

    /// An empty backend.
    pub fn new() -> (r: Self)
        ensures
            r.wf(),
            r.view().len() == 0,
    {
        MemoryBackend { tables: Vec::new() }
    }

    fn find_table(&self, name: &Vec<char>) -> (r: Option<usize>)
        requires
            self.wf(),
        ensures
            match r {
                Some(i) => table_pos(self.view(), name@) == Some(i as int) && i < self.tables@.len(),
                None => table_pos(self.view(), name@) is None,
            },
    {
        let ghost ts = self.view();
        let mut i: usize = 0;
        while i < self.tables.len()
            invariant
                i <= self.tables@.len(),
                ts == self.view(),
                tables_ok(ts),
                forall|j: int| 0 <= j < i ==> ts[j].0 != name@,
            decreases self.tables.len() - i,
        {
            if chars_eq(chars_of(self.tables[i].0.as_str()).as_slice(), name.as_slice()) {
                proof {
                    assert(ts[i as int].0 == name@);
                    let w = choose|j: int| 0 <= j < ts.len() && ts[j].0 == name@;
                    if w != i {
                        assert(ts[w].0 != ts[i as int].0);
                    }
                }
                return Some(i);
            }
            i += 1;
        }
        None
    }

    /// Number of tables.
    pub fn table_count(&self) -> (r: usize)
        ensures
            r == self.view().len(),
    {
        self.tables.len()
    }

    /// Total number of records across all tables (saturating at
    /// `usize::MAX`).
    pub fn record_count(&self) -> (r: usize)
        ensures
            r == (if record_total(self.view()) <= usize::MAX {
                record_total(self.view())
            } else {
                usize::MAX as int
            }),
    {
        let ghost ts = self.view();
        let mut n: usize = 0;
        let mut i: usize = 0;
        while i < self.tables.len()
            invariant
                i <= self.tables@.len(),
                ts == self.view(),
                n == (if record_total(ts.take(i as int)) <= usize::MAX {
                    record_total(ts.take(i as int))
                } else {
                    usize::MAX as int
                }),
            decreases self.tables.len() - i,
        {
            assert(ts.take(i + 1).drop_last() =~= ts.take(i as int));
            assert(ts[i as int].1.len() == self.tables@[i as int].1@.len());
            n = n.saturating_add(self.tables[i].1.len());
            i += 1;
        }
        assert(ts.take(ts.len() as int) =~= ts);
        n
    }

    /// The value under `id` in `table`.
    pub fn get(&self, table: &str, id: &str) -> (r: Option<JsonValue>)
        requires
            self.wf(),
        ensures
            match lookup(table_records(self.view(), table@), id@) {
                Some(v) => r matches Some(x) && x@ == v,
                None => r is None,
            },
    {
        match self.find_table(&chars_of(table)) {
            None => None,
            Some(t) => {
                let ghost es = self.view()[t as int].1;
                let recs = &self.tables[t].1;
                let k = chars_of(id);
                assert(strictly_sorted(keys_of(es)));
                assert(table_records(self.view(), table@) == es);
                let mut i: usize = 0;
                while i < recs.len()
                    invariant
                        i <= recs@.len(),
                        es == records_view(recs@),
                        k@ == id@,
                        strictly_sorted(keys_of(es)),
                        table_records(self.view(), table@) == es,
                        forall|j: int| 0 <= j < i ==> es[j].0 != id@,
                    decreases recs.len() - i,
                {
                    assert(es[i as int] == (recs@[i as int].0@, recs@[i as int].1@));
                    if chars_eq(chars_of(recs[i].0.as_str()).as_slice(), k.as_slice()) {
                        proof {
                            assert(es[i as int].0 == id@);
                            let w = choose|j: int| 0 <= j < es.len() && es[j].0 == id@;
                            assert(strictly_sorted(keys_of(es)));
                            if w != i {
                                if w < i {
                                } else {
                                    assert(str_lt(keys_of(es)[i as int], keys_of(es)[w]));
                                    assert(keys_of(es)[i as int] == id@ && keys_of(es)[w] == id@);
                                    lemma_str_lt_irrefl(id@);
                                }
                            }
                            assert(w == i);
                            assert(lookup(es, id@) == Some(es[i as int].1));
                            assert(table_records(self.view(), table@) == es);
                        }
                        return Some(clone_json(&recs[i].1));
                    }
                    i += 1;
                }
                None
            },
        }
    }

    /// Store `value` under `id` in `table` (creating the table).
    pub fn set(&mut self, table: &str, id: &str, value: JsonValue)
        requires
            old(self).wf(),
        ensures
            final(self).wf(),
            final(self).view() == tables_put(
                old(self).view(),
                table@,
                sorted_put(table_records(old(self).view(), table@), id@, value@),
            ),
    {
        let ghost ts = self.view();
        let ghost vv = value@;
        let (mut recs, pos) = match self.find_table(&chars_of(table)) {
            Some(t) => {
                let (_, r) = self.tables.remove(t);
                (r, Some(t))
            },
            None => (Vec::new(), None),
        };
        let ghost es = records_view(recs@);
        proof {
            match pos {
                Some(t) => assert(es == ts[t as int].1),
                None => assert(es =~= table_records(ts, table@)),
            }
            assert(es == table_records(ts, table@));
            assert(strictly_sorted(keys_of(es))) by {
                if pos is None {
                    assert(keys_of(es) =~= Seq::<Seq<char>>::empty());
                }
            }
        }
        let k = chars_of(id);
        let mut p: usize = 0;
        while p < recs.len() && str_less(chars_of(recs[p].0.as_str()).as_slice(), k.as_slice())
            invariant
                p <= recs@.len(),
                es == records_view(recs@),
                k@ == id@,
                forall|i: int| 0 <= i < p ==> str_lt(#[trigger] es[i].0, id@),
            decreases recs.len() - p,
        {
            assert(es[p as int] == (recs@[p as int].0@, recs@[p as int].1@));
            p += 1;
        }
        proof {
            lemma_sorted_put(es, id@, vv, p as int);
        }
        proof {
            if p < recs.len() {
                assert(es[p as int] == (recs@[p as int].0@, recs@[p as int].1@));
            }
        }
        if p < recs.len() && chars_eq(chars_of(recs[p].0.as_str()).as_slice(), k.as_slice()) {
            recs.set(p, (id.to_owned(), value));
            assert(records_view(recs@) =~= es.update(p as int, (id@, vv)));
        } else {
            recs.insert(p, (id.to_owned(), value));
            assert(records_view(recs@) =~= es.take(p as int).push((id@, vv)) + es.skip(p as int));
        }
        let ghost new_es = records_view(recs@);
        match pos {
            Some(t) => {
                self.tables.insert(t, (table.to_owned(), recs));
                proof {
                    assert(self.view() =~= ts.update(t as int, (table@, new_es)));
                }
            },
            None => {
                self.tables.push((table.to_owned(), recs));
                proof {
                    assert(self.view() =~= ts.push((table@, new_es)));
                }
            },
        }
        proof {
            let nv = self.view();
            assert forall|a: int, b: int| 0 <= a < b < nv.len() implies nv[a].0 != nv[b].0 by {
                if b < ts.len() {
                    assert(ts[a].0 != ts[b].0);
                } else {
                    assert(pos is None);
                    assert(ts[a].0 != table@);
                }
            }
            assert forall|i: int| 0 <= i < nv.len() implies strictly_sorted(keys_of(#[trigger] nv[i].1)) by {
                match pos {
                    Some(t) => {
                        if i != t {
                            assert(nv[i] == ts[i]);
                        }
                    },
                    None => {
                        if i < ts.len() {
                            assert(nv[i] == ts[i]);
                        }
                    },
                }
            }
        }
    }

    /// Remove the record under `id` in `table`; `true` when there was one.
    pub fn delete(&mut self, table: &str, id: &str) -> (r: bool)
        requires
            old(self).wf(),
        ensures
            final(self).wf(),
            r == lookup(table_records(old(self).view(), table@), id@) is Some,
            r ==> final(self).view() == tables_put(
                old(self).view(),
                table@,
                without_key(table_records(old(self).view(), table@), id@),
            ),
            !r ==> final(self).view() == old(self).view(),
    {
        let ghost ts = self.view();
        match self.find_table(&chars_of(table)) {
            None => false,
            Some(t) => {
                let ghost es = ts[t as int].1;
                let k = chars_of(id);
                let mut i: usize = 0;
                let mut found: Option<usize> = None;
                while i < self.tables[t].1.len()
                    invariant
                        i <= es.len(),
                        t < self.tables@.len(),
                        ts == self.view(),
                        es == ts[t as int].1,
                        es.len() == self.tables@[t as int].1@.len(),
                        k@ == id@,
                        match found {
                            Some(f) => f < es.len() && es[f as int].0 == id@,
                            None => forall|j: int| 0 <= j < i ==> es[j].0 != id@,
                        },
                    decreases es.len() - i,
                {
                    assert(es[i as int] == (self.tables@[t as int].1@[i as int].0@, self.tables@[t as int].1@[i as int].1@));
                    if found.is_none() && chars_eq(chars_of(self.tables[t].1[i].0.as_str()).as_slice(), k.as_slice()) {
                        found = Some(i);
                    }
                    i += 1;
                }
                match found {
                    None => {
                        proof {
                            assert(!(exists|j: int| 0 <= j < es.len() && es[j].0 == id@));
                        }
                        false
                    },
                    Some(f) => {
                        let (name, mut recs) = self.tables.remove(t);
                        let ghost rv = recs@;
                        assert(records_view(rv) == es);
                        recs.remove(f);
                        assert(records_view(recs@) =~= es.remove(f as int));
                        self.tables.insert(t, (name, recs));
                        proof {
                            lemma_without_sorted_key(es, id@, f as int);
                            assert(self.view() =~= ts.update(t as int, (table@, without_key(es, id@))));
                            let nv = self.view();
                            assert forall|a: int, b: int| 0 <= a < b < nv.len() implies nv[a].0 != nv[b].0 by {
                                assert(ts[a].0 != ts[b].0);
                            }
                            assert forall|q: int| 0 <= q < nv.len() implies strictly_sorted(keys_of(#[trigger] nv[q].1)) by {
                                if q != t {
                                    assert(nv[q] == ts[q]);
                                }
                            }
                        }
                        true
                    },
                }
            },
        }
    }

    /// Up to `limit` records of `table` whose key starts with `prefix`
    /// (all records for none), in key order.
    pub fn scan(&self, table: &str, prefix: Option<&str>, limit: usize) -> (r: Vec<(String, JsonValue)>)
        requires
            self.wf(),
        ensures
            records_view(r@) == ({
                let m = with_prefix(
                    table_records(self.view(), table@),
                    match prefix {
                        Some(p) => Some(p@),
                        None => None,
                    },
                );
                if m.len() <= limit {
                    m
                } else {
                    m.take(limit as int)
                }
            }),
    {
        let ghost pv = match prefix {
            Some(p) => Some(p@),
            None => None::<Seq<char>>,
        };
        let mut out: Vec<(String, JsonValue)> = Vec::new();
        match self.find_table(&chars_of(table)) {
            None => {
                assert(records_view(out@) =~= with_prefix(Seq::empty(), pv));
                out
            },
            Some(t) => {
                let ghost es = self.view()[t as int].1;
                let recs = &self.tables[t].1;
                let pc: Option<Vec<char>> = match prefix {
                    Some(p) => Some(chars_of(p)),
                    None => None,
                };
                let mut i: usize = 0;
                while i < recs.len() && out.len() < limit
                    invariant
                        i <= recs@.len(),
                        es == records_view(recs@),
                        out@.len() <= limit,
                        records_view(out@) == with_prefix(es.take(i as int), pv),
                        match pc {
                            Some(c) => pv == Some(c@),
                            None => pv is None,
                        },
                    decreases recs.len() - i,
                {
                    assert(es.take(i + 1).drop_last() =~= es.take(i as int));
                    let take = match &pc {
                        Some(c) => starts_with(chars_of(recs[i].0.as_str()).as_slice(), c.as_slice()),
                        None => true,
                    };
                    if take {
                        let ghost before = out@;
                        out.push((crate::json::clone_string(&recs[i].0), clone_json(&recs[i].1)));
                        assert(records_view(out@) =~= records_view(before).push(es[i as int]));
                    }
                    i += 1;
                }
                proof {
                    let m = with_prefix(es, pv);
                    lemma_with_prefix_extends(es, pv, i as int);
                    if out@.len() < limit {
                        assert(i == recs@.len());
                        assert(es.take(i as int) =~= es);
                    } else {
                        assert(m.take(limit as int) =~= with_prefix(es.take(i as int), pv));
                    }
                }
                out
            },
        }
    }

    /// The name this backend reports.
    pub fn backend_name(&self) -> (r: &'static str)
        ensures
            r@ == "memory"@,
    {
        "memory"
    }
}

// ── The SELECT dialect ─────────────────────────────────────────────

/// The words of `s` so far and the word being read, scanning left to
/// right; words are separated by runs of whitespace.
pub open spec fn words_acc(s: Seq<char>) -> (Seq<Seq<char>>, Seq<char>)
    decreases s.len(),
{
    if s.len() == 0 {
        (Seq::empty(), Seq::empty())
    } else {
        let (ws, cur) = words_acc(s.drop_last());
        if is_ws(s.last()) {
            if cur.len() > 0 {
                (ws.push(cur), Seq::empty())
            } else {
                (ws, Seq::empty())
            }
        } else {
            (ws, cur.push(s.last()))
        }
    }
}

/// `str::split_whitespace`: the non-empty runs of non-whitespace.
pub open spec fn words(s: Seq<char>) -> Seq<Seq<char>> {
    let (ws, cur) = words_acc(s);
    if cur.len() > 0 {
        ws.push(cur)
    } else {
        ws
    }
}

/// `s` with every leading `c` removed.
pub open spec fn strip_start(s: Seq<char>, c: char) -> Seq<char>
    decreases s.len(),
{
    if s.len() > 0 && s[0] == c {
        strip_start(s.drop_first(), c)
    } else {
        s
    }
}

/// `s` with every trailing `c` removed.
pub open spec fn strip_end(s: Seq<char>, c: char) -> Seq<char>
    decreases s.len(),
{
    if s.len() > 0 && s.last() == c {
        strip_end(s.drop_last(), c)
    } else {
        s
    }
}

/// `str::trim_matches(c)`.
pub open spec fn strip_both(s: Seq<char>, c: char) -> Seq<char> {
    strip_end(strip_start(s, c), c)
}

/// `eq_ignore_ascii_case`.
pub open spec fn ascii_eq_ic(a: Seq<char>, b: Seq<char>) -> bool {
    ascii_lower_seq(a) == ascii_lower_seq(b)
}

/// Position of the first word equal to `kw` ignoring ASCII case.
pub open spec fn keyword_pos(parts: Seq<Seq<char>>, kw: Seq<char>) -> Option<int> {
    if exists|i: int| 0 <= i < parts.len() && ascii_eq_ic(parts[i], kw) {
        Some(choose|i: int| 0 <= i < parts.len() && ascii_eq_ic(parts[i], kw) && forall|j: int| 0 <= j < i ==> !ascii_eq_ic(parts[j], kw))
    } else {
        None
    }
}

pub open spec fn no_table_message() -> Seq<char> {
    "could not parse table name from query"@
}

pub open spec fn select_only_message() -> Seq<char> {
    "in-memory backend only supports SELECT queries"@
}

/// The id of a `WHERE id = <id>` clause at word `w`, if the words there
/// read so.
pub open spec fn id_clause(parts: Seq<Seq<char>>, w: int) -> Option<Seq<char>> {
    if w + 3 < parts.len() && ascii_eq_ic(parts[w + 1], "id"@) && parts[w + 2] == "="@ {
        Some(strip_end(strip_both(strip_both(parts[w + 3], '\''), '"'), ';'))
    } else {
        None
    }
}

/// What a query answers on the tables `ts`: a `SELECT` (its trimmed text
/// lowered starts so) reads the table named after the first `FROM` word
/// (trailing `;` dropped), all its values in key order, or the one under
/// the id of a `WHERE id = '<id>'` clause at the first `WHERE` word; an
/// unknown table gives nothing.
pub open spec fn query_spec(ts: Seq<(Seq<char>, Records)>, sql: Seq<char>) -> Result<Seq<JsonView>, Seq<char>> {
    if !has_prefix(to_lower(trim(sql)), "select"@) {
        Err(select_only_message())
    } else {
        let parts = words(sql);
        match keyword_pos(parts, "from"@) {
            None => Err(no_table_message()),
            Some(f) => if f + 1 >= parts.len() {
                Err(no_table_message())
            } else {
                let t = strip_end(parts[f + 1], ';');
                match table_pos(ts, t) {
                    None => Ok(Seq::empty()),
                    Some(ti) => {
                        let es = ts[ti].1;
                        let by_id = match keyword_pos(parts, "where"@) {
                            Some(w) => id_clause(parts, w),
                            None => None,
                        };
                        match by_id {
                            Some(id) => Ok(
                                match lookup(es, id) {
                                    Some(v) => seq![v],
                                    None => Seq::empty(),
                                },
                            ),
                            None => Ok(values_of(es)),
                        }
                    },
                }
            },
        }
    }
}

fn words_exec(s: &Vec<char>) -> (r: Vec<Vec<char>>)
    ensures
        Seq::new(r@.len(), |i: int| r@[i]@) == words(s@),
{
    let mut ws: Vec<Vec<char>> = Vec::new();
    let mut cur: Vec<char> = Vec::new();
    let mut i: usize = 0;
    while i < s.len()
        invariant
            i <= s@.len(),
            (Seq::new(ws@.len(), |k: int| ws@[k]@), cur@) == words_acc(s@.take(i as int)),
        decreases s.len() - i,
    {
        assert(s@.take(i + 1).drop_last() =~= s@.take(i as int));
        let c = s[i];
        let ghost before = ws@;
        if is_ws_exec(c) {
            if cur.len() > 0 {
                ws.push(cur);
                assert(Seq::new(ws@.len(), |k: int| ws@[k]@) =~= Seq::new(before.len(), |k: int| before[k]@).push(
                    ws@[ws@.len() - 1]@,
                ));
            }
            cur = Vec::new();
            assert(cur@ =~= Seq::<char>::empty());
        } else {
            cur.push(c);
        }
        i += 1;
    }
    assert(s@.take(s@.len() as int) =~= s@);
    if cur.len() > 0 {
        let ghost before = ws@;
        ws.push(cur);
        assert(Seq::new(ws@.len(), |k: int| ws@[k]@) =~= Seq::new(before.len(), |k: int| before[k]@).push(
            ws@[ws@.len() - 1]@,
        ));
    }
    ws
}

fn strip_start_exec(s: &Vec<char>, c: char) -> (r: Vec<char>)
    ensures
        r@ == strip_start(s@, c),
{
    let mut i: usize = 0;
    assert(s@.skip(0) =~= s@);
    while i < s.len() && s[i] == c
        invariant
            i <= s@.len(),
            strip_start(s@, c) == strip_start(s@.skip(i as int), c),
        decreases s.len() - i,
    {
        assert(s@.skip(i as int).drop_first() =~= s@.skip(i + 1));
        i += 1;
    }
    let r = crate::text::slice_chars(s, i, s.len());
    assert(r@ =~= s@.skip(i as int));
    r
}

fn strip_end_exec(s: &Vec<char>, c: char) -> (r: Vec<char>)
    ensures
        r@ == strip_end(s@, c),
{
    let mut n: usize = s.len();
    assert(s@.take(s@.len() as int) =~= s@);
    while n > 0 && s[n - 1] == c
        invariant
            n <= s@.len(),
            strip_end(s@, c) == strip_end(s@.take(n as int), c),
        decreases n,
    {
        assert(s@.take(n as int).drop_last() =~= s@.take(n - 1));
        n -= 1;
    }
    let r = crate::text::slice_chars(s, 0, n);
    assert(r@ =~= s@.take(n as int));
    r
}

fn ascii_eq_ic_exec(a: &Vec<char>, b: &str) -> (r: bool)
    ensures
        r == ascii_eq_ic(a@, b@),
{
    let bc = chars_of(b);
    if a.len() != bc.len() {
        proof {
            assert(ascii_lower_seq(a@).len() != ascii_lower_seq(bc@).len());
        }
        return false;
    }
    let mut i: usize = 0;
    while i < a.len()
        invariant
            i <= a@.len(),
            a@.len() == bc@.len(),
            bc@ == b@,
            forall|k: int| 0 <= k < i ==> ascii_lower_seq(a@)[k] == ascii_lower_seq(bc@)[k],
        decreases a.len() - i,
    {
        if crate::text::ascii_lower_exec(a[i]) != crate::text::ascii_lower_exec(bc[i]) {
            proof {
                assert(ascii_lower_seq(a@)[i as int] != ascii_lower_seq(bc@)[i as int]);
            }
            return false;
        }
        i += 1;
    }
    assert(ascii_lower_seq(a@) =~= ascii_lower_seq(bc@));
    true
}

fn keyword_position(parts: &Vec<Vec<char>>, kw: &str) -> (r: Option<usize>)
    ensures
        match r {
            Some(i) => keyword_pos(Seq::new(parts@.len(), |k: int| parts@[k]@), kw@) == Some(i as int) && i < parts@.len(),
            None => keyword_pos(Seq::new(parts@.len(), |k: int| parts@[k]@), kw@) is None,
        },
{
    let ghost pv = Seq::new(parts@.len(), |k: int| parts@[k]@);
    let mut i: usize = 0;
    while i < parts.len()
        invariant
            i <= parts@.len(),
            pv == Seq::new(parts@.len(), |k: int| parts@[k]@),
            forall|j: int| 0 <= j < i ==> !ascii_eq_ic(pv[j], kw@),
        decreases parts.len() - i,
    {
        if ascii_eq_ic_exec(&parts[i], kw) {
            proof {
                assert(ascii_eq_ic(pv[i as int], kw@));
                let w = choose|q: int| 0 <= q < pv.len() && ascii_eq_ic(pv[q], kw@) && forall|j: int| 0 <= j < q ==> !ascii_eq_ic(pv[j], kw@);
                if w < i {
                } else if w > i {
                    assert(!ascii_eq_ic(pv[i as int], kw@));
                }
            }
            return Some(i);
        }
        i += 1;
    }
    None
}

/// The id of the `WHERE id = <id>` clause of the words, if any.
fn where_id(parts: &Vec<Vec<char>>) -> (r: Option<Vec<char>>)
    ensures
        ({
            let pv = Seq::new(parts@.len(), |k: int| parts@[k]@);
            match r {
                Some(id) => keyword_pos(pv, "where"@) matches Some(w) && id_clause(pv, w) == Some(id@),
                None => match keyword_pos(pv, "where"@) {
                    Some(w) => id_clause(pv, w) is None,
                    None => true,
                },
            }
        }),
{
    let ghost pv = Seq::new(parts@.len(), |k: int| parts@[k]@);
    match keyword_position(parts, "where") {
        Some(w) => {
            if parts.len() >= 3 && w < parts.len() - 3 {
                assert(pv[w + 1] == parts@[w + 1]@ && pv[w + 2] == parts@[w + 2]@ && pv[w + 3] == parts@[w + 3]@);
                if ascii_eq_ic_exec(&parts[w + 1], "id") && chars_eq(parts[w + 2].as_slice(), chars_of("=").as_slice()) {
                    let a = strip_end_exec(&strip_start_exec(&parts[w + 3], '\''), '\'');
                    let b = strip_end_exec(&strip_start_exec(&a, '"'), '"');
                    return Some(strip_end_exec(&b, ';'));
                }
            }
            None
        },
        None => None,
    }
}

impl MemoryBackend {
    fn table_values(&self, ti: usize) -> (r: Vec<JsonValue>)
        requires
            ti < self.tables@.len(),
        ensures
            crate::json::json_views(r@) == values_of(self.view()[ti as int].1),
    {
        let ghost es = self.view()[ti as int].1;
        let recs = &self.tables[ti].1;
        let mut r: Vec<JsonValue> = Vec::new();
        let mut i: usize = 0;
        while i < recs.len()
            invariant
                i <= recs@.len(),
                es == records_view(recs@),
                crate::json::json_views(r@) == values_of(es).take(i as int),
            decreases recs.len() - i,
        {
            let ghost before = r@;
            r.push(clone_json(&recs[i].1));
            assert(crate::json::json_views(r@) =~= crate::json::json_views(before).push(es[i as int].1));
            assert(crate::json::json_views(r@) =~= values_of(es).take(i + 1));
            i += 1;
        }
        assert(values_of(es).take(es.len() as int) =~= values_of(es));
        r
    }

    /// Answer a query in the minimal `SELECT` dialect (see [`query_spec`]).
    pub fn query(&self, sql: &str) -> (r: Result<Vec<JsonValue>, String>)
        requires
            self.wf(),
        ensures
            match query_spec(self.view(), sql@) {
                Ok(vs) => r matches Ok(x) && crate::json::json_views(x@) == vs,
                Err(m) => r matches Err(x) && x@ == m,
            },
    {
        let lowered = lowercase_of(string_of(trim_chars(&chars_of(sql)).as_slice()).as_str());
        if !starts_with(lowered.as_slice(), chars_of("select").as_slice()) {
            return Err("in-memory backend only supports SELECT queries".to_owned());
        }
        let parts = words_exec(&chars_of(sql));
        let ghost pv = Seq::new(parts@.len(), |k: int| parts@[k]@);
        let f = match keyword_position(&parts, "from") {
            Some(f) => f,
            None => {
                return Err("could not parse table name from query".to_owned());
            },
        };
        if f + 1 >= parts.len() {
            return Err("could not parse table name from query".to_owned());
        }
        assert(pv[f + 1] == parts@[f + 1]@);
        let t = strip_end_exec(&parts[f + 1], ';');
        let ti = match self.find_table(&t) {
            Some(ti) => ti,
            None => {
                let r: Vec<JsonValue> = Vec::new();
                assert(crate::json::json_views(r@) =~= Seq::<JsonView>::empty());
                return Ok(r);
            },
        };
        match where_id(&parts) {
            Some(id) => {
                let mut r: Vec<JsonValue> = Vec::new();
                match self.get(string_of(t.as_slice()).as_str(), string_of(id.as_slice()).as_str()) {
                    Some(v) => {
                        r.push(v);
                        assert(crate::json::json_views(r@) =~= seq![r@[0]@]);
                    },
                    None => {
                        assert(crate::json::json_views(r@) =~= Seq::<JsonView>::empty());
                    },
                }
                Ok(r)
            },
            None => Ok(self.table_values(ti)),
        }
    }
}

/// Filtering a prefix of `es` gives a prefix of filtering all of it.
pub proof fn lemma_with_prefix_extends(es: Records, p: Option<Seq<char>>, n: int)
    requires
        0 <= n <= es.len(),
    ensures
        with_prefix(es.take(n), p).len() <= with_prefix(es, p).len(),
        with_prefix(es, p).take(with_prefix(es.take(n), p).len() as int) == with_prefix(es.take(n), p),
    decreases es.len() - n,
{
    if n < es.len() {
        lemma_with_prefix_extends(es, p, n + 1);
        assert(es.take(n + 1).drop_last() =~= es.take(n));
        let a = with_prefix(es.take(n), p);
        let b = with_prefix(es.take(n + 1), p);
        let all = with_prefix(es, p);
        assert(all.take(b.len() as int).take(a.len() as int) =~= all.take(a.len() as int));
        assert(b.take(a.len() as int) =~= a);
    } else {
        assert(es.take(n) =~= es);
        assert(with_prefix(es, p).take(with_prefix(es, p).len() as int) =~= with_prefix(es, p));
    }
}

/// In a table with distinct keys, removing the record at `f` (whose key
/// is `id`) gives the records without `id`, still in order.
pub proof fn lemma_without_sorted_key(es: Records, id: Seq<char>, f: int)
    requires
        strictly_sorted(keys_of(es)),
        0 <= f < es.len(),
        es[f].0 == id,
    ensures
        without_key(es, id) == es.remove(f),
        strictly_sorted(keys_of(es.remove(f))),
        lookup(es, id) is Some,
{
    lemma_without_key_other(es, id, f);
    let r = es.remove(f);
    assert forall|a: int, b: int| 0 <= a < b < r.len() implies str_lt(#[trigger] keys_of(r)[a], #[trigger] keys_of(r)[b]) by {
        let a2 = if a < f {
            a
        } else {
            a + 1
        };
        let b2 = if b < f {
            b
        } else {
            b + 1
        };
        assert(str_lt(keys_of(es)[a2], keys_of(es)[b2]));
    }
}

proof fn lemma_without_key_other(es: Records, id: Seq<char>, f: int)
    requires
        strictly_sorted(keys_of(es)),
        0 <= f < es.len(),
        es[f].0 == id,
    ensures
        without_key(es, id) == es.remove(f),
    decreases es.len(),
{
    let d = es.drop_last();
    if f == es.len() - 1 {
        assert forall|j: int| 0 <= j < d.len() implies d[j].0 != id by {
            assert(str_lt(keys_of(es)[j], keys_of(es)[f]));
            lemma_str_lt_irrefl(id);
        }
        lemma_without_key_absent(d, id);
        assert(es.remove(f) =~= d);
    } else {
        assert(strictly_sorted(keys_of(d))) by {
            assert forall|a: int, b: int| 0 <= a < b < d.len() implies str_lt(#[trigger] keys_of(d)[a], #[trigger] keys_of(d)[b]) by {
                assert(str_lt(keys_of(es)[a], keys_of(es)[b]));
            }
        }
        lemma_without_key_other(d, id, f);
        assert(str_lt(keys_of(es)[f], keys_of(es)[es.len() - 1]));
        lemma_str_lt_irrefl(id);
        assert(es.last().0 != id);
        assert(es.remove(f) =~= d.remove(f).push(es.last()));
    }
}

proof fn lemma_without_key_absent(es: Records, id: Seq<char>)
    requires
        forall|j: int| 0 <= j < es.len() ==> es[j].0 != id,
    ensures
        without_key(es, id) == es,
    decreases es.len(),
{
    if es.len() > 0 {
        lemma_without_key_absent(es.drop_last(), id);
        assert(es.drop_last().push(es.last()) =~= es);
    }
}

} // verus!
