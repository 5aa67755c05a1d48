//! Subscription registry for fan-out deduplication: which sessions, and
//! which of their subscriptions, follow each query hash.
//!
//! The registry is a set of `(query hash, session, subscription)`
//! triples, kept in registration order without repeats.  The query
//! hashes and sessions "with subscriptions" are those occurring in it.
use vstd::prelude::*;

verus! {

/// Key combining session and subscription for precise tracking.
#[derive(Debug, Clone, Copy, PartialEq, Eq, Hash, Structural)]
pub struct SubscriptionHandle {
    pub session_id: u128,
    pub sub_id: u128,
}

/// The registered `(query_hash, session_id, sub_id)` triples.
#[derive(Debug)]
pub struct SubscriptionRegistry {
    pub entries: Vec<(u64, u128, u128)>,
}

/// The distinct query hashes of `es`, in order of first occurrence.
pub open spec fn distinct_hashes(es: Seq<(u64, u128, u128)>) -> Seq<u64>
    decreases es.len(),
{
    if es.len() == 0 {
        Seq::empty()
    } else {
        let r = distinct_hashes(es.drop_last());
        if r.contains(es.last().0) {
            r
        } else {
            r.push(es.last().0)
        }
    }
}

/// The distinct sessions of `es`, in order of first occurrence.
pub open spec fn distinct_sessions(es: Seq<(u64, u128, u128)>) -> Seq<u128>
    decreases es.len(),
{
    if es.len() == 0 {
        Seq::empty()
    } else {
        let r = distinct_sessions(es.drop_last());
        if r.contains(es.last().1) {
            r
        } else {
            r.push(es.last().1)
        }
    }
}

/// The handles registered for `h`, in order.
pub open spec fn handles_for(es: Seq<(u64, u128, u128)>, h: u64) -> Seq<SubscriptionHandle>
    decreases es.len(),
{
    if es.len() == 0 {
        Seq::empty()
    } else {
        let r = handles_for(es.drop_last(), h);
        if es.last().0 == h {
            r.push(SubscriptionHandle { session_id: es.last().1, sub_id: es.last().2 })
        } else {
            r
        }
    }
}

/// The entries not of session `s`, in order.
pub open spec fn without_session(es: Seq<(u64, u128, u128)>, s: u128) -> Seq<(u64, u128, u128)>
    decreases es.len(),
{
    if es.len() == 0 {
        Seq::empty()
    } else {
        let r = without_session(es.drop_last(), s);
        if es.last().1 == s {
            r
        } else {
            r.push(es.last())
        }
    }
}

/// The entries of session `s`, in order.
pub open spec fn of_session(es: Seq<(u64, u128, u128)>, s: u128) -> Seq<(u64, u128, u128)>
    decreases es.len(),
{
    if es.len() == 0 {
        Seq::empty()
    } else {
        let r = of_session(es.drop_last(), s);
        if es.last().1 == s {
            r.push(es.last())
        } else {
            r
        }
    }
}

pub proof fn lemma_distinct_hashes(es: Seq<(u64, u128, u128)>)
    ensures
        distinct_hashes(es).no_duplicates(),
        forall|h: u64| distinct_hashes(es).contains(h) <==> exists|i: int| 0 <= i < es.len() && #[trigger] es[i].0 == h,
    decreases es.len(),
{
    broadcast use vstd::seq_lib::lemma_seq_contains_after_push;
    if es.len() > 0 {
        let d = es.drop_last();
        lemma_distinct_hashes(d);
        assert forall|h: u64| distinct_hashes(es).contains(h) <==> exists|i: int|
            0 <= i < es.len() && #[trigger] es[i].0 == h by {
            if distinct_hashes(es).contains(h) {
                if distinct_hashes(d).contains(h) {
                    let i = choose|i: int| 0 <= i < d.len() && #[trigger] d[i].0 == h;
                    assert(es[i] == d[i]);
                } else {
                    assert(es[es.len() - 1].0 == h);
                }
            }
            if exists|i: int| 0 <= i < es.len() && #[trigger] es[i].0 == h {
                let i = choose|i: int| 0 <= i < es.len() && #[trigger] es[i].0 == h;
                if i < d.len() {
                    assert(d[i] == es[i]);
                }
            }
        }
    }
}

pub proof fn lemma_distinct_sessions(es: Seq<(u64, u128, u128)>)
    ensures
        distinct_sessions(es).no_duplicates(),
        forall|s: u128|
            distinct_sessions(es).contains(s) <==> exists|i: int| 0 <= i < es.len() && #[trigger] es[i].1 == s,
    decreases es.len(),
{
    broadcast use vstd::seq_lib::lemma_seq_contains_after_push;
    if es.len() > 0 {
        let d = es.drop_last();
        lemma_distinct_sessions(d);
        assert forall|s: u128| distinct_sessions(es).contains(s) <==> exists|i: int|
            0 <= i < es.len() && #[trigger] es[i].1 == s by {
            if distinct_sessions(es).contains(s) {
                if distinct_sessions(d).contains(s) {
                    let i = choose|i: int| 0 <= i < d.len() && #[trigger] d[i].1 == s;
                    assert(es[i] == d[i]);
                } else {
                    assert(es[es.len() - 1].1 == s);
                }
            }
            if exists|i: int| 0 <= i < es.len() && #[trigger] es[i].1 == s {
                let i = choose|i: int| 0 <= i < es.len() && #[trigger] es[i].1 == s;
                if i < d.len() {
                    assert(d[i] == es[i]);
                }
            }
        }
    }
}

pub proof fn lemma_without_session(es: Seq<(u64, u128, u128)>, s: u128)
    requires
        es.no_duplicates(),
    ensures
        without_session(es, s).no_duplicates(),
        forall|e: (u64, u128, u128)| without_session(es, s).contains(e) <==> (es.contains(e) && e.1 != s),
    decreases es.len(),
{
    broadcast use vstd::seq_lib::lemma_seq_contains_after_push;
    if es.len() > 0 {
        let d = es.drop_last();
        assert(d.no_duplicates());
        lemma_without_session(d, s);
        assert forall|e: (u64, u128, u128)| without_session(es, s).contains(e) <==> (es.contains(e) && e.1 != s) by {
            if es.contains(e) {
                let i = choose|i: int| 0 <= i < es.len() && es[i] == e;
                if i < d.len() {
                    assert(d[i] == e);
                }
            }
            if d.contains(e) {
                let i = choose|i: int| 0 <= i < d.len() && d[i] == e;
                assert(es[i] == e);
            }
            if without_session(es, s).contains(e) && !without_session(d, s).contains(e) {
                assert(without_session(es, s).last() == e);
            }
        }
        if es.last().1 != s {
            assert(!d.contains(es.last())) by {
                if d.contains(es.last()) {
                    let i = choose|i: int| 0 <= i < d.len() && d[i] == es.last();
                    assert(es[i] == es[es.len() - 1]);
                }
            }
        }
    }
}

/// The entries other than `e`, in order.
pub open spec fn without_entry(es: Seq<(u64, u128, u128)>, e: (u64, u128, u128)) -> Seq<(u64, u128, u128)>
    decreases es.len(),
{
    if es.len() == 0 {
        Seq::empty()
    } else {
        let r = without_entry(es.drop_last(), e);
        if es.last() == e {
            r
        } else {
            r.push(es.last())
        }
    }
}

pub proof fn lemma_without_entry(es: Seq<(u64, u128, u128)>, e: (u64, u128, u128))
    requires
        es.no_duplicates(),
    ensures
        without_entry(es, e).no_duplicates(),
        forall|x: (u64, u128, u128)| without_entry(es, e).contains(x) <==> (es.contains(x) && x != e),
    decreases es.len(),
{
    broadcast use vstd::seq_lib::lemma_seq_contains_after_push;
    if es.len() > 0 {
        let d = es.drop_last();
        assert(d.no_duplicates());
        lemma_without_entry(d, e);
        assert(d.push(es.last()) =~= es);
        if es.last() != e {
            assert(!d.contains(es.last())) by {
                if d.contains(es.last()) {
                    let i = choose|i: int| 0 <= i < d.len() && d[i] == es.last();
                    assert(es[i] == es[es.len() - 1]);
                }
            }
        }
    }
}

/// The entries without one that none of them is: the entries themselves.
proof fn lemma_without_absent(es: Seq<(u64, u128, u128)>, e: (u64, u128, u128))
    requires
        !es.contains(e),
    ensures
        without_entry(es, e) == es,
    decreases es.len(),
{
    if es.len() > 0 {
        let d = es.drop_last();
        assert(!d.contains(e)) by {
            if d.contains(e) {
                let i = choose|i: int| 0 <= i < d.len() && d[i] == e;
                assert(es[i] == e);
            }
        }
        lemma_without_absent(d, e);
        assert(es.last() != e) by {
            assert(es[es.len() - 1] == es.last());
        }
        assert(d.push(es.last()) =~= es);
    }
}

/// Registering a subscription the registry does not hold makes it a
/// subscriber of its query; unregistering it then leaves the registry,
/// and so everything observed of it (the subscribers of every query, the
/// distinct queries and sessions), as it was.
pub proof fn lemma_register_then_unregister(es: Seq<(u64, u128, u128)>, e: (u64, u128, u128))
    requires
        !es.contains(e),
    ensures
        handles_for(es.push(e), e.0).contains(SubscriptionHandle { session_id: e.1, sub_id: e.2 }),
        without_entry(es.push(e), e) == es,
        forall|h: u64| #[trigger] handles_for(without_entry(es.push(e), e), h) == handles_for(es, h),
        distinct_hashes(without_entry(es.push(e), e)) == distinct_hashes(es),
        distinct_sessions(without_entry(es.push(e), e)) == distinct_sessions(es),
{
    let hs = handles_for(es.push(e), e.0);
    assert(es.push(e).drop_last() =~= es);
    assert(hs == handles_for(es, e.0).push(SubscriptionHandle { session_id: e.1, sub_id: e.2 }));
    assert(hs[hs.len() - 1] == SubscriptionHandle { session_id: e.1, sub_id: e.2 });
    lemma_without_absent(es, e);
    assert(es.push(e).drop_last() =~= es);
}

impl SubscriptionRegistry {
    /// No triple is registered twice.
    pub open spec fn wf(&self) -> bool {
        self.entries@.no_duplicates()
    }

    /// An empty registry.
    pub fn new() -> (r: Self)
        ensures
            r.wf(),
            r.entries@.len() == 0,
    {
        SubscriptionRegistry { entries: Vec::new() }
    }

    fn position(&self, e: (u64, u128, u128)) -> (r: Option<usize>)
        ensures
            match r {
                Some(i) => i < self.entries@.len() && self.entries@[i as int] == e,
                None => !self.entries@.contains(e),
            },
    {
        let mut i: usize = 0;
        while i < self.entries.len()
            invariant
                i <= self.entries@.len(),
                forall|j: int| 0 <= j < i ==> self.entries@[j] != e,
            decreases self.entries.len() - i,
        {
            let x = self.entries[i];
            if x.0 == e.0 && x.1 == e.1 && x.2 == e.2 {
                return Some(i);
            }
            i += 1;
        }
        None
    }

    /// Register the subscription `sub_id` of `session_id` for
    /// `query_hash`; registering it again changes nothing.
    pub fn register(&mut self, query_hash: u64, session_id: u128, sub_id: u128)
        requires
            old(self).wf(),
        ensures
            final(self).wf(),
            final(self).entries@ == (if old(self).entries@.contains((query_hash, session_id, sub_id)) {
                old(self).entries@
            } else {
                old(self).entries@.push((query_hash, session_id, sub_id))
            }),
    {
        let e = (query_hash, session_id, sub_id);
        match self.position(e) {
            Some(_) => {},
            None => {
                let ghost before = self.entries@;
                self.entries.push(e);
                proof {
                    assert forall|a: int, b: int| 0 <= a < b < self.entries@.len() implies self.entries@[a]
                        != self.entries@[b] by {
                        if b == before.len() {
                            assert(self.entries@[a] == before[a]);
                        } else {
                            assert(before[a] != before[b]);
                        }
                    }
                }
            },
        }
    }

    /// Unregister a single subscription; an unknown one changes nothing.
    pub fn unregister(&mut self, query_hash: u64, session_id: u128, sub_id: u128)
        requires
            old(self).wf(),
        ensures
            final(self).wf(),
            final(self).entries@ == without_entry(old(self).entries@, (query_hash, session_id, sub_id)),
    {
        let e = (query_hash, session_id, sub_id);
        let ghost es = self.entries@;
        let mut kept: Vec<(u64, u128, u128)> = Vec::new();
        let mut i: usize = 0;
        while i < self.entries.len()
            invariant
                i <= es.len(),
                es == self.entries@,
                kept@ == without_entry(es.take(i as int), e),
            decreases self.entries.len() - i,
        {
            assert(es.take(i + 1).drop_last() =~= es.take(i as int));
            let x = self.entries[i];
            if !(x.0 == e.0 && x.1 == e.1 && x.2 == e.2) {
                kept.push(x);
            }
            i += 1;
        }
        assert(es.take(es.len() as int) =~= es);
        proof {
            lemma_without_entry(es, e);
        }
        self.entries = kept;
    }

    /// Remove all subscriptions of a session (on disconnect); returns the
    /// query hashes it followed, in order of first registration.
    pub fn unregister_session(&mut self, session_id: u128) -> (r: Vec<u64>)
        requires
            old(self).wf(),
        ensures
            final(self).wf(),
            final(self).entries@ == without_session(old(self).entries@, session_id),
            r@ == distinct_hashes(of_session(old(self).entries@, session_id)),
    {
        let ghost es = self.entries@;
        let mut kept: Vec<(u64, u128, u128)> = Vec::new();
        let mut mine: Vec<(u64, u128, u128)> = Vec::new();
        let mut i: usize = 0;
        while i < self.entries.len()
            invariant
                i <= es.len(),
                es == self.entries@,
                kept@ == without_session(es.take(i as int), session_id),
                mine@ == of_session(es.take(i as int), session_id),
            decreases self.entries.len() - i,
        {
            assert(es.take(i + 1).drop_last() =~= es.take(i as int));
            let x = self.entries[i];
            if x.1 == session_id {
                mine.push(x);
            } else {
                kept.push(x);
            }
            i += 1;
        }
        assert(es.take(es.len() as int) =~= es);
        proof {
            lemma_without_session(es, session_id);
        }
        self.entries = kept;
        hashes_of(&mine)
    }

    /// The handles registered for `query_hash`, in order.
    pub fn subscribers_for(&self, query_hash: u64) -> (r: Vec<SubscriptionHandle>)
        ensures
            r@ == handles_for(self.entries@, query_hash),
    {
        let ghost es = self.entries@;
        let mut out: Vec<SubscriptionHandle> = Vec::new();
        let mut i: usize = 0;
        while i < self.entries.len()
            invariant
                i <= es.len(),
                es == self.entries@,
                out@ == handles_for(es.take(i as int), query_hash),
            decreases self.entries.len() - i,
        {
            assert(es.take(i + 1).drop_last() =~= es.take(i as int));
            let x = self.entries[i];
            if x.0 == query_hash {
                out.push(SubscriptionHandle { session_id: x.1, sub_id: x.2 });
            }
            i += 1;
        }
        assert(es.take(es.len() as int) =~= es);
        out
    }

    /// Whether at least one subscription follows `query_hash`.
    pub fn has_subscribers(&self, query_hash: u64) -> (r: bool)
        ensures
            r == exists|i: int| 0 <= i < self.entries@.len() && #[trigger] self.entries@[i].0 == query_hash,
    {
        let mut i: usize = 0;
        while i < self.entries.len()
            invariant
                i <= self.entries@.len(),
                forall|j: int| 0 <= j < i ==> self.entries@[j].0 != query_hash,
            decreases self.entries.len() - i,
        {
            if self.entries[i].0 == query_hash {
                return true;
            }
            i += 1;
        }
        false
    }

    /// Number of distinct query hashes with subscriptions.
    pub fn unique_query_count(&self) -> (r: usize)
        ensures
            r == distinct_hashes(self.entries@).len(),
    {
        hashes_of(&self.entries).len()
    }

    /// Number of distinct sessions with subscriptions.
    pub fn active_session_count(&self) -> (r: usize)
        ensures
            r == distinct_sessions(self.entries@).len(),
    {
        let ghost es = self.entries@;
        let mut seen: Vec<u128> = Vec::new();
        let mut i: usize = 0;
        while i < self.entries.len()
            invariant
                i <= es.len(),
                es == self.entries@,
                seen@ == distinct_sessions(es.take(i as int)),
            decreases self.entries.len() - i,
        {
            assert(es.take(i + 1).drop_last() =~= es.take(i as int));
            let s = self.entries[i].1;
            let mut found = false;
            let mut k: usize = 0;
            while k < seen.len()
                invariant
                    k <= seen@.len(),
                    found == exists|j: int| 0 <= j < k && seen@[j] == s,
                decreases seen.len() - k,
            {
                if seen[k] == s {
                    found = true;
                }
                k += 1;
            }
            if !found {
                seen.push(s);
            }
            i += 1;
        }
        assert(es.take(es.len() as int) =~= es);
        seen.len()
    }
}

/// The distinct hashes of `v`, in order of first occurrence.
fn hashes_of(v: &Vec<(u64, u128, u128)>) -> (r: Vec<u64>)
    ensures
        r@ == distinct_hashes(v@),
{
    let ghost es = v@;
    let mut seen: Vec<u64> = Vec::new();
    let mut i: usize = 0;
    while i < v.len()
        invariant
            i <= es.len(),
            es == v@,
            seen@ == distinct_hashes(es.take(i as int)),
        decreases v.len() - i,
    {
        assert(es.take(i + 1).drop_last() =~= es.take(i as int));
        let h = v[i].0;
        let mut found = false;
        let mut k: usize = 0;
        while k < seen.len()
            invariant
                k <= seen@.len(),
                found == exists|j: int| 0 <= j < k && seen@[j] == h,
            decreases seen.len() - k,
        {
            if seen[k] == h {
                found = true;
            }
            k += 1;
        }
        if !found {
            seen.push(h);
        }
        i += 1;
    }
    assert(es.take(es.len() as int) =~= es);
    seen
}

} // verus!
