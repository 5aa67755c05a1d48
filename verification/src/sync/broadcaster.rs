//! The decisions of the change broadcaster: which subscriptions a change
//! concerns, how they are grouped for re-execution, and what each
//! subscriber is sent once a query has been re-run.
//!
//! Receiving changes, running queries and sending diffs are the caller's;
//! the broadcaster keeps the last result set delivered to each
//! subscription, against which the next diff is computed.
use vstd::prelude::*;
use crate::json::{JsonValue, JsonView, clone_json, first_key_pos, json_views, lemma_object_view};
use crate::text::{chars_eq, chars_of};
use super::diff::{DiffView, QueryDiff, compute_diff, diff_spec, diff_view, hash_result_set, result_set_hash};
use super::registry::{SubscriptionHandle, SubscriptionRegistry, handles_for};
use super::session::{
    SessionManager, SubView, SyncSession, cursor_updated, session_pos, sub_pos,
};

verus! {

/// Tracks which query hashes a change may affect.
pub trait DependencyTracker {
    /// The hashes of the queries that the change may affect.
    fn affected_queries(&self, event: &super::ChangeEvent) -> Vec<u64>;
}

/// A diff to be sent to one subscription of one session.
#[derive(Debug)]
pub struct OutboundDiff {
    /// Target session.
    pub session_id: u128,
    /// Subscription that matched.
    pub sub_id: u128,
    /// The computed diff.
    pub diff: QueryDiff,
    /// Transaction ID this diff brings the client up to.
    pub tx_id: i64,
}

/// The last result set delivered to each subscription.
#[derive(Debug)]
pub struct Broadcaster {
    pub result_cache: Vec<(SubscriptionHandle, Vec<JsonValue>)>,
}

pub open spec fn cache_view(v: Seq<(SubscriptionHandle, Vec<JsonValue>)>) -> Seq<(SubscriptionHandle, Seq<JsonView>)> {
    Seq::new(v.len(), |i: int| (v[i].0, json_views(v[i].1@)))
}

pub open spec fn handles_distinct(v: Seq<(SubscriptionHandle, Seq<JsonView>)>) -> bool {
    forall|i: int, j: int| 0 <= i < j < v.len() ==> v[i].0 != v[j].0
}

/// Position of the cached result of `h`.
pub open spec fn cache_pos(v: Seq<(SubscriptionHandle, Seq<JsonView>)>, h: SubscriptionHandle) -> Option<int> {
    if exists|i: int| 0 <= i < v.len() && v[i].0 == h {
        Some(choose|i: int| 0 <= i < v.len() && v[i].0 == h)
    } else {
        None
    }
}

/// The cached result of `h`, empty when there is none.
pub open spec fn cached_of(v: Seq<(SubscriptionHandle, Seq<JsonView>)>, h: SubscriptionHandle) -> Seq<JsonView> {
    match cache_pos(v, h) {
        Some(i) => v[i].1,
        None => Seq::empty(),
    }
}

/// The cache with `rs` stored for `h`, in place or at the end.
pub open spec fn cache_put(
    v: Seq<(SubscriptionHandle, Seq<JsonView>)>,
    h: SubscriptionHandle,
    rs: Seq<JsonView>,
) -> Seq<(SubscriptionHandle, Seq<JsonView>)> {
    match cache_pos(v, h) {
        Some(i) => v.update(i, (h, rs)),
        None => v.push((h, rs)),
    }
}

/// The cache entries not of session `s`, in order.
pub open spec fn cache_without_session(
    v: Seq<(SubscriptionHandle, Seq<JsonView>)>,
    s: u128,
) -> Seq<(SubscriptionHandle, Seq<JsonView>)>
    decreases v.len(),
{
    if v.len() == 0 {
        Seq::empty()
    } else {
        let r = cache_without_session(v.drop_last(), s);
        if v.last().0.session_id == s {
            r
        } else {
            r.push(v.last())
        }
    }
}

pub open spec fn diff_is_empty(d: DiffView) -> bool {
    d.0.len() == 0 && d.1.len() == 0 && d.2.len() == 0
}

/// What delivering the result set `new` (with hash `new_hash`) to `h`
/// sends: nothing when the hash equals that of the cached result or the
/// diff against it is empty; otherwise that diff.
pub open spec fn delivery(
    cache: Seq<(SubscriptionHandle, Seq<JsonView>)>,
    h: SubscriptionHandle,
    new: Seq<JsonView>,
    new_hash: u64,
) -> Option<DiffView> {
    let old = cached_of(cache, h);
    if new_hash == result_set_hash(old) {
        None
    } else if diff_is_empty(diff_spec(old, new)) {
        None
    } else {
        Some(diff_spec(old, new))
    }
}

/// The sessions after recording a delivered result for subscription
/// `sub` of session `sid`.
pub open spec fn sessions_after_cursor(
    old: Seq<SyncSession>,
    new: Seq<SyncSession>,
    sid: u128,
    sub: u128,
    h: u64,
    tx: i64,
) -> bool {
    match session_pos(old, sid) {
        None => new == old,
        Some(i) => {
            &&& new.len() == old.len()
            &&& forall|k: int| 0 <= k < old.len() && k != i ==> new[k] == old[k]
            &&& new[i].id == old[i].id
            &&& new[i].user_id == old[i].user_id
            &&& new[i].last_tx == old[i].last_tx
            &&& new[i].connected_at == old[i].connected_at
            &&& new[i].peer_addr == old[i].peer_addr
            &&& new[i].subs() == cursor_updated(old[i].subs(), sub, h, tx)
        },
    }
}

impl Broadcaster {
    pub open spec fn wf(&self) -> bool {
        handles_distinct(cache_view(self.result_cache@))
    }

    pub open spec fn cache(&self) -> Seq<(SubscriptionHandle, Seq<JsonView>)> {
        cache_view(self.result_cache@)
    }

    /// A broadcaster with an empty cache.
    pub fn new() -> (r: Self)
        ensures
            r.wf(),
            r.cache().len() == 0,
    {
        Broadcaster { result_cache: Vec::new() }
    }

    fn find(&self, h: SubscriptionHandle) -> (r: Option<usize>)
        requires
            self.wf(),
        ensures
            match r {
                Some(i) => cache_pos(self.cache(), h) == Some(i as int) && i < self.result_cache@.len(),
                None => cache_pos(self.cache(), h) is None,
            },
    {
        let ghost cv = self.cache();
        let mut i: usize = 0;
        while i < self.result_cache.len()
            invariant
                i <= self.result_cache@.len(),
                cv == self.cache(),
                handles_distinct(cv),
                forall|j: int| 0 <= j < i ==> cv[j].0 != h,
            decreases self.result_cache.len() - i,
        {
            let k = self.result_cache[i].0;
            if k.session_id == h.session_id && k.sub_id == h.sub_id {
                proof {
                    assert(cv[i as int].0 == h);
                    let w = choose|j: int| 0 <= j < cv.len() && cv[j].0 == h;
                    if w != i {
                        assert(cv[w].0 != cv[i as int].0);
                    }
                }
                return Some(i);
            }
            i += 1;
        }
        None
    }

    fn put(&mut self, h: SubscriptionHandle, results: Vec<JsonValue>)
        requires
            old(self).wf(),
        ensures
            final(self).wf(),
            final(self).cache() == cache_put(old(self).cache(), h, json_views(results@)),
    {
        let ghost cv = self.cache();
        let ghost rv = json_views(results@);
        match self.find(h) {
            Some(i) => {
                self.result_cache.set(i, (h, results));
                proof {
                    assert(self.cache() =~= cv.update(i as int, (h, rv)));
                    assert forall|a: int, b: int| 0 <= a < b < self.cache().len() implies self.cache()[a].0
                        != self.cache()[b].0 by {
                        assert(cv[a].0 != cv[b].0);
                    }
                }
            },
            None => {
                self.result_cache.push((h, results));
                proof {
                    assert(self.cache() =~= cv.push((h, rv)));
                    assert forall|a: int, b: int| 0 <= a < b < self.cache().len() implies self.cache()[a].0
                        != self.cache()[b].0 by {
                        if b < cv.len() {
                            assert(cv[a].0 != cv[b].0);
                        }
                    }
                }
            },
        }
    }

    /// Seed the cache for a subscription (on initial subscribe).
    pub fn cache_initial_result(&mut self, session_id: u128, sub_id: u128, results: Vec<JsonValue>)
        requires
            old(self).wf(),
        ensures
            final(self).wf(),
            final(self).cache() == cache_put(
                old(self).cache(),
                SubscriptionHandle { session_id, sub_id },
                json_views(results@),
            ),
    {
        self.put(SubscriptionHandle { session_id, sub_id }, results);
    }

    /// Drop the cached result of a subscription (on unsubscribe).
    pub fn evict_cache(&mut self, session_id: u128, sub_id: u128)
        requires
            old(self).wf(),
        ensures
            final(self).wf(),
            match cache_pos(old(self).cache(), SubscriptionHandle { session_id, sub_id }) {
                None => final(self).cache() == old(self).cache(),
                Some(i) => final(self).cache() == old(self).cache().remove(i),
            },
    {
        let ghost cv = self.cache();
        match self.find(SubscriptionHandle { session_id, sub_id }) {
            Some(i) => {
                self.result_cache.remove(i);
                proof {
                    assert(self.cache() =~= cv.remove(i as int));
                    assert forall|a: int, b: int| 0 <= a < b < self.cache().len() implies self.cache()[a].0
                        != self.cache()[b].0 by {
                        if b < i {
                            assert(cv[a].0 != cv[b].0);
                        } else if a < i {
                            assert(cv[a].0 != cv[b + 1].0);
                        } else {
                            assert(cv[a + 1].0 != cv[b + 1].0);
                        }
                    }
                }
            },
            None => {},
        }
    }

    /// Drop every cached result of a session (on disconnect).
    pub fn evict_session_cache(&mut self, session_id: u128)
        requires
            old(self).wf(),
        ensures
            final(self).wf(),
            final(self).cache() == cache_without_session(old(self).cache(), session_id),
    {
        let ghost cv = self.cache();
        let ghost total = cv.len();
        let mut all: Vec<(SubscriptionHandle, Vec<JsonValue>)> = Vec::new();
        std::mem::swap(&mut all, &mut self.result_cache);
        let mut kept: Vec<(SubscriptionHandle, Vec<JsonValue>)> = Vec::new();
        while all.len() > 0
            invariant
                all@.len() <= total,
                total == cv.len(),
                cache_view(all@) == cv.skip(total - all@.len()),
                cache_view(kept@) == cache_without_session(cv.take(total - all@.len()), session_id),
            decreases all.len(),
        {
            let ghost m = total - all@.len();
            let ghost before_all = all@;
            let ghost before_k = kept@;
            let item = all.remove(0);
            assert(cache_view(before_all)[0] == cv.skip(m)[0]);
            assert forall|k: int| 0 <= k < all@.len() implies #[trigger] cache_view(all@)[k] == cv.skip(m + 1)[k] by {
                assert(all@[k] == before_all[k + 1]);
                assert(cache_view(before_all)[k + 1] == cv.skip(m)[k + 1]);
            }
            assert(cache_view(all@) =~= cv.skip(m + 1));
            assert(cv.take(m + 1).drop_last() =~= cv.take(m));
            if item.0.session_id != session_id {
                kept.push(item);
                assert(cache_view(kept@) =~= cache_view(before_k).push(cv[m]));
            }
        }
        assert(cv.take(total as int) =~= cv);
        self.result_cache = kept;
        proof {
            lemma_cache_without_session(cv, session_id);
        }
    }

    /// The cached result of a subscription (empty when there is none).
    pub fn cached(&self, h: SubscriptionHandle) -> (r: Vec<JsonValue>)
        requires
            self.wf(),
        ensures
            json_views(r@) == cached_of(self.cache(), h),
    {
        match self.find(h) {
            Some(i) => clone_results(&self.result_cache[i].1),
            None => {
                let r: Vec<JsonValue> = Vec::new();
                assert(json_views(r@) =~= Seq::<JsonView>::empty());
                r
            },
        }
    }

    /// Deliver a shared query result to one subscriber: diff it against
    /// the subscriber's cached result; when something changed, cache the
    /// new result, record its hash and `tx_id` on the subscription, and
    /// return the diff to send.
    pub fn deliver_to_subscriber(
        &mut self,
        sessions: &mut SessionManager,
        handle: SubscriptionHandle,
        new_results: &Vec<JsonValue>,
        new_hash: u64,
        tx_id: i64,
    ) -> (r: Option<OutboundDiff>)
        requires
            old(self).wf(),
            old(sessions).wf(),
        ensures
            final(self).wf(),
            final(sessions).wf(),
            match delivery(old(self).cache(), handle, json_views(new_results@), new_hash) {
                None => r is None && final(self).cache() == old(self).cache() && final(sessions).sessions@ == old(
                    sessions,
                ).sessions@,
                Some(d) => r matches Some(o) && o.session_id == handle.session_id && o.sub_id == handle.sub_id
                    && o.tx_id == tx_id && diff_view(o.diff) == d && final(self).cache() == cache_put(
                    old(self).cache(),
                    handle,
                    json_views(new_results@),
                ) && sessions_after_cursor(
                    old(sessions).sessions@,
                    final(sessions).sessions@,
                    handle.session_id,
                    handle.sub_id,
                    new_hash,
                    tx_id,
                ),
            },
    {
        let old_results = self.cached(handle);
        let old_hash = hash_result_set(&old_results);
        if new_hash == old_hash {
            return None;
        }
        let diff = compute_diff(&old_results, new_results);
        if diff.is_empty() {
            return None;
        }
        self.put(handle, clone_results(new_results));
        let sub_id = handle.sub_id;
        let ghost before = sessions.sessions@;
        let f = |s: SyncSession| -> (out: (SyncSession, bool))
            requires
                s.wf(),
            ensures
                out.0.wf(),
                out.0.id == s.id,
                out.0.user_id == s.user_id,
                out.0.last_tx == s.last_tx,
                out.0.connected_at == s.connected_at,
                out.0.peer_addr == s.peer_addr,
                out.0.subs() == cursor_updated(s.subs(), sub_id, new_hash, tx_id),
            {
                let mut s = s;
                let b = s.update_subscription_cursor(sub_id, new_hash, tx_id);
                (s, b)
            };
        let _ = sessions.with_session_mut(handle.session_id, f);
        proof {
            let after = sessions.sessions@;
            match session_pos(before, handle.session_id) {
                None => {},
                Some(i) => {
                    assert forall|k: int| 0 <= k < before.len() && k != i implies after[k] == before[k] by {
                        assert(after == before.update(i, after[i]));
                    }
                },
            }
        }
        Some(OutboundDiff { session_id: handle.session_id, sub_id: handle.sub_id, diff, tx_id })
    }
}

/// Whether a change on entities of type `entity_type` can concern the
/// query: unless both name a type (the query by a text member `from`)
/// and the two differ.
pub open spec fn targets_event(query_ast: JsonView, entity_type: Option<Seq<char>>) -> bool {
    match (entity_type, query_ast) {
        (Some(et), JsonView::Object(es)) => match first_key_pos(es, "from"@) {
            Some(p) => match es[p].1 {
                JsonView::String(q) => q == et,
                _ => true,
            },
            None => true,
        },
        _ => true,
    }
}

pub open spec fn opt_text(v: Option<String>) -> Option<Seq<char>> {
    match v {
        Some(s) => Some(s@),
        None => None,
    }
}

/// Whether the query can be affected by a change on `entity_type`.
pub fn query_targets_event(query_ast: &JsonValue, entity_type: &Option<String>) -> (r: bool)
    ensures
        r == targets_event(query_ast@, opt_text(*entity_type)),
{
    match entity_type {
        None => true,
        Some(et) => match query_ast {
            JsonValue::Object(entries) => {
                proof {
                    lemma_object_view(*entries);
                }
                let key = chars_of("from");
                match crate::json::key_position(entries, &key) {
                    Some(p) => match &entries[p].1 {
                        JsonValue::String(q) => chars_eq(chars_of(q.as_str()).as_slice(), chars_of(et.as_str()).as_slice()),
                        _ => true,
                    },
                    None => true,
                }
            },
            _ => true,
        },
    }
}

/// The user a handle's session is authenticated as (none for an unknown
/// session).
pub open spec fn user_of(sessions: Seq<SyncSession>, h: SubscriptionHandle) -> Option<Seq<char>> {
    match session_pos(sessions, h.session_id) {
        Some(i) => opt_text(sessions[i].user_id),
        None => None,
    }
}

/// The handles grouped by the user of their session: groups in order of
/// first appearance, handles in order within each.
pub open spec fn user_groups(
    sessions: Seq<SyncSession>,
    hs: Seq<SubscriptionHandle>,
) -> Seq<(Option<Seq<char>>, Seq<SubscriptionHandle>)>
    decreases hs.len(),
{
    if hs.len() == 0 {
        Seq::empty()
    } else {
        let gs = user_groups(sessions, hs.drop_last());
        let u = user_of(sessions, hs.last());
        match group_pos(gs, u) {
            Some(g) => gs.update(g, (u, gs[g].1.push(hs.last()))),
            None => gs.push((u, seq![hs.last()])),
        }
    }
}

/// Position of the group of user `u`.
pub open spec fn group_pos(gs: Seq<(Option<Seq<char>>, Seq<SubscriptionHandle>)>, u: Option<Seq<char>>) -> Option<int> {
    if exists|i: int| 0 <= i < gs.len() && gs[i].0 == u {
        Some(choose|i: int| 0 <= i < gs.len() && gs[i].0 == u)
    } else {
        None
    }
}

pub open spec fn groups_distinct(gs: Seq<(Option<Seq<char>>, Seq<SubscriptionHandle>)>) -> bool {
    forall|i: int, j: int| 0 <= i < j < gs.len() ==> gs[i].0 != gs[j].0
}

pub open spec fn group_views(v: Seq<(Option<String>, Vec<SubscriptionHandle>)>) -> Seq<(Option<Seq<char>>, Seq<SubscriptionHandle>)> {
    Seq::new(v.len(), |i: int| (opt_text(v[i].0), v[i].1@))
}

fn user_id_of(sessions: &SessionManager, h: SubscriptionHandle) -> (r: Option<String>)
    requires
        sessions.wf(),
    ensures
        opt_text(r) == user_of(sessions.sessions@, h),
{
    let f = |s: &SyncSession| -> (u: Option<String>)
        ensures
            opt_text(u) == opt_text(s.user_id),
        {
            match &s.user_id {
                Some(x) => Some(crate::json::clone_string(x)),
                None => None,
            }
        };
    match sessions.with_session(h.session_id, f) {
        Some(u) => u,
        None => None,
    }
}

fn opt_text_eq(a: &Option<String>, b: &Option<String>) -> (r: bool)
    ensures
        r == (opt_text(*a) == opt_text(*b)),
{
    match (a, b) {
        (Some(x), Some(y)) => chars_eq(chars_of(x.as_str()).as_slice(), chars_of(y.as_str()).as_slice()),
        (None, None) => true,
        _ => false,
    }
}

/// Group subscription handles by the user their session is authenticated
/// as, so that a query runs once per permission context.
pub fn group_by_user(sessions: &SessionManager, handles: &Vec<SubscriptionHandle>) -> (r: Vec<(Option<String>, Vec<SubscriptionHandle>)>)
    requires
        sessions.wf(),
    ensures
        group_views(r@) == user_groups(sessions.sessions@, handles@),
{
    let ghost ss = sessions.sessions@;
    let mut groups: Vec<(Option<String>, Vec<SubscriptionHandle>)> = Vec::new();
    let mut i: usize = 0;
    while i < handles.len()
        invariant
            i <= handles@.len(),
            ss == sessions.sessions@,
            sessions.wf(),
            group_views(groups@) == user_groups(ss, handles@.take(i as int)),
            groups_distinct(group_views(groups@)),
        decreases handles.len() - i,
    {
        let ghost gv = group_views(groups@);
        assert(handles@.take(i + 1).drop_last() =~= handles@.take(i as int));
        let h = handles[i];
        let u = user_id_of(sessions, h);
        let mut g: usize = 0;
        let mut found: Option<usize> = None;
        while g < groups.len()
            invariant
                g <= groups@.len(),
                gv == group_views(groups@),
                groups_distinct(gv),
                match found {
                    Some(k) => k < groups@.len() && group_pos(gv, opt_text(u)) == Some(k as int),
                    None => forall|j: int| 0 <= j < g ==> gv[j].0 != opt_text(u),
                },
            decreases groups.len() - g,
        {
            if found.is_none() && opt_text_eq(&groups[g].0, &u) {
                proof {
                    assert(gv[g as int].0 == opt_text(u));
                    let w = choose|j: int| 0 <= j < gv.len() && gv[j].0 == opt_text(u);
                    if w != g {
                        assert(gv[w].0 != gv[g as int].0);
                    }
                }
                found = Some(g);
            }
            g += 1;
        }
        match found {
            Some(k) => {
                let (key, mut members) = groups.remove(k);
                let ghost old_members = members@;
                members.push(h);
                groups.insert(k, (key, members));
                proof {
                    assert(group_views(groups@) =~= gv.update(k as int, (opt_text(u), gv[k as int].1.push(h))));
                    assert forall|a: int, b: int| 0 <= a < b < group_views(groups@).len() implies group_views(
                        groups@,
                    )[a].0 != group_views(groups@)[b].0 by {
                        assert(gv[a].0 != gv[b].0);
                    }
                }
            },
            None => {
                let mut members: Vec<SubscriptionHandle> = Vec::new();
                members.push(h);
                groups.push((u, members));
                proof {
                    assert(members@ =~= seq![h]);
                    assert(group_views(groups@) =~= gv.push((opt_text(u), seq![h])));
                    assert forall|a: int, b: int| 0 <= a < b < group_views(groups@).len() implies group_views(
                        groups@,
                    )[a].0 != group_views(groups@)[b].0 by {
                        if b < gv.len() {
                            assert(gv[a].0 != gv[b].0);
                        }
                    }
                }
            },
        }
        i += 1;
    }
    assert(handles@.take(handles@.len() as int) =~= handles@);
    groups
}

/// The query of a subscription: its AST, if the session and the
/// subscription exist.
pub open spec fn query_of(sessions: Seq<SyncSession>, h: SubscriptionHandle) -> Option<JsonView> {
    match session_pos(sessions, h.session_id) {
        Some(i) => match sub_pos(sessions[i].subs(), h.sub_id) {
            Some(j) => Some(sessions[i].subs()[j].1.query_ast),
            None => None,
        },
        None => None,
    }
}

/// The query AST a handle's subscription re-executes.
pub fn query_ast_of(sessions: &SessionManager, h: SubscriptionHandle) -> (r: Option<JsonValue>)
    requires
        sessions.wf(),
    ensures
        match r {
            Some(v) => query_of(sessions.sessions@, h) == Some(v@),
            None => query_of(sessions.sessions@, h) is None,
        },
{
    let sub_id = h.sub_id;
    let f = |s: &SyncSession| -> (q: Option<JsonValue>)
        requires
            s.wf(),
        ensures
            match q {
                Some(v) => match sub_pos(s.subs(), sub_id) {
                    Some(j) => s.subs()[j].1.query_ast == v@,
                    None => false,
                },
                None => sub_pos(s.subs(), sub_id) is None,
            },
        {
            match super::session::find_sub(&s.subscriptions, sub_id) {
                Some(j) => Some(clone_json(&s.subscriptions[j].1.query_ast)),
                None => None,
            }
        };
    match sessions.with_session(h.session_id, f) {
        Some(q) => q,
        None => None,
    }
}

pub proof fn lemma_cache_without_session(v: Seq<(SubscriptionHandle, Seq<JsonView>)>, s: u128)
    requires
        handles_distinct(v),
    ensures
        handles_distinct(cache_without_session(v, s)),
        forall|k: int|
            0 <= k < cache_without_session(v, s).len() ==> exists|i: int|
                0 <= i < v.len() && #[trigger] cache_without_session(v, s)[k] == v[i],
    decreases v.len(),
{
    if v.len() > 0 {
        let d = v.drop_last();
        assert(handles_distinct(d));
        lemma_cache_without_session(d, s);
        let rest = cache_without_session(d, s);
        assert forall|k: int| 0 <= k < cache_without_session(v, s).len() implies exists|i: int|
            0 <= i < v.len() && #[trigger] cache_without_session(v, s)[k] == v[i] by {
            if k < rest.len() {
                let i = choose|i: int| 0 <= i < d.len() && #[trigger] rest[k] == d[i];
                assert(d[i] == v[i]);
            } else {
                assert(cache_without_session(v, s)[k] == v[v.len() - 1]);
            }
        }
        assert forall|a: int, b: int| 0 <= a < b < cache_without_session(v, s).len() implies cache_without_session(
            v,
            s,
        )[a].0 != cache_without_session(v, s)[b].0 by {
            if b >= rest.len() {
                let i = choose|i: int| 0 <= i < d.len() && #[trigger] rest[a] == d[i];
                assert(d[i] == v[i]);
                assert(v[i].0 != v[v.len() - 1].0);
            }
        }
    }
}

fn clone_results(v: &Vec<JsonValue>) -> (r: Vec<JsonValue>)
    ensures
        json_views(r@) == json_views(v@),
{
    let mut out: Vec<JsonValue> = Vec::new();
    let mut i: usize = 0;
    while i < v.len()
        invariant
            i <= v@.len(),
            json_views(out@) == json_views(v@).take(i as int),
        decreases v.len() - i,
    {
        let ghost before = out@;
        let c = clone_json(&v[i]);
        out.push(c);
        assert(json_views(out@) =~= json_views(before).push(v@[i as int]@));
        assert(json_views(out@) =~= json_views(v@).take(i + 1));
        i += 1;
    }
    assert(json_views(v@).take(v@.len() as int) =~= json_views(v@));
    out
}

// ── Planning the re-execution of a change ──────────────────────────

/// A query to re-run for a change: its hash, the permission context it
/// runs in, its AST, and the subscriptions that receive its result.
#[derive(Debug)]
pub struct PlannedQuery {
    pub query_hash: u64,
    pub user_id: Option<String>,
    pub query_ast: JsonValue,
    pub handles: Vec<SubscriptionHandle>,
}

pub type PlanView = (u64, Option<Seq<char>>, JsonView, Seq<SubscriptionHandle>);

pub open spec fn plan_view(p: PlannedQuery) -> PlanView {
    (p.query_hash, opt_text(p.user_id), p.query_ast@, p.handles@)
}

pub open spec fn plan_views(v: Seq<PlannedQuery>) -> Seq<PlanView> {
    Seq::new(v.len(), |i: int| plan_view(v[i]))
}

/// The runs for the user groups `gs[0..n]` of the hash `h`: a group runs
/// the query of its first subscription, when that subscription exists and
/// its query can concern a change on `et`.
pub open spec fn group_plans(
    sessions: Seq<SyncSession>,
    h: u64,
    gs: Seq<(Option<Seq<char>>, Seq<SubscriptionHandle>)>,
    et: Option<Seq<char>>,
    n: int,
) -> Seq<PlanView>
    decreases n,
{
    if n <= 0 {
        Seq::empty()
    } else {
        let before = group_plans(sessions, h, gs, et, n - 1);
        let g = gs[n - 1];
        if g.1.len() == 0 {
            before
        } else {
            match query_of(sessions, g.1[0]) {
                Some(ast) => if targets_event(ast, et) {
                    before.push((h, g.0, ast, g.1))
                } else {
                    before
                },
                None => before,
            }
        }
    }
}

/// The runs for the hash `h`: its subscribers grouped by user.
pub open spec fn hash_plans(
    sessions: Seq<SyncSession>,
    entries: Seq<(u64, u128, u128)>,
    h: u64,
    et: Option<Seq<char>>,
) -> Seq<PlanView> {
    let gs = user_groups(sessions, handles_for(entries, h));
    group_plans(sessions, h, gs, et, gs.len() as int)
}

/// The runs for the affected hashes `affected[0..n]`, each hash once (at
/// its first occurrence), in order.
pub open spec fn update_plans(
    sessions: Seq<SyncSession>,
    entries: Seq<(u64, u128, u128)>,
    affected: Seq<u64>,
    et: Option<Seq<char>>,
    n: int,
) -> Seq<PlanView>
    decreases n,
{
    if n <= 0 {
        Seq::empty()
    } else {
        let before = update_plans(sessions, entries, affected, et, n - 1);
        if affected.take(n - 1).contains(affected[n - 1]) {
            before
        } else {
            before + hash_plans(sessions, entries, affected[n - 1], et)
        }
    }
}

fn clone_opt_text(v: &Option<String>) -> (r: Option<String>)
    ensures
        opt_text(r) == opt_text(*v),
{
    match v {
        Some(s) => Some(crate::json::clone_string(s)),
        None => None,
    }
}

fn clone_handles(v: &Vec<SubscriptionHandle>) -> (r: Vec<SubscriptionHandle>)
    ensures
        r@ == v@,
{
    let mut out: Vec<SubscriptionHandle> = Vec::new();
    let mut i: usize = 0;
    while i < v.len()
        invariant
            i <= v@.len(),
            out@ == v@.take(i as int),
        decreases v.len() - i,
    {
        out.push(v[i]);
        i += 1;
        assert(out@ =~= v@.take(i as int));
    }
    assert(v@.take(v@.len() as int) =~= v@);
    out
}

/// Appends the runs for the hash `h`.
fn push_hash_plans(
    sessions: &SessionManager,
    registry: &SubscriptionRegistry,
    h: u64,
    et: &Option<String>,
    out: &mut Vec<PlannedQuery>,
)
    requires
        sessions.wf(),
    ensures
        plan_views(final(out)@) == plan_views(old(out)@) + hash_plans(
            sessions.sessions@,
            registry.entries@,
            h,
            opt_text(*et),
        ),
{
    let ghost ss = sessions.sessions@;
    let ghost start = plan_views(out@);
    let handles = registry.subscribers_for(h);
    let groups = group_by_user(sessions, &handles);
    let ghost gs = group_views(groups@);
    let mut k: usize = 0;
    assert(start + Seq::<PlanView>::empty() =~= start);
    while k < groups.len()
        invariant
            k <= groups@.len(),
            sessions.wf(),
            ss == sessions.sessions@,
            gs == group_views(groups@),
            gs == user_groups(ss, handles_for(registry.entries@, h)),
            plan_views(out@) == start + group_plans(ss, h, gs, opt_text(*et), k as int),
        decreases groups.len() - k,
    {
        let ghost before = plan_views(out@);
        let g = &groups[k];
        assert(gs[k as int] == (opt_text(g.0), g.1@));
        if g.1.len() > 0 {
            match query_ast_of(sessions, g.1[0]) {
                Some(ast) => {
                    if query_targets_event(&ast, et) {
                        let p = PlannedQuery {
                            query_hash: h,
                            user_id: clone_opt_text(&g.0),
                            query_ast: ast,
                            handles: clone_handles(&g.1),
                        };
                        out.push(p);
                        assert(plan_views(out@) =~= before.push(plan_view(p)));
                    }
                },
                None => {},
            }
        }
        k += 1;
    }
}

/// The queries to re-run for a change, given the hashes its dependency
/// tracker reports: for each affected hash (once, in order) that has
/// subscribers, one run per user group, with the query of the group's
/// first subscription, where that query can concern the change's entity
/// type.
pub fn plan_updates(
    sessions: &SessionManager,
    registry: &SubscriptionRegistry,
    event: &super::ChangeEvent,
    affected: &Vec<u64>,
) -> (r: Vec<PlannedQuery>)
    requires
        sessions.wf(),
    ensures
        plan_views(r@) == update_plans(
            sessions.sessions@,
            registry.entries@,
            affected@,
            opt_text(event.entity_type),
            affected@.len() as int,
        ),
{
    let mut out: Vec<PlannedQuery> = Vec::new();
    let mut i: usize = 0;
    assert(plan_views(out@) =~= Seq::<PlanView>::empty());
    while i < affected.len()
        invariant
            i <= affected@.len(),
            sessions.wf(),
            plan_views(out@) == update_plans(
                sessions.sessions@,
                registry.entries@,
                affected@,
                opt_text(event.entity_type),
                i as int,
            ),
        decreases affected.len() - i,
    {
        let h = affected[i];
        let mut seen = false;
        let mut j: usize = 0;
        while j < i
            invariant
                j <= i,
                i < affected@.len(),
                h == affected@[i as int],
                seen == affected@.take(j as int).contains(h),
            decreases i - j,
        {
            proof {
                assert(affected@.take(j + 1) =~= affected@.take(j as int).push(affected@[j as int]));
                vstd::seq_lib::lemma_seq_contains_after_push(affected@.take(j as int), affected@[j as int], h);
            }
            if affected[j] == h {
                seen = true;
            }
            j += 1;
        }
        if !seen {
            push_hash_plans(sessions, registry, h, &event.entity_type, &mut out);
        }
        i += 1;
    }
    out
}

} // verus!
