//! Sessions of connected clients: identity, query subscriptions and the
//! transaction cursor of each.
//!
//! Session and subscription ids are UUIDs, as their `u128` values; times
//! are handed in by the caller (Unix milliseconds for subscriptions, a
//! monotonic clock reading for the connection time).
use vstd::prelude::*;
use crate::json::{JsonValue, JsonView};
use crate::tables::{is_v4_uuid, new_uuid_v4};

verus! {

/// A single active query subscription within a session.
#[derive(Debug)]
pub struct ActiveSubscription {
    /// Hash of the normalized query AST for deduplication across sessions.
    pub query_hash: u64,
    /// The original query AST so it can be re-executed on change.
    pub query_ast: JsonValue,
    /// Hash of the last result set sent to this client.
    pub last_result_hash: u64,
    /// Transaction ID of the last result sent.
    pub last_tx: i64,
    /// When this subscription was created (Unix milliseconds).
    pub created_at_ms: u64,
}

/// The mathematical shape of a subscription.
pub struct SubView {
    pub query_hash: u64,
    pub query_ast: JsonView,
    pub last_result_hash: u64,
    pub last_tx: i64,
    pub created_at_ms: u64,
}

pub open spec fn sub_view(s: ActiveSubscription) -> SubView {
    SubView {
        query_hash: s.query_hash,
        query_ast: s.query_ast@,
        last_result_hash: s.last_result_hash,
        last_tx: s.last_tx,
        created_at_ms: s.created_at_ms,
    }
}

pub open spec fn sub_views(v: Seq<(u128, ActiveSubscription)>) -> Seq<(u128, SubView)> {
    Seq::new(v.len(), |i: int| (v[i].0, sub_view(v[i].1)))
}

pub open spec fn sub_ids_distinct(v: Seq<(u128, SubView)>) -> bool {
    forall|i: int, j: int| 0 <= i < j < v.len() ==> v[i].0 != v[j].0
}

/// Position of the subscription `id`.
pub open spec fn sub_pos(v: Seq<(u128, SubView)>, id: u128) -> Option<int> {
    if exists|i: int| 0 <= i < v.len() && v[i].0 == id {
        Some(choose|i: int| 0 <= i < v.len() && v[i].0 == id)
    } else {
        None
    }
}

/// The subscriptions with `(id, s)` in place of the one with the same id,
/// or added at the end.
pub open spec fn sub_upsert(v: Seq<(u128, SubView)>, id: u128, s: SubView) -> Seq<(u128, SubView)> {
    match sub_pos(v, id) {
        Some(i) => v.update(i, (id, s)),
        None => v.push((id, s)),
    }
}

/// The subscriptions after recording result hash `h` and transaction
/// `tx` for the subscription `id` (none changes when there is no such
/// subscription).
pub open spec fn cursor_updated(v: Seq<(u128, SubView)>, id: u128, h: u64, tx: i64) -> Seq<(u128, SubView)> {
    match sub_pos(v, id) {
        None => v,
        Some(i) => v.update(i, (id, SubView { last_result_hash: h, last_tx: tx, ..v[i].1 })),
    }
}

/// Per-connection session state.
#[derive(Debug)]
pub struct SyncSession {
    /// Unique session identifier.
    pub id: u128,
    /// Authenticated user ID; `None` until auth completes.
    pub user_id: Option<String>,
    /// Active subscriptions, one per subscription id.
    pub subscriptions: Vec<(u128, ActiveSubscription)>,
    /// Highest transaction ID this session has been synced to.
    pub last_tx: i64,
    /// When this session connected (monotonic milliseconds).
    pub connected_at: u64,
    /// Remote peer address, as text.
    pub peer_addr: Option<String>,
}

pub(crate) fn find_sub(v: &Vec<(u128, ActiveSubscription)>, id: u128) -> (r: Option<usize>)
    requires
        sub_ids_distinct(sub_views(v@)),
    ensures
        match r {
            Some(i) => sub_pos(sub_views(v@), id) == Some(i as int) && i < v@.len(),
            None => sub_pos(sub_views(v@), id) is None,
        },
{
    let ghost sv = sub_views(v@);
    let mut i: usize = 0;
    while i < v.len()
        invariant
            i <= v@.len(),
            sv == sub_views(v@),
            sub_ids_distinct(sv),
            forall|j: int| 0 <= j < i ==> sv[j].0 != id,
        decreases v.len() - i,
    {
        if v[i].0 == id {
            proof {
                assert(sv[i as int].0 == id);
                let w = choose|j: int| 0 <= j < sv.len() && sv[j].0 == id;
                if w != i {
                    assert(sv[w].0 != sv[i as int].0);
                }
            }
            return Some(i);
        }
        i += 1;
    }
    None
}

impl SyncSession {
    pub open spec fn wf(&self) -> bool {
        sub_ids_distinct(sub_views(self.subscriptions@))
    }

    pub open spec fn subs(&self) -> Seq<(u128, SubView)> {
        sub_views(self.subscriptions@)
    }

    /// A new unauthenticated session without subscriptions, at cursor 0.
    pub fn new(id: u128, peer_addr: Option<String>, connected_at: u64) -> (r: Self)
        ensures
            r.wf(),
            r.id == id,
            r.user_id is None,
            r.subscriptions@.len() == 0,
            r.last_tx == 0,
            r.connected_at == connected_at,
            r.peer_addr == peer_addr,
    {
        SyncSession { id, user_id: None, subscriptions: Vec::new(), last_tx: 0, connected_at, peer_addr }
    }

    /// Mark this session as authenticated as `user_id`.
    pub fn authenticate(&mut self, user_id: String)
        ensures
            final(self).user_id == Some(user_id),
            final(self).id == old(self).id,
            final(self).subscriptions == old(self).subscriptions,
            final(self).last_tx == old(self).last_tx,
            final(self).connected_at == old(self).connected_at,
            final(self).peer_addr == old(self).peer_addr,
    {
        self.user_id = Some(user_id);
    }

    /// Whether the session has completed authentication.
    pub fn is_authenticated(&self) -> (r: bool)
        ensures
            r == self.user_id is Some,
    {
        self.user_id.is_some()
    }

    /// Add the subscription `sub_id` created at `now_ms`, at the session's
    /// cursor and with no result sent yet; one under the same id is
    /// replaced.
    pub fn add_subscription_with(&mut self, sub_id: u128, query_hash: u64, query_ast: JsonValue, now_ms: u64)
        requires
            old(self).wf(),
        ensures
            final(self).wf(),
            final(self).subs() == sub_upsert(
                old(self).subs(),
                sub_id,
                SubView {
                    query_hash,
                    query_ast: query_ast@,
                    last_result_hash: 0,
                    last_tx: old(self).last_tx,
                    created_at_ms: now_ms,
                },
            ),
            final(self).id == old(self).id,
            final(self).user_id == old(self).user_id,
            final(self).last_tx == old(self).last_tx,
            final(self).connected_at == old(self).connected_at,
            final(self).peer_addr == old(self).peer_addr,
    {
        let ghost sv = self.subs();
        let sub = ActiveSubscription {
            query_hash,
            query_ast,
            last_result_hash: 0,
            last_tx: self.last_tx,
            created_at_ms: now_ms,
        };
        let ghost s = sub_view(sub);
        match find_sub(&self.subscriptions, sub_id) {
            Some(i) => {
                self.subscriptions.set(i, (sub_id, sub));
                proof {
                    assert(self.subs() =~= sv.update(i as int, (sub_id, s)));
                    assert forall|a: int, b: int| 0 <= a < b < self.subs().len() implies self.subs()[a].0
                        != self.subs()[b].0 by {
                        assert(sv[a].0 != sv[b].0);
                    }
                }
            },
            None => {
                self.subscriptions.push((sub_id, sub));
                proof {
                    assert(self.subs() =~= sv.push((sub_id, s)));
                    assert forall|a: int, b: int| 0 <= a < b < self.subs().len() implies self.subs()[a].0
                        != self.subs()[b].0 by {
                        if b < sv.len() {
                            assert(sv[a].0 != sv[b].0);
                        }
                    }
                }
            },
        }
    }

    /// Add a subscription under a fresh random id, created at `now_ms`;
    /// returns the id.
    pub fn add_subscription(&mut self, query_hash: u64, query_ast: JsonValue, now_ms: u64) -> (r: u128)
        requires
            old(self).wf(),
        ensures
            final(self).wf(),
            is_v4_uuid(r),
            final(self).subs() == sub_upsert(
                old(self).subs(),
                r,
                SubView {
                    query_hash,
                    query_ast: query_ast@,
                    last_result_hash: 0,
                    last_tx: old(self).last_tx,
                    created_at_ms: now_ms,
                },
            ),
            final(self).id == old(self).id,
            final(self).user_id == old(self).user_id,
            final(self).last_tx == old(self).last_tx,
    {
        let sub_id = new_uuid_v4();
        self.add_subscription_with(sub_id, query_hash, query_ast, now_ms);
        sub_id
    }

    /// Remove a subscription, giving it back if it existed.
    pub fn remove_subscription(&mut self, sub_id: u128) -> (r: Option<ActiveSubscription>)
        requires
            old(self).wf(),
        ensures
            final(self).wf(),
            match sub_pos(old(self).subs(), sub_id) {
                None => r is None && final(self).subs() == old(self).subs(),
                Some(i) => r matches Some(s) && sub_view(s) == old(self).subs()[i].1 && final(self).subs() == old(
                    self,
                ).subs().remove(i),
            },
            final(self).id == old(self).id,
            final(self).user_id == old(self).user_id,
            final(self).last_tx == old(self).last_tx,
    {
        let ghost sv = self.subs();
        match find_sub(&self.subscriptions, sub_id) {
            Some(i) => {
                let (_, s) = self.subscriptions.remove(i);
                proof {
                    assert(self.subs() =~= sv.remove(i as int));
                    assert forall|a: int, b: int| 0 <= a < b < self.subs().len() implies self.subs()[a].0
                        != self.subs()[b].0 by {
                        if b < i {
                            assert(sv[a].0 != sv[b].0);
                        } else if a < i {
                            assert(sv[a].0 != sv[b + 1].0);
                        } else {
                            assert(sv[a + 1].0 != sv[b + 1].0);
                        }
                    }
                }
                Some(s)
            },
            None => None,
        }
    }

    /// Record the result hash and transaction of the last diff delivered
    /// for a subscription; `false` when there is no such subscription.
    pub fn update_subscription_cursor(&mut self, sub_id: u128, result_hash: u64, tx: i64) -> (r: bool)
        requires
            old(self).wf(),
        ensures
            final(self).wf(),
            r == sub_pos(old(self).subs(), sub_id) is Some,
            final(self).subs() == cursor_updated(old(self).subs(), sub_id, result_hash, tx),
            final(self).id == old(self).id,
            final(self).user_id == old(self).user_id,
            final(self).last_tx == old(self).last_tx,
            final(self).connected_at == old(self).connected_at,
            final(self).peer_addr == old(self).peer_addr,
    {
        let ghost sv = self.subs();
        match find_sub(&self.subscriptions, sub_id) {
            Some(i) => {
                let (id, s) = self.subscriptions.remove(i);
                let updated = ActiveSubscription { last_result_hash: result_hash, last_tx: tx, ..s };
                self.subscriptions.insert(i, (id, updated));
                proof {
                    assert(self.subs() =~= sv.update(
                        i as int,
                        (sub_id, SubView { last_result_hash: result_hash, last_tx: tx, ..sv[i as int].1 }),
                    ));
                    assert forall|a: int, b: int| 0 <= a < b < self.subs().len() implies self.subs()[a].0
                        != self.subs()[b].0 by {
                        assert(sv[a].0 != sv[b].0);
                    }
                }
                true
            },
            None => false,
        }
    }
}

pub open spec fn session_ids_distinct(v: Seq<SyncSession>) -> bool {
    forall|i: int, j: int| 0 <= i < j < v.len() ==> v[i].id != v[j].id
}

/// Position of the session `id`.
pub open spec fn session_pos(v: Seq<SyncSession>, id: u128) -> Option<int> {
    if exists|i: int| 0 <= i < v.len() && v[i].id == id {
        Some(choose|i: int| 0 <= i < v.len() && v[i].id == id)
    } else {
        None
    }
}

/// All active sessions, one per id.
#[derive(Debug)]
pub struct SessionManager {
    pub sessions: Vec<SyncSession>,
}

impl SessionManager {
    pub open spec fn wf(&self) -> bool {
        &&& session_ids_distinct(self.sessions@)
        &&& forall|i: int| 0 <= i < self.sessions@.len() ==> (#[trigger] self.sessions@[i]).wf()
    }

    /// A manager without sessions.
    pub fn new() -> (r: Self)
        ensures
            r.wf(),
            r.sessions@.len() == 0,
    {
        SessionManager { sessions: Vec::new() }
    }

    fn find(&self, id: u128) -> (r: Option<usize>)
        requires
            self.wf(),
        ensures
            match r {
                Some(i) => session_pos(self.sessions@, id) == Some(i as int) && i < self.sessions@.len(),
                None => session_pos(self.sessions@, id) is None,
            },
    {
        let mut i: usize = 0;
        while i < self.sessions.len()
            invariant
                i <= self.sessions@.len(),
                session_ids_distinct(self.sessions@),
                forall|j: int| 0 <= j < i ==> self.sessions@[j].id != id,
            decreases self.sessions.len() - i,
        {
            if self.sessions[i].id == id {
                proof {
                    let w = choose|j: int| 0 <= j < self.sessions@.len() && self.sessions@[j].id == id;
                    if w != i {
                        assert(self.sessions@[w].id != self.sessions@[i as int].id);
                    }
                }
                return Some(i);
            }
            i += 1;
        }
        None
    }

    /// Keep `session`, in place of one with the same id.
    fn put(&mut self, session: SyncSession)
        requires
            old(self).wf(),
            session.wf(),
        ensures
            final(self).wf(),
            match session_pos(old(self).sessions@, session.id) {
                Some(i) => final(self).sessions@ == old(self).sessions@.update(i, session),
                None => final(self).sessions@ == old(self).sessions@.push(session),
            },
    {
        let ghost v = self.sessions@;
        match self.find(session.id) {
            Some(i) => {
                self.sessions.set(i, session);
                proof {
                    assert forall|a: int, b: int| 0 <= a < b < self.sessions@.len() implies self.sessions@[a].id
                        != self.sessions@[b].id by {
                        assert(v[a].id != v[b].id);
                    }
                    assert forall|k: int| 0 <= k < self.sessions@.len() implies (#[trigger] self.sessions@[k]).wf() by {
                        if k != i {
                            assert(self.sessions@[k] == v[k]);
                        }
                    }
                }
            },
            None => {
                self.sessions.push(session);
                proof {
                    assert forall|a: int, b: int| 0 <= a < b < self.sessions@.len() implies self.sessions@[a].id
                        != self.sessions@[b].id by {
                        if b < v.len() {
                            assert(v[a].id != v[b].id);
                        }
                    }
                    assert forall|k: int| 0 <= k < self.sessions@.len() implies (#[trigger] self.sessions@[k]).wf() by {
                        if k < v.len() {
                            assert(self.sessions@[k] == v[k]);
                        }
                    }
                }
            },
        }
    }

    /// Register a new session connected at `now` under a fresh random id,
    /// which is returned.
    pub fn create_session(&mut self, peer_addr: Option<String>, now: u64) -> (r: u128)
        requires
            old(self).wf(),
        ensures
            final(self).wf(),
            is_v4_uuid(r),
            session_pos(final(self).sessions@, r) matches Some(i) && {
                let s = final(self).sessions@[i];
                &&& s.id == r
                &&& s.user_id is None
                &&& s.subscriptions@.len() == 0
                &&& s.last_tx == 0
                &&& s.connected_at == now
                &&& s.peer_addr == peer_addr
            },
            match session_pos(old(self).sessions@, r) {
                Some(i) => final(self).sessions@ == old(self).sessions@.update(i, final(self).sessions@[i]),
                None => final(self).sessions@ == old(self).sessions@.push(final(self).sessions@.last()),
            },
    {
        let id = new_uuid_v4();
        let session = SyncSession::new(id, peer_addr, now);
        let ghost s = session;
        self.put(session);
        proof {
            let v = self.sessions@;
            match session_pos(old(self).sessions@, id) {
                Some(i) => {
                    assert(v[i].id == id);
                },
                None => {
                    assert(v[v.len() - 1].id == id);
                },
            }
            let w = choose|j: int| 0 <= j < v.len() && v[j].id == id;
            match session_pos(old(self).sessions@, id) {
                Some(i) => {
                    if w != i {
                        assert(v[w].id != v[i].id);
                    }
                },
                None => {
                    if w != v.len() - 1 {
                        assert(v[w].id != v[v.len() - 1].id);
                    }
                },
            }
        }
        id
    }

    /// Remove a session and give it back, or `None` if not found.
    pub fn remove_session(&mut self, id: u128) -> (r: Option<SyncSession>)
        requires
            old(self).wf(),
        ensures
            final(self).wf(),
            match session_pos(old(self).sessions@, id) {
                None => r is None && final(self).sessions@ == old(self).sessions@,
                Some(i) => r == Some(old(self).sessions@[i]) && final(self).sessions@ == old(self).sessions@.remove(i),
            },
    {
        let ghost v = self.sessions@;
        match self.find(id) {
            Some(i) => {
                let s = self.sessions.remove(i);
                proof {
                    assert forall|a: int, b: int| 0 <= a < b < self.sessions@.len() implies self.sessions@[a].id
                        != self.sessions@[b].id by {
                        if b < i {
                            assert(v[a].id != v[b].id);
                        } else if a < i {
                            assert(v[a].id != v[b + 1].id);
                        } else {
                            assert(v[a + 1].id != v[b + 1].id);
                        }
                    }
                    assert forall|k: int| 0 <= k < self.sessions@.len() implies (#[trigger] self.sessions@[k]).wf() by {
                        if k < i {
                            assert(self.sessions@[k] == v[k]);
                        } else {
                            assert(self.sessions@[k] == v[k + 1]);
                        }
                    }
                }
                Some(s)
            },
            None => None,
        }
    }

    /// Apply `f` to a session, read-only; `None` if it does not exist.
    pub fn with_session<F: FnOnce(&SyncSession) -> R, R>(&self, id: u128, f: F) -> (r: Option<R>)
        requires
            self.wf(),
            forall|s: &SyncSession| s.wf() ==> #[trigger] f.requires((s,)),
        ensures
            match session_pos(self.sessions@, id) {
                None => r is None,
                Some(i) => r matches Some(x) && f.ensures((&self.sessions@[i],), x),
            },
    {
        match self.find(id) {
            Some(i) => {
                assert(self.sessions@[i as int].wf());
                Some(f(&self.sessions[i]))
            },
            None => None,
        }
    }

    /// Apply `f` to a session, able to change it; `None` if it does not
    /// exist.  The session must come out of `f` well formed and under the
    /// same id.
    pub fn with_session_mut<F: FnOnce(SyncSession) -> (SyncSession, R), R>(&mut self, id: u128, f: F) -> (r: Option<R>)
        requires
            old(self).wf(),
            forall|s: SyncSession| s.wf() ==> #[trigger] f.requires((s,)),
            forall|s: SyncSession, out: (SyncSession, R)|
                s.wf() && #[trigger] f.ensures((s,), out) ==> out.0.wf() && out.0.id == s.id,
        ensures
            final(self).wf(),
            match session_pos(old(self).sessions@, id) {
                None => r is None && final(self).sessions@ == old(self).sessions@,
                Some(i) => r is Some && f.ensures((old(self).sessions@[i],), (final(self).sessions@[i], r->0))
                    && final(self).sessions@ == old(self).sessions@.update(i, final(self).sessions@[i]),
            },
    {
        let ghost v = self.sessions@;
        match self.find(id) {
            Some(i) => {
                let s = self.sessions.remove(i);
                assert(s == v[i as int]);
                assert(s.wf());
                let out = f(s);
                let ghost o = out;
                assert(f.ensures((v[i as int],), o));
                let (s2, x) = out;
                self.sessions.insert(i, s2);
                proof {
                    assert(self.sessions@ =~= v.update(i as int, o.0));
                    assert forall|a: int, b: int| 0 <= a < b < self.sessions@.len() implies self.sessions@[a].id
                        != self.sessions@[b].id by {
                        assert(v[a].id != v[b].id);
                    }
                    assert forall|k: int| 0 <= k < self.sessions@.len() implies (#[trigger] self.sessions@[k]).wf() by {
                        if k != i {
                            assert(self.sessions@[k] == v[k]);
                        }
                    }
                    assert(x == o.1);
                    assert(f.ensures((old(self).sessions@[i as int],), o) && Some(x) == Some(o.1) && self.sessions@
                        == old(self).sessions@.update(i as int, o.0));
                    assert(o == (self.sessions@[i as int], x));
                }
                Some(x)
            },
            None => None,
        }
    }

    /// Number of active sessions.
    pub fn session_count(&self) -> (r: usize)
        ensures
            r == self.sessions@.len(),
    {
        self.sessions.len()
    }

    /// The ids of all sessions, in order.
    pub fn session_ids(&self) -> (r: Vec<u128>)
        ensures
            r@ == Seq::new(self.sessions@.len(), |i: int| self.sessions@[i].id),
    {
        let mut out: Vec<u128> = Vec::new();
        let mut i: usize = 0;
        while i < self.sessions.len()
            invariant
                i <= self.sessions@.len(),
                out@ == Seq::new(i as nat, |k: int| self.sessions@[k].id),
            decreases self.sessions.len() - i,
        {
            out.push(self.sessions[i].id);
            i += 1;
            assert(out@ =~= Seq::new(i as nat, |k: int| self.sessions@[k].id));
        }
        out
    }
}

} // verus!
