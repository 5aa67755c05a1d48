//! Presence: ephemeral per-room user state with expiry and a per-room
//! update rate limit.
//!
//! Times are milliseconds on a monotonic clock, handed in by the caller.
//! An entry is fresh while less than the room's TTL has passed since it
//! was last seen (a time before that counts as no time passed).
use vstd::prelude::*;
use crate::json::{JsonValue, JsonView, clone_json};
use crate::text::{chars_eq, chars_of};

verus! {

/// Default presence TTL, in ms: entries expire if not refreshed within it.
pub const DEFAULT_TTL_MS: u64 = 60000;

/// Maximum presence updates per room per rate window.
pub const MAX_UPDATES_PER_SEC: u32 = 20;

/// Length of the rate-limit window, in ms.
pub const RATE_WINDOW_MS: u64 = 1000;

/// Time passed from `then` to `now`, none when `now` is earlier.
pub open spec fn elapsed(now: u64, then: u64) -> int {
    if now >= then {
        now - then
    } else {
        0
    }
}

/// A user's presence entry within a room.
#[derive(Debug)]
pub struct PresenceEntry {
    /// Arbitrary state payload (cursor position, status, etc.).
    pub state: JsonValue,
    /// When this entry was last updated.
    pub last_seen: u64,
}

/// The mathematical shape of one user's entry.
pub struct EntryView {
    pub user: Seq<char>,
    pub state: JsonView,
    pub last_seen: u64,
}

pub open spec fn entry_view(e: (String, PresenceEntry)) -> EntryView {
    EntryView { user: e.0@, state: e.1.state@, last_seen: e.1.last_seen }
}

pub open spec fn entry_views(v: Seq<(String, PresenceEntry)>) -> Seq<EntryView> {
    Seq::new(v.len(), |i: int| entry_view(v[i]))
}

/// Users occur once each.
pub open spec fn users_distinct(es: Seq<EntryView>) -> bool {
    forall|i: int, j: int| 0 <= i < j < es.len() ==> es[i].user != es[j].user
}

/// Position of `user`'s entry.
pub open spec fn user_pos(es: Seq<EntryView>, user: Seq<char>) -> Option<int> {
    if exists|i: int| 0 <= i < es.len() && es[i].user == user {
        Some(choose|i: int| 0 <= i < es.len() && es[i].user == user)
    } else {
        None
    }
}

/// Whether an entry last seen at `last_seen` is still fresh at `now`.
pub open spec fn is_fresh(last_seen: u64, now: u64, ttl: u64) -> bool {
    elapsed(now, last_seen) < ttl
}

/// The fresh entries, in order.
pub open spec fn fresh_of(es: Seq<EntryView>, now: u64, ttl: u64) -> Seq<EntryView>
    decreases es.len(),
{
    if es.len() == 0 {
        Seq::empty()
    } else {
        let r = fresh_of(es.drop_last(), now, ttl);
        if is_fresh(es.last().last_seen, now, ttl) {
            r.push(es.last())
        } else {
            r
        }
    }
}

/// The users of the stale entries, in order.
pub open spec fn stale_users(es: Seq<EntryView>, now: u64, ttl: u64) -> Seq<Seq<char>>
    decreases es.len(),
{
    if es.len() == 0 {
        Seq::empty()
    } else {
        let r = stale_users(es.drop_last(), now, ttl);
        if is_fresh(es.last().last_seen, now, ttl) {
            r
        } else {
            r.push(es.last().user)
        }
    }
}

/// `(user, state)` of each entry.
pub open spec fn snapshot_of(es: Seq<EntryView>) -> Seq<(Seq<char>, JsonView)> {
    Seq::new(es.len(), |i: int| (es[i].user, es[i].state))
}

/// The entries with `e` put in place of the entry of the same user, or
/// added at the end.
pub open spec fn upsert(es: Seq<EntryView>, e: EntryView) -> Seq<EntryView> {
    match user_pos(es, e.user) {
        Some(i) => es.update(i, e),
        None => es.push(e),
    }
}

/// One step of the rate limiter from window start `ws` and count `count`:
/// whether the update is allowed, and the new window start and count.  A
/// window that has run its length restarts at `now` with this update.
pub open spec fn rate_step(ws: u64, count: u32, now: u64) -> (bool, u64, u32) {
    if elapsed(now, ws) >= RATE_WINDOW_MS {
        (true, now, 1)
    } else if count >= MAX_UPDATES_PER_SEC {
        (false, ws, count)
    } else {
        (true, ws, (count + 1) as u32)
    }
}

pub proof fn lemma_fresh_contained(es: Seq<EntryView>, now: u64, ttl: u64)
    ensures
        fresh_of(es, now, ttl).len() <= es.len(),
        forall|k: int|
            0 <= k < fresh_of(es, now, ttl).len() ==> exists|i: int|
                0 <= i < es.len() && #[trigger] fresh_of(es, now, ttl)[k] == es[i],
    decreases es.len(),
{
    if es.len() > 0 {
        lemma_fresh_contained(es.drop_last(), now, ttl);
        let r = fresh_of(es.drop_last(), now, ttl);
        assert forall|k: int| 0 <= k < fresh_of(es, now, ttl).len() implies exists|i: int|
            0 <= i < es.len() && #[trigger] fresh_of(es, now, ttl)[k] == es[i] by {
            if k < r.len() {
                let i = choose|i: int| 0 <= i < es.drop_last().len() && r[k] == es.drop_last()[i];
                assert(es[i] == es.drop_last()[i]);
            } else {
                assert(fresh_of(es, now, ttl)[k] == es[es.len() - 1]);
            }
        }
    }
}

pub proof fn lemma_fresh_distinct(es: Seq<EntryView>, now: u64, ttl: u64)
    requires
        users_distinct(es),
    ensures
        users_distinct(fresh_of(es, now, ttl)),
    decreases es.len(),
{
    if es.len() > 0 {
        let d = es.drop_last();
        assert(users_distinct(d));
        lemma_fresh_distinct(d, now, ttl);
        lemma_fresh_contained(d, now, ttl);
        let r = fresh_of(d, now, ttl);
        if is_fresh(es.last().last_seen, now, ttl) {
            assert forall|i: int, j: int| 0 <= i < j < r.push(es.last()).len() implies r.push(es.last())[i].user
                != r.push(es.last())[j].user by {
                if j == r.len() {
                    let k = choose|k: int| 0 <= k < d.len() && #[trigger] r[i] == d[k];
                    assert(d[k] == es[k]);
                }
            }
        }
    }
}

pub proof fn lemma_fresh_all_fresh(es: Seq<EntryView>, now: u64, ttl: u64)
    ensures
        forall|k: int|
            0 <= k < fresh_of(es, now, ttl).len() ==> is_fresh(#[trigger] fresh_of(es, now, ttl)[k].last_seen, now, ttl),
        stale_users(es, now, ttl).len() + fresh_of(es, now, ttl).len() == es.len(),
    decreases es.len(),
{
    if es.len() > 0 {
        lemma_fresh_all_fresh(es.drop_last(), now, ttl);
    }
}

pub proof fn lemma_fresh_of_fresh(es: Seq<EntryView>, now: u64, ttl: u64)
    requires
        forall|k: int| 0 <= k < es.len() ==> is_fresh(#[trigger] es[k].last_seen, now, ttl),
    ensures
        fresh_of(es, now, ttl) == es,
    decreases es.len(),
{
    if es.len() > 0 {
        let d = es.drop_last();
        assert forall|k: int| 0 <= k < d.len() implies is_fresh(#[trigger] d[k].last_seen, now, ttl) by {
            assert(d[k] == es[k]);
        }
        lemma_fresh_of_fresh(d, now, ttl);
        assert(is_fresh(es[es.len() - 1].last_seen, now, ttl));
        assert(d.push(es.last()) =~= es);
    }
}

/// The mathematical shape of a room.
pub struct RoomView {
    pub id: Seq<char>,
    pub entries: Seq<EntryView>,
    pub window_start: u64,
    pub count: u32,
    pub ttl: u64,
}

/// A room after an update attempt with entry `e` at `now`: whether the
/// limiter allowed it, and the room.
pub open spec fn room_update(r: RoomView, e: EntryView, now: u64) -> (bool, RoomView) {
    let (ok, ws, c) = rate_step(r.window_start, r.count, now);
    (
        ok,
        RoomView {
            id: r.id,
            entries: if ok {
                upsert(r.entries, e)
            } else {
                r.entries
            },
            window_start: ws,
            count: c,
            ttl: r.ttl,
        },
    )
}

/// A room without the entry of `user`.
pub open spec fn room_remove(r: RoomView, user: Seq<char>) -> RoomView {
    match user_pos(r.entries, user) {
        Some(j) => RoomView { entries: r.entries.remove(j), ..r },
        None => r,
    }
}

/// A user who was not in a room and joins it, then leaves it, leaves
/// the room's entries as they were, and so everything observed of them
/// (the snapshot, who is present, how many are active); a join the rate
/// limiter refuses changes no entry at all.
pub proof fn lemma_join_then_leave(r: RoomView, e: EntryView, now: u64)
    requires
        users_distinct(r.entries),
        user_pos(r.entries, e.user) is None,
    ensures
        room_update(r, e, now).0 ==> room_remove(room_update(r, e, now).1, e.user).entries == r.entries,
        !room_update(r, e, now).0 ==> room_update(r, e, now).1.entries == r.entries,
{
    let es = r.entries;
    let w = es.push(e);
    assert(upsert(es, e) == w);
    assert(w[es.len() as int].user == e.user);
    assert(user_pos(w, e.user) == Some(es.len() as int)) by {
        let k = choose|k: int| 0 <= k < w.len() && w[k].user == e.user;
        if k < es.len() {
            assert(es[k].user == e.user);
        }
    }
    assert(w.remove(es.len() as int) =~= es);
}

/// A new room with the default TTL, its rate window starting at `now`.
pub open spec fn fresh_room(id: Seq<char>, now: u64) -> RoomView {
    RoomView { id, entries: Seq::empty(), window_start: now, count: 0, ttl: DEFAULT_TTL_MS }
}

pub open spec fn room_ids_distinct(rs: Seq<RoomView>) -> bool {
    forall|i: int, j: int| 0 <= i < j < rs.len() ==> rs[i].id != rs[j].id
}

/// Position of the room `id`.
pub open spec fn room_pos(rs: Seq<RoomView>, id: Seq<char>) -> Option<int> {
    if exists|i: int| 0 <= i < rs.len() && rs[i].id == id {
        Some(choose|i: int| 0 <= i < rs.len() && rs[i].id == id)
    } else {
        None
    }
}

/// Joining `room` with entry `e` at `now`: the room is created when it
/// does not exist; whether the update was allowed, and the rooms.
pub open spec fn join_spec(rs: Seq<RoomView>, room: Seq<char>, e: EntryView, now: u64) -> (bool, Seq<RoomView>) {
    match room_pos(rs, room) {
        Some(i) => {
            let (ok, r2) = room_update(rs[i], e, now);
            (ok, rs.update(i, r2))
        },
        None => {
            let (ok, r2) = room_update(fresh_room(room, now), e, now);
            (ok, rs.push(r2))
        },
    }
}

/// Leaving `room` at `now`: the user's entry goes, and so does the room
/// when no fresh entry is left in it.
pub open spec fn leave_spec(rs: Seq<RoomView>, room: Seq<char>, user: Seq<char>, now: u64) -> Seq<RoomView> {
    match room_pos(rs, room) {
        None => rs,
        Some(i) => {
            let r2 = room_remove(rs[i], user);
            if fresh_of(r2.entries, now, r2.ttl).len() == 0 {
                rs.remove(i)
            } else {
                rs.update(i, r2)
            }
        },
    }
}

/// Leaving each of the rooms `ids[0..n]` in turn.
pub open spec fn leave_each(rs: Seq<RoomView>, ids: Seq<Seq<char>>, user: Seq<char>, now: u64, n: int) -> Seq<RoomView>
    decreases n,
{
    if n <= 0 || n > ids.len() {
        rs
    } else {
        leave_spec(leave_each(rs, ids, user, now, n - 1), ids[n - 1], user, now)
    }
}

/// The rooms after expiry at `now`: stale entries dropped, and the rooms
/// left without entries removed.
pub open spec fn expire_rooms(rs: Seq<RoomView>, now: u64) -> Seq<RoomView>
    decreases rs.len(),
{
    if rs.len() == 0 {
        Seq::empty()
    } else {
        let rest = expire_rooms(rs.drop_last(), now);
        let r = rs.last();
        let kept = fresh_of(r.entries, now, r.ttl);
        if kept.len() == 0 {
            rest
        } else {
            rest.push(RoomView { entries: kept, ..r })
        }
    }
}

/// How many entries expiry at `now` drops.
pub open spec fn stale_total(rs: Seq<RoomView>, now: u64) -> int
    decreases rs.len(),
{
    if rs.len() == 0 {
        0
    } else {
        stale_total(rs.drop_last(), now) + stale_users(rs.last().entries, now, rs.last().ttl).len()
    }
}

/// A presence room: its entries, one per user, and the rate limiter.
#[derive(Debug)]
pub struct PresenceRoom {
    /// Room identifier.
    pub room_id: String,
    /// `(user_id, entry)` pairs, one per user.
    pub entries: Vec<(String, PresenceEntry)>,
    /// Start of the current rate window.
    pub window_start: u64,
    /// Updates accepted in the current window.
    pub count: u32,
    /// TTL for presence entries, in ms.
    pub ttl: u64,
}

impl PresenceRoom {
    pub open spec fn wf(&self) -> bool {
        users_distinct(entry_views(self.entries@))
    }

    pub open spec fn view_entries(&self) -> Seq<EntryView> {
        entry_views(self.entries@)
    }

    pub open spec fn room_view(&self) -> RoomView {
        RoomView {
            id: self.room_id@,
            entries: self.view_entries(),
            window_start: self.window_start,
            count: self.count,
            ttl: self.ttl,
        }
    }

    /// A room with the default TTL, its rate window starting at `now`.
    pub fn new(room_id: String, now: u64) -> (r: Self)
        ensures
            r.wf(),
            r.room_id@ == room_id@,
            r.entries@.len() == 0,
            r.window_start == now,
            r.count == 0,
            r.ttl == DEFAULT_TTL_MS,
    {
        PresenceRoom { room_id, entries: Vec::new(), window_start: now, count: 0, ttl: DEFAULT_TTL_MS }
    }

    /// A room with a custom TTL (in ms), its rate window starting at `now`.
    pub fn with_ttl(room_id: String, ttl: u64, now: u64) -> (r: Self)
        ensures
            r.wf(),
            r.room_id@ == room_id@,
            r.entries@.len() == 0,
            r.window_start == now,
            r.count == 0,
            r.ttl == ttl,
    {
        PresenceRoom { room_id, entries: Vec::new(), window_start: now, count: 0, ttl }
    }

    fn find_user(&self, user: &Vec<char>) -> (r: Option<usize>)
        requires
            self.wf(),
        ensures
            match r {
                Some(i) => user_pos(self.view_entries(), user@) == Some(i as int) && i < self.entries@.len(),
                None => user_pos(self.view_entries(), user@) is None,
            },
    {
        let ghost es = self.view_entries();
        let mut i: usize = 0;
        while i < self.entries.len()
            invariant
                i <= self.entries@.len(),
                es == self.view_entries(),
                users_distinct(es),
                forall|j: int| 0 <= j < i ==> es[j].user != user@,
            decreases self.entries.len() - i,
        {
            if chars_eq(chars_of(self.entries[i].0.as_str()).as_slice(), user.as_slice()) {
                proof {
                    assert(es[i as int].user == user@);
                    let w = choose|j: int| 0 <= j < es.len() && es[j].user == user@;
                    if w != i {
                        assert(es[w].user != es[i as int].user);
                    }
                }
                return Some(i);
            }
            i += 1;
        }
        None
    }

    /// One step of the rate limiter at `now`.
    fn check_rate_limit(&mut self, now: u64) -> (r: bool)
        ensures
            (r, final(self).window_start, final(self).count) == rate_step(old(self).window_start, old(self).count, now),
            final(self).entries == old(self).entries,
            final(self).room_id == old(self).room_id,
            final(self).ttl == old(self).ttl,
    {
        let passed: u64 = if now >= self.window_start {
            now - self.window_start
        } else {
            0
        };
        if passed >= RATE_WINDOW_MS {
            self.window_start = now;
            self.count = 1;
            return true;
        }
        if self.count >= MAX_UPDATES_PER_SEC {
            return false;
        }
        self.count = self.count + 1;
        true
    }

    /// Update a user's presence state at `now`; `false` when rate-limited,
    /// and then nothing but the limiter changes.
    pub fn update(&mut self, user_id: &str, state: JsonValue, now: u64) -> (r: bool)
        requires
            old(self).wf(),
        ensures
            final(self).wf(),
            final(self).room_id == old(self).room_id,
            final(self).ttl == old(self).ttl,
            (r, final(self).window_start, final(self).count) == rate_step(old(self).window_start, old(self).count, now),
            r ==> final(self).view_entries() == upsert(
                old(self).view_entries(),
                EntryView { user: user_id@, state: state@, last_seen: now },
            ),
            !r ==> final(self).entries@ == old(self).entries@,
    {
        if !self.check_rate_limit(now) {
            return false;
        }
        let ghost es = self.view_entries();
        let ghost e = EntryView { user: user_id@, state: state@, last_seen: now };
        let u = chars_of(user_id);
        match self.find_user(&u) {
            Some(i) => {
                self.entries.set(i, (user_id.to_owned(), PresenceEntry { state, last_seen: now }));
                proof {
                    assert(self.view_entries() =~= es.update(i as int, e));
                    assert forall|a: int, b: int|
                        0 <= a < b < self.view_entries().len() implies self.view_entries()[a].user
                        != self.view_entries()[b].user by {
                        if a != i && b != i {
                            assert(es[a].user != es[b].user);
                        } else if a == i {
                            assert(es[a].user != es[b].user);
                        } else {
                            assert(es[a].user != es[b].user);
                        }
                    }
                }
            },
            None => {
                self.entries.push((user_id.to_owned(), PresenceEntry { state, last_seen: now }));
                proof {
                    assert(self.view_entries() =~= es.push(e));
                    assert forall|a: int, b: int|
                        0 <= a < b < self.view_entries().len() implies self.view_entries()[a].user
                        != self.view_entries()[b].user by {
                        if b == es.len() {
                            assert(es[a].user != user_id@);
                        } else {
                            assert(es[a].user != es[b].user);
                        }
                    }
                }
            },
        }
        true
    }

    /// Remove a user from this room, giving back the entry it had.
    pub fn remove(&mut self, user_id: &str) -> (r: Option<PresenceEntry>)
        requires
            old(self).wf(),
        ensures
            final(self).wf(),
            final(self).room_id == old(self).room_id,
            final(self).ttl == old(self).ttl,
            final(self).window_start == old(self).window_start,
            final(self).count == old(self).count,
            match user_pos(old(self).view_entries(), user_id@) {
                None => r is None && final(self).entries@ == old(self).entries@,
                Some(i) => r matches Some(e) && e.state@ == old(self).view_entries()[i].state
                    && e.last_seen == old(self).view_entries()[i].last_seen
                    && final(self).view_entries() == old(self).view_entries().remove(i),
            },
    {
        let ghost es = self.view_entries();
        match self.find_user(&chars_of(user_id)) {
            Some(i) => {
                let (_, e) = self.entries.remove(i);
                proof {
                    assert(self.view_entries() =~= es.remove(i as int));
                    assert forall|a: int, b: int|
                        0 <= a < b < self.view_entries().len() implies self.view_entries()[a].user
                        != self.view_entries()[b].user by {
                        if a < i && b < i {
                            assert(es[a].user != es[b].user);
                        } else if a < i {
                            assert(es[a].user != es[b + 1].user);
                        } else {
                            assert(es[a + 1].user != es[b + 1].user);
                        }
                    }
                }
                Some(e)
            },
            None => None,
        }
    }

    /// `(user, state)` of every fresh entry at `now`, in order.
    pub fn snapshot(&self, now: u64) -> (r: Vec<(String, JsonValue)>)
        ensures
            crate::json::entry_views(r@) == snapshot_of(fresh_of(self.view_entries(), now, self.ttl)),
    {
        let ghost es = self.view_entries();
        let mut out: Vec<(String, JsonValue)> = Vec::new();
        let mut i: usize = 0;
        while i < self.entries.len()
            invariant
                i <= self.entries@.len(),
                es == self.view_entries(),
                crate::json::entry_views(out@) == snapshot_of(fresh_of(es.take(i as int), now, self.ttl)),
            decreases self.entries.len() - i,
        {
            assert(es.take(i + 1).drop_last() =~= es.take(i as int));
            let e = &self.entries[i];
            let passed: u64 = if now >= e.1.last_seen {
                now - e.1.last_seen
            } else {
                0
            };
            if passed < self.ttl {
                let ghost before = out@;
                out.push((crate::json::clone_string(&e.0), clone_json(&e.1.state)));
                assert(crate::json::entry_views(out@) =~= crate::json::entry_views(before).push((e.0@, e.1.state@)));
            }
            i += 1;
            assert(crate::json::entry_views(out@) =~= snapshot_of(fresh_of(es.take(i as int), now, self.ttl)));
        }
        assert(es.take(es.len() as int) =~= es);
        out
    }

    /// Drop the entries that are stale at `now`; returns their users, in
    /// order.
    pub fn expire_stale(&mut self, now: u64) -> (r: Vec<String>)
        requires
            old(self).wf(),
        ensures
            final(self).wf(),
            final(self).room_id == old(self).room_id,
            final(self).ttl == old(self).ttl,
            final(self).window_start == old(self).window_start,
            final(self).count == old(self).count,
            final(self).view_entries() == fresh_of(old(self).view_entries(), now, old(self).ttl),
            Seq::new(r@.len(), |i: int| r@[i]@) == stale_users(old(self).view_entries(), now, old(self).ttl),
    {
        let ghost es = self.view_entries();
        let ttl = self.ttl;
        let mut all: Vec<(String, PresenceEntry)> = Vec::new();
        std::mem::swap(&mut all, &mut self.entries);
        assert(entry_views(all@) == es);
        let mut kept: Vec<(String, PresenceEntry)> = Vec::new();
        let mut expired: Vec<String> = Vec::new();
        let ghost total = es.len();
        while all.len() > 0
            invariant
                all@.len() <= total,
                total == es.len(),
                entry_views(all@) == es.skip(total - all@.len()),
                entry_views(kept@) == fresh_of(es.take(total - all@.len()), now, ttl),
                Seq::new(expired@.len(), |k: int| expired@[k]@) == stale_users(es.take(total - all@.len()), now, ttl),
            decreases all.len(),
        {
            let ghost n = total - all@.len();
            let ghost before_k = kept@;
            let ghost before_e = expired@;
            let ghost before_all = all@;
            let item = all.remove(0);
            assert(entry_view(item) == entry_views(before_all)[0]);
            assert(entry_views(before_all)[0] == es.skip(n)[0]);
            assert(entry_view(item) == es[n]);
            assert forall|k: int| 0 <= k < all@.len() implies #[trigger] entry_views(all@)[k] == es.skip(n + 1)[k] by {
                assert(all@[k] == before_all[k + 1]);
                assert(entry_views(before_all)[k + 1] == es.skip(n)[k + 1]);
            }
            assert(entry_views(all@) =~= es.skip(n + 1));
            assert(es.take(n + 1).drop_last() =~= es.take(n));
            let passed: u64 = if now >= item.1.last_seen {
                now - item.1.last_seen
            } else {
                0
            };
            if passed < ttl {
                kept.push(item);
                assert(entry_views(kept@) =~= entry_views(before_k).push(es[n]));
            } else {
                expired.push(item.0);
                assert(Seq::new(expired@.len(), |k: int| expired@[k]@) =~= Seq::new(
                    before_e.len(),
                    |k: int| before_e[k]@,
                ).push(es[n].user));
            }
        }
        assert(es.take(total as int) =~= es);
        self.entries = kept;
        proof {
            lemma_fresh_distinct(es, now, ttl);
        }
        expired
    }

    /// Number of entries fresh at `now`.
    pub fn active_count(&self, now: u64) -> (r: usize)
        ensures
            r == fresh_of(self.view_entries(), now, self.ttl).len(),
    {
        let ghost es = self.view_entries();
        let mut n: usize = 0;
        let mut i: usize = 0;
        while i < self.entries.len()
            invariant
                i <= self.entries@.len(),
                es == self.view_entries(),
                n == fresh_of(es.take(i as int), now, self.ttl).len(),
            decreases self.entries.len() - i,
        {
            assert(es.take(i + 1).drop_last() =~= es.take(i as int));
            proof {
                lemma_fresh_contained(es.take(i as int), now, self.ttl);
            }
            let e = &self.entries[i];
            let passed: u64 = if now >= e.1.last_seen {
                now - e.1.last_seen
            } else {
                0
            };
            if passed < self.ttl {
                n += 1;
            }
            i += 1;
        }
        assert(es.take(es.len() as int) =~= es);
        n
    }

    /// Whether `user_id` has an entry fresh at `now`.
    pub fn is_present(&self, user_id: &str, now: u64) -> (r: bool)
        requires
            self.wf(),
        ensures
            r == match user_pos(self.view_entries(), user_id@) {
                Some(i) => is_fresh(self.view_entries()[i].last_seen, now, self.ttl),
                None => false,
            },
    {
        match self.find_user(&chars_of(user_id)) {
            Some(i) => {
                let t = self.entries[i].1.last_seen;
                let passed: u64 = if now >= t {
                    now - t
                } else {
                    0
                };
                passed < self.ttl
            },
            None => false,
        }
    }
}

/// All presence rooms, one per id; rooms are made on first join and
/// dropped when left without fresh entries.
#[derive(Debug)]
pub struct PresenceManager {
    pub rooms: Vec<PresenceRoom>,
}

pub open spec fn rooms_view(v: Seq<PresenceRoom>) -> Seq<RoomView> {
    Seq::new(v.len(), |i: int| v[i].room_view())
}

impl PresenceManager {
    pub open spec fn wf(&self) -> bool {
        &&& room_ids_distinct(rooms_view(self.rooms@))
        &&& forall|i: int| 0 <= i < self.rooms@.len() ==> (#[trigger] self.rooms@[i]).wf()
    }

    pub open spec fn view(&self) -> Seq<RoomView> {
        rooms_view(self.rooms@)
    }

    /// A manager without rooms.
    pub fn new() -> (r: Self)
        ensures
            r.wf(),
            r.view().len() == 0,
    {
        PresenceManager { rooms: Vec::new() }
    }

    fn find_room(&self, id: &Vec<char>) -> (r: Option<usize>)
        requires
            self.wf(),
        ensures
            match r {
                Some(i) => room_pos(self.view(), id@) == Some(i as int) && i < self.rooms@.len(),
                None => room_pos(self.view(), id@) is None,
            },
    {
        let ghost rs = self.view();
        let mut i: usize = 0;
        while i < self.rooms.len()
            invariant
                i <= self.rooms@.len(),
                rs == self.view(),
                room_ids_distinct(rs),
                forall|j: int| 0 <= j < i ==> rs[j].id != id@,
            decreases self.rooms.len() - i,
        {
            if chars_eq(chars_of(self.rooms[i].room_id.as_str()).as_slice(), id.as_slice()) {
                proof {
                    assert(rs[i as int].id == id@);
                    let w = choose|j: int| 0 <= j < rs.len() && rs[j].id == id@;
                    if w != i {
                        assert(rs[w].id != rs[i as int].id);
                    }
                }
                return Some(i);
            }
            i += 1;
        }
        None
    }

    /// Join `room_id` (creating it if necessary) with `state` at `now`;
    /// `false` when the room's rate limit refused the update.
    pub fn join(&mut self, room_id: &str, user_id: &str, state: JsonValue, now: u64) -> (r: bool)
        requires
            old(self).wf(),
        ensures
            final(self).wf(),
            (r, final(self).view()) == join_spec(
                old(self).view(),
                room_id@,
                EntryView { user: user_id@, state: state@, last_seen: now },
                now,
            ),
    {
        let ghost rs = self.view();
        let ghost e = EntryView { user: user_id@, state: state@, last_seen: now };
        match self.find_room(&chars_of(room_id)) {
            Some(i) => {
                let mut room = self.rooms.remove(i);
                assert(room.room_view() == rs[i as int]);
                assert(room.wf());
                let ok = room.update(user_id, state, now);
                proof {
                    assert(room.room_view() == room_update(rs[i as int], e, now).1);
                }
                self.rooms.insert(i, room);
                proof {
                    assert(self.view() =~= rs.update(i as int, room_update(rs[i as int], e, now).1));
                    assert forall|a: int, b: int| 0 <= a < b < self.view().len() implies self.view()[a].id
                        != self.view()[b].id by {
                        assert(rs[a].id != rs[b].id);
                    }
                    assert forall|k: int| 0 <= k < self.rooms@.len() implies (#[trigger] self.rooms@[k]).wf() by {
                        if k != i {
                            assert(self.rooms@[k] == old(self).rooms@[k]);
                        }
                    }
                }
                ok
            },
            None => {
                let mut room = PresenceRoom::new(room_id.to_owned(), now);
                assert(room.view_entries() =~= Seq::<EntryView>::empty());
                assert(room.room_view() == fresh_room(room_id@, now));
                let ok = room.update(user_id, state, now);
                self.rooms.push(room);
                proof {
                    assert(self.view() =~= rs.push(room_update(fresh_room(room_id@, now), e, now).1));
                    assert forall|a: int, b: int| 0 <= a < b < self.view().len() implies self.view()[a].id
                        != self.view()[b].id by {
                        if b < rs.len() {
                            assert(rs[a].id != rs[b].id);
                        }
                    }
                    assert forall|k: int| 0 <= k < self.rooms@.len() implies (#[trigger] self.rooms@[k]).wf() by {
                        if k < rs.len() {
                            assert(self.rooms@[k] == old(self).rooms@[k]);
                        }
                    }
                }
                ok
            },
        }
    }

    /// Update presence state in a room at `now`, joining it when it does
    /// not exist; `false` when rate-limited.
    pub fn update_state(&mut self, room_id: &str, user_id: &str, state: JsonValue, now: u64) -> (r: bool)
        requires
            old(self).wf(),
        ensures
            final(self).wf(),
            (r, final(self).view()) == join_spec(
                old(self).view(),
                room_id@,
                EntryView { user: user_id@, state: state@, last_seen: now },
                now,
            ),
    {
        self.join(room_id, user_id, state, now)
    }

    /// Leave a room at `now`; the room goes when no fresh entry is left.
    pub fn leave(&mut self, room_id: &str, user_id: &str, now: u64)
        requires
            old(self).wf(),
        ensures
            final(self).wf(),
            final(self).view() == leave_spec(old(self).view(), room_id@, user_id@, now),
    {
        let ghost rs = self.view();
        match self.find_room(&chars_of(room_id)) {
            Some(i) => {
                let mut room = self.rooms.remove(i);
                assert(room.room_view() == rs[i as int]);
                assert(room.wf());
                let _ = room.remove(user_id);
                proof {
                    assert(room.room_view() == room_remove(rs[i as int], user_id@));
                }
                if room.active_count(now) == 0 {
                    proof {
                        assert(self.view() =~= rs.remove(i as int));
                        assert forall|a: int, b: int| 0 <= a < b < self.view().len() implies self.view()[a].id
                            != self.view()[b].id by {
                            if b < i {
                                assert(rs[a].id != rs[b].id);
                            } else if a < i {
                                assert(rs[a].id != rs[b + 1].id);
                            } else {
                                assert(rs[a + 1].id != rs[b + 1].id);
                            }
                        }
                        assert forall|k: int| 0 <= k < self.rooms@.len() implies (#[trigger] self.rooms@[k]).wf() by {
                            if k < i {
                                assert(self.rooms@[k] == old(self).rooms@[k]);
                            } else {
                                assert(self.rooms@[k] == old(self).rooms@[k + 1]);
                            }
                        }
                    }
                } else {
                    self.rooms.insert(i, room);
                    proof {
                        assert(self.view() =~= rs.update(i as int, room_remove(rs[i as int], user_id@)));
                        assert forall|a: int, b: int| 0 <= a < b < self.view().len() implies self.view()[a].id
                            != self.view()[b].id by {
                            assert(rs[a].id != rs[b].id);
                        }
                        assert forall|k: int| 0 <= k < self.rooms@.len() implies (#[trigger] self.rooms@[k]).wf() by {
                            if k != i {
                                assert(self.rooms@[k] == old(self).rooms@[k]);
                            }
                        }
                    }
                }
            },
            None => {},
        }
    }

    /// The ids of the rooms, in order.
    fn room_ids(&self) -> (r: Vec<String>)
        ensures
            Seq::new(r@.len(), |i: int| r@[i]@) == Seq::new(self.view().len(), |i: int| self.view()[i].id),
    {
        let mut out: Vec<String> = Vec::new();
        let mut i: usize = 0;
        while i < self.rooms.len()
            invariant
                i <= self.rooms@.len(),
                out@.len() == i,
                Seq::new(out@.len(), |k: int| out@[k]@) == Seq::new(i as nat, |k: int| self.view()[k].id),
            decreases self.rooms.len() - i,
        {
            let ghost before = out@;
            assert(self.view()[i as int].id == self.rooms@[i as int].room_id@);
            out.push(crate::json::clone_string(&self.rooms[i].room_id));
            assert forall|k: int| 0 <= k < out@.len() implies #[trigger] out@[k]@ == self.view()[k].id by {
                if k < i {
                    assert(out@[k] == before[k]);
                    assert(Seq::new(before.len(), |q: int| before[q]@)[k] == self.view()[k].id);
                }
            }
            assert(Seq::new(out@.len(), |k: int| out@[k]@) =~= Seq::new((i + 1) as nat, |k: int| self.view()[k].id));
            i += 1;
        }
        out
    }

    /// Leave every room at `now` (on disconnect): each of the rooms there
    /// were, in order.
    pub fn leave_all(&mut self, user_id: &str, now: u64)
        requires
            old(self).wf(),
        ensures
            final(self).wf(),
            final(self).view() == leave_each(
                old(self).view(),
                Seq::new(old(self).view().len(), |i: int| old(self).view()[i].id),
                user_id@,
                now,
                old(self).view().len() as int,
            ),
    {
        let ids = self.room_ids();
        let ghost rs = self.view();
        let ghost iv = Seq::new(rs.len(), |i: int| rs[i].id);
        let mut k: usize = 0;
        while k < ids.len()
            invariant
                k <= ids@.len(),
                ids@.len() == iv.len(),
                forall|j: int| 0 <= j < ids@.len() ==> (#[trigger] ids@[j])@ == iv[j],
                self.wf(),
                self.view() == leave_each(rs, iv, user_id@, now, k as int),
            decreases ids.len() - k,
        {
            assert(ids@[k as int]@ == iv[k as int]);
            self.leave(ids[k].as_str(), user_id, now);
            k += 1;
        }
    }

    /// `(user, state)` of the fresh entries of a room at `now`; none for
    /// a room that does not exist.
    pub fn room_snapshot(&self, room_id: &str, now: u64) -> (r: Vec<(String, JsonValue)>)
        requires
            self.wf(),
        ensures
            crate::json::entry_views(r@) == match room_pos(self.view(), room_id@) {
                Some(i) => snapshot_of(fresh_of(self.view()[i].entries, now, self.view()[i].ttl)),
                None => Seq::empty(),
            },
    {
        match self.find_room(&chars_of(room_id)) {
            Some(i) => self.rooms[i].snapshot(now),
            None => {
                let r: Vec<(String, JsonValue)> = Vec::new();
                assert(crate::json::entry_views(r@) =~= Seq::empty());
                r
            },
        }
    }

    /// Expire stale entries of every room at `now` and drop the rooms left
    /// empty; returns how many entries were dropped (saturating at
    /// `usize::MAX`).
    pub fn expire_all(&mut self, now: u64) -> (r: usize)
        requires
            old(self).wf(),
        ensures
            final(self).wf(),
            final(self).view() == expire_rooms(old(self).view(), now),
            r == (if stale_total(old(self).view(), now) <= usize::MAX {
                stale_total(old(self).view(), now)
            } else {
                usize::MAX as int
            }),
    {
        let ghost rs = self.view();
        let ghost total = rs.len();
        let mut all: Vec<PresenceRoom> = Vec::new();
        std::mem::swap(&mut all, &mut self.rooms);
        let mut kept: Vec<PresenceRoom> = Vec::new();
        let mut n: usize = 0;
        while all.len() > 0
            invariant
                all@.len() <= total,
                total == rs.len(),
                room_ids_distinct(rs),
                rooms_view(all@) == rs.skip(total - all@.len()),
                forall|k: int| 0 <= k < all@.len() ==> (#[trigger] all@[k]).wf(),
                rooms_view(kept@) == expire_rooms(rs.take(total - all@.len()), now),
                forall|k: int| 0 <= k < kept@.len() ==> (#[trigger] kept@[k]).wf(),
                n == (if stale_total(rs.take(total - all@.len()), now) <= usize::MAX {
                    stale_total(rs.take(total - all@.len()), now)
                } else {
                    usize::MAX as int
                }),
            decreases all.len(),
        {
            let ghost m = total - all@.len();
            let ghost before_all = all@;
            let ghost before_k = kept@;
            let mut room = all.remove(0);
            assert(room.room_view() == rooms_view(before_all)[0]);
            assert(rooms_view(before_all)[0] == rs.skip(m)[0]);
            assert(room.room_view() == rs[m]);
            assert(before_all[0].wf());
            assert forall|k: int| 0 <= k < all@.len() implies #[trigger] rooms_view(all@)[k] == rs.skip(m + 1)[k] by {
                assert(all@[k] == before_all[k + 1]);
                assert(rooms_view(before_all)[k + 1] == rs.skip(m)[k + 1]);
            }
            assert(rooms_view(all@) =~= rs.skip(m + 1));
            assert forall|k: int| 0 <= k < all@.len() implies (#[trigger] all@[k]).wf() by {
                assert(all@[k] == before_all[k + 1]);
            }
            assert(rs.take(m + 1).drop_last() =~= rs.take(m));
            let gone = room.expire_stale(now);
            proof {
                lemma_fresh_all_fresh(rs[m].entries, now, rs[m].ttl);
                lemma_fresh_of_fresh(room.view_entries(), now, room.ttl);
            }
            n = n.saturating_add(gone.len());
            if room.active_count(now) > 0 {
                kept.push(room);
                proof {
                    assert(rooms_view(kept@) =~= rooms_view(before_k).push(
                        RoomView { entries: fresh_of(rs[m].entries, now, rs[m].ttl), ..rs[m] },
                    ));
                    assert forall|k: int| 0 <= k < kept@.len() implies (#[trigger] kept@[k]).wf() by {
                        if k < before_k.len() {
                            assert(kept@[k] == before_k[k]);
                        }
                    }
                }
            }
        }
        assert(rs.take(total as int) =~= rs);
        self.rooms = kept;
        proof {
            lemma_expire_rooms_ids(rs, now);
        }
        n
    }

    /// Number of rooms.
    pub fn room_count(&self) -> (r: usize)
        ensures
            r == self.view().len(),
    {
        self.rooms.len()
    }
}

/// Expiry keeps rooms in order and never adds one, so ids stay distinct.
pub proof fn lemma_expire_rooms_ids(rs: Seq<RoomView>, now: u64)
    requires
        room_ids_distinct(rs),
    ensures
        room_ids_distinct(expire_rooms(rs, now)),
        forall|k: int|
            0 <= k < expire_rooms(rs, now).len() ==> exists|i: int|
                0 <= i < rs.len() && #[trigger] expire_rooms(rs, now)[k].id == rs[i].id,
    decreases rs.len(),
{
    if rs.len() > 0 {
        let d = rs.drop_last();
        assert(room_ids_distinct(d));
        lemma_expire_rooms_ids(d, now);
        let rest = expire_rooms(d, now);
        assert forall|k: int| 0 <= k < expire_rooms(rs, now).len() implies exists|i: int|
            0 <= i < rs.len() && #[trigger] expire_rooms(rs, now)[k].id == rs[i].id by {
            if k < rest.len() {
                let i = choose|i: int| 0 <= i < d.len() && #[trigger] rest[k].id == d[i].id;
                assert(d[i] == rs[i]);
            } else {
                assert(expire_rooms(rs, now)[k].id == rs[rs.len() - 1].id);
            }
        }
        assert forall|a: int, b: int| 0 <= a < b < expire_rooms(rs, now).len() implies expire_rooms(rs, now)[a].id
            != expire_rooms(rs, now)[b].id by {
            if b >= rest.len() {
                let i = choose|i: int| 0 <= i < d.len() && #[trigger] rest[a].id == d[i].id;
                assert(d[i] == rs[i]);
                assert(rs[i].id != rs[rs.len() - 1].id);
            }
        }
    }
}

} // verus!
