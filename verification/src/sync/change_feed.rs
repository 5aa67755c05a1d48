//! The change feed: an append-only log of mutations with cursor-based
//! reads, a bounded in-memory buffer, and TTL-based pruning.
//!
//! Times are milliseconds: `timestamp_ms` on the wall clock, `inserted_at`
//! on a monotonic clock.
use vstd::prelude::*;
use crate::text::{chars_of, string_of, to_upper, uppercase_of};
use crate::schema::{opt_str_view, clone_opt_string, clone_strings};
use super::ChangeEvent;

verus! {

/// Default retention TTL for change feed entries (24 hours), in ms.
pub const DEFAULT_RETENTION_TTL_MS: u64 = 86400000;

/// Default in-memory ring buffer capacity.
pub const DEFAULT_BUFFER_CAPACITY: usize = 10000;

/// Default prune interval, in ms.
pub const DEFAULT_PRUNE_INTERVAL_MS: u64 = 60000;

/// Change feed configuration.
#[derive(Debug, Clone)]
pub struct ChangeFeedConfig {
    /// How long to keep entries before pruning, in ms.
    pub retention_ttl: u64,
    /// Maximum number of entries in the in-memory buffer.
    pub buffer_capacity: usize,
    /// How often to run the prune task, in ms.
    pub prune_interval: u64,
    /// PostgreSQL notification channel name.
    pub pg_channel: String,
}

impl Default for ChangeFeedConfig {
    fn default() -> (r: ChangeFeedConfig)
        ensures
            r.retention_ttl == DEFAULT_RETENTION_TTL_MS,
            r.buffer_capacity == DEFAULT_BUFFER_CAPACITY,
            r.prune_interval == DEFAULT_PRUNE_INTERVAL_MS,
            r.pg_channel@ == "darshjdb_changes"@,
    {
        ChangeFeedConfig {
            retention_ttl: DEFAULT_RETENTION_TTL_MS,
            buffer_capacity: DEFAULT_BUFFER_CAPACITY,
            prune_interval: DEFAULT_PRUNE_INTERVAL_MS,
            pg_channel: "darshjdb_changes".to_owned(),
        }
    }
}

/// A single entry in the change feed.
#[derive(Debug, Clone)]
pub struct ChangeFeedEntry {
    /// Monotonically increasing sequence number (cursor).
    pub sequence: u64,
    /// Transaction ID from the triple store.
    pub tx_id: i64,
    /// Unix timestamp (milliseconds) when this entry was created.
    pub timestamp_ms: u64,
    /// The mutation action, upper-cased ("INSERT", "UPDATE", "DELETE").
    pub action: String,
    /// Target collection / entity type.
    pub collection: Option<String>,
    /// Entity IDs affected by this mutation.
    pub entity_ids: Vec<String>,
    /// Attribute names that were modified.
    pub attributes: Vec<String>,
    /// User who performed the mutation.
    pub actor_id: Option<String>,
    /// When this entry was inserted (monotonic ms; used for TTL expiry).
    pub inserted_at: u64,
}

/// Cursor position for reading the change feed.
#[derive(Debug, Clone, Copy, PartialEq, Eq, PartialOrd, Ord, Hash, Structural)]
pub struct Cursor(pub u64);

impl Cursor {
    /// Create a cursor from a sequence number.
    pub fn new(seq: u64) -> (r: Cursor)
        ensures
            r.0 == seq,
    {
        Cursor(seq)
    }

    /// The beginning of the feed (before any entries).
    pub fn zero() -> (r: Cursor)
        ensures
            r.0 == 0,
    {
        Cursor(0)
    }

    /// The sequence number, as the cursor displays.
    pub fn to_string(&self) -> (r: String)
        ensures
            r@ == crate::text::decimal_of(self.0 as nat),
    {
        string_of(crate::text::decimal_chars(self.0).as_slice())
    }
}

/// A change notification as the database's LISTEN/NOTIFY channel carries
/// it.
#[derive(Debug, Clone)]
pub struct PgNotification {
    /// Sequence number in the source change feed.
    pub seq: u64,
    /// Transaction ID.
    pub tx: i64,
    /// Action: INSERT, UPDATE, DELETE.
    pub act: String,
    /// Collection / entity type.
    pub col: Option<String>,
    /// Entity IDs affected.
    pub ids: Vec<String>,
}

/// Result of a change feed read operation.
#[derive(Debug, Clone)]
pub struct ChangeFeedPage {
    /// Entries in this page, ordered by sequence number.
    pub entries: Vec<ChangeFeedEntry>,
    /// Cursor pointing to the next entry after this page.
    pub next_cursor: Cursor,
    /// Whether there are more entries available beyond this page.
    pub has_more: bool,
}

/// Sequence numbers of `v`, in order.
pub open spec fn seqs(v: Seq<ChangeFeedEntry>) -> Seq<u64> {
    Seq::new(v.len(), |i: int| v[i].sequence)
}

/// The entries of `v` after sequence `after`, in order.
pub open spec fn after_seq(v: Seq<ChangeFeedEntry>, after: u64) -> Seq<ChangeFeedEntry> {
    v.filter(|e: ChangeFeedEntry| e.sequence > after)
}

/// The entries an append keeps: all of them, or all but the oldest when
/// the buffer is at capacity.
pub open spec fn kept_on_append(buf: Seq<ChangeFeedEntry>, cap: usize) -> Seq<ChangeFeedEntry> {
    if buf.len() >= cap && buf.len() > 0 {
        buf.drop_first()
    } else {
        buf
    }
}

/// The buffer holds the latest sequence numbers below `next`, one after
/// another, and no more of them than the capacity.
pub open spec fn recent_window(buf: Seq<ChangeFeedEntry>, next: u64, cap: usize) -> bool {
    &&& buf.len() <= cap
    &&& forall|i: int| 0 <= i < buf.len() ==> #[trigger] buf[i].sequence == next - buf.len() + i
}

/// In-memory change feed: a bounded buffer of entries in sequence order.
pub struct ChangeFeed {
    /// Configuration.
    pub config: ChangeFeedConfig,
    /// The buffered entries, oldest first.
    pub buffer: Vec<ChangeFeedEntry>,
    /// Next sequence number to assign.
    pub next_sequence: u64,
}

/// Entries of an entry copy: every field the same.
pub open spec fn same_entry(a: ChangeFeedEntry, b: ChangeFeedEntry) -> bool {
    &&& a.sequence == b.sequence
    &&& a.tx_id == b.tx_id
    &&& a.timestamp_ms == b.timestamp_ms
    &&& a.action@ == b.action@
    &&& opt_str_view(a.collection) == opt_str_view(b.collection)
    &&& a.entity_ids@.len() == b.entity_ids@.len()
    &&& (forall|i: int| 0 <= i < a.entity_ids@.len() ==> (#[trigger] a.entity_ids@[i])@ == b.entity_ids@[i]@)
    &&& a.attributes@.len() == b.attributes@.len()
    &&& (forall|i: int| 0 <= i < a.attributes@.len() ==> (#[trigger] a.attributes@[i])@ == b.attributes@[i]@)
    &&& opt_str_view(a.actor_id) == opt_str_view(b.actor_id)
    &&& a.inserted_at == b.inserted_at
}

pub fn clone_entry(e: &ChangeFeedEntry) -> (r: ChangeFeedEntry)
    ensures
        same_entry(r, *e),
{
    ChangeFeedEntry {
        sequence: e.sequence,
        tx_id: e.tx_id,
        timestamp_ms: e.timestamp_ms,
        action: crate::json::clone_string(&e.action),
        collection: clone_opt_string(&e.collection),
        entity_ids: clone_strings(&e.entity_ids),
        attributes: clone_strings(&e.attributes),
        actor_id: clone_opt_string(&e.actor_id),
        inserted_at: e.inserted_at,
    }
}

impl ChangeFeed {
    /// Sequence numbers increase along the buffer and stay below the next
    /// one to assign.
    pub open spec fn wf(&self) -> bool {
        &&& forall|i: int, j: int|
            0 <= i < j < self.buffer@.len() ==> self.buffer@[i].sequence < self.buffer@[j].sequence
        &&& forall|i: int| 0 <= i < self.buffer@.len() ==> self.buffer@[i].sequence < self.next_sequence
        &&& self.next_sequence >= 1
    }

    /// A new, empty change feed; the first sequence number is 1.
    pub fn new(config: ChangeFeedConfig) -> (r: ChangeFeed)
        ensures
            r.wf(),
            r.buffer@.len() == 0,
            r.next_sequence == 1,
            r.config.buffer_capacity == config.buffer_capacity,
            r.config.retention_ttl == config.retention_ttl,
    {
        ChangeFeed { config, buffer: Vec::new(), next_sequence: 1 }
    }

    /// A change feed with the default configuration.
    pub fn with_defaults() -> (r: ChangeFeed)
        ensures
            r.wf(),
            r.buffer@.len() == 0,
            r.next_sequence == 1,
            r.config.buffer_capacity == DEFAULT_BUFFER_CAPACITY,
            r.config.retention_ttl == DEFAULT_RETENTION_TTL_MS,
    {
        ChangeFeed::new(ChangeFeedConfig::default())
    }

    /// Append an entry for `event` and return its sequence number: the
    /// next one, after which the counter advances.  When the buffer is full
    /// the oldest entry is dropped first.  The action is upper-cased.
    pub fn append(&mut self, event: &ChangeEvent, action: &str, timestamp_ms: u64, inserted_at: u64) -> (r: u64)
        requires
            old(self).wf(),
            old(self).next_sequence < u64::MAX,
        ensures
            final(self).wf(),
            r == old(self).next_sequence,
            final(self).next_sequence == r + 1,
            final(self).config == old(self).config,
            final(self).buffer@.drop_last() == kept_on_append(old(self).buffer@, old(self).config.buffer_capacity),
            final(self).buffer@.len() == kept_on_append(old(self).buffer@, old(self).config.buffer_capacity).len() + 1,
            ({
                let e = final(self).buffer@.last();
                &&& e.sequence == r
                &&& e.tx_id == event.tx_id
                &&& e.timestamp_ms == timestamp_ms
                &&& e.action@ == to_upper(action@)
                &&& opt_str_view(e.collection) == opt_str_view(event.entity_type)
                &&& e.entity_ids@.len() == event.entity_ids@.len()
                &&& (forall|i: int| 0 <= i < e.entity_ids@.len() ==> (#[trigger] e.entity_ids@[i])@ == event.entity_ids@[i]@)
                &&& e.attributes@.len() == event.attributes@.len()
                &&& (forall|i: int| 0 <= i < e.attributes@.len() ==> (#[trigger] e.attributes@[i])@ == event.attributes@[i]@)
                &&& opt_str_view(e.actor_id) == opt_str_view(event.actor_id)
                &&& e.inserted_at == inserted_at
            }),
    {
        let sequence = self.next_sequence;
        self.next_sequence = sequence + 1;
        let up = uppercase_of(action);
        let entry = ChangeFeedEntry {
            sequence,
            tx_id: event.tx_id,
            timestamp_ms,
            action: string_of(up.as_slice()),
            collection: clone_opt_string(&event.entity_type),
            entity_ids: clone_strings(&event.entity_ids),
            attributes: clone_strings(&event.attributes),
            actor_id: clone_opt_string(&event.actor_id),
            inserted_at,
        };
        if self.buffer.len() >= self.config.buffer_capacity && self.buffer.len() > 0 {
            self.buffer.remove(0);
            assert(self.buffer@ =~= old(self).buffer@.drop_first());
        }
        let ghost kept = self.buffer@;
        self.buffer.push(entry);
        assert(self.buffer@.drop_last() =~= kept);
        proof {
            assert forall|i: int, j: int| 0 <= i < j < self.buffer@.len() implies self.buffer@[i].sequence
                < self.buffer@[j].sequence by {
                if j < self.buffer@.len() - 1 {
                    assert(self.buffer@[i] == kept[i] && self.buffer@[j] == kept[j]);
                    if kept.len() < old(self).buffer@.len() {
                        assert(kept[i] == old(self).buffer@[i + 1] && kept[j] == old(self).buffer@[j + 1]);
                    } else {
                        assert(kept[i] == old(self).buffer@[i] && kept[j] == old(self).buffer@[j]);
                    }
                } else {
                    assert(self.buffer@[i] == kept[i]);
                    if kept.len() < old(self).buffer@.len() {
                        assert(kept[i] == old(self).buffer@[i + 1]);
                    } else {
                        assert(kept[i] == old(self).buffer@[i]);
                    }
                }
            }
            assert forall|i: int| 0 <= i < self.buffer@.len() implies self.buffer@[i].sequence < self.next_sequence by {
                if i < self.buffer@.len() - 1 {
                    assert(self.buffer@[i] == kept[i]);
                    if kept.len() < old(self).buffer@.len() {
                        assert(kept[i] == old(self).buffer@[i + 1]);
                    } else {
                        assert(kept[i] == old(self).buffer@[i]);
                    }
                }
            }
        }
        sequence
    }

    /// Up to `limit` entries after cursor `after`, in sequence order; the
    /// next cursor is the last returned entry's sequence (or `after` when
    /// none is), and `has_more` tells whether entries beyond it remain.
    pub fn read_after(&self, after: Cursor, limit: usize) -> (r: ChangeFeedPage)
        requires
            self.wf(),
        ensures
            ({
                let sel = after_seq(self.buffer@, after.0);
                let n: int = if sel.len() < limit { sel.len() as int } else { limit as int };
                &&& r.entries@.len() == n
                &&& forall|i: int| 0 <= i < n ==> same_entry(#[trigger] r.entries@[i], sel[i])
                &&& r.next_cursor == (if n > 0 { Cursor(sel[n - 1].sequence) } else { after })
                &&& r.has_more == (exists|i: int| 0 <= i < self.buffer@.len() && self.buffer@[i].sequence > r.next_cursor.0)
            }),
    {
        let ghost sel = after_seq(self.buffer@, after.0);
        let mut entries: Vec<ChangeFeedEntry> = Vec::new();
        let mut i: usize = 0;
        while i < self.buffer.len() && entries.len() < limit
            invariant
                i <= self.buffer@.len(),
                entries@.len() <= limit,
                sel == after_seq(self.buffer@, after.0),
                entries@.len() == after_seq(self.buffer@.subrange(0, i as int), after.0).len(),
                forall|k: int| 0 <= k < entries@.len() ==> same_entry(
                    #[trigger] entries@[k],
                    after_seq(self.buffer@.subrange(0, i as int), after.0)[k],
                ),
            decreases self.buffer.len() - i,
        {
            let ghost pre = self.buffer@.subrange(0, i as int);
            let ghost nxt = self.buffer@.subrange(0, i + 1);
            proof {
                reveal(Seq::filter);
                assert(nxt.drop_last() =~= pre);
                assert(nxt.last() == self.buffer@[i as int]);
            }
            if self.buffer[i].sequence > after.0 {
                entries.push(clone_entry(&self.buffer[i]));
            }
            i += 1;
        }
        proof {
            lemma_after_seq_prefix(self.buffer@, after.0, i as int);
            if i == self.buffer@.len() {
                assert(self.buffer@.subrange(0, i as int) =~= self.buffer@);
            }
            let n: int = if sel.len() < limit { sel.len() as int } else { limit as int };
            assert(entries@.len() == n);
            assert forall|k: int| 0 <= k < n implies same_entry(#[trigger] entries@[k], sel[k]) by {
                assert(after_seq(self.buffer@.subrange(0, i as int), after.0)[k] == sel[k]);
            }
        }
        let next_cursor = if entries.len() > 0 {
            Cursor(entries[entries.len() - 1].sequence)
        } else {
            after
        };
        let mut has_more = false;
        let mut j: usize = 0;
        while j < self.buffer.len()
            invariant
                j <= self.buffer@.len(),
                has_more == (exists|k: int| 0 <= k < j && self.buffer@[k].sequence > next_cursor.0),
            decreases self.buffer.len() - j,
        {
            if self.buffer[j].sequence > next_cursor.0 {
                has_more = true;
            }
            j += 1;
        }
        ChangeFeedPage { entries, next_cursor, has_more }
    }

    /// The entries whose sequence lies in `from..=to`, in order.
    pub fn read_range(&self, from: u64, to: u64) -> (r: Vec<ChangeFeedEntry>)
        ensures
            ({
                let sel = self.buffer@.filter(|e: ChangeFeedEntry| from <= e.sequence <= to);
                &&& r@.len() == sel.len()
                &&& forall|i: int| 0 <= i < sel.len() ==> same_entry(#[trigger] r@[i], sel[i])
            }),
    {
        let ghost f = |e: ChangeFeedEntry| from <= e.sequence <= to;
        let mut out: Vec<ChangeFeedEntry> = Vec::new();
        let mut i: usize = 0;
        while i < self.buffer.len()
            invariant
                i <= self.buffer@.len(),
                f == (|e: ChangeFeedEntry| from <= e.sequence <= to),
                out@.len() == self.buffer@.subrange(0, i as int).filter(f).len(),
                forall|k: int| 0 <= k < out@.len() ==> same_entry(
                    #[trigger] out@[k],
                    self.buffer@.subrange(0, i as int).filter(f)[k],
                ),
            decreases self.buffer.len() - i,
        {
            proof {
                reveal(Seq::filter);
                assert(self.buffer@.subrange(0, i + 1).drop_last() =~= self.buffer@.subrange(0, i as int));
            }
            let s = self.buffer[i].sequence;
            if from <= s && s <= to {
                out.push(clone_entry(&self.buffer[i]));
            }
            i += 1;
        }
        assert(self.buffer@.subrange(0, self.buffer@.len() as int) =~= self.buffer@);
        out
    }

    /// The cursor of the most recent entry, or the zero cursor.
    pub fn latest_cursor(&self) -> (r: Cursor)
        ensures
            r == (if self.buffer@.len() > 0 {
                Cursor(self.buffer@.last().sequence)
            } else {
                Cursor(0)
            }),
    {
        if self.buffer.len() > 0 {
            Cursor(self.buffer[self.buffer.len() - 1].sequence)
        } else {
            Cursor(0)
        }
    }

    /// The number of buffered entries.
    pub fn len(&self) -> (r: usize)
        ensures
            r == self.buffer@.len(),
    {
        self.buffer.len()
    }

    /// Whether the buffer is empty.
    pub fn is_empty(&self) -> (r: bool)
        ensures
            r <==> self.buffer@.len() == 0,
    {
        self.buffer.len() == 0
    }

    /// Drop the entries inserted before `now` minus the retention TTL, from
    /// the oldest on, stopping at the first that is recent enough.  Returns
    /// how many were dropped.
    pub fn prune_expired(&mut self, now: u64) -> (r: usize)
        requires
            old(self).wf(),
            now >= old(self).config.retention_ttl,
        ensures
            final(self).wf(),
            final(self).buffer@ == old(self).buffer@.subrange(r as int, old(self).buffer@.len() as int),
            forall|i: int| 0 <= i < r ==> old(self).buffer@[i].inserted_at < now - old(self).config.retention_ttl,
            r < old(self).buffer@.len() ==> old(self).buffer@[r as int].inserted_at >= now - old(self).config.retention_ttl,
            final(self).next_sequence == old(self).next_sequence,
            final(self).config == old(self).config,
    {
        let cutoff = now - self.config.retention_ttl;
        let mut k: usize = 0;
        while k < self.buffer.len() && self.buffer[k].inserted_at < cutoff
            invariant
                k <= self.buffer@.len(),
                self.buffer@ == old(self).buffer@,
                cutoff == now - old(self).config.retention_ttl,
                forall|i: int| 0 <= i < k ==> self.buffer@[i].inserted_at < cutoff,
            decreases self.buffer.len() - k,
        {
            k += 1;
        }
        let ghost before = self.buffer@;
        let mut rest: Vec<ChangeFeedEntry> = Vec::new();
        let mut all = Vec::new();
        std::mem::swap(&mut all, &mut self.buffer);
        let n = all.len();
        let mut i: usize = 0;
        while i < n
            invariant
                i <= n == before.len(),
                k <= n,
                all@.len() == n,
                forall|j: int| i <= j < n ==> #[trigger] all@[j] == before[j],
                rest@ == (if i <= k { Seq::empty() } else { before.subrange(k as int, i as int) }),
            decreases n - i,
        {
            let mut e = ChangeFeedEntry {
                sequence: 0,
                tx_id: 0,
                timestamp_ms: 0,
                action: String::new(),
                collection: None,
                entity_ids: Vec::new(),
                attributes: Vec::new(),
                actor_id: None,
                inserted_at: 0,
            };
            std::mem::swap(&mut e, &mut all[i]);
            if i >= k {
                rest.push(e);
                assert(rest@ =~= before.subrange(k as int, i + 1));
            }
            i += 1;
        }
        assert(rest@ =~= before.subrange(k as int, n as int));
        self.buffer = rest;
        proof {
            assert forall|a: int, b: int| 0 <= a < b < self.buffer@.len() implies self.buffer@[a].sequence
                < self.buffer@[b].sequence by {
                assert(self.buffer@[a] == before[a + k] && self.buffer@[b] == before[b + k]);
            }
            assert forall|a: int| 0 <= a < self.buffer@.len() implies self.buffer@[a].sequence < self.next_sequence by {
                assert(self.buffer@[a] == before[a + k]);
            }
        }
        k
    }
}

/// The entries after a cursor among a prefix are a prefix of those among
/// the whole.
proof fn lemma_after_seq_prefix(v: Seq<ChangeFeedEntry>, after: u64, i: int)
    requires
        0 <= i <= v.len(),
    ensures
        after_seq(v.subrange(0, i), after).len() <= after_seq(v, after).len(),
        forall|k: int| 0 <= k < after_seq(v.subrange(0, i), after).len() ==> #[trigger] after_seq(v.subrange(0, i), after)[k]
            == after_seq(v, after)[k],
    decreases v.len() - i,
{
    reveal(Seq::filter);
    if i < v.len() {
        lemma_after_seq_prefix(v, after, i + 1);
        let p = v.subrange(0, i + 1);
        assert(p.drop_last() =~= v.subrange(0, i));
        let a = after_seq(v.subrange(0, i), after);
        let b = after_seq(p, after);
        assert(b == p.filter(|e: ChangeFeedEntry| e.sequence > after));
        assert(a.len() <= b.len());
        assert forall|k: int| 0 <= k < a.len() implies #[trigger] a[k] == after_seq(v, after)[k] by {
            assert(a[k] == b[k]);
        }
    } else {
        assert(v.subrange(0, i) =~= v);
    }
}

/// Reading after a cursor gives entries of the buffer beyond the cursor,
/// in increasing sequence order; so a read from a page's next cursor
/// never repeats an entry of that page.
pub proof fn lemma_read_after_beyond_cursor(v: Seq<ChangeFeedEntry>, after: u64)
    requires
        forall|i: int, j: int| 0 <= i < j < v.len() ==> v[i].sequence < v[j].sequence,
    ensures
        forall|k: int| 0 <= k < after_seq(v, after).len() ==> (#[trigger] after_seq(v, after)[k]).sequence > after,
        forall|k: int, l: int|
            0 <= k < l < after_seq(v, after).len() ==> (#[trigger] after_seq(v, after)[k]).sequence
                < (#[trigger] after_seq(v, after)[l]).sequence,
        forall|k: int| 0 <= k < after_seq(v, after).len() ==> exists|i: int| 0 <= i < v.len() && #[trigger] after_seq(v, after)[k] == v[i],
    decreases v.len(),
{
    reveal(Seq::filter);
    if v.len() > 0 {
        let d = v.drop_last();
        lemma_read_after_beyond_cursor(d, after);
        let a = after_seq(d, after);
        let b = after_seq(v, after);
        assert(b == v.filter(|e: ChangeFeedEntry| e.sequence > after));
        assert forall|k: int| 0 <= k < a.len() implies exists|i: int| 0 <= i < v.len() && #[trigger] a[k] == v[i] by {
            let i = choose|i: int| 0 <= i < d.len() && #[trigger] a[k] == d[i];
            assert(d[i] == v[i]);
        }
        if v.last().sequence > after {
            assert(b == a.push(v.last()));
            assert forall|k: int| 0 <= k < a.len() implies (#[trigger] a[k]).sequence < v.last().sequence by {
                let i = choose|i: int| 0 <= i < v.len() && #[trigger] a[k] == v[i];
                assert(i < v.len() - 1) by {
                    let i2 = choose|i2: int| 0 <= i2 < d.len() && #[trigger] a[k] == d[i2];
                    assert(d[i2] == v[i2]);
                    if i == v.len() - 1 {
                        assert(v[i2].sequence < v[v.len() - 1].sequence);
                    }
                }
            }
            assert forall|k: int| 0 <= k < b.len() implies exists|i: int| 0 <= i < v.len() && #[trigger] b[k] == v[i] by {
                if k < a.len() {
                    assert(b[k] == a[k]);
                } else {
                    assert(b[k] == v[v.len() - 1]);
                }
            }
            assert forall|k: int, l: int| 0 <= k < l < b.len() implies (#[trigger] b[k]).sequence < (#[trigger] b[l]).sequence by {
                if l < a.len() {
                    assert(b[k] == a[k] && b[l] == a[l]);
                } else {
                    assert(b[k] == a[k]);
                }
            }
        } else {
            assert(b == a);
        }
    }
}

/// An entry appended with a sequence beyond a cursor is what a read after
/// that cursor gives in addition, at the end.
pub proof fn lemma_read_after_append(v: Seq<ChangeFeedEntry>, e: ChangeFeedEntry, after: u64)
    requires
        e.sequence > after,
    ensures
        after_seq(v.push(e), after) == after_seq(v, after).push(e),
{
    reveal(Seq::filter);
    assert(v.push(e).drop_last() =~= v);
}

/// Reading after the sequence of a buffered entry gives exactly the
/// entries appended after it, in order.
pub proof fn lemma_read_after_entry(v: Seq<ChangeFeedEntry>, i: int)
    requires
        forall|a: int, b: int| 0 <= a < b < v.len() ==> v[a].sequence < v[b].sequence,
        0 <= i < v.len(),
    ensures
        after_seq(v, v[i].sequence) == v.skip(i + 1),
    decreases v.len(),
{
    reveal(Seq::filter);
    let s = v[i].sequence;
    if i == v.len() - 1 {
        lemma_after_seq_none(v, s);
        assert(v.skip(i + 1) =~= Seq::<ChangeFeedEntry>::empty());
    } else {
        let d = v.drop_last();
        assert(d[i] == v[i]);
        lemma_read_after_entry(d, i);
        assert(v.last().sequence > s) by {
            assert(v[v.len() - 1] == v.last());
        }
        assert(d.push(v.last()) =~= v);
        lemma_read_after_append(d, v.last(), s);
        assert(d.skip(i + 1).push(v.last()) =~= v.skip(i + 1));
    }
}

/// No entry lies beyond the last one's sequence.
proof fn lemma_after_seq_none(v: Seq<ChangeFeedEntry>, s: u64)
    requires
        forall|a: int| 0 <= a < v.len() ==> v[a].sequence <= s,
    ensures
        after_seq(v, s) == Seq::<ChangeFeedEntry>::empty(),
    decreases v.len(),
{
    reveal(Seq::filter);
    if v.len() > 0 {
        let d = v.drop_last();
        assert forall|a: int| 0 <= a < d.len() implies d[a].sequence <= s by {
            assert(d[a] == v[a]);
        }
        lemma_after_seq_none(d, s);
        assert(v.last().sequence <= s) by {
            assert(v[v.len() - 1] == v.last());
        }
        assert(d.push(v.last()) =~= v);
    }
}

/// Appends keep the buffer the window of the latest entries: starting
/// from an empty feed (sequence 1 next), after `n` appends to a feed of
/// capacity `c >= 1` the buffer holds exactly the sequences
/// `n - min(n, c) + 1 ..= n`, in order, each entry as it was appended.
pub proof fn lemma_append_keeps_window(
    before: Seq<ChangeFeedEntry>,
    next: u64,
    cap: usize,
    after: Seq<ChangeFeedEntry>,
    next_after: u64,
)
    requires
        cap >= 1,
        recent_window(before, next, cap),
        after.drop_last() == kept_on_append(before, cap),
        after.len() == kept_on_append(before, cap).len() + 1,
        after.last().sequence == next,
        next_after == next + 1,
    ensures
        recent_window(after, next_after, cap),
        after.len() == (if before.len() + 1 <= cap { before.len() + 1 } else { cap as nat }),
        forall|i: int| 0 <= i < after.len() - 1 ==> #[trigger] after[i] == kept_on_append(before, cap)[i],
{
    let kept = kept_on_append(before, cap);
    assert forall|i: int| 0 <= i < after.len() implies #[trigger] after[i].sequence == next_after - after.len() + i by {
        if i < after.len() - 1 {
            assert(after[i] == after.drop_last()[i]);
            if before.len() >= cap && before.len() > 0 {
                assert(kept[i] == before[i + 1]);
            } else {
                assert(kept[i] == before[i]);
            }
        } else {
            assert(after[i] == after.last());
        }
    }
    assert forall|i: int| 0 <= i < after.len() - 1 implies #[trigger] after[i] == kept[i] by {
        assert(after[i] == after.drop_last()[i]);
    }
}

/// A new feed's empty buffer is the (empty) window below sequence 1.
pub proof fn lemma_empty_window(cap: usize)
    ensures
        recent_window(Seq::<ChangeFeedEntry>::empty(), 1, cap),
{
}

} // verus!
