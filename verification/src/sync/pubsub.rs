//! Pub/sub keyspace notifications: Redis-style channel patterns with
//! `*` wildcards, the subscription table, and the channels a change event
//! is published on.
//!
//! Channels are `:`-separated, e.g. `entity:users:<id>`, `mutation:updated`,
//! `auth:signin` or `custom:<topic>`.
use vstd::prelude::*;
use crate::json::{JsonValue, JsonView, clone_opt_json, opt_json_view};
use crate::text::{chars_of, chars_eq, string_of, split_on, split_seq, split_piece, split_count, push_chars, push_str_chars, starts_with, has_prefix};
use crate::schema::{opt_str_view, clone_opt_string, clone_strings};
use super::ChangeEvent;

verus! {

// ── Channel patterns ───────────────────────────────────────────────

/// One `:`-separated segment of a pattern.
#[derive(Debug, Clone)]
pub enum PatternSegment {
    /// Exact literal match.
    Literal(String),
    /// Wildcard `*` — matches any single segment, or when last, the rest.
    Wildcard,
}

pub enum SegmentView {
    Literal(Seq<char>),
    Wildcard,
}

pub open spec fn segment_view(s: PatternSegment) -> SegmentView {
    match s {
        PatternSegment::Literal(l) => SegmentView::Literal(l@),
        PatternSegment::Wildcard => SegmentView::Wildcard,
    }
}

pub open spec fn segment_views(v: Seq<PatternSegment>) -> Seq<SegmentView> {
    Seq::new(v.len(), |i: int| segment_view(v[i]))
}

/// A parsed channel pattern used for subscription matching.
#[derive(Debug, Clone)]
pub struct ChannelPattern {
    /// The raw pattern string (e.g., `entity:users:*`).
    pub raw: String,
    /// Parsed segments split on `:`.
    pub segments: Vec<PatternSegment>,
}

/// The segments of a pattern: its `:`-separated pieces, `*` standing for
/// a wildcard.  The empty pattern has no segments (and so matches
/// nothing).
pub open spec fn pattern_segments(p: Seq<char>) -> Seq<SegmentView> {
    let ps = split_seq(p, ':');
    if p.len() == 0 {
        Seq::empty()
    } else {
        Seq::new(ps.len(), |i: int| if ps[i] == "*"@ {
            SegmentView::Wildcard
        } else {
            SegmentView::Literal(ps[i])
        })
    }
}

/// A segment accepts a channel part: a wildcard any, a literal itself.
pub open spec fn segment_accepts(s: SegmentView, part: Seq<char>) -> bool {
    match s {
        SegmentView::Wildcard => true,
        SegmentView::Literal(l) => l == part,
    }
}

/// Whether a pattern matches a channel: each segment accepts the part at
/// its position, and the parts are as many as the segments — or, when the
/// last segment is a wildcard, at least as many (it takes the rest).  A
/// pattern without segments matches nothing.
pub open spec fn pattern_matches(pat: Seq<SegmentView>, channel: Seq<char>) -> bool {
    let parts = split_seq(channel, ':');
    &&& pat.len() > 0
    &&& forall|i: int| 0 <= i < pat.len() - 1 && i < parts.len() ==> segment_accepts(#[trigger] pat[i], parts[i])
    &&& ((parts.len() == pat.len() && segment_accepts(pat.last(), parts.last())) || (pat.last() is Wildcard
        && parts.len() >= pat.len()))
}

impl ChannelPattern {
    /// Parse a channel pattern string into segments.
    pub fn parse(pattern: &str) -> (r: ChannelPattern)
        ensures
            r.raw@ == pattern@,
            segment_views(r.segments@) == pattern_segments(pattern@),
    {
        let p = chars_of(pattern);
        if p.len() == 0 {
            assert(segment_views(Seq::<PatternSegment>::empty()) =~= pattern_segments(pattern@));
            return ChannelPattern { raw: pattern.to_owned(), segments: Vec::new() };
        }
        let pieces = split_on(&p, ':');
        let ghost ps = split_seq(p@, ':');
        let star = chars_of("*");
        let mut segments: Vec<PatternSegment> = Vec::new();
        let mut i: usize = 0;
        while i < pieces.len()
            invariant
                i <= pieces@.len(),
                pieces@.len() == ps.len(),
                ps == split_seq(p@, ':'),
                p@ == pattern@,
                pattern@.len() > 0,
                star@ == "*"@,
                forall|k: int| 0 <= k < pieces@.len() ==> (#[trigger] pieces@[k])@ == split_piece(p@, ':', k),
                segment_views(segments@) == pattern_segments(pattern@).subrange(0, i as int),
            decreases pieces.len() - i,
        {
            assert(ps[i as int] == pieces@[i as int]@);
            let ghost before = segments@;
            let seg = if chars_eq(pieces[i].as_slice(), star.as_slice()) {
                PatternSegment::Wildcard
            } else {
                PatternSegment::Literal(string_of(pieces[i].as_slice()))
            };
            assert(segment_view(seg) == pattern_segments(pattern@)[i as int]);
            segments.push(seg);
            assert(segment_views(segments@) =~= segment_views(before).push(segment_view(seg)));
            i += 1;
            assert(segment_views(segments@) =~= pattern_segments(pattern@).subrange(0, i as int));
        }
        assert(pattern_segments(pattern@).subrange(0, pieces@.len() as int) =~= pattern_segments(pattern@));
        ChannelPattern { raw: pattern.to_owned(), segments }
    }

    /// Test whether a concrete channel name matches this pattern (see
    /// [`pattern_matches`]).
    pub fn matches(&self, channel: &str) -> (r: bool)
        ensures
            r == pattern_matches(segment_views(self.segments@), channel@),
    {
        let c = chars_of(channel);
        let parts = split_on(&c, ':');
        let ghost ps = split_seq(c@, ':');
        let ghost pat = segment_views(self.segments@);
        proof {
            crate::text::lemma_char_positions(c@, ':');
        }
        let n = self.segments.len();
        if n == 0 {
            return false;
        }
        let mut i: usize = 0;
        while i < n && i < parts.len()
            invariant
                i <= n,
                n == self.segments@.len(),
                n > 0,
                parts@.len() == ps.len(),
                ps == split_seq(c@, ':'),
                c@ == channel@,
                pat == segment_views(self.segments@),
                forall|k: int| 0 <= k < parts@.len() ==> (#[trigger] parts@[k])@ == split_piece(c@, ':', k),
                forall|k: int| 0 <= k < i ==> segment_accepts(#[trigger] pat[k], ps[k]),
                i == n ==> !(pat[n - 1] is Wildcard),
            decreases n - i,
        {
            assert(ps[i as int] == parts@[i as int]@);
            match &self.segments[i] {
                PatternSegment::Literal(lit) => {
                    if !chars_eq(chars_of(lit.as_str()).as_slice(), parts[i].as_slice()) {
                        proof {
                            if pattern_matches(pat, channel@) {
                                if i < n - 1 {
                                    assert(segment_accepts(pat[i as int], ps[i as int]));
                                } else {
                                    assert(pat.last() == pat[i as int]);
                                }
                            }
                        }
                        return false;
                    }
                },
                PatternSegment::Wildcard => {
                    if i == n - 1 {
                        proof {
                            assert(pat.last() == pat[i as int]);
                            assert forall|k: int| 0 <= k < pat.len() - 1 && k < ps.len() implies segment_accepts(
                                #[trigger] pat[k],
                                ps[k],
                            ) by {}
                        }
                        return true;
                    }
                },
            }
            i += 1;
        }
        proof {
            if i == n && i == parts@.len() {
                assert(pat.last() == pat[n - 1]);
            }
            if pattern_matches(pat, channel@) {
                if i < n {
                    // the channel ran out of parts before the pattern did
                    assert(parts@.len() < n);
                }
            }
        }
        i == n && i == parts.len()
    }
}

/// Every non-empty channel matches the pattern it is written as.
pub proof fn lemma_pattern_matches_itself(c: Seq<char>)
    requires
        c.len() > 0,
    ensures
        pattern_matches(pattern_segments(c), c),
{
    crate::text::lemma_char_positions(c, ':');
    let pat = pattern_segments(c);
    let ps = split_seq(c, ':');
    assert forall|i: int| 0 <= i < pat.len() - 1 && i < ps.len() implies segment_accepts(#[trigger] pat[i], ps[i]) by {}
    assert(pat.last() == pat[pat.len() - 1]);
}

// ── Events ─────────────────────────────────────────────────────────

/// An event emitted to pub/sub subscribers.
#[derive(Debug, Clone)]
pub struct PubSubEvent {
    /// The concrete channel this event was published on.
    pub channel: String,
    /// The event kind (e.g., `updated`, `deleted`).
    pub event: String,
    /// Entity type, if applicable.
    pub entity_type: Option<String>,
    /// Entity ID, if applicable.
    pub entity_id: Option<String>,
    /// Attribute names that changed.
    pub changed: Vec<String>,
    /// Transaction ID of the mutation that triggered this event.
    pub tx_id: i64,
    /// Custom payload for user-published events.
    pub payload: Option<JsonValue>,
}

pub struct PubSubEventView {
    pub channel: Seq<char>,
    pub event: Seq<char>,
    pub entity_type: Option<Seq<char>>,
    pub entity_id: Option<Seq<char>>,
    pub changed: Seq<Seq<char>>,
    pub tx_id: i64,
    pub payload: Option<JsonView>,
}

pub open spec fn strings_view(v: Seq<String>) -> Seq<Seq<char>> {
    Seq::new(v.len(), |i: int| v[i]@)
}

impl View for PubSubEvent {
    type V = PubSubEventView;

    open spec fn view(&self) -> PubSubEventView {
        PubSubEventView {
            channel: self.channel@,
            event: self.event@,
            entity_type: opt_str_view(self.entity_type),
            entity_id: opt_str_view(self.entity_id),
            changed: strings_view(self.changed@),
            tx_id: self.tx_id,
            payload: opt_json_view(self.payload),
        }
    }
}

fn clone_event(e: &PubSubEvent) -> (r: PubSubEvent)
    ensures
        r@ == e@,
{
    let changed = clone_strings(&e.changed);
    assert(strings_view(changed@) =~= strings_view(e.changed@));
    PubSubEvent {
        channel: crate::json::clone_string(&e.channel),
        event: crate::json::clone_string(&e.event),
        entity_type: clone_opt_string(&e.entity_type),
        entity_id: clone_opt_string(&e.entity_id),
        changed,
        tx_id: e.tx_id,
        payload: clone_opt_json(&e.payload),
    }
}

/// The kind of a change: `deleted` for transaction 0, `updated` otherwise.
pub open spec fn event_kind(tx_id: i64) -> Seq<char> {
    if tx_id == 0 {
        "deleted"@
    } else {
        "updated"@
    }
}

/// The channels a change event is published on, with their events, in
/// order: with an entity type `T`, `entity:T:<id>` for each entity id and
/// then `entity:T`; always `mutation:<kind>` last.
pub open spec fn change_channels(e: ChangeEvent) -> Seq<(Seq<char>, PubSubEventView)> {
    let kind = event_kind(e.tx_id);
    let changed = strings_view(e.attributes@);
    let entity_part: Seq<(Seq<char>, PubSubEventView)> = match e.entity_type {
        Some(t) => Seq::new(
            e.entity_ids@.len(),
            |k: int|
                {
                    let ch = "entity:"@ + t@ + ":"@ + e.entity_ids@[k]@;
                    (
                        ch,
                        PubSubEventView {
                            channel: ch,
                            event: kind,
                            entity_type: Some(t@),
                            entity_id: Some(e.entity_ids@[k]@),
                            changed,
                            tx_id: e.tx_id,
                            payload: None,
                        },
                    )
                },
        ).push(
            (
                "entity:"@ + t@,
                PubSubEventView {
                    channel: "entity:"@ + t@,
                    event: kind,
                    entity_type: Some(t@),
                    entity_id: None,
                    changed,
                    tx_id: e.tx_id,
                    payload: None,
                },
            ),
        ),
        None => Seq::empty(),
    };
    let mc = "mutation:"@ + kind;
    entity_part.push(
        (
            mc,
            PubSubEventView {
                channel: mc,
                event: kind,
                entity_type: opt_str_view(e.entity_type),
                entity_id: None,
                changed,
                tx_id: e.tx_id,
                payload: None,
            },
        ),
    )
}

pub open spec fn channel_views(v: Seq<(String, PubSubEvent)>) -> Seq<(Seq<char>, PubSubEventView)> {
    Seq::new(v.len(), |i: int| (v[i].0@, v[i].1@))
}

fn kind_text(tx_id: i64) -> (r: String)
    ensures
        r@ == event_kind(tx_id),
{
    if tx_id == 0 {
        "deleted".to_owned()
    } else {
        "updated".to_owned()
    }
}

fn concat(parts: &Vec<&str>) -> (r: String)
    ensures
        r@ == parts@.fold_left(Seq::<char>::empty(), |acc: Seq<char>, p: &str| acc + p@),
{
    let mut v: Vec<char> = Vec::new();
    let mut i: usize = 0;
    while i < parts.len()
        invariant
            i <= parts@.len(),
            v@ == parts@.subrange(0, i as int).fold_left(Seq::<char>::empty(), |acc: Seq<char>, p: &str| acc + p@),
        decreases parts.len() - i,
    {
        push_str_chars(&mut v, parts[i]);
        proof {
            let f = |acc: Seq<char>, p: &str| acc + p@;
            assert(parts@.subrange(0, i + 1).drop_last() =~= parts@.subrange(0, i as int));
            parts@.subrange(0, i + 1).lemma_fold_left_split(Seq::<char>::empty(), f, i as int);
        }
        i += 1;
    }
    assert(parts@.subrange(0, parts@.len() as int) =~= parts@);
    string_of(v.as_slice())
}

/// Converts a change event into its channels and events (see
/// [`change_channels`]).
pub fn change_event_to_channels(event: &ChangeEvent) -> (r: Vec<(String, PubSubEvent)>)
    ensures
        channel_views(r@) == change_channels(*event),
{
    let mut channels: Vec<(String, PubSubEvent)> = Vec::new();
    let ghost kind = event_kind(event.tx_id);
    let ghost changed = strings_view(event.attributes@);
    match &event.entity_type {
        Some(t) => {
            let mut k: usize = 0;
            while k < event.entity_ids.len()
                invariant
                    k <= event.entity_ids@.len(),
                    event.entity_type == Some(*t),
                    kind == event_kind(event.tx_id),
                    changed == strings_view(event.attributes@),
                    channel_views(channels@) == Seq::new(
                        k as nat,
                        |j: int|
                            {
                                let ch = "entity:"@ + t@ + ":"@ + event.entity_ids@[j]@;
                                (
                                    ch,
                                    PubSubEventView {
                                        channel: ch,
                                        event: kind,
                                        entity_type: Some(t@),
                                        entity_id: Some(event.entity_ids@[j]@),
                                        changed,
                                        tx_id: event.tx_id,
                                        payload: None,
                                    },
                                )
                            },
                    ),
                decreases event.entity_ids.len() - k,
            {
                let mut ch = chars_of("entity:");
                push_str_chars(&mut ch, t.as_str());
                push_str_chars(&mut ch, ":");
                push_str_chars(&mut ch, event.entity_ids[k].as_str());
                let attrs = clone_strings(&event.attributes);
                assert(strings_view(attrs@) =~= changed);
                let ev = PubSubEvent {
                    channel: string_of(ch.as_slice()),
                    event: kind_text(event.tx_id),
                    entity_type: Some(crate::json::clone_string(t)),
                    entity_id: Some(crate::json::clone_string(&event.entity_ids[k])),
                    changed: attrs,
                    tx_id: event.tx_id,
                    payload: None,
                };
                let ghost before = channel_views(channels@);
                let ghost evv = ev@;
                let ghost chv = ch@;
                assert(chv == "entity:"@ + t@ + ":"@ + event.entity_ids@[k as int]@);
                channels.push((string_of(ch.as_slice()), ev));
                assert(channel_views(channels@) =~= before.push((chv, evv)));
                k += 1;
                assert(channel_views(channels@) =~= Seq::new(
                    k as nat,
                    |j: int|
                        {
                            let ch = "entity:"@ + t@ + ":"@ + event.entity_ids@[j]@;
                            (
                                ch,
                                PubSubEventView {
                                    channel: ch,
                                    event: kind,
                                    entity_type: Some(t@),
                                    entity_id: Some(event.entity_ids@[j]@),
                                    changed,
                                    tx_id: event.tx_id,
                                    payload: None,
                                },
                            )
                        },
                ));
            }
            let mut ch = chars_of("entity:");
            push_str_chars(&mut ch, t.as_str());
            let attrs = clone_strings(&event.attributes);
            assert(strings_view(attrs@) =~= changed);
            let ev = PubSubEvent {
                channel: string_of(ch.as_slice()),
                event: kind_text(event.tx_id),
                entity_type: Some(crate::json::clone_string(t)),
                entity_id: None,
                changed: attrs,
                tx_id: event.tx_id,
                payload: None,
            };
            channels.push((string_of(ch.as_slice()), ev));
        },
        None => {},
    }
    let ghost mid = channel_views(channels@);
    let mut mc = chars_of("mutation:");
    let kt = kind_text(event.tx_id);
    push_str_chars(&mut mc, kt.as_str());
    let attrs = clone_strings(&event.attributes);
    assert(strings_view(attrs@) =~= changed);
    let ev = PubSubEvent {
        channel: string_of(mc.as_slice()),
        event: kind_text(event.tx_id),
        entity_type: clone_opt_string(&event.entity_type),
        entity_id: None,
        changed: attrs,
        tx_id: event.tx_id,
        payload: None,
    };
    channels.push((string_of(mc.as_slice()), ev));
    assert(channel_views(channels@) =~= change_channels(*event));
    channels
}

/// Whether an event on `channel` is also broadcast to stream consumers:
/// entity and mutation channels are.
pub open spec fn is_broadcast_channel(channel: Seq<char>) -> bool {
    has_prefix(channel, "entity:"@) || has_prefix(channel, "mutation:"@)
}

/// The events among `cv` that are broadcast to stream consumers, in order.
pub open spec fn broadcast_of(cv: Seq<(Seq<char>, PubSubEventView)>) -> Seq<PubSubEventView>
    decreases cv.len(),
{
    if cv.len() == 0 {
        Seq::empty()
    } else {
        let r = broadcast_of(cv.drop_last());
        if is_broadcast_channel(cv.last().0) {
            r.push(cv.last().1)
        } else {
            r
        }
    }
}

/// The events of a change that are broadcast to stream consumers, in
/// order.
pub fn broadcast_events(channels: &Vec<(String, PubSubEvent)>) -> (r: Vec<PubSubEvent>)
    ensures
        Seq::new(r@.len(), |i: int| r@[i]@) == broadcast_of(channel_views(channels@)),
{
    let ghost cv = channel_views(channels@);
    let mut out: Vec<PubSubEvent> = Vec::new();
    let e1 = chars_of("entity:");
    let e2 = chars_of("mutation:");
    let mut i: usize = 0;
    while i < channels.len()
        invariant
            i <= channels@.len(),
            cv == channel_views(channels@),
            e1@ == "entity:"@,
            e2@ == "mutation:"@,
            Seq::new(out@.len(), |k: int| out@[k]@) == broadcast_of(cv.subrange(0, i as int)),
        decreases channels.len() - i,
    {
        let c = chars_of(channels[i].0.as_str());
        proof {
            let s1 = cv.subrange(0, i + 1);
            assert(s1.drop_last() =~= cv.subrange(0, i as int));
            assert(s1.last() == cv[i as int]);
        }
        if starts_with(c.as_slice(), e1.as_slice()) || starts_with(c.as_slice(), e2.as_slice()) {
            out.push(clone_event(&channels[i].1));
        }
        assert(Seq::new(out@.len(), |k: int| out@[k]@) =~= broadcast_of(cv.subrange(0, i + 1)));
        i += 1;
    }
    assert(cv.subrange(0, channels@.len() as int) =~= cv);
    out
}

/// A copy of a pattern.
pub fn clone_pattern(p: &ChannelPattern) -> (r: ChannelPattern)
    ensures
        r.raw@ == p.raw@,
        segment_views(r.segments@) == segment_views(p.segments@),
{
    let mut segs: Vec<PatternSegment> = Vec::new();
    let mut i: usize = 0;
    while i < p.segments.len()
        invariant
            i <= p.segments@.len(),
            segment_views(segs@) == segment_views(p.segments@).subrange(0, i as int),
        decreases p.segments.len() - i,
    {
        let s = match &p.segments[i] {
            PatternSegment::Literal(l) => PatternSegment::Literal(crate::json::clone_string(l)),
            PatternSegment::Wildcard => PatternSegment::Wildcard,
        };
        let ghost before = segs@;
        segs.push(s);
        assert(segment_views(segs@) =~= segment_views(before).push(segment_view(p.segments@[i as int])));
        i += 1;
        assert(segment_views(segs@) =~= segment_views(p.segments@).subrange(0, i as int));
    }
    assert(segment_views(p.segments@).subrange(0, p.segments@.len() as int) =~= segment_views(p.segments@));
    ChannelPattern { raw: crate::json::clone_string(&p.raw), segments: segs }
}

// ── Subscriptions ──────────────────────────────────────────────────

/// A single pub/sub subscription.
#[derive(Debug, Clone)]
pub struct Subscription {
    /// Subscriber-chosen ID for this subscription.
    pub id: String,
    /// The channel pattern being subscribed to.
    pub pattern: ChannelPattern,
    /// Opaque subscriber key (e.g., session ID or SSE connection ID).
    pub subscriber: String,
}

/// The active subscriptions, one per `(subscriber, id)` key.
#[derive(Debug, Clone)]
pub struct SubscriptionTable {
    pub subscriptions: Vec<Subscription>,
}

/// Position of the subscription under `(subscriber, id)`, if any.
pub open spec fn sub_pos(v: Seq<Subscription>, subscriber: Seq<char>, id: Seq<char>) -> Option<int> {
    if exists|i: int| 0 <= i < v.len() && v[i].subscriber@ == subscriber && v[i].id@ == id {
        Some(choose|i: int| 0 <= i < v.len() && v[i].subscriber@ == subscriber && v[i].id@ == id)
    } else {
        None
    }
}

pub open spec fn sub_keys_distinct(v: Seq<Subscription>) -> bool {
    forall|i: int, j: int|
        0 <= i < j < v.len() ==> !(v[i].subscriber@ == v[j].subscriber@ && v[i].id@ == v[j].id@)
}

/// The subscriptions of `v` not held by `subscriber`, in order.
pub open spec fn without_subscriber(v: Seq<Subscription>, subscriber: Seq<char>) -> Seq<Subscription>
    decreases v.len(),
{
    if v.len() == 0 {
        Seq::empty()
    } else {
        let r = without_subscriber(v.drop_last(), subscriber);
        if v.last().subscriber@ == subscriber {
            r
        } else {
            r.push(v.last())
        }
    }
}

/// `(id, pattern text)` of the subscriptions of `subscriber`, in order.
pub open spec fn listed(v: Seq<Subscription>, subscriber: Seq<char>) -> Seq<(Seq<char>, Seq<char>)>
    decreases v.len(),
{
    if v.len() == 0 {
        Seq::empty()
    } else {
        let r = listed(v.drop_last(), subscriber);
        if v.last().subscriber@ == subscriber {
            r.push((v.last().id@, v.last().pattern.raw@))
        } else {
            r
        }
    }
}

/// The first of `channels` that `pat` matches, if any.
pub open spec fn first_match(pat: Seq<SegmentView>, channels: Seq<(Seq<char>, PubSubEventView)>) -> Option<int> {
    if exists|k: int| 0 <= k < channels.len() && pattern_matches(pat, #[trigger] channels[k].0) {
        Some(
            choose|k: int|
                0 <= k < channels.len() && pattern_matches(pat, #[trigger] channels[k].0) && forall|j: int|
                    0 <= j < k ==> !pattern_matches(pat, #[trigger] channels[j].0),
        )
    } else {
        None
    }
}

/// For each subscription in order whose pattern matches one of the
/// channels, its subscriber, its id, and the event of the first channel
/// it matches.
pub open spec fn matched(v: Seq<Subscription>, channels: Seq<(Seq<char>, PubSubEventView)>) -> Seq<
    (Seq<char>, Seq<char>, PubSubEventView),
>
    decreases v.len(),
{
    if v.len() == 0 {
        Seq::empty()
    } else {
        let r = matched(v.drop_last(), channels);
        let s = v.last();
        match first_match(segment_views(s.pattern.segments@), channels) {
            Some(k) => r.push((s.subscriber@, s.id@, channels[k].1)),
            None => r,
        }
    }
}

impl SubscriptionTable {
    /// No two subscriptions share a key.
    pub open spec fn wf(&self) -> bool {
        sub_keys_distinct(self.subscriptions@)
    }

    /// An empty table.
    pub fn new() -> (r: SubscriptionTable)
        ensures
            r.wf(),
            r.subscriptions@.len() == 0,
    {
        SubscriptionTable { subscriptions: Vec::new() }
    }

    fn find(&self, subscriber: &Vec<char>, id: &Vec<char>) -> (r: Option<usize>)
        requires
            self.wf(),
        ensures
            match r {
                Some(i) => sub_pos(self.subscriptions@, subscriber@, id@) == Some(i as int) && i
                    < self.subscriptions@.len(),
                None => sub_pos(self.subscriptions@, subscriber@, id@) is None,
            },
    {
        let ghost v = self.subscriptions@;
        let mut i: usize = 0;
        while i < self.subscriptions.len()
            invariant
                i <= v.len(),
                v == self.subscriptions@,
                sub_keys_distinct(v),
                forall|j: int| 0 <= j < i ==> !(v[j].subscriber@ == subscriber@ && v[j].id@ == id@),
            decreases self.subscriptions.len() - i,
        {
            let s = &self.subscriptions[i];
            if chars_eq(chars_of(s.subscriber.as_str()).as_slice(), subscriber.as_slice()) && chars_eq(
                chars_of(s.id.as_str()).as_slice(),
                id.as_slice(),
            ) {
                proof {
                    let w = choose|j: int| 0 <= j < v.len() && v[j].subscriber@ == subscriber@ && v[j].id@ == id@;
                    if w > i {
                        assert(!(v[i as int].subscriber@ == v[w].subscriber@ && v[i as int].id@ == v[w].id@));
                    }
                }
                return Some(i);
            }
            i += 1;
        }
        None
    }

    /// Subscribe `(subscriber, id)` to a channel pattern, replacing a
    /// subscription under the same key; returns the parsed pattern.
    pub fn subscribe(&mut self, subscriber: &str, id: &str, channel: &str) -> (r: ChannelPattern)
        requires
            old(self).wf(),
        ensures
            final(self).wf(),
            r.raw@ == channel@,
            segment_views(r.segments@) == pattern_segments(channel@),
            sub_pos(final(self).subscriptions@, subscriber@, id@) matches Some(i) && ({
                let s = final(self).subscriptions@[i];
                s.pattern.raw@ == channel@ && segment_views(s.pattern.segments@) == pattern_segments(channel@)
            }),
            match sub_pos(old(self).subscriptions@, subscriber@, id@) {
                Some(i) => final(self).subscriptions@ == old(self).subscriptions@.update(
                    i,
                    final(self).subscriptions@[i],
                ),
                None => final(self).subscriptions@ == old(self).subscriptions@.push(final(self).subscriptions@.last()),
            },
    {
        let pattern = ChannelPattern::parse(channel);
        let sub = Subscription { id: id.to_owned(), pattern: clone_pattern(&pattern), subscriber: subscriber.to_owned() };
        let sk = chars_of(subscriber);
        let ik = chars_of(id);
        match self.find(&sk, &ik) {
            Some(i) => {
                self.subscriptions.set(i, sub);
                proof {
                    assert forall|p: int, q: int| 0 <= p < q < self.subscriptions@.len() implies !(
                    self.subscriptions@[p].subscriber@ == self.subscriptions@[q].subscriber@
                        && self.subscriptions@[p].id@ == self.subscriptions@[q].id@) by {
                        assert(!(old(self).subscriptions@[p].subscriber@ == old(self).subscriptions@[q].subscriber@
                            && old(self).subscriptions@[p].id@ == old(self).subscriptions@[q].id@));
                    }
                    assert(self.subscriptions@[i as int].subscriber@ == subscriber@);
                }
            },
            None => {
                proof {
                    assert forall|p: int| 0 <= p < self.subscriptions@.len() implies !(
                    self.subscriptions@[p].subscriber@ == subscriber@ && self.subscriptions@[p].id@ == id@) by {
                        if self.subscriptions@[p].subscriber@ == subscriber@ && self.subscriptions@[p].id@ == id@ {
                            assert(sub_pos(self.subscriptions@, subscriber@, id@) is Some);
                        }
                    }
                }
                self.subscriptions.push(sub);
                proof {
                    let n = self.subscriptions@.len() - 1;
                    assert(self.subscriptions@[n].subscriber@ == subscriber@);
                }
            },
        }
        proof {
            let v = self.subscriptions@;
            assert(sub_keys_distinct(v));
            let j = choose|j: int| 0 <= j < v.len() && v[j].subscriber@ == subscriber@ && v[j].id@ == id@;
            let w = sub_pos(v, subscriber@, id@)->0;
            if w != j {
                if w < j {
                    assert(!(v[w].subscriber@ == v[j].subscriber@ && v[w].id@ == v[j].id@));
                } else {
                    assert(!(v[j].subscriber@ == v[w].subscriber@ && v[j].id@ == v[w].id@));
                }
            }
        }
        pattern
    }
}

impl SubscriptionTable {
    /// Remove the subscription under `(subscriber, id)`: `true` when it
    /// existed.
    pub fn unsubscribe(&mut self, subscriber: &str, id: &str) -> (r: bool)
        requires
            old(self).wf(),
        ensures
            final(self).wf(),
            r <==> sub_pos(old(self).subscriptions@, subscriber@, id@) is Some,
            match sub_pos(old(self).subscriptions@, subscriber@, id@) {
                Some(i) => final(self).subscriptions@ == old(self).subscriptions@.remove(i),
                None => final(self).subscriptions@ == old(self).subscriptions@,
            },
    {
        let sk = chars_of(subscriber);
        let ik = chars_of(id);
        match self.find(&sk, &ik) {
            Some(i) => {
                let ghost before = self.subscriptions@;
                self.subscriptions.remove(i);
                proof {
                    assert forall|p: int, q: int| 0 <= p < q < self.subscriptions@.len() implies !(
                    self.subscriptions@[p].subscriber@ == self.subscriptions@[q].subscriber@
                        && self.subscriptions@[p].id@ == self.subscriptions@[q].id@) by {
                        let p0 = if p < i { p } else { p + 1 };
                        let q0 = if q < i { q } else { q + 1 };
                        assert(!(before[p0].subscriber@ == before[q0].subscriber@ && before[p0].id@ == before[q0].id@));
                    }
                }
                true
            },
            None => false,
        }
    }

    /// Remove every subscription of `subscriber`; returns how many.
    pub fn unsubscribe_all(&mut self, subscriber: &str) -> (r: usize)
        requires
            old(self).wf(),
        ensures
            final(self).wf(),
            final(self).subscriptions@ == without_subscriber(old(self).subscriptions@, subscriber@),
            r == old(self).subscriptions@.len() - final(self).subscriptions@.len(),
    {
        let sk = chars_of(subscriber);
        let ghost v = self.subscriptions@;
        let ghost mut idx: Seq<int> = Seq::empty();
        let mut kept: Vec<Subscription> = Vec::new();
        let mut removed: usize = 0;
        let n = self.subscriptions.len();
        let mut all = Vec::new();
        std::mem::swap(&mut all, &mut self.subscriptions);
        let mut i: usize = 0;
        while i < n
            invariant
                i <= n == v.len(),
                all@.len() == n,
                forall|j: int| i <= j < n ==> #[trigger] all@[j] == v[j],
                kept@ == without_subscriber(v.subrange(0, i as int), sk@),
                sk@ == subscriber@,
                removed + kept@.len() == i,
                sub_keys_distinct(v),
                idx.len() == kept@.len(),
                forall|p: int| 0 <= p < idx.len() ==> 0 <= #[trigger] idx[p] < i && kept@[p] == v[idx[p]],
                forall|p: int, q: int| 0 <= p < q < idx.len() ==> #[trigger] idx[p] < #[trigger] idx[q],
            decreases n - i,
        {
            let mut s = Subscription {
                id: String::new(),
                pattern: ChannelPattern { raw: String::new(), segments: Vec::new() },
                subscriber: String::new(),
            };
            std::mem::swap(&mut s, &mut all[i]);
            proof {
                assert(s == v[i as int]);
                assert(v.subrange(0, i + 1).drop_last() =~= v.subrange(0, i as int));
                assert(v.subrange(0, i + 1).last() == v[i as int]);
            }
            if chars_eq(chars_of(s.subscriber.as_str()).as_slice(), sk.as_slice()) {
                removed += 1;
            } else {
                kept.push(s);
                proof {
                    idx = idx.push(i as int);
                }
            }
            i += 1;
        }
        assert(v.subrange(0, n as int) =~= v);
        proof {
            assert forall|p: int, q: int| 0 <= p < q < kept@.len() implies !(kept@[p].subscriber@
                == kept@[q].subscriber@ && kept@[p].id@ == kept@[q].id@) by {
                assert(idx[p] < idx[q]);
                assert(kept@[p] == v[idx[p]] && kept@[q] == v[idx[q]]);
            }
        }
        self.subscriptions = kept;
        removed
    }

    /// The number of active subscriptions.
    pub fn subscription_count(&self) -> (r: usize)
        ensures
            r == self.subscriptions@.len(),
    {
        self.subscriptions.len()
    }

    /// `(id, pattern)` of the subscriptions of `subscriber`, in order.
    pub fn list_subscriptions(&self, subscriber: &str) -> (r: Vec<(String, String)>)
        ensures
            Seq::new(r@.len(), |i: int| (r@[i].0@, r@[i].1@)) == listed(self.subscriptions@, subscriber@),
    {
        let sk = chars_of(subscriber);
        let ghost v = self.subscriptions@;
        let mut out: Vec<(String, String)> = Vec::new();
        let mut i: usize = 0;
        while i < self.subscriptions.len()
            invariant
                i <= v.len(),
                v == self.subscriptions@,
                sk@ == subscriber@,
                Seq::new(out@.len(), |k: int| (out@[k].0@, out@[k].1@)) == listed(v.subrange(0, i as int), sk@),
            decreases self.subscriptions.len() - i,
        {
            let s = &self.subscriptions[i];
            assert(v.subrange(0, i + 1).drop_last() =~= v.subrange(0, i as int));
            if chars_eq(chars_of(s.subscriber.as_str()).as_slice(), sk.as_slice()) {
                out.push((crate::json::clone_string(&s.id), crate::json::clone_string(&s.pattern.raw)));
            }
            assert(Seq::new(out@.len(), |k: int| (out@[k].0@, out@[k].1@)) =~= listed(v.subrange(0, i + 1), sk@));
            i += 1;
        }
        assert(v.subrange(0, v.len() as int) =~= v);
        out
    }

    /// The subscriptions a change event reaches: for each, the subscriber,
    /// the id, and the event of the first of the event's channels its
    /// pattern matches (one event per subscription).
    pub fn matches_for(&self, event: &ChangeEvent) -> (r: Vec<(String, String, PubSubEvent)>)
        ensures
            Seq::new(r@.len(), |i: int| (r@[i].0@, r@[i].1@, r@[i].2@)) == matched(
                self.subscriptions@,
                change_channels(*event),
            ),
    {
        let channels = change_event_to_channels(event);
        let ghost cv = channel_views(channels@);
        let ghost v = self.subscriptions@;
        let mut out: Vec<(String, String, PubSubEvent)> = Vec::new();
        let mut i: usize = 0;
        while i < self.subscriptions.len()
            invariant
                i <= v.len(),
                v == self.subscriptions@,
                cv == channel_views(channels@),
                cv == change_channels(*event),
                Seq::new(out@.len(), |k: int| (out@[k].0@, out@[k].1@, out@[k].2@)) == matched(
                    v.subrange(0, i as int),
                    cv,
                ),
            decreases self.subscriptions.len() - i,
        {
            let s = &self.subscriptions[i];
            let ghost pat = segment_views(s.pattern.segments@);
            assert(v.subrange(0, i + 1).drop_last() =~= v.subrange(0, i as int));
            assert(v.subrange(0, i + 1).last() == v[i as int]);
            let mut k: usize = 0;
            let mut found = false;
            while k < channels.len() && !found
                invariant
                    k <= channels@.len(),
                    cv == channel_views(channels@),
                    pat == segment_views(s.pattern.segments@),
                    !found ==> forall|j: int| 0 <= j < k ==> !pattern_matches(pat, #[trigger] cv[j].0),
                    found ==> k > 0 && first_match(pat, cv) == Some(k - 1),
                decreases channels.len() - k,
            {
                assert(cv[k as int].0 == channels@[k as int].0@);
                if s.pattern.matches(channels[k].0.as_str()) {
                    found = true;
                    proof {
                        let w = choose|w: int|
                            0 <= w < cv.len() && pattern_matches(pat, #[trigger] cv[w].0) && forall|j: int|
                                0 <= j < w ==> !pattern_matches(pat, #[trigger] cv[j].0);
                        if w < k {
                        } else if w > k {
                            assert(!pattern_matches(pat, cv[k as int].0));
                        }
                    }
                }
                k += 1;
            }
            if found {
                let ghost before = out@;
                let ev = clone_event(&channels[k - 1].1);
                out.push((crate::json::clone_string(&s.subscriber), crate::json::clone_string(&s.id), ev));
                proof {
                    assert(cv[k - 1].1 == channels@[k - 1].1@);
                }
            }
            assert(Seq::new(out@.len(), |m: int| (out@[m].0@, out@[m].1@, out@[m].2@)) =~= matched(
                v.subrange(0, i + 1),
                cv,
            ));
            i += 1;
        }
        assert(v.subrange(0, v.len() as int) =~= v);
        out
    }
}

} // verus!
