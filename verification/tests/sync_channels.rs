use darshjdb_core::sync::change_feed::{ChangeFeed, ChangeFeedConfig, Cursor};
use darshjdb_core::sync::pubsub::{
    broadcast_events, change_event_to_channels, ChannelPattern, SubscriptionTable,
};
use darshjdb_core::sync::ChangeEvent;

// ── Channel patterns ────────────────────────────────────────────────

#[test]
fn exact_channel_match() {
    let p = ChannelPattern::parse("entity:users:abc-123");
    assert!(p.matches("entity:users:abc-123"));
    assert!(!p.matches("entity:users:def-456"));
    assert!(!p.matches("entity:posts:abc-123"));
}

#[test]
fn trailing_wildcard_matches_one() {
    let p = ChannelPattern::parse("entity:users:*");
    assert!(p.matches("entity:users:abc-123"));
    assert!(p.matches("entity:users:def-456"));
    assert!(!p.matches("entity:posts:abc-123"));
    assert!(!p.matches("entity:users"));
}

#[test]
fn trailing_wildcard_matches_multiple() {
    let p = ChannelPattern::parse("entity:*");
    assert!(p.matches("entity:users"));
    assert!(p.matches("entity:users:abc-123"));
    assert!(p.matches("entity:posts:def:nested"));
    assert!(!p.matches("mutation:insert"));
}

#[test]
fn middle_wildcard_matches_one_segment() {
    let p = ChannelPattern::parse("entity:*:abc-123");
    assert!(p.matches("entity:users:abc-123"));
    assert!(p.matches("entity:posts:abc-123"));
    assert!(!p.matches("entity:users:def-456"));
}

#[test]
fn all_wildcard() {
    let p = ChannelPattern::parse("*");
    assert!(p.matches("anything"));
    assert!(p.matches("entity:users:abc"));
    assert!(p.matches("mutation:insert"));
}

#[test]
fn mutation_channel() {
    let p = ChannelPattern::parse("mutation:*");
    assert!(p.matches("mutation:insert"));
    assert!(p.matches("mutation:delete"));
    assert!(!p.matches("entity:users:abc"));
}

#[test]
fn auth_channel() {
    let p = ChannelPattern::parse("auth:*");
    assert!(p.matches("auth:signup"));
    assert!(p.matches("auth:signin"));
    assert!(p.matches("auth:signout"));
    assert!(!p.matches("entity:users:abc"));
}

#[test]
fn empty_pattern_matches_nothing() {
    let p = ChannelPattern::parse("");
    assert!(!p.matches("anything"));
}

#[test]
fn pattern_keeps_raw_text() {
    let p = ChannelPattern::parse("entity:*:x");
    assert_eq!(p.raw, "entity:*:x");
    assert_eq!(p.segments.len(), 3);
}

// ── Subscriptions ───────────────────────────────────────────────────

fn change(tx_id: i64, ids: &[&str], attrs: &[&str], entity_type: Option<&str>) -> ChangeEvent {
    ChangeEvent {
        tx_id,
        entity_ids: ids.iter().map(|s| s.to_string()).collect(),
        attributes: attrs.iter().map(|s| s.to_string()).collect(),
        entity_type: entity_type.map(|s| s.to_string()),
        actor_id: None,
    }
}

#[test]
fn subscribe_and_unsubscribe() {
    let mut engine = SubscriptionTable::new();
    engine.subscribe("session-1", "ps-1", "entity:users:*");
    assert_eq!(engine.subscription_count(), 1);

    assert!(engine.unsubscribe("session-1", "ps-1"));
    assert_eq!(engine.subscription_count(), 0);
}

#[test]
fn unsubscribe_nonexistent_returns_false() {
    let mut engine = SubscriptionTable::new();
    assert!(!engine.unsubscribe("session-1", "ps-1"));
}

#[test]
fn unsubscribe_all_cleans_up() {
    let mut engine = SubscriptionTable::new();
    engine.subscribe("session-1", "ps-1", "entity:users:*");
    engine.subscribe("session-1", "ps-2", "entity:posts:*");
    engine.subscribe("session-2", "ps-1", "mutation:*");

    let removed = engine.unsubscribe_all("session-1");
    assert_eq!(removed, 2);
    assert_eq!(engine.subscription_count(), 1);
}

#[test]
fn list_subscriptions_for_subscriber() {
    let mut engine = SubscriptionTable::new();
    engine.subscribe("session-1", "ps-1", "entity:users:*");
    engine.subscribe("session-1", "ps-2", "auth:*");
    engine.subscribe("session-2", "ps-1", "mutation:*");

    let subs = engine.list_subscriptions("session-1");
    assert_eq!(subs.len(), 2);
    assert!(subs.contains(&("ps-1".to_string(), "entity:users:*".to_string())));
    assert!(subs.contains(&("ps-2".to_string(), "auth:*".to_string())));
}

#[test]
fn resubscribe_same_id_replaces_pattern() {
    let mut engine = SubscriptionTable::new();
    engine.subscribe("s", "ps-1", "entity:users:*");
    engine.subscribe("s", "ps-1", "auth:*");
    assert_eq!(engine.subscription_count(), 1);
    assert_eq!(
        engine.list_subscriptions("s"),
        vec![("ps-1".to_string(), "auth:*".to_string())]
    );
}

#[test]
fn process_change_event_matches_entity_subscription() {
    let mut engine = SubscriptionTable::new();
    engine.subscribe("session-1", "ps-1", "entity:users:*");
    engine.subscribe("session-2", "ps-2", "entity:posts:*");

    let mut event = change(42, &["uuid-1"], &["name", "email"], Some("users"));
    event.actor_id = Some("actor-1".to_string());

    let matches = engine.matches_for(&event);
    let session_1: Vec<_> = matches.iter().filter(|(sub, _, _)| sub == "session-1").collect();
    let session_2: Vec<_> = matches.iter().filter(|(sub, _, _)| sub == "session-2").collect();

    assert!(!session_1.is_empty(), "session-1 should match entity:users:*");
    assert!(session_2.is_empty(), "session-2 should not match entity:posts:*");
}

#[test]
fn process_change_event_matches_mutation_subscription() {
    let mut engine = SubscriptionTable::new();
    engine.subscribe("session-1", "ps-1", "mutation:*");
    let event = change(10, &["uuid-1"], &["status"], Some("orders"));
    let matches = engine.matches_for(&event);
    assert!(!matches.is_empty(), "mutation:* should match any change event");
}

#[test]
fn process_change_event_specific_entity() {
    let mut engine = SubscriptionTable::new();
    engine.subscribe("session-1", "ps-1", "entity:users:uuid-1");
    engine.subscribe("session-1", "ps-2", "entity:users:uuid-2");

    let event = change(5, &["uuid-1"], &["name"], Some("users"));
    let matches = engine.matches_for(&event);
    let ps1: Vec<_> = matches.iter().filter(|(_, id, _)| id == "ps-1").collect();
    let ps2: Vec<_> = matches.iter().filter(|(_, id, _)| id == "ps-2").collect();

    assert!(!ps1.is_empty(), "ps-1 should match entity:users:uuid-1");
    assert!(ps2.is_empty(), "ps-2 should not match entity:users:uuid-2");
}

#[test]
fn change_event_to_channels_builds_correct_channels() {
    let event = change(100, &["id-1", "id-2"], &["name"], Some("users"));
    let channels = change_event_to_channels(&event);
    let channel_names: Vec<&str> = channels.iter().map(|(c, _)| c.as_str()).collect();

    assert!(channel_names.contains(&"entity:users:id-1"));
    assert!(channel_names.contains(&"entity:users:id-2"));
    assert!(channel_names.contains(&"entity:users"));
    assert!(channel_names.contains(&"mutation:updated"));
}

#[test]
fn change_event_without_entity_type_emits_mutation_only() {
    let event = change(1, &["id-1"], &[], None);
    let channels = change_event_to_channels(&event);
    assert_eq!(channels.len(), 1);
    assert!(channels[0].0.starts_with("mutation:"));
}

#[test]
fn channel_events_carry_change_fields() {
    let event = change(7, &["e1"], &["a", "b"], Some("users"));
    let channels = change_event_to_channels(&event);
    let (name, ev) = &channels[0];
    assert_eq!(name, "entity:users:e1");
    assert_eq!(ev.channel, "entity:users:e1");
    assert_eq!(ev.entity_type.as_deref(), Some("users"));
    assert_eq!(ev.entity_id.as_deref(), Some("e1"));
    assert_eq!(ev.changed, vec!["a".to_string(), "b".to_string()]);
    assert_eq!(ev.tx_id, 7);
    assert!(ev.payload.is_none());
    let sent = broadcast_events(&channels);
    assert_eq!(sent.len(), channels.len());
}

// ── Change feed ─────────────────────────────────────────────────────

fn make_event(tx_id: i64, entity_type: &str, ids: Vec<&str>) -> ChangeEvent {
    ChangeEvent {
        tx_id,
        entity_ids: ids.into_iter().map(String::from).collect(),
        attributes: vec!["name".into()],
        entity_type: Some(entity_type.into()),
        actor_id: Some("test-user".into()),
    }
}

fn feed_with_capacity(buffer_capacity: usize) -> ChangeFeed {
    ChangeFeed::new(ChangeFeedConfig {
        buffer_capacity,
        ..Default::default()
    })
}

#[test]
fn append_and_read() {
    let mut feed = feed_with_capacity(100);
    let seq1 = feed.append(&make_event(1, "users", vec!["u1"]), "INSERT", 0, 0);
    let seq2 = feed.append(&make_event(2, "users", vec!["u2"]), "UPDATE", 0, 0);
    let seq3 = feed.append(&make_event(3, "orders", vec!["o1"]), "DELETE", 0, 0);

    assert_eq!(seq1, 1);
    assert_eq!(seq2, 2);
    assert_eq!(seq3, 3);
    assert_eq!(feed.len(), 3);
}

#[test]
fn read_after_cursor() {
    let mut feed = feed_with_capacity(100);
    for i in 1..=5 {
        feed.append(&make_event(i, "users", vec!["u1"]), "INSERT", 0, 0);
    }

    let page = feed.read_after(Cursor::zero(), 3);
    assert_eq!(page.entries.len(), 3);
    assert_eq!(page.entries[0].sequence, 1);
    assert_eq!(page.entries[2].sequence, 3);
    assert!(page.has_more);
    assert_eq!(page.next_cursor, Cursor(3));

    let page2 = feed.read_after(page.next_cursor, 10);
    assert_eq!(page2.entries.len(), 2);
    assert_eq!(page2.entries[0].sequence, 4);
    assert_eq!(page2.entries[1].sequence, 5);
    assert!(!page2.has_more);
}

#[test]
fn read_range() {
    let mut feed = feed_with_capacity(100);
    for i in 1..=10 {
        feed.append(&make_event(i, "users", vec!["u1"]), "INSERT", 0, 0);
    }
    let entries = feed.read_range(3, 7);
    assert_eq!(entries.len(), 5);
    assert_eq!(entries[0].sequence, 3);
    assert_eq!(entries[4].sequence, 7);
}

#[test]
fn buffer_capacity_eviction() {
    let mut feed = feed_with_capacity(5);
    for i in 1..=8 {
        feed.append(&make_event(i, "users", vec!["u1"]), "INSERT", 0, 0);
    }
    assert_eq!(feed.len(), 5);

    let page = feed.read_after(Cursor::zero(), 100);
    assert_eq!(page.entries.len(), 5);
    assert_eq!(page.entries[0].sequence, 4);
    assert_eq!(page.entries[4].sequence, 8);
}

#[test]
fn latest_cursor() {
    let mut feed = ChangeFeed::with_defaults();
    assert_eq!(feed.latest_cursor(), Cursor::zero());

    feed.append(&make_event(1, "users", vec!["u1"]), "INSERT", 0, 0);
    assert_eq!(feed.latest_cursor(), Cursor(1));

    feed.append(&make_event(2, "users", vec!["u2"]), "UPDATE", 0, 0);
    assert_eq!(feed.latest_cursor(), Cursor(2));
}

#[test]
fn empty_read() {
    let feed = ChangeFeed::with_defaults();
    let page = feed.read_after(Cursor::zero(), 10);
    assert!(page.entries.is_empty());
    assert!(!page.has_more);
    assert_eq!(page.next_cursor, Cursor::zero());
}

#[test]
fn entry_fields() {
    let mut feed = ChangeFeed::with_defaults();
    feed.append(&make_event(42, "users", vec!["u1", "u2"]), "INSERT", 7, 9);
    let page = feed.read_after(Cursor::zero(), 1);
    let entry = &page.entries[0];
    assert_eq!(entry.sequence, 1);
    assert_eq!(entry.tx_id, 42);
    assert_eq!(entry.action, "INSERT");
    assert_eq!(entry.collection.as_deref(), Some("users"));
    assert_eq!(entry.entity_ids, vec!["u1".to_string(), "u2".to_string()]);
    assert_eq!(entry.actor_id.as_deref(), Some("test-user"));
    assert_eq!(entry.timestamp_ms, 7);
}

#[test]
fn prune_drops_expired_entries() {
    let mut feed = ChangeFeed::new(ChangeFeedConfig {
        retention_ttl: 100,
        ..Default::default()
    });
    feed.append(&make_event(1, "users", vec!["u1"]), "INSERT", 0, 0);
    feed.append(&make_event(2, "users", vec!["u2"]), "INSERT", 0, 150);
    let removed = feed.prune_expired(200);
    assert_eq!(removed, 1);
    assert_eq!(feed.len(), 1);
    assert_eq!(feed.latest_cursor(), Cursor(2));
}

#[test]
fn cursor_ordering() {
    assert!(Cursor(1) < Cursor(2));
    assert!(Cursor(0) < Cursor(1));
    assert_eq!(Cursor(5), Cursor(5));
    assert_eq!(Cursor::new(12).to_string(), "12");
}

#[test]
fn empty_pattern_matches_no_channel_at_all() {
    let p = ChannelPattern::parse("");
    assert!(p.segments.is_empty());
    assert!(!p.matches(""));
    assert!(!p.matches("anything"));
    assert!(!p.matches("a:b"));
}
