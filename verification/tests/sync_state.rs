use darshjdb_core::json::{json_eq_exec, JsonNumber, JsonValue};
use darshjdb_core::sync::broadcaster::{
    group_by_user, plan_updates, query_ast_of, query_targets_event, Broadcaster,
};
use darshjdb_core::sync::ChangeEvent;
use darshjdb_core::sync::diff::hash_result_set;
use darshjdb_core::sync::presence::{
    PresenceManager, PresenceRoom, DEFAULT_TTL_MS, MAX_UPDATES_PER_SEC,
};
use darshjdb_core::sync::registry::{SubscriptionHandle, SubscriptionRegistry};
use darshjdb_core::sync::session::{SessionManager, SyncSession};

fn num(n: u64) -> JsonValue {
    JsonValue::Number(JsonNumber::PosInt(n))
}

fn obj(pairs: &[(&str, JsonValue)]) -> JsonValue {
    JsonValue::Object(
        pairs
            .iter()
            .map(|(k, v)| (k.to_string(), darshjdb_core::json::clone_json(v)))
            .collect(),
    )
}

fn text(s: &str) -> JsonValue {
    JsonValue::String(s.to_string())
}

// ── Presence rooms ──────────────────────────────────────────────────

#[test]
fn room_update_and_snapshot() {
    let mut room = PresenceRoom::new("room-1".into(), 0);
    room.update("alice", obj(&[("cursor", num(10))]), 0);
    room.update("bob", obj(&[("cursor", num(20))]), 0);

    let snap = room.snapshot(1);
    assert_eq!(snap.len(), 2);
    let alice = snap.iter().find(|(uid, _)| uid == "alice").unwrap();
    assert!(json_eq_exec(&alice.1, &obj(&[("cursor", num(10))])));
}

#[test]
fn room_remove_user() {
    let mut room = PresenceRoom::new("room-1".into(), 0);
    room.update("alice", obj(&[]), 0);
    room.update("bob", obj(&[]), 0);

    let removed = room.remove("alice");
    assert!(removed.is_some());
    assert_eq!(room.active_count(1), 1);
    assert!(!room.is_present("alice", 1));
    assert!(room.is_present("bob", 1));
}

#[test]
fn room_remove_nonexistent() {
    let mut room = PresenceRoom::new("room-1".into(), 0);
    assert!(room.remove("ghost").is_none());
}

#[test]
fn room_expiry() {
    let mut room = PresenceRoom::with_ttl("room-1".into(), 1, 0);
    room.update("alice", obj(&[]), 0);

    assert!(!room.is_present("alice", 10));
    assert_eq!(room.active_count(10), 0);

    let expired = room.expire_stale(10);
    assert_eq!(expired, vec!["alice"]);
    assert!(room.snapshot(10).is_empty());
    assert!(room.entries.is_empty());
}

#[test]
fn room_expiry_mixed() {
    let mut room = PresenceRoom::with_ttl("room-1".into(), 50, 0);
    room.update("alice", obj(&[]), 0);
    room.update("bob", obj(&[]), 60);

    assert!(!room.is_present("alice", 60));
    assert!(room.is_present("bob", 60));

    let expired = room.expire_stale(60);
    assert_eq!(expired, vec!["alice"]);
    assert_eq!(room.active_count(60), 1);
}

#[test]
fn room_entry_fresh_until_ttl() {
    let mut room = PresenceRoom::with_ttl("r".into(), 50, 0);
    room.update("a", obj(&[]), 100);
    assert!(room.is_present("a", 149));
    assert!(!room.is_present("a", 150));
    assert!(room.is_present("a", 20));
}

#[test]
fn room_rate_limiting() {
    let mut room = PresenceRoom::new("room-1".into(), 0);
    for i in 0..MAX_UPDATES_PER_SEC {
        assert!(
            room.update("user", obj(&[("i", num(i as u64))]), 5),
            "update {i} should succeed"
        );
    }
    assert!(
        !room.update("user", text("over-limit"), 5),
        "update over limit should be rejected"
    );
    let snap = room.snapshot(5);
    assert!(json_eq_exec(&snap[0].1, &obj(&[("i", num(19))])));
}

#[test]
fn room_rate_limit_resets_after_window() {
    let mut room = PresenceRoom::new("room-1".into(), 0);
    for _ in 0..MAX_UPDATES_PER_SEC {
        room.update("user", obj(&[]), 0);
    }
    assert!(!room.update("user", obj(&[]), 999));
    assert!(room.update("user", obj(&[("after_reset", JsonValue::Bool(true))]), 1000));
    assert_eq!((room.window_start, room.count), (1000, 1));
}

#[test]
fn room_update_overwrites_state() {
    let mut room = PresenceRoom::new("room-1".into(), 0);
    room.update("alice", obj(&[("v", num(1))]), 0);
    room.update("alice", obj(&[("v", num(2))]), 0);
    let snap = room.snapshot(0);
    assert_eq!(snap.len(), 1);
    assert!(json_eq_exec(&snap[0].1, &obj(&[("v", num(2))])));
}

#[test]
fn room_default_ttl() {
    let room = PresenceRoom::new("r".into(), 0);
    assert_eq!(room.ttl, DEFAULT_TTL_MS);
    assert_eq!(DEFAULT_TTL_MS, 60_000);
}

// ── Presence manager ────────────────────────────────────────────────

#[test]
fn manager_join_creates_room() {
    let mut mgr = PresenceManager::new();
    assert_eq!(mgr.room_count(), 0);
    mgr.join("room-1", "alice", obj(&[]), 0);
    assert_eq!(mgr.room_count(), 1);
}

#[test]
fn manager_join_and_snapshot() {
    let mut mgr = PresenceManager::new();
    mgr.join("room-1", "alice", obj(&[("status", text("online"))]), 0);
    mgr.join("room-1", "bob", obj(&[("status", text("away"))]), 0);
    assert_eq!(mgr.room_snapshot("room-1", 0).len(), 2);
}

#[test]
fn manager_leave_removes_user() {
    let mut mgr = PresenceManager::new();
    mgr.join("room-1", "alice", obj(&[]), 0);
    mgr.join("room-1", "bob", obj(&[]), 0);
    mgr.leave("room-1", "alice", 0);
    let snap = mgr.room_snapshot("room-1", 0);
    assert_eq!(snap.len(), 1);
    assert_eq!(snap[0].0, "bob");
}

#[test]
fn manager_leave_last_user_cleans_room() {
    let mut mgr = PresenceManager::new();
    mgr.join("room-1", "alice", obj(&[]), 0);
    mgr.leave("room-1", "alice", 0);
    assert_eq!(mgr.room_count(), 0);
}

#[test]
fn manager_leave_all() {
    let mut mgr = PresenceManager::new();
    mgr.join("room-1", "alice", obj(&[]), 0);
    mgr.join("room-2", "alice", obj(&[]), 0);
    mgr.join("room-2", "bob", obj(&[]), 0);
    mgr.leave_all("alice", 0);
    assert_eq!(mgr.room_snapshot("room-1", 0).len(), 0);
    assert_eq!(mgr.room_snapshot("room-2", 0).len(), 1);
    assert_eq!(mgr.room_count(), 1);
}

#[test]
fn manager_update_state_existing_room() {
    let mut mgr = PresenceManager::new();
    mgr.join("room-1", "alice", obj(&[("v", num(1))]), 0);
    mgr.update_state("room-1", "alice", obj(&[("v", num(2))]), 0);
    let snap = mgr.room_snapshot("room-1", 0);
    assert!(json_eq_exec(&snap[0].1, &obj(&[("v", num(2))])));
}

#[test]
fn manager_update_state_auto_joins() {
    let mut mgr = PresenceManager::new();
    mgr.update_state("room-1", "alice", obj(&[("auto", JsonValue::Bool(true))]), 0);
    assert_eq!(mgr.room_count(), 1);
    assert_eq!(mgr.room_snapshot("room-1", 0).len(), 1);
}

#[test]
fn manager_expire_all() {
    let mut mgr = PresenceManager::new();
    mgr.join("room-1", "alice", obj(&[]), 0);
    assert_eq!(mgr.expire_all(10), 0);
    assert_eq!(mgr.room_count(), 1);
    assert_eq!(mgr.expire_all(DEFAULT_TTL_MS), 1);
    assert_eq!(mgr.room_count(), 0);
}

#[test]
fn manager_snapshot_nonexistent_room() {
    let mgr = PresenceManager::new();
    assert!(mgr.room_snapshot("no-such-room", 0).is_empty());
}

#[test]
fn manager_leave_nonexistent_room() {
    let mut mgr = PresenceManager::new();
    mgr.leave("no-such-room", "alice", 0);
    assert_eq!(mgr.room_count(), 0);
}

#[test]
fn manager_leave_nonexistent_user() {
    let mut mgr = PresenceManager::new();
    mgr.join("room-1", "alice", obj(&[]), 0);
    mgr.leave("room-1", "ghost", 0);
    assert_eq!(mgr.room_snapshot("room-1", 0).len(), 1);
}

// ── Sessions ────────────────────────────────────────────────────────

fn new_id() -> u128 {
    uuid::Uuid::new_v4().as_u128()
}

#[test]
fn session_creation_defaults() {
    let id = new_id();
    let session = SyncSession::new(id, Some("127.0.0.1:8080".into()), 5);
    assert_eq!(session.id, id);
    assert!(session.user_id.is_none());
    assert!(session.subscriptions.is_empty());
    assert_eq!(session.last_tx, 0);
    assert_eq!(session.peer_addr.as_deref(), Some("127.0.0.1:8080"));
    assert_eq!(session.connected_at, 5);
    assert!(!session.is_authenticated());
}

#[test]
fn session_authentication() {
    let mut session = SyncSession::new(new_id(), None, 0);
    assert!(!session.is_authenticated());
    session.authenticate("user-42".into());
    assert!(session.is_authenticated());
    assert_eq!(session.user_id.as_deref(), Some("user-42"));
}

fn sub<'a>(s: &'a SyncSession, id: u128) -> &'a darshjdb_core::sync::session::ActiveSubscription {
    &s.subscriptions.iter().find(|(k, _)| *k == id).unwrap().1
}

#[test]
fn add_and_remove_subscription() {
    let mut session = SyncSession::new(new_id(), None, 0);
    let sub_id = session.add_subscription(123, obj(&[("select", text("*"))]), 77);
    assert_eq!(session.subscriptions.len(), 1);
    let s = sub(&session, sub_id);
    assert_eq!(s.query_hash, 123);
    assert_eq!(s.last_result_hash, 0);
    assert_eq!(s.last_tx, 0);
    assert_eq!(s.created_at_ms, 77);

    let removed = session.remove_subscription(sub_id);
    assert!(removed.is_some());
    assert!(session.subscriptions.is_empty());
}

#[test]
fn remove_nonexistent_subscription_returns_none() {
    let mut session = SyncSession::new(new_id(), None, 0);
    assert!(session.remove_subscription(new_id()).is_none());
}

#[test]
fn update_subscription_cursor() {
    let mut session = SyncSession::new(new_id(), None, 0);
    let sub_id = session.add_subscription(100, obj(&[]), 0);
    assert!(session.update_subscription_cursor(sub_id, 999, 42));
    let s = sub(&session, sub_id);
    assert_eq!(s.last_result_hash, 999);
    assert_eq!(s.last_tx, 42);
}

#[test]
fn update_cursor_nonexistent_returns_false() {
    let mut session = SyncSession::new(new_id(), None, 0);
    assert!(!session.update_subscription_cursor(new_id(), 1, 1));
}

#[test]
fn session_manager_create_and_remove() {
    let mut mgr = SessionManager::new();
    assert_eq!(mgr.session_count(), 0);
    let id = mgr.create_session(None, 0);
    assert_eq!(mgr.session_count(), 1);
    let removed = mgr.remove_session(id);
    assert!(removed.is_some());
    assert_eq!(mgr.session_count(), 0);
}

#[test]
fn session_manager_remove_nonexistent() {
    let mut mgr = SessionManager::new();
    assert!(mgr.remove_session(new_id()).is_none());
}

#[test]
fn session_manager_with_session() {
    let mut mgr = SessionManager::new();
    let id = mgr.create_session(None, 0);
    assert_eq!(mgr.with_session(id, |s| s.id), Some(id));
    assert!(mgr.with_session(new_id(), |s| s.id).is_none());
}

#[test]
fn session_manager_with_session_mut() {
    let mut mgr = SessionManager::new();
    let id = mgr.create_session(None, 0);
    let r = mgr.with_session_mut(id, |mut s| {
        s.authenticate("alice".into());
        (s, ())
    });
    assert_eq!(r, Some(()));
    assert_eq!(mgr.with_session(id, |s| s.is_authenticated()), Some(true));
}

#[test]
fn session_manager_session_ids() {
    let mut mgr = SessionManager::new();
    let id1 = mgr.create_session(None, 0);
    let id2 = mgr.create_session(None, 0);
    let ids = mgr.session_ids();
    assert_eq!(ids.len(), 2);
    assert!(ids.contains(&id1));
    assert!(ids.contains(&id2));
}

#[test]
fn multiple_subscriptions_per_session() {
    let mut session = SyncSession::new(new_id(), None, 0);
    let sub1 = session.add_subscription(100, obj(&[("a", num(1))]), 0);
    let sub2 = session.add_subscription(200, obj(&[("b", num(2))]), 0);
    let sub3 = session.add_subscription(100, obj(&[("a", num(1))]), 0);
    assert_eq!(session.subscriptions.len(), 3);
    assert_ne!(sub1, sub2);
    assert_ne!(sub1, sub3);
    session.remove_subscription(sub1);
    assert_eq!(session.subscriptions.len(), 2);
}

// ── Registry ────────────────────────────────────────────────────────

#[test]
fn registry_register_and_lookup() {
    let mut reg = SubscriptionRegistry::new();
    reg.register(1, 10, 100);
    reg.register(1, 11, 101);
    reg.register(2, 10, 102);
    reg.register(1, 10, 100);
    assert_eq!(reg.entries.len(), 3);
    assert_eq!(reg.unique_query_count(), 2);
    assert_eq!(reg.active_session_count(), 2);
    assert!(reg.has_subscribers(1));
    assert!(!reg.has_subscribers(3));
    assert_eq!(
        reg.subscribers_for(1),
        vec![
            SubscriptionHandle { session_id: 10, sub_id: 100 },
            SubscriptionHandle { session_id: 11, sub_id: 101 },
        ]
    );
    assert!(reg.subscribers_for(9).is_empty());
}

#[test]
fn registry_unregister_cleans_up() {
    let mut reg = SubscriptionRegistry::new();
    reg.register(1, 10, 100);
    reg.register(1, 10, 101);
    reg.unregister(1, 10, 100);
    assert!(reg.has_subscribers(1));
    assert_eq!(reg.active_session_count(), 1);
    reg.unregister(1, 10, 101);
    assert!(!reg.has_subscribers(1));
    assert_eq!(reg.unique_query_count(), 0);
    assert_eq!(reg.active_session_count(), 0);
    reg.unregister(5, 5, 5);
    assert!(reg.entries.is_empty());
}

#[test]
fn registry_unregister_session() {
    let mut reg = SubscriptionRegistry::new();
    reg.register(7, 10, 100);
    reg.register(3, 11, 101);
    reg.register(3, 10, 102);
    reg.register(7, 10, 103);
    assert_eq!(reg.unregister_session(10), vec![7, 3]);
    assert_eq!(reg.entries, vec![(3, 11, 101)]);
    assert!(reg.unregister_session(10).is_empty());
}

// ── Broadcaster decisions ───────────────────────────────────────────

#[test]
fn cache_seed_and_evict() {
    let mut b = Broadcaster::new();
    b.cache_initial_result(1, 2, vec![num(1)]);
    b.cache_initial_result(1, 3, vec![num(2)]);
    b.cache_initial_result(4, 5, vec![]);
    assert_eq!(b.result_cache.len(), 3);
    b.cache_initial_result(1, 2, vec![num(9)]);
    assert_eq!(b.result_cache.len(), 3);
    let h = SubscriptionHandle { session_id: 1, sub_id: 2 };
    assert!(json_eq_exec(&b.cached(h)[0], &num(9)));
    b.evict_cache(1, 2);
    assert!(b.cached(h).is_empty());
    b.evict_session_cache(1);
    assert_eq!(b.result_cache.len(), 1);
    assert_eq!(b.result_cache[0].0.session_id, 4);
}

#[test]
fn deliver_sends_diff_and_updates_cursor() {
    let mut sessions = SessionManager::new();
    let sid = sessions.create_session(None, 0);
    let sub_id = sessions
        .with_session_mut(sid, |mut s| {
            let id = s.add_subscription(42, obj(&[("from", text("users"))]), 0);
            (s, id)
        })
        .unwrap();
    let mut b = Broadcaster::new();
    b.cache_initial_result(sid, sub_id, vec![obj(&[("_id", text("1")), ("n", num(1))])]);
    let handle = SubscriptionHandle { session_id: sid, sub_id };

    let new_results = vec![obj(&[("_id", text("1")), ("n", num(2))])];
    let h = hash_result_set(&new_results);
    let out = b
        .deliver_to_subscriber(&mut sessions, handle, &new_results, h, 9)
        .expect("a diff");
    assert_eq!(out.tx_id, 9);
    assert_eq!(out.diff.updated.len(), 1);
    let cursor = sessions
        .with_session(sid, |s| {
            let a = &s.subscriptions[0].1;
            (a.last_result_hash, a.last_tx)
        })
        .unwrap();
    assert_eq!(cursor, (h, 9));

    assert!(b
        .deliver_to_subscriber(&mut sessions, handle, &new_results, h, 10)
        .is_none());
}

#[test]
fn query_targets_event_checks_from() {
    let q = obj(&[("from", text("users"))]);
    assert!(query_targets_event(&q, &Some("users".into())));
    assert!(!query_targets_event(&q, &Some("posts".into())));
    assert!(query_targets_event(&q, &None));
    assert!(query_targets_event(&obj(&[("from", num(1))]), &Some("posts".into())));
    assert!(query_targets_event(&obj(&[]), &Some("posts".into())));
}

#[test]
fn group_by_user_and_query_lookup() {
    let mut sessions = SessionManager::new();
    let s1 = sessions.create_session(None, 0);
    let s2 = sessions.create_session(None, 0);
    let s3 = sessions.create_session(None, 0);
    sessions.with_session_mut(s1, |mut s| {
        s.authenticate("alice".into());
        (s, ())
    });
    sessions.with_session_mut(s3, |mut s| {
        s.authenticate("alice".into());
        (s, ())
    });
    let sub = sessions
        .with_session_mut(s2, |mut s| {
            let id = s.add_subscription(1, obj(&[("from", text("t"))]), 0);
            (s, id)
        })
        .unwrap();
    let hs = vec![
        SubscriptionHandle { session_id: s1, sub_id: 1 },
        SubscriptionHandle { session_id: s2, sub_id: sub },
        SubscriptionHandle { session_id: s3, sub_id: 3 },
    ];
    let groups = group_by_user(&sessions, &hs);
    assert_eq!(groups.len(), 2);
    assert_eq!(groups[0].0.as_deref(), Some("alice"));
    assert_eq!(groups[0].1, vec![hs[0], hs[2]]);
    assert_eq!(groups[1].0, None);
    assert!(json_eq_exec(
        &query_ast_of(&sessions, hs[1]).unwrap(),
        &obj(&[("from", text("t"))])
    ));
    assert!(query_ast_of(&sessions, hs[0]).is_none());
}

#[test]
fn plan_updates_runs_each_query_once_per_user() {
    let mut mgr = SessionManager::new();
    let a = mgr.create_session(None, 0);
    let b = mgr.create_session(None, 0);
    let c = mgr.create_session(None, 0);
    let users_q = obj(&[("from", text("users"))]);
    let posts_q = obj(&[("from", text("posts"))]);
    let sa = mgr
        .with_session_mut(a, |mut s| {
            s.authenticate("alice".into());
            let id = s.add_subscription(1, obj(&[("from", text("users"))]), 0);
            (s, id)
        })
        .unwrap();
    let sb = mgr
        .with_session_mut(b, |mut s| {
            s.authenticate("alice".into());
            let id = s.add_subscription(1, obj(&[("from", text("users"))]), 0);
            (s, id)
        })
        .unwrap();
    let sc = mgr
        .with_session_mut(c, |mut s| {
            let id = s.add_subscription(2, obj(&[("from", text("posts"))]), 0);
            (s, id)
        })
        .unwrap();
    let mut reg = SubscriptionRegistry::new();
    reg.register(1, a, sa);
    reg.register(1, b, sb);
    reg.register(2, c, sc);
    let event = ChangeEvent {
        tx_id: 5,
        entity_ids: vec!["u1".into()],
        attributes: vec![],
        entity_type: Some("users".into()),
        actor_id: None,
    };
    let plan = plan_updates(&mgr, &reg, &event, &vec![1, 2, 1, 3]);
    assert_eq!(plan.len(), 1);
    assert_eq!(plan[0].query_hash, 1);
    assert_eq!(plan[0].user_id.as_deref(), Some("alice"));
    assert!(json_eq_exec(&plan[0].query_ast, &users_q));
    assert_eq!(
        plan[0].handles,
        vec![SubscriptionHandle { session_id: a, sub_id: sa }, SubscriptionHandle { session_id: b, sub_id: sb }]
    );
    let posts_event = ChangeEvent { entity_type: Some("posts".into()), ..event };
    let plan = plan_updates(&mgr, &reg, &posts_event, &vec![1, 2]);
    assert_eq!(plan.len(), 1);
    assert_eq!(plan[0].query_hash, 2);
    assert!(plan[0].user_id.is_none());
    assert!(json_eq_exec(&plan[0].query_ast, &posts_q));
}

#[test]
fn register_then_unregister_restores_the_registry() {
    let mut reg = SubscriptionRegistry::new();
    reg.register(1, 10, 100);
    reg.register(2, 20, 200);
    let before = reg.entries.clone();
    reg.register(3, 30, 300);
    reg.unregister(3, 30, 300);
    assert_eq!(reg.entries, before);
}

#[test]
fn presence_join_then_leave_restores_the_room() {
    let mut mgr = PresenceManager::new();
    mgr.join("room-1", "alice", obj(&[("status", text("online"))]), 0);
    let before = format!("{:?}", mgr.room_snapshot("room-1", 10));
    mgr.join("room-1", "bob", obj(&[]), 10);
    mgr.leave("room-1", "bob", 20);
    assert_eq!(format!("{:?}", mgr.room_snapshot("room-1", 20)), before);
}
