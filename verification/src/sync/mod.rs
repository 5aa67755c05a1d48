//! Real-time sync: change events, pub/sub channel matching and
//! subscriptions, and the change feed.
use vstd::prelude::*;

pub mod broadcaster;
pub mod change_feed;
pub mod diff;
pub mod live_query;
pub mod presence;
pub mod pubsub;
pub mod registry;
pub mod session;

verus! {

/// A committed change in the triple store, as the broadcaster announces it.
#[derive(Debug, Clone)]
pub struct ChangeEvent {
    /// Transaction ID of the mutation.
    pub tx_id: i64,
    /// Entity IDs that were modified.
    pub entity_ids: Vec<String>,
    /// Attribute names that were touched (for dependency matching).
    pub attributes: Vec<String>,
    /// The type/collection of affected entities.
    pub entity_type: Option<String>,
    /// User ID that performed the mutation (for permission filtering).
    pub actor_id: Option<String>,
}

} // verus!
