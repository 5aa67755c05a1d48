//! Verified core of the DarshJDB server: schema definitions and
//! validation, storage helpers, change-feed and subscription state, and
//! the table/view/triple-schema logic.
use vstd::prelude::*;

pub mod text;
pub mod json;
pub mod order;
pub mod named;
pub mod schema;
pub mod triple_store;
pub mod tables;
pub mod views;
pub mod storage;
pub mod sync;

verus! {
} // verus!
