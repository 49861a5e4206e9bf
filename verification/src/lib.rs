//! A verified reward-distribution ledger.
//!
//! Pooled revenue in several fungible denominations is shared among
//! participants whose weight changes over time.  A per-asset global index
//! accumulates rewards-per-weight-unit; each (user, asset) pair keeps a
//! checkpoint of the index it was last settled at, together with rewards that
//! accrued at earlier weights but were not yet paid out.  Settlement is O(1)
//! per asset: the amount owed is always
//! `(global_index - user_index) * weight + pending`.

pub mod assoc;
pub mod error;
pub mod decimal;
pub mod asset;
pub mod api;
pub mod state;
pub mod rewards;
pub mod claim;
pub mod weights;
pub mod laws;
pub mod conservation;
