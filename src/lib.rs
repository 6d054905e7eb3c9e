//! Incremental Relative Strength Index per asset key.
//!
//! `engine` keeps one key's state: the phases of the indicator (warm-up,
//! priming, Wilder smoothing), the bounded price buffer and the bounded
//! history. `store` maps keys to that state and pairs each key's latest
//! price with the result it produced. `broadcast` fans results out to
//! subscribers through bounded queues that drop their oldest entry.
//!
//! The state is generic over the number type `N`; the averages and the
//! indicator value for a price are handed in as `engine::Computed`.

use vstd::prelude::*;

pub mod history;
pub mod engine;
pub mod store;
pub mod broadcast;

verus! {

/// Number of price changes that make up one look-back window.
pub const DEFAULT_PERIOD: usize = 14;

} // verus!
