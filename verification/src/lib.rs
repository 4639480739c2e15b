//! Listening statistics library: a track-identity debounce and commit engine
//! together with an aggregation and view model over the recorded play log.
//!
//! A background process observes playback samples and, once a track has been
//! playing long enough, records exactly one play in a store keyed by song and
//! calendar date. A viewer builds ranked, grouped, optionally
//! frequency-weighted views over the same store.

use vstd::prelude::*;

pub mod aggregate;
pub mod clock;
pub mod date;
pub mod decimal;
pub mod order;
pub mod song;
pub mod sorting;
pub mod store;
pub mod tracker;
pub mod viewmodel;
pub mod views;
pub mod weighted;

verus! {

/// Cumulative playing time, in milliseconds, that a track must reach before a
/// listen session is committed as one play.
pub const MIN_PLAYTIME_MS: u64 = 60000;

} // verus!
