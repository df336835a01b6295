//! Replay of a stored table as a stream of fixed-size lookback windows: the
//! verified window plan of the store-backed event source. Delivering the
//! windows over a channel is I/O and lives outside the library.

use vstd::prelude::*;
use crate::config::DataConfig;
use crate::store::DataStore;

verus! {

/// What one replay works through: the symbol and the optional timeframe
/// whose artifact is streamed.
pub struct EventSourceOptions {
    pub symbol: String,
    pub timeframe: Option<String>,
}

/// The store-backed event source: it replays one symbol's stored table as a
/// sequence of lookback windows.
pub struct StoreEventSource {
    pub store: DataStore,
    pub options: EventSourceOptions,
}

impl StoreEventSource {
    /// A source replaying from the store of `config`.
    pub fn new(config: DataConfig, options: EventSourceOptions) -> (r: StoreEventSource)
        ensures
            r.store.config == config,
            r.options == options,
    {
        StoreEventSource { store: DataStore::new(config), options }
    }

    /// The windows a replay of `height` rows emits with lookback `lookback`:
    /// one window of `lookback` rows starting at every offset, oldest first
    /// — none when the table is shorter than the lookback.
    pub fn replay_windows(&self, height: usize, lookback: usize) -> (r: Vec<(usize, usize)>)
        ensures
            r@.len() == (if height >= lookback {
                height - lookback
            } else {
                0
            }),
            forall|k: int| 0 <= k < r@.len() ==> #[trigger] r@[k] == (k as usize, lookback),
    {
        let mut out: Vec<(usize, usize)> = Vec::new();
        if height < lookback {
            return out;
        }
        let mut i: usize = 0;
        while i < height - lookback
            invariant
                lookback <= height,
                i <= height - lookback,
                out@.len() == i,
                forall|k: int| 0 <= k < i ==> #[trigger] out@[k] == (k as usize, lookback),
            decreases height - lookback - i,
        {
            out.push((i, lookback));
            i = i + 1;
        }
        out
    }
}

} // verus!
