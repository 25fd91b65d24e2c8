//! The publish relay: one bus message per window from a bucket snapshot.
//!
//! Publication itself is fire-and-forget I/O and happens outside the
//! library; a publish failure loses at most one message, never candlestick
//! state, because the next tick's snapshot supersedes it.

use vstd::prelude::*;
use crate::aggregator::KLineAggregator;
use crate::codec::{encode_kline, encode_spec};
use crate::window::TimeWindow;

verus! {

/// The wire unit from the relay to the distribution sessions: a routing key
/// naming the window, and the serialized record as payload.
pub struct BusMessage {
    pub key: Vec<u8>,
    pub payload: Vec<u8>,
}

/// The messages to publish for one snapshot: for every window, in a fixed
/// order, that window's routing key and its bucket's serialized record.
pub fn bus_messages(agg: &KLineAggregator) -> (r: Vec<BusMessage>)
    requires
        agg.wf(),
    ensures
        r@.len() == 4,
        forall|i: int|
            0 <= i < 4 ==> (#[trigger] r@[i]).key@ == TimeWindow::all_spec()[i].key_spec()
                && r@[i].payload@ == encode_spec(agg.bucket(TimeWindow::all_spec()[i])),
{
    let windows = TimeWindow::all();
    let mut r: Vec<BusMessage> = Vec::new();
    let mut i: usize = 0;
    while i < windows.len()
        invariant
            agg.wf(),
            windows@ == TimeWindow::all_spec(),
            i <= 4,
            r@.len() == i,
            forall|j: int|
                0 <= j < i ==> (#[trigger] r@[j]).key@ == TimeWindow::all_spec()[j].key_spec()
                    && r@[j].payload@ == encode_spec(agg.bucket(TimeWindow::all_spec()[j])),
        decreases windows.len() - i,
    {
        let w = windows[i];
        let k = agg.get_klines(w);
        r.push(BusMessage { key: w.key_bytes(), payload: encode_kline(k) });
        i = i + 1;
    }
    r
}

} // verus!
