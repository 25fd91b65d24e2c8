//! One rolling OHLC record per time window, and its update rule.

use vstd::prelude::*;

verus! {

/// One OHLC ("candlestick") record for one fixed time window.
///
/// Prices are integer price units (a fixed scaling of the source feed's
/// price is chosen by the caller); `unix_timestamp` is the start of the
/// window currently accumulating ticks.
#[derive(Clone, Copy, Debug, PartialEq, Eq, Structural)]
pub struct KLineData {
    pub open: u64,
    pub high: u64,
    pub low: u64,
    pub close: u64,
    pub unix_timestamp: u64,
    pub time_window_seconds: u64,
}

impl KLineData {
    /// The window boundary arithmetic in `update` stays within `u64`.
    pub open spec fn wf(self) -> bool {
        self.unix_timestamp + self.time_window_seconds <= u64::MAX
    }

    /// The bucket update rule, as a mathematical function: a tick past the
    /// current window resets all four prices to the tick's price and
    /// advances the window start by exactly one duration; a tick inside the
    /// window folds the price into `high`/`low` and sets `close`.
    pub open spec fn update_spec(self, price: u64, timestamp: u64) -> KLineData {
        if timestamp > self.unix_timestamp + self.time_window_seconds {
            KLineData {
                open: price,
                high: price,
                low: price,
                close: price,
                unix_timestamp: (self.unix_timestamp + self.time_window_seconds) as u64,
                time_window_seconds: self.time_window_seconds,
            }
        } else {
            KLineData {
                open: self.open,
                high: if self.high >= price { self.high } else { price },
                low: if self.low <= price { self.low } else { price },
                close: price,
                unix_timestamp: self.unix_timestamp,
                time_window_seconds: self.time_window_seconds,
            }
        }
    }

    /// A fresh bucket: all prices zero, window start and duration as given.
    pub fn new(start_unixtime: u64, time_window: u64) -> (r: Self)
        ensures
            r == (KLineData {
                open: 0,
                high: 0,
                low: 0,
                close: 0,
                unix_timestamp: start_unixtime,
                time_window_seconds: time_window,
            }),
    {
        Self {
            open: 0,
            high: 0,
            low: 0,
            close: 0,
            unix_timestamp: start_unixtime,
            time_window_seconds: time_window,
        }
    }

    /// Apply one tick to this bucket, following `update_spec`.
    pub fn update(&mut self, price: u64, timestamp: u64)
        requires
            old(self).wf(),
        ensures
            *final(self) == old(self).update_spec(price, timestamp),
    {
        if timestamp > self.unix_timestamp + self.time_window_seconds {
            self.open = price;
            self.high = price;
            self.low = price;
            self.close = price;
            self.unix_timestamp = self.unix_timestamp + self.time_window_seconds;
        } else {
            if price > self.high {
                self.high = price;
            }
            if price < self.low {
                self.low = price;
            }
            self.close = price;
        }
    }
}

/// A tick stream folded into a bucket, one `update_spec` per tick, oldest
/// first. A tick is a `(price, timestamp)` pair.
pub open spec fn apply_ticks(k: KLineData, ticks: Seq<(u64, u64)>) -> KLineData
    decreases ticks.len(),
{
    if ticks.len() == 0 {
        k
    } else {
        apply_ticks(k, ticks.drop_last()).update_spec(ticks.last().0, ticks.last().1)
    }
}

/// The running maximum of a starting price and every tick price.
pub open spec fn running_high(h: u64, ticks: Seq<(u64, u64)>) -> u64
    decreases ticks.len(),
{
    if ticks.len() == 0 {
        h
    } else {
        let m = running_high(h, ticks.drop_last());
        if m >= ticks.last().0 {
            m
        } else {
            ticks.last().0
        }
    }
}

/// The running minimum of a starting price and every tick price.
pub open spec fn running_low(l: u64, ticks: Seq<(u64, u64)>) -> u64
    decreases ticks.len(),
{
    if ticks.len() == 0 {
        l
    } else {
        let m = running_low(l, ticks.drop_last());
        if m <= ticks.last().0 {
            m
        } else {
            ticks.last().0
        }
    }
}

/// Within one window (no tick's timestamp passes the window boundary), the
/// bucket's `high` and `low` are the running maximum and minimum of the
/// observed prices, `close` is the most recent price, and `open` and the
/// window bounds are untouched.
pub proof fn lemma_in_window_running_ohlc(k: KLineData, ticks: Seq<(u64, u64)>)
    requires
        forall|i: int|
            0 <= i < ticks.len() ==> #[trigger] ticks[i].1 <= k.unix_timestamp
                + k.time_window_seconds,
    ensures
        apply_ticks(k, ticks).open == k.open,
        apply_ticks(k, ticks).unix_timestamp == k.unix_timestamp,
        apply_ticks(k, ticks).time_window_seconds == k.time_window_seconds,
        apply_ticks(k, ticks).close == if ticks.len() == 0 {
            k.close
        } else {
            ticks.last().0
        },
        apply_ticks(k, ticks).high == running_high(k.high, ticks),
        apply_ticks(k, ticks).low == running_low(k.low, ticks),
    decreases ticks.len(),
{
    if ticks.len() > 0 {
        assert(forall|i: int|
            0 <= i < ticks.drop_last().len() ==> #[trigger] ticks.drop_last()[i].1
                <= k.unix_timestamp + k.time_window_seconds);
        lemma_in_window_running_ohlc(k, ticks.drop_last());
        assert(ticks[ticks.len() - 1].1 <= k.unix_timestamp + k.time_window_seconds);
    }
}

/// After a reset, as long as ticks stay inside the window, `low` bounds all
/// four prices from below and `high` from above.
pub proof fn lemma_price_bounds(k: KLineData, ticks: Seq<(u64, u64)>)
    requires
        k.open == k.high && k.high == k.low && k.low == k.close,
        forall|i: int|
            0 <= i < ticks.len() ==> #[trigger] ticks[i].1 <= k.unix_timestamp
                + k.time_window_seconds,
    ensures
        apply_ticks(k, ticks).low <= apply_ticks(k, ticks).open,
        apply_ticks(k, ticks).open <= apply_ticks(k, ticks).high,
        apply_ticks(k, ticks).low <= apply_ticks(k, ticks).close,
        apply_ticks(k, ticks).close <= apply_ticks(k, ticks).high,
    decreases ticks.len(),
{
    lemma_in_window_running_ohlc(k, ticks);
    if ticks.len() > 0 {
        assert(forall|i: int|
            0 <= i < ticks.drop_last().len() ==> #[trigger] ticks.drop_last()[i].1
                <= k.unix_timestamp + k.time_window_seconds);
        lemma_price_bounds(k, ticks.drop_last());
        lemma_in_window_running_ohlc(k, ticks.drop_last());
    }
}

/// A tick past the window boundary always resets all four prices to that
/// tick's price and advances the window start by exactly one duration.
pub proof fn lemma_reset(k: KLineData, price: u64, timestamp: u64)
    requires
        timestamp > k.unix_timestamp + k.time_window_seconds,
    ensures
        k.update_spec(price, timestamp) == (KLineData {
            open: price,
            high: price,
            low: price,
            close: price,
            unix_timestamp: (k.unix_timestamp + k.time_window_seconds) as u64,
            time_window_seconds: k.time_window_seconds,
        }),
{
}

} // verus!
