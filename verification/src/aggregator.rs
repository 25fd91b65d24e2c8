//! One candlestick bucket per configured window, updated together.

use vstd::prelude::*;
use vstd::arithmetic::div_mod::{lemma_fundamental_div_mod, lemma_mod_bound};
use crate::kline::KLineData;
use crate::window::TimeWindow;
use crate::clock::now_unix_seconds;

verus! {

/// The window start aligned downward to the whole multiple of `d` most
/// recently passed before `now`'s own multiple, so that the first tick of a
/// live feed lands past an already-open bucket.
pub open spec fn aligned_start(now: u64, d: u64) -> u64 {
    if now / d >= 1 {
        ((now / d - 1) * d) as u64
    } else {
        0
    }
}

/// The bucket a freshly constructed aggregator holds for window `w`.
pub open spec fn initial_bucket(now: u64, w: TimeWindow) -> KLineData {
    KLineData {
        open: 0,
        high: 0,
        low: 0,
        close: 0,
        unix_timestamp: aligned_start(now, w.duration_secs()),
        time_window_seconds: w.duration_secs(),
    }
}

/// Holds one `KLineData` bucket for every configured `TimeWindow`; only the
/// aggregator mutates them, synchronously per tick.
pub struct KLineAggregator {
    data: Vec<KLineData>,
}

impl KLineAggregator {
    /// Position of a window's bucket, following `TimeWindow::all_spec()`.
    pub open spec fn index_of(w: TimeWindow) -> int {
        match w {
            TimeWindow::OneSecond => 0,
            TimeWindow::OneMinute => 1,
            TimeWindow::FiveMinutes => 2,
            TimeWindow::OneHour => 3,
        }
    }

    /// The bucket currently held for window `w`.
    pub closed spec fn bucket(self, w: TimeWindow) -> KLineData {
        self.data@[Self::index_of(w)]
    }

    /// One well-sized bucket per window, each safe to update.
    pub closed spec fn wf(self) -> bool {
        &&& self.data@.len() == 4
        &&& forall|w: TimeWindow|
            (#[trigger] self.bucket(w)).time_window_seconds == w.duration_secs()
        &&& forall|w: TimeWindow| (#[trigger] self.bucket(w)).wf()
    }

    /// A fresh aggregator as of wall-clock second `now`: every window gets a
    /// zeroed bucket whose start is aligned to that window's duration.
    pub fn from_unix_time(now: u64) -> (r: Self)
        ensures
            r.wf(),
            forall|w: TimeWindow| #[trigger] r.bucket(w) == initial_bucket(now, w),
    {
        let windows = TimeWindow::all();
        let mut data: Vec<KLineData> = Vec::new();
        let mut i: usize = 0;
        while i < windows.len()
            invariant
                windows@ == TimeWindow::all_spec(),
                i <= 4,
                data@.len() == i,
                forall|j: int|
                    0 <= j < i ==> data@[j] == initial_bucket(now, TimeWindow::all_spec()[j]),
            decreases windows.len() - i,
        {
            let w = windows[i];
            let d = w.seconds();
            assert(d >= 1);
            let q = now / d;
            let start: u64 = if q >= 1 {
                proof {
                    lemma_fundamental_div_mod(now as int, d as int);
                    lemma_mod_bound(now as int, d as int);
                    assert((q - 1) * d == q * d - d) by (nonlinear_arith);
                    assert(q * d <= now);
                }
                (q - 1) * d
            } else {
                0
            };
            data.push(KLineData::new(start, d));
            i = i + 1;
        }
        let r = Self { data };
        proof {
            assert(forall|w: TimeWindow|
                TimeWindow::all_spec()[Self::index_of(w)] == w);
            assert(forall|w: TimeWindow| #[trigger] r.bucket(w) == initial_bucket(now, w));
            assert(forall|w: TimeWindow| (#[trigger] r.bucket(w)).wf()) by {
                assert(forall|w: TimeWindow|
                    aligned_start(now, w.duration_secs()) + w.duration_secs() <= u64::MAX);
            }
        }
        r
    }

    /// A fresh aggregator as of the current wall-clock time: every window
    /// gets a zeroed bucket whose start is a whole multiple of its duration.
    pub fn new() -> (r: Self)
        ensures
            r.wf(),
            forall|w: TimeWindow| (#[trigger] r.bucket(w)).open == 0 && r.bucket(w).high == 0
                && r.bucket(w).low == 0 && r.bucket(w).close == 0,
            forall|w: TimeWindow| (#[trigger] r.bucket(w)).unix_timestamp % w.duration_secs()
                == 0,
    {
        let now = now_unix_seconds();
        let r = Self::from_unix_time(now);
        proof {
            assert forall|w: TimeWindow| (#[trigger] r.bucket(w)).unix_timestamp
                % w.duration_secs() == 0 by {
                let d = w.duration_secs();
                if now / d >= 1 {
                    vstd::arithmetic::div_mod::lemma_mod_multiples_basic(
                        now as int / d as int - 1,
                        d as int,
                    );
                }
            }
        }
        r
    }

    /// The current bucket for one window. Every window of the fixed set is
    /// configured, so the lookup is total.
    pub fn get_klines(&self, window: TimeWindow) -> (r: &KLineData)
        requires
            self.wf(),
        ensures
            *r == self.bucket(window),
    {
        match window {
            TimeWindow::OneSecond => &self.data[0],
            TimeWindow::OneMinute => &self.data[1],
            TimeWindow::FiveMinutes => &self.data[2],
            TimeWindow::OneHour => &self.data[3],
        }
    }

    /// An immutable copy of every current bucket, in `all_spec` order.
    pub fn get_all_klines(&self) -> (r: Vec<KLineData>)
        requires
            self.wf(),
        ensures
            r@.len() == 4,
            forall|i: int|
                0 <= i < 4 ==> r@[i] == self.bucket(TimeWindow::all_spec()[i]),
    {
        let mut r: Vec<KLineData> = Vec::new();
        r.push(self.data[0]);
        r.push(self.data[1]);
        r.push(self.data[2]);
        r.push(self.data[3]);
        proof {
            assert(forall|w: TimeWindow|
                TimeWindow::all_spec()[Self::index_of(w)] == w);
        }
        r
    }

    /// Apply one tick to every window's bucket. Buckets are independent:
    /// each new bucket is a function of that window's old bucket alone.
    pub fn update(&mut self, price: u64, current_timestamp: u64)
        requires
            old(self).wf(),
            current_timestamp <= u64::MAX - 3600,
        ensures
            final(self).wf(),
            forall|w: TimeWindow| #[trigger] final(self).bucket(w) == old(self).bucket(
                w,
            ).update_spec(price, current_timestamp),
    {
        let ghost orig = *self;
        let mut i: usize = 0;
        while i < 4
            invariant
                self.data@.len() == 4,
                orig.wf(),
                i <= 4,
                forall|j: int|
                    0 <= j < i ==> self.data@[j] == orig.data@[j].update_spec(
                        price,
                        current_timestamp,
                    ),
                forall|j: int| i <= j < 4 ==> self.data@[j] == orig.data@[j],
            decreases 4 - i,
        {
            proof {
                assert(orig.bucket(TimeWindow::all_spec()[i as int]) == orig.data@[i as int]);
            }
            let b = &mut self.data[i];
            b.update(price, current_timestamp);
            i = i + 1;
        }
        proof {
            assert(forall|w: TimeWindow| 0 <= #[trigger] Self::index_of(w) < 4);
            assert(forall|w: TimeWindow| #[trigger] final(self).bucket(w) == orig.bucket(
                w,
            ).update_spec(price, current_timestamp));
            assert(forall|w: TimeWindow| (#[trigger] final(self).bucket(w)).wf()) by {
                assert(forall|w: TimeWindow|
                    orig.bucket(w).update_spec(price, current_timestamp).unix_timestamp
                        + orig.bucket(w).update_spec(price, current_timestamp).time_window_seconds
                        <= u64::MAX);
            }
        }
    }
}

/// A tick stream applied to a whole bucket row, one window per column.
pub open spec fn row_apply_ticks(row: Seq<KLineData>, ticks: Seq<(u64, u64)>) -> Seq<KLineData>
    decreases ticks.len(),
{
    if ticks.len() == 0 {
        row
    } else {
        row_apply_ticks(row, ticks.drop_last()).map_values(
            |k: KLineData| k.update_spec(ticks.last().0, ticks.last().1),
        )
    }
}

/// Windows are independent: after any tick stream, one window's bucket is
/// the fold of that stream over its own starting bucket alone, so no other
/// window's reset can alter it.
pub proof fn lemma_windows_independent(row: Seq<KLineData>, ticks: Seq<(u64, u64)>, i: int)
    requires
        0 <= i < row.len(),
    ensures
        row_apply_ticks(row, ticks).len() == row.len(),
        row_apply_ticks(row, ticks)[i] == crate::kline::apply_ticks(row[i], ticks),
    decreases ticks.len(),
{
    if ticks.len() > 0 {
        lemma_windows_independent(row, ticks.drop_last(), i);
    }
}

} // verus!
