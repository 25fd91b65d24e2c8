//! The fixed set of aggregation windows and their wire identifiers.

use vstd::prelude::*;
use crate::bytes::{ascii_bytes, push_str_bytes};

verus! {

/// A fixed aggregation granularity at which OHLC summaries are maintained.
/// The set of windows is fixed at process start and never changes.
#[derive(Clone, Copy, Debug, PartialEq, Eq, Structural)]
pub enum TimeWindow {
    OneSecond,
    OneMinute,
    FiveMinutes,
    OneHour,
}

impl TimeWindow {
    /// The window's duration in seconds.
    pub open spec fn duration_secs(self) -> u64 {
        match self {
            TimeWindow::OneSecond => 1,
            TimeWindow::OneMinute => 60,
            TimeWindow::FiveMinutes => 300,
            TimeWindow::OneHour => 3600,
        }
    }

    /// The window's duration in seconds.
    pub fn seconds(&self) -> (r: u64)
        ensures
            r == self.duration_secs(),
    {
        match self {
            TimeWindow::OneSecond => 1,
            TimeWindow::OneMinute => 60,
            TimeWindow::FiveMinutes => 300,
            TimeWindow::OneHour => 3600,
        }
    }

    /// All configured windows, in a fixed order.
    pub open spec fn all_spec() -> Seq<TimeWindow> {
        seq![
            TimeWindow::OneSecond,
            TimeWindow::OneMinute,
            TimeWindow::FiveMinutes,
            TimeWindow::OneHour,
        ]
    }

    /// All configured windows, in the order of `all_spec`.
    pub fn all() -> (r: Vec<TimeWindow>)
        ensures
            r@ == Self::all_spec(),
    {
        let mut r: Vec<TimeWindow> = Vec::new();
        r.push(TimeWindow::OneSecond);
        r.push(TimeWindow::OneMinute);
        r.push(TimeWindow::FiveMinutes);
        r.push(TimeWindow::OneHour);
        proof {
            assert(r@ =~= Self::all_spec());
        }
        r
    }

    /// The bus routing key for this window: `key_` plus the duration.
    pub open spec fn key_spec(self) -> Seq<u8> {
        match self {
            TimeWindow::OneSecond => ascii_bytes("key_1"@),
            TimeWindow::OneMinute => ascii_bytes("key_60"@),
            TimeWindow::FiveMinutes => ascii_bytes("key_300"@),
            TimeWindow::OneHour => ascii_bytes("key_3600"@),
        }
    }

    /// The human label for this window, as the subscriber protocol spells it.
    pub open spec fn label_spec(self) -> Seq<u8> {
        match self {
            TimeWindow::OneSecond => ascii_bytes("1s"@),
            TimeWindow::OneMinute => ascii_bytes("1m"@),
            TimeWindow::FiveMinutes => ascii_bytes("5m"@),
            TimeWindow::OneHour => ascii_bytes("1h"@),
        }
    }

    /// The bus routing key, as bytes.
    pub fn key_bytes(&self) -> (r: Vec<u8>)
        ensures
            r@ == self.key_spec(),
    {
        let mut r: Vec<u8> = Vec::new();
        match self {
            TimeWindow::OneSecond => {
                proof {
                    reveal_strlit("key_1");
                    assert("key_1".is_ascii());
                }
                push_str_bytes(&mut r, "key_1");
            },
            TimeWindow::OneMinute => {
                proof {
                    reveal_strlit("key_60");
                    assert("key_60".is_ascii());
                }
                push_str_bytes(&mut r, "key_60");
            },
            TimeWindow::FiveMinutes => {
                proof {
                    reveal_strlit("key_300");
                    assert("key_300".is_ascii());
                }
                push_str_bytes(&mut r, "key_300");
            },
            TimeWindow::OneHour => {
                proof {
                    reveal_strlit("key_3600");
                    assert("key_3600".is_ascii());
                }
                push_str_bytes(&mut r, "key_3600");
            },
        }
        proof {
            assert(r@ =~= self.key_spec());
        }
        r
    }
}

/// No two windows share a routing key: the four keys have four lengths.
pub proof fn lemma_key_spec_injective(w1: TimeWindow, w2: TimeWindow)
    requires
        w1.key_spec() == w2.key_spec(),
    ensures
        w1 == w2,
{
    reveal_strlit("key_1");
    reveal_strlit("key_60");
    reveal_strlit("key_300");
    reveal_strlit("key_3600");
    assert(ascii_bytes("key_1"@).len() == 5);
    assert(ascii_bytes("key_60"@).len() == 6);
    assert(ascii_bytes("key_300"@).len() == 7);
    assert(ascii_bytes("key_3600"@).len() == 8);
}

} // verus!
