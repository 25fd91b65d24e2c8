use kline::aggregator::KLineAggregator;
use kline::kline::KLineData;
use kline::relay::bus_messages;
use kline::window::TimeWindow;

// Prices are integer price units; one unit stream mirrors a 1.0 / 2.0 / 0.5
// price sequence at a scale of one million.
const P_1_0: u64 = 1_000_000;
const P_2_0: u64 = 2_000_000;
const P_0_5: u64 = 500_000;

#[test]
fn bucket_first_tick_resets_then_accumulates() {
    // A window of 60 seconds opened at 0; the first live tick lands past the
    // window, resets all four prices, and advances the start by exactly 60.
    let mut k = KLineData::new(0, 60);
    k.update(P_1_0, 61);
    assert_eq!(k.open, P_1_0);
    assert_eq!(k.high, P_1_0);
    assert_eq!(k.low, P_1_0);
    assert_eq!(k.close, P_1_0);
    assert_eq!(k.unix_timestamp, 60);

    // A second tick inside the window folds into high/low/close only.
    k.update(P_2_0, 91);
    assert_eq!(k.open, P_1_0);
    assert_eq!(k.high, P_2_0);
    assert_eq!(k.low, P_1_0);
    assert_eq!(k.close, P_2_0);
    assert_eq!(k.unix_timestamp, 60);

    // A tick past the boundary resets again and advances the start by 60.
    k.update(P_0_5, 125);
    assert_eq!(k.open, P_0_5);
    assert_eq!(k.high, P_0_5);
    assert_eq!(k.low, P_0_5);
    assert_eq!(k.close, P_0_5);
    assert_eq!(k.unix_timestamp, 120);
}

#[test]
fn bucket_running_high_low_close() {
    let mut k = KLineData::new(100, 60);
    k.update(5, 161); // reset: window start becomes 160
    for (price, t) in [(9u64, 162u64), (3, 163), (7, 164)] {
        k.update(price, t);
    }
    assert_eq!(k.open, 5);
    assert_eq!(k.high, 9);
    assert_eq!(k.low, 3);
    assert_eq!(k.close, 7);
    assert_eq!(k.unix_timestamp, 160);
}

#[test]
fn bucket_gap_advances_one_duration_only() {
    // A gap of many windows still advances the start by exactly one
    // duration; the start is left lagging behind the tick's own window.
    let mut k = KLineData::new(0, 60);
    k.update(42, 100_000);
    assert_eq!(k.unix_timestamp, 60);
    assert_eq!(k.open, 42);
    assert_eq!(k.close, 42);
}

#[test]
fn aggregator_aligns_each_window_down() {
    let agg = KLineAggregator::from_unix_time(1_000_000);
    let one_s = agg.get_klines(TimeWindow::OneSecond);
    assert_eq!(one_s.unix_timestamp, 999_999);
    assert_eq!(one_s.time_window_seconds, 1);
    let one_m = agg.get_klines(TimeWindow::OneMinute);
    assert_eq!(one_m.unix_timestamp, 999_900);
    assert_eq!(one_m.time_window_seconds, 60);
    let five_m = agg.get_klines(TimeWindow::FiveMinutes);
    assert_eq!(five_m.unix_timestamp, 999_600);
    assert_eq!(five_m.time_window_seconds, 300);
    let one_h = agg.get_klines(TimeWindow::OneHour);
    assert_eq!(one_h.unix_timestamp, 993_600);
    assert_eq!(one_h.time_window_seconds, 3600);
    for k in agg.get_all_klines() {
        assert_eq!(k.open, 0);
        assert_eq!(k.high, 0);
        assert_eq!(k.low, 0);
        assert_eq!(k.close, 0);
    }
}

#[test]
fn aggregator_new_uses_wall_clock_alignment() {
    let agg = KLineAggregator::new();
    for w in TimeWindow::all() {
        let k = agg.get_klines(w);
        assert_eq!(k.time_window_seconds, w.seconds());
        assert_eq!(k.unix_timestamp % w.seconds(), 0);
        assert_eq!(k.open, 0);
    }
}

#[test]
fn aggregator_windows_are_independent() {
    let mut agg = KLineAggregator::from_unix_time(10_000);
    agg.update(5, 10_001);
    agg.update(7, 10_001);
    // The one-second bucket resets on the next second...
    agg.update(3, 10_002);
    let one_s = agg.get_klines(TimeWindow::OneSecond);
    assert_eq!(one_s.open, 3);
    assert_eq!(one_s.high, 3);
    assert_eq!(one_s.low, 3);
    assert_eq!(one_s.close, 3);
    // ...while the one-minute bucket keeps accumulating, unaffected.
    let one_m = agg.get_klines(TimeWindow::OneMinute);
    assert_eq!(one_m.open, 5);
    assert_eq!(one_m.high, 7);
    assert_eq!(one_m.low, 3);
    assert_eq!(one_m.close, 3);
    // ...and so does the one-hour bucket.
    let one_h = agg.get_klines(TimeWindow::OneHour);
    assert_eq!(one_h.open, 5);
    assert_eq!(one_h.high, 7);
    assert_eq!(one_h.low, 3);
    assert_eq!(one_h.close, 3);
}

#[test]
fn relay_builds_one_message_per_window() {
    let agg = KLineAggregator::from_unix_time(10_000);
    let msgs = bus_messages(&agg);
    assert_eq!(msgs.len(), 4);
    assert_eq!(msgs[0].key, b"key_1".to_vec());
    assert_eq!(msgs[1].key, b"key_60".to_vec());
    assert_eq!(msgs[2].key, b"key_300".to_vec());
    assert_eq!(msgs[3].key, b"key_3600".to_vec());
    let one_s = agg.get_klines(TimeWindow::OneSecond);
    assert_eq!(msgs[0].payload, kline::codec::encode_kline(one_s));
}

#[test]
fn publish_failure_does_not_stall_aggregation() {
    // The relay's output is fire-and-forget: losing a whole snapshot (here,
    // dropping it) has no effect on the next tick's processing.
    let mut agg = KLineAggregator::from_unix_time(10_000);
    agg.update(5, 10_001);
    let lost = bus_messages(&agg);
    drop(lost);
    agg.update(9, 10_001);
    let one_m = agg.get_klines(TimeWindow::OneMinute);
    assert_eq!(one_m.high, 9);
    assert_eq!(one_m.close, 9);
    let again = bus_messages(&agg);
    assert_eq!(again.len(), 4);
}

#[test]
fn windows_list_and_durations() {
    let all = TimeWindow::all();
    assert_eq!(all.len(), 4);
    assert_eq!(all[0].seconds(), 1);
    assert_eq!(all[1].seconds(), 60);
    assert_eq!(all[2].seconds(), 300);
    assert_eq!(all[3].seconds(), 3600);
}
