use kline::codec::{decode_kline, encode_kline};
use kline::kline::KLineData;
use kline::session::SubscriberState;
use kline::window::TimeWindow;

fn record() -> KLineData {
    KLineData {
        open: 1_000_000,
        high: 2_000_000,
        low: 500_000,
        close: 1_500_000,
        unix_timestamp: 1_700_000_000,
        time_window_seconds: 300,
    }
}

#[test]
fn encode_produces_exact_json() {
    let k = KLineData {
        open: 1,
        high: 2,
        low: 0,
        close: 1,
        unix_timestamp: 60,
        time_window_seconds: 60,
    };
    let expected = b"{\"open\":1,\"high\":2,\"low\":0,\"close\":1,\"unix_timestamp\":60,\"time_window_seconds\":60}".to_vec();
    assert_eq!(encode_kline(&k), expected);
}

#[test]
fn decode_inverts_encode() {
    let k = record();
    assert_eq!(decode_kline(&encode_kline(&k)), Some(k));
    let extreme = KLineData {
        open: 0,
        high: u64::MAX,
        low: 0,
        close: u64::MAX,
        unix_timestamp: 0,
        time_window_seconds: 1,
    };
    assert_eq!(decode_kline(&encode_kline(&extreme)), Some(extreme));
}

#[test]
fn decode_rejects_malformed_payloads() {
    assert_eq!(decode_kline(b"not json at all"), None);
    assert_eq!(decode_kline(b""), None);
    // A leading zero is not the canonical digits of any number.
    assert_eq!(
        decode_kline(
            b"{\"open\":01,\"high\":2,\"low\":0,\"close\":1,\"unix_timestamp\":60,\"time_window_seconds\":60}",
        ),
        None
    );
    // Trailing bytes after the closing brace.
    let mut tail = encode_kline(&record());
    tail.push(b' ');
    assert_eq!(decode_kline(&tail), None);
    // A truncated record.
    let whole = encode_kline(&record());
    assert_eq!(decode_kline(&whole[..whole.len() - 1]), None);
}

#[test]
fn subscribe_five_minutes_then_filter() {
    let mut s = SubscriberState::Unsubscribed;
    let reply = s.apply_command(b"sub-5m");
    assert_eq!(reply, Some(b"Subscribed to 5m".to_vec()));
    assert_eq!(s, SubscriberState::Subscribed(TimeWindow::FiveMinutes));

    let payload = encode_kline(&record());
    // Only messages keyed to the 300-second window are delivered.
    assert_eq!(s.on_bus_message(b"key_300", &payload), Some(payload.clone()));
    assert_eq!(s.on_bus_message(b"key_60", &payload), None);
    assert_eq!(s.on_bus_message(b"key_1", &payload), None);
    assert_eq!(s.on_bus_message(b"key_3600", &payload), None);

    // An invalid label is answered with an error and changes nothing.
    let reply = s.apply_command(b"sub-bogus");
    assert_eq!(reply, Some(b"Error: Invalid time window: bogus".to_vec()));
    assert_eq!(s, SubscriberState::Subscribed(TimeWindow::FiveMinutes));
    assert_eq!(s.on_bus_message(b"key_300", &payload), Some(payload.clone()));
}

#[test]
fn unsubscribed_forwards_nothing() {
    let s = SubscriberState::Unsubscribed;
    let payload = encode_kline(&record());
    assert_eq!(s.on_bus_message(b"key_1", &payload), None);
    assert_eq!(s.on_bus_message(b"key_60", &payload), None);
    assert_eq!(s.on_bus_message(b"key_300", &payload), None);
    assert_eq!(s.on_bus_message(b"key_3600", &payload), None);
}

#[test]
fn unsub_clears_subscription() {
    let mut s = SubscriberState::Unsubscribed;
    s.apply_command(b"sub-1m");
    assert_eq!(s, SubscriberState::Subscribed(TimeWindow::OneMinute));
    let reply = s.apply_command(b"unsub");
    assert_eq!(reply, Some(b"Unsubscribed from all channels".to_vec()));
    assert_eq!(s, SubscriberState::Unsubscribed);
    let payload = encode_kline(&record());
    assert_eq!(s.on_bus_message(b"key_60", &payload), None);
}

#[test]
fn new_subscription_supersedes_old() {
    let mut s = SubscriberState::Unsubscribed;
    s.apply_command(b"sub-1m");
    let payload = encode_kline(&record());
    assert_eq!(s.on_bus_message(b"key_60", &payload), Some(payload.clone()));
    s.apply_command(b"sub-1h");
    // No message for the old window is forwarded after the switch.
    assert_eq!(s.on_bus_message(b"key_60", &payload), None);
    assert_eq!(s.on_bus_message(b"key_3600", &payload), Some(payload.clone()));
}

#[test]
fn other_text_is_ignored() {
    let mut s = SubscriberState::Unsubscribed;
    assert_eq!(s.apply_command(b"hello"), None);
    assert_eq!(s, SubscriberState::Unsubscribed);
    s.apply_command(b"sub-1s");
    assert_eq!(s.apply_command(b"ping pong"), None);
    assert_eq!(s, SubscriberState::Subscribed(TimeWindow::OneSecond));
    // "unsub" must stand alone after trimming.
    assert_eq!(s.apply_command(b"unsubscribe please"), None);
    assert_eq!(s, SubscriberState::Subscribed(TimeWindow::OneSecond));
}

#[test]
fn commands_are_trimmed() {
    let mut s = SubscriberState::Unsubscribed;
    let reply = s.apply_command(b"  sub-1h \r\n");
    assert_eq!(reply, Some(b"Subscribed to 1h".to_vec()));
    assert_eq!(s, SubscriberState::Subscribed(TimeWindow::OneHour));
    let reply = s.apply_command(b"\tunsub\n");
    assert_eq!(reply, Some(b"Unsubscribed from all channels".to_vec()));
    assert_eq!(s, SubscriberState::Unsubscribed);
}

#[test]
fn malformed_payload_is_dropped_not_forwarded() {
    let mut s = SubscriberState::Unsubscribed;
    s.apply_command(b"sub-1s");
    assert_eq!(s.on_bus_message(b"key_1", b"{\"open\":broken"), None);
    // A well-formed payload on the same key still goes through.
    let payload = encode_kline(&record());
    assert_eq!(s.on_bus_message(b"key_1", &payload), Some(payload));
}

#[test]
fn routing_keys_match_windows() {
    assert_eq!(TimeWindow::OneSecond.key_bytes(), b"key_1".to_vec());
    assert_eq!(TimeWindow::OneMinute.key_bytes(), b"key_60".to_vec());
    assert_eq!(TimeWindow::FiveMinutes.key_bytes(), b"key_300".to_vec());
    assert_eq!(TimeWindow::OneHour.key_bytes(), b"key_3600".to_vec());
}
