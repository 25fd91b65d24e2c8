//! The per-subscriber state machine: command handling and the
//! filter-and-forward step for bus messages.

use vstd::prelude::*;
use crate::bytes::{ascii_bytes, bytes_eq, push_range, push_str_bytes, range_eq_str};
use crate::codec::{decode_kline, encode_spec};
use crate::kline::KLineData;
use crate::window::TimeWindow;

verus! {

/// Whether a byte is ASCII whitespace, as the command parser trims it.
pub open spec fn is_ws(b: u8) -> bool {
    b == 32 || b == 9 || b == 10 || b == 13
}

/// A byte string without its leading whitespace.
pub open spec fn trim_front(s: Seq<u8>) -> Seq<u8>
    decreases s.len(),
{
    if s.len() > 0 && is_ws(s[0]) {
        trim_front(s.drop_first())
    } else {
        s
    }
}

/// A byte string without its trailing whitespace.
pub open spec fn trim_back(s: Seq<u8>) -> Seq<u8>
    decreases s.len(),
{
    if s.len() > 0 && is_ws(s.last()) {
        trim_back(s.drop_last())
    } else {
        s
    }
}

/// A byte string without leading or trailing whitespace.
pub open spec fn trim_spec(s: Seq<u8>) -> Seq<u8> {
    trim_back(trim_front(s))
}

proof fn lemma_trim_front_index(s: Seq<u8>, i: int)
    requires
        0 <= i <= s.len(),
        forall|j: int| 0 <= j < i ==> is_ws(#[trigger] s[j]),
        i == s.len() || !is_ws(s[i]),
    ensures
        trim_front(s) == s.subrange(i, s.len() as int),
    decreases i,
{
    if i == 0 {
        assert(trim_front(s) =~= s.subrange(0, s.len() as int));
    } else {
        let s1 = s.drop_first();
        assert(forall|j: int| 0 <= j < i - 1 ==> is_ws(#[trigger] s1[j]));
        lemma_trim_front_index(s1, i - 1);
        assert(s1.subrange(i - 1, s1.len() as int) =~= s.subrange(i, s.len() as int));
    }
}

proof fn lemma_trim_back_index(s: Seq<u8>, e: int)
    requires
        0 <= e <= s.len(),
        forall|j: int| e <= j < s.len() ==> is_ws(#[trigger] s[j]),
        e == 0 || !is_ws(s[e - 1]),
    ensures
        trim_back(s) == s.subrange(0, e),
    decreases s.len(),
{
    if e == s.len() {
        assert(trim_back(s) =~= s.subrange(0, e));
    } else {
        let s1 = s.drop_last();
        assert(is_ws(s.last()));
        lemma_trim_back_index(s1, e);
        assert(s1.subrange(0, e) =~= s.subrange(0, e));
    }
}

/// The trimmed range of a byte string: `text[r.0 .. r.1]` is `trim_spec`.
fn trim_range(text: &[u8]) -> (r: (usize, usize))
    ensures
        r.0 <= r.1 <= text@.len(),
        text@.subrange(r.0 as int, r.1 as int) == trim_spec(text@),
{
    let len = text.len();
    let mut a: usize = 0;
    while a < len && (text[a] == 32 || text[a] == 9 || text[a] == 10 || text[a] == 13)
        invariant
            len == text@.len(),
            a <= len,
            forall|j: int| 0 <= j < a ==> is_ws(#[trigger] text@[j]),
        decreases len - a,
    {
        a = a + 1;
    }
    let mut e: usize = len;
    while e > a && (text[e - 1] == 32 || text[e - 1] == 9 || text[e - 1] == 10 || text[e - 1]
        == 13)
        invariant
            len == text@.len(),
            a <= e <= len,
            forall|j: int| 0 <= j < a ==> is_ws(#[trigger] text@[j]),
            forall|j: int| e <= j < len ==> is_ws(#[trigger] text@[j]),
        decreases e,
    {
        e = e - 1;
    }
    proof {
        lemma_trim_front_index(text@, a as int);
        let t = text@.subrange(a as int, len as int);
        assert(forall|j: int| (e - a) <= j < t.len() ==> is_ws(#[trigger] t[j]));
        lemma_trim_back_index(t, e - a);
        assert(t.subrange(0, e - a) =~= text@.subrange(a as int, e as int));
    }
    (a, e)
}

/// The window a subscription label names, if any.
pub open spec fn window_of_label(label: Seq<u8>) -> Option<TimeWindow> {
    if label == ascii_bytes("1s"@) {
        Some(TimeWindow::OneSecond)
    } else if label == ascii_bytes("1m"@) {
        Some(TimeWindow::OneMinute)
    } else if label == ascii_bytes("5m"@) {
        Some(TimeWindow::FiveMinutes)
    } else if label == ascii_bytes("1h"@) {
        Some(TimeWindow::OneHour)
    } else {
        None
    }
}

/// The acknowledgement for a successful subscription.
pub open spec fn reply_subscribed(label: Seq<u8>) -> Seq<u8> {
    ascii_bytes("Subscribed to "@) + label
}

/// The error reply for an unrecognized label; non-fatal to the session.
pub open spec fn reply_invalid(label: Seq<u8>) -> Seq<u8> {
    ascii_bytes("Error: Invalid time window: "@) + label
}

/// The acknowledgement for an unsubscribe command.
pub open spec fn reply_unsubscribed() -> Seq<u8> {
    ascii_bytes("Unsubscribed from all channels"@)
}

/// Per-subscriber state: at most one active window subscription.
#[derive(Clone, Copy, Debug, PartialEq, Eq, Structural)]
pub enum SubscriberState {
    Unsubscribed,
    Subscribed(TimeWindow),
}

/// The command transition: `sub-<label>` subscribes (replacing any prior
/// subscription) and is acknowledged; an unrecognized label changes nothing
/// and is answered with an error; `unsub` unconditionally unsubscribes and
/// is acknowledged; any other text is ignored.
pub open spec fn command_step(s: SubscriberState, text: Seq<u8>) -> (SubscriberState, Option<
    Seq<u8>,
>) {
    let t = trim_spec(text);
    if t.len() >= 4 && t.subrange(0, 4) == ascii_bytes("sub-"@) {
        let label = t.subrange(4, t.len() as int);
        match window_of_label(label) {
            Some(w) => (SubscriberState::Subscribed(w), Some(reply_subscribed(label))),
            None => (s, Some(reply_invalid(label))),
        }
    } else if t == ascii_bytes("unsub"@) {
        (SubscriberState::Unsubscribed, Some(reply_unsubscribed()))
    } else {
        (s, None)
    }
}

/// Whether the session forwards a bus message with this routing key.
pub open spec fn forward_spec(s: SubscriberState, key: Seq<u8>) -> bool {
    match s {
        SubscriberState::Subscribed(w) => key == w.key_spec(),
        SubscriberState::Unsubscribed => false,
    }
}

impl SubscriberState {
    /// Apply one line of subscriber text, following `command_step`; the
    /// reply, if any, is written back to that subscriber alone.
    pub fn apply_command(&mut self, text: &[u8]) -> (reply: Option<Vec<u8>>)
        ensures
            *final(self) == command_step(*old(self), text@).0,
            match reply {
                Some(v) => command_step(*old(self), text@).1 == Some(v@),
                None => command_step(*old(self), text@).1 is None,
            },
    {
        proof {
            reveal_strlit("sub-");
            assert("sub-".is_ascii());
            reveal_strlit("unsub");
            assert("unsub".is_ascii());
            reveal_strlit("1s");
            assert("1s".is_ascii());
            reveal_strlit("1m");
            assert("1m".is_ascii());
            reveal_strlit("5m");
            assert("5m".is_ascii());
            reveal_strlit("1h");
            assert("1h".is_ascii());
            reveal_strlit("Subscribed to ");
            assert("Subscribed to ".is_ascii());
            reveal_strlit("Error: Invalid time window: ");
            assert("Error: Invalid time window: ".is_ascii());
            reveal_strlit("Unsubscribed from all channels");
            assert("Unsubscribed from all channels".is_ascii());
        }
        let (a, e) = trim_range(text);
        let ghost t = trim_spec(text@);
        if e - a >= 4 && range_eq_str(text, a, a + 4, "sub-") {
            proof {
                assert(text@.subrange(a as int, (a + 4) as int) =~= t.subrange(0, 4));
                assert(text@.subrange((a + 4) as int, e as int) =~= t.subrange(4, t.len() as int));
            }
            let ghost label = t.subrange(4, t.len() as int);
            let w: Option<TimeWindow> = if range_eq_str(text, a + 4, e, "1s") {
                Some(TimeWindow::OneSecond)
            } else if range_eq_str(text, a + 4, e, "1m") {
                Some(TimeWindow::OneMinute)
            } else if range_eq_str(text, a + 4, e, "5m") {
                Some(TimeWindow::FiveMinutes)
            } else if range_eq_str(text, a + 4, e, "1h") {
                Some(TimeWindow::OneHour)
            } else {
                None
            };
            match w {
                Some(win) => {
                    *self = SubscriberState::Subscribed(win);
                    let mut reply: Vec<u8> = Vec::new();
                    push_str_bytes(&mut reply, "Subscribed to ");
                    push_range(&mut reply, text, a + 4, e);
                    proof {
                        assert(reply@ =~= reply_subscribed(label));
                    }
                    Some(reply)
                },
                None => {
                    let mut reply: Vec<u8> = Vec::new();
                    push_str_bytes(&mut reply, "Error: Invalid time window: ");
                    push_range(&mut reply, text, a + 4, e);
                    proof {
                        assert(reply@ =~= reply_invalid(label));
                    }
                    Some(reply)
                },
            }
        } else if range_eq_str(text, a, e, "unsub") {
            proof {
                assert(text@.subrange(a as int, e as int) == t);
                if t.len() >= 4 {
                    assert(text@.subrange(a as int, (a + 4) as int) =~= t.subrange(0, 4));
                }
            }
            *self = SubscriberState::Unsubscribed;
            let mut reply: Vec<u8> = Vec::new();
            push_str_bytes(&mut reply, "Unsubscribed from all channels");
            proof {
                assert(reply@ =~= reply_unsubscribed());
            }
            Some(reply)
        } else {
            proof {
                if t.len() >= 4 {
                    assert(text@.subrange(a as int, (a + 4) as int) =~= t.subrange(0, 4));
                }
            }
            None
        }
    }

    /// Whether a bus message with this routing key passes the filter.
    pub fn should_forward(&self, key: &[u8]) -> (r: bool)
        ensures
            r == forward_spec(*self, key@),
    {
        match self {
            SubscriberState::Unsubscribed => false,
            SubscriberState::Subscribed(w) => {
                let kb = w.key_bytes();
                bytes_eq(key, kb.as_slice())
            },
        }
    }

    /// The filter-and-forward step for one bus message: the payload is
    /// written back verbatim exactly when this session is subscribed to the
    /// window the routing key names and the payload is a well-formed record;
    /// a malformed payload is dropped, never forwarded.
    pub fn on_bus_message(&self, key: &[u8], payload: &[u8]) -> (fwd: Option<Vec<u8>>)
        ensures
            !forward_spec(*self, key@) ==> fwd is None,
            forward_spec(*self, key@) && (exists|k: KLineData| payload@ == encode_spec(k))
                ==> fwd is Some,
            match fwd {
                Some(p) => forward_spec(*self, key@) && p@ == payload@ && exists|k: KLineData|
                    payload@ == encode_spec(k),
                None => true,
            },
    {
        if self.should_forward(key) {
            match decode_kline(payload) {
                Some(_) => {
                    let mut p: Vec<u8> = Vec::new();
                    push_range(&mut p, payload, 0, payload.len());
                    proof {
                        assert(p@ =~= payload@);
                    }
                    Some(p)
                },
                None => None,
            }
        } else {
            None
        }
    }
}

/// An unsubscribed session forwards no bus message, whatever its key.
pub proof fn lemma_unsubscribed_forwards_nothing()
    ensures
        forall|key: Seq<u8>| !(#[trigger] forward_spec(SubscriberState::Unsubscribed, key)),
{
}

/// A session subscribed to `w` passes exactly the messages keyed by `w`'s
/// routing key, and no others.
pub proof fn lemma_subscribed_filters_exactly(w: TimeWindow)
    ensures
        forall|key: Seq<u8>| #[trigger] forward_spec(SubscriberState::Subscribed(w), key)
            <==> key == w.key_spec(),
{
}

/// A new subscription supersedes the old one at once: after a command that
/// subscribes to `w_new`, no message keyed to a different window passes.
pub proof fn lemma_subscribe_supersedes(
    s: SubscriberState,
    text: Seq<u8>,
    w_new: TimeWindow,
    w_old: TimeWindow,
)
    requires
        command_step(s, text).0 == SubscriberState::Subscribed(w_new),
        w_old != w_new,
    ensures
        !forward_spec(command_step(s, text).0, w_old.key_spec()),
{
    if forward_spec(command_step(s, text).0, w_old.key_spec()) {
        crate::window::lemma_key_spec_injective(w_old, w_new);
    }
}

} // verus!
