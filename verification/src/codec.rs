//! The wire form of a candlestick record: one JSON object with six unsigned
//! integer fields, encoded and checked byte by byte.

use vstd::prelude::*;
use crate::bytes::{ascii_bytes, push_str_bytes};
use crate::kline::KLineData;

verus! {

/// Whether a byte is an ASCII decimal digit.
pub open spec fn is_digit(b: u8) -> bool {
    48 <= b <= 57
}

/// The decimal digits of `n`, most significant first, no leading zeros.
pub open spec fn dec_digits(n: nat) -> Seq<u8>
    decreases n,
{
    if n < 10 {
        seq![(48 + n) as u8]
    } else {
        dec_digits(n / 10).push((48 + n % 10) as u8)
    }
}

/// The value of a sequence of decimal digit bytes.
pub open spec fn digits_val(ds: Seq<u8>) -> nat
    decreases ds.len(),
{
    if ds.len() == 0 {
        0
    } else {
        digits_val(ds.drop_last()) * 10 + (ds.last() - 48) as nat
    }
}

/// Printing is a left inverse of reading: a nonempty digit string without a
/// leading zero prints back from its value unchanged.
pub proof fn lemma_dec_digits_of_val(ds: Seq<u8>)
    requires
        ds.len() >= 1,
        forall|i: int| 0 <= i < ds.len() ==> is_digit(#[trigger] ds[i]),
        ds[0] != 48 || ds.len() == 1,
    ensures
        dec_digits(digits_val(ds)) == ds,
        ds[0] != 48 ==> digits_val(ds) >= 1,
    decreases ds.len(),
{
    if ds.len() == 1 {
        let v = digits_val(ds);
        assert(ds.drop_last().len() == 0);
        assert(digits_val(ds.drop_last()) == 0);
        assert(ds.last() == ds[0]);
        assert(v == (ds[0] - 48) as nat);
        assert(dec_digits(v) =~= ds);
    } else {
        let ds0 = ds.drop_last();
        let d = ds.last();
        lemma_dec_digits_of_val(ds0);
        let v0 = digits_val(ds0);
        let v = digits_val(ds);
        assert(v == v0 * 10 + (d - 48) as nat);
        assert(v0 >= 1);
        assert(v >= 10 && v / 10 == v0 && v % 10 == (d - 48) as nat) by (nonlinear_arith)
            requires
                v == v0 * 10 + (d - 48) as nat,
                v0 >= 1,
                ((d - 48) as nat) < 10;
        assert(dec_digits(v) =~= ds);
    }
}

/// Reading is a left inverse of printing: the digits of `n` read back as `n`.
pub proof fn lemma_val_of_dec_digits(n: nat)
    ensures
        digits_val(dec_digits(n)) == n,
    decreases n,
{
    if n < 10 {
        let ds = dec_digits(n);
        assert(ds.drop_last().len() == 0);
        assert(digits_val(ds.drop_last()) == 0);
        assert(digits_val(ds) == ((48 + n) as u8 - 48) as nat);
    } else {
        lemma_val_of_dec_digits(n / 10);
        let ds = dec_digits(n);
        assert(ds.drop_last() =~= dec_digits(n / 10));
        assert(ds.last() == (48 + n % 10) as u8);
        vstd::arithmetic::div_mod::lemma_fundamental_div_mod(n as int, 10);
    }
}

/// The digits of a number are nonempty decimal digits, and only zero's
/// digits start with a zero.
pub proof fn lemma_dec_digits_props(n: nat)
    ensures
        dec_digits(n).len() >= 1,
        forall|i: int| 0 <= i < dec_digits(n).len() ==> is_digit(#[trigger] dec_digits(n)[i]),
        n >= 1 ==> dec_digits(n)[0] != 48,
        n < 10 ==> dec_digits(n).len() == 1,
    decreases n,
{
    if n >= 10 {
        lemma_dec_digits_props(n / 10);
        assert(dec_digits(n)[0] == dec_digits(n / 10)[0]);
    }
}

/// A digit string's prefix never reads as more than the whole.
proof fn lemma_digits_val_prefix(ds: Seq<u8>, i: int)
    requires
        0 <= i <= ds.len(),
        forall|j: int| 0 <= j < ds.len() ==> is_digit(#[trigger] ds[j]),
    ensures
        digits_val(ds.take(i)) <= digits_val(ds),
    decreases ds.len() - i,
{
    if i == ds.len() {
        assert(ds.take(i) =~= ds);
    } else {
        let ds0 = ds.drop_last();
        lemma_digits_val_prefix(ds0, i);
        assert(ds0.take(i) =~= ds.take(i));
        let v0 = digits_val(ds0);
        assert(digits_val(ds) == v0 * 10 + (ds.last() - 48) as nat);
        assert(v0 * 10 >= v0) by (nonlinear_arith);
    }
}

/// Splitting a suffix known to be a concatenation, at the seam.
proof fn lemma_peel(b: Seq<u8>, p: int, piece: Seq<u8>, rest: Seq<u8>)
    requires
        0 <= p <= b.len(),
        b.subrange(p, b.len() as int) == piece + rest,
    ensures
        p + piece.len() <= b.len(),
        b.subrange(p, p + piece.len()) == piece,
        b.subrange(p + piece.len(), b.len() as int) == rest,
{
    let s = b.subrange(p, b.len() as int);
    assert(s.len() == piece.len() + rest.len());
    assert forall|i: int| 0 <= i < piece.len() implies b.subrange(p, p + piece.len())[i]
        == piece[i] by {
        assert(s[i] == (piece + rest)[i]);
    }
    assert(b.subrange(p, p + piece.len()) =~= piece);
    assert forall|i: int| 0 <= i < rest.len() implies b.subrange(
        p + piece.len(),
        b.len() as int,
    )[i] == rest[i] by {
        assert(s[piece.len() + i] == (piece + rest)[piece.len() + i]);
    }
    assert(b.subrange(p + piece.len(), b.len() as int) =~= rest);
}

/// Append the decimal digits of `n`.
pub fn push_dec(out: &mut Vec<u8>, n: u64)
    ensures
        final(out)@ == old(out)@ + dec_digits(n as nat),
    decreases n,
{
    if n < 10 {
        out.push(48 + n as u8);
        proof {
            assert(final(out)@ =~= old(out)@ + dec_digits(n as nat));
        }
    } else {
        push_dec(out, n / 10);
        out.push(48 + (n % 10) as u8);
        proof {
            assert(final(out)@ =~= old(out)@ + dec_digits(n as nat));
        }
    }
}

/// The serialized form of a record: a JSON object whose six fields are the
/// record's fields, in a fixed order, as plain decimal numbers.
pub open spec fn encode_spec(k: KLineData) -> Seq<u8> {
    ascii_bytes("{\"open\":"@) + dec_digits(k.open as nat) + ascii_bytes(",\"high\":"@)
        + dec_digits(k.high as nat) + ascii_bytes(",\"low\":"@) + dec_digits(k.low as nat)
        + ascii_bytes(",\"close\":"@) + dec_digits(k.close as nat) + ascii_bytes(
        ",\"unix_timestamp\":"@,
    ) + dec_digits(k.unix_timestamp as nat) + ascii_bytes(",\"time_window_seconds\":"@)
        + dec_digits(k.time_window_seconds as nat) + ascii_bytes("}"@)
}

/// The wire form from `high`'s field name on.
pub open spec fn enc_from_high(k: KLineData) -> Seq<u8> {
    ascii_bytes(",\"high\":"@) + (dec_digits(k.high as nat) + enc_from_low(k))
}

/// The wire form from `low`'s field name on.
pub open spec fn enc_from_low(k: KLineData) -> Seq<u8> {
    ascii_bytes(",\"low\":"@) + (dec_digits(k.low as nat) + enc_from_close(k))
}

/// The wire form from `close`'s field name on.
pub open spec fn enc_from_close(k: KLineData) -> Seq<u8> {
    ascii_bytes(",\"close\":"@) + (dec_digits(k.close as nat) + enc_from_timestamp(k))
}

/// The wire form from the timestamp's field name on.
pub open spec fn enc_from_timestamp(k: KLineData) -> Seq<u8> {
    ascii_bytes(",\"unix_timestamp\":"@) + (dec_digits(k.unix_timestamp as nat) + enc_from_window(
        k,
    ))
}

/// The wire form from the window duration's field name on.
pub open spec fn enc_from_window(k: KLineData) -> Seq<u8> {
    ascii_bytes(",\"time_window_seconds\":"@) + (dec_digits(k.time_window_seconds as nat)
        + ascii_bytes("}"@))
}

/// The whole wire form, peeled one field at a time from the front.
#[verifier::rlimit(100)]
pub proof fn lemma_encode_unfold(k: KLineData)
    ensures
        encode_spec(k) == ascii_bytes("{\"open\":"@) + (dec_digits(k.open as nat) + enc_from_high(
            k,
        )),
{
    assert(encode_spec(k) =~= ascii_bytes("{\"open\":"@) + (dec_digits(k.open as nat)
        + enc_from_high(k)));
}

/// Serialize a record to its wire form.
pub fn encode_kline(k: &KLineData) -> (r: Vec<u8>)
    ensures
        r@ == encode_spec(*k),
{
    proof {
        reveal_strlit("{\"open\":");
        reveal_strlit(",\"high\":");
        reveal_strlit(",\"low\":");
        reveal_strlit(",\"close\":");
        reveal_strlit(",\"unix_timestamp\":");
        reveal_strlit(",\"time_window_seconds\":");
        reveal_strlit("}");
    }
    let mut r: Vec<u8> = Vec::new();
    push_str_bytes(&mut r, "{\"open\":");
    push_dec(&mut r, k.open);
    push_str_bytes(&mut r, ",\"high\":");
    push_dec(&mut r, k.high);
    push_str_bytes(&mut r, ",\"low\":");
    push_dec(&mut r, k.low);
    push_str_bytes(&mut r, ",\"close\":");
    push_dec(&mut r, k.close);
    push_str_bytes(&mut r, ",\"unix_timestamp\":");
    push_dec(&mut r, k.unix_timestamp);
    push_str_bytes(&mut r, ",\"time_window_seconds\":");
    push_dec(&mut r, k.time_window_seconds);
    push_str_bytes(&mut r, "}");
    proof {
        assert(r@ =~= encode_spec(*k));
    }
    r
}

/// Match one fixed ASCII literal at `pos`: the match succeeds if and only
/// if the bytes there are exactly that literal.
fn expect_lit(bytes: &[u8], pos: usize, s: &str) -> (r: Option<usize>)
    requires
        s.is_ascii(),
        pos <= bytes@.len(),
    ensures
        match r {
            Some(p) => pos + s@.len() == p && p <= bytes@.len() && bytes@.subrange(
                pos as int,
                p as int,
            ) == ascii_bytes(s@),
            None => pos + s@.len() > bytes@.len() || bytes@.subrange(
                pos as int,
                pos + s@.len(),
            ) != ascii_bytes(s@),
        },
{
    proof {
        broadcast use vstd::string::is_ascii_spec_bytes;
    }
    let lit = s.as_bytes();
    if bytes.len() - pos < lit.len() {
        return None;
    }
    let n = lit.len();
    let blen = bytes.len();
    let mut i: usize = 0;
    while i < n
        invariant
            n == lit@.len(),
            lit@ == ascii_bytes(s@),
            blen == bytes@.len(),
            pos + n <= blen,
            i <= n,
            forall|j: int| 0 <= j < i ==> bytes@[pos + j] == lit@[j],
        decreases n - i,
    {
        if bytes[pos + i] != lit[i] {
            proof {
                assert(bytes@.subrange(pos as int, pos + n)[i as int] != ascii_bytes(s@)[i as int]);
            }
            return None;
        }
        i = i + 1;
    }
    proof {
        assert(bytes@.subrange(pos as int, (pos + n) as int) =~= ascii_bytes(s@));
    }
    Some(pos + n)
}

/// Whether the bytes at `pos` are exactly the decimal digits of `v`,
/// followed by the end of input or a non-digit.
pub open spec fn numeral_at(b: Seq<u8>, pos: int, v: u64) -> bool {
    let ds = dec_digits(v as nat);
    &&& pos + ds.len() <= b.len()
    &&& b.subrange(pos, pos + ds.len()) == ds
    &&& (pos + ds.len() == b.len() || !is_digit(b[pos + ds.len()]))
}

/// Read a decimal number at `pos`: a maximal, nonempty digit run with no
/// leading zero, whose value fits in `u64`. On success the consumed bytes
/// are exactly the value's own decimal digits; where a numeral is known to
/// stand at `pos` (the ghost hypothesis), reading it cannot fail.
fn parse_u64(bytes: &[u8], pos: usize, expected: Ghost<Option<u64>>) -> (r: Option<(u64, usize)>)
    requires
        pos <= bytes@.len(),
        expected@ matches Some(v) ==> numeral_at(bytes@, pos as int, v),
    ensures
        match r {
            Some(vp) => pos < vp.1 <= bytes@.len() && bytes@.subrange(pos as int, vp.1 as int)
                == dec_digits(vp.0 as nat),
            None => true,
        },
        match expected@ {
            Some(v) => r matches Some(vp) && vp.0 == v && vp.1 == pos + dec_digits(
                v as nat,
            ).len(),
            None => true,
        },
{
    proof {
        if let Some(v) = expected@ {
            lemma_dec_digits_props(v as nat);
            assert(bytes@[pos as int] == dec_digits(v as nat)[0]);
        }
    }
    let len = bytes.len();
    if pos >= len {
        return None;
    }
    let first = bytes[pos];
    if !(48 <= first && first <= 57) {
        return None;
    }
    if first == 48 {
        proof {
            if let Some(v) = expected@ {
                // A leading zero digit means the numeral is zero itself.
                assert(v == 0);
            }
        }
        // A canonical number never has a leading zero; "0" alone is the digits of zero.
        if pos + 1 < len && 48 <= bytes[pos + 1] && bytes[pos + 1] <= 57 {
            proof {
                if let Some(v) = expected@ {
                    assert(is_digit(bytes@[pos + 1]));
                    assert(false);
                }
            }
            return None;
        }
        proof {
            assert(bytes@.subrange(pos as int, (pos + 1) as int) =~= dec_digits(0));
        }
        return Some((0, pos + 1));
    }
    let mut v: u64 = 0;
    let mut p: usize = pos;
    while p < len && 48 <= bytes[p] && bytes[p] <= 57
        invariant
            len == bytes@.len(),
            pos <= p <= len,
            bytes@[pos as int] == first,
            48 < first <= 57,
            expected@ matches Some(ev) ==> numeral_at(bytes@, pos as int, ev),
            expected@ matches Some(ev) ==> p <= pos + dec_digits(ev as nat).len()
                && bytes@.subrange(pos as int, p as int) == dec_digits(ev as nat).take(p - pos),
            p > pos ==> v as nat == digits_val(bytes@.subrange(pos as int, p as int)),
            p == pos ==> v == 0,
            forall|j: int| pos <= j < p ==> is_digit(#[trigger] bytes@[j]),
        decreases len - p,
    {
        let d = bytes[p] - 48;
        proof {
            if let Some(ev) = expected@ {
                let ds = dec_digits(ev as nat);
                lemma_dec_digits_props(ev as nat);
                // The run cannot already be past the numeral: the byte after
                // it is no digit, but the loop condition saw one.
                assert(p < pos + ds.len());
                assert(bytes@[p as int] == ds[p - pos]);
                let pre2 = ds.take(p - pos + 1);
                assert(pre2.drop_last() =~= ds.take(p - pos));
                assert(pre2.last() == ds[p - pos]);
                if p == pos {
                    assert(pre2.len() == 1);
                    assert(digits_val(pre2.drop_last()) == 0);
                    assert(digits_val(pre2) == d as nat);
                } else {
                    assert(digits_val(pre2) == (v * 10 + d) as nat);
                }
                lemma_digits_val_prefix(ds, p - pos + 1);
                lemma_val_of_dec_digits(ev as nat);
                assert(v * 10 + d <= ev);
                assert(v <= (u64::MAX - d as u64) / 10) by (nonlinear_arith)
                    requires
                        v * 10 + d <= u64::MAX,
                        d < 10;
            }
        }
        if v > (u64::MAX - d as u64) / 10 {
            return None;
        }
        proof {
            let m = u64::MAX as nat;
            assert(v * 10 + d <= m) by (nonlinear_arith)
                requires
                    v <= (m - d) / 10,
                    d < 10,
                    m == u64::MAX as nat;
            let ds = bytes@.subrange(pos as int, p as int);
            let ds2 = bytes@.subrange(pos as int, (p + 1) as int);
            assert(ds2.drop_last() =~= ds);
            assert(ds2.last() == bytes@[p as int]);
            if p == pos {
                assert(ds2.len() == 1);
                assert(ds2.drop_last().len() == 0);
                assert(digits_val(ds2.drop_last()) == 0);
                assert(digits_val(ds2) == (bytes@[p as int] - 48) as nat);
            }
            if let Some(ev) = expected@ {
                assert(ds2 =~= dec_digits(ev as nat).take(p - pos + 1));
            }
        }
        v = v * 10 + d as u64;
        p = p + 1;
    }
    proof {
        let ds = bytes@.subrange(pos as int, p as int);
        assert(p > pos);
        assert(ds[0] == first);
        lemma_dec_digits_of_val(ds);
        if let Some(ev) = expected@ {
            let dse = dec_digits(ev as nat);
            lemma_dec_digits_props(ev as nat);
            // The loop cannot have stopped inside the numeral: every byte of
            // it is a digit that lies before the end of input.
            assert(p == pos + dse.len()) by {
                if p < pos + dse.len() {
                    assert(bytes@[p as int] == dse[p - pos]);
                    assert(is_digit(bytes@[p as int]));
                    assert(p < len);
                }
            }
            assert(ds =~= dse);
            lemma_val_of_dec_digits(ev as nat);
        }
    }
    Some((v, p))
}

/// Read one field: a fixed ASCII field-name literal followed by a numeral.
/// On success the consumed bytes are exactly that literal and the value's
/// digits; where the suffix at `pos` is known to be the literal, a numeral
/// and a remainder (the ghost hypothesis), reading cannot fail and leaves
/// exactly that remainder.
fn parse_field(
    bytes: &[u8],
    pos: usize,
    s: &str,
    expected: Ghost<Option<(u64, Seq<u8>)>>,
) -> (r: Option<(u64, usize)>)
    requires
        s.is_ascii(),
        pos <= bytes@.len(),
        expected@ matches Some(vr) ==> bytes@.subrange(pos as int, bytes@.len() as int)
            == ascii_bytes(s@) + (dec_digits(vr.0 as nat) + vr.1) && (vr.1.len() == 0 || !is_digit(
            vr.1[0],
        )),
    ensures
        match r {
            Some(vp) => pos + s@.len() <= vp.1 <= bytes@.len() && bytes@.subrange(
                pos as int,
                pos + s@.len(),
            ) == ascii_bytes(s@) && bytes@.subrange(pos + s@.len(), vp.1 as int) == dec_digits(
                vp.0 as nat,
            ),
            None => true,
        },
        match expected@ {
            Some(vr) => r matches Some(vp) && vp.0 == vr.0 && bytes@.subrange(
                vp.1 as int,
                bytes@.len() as int,
            ) == vr.1,
            None => true,
        },
{
    proof {
        if let Some(vr) = expected@ {
            lemma_peel(bytes@, pos as int, ascii_bytes(s@), dec_digits(vr.0 as nat) + vr.1);
            lemma_peel(bytes@, pos + s@.len(), dec_digits(vr.0 as nat), vr.1);
            lemma_dec_digits_props(vr.0 as nat);
            if vr.1.len() > 0 {
                assert(bytes@[pos + s@.len() + dec_digits(vr.0 as nat).len()] == vr.1[0]);
            }
            assert(numeral_at(bytes@, pos + s@.len(), vr.0));
        }
    }
    let p1 = match expect_lit(bytes, pos, s) {
        Some(p) => p,
        None => {
            return None;
        },
    };
    let (v, p2) = match parse_u64(
        bytes,
        p1,
        Ghost(
            match expected@ {
                Some(vr) => Some(vr.0),
                None => None,
            },
        ),
    ) {
        Some(vp) => vp,
        None => {
            return None;
        },
    };
    Some((v, p2))
}

/// Check and read a serialized record: the bytes decode successfully if and
/// only if they are, byte for byte, the wire form of some record, and then
/// of the returned record itself.
#[verifier::rlimit(100)]
pub fn decode_kline(bytes: &[u8]) -> (r: Option<KLineData>)
    ensures
        match r {
            Some(k) => bytes@ == encode_spec(k),
            None => true,
        },
        (exists|k: KLineData| bytes@ == encode_spec(k)) ==> r is Some,
{
    proof {
        reveal_strlit("{\"open\":");
        reveal_strlit(",\"high\":");
        reveal_strlit(",\"low\":");
        reveal_strlit(",\"close\":");
        reveal_strlit(",\"unix_timestamp\":");
        reveal_strlit(",\"time_window_seconds\":");
        reveal_strlit("}");
    }
    let ghost enc_k: Option<KLineData> = if exists|k: KLineData| bytes@ == encode_spec(k) {
        Some(choose|k: KLineData| bytes@ == encode_spec(k))
    } else {
        None
    };
    proof {
        if let Some(kk) = enc_k {
            lemma_encode_unfold(kk);
            assert(bytes@.subrange(0, bytes@.len() as int) =~= encode_spec(kk));
        }
    }
    let (open, q1) = match parse_field(
        bytes,
        0,
        "{\"open\":",
        Ghost(
            match enc_k {
                Some(kk) => Some((kk.open, enc_from_high(kk))),
                None => None,
            },
        ),
    ) {
        Some(vp) => vp,
        None => {
            return None;
        },
    };
    let (high, q2) = match parse_field(
        bytes,
        q1,
        ",\"high\":",
        Ghost(
            match enc_k {
                Some(kk) => Some((kk.high, enc_from_low(kk))),
                None => None,
            },
        ),
    ) {
        Some(vp) => vp,
        None => {
            return None;
        },
    };
    let (low, q3) = match parse_field(
        bytes,
        q2,
        ",\"low\":",
        Ghost(
            match enc_k {
                Some(kk) => Some((kk.low, enc_from_close(kk))),
                None => None,
            },
        ),
    ) {
        Some(vp) => vp,
        None => {
            return None;
        },
    };
    let (close, q4) = match parse_field(
        bytes,
        q3,
        ",\"close\":",
        Ghost(
            match enc_k {
                Some(kk) => Some((kk.close, enc_from_timestamp(kk))),
                None => None,
            },
        ),
    ) {
        Some(vp) => vp,
        None => {
            return None;
        },
    };
    let (unix_timestamp, q5) = match parse_field(
        bytes,
        q4,
        ",\"unix_timestamp\":",
        Ghost(
            match enc_k {
                Some(kk) => Some((kk.unix_timestamp, enc_from_window(kk))),
                None => None,
            },
        ),
    ) {
        Some(vp) => vp,
        None => {
            return None;
        },
    };
    let (time_window_seconds, q6) = match parse_field(
        bytes,
        q5,
        ",\"time_window_seconds\":",
        Ghost(
            match enc_k {
                Some(kk) => Some((kk.time_window_seconds, ascii_bytes("}"@))),
                None => None,
            },
        ),
    ) {
        Some(vp) => vp,
        None => {
            return None;
        },
    };
    let q7 = match expect_lit(bytes, q6, "}") {
        Some(p) => p,
        None => {
            return None;
        },
    };
    if q7 != bytes.len() {
        proof {
            if let Some(kk) = enc_k {
                assert(false);
            }
        }
        return None;
    }
    let k = KLineData { open, high, low, close, unix_timestamp, time_window_seconds };
    proof {
        let b = bytes@;
        let m1: int = 0 + "{\"open\":"@.len() as int;
        let m2: int = q1 + ",\"high\":"@.len() as int;
        let m3: int = q2 + ",\"low\":"@.len() as int;
        let m4: int = q3 + ",\"close\":"@.len() as int;
        let m5: int = q4 + ",\"unix_timestamp\":"@.len() as int;
        let m6: int = q5 + ",\"time_window_seconds\":"@.len() as int;
        assert(b.subrange(0, q1 as int) =~= b.subrange(0, m1) + b.subrange(m1, q1 as int));
        assert(b.subrange(0, m2) =~= b.subrange(0, q1 as int) + b.subrange(q1 as int, m2));
        assert(b.subrange(0, q2 as int) =~= b.subrange(0, m2) + b.subrange(m2, q2 as int));
        assert(b.subrange(0, m3) =~= b.subrange(0, q2 as int) + b.subrange(q2 as int, m3));
        assert(b.subrange(0, q3 as int) =~= b.subrange(0, m3) + b.subrange(m3, q3 as int));
        assert(b.subrange(0, m4) =~= b.subrange(0, q3 as int) + b.subrange(q3 as int, m4));
        assert(b.subrange(0, q4 as int) =~= b.subrange(0, m4) + b.subrange(m4, q4 as int));
        assert(b.subrange(0, m5) =~= b.subrange(0, q4 as int) + b.subrange(q4 as int, m5));
        assert(b.subrange(0, q5 as int) =~= b.subrange(0, m5) + b.subrange(m5, q5 as int));
        assert(b.subrange(0, m6) =~= b.subrange(0, q5 as int) + b.subrange(q5 as int, m6));
        assert(b.subrange(0, q6 as int) =~= b.subrange(0, m6) + b.subrange(m6, q6 as int));
        assert(b.subrange(0, q7 as int) =~= b.subrange(0, q6 as int) + b.subrange(
            q6 as int,
            q7 as int,
        ));
        assert(b =~= b.subrange(0, q7 as int));
        assert(b == encode_spec(k));
    }
    Some(k)
}

} // verus!
