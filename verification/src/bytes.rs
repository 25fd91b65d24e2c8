//! Small helpers for byte strings: ASCII views and comparisons.

use vstd::prelude::*;

verus! {

/// The bytes of an ASCII character sequence, one byte per character.
pub open spec fn ascii_bytes(cs: Seq<char>) -> Seq<u8> {
    Seq::new(cs.len(), |i: int| cs[i] as u8)
}

/// Append the bytes of an ASCII string slice to a byte vector.
pub fn push_str_bytes(out: &mut Vec<u8>, s: &str)
    requires
        s.is_ascii(),
    ensures
        final(out)@ == old(out)@ + ascii_bytes(s@),
{
    proof {
        broadcast use vstd::string::is_ascii_spec_bytes;
    }
    let b = s.as_bytes();
    out.extend_from_slice(b);
    proof {
        assert(final(out)@ =~= old(out)@ + ascii_bytes(s@));
    }
}

/// Append a range of another byte slice to a byte vector.
pub fn push_range(out: &mut Vec<u8>, bytes: &[u8], start: usize, end: usize)
    requires
        start <= end <= bytes@.len(),
    ensures
        final(out)@ == old(out)@ + bytes@.subrange(start as int, end as int),
{
    let ghost orig = old(out)@;
    let mut i: usize = start;
    while i < end
        invariant
            start <= i <= end <= bytes@.len(),
            out@ == orig + bytes@.subrange(start as int, i as int),
        decreases end - i,
    {
        out.push(bytes[i]);
        proof {
            assert(out@ =~= orig + bytes@.subrange(start as int, (i + 1) as int));
        }
        i = i + 1;
    }
}

/// Whether one range of a byte slice spells exactly one ASCII string.
pub fn range_eq_str(bytes: &[u8], start: usize, end: usize, s: &str) -> (r: bool)
    requires
        s.is_ascii(),
        start <= end <= bytes@.len(),
    ensures
        r == (bytes@.subrange(start as int, end as int) == ascii_bytes(s@)),
{
    proof {
        broadcast use vstd::string::is_ascii_spec_bytes;
    }
    let lit = s.as_bytes();
    let n = lit.len();
    if end - start != n {
        proof {
            assert(bytes@.subrange(start as int, end as int).len() != ascii_bytes(s@).len());
        }
        return false;
    }
    let mut i: usize = 0;
    while i < n
        invariant
            n == lit@.len(),
            lit@ == ascii_bytes(s@),
            start + n == end <= bytes@.len(),
            i <= n,
            forall|j: int| 0 <= j < i ==> bytes@[start + j] == lit@[j],
        decreases n - i,
    {
        if bytes[start + i] != lit[i] {
            proof {
                assert(bytes@.subrange(start as int, end as int)[i as int] != ascii_bytes(s@)[i as int]);
            }
            return false;
        }
        i = i + 1;
    }
    proof {
        assert(bytes@.subrange(start as int, end as int) =~= ascii_bytes(s@));
    }
    true
}

/// Byte-for-byte equality of two byte slices.
pub fn bytes_eq(a: &[u8], b: &[u8]) -> (r: bool)
    ensures
        r == (a@ == b@),
{
    if a.len() != b.len() {
        proof {
            assert(a@ != b@);
        }
        return false;
    }
    let n = a.len();
    let mut i: usize = 0;
    while i < n
        invariant
            n == a@.len() == b@.len(),
            i <= n,
            forall|j: int| 0 <= j < i ==> a@[j] == b@[j],
        decreases n - i,
    {
        if a[i] != b[i] {
            proof {
                assert(a@ != b@);
            }
            return false;
        }
        i = i + 1;
    }
    proof {
        assert(a@ =~= b@);
    }
    true
}

} // verus!
