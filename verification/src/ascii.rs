//! Byte-level helpers shared by the codec: ASCII views of string literals,
//! byte searches, and case-insensitive comparison.

use vstd::prelude::*;

verus! {

/// The bytes of an ASCII character sequence.
pub open spec fn ascii_seq(cs: Seq<char>) -> Seq<u8> {
    Seq::new(cs.len(), |i: int| cs[i] as u8)
}

/// ASCII lower-casing of one byte.
pub open spec fn lower_byte(b: u8) -> u8 {
    if 65 <= b && b <= 90 {
        (b + 32) as u8
    } else {
        b
    }
}

/// ASCII lower-casing of a byte sequence.
pub open spec fn lower_seq(s: Seq<u8>) -> Seq<u8> {
    Seq::new(s.len(), |i: int| lower_byte(s[i]))
}

/// Appends the bytes of an ASCII string literal to `buf`.
pub fn push_str(buf: &mut Vec<u8>, s: &str)
    requires
        s.is_ascii(),
    ensures
        final(buf)@ == old(buf)@ + ascii_seq(s@),
{
    broadcast use vstd::string::is_ascii_spec_bytes;

    let bytes: &[u8] = s.as_bytes();
    buf.extend_from_slice(bytes);
    proof {
        assert(buf@ =~= old(buf)@ + ascii_seq(s@));
    }
}

/// Whether `buf[start..end]` equals the bytes of the ASCII literal `s`.
pub fn region_eq_str(buf: &Vec<u8>, start: usize, end: usize, s: &str) -> (r: bool)
    requires
        s.is_ascii(),
        start <= end <= buf@.len(),
    ensures
        r == (buf@.subrange(start as int, end as int) == ascii_seq(s@)),
{
    broadcast use vstd::string::is_ascii_spec_bytes;

    let bytes: &[u8] = s.as_bytes();
    if end - start != bytes.len() {
        proof {
            assert(buf@.subrange(start as int, end as int).len() == end - start);
            assert(ascii_seq(s@).len() == bytes@.len());
        }
        return false;
    }
    let n: usize = bytes.len();
    let mut i: usize = 0;
    while i < n
        invariant
            0 <= i <= n,
            n == bytes@.len(),
            end - start == n,
            start <= end <= buf@.len(),
            bytes@ == ascii_seq(s@),
            forall|k: int| 0 <= k < i ==> buf@[start + k] == bytes@[k],
        decreases n - i,
    {
        if buf[start + i] != bytes[i] {
            proof {
                assert(buf@.subrange(start as int, end as int)[i as int] != ascii_seq(s@)[i as int]);
            }
            return false;
        }
        i += 1;
    }
    proof {
        assert(buf@.subrange(start as int, end as int) =~= ascii_seq(s@));
    }
    true
}

/// Whether `buf[start..end]`, lower-cased, equals the bytes of the ASCII literal `s`.
pub fn region_eq_str_ci(buf: &Vec<u8>, start: usize, end: usize, s: &str) -> (r: bool)
    requires
        s.is_ascii(),
        start <= end <= buf@.len(),
    ensures
        r == (lower_seq(buf@.subrange(start as int, end as int)) == ascii_seq(s@)),
{
    broadcast use vstd::string::is_ascii_spec_bytes;

    let bytes: &[u8] = s.as_bytes();
    if end - start != bytes.len() {
        proof {
            assert(lower_seq(buf@.subrange(start as int, end as int)).len() == end - start);
            assert(ascii_seq(s@).len() == bytes@.len());
        }
        return false;
    }
    let n: usize = bytes.len();
    let mut i: usize = 0;
    while i < n
        invariant
            0 <= i <= n,
            n == bytes@.len(),
            end - start == n,
            start <= end <= buf@.len(),
            bytes@ == ascii_seq(s@),
            forall|k: int| 0 <= k < i ==> lower_byte(buf@[start + k]) == bytes@[k],
        decreases n - i,
    {
        let b: u8 = buf[start + i];
        let lo: u8 = if 65 <= b && b <= 90 {
            b + 32
        } else {
            b
        };
        if lo != bytes[i] {
            proof {
                assert(lower_seq(buf@.subrange(start as int, end as int))[i as int]
                    != ascii_seq(s@)[i as int]);
            }
            return false;
        }
        i += 1;
    }
    proof {
        assert(lower_seq(buf@.subrange(start as int, end as int)) =~= ascii_seq(s@));
    }
    true
}

/// The bytes of an ASCII string literal, as an owned vector.
pub fn str_to_vec(s: &str) -> (r: Vec<u8>)
    requires
        s.is_ascii(),
    ensures
        r@ == ascii_seq(s@),
{
    let mut v: Vec<u8> = Vec::new();
    push_str(&mut v, s);
    proof {
        assert(v@ =~= ascii_seq(s@));
    }
    v
}

/// Whether the whole of `v` equals the bytes of the ASCII literal `s`.
pub fn vec_eq_str(v: &Vec<u8>, s: &str) -> (r: bool)
    requires
        s.is_ascii(),
    ensures
        r == (v@ == ascii_seq(s@)),
{
    let r = region_eq_str(v, 0, v.len(), s);
    proof {
        assert(v@.subrange(0, v@.len() as int) =~= v@);
    }
    r
}

/// Whether the whole of `v`, lower-cased, equals the bytes of the ASCII
/// literal `s`.
pub fn vec_eq_str_ci(v: &Vec<u8>, s: &str) -> (r: bool)
    requires
        s.is_ascii(),
    ensures
        r == (lower_seq(v@) == ascii_seq(s@)),
{
    let r = region_eq_str_ci(v, 0, v.len(), s);
    proof {
        assert(v@.subrange(0, v@.len() as int) =~= v@);
    }
    r
}

} // verus!
