//! Verified decimal and hexadecimal renderings of unsigned integers, used for
//! status codes, `Content-Length` values and chunk-size lines.

use vstd::prelude::*;

verus! {

/// The decimal digits of `n`, most significant first.
pub open spec fn dec_seq(n: nat) -> Seq<u8>
    decreases n,
{
    if n < 10 {
        seq![(48 + n) as u8]
    } else {
        dec_seq(n / 10) + seq![(48 + n % 10) as u8]
    }
}

/// The hexadecimal digits of `n`, most significant first, lower case.
pub open spec fn hex_seq(n: nat) -> Seq<u8>
    decreases n,
{
    if n < 16 {
        seq![hex_digit(n)]
    } else {
        hex_seq(n / 16) + seq![hex_digit(n % 16)]
    }
}

/// One hexadecimal digit, lower case.
pub open spec fn hex_digit(d: nat) -> u8 {
    if d < 10 {
        (48 + d) as u8
    } else {
        (87 + d) as u8
    }
}

/// Appends the decimal rendering of `n` to `buf`.
pub fn push_dec(buf: &mut Vec<u8>, n: u64)
    ensures
        final(buf)@ == old(buf)@ + dec_seq(n as nat),
{
    let mut digits: Vec<u8> = Vec::new();
    let mut m: u64 = n;
    loop
        invariant_except_break
            dec_seq(n as nat) == dec_seq(m as nat) + digits@,
        ensures
            dec_seq(n as nat) == digits@,
        decreases m,
    {
        let d: u8 = (m % 10) as u8;
        let m2: u64 = m / 10;
        proof {
            if m2 == 0 {
                assert(dec_seq(m as nat) == seq![(48 + m % 10) as u8]);
                assert(dec_seq(m as nat) + digits@ =~= seq![(48 + d) as u8] + digits@);
            } else {
                assert(dec_seq(m as nat) == dec_seq(m as nat / 10) + seq![(48 + m % 10) as u8]);
                assert(dec_seq(m as nat) + digits@ =~= dec_seq(m2 as nat) + (seq![(48 + d) as u8]
                    + digits@));
            }
        }
        let mut d2: Vec<u8> = Vec::new();
        d2.push(48 + d);
        d2.append(&mut digits);
        digits = d2;
        m = m2;
        if m == 0 {
            break;
        }
    }
    buf.append(&mut digits);
    proof {
        assert(buf@ =~= old(buf)@ + dec_seq(n as nat));
    }
}

/// Appends the hexadecimal rendering of `n` to `buf`.
pub fn push_hex(buf: &mut Vec<u8>, n: u64)
    ensures
        final(buf)@ == old(buf)@ + hex_seq(n as nat),
{
    let mut digits: Vec<u8> = Vec::new();
    let mut m: u64 = n;
    loop
        invariant_except_break
            hex_seq(n as nat) == hex_seq(m as nat) + digits@,
        ensures
            hex_seq(n as nat) == digits@,
        decreases m,
    {
        let r: u8 = (m % 16) as u8;
        let d: u8 = if r < 10 {
            48 + r
        } else {
            87 + r
        };
        let m2: u64 = m / 16;
        proof {
            assert(d == hex_digit((m % 16) as nat));
            if m2 == 0 {
                assert(hex_seq(m as nat) == seq![hex_digit((m % 16) as nat)]);
                assert(hex_seq(m as nat) + digits@ =~= seq![d] + digits@);
            } else {
                assert(hex_seq(m as nat) == hex_seq(m as nat / 16) + seq![hex_digit(
                    (m % 16) as nat,
                )]);
                assert(hex_seq(m as nat) + digits@ =~= hex_seq(m2 as nat) + (seq![d] + digits@));
            }
        }
        let mut d2: Vec<u8> = Vec::new();
        d2.push(d);
        d2.append(&mut digits);
        digits = d2;
        m = m2;
        if m == 0 {
            break;
        }
    }
    buf.append(&mut digits);
    proof {
        assert(buf@ =~= old(buf)@ + hex_seq(n as nat));
    }
}

} // verus!
