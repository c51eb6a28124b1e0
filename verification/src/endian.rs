//! Unsigned 64-bit integers as eight bytes, least significant byte first.

use byteorder::{ByteOrder, LittleEndian};
use vstd::prelude::*;

verus! {

/// The number that the first eight bytes of `b` spell, least significant byte
/// first.
pub open spec fn le_u64(b: Seq<u8>) -> int
    recommends
        b.len() >= 8,
{
    b[0] as int
        + 0x100 * (b[1] as int)
        + 0x1_0000 * (b[2] as int)
        + 0x100_0000 * (b[3] as int)
        + 0x1_0000_0000 * (b[4] as int)
        + 0x100_0000_0000 * (b[5] as int)
        + 0x1_0000_0000_0000 * (b[6] as int)
        + 0x100_0000_0000_0000 * (b[7] as int)
}

/// The eight bytes that spell `v`, least significant byte first.
pub open spec fn u64_le_bytes(v: u64) -> Seq<u8> {
    seq![
        (v % 0x100) as u8,
        (v / 0x100 % 0x100) as u8,
        (v / 0x1_0000 % 0x100) as u8,
        (v / 0x100_0000 % 0x100) as u8,
        (v / 0x1_0000_0000 % 0x100) as u8,
        (v / 0x100_0000_0000 % 0x100) as u8,
        (v / 0x1_0000_0000_0000 % 0x100) as u8,
        (v / 0x100_0000_0000_0000 % 0x100) as u8,
    ]
}

/// Eight bytes spell a number that fits in 64 bits.
pub proof fn lemma_le_u64_range(b: Seq<u8>)
    requires
        b.len() >= 8,
    ensures
        0 <= le_u64(b) <= u64::MAX,
{
}

/// Reading back the bytes of a number gives the number.
pub proof fn lemma_le_u64_of_bytes(v: u64)
    ensures
        u64_le_bytes(v).len() == 8,
        le_u64(u64_le_bytes(v)) == v,
{
    let q0: int = v as int;
    let q1: int = q0 / 0x100;
    let q2: int = q1 / 0x100;
    let q3: int = q2 / 0x100;
    let q4: int = q3 / 0x100;
    let q5: int = q4 / 0x100;
    let q6: int = q5 / 0x100;
    let q7: int = q6 / 0x100;
    assert(q2 == q0 / 0x1_0000) by {
        vstd::arithmetic::div_mod::lemma_div_denominator(q0, 0x100, 0x100);
    }
    assert(q3 == q0 / 0x100_0000) by {
        vstd::arithmetic::div_mod::lemma_div_denominator(q0, 0x1_0000, 0x100);
    }
    assert(q4 == q0 / 0x1_0000_0000) by {
        vstd::arithmetic::div_mod::lemma_div_denominator(q0, 0x100_0000, 0x100);
    }
    assert(q5 == q0 / 0x100_0000_0000) by {
        vstd::arithmetic::div_mod::lemma_div_denominator(q0, 0x1_0000_0000, 0x100);
    }
    assert(q6 == q0 / 0x1_0000_0000_0000) by {
        vstd::arithmetic::div_mod::lemma_div_denominator(q0, 0x100_0000_0000, 0x100);
    }
    assert(q7 == q0 / 0x100_0000_0000_0000) by {
        vstd::arithmetic::div_mod::lemma_div_denominator(q0, 0x1_0000_0000_0000, 0x100);
    }
    assert(0 <= q7 < 0x100);
    assert(q7 % 0x100 == q7);
    let b = u64_le_bytes(v);
    assert(b[0] as int == q0 % 0x100);
    assert(b[1] as int == q1 % 0x100);
    assert(b[2] as int == q2 % 0x100);
    assert(b[3] as int == q3 % 0x100);
    assert(b[4] as int == q4 % 0x100);
    assert(b[5] as int == q5 % 0x100);
    assert(b[6] as int == q6 % 0x100);
    assert(b[7] as int == q7);
    assert(q0 == 0x100 * q1 + q0 % 0x100);
    assert(q1 == 0x100 * q2 + q1 % 0x100);
    assert(q2 == 0x100 * q3 + q2 % 0x100);
    assert(q3 == 0x100 * q4 + q3 % 0x100);
    assert(q4 == 0x100 * q5 + q4 % 0x100);
    assert(q5 == 0x100 * q6 + q5 % 0x100);
    assert(q6 == 0x100 * q7 + q6 % 0x100);
}

/// Decodes the first eight bytes of `buf` with `byteorder`'s
/// `LittleEndian::read_u64`. That function panics on fewer than eight bytes,
/// which the precondition excludes; on eight or more it returns
/// `u64::from_le_bytes` of the first eight, which is the number stated here.
#[verifier::external_body]
pub(crate) fn read_u64_le(buf: &[u8]) -> (r: u64)
    requires
        buf@.len() >= 8,
    ensures
        r == le_u64(buf@),
{
    LittleEndian::read_u64(buf)
}

/// Encodes `n` with `byteorder`'s `LittleEndian::write_u64` into a fresh
/// eight-byte buffer. That function copies `n.to_le_bytes()` over the first
/// eight bytes of the buffer, which here is all of it.
#[verifier::external_body]
pub(crate) fn write_u64_le(n: u64) -> (b: [u8; 8])
    ensures
        b@ == u64_le_bytes(n),
{
    let mut b: [u8; 8] = [0u8; 8];
    LittleEndian::write_u64(&mut b, n);
    b
}

/// Decodes the eight bytes of `buf` that begin at `pos`.
pub(crate) fn read_u64_at(buf: &[u8], pos: usize) -> (r: u64)
    requires
        pos + 8 <= buf@.len(),
    ensures
        r == le_u64(buf@.subrange(pos as int, pos + 8)),
{
    proof {
        vstd::slice::axiom_spec_len(buf);
    }
    let window: &[u8] = vstd::slice::slice_subrange(buf, pos, pos + 8);
    read_u64_le(window)
}

/// Appends the eight bytes of `n` to `out`.
pub fn push_u64(out: &mut Vec<u8>, n: u64)
    ensures
        final(out)@ == old(out)@ + u64_le_bytes(n),
{
    let bytes: [u8; 8] = write_u64_le(n);
    out.extend_from_slice(bytes.as_slice());
    assert(out@ =~= old(out)@ + u64_le_bytes(n));
}

} // verus!
