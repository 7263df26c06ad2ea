//! Big-endian 32-bit fields.
use vstd::prelude::*;

verus! {

/// The big-endian 32-bit value of the four bytes of `d` from index `p`.
pub open spec fn be32_at(d: Seq<u8>, p: int) -> u32 {
    (d[p] * 16777216 + d[p + 1] * 65536 + d[p + 2] * 256 + d[p + 3]) as u32
}

/// The four big-endian bytes of `x`.
pub open spec fn be32_bytes(x: u32) -> Seq<u8> {
    seq![(x / 16777216) as u8, ((x / 65536) % 256) as u8, ((x / 256) % 256) as u8, (x % 256) as u8]
}

/// Reads the big-endian 32-bit value at index `p`.
pub fn read_u32_be(d: &[u8], p: usize) -> (r: u32)
    requires
        p + 4 <= d.len(),
    ensures
        r == be32_at(d@, p as int),
{
    d[p] as u32 * 16777216 + d[p + 1] as u32 * 65536 + d[p + 2] as u32 * 256 + d[p + 3] as u32
}

/// Appends the four big-endian bytes of `x`.
pub fn push_u32_be(out: &mut Vec<u8>, x: u32)
    ensures
        final(out)@ == old(out)@ + be32_bytes(x),
{
    out.push((x / 16777216) as u8);
    out.push(((x / 65536) % 256) as u8);
    out.push(((x / 256) % 256) as u8);
    out.push((x % 256) as u8);
    assert(out@ =~= old(out)@ + be32_bytes(x));
}

/// Reading back the bytes of a value gives the value.
pub proof fn lemma_be32_round_trip(x: u32)
    ensures
        be32_at(be32_bytes(x), 0) == x,
{
    let b = be32_bytes(x);
    assert(b[0] * 16777216 + b[1] * 65536 + b[2] * 256 + b[3] == x) by (nonlinear_arith)
        requires
            b[0] == x / 16777216,
            b[1] == (x / 65536) % 256,
            b[2] == (x / 256) % 256,
            b[3] == x % 256,
            x <= 0xffff_ffff,
    ;
}

} // verus!
