use vstd::prelude::*;

verus! {

use vstd::arithmetic::div_mod::{
    lemma_div_denominator,
    lemma_fundamental_div_mod,
    lemma_fundamental_div_mod_converse,
    lemma_small_mod,
};

/// The two little-endian bytes of a 16-bit value.
pub open spec fn u16_le_bytes(x: u16) -> Seq<u8> {
    seq![(x % 256) as u8, ((x / 256) % 256) as u8]
}

/// The value read back from two little-endian bytes.
pub open spec fn u16_from_le(b0: u8, b1: u8) -> int {
    b0 + 256 * (b1 as int)
}

/// The four little-endian bytes of a 32-bit value.
pub open spec fn u32_le_bytes(x: u32) -> Seq<u8> {
    seq![
        (x % 256) as u8,
        ((x / 256) % 256) as u8,
        ((x / 65_536) % 256) as u8,
        ((x / 16_777_216) % 256) as u8,
    ]
}

/// The value read back from four little-endian bytes.
pub open spec fn u32_from_le(b0: u8, b1: u8, b2: u8, b3: u8) -> int {
    b0 + 256 * (b1 + 256 * (b2 + 256 * (b3 as int)))
}

/// Reading the two bytes of a 16-bit value back gives the value.
pub proof fn lemma_u16_le_round_trip(x: u16)
    ensures
        u16_from_le(u16_le_bytes(x)[0], u16_le_bytes(x)[1]) == x,
{
    lemma_fundamental_div_mod(x as int, 256);
    lemma_small_mod((x / 256) as nat, 256);
}

/// Reading the four bytes of a 32-bit value back gives the value.
pub proof fn lemma_u32_le_round_trip(x: u32)
    ensures
        u32_from_le(
            u32_le_bytes(x)[0],
            u32_le_bytes(x)[1],
            u32_le_bytes(x)[2],
            u32_le_bytes(x)[3],
        ) == x,
{
    let xi = x as int;
    lemma_div_denominator(xi, 256, 256);
    lemma_div_denominator(xi, 65_536, 256);
    assert(xi / 65_536 == (xi / 256) / 256);
    assert(xi / 16_777_216 == (xi / 65_536) / 256);
    lemma_fundamental_div_mod(xi, 256);
    lemma_fundamental_div_mod(xi / 256, 256);
    lemma_fundamental_div_mod(xi / 65_536, 256);
    lemma_small_mod((xi / 16_777_216) as nat, 256);
}

/// Encoding the value read from two bytes gives those bytes back.
pub proof fn lemma_u16_le_inverse(b0: u8, b1: u8)
    ensures
        u16_le_bytes(u16_from_le(b0, b1) as u16) =~= seq![b0, b1],
{
    let x = u16_from_le(b0, b1);
    lemma_fundamental_div_mod_converse(x, 256, b1 as int, b0 as int);
    lemma_small_mod(b1 as nat, 256);
}

/// Encoding the value read from four bytes gives those bytes back.
pub proof fn lemma_u32_le_inverse(b0: u8, b1: u8, b2: u8, b3: u8)
    ensures
        u32_le_bytes(u32_from_le(b0, b1, b2, b3) as u32) =~= seq![b0, b1, b2, b3],
{
    let x = u32_from_le(b0, b1, b2, b3);
    let q1 = b1 + 256 * (b2 + 256 * (b3 as int));
    let q2 = b2 + 256 * (b3 as int);
    lemma_fundamental_div_mod_converse(x, 256, q1, b0 as int);
    lemma_fundamental_div_mod_converse(q1, 256, q2, b1 as int);
    lemma_fundamental_div_mod_converse(q2, 256, b3 as int, b2 as int);
    lemma_div_denominator(x, 256, 256);
    lemma_div_denominator(x, 65_536, 256);
    assert(x / 65_536 == q2);
    assert(x / 16_777_216 == b3 as int);
    lemma_small_mod(b3 as nat, 256);
}

/// Append the bytes of a slice, in order.
pub fn push_bytes(out: &mut Vec<u8>, bytes: &[u8])
    ensures
        final(out)@ == old(out)@ + bytes@,
{
    let n = bytes.len();
    let mut i: usize = 0;
    while i < n
        invariant
            0 <= i <= n,
            n == bytes@.len(),
            out@ == old(out)@ + bytes@.take(i as int),
        decreases n - i,
    {
        out.push(bytes[i]);
        proof {
            assert(old(out)@ + bytes@.take(i as int) + seq![bytes@[i as int]] =~= old(out)@
                + bytes@.take(i as int + 1));
        }
        i = i + 1;
    }
    proof {
        assert(bytes@.take(n as int) =~= bytes@);
    }
}

/// Append the two little-endian bytes of `x`.
pub fn write_u16(out: &mut Vec<u8>, x: u16)
    ensures
        final(out)@ == old(out)@ + u16_le_bytes(x),
{
    out.push((x % 256) as u8);
    out.push(((x / 256) % 256) as u8);
    assert(out@ =~= old(out)@ + u16_le_bytes(x));
}

/// Append the four little-endian bytes of `x`.
pub fn write_u32(out: &mut Vec<u8>, x: u32)
    ensures
        final(out)@ == old(out)@ + u32_le_bytes(x),
{
    out.push((x % 256) as u8);
    out.push(((x / 256) % 256) as u8);
    out.push(((x / 65_536) % 256) as u8);
    out.push(((x / 16_777_216) % 256) as u8);
    assert(out@ =~= old(out)@ + u32_le_bytes(x));
}

/// Read a 16-bit value from two little-endian bytes at `off`.
pub fn read_u16(data: &Vec<u8>, off: usize) -> (r: u16)
    requires
        off + 2 <= data@.len(),
    ensures
        r == u16_from_le(data@[off as int], data@[off as int + 1]),
{
    let _n = data.len();
    (data[off] as u16) + 256 * (data[off + 1] as u16)
}

/// Read a 32-bit value from four little-endian bytes at `off`.
pub fn read_u32(data: &Vec<u8>, off: usize) -> (r: u32)
    requires
        off + 4 <= data@.len(),
    ensures
        r == u32_from_le(
            data@[off as int],
            data@[off as int + 1],
            data@[off as int + 2],
            data@[off as int + 3],
        ),
{
    let _n = data.len();
    (data[off] as u32) + 256 * (data[off + 1] as u32) + 65_536 * (data[off + 2] as u32)
        + 16_777_216 * (data[off + 3] as u32)
}

} // verus!
