//! Raw big-endian numbers and bits.
use crate::io::{be_value, lemma_be_value_bound, lemma_pow256_values};
use vstd::prelude::*;

verus! {

/// The value of the bytes of a short number, each byte `i` of `n` weighted by
/// `256^(n - i)`: the last byte lands one byte above the lowest.
pub open spec fn short_value(raw: Seq<u8>) -> nat
    decreases raw.len(),
{
    if raw.len() == 0 {
        0
    } else {
        (short_value(raw.drop_last()) + raw.last() as nat) * 256
    }
}

/// The number `to_u32` reads from `raw`: the first four bytes as a big-endian number, or the
/// bytes of a shorter slice as [`short_value`](short_value) weighs them.
pub open spec fn spec_to_u32(raw: Seq<u8>) -> u32 {
    if raw.len() >= 4 {
        be_value(raw.take(4)) as u32
    } else {
        short_value(raw) as u32
    }
}

/// Reads a big-endian 32-bit number as a size.
pub fn to_size(raw: &[u8]) -> (r: usize)
    ensures
        r as nat == spec_to_u32(raw@) as nat,
{
    to_u32(raw) as usize
}

/// Reads a big-endian 32-bit number from the first four bytes of `raw`. Shorter slices are
/// read with each byte one place higher than in a big-endian number.
pub fn to_u32(raw: &[u8]) -> (r: u32)
    ensures
        r == spec_to_u32(raw@),
{
    if raw.len() < 4 {
        return to_u32_var(raw);
    }
    let four: [u8; 4] = [raw[0], raw[1], raw[2], raw[3]];
    proof {
        assert(four@ =~= raw@.take(4));
        lemma_be_value_bound(four@);
        lemma_pow256_values();
    }
    crate::io::be_uint(four.as_slice()) as u32
}

fn to_u32_var(raw: &[u8]) -> (r: u32)
    requires
        raw@.len() < 4,
    ensures
        r == short_value(raw@) as u32,
{
    let mut sum: u32 = 0;
    let mut i: usize = 0;
    while i < raw.len()
        invariant
            i <= raw@.len() < 4,
            sum as nat == short_value(raw@.take(i as int)),
            i == 0 ==> sum == 0,
            i == 1 ==> sum < 0x1_0000 && sum % 256 == 0,
            i == 2 ==> sum < 0x100_0000 && sum % 256 == 0,
        decreases raw@.len() - i,
    {
        proof {
            assert(raw@.take(i + 1).drop_last() =~= raw@.take(i as int));
        }
        sum = (sum + raw[i] as u32) * 256;
        i = i + 1;
    }
    proof {
        assert(raw@.take(i as int) =~= raw@);
    }
    sum
}

/// Reads a big-endian 16-bit number from the first two bytes of `raw`; a single byte is read
/// as it is, and an empty slice as zero.
pub fn to_u16(raw: &[u8]) -> (r: u16)
    ensures
        r == if raw@.len() >= 2 {
            (raw@[0] as nat * 256 + raw@[1] as nat) as u16
        } else if raw@.len() == 1 {
            raw@[0] as u16
        } else {
            0u16
        },
{
    if raw.len() < 2 {
        return if raw.len() == 1 {
            raw[0] as u16
        } else {
            0
        };
    }
    raw[0] as u16 * 256 + raw[1] as u16
}

/// Whether the bit at `pos` of `byte` is set, counting from the lowest bit.
pub fn bit_at(pos: u8, byte: u8) -> (r: bool)
    requires
        pos < 8,
    ensures
        r == ((byte >> pos) & 1 == 1),
{
    (byte >> pos) & 1 == 1
}

} // verus!
