//! Syncsafe integers and the ID3v2 unsynchronization scheme.
use crate::io::BufStream;
use vstd::prelude::*;

verus! {

/// Whether every byte of a syncsafe integer leaves its high bit clear.
pub open spec fn is_syncsafe(raw: Seq<u8>) -> bool {
    raw[0] < 0x80 && raw[1] < 0x80 && raw[2] < 0x80 && raw[3] < 0x80
}

/// The value of four bytes read as a plain big-endian integer.
pub open spec fn be_u32(raw: Seq<u8>) -> u32 {
    ((raw[0] as u32) << 24) | ((raw[1] as u32) << 16) | ((raw[2] as u32) << 8) | (raw[3] as u32)
}

/// The value of a 28-bit syncsafe integer, or of a plain big-endian integer when one of
/// the bytes has its high bit set.
pub open spec fn spec_to_u28(raw: Seq<u8>) -> u32 {
    if is_syncsafe(raw) {
        ((raw[0] as u32) << 21) | ((raw[1] as u32) << 14) | ((raw[2] as u32) << 7) | (raw[3] as u32)
    } else {
        be_u32(raw)
    }
}

/// The value of a 35-bit syncsafe integer, keeping only the low three bits of the first byte.
pub open spec fn spec_to_u35(raw: Seq<u8>) -> u32 {
    (((raw[0] & 7) as u32) << 28) | ((raw[1] as u32) << 21) | ((raw[2] as u32) << 14) | ((
    raw[3] as u32) << 7) | (raw[4] as u32)
}

/// The `i`-th seven-bit group of `num`, counting from the least significant.
pub open spec fn group7(num: u32, i: u32) -> u8 {
    ((num >> (7 * i)) & 0x7f) as u8
}

/// Converts a 28-bit syncsafe integer to a `u32`.
///
/// If a byte is not syncsafe, the bytes are read as a normal big-endian integer.
pub fn to_u28(raw: [u8; 4]) -> (r: u32)
    ensures
        r == spec_to_u28(raw@),
{
    if raw[0] >= 0x80 || raw[1] >= 0x80 || raw[2] >= 0x80 || raw[3] >= 0x80 {
        // Not actually sync-safe, assume it may be a normal size
        return ((raw[0] as u32) << 24) | ((raw[1] as u32) << 16) | ((raw[2] as u32) << 8) | (
        raw[3] as u32);
    }
    ((raw[0] as u32) << 21) | ((raw[1] as u32) << 14) | ((raw[2] as u32) << 7) | (raw[3] as u32)
}

/// Lossily converts a 35-bit syncsafe integer into a u32.
///
/// The upper bits of the first byte are removed so that the value fits into a `u32`.
pub fn to_u35(raw: [u8; 5]) -> (r: u32)
    ensures
        r == spec_to_u35(raw@),
{
    (((raw[0] & 7) as u32) << 28) | ((raw[1] as u32) << 21) | ((raw[2] as u32) << 14) | ((
    raw[3] as u32) << 7) | (raw[4] as u32)
}

/// Converts a u32 into a 28-bit syncsafe integer.
pub fn from_u28(num: u32) -> (r: [u8; 4])
    ensures
        r@ == seq![group7(num, 3), group7(num, 2), group7(num, 1), group7(num, 0)],
{
    let r = [
        ((num >> 21) & 0x7f) as u8,
        ((num >> 14) & 0x7f) as u8,
        ((num >> 7) & 0x7f) as u8,
        (num & 0x7f) as u8,
    ];
    assert(r@ =~= seq![group7(num, 3), group7(num, 2), group7(num, 1), group7(num, 0)]) by {
        assert(num >> 0u32 == num) by (bit_vector);
    }
    r
}

/// Converts a u32 into a 35-bit syncsafe integer.
pub fn from_u35(num: u32) -> (r: [u8; 5])
    ensures
        r@ == seq![group7(num, 4), group7(num, 3), group7(num, 2), group7(num, 1), group7(num, 0)],
{
    let r = [
        ((num >> 28) & 0x7f) as u8,
        ((num >> 21) & 0x7f) as u8,
        ((num >> 14) & 0x7f) as u8,
        ((num >> 7) & 0x7f) as u8,
        (num & 0x7f) as u8,
    ];
    assert(r@ =~= seq![group7(num, 4), group7(num, 3), group7(num, 2), group7(num, 1), group7(num, 0)]) by {
        assert(num >> 0u32 == num) by (bit_vector);
    }
    r
}

/// Unsynchronization decoding: every 0x00 that directly follows a 0xFF is removed, except
/// the final byte, which is always kept. `prev` is the byte before `s`.
pub open spec fn spec_unsync(prev: u8, s: Seq<u8>) -> Seq<u8>
    decreases s.len(),
{
    if s.len() <= 1 {
        s
    } else {
        (if prev == 0xFF && s[0] == 0 {
            Seq::<u8>::empty()
        } else {
            seq![s[0]]
        }) + spec_unsync(s[0], s.drop_first())
    }
}

/// Consumes a stream `src` and returns a `Vec<u8>` decoded from the ID3v2 synchronization scheme.
pub fn decode(src: &mut BufStream) -> (r: Vec<u8>)
    ensures
        r@ == spec_unsync(0, old(src).rest()),
        final(src).rest().len() == 0,
        final(src).data() == old(src).data(),
{
    let mut dest: Vec<u8> = Vec::new();
    let mut last: u8 = 0;
    let ghost whole = src.rest();
    while src.remaining() > 1
        invariant
            src.data() == old(src).data(),
            dest@ + spec_unsync(last, src.rest()) == spec_unsync(0, whole),
            whole == old(src).rest(),
        decreases src.rest().len(),
    {
        let ghost before = src.rest();
        let cur = match src.read_u8() {
            Ok(b) => b,
            Err(_) => {
                assert(false);
                0
            },
        };
        // Both sync guards begin with 0xFF 0x00, so the added 0x00 is skipped.
        if !(last == 0xFF && cur == 0x00) {
            dest.push(cur);
        }
        proof {
            assert(before.drop_first() == src.rest());
            if last == 0xFF && cur == 0x00 {
                assert(dest@ + spec_unsync(cur, src.rest()) =~= dest@ + (Seq::<u8>::empty() + spec_unsync(cur, src.rest())));
            } else {
                assert(dest@ + spec_unsync(cur, src.rest()) =~= dest@.drop_last() + (seq![cur] + spec_unsync(cur, src.rest())));
            }
        }
        last = cur;
    }
    // A lone final byte is always kept.
    if src.remaining() == 1 {
        let ghost before = src.rest();
        match src.read_u8() {
            Ok(b) => {
                dest.push(b);
                proof {
                    assert(before =~= seq![b]);
                }
            },
            Err(_) => {},
        }
    }
    proof {
        assert(dest@ =~= spec_unsync(0, whole));
    }
    dest
}

/// A syncsafe value is read back from its encoding: for every value below 2^28,
/// `to_u28(from_u28(n)) == n`.
pub proof fn lemma_u28_roundtrip(num: u32)
    requires
        num < 0x1000_0000,
    ensures
        is_syncsafe(seq![group7(num, 3), group7(num, 2), group7(num, 1), group7(num, 0)]),
        spec_to_u28(seq![group7(num, 3), group7(num, 2), group7(num, 1), group7(num, 0)]) == num,
{
    let a = ((num >> 21) & 0x7f) as u8;
    let b = ((num >> 14) & 0x7f) as u8;
    let c = ((num >> 7) & 0x7f) as u8;
    let d = (num & 0x7f) as u8;
    assert(num >> 0u32 == num) by (bit_vector);
    assert(a < 0x80 && b < 0x80 && c < 0x80 && d < 0x80) by (bit_vector)
        requires
            a == ((num >> 21) & 0x7f) as u8,
            b == ((num >> 14) & 0x7f) as u8,
            c == ((num >> 7) & 0x7f) as u8,
            d == (num & 0x7f) as u8,
    ;
    assert(((a as u32) << 21) | ((b as u32) << 14) | ((c as u32) << 7) | (d as u32) == num)
        by (bit_vector)
        requires
            num < 0x1000_0000,
            a == ((num >> 21) & 0x7f) as u8,
            b == ((num >> 14) & 0x7f) as u8,
            c == ((num >> 7) & 0x7f) as u8,
            d == (num & 0x7f) as u8,
    ;
}

/// Unsynchronization decoding leaves data without a 0xFF byte unchanged.
pub proof fn lemma_unsync_identity(prev: u8, s: Seq<u8>)
    requires
        prev != 0xFF,
        forall|i: int| 0 <= i < s.len() ==> s[i] != 0xFF,
    ensures
        spec_unsync(prev, s) == s,
    decreases s.len(),
{
    if s.len() > 1 {
        lemma_unsync_identity(s[0], s.drop_first());
        assert(seq![s[0]] + s.drop_first() =~= s);
    }
}

} // verus!
