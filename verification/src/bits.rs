//! Bit order of the notary masks: bit `i` of a mask byte stands for one
//! notary, and masks are shown with the lowest bit first.

use vstd::prelude::*;

verus! {

/// The byte whose bit `7 - i` is bit `i` of `b`.
pub open spec fn reversed(b: u8) -> u8 {
    ((b & 0x01) << 7) | ((b & 0x02) << 5) | ((b & 0x04) << 3) | ((b & 0x08) << 1) | ((b & 0x10)
        >> 1) | ((b & 0x20) >> 3) | ((b & 0x40) >> 5) | ((b & 0x80) >> 7)
}

/// Reversing twice gives the byte back.
pub proof fn lemma_reversed_twice(b: u8)
    ensures
        reversed(reversed(b)) == b,
{
    assert(reversed(reversed(b)) == b) by (bit_vector);
}

/// Bit `i` of the reversed byte is bit `7 - i` of the byte.
pub proof fn lemma_reversed_bit(b: u8, i: u8)
    requires
        i < 8,
    ensures
        (reversed(b) >> i) & 1 == (b >> ((7 - i) as u8)) & 1,
{
    assert(i < 8 ==> (reversed(b) >> i) & 1 == (b >> ((7u8 - i) as u8)) & 1) by (bit_vector);
}

/// Reverses the order of the bits of `byte`.
pub fn reverse_bits(byte: u8) -> (r: u8)
    ensures
        r == reversed(byte),
{
    let mut v: u8 = byte;
    let mut r: u8 = v;
    let mut s: u8 = 7;
    v >>= 1;
    assert(v >> 7u8 == 0 && (r << 7u8) == reversed(byte) & (0xffu8 << 7u8)) by (bit_vector)
        requires
            v == byte >> 1u8,
            r == byte,
    ;
    while v != 0
        invariant
            s <= 7,
            v >> s == 0,
            (r << s) == reversed(byte) & (0xffu8 << s),
            (v as u32) == (byte as u32) >> ((8 - s) as u32),
        decreases v,
    {
        let ghost r0 = r;
        let ghost v0 = v;
        let ghost s0 = s;
        assert(s0 >= 1) by (bit_vector)
            requires
                v0 != 0,
                v0 >> s0 == 0,
        ;
        r <<= 1;
        r |= v & 1;
        v >>= 1;
        s -= 1;
        assert(v >> s == 0 && (r << s) == reversed(byte) & (0xffu8 << s) && (v as u32) == (
        byte as u32) >> ((8 - s) as u32) && v < v0) by (bit_vector)
            requires
                1 <= s0 <= 7,
                s == s0 - 1,
                v0 != 0,
                v0 >> s0 == 0,
                (r0 << s0) == reversed(byte) & (0xffu8 << s0),
                (v0 as u32) == (byte as u32) >> ((8 - s0) as u32),
                r == (r0 << 1u8) | (v0 & 1),
                v == v0 >> 1u8,
        ;
    }
    r <<= s;
    assert(r == reversed(byte)) by (bit_vector)
        requires
            s <= 7,
            ((byte as u32) >> ((8 - s) as u32)) == 0,
            r == reversed(byte) & (0xffu8 << s),
    ;
    r
}

} // verus!
