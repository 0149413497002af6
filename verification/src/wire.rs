//! Little-endian integers and byte-array fields as they lie on the wire.

use vstd::prelude::*;
use vstd::arithmetic::div_mod::lemma_fundamental_div_mod_converse;

verus! {

/// The four bytes of `v`, least significant first.
pub open spec fn le32(v: u32) -> Seq<u8> {
    seq![
        (v % 256) as u8,
        ((v / 256) % 256) as u8,
        ((v / 65536) % 256) as u8,
        (v / 16777216) as u8,
    ]
}

/// The 32-bit integer whose little-endian bytes are the first four of `s`.
pub open spec fn from_le32(s: Seq<u8>) -> u32
    recommends
        s.len() >= 4,
{
    (s[0] as int + 256 * (s[1] as int) + 65536 * (s[2] as int) + 16777216 * (s[3] as int)) as u32
}

/// The two bytes of `v`, least significant first.
pub open spec fn le16(v: u16) -> Seq<u8> {
    seq![(v % 256) as u8, (v / 256) as u8]
}

/// The 16-bit integer whose little-endian bytes are the first two of `s`.
pub open spec fn from_le16(s: Seq<u8>) -> u16
    recommends
        s.len() >= 2,
{
    (s[0] as int + 256 * (s[1] as int)) as u16
}

/// Reading back the bytes written for `v` gives `v`.
pub proof fn lemma_le32_roundtrip(v: u32)
    ensures
        le32(v).len() == 4,
        from_le32(le32(v)) == v,
{
    let x = v as int;
    let d = x / 16777216;
    let r = x % 16777216;
    let c = r / 65536;
    let r2 = r % 65536;
    let b = r2 / 256;
    let a = r2 % 256;
    assert(x == 16777216 * d + r);
    assert(r == 65536 * c + r2);
    assert(r2 == 256 * b + a);
    assert(0 <= a < 256 && 0 <= b < 256 && 0 <= c < 256 && 0 <= d < 256);
    lemma_fundamental_div_mod_converse(x, 65536, 256 * d + c, 256 * b + a);
    lemma_fundamental_div_mod_converse(256 * d + c, 256, d, c);
    lemma_fundamental_div_mod_converse(x, 256, 65536 * d + 256 * c + b, a);
    lemma_fundamental_div_mod_converse(65536 * d + 256 * c + b, 256, 256 * d + c, b);
    let s = le32(v);
    assert(s[0] as int == a);
    assert(s[1] as int == b);
    assert(s[2] as int == c);
    assert(s[3] as int == d);
}

/// Writing the integer read from four bytes gives the same four bytes.
pub proof fn lemma_le32_bytes_roundtrip(s: Seq<u8>)
    requires
        s.len() == 4,
    ensures
        le32(from_le32(s)) =~= s,
{
    let a = s[0] as int;
    let b = s[1] as int;
    let c = s[2] as int;
    let d = s[3] as int;
    let v = a + 256 * b + 65536 * c + 16777216 * d;
    assert(0 <= v <= u32::MAX);
    assert(from_le32(s) == v);
    lemma_fundamental_div_mod_converse(v, 16777216, d, 65536 * c + 256 * b + a);
    lemma_fundamental_div_mod_converse(v, 65536, 256 * d + c, 256 * b + a);
    lemma_fundamental_div_mod_converse(256 * d + c, 256, d, c);
    lemma_fundamental_div_mod_converse(v, 256, 65536 * d + 256 * c + b, a);
    lemma_fundamental_div_mod_converse(65536 * d + 256 * c + b, 256, 256 * d + c, b);
    let w = le32(from_le32(s));
    assert(w[0] == s[0]);
    assert(w[1] == s[1]);
    assert(w[2] == s[2]);
    assert(w[3] == s[3]);
}

/// Reading back the bytes written for `v` gives `v`.
pub proof fn lemma_le16_roundtrip(v: u16)
    ensures
        le16(v).len() == 2,
        from_le16(le16(v)) == v,
{
    let x = v as int;
    assert(x == 256 * (x / 256) + x % 256);
}

/// Writing the integer read from two bytes gives the same two bytes.
pub proof fn lemma_le16_bytes_roundtrip(s: Seq<u8>)
    requires
        s.len() == 2,
    ensures
        le16(from_le16(s)) =~= s,
{
    let a = s[0] as int;
    let b = s[1] as int;
    lemma_fundamental_div_mod_converse(a + 256 * b, 256, b, a);
}

/// Appends the little-endian bytes of `v` to `out`.
pub fn put_u32(out: &mut Vec<u8>, v: u32)
    ensures
        final(out)@ == old(out)@ + le32(v),
{
    out.push((v % 256) as u8);
    out.push(((v / 256) % 256) as u8);
    out.push(((v / 65536) % 256) as u8);
    out.push((v / 16777216) as u8);
    assert(out@ =~= old(out)@ + le32(v));
}

/// Appends the little-endian bytes of `v` to `out`.
pub fn put_u16(out: &mut Vec<u8>, v: u16)
    ensures
        final(out)@ == old(out)@ + le16(v),
{
    out.push((v % 256) as u8);
    out.push((v / 256) as u8);
    assert(out@ =~= old(out)@ + le16(v));
}

/// Reads the little-endian 32-bit integer at `at`.
pub fn get_u32(bytes: &[u8], at: usize) -> (v: u32)
    requires
        at + 4 <= bytes@.len(),
    ensures
        v == from_le32(bytes@.subrange(at as int, at + 4)),
{
    let b0: u32 = bytes[at] as u32;
    let b1: u32 = bytes[at + 1] as u32;
    let b2: u32 = bytes[at + 2] as u32;
    let b3: u32 = bytes[at + 3] as u32;
    b0 + 256 * b1 + 65536 * b2 + 16777216 * b3
}

/// Reads the little-endian 16-bit integer at `at`.
pub fn get_u16(bytes: &[u8], at: usize) -> (v: u16)
    requires
        at + 2 <= bytes@.len(),
    ensures
        v == from_le16(bytes@.subrange(at as int, at + 2)),
{
    let b0: u16 = bytes[at] as u16;
    let b1: u16 = bytes[at + 1] as u16;
    b0 + 256 * b1
}

/// Appends every byte of `field` to `out`.
pub fn put_bytes(out: &mut Vec<u8>, field: &[u8])
    ensures
        final(out)@ == old(out)@ + field@,
{
    let mut i: usize = 0;
    while i < field.len()
        invariant
            i <= field@.len(),
            out@ == old(out)@ + field@.subrange(0, i as int),
        decreases field@.len() - i,
    {
        out.push(field[i]);
        i += 1;
        assert(out@ =~= old(out)@ + field@.subrange(0, i as int));
    }
    assert(field@.subrange(0, i as int) =~= field@);
}

/// Copies the `N` bytes at `at` into an array.
pub fn get_array<const N: usize>(bytes: &[u8], at: usize) -> (field: [u8; N])
    requires
        at + N <= bytes@.len(),
    ensures
        field@ == bytes@.subrange(at as int, at + N),
{
    let mut field = [0u8; N];
    let total: usize = bytes.len();
    let mut i: usize = 0;
    while i < N
        invariant
            i <= N,
            at + N <= total,
            total == bytes@.len(),
            field@.len() == N,
            forall|k: int| 0 <= k < i ==> field@[k] == bytes@[at + k],
        decreases N - i,
    {
        field[i] = bytes[at + i];
        i += 1;
    }
    assert(field@ =~= bytes@.subrange(at as int, at + N));
    field
}

} // verus!
