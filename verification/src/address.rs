//! Addresses: the four bytes of an IPv4 address, and their packed form, by
//! which the bookkeeping orders and finds them.

use vstd::prelude::*;
use vstd::arithmetic::div_mod::lemma_fundamental_div_mod_converse;

verus! {

/// The packed form of the all-zero address, which stands for "no address"
/// and is never stored.
pub const SENTINEL: u32 = 0;

/// The address `a.b.c.d`, given as the bytes `[a, b, c, d]`, as one integer
/// with `a` in the most significant byte.
pub open spec fn packed(ip: Seq<u8>) -> u32
    recommends
        ip.len() == 4,
{
    (16777216 * (ip[0] as int) + 65536 * (ip[1] as int) + 256 * (ip[2] as int) + (ip[3] as int))
        as u32
}

/// The four bytes of a packed address, most significant first.
pub open spec fn unpacked(address: u32) -> Seq<u8> {
    seq![
        (address / 16777216) as u8,
        ((address / 65536) % 256) as u8,
        ((address / 256) % 256) as u8,
        (address % 256) as u8,
    ]
}

/// Unpacking a packed address gives its bytes back.
pub proof fn lemma_unpacked_packed(ip: Seq<u8>)
    requires
        ip.len() == 4,
    ensures
        unpacked(packed(ip)) == ip,
{
    let a = ip[0] as int;
    let b = ip[1] as int;
    let c = ip[2] as int;
    let d = ip[3] as int;
    let v = 16777216 * a + 65536 * b + 256 * c + d;
    assert(0 <= v <= u32::MAX);
    assert(packed(ip) == v);
    lemma_fundamental_div_mod_converse(v, 16777216, a, 65536 * b + 256 * c + d);
    lemma_fundamental_div_mod_converse(v, 65536, 256 * a + b, 256 * c + d);
    lemma_fundamental_div_mod_converse(256 * a + b, 256, a, b);
    lemma_fundamental_div_mod_converse(v, 256, 65536 * a + 256 * b + c, d);
    lemma_fundamental_div_mod_converse(65536 * a + 256 * b + c, 256, 256 * a + b, c);
    let u = unpacked(packed(ip));
    assert(u[0] == ip[0]);
    assert(u[1] == ip[1]);
    assert(u[2] == ip[2]);
    assert(u[3] == ip[3]);
    assert(u =~= ip);
}

/// Packing the bytes of an address gives the address back.
pub proof fn lemma_packed_unpacked(address: u32)
    ensures
        unpacked(address).len() == 4,
        packed(unpacked(address)) == address,
{
    let v = address as int;
    let a = v / 16777216;
    let r = v % 16777216;
    let b = r / 65536;
    let r2 = r % 65536;
    let c = r2 / 256;
    let d = r2 % 256;
    assert(v == 16777216 * a + r);
    assert(r == 65536 * b + r2);
    assert(r2 == 256 * c + d);
    assert(0 <= a < 256 && 0 <= b < 256 && 0 <= c < 256 && 0 <= d < 256);
    lemma_fundamental_div_mod_converse(v, 65536, 256 * a + b, 256 * c + d);
    lemma_fundamental_div_mod_converse(256 * a + b, 256, a, b);
    lemma_fundamental_div_mod_converse(v, 256, 65536 * a + 256 * b + c, d);
    lemma_fundamental_div_mod_converse(65536 * a + 256 * b + c, 256, 256 * a + b, c);
    let ip = unpacked(address);
    assert(ip[0] as int == a);
    assert(ip[1] as int == b);
    assert(ip[2] as int == c);
    assert(ip[3] as int == d);
}

/// Only the all-zero address packs to the sentinel.
pub proof fn lemma_packed_sentinel(ip: Seq<u8>)
    requires
        ip.len() == 4,
    ensures
        packed(ip) == SENTINEL <==> ip == seq![0u8, 0u8, 0u8, 0u8],
{
    if packed(ip) == SENTINEL {
        assert(ip[0] == 0 && ip[1] == 0 && ip[2] == 0 && ip[3] == 0);
        assert(ip =~= seq![0u8, 0u8, 0u8, 0u8]);
    }
}

/// Packs an address.
pub fn pack_address(ip: &[u8; 4]) -> (address: u32)
    ensures
        address == packed(ip@),
{
    let a: u32 = ip[0] as u32;
    let b: u32 = ip[1] as u32;
    let c: u32 = ip[2] as u32;
    let d: u32 = ip[3] as u32;
    16777216 * a + 65536 * b + 256 * c + d
}

/// Unpacks an address.
pub fn unpack_address(address: u32) -> (ip: [u8; 4])
    ensures
        ip@ == unpacked(address),
{
    let ip: [u8; 4] = [
        (address / 16777216) as u8,
        ((address / 65536) % 256) as u8,
        ((address / 256) % 256) as u8,
        (address % 256) as u8,
    ];
    assert(ip@ =~= unpacked(address));
    ip
}

/// The packed forms of a list of addresses.
pub open spec fn packed_list(list: Seq<[u8; 4]>) -> Seq<u32> {
    Seq::new(list.len(), |i: int| packed(list[i]@))
}

} // verus!
