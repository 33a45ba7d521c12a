//! An IPv4 address as four octets and as one 32-bit number.

use vstd::prelude::*;

verus! {

/// The 32-bit number of four octets, the first octet in the highest byte.
pub open spec fn address_of(octets: Seq<u8>) -> u32
    recommends
        octets.len() == 4,
{
    ((octets[0] as u32) << 24) | ((octets[1] as u32) << 16) | ((octets[2] as u32) << 8) | (
    octets[3] as u32)
}

/// The octet at place `k` of an address, place 0 being the highest byte.
pub open spec fn octet_of(address: u32, k: int) -> u8
    recommends
        0 <= k < 4,
{
    ((address >> ((24 - 8 * k) as u32)) & 0xff) as u8
}

/// The four octets of an address, highest byte first.
pub open spec fn octets_of(address: u32) -> Seq<u8> {
    Seq::new(4, |k: int| octet_of(address, k))
}

/// Packs four octets into one 32-bit address.
pub fn octets_to_u32(octets: &[u8; 4]) -> (address: u32)
    ensures
        address == address_of(octets@),
{
    ((octets[0] as u32) << 24) | ((octets[1] as u32) << 16) | ((octets[2] as u32) << 8) | (
    octets[3] as u32)
}

/// Splits a 32-bit address into its four octets.
pub fn u32_to_octets(address: u32) -> (octets: [u8; 4])
    ensures
        octets@ == octets_of(address),
{
    let octets = [
        ((address >> 24) & 0xff) as u8,
        ((address >> 16) & 0xff) as u8,
        ((address >> 8) & 0xff) as u8,
        (address & 0xff) as u8,
    ];
    assert(address >> 0 == address) by (bit_vector);
    assert(octets@ =~= octets_of(address));
    octets
}

/// Splitting an address into octets and packing them again gives the address back.
pub proof fn lemma_octets_round_trip(address: u32)
    ensures
        address_of(octets_of(address)) == address,
{
    let a = octet_of(address, 0);
    let b = octet_of(address, 1);
    let c = octet_of(address, 2);
    let d = octet_of(address, 3);
    assert(((a as u32) << 24) | ((b as u32) << 16) | ((c as u32) << 8) | (d as u32) == address)
        by (bit_vector)
        requires
            a == ((address >> 24) & 0xff) as u8,
            b == ((address >> 16) & 0xff) as u8,
            c == ((address >> 8) & 0xff) as u8,
            d == ((address >> 0) & 0xff) as u8,
    ;
}

/// Packing four octets and splitting the address again gives the octets back.
pub proof fn lemma_address_round_trip(octets: Seq<u8>)
    requires
        octets.len() == 4,
    ensures
        octets_of(address_of(octets)) == octets,
{
    let a = octets[0];
    let b = octets[1];
    let c = octets[2];
    let d = octets[3];
    let x = address_of(octets);
    assert(((x >> 24) & 0xff) as u8 == a && ((x >> 16) & 0xff) as u8 == b && ((x >> 8) & 0xff) as u8
        == c && ((x >> 0) & 0xff) as u8 == d) by (bit_vector)
        requires
            x == ((a as u32) << 24) | ((b as u32) << 16) | ((c as u32) << 8) | (d as u32),
    ;
    assert(octets_of(x) =~= octets);
}

} // verus!
