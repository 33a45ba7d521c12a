//! Subnet arithmetic: the mask of a prefix length, and the boundaries and
//! sizes of the subnet that an address lies in.

use crate::address::address_of;
use crate::address::octets_to_u32;
use crate::render::binary_text;
use crate::render::bit_char;
use crate::render::u32_to_binary_str;
use vstd::arithmetic::power2::lemma2_to64;
use vstd::arithmetic::power2::lemma2_to64_rest;
use vstd::arithmetic::power2::pow2;
use vstd::prelude::*;

verus! {

/// The mask of a prefix length: the top `prefix` bits set, the others clear.
pub open spec fn mask_of(prefix: u32) -> u32
    recommends
        prefix <= 32,
{
    if prefix == 0 {
        0u32
    } else {
        0xffff_ffffu32 << ((32 - prefix) as u32)
    }
}

/// The network address: the address with every bit beyond the prefix cleared.
pub open spec fn network_of(address: u32, prefix: u32) -> u32 {
    address & mask_of(prefix)
}

/// The broadcast address: the address with every bit beyond the prefix set.
pub open spec fn broadcast_of(address: u32, prefix: u32) -> u32 {
    network_of(address, prefix) | !mask_of(prefix)
}

/// The first host address: the one after the network address. A subnet of
/// prefix length 32 is a single host, which is its own first and last one.
pub open spec fn min_host_of(address: u32, prefix: u32) -> u32 {
    if prefix >= 32 {
        network_of(address, prefix)
    } else {
        (network_of(address, prefix) + 1) as u32
    }
}

/// The last host address: the one before the broadcast address.
pub open spec fn max_host_of(address: u32, prefix: u32) -> u32 {
    if prefix >= 32 {
        network_of(address, prefix)
    } else {
        (broadcast_of(address, prefix) - 1) as u32
    }
}

/// How many addresses a subnet holds: two to the number of bits beyond the prefix.
pub open spec fn total_addresses_of(prefix: u32) -> nat
    recommends
        prefix <= 32,
{
    pow2((32 - prefix) as nat)
}

/// How many addresses can be given to hosts: all but the network and the
/// broadcast address, and none where the subnet holds fewer than two.
pub open spec fn assignable_addresses_of(prefix: u32) -> nat
    recommends
        prefix <= 32,
{
    if total_addresses_of(prefix) >= 2 {
        (total_addresses_of(prefix) - 2) as nat
    } else {
        0
    }
}

/// The address lies between the network and the broadcast address of its subnet.
pub proof fn lemma_address_within_subnet(address: u32, prefix: u32)
    requires
        prefix <= 32,
    ensures
        network_of(address, prefix) <= address <= broadcast_of(address, prefix),
{
    let mask = mask_of(prefix);
    assert(address & mask <= address && address <= ((address & mask) | !mask)) by (bit_vector);
}

/// The mask separates the two: the network address has no bit outside the
/// mask, and the broadcast address has the network address inside it.
pub proof fn lemma_mask_separates(address: u32, prefix: u32)
    requires
        prefix <= 32,
    ensures
        network_of(address, prefix) & !mask_of(prefix) == 0,
        broadcast_of(address, prefix) & mask_of(prefix) == network_of(address, prefix),
{
    let mask = mask_of(prefix);
    assert((address & mask) & !mask == 0 && ((address & mask) | !mask) & mask == address & mask)
        by (bit_vector);
}

/// The mask has exactly its top `prefix` bits set; as a number it is all of
/// the 32 bits less those beyond the prefix.
pub proof fn lemma_mask_shape(prefix: u32)
    requires
        prefix <= 32,
    ensures
        forall|i: int| 0 <= i < 32 ==> (#[trigger] bit_char(mask_of(prefix), i) == '1' <==> i < prefix),
        mask_of(prefix) == pow2(32) - pow2((32 - prefix) as nat),
{
    lemma_shift_is_pow2(prefix);
    let mask = mask_of(prefix);
    let low = (32 - prefix) as u32;
    if prefix != 0 {
        assert(0xffff_ffffu32 << low == 0x1_0000_0000u64 - (1u64 << low)) by (bit_vector)
            requires
                low < 32,
        ;
    }
    assert forall|i: int| 0 <= i < 32 implies (#[trigger] bit_char(mask, i) == '1' <==> i < prefix) by {
        let place = (31 - i) as u32;
        if prefix == 0 {
            assert((0u32 >> place) & 1 == 0) by (bit_vector);
        } else {
            assert(((0xffff_ffffu32 << low) >> place) & 1 == 1 <==> place >= low) by (bit_vector)
                requires
                    low < 32,
                    place < 32,
            ;
        }
    }
}

/// The binary digits of the network address are those of the address up to
/// the prefix length, and `0` beyond it; those of the broadcast address are
/// the same up to the prefix length, and `1` beyond it.
pub proof fn lemma_boundary_digits(address: u32, prefix: u32)
    requires
        prefix <= 32,
    ensures
        binary_text(network_of(address, prefix)) == binary_text(address).take(prefix as int)
            + Seq::new((32 - prefix) as nat, |i: int| '0'),
        binary_text(broadcast_of(address, prefix)) == binary_text(address).take(prefix as int)
            + Seq::new((32 - prefix) as nat, |i: int| '1'),
{
    let mask = mask_of(prefix);
    let network = network_of(address, prefix);
    let broadcast = broadcast_of(address, prefix);
    lemma_mask_shape(prefix);
    assert forall|i: int| 0 <= i < 32 implies bit_char(network, i) == (if i < prefix {
        bit_char(address, i)
    } else {
        '0'
    }) && bit_char(broadcast, i) == (if i < prefix {
        bit_char(address, i)
    } else {
        '1'
    }) by {
        let place = (31 - i) as u32;
        assert(bit_char(mask, i) == '1' <==> i < prefix);
        let m = (mask >> place) & 1;
        assert((m == 1 ==> ((address & mask) >> place) & 1 == (address >> place) & 1 && (((address
            & mask) | !mask) >> place) & 1 == (address >> place) & 1) && (m != 1 ==> ((address
            & mask) >> place) & 1 == 0 && (((address & mask) | !mask) >> place) & 1 == 1))
            by (bit_vector)
            requires
                place < 32,
                m == (mask >> place) & 1,
        ;
    }
    assert(binary_text(network) =~= binary_text(address).take(prefix as int) + Seq::new(
        (32 - prefix) as nat,
        |i: int| '0',
    ));
    assert(binary_text(broadcast) =~= binary_text(address).take(prefix as int) + Seq::new(
        (32 - prefix) as nat,
        |i: int| '1',
    ));
}

/// One shifted left by the number of bits beyond the prefix is two to that number.
proof fn lemma_shift_is_pow2(prefix: u32)
    requires
        prefix <= 32,
    ensures
        1u64 << ((32 - prefix) as u32) == pow2((32 - prefix) as nat),
        pow2(32) == 0x1_0000_0000,
        pow2((32 - prefix) as nat) <= 0x1_0000_0000,
{
    lemma2_to64();
    lemma2_to64_rest();
    let low = (32 - prefix) as u32;
    vstd::bits::lemma_u64_shl_is_mul(1u64, low as u64);
    assert(1u64 << low == 1u64 << (low as u64)) by (bit_vector);
}

/// The subnet is the run of addresses from the network address to the
/// broadcast address, and that run has `total_addresses_of(prefix)` members.
pub proof fn lemma_subnet_span(address: u32, prefix: u32)
    requires
        prefix <= 32,
    ensures
        broadcast_of(address, prefix) - network_of(address, prefix) + 1 == total_addresses_of(
            prefix,
        ),
{
    lemma_shift_is_pow2(prefix);
    let low = (32 - prefix) as u32;
    if prefix == 0 {
        assert(((address & 0u32) | !0u32) - (address & 0u32) + 1 == 1u64 << 32u32) by (bit_vector);
    } else {
        let mask = 0xffff_ffffu32 << low;
        assert(((address & mask) | !mask) - (address & mask) + 1 == 1u64 << low) by (bit_vector)
            requires
                low < 32,
                mask == 0xffff_ffffu32 << low,
        ;
    }
}

/// Below prefix length 32 the network address is not the highest address and
/// the broadcast address is not the lowest; up to prefix length 30 the first
/// host comes before the last.
pub proof fn lemma_host_range(address: u32, prefix: u32)
    requires
        prefix < 32,
    ensures
        network_of(address, prefix) < 0xffff_ffff,
        broadcast_of(address, prefix) > 0,
        min_host_of(address, prefix) == network_of(address, prefix) + 1,
        max_host_of(address, prefix) == broadcast_of(address, prefix) - 1,
        prefix <= 30 ==> min_host_of(address, prefix) < max_host_of(address, prefix),
        prefix == 31 ==> min_host_of(address, prefix) == broadcast_of(address, prefix)
            && max_host_of(address, prefix) == network_of(address, prefix),
{
    lemma_subnet_span(address, prefix);
    lemma_address_within_subnet(address, prefix);
    lemma2_to64();
    lemma2_to64_rest();
    if prefix <= 30 {
        vstd::arithmetic::power2::lemma_pow2_strictly_increases(1, (32 - prefix) as nat);
    }
}

/// Builds the mask of a prefix length.
pub fn prefix_mask(prefix: u32) -> (mask: u32)
    requires
        prefix <= 32,
    ensures
        mask == mask_of(prefix),
{
    if prefix == 0 {
        0
    } else {
        0xffff_ffffu32 << (32 - prefix)
    }
}

/// Counts the addresses of a subnet, in 64 bits: prefix length 0 gives two to the 32.
pub fn total_addresses(prefix: u32) -> (total: u64)
    requires
        prefix <= 32,
    ensures
        total == pow2((32 - prefix) as nat),
        total == total_addresses_of(prefix),
{
    proof {
        lemma_shift_is_pow2(prefix);
    }
    1u64 << (32 - prefix)
}

/// Counts the addresses that hosts can have: the total less two, and 0 for
/// prefix lengths 31 and 32.
pub fn assignable_addresses(prefix: u32) -> (assignable: u64)
    requires
        prefix <= 32,
    ensures
        assignable == assignable_addresses_of(prefix),
        prefix >= 31 ==> assignable == 0,
        prefix <= 30 ==> assignable == total_addresses_of(prefix) - 2,
{
    proof {
        lemma2_to64();
        if prefix <= 30 {
            vstd::arithmetic::power2::lemma_pow2_strictly_increases(1, (32 - prefix) as nat);
        }
    }
    let total = total_addresses(prefix);
    if total >= 2 {
        total - 2
    } else {
        0
    }
}

/// The boundaries and the sizes of one subnet.
#[derive(Clone, Copy, Debug, PartialEq, Eq, Structural)]
pub struct Subnet {
    /// The lowest address, all bits beyond the prefix clear.
    pub network: u32,
    /// The first address that a host can have.
    pub min_host: u32,
    /// The last address that a host can have.
    pub max_host: u32,
    /// The highest address, all bits beyond the prefix set.
    pub broadcast: u32,
    /// How many addresses the subnet holds.
    pub total_addresses: u64,
    /// How many of them hosts can have.
    pub assignable_addresses: u64,
}

impl Subnet {
    /// This is the subnet of prefix length `prefix` that `address` lies in.
    pub open spec fn is_subnet_of(self, address: u32, prefix: u32) -> bool {
        &&& self.network == network_of(address, prefix)
        &&& self.min_host == min_host_of(address, prefix)
        &&& self.max_host == max_host_of(address, prefix)
        &&& self.broadcast == broadcast_of(address, prefix)
        &&& self.total_addresses == total_addresses_of(prefix)
        &&& self.assignable_addresses == assignable_addresses_of(prefix)
    }

    /// Computes the subnet of prefix length `prefix` that `address` lies in.
    pub fn containing(address: u32, prefix: u32) -> (subnet: Subnet)
        requires
            prefix <= 32,
        ensures
            subnet.is_subnet_of(address, prefix),
            subnet.network <= address <= subnet.broadcast,
            subnet.network & !mask_of(prefix) == 0,
            subnet.broadcast & mask_of(prefix) == subnet.network,
            subnet.total_addresses == subnet.broadcast - subnet.network + 1,
    {
        let mask = prefix_mask(prefix);
        let network = address & mask;
        let broadcast = network | !mask;
        proof {
            lemma_address_within_subnet(address, prefix);
            lemma_mask_separates(address, prefix);
            lemma_subnet_span(address, prefix);
            if prefix < 32 {
                lemma_host_range(address, prefix);
            }
        }
        let (min_host, max_host) = if prefix == 32 {
            (network, network)
        } else {
            (network + 1, broadcast - 1)
        };
        Subnet {
            network,
            min_host,
            max_host,
            broadcast,
            total_addresses: total_addresses(prefix),
            assignable_addresses: assignable_addresses(prefix),
        }
    }

    /// Computes the subnet of prefix length `prefix` that the address of four octets lies in.
    pub fn new(octets: &[u8; 4], prefix: u32) -> (subnet: Subnet)
        requires
            prefix <= 32,
        ensures
            subnet.is_subnet_of(address_of(octets@), prefix),
    {
        Subnet::containing(octets_to_u32(octets), prefix)
    }
}

/// Computes the subnet of an address and writes its four boundaries as 32
/// binary digits each: network address, first host, last host, broadcast
/// address.
pub fn subnet_calcs(octets: &[u8; 4], cidr_num: u32) -> (texts: (String, String, String, String))
    requires
        cidr_num <= 32,
    ensures
        texts.0@ == binary_text(network_of(address_of(octets@), cidr_num)),
        texts.1@ == binary_text(min_host_of(address_of(octets@), cidr_num)),
        texts.2@ == binary_text(max_host_of(address_of(octets@), cidr_num)),
        texts.3@ == binary_text(broadcast_of(address_of(octets@), cidr_num)),
{
    let subnet = Subnet::new(octets, cidr_num);
    (
        u32_to_binary_str(subnet.network),
        u32_to_binary_str(subnet.min_host),
        u32_to_binary_str(subnet.max_host),
        u32_to_binary_str(subnet.broadcast),
    )
}

} // verus!
