//! Addresses as text: 32 binary digits, binary digits in four dotted groups,
//! and dotted decimal.

use crate::address::address_of;
use crate::address::octet_of;
use crate::address::octets_to_u32;
use crate::address::u32_to_octets;
use crate::decimal::decimal_text;
use crate::decimal::push_decimal;
use vstd::arithmetic::power2::lemma2_to64;
use vstd::arithmetic::power2::lemma2_to64_rest;
use vstd::arithmetic::power2::lemma_pow2_unfold;
use vstd::arithmetic::power2::pow2;
use vstd::prelude::*;
use vstd::string::*;

verus! {

/// The binary digit at place `i` of an address, place 0 being the highest bit.
pub open spec fn bit_char(address: u32, i: int) -> char
    recommends
        0 <= i < 32,
{
    if (address >> ((31 - i) as u32)) & 1 == 1 {
        '1'
    } else {
        '0'
    }
}

/// An address as 32 binary digits, highest bit first.
pub open spec fn binary_text(address: u32) -> Seq<char> {
    Seq::new(32, |i: int| bit_char(address, i))
}

/// Every character is `0` or `1`.
pub open spec fn is_binary_digits(s: Seq<char>) -> bool {
    forall|i: int| 0 <= i < s.len() ==> #[trigger] s[i] == '0' || s[i] == '1'
}

/// A text of exactly 32 binary digits.
pub open spec fn is_binary_text(s: Seq<char>) -> bool {
    s.len() == 32 && is_binary_digits(s)
}

/// The number that a run of binary digits writes, highest bit first.
pub open spec fn binary_value(s: Seq<char>) -> nat
    recommends
        is_binary_digits(s),
    decreases s.len(),
{
    if s.len() == 0 {
        0
    } else {
        2 * binary_value(s.drop_last()) + if s.last() == '1' {
            1nat
        } else {
            0nat
        }
    }
}

/// 32 binary digits in four groups of eight, with dots between the groups.
pub open spec fn dotted_binary_text(s: Seq<char>) -> Seq<char>
    recommends
        s.len() == 32,
{
    s.subrange(0, 8) + seq!['.'] + s.subrange(8, 16) + seq!['.'] + s.subrange(16, 24) + seq!['.']
        + s.subrange(24, 32)
}

/// An address in dotted decimal: its four octets in base ten, highest first,
/// with dots between them.
pub open spec fn dotted_decimal_text(address: u32) -> Seq<char> {
    decimal_text(octet_of(address, 0) as nat) + seq!['.'] + decimal_text(
        octet_of(address, 1) as nat,
    ) + seq!['.'] + decimal_text(octet_of(address, 2) as nat) + seq!['.'] + decimal_text(
        octet_of(address, 3) as nat,
    )
}

/// A run of `n` binary digits writes a number below two to the `n`.
pub proof fn lemma_binary_value_bound(s: Seq<char>)
    ensures
        binary_value(s) < pow2(s.len()),
    decreases s.len(),
{
    if s.len() == 0 {
        lemma2_to64();
    } else {
        lemma_binary_value_bound(s.drop_last());
        lemma_pow2_unfold(s.len());
    }
}

/// The first `k` binary digits of an address write the address shifted right by the other bits.
proof fn lemma_binary_text_prefix_value(address: u32, k: nat)
    requires
        k <= 32,
    ensures
        binary_value(binary_text(address).take(k as int)) == (address as u64) >> ((32 - k) as u64),
    decreases k,
{
    let t = binary_text(address).take(k as int);
    let wide = address as u64;
    if k == 0 {
        assert(wide >> 32u64 == 0) by (bit_vector)
            requires
                wide <= 0xffff_ffff,
        ;
    } else {
        lemma_binary_text_prefix_value(address, (k - 1) as nat);
        assert(t.drop_last() =~= binary_text(address).take(k - 1));
        assert(t.last() == bit_char(address, k - 1));
        let low = (32 - k) as u32;
        let bit = (address >> low) & 1;
        assert(bit == 0 || bit == 1) by (bit_vector)
            requires
                bit == (address >> low) & 1,
        ;
        assert(wide >> (low as u64) == 2 * (wide >> ((low + 1) as u64)) + bit) by (bit_vector)
            requires
                low < 32,
                wide == address as u64,
                bit == (address >> low) & 1,
        ;
    }
}

/// The binary digits of an address are 32 binary digits, and they write the address.
pub proof fn lemma_binary_text_round_trip(address: u32)
    ensures
        is_binary_text(binary_text(address)),
        binary_value(binary_text(address)) == address,
{
    lemma_binary_text_prefix_value(address, 32);
    assert(binary_text(address).take(32) =~= binary_text(address));
    let wide = address as u64;
    assert(wide >> 0u64 == wide) by (bit_vector);
}

/// The last `32 - k` binary digits of the address that 32 binary digits write are those digits.
proof fn lemma_binary_value_digits(s: Seq<char>, k: nat)
    requires
        is_binary_text(s),
        k <= 32,
    ensures
        binary_value(s) < 0x1_0000_0000,
        (binary_value(s) as u64) >> ((32 - k) as u64) == binary_value(s.take(k as int)),
        forall|i: int| k <= i < 32 ==> bit_char(binary_value(s) as u32, i) == #[trigger] s[i],
    decreases 32 - k,
{
    lemma_binary_value_bound(s);
    lemma2_to64();
    lemma2_to64_rest();
    let wide = binary_value(s) as u64;
    if k == 32 {
        assert(s.take(32) =~= s);
        assert(wide >> 0u64 == wide) by (bit_vector);
    } else {
        lemma_binary_value_digits(s, k + 1);
        let t = s.take(k as int + 1);
        assert(t.drop_last() =~= s.take(k as int));
        assert(t.last() == s[k as int]);
        let low = (31 - k) as u32;
        let upper = wide >> ((low + 1) as u64);
        let bit: u64 = if s[k as int] == '1' {
            1
        } else {
            0
        };
        lemma_binary_value_bound(s.take(k as int));
        assert(binary_value(s.take(k as int)) <= 0xffff_ffff) by {
            vstd::arithmetic::power2::lemma_pow2_strictly_increases(k, 32);
        }
        let head = binary_value(s.take(k as int)) as u64;
        assert(wide >> (low as u64) == 2 * head + bit);
        assert(upper == head && ((wide as u32) >> low) & 1 == bit) by (bit_vector)
            requires
                low < 32,
                wide <= 0xffff_ffff,
                head <= 0xffff_ffff,
                bit <= 1,
                upper == wide >> ((low + 1) as u64),
                wide >> (low as u64) == 2 * head + bit,
        ;
        assert(bit_char(binary_value(s) as u32, k as int) == s[k as int]);
    }
}

/// 32 binary digits write a 32-bit address, whose binary digits they are.
pub proof fn lemma_binary_value_round_trip(s: Seq<char>)
    requires
        is_binary_text(s),
    ensures
        binary_value(s) <= u32::MAX,
        binary_text(binary_value(s) as u32) == s,
{
    lemma_binary_value_digits(s, 0);
    assert(binary_text(binary_value(s) as u32) =~= s);
}

/// Writes an address as 32 binary digits, highest bit first.
pub fn u32_to_binary_str(address: u32) -> (text: String)
    ensures
        text@ == binary_text(address),
{
    let mut text = String::new();
    let mut i: u32 = 0;
    proof {
        reveal_strlit("0");
        reveal_strlit("1");
    }
    while i < 32
        invariant
            i <= 32,
            text@ == binary_text(address).take(i as int),
            "0"@ == seq!['0'],
            "1"@ == seq!['1'],
        decreases 32 - i,
    {
        if (address >> (31 - i)) & 1 == 1 {
            text.append("1");
        } else {
            text.append("0");
        }
        i += 1;
        assert(text@ =~= binary_text(address).take(i as int));
    }
    assert(binary_text(address).take(32) =~= binary_text(address));
    text
}

/// Writes four octets as 32 binary digits, eight for each octet, the first octet first.
pub fn octets_to_binary_num_str(octets: &[u8; 4]) -> (text: String)
    ensures
        text@ == binary_text(address_of(octets@)),
{
    u32_to_binary_str(octets_to_u32(octets))
}

/// Tells whether a text is exactly 32 binary digits.
pub fn is_binary_str(text: &str) -> (ok: bool)
    ensures
        ok == is_binary_text(text@),
{
    if !text.is_ascii() {
        return false;
    }
    let bytes = text.as_bytes();
    proof {
        is_ascii_spec_bytes(text);
    }
    if bytes.len() != 32 {
        return false;
    }
    let mut i: usize = 0;
    while i < 32
        invariant
            i <= 32,
            text@.len() == 32,
            is_ascii(text),
            bytes@ == text.spec_bytes(),
            is_binary_digits(text@.take(i as int)),
        decreases 32 - i,
    {
        proof {
            is_ascii_spec_bytes(text);
        }
        let b = bytes[i];
        if b != 48 && b != 49 {
            assert(text@[i as int] != '0' && text@[i as int] != '1');
            return false;
        }
        assert(text@[i as int] == '0' || text@[i as int] == '1');
        assert forall|j: int| 0 <= j < i + 1 implies #[trigger] text@.take(i + 1)[j] == '0'
            || text@.take(i + 1)[j] == '1' by {
            if j < i {
                assert(text@.take(i as int)[j] == text@[j]);
            }
        }
        i += 1;
    }
    assert(text@.take(32) =~= text@);
    true
}

/// Reads the address that 32 binary digits write.
pub fn binary_str_to_u32(text: &str) -> (address: u32)
    requires
        is_binary_text(text@),
    ensures
        address == binary_value(text@),
        binary_text(address) == text@,
{
    let bytes = text.as_bytes();
    proof {
        is_ascii_spec_bytes(text);
        lemma_binary_value_round_trip(text@);
        lemma2_to64();
    }
    let mut value: u64 = 0;
    let mut i: usize = 0;
    while i < 32
        invariant
            i <= 32,
            is_binary_text(text@),
            is_ascii(text),
            bytes@ == text.spec_bytes(),
            value == binary_value(text@.take(i as int)),
            value < pow2(i as nat),
        decreases 32 - i,
    {
        proof {
            is_ascii_spec_bytes(text);
            lemma2_to64();
            lemma2_to64_rest();
            vstd::arithmetic::power2::lemma_pow2_strictly_increases(i as nat, 32);
            let next = text@.take(i + 1);
            assert(next.drop_last() =~= text@.take(i as int));
            assert(next.last() == text@[i as int]);
            lemma_binary_value_bound(next);
        }
        let bit: u64 = if bytes[i] == 49 {
            1
        } else {
            0
        };
        value = value * 2 + bit;
        i += 1;
    }
    proof {
        assert(text@.take(32) =~= text@);
        lemma2_to64();
        lemma2_to64_rest();
    }
    value as u32
}

/// Writes an address in dotted decimal.
pub fn u32_to_dotted_decimal(address: u32) -> (text: String)
    ensures
        text@ == dotted_decimal_text(address),
{
    let octets = u32_to_octets(address);
    let mut text = String::new();
    proof {
        reveal_strlit(".");
    }
    push_decimal(&mut text, octets[0]);
    text.append(".");
    push_decimal(&mut text, octets[1]);
    text.append(".");
    push_decimal(&mut text, octets[2]);
    text.append(".");
    push_decimal(&mut text, octets[3]);
    assert(text@ =~= dotted_decimal_text(address));
    text
}

/// Puts dots between the four groups of eight of 32 binary digits.
pub fn binary_subnet_str_to_octets(subnet_str: &str) -> (text: String)
    requires
        is_binary_text(subnet_str@),
    ensures
        text@ == dotted_binary_text(subnet_str@),
{
    proof {
        reveal_strlit(".");
    }
    let mut text = String::from_str(subnet_str.substring_ascii(0, 8));
    text.append(".");
    text.append(subnet_str.substring_ascii(8, 16));
    text.append(".");
    text.append(subnet_str.substring_ascii(16, 24));
    text.append(".");
    text.append(subnet_str.substring_ascii(24, 32));
    assert(text@ =~= dotted_binary_text(subnet_str@));
    text
}

/// Writes in dotted decimal the address that 32 binary digits write.
pub fn binary_subnet_str_to_base10_octets(subnet_str: &str) -> (text: String)
    requires
        is_binary_text(subnet_str@),
    ensures
        text@ == dotted_decimal_text(binary_value(subnet_str@) as u32),
{
    u32_to_dotted_decimal(binary_str_to_u32(subnet_str))
}

} // verus!
