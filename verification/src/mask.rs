//! Subnet masks as 32-bit values: canonical masks, prefix lengths, and the
//! addresses and host counts derived from them.

use vstd::arithmetic::power2::*;
use vstd::bits::*;
use vstd::prelude::*;
use vstd::std_specs::bits::*;

verus! {

/// The mask whose top `len` bits are one and whose other bits are zero.
pub open spec fn canonical_mask(len: u32) -> u32
    recommends
        len <= 32,
{
    if len == 0 {
        0u32
    } else {
        0xFFFF_FFFFu32 << ((32 - len) as u32)
    }
}

/// The prefix length that a mask stands for: the number of one bits at its
/// top, counted from bit 31 down to the first zero bit.
pub open spec fn prefix_of(mask: u32) -> u32 {
    u32_leading_ones(mask)
}

/// Whether the one bits of a mask are one run that begins at bit 31.
pub open spec fn is_canonical(mask: u32) -> bool {
    mask == canonical_mask(prefix_of(mask))
}

/// The network address of a host: the host with its host bits cleared.
pub open spec fn network_of(host: u32, mask: u32) -> u32 {
    host & mask
}

/// The broadcast address of a host: the host with its host bits set.
pub open spec fn broadcast_of(host: u32, mask: u32) -> u32 {
    host | !mask
}

/// The number of addresses in a subnet of the given prefix length that a
/// host can have: all of them but the network and the broadcast address, and
/// none where the subnet has no more than these two.
pub open spec fn usable_hosts(len: u32) -> nat {
    let size = pow2(if len <= 32 { (32 - len) as nat } else { 0 });
    if size >= 2 {
        (size - 2) as nat
    } else {
        0
    }
}

/// Builds the canonical mask of a prefix length.
pub fn mask_from_prefix(len: u32) -> (mask: u32)
    requires
        len <= 32,
    ensures
        mask == canonical_mask(len),
{
    if len == 0 {
        0
    } else {
        0xFFFF_FFFFu32 << (32 - len)
    }
}

/// Counts the one bits at the top of a mask.
pub fn leading_ones(mask: u32) -> (len: u32)
    ensures
        len == prefix_of(mask),
        len <= 32,
{
    broadcast use axiom_u32_leading_ones;

    mask.leading_ones()
}

/// Tells whether a mask is canonical.
pub fn is_canonical_mask(mask: u32) -> (canonical: bool)
    ensures
        canonical == is_canonical(mask),
{
    mask_from_prefix(leading_ones(mask)) == mask
}

/// Computes the network address of a host under a mask.
pub fn network_address(host: u32, mask: u32) -> (network: u32)
    ensures
        network == network_of(host, mask),
{
    host & mask
}

/// Computes the broadcast address of a host under a mask.
pub fn broadcast_address(host: u32, mask: u32) -> (broadcast: u32)
    ensures
        broadcast == broadcast_of(host, mask),
{
    host | !mask
}

/// Counts the usable host addresses of a prefix length.
pub fn host_count(len: u32) -> (count: u64)
    ensures
        count == usable_hosts(len),
{
    let bits: u32 = 32u32.saturating_sub(len);
    let size: u64 = 1u64 << bits;
    proof {
        lemma_u64_pow2_no_overflow(bits as nat);
        lemma_u64_shl_is_mul(1, bits as u64);
        assert(1u64 << bits == 1u64 << (bits as u64)) by (bit_vector);
    }
    size.saturating_sub(2)
}

/// The prefix length of a mask, said bit by bit: the top `len` bits are one,
/// and the bit below them, if there is one, is zero.
pub proof fn lemma_prefix_of(mask: u32)
    ensures
        prefix_of(mask) <= 32,
        forall|bit: u32| 32 - prefix_of(mask) <= bit < 32 ==> #[trigger] (mask >> bit) & 1 == 1,
        prefix_of(mask) < 32 ==> (mask >> ((31 - prefix_of(mask)) as u32)) & 1 == 0,
{
    axiom_u32_leading_ones(mask);
}

/// The mask made from a prefix length stands for that prefix length.
pub proof fn lemma_prefix_of_canonical_mask(len: u32)
    requires
        len <= 32,
    ensures
        prefix_of(canonical_mask(len)) == len,
        is_canonical(canonical_mask(len)),
{
    let mask = canonical_mask(len);
    let found = prefix_of(mask);
    axiom_u32_leading_ones(mask);
    assert(found == len) by (bit_vector)
        requires
            len <= 32,
            found <= 32,
            mask == (if len == 0 {
                0u32
            } else {
                0xFFFF_FFFFu32 << ((32 - len) as u32)
            }),
            found < 32 ==> (mask >> ((31 - found) as u32)) & 1u32 == 0u32,
            (!mask) >> ((32 - found) as u32) == 0,
    ;
}

/// The canonical masks are the masks made from the prefix lengths 0 to 32.
pub proof fn lemma_canonical_masks(mask: u32)
    ensures
        is_canonical(mask) <==> exists|len: u32| len <= 32 && mask == #[trigger] canonical_mask(len),
{
    lemma_prefix_of(mask);
    if exists|len: u32| len <= 32 && mask == #[trigger] canonical_mask(len) {
        let len = choose|len: u32| len <= 32 && mask == #[trigger] canonical_mask(len);
        lemma_prefix_of_canonical_mask(len);
    }
}

/// The number of addresses in a subnet of the given prefix length.
pub open spec fn block_size(len: u32) -> nat
    recommends
        len <= 32,
{
    pow2((32 - len) as nat)
}

/// Under the canonical mask of a prefix length, the network address is the
/// host with its low `32 - len` bits cleared, and the broadcast address is
/// the host with these bits set; the bits above them are the host's.
pub proof fn lemma_network_and_broadcast_bits(host: u32, len: u32, bit: u32)
    by (bit_vector)
    requires
        len <= 32,
        bit < 32,
    ensures
        bit < 32 - len ==> (network_of(host, canonical_mask(len)) >> bit) & 1 == 0,
        bit < 32 - len ==> (broadcast_of(host, canonical_mask(len)) >> bit) & 1 == 1,
        bit >= 32 - len ==> (network_of(host, canonical_mask(len)) >> bit) & 1 == (host >> bit)
            & 1,
        bit >= 32 - len ==> (broadcast_of(host, canonical_mask(len)) >> bit) & 1 == (host >> bit)
            & 1,
{
}

/// Under the canonical mask of a prefix length, the network address is the
/// first address of the host's block of `2^(32 - len)` addresses and the
/// broadcast address is the last one.
pub proof fn lemma_network_and_broadcast(host: u32, len: u32)
    requires
        len <= 32,
    ensures
        ({
            let network = network_of(host, canonical_mask(len)) as nat;
            let broadcast = broadcast_of(host, canonical_mask(len)) as nat;
            &&& network % block_size(len) == 0
            &&& broadcast % block_size(len) == block_size(len) - 1
            &&& network <= host <= broadcast
            &&& broadcast - network == block_size(len) - 1
        }),
{
    let mask = canonical_mask(len);
    let network = network_of(host, mask);
    let broadcast = broadcast_of(host, mask);
    let bits = (32 - len) as u64;
    let size = 1u64 << bits;
    assert(size == block_size(len) && size > 0) by {
        lemma_u64_pow2_no_overflow(bits as nat);
        lemma_u64_shl_is_mul(1, bits);
    }
    let low = (size - 1) as u64;
    assert(size > 0 && (network as u64) & low == 0 && (broadcast as u64) & low == low && network
        <= host && host <= broadcast && broadcast - network == low) by (bit_vector)
        requires
            len <= 32,
            bits == 32 - len,
            size == 1u64 << bits,
            low == size - 1,
            mask == (if len == 0 {
                0u32
            } else {
                0xFFFF_FFFFu32 << ((32 - len) as u32)
            }),
            network == host & mask,
            broadcast == host | !mask,
    ;
    lemma_u64_low_bits_mask_is_mod(network as u64, bits as nat);
    lemma_u64_low_bits_mask_is_mod(broadcast as u64, bits as nat);
}

} // verus!
