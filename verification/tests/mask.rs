use subnet_calc::mask::{
    broadcast_address, host_count, is_canonical_mask, leading_ones, mask_from_prefix,
    network_address,
};

#[test]
fn makes_the_mask_of_a_prefix_length() {
    assert_eq!(mask_from_prefix(0), 0);
    assert_eq!(mask_from_prefix(1), 0x8000_0000);
    assert_eq!(mask_from_prefix(8), 0xFF00_0000);
    assert_eq!(mask_from_prefix(24), 0xFFFF_FF00);
    assert_eq!(mask_from_prefix(25), 0xFFFF_FF80);
    assert_eq!(mask_from_prefix(31), 0xFFFF_FFFE);
    assert_eq!(mask_from_prefix(32), 0xFFFF_FFFF);
}

#[test]
fn makes_the_mask_as_a_sum_of_its_bits() {
    for len in 0..=32u32 {
        let mut sum: u32 = 0;
        for bit in 0..len {
            sum += 2u32.pow(31 - bit);
        }
        assert_eq!(mask_from_prefix(len), sum);
    }
}

#[test]
fn counts_leading_ones() {
    assert_eq!(leading_ones(0), 0);
    assert_eq!(leading_ones(0x7FFF_FFFF), 0);
    assert_eq!(leading_ones(0x8000_0000), 1);
    assert_eq!(leading_ones(0xFF00_FF00), 8);
    assert_eq!(leading_ones(0xFFFF_FF00), 24);
    assert_eq!(leading_ones(0xFFFF_FFFE), 31);
    assert_eq!(leading_ones(0xFFFF_FFFF), 32);
}

#[test]
fn recovers_the_prefix_length_of_every_mask() {
    for len in 0..=32u32 {
        assert_eq!(leading_ones(mask_from_prefix(len)), len);
        assert!(is_canonical_mask(mask_from_prefix(len)));
    }
}

#[test]
fn tells_canonical_masks_from_others() {
    assert!(is_canonical_mask(0));
    assert!(is_canonical_mask(0xFFFF_FF00));
    assert!(is_canonical_mask(0xFFFF_FFFF));
    assert!(!is_canonical_mask(0xFF00_FF00));
    assert!(!is_canonical_mask(0x00FF_00FF));
    assert!(!is_canonical_mask(0x00FF_FF00));
    assert!(!is_canonical_mask(1));
    assert!(!is_canonical_mask(0xFFFF_FF01));
    assert!(!is_canonical_mask(0x7FFF_FFFF));
}

#[test]
fn counts_canonical_masks_by_their_ones() {
    let mut mask: u32 = 3;
    for _ in 0..5000 {
        mask = mask.wrapping_mul(1_664_525).wrapping_add(1_013_904_223);
        let by_count = mask_from_prefix(mask.count_ones());
        assert_eq!(is_canonical_mask(mask), by_count == mask);
    }
}

#[test]
fn derives_network_and_broadcast() {
    assert_eq!(network_address(0xC0A8_0001, 0xFFFF_FF00), 0xC0A8_0000);
    assert_eq!(broadcast_address(0xC0A8_0001, 0xFFFF_FF00), 0xC0A8_00FF);
    assert_eq!(network_address(0xC0A8_0001, 0xFFFF_FF80), 0xC0A8_0000);
    assert_eq!(broadcast_address(0xC0A8_0001, 0xFFFF_FF80), 0xC0A8_007F);
    assert_eq!(network_address(0x0A00_05C8, 0), 0);
    assert_eq!(broadcast_address(0x0A00_05C8, 0), 0xFFFF_FFFF);
    assert_eq!(network_address(0x0A00_05C8, 0xFFFF_FFFF), 0x0A00_05C8);
    assert_eq!(broadcast_address(0x0A00_05C8, 0xFFFF_FFFF), 0x0A00_05C8);
}

#[test]
fn clears_and_sets_the_host_bits() {
    let mut host: u32 = 11;
    for _ in 0..200 {
        host = host.wrapping_mul(1_664_525).wrapping_add(1_013_904_223);
        for len in 0..=32u32 {
            let mask = mask_from_prefix(len);
            let network = network_address(host, mask);
            let broadcast = broadcast_address(host, mask);
            let size: u64 = 1u64 << (32 - len);
            assert_eq!(network, host & mask);
            assert_eq!(broadcast, host | !mask);
            assert_eq!(u64::from(network) % size, 0);
            assert_eq!(u64::from(broadcast) % size, size - 1);
            assert_eq!(u64::from(broadcast) - u64::from(network), size - 1);
            assert!(network <= host && host <= broadcast);
        }
    }
}

#[test]
fn counts_usable_hosts() {
    assert_eq!(host_count(32), 0);
    assert_eq!(host_count(31), 0);
    assert_eq!(host_count(30), 2);
    assert_eq!(host_count(25), 126);
    assert_eq!(host_count(24), 254);
    assert_eq!(host_count(16), 65_534);
    assert_eq!(host_count(1), 2_147_483_646);
    assert_eq!(host_count(0), 4_294_967_294);
}

#[test]
fn counts_no_hosts_beyond_the_longest_prefix() {
    assert_eq!(host_count(33), 0);
    assert_eq!(host_count(u32::MAX), 0);
}

#[test]
fn counts_hosts_by_the_formula() {
    for len in 0..=32u32 {
        assert_eq!(host_count(len), 2u64.pow(32 - len).saturating_sub(2));
    }
}
