use hgl_sim::edge_mask::SimEdgeMask;
use hgl_sim::utils::{
    gcd, iter_u64_of_bits, iter_u8_of_bits, lcm, mask_u64_zero_all, mask_u64_zero_none,
    mask_u8_zero_all, mask_u8_zero_none, num_u64_of_bits, num_u8_of_bits,
};

#[test]
fn masks() {
    assert_eq!(mask_u8_zero_none(0), 0);
    assert_eq!(mask_u8_zero_none(3), 7);
    assert_eq!(mask_u8_zero_none(9), 255);
    assert_eq!(mask_u8_zero_all(0), 255);
    assert_eq!(mask_u8_zero_all(5), 31);
    assert_eq!(mask_u64_zero_none(0), 0);
    assert_eq!(mask_u64_zero_none(64), u64::MAX);
    assert_eq!(mask_u64_zero_all(0), u64::MAX);
    assert_eq!(mask_u64_zero_all(12), 0xfff);
}

#[test]
fn storage_sizes() {
    assert_eq!(num_u8_of_bits(0), 0);
    assert_eq!(num_u8_of_bits(9), 2);
    assert_eq!(num_u64_of_bits(64), 1);
    assert_eq!(num_u64_of_bits(65), 2);
    assert_eq!(iter_u8_of_bits(12), vec![(0, 255), (1, 15)]);
    assert_eq!(iter_u8_of_bits(16), vec![(0, 255), (1, 255)]);
    assert_eq!(iter_u64_of_bits(70), vec![(0, u64::MAX), (1, 63)]);
}

#[test]
fn gcd_lcm() {
    assert_eq!(gcd(12, 18), 6);
    assert_eq!(gcd(18, 12), 6);
    assert_eq!(gcd(7, 5), 1);
    assert_eq!(lcm(4, 6), 12);
    assert_eq!(lcm(21, 14), 42);
    assert_eq!(lcm(5, 5), 5);
}

#[test]
fn edge_masks() {
    let m = SimEdgeMask::none().add_posedge(2).add_negedge(3);
    assert!(!m.is_none());
    assert!(m.is_posedge(2) && !m.is_negedge(2));
    assert!(m.is_negedge(3) && !m.is_posedge(3));
    let mut n = SimEdgeMask::default();
    assert!(n.is_none());
    n.set_posedge(2);
    assert!(m.contains_all(&n));
    assert!(!n.contains_all(&m));
}
