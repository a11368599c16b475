use aggregator::biguint::BigUint;

fn b(x: u128) -> BigUint {
    BigUint::from_u128(x)
}

#[test]
fn limbs_round_trip() {
    assert_eq!(b(0).to_limbs(), Vec::<u32>::new());
    assert_eq!(b(1).to_limbs(), vec![1u32]);
    assert_eq!(b(0x1_0000_0000).to_limbs(), vec![0u32, 1]);
    assert_eq!(BigUint::from_limbs(vec![5, 0, 0]).to_limbs(), vec![5u32]);
    assert_eq!(BigUint::from_limbs(vec![5, 0, 7]), b(5 + (7u128 << 64)));
    assert_eq!(BigUint::from_u64(u64::MAX), b(u64::MAX as u128));
    assert_eq!(BigUint::zero(), b(0));
}

#[test]
fn sums_and_differences() {
    let max = b(u128::MAX);
    let over = max.plus(&b(1));
    assert_eq!(over.to_limbs(), vec![0u32, 0, 0, 0, 1]);
    assert_eq!(over.minus(&b(1)), max);
    assert_eq!(over.minus(&over), b(0));
    assert_eq!(b(10).plus(&b(0)), b(10));
    assert_eq!(b(300).minus(&b(45)), b(255));
    assert_eq!(max.plus(&max).minus(&max), max);
}

#[test]
fn comparisons() {
    let max = b(u128::MAX);
    let over = max.plus(&b(1));
    assert!(max.less_than(&over));
    assert!(!over.less_than(&max));
    assert!(!max.less_than(&max));
    assert!(b(3).less_than(&b(4)));
    assert!(over.equals(&b(1).plus(&max)));
    assert!(!over.equals(&max));
    assert!(b(0).is_zero());
    assert!(!over.is_zero());
    assert!(over.copy().equals(&over));
}

#[test]
fn products_and_quotients() {
    assert_eq!(b(7).times_u32(6), b(42));
    assert_eq!(b(7).times_u32(0), b(0));
    let max = b(u128::MAX);
    let p = max.times_u32(u32::MAX);
    assert_eq!(p.div_rem_u32(u32::MAX), (max.copy(), 0));
    assert_eq!(b(100_001).div_rem_u32(100_000), (b(1), 1));
    assert_eq!(b(99_999).div_rem_u32(100_000), (b(0), 99_999));
    assert_eq!(max.plus(&b(1)).div_rem_u32(2), (b(1u128 << 127), 0));
}
