use aggregator::biguint::BigUint;
use aggregator::errors::ContractError;
use aggregator::fee::{share_of, Fee, MAX_FEE_PERCENT};
use aggregator::structs::{EgldOrEsdtTokenIdentifier, EgldOrEsdtTokenPayment, TokenAmount};

fn addr(tag: u8) -> Vec<u8> {
    let mut a = vec![0u8; 32];
    a[5] = tag;
    a
}

fn esdt(id: &[u8]) -> EgldOrEsdtTokenIdentifier {
    EgldOrEsdtTokenIdentifier::Esdt(id.to_vec())
}

fn big(x: u128) -> BigUint {
    BigUint::from_u128(x)
}

fn pay(t: EgldOrEsdtTokenIdentifier, amount: u128) -> EgldOrEsdtTokenPayment {
    EgldOrEsdtTokenPayment::new(t, 0, big(amount))
}

fn ta(t: EgldOrEsdtTokenIdentifier, amount: u128) -> TokenAmount {
    TokenAmount::new(t, big(amount))
}

fn setup() -> (Fee, Vec<u8>) {
    let mut fee = Fee::new();
    let p = addr(1);
    assert_eq!(fee.register_ashswap_fee(50_000, addr(9)), Ok(()));
    assert_eq!(fee.register_protocol_fee(10_000, p.clone()), Ok(()));
    (fee, p)
}

#[test]
fn share_of_exact_values() {
    assert_eq!(share_of(&big(1_000_000), 10_000), big(100_000));
    assert_eq!(share_of(&big(7), 33_333), big(2));
    assert_eq!(share_of(&big(99_999), 1), big(0));
    assert_eq!(share_of(&big(u128::MAX), MAX_FEE_PERCENT), big(u128::MAX));
    assert_eq!(share_of(&big(u128::MAX), 50_000), big(u128::MAX / 2));
    assert_eq!(share_of(&big(0), 77), big(0));
    // beyond u128: (2^128 - 1) * 1000 * 50% = (2^128 - 1) * 500
    let large = big(u128::MAX).times_u32(1000);
    assert_eq!(share_of(&large, 50_000), big(u128::MAX).times_u32(500));
}

#[test]
fn calculate_fee_splits_total() {
    let (fee, p) = setup();
    assert_eq!(fee.calculate_fee(&big(1_000_000), &p), Ok((big(50_000), big(50_000))));
    // rounding: total = 7 * 10000 / 100000 = 0
    assert_eq!(fee.calculate_fee(&big(7), &p), Ok((big(0), big(0))));
    // total = 12345 * 10000 / 100000 = 1234, ashswap = 617, protocol = 617
    assert_eq!(fee.calculate_fee(&big(12_345), &p), Ok((big(617), big(617))));
    // total = 12347 * 10000 / 100000 = 1234, ashswap = 617, protocol = 617
    assert_eq!(fee.calculate_fee(&big(12_347), &p), Ok((big(617), big(617))));
    // total = 20 * 10000 / 100000 = 2 ... with 50%: ashswap 1, protocol 1
    assert_eq!(fee.calculate_fee(&big(20), &p), Ok((big(1), big(1))));
    // an amount beyond u128
    let large = big(u128::MAX).times_u32(10);
    assert_eq!(fee.calculate_fee(&large, &p), Ok((big(u128::MAX / 2), big(u128::MAX / 2 + 1))));
    assert_eq!(fee.calculate_fee(&big(15), &addr(2)), Err(ContractError::ProtocolNotRegistered));
    assert_eq!(ContractError::ProtocolNotRegistered.message(), "Protocol unregistered");
}

#[test]
fn register_refusals_and_update() {
    let mut fee = Fee::new();
    assert_eq!(fee.ashswap_fee_percent(), 0);
    assert_eq!(fee.ashswap_fee_address(), vec![0u8; 32]);
    assert_eq!(fee.register_protocol_fee(100_001, addr(1)), Err(ContractError::InvalidFeePercent));
    assert_eq!(fee.register_protocol_fee(100, vec![0u8; 32]), Err(ContractError::InvalidAddress));
    assert_eq!(fee.register_ashswap_fee(100_001, addr(1)), Err(ContractError::InvalidFeePercent));
    assert_eq!(fee.register_ashswap_fee(100, vec![0u8; 32]), Err(ContractError::InvalidAddress));
    assert_eq!(ContractError::InvalidFeePercent.message(), "Invalid fee percent");
    assert_eq!(ContractError::InvalidAddress.message(), "Invalid contract");
    assert_eq!(fee.protocol_fee_percent(&addr(1)), 0);
    assert_eq!(fee.register_protocol_fee(100_000, addr(1)), Ok(()));
    assert_eq!(fee.protocol_fee_percent(&addr(1)), 100_000);
    // charge, then register again: the ledger stays
    assert_eq!(fee.charge_fee(&pay(esdt(b"USDC-abcdef"), 10), &addr(1), &big(4), &big(6)), Ok(()));
    assert_eq!(fee.register_protocol_fee(5, addr(1)), Ok(()));
    assert_eq!(fee.protocol_fee_percent(&addr(1)), 5);
    let l = fee.get_claimable_protocol_fee(&addr(1), 0, 10);
    assert_eq!(l, vec![ta(esdt(b"USDC-abcdef"), 6)]);
}

#[test]
fn charge_fee_refusals() {
    let (mut fee, p) = setup();
    assert_eq!(fee.charge_fee(&pay(esdt(b"A-1"), 0), &p, &big(0), &big(0)), Err(ContractError::ZeroAmount));
    assert_eq!(fee.charge_fee(&pay(esdt(b"A-1"), 10), &p, &big(3), &big(6)), Err(ContractError::InsufficientAmount));
    assert_eq!(ContractError::InsufficientAmount.message(), "Insufficient amount");
    assert_eq!(fee.charge_fee(&pay(esdt(b"A-1"), 10), &addr(3), &big(4), &big(6)), Err(ContractError::ProtocolNotRegistered));
    // refusals change nothing
    assert_eq!(fee.get_claimable_ashswap_fee(0, 5), vec![]);
    assert_eq!(fee.get_claimable_protocol_fee(&p, 0, 5), vec![]);
}

#[test]
fn charge_fee_books_beyond_u128() {
    let (mut fee, p) = setup();
    assert_eq!(fee.charge_fee(&pay(esdt(b"A-1"), u128::MAX), &p, &big(u128::MAX), &big(0)), Ok(()));
    assert_eq!(fee.charge_fee(&pay(esdt(b"A-1"), 3), &p, &big(1), &big(2)), Ok(()));
    let ash = big(u128::MAX).plus(&big(1));
    assert_eq!(fee.get_claimable_ashswap_fee(0, 5), vec![TokenAmount::new(esdt(b"A-1"), ash.copy())]);
    assert_eq!(fee.get_claimable_protocol_fee(&p, 0, 5), vec![ta(esdt(b"A-1"), 2)]);
    assert_eq!(ash.to_limbs(), vec![0u32, 0, 0, 0, 1]);
    // a payment beyond u128 too
    let payment = EgldOrEsdtTokenPayment::new(esdt(b"A-1"), 0, ash.plus(&ash));
    assert_eq!(fee.charge_fee(&payment, &p, &ash, &ash), Ok(()));
    let out = fee.claim_ashswap_fee();
    assert_eq!(out.esdt_payments[0].amount, ash.plus(&ash));
}

#[test]
fn charge_fee_books_in_insertion_order() {
    let (mut fee, p) = setup();
    assert_eq!(fee.charge_fee(&pay(esdt(b"B-1"), 10), &p, &big(4), &big(6)), Ok(()));
    assert_eq!(fee.charge_fee(&pay(EgldOrEsdtTokenIdentifier::Egld, 3), &p, &big(1), &big(2)), Ok(()));
    assert_eq!(fee.charge_fee(&pay(esdt(b"B-1"), 5), &p, &big(2), &big(3)), Ok(()));
    assert_eq!(
        fee.get_claimable_protocol_fee(&p, 0, 100),
        vec![ta(esdt(b"B-1"), 9), ta(EgldOrEsdtTokenIdentifier::Egld, 2)]
    );
    assert_eq!(
        fee.get_claimable_ashswap_fee(0, 100),
        vec![ta(esdt(b"B-1"), 6), ta(EgldOrEsdtTokenIdentifier::Egld, 1)]
    );
    assert_eq!(fee.get_claimable_protocol_fee(&p, 1, 2), vec![ta(EgldOrEsdtTokenIdentifier::Egld, 2)]);
    assert_eq!(fee.get_claimable_protocol_fee(&p, 2, 1), vec![]);
    assert_eq!(fee.get_claimable_protocol_fee(&p, 5, 9), vec![]);
}

#[test]
fn claim_by_tokens_pays_once_and_removes() {
    let (mut fee, p) = setup();
    assert_eq!(fee.charge_fee(&pay(esdt(b"B-1"), 10), &p, &big(4), &big(6)), Ok(()));
    assert_eq!(fee.charge_fee(&pay(EgldOrEsdtTokenIdentifier::Egld, 3), &p, &big(1), &big(2)), Ok(()));
    assert_eq!(fee.charge_fee(&pay(esdt(b"C-1"), 8), &p, &big(4), &big(4)), Ok(()));
    let tokens = vec![esdt(b"B-1"), esdt(b"B-1"), EgldOrEsdtTokenIdentifier::Egld, esdt(b"Z-9")];
    let out = fee.claim_protocol_fee_by_tokens(&p, &tokens).unwrap();
    assert_eq!(out.to, p);
    assert_eq!(out.egld_amount, big(2));
    assert_eq!(out.esdt_payments.len(), 1);
    assert_eq!(out.esdt_payments[0].token_identifier, b"B-1".to_vec());
    assert_eq!(out.esdt_payments[0].amount, big(6));
    assert_eq!(fee.get_claimable_protocol_fee(&p, 0, 100), vec![ta(esdt(b"C-1"), 4)]);
    let out = fee.claim_ashswap_fee_by_tokens(&vec![esdt(b"C-1")]);
    assert_eq!(out.to, addr(9));
    assert_eq!(out.esdt_payments[0].amount, big(4));
    assert_eq!(out.egld_amount, big(0));
    assert_eq!(
        fee.get_claimable_ashswap_fee(0, 100),
        vec![ta(esdt(b"B-1"), 4), ta(EgldOrEsdtTokenIdentifier::Egld, 1)]
    );
    assert!(fee.claim_protocol_fee_by_tokens(&addr(4), &tokens).is_err());
    assert!(fee.claim_protocol_fee(&addr(4)).is_err());
}

#[test]
fn claim_in_batches_of_fifty_one() {
    let (mut fee, p) = setup();
    for i in 0..60u32 {
        let id = format!("T{:02}-abcdef", i).into_bytes();
        assert_eq!(fee.charge_fee(&pay(esdt(&id), 2), &p, &big(1), &big(1)), Ok(()));
    }
    let first = fee.claim_protocol_fee(&p).unwrap();
    assert_eq!(first.esdt_payments.len(), 51);
    assert_eq!(first.esdt_payments[50].token_identifier, b"T50-abcdef".to_vec());
    assert_eq!(fee.get_claimable_protocol_fee(&p, 0, 100).len(), 9);
    let second = fee.claim_protocol_fee(&p).unwrap();
    assert_eq!(second.esdt_payments.len(), 9);
    assert_eq!(fee.get_claimable_protocol_fee(&p, 0, 100).len(), 0);
    let third = fee.claim_protocol_fee(&p).unwrap();
    assert_eq!(third.esdt_payments.len(), 0);
    assert_eq!(third.egld_amount, big(0));
}

#[test]
fn batch_claim_drops_egld_beyond_the_batch() {
    let (mut fee, p) = setup();
    for i in 0..52u32 {
        let id = format!("T{:02}-abcdef", i).into_bytes();
        assert_eq!(fee.charge_fee(&pay(esdt(&id), 2), &p, &big(1), &big(1)), Ok(()));
    }
    assert_eq!(fee.charge_fee(&pay(EgldOrEsdtTokenIdentifier::Egld, 10), &p, &big(5), &big(5)), Ok(()));
    let out = fee.claim_protocol_fee(&p).unwrap();
    assert_eq!(out.esdt_payments.len(), 51);
    assert_eq!(out.egld_amount, big(0));
    // the EGLD entry left the ledger with the batch
    assert_eq!(
        fee.get_claimable_protocol_fee(&p, 0, 100),
        vec![ta(esdt(b"T51-abcdef"), 1)]
    );
}

#[test]
fn claim_leaves_out_zero_payments() {
    let (mut fee, p) = setup();
    assert_eq!(fee.charge_fee(&pay(esdt(b"B-1"), 2), &p, &big(2), &big(0)), Ok(()));
    assert_eq!(fee.charge_fee(&pay(esdt(b"C-1"), 2), &p, &big(0), &big(2)), Ok(()));
    let out = fee.claim_protocol_fee(&p).unwrap();
    assert_eq!(out.esdt_payments.len(), 1);
    assert_eq!(out.esdt_payments[0].token_identifier, b"C-1".to_vec());
    assert_eq!(fee.get_claimable_protocol_fee(&p, 0, 100), vec![]);
    let out = fee.claim_ashswap_fee();
    assert_eq!(out.esdt_payments.len(), 1);
    assert_eq!(out.esdt_payments[0].amount, big(2));
    assert_eq!(fee.get_claimable_ashswap_fee(0, 100), vec![]);
}

#[test]
fn re_registering_a_registered_protocol_succeeds() {
    let (mut fee, p) = setup();
    assert_eq!(fee.charge_fee(&pay(esdt(b"B-1"), 10), &p, &big(4), &big(6)), Ok(()));
    assert_eq!(fee.register_protocol_fee(20_000, p.clone()), Ok(()));
    assert_eq!(fee.protocol_fee_percent(&p), 20_000);
    assert_eq!(fee.get_claimable_protocol_fee(&p, 0, 10), vec![ta(esdt(b"B-1"), 6)]);
    assert_eq!(fee.calculate_fee(&big(1_000), &p), Ok((big(100), big(100))));
}

#[test]
fn claim_with_repeats_equals_claim_without() {
    let (mut a, p) = setup();
    for (t, x) in [(esdt(b"B-1"), 10u128), (EgldOrEsdtTokenIdentifier::Egld, 4), (esdt(b"C-1"), 8)] {
        assert_eq!(a.charge_fee(&pay(t, x), &p, &big(x / 2), &big(x - x / 2)), Ok(()));
    }
    let mut b = a.clone();
    let with_repeats = vec![esdt(b"C-1"), EgldOrEsdtTokenIdentifier::Egld, esdt(b"C-1"), EgldOrEsdtTokenIdentifier::Egld];
    let without = vec![esdt(b"C-1"), EgldOrEsdtTokenIdentifier::Egld];
    let x = a.claim_protocol_fee_by_tokens(&p, &with_repeats).unwrap();
    let y = b.claim_protocol_fee_by_tokens(&p, &without).unwrap();
    assert_eq!(x.esdt_payments, y.esdt_payments);
    assert_eq!(x.esdt_payments, vec![aggregator::structs::EsdtTokenPayment::new(b"C-1".to_vec(), 0, big(4))]);
    assert_eq!(x.egld_amount, y.egld_amount);
    assert_eq!(x.egld_amount, big(2));
    assert_eq!(a.get_claimable_protocol_fee(&p, 0, 10), b.get_claimable_protocol_fee(&p, 0, 10));
    assert_eq!(a.get_claimable_protocol_fee(&p, 0, 10), vec![ta(esdt(b"B-1"), 5)]);
}

#[test]
fn batch_claim_equals_claim_of_all_tokens() {
    let (mut a, p) = setup();
    for (t, x) in [(esdt(b"B-1"), 10u128), (EgldOrEsdtTokenIdentifier::Egld, 4), (esdt(b"C-1"), 8)] {
        assert_eq!(a.charge_fee(&pay(t, x), &p, &big(x / 2), &big(x - x / 2)), Ok(()));
    }
    let mut b = a.clone();
    let keys = vec![esdt(b"B-1"), EgldOrEsdtTokenIdentifier::Egld, esdt(b"C-1")];
    let x = a.claim_ashswap_fee();
    let y = b.claim_ashswap_fee_by_tokens(&keys);
    assert_eq!(x.to, y.to);
    assert_eq!(x.esdt_payments, y.esdt_payments);
    assert_eq!(x.egld_amount, y.egld_amount);
    assert_eq!(x.egld_amount, big(2));
    assert_eq!(a.get_claimable_ashswap_fee(0, 10), vec![]);
    assert_eq!(b.get_claimable_ashswap_fee(0, 10), vec![]);
}

#[test]
fn charge_books_exactly_the_payment() {
    let (mut fee, p) = setup();
    let q = addr(2);
    assert_eq!(fee.register_protocol_fee(10_000, q.clone()), Ok(()));
    assert_eq!(fee.charge_fee(&pay(esdt(b"B-1"), 10), &q, &big(4), &big(6)), Ok(()));
    assert_eq!(fee.charge_fee(&pay(esdt(b"B-1"), 7), &p, &big(3), &big(4)), Ok(()));
    // booked of B-1 over all ledgers: 4 + 6 + 3 + 4 = 17, the two payments
    let total: Vec<TokenAmount> = [
        fee.get_claimable_ashswap_fee(0, 10),
        fee.get_claimable_protocol_fee(&p, 0, 10),
        fee.get_claimable_protocol_fee(&q, 0, 10),
    ]
    .concat();
    let mut sum = BigUint::zero();
    for t in total.iter() {
        sum = sum.plus(&t.amount);
    }
    assert_eq!(sum, big(17));
}
