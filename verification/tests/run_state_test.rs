use aggregator::aggregator::{AggregateRun, AggregatorContract};
use aggregator::biguint::BigUint;
use aggregator::errors::ContractError;
use aggregator::structs::{AggregatorStep, EgldOrEsdtTokenIdentifier, EgldOrEsdtTokenPayment};

fn b(x: u128) -> BigUint {
    BigUint::from_u128(x)
}

fn esdt(id: &[u8]) -> EgldOrEsdtTokenIdentifier {
    EgldOrEsdtTokenIdentifier::Esdt(id.to_vec())
}

fn step(token_in: EgldOrEsdtTokenIdentifier, token_out: EgldOrEsdtTokenIdentifier, amount_in: u128) -> AggregatorStep {
    AggregatorStep {
        token_in,
        token_out,
        amount_in: b(amount_in),
        pool_address: vec![7u8; 32],
        function_name: b"swap".to_vec(),
        arguments: vec![b"a".to_vec(), b"bc".to_vec()],
    }
}

fn start(amount: u128, min_out: u128) -> AggregateRun {
    AggregateRun::begin(vec![1u8; 32], EgldOrEsdtTokenPayment::new(esdt(b"IN-1"), 0, b(amount)), esdt(b"IN-1"), esdt(b"OUT-1"), b(min_out))
        .unwrap()
}

#[test]
fn begin_refuses_an_empty_payment() {
    let r = AggregateRun::begin(vec![1u8; 32], EgldOrEsdtTokenPayment::new(esdt(b"IN-1"), 0, b(0)), esdt(b"IN-1"), esdt(b"OUT-1"), b(0));
    assert_eq!(r.unwrap_err(), ContractError::ZeroAmount);
    assert_eq!(ContractError::ZeroAmount.message(), "Invalid amount zero");
}

#[test]
fn plan_step_hands_out_the_swap() {
    let mut run = start(100, 0);
    let call = run.plan_step(&step(esdt(b"IN-1"), esdt(b"MID-1"), 60)).unwrap();
    assert_eq!(call.pool_address, vec![7u8; 32]);
    assert_eq!(call.function_name, b"swap".to_vec());
    assert_eq!(call.arguments, vec![b"a".to_vec(), b"bc".to_vec()]);
    assert_eq!(call.payment, EgldOrEsdtTokenPayment::new(esdt(b"IN-1"), 0, b(60)));
    assert_eq!(call.token_out, esdt(b"MID-1"));
    assert_eq!(run.record_swap(&b(5), &b(35)), Ok(()));
    // a continuation step takes all that the last swap gave
    let call = run.plan_step(&step(esdt(b"MID-1"), esdt(b"OUT-1"), 0)).unwrap();
    assert_eq!(call.payment, EgldOrEsdtTokenPayment::new(esdt(b"MID-1"), 0, b(30)));
    assert_eq!(run.record_swap(&b(0), &b(12)), Ok(()));
    // the rest of the payment in a second route
    let call = run.plan_step(&step(esdt(b"IN-1"), esdt(b"OUT-1"), 40)).unwrap();
    assert_eq!(call.payment.amount, b(40));
    assert_eq!(run.record_swap(&b(100), &b(108)), Ok(()));
    let out = run.finish().unwrap();
    assert_eq!(out, EgldOrEsdtTokenPayment::new(esdt(b"OUT-1"), 0, b(20)));
    let ev = run.event(&out);
    assert_eq!(ev.payment_in, EgldOrEsdtTokenPayment::new(esdt(b"IN-1"), 0, b(100)));
    assert_eq!(ev.payment_out, out);
}

#[test]
fn record_swap_refuses_nothing_back() {
    let mut run = start(100, 0);
    run.plan_step(&step(esdt(b"IN-1"), esdt(b"OUT-1"), 100)).unwrap();
    assert_eq!(run.record_swap(&b(50), &b(50)), Err(ContractError::ZeroAmount));
}

#[test]
fn finish_checks_slippage_at_the_boundary() {
    let mut run = start(100, 90);
    run.plan_step(&step(esdt(b"IN-1"), esdt(b"OUT-1"), 100)).unwrap();
    assert_eq!(run.record_swap(&b(0), &b(90)), Ok(()));
    assert_eq!(run.finish().unwrap().amount, b(90));
    let mut run = start(100, 91);
    run.plan_step(&step(esdt(b"IN-1"), esdt(b"OUT-1"), 100)).unwrap();
    assert_eq!(run.record_swap(&b(0), &b(90)), Ok(()));
    assert_eq!(run.finish().unwrap_err(), ContractError::SlippageScrewYou);
}

#[test]
fn deduct_fee_leaves_the_rest_for_routes() {
    let mut run = start(100, 0);
    run.deduct_fee(&b(5), &b(5));
    assert_eq!(run.plan_step(&step(esdt(b"IN-1"), esdt(b"OUT-1"), 91)).unwrap_err(), ContractError::InvalidAmountIn);
    run.plan_step(&step(esdt(b"IN-1"), esdt(b"OUT-1"), 90)).unwrap();
    assert_eq!(run.record_swap(&b(0), &b(1)), Ok(()));
    assert_eq!(run.finish().unwrap().amount, b(1));
}

#[test]
fn finish_without_steps_is_refused() {
    let run = start(100, 0);
    assert_eq!(run.finish().unwrap_err(), ContractError::InvalidSteps);
}

#[test]
fn routes_add_up_beyond_u128() {
    let mut run = start(100, 0);
    run.plan_step(&step(esdt(b"IN-1"), esdt(b"OUT-1"), 50)).unwrap();
    assert_eq!(run.record_swap(&b(0), &b(u128::MAX)), Ok(()));
    run.plan_step(&step(esdt(b"IN-1"), esdt(b"OUT-1"), 50)).unwrap();
    assert_eq!(run.record_swap(&b(0), &b(1)), Ok(()));
    let out = run.finish().unwrap();
    assert_eq!(out.amount, b(u128::MAX).plus(&b(1)));
    assert_eq!(out.amount.to_limbs(), vec![0u32, 0, 0, 0, 1]);
}

#[test]
fn aggregator_keeps_fee_address() {
    let c = AggregatorContract::init(vec![3u8; 32]);
    assert_eq!(c.fee_address(), vec![3u8; 32]);
}
