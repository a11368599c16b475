use aggregator::aggregator::AggregateRun;
use aggregator::biguint::BigUint;
use aggregator::errors::ContractError;
use aggregator::fee::Fee;
use aggregator::structs::{AggregatorStep, EgldOrEsdtTokenIdentifier, EgldOrEsdtTokenPayment, TokenAmount};
use std::collections::HashMap;

const USDC_TOKEN_ID: &[u8] = b"USDC-abcdef";
const USDT_TOKEN_ID: &[u8] = b"USDT-abcdef";
const BUSD_TOKEN_ID: &[u8] = b"BUSD-abcdef";
const USER_TOTAL_TOKENS: u64 = 5_000_000_000;
const WRAPPED_EGLD_TOKEN_ID: &[u8] = b"WEGLD-abcdef";

#[derive(Clone, Debug)]
struct TestTokenAmount {
    pub token: Vec<u8>,
    pub amount: u128,
}

#[derive(Clone, Debug)]
struct TestAggregatorStep {
    pub token_in: Vec<u8>,
    pub token_out: Vec<u8>,
    pub amount_in: u128,
    pub pool_address: Vec<u8>,
}

fn big(x: u128) -> BigUint {
    BigUint::from_u128(x)
}

fn small(b: &BigUint) -> u128 {
    b.to_limbs().iter().rev().fold(0u128, |acc, l| (acc << 32) | *l as u128)
}

fn addr(tag: u8) -> Vec<u8> {
    let mut a = vec![0u8; 32];
    a[0] = tag;
    a[31] = tag;
    a
}

fn token(id: &[u8]) -> EgldOrEsdtTokenIdentifier {
    if id == b"EGLD" {
        EgldOrEsdtTokenIdentifier::Egld
    } else {
        EgldOrEsdtTokenIdentifier::Esdt(id.to_vec())
    }
}

fn key(t: &EgldOrEsdtTokenIdentifier) -> Option<Vec<u8>> {
    match t {
        EgldOrEsdtTokenIdentifier::Egld => None,
        EgldOrEsdtTokenIdentifier::Esdt(id) => Some(id.clone()),
    }
}

/// The accounts, the fee contract and the pool mock (which gives back 95% of
/// what it is paid, in the token named by its argument).
#[derive(Clone)]
struct World {
    balances: HashMap<(Vec<u8>, Option<Vec<u8>>), u128>,
    fee: Fee,
    user: Vec<u8>,
    mock: Vec<u8>,
    agg: Vec<u8>,
    fee_address: Vec<u8>,
}

impl World {
    fn new() -> World {
        let mut w = World {
            balances: HashMap::new(),
            fee: Fee::new(),
            user: addr(2),
            mock: addr(3),
            agg: addr(4),
            fee_address: addr(5),
        };
        let (user, mock) = (w.user.clone(), w.mock.clone());
        w.set(&user, None, 1_000_000_000_000_000_000);
        w.set(&mock, None, 1_000_000_000_000_000_000);
        for t in [USDC_TOKEN_ID, USDT_TOKEN_ID, BUSD_TOKEN_ID, WRAPPED_EGLD_TOKEN_ID] {
            w.set(&user, Some(t.to_vec()), USER_TOTAL_TOKENS as u128);
            w.set(&mock, Some(t.to_vec()), USER_TOTAL_TOKENS as u128);
        }
        w
    }

    fn set(&mut self, a: &Vec<u8>, t: Option<Vec<u8>>, v: u128) {
        self.balances.insert((a.clone(), t), v);
    }

    fn balance(&self, a: &Vec<u8>, t: &Option<Vec<u8>>) -> u128 {
        *self.balances.get(&(a.clone(), t.clone())).unwrap_or(&0)
    }

    fn transfer(&mut self, from: &Vec<u8>, to: &Vec<u8>, t: &Option<Vec<u8>>, v: u128) {
        let f = self.balance(from, t);
        assert!(f >= v, "insufficient funds");
        self.set(from, t.clone(), f - v);
        let g = self.balance(to, t);
        self.set(to, t.clone(), g + v);
    }

    fn new_account(&mut self, tag: u8, egld: u128) -> Vec<u8> {
        let a = addr(tag);
        self.set(&a, None, egld);
        a
    }

    /// One call of `aggregate` by the user; all of it is undone where it fails.
    fn aggregate(
        &mut self,
        token_in: &[u8],
        token_out: &[u8],
        test_steps: Vec<TestAggregatorStep>,
        limit: u128,
        protocol: Option<&Vec<u8>>,
        payment_token: &[u8],
        payment_value: u128,
    ) -> Result<(), ContractError> {
        let saved = self.clone();
        let r = self.aggregate_inner(token_in, token_out, test_steps, limit, protocol, payment_token, payment_value);
        if r.is_err() {
            *self = saved;
        }
        r
    }

    fn aggregate_inner(
        &mut self,
        token_in: &[u8],
        token_out: &[u8],
        test_steps: Vec<TestAggregatorStep>,
        limit: u128,
        protocol: Option<&Vec<u8>>,
        payment_token: &[u8],
        payment_value: u128,
    ) -> Result<(), ContractError> {
        let (user, agg, mock, fee_address) =
            (self.user.clone(), self.agg.clone(), self.mock.clone(), self.fee_address.clone());
        let pay_token = token(payment_token);
        self.transfer(&user, &agg, &key(&pay_token), payment_value);
        let payment = EgldOrEsdtTokenPayment::new(pay_token.clone(), 0, big(payment_value));
        let mut run = AggregateRun::begin(agg.clone(), payment, token(token_in), token(token_out), big(limit))?;
        if let Some(p) = protocol {
            let (ash, prot) = self.fee.calculate_fee(&big(payment_value), p)?;
            let fee_payment = EgldOrEsdtTokenPayment::new(pay_token.clone(), 0, ash.plus(&prot));
            self.fee.charge_fee(&fee_payment, p, &ash, &prot)?;
            self.transfer(&agg, &fee_address, &key(&pay_token), small(&ash) + small(&prot));
            run.deduct_fee(&ash, &prot);
        }
        for s in test_steps {
            let step = AggregatorStep {
                token_in: token(&s.token_in),
                token_out: token(&s.token_out),
                amount_in: big(s.amount_in),
                pool_address: s.pool_address.clone(),
                function_name: b"exchange".to_vec(),
                arguments: vec![s.token_out.clone()],
            };
            let call = run.plan_step(&step)?;
            let out_key = key(&call.token_out);
            let before = self.balance(&agg, &out_key);
            // the pool mock
            assert_eq!(call.pool_address, mock);
            self.transfer(&agg, &mock, &key(&call.payment.token_identifier), small(&call.payment.amount));
            let amount_out = small(&call.payment.amount) * 95 / 100;
            let out_token = key(&token(&call.arguments[0]));
            self.transfer(&mock, &agg, &out_token, amount_out);
            let after = self.balance(&agg, &out_key);
            run.record_swap(&big(before), &big(after))?;
        }
        let out = run.finish()?;
        if small(&out.amount) > 0 {
            self.transfer(&agg, &user, &key(&out.token_identifier), small(&out.amount));
        }
        let event = run.event(&out);
        assert_eq!(event.payment_out, out);
        Ok(())
    }

    fn claim_protocol_fee(&mut self, protocol: &Vec<u8>) {
        let payout = self.fee.claim_protocol_fee(protocol).unwrap();
        self.pay_out(payout);
    }

    fn claim_ashswap_fee(&mut self) {
        let payout = self.fee.claim_ashswap_fee();
        self.pay_out(payout);
    }

    fn pay_out(&mut self, payout: aggregator::fee::FeePayout) {
        let fee_address = self.fee_address.clone();
        for p in payout.esdt_payments.iter() {
            self.transfer(&fee_address, &payout.to, &Some(p.token_identifier.clone()), small(&p.amount));
        }
        if small(&payout.egld_amount) > 0 {
            self.transfer(&fee_address, &payout.to, &None, small(&payout.egld_amount));
        }
    }

    fn check_result(&self, expected: Vec<TestTokenAmount>) {
        for e in expected {
            assert_eq!(self.balance(&self.user, &Some(e.token.clone())), e.amount);
        }
    }

    fn check_result_egld(&self, expected: u128) {
        assert_eq!(self.balance(&self.user, &None), expected);
    }
}

fn step(token_in: &[u8], token_out: &[u8], amount_in: u128, pool: &Vec<u8>) -> TestAggregatorStep {
    TestAggregatorStep {
        token_in: token_in.to_vec(),
        token_out: token_out.to_vec(),
        amount_in,
        pool_address: pool.clone(),
    }
}

fn tta(token: &[u8], amount: u128) -> TestTokenAmount {
    TestTokenAmount { token: token.to_vec(), amount }
}

const TOTAL: u128 = USER_TOTAL_TOKENS as u128;

#[test]
fn test_aggregate_simple() {
    let mut w = World::new();
    let mock = w.mock.clone();
    let amount: u128 = 1_000_000;
    let steps = vec![step(USDC_TOKEN_ID, BUSD_TOKEN_ID, amount, &mock)];
    let r = w.aggregate(USDC_TOKEN_ID, BUSD_TOKEN_ID, steps, 0, None, USDC_TOKEN_ID, amount);
    assert_eq!(r, Ok(()));
    w.check_result(vec![
        tta(USDC_TOKEN_ID, TOTAL - amount),
        tta(USDT_TOKEN_ID, TOTAL),
        tta(BUSD_TOKEN_ID, TOTAL + amount * 95 / 100),
    ]);
}

#[test]
fn test_aggregate_simple_egld() {
    let mut w = World::new();
    let mock = w.mock.clone();
    let amount: u128 = 1_000_000;
    let steps = vec![step(b"EGLD", BUSD_TOKEN_ID, amount, &mock)];
    let r = w.aggregate(b"EGLD", BUSD_TOKEN_ID, steps, 0, None, b"EGLD", amount);
    assert_eq!(r, Ok(()));
    w.check_result(vec![tta(BUSD_TOKEN_ID, TOTAL + amount * 95 / 100)]);
    w.check_result_egld(1_000_000_000_000_000_000 - amount);
}

#[test]
fn test_aggregate_simple_return_egld() {
    let mut w = World::new();
    let mock = w.mock.clone();
    let amount: u128 = 1_000_000;
    let steps = vec![step(BUSD_TOKEN_ID, b"EGLD", amount, &mock)];
    let r = w.aggregate(BUSD_TOKEN_ID, b"EGLD", steps, 0, None, BUSD_TOKEN_ID, amount);
    assert_eq!(r, Ok(()));
    w.check_result(vec![tta(BUSD_TOKEN_ID, TOTAL - amount)]);
    w.check_result_egld(1_000_000_000_000_000_000 + amount * 95 / 100);
}

#[test]
fn test_aggregate_simple_egld_in_step() {
    let mut w = World::new();
    let mock = w.mock.clone();
    let amount: u128 = 1_000_000;
    let steps = vec![
        step(BUSD_TOKEN_ID, b"EGLD", amount, &mock),
        step(b"EGLD", USDC_TOKEN_ID, 0, &mock),
    ];
    let r = w.aggregate(BUSD_TOKEN_ID, USDC_TOKEN_ID, steps, 0, None, BUSD_TOKEN_ID, amount);
    assert_eq!(r, Ok(()));
    w.check_result(vec![
        tta(BUSD_TOKEN_ID, TOTAL - amount),
        tta(USDC_TOKEN_ID, TOTAL + amount * 95 / 100 * 95 / 100),
    ]);
    w.check_result_egld(1_000_000_000_000_000_000);
}

#[test]
fn test_aggregate_two_routes() {
    let mut w = World::new();
    let mock = w.mock.clone();
    let amount: u128 = 1_000_000;
    let steps = vec![
        step(USDC_TOKEN_ID, BUSD_TOKEN_ID, amount, &mock),
        step(USDC_TOKEN_ID, USDT_TOKEN_ID, amount, &mock),
        step(USDT_TOKEN_ID, BUSD_TOKEN_ID, 0, &mock),
    ];
    let r = w.aggregate(USDC_TOKEN_ID, BUSD_TOKEN_ID, steps, 0, None, USDC_TOKEN_ID, 2 * amount);
    assert_eq!(r, Ok(()));
    w.check_result(vec![
        tta(USDC_TOKEN_ID, TOTAL - 2 * amount),
        tta(USDT_TOKEN_ID, TOTAL),
        tta(BUSD_TOKEN_ID, TOTAL + amount * 95 / 100 + amount * 95 / 100 * 95 / 100),
    ]);
}

#[test]
fn test_aggregate_error_invalid_token_in() {
    let mut w = World::new();
    let mock = w.mock.clone();
    let amount: u128 = 1_000_000;
    let steps = vec![step(USDC_TOKEN_ID, BUSD_TOKEN_ID, amount, &mock)];
    let r = w.aggregate(USDC_TOKEN_ID, BUSD_TOKEN_ID, steps, 0, None, USDT_TOKEN_ID, amount);
    assert_eq!(r, Err(ContractError::InvalidTokenIn));
    assert_eq!(r.unwrap_err().message(), "Invalid token in");
}

#[test]
fn test_aggregate_error_same_token() {
    let mut w = World::new();
    let mock = w.mock.clone();
    let amount: u128 = 1_000_000;
    let steps = vec![step(USDC_TOKEN_ID, BUSD_TOKEN_ID, amount, &mock)];
    let r = w.aggregate(USDC_TOKEN_ID, USDC_TOKEN_ID, steps, 0, None, USDC_TOKEN_ID, amount);
    assert_eq!(r, Err(ContractError::SameToken));
    assert_eq!(r.unwrap_err().message(), "Same token");
}

#[test]
fn test_aggregate_error_same_token_in_step() {
    let mut w = World::new();
    let mock = w.mock.clone();
    let amount: u128 = 1_000_000;
    let steps = vec![step(USDC_TOKEN_ID, USDC_TOKEN_ID, amount, &mock)];
    let r = w.aggregate(USDC_TOKEN_ID, BUSD_TOKEN_ID, steps, 0, None, USDC_TOKEN_ID, amount);
    assert_eq!(r, Err(ContractError::SameToken));
}

#[test]
fn test_aggregate_error_invalid_address() {
    let mut w = World::new();
    let agg = w.agg.clone();
    let amount: u128 = 1_000_000;
    let steps = vec![step(USDC_TOKEN_ID, BUSD_TOKEN_ID, amount, &agg)];
    let r = w.aggregate(USDC_TOKEN_ID, BUSD_TOKEN_ID, steps, 0, None, USDC_TOKEN_ID, amount);
    assert_eq!(r, Err(ContractError::InvalidPoolAddr));
    assert_eq!(r.unwrap_err().message(), "Invalid pool address");
}

#[test]
fn test_aggregate_error_two_routes_invalid_token_out() {
    let mut w = World::new();
    let mock = w.mock.clone();
    let amount: u128 = 1_000_000;
    let steps = vec![
        step(USDC_TOKEN_ID, USDT_TOKEN_ID, amount, &mock),
        step(USDC_TOKEN_ID, USDT_TOKEN_ID, amount, &mock),
        step(USDT_TOKEN_ID, BUSD_TOKEN_ID, 0, &mock),
    ];
    let r = w.aggregate(USDC_TOKEN_ID, BUSD_TOKEN_ID, steps, 0, None, USDC_TOKEN_ID, 2 * amount);
    assert_eq!(r, Err(ContractError::InvalidTokenOut));
    assert_eq!(r.unwrap_err().message(), "Invalid token out");
}

#[test]
fn test_aggregate_error_two_routes_invalid_token_out_2() {
    let mut w = World::new();
    let mock = w.mock.clone();
    let amount: u128 = 1_000_000;
    let steps = vec![
        step(USDC_TOKEN_ID, BUSD_TOKEN_ID, amount, &mock),
        step(USDC_TOKEN_ID, BUSD_TOKEN_ID, amount, &mock),
        step(BUSD_TOKEN_ID, USDT_TOKEN_ID, 0, &mock),
    ];
    let r = w.aggregate(USDC_TOKEN_ID, BUSD_TOKEN_ID, steps, 0, None, USDC_TOKEN_ID, 2 * amount);
    assert_eq!(r, Err(ContractError::InvalidTokenOut));
}

#[test]
fn test_aggregate_error_two_routes_invalid_token_in_step() {
    let mut w = World::new();
    let mock = w.mock.clone();
    let amount: u128 = 1_000_000;
    let steps = vec![
        step(USDC_TOKEN_ID, BUSD_TOKEN_ID, amount, &mock),
        step(USDC_TOKEN_ID, USDT_TOKEN_ID, amount, &mock),
        step(USDC_TOKEN_ID, BUSD_TOKEN_ID, 0, &mock),
    ];
    let r = w.aggregate(USDC_TOKEN_ID, BUSD_TOKEN_ID, steps, 0, None, USDC_TOKEN_ID, 2 * amount);
    assert_eq!(r, Err(ContractError::InvalidTokenIn));
}

#[test]
fn test_aggregate_error_two_routes_invalid_amount_in_step() {
    let mut w = World::new();
    let mock = w.mock.clone();
    let amount: u128 = 1_000_000;
    let steps = vec![
        step(USDC_TOKEN_ID, BUSD_TOKEN_ID, amount - 1, &mock),
        step(USDC_TOKEN_ID, USDT_TOKEN_ID, amount, &mock),
        step(USDT_TOKEN_ID, BUSD_TOKEN_ID, 0, &mock),
    ];
    let r = w.aggregate(USDC_TOKEN_ID, BUSD_TOKEN_ID, steps, 0, None, USDC_TOKEN_ID, 2 * amount);
    assert_eq!(r, Err(ContractError::InvalidSteps));
    assert_eq!(r.unwrap_err().message(), "Invalid step");
}

#[test]
fn test_aggregate_error_invalid_amount_in() {
    let mut w = World::new();
    let mock = w.mock.clone();
    let amount: u128 = 1_000_000;
    let steps = vec![step(USDC_TOKEN_ID, BUSD_TOKEN_ID, amount + 1, &mock)];
    let r = w.aggregate(USDC_TOKEN_ID, BUSD_TOKEN_ID, steps, 0, None, USDC_TOKEN_ID, amount);
    assert_eq!(r, Err(ContractError::InvalidAmountIn));
    assert_eq!(r.unwrap_err().message(), "Invalid amount in");
}

#[test]
fn test_aggregate_error_slippage_screw_you() {
    let mut w = World::new();
    let mock = w.mock.clone();
    let amount: u128 = 1_000_000;
    let steps = vec![step(USDC_TOKEN_ID, BUSD_TOKEN_ID, amount, &mock)];
    let r = w.aggregate(USDC_TOKEN_ID, BUSD_TOKEN_ID, steps, amount, None, USDC_TOKEN_ID, amount);
    assert_eq!(r, Err(ContractError::SlippageScrewYou));
    assert_eq!(r.unwrap_err().message(), "Slippage too high");
}

#[test]
fn test_aggregate_error_invalid_amount_in_step() {
    let mut w = World::new();
    let mock = w.mock.clone();
    let amount: u128 = 1_000_000;
    let steps = vec![
        step(USDC_TOKEN_ID, BUSD_TOKEN_ID, amount, &mock),
        step(BUSD_TOKEN_ID, USDT_TOKEN_ID, amount * 95 / 100, &mock),
        step(USDT_TOKEN_ID, WRAPPED_EGLD_TOKEN_ID, amount, &mock),
    ];
    let r = w.aggregate(USDC_TOKEN_ID, WRAPPED_EGLD_TOKEN_ID, steps, 0, None, USDC_TOKEN_ID, amount);
    assert_eq!(r, Err(ContractError::InvalidTokenIn));
}

fn register(w: &mut World, ashswap: &Vec<u8>, protocols: &[&Vec<u8>]) {
    assert_eq!(w.fee.register_ashswap_fee(50_000u64, ashswap.clone()), Ok(())); // 50%
    for p in protocols {
        assert_eq!(w.fee.register_protocol_fee(10_000u64, (*p).clone()), Ok(())); // 10%
    }
    assert_eq!(w.fee.ashswap_fee_percent(), 50_000u64);
    for p in protocols {
        assert_eq!(w.fee.protocol_fee_percent(p), 10_000u64);
    }
}

fn amounts(v: &Vec<TokenAmount>) -> Vec<u128> {
    v.iter().map(|t| small(&t.amount)).collect()
}

#[test]
fn test_fee_simple() {
    let mut w = World::new();
    let protocol_address = w.new_account(10, 1_000_000_000_000_000_000);
    let ashswap_address = w.new_account(11, 1_000_000_000_000_000_000);
    register(&mut w, &ashswap_address, &[&protocol_address]);
    let mock = w.mock.clone();
    let amount: u128 = 1_000_000;
    let steps = vec![step(USDC_TOKEN_ID, BUSD_TOKEN_ID, amount * 9 / 10, &mock)];
    let r = w.aggregate(USDC_TOKEN_ID, BUSD_TOKEN_ID, steps, 0, Some(&protocol_address), USDC_TOKEN_ID, amount);
    assert_eq!(r, Ok(()));
    w.check_result(vec![
        tta(USDC_TOKEN_ID, TOTAL - amount),
        tta(BUSD_TOKEN_ID, TOTAL + amount * 9 / 10 * 95 / 100),
    ]);
    let fee_address = w.fee_address.clone();
    assert_eq!(w.balance(&fee_address, &Some(USDC_TOKEN_ID.to_vec())), amount / 10);
    let protocol_fee = w.fee.get_claimable_protocol_fee(&protocol_address, 0u64, 100u64);
    assert_eq!(amounts(&protocol_fee), vec![amount / 10 / 2]);
    let ashswap_fee = w.fee.get_claimable_ashswap_fee(0u64, 100u64);
    assert_eq!(amounts(&ashswap_fee), vec![amount / 10 / 2]);
    w.claim_protocol_fee(&protocol_address);
    w.claim_ashswap_fee();
    assert_eq!(w.balance(&fee_address, &Some(USDC_TOKEN_ID.to_vec())), 0);
    assert_eq!(w.balance(&protocol_address, &Some(USDC_TOKEN_ID.to_vec())), amount / 10 / 2);
    assert_eq!(w.balance(&ashswap_address, &Some(USDC_TOKEN_ID.to_vec())), amount / 10 / 2);
}

#[test]
fn test_fee_accummulated() {
    let mut w = World::new();
    let protocol_address = w.new_account(10, 1_000_000_000_000_000_000);
    let ashswap_address = w.new_account(11, 1_000_000_000_000_000_000);
    register(&mut w, &ashswap_address, &[&protocol_address]);
    let mock = w.mock.clone();
    let amount: u128 = 1_000_000;
    let steps = vec![step(USDC_TOKEN_ID, BUSD_TOKEN_ID, amount * 9 / 10, &mock)];
    for _ in 0..2 {
        let r = w.aggregate(
            USDC_TOKEN_ID,
            BUSD_TOKEN_ID,
            steps.clone(),
            0,
            Some(&protocol_address),
            USDC_TOKEN_ID,
            amount,
        );
        assert_eq!(r, Ok(()));
    }
    w.claim_protocol_fee(&protocol_address);
    w.claim_ashswap_fee();
    let fee_address = w.fee_address.clone();
    assert_eq!(w.balance(&fee_address, &Some(USDC_TOKEN_ID.to_vec())), 0);
    assert_eq!(w.balance(&protocol_address, &Some(USDC_TOKEN_ID.to_vec())), amount / 10);
    assert_eq!(w.balance(&ashswap_address, &Some(USDC_TOKEN_ID.to_vec())), amount / 10);
}

#[test]
fn test_fee_accummulated_2_tokens() {
    let mut w = World::new();
    let protocol_address = w.new_account(10, 1_000_000_000_000_000_000);
    let ashswap_address = w.new_account(11, 1_000_000_000_000_000_000);
    register(&mut w, &ashswap_address, &[&protocol_address]);
    let mock = w.mock.clone();
    let amount: u128 = 1_000_000;
    let steps = vec![step(USDC_TOKEN_ID, BUSD_TOKEN_ID, amount * 9 / 10, &mock)];
    for _ in 0..2 {
        let r = w.aggregate(
            USDC_TOKEN_ID,
            BUSD_TOKEN_ID,
            steps.clone(),
            0,
            Some(&protocol_address),
            USDC_TOKEN_ID,
            amount,
        );
        assert_eq!(r, Ok(()));
    }
    let steps = vec![step(USDT_TOKEN_ID, BUSD_TOKEN_ID, amount * 9 / 10, &mock)];
    let r = w.aggregate(USDT_TOKEN_ID, BUSD_TOKEN_ID, steps, 0, Some(&protocol_address), USDT_TOKEN_ID, amount);
    assert_eq!(r, Ok(()));
    let expected_protocol_fee = vec![tta(USDC_TOKEN_ID, amount / 10), tta(USDT_TOKEN_ID, amount / 10 / 2)];
    let expected_ashswap_fee = vec![tta(USDC_TOKEN_ID, amount / 10), tta(USDT_TOKEN_ID, amount / 10 / 2)];
    let protocol_fee = w.fee.get_claimable_protocol_fee(&protocol_address, 0u64, 100u64);
    for (i, fee) in protocol_fee.iter().enumerate() {
        assert_eq!(small(&fee.amount), expected_protocol_fee[i].amount);
    }
    let ashswap_fee = w.fee.get_claimable_ashswap_fee(0u64, 100u64);
    for (i, fee) in ashswap_fee.iter().enumerate() {
        assert_eq!(small(&fee.amount), expected_ashswap_fee[i].amount);
    }
    w.claim_protocol_fee(&protocol_address);
    w.claim_ashswap_fee();
    // claimable amount must = 0
    for fee in w.fee.get_claimable_protocol_fee(&protocol_address, 0u64, 100u64).iter() {
        assert_eq!(small(&fee.amount), 0);
    }
    for fee in w.fee.get_claimable_ashswap_fee(0u64, 100u64).iter() {
        assert_eq!(small(&fee.amount), 0);
    }
    let fee_address = w.fee_address.clone();
    assert_eq!(w.balance(&fee_address, &Some(USDC_TOKEN_ID.to_vec())), 0);
    assert_eq!(w.balance(&fee_address, &Some(USDT_TOKEN_ID.to_vec())), 0);
    assert_eq!(w.balance(&protocol_address, &Some(USDC_TOKEN_ID.to_vec())), amount / 10);
    assert_eq!(w.balance(&ashswap_address, &Some(USDT_TOKEN_ID.to_vec())), amount / 10 / 2);
    assert_eq!(w.balance(&ashswap_address, &Some(USDT_TOKEN_ID.to_vec())), amount / 10 / 2);
}

#[test]
fn test_fee_1_esdt_1_egld() {
    let mut w = World::new();
    let protocol_address = w.new_account(10, 0);
    let ashswap_address = w.new_account(11, 0);
    register(&mut w, &ashswap_address, &[&protocol_address]);
    let mock = w.mock.clone();
    let amount: u128 = 1_000_000;
    let steps = vec![step(USDC_TOKEN_ID, BUSD_TOKEN_ID, amount * 9 / 10, &mock)];
    let r = w.aggregate(USDC_TOKEN_ID, BUSD_TOKEN_ID, steps, 0, Some(&protocol_address), USDC_TOKEN_ID, amount);
    assert_eq!(r, Ok(()));
    let steps = vec![step(b"EGLD", BUSD_TOKEN_ID, amount * 9 / 10, &mock)];
    let r = w.aggregate(b"EGLD", BUSD_TOKEN_ID, steps, 0, Some(&protocol_address), b"EGLD", amount);
    assert_eq!(r, Ok(()));
    w.claim_protocol_fee(&protocol_address);
    w.claim_ashswap_fee();
    let fee_address = w.fee_address.clone();
    assert_eq!(w.balance(&fee_address, &Some(USDC_TOKEN_ID.to_vec())), 0);
    assert_eq!(w.balance(&protocol_address, &Some(USDC_TOKEN_ID.to_vec())), amount / 10 / 2);
    assert_eq!(w.balance(&ashswap_address, &Some(USDC_TOKEN_ID.to_vec())), amount / 10 / 2);
    assert_eq!(w.balance(&protocol_address, &None), amount / 10 / 2);
    assert_eq!(w.balance(&protocol_address, &None), amount / 10 / 2);
}

#[test]
fn test_fee_2_procotols() {
    let mut w = World::new();
    let protocol_address = w.new_account(10, 1_000_000_000_000_000_000);
    let protocol_2_address = w.new_account(12, 1_000_000_000_000_000_000);
    let ashswap_address = w.new_account(11, 1_000_000_000_000_000_000);
    register(&mut w, &ashswap_address, &[&protocol_address, &protocol_2_address]);
    let mock = w.mock.clone();
    let amount: u128 = 1_000_000;
    let steps = vec![step(USDC_TOKEN_ID, BUSD_TOKEN_ID, amount * 9 / 10, &mock)];
    let r = w.aggregate(USDC_TOKEN_ID, BUSD_TOKEN_ID, steps.clone(), 0, Some(&protocol_address), USDC_TOKEN_ID, amount);
    assert_eq!(r, Ok(()));
    let r = w.aggregate(USDC_TOKEN_ID, BUSD_TOKEN_ID, steps, 0, Some(&protocol_2_address), USDC_TOKEN_ID, amount);
    assert_eq!(r, Ok(()));
    w.claim_protocol_fee(&protocol_address);
    w.claim_protocol_fee(&protocol_2_address);
    w.claim_ashswap_fee();
    assert_eq!(w.balance(&ashswap_address, &Some(USDC_TOKEN_ID.to_vec())), amount / 10);
    assert_eq!(w.balance(&protocol_address, &Some(USDC_TOKEN_ID.to_vec())), amount / 10 / 2);
    assert_eq!(w.balance(&protocol_2_address, &Some(USDC_TOKEN_ID.to_vec())), amount / 10 / 2);
}
