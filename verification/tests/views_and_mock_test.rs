use aggregator::biguint::BigUint;
use aggregator::errors::ContractError;
use aggregator::structs::{is_zero_address, EsdtTokenPayment, EgldOrEsdtTokenIdentifier, TokenAmount};
use aggregator::token_send::{EgldWrapperOption, TokenSendModule};
use aggregator::fee::Fee;
use aggregator::wrapper_mock::{EgldWrapper, EgldWrapperMock};
use aggregator::wrapper_view::ashswapv1::WrapperModule as AshswapV1Module;
use aggregator::wrapper_view::ashswapv2::{AshswapV2View, WrapperModule as AshswapV2Module};
use aggregator::wrapper_view::hatomliquidstaking::WrapperModule as HatomModule;
use aggregator::wrapper_view::jexexchange::{JexExchangePool, JexExchangeViewRequest, WrapperModule as JexModule};
use aggregator::wrapper_view::onedex::{OnedexPool, WrapperModule as OnedexModule};
use aggregator::wrapper_view::tinder::{TinderViewRequest, WrapperModule as TinderModule};
use aggregator::wrapper_view::xexchange::tinder::WrapperModule as XTinderModule;
use aggregator::wrapper_view::xexchange::{XExchangePairState, XExchangeViewRequest, WrapperModule as XExchangeModule};
use aggregator::wrapper_view::WrapperView;

fn b(x: u128) -> BigUint {
    BigUint::from_u128(x)
}

#[test]
fn wrapper_mock_wraps_and_unwraps() {
    let m = EgldWrapperMock::init(b"WEGLD-abcdef".to_vec());
    assert_eq!(m.get_wrapped_egld_token_id(), b"WEGLD-abcdef".to_vec());
    assert_eq!(m.wrap_egld(b(42)), EsdtTokenPayment::new(b"WEGLD-abcdef".to_vec(), 0, b(42)));
    assert_eq!(m.unwrap_egld(&EsdtTokenPayment::new(b"WEGLD-abcdef".to_vec(), 0, b(7))), Ok(b(7)));
    assert_eq!(m.unwrap_egld(&EsdtTokenPayment::new(b"USDC-abcdef".to_vec(), 0, b(7))), Err(ContractError::WrongTokenId));
    assert_eq!(ContractError::WrongTokenId.message(), "Wrong token id");
    let wrapped = m.wrap_egld(b(1_000));
    assert_eq!(m.unwrap_egld(&wrapped), Ok(b(1_000)));
    let opt = EgldWrapperOption { wrapped_egld_token_id: b"WEGLD-abcdef".to_vec(), egld_return: true };
    assert!(opt.egld_return);
}

#[test]
fn token_send_filters_zero_amounts() {
    let f = Fee::new();
    let ps = vec![
        EsdtTokenPayment::new(b"A-1".to_vec(), 0, b(0)),
        EsdtTokenPayment::new(b"B-1".to_vec(), 3, b(5)),
        EsdtTokenPayment::new(b"C-1".to_vec(), 0, b(0)),
        EsdtTokenPayment::new(b"D-1".to_vec(), 1, b(1)),
    ];
    let sent = f.send_multiple_tokens_if_not_zero(&ps);
    assert_eq!(sent, vec![ps[1].clone(), ps[3].clone()]);
    assert_eq!(f.send_tokens_non_zero(&b"A-1".to_vec(), 2, b(0)), None);
    assert_eq!(f.send_tokens_non_zero(&b"A-1".to_vec(), 2, b(9)), Some(EsdtTokenPayment::new(b"A-1".to_vec(), 2, b(9))));
}

#[test]
fn token_amount_new_and_zero_address() {
    let t = TokenAmount::new(EgldOrEsdtTokenIdentifier::Egld, b(12));
    assert_eq!(t.amount, b(12));
    assert!(t.token.is_egld());
    assert!(is_zero_address(&vec![0u8; 32]));
    assert!(!is_zero_address(&vec![0u8, 1u8]));
}

#[test]
fn views_copy_what_the_pools_answer() {
    let v = WrapperView::init();
    let a = AshswapV1Module::get_xexchange(&v, 1, 300, b(10), b(20));
    assert_eq!((a.state, a.total_fee, a.reserve_0, a.reserve_1), (1, 300, b(10), b(20)));
    let h = v.get_hatom_liquid_staking(2, b(1_050_000_000_000_000_000));
    assert_eq!((h.state, h.underlying_price_0, h.underlying_price_1), (2, b(1_000_000_000_000_000_000), b(1_050_000_000_000_000_000)));
    let t = XTinderModule::get_tinder(&v, b(5));
    assert_eq!((t.state, t.underlying_price_0, t.underlying_price_1), (1, b(1_000_000_000_000_000_000), b(5)));
    let reqs = vec![TinderViewRequest { pool_address: vec![1], token_id_0: b"X".to_vec(), token_id_1: b"Y".to_vec() }];
    let ts = TinderModule::get_tinder(&v, &reqs, &vec![b(77)]);
    assert_eq!(ts.len(), 1);
    assert_eq!((ts[0].state, ts[0].underlying_price_1.clone(), ts[0].address.clone(), ts[0].token_id_1.clone()), (1, b(77), vec![1], b"Y".to_vec()));
    let xreq = vec![
        XExchangeViewRequest { pool_address: vec![2], token_id_0: b"A".to_vec(), token_id_1: b"B".to_vec() },
        XExchangeViewRequest { pool_address: vec![3], token_id_0: b"C".to_vec(), token_id_1: b"D".to_vec() },
    ];
    let xs = XExchangeModule::get_xexchange(
        &v,
        &xreq,
        &vec![
            XExchangePairState { state: 1, total_fee: 300, reserve_0: b(5), reserve_1: b(6) },
            XExchangePairState { state: 0, total_fee: 100, reserve_0: b(7), reserve_1: b(8) },
        ],
    );
    assert_eq!(xs.len(), 2);
    assert_eq!((xs[1].address.clone(), xs[1].state, xs[1].total_fee, xs[1].token_0_id.clone(), xs[1].reserve_1.clone()), (vec![3], 0, 100, b"C".to_vec(), b(8)));
    let pool = OnedexPool {
        pair_id: 4,
        state: 1,
        enabled: true,
        owner: vec![9],
        first_token_id: b"F".to_vec(),
        second_token_id: b"S".to_vec(),
        lp_token_id: b"L".to_vec(),
        lp_token_decimal: 18,
        first_token_reserve: b(11),
        second_token_reserve: b(12),
        lp_token_supply: b(13),
        lp_token_roles_are_set: true,
        total_fee_percentage: 30,
    };
    let os = v.get_onedex(&vec![8], &vec![pool]);
    assert_eq!((os[0].status, os[0].total_fee.clone(), os[0].reserve_0.clone(), os[0].reserve_1.clone(), os[0].address.clone(), os[0].token_0_id.clone(), os[0].token_1_id.clone()), (1, b(30), b(11), b(12), vec![8], b"F".to_vec(), b"S".to_vec()));
    let jreq = vec![JexExchangeViewRequest { pool_address: vec![4], token_id_0: b"J0".to_vec(), token_id_1: b"J1".to_vec() }];
    let jpool = JexExchangePool {
        paused: 1,
        first_token_identifier: b"J0".to_vec(),
        first_token_reserve: b(21),
        second_token_identifier: b"J1".to_vec(),
        second_token_reserve: b(22),
        lp_token_identifier: b"JL".to_vec(),
        lp_token_supply: b(23),
        owner: vec![5],
        lp_fees: 24,
        platform_fees: 25,
    };
    let js = v.get_jexexchange(&jreq, &vec![jpool]);
    assert_eq!((js[0].paused, js[0].reserve_0.clone(), js[0].reserve_1.clone(), js[0].lp_fees, js[0].platform_fees, js[0].address.clone()), (true, b(21), b(22), 24, 25, vec![4]));
    let answers = AshswapV2View {
        total_supply: b(1),
        reserves: vec![b(2), b(3)],
        real_reserves: vec![],
        amp_factor: b(4),
        gamma: b(5),
        virtual_price: b(6),
        price_oracle: b(7),
        price_scale: b(8),
        future_a_gamma_time: 9,
        initial_a_gamma_time: 10,
        d: b(11),
        mid_fee: b(12),
        out_fee: b(13),
        fee_gamma: b(14),
        state: 1,
        allowed_extra_profit: b(15),
        adjustment_step: b(16),
        admin_fee: b(17),
        last_prices: b(18),
        last_price_ts: 19,
        ma_half_time: 20,
        xcp_profit: b(21),
        xcp_profit_a: b(22),
        is_not_adjusted: true,
    };
    let v2 = AshswapV2Module::get_xexchange(&v, answers, b(100), b(200));
    assert_eq!(v2.real_reserves, vec![b(100), b(200)]);
    assert_eq!((v2.total_supply.clone(), v2.reserves.clone(), v2.d.clone(), v2.xcp_profit_a.clone(), v2.is_not_adjusted), (b(1), vec![b(2), b(3)], b(11), b(22), true));
    let _ = AshswapV1Module::get_xexchange(&v, 0, 0, b(0), b(0));
    let _ = HatomModule::get_hatom_liquid_staking(&v, 0, b(0));
}
