//! The view of an AshSwap V2 pool.

use vstd::prelude::*;
use crate::biguint::BigUint;

verus! {

/// An AshSwap V2 pool: what its getters answer, and its real balances of
/// its two tokens.
#[derive(Clone, Debug)]
pub struct AshswapV2View {
    pub total_supply: BigUint,
    pub reserves: Vec<BigUint>,
    pub real_reserves: Vec<BigUint>,
    pub amp_factor: BigUint,
    pub gamma: BigUint,
    pub virtual_price: BigUint,
    pub price_oracle: BigUint,
    pub price_scale: BigUint,
    pub future_a_gamma_time: u64,
    pub initial_a_gamma_time: u64,
    pub d: BigUint,
    pub mid_fee: BigUint,
    pub out_fee: BigUint,
    pub fee_gamma: BigUint,
    pub state: u8,
    pub allowed_extra_profit: BigUint,
    pub adjustment_step: BigUint,
    pub admin_fee: BigUint,
    pub last_prices: BigUint,
    pub last_price_ts: u64,
    pub ma_half_time: u64,
    pub xcp_profit: BigUint,
    pub xcp_profit_a: BigUint,
    pub is_not_adjusted: bool,
}

/// The AshSwap V2 view.
pub trait WrapperModule {
    /// The view of a pool: what its getters answered (`answers`, whose real
    /// reserves are not read) with its real balances of the two tokens.
    fn get_xexchange(&self, answers: AshswapV2View, balance_0: BigUint, balance_1: BigUint) -> (r:
        AshswapV2View)
        ensures
            r.real_reserves@ == seq![balance_0, balance_1],
            r.total_supply == answers.total_supply,
            r.reserves@ == answers.reserves@,
            r.amp_factor == answers.amp_factor,
            r.gamma == answers.gamma,
            r.virtual_price == answers.virtual_price,
            r.price_oracle == answers.price_oracle,
            r.price_scale == answers.price_scale,
            r.future_a_gamma_time == answers.future_a_gamma_time,
            r.initial_a_gamma_time == answers.initial_a_gamma_time,
            r.d == answers.d,
            r.mid_fee == answers.mid_fee,
            r.out_fee == answers.out_fee,
            r.fee_gamma == answers.fee_gamma,
            r.state == answers.state,
            r.allowed_extra_profit == answers.allowed_extra_profit,
            r.adjustment_step == answers.adjustment_step,
            r.admin_fee == answers.admin_fee,
            r.last_prices == answers.last_prices,
            r.last_price_ts == answers.last_price_ts,
            r.ma_half_time == answers.ma_half_time,
            r.xcp_profit == answers.xcp_profit,
            r.xcp_profit_a == answers.xcp_profit_a,
            r.is_not_adjusted == answers.is_not_adjusted,
    {
        let mut real_reserves: Vec<BigUint> = Vec::new();
        real_reserves.push(balance_0);
        real_reserves.push(balance_1);
        assert(real_reserves@ =~= seq![balance_0, balance_1]);
        AshswapV2View { real_reserves, ..answers }
    }
}

} // verus!
