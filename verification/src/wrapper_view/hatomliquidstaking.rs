//! The view of Hatom's liquid staking.

use vstd::prelude::*;
use crate::biguint::BigUint;
use crate::wrapper_view::PRECISION;

verus! {

/// Hatom's liquid staking: its state, and the price of each side in EGLD.
#[derive(Clone, Debug)]
pub struct HatomLiquidStakingView {
    pub state: u8,
    pub underlying_price_0: BigUint,
    pub underlying_price_1: BigUint,
}

/// The Hatom liquid staking view.
pub trait WrapperModule {
    /// The view from the contract's answers: its state and its exchange rate.
    /// EGLD itself is priced at one.
    fn get_hatom_liquid_staking(&self, state: u8, exchange_rate: BigUint) -> (r:
        HatomLiquidStakingView)
        ensures
            r.state == state,
            r.underlying_price_0@ == PRECISION,
            r.underlying_price_0@ == 1_000_000_000_000_000_000nat,
            r.underlying_price_1 == exchange_rate,
    {
        HatomLiquidStakingView {
            state,
            underlying_price_0: BigUint::from_u64(PRECISION),
            underlying_price_1: exchange_rate,
        }
    }
}

} // verus!
