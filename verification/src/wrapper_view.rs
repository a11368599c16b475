//! Views of the pools of other exchanges: each view is put together from what
//! the pool's own getters answer, which the contract that holds the view asks
//! them.

pub mod ashswapv1;
pub mod ashswapv2;
pub mod hatomliquidstaking;
pub mod jexexchange;
pub mod onedex;
pub mod tinder;
pub mod xexchange;

use vstd::prelude::*;

verus! {

/// Prices are given with 18 decimals: this is one.
pub const PRECISION: u64 = 1_000_000_000_000_000_000u64;

/// The contract that offers every view.
#[derive(Clone, Debug)]
pub struct WrapperView {}

impl WrapperView {
    /// Deploys the view contract.
    pub fn init() -> (r: WrapperView) {
        WrapperView {  }
    }
}

impl ashswapv1::WrapperModule for WrapperView {

}

impl ashswapv2::WrapperModule for WrapperView {

}

impl hatomliquidstaking::WrapperModule for WrapperView {

}

impl jexexchange::WrapperModule for WrapperView {

}

impl onedex::WrapperModule for WrapperView {

}

impl tinder::WrapperModule for WrapperView {

}

impl xexchange::WrapperModule for WrapperView {

}

impl xexchange::tinder::WrapperModule for WrapperView {

}

} // verus!
