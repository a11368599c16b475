//! The view of one Tinder vault.

use vstd::prelude::*;
use crate::biguint::BigUint;
use crate::wrapper_view::PRECISION;

verus! {

/// A Tinder vault: always active, the asset priced at one, and the price of a
/// share.
#[derive(Clone, Debug)]
pub struct TinderView {
    pub state: u8,
    pub underlying_price_0: BigUint,
    pub underlying_price_1: BigUint,
}

/// The Tinder view.
pub trait WrapperModule {
    /// The view of a vault from its answer: the price of a share in assets.
    fn get_tinder(&self, share_to_assets_price: BigUint) -> (r: TinderView)
        ensures
            r.state == 1,
            r.underlying_price_0@ == PRECISION,
            r.underlying_price_0@ == 1_000_000_000_000_000_000nat,
            r.underlying_price_1 == share_to_assets_price,
    {
        TinderView {
            state: 1,
            underlying_price_0: BigUint::from_u64(PRECISION),
            underlying_price_1: share_to_assets_price,
        }
    }
}

} // verus!
