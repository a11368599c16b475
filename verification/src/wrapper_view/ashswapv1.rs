//! The view of an AshSwap V1 pool.

use vstd::prelude::*;
use crate::biguint::BigUint;

verus! {

/// An AshSwap V1 pool: its state, its fee, and its reserves of two tokens.
#[derive(Clone, Debug)]
pub struct XExchangeView {
    pub state: u8,
    pub total_fee: u64,
    pub reserve_0: BigUint,
    pub reserve_1: BigUint,
}

/// The AshSwap V1 view.
pub trait WrapperModule {
    /// The view of a pool from its answers: its state, its total fee percent,
    /// and its reserve of each of the two tokens asked for.
    fn get_xexchange(&self, state: u8, total_fee: u64, reserve_0: BigUint, reserve_1: BigUint) -> (r:
        XExchangeView)
        ensures
            r.state == state,
            r.total_fee == total_fee,
            r.reserve_0 == reserve_0,
            r.reserve_1 == reserve_1,
    {
        XExchangeView { state, total_fee, reserve_0, reserve_1 }
    }
}

} // verus!
