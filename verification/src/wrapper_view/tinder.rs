//! The view of Tinder vaults, several at a time.

use vstd::prelude::*;
use crate::biguint::BigUint;
use crate::structs::{bytes_copy, ManagedAddress, TokenIdentifier};
use crate::wrapper_view::PRECISION;

verus! {

/// A Tinder vault as the view gives it: always active, the asset priced at
/// one, the price of a share, and the request's address and tokens.
#[derive(Clone, Debug)]
pub struct TinderView {
    pub state: u8,
    pub underlying_price_0: BigUint,
    pub underlying_price_1: BigUint,
    pub address: ManagedAddress,
    pub token_id_0: TokenIdentifier,
    pub token_id_1: TokenIdentifier,
}

/// Which vault to view, and under which two tokens.
#[derive(Clone, Debug)]
pub struct TinderViewRequest {
    pub pool_address: ManagedAddress,
    pub token_id_0: TokenIdentifier,
    pub token_id_1: TokenIdentifier,
}

/// The view of one vault whose share is worth `price` in assets.
pub open spec fn tinder_view_of(req: TinderViewRequest, price: nat, v: TinderView) -> bool {
    &&& v.state == 1
    &&& v.underlying_price_0@ == PRECISION
    &&& v.underlying_price_1@ == price
    &&& v.address@ == req.pool_address@
    &&& v.token_id_0@ == req.token_id_0@
    &&& v.token_id_1@ == req.token_id_1@
}

/// A Tinder view entry reports the vault as active, under the requested
/// tokens and address, with the asset priced at one (`PRECISION`) and the
/// share at the vault's answered price.
pub proof fn tinder_view_law(req: TinderViewRequest, price: nat, v: TinderView)
    requires
        tinder_view_of(req, price, v),
    ensures
        v.state == 1,
        v.underlying_price_0@ == 1_000_000_000_000_000_000nat,
        v.underlying_price_1@ == price,
        v.token_id_0@ == req.token_id_0@,
        v.token_id_1@ == req.token_id_1@,
        v.address@ == req.pool_address@,
{
}

/// The Tinder view.
pub trait WrapperModule {
    /// The view of each requested vault, in the order of the requests;
    /// `share_to_assets_prices[i]` is what the vault of `request[i]` answered.
    fn get_tinder(&self, request: &Vec<TinderViewRequest>, share_to_assets_prices: &Vec<BigUint>) -> (r:
        Vec<TinderView>)
        requires
            share_to_assets_prices.len() == request.len(),
        ensures
            r.len() == request.len(),
            forall|i: int|
                0 <= i < request.len() ==> tinder_view_of(
                    request[i],
                    share_to_assets_prices[i]@,
                    r[i],
                ),
            forall|i: int|
                #![trigger r[i]]
                0 <= i < request.len() ==> {
                    &&& r[i].state == 1
                    &&& r[i].underlying_price_0@ == 1_000_000_000_000_000_000nat
                    &&& r[i].underlying_price_1@ == share_to_assets_prices[i]@
                    &&& r[i].token_id_0@ == request[i].token_id_0@
                    &&& r[i].token_id_1@ == request[i].token_id_1@
                    &&& r[i].address@ == request[i].pool_address@
                },
    {
        let mut result: Vec<TinderView> = Vec::new();
        let mut k: usize = 0;
        while k < request.len()
            invariant
                0 <= k <= request.len(),
                share_to_assets_prices.len() == request.len(),
                result.len() == k,
                forall|i: int|
                    0 <= i < k ==> tinder_view_of(request[i], share_to_assets_prices[i]@, result[i]),
            decreases request.len() - k,
        {
            let req = &request[k];
            result.push(
                TinderView {
                    state: 1,
                    underlying_price_0: BigUint::from_u64(PRECISION),
                    underlying_price_1: share_to_assets_prices[k].copy(),
                    address: bytes_copy(&req.pool_address),
                    token_id_0: bytes_copy(&req.token_id_0),
                    token_id_1: bytes_copy(&req.token_id_1),
                },
            );
            k += 1;
        }
        result
    }
}

} // verus!
