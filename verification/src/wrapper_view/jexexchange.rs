//! The view of the JEX pairs.

use vstd::prelude::*;
use crate::biguint::BigUint;
use crate::structs::{bytes_copy, ManagedAddress, TokenIdentifier};

verus! {

/// A pair as JEX reports it.
#[derive(Clone, Debug)]
pub struct JexExchangePool {
    pub paused: u8,
    pub first_token_identifier: TokenIdentifier,
    pub first_token_reserve: BigUint,
    pub second_token_identifier: TokenIdentifier,
    pub second_token_reserve: BigUint,
    pub lp_token_identifier: TokenIdentifier,
    pub lp_token_supply: BigUint,
    pub owner: ManagedAddress,
    pub lp_fees: u32,
    pub platform_fees: u32,
}

/// A JEX pair as the view gives it.
#[derive(Clone, Debug)]
pub struct JexExchangeView {
    pub paused: bool,
    pub reserve_0: BigUint,
    pub reserve_1: BigUint,
    pub lp_fees: u32,
    pub platform_fees: u32,
    pub address: ManagedAddress,
    pub token_id_0: TokenIdentifier,
    pub token_id_1: TokenIdentifier,
}

/// Which pair to view, and under which two tokens.
#[derive(Clone, Debug)]
pub struct JexExchangeViewRequest {
    pub pool_address: ManagedAddress,
    pub token_id_0: TokenIdentifier,
    pub token_id_1: TokenIdentifier,
}

/// The view of one pair: whether it is paused (a non-zero flag), its
/// reserves and fees as the pair reports them, and the request's address and
/// tokens.
pub open spec fn jex_view_of(
    req: JexExchangeViewRequest,
    pair: JexExchangePool,
    v: JexExchangeView,
) -> bool {
    &&& v.paused == (pair.paused != 0)
    &&& v.reserve_0@ == pair.first_token_reserve@
    &&& v.reserve_1@ == pair.second_token_reserve@
    &&& v.lp_fees == pair.lp_fees
    &&& v.platform_fees == pair.platform_fees
    &&& v.address@ == req.pool_address@
    &&& v.token_id_0@ == req.token_id_0@
    &&& v.token_id_1@ == req.token_id_1@
}

/// A JEX view entry reports the requested pair under the requested tokens:
/// `token_id_0` with the pair's first reserve, `token_id_1` with its second,
/// the pair's fees, whether its pause flag is set, and the requested address.
pub proof fn jex_view_law(req: JexExchangeViewRequest, pair: JexExchangePool, v: JexExchangeView)
    requires
        jex_view_of(req, pair, v),
    ensures
        v.token_id_0@ == req.token_id_0@,
        v.token_id_1@ == req.token_id_1@,
        v.reserve_0@ == pair.first_token_reserve@,
        v.reserve_1@ == pair.second_token_reserve@,
        v.address@ == req.pool_address@,
        v.paused <==> pair.paused != 0,
        v.lp_fees == pair.lp_fees,
        v.platform_fees == pair.platform_fees,
{
}

/// The JEX view.
pub trait WrapperModule {
    /// The view of each requested pair, in the order of the requests;
    /// `pairs[i]` is what the pair of `request[i]` answered.
    fn get_jexexchange(
        &self,
        request: &Vec<JexExchangeViewRequest>,
        pairs: &Vec<JexExchangePool>,
    ) -> (r: Vec<JexExchangeView>)
        requires
            pairs.len() == request.len(),
        ensures
            r.len() == request.len(),
            forall|i: int| 0 <= i < request.len() ==> jex_view_of(request[i], pairs[i], r[i]),
            forall|i: int|
                #![trigger r[i]]
                0 <= i < request.len() ==> {
                    &&& r[i].token_id_0@ == request[i].token_id_0@
                    &&& r[i].token_id_1@ == request[i].token_id_1@
                    &&& r[i].reserve_0@ == pairs[i].first_token_reserve@
                    &&& r[i].reserve_1@ == pairs[i].second_token_reserve@
                    &&& r[i].address@ == request[i].pool_address@
                    &&& (r[i].paused <==> pairs[i].paused != 0)
                    &&& r[i].lp_fees == pairs[i].lp_fees
                    &&& r[i].platform_fees == pairs[i].platform_fees
                },
    {
        let mut result: Vec<JexExchangeView> = Vec::new();
        let mut k: usize = 0;
        while k < request.len()
            invariant
                0 <= k <= request.len(),
                pairs.len() == request.len(),
                result.len() == k,
                forall|i: int| 0 <= i < k ==> jex_view_of(request[i], pairs[i], result[i]),
            decreases request.len() - k,
        {
            let req = &request[k];
            let pair = &pairs[k];
            result.push(
                JexExchangeView {
                    paused: pair.paused != 0,
                    reserve_0: pair.first_token_reserve.copy(),
                    reserve_1: pair.second_token_reserve.copy(),
                    lp_fees: pair.lp_fees,
                    platform_fees: pair.platform_fees,
                    address: bytes_copy(&req.pool_address),
                    token_id_0: bytes_copy(&req.token_id_0),
                    token_id_1: bytes_copy(&req.token_id_1),
                },
            );
            k += 1;
        }
        result
    }
}

} // verus!
