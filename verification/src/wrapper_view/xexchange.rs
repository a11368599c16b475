//! The view of xExchange pairs, several at a time.

pub mod tinder;

use vstd::prelude::*;
use crate::biguint::BigUint;
use crate::structs::{bytes_copy, ManagedAddress, TokenIdentifier};

verus! {

/// An xExchange pair as the view gives it.
#[derive(Clone, Debug)]
pub struct XExchangeView {
    pub address: ManagedAddress,
    pub state: u8,
    pub total_fee: u64,
    pub token_0_id: TokenIdentifier,
    pub token_1_id: TokenIdentifier,
    pub reserve_0: BigUint,
    pub reserve_1: BigUint,
}

/// Which pair to view, and its two tokens.
#[derive(Clone, Debug)]
pub struct XExchangeViewRequest {
    pub pool_address: ManagedAddress,
    pub token_id_0: TokenIdentifier,
    pub token_id_1: TokenIdentifier,
}

/// What a pair answers: its state, its total fee percent, and its reserve
/// of each of the two tokens.
#[derive(Clone, Debug)]
pub struct XExchangePairState {
    pub state: u8,
    pub total_fee: u64,
    pub reserve_0: BigUint,
    pub reserve_1: BigUint,
}

/// The view of one pair: the request's address and tokens, and the pair's
/// answers.
pub open spec fn xexchange_view_of(
    req: XExchangeViewRequest,
    pair: XExchangePairState,
    v: XExchangeView,
) -> bool {
    &&& v.address@ == req.pool_address@
    &&& v.state == pair.state
    &&& v.total_fee == pair.total_fee
    &&& v.token_0_id@ == req.token_id_0@
    &&& v.token_1_id@ == req.token_id_1@
    &&& v.reserve_0@ == pair.reserve_0@
    &&& v.reserve_1@ == pair.reserve_1@
}

/// An xExchange view entry reports the requested pair under the requested
/// tokens: `token_0_id` with the pair's reserve of it, `token_1_id` with the
/// pair's reserve of that one, and the pair's state and fee at the requested
/// address.
pub proof fn xexchange_view_law(
    req: XExchangeViewRequest,
    pair: XExchangePairState,
    v: XExchangeView,
)
    requires
        xexchange_view_of(req, pair, v),
    ensures
        v.token_0_id@ == req.token_id_0@,
        v.token_1_id@ == req.token_id_1@,
        v.reserve_0@ == pair.reserve_0@,
        v.reserve_1@ == pair.reserve_1@,
        v.address@ == req.pool_address@,
        v.state == pair.state,
        v.total_fee == pair.total_fee,
{
}

/// The xExchange view.
pub trait WrapperModule {
    /// The view of each requested pair, in the order of the requests;
    /// `pairs[i]` is what the pair of `request[i]` answered.
    fn get_xexchange(&self, request: &Vec<XExchangeViewRequest>, pairs: &Vec<XExchangePairState>) -> (r:
        Vec<XExchangeView>)
        requires
            pairs.len() == request.len(),
        ensures
            r.len() == request.len(),
            forall|i: int| 0 <= i < request.len() ==> xexchange_view_of(request[i], pairs[i], r[i]),
            forall|i: int|
                #![trigger r[i]]
                0 <= i < request.len() ==> {
                    &&& r[i].token_0_id@ == request[i].token_id_0@
                    &&& r[i].token_1_id@ == request[i].token_id_1@
                    &&& r[i].reserve_0@ == pairs[i].reserve_0@
                    &&& r[i].reserve_1@ == pairs[i].reserve_1@
                    &&& r[i].address@ == request[i].pool_address@
                    &&& r[i].state == pairs[i].state
                    &&& r[i].total_fee == pairs[i].total_fee
                },
    {
        let mut result: Vec<XExchangeView> = Vec::new();
        let mut k: usize = 0;
        while k < request.len()
            invariant
                0 <= k <= request.len(),
                pairs.len() == request.len(),
                result.len() == k,
                forall|i: int| 0 <= i < k ==> xexchange_view_of(request[i], pairs[i], result[i]),
            decreases request.len() - k,
        {
            let req = &request[k];
            let pair = &pairs[k];
            result.push(
                XExchangeView {
                    address: bytes_copy(&req.pool_address),
                    state: pair.state,
                    total_fee: pair.total_fee,
                    token_0_id: bytes_copy(&req.token_id_0),
                    token_1_id: bytes_copy(&req.token_id_1),
                    reserve_0: pair.reserve_0.copy(),
                    reserve_1: pair.reserve_1.copy(),
                },
            );
            k += 1;
        }
        result
    }
}

} // verus!
