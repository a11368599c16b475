//! The view of the OneDex pairs.

use vstd::prelude::*;
use crate::biguint::BigUint;
use crate::structs::{bytes_copy, ManagedAddress, TokenIdentifier};

verus! {

/// A pair as OneDex reports it.
#[derive(Clone, Debug)]
pub struct OnedexPool {
    pub pair_id: u32,
    pub state: u8,
    pub enabled: bool,
    pub owner: ManagedAddress,
    pub first_token_id: TokenIdentifier,
    pub second_token_id: TokenIdentifier,
    pub lp_token_id: TokenIdentifier,
    pub lp_token_decimal: u32,
    pub first_token_reserve: BigUint,
    pub second_token_reserve: BigUint,
    pub lp_token_supply: BigUint,
    pub lp_token_roles_are_set: bool,
    pub total_fee_percentage: u64,
}

/// A OneDex pair as the view gives it.
#[derive(Clone, Debug)]
pub struct OnedexView {
    pub status: u8,
    pub total_fee: BigUint,
    pub reserve_0: BigUint,
    pub reserve_1: BigUint,
    pub address: ManagedAddress,
    pub token_0_id: TokenIdentifier,
    pub token_1_id: TokenIdentifier,
}

/// The view of one pair: its state, fee, reserves and tokens, and the address
/// of the OneDex contract.
pub open spec fn onedex_view_of(pool_address: Seq<u8>, pair: OnedexPool, v: OnedexView) -> bool {
    &&& v.status == pair.state
    &&& v.total_fee@ == pair.total_fee_percentage
    &&& v.reserve_0@ == pair.first_token_reserve@
    &&& v.reserve_1@ == pair.second_token_reserve@
    &&& v.address@ == pool_address
    &&& v.token_0_id@ == pair.first_token_id@
    &&& v.token_1_id@ == pair.second_token_id@
}

/// A OneDex view entry reports the pair's first token with its first
/// reserve and its second token with its second reserve, the pair's state and
/// fee, and the address of the OneDex contract.
pub proof fn onedex_view_law(pool_address: Seq<u8>, pair: OnedexPool, v: OnedexView)
    requires
        onedex_view_of(pool_address, pair, v),
    ensures
        v.token_0_id@ == pair.first_token_id@,
        v.token_1_id@ == pair.second_token_id@,
        v.reserve_0@ == pair.first_token_reserve@,
        v.reserve_1@ == pair.second_token_reserve@,
        v.status == pair.state,
        v.total_fee@ == pair.total_fee_percentage,
        v.address@ == pool_address,
{
}

/// The OneDex view.
pub trait WrapperModule {
    /// The view of each pair that the OneDex contract at `pool_address`
    /// answered, in its order.
    fn get_onedex(&self, pool_address: &ManagedAddress, pairs: &Vec<OnedexPool>) -> (r: Vec<
        OnedexView,
    >)
        ensures
            r.len() == pairs.len(),
            forall|i: int| 0 <= i < pairs.len() ==> onedex_view_of(pool_address@, pairs[i], r[i]),
            forall|i: int|
                #![trigger r[i]]
                0 <= i < pairs.len() ==> {
                    &&& r[i].token_0_id@ == pairs[i].first_token_id@
                    &&& r[i].token_1_id@ == pairs[i].second_token_id@
                    &&& r[i].reserve_0@ == pairs[i].first_token_reserve@
                    &&& r[i].reserve_1@ == pairs[i].second_token_reserve@
                    &&& r[i].status == pairs[i].state
                    &&& r[i].total_fee@ == pairs[i].total_fee_percentage
                    &&& r[i].address@ == pool_address@
                },
    {
        let mut result: Vec<OnedexView> = Vec::new();
        let mut k: usize = 0;
        while k < pairs.len()
            invariant
                0 <= k <= pairs.len(),
                result.len() == k,
                forall|i: int| 0 <= i < k ==> onedex_view_of(pool_address@, pairs[i], result[i]),
            decreases pairs.len() - k,
        {
            let pair = &pairs[k];
            result.push(
                OnedexView {
                    status: pair.state,
                    total_fee: BigUint::from_u64(pair.total_fee_percentage),
                    reserve_0: pair.first_token_reserve.copy(),
                    reserve_1: pair.second_token_reserve.copy(),
                    address: bytes_copy(pool_address),
                    token_0_id: bytes_copy(&pair.first_token_id),
                    token_1_id: bytes_copy(&pair.second_token_id),
                },
            );
            k += 1;
        }
        result
    }
}

} // verus!
