//! A stand-in for the EGLD wrapper contract: it swaps EGLD for its wrapped
//! token one for one, both ways.

use vstd::prelude::*;
use crate::biguint::BigUint;
use crate::errors::ContractError;
use crate::structs::{bytes_copy, bytes_eq, EsdtTokenPayment, TokenIdentifier};

verus! {

/// What wrapping `egld_amount` of EGLD gives back: that much of the wrapped
/// token.
pub open spec fn wrap_result(wrapped_token: Seq<u8>, egld_amount: nat) -> (Seq<u8>, u64, nat) {
    (wrapped_token, 0u64, egld_amount)
}

/// What unwrapping a payment gives back: as much EGLD as the payment holds of
/// the wrapped token; refused for another token.
pub open spec fn unwrap_result(wrapped_token: Seq<u8>, payment: (Seq<u8>, u64, nat)) -> Result<
    nat,
    ContractError,
> {
    if payment.0 == wrapped_token {
        Ok(payment.2)
    } else {
        Err(ContractError::WrongTokenId)
    }
}

/// Unwrapping what a wrap gave back returns the EGLD that was wrapped.
pub proof fn wrap_unwrap_law(wrapped_token: Seq<u8>, egld_amount: nat)
    ensures
        unwrap_result(wrapped_token, wrap_result(wrapped_token, egld_amount)) == Ok::<
            nat,
            ContractError,
        >(egld_amount),
{
}

/// Wrapping gives back exactly the EGLD amount paid, in the wrapped token,
/// of nonce zero; unwrapping a payment of the wrapped token gives back exactly
/// its amount of EGLD, and a payment of any other token is refused with
/// `WrongTokenId`.
pub proof fn wrap_law(wrapped_token: Seq<u8>, egld_amount: nat, payment: (Seq<u8>, u64, nat))
    ensures
        wrap_result(wrapped_token, egld_amount).0 == wrapped_token,
        wrap_result(wrapped_token, egld_amount).1 == 0,
        wrap_result(wrapped_token, egld_amount).2 == egld_amount,
        payment.0 == wrapped_token ==> unwrap_result(wrapped_token, payment) == Ok::<
            nat,
            ContractError,
        >(payment.2),
        payment.0 != wrapped_token ==> unwrap_result(wrapped_token, payment) == Err::<
            nat,
            ContractError,
        >(ContractError::WrongTokenId),
{
}

/// An amount or an error, with the amount as a plain value.
pub open spec fn amount_result_view(r: Result<BigUint, ContractError>) -> Result<nat, ContractError> {
    match r {
        Ok(a) => Ok(a@),
        Err(e) => Err(e),
    }
}

/// What a contract that wraps EGLD offers.
pub trait EgldWrapper {
    /// The wrapped EGLD token.
    spec fn wrapped_token(&self) -> Seq<u8>;

    /// Wraps the EGLD paid: the same amount of the wrapped token goes back to
    /// the caller.
    fn wrap_egld(&self, egld_amount: BigUint) -> (r: EsdtTokenPayment)
        ensures
            r@ == wrap_result(self.wrapped_token(), egld_amount@),
    ;

    /// Unwraps the wrapped token paid: the EGLD that goes back to the caller.
    /// Refused for another token.
    fn unwrap_egld(&self, payment: &EsdtTokenPayment) -> (r: Result<BigUint, ContractError>)
        ensures
            amount_result_view(r) == unwrap_result(self.wrapped_token(), payment@),
    ;

    /// The wrapped EGLD token.
    fn get_wrapped_egld_token_id(&self) -> (r: TokenIdentifier)
        ensures
            r@ == self.wrapped_token(),
    ;
}

/// The EGLD wrapper mock.
#[derive(Clone, Debug)]
pub struct EgldWrapperMock {
    wrapped_egld_token_id: TokenIdentifier,
}

impl EgldWrapperMock {
    /// Deploys the mock for the given wrapped token.
    pub fn init(token_id: TokenIdentifier) -> (r: EgldWrapperMock)
        ensures
            r.wrapped_token() == token_id@,
    {
        EgldWrapperMock { wrapped_egld_token_id: token_id }
    }
}

impl EgldWrapper for EgldWrapperMock {
    closed spec fn wrapped_token(&self) -> Seq<u8> {
        self.wrapped_egld_token_id@
    }

    fn wrap_egld(&self, egld_amount: BigUint) -> (r: EsdtTokenPayment) {
        EsdtTokenPayment::new(bytes_copy(&self.wrapped_egld_token_id), 0, egld_amount)
    }

    fn unwrap_egld(&self, payment: &EsdtTokenPayment) -> (r: Result<BigUint, ContractError>) {
        if !bytes_eq(&payment.token_identifier, &self.wrapped_egld_token_id) {
            return Err(ContractError::WrongTokenId);
        }
        Ok(payment.amount.copy())
    }

    fn get_wrapped_egld_token_id(&self) -> (r: TokenIdentifier) {
        bytes_copy(&self.wrapped_egld_token_id)
    }
}

} // verus!
