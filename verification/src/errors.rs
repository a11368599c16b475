use vstd::prelude::*;

verus! {

/// The errors with which the contracts refuse a call.
#[derive(PartialEq, Eq, Structural, Debug, Clone, Copy)]
pub enum ContractError {
    ZeroAmount,
    SlippageScrewYou,
    InvalidAmountIn,
    InvalidTokenIn,
    InvalidTokenOut,
    InsufficientAmount,
    InvalidPoolAddr,
    ProtocolNotRegistered,
    InvalidFeePercent,
    InvalidAddress,
    SameToken,
    InvalidSteps,
    WrongTokenId,
}

/// The message that the contracts report for each error.
pub open spec fn spec_error_message(e: ContractError) -> Seq<char> {
    match e {
        ContractError::ZeroAmount => "Invalid amount zero"@,
        ContractError::SlippageScrewYou => "Slippage too high"@,
        ContractError::InvalidAmountIn => "Invalid amount in"@,
        ContractError::InvalidTokenIn => "Invalid token in"@,
        ContractError::InvalidTokenOut => "Invalid token out"@,
        ContractError::InsufficientAmount => "Insufficient amount"@,
        ContractError::InvalidPoolAddr => "Invalid pool address"@,
        ContractError::ProtocolNotRegistered => "Protocol unregistered"@,
        ContractError::InvalidFeePercent => "Invalid fee percent"@,
        ContractError::InvalidAddress => "Invalid contract"@,
        ContractError::SameToken => "Same token"@,
        ContractError::InvalidSteps => "Invalid step"@,
        ContractError::WrongTokenId => "Wrong token id"@,
    }
}

impl ContractError {
    /// The message reported for this error.
    pub fn message(&self) -> (r: &'static str)
        ensures
            r@ == spec_error_message(*self),
    {
        match self {
            ContractError::ZeroAmount => "Invalid amount zero",
            ContractError::SlippageScrewYou => "Slippage too high",
            ContractError::InvalidAmountIn => "Invalid amount in",
            ContractError::InvalidTokenIn => "Invalid token in",
            ContractError::InvalidTokenOut => "Invalid token out",
            ContractError::InsufficientAmount => "Insufficient amount",
            ContractError::InvalidPoolAddr => "Invalid pool address",
            ContractError::ProtocolNotRegistered => "Protocol unregistered",
            ContractError::InvalidFeePercent => "Invalid fee percent",
            ContractError::InvalidAddress => "Invalid contract",
            ContractError::SameToken => "Same token",
            ContractError::InvalidSteps => "Invalid step",
            ContractError::WrongTokenId => "Wrong token id",
        }
    }
}

} // verus!
