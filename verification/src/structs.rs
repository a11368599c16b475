use vstd::prelude::*;
use crate::biguint::BigUint;

verus! {

/// An account or contract address, as its raw bytes.
pub type ManagedAddress = Vec<u8>;

/// An ESDT token identifier, as its raw bytes (such as `USDC-abcdef`).
pub type TokenIdentifier = Vec<u8>;

/// A raw byte buffer (a function name or an argument of a call).
pub type ManagedBuffer = Vec<u8>;

/// Compares two byte strings.
pub fn bytes_eq(a: &Vec<u8>, b: &Vec<u8>) -> (r: bool)
    ensures
        r == (a@ == b@),
{
    if a.len() != b.len() {
        return false;
    }
    let mut i: usize = 0;
    while i < a.len()
        invariant
            0 <= i <= a.len(),
            a.len() == b.len(),
            forall|j: int| 0 <= j < i ==> a@[j] == b@[j],
        decreases a.len() - i,
    {
        if a[i] != b[i] {
            return false;
        }
        i += 1;
    }
    assert(a@ =~= b@);
    true
}

/// Copies a byte string.
pub fn bytes_copy(a: &Vec<u8>) -> (r: Vec<u8>)
    ensures
        r@ == a@,
{
    let mut r: Vec<u8> = Vec::new();
    let mut i: usize = 0;
    while i < a.len()
        invariant
            0 <= i <= a.len(),
            r@ == a@.subrange(0, i as int),
        decreases a.len() - i,
    {
        r.push(a[i]);
        i += 1;
        assert(r@ =~= a@.subrange(0, i as int));
    }
    assert(a@.subrange(0, a@.len() as int) =~= a@);
    r
}

/// An address is the zero address when all its bytes are zero.
pub open spec fn spec_is_zero_address(a: Seq<u8>) -> bool {
    forall|i: int| 0 <= i < a.len() ==> a[i] == 0
}

/// Tells whether every byte of the address is zero.
pub fn is_zero_address(a: &ManagedAddress) -> (r: bool)
    ensures
        r == spec_is_zero_address(a@),
{
    let mut i: usize = 0;
    while i < a.len()
        invariant
            0 <= i <= a.len(),
            forall|j: int| 0 <= j < i ==> a@[j] == 0,
        decreases a.len() - i,
    {
        if a[i] != 0 {
            return false;
        }
        i += 1;
    }
    true
}

/// EGLD or an ESDT token. Its view is `None` for EGLD and the identifier's
/// bytes for an ESDT.
#[derive(Clone, Debug, PartialEq, Eq)]
pub enum EgldOrEsdtTokenIdentifier {
    Egld,
    Esdt(TokenIdentifier),
}

impl View for EgldOrEsdtTokenIdentifier {
    type V = Option<Seq<u8>>;

    open spec fn view(&self) -> Option<Seq<u8>> {
        match self {
            EgldOrEsdtTokenIdentifier::Egld => None,
            EgldOrEsdtTokenIdentifier::Esdt(id) => Some(id@),
        }
    }
}

impl EgldOrEsdtTokenIdentifier {
    /// The EGLD token.
    pub fn egld() -> (r: Self)
        ensures
            r@ == None::<Seq<u8>>,
    {
        EgldOrEsdtTokenIdentifier::Egld
    }

    /// The ESDT token with the given identifier.
    pub fn esdt(id: TokenIdentifier) -> (r: Self)
        ensures
            r@ == Some(id@),
    {
        EgldOrEsdtTokenIdentifier::Esdt(id)
    }

    /// Tells whether this is EGLD.
    pub fn is_egld(&self) -> (r: bool)
        ensures
            r == (self@ is None),
    {
        match self {
            EgldOrEsdtTokenIdentifier::Egld => true,
            EgldOrEsdtTokenIdentifier::Esdt(_) => false,
        }
    }

    /// Tells whether both name the same token.
    pub fn same_as(&self, other: &Self) -> (r: bool)
        ensures
            r == (self@ == other@),
    {
        match (self, other) {
            (EgldOrEsdtTokenIdentifier::Egld, EgldOrEsdtTokenIdentifier::Egld) => true,
            (EgldOrEsdtTokenIdentifier::Esdt(a), EgldOrEsdtTokenIdentifier::Esdt(b)) => bytes_eq(a, b),
            _ => false,
        }
    }

    /// A copy of this token identifier.
    pub fn duplicate(&self) -> (r: Self)
        ensures
            r@ == self@,
    {
        match self {
            EgldOrEsdtTokenIdentifier::Egld => EgldOrEsdtTokenIdentifier::Egld,
            EgldOrEsdtTokenIdentifier::Esdt(a) => EgldOrEsdtTokenIdentifier::Esdt(bytes_copy(a)),
        }
    }
}

/// A payment of an ESDT token.
#[derive(Clone, Debug, PartialEq, Eq)]
pub struct EsdtTokenPayment {
    pub token_identifier: TokenIdentifier,
    pub token_nonce: u64,
    pub amount: BigUint,
}

impl View for EsdtTokenPayment {
    type V = (Seq<u8>, u64, nat);

    open spec fn view(&self) -> (Seq<u8>, u64, nat) {
        (self.token_identifier@, self.token_nonce, self.amount@)
    }
}

impl EsdtTokenPayment {
    pub fn new(token_identifier: TokenIdentifier, token_nonce: u64, amount: BigUint) -> (r: Self)
        ensures
            r@ == (token_identifier@, token_nonce, amount@),
    {
        EsdtTokenPayment { token_identifier, token_nonce, amount }
    }

    /// A copy of this payment.
    pub fn duplicate(&self) -> (r: Self)
        ensures
            r@ == self@,
    {
        EsdtTokenPayment {
            token_identifier: bytes_copy(&self.token_identifier),
            token_nonce: self.token_nonce,
            amount: self.amount.copy(),
        }
    }
}

/// A payment of EGLD or of an ESDT token.
#[derive(Clone, Debug, PartialEq, Eq)]
pub struct EgldOrEsdtTokenPayment {
    pub token_identifier: EgldOrEsdtTokenIdentifier,
    pub token_nonce: u64,
    pub amount: BigUint,
}

impl View for EgldOrEsdtTokenPayment {
    type V = (Option<Seq<u8>>, u64, nat);

    open spec fn view(&self) -> (Option<Seq<u8>>, u64, nat) {
        (self.token_identifier@, self.token_nonce, self.amount@)
    }
}

impl EgldOrEsdtTokenPayment {
    pub fn new(
        token_identifier: EgldOrEsdtTokenIdentifier,
        token_nonce: u64,
        amount: BigUint,
    ) -> (r: Self)
        ensures
            r@ == (token_identifier@, token_nonce, amount@),
    {
        EgldOrEsdtTokenPayment { token_identifier, token_nonce, amount }
    }

    /// A copy of this payment.
    pub fn duplicate(&self) -> (r: Self)
        ensures
            r@ == self@,
    {
        EgldOrEsdtTokenPayment {
            token_identifier: self.token_identifier.duplicate(),
            token_nonce: self.token_nonce,
            amount: self.amount.copy(),
        }
    }
}

/// An amount of a token, as the fee contract reports what can be claimed.
#[derive(Clone, Debug, PartialEq, Eq)]
pub struct TokenAmount {
    pub token: EgldOrEsdtTokenIdentifier,
    pub amount: BigUint,
}

impl View for TokenAmount {
    type V = (Option<Seq<u8>>, nat);

    open spec fn view(&self) -> (Option<Seq<u8>>, nat) {
        (self.token@, self.amount@)
    }
}

impl TokenAmount {
    pub fn new(token: EgldOrEsdtTokenIdentifier, amount: BigUint) -> (r: Self)
        ensures
            r.token == token,
            r.amount == amount,
            r@ == (token@, amount@),
    {
        TokenAmount { token, amount }
    }

    /// A copy of this amount.
    pub fn duplicate(&self) -> (r: Self)
        ensures
            r@ == self@,
    {
        TokenAmount { token: self.token.duplicate(), amount: self.amount.copy() }
    }
}

/// Copies a list of byte strings.
pub fn buffers_copy(v: &Vec<ManagedBuffer>) -> (r: Vec<ManagedBuffer>)
    ensures
        buffers_view(r@) == buffers_view(v@),
{
    let mut r: Vec<ManagedBuffer> = Vec::new();
    let mut k: usize = 0;
    while k < v.len()
        invariant
            0 <= k <= v.len(),
            buffers_view(r@) == buffers_view(v@).take(k as int),
        decreases v.len() - k,
    {
        let ghost before = r@;
        let b = bytes_copy(&v[k]);
        r.push(b);
        assert(buffers_view(r@) =~= buffers_view(before).push(v@[k as int]@));
        assert(buffers_view(r@) =~= buffers_view(v@).take(k + 1));
        k += 1;
    }
    assert(buffers_view(v@).take(v.len() as int) =~= buffers_view(v@));
    r
}

/// A list of byte strings as plain values.
pub open spec fn buffers_view(v: Seq<ManagedBuffer>) -> Seq<Seq<u8>> {
    v.map_values(|b: ManagedBuffer| b@)
}

/// One swap of a route: `amount_in` of `token_in` goes to the pool at
/// `pool_address` through `function_name(arguments)`, and `token_out` comes
/// back. An `amount_in` of zero takes all that the previous step gave.
#[derive(Clone, Debug)]
pub struct AggregatorStep {
    pub token_in: EgldOrEsdtTokenIdentifier,
    pub token_out: EgldOrEsdtTokenIdentifier,
    pub amount_in: BigUint,
    pub pool_address: ManagedAddress,
    pub function_name: ManagedBuffer,
    pub arguments: Vec<ManagedBuffer>,
}

/// A step as a plain value.
pub struct AggregatorStepModel {
    pub token_in: Option<Seq<u8>>,
    pub token_out: Option<Seq<u8>>,
    pub amount_in: nat,
    pub pool_address: Seq<u8>,
    pub function_name: Seq<u8>,
    pub arguments: Seq<Seq<u8>>,
}

impl View for AggregatorStep {
    type V = AggregatorStepModel;

    open spec fn view(&self) -> AggregatorStepModel {
        AggregatorStepModel {
            token_in: self.token_in@,
            token_out: self.token_out@,
            amount_in: self.amount_in@,
            pool_address: self.pool_address@,
            function_name: self.function_name@,
            arguments: buffers_view(self.arguments@),
        }
    }
}

} // verus!
