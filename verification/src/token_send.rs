//! Sending tokens: which payments are worth a transfer.

use vstd::prelude::*;
use crate::biguint::BigUint;
use crate::structs::{EsdtTokenPayment, TokenIdentifier};

verus! {

/// How a route that ends in wrapped EGLD hands its result back.
#[derive(Clone, Debug)]
pub struct EgldWrapperOption {
    pub wrapped_egld_token_id: TokenIdentifier,
    pub egld_return: bool,
}

/// An ESDT payment as a plain value: token, nonce, amount.
pub type PaymentView = (Seq<u8>, u64, nat);

/// The payments of a list, as plain values.
pub open spec fn payments_view(s: Seq<EsdtTokenPayment>) -> Seq<PaymentView> {
    s.map_values(|p: EsdtTokenPayment| p@)
}

/// The payments of a list whose amount is not zero, in their order.
pub open spec fn non_zero_payments(ps: Seq<PaymentView>) -> Seq<PaymentView>
    decreases ps.len(),
{
    if ps.len() == 0 {
        ps
    } else {
        let rest = non_zero_payments(ps.drop_last());
        if ps.last().2 > 0 {
            rest.push(ps.last())
        } else {
            rest
        }
    }
}

/// Leaving out the payments of amount zero keeps the others in their order:
/// nothing of an empty list, a payment by itself where its amount is not zero,
/// and for two lists put together what remains of the first followed by what
/// remains of the second.
pub proof fn non_zero_payments_law(a: Seq<PaymentView>, b: Seq<PaymentView>, p: PaymentView)
    ensures
        non_zero_payments(Seq::<PaymentView>::empty()) == Seq::<PaymentView>::empty(),
        non_zero_payments(seq![p]) == if p.2 > 0 {
            seq![p]
        } else {
            Seq::<PaymentView>::empty()
        },
        non_zero_payments(a + b) == non_zero_payments(a) + non_zero_payments(b),
    decreases b.len(),
{
    let e: Seq<PaymentView> = Seq::empty();
    assert(seq![p].drop_last() =~= e);
    assert(e.push(p) =~= seq![p]);
    if b.len() == 0 {
        assert(a + b =~= a);
        assert(non_zero_payments(a) + non_zero_payments(b) =~= non_zero_payments(a));
    } else {
        let bd = b.drop_last();
        non_zero_payments_law(a, bd, p);
        assert((a + b).drop_last() =~= a + bd);
        assert((a + b).last() == b.last());
        let na = non_zero_payments(a);
        let nb = non_zero_payments(bd);
        assert((na + nb).push(b.last()) =~= na + nb.push(b.last()));
    }
}

/// The sum of the amounts of a list of payments.
pub open spec fn payments_total(ps: Seq<PaymentView>) -> int
    decreases ps.len(),
{
    if ps.len() == 0 {
        0
    } else {
        payments_total(ps.drop_last()) + ps.last().2
    }
}

/// Leaving out the payments of amount zero leaves the total as it is.
pub proof fn lemma_non_zero_total(ps: Seq<PaymentView>)
    ensures
        payments_total(non_zero_payments(ps)) == payments_total(ps),
    decreases ps.len(),
{
    if ps.len() > 0 {
        lemma_non_zero_total(ps.drop_last());
        let rest = non_zero_payments(ps.drop_last());
        if ps.last().2 > 0 {
            assert(rest.push(ps.last()).drop_last() =~= rest);
        }
    }
}

/// The part of sending tokens that decides what goes out; the transfer itself
/// is made by the contract that holds the tokens.
pub trait TokenSendModule {
    /// The payments that are sent in one multi-transfer: those whose amount
    /// is not zero, in their order. Nothing is sent where none is left.
    fn send_multiple_tokens_if_not_zero(&self, payments: &Vec<EsdtTokenPayment>) -> (r: Vec<
        EsdtTokenPayment,
    >)
        ensures
            payments_view(r@) == non_zero_payments(payments_view(payments@)),
    {
        let ghost v = payments_view(payments@);
        let mut r: Vec<EsdtTokenPayment> = Vec::new();
        let mut k: usize = 0;
        while k < payments.len()
            invariant
                0 <= k <= payments.len(),
                v == payments_view(payments@),
                v.len() == payments.len(),
                payments_view(r@) == non_zero_payments(v.take(k as int)),
            decreases payments.len() - k,
        {
            let ghost before = r@;
            assert(v.take(k + 1).drop_last() =~= v.take(k as int));
            assert(v.take(k + 1).last() == v[k as int]);
            if !payments[k].amount.is_zero() {
                r.push(payments[k].duplicate());
                assert(payments_view(r@) =~= payments_view(before).push(v[k as int]));
            }
            k += 1;
        }
        assert(v.take(payments.len() as int) =~= v);
        r
    }

    /// The payment that is sent of one token: none where the amount is zero.
    fn send_tokens_non_zero(&self, token_id: &TokenIdentifier, nonce: u64, amount: BigUint) -> (r:
        Option<EsdtTokenPayment>)
        ensures
            amount@ > 0 ==> r is Some && r.unwrap()@ == (token_id@, nonce, amount@),
            amount@ == 0 ==> r is None,
    {
        if !amount.is_zero() {
            Some(EsdtTokenPayment::new(crate::structs::bytes_copy(token_id), nonce, amount))
        } else {
            None
        }
    }
}

} // verus!
