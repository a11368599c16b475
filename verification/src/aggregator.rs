//! The aggregator contract: `aggregate` takes one payment, routes it through
//! a series of swaps in other contracts, and pays out what the last swap of
//! each route gave, if it is at least the caller's minimum.
//!
//! The swaps are calls into other contracts, so one run of `aggregate` is
//! kept here as a state machine: `begin` checks the payment, `deduct_fee`
//! takes off a protocol's fee, then for each step `plan_step` checks it and
//! says which swap to make and `record_swap` takes what the swap gave, and
//! `finish` checks the end and gives the payment out.

use vstd::prelude::*;
use crate::biguint::BigUint;
use crate::errors::ContractError;
use crate::structs::{
    buffers_copy,
    buffers_view,
    bytes_copy,
    bytes_eq,
    AggregatorStep,
    AggregatorStepModel,
    EgldOrEsdtTokenIdentifier,
    EgldOrEsdtTokenPayment,
    ManagedAddress,
    ManagedBuffer,
};
use crate::token_send::TokenSendModule;

verus! {

/// A payment as a plain value: token (`None` for EGLD), nonce, amount.
pub type PaymentModel = (Option<Seq<u8>>, u64, nat);

/// One run of `aggregate` as a plain value.
pub struct AggregateModel {
    /// The aggregator's own address: no step may swap through it.
    pub sc_address: Seq<u8>,
    /// What the caller paid.
    pub payment: PaymentModel,
    pub token_in: Option<Seq<u8>>,
    pub token_out: Option<Seq<u8>>,
    pub min_amount_out: nat,
    /// What is left of the payment for the first steps of routes.
    pub amount_in: nat,
    /// What the routes that are done gave.
    pub final_amount_out: nat,
    /// What the last swap gave.
    pub mid_step: nat,
    /// The token that the last swap gave.
    pub last_token_out: Option<Seq<u8>>,
    /// The token that the swap in flight gives, while one is.
    pub pending: Option<Option<Seq<u8>>>,
}

/// The start of a run: refused for an empty payment, for a payment in another
/// token than `token_in`, and where `token_in` is `token_out`, in that order.
pub open spec fn begin_spec(
    sc_address: Seq<u8>,
    payment: PaymentModel,
    token_in: Option<Seq<u8>>,
    token_out: Option<Seq<u8>>,
    min_amount_out: nat,
) -> Result<AggregateModel, ContractError> {
    if payment.2 == 0 {
        Err(ContractError::ZeroAmount)
    } else if payment.0 != token_in {
        Err(ContractError::InvalidTokenIn)
    } else if token_in == token_out {
        Err(ContractError::SameToken)
    } else {
        Ok(
            AggregateModel {
                sc_address: sc_address,
                payment: payment,
                token_in: token_in,
                token_out: token_out,
                min_amount_out: min_amount_out,
                amount_in: payment.2,
                final_amount_out: 0,
                mid_step: 0,
                last_token_out: token_out,
                pending: None,
            },
        )
    }
}

/// The run after a fee has been taken off the payment.
pub open spec fn fee_deducted(m: AggregateModel, fee: nat) -> AggregateModel {
    AggregateModel { amount_in: (m.amount_in - fee) as nat, ..m }
}

/// One step planned: the run after it, and the amount that goes into the
/// swap. A step with an `amount_in` starts a route: it takes that amount of
/// `token_in` from the payment, and the route before it must have ended in
/// `token_out`. A step without one goes on with all that the last swap gave.
pub open spec fn plan_spec(m: AggregateModel, s: AggregatorStepModel) -> Result<
    (AggregateModel, nat),
    ContractError,
> {
    if s.pool_address == m.sc_address {
        Err(ContractError::InvalidPoolAddr)
    } else if s.token_in == s.token_out {
        Err(ContractError::SameToken)
    } else if s.amount_in > 0 {
        if s.token_in != m.token_in {
            Err(ContractError::InvalidTokenIn)
        } else if m.amount_in < s.amount_in {
            Err(ContractError::InvalidAmountIn)
        } else if m.last_token_out != m.token_out {
            Err(ContractError::InvalidTokenOut)
        } else {
            Ok(
                (
                    AggregateModel {
                        amount_in: (m.amount_in - s.amount_in) as nat,
                        final_amount_out: m.final_amount_out + m.mid_step,
                        pending: Some(s.token_out),
                        ..m
                    },
                    s.amount_in,
                ),
            )
        }
    } else {
        if s.token_in == m.token_in {
            Err(ContractError::InvalidTokenIn)
        } else {
            Ok((AggregateModel { pending: Some(s.token_out), ..m }, m.mid_step))
        }
    }
}

/// What the swap in flight gave, taken: refused where it gave nothing.
pub open spec fn record_spec(m: AggregateModel, amount_out: nat) -> Result<
    AggregateModel,
    ContractError,
> {
    if amount_out == 0 {
        Err(ContractError::ZeroAmount)
    } else {
        Ok(
            AggregateModel {
                mid_step: amount_out,
                last_token_out: m.pending.unwrap(),
                pending: None,
                ..m
            },
        )
    }
}

/// The end of a run: all of the payment must have gone into routes, the last
/// route must end in `token_out`, and what the routes gave must reach the
/// caller's minimum.
pub open spec fn finish_spec(m: AggregateModel) -> Result<PaymentModel, ContractError> {
    if m.amount_in != 0 {
        Err(ContractError::InvalidSteps)
    } else if m.last_token_out != m.token_out {
        Err(ContractError::InvalidTokenOut)
    } else if m.min_amount_out > m.final_amount_out + m.mid_step {
        Err(ContractError::SlippageScrewYou)
    } else {
        Ok((m.token_out, 0u64, m.final_amount_out + m.mid_step))
    }
}

/// The steps from position `i` on, each planned and then given what its swap
/// returned (`outs[j]` for step `j`).
pub open spec fn run_from(
    m: AggregateModel,
    steps: Seq<AggregatorStepModel>,
    outs: Seq<nat>,
    i: int,
) -> Result<AggregateModel, ContractError>
    decreases steps.len() - i,
{
    if i >= steps.len() {
        Ok(m)
    } else {
        match plan_spec(m, steps[i]) {
            Err(e) => Err(e),
            Ok((m1, _)) => match record_spec(m1, outs[i]) {
                Err(e) => Err(e),
                Ok(m2) => run_from(m2, steps, outs, i + 1),
            },
        }
    }
}

/// A whole call of `aggregate`, where `fee` is taken off the payment first
/// and the swap of step `j` gives `outs[j]`.
pub open spec fn aggregate_outcome(
    sc_address: Seq<u8>,
    payment: PaymentModel,
    token_in: Option<Seq<u8>>,
    token_out: Option<Seq<u8>>,
    min_amount_out: nat,
    fee: nat,
    steps: Seq<AggregatorStepModel>,
    outs: Seq<nat>,
) -> Result<PaymentModel, ContractError> {
    match begin_spec(sc_address, payment, token_in, token_out, min_amount_out) {
        Err(e) => Err(e),
        Ok(m0) => match run_from(fee_deducted(m0, fee), steps, outs, 0) {
            Err(e) => Err(e),
            Ok(m) => finish_spec(m),
        },
    }
}

/// The sum of the `amount_in` of the steps from position `i` on.
pub open spec fn inputs_from(steps: Seq<AggregatorStepModel>, i: int) -> int
    decreases steps.len() - i,
{
    if i >= steps.len() {
        0
    } else {
        steps[i].amount_in + inputs_from(steps, i + 1)
    }
}

/// The sum of what the last swap of each route gave, over the steps from
/// position `i` on: step `j` ends a route where it is the last step or the
/// next one starts a route.
pub open spec fn route_ends_from(steps: Seq<AggregatorStepModel>, outs: Seq<nat>, i: int) -> int
    decreases steps.len() - i,
{
    if i >= steps.len() {
        0
    } else {
        (if i == steps.len() - 1 || steps[i + 1].amount_in > 0 {
            outs[i] as int
        } else {
            0
        }) + route_ends_from(steps, outs, i + 1)
    }
}

/// The steps from position `i` on pass the checks on tokens: a step that
/// starts a route swaps `token_in`, one that goes on swaps another token, and
/// a route followed by another ends in `token_out`.
pub open spec fn routes_checked(
    steps: Seq<AggregatorStepModel>,
    token_in: Option<Seq<u8>>,
    token_out: Option<Seq<u8>>,
    i: int,
) -> bool {
    forall|k: int|
        #![trigger steps[k]]
        i <= k < steps.len() ==> {
            &&& steps[k].amount_in > 0 ==> steps[k].token_in == token_in
            &&& steps[k].amount_in == 0 ==> steps[k].token_in != token_in
            &&& steps[k].token_in != steps[k].token_out
            &&& k + 1 < steps.len() && steps[k + 1].amount_in > 0 ==> steps[k].token_out
                == token_out
        }
}

proof fn lemma_run_from(
    m: AggregateModel,
    steps: Seq<AggregatorStepModel>,
    outs: Seq<nat>,
    i: int,
)
    requires
        m.pending is None,
        0 <= i <= steps.len(),
    ensures
        run_from(m, steps, outs, i) matches Ok(m2) ==> {
            &&& m2.pending is None
            &&& m2.token_in == m.token_in
            &&& m2.token_out == m.token_out
            &&& m2.min_amount_out == m.min_amount_out
            &&& m2.amount_in + inputs_from(steps, i) == m.amount_in
            &&& m2.final_amount_out + m2.mid_step == m.final_amount_out + (if i < steps.len()
                && steps[i].amount_in == 0 {
                0
            } else {
                m.mid_step as int
            }) + route_ends_from(steps, outs, i)
            &&& m2.last_token_out == if i < steps.len() {
                steps.last().token_out
            } else {
                m.last_token_out
            }
            &&& i < steps.len() && steps[i].amount_in > 0 ==> m.last_token_out == m.token_out
            &&& routes_checked(steps, m.token_in, m.token_out, i)
        },
    decreases steps.len() - i,
{
    if i < steps.len() {
        if let Ok((m1, _)) = plan_spec(m, steps[i]) {
            if let Ok(m2) = record_spec(m1, outs[i]) {
                lemma_run_from(m2, steps, outs, i + 1);
                if run_from(m, steps, outs, i) is Ok {
                    assert(m2.last_token_out == steps[i].token_out);
                    assert forall|k: int| i <= k < steps.len() implies {
                        &&& steps[k].amount_in > 0 ==> steps[k].token_in == m.token_in
                        &&& steps[k].amount_in == 0 ==> steps[k].token_in != m.token_in
                        &&& steps[k].token_in != steps[k].token_out
                        &&& k + 1 < steps.len() && steps[k + 1].amount_in > 0 ==> steps[k].token_out
                            == m.token_out
                    } by {
                        if k > i {
                            assert(routes_checked(steps, m2.token_in, m2.token_out, i + 1));
                        }
                    }
                }
            }
        }
    }
}

/// Of a call of `aggregate` that succeeds: it pays out `token_out`, at least
/// the caller's minimum; the `amount_in` of its steps and the fee add up to
/// exactly the payment; and what it pays out is the sum of what the last swap
/// of each route gave. Its steps pass the checks on tokens, and the last
/// route ends in `token_out`.
pub proof fn aggregate_law(
    sc_address: Seq<u8>,
    payment: PaymentModel,
    token_in: Option<Seq<u8>>,
    token_out: Option<Seq<u8>>,
    min_amount_out: nat,
    fee: nat,
    steps: Seq<AggregatorStepModel>,
    outs: Seq<nat>,
)
    requires
        fee <= payment.2,
    ensures
        aggregate_outcome(
            sc_address,
            payment,
            token_in,
            token_out,
            min_amount_out,
            fee,
            steps,
            outs,
        ) matches Ok(p) ==> {
            &&& p.0 == token_out
            &&& p.2 >= min_amount_out
            &&& inputs_from(steps, 0) + fee == payment.2
            &&& p.2 == route_ends_from(steps, outs, 0)
            &&& routes_checked(steps, token_in, token_out, 0)
            &&& steps.len() > 0 ==> steps.last().token_out == token_out
        },
{
    if let Ok(m0) = begin_spec(sc_address, payment, token_in, token_out, min_amount_out) {
        lemma_run_from(fee_deducted(m0, fee), steps, outs, 0);
    }
}

/// Of a call of `aggregate` whose payment is accepted and whose steps all pass
/// their checks: it succeeds exactly when the steps' `amount_in` and the fee use
/// up the payment, the last route ends in `token_out`, and the total over all
/// routes of what each route's last swap gave reaches the caller's minimum;
/// it then pays that total of `token_out`.
pub proof fn aggregate_slippage_law(
    sc_address: Seq<u8>,
    payment: PaymentModel,
    token_in: Option<Seq<u8>>,
    token_out: Option<Seq<u8>>,
    min_amount_out: nat,
    fee: nat,
    steps: Seq<AggregatorStepModel>,
    outs: Seq<nat>,
)
    requires
        fee <= payment.2,
        begin_spec(sc_address, payment, token_in, token_out, min_amount_out) matches Ok(m0)
            && run_from(fee_deducted(m0, fee), steps, outs, 0) is Ok,
    ensures
        aggregate_outcome(
            sc_address,
            payment,
            token_in,
            token_out,
            min_amount_out,
            fee,
            steps,
            outs,
        ) is Ok <==> {
            &&& inputs_from(steps, 0) + fee == payment.2
            &&& steps.len() > 0 ==> steps.last().token_out == token_out
            &&& min_amount_out <= route_ends_from(steps, outs, 0)
        },
        aggregate_outcome(
            sc_address,
            payment,
            token_in,
            token_out,
            min_amount_out,
            fee,
            steps,
            outs,
        ) is Ok ==> aggregate_outcome(
            sc_address,
            payment,
            token_in,
            token_out,
            min_amount_out,
            fee,
            steps,
            outs,
        ) == Ok::<PaymentModel, ContractError>((token_out, 0u64, route_ends_from(steps, outs, 0) as nat)),
{
    let m0 = begin_spec(sc_address, payment, token_in, token_out, min_amount_out)->Ok_0;
    let m = fee_deducted(m0, fee);
    lemma_run_from(m, steps, outs, 0);
    let mf = run_from(m, steps, outs, 0)->Ok_0;
    assert(mf.final_amount_out + mf.mid_step == route_ends_from(steps, outs, 0));
    assert(mf.amount_in == 0 <==> inputs_from(steps, 0) + fee == payment.2);
    assert(mf.last_token_out == token_out <==> (steps.len() > 0 ==> steps.last().token_out
        == token_out));
    assert(mf.token_out == token_out && mf.min_amount_out == min_amount_out);
    assert(aggregate_outcome(
        sc_address,
        payment,
        token_in,
        token_out,
        min_amount_out,
        fee,
        steps,
        outs,
    ) == finish_spec(mf));
}

/// The checks that one step passes by itself: it swaps through another
/// contract than the aggregator, between two different tokens; a step that
/// starts a route (`amount_in` above zero) swaps `token_in`, one that goes on
/// swaps another token; and its swap gives something back (`out`).
pub open spec fn step_passes(
    s: AggregatorStepModel,
    out: nat,
    sc_address: Seq<u8>,
    token_in: Option<Seq<u8>>,
) -> bool {
    &&& s.pool_address != sc_address
    &&& s.token_in != s.token_out
    &&& s.amount_in > 0 ==> s.token_in == token_in
    &&& s.amount_in == 0 ==> s.token_in != token_in
    &&& out > 0
}

/// The steps from position `i` on pass their own checks, and each route that
/// another route follows ends in `token_out`.
pub open spec fn steps_pass(
    steps: Seq<AggregatorStepModel>,
    outs: Seq<nat>,
    sc_address: Seq<u8>,
    token_in: Option<Seq<u8>>,
    token_out: Option<Seq<u8>>,
    i: int,
) -> bool {
    &&& forall|k: int|
        #![trigger steps[k]]
        i <= k < steps.len() ==> step_passes(steps[k], outs[k], sc_address, token_in)
    &&& forall|k: int|
        #![trigger steps[k]]
        i < k < steps.len() && steps[k].amount_in > 0 ==> steps[k - 1].token_out == token_out
}

proof fn lemma_inputs_nonneg(steps: Seq<AggregatorStepModel>, i: int)
    ensures
        inputs_from(steps, i) >= 0,
    decreases steps.len() - i,
{
    if i < steps.len() {
        lemma_inputs_nonneg(steps, i + 1);
    }
}

proof fn lemma_steps_pass_split(
    steps: Seq<AggregatorStepModel>,
    outs: Seq<nat>,
    sc_address: Seq<u8>,
    token_in: Option<Seq<u8>>,
    token_out: Option<Seq<u8>>,
    i: int,
)
    requires
        0 <= i < steps.len(),
    ensures
        steps_pass(steps, outs, sc_address, token_in, token_out, i) <==> {
            &&& step_passes(steps[i], outs[i], sc_address, token_in)
            &&& steps_pass(steps, outs, sc_address, token_in, token_out, i + 1)
            &&& i + 1 < steps.len() && steps[i + 1].amount_in > 0 ==> steps[i].token_out
                == token_out
        },
{
    if step_passes(steps[i], outs[i], sc_address, token_in) && steps_pass(
        steps,
        outs,
        sc_address,
        token_in,
        token_out,
        i + 1,
    ) && (i + 1 < steps.len() && steps[i + 1].amount_in > 0 ==> steps[i].token_out
        == token_out) {
        assert forall|k: int| i <= k < steps.len() implies step_passes(
            #[trigger] steps[k],
            outs[k],
            sc_address,
            token_in,
        ) by {
            if k > i {
                assert(steps[k] == steps[k]);
            }
        }
        assert forall|k: int| i < k < steps.len() && #[trigger] steps[k].amount_in > 0 implies steps[k
            - 1].token_out == token_out by {
            if k > i + 1 {
                assert(steps[k] == steps[k]);
            }
        }
    }
    if steps_pass(steps, outs, sc_address, token_in, token_out, i) && i + 1 < steps.len() {
        assert(steps[i + 1] == steps[i + 1]);
        assert(i + 1 - 1 == i);
    }
}

proof fn lemma_run_from_ok(
    m: AggregateModel,
    steps: Seq<AggregatorStepModel>,
    outs: Seq<nat>,
    i: int,
)
    requires
        m.pending is None,
        0 <= i <= steps.len(),
    ensures
        run_from(m, steps, outs, i) is Ok <==> {
            &&& steps_pass(steps, outs, m.sc_address, m.token_in, m.token_out, i)
            &&& i < steps.len() && steps[i].amount_in > 0 ==> m.last_token_out == m.token_out
            &&& inputs_from(steps, i) <= m.amount_in
        },
    decreases steps.len() - i,
{
    lemma_inputs_nonneg(steps, i);
    if i < steps.len() {
        let s = steps[i];
        lemma_inputs_nonneg(steps, i + 1);
        lemma_steps_pass_split(steps, outs, m.sc_address, m.token_in, m.token_out, i);
        if let Ok((m1, _)) = plan_spec(m, s) {
            if let Ok(m2) = record_spec(m1, outs[i]) {
                lemma_run_from_ok(m2, steps, outs, i + 1);
            }
        }
    }
}

/// When a call of `aggregate` succeeds, said over its inputs: the payment is
/// not empty and in `token_in`, which is not `token_out`; every step passes
/// its own checks and each route that another follows ends in `token_out`;
/// the steps' `amount_in` and the fee use up the payment; the last route ends
/// in `token_out`; and the total over routes of what each route's last swap
/// gave reaches the caller's minimum.
pub proof fn aggregate_accept_law(
    sc_address: Seq<u8>,
    payment: PaymentModel,
    token_in: Option<Seq<u8>>,
    token_out: Option<Seq<u8>>,
    min_amount_out: nat,
    fee: nat,
    steps: Seq<AggregatorStepModel>,
    outs: Seq<nat>,
)
    requires
        fee <= payment.2,
    ensures
        aggregate_outcome(
            sc_address,
            payment,
            token_in,
            token_out,
            min_amount_out,
            fee,
            steps,
            outs,
        ) is Ok <==> {
            &&& payment.2 > 0
            &&& payment.0 == token_in
            &&& token_in != token_out
            &&& steps_pass(steps, outs, sc_address, token_in, token_out, 0)
            &&& inputs_from(steps, 0) + fee == payment.2
            &&& steps.len() > 0 ==> steps.last().token_out == token_out
            &&& min_amount_out <= route_ends_from(steps, outs, 0)
        },
{
    if let Ok(m0) = begin_spec(sc_address, payment, token_in, token_out, min_amount_out) {
        let m = fee_deducted(m0, fee);
        lemma_run_from_ok(m, steps, outs, 0);
        lemma_run_from(m, steps, outs, 0);
        if run_from(m, steps, outs, 0) is Ok {
            aggregate_slippage_law(
                sc_address,
                payment,
                token_in,
                token_out,
                min_amount_out,
                fee,
                steps,
                outs,
            );
        }
    }
}

/// What a refused call of `aggregate` answers: an empty payment is refused
/// with `ZeroAmount`, a payment in another token than `token_in` with
/// `InvalidTokenIn`, `token_in` equal to `token_out` with `SameToken`, in
/// that order; a first step through the aggregator itself with
/// `InvalidPoolAddr`, and one between equal tokens with `SameToken`; steps
/// that all pass but leave part of the payment unused with `InvalidSteps`;
/// and steps that use it all, ending in `token_out`, whose routes give less
/// than the minimum in total with `SlippageScrewYou`.
pub proof fn aggregate_refusal_law(
    sc_address: Seq<u8>,
    payment: PaymentModel,
    token_in: Option<Seq<u8>>,
    token_out: Option<Seq<u8>>,
    min_amount_out: nat,
    fee: nat,
    steps: Seq<AggregatorStepModel>,
    outs: Seq<nat>,
)
    requires
        fee <= payment.2,
    ensures
        ({
            let r = aggregate_outcome(
                sc_address,
                payment,
                token_in,
                token_out,
                min_amount_out,
                fee,
                steps,
                outs,
            );
            let accepted = payment.2 > 0 && payment.0 == token_in && token_in != token_out;
            &&& payment.2 == 0 ==> r == Err::<PaymentModel, ContractError>(
                ContractError::ZeroAmount,
            )
            &&& payment.2 > 0 && payment.0 != token_in ==> r == Err::<PaymentModel, ContractError>(
                ContractError::InvalidTokenIn,
            )
            &&& payment.2 > 0 && payment.0 == token_in && token_in == token_out ==> r == Err::<
                PaymentModel,
                ContractError,
            >(ContractError::SameToken)
            &&& accepted && steps.len() > 0 && steps[0].pool_address == sc_address ==> r == Err::<
                PaymentModel,
                ContractError,
            >(ContractError::InvalidPoolAddr)
            &&& accepted && steps.len() > 0 && steps[0].pool_address != sc_address
                && steps[0].token_in == steps[0].token_out ==> r == Err::<
                PaymentModel,
                ContractError,
            >(ContractError::SameToken)
            &&& accepted && steps_pass(steps, outs, sc_address, token_in, token_out, 0)
                && inputs_from(steps, 0) + fee < payment.2 ==> r == Err::<
                PaymentModel,
                ContractError,
            >(ContractError::InvalidSteps)
            &&& accepted && steps_pass(steps, outs, sc_address, token_in, token_out, 0)
                && inputs_from(steps, 0) + fee == payment.2 && (steps.len() > 0
                ==> steps.last().token_out == token_out) && route_ends_from(steps, outs, 0)
                < min_amount_out ==> r == Err::<PaymentModel, ContractError>(
                ContractError::SlippageScrewYou,
            )
        }),
{
    if let Ok(m0) = begin_spec(sc_address, payment, token_in, token_out, min_amount_out) {
        let m = fee_deducted(m0, fee);
        lemma_run_from_ok(m, steps, outs, 0);
        lemma_run_from(m, steps, outs, 0);
    }
}

/// What each swap is handed: a step that starts a route hands its own
/// `amount_in` of `token_in`; a step that goes on hands all that the swap
/// before it gave, and, right after the start of a run (and the fee), nothing.
pub proof fn swap_input_law(
    m: AggregateModel,
    out: nat,
    s: AggregatorStepModel,
    sc_address: Seq<u8>,
    payment: PaymentModel,
    token_in: Option<Seq<u8>>,
    token_out: Option<Seq<u8>>,
    min_amount_out: nat,
    fee: nat,
)
    requires
        m.pending is Some,
    ensures
        record_spec(m, out) matches Ok(m1) ==> (plan_spec(m1, s) matches Ok((_, a)) ==> a == if s.amount_in
            > 0 {
            s.amount_in
        } else {
            out
        }),
        begin_spec(sc_address, payment, token_in, token_out, min_amount_out) matches Ok(m0) ==> (
        plan_spec(fee_deducted(m0, fee), s) matches Ok((_, a)) ==> a == s.amount_in),
{
}

/// A swap to make: `payment` goes to `function_name(arguments)` of the
/// contract at `pool_address`, which gives `token_out` back.
#[derive(Clone, Debug)]
pub struct SwapCall {
    pub pool_address: ManagedAddress,
    pub function_name: ManagedBuffer,
    pub arguments: Vec<ManagedBuffer>,
    pub payment: EgldOrEsdtTokenPayment,
    pub token_out: EgldOrEsdtTokenIdentifier,
}

/// What `aggregate` reports of a call: the payment taken and the payment given.
#[derive(Clone, Debug)]
pub struct AggregatorEvent {
    pub payment_in: EgldOrEsdtTokenPayment,
    pub payment_out: EgldOrEsdtTokenPayment,
}

/// One run of `aggregate`.
#[derive(Clone, Debug)]
pub struct AggregateRun {
    sc_address: ManagedAddress,
    payment: EgldOrEsdtTokenPayment,
    token_in: EgldOrEsdtTokenIdentifier,
    token_out: EgldOrEsdtTokenIdentifier,
    min_amount_out: BigUint,
    amount_in: BigUint,
    final_amount_out: BigUint,
    mid_step: BigUint,
    last_token_out: EgldOrEsdtTokenIdentifier,
    pending: Option<EgldOrEsdtTokenIdentifier>,
}

impl View for AggregateRun {
    type V = AggregateModel;

    closed spec fn view(&self) -> AggregateModel {
        AggregateModel {
            sc_address: self.sc_address@,
            payment: self.payment@,
            token_in: self.token_in@,
            token_out: self.token_out@,
            min_amount_out: self.min_amount_out@,
            amount_in: self.amount_in@,
            final_amount_out: self.final_amount_out@,
            mid_step: self.mid_step@,
            last_token_out: self.last_token_out@,
            pending: match self.pending {
                Some(t) => Some(t@),
                None => None,
            },
        }
    }
}

impl AggregateRun {
    /// Starts a run of `aggregate` in the contract at `sc_address` for the
    /// caller's `payment`.
    pub fn begin(
        sc_address: ManagedAddress,
        payment: EgldOrEsdtTokenPayment,
        token_in: EgldOrEsdtTokenIdentifier,
        token_out: EgldOrEsdtTokenIdentifier,
        min_amount_out: BigUint,
    ) -> (r: Result<AggregateRun, ContractError>)
        ensures
            match begin_spec(sc_address@, payment@, token_in@, token_out@, min_amount_out@) {
                Ok(m) => r is Ok && r.unwrap()@ == m,
                Err(e) => r == Err::<AggregateRun, ContractError>(e),
            },
    {
        if payment.amount.is_zero() {
            return Err(ContractError::ZeroAmount);
        }
        if !payment.token_identifier.same_as(&token_in) {
            return Err(ContractError::InvalidTokenIn);
        }
        if token_in.same_as(&token_out) {
            return Err(ContractError::SameToken);
        }
        let amount_in = payment.amount.copy();
        let last_token_out = token_out.duplicate();
        Ok(
            AggregateRun {
                sc_address,
                payment,
                token_in,
                token_out,
                min_amount_out,
                amount_in,
                final_amount_out: BigUint::zero(),
                mid_step: BigUint::zero(),
                last_token_out,
                pending: None,
            },
        )
    }

    /// Takes a protocol's fee, AshSwap's part and the protocol's part, off the
    /// payment before any step.
    pub fn deduct_fee(&mut self, ash_fee: &BigUint, protocol_fee: &BigUint)
        requires
            old(self)@.pending is None,
            ash_fee@ + protocol_fee@ <= old(self)@.amount_in,
        ensures
            final(self)@ == fee_deducted(old(self)@, ash_fee@ + protocol_fee@),
    {
        let fee = ash_fee.plus(protocol_fee);
        self.amount_in = self.amount_in.minus(&fee);
    }

    /// Checks a step and says which swap to make for it.
    pub fn plan_step(&mut self, step: &AggregatorStep) -> (r: Result<SwapCall, ContractError>)
        requires
            old(self)@.pending is None,
        ensures
            match plan_spec(old(self)@, step@) {
                Ok((m, amount)) => r matches Ok(call) && final(self)@ == m
                    && call.pool_address@ == step.pool_address@ && call.function_name@
                    == step.function_name@ && buffers_view(call.arguments@) == step@.arguments
                    && call.payment@ == (step.token_in@, 0u64, amount) && call.token_out@
                    == step.token_out@,
                Err(e) => r matches Err(e2) && e2 == e && final(self)@ == old(self)@,
            },
    {
        if bytes_eq(&step.pool_address, &self.sc_address) {
            return Err(ContractError::InvalidPoolAddr);
        }
        if step.token_in.same_as(&step.token_out) {
            return Err(ContractError::SameToken);
        }
        let amount_in_step: BigUint;
        if !step.amount_in.is_zero() {
            if !step.token_in.same_as(&self.token_in) {
                return Err(ContractError::InvalidTokenIn);
            }
            if self.amount_in.less_than(&step.amount_in) {
                return Err(ContractError::InvalidAmountIn);
            }
            if !self.last_token_out.same_as(&self.token_out) {
                return Err(ContractError::InvalidTokenOut);
            }
            self.amount_in = self.amount_in.minus(&step.amount_in);
            amount_in_step = step.amount_in.copy();
            self.final_amount_out = self.final_amount_out.plus(&self.mid_step);
        } else {
            if step.token_in.same_as(&self.token_in) {
                return Err(ContractError::InvalidTokenIn);
            }
            amount_in_step = self.mid_step.copy();
        }
        self.pending = Some(step.token_out.duplicate());
        Ok(
            SwapCall {
                pool_address: bytes_copy(&step.pool_address),
                function_name: bytes_copy(&step.function_name),
                arguments: buffers_copy(&step.arguments),
                payment: EgldOrEsdtTokenPayment::new(step.token_in.duplicate(), 0, amount_in_step),
                token_out: step.token_out.duplicate(),
            },
        )
    }

    /// Takes what the swap in flight gave: the aggregator's balance of the
    /// swap's `token_out` before and after it.
    pub fn record_swap(&mut self, before_balance: &BigUint, after_balance: &BigUint) -> (r: Result<
        (),
        ContractError,
    >)
        requires
            old(self)@.pending is Some,
            before_balance@ <= after_balance@,
        ensures
            match record_spec(old(self)@, (after_balance@ - before_balance@) as nat) {
                Ok(m) => r is Ok && final(self)@ == m,
                Err(e) => r == Err::<(), ContractError>(e) && final(self)@ == old(self)@,
            },
    {
        let amount_out = after_balance.minus(before_balance);
        if amount_out.is_zero() {
            return Err(ContractError::ZeroAmount);
        }
        let token = match &self.pending {
            Some(t) => t.duplicate(),
            None => EgldOrEsdtTokenIdentifier::Egld,
        };
        self.mid_step = amount_out;
        self.last_token_out = token;
        self.pending = None;
        Ok(())
    }

    /// Ends the run: the payment that goes to the caller.
    pub fn finish(&self) -> (r: Result<EgldOrEsdtTokenPayment, ContractError>)
        requires
            self@.pending is None,
        ensures
            match finish_spec(self@) {
                Ok(p) => r matches Ok(out) && out@ == p,
                Err(e) => r matches Err(e2) && e2 == e,
            },
    {
        if !self.amount_in.is_zero() {
            return Err(ContractError::InvalidSteps);
        }
        if !self.last_token_out.same_as(&self.token_out) {
            return Err(ContractError::InvalidTokenOut);
        }
        let final_amount_out = self.final_amount_out.plus(&self.mid_step);
        if final_amount_out.less_than(&self.min_amount_out) {
            return Err(ContractError::SlippageScrewYou);
        }
        Ok(EgldOrEsdtTokenPayment::new(self.token_out.duplicate(), 0, final_amount_out))
    }

    /// What the run reports once `finish` has given `payment_out`.
    pub fn event(&self, payment_out: &EgldOrEsdtTokenPayment) -> (r: AggregatorEvent)
        ensures
            r.payment_in@ == self@.payment,
            r.payment_out@ == payment_out@,
    {
        AggregatorEvent { payment_in: self.payment.duplicate(), payment_out: payment_out.duplicate() }
    }
}

/// The aggregator contract: it knows the fee contract that it charges
/// protocols' fees through.
#[derive(Clone, Debug)]
pub struct AggregatorContract {
    fee_address: ManagedAddress,
}

impl TokenSendModule for AggregatorContract {

}

impl AggregatorContract {
    /// Deploys the aggregator with the fee contract's address.
    pub fn init(fee_address: ManagedAddress) -> (r: AggregatorContract)
        ensures
            r.spec_fee_address() == fee_address@,
    {
        AggregatorContract { fee_address }
    }

    /// The fee contract's address.
    pub closed spec fn spec_fee_address(&self) -> Seq<u8> {
        self.fee_address@
    }

    /// The fee contract's address.
    pub fn fee_address(&self) -> (r: ManagedAddress)
        ensures
            r@ == self.spec_fee_address(),
    {
        bytes_copy(&self.fee_address)
    }
}

} // verus!
