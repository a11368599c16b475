//! The fee contract: it keeps, for AshSwap and for each registered protocol,
//! a ledger of the fees charged per token, and pays them out on a claim.

use vstd::prelude::*;
use vstd::arithmetic::div_mod::lemma_fundamental_div_mod;
use crate::biguint::BigUint;
use crate::errors::ContractError;
use crate::ledger::{
    amount_of,
    esdt_count,
    has_token,
    ledger_sum,
    lemma_amount_absent,
    lemma_claim_scan_all,
    lemma_claim_scan_count,
    lemma_claim_scan_range,
    lemma_distinct_subrange,
    lemma_ledger_added,
    lemma_sum_concat,
    lemma_sum_esdt_egld,
    lemma_sum_without_token,
    lemma_sum_without_tokens,
    lemma_without_tokens_amount,
    lemma_without_tokens_distinct,
    claim_batch,
    claim_batch_len,
    claim_tokens,
    claims_by_tokens,
    distinct_tokens,
    esdt_payments_of,
    batch_egld,
    batch_payments,
    batch_remaining,
    tokens_egld,
    first_occurrences,
    lemma_claim_all_tokens,
    lemma_first_occurrences_claim,
    lemma_first_occurrences_contains,
    ledger_tokens,
    ledger_add,
    ledger_added,
    ledger_copy,
    ledger_is_distinct,
    ledger_view,
    ledger_window,
    ledger_window_law,
    ledger_window_of,
    tokens_view,
    without_token,
    without_tokens,
    Entry,
};
use crate::structs::{
    bytes_copy,
    bytes_eq,
    is_zero_address,
    spec_is_zero_address,
    EgldOrEsdtTokenIdentifier,
    EgldOrEsdtTokenPayment,
    EsdtTokenPayment,
    ManagedAddress,
    TokenAmount,
};
use crate::token_send::{
    lemma_non_zero_total,
    non_zero_payments,
    payments_total,
    payments_view,
    TokenSendModule,
};

verus! {

/// Fee percents are counted in thousandths of a percent: this is 100%.
pub const MAX_FEE_PERCENT: u64 = 100_000;

/// A batch claim pays the ESDT entries up to and including the one after
/// this many.
pub const CLAIM_BATCH_SIZE: usize = 50;

/// `amount * percent / MAX_FEE_PERCENT`, rounded down.
pub open spec fn fee_share(amount: int, percent: int) -> int {
    amount * percent / (MAX_FEE_PERCENT as int)
}

/// The fee that a swap of `amount` pays through a protocol of fee percent
/// `fee_percent`: the AshSwap part, `ashswap_percent` of the total, and the
/// protocol's part, the rest.
pub open spec fn fee_split(amount: int, fee_percent: int, ashswap_percent: int) -> (int, int) {
    let total = fee_share(amount, fee_percent);
    let ashswap = fee_share(total, ashswap_percent);
    (ashswap, total - ashswap)
}

/// `amount * percent / MAX_FEE_PERCENT`.
pub fn share_of(amount: &BigUint, percent: u64) -> (r: BigUint)
    requires
        percent <= MAX_FEE_PERCENT,
    ensures
        r@ == fee_share(amount@ as int, percent as int),
        r@ * 100_000 <= amount@ * percent < (r@ + 1) * 100_000,
        r@ <= amount@,
{
    let product = amount.times_u32(percent as u32);
    let (q, rem) = product.div_rem_u32(100_000);
    proof {
        let a = amount@ as int;
        let pi = percent as int;
        let qi = q@ as int;
        lemma_fundamental_div_mod(a * pi, 100_000);
        assert(qi * 100_000 == 100_000 * qi) by (nonlinear_arith);
        assert((qi + 1) * 100_000 == qi * 100_000 + 100_000) by (nonlinear_arith);
        assert(qi <= a) by (nonlinear_arith)
            requires
                a * pi == 100_000 * qi + rem,
                0 <= rem,
                0 <= pi <= 100_000,
                a >= 0,
        ;
    }
    q
}

/// How a fee is split, for percents up to 100%: the total is the fee percent
/// of the amount, in thousandths of a percent, rounded down; AshSwap's part is
/// `ashswap_percent` of the total, rounded down; the protocol's part is the
/// rest, and neither part is negative.
pub proof fn fee_split_law(amount: nat, fee_percent: nat, ashswap_percent: nat)
    requires
        fee_percent <= 100_000,
        ashswap_percent <= 100_000,
    ensures
        ({
            let (ash, prot) = fee_split(amount as int, fee_percent as int, ashswap_percent as int);
            let total = ash + prot;
            &&& 0 <= ash
            &&& 0 <= prot
            &&& total * 100_000 <= amount * fee_percent < (total + 1) * 100_000
            &&& ash * 100_000 <= total * ashswap_percent < (ash + 1) * 100_000
        }),
{
    let a = amount as int;
    let f = fee_percent as int;
    let p = ashswap_percent as int;
    let total = fee_share(a, f);
    let ash = fee_share(total, p);
    lemma_fundamental_div_mod(a * f, 100_000);
    assert(total >= 0) by (nonlinear_arith)
        requires
            a * f == 100_000 * total + (a * f) % 100_000,
            0 <= (a * f) % 100_000 < 100_000,
            a >= 0,
            f >= 0,
    ;
    lemma_fundamental_div_mod(total * p, 100_000);
    assert(0 <= ash <= total) by (nonlinear_arith)
        requires
            total * p == 100_000 * ash + (total * p) % 100_000,
            0 <= (total * p) % 100_000 < 100_000,
            total >= 0,
            0 <= p <= 100_000,
    ;
    assert(total * 100_000 <= a * f < (total + 1) * 100_000) by (nonlinear_arith)
        requires
            a * f == 100_000 * total + (a * f) % 100_000,
            0 <= (a * f) % 100_000 < 100_000,
    ;
    assert(ash * 100_000 <= total * p < (ash + 1) * 100_000) by (nonlinear_arith)
        requires
            total * p == 100_000 * ash + (total * p) % 100_000,
            0 <= (total * p) % 100_000 < 100_000,
    ;
}

/// In a state where no address is registered twice, a registered address is
/// found at its one position.
pub proof fn lemma_protocol_lookup(m: FeeModel, b: Seq<u8>, j: int)
    requires
        m.wf(),
        0 <= j < m.protocols.len(),
        m.protocols[j].address == b,
    ensures
        m.is_registered(b),
        m.protocol_index(b) == j,
        m.protocol(b) == m.protocols[j],
{
    assert(m.is_registered(b));
    let k = m.protocol_index(b);
    if k != j {
        assert(m.protocols[k].address == m.protocols[j].address);
    }
}

/// A registered protocol's address is never the zero address, so that
/// registering it again with a percent up to `MAX_FEE_PERCENT` succeeds.
pub proof fn registered_address_law(m: FeeModel, a: Seq<u8>)
    requires
        m.wf(),
        m.is_registered(a),
    ensures
        !spec_is_zero_address(a),
{
    let j = m.protocol_index(a);
    assert(m.protocols[j].address == a);
}

/// Registering a protocol at an address other than the zero address, with a
/// percent up to `MAX_FEE_PERCENT`: it is registered with the new percent and
/// keeps what it could claim; no other address changes; the state stays well
/// formed.
pub proof fn register_law(m: FeeModel, a: Seq<u8>, p: u64)
    requires
        m.wf(),
        p <= MAX_FEE_PERCENT,
        !spec_is_zero_address(a),
    ensures
        m.with_protocol_registered(a, p).wf(),
        m.with_protocol_registered(a, p).is_registered(a),
        m.with_protocol_registered(a, p).protocol_fee_percent(a) == p,
        forall|t: Option<Seq<u8>>|
            m.with_protocol_registered(a, p).claimable_protocol_fee(a, t)
                == m.claimable_protocol_fee(a, t),
        forall|b: Seq<u8>|
            b != a ==> #[trigger] m.with_protocol_registered(a, p).protocol_fee_percent(b)
                == m.protocol_fee_percent(b),
        forall|b: Seq<u8>, t: Option<Seq<u8>>|
            b != a ==> #[trigger] m.with_protocol_registered(a, p).claimable_protocol_fee(b, t)
                == m.claimable_protocol_fee(b, t),
{
    let m1 = m.with_protocol_registered(a, p);
    let ps = m1.protocols;
    let j = if m.is_registered(a) {
        m.protocol_index(a)
    } else {
        m.protocols.len() as int
    };
    if m.is_registered(a) {
        lemma_protocol_lookup(m, a, m.protocol_index(a));
    }
    assert(ps.len() == if m.is_registered(a) {
        m.protocols.len()
    } else {
        m.protocols.len() + 1
    });
    assert(forall|k: int| 0 <= k < ps.len() && k != j ==> ps[k] == m.protocols[k]);
    assert(ps[j].address == a && ps[j].fee_percent == p);
    assert(m1.wf()) by {
        assert forall|x: int, y: int|
            0 <= x < ps.len() && 0 <= y < ps.len() && x != y implies ps[x].address
            != ps[y].address by {
            if x != j && y != j {
                assert(ps[x] == m.protocols[x] && ps[y] == m.protocols[y]);
            } else if x == j {
                assert(ps[y] == m.protocols[y]);
                if m.protocols[y].address == a {
                    lemma_protocol_lookup(m, a, y);
                }
            } else {
                assert(ps[x] == m.protocols[x]);
                if m.protocols[x].address == a {
                    lemma_protocol_lookup(m, a, x);
                }
            }
        }
        assert forall|k: int| 0 <= k < ps.len() implies distinct_tokens(#[trigger] ps[k].fees)
            && ps[k].fee_percent <= MAX_FEE_PERCENT && !spec_is_zero_address(ps[k].address) by {
            if k != j {
                assert(ps[k] == m.protocols[k]);
            } else if m.is_registered(a) {
                assert(ps[k].fees == m.protocols[k].fees);
            } else {
                assert(ps[k].fees == Seq::<Entry>::empty());
            }
        }
    }
    lemma_protocol_lookup(m1, a, j);
    assert forall|t: Option<Seq<u8>>|
        m1.claimable_protocol_fee(a, t) == m.claimable_protocol_fee(a, t) by {
        if !m.is_registered(a) {
            assert(!has_token(Seq::<Entry>::empty(), t));
            lemma_amount_absent(Seq::<Entry>::empty(), t);
        }
    }
    assert forall|b: Seq<u8>, t: Option<Seq<u8>>| b != a implies #[trigger] m1.claimable_protocol_fee(b, t)
        == m.claimable_protocol_fee(b, t) && m1.protocol_fee_percent(b)
        == m.protocol_fee_percent(b) by {
        if m.is_registered(b) {
            let k = m.protocol_index(b);
            lemma_protocol_lookup(m, b, k);
            assert(k != j);
            assert(ps[k] == m.protocols[k]);
            lemma_protocol_lookup(m1, b, k);
        }
        if m1.is_registered(b) {
            let k = m1.protocol_index(b);
            assert(k != j);
            assert(ps[k] == m.protocols[k]);
            lemma_protocol_lookup(m, b, k);
        }
    }
    assert forall|b: Seq<u8>| b != a implies #[trigger] m1.protocol_fee_percent(b)
        == m.protocol_fee_percent(b) by {
        assert(m1.claimable_protocol_fee(b, None) == m.claimable_protocol_fee(b, None));
    }
}

/// Charging a swap's fee in token `t`: the protocol can claim `protocol_fee`
/// more of `t`, AshSwap `ash_fee` more; nothing else changes.
pub proof fn charge_law(
    m: FeeModel,
    a: Seq<u8>,
    t: Option<Seq<u8>>,
    ash_fee: nat,
    protocol_fee: nat,
)
    requires
        m.wf(),
        m.is_registered(a),
    ensures
        m.with_fee_charged(a, t, ash_fee, protocol_fee).wf(),
        forall|u: Option<Seq<u8>>|
            m.with_fee_charged(a, t, ash_fee, protocol_fee).claimable_protocol_fee(a, u)
                == m.claimable_protocol_fee(a, u) + if u == t {
                protocol_fee as int
            } else {
                0
            },
        forall|u: Option<Seq<u8>>|
            m.with_fee_charged(a, t, ash_fee, protocol_fee).claimable_ashswap_fee(u)
                == m.claimable_ashswap_fee(u) + if u == t {
                ash_fee as int
            } else {
                0
            },
        forall|b: Seq<u8>, u: Option<Seq<u8>>|
            b != a ==> m.with_fee_charged(a, t, ash_fee, protocol_fee).claimable_protocol_fee(b, u)
                == m.claimable_protocol_fee(b, u),
        forall|b: Seq<u8>|
            m.with_fee_charged(a, t, ash_fee, protocol_fee).protocol_fee_percent(b)
                == m.protocol_fee_percent(b),
{
    let m1 = m.with_fee_charged(a, t, ash_fee, protocol_fee);
    let j = m.protocol_index(a);
    lemma_protocol_lookup(m, a, j);
    let ps = m1.protocols;
    assert(distinct_tokens(m.protocols[j].fees));
    assert forall|u: Option<Seq<u8>>|
        #[trigger] amount_of(ps[j].fees, u) == amount_of(m.protocols[j].fees, u) + (if u == t {
            protocol_fee as int
        } else {
            0
        }) by {
        lemma_ledger_added(m.protocols[j].fees, t, protocol_fee, u);
    }
    assert forall|u: Option<Seq<u8>>|
        #[trigger] m1.claimable_ashswap_fee(u) == m.claimable_ashswap_fee(u) + (if u == t {
            ash_fee as int
        } else {
            0
        }) by {
        lemma_ledger_added(m.ashswap_fee, t, ash_fee, u);
    }
    lemma_ledger_added(m.protocols[j].fees, t, protocol_fee, t);
    lemma_ledger_added(m.ashswap_fee, t, ash_fee, t);
    assert(m1.wf()) by {
        assert forall|x: int, y: int|
            0 <= x < ps.len() && 0 <= y < ps.len() && x != y implies ps[x].address
            != ps[y].address by {
            assert(ps[x].address == m.protocols[x].address);
            assert(ps[y].address == m.protocols[y].address);
        }
        assert forall|k: int| 0 <= k < ps.len() implies distinct_tokens(#[trigger] ps[k].fees)
            && ps[k].fee_percent <= MAX_FEE_PERCENT && !spec_is_zero_address(ps[k].address) by {
            if k != j {
                assert(ps[k] == m.protocols[k]);
            }
        }
    }
    lemma_protocol_lookup(m1, a, j);
    assert forall|b: Seq<u8>, u: Option<Seq<u8>>|
        b != a implies m1.claimable_protocol_fee(b, u) == m.claimable_protocol_fee(b, u) by {
        if m.is_registered(b) {
            let k = m.protocol_index(b);
            lemma_protocol_lookup(m, b, k);
            assert(ps[k] == m.protocols[k]);
            lemma_protocol_lookup(m1, b, k);
        }
        if m1.is_registered(b) {
            let k = m1.protocol_index(b);
            assert(ps[k].address == m.protocols[k].address);
            lemma_protocol_lookup(m, b, k);
        }
    }
    assert forall|b: Seq<u8>| m1.protocol_fee_percent(b) == m.protocol_fee_percent(b) by {
        if m.is_registered(b) {
            let k = m.protocol_index(b);
            lemma_protocol_lookup(m, b, k);
            assert(ps[k].fee_percent == m.protocols[k].fee_percent);
            assert(ps[k].address == m.protocols[k].address);
            lemma_protocol_lookup(m1, b, k);
        }
        if m1.is_registered(b) {
            let k = m1.protocol_index(b);
            assert(ps[k].address == m.protocols[k].address);
            lemma_protocol_lookup(m, b, k);
        }
    }
}

/// What the protocols of a list can claim of a token, together.
pub open spec fn protocols_booked(ps: Seq<ProtocolFeeModel>, t: Option<Seq<u8>>) -> int
    decreases ps.len(),
{
    if ps.len() == 0 {
        0
    } else {
        protocols_booked(ps.drop_last(), t) + amount_of(ps.last().fees, t)
    }
}

/// Replacing one protocol of a list changes what they hold together by what
/// the two differ.
proof fn lemma_protocols_booked_update(
    ps: Seq<ProtocolFeeModel>,
    j: int,
    q: ProtocolFeeModel,
    u: Option<Seq<u8>>,
)
    requires
        0 <= j < ps.len(),
    ensures
        protocols_booked(ps.update(j, q), u) == protocols_booked(ps, u) - amount_of(ps[j].fees, u)
            + amount_of(q.fees, u),
    decreases ps.len(),
{
    let n = ps.update(j, q);
    if j == ps.len() - 1 {
        assert(n.drop_last() =~= ps.drop_last());
    } else {
        assert(n.drop_last() =~= ps.drop_last().update(j, q));
        lemma_protocols_booked_update(ps.drop_last(), j, q, u);
    }
}

/// Charging a fee books exactly the payment, `ash_fee + protocol_fee`, more
/// of the paid token over AshSwap's and all protocols' ledgers together, and
/// nothing more of any other token.
pub proof fn charge_booked_law(
    m: FeeModel,
    a: Seq<u8>,
    t: Option<Seq<u8>>,
    ash_fee: nat,
    protocol_fee: nat,
)
    requires
        m.wf(),
        m.is_registered(a),
    ensures
        ({
            let m1 = m.with_fee_charged(a, t, ash_fee, protocol_fee);
            &&& m1.claimable_ashswap_fee(t) + protocols_booked(m1.protocols, t)
                == m.claimable_ashswap_fee(t) + protocols_booked(m.protocols, t) + ash_fee
                + protocol_fee
            &&& forall|u: Option<Seq<u8>>|
                u != t ==> m1.claimable_ashswap_fee(u) + protocols_booked(m1.protocols, u)
                    == m.claimable_ashswap_fee(u) + protocols_booked(m.protocols, u)
        }),
{
    let m1 = m.with_fee_charged(a, t, ash_fee, protocol_fee);
    charge_law(m, a, t, ash_fee, protocol_fee);
    let j = m.protocol_index(a);
    lemma_protocol_lookup(m, a, j);
    lemma_protocol_lookup(m1, a, j);
    let q = m1.protocols[j];
    assert(m1.protocols == m.protocols.update(j, q));
    assert forall|u: Option<Seq<u8>>|
        #[trigger] protocols_booked(m1.protocols, u) == protocols_booked(m.protocols, u)
            + (if u == t {
            protocol_fee as int
        } else {
            0
        }) by {
        lemma_protocols_booked_update(m.protocols, j, q, u);
        assert(m1.claimable_protocol_fee(a, u) == amount_of(q.fees, u));
        assert(m.claimable_protocol_fee(a, u) == amount_of(m.protocols[j].fees, u));
    }
    assert(protocols_booked(m1.protocols, t) == protocols_booked(m.protocols, t) + protocol_fee);
}

/// A fee charged in token `t` and then claimed by listing `t` alone: the
/// protocol is paid what it could claim of `t` before plus `protocol_fee`,
/// AshSwap what it could claim before plus `ash_fee` (as one ESDT payment, or
/// as EGLD where `t` is EGLD).
pub proof fn charge_then_claim_law(
    m: FeeModel,
    a: Seq<u8>,
    t: Option<Seq<u8>>,
    ash_fee: nat,
    protocol_fee: nat,
)
    requires
        m.wf(),
        m.is_registered(a),
    ensures
        ({
            let m1 = m.with_fee_charged(a, t, ash_fee, protocol_fee);
            let ts = seq![t];
            &&& t matches Some(id) ==> claims_by_tokens(m1.protocol(a).fees, ts) == seq![
                (id, 0u64, m.claimable_protocol_fee(a, t) + protocol_fee),
            ]
            &&& t matches Some(id) ==> claims_by_tokens(m1.ashswap_fee, ts) == seq![
                (id, 0u64, m.claimable_ashswap_fee(t) + ash_fee),
            ]
            &&& t is None ==> claims_by_tokens(m1.protocol(a).fees, ts) == Seq::<
                (Seq<u8>, u64, nat),
            >::empty() && amount_of(m1.protocol(a).fees, None) == m.claimable_protocol_fee(a, t)
                + protocol_fee && amount_of(m1.ashswap_fee, None) == m.claimable_ashswap_fee(t)
                + ash_fee
        }),
{
    let m1 = m.with_fee_charged(a, t, ash_fee, protocol_fee);
    charge_law(m, a, t, ash_fee, protocol_fee);
    lemma_protocol_lookup(m1, a, m.protocol_index(a));
    let ts = seq![t];
    assert(ts.drop_last() =~= Seq::<Option<Seq<u8>>>::empty());
    assert(!Seq::<Option<Seq<u8>>>::empty().contains(t));
    assert(m1.claimable_protocol_fee(a, t) == m.claimable_protocol_fee(a, t) + protocol_fee);
    assert(m1.claimable_ashswap_fee(t) == m.claimable_ashswap_fee(t) + ash_fee);
    let e = Seq::<Option<Seq<u8>>>::empty();
    let lp = m1.protocol(a).fees;
    let la = m1.ashswap_fee;
    assert(claims_by_tokens(lp, e) == Seq::<(Seq<u8>, u64, nat)>::empty());
    assert(claims_by_tokens(la, e) == Seq::<(Seq<u8>, u64, nat)>::empty());
    assert(ts.last() == t);
    assert(ts.len() == 1);
    if let Some(id) = t {
        assert(claims_by_tokens(lp, ts) == Seq::<(Seq<u8>, u64, nat)>::empty().push(
            (id, 0u64, amount_of(lp, t)),
        ));
        assert(claims_by_tokens(la, ts) == Seq::<(Seq<u8>, u64, nat)>::empty().push(
            (id, 0u64, amount_of(la, t)),
        ));
        assert(Seq::<(Seq<u8>, u64, nat)>::empty().push((id, 0u64, amount_of(lp, t))) =~= seq![
            (id, 0u64, amount_of(lp, t)),
        ]);
        assert(Seq::<(Seq<u8>, u64, nat)>::empty().push((id, 0u64, amount_of(la, t))) =~= seq![
            (id, 0u64, amount_of(la, t)),
        ]);
    }
}

/// A claim of the listed tokens, of a ledger free of repeats: afterwards
/// nothing is left of a listed token and the others keep their amounts; what
/// is sent, ESDT and EGLD together, is exactly what left the ledger.
pub proof fn claim_tokens_law(l: Seq<Entry>, ts: Seq<Option<Seq<u8>>>)
    requires
        distinct_tokens(l),
    ensures
        distinct_tokens(without_tokens(l, ts)),
        forall|u: Option<Seq<u8>>|
            #[trigger] amount_of(without_tokens(l, ts), u) == if ts.contains(u) {
                0
            } else {
                amount_of(l, u)
            },
        ledger_sum(l) == ledger_sum(without_tokens(l, ts)) + payments_total(
            non_zero_payments(claims_by_tokens(l, ts)),
        ) + if ts.contains(None) {
            amount_of(l, None) as int
        } else {
            0
        },
        ledger_sum(l) == ledger_sum(without_tokens(l, ts)) + payments_total(
            non_zero_payments(claims_by_tokens(l, ts)),
        ) + tokens_egld(l, ts),
{
    lemma_without_tokens_distinct(l, ts);
    assert forall|u: Option<Seq<u8>>|
        #[trigger] amount_of(without_tokens(l, ts), u) == if ts.contains(u) {
            0
        } else {
            amount_of(l, u)
        } by {
        lemma_without_tokens_amount(l, ts, u);
    }
    lemma_sum_without_tokens(l, ts);
    lemma_non_zero_total(claims_by_tokens(l, ts));
}

/// Listing a token more than once in a claim by tokens changes nothing: the
/// claim leaves the ledger as, and pays (ESDT payments of amount zero left
/// out, and EGLD) what, a claim of the list without its repeats does.
pub proof fn claim_repeated_tokens_law(l: Seq<Entry>, ts: Seq<Option<Seq<u8>>>)
    requires
        distinct_tokens(l),
    ensures
        without_tokens(l, ts) == without_tokens(l, first_occurrences(ts)),
        non_zero_payments(claims_by_tokens(l, ts)) == non_zero_payments(
            claims_by_tokens(l, first_occurrences(ts)),
        ),
        ts.contains(None) <==> first_occurrences(ts).contains(None),
        tokens_egld(l, ts) == tokens_egld(l, first_occurrences(ts)),
{
    lemma_first_occurrences_claim(l, ts);
    lemma_first_occurrences_contains(ts, None);
}

/// A batch claim of a ledger free of repeats that holds at most
/// `CLAIM_BATCH_SIZE` ESDT tokens leaves the ledger as, and pays what, a
/// claim listing all the ledger's tokens in its order does.
pub proof fn batch_claims_all_law(l: Seq<Entry>)
    requires
        distinct_tokens(l),
        esdt_count(l) <= CLAIM_BATCH_SIZE,
    ensures
        ({
            let n = claim_batch_len(l);
            let ks = ledger_tokens(l);
            &&& without_token(l.skip(n), None) == without_tokens(l, ks)
            &&& non_zero_payments(esdt_payments_of(l.take(n))) == non_zero_payments(
                claims_by_tokens(l, ks),
            )
            &&& amount_of(l.take(n), None) == if ks.contains(None) {
                amount_of(l, None)
            } else {
                0
            }
            &&& batch_remaining(l) == without_tokens(l, ks)
            &&& non_zero_payments(batch_payments(l)) == non_zero_payments(claims_by_tokens(l, ks))
            &&& batch_egld(l) == tokens_egld(l, ks)
        }),
{
    claim_batch_law(l);
    assert(l.take(l.len() as int) =~= l);
    lemma_claim_all_tokens(l);
    if !has_token(l, None) {
        lemma_amount_absent(l, None);
    }
}

/// One batch claim takes `CLAIM_BATCH_SIZE + 1` ESDT entries of a ledger,
/// or all of them where it holds fewer; where it stops before the end of the
/// ledger, the last entry it takes is an ESDT entry.
pub proof fn claim_batch_count_law(l: Seq<Entry>)
    ensures
        ({
            let n = claim_batch_len(l);
            &&& 0 <= n <= l.len()
            &&& esdt_count(l.take(n)) == if esdt_count(l) <= 51 {
                esdt_count(l)
            } else {
                51
            }
            &&& n < l.len() ==> n >= 1 && l[n - 1].0 is Some
        }),
{
    lemma_claim_scan_count(l, 0, 0);
    let n = claim_batch_len(l);
    assert(l.skip(0) =~= l);
    assert(l.take(n) =~= l.subrange(0, n));
}

/// A batch claim of a ledger free of repeats. Where the ledger holds at most
/// `CLAIM_BATCH_SIZE` ESDT tokens, it takes the whole ledger and leaves it
/// empty. Where no EGLD entry lies beyond the batch, what is sent, ESDT and
/// EGLD together, is exactly what left the ledger; an EGLD entry beyond the
/// batch leaves the ledger without being sent.
pub proof fn claim_batch_law(l: Seq<Entry>)
    requires
        distinct_tokens(l),
    ensures
        0 <= claim_batch_len(l) <= l.len(),
        esdt_count(l) <= CLAIM_BATCH_SIZE ==> claim_batch_len(l) == l.len() && without_token(
            l.skip(claim_batch_len(l)),
            None,
        ) == Seq::<Entry>::empty(),
        ledger_sum(l) == payments_total(
            non_zero_payments(esdt_payments_of(l.take(claim_batch_len(l)))),
        ) + amount_of(l.take(claim_batch_len(l)), None) + ledger_sum(
            without_token(l.skip(claim_batch_len(l)), None),
        ) + amount_of(l.skip(claim_batch_len(l)), None),
        esdt_count(l) <= CLAIM_BATCH_SIZE ==> batch_remaining(l) == Seq::<Entry>::empty(),
        ledger_sum(l) == payments_total(non_zero_payments(batch_payments(l))) + batch_egld(l)
            + ledger_sum(batch_remaining(l)) + amount_of(l.skip(claim_batch_len(l)), None),
{
    let n = claim_batch_len(l);
    lemma_claim_scan_range(l, 0, 0);
    if esdt_count(l) <= CLAIM_BATCH_SIZE {
        assert(l.skip(0) =~= l);
        lemma_claim_scan_all(l, 0, 0);
        assert(l.skip(n).len() == 0);
    }
    let head = l.take(n);
    let tail = l.skip(n);
    lemma_distinct_subrange(l, 0, n);
    lemma_distinct_subrange(l, n, l.len() as int);
    assert(head =~= l.subrange(0, n));
    assert(tail =~= l.subrange(n, l.len() as int));
    assert(head + tail =~= l);
    lemma_sum_concat(head, tail);
    lemma_sum_esdt_egld(head);
    lemma_non_zero_total(esdt_payments_of(head));
    lemma_sum_without_token(tail, None);
}

/// The fee ledger of a registered protocol.
#[derive(Clone, Debug)]
pub struct ProtocolFee {
    pub address: ManagedAddress,
    pub fee_percent: u64,
    pub fees: Vec<TokenAmount>,
}

/// A registered protocol as a plain value.
pub struct ProtocolFeeModel {
    pub address: Seq<u8>,
    pub fee_percent: u64,
    pub fees: Seq<Entry>,
}

impl View for ProtocolFee {
    type V = ProtocolFeeModel;

    open spec fn view(&self) -> ProtocolFeeModel {
        ProtocolFeeModel {
            address: self.address@,
            fee_percent: self.fee_percent,
            fees: ledger_view(self.fees@),
        }
    }
}

/// The state of the fee contract as a plain value: the registered protocols
/// in their order of registration, the AshSwap ledger, and where and which
/// share AshSwap's fee goes.
pub struct FeeModel {
    pub protocols: Seq<ProtocolFeeModel>,
    pub ashswap_fee: Seq<Entry>,
    pub ashswap_fee_address: Seq<u8>,
    pub ashswap_fee_percent: u64,
}

impl FeeModel {
    /// The protocol at this address is registered.
    pub open spec fn is_registered(self, a: Seq<u8>) -> bool {
        exists|i: int| 0 <= i < self.protocols.len() && self.protocols[i].address == a
    }

    /// The position of a registered protocol.
    pub open spec fn protocol_index(self, a: Seq<u8>) -> int {
        choose|i: int| 0 <= i < self.protocols.len() && self.protocols[i].address == a
    }

    /// A registered protocol.
    pub open spec fn protocol(self, a: Seq<u8>) -> ProtocolFeeModel {
        self.protocols[self.protocol_index(a)]
    }

    /// The fee percent stored for an address: zero where none was registered.
    pub open spec fn protocol_fee_percent(self, a: Seq<u8>) -> u64 {
        if self.is_registered(a) {
            self.protocol(a).fee_percent
        } else {
            0
        }
    }

    /// What a protocol can claim of a token.
    pub open spec fn claimable_protocol_fee(self, a: Seq<u8>, t: Option<Seq<u8>>) -> nat {
        if self.is_registered(a) {
            amount_of(self.protocol(a).fees, t)
        } else {
            0
        }
    }

    /// What AshSwap can claim of a token.
    pub open spec fn claimable_ashswap_fee(self, t: Option<Seq<u8>>) -> nat {
        amount_of(self.ashswap_fee, t)
    }

    /// No address is registered twice and none is the zero address, no ledger
    /// holds a token twice, and no fee percent is above `MAX_FEE_PERCENT`.
    pub open spec fn wf(self) -> bool {
        &&& forall|i: int, j: int|
            0 <= i < self.protocols.len() && 0 <= j < self.protocols.len() && i != j
                ==> self.protocols[i].address != self.protocols[j].address
        &&& forall|i: int|
            #![trigger self.protocols[i]]
            0 <= i < self.protocols.len() ==> distinct_tokens(self.protocols[i].fees)
                && self.protocols[i].fee_percent <= MAX_FEE_PERCENT && !spec_is_zero_address(
                self.protocols[i].address,
            )
        &&& distinct_tokens(self.ashswap_fee)
        &&& self.ashswap_fee_percent <= MAX_FEE_PERCENT
    }

    /// The state with a registered protocol's ledger replaced.
    pub open spec fn with_protocol_fees(self, a: Seq<u8>, fees: Seq<Entry>) -> FeeModel {
        FeeModel {
            protocols: self.protocols.update(
                self.protocol_index(a),
                ProtocolFeeModel {
                    address: self.protocol(a).address,
                    fee_percent: self.protocol(a).fee_percent,
                    fees: fees,
                },
            ),
            ashswap_fee: self.ashswap_fee,
            ashswap_fee_address: self.ashswap_fee_address,
            ashswap_fee_percent: self.ashswap_fee_percent,
        }
    }

    /// The state after registering a protocol: a registered one gets the new
    /// percent and keeps its ledger, a new one comes last with an empty ledger.
    pub open spec fn with_protocol_registered(self, a: Seq<u8>, fee_percent: u64) -> FeeModel {
        FeeModel {
            protocols: if self.is_registered(a) {
                self.protocols.update(
                    self.protocol_index(a),
                    ProtocolFeeModel {
                        address: a,
                        fee_percent: fee_percent,
                        fees: self.protocol(a).fees,
                    },
                )
            } else {
                self.protocols.push(
                    ProtocolFeeModel { address: a, fee_percent: fee_percent, fees: Seq::empty() },
                )
            },
            ashswap_fee: self.ashswap_fee,
            ashswap_fee_address: self.ashswap_fee_address,
            ashswap_fee_percent: self.ashswap_fee_percent,
        }
    }

    /// The state after charging a swap's fee in token `t`.
    pub open spec fn with_fee_charged(
        self,
        a: Seq<u8>,
        t: Option<Seq<u8>>,
        ash_fee: nat,
        protocol_fee: nat,
    ) -> FeeModel {
        FeeModel {
            protocols: self.with_protocol_fees(
                a,
                ledger_added(self.protocol(a).fees, t, protocol_fee),
            ).protocols,
            ashswap_fee: ledger_added(self.ashswap_fee, t, ash_fee),
            ashswap_fee_address: self.ashswap_fee_address,
            ashswap_fee_percent: self.ashswap_fee_percent,
        }
    }

    /// The state with the AshSwap ledger replaced.
    pub open spec fn with_ashswap_fees(self, fees: Seq<Entry>) -> FeeModel {
        FeeModel {
            protocols: self.protocols,
            ashswap_fee: fees,
            ashswap_fee_address: self.ashswap_fee_address,
            ashswap_fee_percent: self.ashswap_fee_percent,
        }
    }
}

/// What a claim sends to its beneficiary: the ESDT payments of one
/// multi-transfer (none of amount zero) and an amount of EGLD (sent only where
/// it is not zero).
#[derive(Clone, Debug)]
pub struct FeePayout {
    pub to: ManagedAddress,
    pub esdt_payments: Vec<EsdtTokenPayment>,
    pub egld_amount: BigUint,
}

/// The fee contract.
#[derive(Clone, Debug)]
pub struct Fee {
    protocols: Vec<ProtocolFee>,
    ashswap_fee: Vec<TokenAmount>,
    ashswap_fee_address: ManagedAddress,
    ashswap_fee_percent: u64,
}

impl View for Fee {
    type V = FeeModel;

    closed spec fn view(&self) -> FeeModel {
        FeeModel {
            protocols: self.protocols@.map_values(|p: ProtocolFee| p@),
            ashswap_fee: ledger_view(self.ashswap_fee@),
            ashswap_fee_address: self.ashswap_fee_address@,
            ashswap_fee_percent: self.ashswap_fee_percent,
        }
    }
}

impl TokenSendModule for Fee {

}

impl Fee {
    /// A fee contract as deployed: nothing registered, nothing charged, and the
    /// AshSwap address the zero address.
    pub fn new() -> (r: Fee)
        ensures
            r@.protocols == Seq::<ProtocolFeeModel>::empty(),
            r@.ashswap_fee == Seq::<Entry>::empty(),
            r@.ashswap_fee_address == Seq::new(32, |i: int| 0u8),
            r@.ashswap_fee_percent == 0,
            r@.wf(),
    {
        let r = Fee {
            protocols: Vec::new(),
            ashswap_fee: Vec::new(),
            ashswap_fee_address: vec![0u8; 32],
            ashswap_fee_percent: 0,
        };
        assert(r@.protocols =~= Seq::<ProtocolFeeModel>::empty());
        assert(r@.ashswap_fee =~= Seq::<Entry>::empty());
        assert(r@.ashswap_fee_address =~= Seq::new(32, |i: int| 0u8));
        r
    }

    /// The position of a registered protocol.
    fn find_protocol(&self, a: &ManagedAddress) -> (r: Option<usize>)
        requires
            self@.wf(),
        ensures
            match r {
                Some(i) => self@.is_registered(a@) && i == self@.protocol_index(a@) && i
                    < self.protocols.len(),
                None => !self@.is_registered(a@),
            },
    {
        let ghost m = self@;
        let mut i: usize = 0;
        while i < self.protocols.len()
            invariant
                0 <= i <= self.protocols.len(),
                m == self@,
                m.wf(),
                m.protocols.len() == self.protocols.len(),
                forall|j: int| 0 <= j < i ==> m.protocols[j].address != a@,
            decreases self.protocols.len() - i,
        {
            assert(m.protocols[i as int] == self.protocols@[i as int]@);
            if bytes_eq(&self.protocols[i].address, a) {
                proof {
                    let k = m.protocol_index(a@);
                    assert(m.is_registered(a@));
                    if k != i {
                        assert(m.protocols[k].address == m.protocols[i as int].address);
                    }
                }
                return Some(i);
            }
            i += 1;
        }
        assert(!m.is_registered(a@)) by {
            if m.is_registered(a@) {
                let k = choose|k: int| 0 <= k < m.protocols.len() && m.protocols[k].address == a@;
                assert(m.protocols[k].address != a@);
            }
        }
        None
    }

    /// The fee percent stored for an address: zero where none was registered.
    pub fn protocol_fee_percent(&self, address: &ManagedAddress) -> (r: u64)
        requires
            self@.wf(),
        ensures
            r == self@.protocol_fee_percent(address@),
    {
        match self.find_protocol(address) {
            Some(i) => self.protocols[i].fee_percent,
            None => 0,
        }
    }

    /// AshSwap's share of each fee.
    pub fn ashswap_fee_percent(&self) -> (r: u64)
        ensures
            r == self@.ashswap_fee_percent,
    {
        self.ashswap_fee_percent
    }

    /// Where AshSwap's fees are paid.
    pub fn ashswap_fee_address(&self) -> (r: ManagedAddress)
        ensures
            r@ == self@.ashswap_fee_address,
    {
        bytes_copy(&self.ashswap_fee_address)
    }

    /// Registers a protocol, or sets the fee percent of a registered one.
    /// Refused above `MAX_FEE_PERCENT` and for the zero address.
    pub fn register_protocol_fee(&mut self, fee_percent: u64, whitelist_address: ManagedAddress) -> (r:
        Result<(), ContractError>)
        requires
            old(self)@.wf(),
        ensures
            final(self)@.wf(),
            fee_percent > MAX_FEE_PERCENT ==> r == Err::<(), ContractError>(
                ContractError::InvalidFeePercent,
            ),
            fee_percent <= MAX_FEE_PERCENT && spec_is_zero_address(whitelist_address@) ==> r
                == Err::<(), ContractError>(ContractError::InvalidAddress),
            r is Err ==> final(self)@ == old(self)@,
            r is Ok <==> fee_percent <= MAX_FEE_PERCENT && !spec_is_zero_address(
                whitelist_address@,
            ),
            r is Ok ==> final(self)@ == old(self)@.with_protocol_registered(
                whitelist_address@,
                fee_percent,
            ),
    {
        if fee_percent > MAX_FEE_PERCENT {
            return Err(ContractError::InvalidFeePercent);
        }
        if is_zero_address(&whitelist_address) {
            return Err(ContractError::InvalidAddress);
        }
        let ghost m = self@;
        let ghost target = m.with_protocol_registered(whitelist_address@, fee_percent);
        match self.find_protocol(&whitelist_address) {
            Some(i) => {
                let mut p = self.protocols.remove(i);
                p.fee_percent = fee_percent;
                self.protocols.insert(i, p);
                proof {
                    assert(self@.protocols =~= target.protocols);
                }
            },
            None => {
                let p = ProtocolFee {
                    address: whitelist_address,
                    fee_percent: fee_percent,
                    fees: Vec::new(),
                };
                assert(ledger_view(p.fees@) =~= Seq::<Entry>::empty());
                self.protocols.push(p);
                proof {
                    assert(self@.protocols =~= target.protocols);
                }
            },
        }
        proof {
            assert(self@ == target);
            let ps = self@.protocols;
            assert forall|i: int, j: int|
                0 <= i < ps.len() && 0 <= j < ps.len() && i != j implies ps[i].address
                != ps[j].address by {
                if i < m.protocols.len() && j < m.protocols.len() {
                    if ps[i].address == whitelist_address@ && ps[i] != m.protocols[i] {
                        assert(m.protocols[j].address == ps[j].address);
                    }
                }
                if i >= m.protocols.len() {
                    assert(m.protocols[j].address == ps[j].address);
                }
                if j >= m.protocols.len() {
                    assert(m.protocols[i].address == ps[i].address);
                }
            }
            assert(distinct_tokens(Seq::<Entry>::empty()));
        }
        Ok(())
    }

    /// Sets AshSwap's share of each fee and where it is paid. Refused above
    /// `MAX_FEE_PERCENT` and for the zero address.
    pub fn register_ashswap_fee(&mut self, fee_percent: u64, whitelist_address: ManagedAddress) -> (r:
        Result<(), ContractError>)
        requires
            old(self)@.wf(),
        ensures
            final(self)@.wf(),
            fee_percent > MAX_FEE_PERCENT ==> r == Err::<(), ContractError>(
                ContractError::InvalidFeePercent,
            ),
            fee_percent <= MAX_FEE_PERCENT && spec_is_zero_address(whitelist_address@) ==> r
                == Err::<(), ContractError>(ContractError::InvalidAddress),
            r is Err ==> final(self)@ == old(self)@,
            r is Ok <==> fee_percent <= MAX_FEE_PERCENT && !spec_is_zero_address(
                whitelist_address@,
            ),
            r is Ok ==> final(self)@ == (FeeModel {
                protocols: old(self)@.protocols,
                ashswap_fee: old(self)@.ashswap_fee,
                ashswap_fee_address: whitelist_address@,
                ashswap_fee_percent: fee_percent,
            }),
    {
        if fee_percent > MAX_FEE_PERCENT {
            return Err(ContractError::InvalidFeePercent);
        }
        if is_zero_address(&whitelist_address) {
            return Err(ContractError::InvalidAddress);
        }
        self.ashswap_fee_percent = fee_percent;
        self.ashswap_fee_address = whitelist_address;
        Ok(())
    }

    /// The fee of a swap of `amount_in` through a registered protocol, as
    /// (AshSwap's part, the protocol's part). Refused for an unregistered
    /// protocol.
    pub fn calculate_fee(&self, amount_in: &BigUint, protocol_addr: &ManagedAddress) -> (r: Result<
        (BigUint, BigUint),
        ContractError,
    >)
        requires
            self@.wf(),
        ensures
            !self@.is_registered(protocol_addr@) ==> r == Err::<(BigUint, BigUint), ContractError>(
                ContractError::ProtocolNotRegistered,
            ),
            self@.is_registered(protocol_addr@) ==> r is Ok,
            r matches Ok((ash, prot)) ==> (ash@ as int, prot@ as int) == fee_split(
                amount_in@ as int,
                self@.protocol_fee_percent(protocol_addr@) as int,
                self@.ashswap_fee_percent as int,
            ) && ash@ + prot@ <= amount_in@,
            r matches Ok((ash, prot)) ==> {
                let total = ash@ + prot@;
                let fee_percent = self@.protocol_fee_percent(protocol_addr@);
                &&& total * 100_000 <= amount_in@ * fee_percent < (total + 1) * 100_000
                &&& ash@ * 100_000 <= total * self@.ashswap_fee_percent < (ash@ + 1) * 100_000
            },
    {
        match self.find_protocol(protocol_addr) {
            None => Err(ContractError::ProtocolNotRegistered),
            Some(i) => {
                assert(self@.protocols[i as int] == self.protocols@[i as int]@);
                let fee_percent = self.protocols[i].fee_percent;
                let ashswap_percent = self.ashswap_fee_percent;
                let total_fee = share_of(amount_in, fee_percent);
                let ashswap_fee = share_of(&total_fee, ashswap_percent);
                let protocol_fee = total_fee.minus(&ashswap_fee);
                Ok((ashswap_fee, protocol_fee))
            },
        }
    }

    /// Books the fee of a swap, paid in `payment`: `protocol_fee` to the
    /// protocol and `ash_fee` to AshSwap, each on the payment's token. Refused
    /// for an empty payment, for one that is not the sum of both fees, and for
    /// an unregistered protocol, in that order.
    pub fn charge_fee(
        &mut self,
        payment: &EgldOrEsdtTokenPayment,
        protocol: &ManagedAddress,
        ash_fee: &BigUint,
        protocol_fee: &BigUint,
    ) -> (r: Result<(), ContractError>)
        requires
            old(self)@.wf(),
        ensures
            final(self)@.wf(),
            payment.amount@ == 0 ==> r == Err::<(), ContractError>(ContractError::ZeroAmount),
            payment.amount@ > 0 && payment.amount@ != ash_fee@ + protocol_fee@ ==> r == Err::<
                (),
                ContractError,
            >(ContractError::InsufficientAmount),
            payment.amount@ > 0 && payment.amount@ == ash_fee@ + protocol_fee@
                && !old(self)@.is_registered(protocol@) ==> r == Err::<(), ContractError>(
                ContractError::ProtocolNotRegistered,
            ),
            r is Ok <==> payment.amount@ > 0 && payment.amount@ == ash_fee@ + protocol_fee@ && old(
                self,
            )@.is_registered(protocol@),
            r is Err ==> final(self)@ == old(self)@,
            r is Ok ==> final(self)@ == old(self)@.with_fee_charged(
                protocol@,
                payment.token_identifier@,
                ash_fee@,
                protocol_fee@,
            ),
    {
        if payment.amount.is_zero() {
            return Err(ContractError::ZeroAmount);
        }
        let sum = ash_fee.plus(protocol_fee);
        if !payment.amount.equals(&sum) {
            return Err(ContractError::InsufficientAmount);
        }
        let ghost m = self@;
        let i = match self.find_protocol(protocol) {
            None => {
                return Err(ContractError::ProtocolNotRegistered);
            },
            Some(i) => i,
        };
        let token = &payment.token_identifier;
        assert(m.protocols[i as int] == self.protocols@[i as int]@);
        let mut p = self.protocols.remove(i);
        ledger_add(&mut p.fees, token, protocol_fee);
        self.protocols.insert(i, p);
        ledger_add(&mut self.ashswap_fee, token, ash_fee);
        proof {
            let target = m.with_fee_charged(protocol@, token@, ash_fee@, protocol_fee@);
            assert(self@.protocols =~= target.protocols);
            assert(self@ == target);
            assert forall|k: int| 0 <= k < self@.protocols.len() implies distinct_tokens(
                #[trigger] self@.protocols[k].fees,
            ) && self@.protocols[k].fee_percent <= MAX_FEE_PERCENT && !spec_is_zero_address(
                self@.protocols[k].address,
            ) by {
                assert(self@.protocols[k] == self@.protocols[k]);
                if k != i {
                    assert(self@.protocols[k] == m.protocols[k]);
                }
            }
            let ps = self@.protocols;
            assert forall|x: int, y: int|
                0 <= x < ps.len() && 0 <= y < ps.len() && x != y implies ps[x].address
                != ps[y].address by {
                assert(ps[x].address == m.protocols[x].address);
                assert(ps[y].address == m.protocols[y].address);
            }
        }
        Ok(())
    }

    /// The entries of a registered protocol's ledger whose position `i` has
    /// `from_idx <= i < to_idx`.
    pub fn get_claimable_protocol_fee(
        &self,
        protocol: &ManagedAddress,
        from_idx: u64,
        to_idx: u64,
    ) -> (r: Vec<TokenAmount>)
        requires
            self@.wf(),
            self@.is_registered(protocol@),
        ensures
            ledger_view(r@) == ledger_window(self@.protocol(protocol@).fees, from_idx, to_idx),
            ({
                let l = self@.protocol(protocol@).fees;
                let end = if to_idx < l.len() {
                    to_idx as int
                } else {
                    l.len() as int
                };
                &&& from_idx < end ==> from_idx + r.len() == end
                &&& end <= from_idx ==> r.len() == 0
                &&& forall|i: int| 0 <= i < r.len() ==> #[trigger] r@[i]@ == l[from_idx + i]
            }),
    {
        let r = match self.find_protocol(protocol) {
            Some(i) => {
                assert(self@.protocols[i as int] == self.protocols@[i as int]@);
                ledger_window_of(&self.protocols[i].fees, from_idx, to_idx)
            },
            None => Vec::new(),
        };
        proof {
            let l = self@.protocol(protocol@).fees;
            ledger_window_law(l, from_idx, to_idx);
            assert forall|i: int| 0 <= i < r.len() implies #[trigger] r@[i]@ == l[from_idx + i] by {
                assert(ledger_view(r@)[i] == r@[i]@);
            }
        }
        r
    }

    /// The entries of AshSwap's ledger whose position `i` has
    /// `from_idx <= i < to_idx`.
    pub fn get_claimable_ashswap_fee(&self, from_idx: u64, to_idx: u64) -> (r: Vec<TokenAmount>)
        ensures
            ledger_view(r@) == ledger_window(self@.ashswap_fee, from_idx, to_idx),
            ({
                let l = self@.ashswap_fee;
                let end = if to_idx < l.len() {
                    to_idx as int
                } else {
                    l.len() as int
                };
                &&& from_idx < end ==> from_idx + r.len() == end
                &&& end <= from_idx ==> r.len() == 0
                &&& forall|i: int| 0 <= i < r.len() ==> #[trigger] r@[i]@ == l[from_idx + i]
            }),
    {
        let r = ledger_window_of(&self.ashswap_fee, from_idx, to_idx);
        proof {
            let l = self@.ashswap_fee;
            ledger_window_law(l, from_idx, to_idx);
            assert forall|i: int| 0 <= i < r.len() implies #[trigger] r@[i]@ == l[from_idx + i] by {
                assert(ledger_view(r@)[i] == r@[i]@);
            }
        }
        r
    }

    /// Replaces the ledger of the registered protocol at position `i`.
    fn set_protocol_fees(&mut self, i: usize, fees: Vec<TokenAmount>)
        requires
            old(self)@.wf(),
            i < old(self)@.protocols.len(),
            distinct_tokens(ledger_view(fees@)),
        ensures
            final(self)@.wf(),
            final(self)@ == old(self)@.with_protocol_fees(
                old(self)@.protocols[i as int].address,
                ledger_view(fees@),
            ),
    {
        let ghost m = self@;
        proof {
            let a = m.protocols[i as int].address;
            let k = m.protocol_index(a);
            assert(m.is_registered(a));
            if k != i {
                assert(m.protocols[k].address == m.protocols[i as int].address);
            }
        }
        let mut p = self.protocols.remove(i);
        p.fees = fees;
        self.protocols.insert(i, p);
        proof {
            let target = m.with_protocol_fees(m.protocols[i as int].address, ledger_view(fees@));
            assert(self@.protocols =~= target.protocols);
            assert(self@ == target);
            assert forall|k: int| 0 <= k < self@.protocols.len() implies distinct_tokens(
                #[trigger] self@.protocols[k].fees,
            ) && self@.protocols[k].fee_percent <= MAX_FEE_PERCENT && !spec_is_zero_address(
                self@.protocols[k].address,
            ) by {
                assert(self@.protocols[k] == self@.protocols[k]);
                if k != i {
                    assert(self@.protocols[k] == m.protocols[k]);
                }
            }
            let ps = self@.protocols;
            assert forall|x: int, y: int|
                0 <= x < ps.len() && 0 <= y < ps.len() && x != y implies ps[x].address
                != ps[y].address by {
                assert(ps[x].address == m.protocols[x].address);
                assert(ps[y].address == m.protocols[y].address);
            }
        }
    }

    /// Pays a registered protocol one batch of its fees: the leading entries of
    /// its ledger that `claim_batch_len` gives, their ESDT tokens in one
    /// multi-transfer (those of amount zero left out) and their EGLD. The
    /// ledger keeps the rest, without its EGLD entry. Refused for an
    /// unregistered protocol.
    pub fn claim_protocol_fee(&mut self, protocol: &ManagedAddress) -> (r: Result<
        FeePayout,
        ContractError,
    >)
        requires
            old(self)@.wf(),
        ensures
            final(self)@.wf(),
            !old(self)@.is_registered(protocol@) ==> r == Err::<FeePayout, ContractError>(
                ContractError::ProtocolNotRegistered,
            ) && final(self)@ == old(self)@,
            old(self)@.is_registered(protocol@) ==> r is Ok,
            r matches Ok(p) ==> {
                let l = old(self)@.protocol(protocol@).fees;
                let n = claim_batch_len(l);
                &&& final(self)@ == old(self)@.with_protocol_fees(
                    protocol@,
                    without_token(l.skip(n), None),
                )
                &&& p.to@ == protocol@
                &&& payments_view(p.esdt_payments@) == non_zero_payments(
                    esdt_payments_of(l.take(n)),
                )
                &&& p.egld_amount@ == amount_of(l.take(n), None)
                &&& final(self)@ == old(self)@.with_protocol_fees(protocol@, batch_remaining(l))
                &&& payments_view(p.esdt_payments@) == non_zero_payments(batch_payments(l))
                &&& p.egld_amount@ == batch_egld(l)
            },
    {
        let i = match self.find_protocol(protocol) {
            None => {
                return Err(ContractError::ProtocolNotRegistered);
            },
            Some(i) => i,
        };
        assert(self@.protocols[i as int] == self.protocols@[i as int]@);
        let c = claim_batch(&self.protocols[i].fees);
        let sent = self.send_multiple_tokens_if_not_zero(&c.esdt_payments);
        self.set_protocol_fees(i, c.remaining);
        Ok(FeePayout { to: bytes_copy(protocol), esdt_payments: sent, egld_amount: c.egld_amount })
    }

    /// Pays a registered protocol what its ledger holds of each listed token:
    /// the ESDT tokens in one multi-transfer (those of amount zero left out,
    /// a token listed twice paid once) and the EGLD; the listed tokens leave
    /// the ledger. Refused for an unregistered protocol.
    pub fn claim_protocol_fee_by_tokens(
        &mut self,
        protocol: &ManagedAddress,
        tokens: &Vec<EgldOrEsdtTokenIdentifier>,
    ) -> (r: Result<FeePayout, ContractError>)
        requires
            old(self)@.wf(),
        ensures
            final(self)@.wf(),
            !old(self)@.is_registered(protocol@) ==> r == Err::<FeePayout, ContractError>(
                ContractError::ProtocolNotRegistered,
            ) && final(self)@ == old(self)@,
            old(self)@.is_registered(protocol@) ==> r is Ok,
            r matches Ok(p) ==> {
                let l = old(self)@.protocol(protocol@).fees;
                let ts = tokens_view(tokens@);
                &&& final(self)@ == old(self)@.with_protocol_fees(protocol@, without_tokens(l, ts))
                &&& p.to@ == protocol@
                &&& payments_view(p.esdt_payments@) == non_zero_payments(claims_by_tokens(l, ts))
                &&& p.egld_amount@ == if ts.contains(None) {
                    amount_of(l, None)
                } else {
                    0
                }
                &&& p.egld_amount@ == tokens_egld(l, ts)
            },
    {
        let i = match self.find_protocol(protocol) {
            None => {
                return Err(ContractError::ProtocolNotRegistered);
            },
            Some(i) => i,
        };
        assert(self@.protocols[i as int] == self.protocols@[i as int]@);
        let fees = ledger_copy(&self.protocols[i].fees);
        let c = claim_tokens(fees, tokens);
        let sent = self.send_multiple_tokens_if_not_zero(&c.esdt_payments);
        self.set_protocol_fees(i, c.remaining);
        Ok(FeePayout { to: bytes_copy(protocol), esdt_payments: sent, egld_amount: c.egld_amount })
    }

    /// Pays AshSwap one batch of its fees, as `claim_protocol_fee` does for a
    /// protocol, to the AshSwap fee address.
    pub fn claim_ashswap_fee(&mut self) -> (r: FeePayout)
        requires
            old(self)@.wf(),
        ensures
            final(self)@.wf(),
            ({
                let l = old(self)@.ashswap_fee;
                let n = claim_batch_len(l);
                &&& final(self)@ == old(self)@.with_ashswap_fees(without_token(l.skip(n), None))
                &&& r.to@ == old(self)@.ashswap_fee_address
                &&& payments_view(r.esdt_payments@) == non_zero_payments(
                    esdt_payments_of(l.take(n)),
                )
                &&& r.egld_amount@ == amount_of(l.take(n), None)
                &&& final(self)@ == old(self)@.with_ashswap_fees(batch_remaining(l))
                &&& payments_view(r.esdt_payments@) == non_zero_payments(batch_payments(l))
                &&& r.egld_amount@ == batch_egld(l)
            }),
    {
        let ghost m = self@;
        let c = claim_batch(&self.ashswap_fee);
        let sent = self.send_multiple_tokens_if_not_zero(&c.esdt_payments);
        self.ashswap_fee = c.remaining;
        assert(self@.protocols == m.protocols);
        FeePayout {
            to: bytes_copy(&self.ashswap_fee_address),
            esdt_payments: sent,
            egld_amount: c.egld_amount,
        }
    }

    /// Pays AshSwap what its ledger holds of each listed token, as
    /// `claim_protocol_fee_by_tokens` does for a protocol, to the AshSwap fee
    /// address.
    pub fn claim_ashswap_fee_by_tokens(&mut self, tokens: &Vec<EgldOrEsdtTokenIdentifier>) -> (r:
        FeePayout)
        requires
            old(self)@.wf(),
        ensures
            final(self)@.wf(),
            ({
                let l = old(self)@.ashswap_fee;
                let ts = tokens_view(tokens@);
                &&& final(self)@ == old(self)@.with_ashswap_fees(without_tokens(l, ts))
                &&& r.to@ == old(self)@.ashswap_fee_address
                &&& payments_view(r.esdt_payments@) == non_zero_payments(claims_by_tokens(l, ts))
                &&& r.egld_amount@ == if ts.contains(None) {
                    amount_of(l, None)
                } else {
                    0
                }
                &&& r.egld_amount@ == tokens_egld(l, ts)
            }),
    {
        let ghost m = self@;
        let fees = ledger_copy(&self.ashswap_fee);
        let c = claim_tokens(fees, tokens);
        let sent = self.send_multiple_tokens_if_not_zero(&c.esdt_payments);
        self.ashswap_fee = c.remaining;
        assert(self@.protocols == m.protocols);
        FeePayout {
            to: bytes_copy(&self.ashswap_fee_address),
            esdt_payments: sent,
            egld_amount: c.egld_amount,
        }
    }

    /// The state held in the given parts, where it is well formed: no address
    /// registered twice, none the zero address, no ledger holding a token
    /// twice, no percent above `MAX_FEE_PERCENT`.
    pub fn from_parts(
        protocols: Vec<ProtocolFee>,
        ashswap_fee: Vec<TokenAmount>,
        ashswap_fee_address: ManagedAddress,
        ashswap_fee_percent: u64,
    ) -> (r: Option<Fee>)
        ensures
            ({
                let m = FeeModel {
                    protocols: protocols@.map_values(|p: ProtocolFee| p@),
                    ashswap_fee: ledger_view(ashswap_fee@),
                    ashswap_fee_address: ashswap_fee_address@,
                    ashswap_fee_percent: ashswap_fee_percent,
                };
                &&& r is Some <==> m.wf()
                &&& r matches Some(f) ==> f@ == m
            }),
    {
        let ghost m = FeeModel {
            protocols: protocols@.map_values(|p: ProtocolFee| p@),
            ashswap_fee: ledger_view(ashswap_fee@),
            ashswap_fee_address: ashswap_fee_address@,
            ashswap_fee_percent: ashswap_fee_percent,
        };
        let ghost ps = m.protocols;
        if ashswap_fee_percent > MAX_FEE_PERCENT || !ledger_is_distinct(&ashswap_fee) {
            return None;
        }
        let mut i: usize = 0;
        while i < protocols.len()
            invariant
                0 <= i <= protocols.len(),
                m == (FeeModel {
                    protocols: protocols@.map_values(|p: ProtocolFee| p@),
                    ashswap_fee: ledger_view(ashswap_fee@),
                    ashswap_fee_address: ashswap_fee_address@,
                    ashswap_fee_percent: ashswap_fee_percent,
                }),
                m.protocols == ps,
                ps == protocols@.map_values(|p: ProtocolFee| p@),
                ps.len() == protocols.len(),
                forall|a: int, b: int|
                    0 <= a < i && 0 <= b < i && a != b ==> ps[a].address != ps[b].address,
                forall|a: int|
                    #![trigger ps[a]]
                    0 <= a < i ==> distinct_tokens(ps[a].fees) && ps[a].fee_percent
                        <= MAX_FEE_PERCENT && !spec_is_zero_address(ps[a].address),
            decreases protocols.len() - i,
        {
            assert(ps[i as int] == protocols@[i as int]@);
            if protocols[i].fee_percent > MAX_FEE_PERCENT || !ledger_is_distinct(
                &protocols[i].fees,
            ) || is_zero_address(&protocols[i].address) {
                assert(!m.wf()) by {
                    assert(ps[i as int] == ps[i as int]);
                }
                return None;
            }
            let mut j: usize = 0;
            while j < i
                invariant
                    0 <= j <= i < protocols.len(),
                    m == (FeeModel {
                        protocols: protocols@.map_values(|p: ProtocolFee| p@),
                        ashswap_fee: ledger_view(ashswap_fee@),
                        ashswap_fee_address: ashswap_fee_address@,
                        ashswap_fee_percent: ashswap_fee_percent,
                    }),
                    m.protocols == ps,
                    ps == protocols@.map_values(|p: ProtocolFee| p@),
                    ps.len() == protocols.len(),
                    forall|b: int| 0 <= b < j ==> ps[b].address != ps[i as int].address,
                decreases i - j,
            {
                assert(ps[j as int] == protocols@[j as int]@);
                if bytes_eq(&protocols[j].address, &protocols[i].address) {
                    assert(!m.wf()) by {
                        assert(ps[j as int].address == ps[i as int].address);
                    }
                    return None;
                }
                j += 1;
            }
            i += 1;
        }
        let f = Fee { protocols, ashswap_fee, ashswap_fee_address, ashswap_fee_percent };
        assert(f@ == m);
        Some(f)
    }

    /// The parts that hold the state.
    pub fn into_parts(self) -> (r: (Vec<ProtocolFee>, Vec<TokenAmount>, ManagedAddress, u64))
        ensures
            r.0@.map_values(|p: ProtocolFee| p@) == self@.protocols,
            ledger_view(r.1@) == self@.ashswap_fee,
            r.2@ == self@.ashswap_fee_address,
            r.3 == self@.ashswap_fee_percent,
    {
        (self.protocols, self.ashswap_fee, self.ashswap_fee_address, self.ashswap_fee_percent)
    }
}

} // verus!
