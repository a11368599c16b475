//! Insertion-ordered ledgers of token amounts, as the fee contract keeps them
//! for each protocol and for AshSwap: each token occurs at most once, a new
//! token goes to the end, and removing a token keeps the order of the rest.

use vstd::prelude::*;
use crate::biguint::BigUint;
use crate::structs::{bytes_copy, EgldOrEsdtTokenIdentifier, EsdtTokenPayment, TokenAmount};
use crate::token_send::{non_zero_payments, payments_total, payments_view, PaymentView};

verus! {

/// A ledger entry as a plain value: the token (`None` for EGLD) and its amount.
pub type Entry = (Option<Seq<u8>>, nat);

/// The entries of a ledger, in order.
pub open spec fn ledger_view(v: Seq<TokenAmount>) -> Seq<Entry> {
    v.map_values(|e: TokenAmount| e@)
}

/// No token occurs twice.
pub open spec fn distinct_tokens(l: Seq<Entry>) -> bool {
    forall|i: int, j: int| 0 <= i < l.len() && 0 <= j < l.len() && i != j ==> l[i].0 != l[j].0
}

/// The token occurs in the ledger.
pub open spec fn has_token(l: Seq<Entry>, t: Option<Seq<u8>>) -> bool {
    exists|i: int| 0 <= i < l.len() && l[i].0 == t
}

/// The position of the token in the ledger, where it occurs.
pub open spec fn token_index(l: Seq<Entry>, t: Option<Seq<u8>>) -> int {
    choose|i: int| 0 <= i < l.len() && l[i].0 == t
}

/// What the ledger holds of a token: zero where it does not occur.
pub open spec fn amount_of(l: Seq<Entry>, t: Option<Seq<u8>>) -> nat
    decreases l.len(),
{
    if l.len() == 0 {
        0
    } else if l.last().0 == t {
        l.last().1
    } else {
        amount_of(l.drop_last(), t)
    }
}

/// The ledger after adding an amount to a token: in place where the token
/// occurs, as a new last entry where it does not.
pub open spec fn ledger_added(l: Seq<Entry>, t: Option<Seq<u8>>, a: nat) -> Seq<Entry> {
    if has_token(l, t) {
        l.update(token_index(l, t), (t, amount_of(l, t) + a))
    } else {
        l.push((t, a))
    }
}

/// The entries whose position `i` has `from <= i < to`.
pub open spec fn ledger_window(l: Seq<Entry>, from: u64, to: u64) -> Seq<Entry> {
    if from < to && from < l.len() {
        l.subrange(
            from as int,
            if to < l.len() {
                to as int
            } else {
                l.len() as int
            },
        )
    } else {
        Seq::empty()
    }
}

/// The window of a ledger holds, in order, exactly the entries at the
/// positions `i` with `from <= i < to`: it starts at `from`, ends before `to`
/// and before the end of the ledger, and is empty where `to <= from`.
pub proof fn ledger_window_law(l: Seq<Entry>, from: u64, to: u64)
    ensures
        ({
            let w = ledger_window(l, from, to);
            let end = if to < l.len() {
                to as int
            } else {
                l.len() as int
            };
            &&& from < end ==> from + w.len() == end
            &&& end <= from ==> w.len() == 0
            &&& forall|i: int| 0 <= i < w.len() ==> #[trigger] w[i] == l[from + i]
        }),
{
}

/// How far a batch claim reads a ledger from position `i`, where `count`
/// ESDT entries have been taken: it reads on until it has taken the ESDT
/// entry after the first `CLAIM_BATCH_SIZE`, or to the end.
pub open spec fn claim_scan(l: Seq<Entry>, i: int, count: int) -> int
    decreases l.len() - i,
{
    if i >= l.len() {
        l.len() as int
    } else if l[i].0 is None {
        claim_scan(l, i + 1, count)
    } else if count >= 50 {
        i + 1
    } else {
        claim_scan(l, i + 1, count + 1)
    }
}

/// The number of leading entries that one batch claim takes.
pub open spec fn claim_batch_len(l: Seq<Entry>) -> int {
    claim_scan(l, 0, 0)
}

/// What a batch claim leaves of a ledger: the entries beyond the batch,
/// without EGLD.
pub open spec fn batch_remaining(l: Seq<Entry>) -> Seq<Entry> {
    without_token(l.skip(claim_batch_len(l)), None)
}

/// The ESDT payments of a batch claim: those of the batch's entries.
pub open spec fn batch_payments(l: Seq<Entry>) -> Seq<PaymentView> {
    esdt_payments_of(l.take(claim_batch_len(l)))
}

/// The EGLD of a batch claim: that of the batch's entries.
pub open spec fn batch_egld(l: Seq<Entry>) -> nat {
    amount_of(l.take(claim_batch_len(l)), None)
}

/// The EGLD of a claim of listed tokens: all the ledger's EGLD where EGLD is
/// listed, none where it is not.
pub open spec fn tokens_egld(l: Seq<Entry>, ts: Seq<Option<Seq<u8>>>) -> nat {
    if ts.contains(None) {
        amount_of(l, None)
    } else {
        0
    }
}

/// The ESDT entries of a ledger as payments of nonce zero, in their order.
pub open spec fn esdt_payments_of(s: Seq<Entry>) -> Seq<PaymentView>
    decreases s.len(),
{
    if s.len() == 0 {
        Seq::empty()
    } else {
        let rest = esdt_payments_of(s.drop_last());
        match s.last().0 {
            Some(id) => rest.push((id, 0u64, s.last().1)),
            None => rest,
        }
    }
}

/// The ESDT payments of a claim of the listed tokens: one per ESDT token of
/// the list, in its order, of what the ledger holds of it, and zero for a
/// token listed a second time.
pub open spec fn claims_by_tokens(l: Seq<Entry>, ts: Seq<Option<Seq<u8>>>) -> Seq<PaymentView>
    decreases ts.len(),
{
    if ts.len() == 0 {
        Seq::empty()
    } else {
        let d = ts.drop_last();
        let rest = claims_by_tokens(l, d);
        match ts.last() {
            Some(id) => rest.push(
                (
                    id,
                    0u64,
                    if d.contains(ts.last()) {
                        0nat
                    } else {
                        amount_of(l, ts.last())
                    },
                ),
            ),
            None => rest,
        }
    }
}

/// The tokens of a list, as plain values.
pub open spec fn tokens_view(ts: Seq<EgldOrEsdtTokenIdentifier>) -> Seq<Option<Seq<u8>>> {
    ts.map_values(|t: EgldOrEsdtTokenIdentifier| t@)
}

/// The ledger without the entries of one token, the others in their order.
pub open spec fn without_token(l: Seq<Entry>, t: Option<Seq<u8>>) -> Seq<Entry>
    decreases l.len(),
{
    if l.len() == 0 {
        l
    } else {
        let rest = without_token(l.drop_last(), t);
        if l.last().0 == t {
            rest
        } else {
            rest.push(l.last())
        }
    }
}

/// The ledger without the entries of any of the given tokens.
pub open spec fn without_tokens(l: Seq<Entry>, ts: Seq<Option<Seq<u8>>>) -> Seq<Entry>
    decreases ts.len(),
{
    if ts.len() == 0 {
        l
    } else {
        without_token(without_tokens(l, ts.drop_last()), ts.last())
    }
}

/// In a ledger where no token occurs twice, `amount_of` is the amount of the
/// token's one entry.
pub proof fn lemma_amount_at(l: Seq<Entry>, i: int)
    requires
        distinct_tokens(l),
        0 <= i < l.len(),
    ensures
        amount_of(l, l[i].0) == l[i].1,
    decreases l.len(),
{
    if i != l.len() - 1 {
        let d = l.drop_last();
        assert(l[l.len() - 1].0 != l[i].0);
        assert(d[i] == l[i]);
        assert(distinct_tokens(d)) by {
            assert forall|a: int, b: int|
                0 <= a < d.len() && 0 <= b < d.len() && a != b implies d[a].0 != d[b].0 by {
                assert(d[a] == l[a] && d[b] == l[b]);
            }
        }
        lemma_amount_at(d, i);
    }
}

/// A token that does not occur has amount zero.
pub proof fn lemma_amount_absent(l: Seq<Entry>, t: Option<Seq<u8>>)
    requires
        !has_token(l, t),
    ensures
        amount_of(l, t) == 0,
    decreases l.len(),
{
    if l.len() > 0 {
        let d = l.drop_last();
        assert(l[l.len() - 1].0 != t);
        assert(!has_token(d, t)) by {
            if has_token(d, t) {
                let k = choose|k: int| 0 <= k < d.len() && d[k].0 == t;
                assert(l[k] == d[k]);
            }
        }
        lemma_amount_absent(d, t);
    }
}

/// `amount_of` in a ledger where no token occurs twice.
pub proof fn lemma_amount(l: Seq<Entry>, t: Option<Seq<u8>>)
    requires
        distinct_tokens(l),
    ensures
        has_token(l, t) ==> 0 <= token_index(l, t) < l.len() && l[token_index(l, t)].0 == t
            && amount_of(l, t) == l[token_index(l, t)].1,
        !has_token(l, t) ==> amount_of(l, t) == 0,
{
    if has_token(l, t) {
        lemma_amount_at(l, token_index(l, t));
    } else {
        lemma_amount_absent(l, t);
    }
}

/// Removing a token sets its amount to zero and leaves the others.
pub proof fn lemma_without_token_amount(l: Seq<Entry>, t: Option<Seq<u8>>, u: Option<Seq<u8>>)
    ensures
        amount_of(without_token(l, t), u) == if u == t {
            0
        } else {
            amount_of(l, u)
        },
    decreases l.len(),
{
    if l.len() > 0 {
        let d = l.drop_last();
        lemma_without_token_amount(d, t, u);
        let rest = without_token(d, t);
        if l.last().0 != t {
            assert(rest.push(l.last()).drop_last() =~= rest);
        }
    }
}

/// Removing a token keeps the ledger free of repeats, and what remains is what
/// was there but that token.
pub proof fn lemma_without_token_members(l: Seq<Entry>, t: Option<Seq<u8>>)
    requires
        distinct_tokens(l),
    ensures
        distinct_tokens(without_token(l, t)),
        forall|u: Option<Seq<u8>>|
            has_token(without_token(l, t), u) <==> (has_token(l, u) && u != t),
    decreases l.len(),
{
    if l.len() > 0 {
        let d = l.drop_last();
        let x = l.last();
        assert(distinct_tokens(d)) by {
            assert forall|a: int, b: int|
                0 <= a < d.len() && 0 <= b < d.len() && a != b implies d[a].0 != d[b].0 by {
                assert(d[a] == l[a] && d[b] == l[b]);
            }
        }
        lemma_without_token_members(d, t);
        let rest = without_token(d, t);
        assert(forall|u: Option<Seq<u8>>| has_token(l, u) <==> (has_token(d, u) || x.0 == u)) by {
            assert forall|u: Option<Seq<u8>>| has_token(l, u) implies (has_token(d, u) || x.0
                == u) by {
                let k = choose|k: int| 0 <= k < l.len() && l[k].0 == u;
                if k < d.len() {
                    assert(d[k] == l[k]);
                }
            }
            assert forall|u: Option<Seq<u8>>| has_token(d, u) implies has_token(l, u) by {
                let k = choose|k: int| 0 <= k < d.len() && d[k].0 == u;
                assert(d[k] == l[k]);
            }
            assert(l[l.len() - 1] == x);
        }
        assert(!has_token(d, x.0)) by {
            if has_token(d, x.0) {
                let k = choose|k: int| 0 <= k < d.len() && d[k].0 == x.0;
                assert(d[k] == l[k]);
                assert(l[l.len() - 1] == x);
            }
        }
        if x.0 != t {
            let w = rest.push(x);
            assert(forall|u: Option<Seq<u8>>| has_token(w, u) <==> (has_token(rest, u) || x.0
                == u)) by {
                assert forall|u: Option<Seq<u8>>| has_token(w, u) implies (has_token(rest, u)
                    || x.0 == u) by {
                    let k = choose|k: int| 0 <= k < w.len() && w[k].0 == u;
                    if k < rest.len() {
                        assert(w[k] == rest[k]);
                    }
                }
                assert forall|u: Option<Seq<u8>>| has_token(rest, u) implies has_token(w, u) by {
                    let k = choose|k: int| 0 <= k < rest.len() && rest[k].0 == u;
                    assert(w[k] == rest[k]);
                }
                assert(w[w.len() - 1] == x);
            }
            assert(distinct_tokens(w)) by {
                assert forall|a: int, b: int|
                    0 <= a < w.len() && 0 <= b < w.len() && a != b implies w[a].0 != w[b].0 by {
                    if a < rest.len() && b < rest.len() {
                        assert(w[a] == rest[a] && w[b] == rest[b]);
                    } else if a < rest.len() {
                        assert(w[a] == rest[a]);
                        assert(has_token(rest, w[a].0));
                    } else if b < rest.len() {
                        assert(w[b] == rest[b]);
                        assert(has_token(rest, w[b].0));
                    }
                }
            }
        }
    }
}

/// Removing several tokens sets their amounts to zero and leaves the others.
pub proof fn lemma_without_tokens_amount(
    l: Seq<Entry>,
    ts: Seq<Option<Seq<u8>>>,
    u: Option<Seq<u8>>,
)
    ensures
        amount_of(without_tokens(l, ts), u) == if ts.contains(u) {
            0
        } else {
            amount_of(l, u)
        },
    decreases ts.len(),
{
    if ts.len() > 0 {
        let d = ts.drop_last();
        lemma_without_tokens_amount(l, d, u);
        lemma_without_token_amount(without_tokens(l, d), ts.last(), u);
        assert(ts.contains(u) <==> (d.contains(u) || ts.last() == u)) by {
            if ts.contains(u) {
                let k = choose|k: int| 0 <= k < ts.len() && ts[k] == u;
                if k < d.len() {
                    assert(d[k] == ts[k]);
                }
            }
            if d.contains(u) {
                let k = choose|k: int| 0 <= k < d.len() && d[k] == u;
                assert(d[k] == ts[k]);
            }
            assert(ts[ts.len() - 1] == ts.last());
        }
    }
}

/// Removing several tokens keeps the ledger free of repeats.
pub proof fn lemma_without_tokens_distinct(l: Seq<Entry>, ts: Seq<Option<Seq<u8>>>)
    requires
        distinct_tokens(l),
    ensures
        distinct_tokens(without_tokens(l, ts)),
    decreases ts.len(),
{
    if ts.len() > 0 {
        lemma_without_tokens_distinct(l, ts.drop_last());
        lemma_without_token_members(without_tokens(l, ts.drop_last()), ts.last());
    }
}

/// The sum of the amounts of a ledger.
pub open spec fn ledger_sum(l: Seq<Entry>) -> int
    decreases l.len(),
{
    if l.len() == 0 {
        0
    } else {
        ledger_sum(l.drop_last()) + l.last().1
    }
}

/// The number of ESDT entries of a ledger.
pub open spec fn esdt_count(l: Seq<Entry>) -> int
    decreases l.len(),
{
    if l.len() == 0 {
        0
    } else {
        esdt_count(l.drop_last()) + if l.last().0 is Some {
            1int
        } else {
            0
        }
    }
}

/// A part of a ledger free of repeats is free of repeats.
pub proof fn lemma_distinct_subrange(l: Seq<Entry>, a: int, b: int)
    requires
        distinct_tokens(l),
        0 <= a <= b <= l.len(),
    ensures
        distinct_tokens(l.subrange(a, b)),
{
    let s = l.subrange(a, b);
    assert forall|x: int, y: int|
        0 <= x < s.len() && 0 <= y < s.len() && x != y implies s[x].0 != s[y].0 by {
        assert(s[x] == l[x + a] && s[y] == l[y + a]);
    }
}

/// Removing a token that does not occur changes nothing.
pub proof fn lemma_without_absent(l: Seq<Entry>, t: Option<Seq<u8>>)
    requires
        !has_token(l, t),
    ensures
        without_token(l, t) == l,
    decreases l.len(),
{
    if l.len() > 0 {
        let d = l.drop_last();
        assert(!has_token(d, t)) by {
            if has_token(d, t) {
                let k = choose|k: int| 0 <= k < d.len() && d[k].0 == t;
                assert(l[k] == d[k]);
            }
        }
        lemma_without_absent(d, t);
        assert(l[l.len() - 1].0 != t);
        assert(d.push(l.last()) =~= l);
    }
}

/// Removing a token takes exactly its amount out of the ledger's sum.
pub proof fn lemma_sum_without_token(l: Seq<Entry>, t: Option<Seq<u8>>)
    requires
        distinct_tokens(l),
    ensures
        ledger_sum(l) == ledger_sum(without_token(l, t)) + amount_of(l, t),
    decreases l.len(),
{
    if l.len() > 0 {
        let d = l.drop_last();
        let x = l.last();
        lemma_distinct_subrange(l, 0, l.len() - 1);
        assert(d =~= l.subrange(0, l.len() - 1));
        if x.0 == t {
            assert(!has_token(d, t)) by {
                if has_token(d, t) {
                    let k = choose|k: int| 0 <= k < d.len() && d[k].0 == t;
                    assert(l[k] == d[k]);
                    assert(l[l.len() - 1] == x);
                }
            }
            lemma_without_absent(d, t);
        } else {
            lemma_sum_without_token(d, t);
            let rest = without_token(d, t);
            assert(rest.push(x).drop_last() =~= rest);
        }
    }
}

/// Removing several tokens takes exactly their amounts out of the sum: what
/// a claim of the listed tokens pays.
pub proof fn lemma_sum_without_tokens(l: Seq<Entry>, ts: Seq<Option<Seq<u8>>>)
    requires
        distinct_tokens(l),
    ensures
        ledger_sum(l) == ledger_sum(without_tokens(l, ts)) + payments_total(
            claims_by_tokens(l, ts),
        ) + if ts.contains(None) {
            amount_of(l, None) as int
        } else {
            0
        },
    decreases ts.len(),
{
    if ts.len() > 0 {
        let d = ts.drop_last();
        let t = ts.last();
        lemma_sum_without_tokens(l, d);
        let w = without_tokens(l, d);
        lemma_without_tokens_distinct(l, d);
        lemma_sum_without_token(w, t);
        lemma_without_tokens_amount(l, d, t);
        assert(ts.contains(None) <==> (d.contains(None) || t == None::<Seq<u8>>)) by {
            if ts.contains(None) {
                let k = choose|k: int| 0 <= k < ts.len() && ts[k] == None::<Seq<u8>>;
                if k < d.len() {
                    assert(d[k] == ts[k]);
                }
            }
            if d.contains(None) {
                let k = choose|k: int| 0 <= k < d.len() && d[k] == None::<Seq<u8>>;
                assert(d[k] == ts[k]);
            }
            assert(ts[ts.len() - 1] == t);
        }
        let c = claims_by_tokens(l, d);
        match t {
            Some(id) => {
                let e: PaymentView = (
                    id,
                    0u64,
                    if d.contains(t) {
                        0nat
                    } else {
                        amount_of(l, t)
                    },
                );
                assert(c.push(e).drop_last() =~= c);
            },
            None => {},
        }
    }
}

/// The sum of two ledgers put together.
pub proof fn lemma_sum_concat(a: Seq<Entry>, b: Seq<Entry>)
    ensures
        ledger_sum(a + b) == ledger_sum(a) + ledger_sum(b),
    decreases b.len(),
{
    if b.len() > 0 {
        lemma_sum_concat(a, b.drop_last());
        assert((a + b).drop_last() =~= a + b.drop_last());
        assert((a + b).last() == b.last());
    } else {
        assert(a + b =~= a);
    }
}

/// A ledger's sum is what its ESDT entries pay plus its EGLD.
pub proof fn lemma_sum_esdt_egld(l: Seq<Entry>)
    requires
        distinct_tokens(l),
    ensures
        ledger_sum(l) == payments_total(esdt_payments_of(l)) + amount_of(l, None),
    decreases l.len(),
{
    if l.len() > 0 {
        let d = l.drop_last();
        let x = l.last();
        lemma_distinct_subrange(l, 0, l.len() - 1);
        assert(d =~= l.subrange(0, l.len() - 1));
        lemma_sum_esdt_egld(d);
        match x.0 {
            None => {
                assert(!has_token(d, None)) by {
                    if has_token(d, None) {
                        let k = choose|k: int| 0 <= k < d.len() && d[k].0 == None::<Seq<u8>>;
                        assert(l[k] == d[k]);
                        assert(l[l.len() - 1] == x);
                    }
                }
                lemma_amount_absent(d, None);
            },
            Some(id) => {
                let ps = esdt_payments_of(d);
                assert(ps.push((id, 0u64, x.1)).drop_last() =~= ps);
            },
        }
    }
}

/// A batch claim reads the whole of a ledger that holds at most
/// `CLAIM_BATCH_SIZE` ESDT tokens.
pub proof fn lemma_claim_scan_all(l: Seq<Entry>, i: int, count: int)
    requires
        0 <= i <= l.len(),
        0 <= count,
        count + esdt_count(l.skip(i)) <= 50,
    ensures
        claim_scan(l, i, count) == l.len(),
    decreases l.len() - i,
{
    if i < l.len() {
        let s = l.skip(i);
        let s1 = l.skip(i + 1);
        lemma_esdt_count_front(s);
        lemma_esdt_count_nonneg(s1);
        assert(s.drop_first() =~= s1);
        assert(s[0] == l[i]);
        lemma_claim_scan_all(l, i + 1, if l[i].0 is None {
            count
        } else {
            count + 1
        });
    }
}

/// `esdt_count` is never negative.
pub proof fn lemma_esdt_count_nonneg(s: Seq<Entry>)
    ensures
        esdt_count(s) >= 0,
    decreases s.len(),
{
    if s.len() > 0 {
        lemma_esdt_count_nonneg(s.drop_last());
    }
}

/// `esdt_count` counted from the front.
pub proof fn lemma_esdt_count_front(s: Seq<Entry>)
    requires
        s.len() > 0,
    ensures
        esdt_count(s) == esdt_count(s.drop_first()) + if s[0].0 is Some {
            1int
        } else {
            0
        },
    decreases s.len(),
{
    if s.len() > 1 {
        lemma_esdt_count_front(s.drop_last());
        assert(s.drop_last().drop_first() =~= s.drop_first().drop_last());
        assert(s.drop_first().last() == s.last());
        assert(s.drop_last()[0] == s[0]);
        assert(esdt_count(s.drop_first()) == esdt_count(s.drop_first().drop_last()) + if s.last().0 is Some {
            1int
        } else {
            0
        });
    } else {
        assert(s.drop_first().len() == 0);
        assert(s.drop_last().len() == 0);
        assert(esdt_count(s.drop_first()) == 0);
        assert(esdt_count(s.drop_last()) == 0);
        assert(s.last() == s[0]);
    }
}

/// Adding to a token's amount in a ledger free of repeats: that token gains
/// the amount, the others keep theirs, and no token occurs twice.
pub proof fn lemma_ledger_added(l: Seq<Entry>, t: Option<Seq<u8>>, a: nat, u: Option<Seq<u8>>)
    requires
        distinct_tokens(l),
    ensures
        distinct_tokens(ledger_added(l, t, a)),
        amount_of(ledger_added(l, t, a), u) == amount_of(l, u) + if u == t {
            a as int
        } else {
            0
        },
{
    let n = ledger_added(l, t, a);
    lemma_amount(l, t);
    lemma_amount(l, u);
    if has_token(l, t) {
        let i = token_index(l, t);
        assert forall|x: int, y: int|
            0 <= x < n.len() && 0 <= y < n.len() && x != y implies n[x].0 != n[y].0 by {
            assert(n[x].0 == l[x].0 && n[y].0 == l[y].0);
        }
        if u == t {
            lemma_amount_at(n, i);
        } else if has_token(l, u) {
            let j = token_index(l, u);
            assert(j != i);
            assert(n[j] == l[j]);
            lemma_amount_at(n, j);
        } else {
            assert(!has_token(n, u)) by {
                if has_token(n, u) {
                    let k = choose|k: int| 0 <= k < n.len() && n[k].0 == u;
                    assert(l[k].0 == n[k].0);
                }
            }
            lemma_amount_absent(n, u);
        }
    } else {
        assert forall|x: int, y: int|
            0 <= x < n.len() && 0 <= y < n.len() && x != y implies n[x].0 != n[y].0 by {
            if x < l.len() && y < l.len() {
                assert(n[x] == l[x] && n[y] == l[y]);
            } else if x < l.len() {
                assert(n[x] == l[x]);
            } else {
                assert(n[y] == l[y]);
            }
        }
        assert(n.drop_last() =~= l);
    }
}

/// A batch claim reads from where it is to at most the end.
pub proof fn lemma_claim_scan_range(l: Seq<Entry>, i: int, count: int)
    requires
        0 <= i <= l.len(),
    ensures
        i <= claim_scan(l, i, count) <= l.len(),
    decreases l.len() - i,
{
    if i < l.len() {
        lemma_claim_scan_range(l, i + 1, count);
        lemma_claim_scan_range(l, i + 1, count + 1);
    }
}

/// A list of tokens with each repeat left out: the first occurrences, in
/// their order.
pub open spec fn first_occurrences(ts: Seq<Option<Seq<u8>>>) -> Seq<Option<Seq<u8>>>
    decreases ts.len(),
{
    if ts.len() == 0 {
        ts
    } else {
        let rest = first_occurrences(ts.drop_last());
        if ts.drop_last().contains(ts.last()) {
            rest
        } else {
            rest.push(ts.last())
        }
    }
}

/// The tokens of a ledger, in its order.
pub open spec fn ledger_tokens(l: Seq<Entry>) -> Seq<Option<Seq<u8>>> {
    l.map_values(|e: Entry| e.0)
}

/// A list with its last token split off contains what the shorter list
/// contains and that token.
pub proof fn lemma_contains_last(ts: Seq<Option<Seq<u8>>>, u: Option<Seq<u8>>)
    requires
        ts.len() > 0,
    ensures
        ts.contains(u) <==> (ts.drop_last().contains(u) || ts.last() == u),
{
    let d = ts.drop_last();
    if ts.contains(u) {
        let k = choose|k: int| 0 <= k < ts.len() && ts[k] == u;
        if k < d.len() {
            assert(d[k] == ts[k]);
        }
    }
    if d.contains(u) {
        let k = choose|k: int| 0 <= k < d.len() && d[k] == u;
        assert(d[k] == ts[k]);
    }
    assert(ts[ts.len() - 1] == ts.last());
}

/// What remains after removing several tokens: the tokens that were there
/// and are not listed.
pub proof fn lemma_without_tokens_members(l: Seq<Entry>, ts: Seq<Option<Seq<u8>>>)
    requires
        distinct_tokens(l),
    ensures
        forall|u: Option<Seq<u8>>|
            has_token(without_tokens(l, ts), u) <==> (has_token(l, u) && !ts.contains(u)),
    decreases ts.len(),
{
    if ts.len() > 0 {
        let d = ts.drop_last();
        lemma_without_tokens_members(l, d);
        lemma_without_tokens_distinct(l, d);
        lemma_without_token_members(without_tokens(l, d), ts.last());
        assert forall|u: Option<Seq<u8>>|
            has_token(without_tokens(l, ts), u) <==> (has_token(l, u) && !ts.contains(u)) by {
            lemma_contains_last(ts, u);
        }
    }
}

/// Leaving out repeats keeps which tokens a list contains.
pub proof fn lemma_first_occurrences_contains(ts: Seq<Option<Seq<u8>>>, u: Option<Seq<u8>>)
    ensures
        first_occurrences(ts).contains(u) <==> ts.contains(u),
    decreases ts.len(),
{
    if ts.len() > 0 {
        let d = ts.drop_last();
        lemma_first_occurrences_contains(d, u);
        lemma_contains_last(ts, u);
        let rest = first_occurrences(d);
        if !d.contains(ts.last()) {
            let w = rest.push(ts.last());
            assert(w.drop_last() =~= rest);
            lemma_contains_last(w, u);
        }
    }
}

/// A claim of a list of tokens takes from the ledger and pays, leaving out
/// payments of zero, what a claim of the list without repeats does.
pub proof fn lemma_first_occurrences_claim(l: Seq<Entry>, ts: Seq<Option<Seq<u8>>>)
    requires
        distinct_tokens(l),
    ensures
        without_tokens(l, ts) == without_tokens(l, first_occurrences(ts)),
        non_zero_payments(claims_by_tokens(l, ts)) == non_zero_payments(
            claims_by_tokens(l, first_occurrences(ts)),
        ),
    decreases ts.len(),
{
    if ts.len() > 0 {
        let d = ts.drop_last();
        let t = ts.last();
        let fd = first_occurrences(d);
        lemma_first_occurrences_claim(l, d);
        lemma_first_occurrences_contains(d, t);
        let c = claims_by_tokens(l, d);
        if d.contains(t) {
            lemma_without_tokens_members(l, d);
            lemma_without_absent(without_tokens(l, d), t);
            match t {
                Some(id) => {
                    let e: PaymentView = (id, 0u64, 0nat);
                    assert(c.push(e).drop_last() =~= c);
                },
                None => {},
            }
        } else {
            let fts = fd.push(t);
            assert(first_occurrences(ts) == fts);
            assert(fts.drop_last() =~= fd);
            assert(fts.last() == t);
            let cf = claims_by_tokens(l, fd);
            match t {
                Some(id) => {
                    let e: PaymentView = (id, 0u64, amount_of(l, t));
                    assert(c.push(e).drop_last() =~= c);
                    assert(cf.push(e).drop_last() =~= cf);
                },
                None => {},
            }
        }
    }
}

/// A claim reads only the amounts of the listed tokens.
pub proof fn lemma_claims_same_amounts(l1: Seq<Entry>, l2: Seq<Entry>, ts: Seq<Option<Seq<u8>>>)
    requires
        forall|u: Option<Seq<u8>>| ts.contains(u) ==> amount_of(l1, u) == amount_of(l2, u),
    ensures
        claims_by_tokens(l1, ts) == claims_by_tokens(l2, ts),
    decreases ts.len(),
{
    if ts.len() > 0 {
        let d = ts.drop_last();
        assert forall|u: Option<Seq<u8>>| d.contains(u) implies amount_of(l1, u) == amount_of(
            l2,
            u,
        ) by {
            lemma_contains_last(ts, u);
        }
        lemma_claims_same_amounts(l1, l2, d);
        lemma_contains_last(ts, ts.last());
    }
}

/// Claiming every token of a ledger free of repeats, in its order, pays its
/// ESDT entries as they stand and leaves it empty.
pub proof fn lemma_claim_all_tokens(l: Seq<Entry>)
    requires
        distinct_tokens(l),
    ensures
        claims_by_tokens(l, ledger_tokens(l)) == esdt_payments_of(l),
        without_tokens(l, ledger_tokens(l)) == Seq::<Entry>::empty(),
        ledger_tokens(l).contains(None) <==> has_token(l, None),
    decreases l.len(),
{
    let ks = ledger_tokens(l);
    assert forall|u: Option<Seq<u8>>| ks.contains(u) <==> has_token(l, u) by {
        if ks.contains(u) {
            let k = choose|k: int| 0 <= k < ks.len() && ks[k] == u;
            assert(l[k].0 == u);
        }
        if has_token(l, u) {
            let k = choose|k: int| 0 <= k < l.len() && l[k].0 == u;
            assert(ks[k] == u);
        }
    }
    lemma_without_tokens_members(l, ks);
    let w = without_tokens(l, ks);
    if w.len() > 0 {
        let u = w[0].0;
        assert(w[0].0 == u);
        assert(has_token(w, u));
        assert(has_token(l, u) && !ks.contains(u));
        assert(false);
    }
    assert(w =~= Seq::<Entry>::empty());
    if l.len() > 0 {
        let d = l.drop_last();
        let x = l.last();
        lemma_distinct_subrange(l, 0, l.len() - 1);
        assert(d =~= l.subrange(0, l.len() - 1));
        lemma_claim_all_tokens(d);
        let kd = ledger_tokens(d);
        assert(ks.drop_last() =~= kd);
        assert(ks.last() == x.0);
        assert(!kd.contains(x.0)) by {
            if kd.contains(x.0) {
                let k = choose|k: int| 0 <= k < kd.len() && kd[k] == x.0;
                assert(l[k].0 == x.0);
                assert(l[l.len() - 1] == x);
            }
        }
        assert forall|u: Option<Seq<u8>>| kd.contains(u) implies amount_of(l, u) == amount_of(
            d,
            u,
        ) by {
            if u == x.0 {
                assert(false);
            }
        }
        lemma_claims_same_amounts(l, d, kd);
        lemma_amount_at(l, l.len() - 1);
        assert(l[l.len() - 1] == x);
    }
}

/// From position `i`, having taken `count` ESDT entries, a batch claim reads
/// on until it has taken 51 ESDT entries in all or reached the end, and stops
/// right after an ESDT entry where it stops before the end.
pub proof fn lemma_claim_scan_count(l: Seq<Entry>, i: int, count: int)
    requires
        0 <= i <= l.len(),
        0 <= count <= 50,
    ensures
        ({
            let n = claim_scan(l, i, count);
            let all = esdt_count(l.skip(i)) + count;
            &&& i <= n <= l.len()
            &&& esdt_count(l.subrange(i, n)) + count == if all <= 51 {
                all
            } else {
                51
            }
            &&& n < l.len() ==> i < n && l[n - 1].0 is Some && esdt_count(l.subrange(i, n))
                + count == 51
        }),
    decreases l.len() - i,
{
    lemma_claim_scan_range(l, i, count);
    let n = claim_scan(l, i, count);
    if i >= l.len() {
        assert(l.subrange(i, n).len() == 0);
        assert(l.skip(i).len() == 0);
    } else {
        let s = l.skip(i);
        lemma_esdt_count_front(s);
        assert(s.drop_first() =~= l.skip(i + 1));
        assert(s[0] == l[i]);
        lemma_esdt_count_nonneg(l.skip(i + 1));
        if l[i].0 is None {
            lemma_claim_scan_count(l, i + 1, count);
            let sub = l.subrange(i, n);
            lemma_esdt_count_front(sub);
            assert(sub.drop_first() =~= l.subrange(i + 1, n));
            assert(sub[0] == l[i]);
        } else if count >= 50 {
            let sub = l.subrange(i, n);
            assert(n == i + 1);
            lemma_esdt_count_front(sub);
            assert(sub.drop_first() =~= Seq::<Entry>::empty());
            assert(sub[0] == l[i]);
            assert(esdt_count(Seq::<Entry>::empty()) == 0);
        } else {
            lemma_claim_scan_count(l, i + 1, count + 1);
            let sub = l.subrange(i, n);
            lemma_claim_scan_range(l, i + 1, count + 1);
            lemma_esdt_count_front(sub);
            assert(sub.drop_first() =~= l.subrange(i + 1, n));
            assert(sub[0] == l[i]);
        }
    }
}

/// The ESDT payments of a ledger are its ESDT entries, in its order, each of
/// nonce zero: none for an empty ledger or an EGLD entry, one for an ESDT
/// entry, and those of two ledgers put together are those of the first
/// followed by those of the second.
pub proof fn esdt_payments_law(a: Seq<Entry>, b: Seq<Entry>, id: Seq<u8>, x: nat)
    ensures
        esdt_payments_of(Seq::<Entry>::empty()) == Seq::<PaymentView>::empty(),
        esdt_payments_of(seq![(Some(id), x)]) == seq![(id, 0u64, x)],
        esdt_payments_of(seq![(None::<Seq<u8>>, x)]) == Seq::<PaymentView>::empty(),
        esdt_payments_of(a + b) == esdt_payments_of(a) + esdt_payments_of(b),
    decreases b.len(),
{
    let e: Seq<Entry> = Seq::empty();
    assert(seq![(Some(id), x)].drop_last() =~= e);
    assert(seq![(None::<Seq<u8>>, x)].drop_last() =~= e);
    assert(Seq::<PaymentView>::empty().push((id, 0u64, x)) =~= seq![(id, 0u64, x)]);
    if b.len() == 0 {
        assert(a + b =~= a);
        assert(esdt_payments_of(a) + esdt_payments_of(b) =~= esdt_payments_of(a));
    } else {
        let bd = b.drop_last();
        esdt_payments_law(a, bd, id, x);
        assert((a + b).drop_last() =~= a + bd);
        assert((a + b).last() == b.last());
        let pa = esdt_payments_of(a);
        let pb = esdt_payments_of(bd);
        match b.last().0 {
            Some(t) => {
                assert((pa + pb).push((t, 0u64, b.last().1)) =~= pa + pb.push((t, 0u64, b.last().1)));
            },
            None => {},
        }
    }
}

/// Removing a token keeps the other entries in their order: nothing of an
/// empty ledger, the entry itself where it holds another token, and for two
/// ledgers put together what remains of the first followed by what remains
/// of the second.
pub proof fn without_token_law(a: Seq<Entry>, b: Seq<Entry>, t: Option<Seq<u8>>, x: Entry)
    ensures
        without_token(Seq::<Entry>::empty(), t) == Seq::<Entry>::empty(),
        without_token(seq![x], t) == if x.0 == t {
            Seq::<Entry>::empty()
        } else {
            seq![x]
        },
        without_token(a + b, t) == without_token(a, t) + without_token(b, t),
    decreases b.len(),
{
    let e: Seq<Entry> = Seq::empty();
    assert(seq![x].drop_last() =~= e);
    assert(e.push(x) =~= seq![x]);
    if b.len() == 0 {
        assert(a + b =~= a);
        assert(without_token(a, t) + without_token(b, t) =~= without_token(a, t));
    } else {
        let bd = b.drop_last();
        without_token_law(a, bd, t, x);
        assert((a + b).drop_last() =~= a + bd);
        assert((a + b).last() == b.last());
        let wa = without_token(a, t);
        let wb = without_token(bd, t);
        assert((wa + wb).push(b.last()) =~= wa + wb.push(b.last()));
    }
}

/// A claim of listed tokens pays, in the order of the list, one payment of
/// nonce zero per ESDT token listed: what the ledger holds of it the first
/// time it is listed, zero when it is listed again; EGLD gets no ESDT payment.
/// The claim of two lists with no token in common, put together, pays what
/// the claim of the first pays followed by what the claim of the second pays.
pub proof fn claims_by_tokens_law(
    l: Seq<Entry>,
    ts1: Seq<Option<Seq<u8>>>,
    ts2: Seq<Option<Seq<u8>>>,
    id: Seq<u8>,
)
    ensures
        claims_by_tokens(l, Seq::<Option<Seq<u8>>>::empty()) == Seq::<PaymentView>::empty(),
        claims_by_tokens(l, seq![Some(id)]) == seq![(id, 0u64, amount_of(l, Some(id)))],
        claims_by_tokens(l, seq![None::<Seq<u8>>]) == Seq::<PaymentView>::empty(),
        ts1.contains(Some(id)) ==> claims_by_tokens(l, ts1.push(Some(id))) == claims_by_tokens(
            l,
            ts1,
        ).push((id, 0u64, 0nat)),
        (forall|u: Option<Seq<u8>>| ts2.contains(u) ==> !ts1.contains(u)) ==> claims_by_tokens(
            l,
            ts1 + ts2,
        ) == claims_by_tokens(l, ts1) + claims_by_tokens(l, ts2),
    decreases ts2.len(),
{
    let e: Seq<Option<Seq<u8>>> = Seq::empty();
    assert(seq![Some(id)].drop_last() =~= e);
    assert(seq![None::<Seq<u8>>].drop_last() =~= e);
    assert(!e.contains(Some(id)));
    assert(claims_by_tokens(l, e) == Seq::<PaymentView>::empty());
    assert(seq![Some(id)].len() == 1 && seq![Some(id)].last() == Some(id));
    assert(seq![None::<Seq<u8>>].len() == 1 && seq![None::<Seq<u8>>].last() == None::<Seq<u8>>);
    assert(Seq::<PaymentView>::empty().push((id, 0u64, amount_of(l, Some(id)))) =~= seq![
        (id, 0u64, amount_of(l, Some(id))),
    ]);
    assert(ts1.push(Some(id)).drop_last() =~= ts1);
    if forall|u: Option<Seq<u8>>| ts2.contains(u) ==> !ts1.contains(u) {
        if ts2.len() == 0 {
            assert(ts1 + ts2 =~= ts1);
            assert(claims_by_tokens(l, ts1) + claims_by_tokens(l, ts2) =~= claims_by_tokens(l, ts1));
        } else {
            let d2 = ts2.drop_last();
            let t = ts2.last();
            assert forall|u: Option<Seq<u8>>| d2.contains(u) implies !ts1.contains(u) by {
                lemma_contains_last(ts2, u);
            }
            claims_by_tokens_law(l, ts1, d2, id);
            let whole = ts1 + ts2;
            assert(whole.drop_last() =~= ts1 + d2);
            assert(whole.last() == t);
            lemma_contains_last(ts2, t);
            assert((ts1 + d2).contains(t) <==> d2.contains(t)) by {
                if (ts1 + d2).contains(t) {
                    let k = choose|k: int| 0 <= k < (ts1 + d2).len() && (ts1 + d2)[k] == t;
                    if k < ts1.len() {
                        assert(ts1[k] == t);
                    } else {
                        assert(d2[k - ts1.len()] == t);
                    }
                }
                if d2.contains(t) {
                    let k = choose|k: int| 0 <= k < d2.len() && d2[k] == t;
                    assert((ts1 + d2)[k + ts1.len()] == t);
                }
            }
            let c1 = claims_by_tokens(l, ts1);
            let c2 = claims_by_tokens(l, d2);
            match t {
                Some(tid) => {
                    let p: PaymentView = (
                        tid,
                        0u64,
                        if d2.contains(t) {
                            0nat
                        } else {
                            amount_of(l, t)
                        },
                    );
                    assert((c1 + c2).push(p) =~= c1 + c2.push(p));
                },
                None => {},
            }
        }
    }
}

/// Adding to a token's amount in a ledger free of repeats: a token not yet
/// there comes last with the amount added; a token already there keeps its
/// place and gains the amount, and every other entry stays as it is.
pub proof fn ledger_added_law(l: Seq<Entry>, t: Option<Seq<u8>>, a: nat)
    requires
        distinct_tokens(l),
    ensures
        !has_token(l, t) ==> ledger_added(l, t, a) == l.push((t, a)),
        has_token(l, t) ==> ledger_added(l, t, a).len() == l.len() && forall|i: int|
            0 <= i < l.len() ==> #[trigger] ledger_added(l, t, a)[i] == if l[i].0 == t {
                (t, l[i].1 + a)
            } else {
                l[i]
            },
{
    lemma_amount(l, t);
    if has_token(l, t) {
        let j = token_index(l, t);
        assert forall|i: int| 0 <= i < l.len() implies #[trigger] ledger_added(l, t, a)[i] == if l[i].0
            == t {
            (t, l[i].1 + a)
        } else {
            l[i]
        } by {
            if i != j && l[i].0 == t {
                assert(l[i].0 == l[j].0);
            }
        }
    }
}

/// Tells whether no token occurs twice in a ledger.
pub fn ledger_is_distinct(l: &Vec<TokenAmount>) -> (r: bool)
    ensures
        r == distinct_tokens(ledger_view(l@)),
{
    let ghost v = ledger_view(l@);
    let mut i: usize = 0;
    while i < l.len()
        invariant
            0 <= i <= l.len(),
            v == ledger_view(l@),
            v.len() == l.len(),
            forall|a: int, b: int| 0 <= a < i && 0 <= b < i && a != b ==> v[a].0 != v[b].0,
        decreases l.len() - i,
    {
        let mut j: usize = 0;
        while j < i
            invariant
                0 <= j <= i < l.len(),
                v == ledger_view(l@),
                v.len() == l.len(),
                forall|a: int, b: int| 0 <= a < i && 0 <= b < i && a != b ==> v[a].0 != v[b].0,
                forall|b: int| 0 <= b < j ==> v[b].0 != v[i as int].0,
            decreases i - j,
        {
            if l[j].token.same_as(&l[i].token) {
                assert(!distinct_tokens(v)) by {
                    assert(v[j as int].0 == v[i as int].0);
                }
                return false;
            }
            j += 1;
        }
        i += 1;
    }
    true
}

/// Finds the position of a token in a ledger.
pub fn find_token(l: &Vec<TokenAmount>, t: &EgldOrEsdtTokenIdentifier) -> (r: Option<usize>)
    ensures
        match r {
            Some(i) => i < l.len() && ledger_view(l@)[i as int].0 == t@,
            None => !has_token(ledger_view(l@), t@),
        },
{
    let ghost v = ledger_view(l@);
    let mut i: usize = 0;
    while i < l.len()
        invariant
            0 <= i <= l.len(),
            v == ledger_view(l@),
            v.len() == l.len(),
            forall|j: int| 0 <= j < i ==> v[j].0 != t@,
        decreases l.len() - i,
    {
        if l[i].token.same_as(t) {
            return Some(i);
        }
        i += 1;
    }
    assert(!has_token(v, t@)) by {
        if has_token(v, t@) {
            let k = choose|k: int| 0 <= k < v.len() && v[k].0 == t@;
            assert(v[k].0 != t@);
        }
    }
    None
}

/// What the ledger holds of a token, zero where it does not occur.
pub fn ledger_get(l: &Vec<TokenAmount>, t: &EgldOrEsdtTokenIdentifier) -> (r: BigUint)
    requires
        distinct_tokens(ledger_view(l@)),
    ensures
        r@ == amount_of(ledger_view(l@), t@),
{
    proof {
        lemma_amount(ledger_view(l@), t@);
    }
    match find_token(l, t) {
        Some(i) => {
            proof {
                lemma_amount_at(ledger_view(l@), i as int);
            }
            l[i].amount.copy()
        },
        None => BigUint::zero(),
    }
}

/// Adds an amount to what the ledger holds of a token: in place where the
/// token occurs, as a new last entry where it does not.
pub fn ledger_add(l: &mut Vec<TokenAmount>, t: &EgldOrEsdtTokenIdentifier, a: &BigUint)
    requires
        distinct_tokens(ledger_view(old(l)@)),
    ensures
        distinct_tokens(ledger_view(final(l)@)),
        ledger_view(final(l)@) == ledger_added(ledger_view(old(l)@), t@, a@),
{
    let ghost v = ledger_view(l@);
    proof {
        lemma_amount(v, t@);
    }
    match find_token(l, t) {
        Some(i) => {
            proof {
                lemma_amount_at(v, i as int);
                assert(token_index(v, t@) == i) by {
                    let k = token_index(v, t@);
                    if k != i {
                        assert(v[k].0 == v[i as int].0);
                    }
                }
            }
            let sum = l[i].amount.plus(a);
            let entry = TokenAmount::new(t.duplicate(), sum);
            l.set(i, entry);
            proof {
                let nv = ledger_view(l@);
                assert(nv =~= v.update(i as int, (t@, amount_of(v, t@) + a@)));
                assert(distinct_tokens(nv)) by {
                    assert forall|x: int, y: int|
                        0 <= x < nv.len() && 0 <= y < nv.len() && x != y implies nv[x].0
                        != nv[y].0 by {
                        assert(nv[x].0 == v[x].0 && nv[y].0 == v[y].0);
                    }
                }
            }
        },
        None => {
            let entry = TokenAmount::new(t.duplicate(), a.copy());
            l.push(entry);
            proof {
                let nv = ledger_view(l@);
                assert(nv =~= v.push((t@, a@)));
                assert(distinct_tokens(nv)) by {
                    assert forall|x: int, y: int|
                        0 <= x < nv.len() && 0 <= y < nv.len() && x != y implies nv[x].0
                        != nv[y].0 by {
                        if x < v.len() && y < v.len() {
                            assert(nv[x] == v[x] && nv[y] == v[y]);
                        } else if x < v.len() {
                            assert(nv[x] == v[x]);
                        } else {
                            assert(nv[y] == v[y]);
                        }
                    }
                }
            }
        },
    }
}

/// The ledger without the entry of one token, the others in their order.
pub fn ledger_without(l: &Vec<TokenAmount>, t: &EgldOrEsdtTokenIdentifier) -> (r: Vec<
    TokenAmount,
>)
    ensures
        ledger_view(r@) == without_token(ledger_view(l@), t@),
{
    let ghost v = ledger_view(l@);
    let mut r: Vec<TokenAmount> = Vec::new();
    let mut k: usize = 0;
    while k < l.len()
        invariant
            0 <= k <= l.len(),
            v == ledger_view(l@),
            v.len() == l.len(),
            ledger_view(r@) == without_token(v.take(k as int), t@),
        decreases l.len() - k,
    {
        let ghost before = r@;
        let ghost p = v.take(k as int);
        assert(v.take(k + 1).drop_last() =~= p);
        assert(v.take(k + 1).last() == v[k as int]);
        if !l[k].token.same_as(t) {
            r.push(l[k].duplicate());
            assert(ledger_view(r@) =~= ledger_view(before).push(v[k as int]));
        }
        k += 1;
    }
    assert(v.take(l.len() as int) =~= v);
    r
}

/// What a claim takes from a ledger: the ledger that is left, the ESDT
/// payments and the amount of EGLD.
#[derive(Clone, Debug)]
pub struct Claim {
    pub remaining: Vec<TokenAmount>,
    pub esdt_payments: Vec<EsdtTokenPayment>,
    pub egld_amount: BigUint,
}

/// A copy of a ledger.
pub fn ledger_copy(l: &Vec<TokenAmount>) -> (r: Vec<TokenAmount>)
    ensures
        ledger_view(r@) == ledger_view(l@),
{
    let ghost v = ledger_view(l@);
    let mut r: Vec<TokenAmount> = Vec::new();
    let mut k: usize = 0;
    while k < l.len()
        invariant
            0 <= k <= l.len(),
            v == ledger_view(l@),
            v.len() == l.len(),
            ledger_view(r@) == v.take(k as int),
        decreases l.len() - k,
    {
        let ghost before = r@;
        r.push(l[k].duplicate());
        assert(ledger_view(r@) =~= ledger_view(before).push(v[k as int]));
        assert(ledger_view(r@) =~= v.take(k + 1));
        k += 1;
    }
    assert(v.take(l.len() as int) =~= v);
    r
}

/// The entries whose position `i` has `from <= i < to`, in their order.
pub fn ledger_window_of(l: &Vec<TokenAmount>, from_idx: u64, to_idx: u64) -> (r: Vec<TokenAmount>)
    ensures
        ledger_view(r@) == ledger_window(ledger_view(l@), from_idx, to_idx),
        from_idx < to_idx && from_idx < l.len() ==> from_idx + r.len() == if to_idx < l.len() {
            to_idx as int
        } else {
            l.len() as int
        },
        to_idx <= from_idx || l.len() <= from_idx ==> r.len() == 0,
        forall|i: int| 0 <= i < r.len() ==> #[trigger] r@[i]@ == l@[from_idx + i]@,
{
    let ghost v = ledger_view(l@);
    let mut r: Vec<TokenAmount> = Vec::new();
    let mut k: usize = 0;
    while k < l.len()
        invariant
            0 <= k <= l.len(),
            v == ledger_view(l@),
            v.len() == l.len(),
            ledger_view(r@) == if from_idx < to_idx && from_idx < k {
                v.subrange(
                    from_idx as int,
                    if to_idx < k {
                        to_idx as int
                    } else {
                        k as int
                    },
                )
            } else {
                Seq::<Entry>::empty()
            },
        decreases l.len() - k,
    {
        let ghost before = r@;
        if (k as u64) >= from_idx && (k as u64) < to_idx {
            r.push(l[k].duplicate());
            assert(ledger_view(r@) =~= ledger_view(before).push(v[k as int]));
            assert(ledger_view(r@) =~= v.subrange(from_idx as int, k + 1));
        } else {
            assert(ledger_view(r@) =~= if from_idx < to_idx && from_idx < k + 1 {
                v.subrange(
                    from_idx as int,
                    if to_idx < k + 1 {
                        to_idx as int
                    } else {
                        k + 1
                    },
                )
            } else {
                Seq::<Entry>::empty()
            });
        }
        k += 1;
    }
    proof {
        ledger_window_law(v, from_idx, to_idx);
        let w = ledger_view(r@);
        assert forall|i: int| 0 <= i < r.len() implies #[trigger] r@[i]@ == l@[from_idx + i]@ by {
            assert(w[i] == r@[i]@);
            assert(v[from_idx + i] == l@[from_idx + i]@);
        }
    }
    r
}

/// A batch claim of a ledger: it reads the leading entries that
/// `claim_batch_len` gives, pays their ESDT entries and their EGLD, and leaves
/// the rest of the ledger without EGLD.
pub fn claim_batch(l: &Vec<TokenAmount>) -> (r: Claim)
    requires
        distinct_tokens(ledger_view(l@)),
    ensures
        0 <= claim_batch_len(ledger_view(l@)) <= l.len(),
        ledger_view(r.remaining@) == without_token(
            ledger_view(l@).skip(claim_batch_len(ledger_view(l@))),
            None,
        ),
        payments_view(r.esdt_payments@) == esdt_payments_of(
            ledger_view(l@).take(claim_batch_len(ledger_view(l@))),
        ),
        r.egld_amount@ == amount_of(ledger_view(l@).take(claim_batch_len(ledger_view(l@))), None),
        ledger_view(r.remaining@) == batch_remaining(ledger_view(l@)),
        payments_view(r.esdt_payments@) == batch_payments(ledger_view(l@)),
        r.egld_amount@ == batch_egld(ledger_view(l@)),
        distinct_tokens(ledger_view(r.remaining@)),
{
    let ghost v = ledger_view(l@);
    let mut pays: Vec<EsdtTokenPayment> = Vec::new();
    let mut egld = BigUint::zero();
    let mut i: usize = 0;
    let mut count: usize = 0;
    let mut n: usize = l.len();
    while i < l.len()
        invariant_except_break
            0 <= i <= l.len(),
            n == l.len(),
            count <= 50,
            claim_scan(v, 0, 0) == claim_scan(v, i as int, count as int),
            payments_view(pays@) == esdt_payments_of(v.take(i as int)),
            egld@ == amount_of(v.take(i as int), None),
        invariant
            v == ledger_view(l@),
            v.len() == l.len(),
            distinct_tokens(v),
            0 <= i <= l.len(),
        ensures
            0 <= n <= l.len(),
            n == claim_scan(v, 0, 0),
            payments_view(pays@) == esdt_payments_of(v.take(n as int)),
            egld@ == amount_of(v.take(n as int), None),
        decreases l.len() - i,
    {
        let ghost before = pays@;
        assert(v.take(i + 1).drop_last() =~= v.take(i as int));
        assert(v.take(i + 1).last() == v[i as int]);
        match &l[i].token {
            EgldOrEsdtTokenIdentifier::Egld => {
                proof {
                    assert(!has_token(v.take(i as int), None)) by {
                        if has_token(v.take(i as int), None) {
                            let k = choose|k: int| 0 <= k < i && v.take(i as int)[k].0 == None::<Seq<u8>>;
                            assert(v[k].0 == v[i as int].0);
                        }
                    }
                    lemma_amount_absent(v.take(i as int), None);
                }
                egld = egld.plus(&l[i].amount);
            },
            EgldOrEsdtTokenIdentifier::Esdt(id) => {
                pays.push(EsdtTokenPayment::new(bytes_copy(id), 0, l[i].amount.copy()));
                assert(payments_view(pays@) =~= payments_view(before).push(
                    (id@, 0u64, l@[i as int].amount@),
                ));
                if count >= 50 {
                    n = i + 1;
                    break;
                }
                count += 1;
            },
        }
        i += 1;
    }
    let ghost tail = v.skip(n as int);
    let mut rem: Vec<TokenAmount> = Vec::new();
    let mut k: usize = n;
    while k < l.len()
        invariant
            n <= k <= l.len(),
            v == ledger_view(l@),
            v.len() == l.len(),
            tail == v.skip(n as int),
            ledger_view(rem@) == without_token(tail.take(k - n), None),
        decreases l.len() - k,
    {
        let ghost before = rem@;
        assert(tail.take(k + 1 - n).drop_last() =~= tail.take(k - n));
        assert(tail.take(k + 1 - n).last() == v[k as int]);
        if !l[k].token.is_egld() {
            rem.push(l[k].duplicate());
            assert(ledger_view(rem@) =~= ledger_view(before).push(v[k as int]));
        }
        k += 1;
    }
    assert(tail.take(l.len() - n) =~= tail);
    proof {
        assert(distinct_tokens(tail)) by {
            assert forall|a: int, b: int|
                0 <= a < tail.len() && 0 <= b < tail.len() && a != b implies tail[a].0
                != tail[b].0 by {
                assert(tail[a] == v[a + n] && tail[b] == v[b + n]);
            }
        }
        lemma_without_token_members(tail, None);
    }
    Claim { remaining: rem, esdt_payments: pays, egld_amount: egld }
}

/// A claim of the listed tokens: each is paid what the ledger holds of it (a
/// token listed twice is paid once) and leaves the ledger.
pub fn claim_tokens(l: Vec<TokenAmount>, tokens: &Vec<EgldOrEsdtTokenIdentifier>) -> (r: Claim)
    requires
        distinct_tokens(ledger_view(l@)),
    ensures
        ledger_view(r.remaining@) == without_tokens(ledger_view(l@), tokens_view(tokens@)),
        payments_view(r.esdt_payments@) == claims_by_tokens(
            ledger_view(l@),
            tokens_view(tokens@),
        ),
        r.egld_amount@ == if tokens_view(tokens@).contains(None) {
            amount_of(ledger_view(l@), None)
        } else {
            0
        },
        r.egld_amount@ == tokens_egld(ledger_view(l@), tokens_view(tokens@)),
        distinct_tokens(ledger_view(r.remaining@)),
{
    let ghost v = ledger_view(l@);
    let ghost ts = tokens_view(tokens@);
    let mut cur = l;
    let mut pays: Vec<EsdtTokenPayment> = Vec::new();
    let mut egld = BigUint::zero();
    let mut i: usize = 0;
    while i < tokens.len()
        invariant
            0 <= i <= tokens.len(),
            ts == tokens_view(tokens@),
            ts.len() == tokens.len(),
            distinct_tokens(v),
            ledger_view(cur@) == without_tokens(v, ts.take(i as int)),
            distinct_tokens(ledger_view(cur@)),
            payments_view(pays@) == claims_by_tokens(v, ts.take(i as int)),
            egld@ == if ts.take(i as int).contains(None) {
                amount_of(v, None)
            } else {
                0
            },
        decreases tokens.len() - i,
    {
        let ghost pre = ts.take(i as int);
        let ghost nt = ts.take(i + 1);
        let ghost t = ts[i as int];
        let ghost before = pays@;
        assert(nt.drop_last() =~= pre);
        assert(nt.last() == t);
        assert(t == tokens@[i as int]@);
        assert(forall|u: Option<Seq<u8>>| nt.contains(u) <==> (pre.contains(u) || t == u)) by {
            assert forall|u: Option<Seq<u8>>| nt.contains(u) implies (pre.contains(u) || t == u) by {
                let k = choose|k: int| 0 <= k < nt.len() && nt[k] == u;
                if k < i {
                    assert(pre[k] == nt[k]);
                }
            }
            assert forall|u: Option<Seq<u8>>| pre.contains(u) implies nt.contains(u) by {
                let k = choose|k: int| 0 <= k < pre.len() && pre[k] == u;
                assert(pre[k] == nt[k]);
            }
            assert(nt[i as int] == t);
        }
        let fee_amount = ledger_get(&cur, &tokens[i]);
        proof {
            lemma_without_tokens_amount(v, pre, t);
        }
        cur = ledger_without(&cur, &tokens[i]);
        proof {
            lemma_without_tokens_distinct(v, ts.take(i + 1));
        }
        match &tokens[i] {
            EgldOrEsdtTokenIdentifier::Egld => {
                egld = egld.plus(&fee_amount);
            },
            EgldOrEsdtTokenIdentifier::Esdt(id) => {
                pays.push(EsdtTokenPayment::new(bytes_copy(id), 0, fee_amount));
                assert(payments_view(pays@) =~= payments_view(before).push(
                    (id@, 0u64, fee_amount@),
                ));
            },
        }
        i += 1;
    }
    assert(ts.take(tokens.len() as int) =~= ts);
    Claim { remaining: cur, esdt_payments: pays, egld_amount: egld }
}

} // verus!
