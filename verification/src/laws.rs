use vstd::prelude::*;
use vstd::arithmetic::div_mod::{lemma_div_by_multiple, lemma_div_is_ordered, lemma_div_pos_is_pos, lemma_fundamental_div_mod, lemma_mod_bound};
use vstd::arithmetic::mul::{lemma_mul_inequality, lemma_mul_is_commutative, lemma_mul_is_distributive_add, lemma_mul_nonnegative};
use crate::claim::claim_fold;
use crate::decimal::{ratio_atomics, DECIMAL_FRACTIONAL};
use crate::rewards::{accrue_ok, accrued_amount};
use crate::state::{DistributionLedger, GlobalIndexStore};

verus! {

/// The total of a list of weights.
pub open spec fn sum_weights(ws: Seq<int>) -> int
    decreases ws.len(),
{
    if ws.len() == 0 {
        0
    } else {
        ws[0] + sum_weights(ws.drop_first())
    }
}

/// The total paid out when every listed weight takes its share of an index
/// growth of `delta` atomics.
pub open spec fn sum_shares(ws: Seq<int>, delta: int) -> int
    decreases ws.len(),
{
    if ws.len() == 0 {
        0
    } else {
        delta * ws[0] / (DECIMAL_FRACTIONAL as int) + sum_shares(ws.drop_first(), delta)
    }
}

/// Rounding down each summand separately never beats dividing the sum.
proof fn lemma_div_superadd(a: int, b: int, d: int)
    requires
        0 <= a,
        0 <= b,
        0 < d,
    ensures
        a / d + b / d <= (a + b) / d,
{
    lemma_fundamental_div_mod(a, d);
    lemma_fundamental_div_mod(b, d);
    lemma_mod_bound(a, d);
    lemma_mod_bound(b, d);
    lemma_mul_is_distributive_add(d, a / d, b / d);
    lemma_div_pos_is_pos(a, d);
    lemma_div_pos_is_pos(b, d);
    lemma_div_is_ordered(d * (a / d + b / d), a + b, d);
    lemma_mul_is_commutative(d, a / d + b / d);
    lemma_div_by_multiple(a / d + b / d, d);
}

/// The shares of an index growth, summed over any weights, stay below the
/// growth times the total of the weights.
proof fn lemma_sum_shares_bound(ws: Seq<int>, delta: int)
    requires
        0 <= delta,
        forall|i: int| 0 <= i < ws.len() ==> 0 <= #[trigger] ws[i],
    ensures
        0 <= sum_weights(ws),
        sum_shares(ws, delta) <= delta * sum_weights(ws) / (DECIMAL_FRACTIONAL as int),
    decreases ws.len(),
{
    let f = DECIMAL_FRACTIONAL as int;
    if ws.len() > 0 {
        lemma_sum_shares_bound(ws.drop_first(), delta);
        lemma_mul_nonnegative(delta, ws[0]);
        lemma_mul_nonnegative(delta, sum_weights(ws.drop_first()));
        lemma_div_is_ordered(
            delta * sum_weights(ws.drop_first()),
            delta * sum_weights(ws.drop_first()),
            f,
        );
        lemma_div_superadd(delta * ws[0], delta * sum_weights(ws.drop_first()), f);
        lemma_mul_is_distributive_add(delta, ws[0], sum_weights(ws.drop_first()));
    }
}

/// Conservation: one deposit of `amount` against `total_weight` raises the
/// global index by `amount / total_weight`; over any set of users whose
/// weights sum to at most that total weight, the claimable amounts this
/// growth creates never add up to more than the deposited amount, whatever
/// order the users later claim in.
pub proof fn lemma_conservation_deposit(ws: Seq<int>, amount: int, total_weight: int)
    requires
        0 < total_weight,
        0 <= amount,
        forall|i: int| 0 <= i < ws.len() ==> 0 <= #[trigger] ws[i],
        sum_weights(ws) <= total_weight,
    ensures
        sum_shares(ws, ratio_atomics(amount, total_weight)) <= amount,
{
    let f = DECIMAL_FRACTIONAL as int;
    let delta = ratio_atomics(amount, total_weight);
    lemma_mul_nonnegative(amount, f);
    lemma_div_pos_is_pos(amount * f, total_weight);
    lemma_sum_shares_bound(ws, delta);
    lemma_mul_inequality(sum_weights(ws), total_weight, delta);
    lemma_mul_is_commutative(sum_weights(ws), delta);
    lemma_mul_is_commutative(total_weight, delta);
    lemma_div_is_ordered(delta * sum_weights(ws), delta * total_weight, f);
    lemma_fundamental_div_mod(amount * f, total_weight);
    lemma_mod_bound(amount * f, total_weight);
    lemma_mul_is_commutative(total_weight, delta);
    lemma_div_is_ordered(delta * total_weight, amount * f, f);
    lemma_mul_is_commutative(amount, f);
    lemma_div_by_multiple(amount, f);
}

/// A deposit never lowers the index: the increment is non-negative.
pub proof fn lemma_index_monotonic(amount: int, total_weight: int)
    requires
        0 <= amount,
        0 < total_weight,
    ensures
        ratio_atomics(amount, total_weight) >= 0,
{
    lemma_mul_nonnegative(amount, DECIMAL_FRACTIONAL as int);
    lemma_div_pos_is_pos(amount * (DECIMAL_FRACTIONAL as int), total_weight);
}

/// Idempotent re-claim, as arithmetic: a user checkpointed at the current
/// index with nothing pending accrues exactly zero, at any weight.
pub proof fn lemma_idempotent_reclaim_amount(gi: int, w: int)
    ensures
        accrued_amount(gi, gi, 0, w) == 0,
{
}

/// Idempotent re-claim, as a whole claim: right after a claim the record
/// reads `(global index, 0)`; claiming the same asset again with no
/// intervening deposit or weight change emits an instruction over exactly
/// zero and writes back the identical checkpoint.
pub proof fn lemma_idempotent_reclaim(
    store: GlobalIndexStore,
    ledger: DistributionLedger,
    user: Seq<char>,
    w: int,
    a: (bool, Seq<char>),
)
    requires
        0 <= w <= u128::MAX,
        store.spec_get(a) != 0,
        ledger.spec_get(user, a) == Some((store.spec_get(a), 0int)),
    ensures
        claim_fold(store, ledger, user, w, seq![a], Map::empty()) == Some(
            (
                seq![(a, user, 0int)],
                Map::<(bool, Seq<char>), (int, int)>::empty().insert(a, (store.spec_get(a), 0)),
            ),
        ),
{
    reveal_with_fuel(claim_fold, 3);
    let gi = store.spec_get(a);
    let assets = seq![a];
    assert(assets.len() == 1 && assets[0] == a);
    assert(accrue_ok(gi, gi, 0, w));
    assert(assets.drop_first() =~= Seq::<(bool, Seq<char>)>::empty());
    assert(seq![(a, user, accrued_amount(gi, gi, 0, w))] + Seq::<
        ((bool, Seq<char>), Seq<char>, int),
    >::empty() =~= seq![(a, user, 0int)]);
}

/// Weight-change correctness: when the index moves from `i1` to `i2` while
/// the weight is `w1`, settlement at the old weight is checkpointed, and
/// the index then moves on to `i3`, a claim at the new weight `w2` pays the
/// `w1`-share of the first growth plus the `w2`-share of the second -- the
/// first period is never re-priced at the new weight.
pub proof fn lemma_weight_change_correctness(i1: int, i2: int, i3: int, w1: int, w2: int, p: int)
    ensures
        accrued_amount(i3, i2, accrued_amount(i2, i1, p, w1), w2) == (i2 - i1) * w1 / (
        DECIMAL_FRACTIONAL as int) + (i3 - i2) * w2 / (DECIMAL_FRACTIONAL as int) + p,
{
}

/// Unminted asset no-op: a claim over an asset whose global index was never
/// raised from zero emits no instruction and writes no checkpoint.
pub proof fn lemma_unminted_asset_noop(
    store: GlobalIndexStore,
    ledger: DistributionLedger,
    user: Seq<char>,
    w: int,
    a: (bool, Seq<char>),
    m: Map<(bool, Seq<char>), (int, int)>,
)
    requires
        store.spec_get(a) == 0,
    ensures
        claim_fold(store, ledger, user, w, seq![a], m) == Some(
            (Seq::<((bool, Seq<char>), Seq<char>, int)>::empty(), m),
        ),
{
    reveal_with_fuel(claim_fold, 3);
    let assets = seq![a];
    assert(assets.len() == 1 && assets[0] == a);
    assert(assets.drop_first() =~= Seq::<(bool, Seq<char>)>::empty());
}

} // verus!
