use vstd::prelude::*;
use vstd::arithmetic::div_mod::{lemma_div_pos_is_pos, lemma_fundamental_div_mod, lemma_mod_bound};
use vstd::arithmetic::mul::{lemma_mul_inequality, lemma_mul_is_commutative, lemma_mul_is_distributive_add, lemma_mul_is_distributive_add_other_way, lemma_mul_nonnegative};
use crate::decimal::{ratio_atomics, DECIMAL_FRACTIONAL};
use crate::laws::{lemma_index_monotonic, sum_weights};
use crate::rewards::accrued_amount;

verus! {

/// An abstract, one-asset history of the ledger, used to state conservation
/// over whole operation sequences.  A user is an index; a record is the
/// (checkpoint index, pending amount) pair its table row carries; weights
/// live beside the records because the external authority owns them and the
/// ledger only ever sees them as operation arguments.
pub ghost struct AssetTraceState {
    pub gi: int,
    pub recs: Seq<(int, int)>,
    pub ws: Seq<int>,
    pub deposited: int,
    pub claimed: int,
}

/// One ledger operation touching the asset: a deposit raising the index, a
/// weight change (settlement at the old weight, then the new weight), or a
/// full claim.
pub ghost enum LedgerOp {
    Deposit { amount: int, total_weight: int },
    WeightChange { user: int, new_weight: int },
    Claim { user: int },
}

/// A user's entitlement, scaled by the fixed-point unit so it stays an
/// integer: the pending amount in atomic-units plus the un-floored growth
/// since the checkpoint.  This dominates what a claim can pay.
pub open spec fn owed_scaled(gi: int, rec: (int, int), w: int) -> int {
    rec.1 * (DECIMAL_FRACTIONAL as int) + (gi - rec.0) * w
}

/// The outstanding entitlement summed over every user.
pub open spec fn total_owed_scaled(gi: int, recs: Seq<(int, int)>, ws: Seq<int>) -> int
    decreases recs.len(),
{
    if recs.len() == 0 {
        0
    } else {
        owed_scaled(gi, recs[0], ws[0]) + total_owed_scaled(
            gi,
            recs.drop_first(),
            ws.drop_first(),
        )
    }
}

/// When an operation is admitted; anything else is rejected with no state
/// change, as the executable paths do.
pub open spec fn op_allowed(s: AssetTraceState, op: LedgerOp) -> bool {
    match op {
        LedgerOp::Deposit { amount, total_weight } => amount >= 0 && total_weight > 0
            && sum_weights(s.ws) <= total_weight,
        LedgerOp::WeightChange { user, new_weight } => 0 <= user < s.recs.len() && new_weight
            >= 0,
        LedgerOp::Claim { user } => 0 <= user < s.recs.len(),
    }
}

/// What each admitted operation does, in exactly the terms the executable
/// contracts use: deposits raise the index by `ratio_atomics`, settlements
/// and claims move `accrued_amount` into the record or out to the user.
pub open spec fn apply_op(s: AssetTraceState, op: LedgerOp) -> AssetTraceState {
    match op {
        LedgerOp::Deposit { amount, total_weight } => AssetTraceState {
            gi: s.gi + ratio_atomics(amount, total_weight),
            deposited: s.deposited + amount,
            ..s
        },
        LedgerOp::WeightChange { user, new_weight } => AssetTraceState {
            recs: s.recs.update(
                user,
                (s.gi, accrued_amount(s.gi, s.recs[user].0, s.recs[user].1, s.ws[user])),
            ),
            ws: s.ws.update(user, new_weight),
            ..s
        },
        LedgerOp::Claim { user } => AssetTraceState {
            recs: s.recs.update(user, (s.gi, 0)),
            claimed: s.claimed + accrued_amount(
                s.gi,
                s.recs[user].0,
                s.recs[user].1,
                s.ws[user],
            ),
            ..s
        },
    }
}

pub open spec fn step(s: AssetTraceState, op: LedgerOp) -> AssetTraceState {
    if op_allowed(s, op) {
        apply_op(s, op)
    } else {
        s
    }
}

pub open spec fn run_trace(s: AssetTraceState, ops: Seq<LedgerOp>) -> AssetTraceState
    decreases ops.len(),
{
    if ops.len() == 0 {
        s
    } else {
        run_trace(step(s, ops[0]), ops.drop_first())
    }
}

pub open spec fn wf_state(s: AssetTraceState) -> bool {
    &&& s.recs.len() == s.ws.len()
    &&& s.gi >= 0
    &&& s.deposited >= 0
    &&& s.claimed >= 0
    &&& forall|i: int|
        0 <= i < s.recs.len() ==> 0 <= (#[trigger] s.recs[i]).0 <= s.gi && s.recs[i].1 >= 0
    &&& forall|i: int| 0 <= i < s.ws.len() ==> #[trigger] s.ws[i] >= 0
}

/// The conservation invariant: nothing was ever paid that was not
/// deposited, and the undistributed residual covers every outstanding
/// entitlement.
pub open spec fn conserved(s: AssetTraceState) -> bool {
    &&& wf_state(s)
    &&& s.claimed <= s.deposited
    &&& total_owed_scaled(s.gi, s.recs, s.ws) >= 0
    &&& (s.deposited - s.claimed) * (DECIMAL_FRACTIONAL as int) >= total_owed_scaled(
        s.gi,
        s.recs,
        s.ws,
    )
}

proof fn lemma_sum_weights_nonneg(ws: Seq<int>)
    requires
        forall|i: int| 0 <= i < ws.len() ==> #[trigger] ws[i] >= 0,
    ensures
        sum_weights(ws) >= 0,
    decreases ws.len(),
{
    if ws.len() > 0 {
        lemma_sum_weights_nonneg(ws.drop_first());
    }
}

proof fn lemma_total_owed_nonneg(gi: int, recs: Seq<(int, int)>, ws: Seq<int>)
    requires
        recs.len() == ws.len(),
        forall|i: int|
            0 <= i < recs.len() ==> 0 <= (#[trigger] recs[i]).0 <= gi && recs[i].1 >= 0
                && ws[i] >= 0,
    ensures
        total_owed_scaled(gi, recs, ws) >= 0,
    decreases recs.len(),
{
    if recs.len() > 0 {
        lemma_mul_nonnegative(gi - recs[0].0, ws[0]);
        lemma_total_owed_nonneg(gi, recs.drop_first(), ws.drop_first());
    }
}

/// Replacing one user's record and weight shifts the total by exactly the
/// difference of that user's entitlement.
proof fn lemma_total_owed_update(
    gi: int,
    recs: Seq<(int, int)>,
    ws: Seq<int>,
    u: int,
    rec2: (int, int),
    w2: int,
)
    requires
        recs.len() == ws.len(),
        0 <= u < recs.len(),
    ensures
        total_owed_scaled(gi, recs.update(u, rec2), ws.update(u, w2)) == total_owed_scaled(
            gi,
            recs,
            ws,
        ) - owed_scaled(gi, recs[u], ws[u]) + owed_scaled(gi, rec2, w2),
    decreases recs.len(),
{
    let recs2 = recs.update(u, rec2);
    let ws2 = ws.update(u, w2);
    if u == 0 {
        assert(recs2.drop_first() =~= recs.drop_first());
        assert(ws2.drop_first() =~= ws.drop_first());
    } else {
        assert(recs2.drop_first() =~= recs.drop_first().update(u - 1, rec2));
        assert(ws2.drop_first() =~= ws.drop_first().update(u - 1, w2));
        lemma_total_owed_update(gi, recs.drop_first(), ws.drop_first(), u - 1, rec2, w2);
    }
}

/// Raising the index by `delta` raises the total entitlement by `delta`
/// times the total weight.
proof fn lemma_total_owed_raise(gi: int, delta: int, recs: Seq<(int, int)>, ws: Seq<int>)
    requires
        recs.len() == ws.len(),
    ensures
        total_owed_scaled(gi + delta, recs, ws) == total_owed_scaled(gi, recs, ws) + delta
            * sum_weights(ws),
    decreases recs.len(),
{
    if recs.len() == 0 {
    } else {
        lemma_total_owed_raise(gi, delta, recs.drop_first(), ws.drop_first());
        lemma_mul_is_distributive_add_other_way(ws[0], gi - recs[0].0, delta);
        lemma_mul_is_distributive_add(delta, ws[0], sum_weights(ws.drop_first()));
        lemma_mul_is_commutative(delta, ws[0]);
        lemma_mul_is_commutative(gi - recs[0].0, ws[0]);
        lemma_mul_is_commutative(gi + delta - recs[0].0, ws[0]);
    }
}

/// What a settlement or claim moves is never more than the scaled
/// entitlement, and never negative: whenever the checkpoint does not
/// exceed the global index and the weight is non-negative, the accrued
/// amount is non-negative, and rounding only ever favours the pool.
pub proof fn lemma_accrued_covered(gi: int, ui: int, p: int, w: int)
    requires
        0 <= ui <= gi,
        p >= 0,
        w >= 0,
    ensures
        accrued_amount(gi, ui, p, w) >= 0,
        accrued_amount(gi, ui, p, w) * (DECIMAL_FRACTIONAL as int) <= owed_scaled(
            gi,
            (ui, p),
            w,
        ),
{
    let f = DECIMAL_FRACTIONAL as int;
    let x = (gi - ui) * w;
    lemma_mul_nonnegative(gi - ui, w);
    lemma_div_pos_is_pos(x, f);
    lemma_fundamental_div_mod(x, f);
    lemma_mod_bound(x, f);
    lemma_mul_is_commutative(x / f, f);
    lemma_mul_is_distributive_add_other_way(f, x / f, p);
}

/// One admitted or rejected operation keeps the invariant.
proof fn lemma_step_preserves(s: AssetTraceState, op: LedgerOp)
    requires
        conserved(s),
    ensures
        conserved(step(s, op)),
{
    let f = DECIMAL_FRACTIONAL as int;
    if op_allowed(s, op) {
        let s2 = apply_op(s, op);
        match op {
            LedgerOp::Deposit { amount, total_weight } => {
                let delta = ratio_atomics(amount, total_weight);
                lemma_index_monotonic(amount, total_weight);
                lemma_total_owed_raise(s.gi, delta, s.recs, s.ws);
                lemma_sum_weights_nonneg(s.ws);
                lemma_mul_inequality(sum_weights(s.ws), total_weight, delta);
                lemma_mul_is_commutative(sum_weights(s.ws), delta);
                lemma_mul_is_commutative(total_weight, delta);
                lemma_mul_nonnegative(amount, f);
                lemma_fundamental_div_mod(amount * f, total_weight);
                lemma_mod_bound(amount * f, total_weight);
                assert((s.deposited + amount - s.claimed) * f == (s.deposited - s.claimed) * f
                    + amount * f) by {
                    lemma_mul_is_distributive_add_other_way(
                        f,
                        s.deposited - s.claimed,
                        amount,
                    );
                }
                lemma_total_owed_nonneg(s2.gi, s2.recs, s2.ws);
            },
            LedgerOp::WeightChange { user, new_weight } => {
                let ui = s.recs[user].0;
                let p = s.recs[user].1;
                let w = s.ws[user];
                let acc = accrued_amount(s.gi, ui, p, w);
                lemma_accrued_covered(s.gi, ui, p, w);
                lemma_total_owed_update(s.gi, s.recs, s.ws, user, (s.gi, acc), new_weight);
                assert((s.gi - s.gi) * new_weight == 0) by (nonlinear_arith);
                assert(owed_scaled(s.gi, (s.gi, acc), new_weight) == acc * f);
                lemma_total_owed_nonneg(s2.gi, s2.recs, s2.ws);
            },
            LedgerOp::Claim { user } => {
                let ui = s.recs[user].0;
                let p = s.recs[user].1;
                let w = s.ws[user];
                let acc = accrued_amount(s.gi, ui, p, w);
                lemma_accrued_covered(s.gi, ui, p, w);
                lemma_total_owed_update(s.gi, s.recs, s.ws, user, (s.gi, 0), w);
                assert(s.ws.update(user, w) =~= s.ws);
                assert((s.gi - s.gi) * w == 0) by (nonlinear_arith);
                assert(owed_scaled(s.gi, (s.gi, 0), w) == 0);
                lemma_total_owed_nonneg(s2.gi, s2.recs, s2.ws);
                assert((s.deposited - s2.claimed) * f == (s.deposited - s.claimed) * f - acc
                    * f) by {
                    lemma_mul_is_distributive_add_other_way(
                        f,
                        s.deposited - s2.claimed,
                        acc,
                    );
                }
            },
        }
    }
}

proof fn lemma_run_trace_preserves(s: AssetTraceState, ops: Seq<LedgerOp>)
    requires
        conserved(s),
    ensures
        conserved(run_trace(s, ops)),
    decreases ops.len(),
{
    if ops.len() > 0 {
        lemma_step_preserves(s, ops[0]);
        lemma_run_trace_preserves(step(s, ops[0]), ops.drop_first());
    }
}

/// The empty ledger over any set of non-negative starting weights: no
/// deposits, no claims, every record at checkpoint zero with nothing
/// pending.
pub open spec fn initial_state(ws0: Seq<int>) -> AssetTraceState {
    AssetTraceState {
        gi: 0,
        recs: Seq::new(ws0.len(), |i: int| (0int, 0int)),
        ws: ws0,
        deposited: 0,
        claimed: 0,
    }
}

proof fn lemma_total_owed_zero(recs: Seq<(int, int)>, ws: Seq<int>)
    requires
        recs.len() == ws.len(),
        forall|i: int| 0 <= i < recs.len() ==> #[trigger] recs[i] == (0int, 0int),
    ensures
        total_owed_scaled(0, recs, ws) == 0,
    decreases recs.len(),
{
    if recs.len() > 0 {
        assert forall|i: int|
            0 <= i < recs.drop_first().len() implies #[trigger] recs.drop_first()[i] == (
            0int,
            0int,
        ) by {
            assert(recs.drop_first()[i] == recs[i + 1]);
        }
        lemma_total_owed_zero(recs.drop_first(), ws.drop_first());
        assert(recs[0] == (0int, 0int));
        assert((0 - 0) * ws[0] == 0) by (nonlinear_arith);
    }
}

/// Conservation over whole histories: starting from the empty ledger,
/// across any sequence of deposits, weight changes and claims -- each
/// applied only when its guard admits it, exactly as the executable paths
/// do -- the total amount claimed never exceeds the total amount deposited,
/// and the undistributed residual always covers the sum of every user's
/// outstanding entitlement.
pub proof fn lemma_conservation_trace(ws0: Seq<int>, ops: Seq<LedgerOp>)
    requires
        forall|i: int| 0 <= i < ws0.len() ==> #[trigger] ws0[i] >= 0,
    ensures
        run_trace(initial_state(ws0), ops).claimed <= run_trace(initial_state(ws0), ops).deposited,
        (run_trace(initial_state(ws0), ops).deposited - run_trace(
            initial_state(ws0),
            ops,
        ).claimed) * (DECIMAL_FRACTIONAL as int) >= total_owed_scaled(
            run_trace(initial_state(ws0), ops).gi,
            run_trace(initial_state(ws0), ops).recs,
            run_trace(initial_state(ws0), ops).ws,
        ),
        total_owed_scaled(
            run_trace(initial_state(ws0), ops).gi,
            run_trace(initial_state(ws0), ops).recs,
            run_trace(initial_state(ws0), ops).ws,
        ) >= 0,
{
    let s0 = initial_state(ws0);
    lemma_total_owed_zero(s0.recs, s0.ws);
    lemma_run_trace_preserves(s0, ops);
}

} // verus!
