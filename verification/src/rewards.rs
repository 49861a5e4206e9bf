use vstd::prelude::*;
use crate::decimal::{Decimal, DECIMAL_FRACTIONAL};
use crate::error::DistributorError;
use crate::state::UserDistribution;

verus! {

/// The exact amount a user is owed: the growth of the global index since the
/// user's checkpoint, multiplied by the weight and rounded down to a whole
/// amount, plus whatever was already pending.
pub open spec fn accrued_amount(global_index: int, user_index: int, pending: int, weight: int) -> int {
    (global_index - user_index) * weight / (DECIMAL_FRACTIONAL as int) + pending
}

/// The accrual computes exactly when the checkpoint does not exceed the
/// global index and neither the product nor the final sum leaves the
/// representable range.
pub open spec fn accrue_ok(global_index: int, user_index: int, pending: int, weight: int) -> bool {
    &&& user_index <= global_index
    &&& (global_index - user_index) * weight <= u128::MAX
    &&& (global_index - user_index) * weight / (DECIMAL_FRACTIONAL as int) + pending <= u128::MAX
}

/// The checkpoint index a record carries, or zero before the record exists.
pub open spec fn dist_user_index(distribution: Option<&UserDistribution>) -> int {
    match distribution {
        Some(d) => d.user_index@,
        None => 0,
    }
}

/// The pending amount a record carries, or zero before the record exists.
pub open spec fn dist_pending(distribution: Option<&UserDistribution>) -> int {
    match distribution {
        Some(d) => d.pending_rewards as int,
        None => 0,
    }
}

/// Pure accrual computation, the single source of truth shared by the
/// weight-update path and the claim path.  Arithmetic leaving the
/// representable range is an error; nothing is ever clamped.
pub fn accrue(global_index: Decimal, distribution: Option<&UserDistribution>, weight: u128) -> (r:
    Result<u128, DistributorError>)
    ensures
        accrue_ok(
            global_index@,
            dist_user_index(distribution),
            dist_pending(distribution),
            weight as int,
        ) ==> (r matches Ok(a) && a == accrued_amount(
            global_index@,
            dist_user_index(distribution),
            dist_pending(distribution),
            weight as int,
        )),
        !accrue_ok(
            global_index@,
            dist_user_index(distribution),
            dist_pending(distribution),
            weight as int,
        ) ==> r == Err::<u128, DistributorError>(DistributorError::Overflow),
{
    let user_index = match distribution {
        Some(d) => d.user_index,
        None => Decimal::zero(),
    };
    let pending = match distribution {
        Some(d) => d.pending_rewards,
        None => 0u128,
    };
    let growth = match global_index.checked_sub(user_index) {
        Ok(d) => d,
        Err(e) => {
            return Err(e);
        },
    };
    let base = match growth.mul_floor(weight) {
        Ok(b) => b,
        Err(e) => {
            return Err(e);
        },
    };
    if base <= u128::MAX - pending {
        Ok(base + pending)
    } else {
        Err(DistributorError::Overflow)
    }
}

} // verus!
