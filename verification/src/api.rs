use vstd::prelude::*;
use crate::asset::Asset;

verus! {

/// A user whose weight is about to change, with the weight it had before
/// the change.
pub struct UserWeight {
    pub user: String,
    pub weight: u128,
}

/// Notification that weights change: the listed users must be settled at
/// their old weights before the caller commits the new ones.
pub struct UpdateUserWeightsMsg {
    /// Previous weights that the users had, before the change.
    pub old_user_weights: Vec<UserWeight>,
    /// The new total weight, after accounting for the users' changes.  The
    /// ledger never stores weights; the value is carried for the caller's
    /// subsequent deposits.
    pub new_total_weight: u128,
}

/// A request to settle and pay out one user's rewards over a chosen set of
/// assets.
pub struct ClaimRewardsMsg {
    pub user: String,
    /// The user's current weight.
    pub user_weight: u128,
    /// Native denominations to be claimed.
    pub native_denoms: Vec<String>,
    /// Token rewards to be claimed, given as token contract addresses.
    pub cw20_assets: Vec<String>,
}

/// A read-only request mirroring the claim computation.
pub struct UserRewardsParams {
    pub user: String,
    /// The user's current weight.
    pub user_weight: u128,
    /// Native denominations to be queried for rewards.
    pub native_denoms: Vec<String>,
    /// Token contract addresses to be queried for rewards.
    pub cw20_assets: Vec<String>,
}

/// The amounts a claim over the same assets would pay out right now.
pub struct UserRewardsResponse {
    pub native_rewards: Vec<NativeReward>,
    pub cw20_rewards: Vec<Cw20Reward>,
}

pub struct NativeReward {
    pub denom: String,
    pub amount: u128,
}

pub struct Cw20Reward {
    /// Address of the token contract.
    pub asset: String,
    pub amount: u128,
}

/// A declarative instruction to move `amount` units of `asset` to
/// `recipient`.  The ledger only emits these; executing the transfer is the
/// caller's concern.
#[derive(Debug, PartialEq, Eq)]
pub struct TransferInstruction {
    pub asset: Asset,
    pub recipient: String,
    pub amount: u128,
}

impl View for TransferInstruction {
    type V = ((bool, Seq<char>), Seq<char>, int);

    open spec fn view(&self) -> ((bool, Seq<char>), Seq<char>, int) {
        (self.asset@, self.recipient@, self.amount as int)
    }
}

} // verus!
