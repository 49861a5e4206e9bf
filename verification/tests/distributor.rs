use funds_distributor::api::{ClaimRewardsMsg, UpdateUserWeightsMsg, UserRewardsParams, UserWeight};
use funds_distributor::asset::Asset;
use funds_distributor::decimal::{Decimal, DECIMAL_FRACTIONAL};
use funds_distributor::error::DistributorError;
use funds_distributor::claim::{claim_rewards, query_user_rewards};
use funds_distributor::rewards::accrue;
use funds_distributor::state::DistributorState;
use funds_distributor::weights::update_user_weights;

const F: u128 = DECIMAL_FRACTIONAL;

fn enterprise() -> String {
    "enterprise".to_string()
}

fn fresh_state() -> DistributorState {
    DistributorState::new(enterprise())
}

fn claim_msg(user: &str, weight: u128, denoms: Vec<&str>, cw20s: Vec<&str>) -> ClaimRewardsMsg {
    ClaimRewardsMsg {
        user: user.to_string(),
        user_weight: weight,
        native_denoms: denoms.into_iter().map(|d| d.to_string()).collect(),
        cw20_assets: cw20s.into_iter().map(|a| a.to_string()).collect(),
    }
}

#[test]
fn deposit_raises_index_by_ratio() {
    let mut state = fresh_state();
    let asset = Asset::Native("denomx".to_string());
    state.global_indices.increment(&asset, 1000, 100).unwrap();
    assert_eq!(state.global_indices.get(&asset), Decimal::raw(10 * F));
}

#[test]
fn deposit_with_zero_total_weight_is_rejected() {
    let mut state = fresh_state();
    let asset = Asset::Native("denomx".to_string());
    let r = state.global_indices.increment(&asset, 1000, 0);
    assert_eq!(r, Err(DistributorError::InvalidWeight));
    assert_eq!(state.global_indices.get(&asset), Decimal::zero());
}

#[test]
fn first_claim_pays_weight_share_and_checkpoints() {
    let mut state = fresh_state();
    let asset = Asset::Native("denomx".to_string());
    state.global_indices.increment(&asset, 1000, 100).unwrap();

    let out = claim_rewards(&mut state, &enterprise(), claim_msg("user", 30, vec!["denomx"], vec![]))
        .unwrap();
    assert_eq!(out.len(), 1);
    assert_eq!(out[0].amount, 300);
    assert_eq!(out[0].recipient, "user");
    assert!(matches!(&out[0].asset, Asset::Native(d) if d == "denomx"));

    let rec = state.distributions.get(&"user".to_string(), &asset).unwrap();
    assert_eq!(rec.user_index, Decimal::raw(10 * F));
    assert_eq!(rec.pending_rewards, 0);
}

#[test]
fn weight_change_settles_at_old_weight() {
    let mut state = fresh_state();
    let asset = Asset::Native("denomx".to_string());
    // Index 10 after the first deposit; the user claims at weight 30.
    state.global_indices.increment(&asset, 1000, 100).unwrap();
    claim_rewards(&mut state, &enterprise(), claim_msg("user", 30, vec!["denomx"], vec![])).unwrap();
    // 800 more against the 100-weight pool: index 18.
    state.global_indices.increment(&asset, 800, 100).unwrap();
    // The user's weight changes from 30 to 10; settlement at the old weight.
    update_user_weights(
        &mut state,
        &enterprise(),
        UpdateUserWeightsMsg {
            old_user_weights: vec![UserWeight { user: "user".to_string(), weight: 30 }],
            new_total_weight: 80,
        },
    )
    .unwrap();
    let rec = state.distributions.get(&"user".to_string(), &asset).unwrap();
    assert_eq!(rec.user_index, Decimal::raw(18 * F));
    assert_eq!(rec.pending_rewards, 240);
    // 800 more against the new total weight 80: index 28.
    state.global_indices.increment(&asset, 800, 80).unwrap();
    assert_eq!(state.global_indices.get(&asset), Decimal::raw(28 * F));
    // Claim at the new weight: (28 - 18) * 10 + 240 = 340.
    let out = claim_rewards(&mut state, &enterprise(), claim_msg("user", 10, vec!["denomx"], vec![]))
        .unwrap();
    assert_eq!(out.len(), 1);
    assert_eq!(out[0].amount, 340);
}

#[test]
fn reclaim_without_new_deposit_pays_zero() {
    let mut state = fresh_state();
    let asset = Asset::Native("denomx".to_string());
    state.global_indices.increment(&asset, 1000, 100).unwrap();
    claim_rewards(&mut state, &enterprise(), claim_msg("user", 30, vec!["denomx"], vec![])).unwrap();
    // No deposit and no weight change in between: the instruction is still
    // emitted, over exactly zero.
    let out = claim_rewards(&mut state, &enterprise(), claim_msg("user", 30, vec!["denomx"], vec![]))
        .unwrap();
    assert_eq!(out.len(), 1);
    assert_eq!(out[0].amount, 0);
}

#[test]
fn unminted_asset_claim_is_a_noop() {
    let mut state = fresh_state();
    let out = claim_rewards(&mut state, &enterprise(), claim_msg("user", 30, vec!["nodep"], vec![]))
        .unwrap();
    assert!(out.is_empty());
    assert!(state.distributions.get(&"user".to_string(), &Asset::Native("nodep".to_string())).is_none());
}

#[test]
fn claim_by_non_controller_is_rejected() {
    let mut state = fresh_state();
    let asset = Asset::Native("denomx".to_string());
    state.global_indices.increment(&asset, 1000, 100).unwrap();
    let r = claim_rewards(&mut state, &"mallory".to_string(), claim_msg("user", 30, vec!["denomx"], vec![]));
    assert_eq!(r, Err(DistributorError::Unauthorized));
    assert!(state.distributions.get(&"user".to_string(), &asset).is_none());
}

#[test]
fn claim_with_empty_user_is_rejected() {
    let mut state = fresh_state();
    let r = claim_rewards(&mut state, &enterprise(), claim_msg("", 30, vec!["denomx"], vec![]));
    assert_eq!(r, Err(DistributorError::MalformedIdentity));
}

#[test]
fn claim_with_empty_token_address_is_rejected() {
    let mut state = fresh_state();
    let r = claim_rewards(&mut state, &enterprise(), claim_msg("user", 30, vec![], vec![""]));
    assert_eq!(r, Err(DistributorError::MalformedIdentity));
}

#[test]
fn weight_update_by_non_controller_is_rejected() {
    let mut state = fresh_state();
    let r = update_user_weights(
        &mut state,
        &"mallory".to_string(),
        UpdateUserWeightsMsg {
            old_user_weights: vec![UserWeight { user: "user".to_string(), weight: 30 }],
            new_total_weight: 80,
        },
    );
    assert_eq!(r, Err(DistributorError::Unauthorized));
}

#[test]
fn weight_update_with_empty_user_is_rejected() {
    let mut state = fresh_state();
    let r = update_user_weights(
        &mut state,
        &enterprise(),
        UpdateUserWeightsMsg {
            old_user_weights: vec![UserWeight { user: String::new(), weight: 30 }],
            new_total_weight: 80,
        },
    );
    assert_eq!(r, Err(DistributorError::MalformedIdentity));
}

#[test]
fn claims_never_exceed_the_deposit() {
    let mut state = fresh_state();
    let asset = Asset::Native("denomx".to_string());
    state.global_indices.increment(&asset, 1000, 100).unwrap();
    let mut total: u128 = 0;
    for (user, weight) in [("alice", 30u128), ("bob", 30), ("carol", 40)] {
        let out =
            claim_rewards(&mut state, &enterprise(), claim_msg(user, weight, vec!["denomx"], vec![]))
                .unwrap();
        total += out[0].amount;
    }
    assert_eq!(total, 1000);
}

#[test]
fn rounding_loses_dust_but_never_overpays() {
    let mut state = fresh_state();
    let asset = Asset::Native("denomx".to_string());
    state.global_indices.increment(&asset, 100, 3).unwrap();
    let mut total: u128 = 0;
    for user in ["alice", "bob", "carol"] {
        let out = claim_rewards(&mut state, &enterprise(), claim_msg(user, 1, vec!["denomx"], vec![]))
            .unwrap();
        total += out[0].amount;
    }
    assert_eq!(total, 99);
    assert!(total <= 100);
}

#[test]
fn overflowing_accrual_fails_and_leaves_state_unchanged() {
    let mut state = fresh_state();
    let asset = Asset::Native("denomx".to_string());
    // One deposit drives the index to 3e38 atomics; a weight of 2 then
    // overflows the 128-bit product.
    state.global_indices.increment(&asset, 300_000_000_000_000_000_000, 1).unwrap();
    let r = claim_rewards(&mut state, &enterprise(), claim_msg("user", 2, vec!["denomx"], vec![]));
    assert_eq!(r, Err(DistributorError::Overflow));
    assert!(state.distributions.get(&"user".to_string(), &asset).is_none());
}

#[test]
fn duplicate_asset_in_one_claim_pays_only_once() {
    let mut state = fresh_state();
    let asset = Asset::Native("denomx".to_string());
    state.global_indices.increment(&asset, 1000, 100).unwrap();
    let out = claim_rewards(
        &mut state,
        &enterprise(),
        claim_msg("user", 30, vec!["denomx", "denomx"], vec![]),
    )
    .unwrap();
    assert_eq!(out.len(), 2);
    assert_eq!(out[0].amount, 300);
    assert_eq!(out[1].amount, 0);
}

#[test]
fn cw20_and_native_claims_are_ordered_and_independent() {
    let mut state = fresh_state();
    let native = Asset::Native("denomx".to_string());
    let token = Asset::Cw20("tokenaddr".to_string());
    state.global_indices.increment(&native, 1000, 100).unwrap();
    state.global_indices.increment(&token, 500, 100).unwrap();
    let out = claim_rewards(
        &mut state,
        &enterprise(),
        claim_msg("user", 20, vec!["denomx"], vec!["tokenaddr"]),
    )
    .unwrap();
    assert_eq!(out.len(), 2);
    assert!(matches!(&out[0].asset, Asset::Native(d) if d == "denomx"));
    assert_eq!(out[0].amount, 200);
    assert!(matches!(&out[1].asset, Asset::Cw20(a) if a == "tokenaddr"));
    assert_eq!(out[1].amount, 100);
}

#[test]
fn query_mirrors_claim_without_state_change() {
    let mut state = fresh_state();
    let native = Asset::Native("denomx".to_string());
    let token = Asset::Cw20("tokenaddr".to_string());
    state.global_indices.increment(&native, 1000, 100).unwrap();
    state.global_indices.increment(&token, 500, 100).unwrap();
    let params = || UserRewardsParams {
        user: "user".to_string(),
        user_weight: 20,
        native_denoms: vec!["denomx".to_string()],
        cw20_assets: vec!["tokenaddr".to_string()],
    };
    let resp = query_user_rewards(&state, params()).unwrap();
    assert_eq!(resp.native_rewards.len(), 1);
    assert_eq!(resp.native_rewards[0].denom, "denomx");
    assert_eq!(resp.native_rewards[0].amount, 200);
    assert_eq!(resp.cw20_rewards.len(), 1);
    assert_eq!(resp.cw20_rewards[0].asset, "tokenaddr");
    assert_eq!(resp.cw20_rewards[0].amount, 100);
    // The query wrote nothing: a claim still pays the same amounts.
    let out = claim_rewards(
        &mut state,
        &enterprise(),
        claim_msg("user", 20, vec!["denomx"], vec!["tokenaddr"]),
    )
    .unwrap();
    assert_eq!(out[0].amount, 200);
    assert_eq!(out[1].amount, 100);
    // After the claim the same query reports zero.
    let resp = query_user_rewards(&state, params()).unwrap();
    assert_eq!(resp.native_rewards[0].amount, 0);
    assert_eq!(resp.cw20_rewards[0].amount, 0);
}

#[test]
fn query_skips_unminted_assets() {
    let state = fresh_state();
    let resp = query_user_rewards(
        &state,
        UserRewardsParams {
            user: "user".to_string(),
            user_weight: 20,
            native_denoms: vec!["nodep".to_string()],
            cw20_assets: vec![],
        },
    )
    .unwrap();
    assert!(resp.native_rewards.is_empty());
    assert!(resp.cw20_rewards.is_empty());
}

#[test]
fn decimal_arithmetic_is_exact_and_checked() {
    assert_eq!(Decimal::from_ratio(1, 3).unwrap(), Decimal::raw(333_333_333_333_333_333));
    assert_eq!(Decimal::from_ratio(1, 3).unwrap().mul_floor(100).unwrap(), 33);
    assert_eq!(
        Decimal::raw(u128::MAX).checked_add(Decimal::raw(1)),
        Err(DistributorError::Overflow)
    );
    assert_eq!(
        Decimal::zero().checked_sub(Decimal::raw(1)),
        Err(DistributorError::Overflow)
    );
    assert_eq!(Decimal::from_ratio(5, 0), Err(DistributorError::InvalidWeight));
}

#[test]
fn accrue_uses_checkpoint_and_pending() {
    // No record yet: the whole index growth counts.
    assert_eq!(accrue(Decimal::raw(10 * F), None, 30).unwrap(), 300);
    // A stale checkpoint above the index is an arithmetic error.
    let mut state = fresh_state();
    let asset = Asset::Native("denomx".to_string());
    state.global_indices.increment(&asset, 1000, 100).unwrap();
    claim_rewards(&mut state, &enterprise(), claim_msg("user", 30, vec!["denomx"], vec![])).unwrap();
    let rec = state.distributions.get(&"user".to_string(), &asset).unwrap();
    assert_eq!(accrue(Decimal::zero(), Some(rec), 30), Err(DistributorError::Overflow));
}

#[test]
fn weight_update_settles_every_funded_asset_for_every_user() {
    let mut state = fresh_state();
    let native = Asset::Native("denomx".to_string());
    let token = Asset::Cw20("tokenaddr".to_string());
    state.global_indices.increment(&native, 1000, 100).unwrap();
    state.global_indices.increment(&token, 500, 100).unwrap();
    update_user_weights(
        &mut state,
        &enterprise(),
        UpdateUserWeightsMsg {
            old_user_weights: vec![
                UserWeight { user: "alice".to_string(), weight: 30 },
                UserWeight { user: "bob".to_string(), weight: 10 },
            ],
            new_total_weight: 120,
        },
    )
    .unwrap();
    let alice_native = state.distributions.get(&"alice".to_string(), &native).unwrap();
    assert_eq!(alice_native.pending_rewards, 300);
    assert_eq!(alice_native.user_index, Decimal::raw(10 * F));
    let alice_token = state.distributions.get(&"alice".to_string(), &token).unwrap();
    assert_eq!(alice_token.pending_rewards, 150);
    let bob_native = state.distributions.get(&"bob".to_string(), &native).unwrap();
    assert_eq!(bob_native.pending_rewards, 100);
    let bob_token = state.distributions.get(&"bob".to_string(), &token).unwrap();
    assert_eq!(bob_token.pending_rewards, 50);
}

#[test]
fn weight_update_skips_unfunded_assets() {
    let mut state = fresh_state();
    update_user_weights(
        &mut state,
        &enterprise(),
        UpdateUserWeightsMsg {
            old_user_weights: vec![UserWeight { user: "alice".to_string(), weight: 30 }],
            new_total_weight: 120,
        },
    )
    .unwrap();
    assert!(state
        .distributions
        .get(&"alice".to_string(), &Asset::Native("denomx".to_string()))
        .is_none());
}

#[test]
fn full_history_preserves_every_period_weight() {
    // The claimed total equals w1 * (i2 - i1) + w2 * (i3 - i2), never
    // w2 * (i3 - i1).
    let mut state = fresh_state();
    let asset = Asset::Native("denomx".to_string());
    state.global_indices.increment(&asset, 1000, 100).unwrap();  // i: 0 -> 10
    update_user_weights(
        &mut state,
        &enterprise(),
        UpdateUserWeightsMsg {
            old_user_weights: vec![UserWeight { user: "user".to_string(), weight: 50 }],
            new_total_weight: 100,
        },
    )
    .unwrap();
    state.global_indices.increment(&asset, 1000, 100).unwrap();  // i: 10 -> 20
    let out = claim_rewards(&mut state, &enterprise(), claim_msg("user", 5, vec!["denomx"], vec![]))
        .unwrap();
    // 50 * 10 + 5 * 10 = 550, not 5 * 20 = 100.
    assert_eq!(out[0].amount, 550);
}

#[test]
fn duplicate_user_in_weight_update_settles_once() {
    let mut state = fresh_state();
    let asset = Asset::Native("denomx".to_string());
    state.global_indices.increment(&asset, 1000, 100).unwrap();
    update_user_weights(
        &mut state,
        &enterprise(),
        UpdateUserWeightsMsg {
            old_user_weights: vec![
                UserWeight { user: "user".to_string(), weight: 30 },
                UserWeight { user: "user".to_string(), weight: 50 },
            ],
            new_total_weight: 120,
        },
    )
    .unwrap();
    // The second entry reads the first entry's checkpoint, whose growth is
    // already zero, so the settled amount stays what the first weight earned.
    let rec = state.distributions.get(&"user".to_string(), &asset).unwrap();
    assert_eq!(rec.pending_rewards, 300);
    assert_eq!(rec.user_index, Decimal::raw(10 * F));
}

#[test]
fn overflowing_query_reports_the_same_error_as_claim() {
    let mut state = fresh_state();
    let asset = Asset::Native("denomx".to_string());
    state.global_indices.increment(&asset, 300_000_000_000_000_000_000, 1).unwrap();
    let params = UserRewardsParams {
        user: "user".to_string(),
        user_weight: 2,
        native_denoms: vec!["denomx".to_string()],
        cw20_assets: vec![],
    };
    let r = query_user_rewards(&state, params);
    assert!(matches!(r, Err(DistributorError::Overflow)));
}
