use vstd::prelude::*;
use crate::api::UpdateUserWeightsMsg;
use crate::asset::Asset;
use crate::claim::valid_ident;
use crate::decimal::Decimal;
use crate::error::DistributorError;
use crate::rewards::{accrue, accrue_ok, accrued_amount, dist_pending, dist_user_index};
use crate::state::{dist_or_default, DistributionLedger, DistributorState};

verus! {

/// The users to settle, each with the weight it had before the change.
pub open spec fn users_of(msg: UpdateUserWeightsMsg) -> Seq<(Seq<char>, int)> {
    msg.old_user_weights@.map(|i: int, uw: crate::api::UserWeight| (uw.user@, uw.weight as int))
}

pub open spec fn weights_idents_ok(msg: UpdateUserWeightsMsg) -> bool {
    forall|i: int|
        0 <= i < msg.old_user_weights@.len() ==> valid_ident(
            #[trigger] msg.old_user_weights@[i].user@,
        )
}

/// Settlement of one asset at index `gi` for the listed users in order:
/// each user's checkpoint becomes `(gi, amount accrued at the old weight)`,
/// a later occurrence of the same user reading the earlier write.  `None`
/// when any accrual leaves the representable range.
pub open spec fn settle_users_fold(
    gi: int,
    a: (bool, Seq<char>),
    ledger: DistributionLedger,
    users: Seq<(Seq<char>, int)>,
    m: Map<(Seq<char>, (bool, Seq<char>)), (int, int)>,
) -> Option<Map<(Seq<char>, (bool, Seq<char>)), (int, int)>>
    decreases users.len(),
{
    if users.len() == 0 {
        Some(m)
    } else {
        let uw = users[0];
        let up = if m.dom().contains((uw.0, a)) {
            m[(uw.0, a)]
        } else {
            dist_or_default(ledger.spec_get(uw.0, a))
        };
        if accrue_ok(gi, up.0, up.1, uw.1) {
            settle_users_fold(
                gi,
                a,
                ledger,
                users.drop_first(),
                m.insert((uw.0, a), (gi, accrued_amount(gi, up.0, up.1, uw.1))),
            )
        } else {
            None
        }
    }
}

/// Settlement over the stored index entries in order, skipping assets whose
/// index is zero: with no deposit yet, accrual would be zero and no record
/// needs to be touched.
pub open spec fn settle_assets_fold(
    entries: Seq<(Asset, Decimal)>,
    ledger: DistributionLedger,
    users: Seq<(Seq<char>, int)>,
    m: Map<(Seq<char>, (bool, Seq<char>)), (int, int)>,
) -> Option<Map<(Seq<char>, (bool, Seq<char>)), (int, int)>>
    decreases entries.len(),
{
    if entries.len() == 0 {
        Some(m)
    } else {
        let gi = entries[0].1@;
        if gi == 0 {
            settle_assets_fold(entries.drop_first(), ledger, users, m)
        } else {
            match settle_users_fold(gi, entries[0].0@, ledger, users, m) {
                Some(m2) => settle_assets_fold(entries.drop_first(), ledger, users, m2),
                None => None,
            }
        }
    }
}

/// The ledger after a settlement: every touched (user, asset) pair carries
/// its new checkpoint, everything else is as before.
pub open spec fn settled_ledger_after(
    new_ledger: DistributionLedger,
    old_ledger: DistributionLedger,
    m: Map<(Seq<char>, (bool, Seq<char>)), (int, int)>,
) -> bool {
    forall|u: Seq<char>, k: (bool, Seq<char>)|
        #[trigger] new_ledger.spec_get(u, k) == (if m.dom().contains((u, k)) {
            Some(m[(u, k)])
        } else {
            old_ledger.spec_get(u, k)
        })
}

/// Settles every listed user at its old weight, for every asset whose
/// global index is not zero, checkpointing the accrued amount as pending.
///
/// This must run before the caller commits the new weights, so that the
/// index growth accumulated so far is attributed to the old weight.  Only
/// the configured controller may call.  Identifiers are validated before
/// any read.  Any accrual outside the representable range aborts the whole
/// settlement with no state change.  The carried new total weight is not
/// stored: weights stay owned by the caller.
pub fn update_user_weights(
    state: &mut DistributorState,
    sender: &String,
    msg: UpdateUserWeightsMsg,
) -> (r: Result<(), DistributorError>)
    requires
        old(state).wf(),
    ensures
        final(state).wf(),
        final(state).enterprise_contract == old(state).enterprise_contract,
        final(state).global_indices == old(state).global_indices,
        sender@ != old(state).enterprise_contract@ ==> r == Err::<(), DistributorError>(
            DistributorError::Unauthorized,
        ) && *final(state) == *old(state),
        sender@ == old(state).enterprise_contract@ && !weights_idents_ok(msg) ==> r == Err::<
            (),
            DistributorError,
        >(DistributorError::MalformedIdentity) && *final(state) == *old(state),
        sender@ == old(state).enterprise_contract@ && weights_idents_ok(msg) ==> (match
            settle_assets_fold(
            old(state).global_indices.entries@,
            old(state).distributions,
            users_of(msg),
            Map::empty(),
        ) {
            Some(mfin) => r == Ok::<(), DistributorError>(()) && settled_ledger_after(
                final(state).distributions,
                old(state).distributions,
                mfin,
            ),
            None => r == Err::<(), DistributorError>(DistributorError::Overflow) && *final(state)
                == *old(state),
        }),
{
    if !(*sender == state.enterprise_contract) {
        return Err(DistributorError::Unauthorized);
    }
    let mut vi: usize = 0;
    while vi < msg.old_user_weights.len()
        invariant
            0 <= vi <= msg.old_user_weights@.len(),
            forall|j: int|
                0 <= j < vi ==> valid_ident(#[trigger] msg.old_user_weights@[j].user@),
            *state == *old(state),
            state.wf(),
            sender@ == old(state).enterprise_contract@,
        decreases msg.old_user_weights@.len() - vi,
    {
        if msg.old_user_weights[vi].user.as_str().is_empty() {
            return Err(DistributorError::MalformedIdentity);
        }
        vi += 1;
    }

    let ghost entries0 = state.global_indices.entries@;
    let ghost ledger0 = state.distributions;
    let ghost users = users_of(msg);

    let mut updates = DistributionLedger::new();
    let ghost mut m = Map::<(Seq<char>, (bool, Seq<char>)), (int, int)>::empty();
    proof {
        assert(entries0.skip(0) =~= entries0);
    }

    let mut ai: usize = 0;
    while ai < state.global_indices.entries.len()
        invariant
            0 <= ai <= entries0.len(),
            *state == *old(state),
            state.wf(),
            sender@ == old(state).enterprise_contract@,
            weights_idents_ok(msg),
            entries0 == state.global_indices.entries@,
            ledger0 == state.distributions,
            users == users_of(msg),
            updates.wf(),
            forall|u: Seq<char>, k: (bool, Seq<char>)|
                #[trigger] updates.spec_get(u, k) == (if m.dom().contains((u, k)) {
                    Some(m[(u, k)])
                } else {
                    None::<(int, int)>
                }),
            settle_assets_fold(entries0, ledger0, users, Map::empty()) == settle_assets_fold(
                entries0.skip(ai as int),
                ledger0,
                users,
                m,
            ),
        decreases entries0.len() - ai,
    {
        let ghost a = entries0[ai as int].0@;
        let ghost gi_v = entries0[ai as int].1@;
        proof {
            assert(entries0.skip(ai as int)[0] == entries0[ai as int]);
            assert(entries0.skip(ai as int).drop_first() =~= entries0.skip(ai as int + 1));
        }
        let entry_gi = state.global_indices.entries[ai].1;
        if entry_gi.is_zero() {
            proof {
                assert(settle_assets_fold(entries0.skip(ai as int), ledger0, users, m)
                    == settle_assets_fold(entries0.skip(ai as int + 1), ledger0, users, m));
            }
        } else {
            let asset = &state.global_indices.entries[ai].0;
            proof {
                assert(users.skip(0) =~= users);
            }
            let mut ui: usize = 0;
            while ui < msg.old_user_weights.len()
                invariant
                    0 <= ui <= msg.old_user_weights@.len(),
                    *state == *old(state),
                    state.wf(),
                    sender@ == old(state).enterprise_contract@,
                    weights_idents_ok(msg),
                    entries0 == state.global_indices.entries@,
                    ledger0 == state.distributions,
                    users == users_of(msg),
                    users.len() == msg.old_user_weights@.len(),
                    0 <= ai < entries0.len(),
                    a == entries0[ai as int].0@,
                    gi_v == entries0[ai as int].1@,
                    asset@ == a,
                    entry_gi@ == gi_v,
                    gi_v != 0,
                    updates.wf(),
                    forall|u: Seq<char>, k: (bool, Seq<char>)|
                        #[trigger] updates.spec_get(u, k) == (if m.dom().contains((u, k)) {
                            Some(m[(u, k)])
                        } else {
                            None::<(int, int)>
                        }),
                    settle_assets_fold(entries0, ledger0, users, Map::empty()) == (match
                        settle_users_fold(gi_v, a, ledger0, users.skip(ui as int), m) {
                        Some(m2) => settle_assets_fold(
                            entries0.skip(ai as int + 1),
                            ledger0,
                            users,
                            m2,
                        ),
                        None => None::<Map<(Seq<char>, (bool, Seq<char>)), (int, int)>>,
                    }),
                decreases msg.old_user_weights@.len() - ui,
            {
                let ghost uv = users[ui as int];
                proof {
                    assert(users.skip(ui as int)[0] == uv);
                    assert(users.skip(ui as int).drop_first() =~= users.skip(ui as int + 1));
                }
                let uw = &msg.old_user_weights[ui];
                let ghost up = if m.dom().contains((uv.0, a)) {
                    m[(uv.0, a)]
                } else {
                    dist_or_default(ledger0.spec_get(uv.0, a))
                };
                let stored = updates.get(&uw.user, asset);
                let existing = match stored {
                    Some(d) => Some(d),
                    None => state.distributions.get(&uw.user, asset),
                };
                proof {
                    assert(dist_user_index(existing) == up.0 && dist_pending(existing) == up.1);
                }
                match accrue(entry_gi, existing, uw.weight) {
                    Err(e) => {
                        proof {
                            assert(settle_users_fold(gi_v, a, ledger0, users.skip(ui as int), m)
                                is None);
                        }
                        return Err(e);
                    },
                    Ok(amount) => {
                        updates.set(&uw.user, asset, entry_gi, amount);
                        proof {
                            let m_pre = m;
                            m = m.insert((uv.0, a), (gi_v, amount as int));
                            assert(settle_users_fold(gi_v, a, ledger0, users.skip(ui as int), m_pre)
                                == settle_users_fold(
                                gi_v,
                                a,
                                ledger0,
                                users.skip(ui as int + 1),
                                m,
                            ));
                        }
                    },
                }
                ui += 1;
            }
            proof {
                assert(users.skip(msg.old_user_weights@.len() as int) =~= Seq::<
                    (Seq<char>, int),
                >::empty());
            }
        }
        ai += 1;
    }
    proof {
        assert(entries0.skip(entries0.len() as int) =~= Seq::<(Asset, Decimal)>::empty());
    }
    state.distributions.apply_updates(&updates);
    Ok(())
}

} // verus!
