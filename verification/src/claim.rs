use vstd::prelude::*;
use crate::api::{ClaimRewardsMsg, Cw20Reward, NativeReward, TransferInstruction, UserRewardsParams, UserRewardsResponse};
use crate::asset::Asset;
use crate::error::DistributorError;
use crate::rewards::{accrue, accrue_ok, accrued_amount, dist_pending, dist_user_index};
use crate::state::{dist_or_default, DistributionLedger, DistributorState, GlobalIndexStore};

verus! {

/// A user or token-address identifier passes validation when it is not
/// empty.
pub open spec fn valid_ident(s: Seq<char>) -> bool {
    s.len() > 0
}

/// The requested assets of a claim, native denominations first, in request
/// order.
pub open spec fn native_keys(denoms: Seq<String>) -> Seq<(bool, Seq<char>)> {
    denoms.map(|i: int, d: String| (true, d@))
}

pub open spec fn cw20_keys(addresses: Seq<String>) -> Seq<(bool, Seq<char>)> {
    addresses.map(|i: int, a: String| (false, a@))
}

pub open spec fn claim_keys(msg: ClaimRewardsMsg) -> Seq<(bool, Seq<char>)> {
    native_keys(msg.native_denoms@) + cw20_keys(msg.cw20_assets@)
}

pub open spec fn claim_idents_ok(msg: ClaimRewardsMsg) -> bool {
    &&& valid_ident(msg.user@)
    &&& forall|i: int|
        0 <= i < msg.cw20_assets@.len() ==> valid_ident(#[trigger] msg.cw20_assets@[i]@)
}

/// What one claim invocation does, asset by asset in request order.  Assets
/// whose global index is exactly zero are skipped entirely.  Every other
/// asset yields one transfer instruction for the amount accrued so far --
/// even an amount of zero -- and a checkpoint write `(global index, 0)`,
/// which a later occurrence of the same asset in the same request reads.
/// The result is `None` when any accrual leaves the representable range;
/// the whole invocation then fails with no state change.
pub open spec fn claim_fold(
    store: GlobalIndexStore,
    ledger: DistributionLedger,
    user: Seq<char>,
    weight: int,
    assets: Seq<(bool, Seq<char>)>,
    m: Map<(bool, Seq<char>), (int, int)>,
) -> Option<(Seq<((bool, Seq<char>), Seq<char>, int)>, Map<(bool, Seq<char>), (int, int)>)>
    decreases assets.len(),
{
    if assets.len() == 0 {
        Some((Seq::empty(), m))
    } else {
        let a = assets[0];
        let gi = store.spec_get(a);
        if gi == 0 {
            claim_fold(store, ledger, user, weight, assets.drop_first(), m)
        } else {
            let up = if m.dom().contains(a) {
                m[a]
            } else {
                dist_or_default(ledger.spec_get(user, a))
            };
            if accrue_ok(gi, up.0, up.1, weight) {
                match claim_fold(
                    store,
                    ledger,
                    user,
                    weight,
                    assets.drop_first(),
                    m.insert(a, (gi, 0)),
                ) {
                    Some((instrs, mfin)) => Some(
                        (
                            seq![(a, user, accrued_amount(gi, up.0, up.1, weight))] + instrs,
                            mfin,
                        ),
                    ),
                    None => None,
                }
            } else {
                None
            }
        }
    }
}

/// The ledger after a claim: the claiming user's touched assets carry their
/// new checkpoints, everything else is as before.
pub open spec fn ledger_after(
    new_ledger: DistributionLedger,
    old_ledger: DistributionLedger,
    user: Seq<char>,
    m: Map<(bool, Seq<char>), (int, int)>,
) -> bool {
    forall|u: Seq<char>, k: (bool, Seq<char>)|
        #[trigger] new_ledger.spec_get(u, k) == (if u == user && m.dom().contains(k) {
            Some(m[k])
        } else {
            old_ledger.spec_get(u, k)
        })
}

pub open spec fn instr_views(s: Seq<TransferInstruction>) -> Seq<((bool, Seq<char>), Seq<char>, int)> {
    s.map(|i: int, t: TransferInstruction| t@)
}

/// Prefixes a fold result with instructions already emitted.
pub open spec fn fold_join(
    pre: Seq<((bool, Seq<char>), Seq<char>, int)>,
    rest: Option<(Seq<((bool, Seq<char>), Seq<char>, int)>, Map<(bool, Seq<char>), (int, int)>)>,
) -> Option<(Seq<((bool, Seq<char>), Seq<char>, int)>, Map<(bool, Seq<char>), (int, int)>)> {
    match rest {
        Some((s, mfin)) => Some((pre + s, mfin)),
        None => None,
    }
}

proof fn lemma_fold_join_empty(
    rest: Option<(Seq<((bool, Seq<char>), Seq<char>, int)>, Map<(bool, Seq<char>), (int, int)>)>,
)
    ensures
        fold_join(Seq::empty(), rest) == rest,
{
    if rest is Some {
        let (s, mfin) = rest->Some_0;
        assert(Seq::empty() + s =~= s);
    }
}

proof fn lemma_fold_join_push(
    pre: Seq<((bool, Seq<char>), Seq<char>, int)>,
    x: ((bool, Seq<char>), Seq<char>, int),
    rest: Option<(Seq<((bool, Seq<char>), Seq<char>, int)>, Map<(bool, Seq<char>), (int, int)>)>,
)
    ensures
        fold_join(pre.push(x), rest) == fold_join(
            pre,
            match rest {
                Some((s, mfin)) => Some((seq![x] + s, mfin)),
                None => None,
            },
        ),
{
    if rest is Some {
        let (s, mfin) = rest->Some_0;
        assert(pre.push(x) + s =~= pre + (seq![x] + s));
    }
}

/// Settles and pays out one user's rewards over the requested assets.
///
/// Only the configured controller may call; anyone else is rejected with no
/// state change.  Identifiers are validated before any read.  Assets whose
/// global index was never raised are skipped without an instruction or a
/// state write.  Every other requested asset yields exactly one transfer
/// instruction -- zero amounts included -- and has its checkpoint reset to
/// `(current global index, 0)`.  Any accrual outside the representable
/// range aborts the whole claim with no state change.
pub fn claim_rewards(state: &mut DistributorState, sender: &String, msg: ClaimRewardsMsg) -> (r:
    Result<Vec<TransferInstruction>, DistributorError>)
    requires
        old(state).wf(),
    ensures
        final(state).wf(),
        final(state).enterprise_contract == old(state).enterprise_contract,
        final(state).global_indices == old(state).global_indices,
        sender@ != old(state).enterprise_contract@ ==> r == Err::<
            Vec<TransferInstruction>,
            DistributorError,
        >(DistributorError::Unauthorized) && *final(state) == *old(state),
        sender@ == old(state).enterprise_contract@ && !claim_idents_ok(msg) ==> r == Err::<
            Vec<TransferInstruction>,
            DistributorError,
        >(DistributorError::MalformedIdentity) && *final(state) == *old(state),
        sender@ == old(state).enterprise_contract@ && claim_idents_ok(msg) ==> (match claim_fold(
            old(state).global_indices,
            old(state).distributions,
            msg.user@,
            msg.user_weight as int,
            claim_keys(msg),
            Map::empty(),
        ) {
            Some((instrs, mfin)) => r matches Ok(out) && out@.len() == instrs.len() && (forall|
                j: int,
            |
                0 <= j < instrs.len() ==> out@[j]@ == instrs[j]) && ledger_after(
                final(state).distributions,
                old(state).distributions,
                msg.user@,
                mfin,
            ),
            None => r == Err::<Vec<TransferInstruction>, DistributorError>(
                DistributorError::Overflow,
            ) && *final(state) == *old(state),
        }),
{
    if !(*sender == state.enterprise_contract) {
        return Err(DistributorError::Unauthorized);
    }
    if msg.user.as_str().is_empty() {
        return Err(DistributorError::MalformedIdentity);
    }
    let mut ci: usize = 0;
    while ci < msg.cw20_assets.len()
        invariant
            0 <= ci <= msg.cw20_assets@.len(),
            forall|j: int| 0 <= j < ci ==> valid_ident(#[trigger] msg.cw20_assets@[j]@),
            *state == *old(state),
            state.wf(),
            sender@ == old(state).enterprise_contract@,
        decreases msg.cw20_assets@.len() - ci,
    {
        if msg.cw20_assets[ci].as_str().is_empty() {
            return Err(DistributorError::MalformedIdentity);
        }
        ci += 1;
    }

    let ghost keys = claim_keys(msg);
    let mut assets: Vec<Asset> = Vec::new();
    let mut ni: usize = 0;
    while ni < msg.native_denoms.len()
        invariant
            0 <= ni <= msg.native_denoms@.len(),
            assets@.len() == ni,
            forall|j: int| 0 <= j < ni ==> assets@[j]@ == (true, msg.native_denoms@[j]@),
        decreases msg.native_denoms@.len() - ni,
    {
        assets.push(Asset::Native(msg.native_denoms[ni].clone()));
        ni += 1;
    }
    let ghost nlen = msg.native_denoms@.len() as int;
    let mut ti: usize = 0;
    while ti < msg.cw20_assets.len()
        invariant
            0 <= ti <= msg.cw20_assets@.len(),
            assets@.len() == nlen + ti,
            nlen == msg.native_denoms@.len(),
            forall|j: int| 0 <= j < nlen ==> assets@[j]@ == (true, msg.native_denoms@[j]@),
            forall|j: int| 0 <= j < ti ==> assets@[nlen + j]@ == (false, msg.cw20_assets@[j]@),
        decreases msg.cw20_assets@.len() - ti,
    {
        assets.push(Asset::Cw20(msg.cw20_assets[ti].clone()));
        ti += 1;
    }
    proof {
        assert(keys.len() == assets@.len());
        assert forall|j: int| 0 <= j < assets@.len() implies assets@[j]@ == keys[j] by {
            if j < nlen {
                assert(keys[j] == native_keys(msg.native_denoms@)[j]);
            } else {
                assert(keys[j] == cw20_keys(msg.cw20_assets@)[j - nlen]);
            }
        }
    }

    let ghost gis0 = state.global_indices;
    let ghost ledger0 = state.distributions;
    let ghost user_v = msg.user@;
    let ghost w = msg.user_weight as int;

    let mut instrs: Vec<TransferInstruction> = Vec::new();
    let mut updates = DistributionLedger::new();
    let ghost mut m = Map::<(bool, Seq<char>), (int, int)>::empty();
    proof {
        lemma_fold_join_empty(claim_fold(gis0, ledger0, user_v, w, keys, m));
        assert(keys.skip(0) =~= keys);
        assert(instr_views(instrs@) =~= Seq::<((bool, Seq<char>), Seq<char>, int)>::empty());
    }

    let mut i: usize = 0;
    while i < assets.len()
        invariant
            0 <= i <= assets@.len(),
            keys == claim_keys(msg),
            keys.len() == assets@.len(),
            forall|j: int| 0 <= j < assets@.len() ==> assets@[j]@ == keys[j],
            *state == *old(state),
            state.wf(),
            sender@ == old(state).enterprise_contract@,
            claim_idents_ok(msg),
            gis0 == state.global_indices,
            ledger0 == state.distributions,
            user_v == msg.user@,
            w == msg.user_weight as int,
            updates.wf(),
            forall|k: (bool, Seq<char>)|
                #[trigger] updates.spec_get(user_v, k) == (if m.dom().contains(k) {
                    Some(m[k])
                } else {
                    None::<(int, int)>
                }),
            forall|u2: Seq<char>, k2: (bool, Seq<char>)|
                u2 != user_v ==> #[trigger] updates.spec_get(u2, k2) is None,
            claim_fold(gis0, ledger0, user_v, w, keys, Map::empty()) == fold_join(
                instr_views(instrs@),
                claim_fold(gis0, ledger0, user_v, w, keys.skip(i as int), m),
            ),
        decreases assets@.len() - i,
    {
        let ghost a = keys[i as int];
        proof {
            assert(keys.skip(i as int).len() > 0);
            assert(keys.skip(i as int)[0] == a);
            assert(keys.skip(i as int).drop_first() =~= keys.skip(i as int + 1));
        }
        let asset = &assets[i];
        let gidx = state.global_indices.get(asset);
        if gidx.is_zero() {
            proof {
                assert(claim_fold(gis0, ledger0, user_v, w, keys.skip(i as int), m) == claim_fold(
                    gis0,
                    ledger0,
                    user_v,
                    w,
                    keys.skip(i as int + 1),
                    m,
                ));
            }
        } else {
            let ghost up = if m.dom().contains(a) {
                m[a]
            } else {
                dist_or_default(ledger0.spec_get(user_v, a))
            };
            let stored = updates.get(&msg.user, asset);
            let existing = match stored {
                Some(d) => Some(d),
                None => state.distributions.get(&msg.user, asset),
            };
            proof {
                assert(dist_user_index(existing) == up.0 && dist_pending(existing) == up.1);
            }
            match accrue(gidx, existing, msg.user_weight) {
                Err(e) => {
                    proof {
                        assert(claim_fold(gis0, ledger0, user_v, w, keys.skip(i as int), m)
                            is None);
                    }
                    return Err(e);
                },
                Ok(amount) => {
                    let ghost instrs_pre = instrs@;
                    let ghost m_pre = m;
                    instrs.push(
                        TransferInstruction {
                            asset: asset.clone(),
                            recipient: msg.user.clone(),
                            amount,
                        },
                    );
                    updates.set(&msg.user, asset, gidx, 0);
                    proof {
                        m = m.insert(a, (gidx@, 0));
                        let x = (a, user_v, amount as int);
                        assert(instr_views(instrs@) =~= instr_views(instrs_pre).push(x));
                        assert(claim_fold(gis0, ledger0, user_v, w, keys.skip(i as int), m_pre)
                            == (match claim_fold(
                            gis0,
                            ledger0,
                            user_v,
                            w,
                            keys.skip(i as int + 1),
                            m,
                        ) {
                            Some((rest, mfin)) => Some((seq![x] + rest, mfin)),
                            None => None,
                        }));
                        lemma_fold_join_push(
                            instr_views(instrs_pre),
                            x,
                            claim_fold(gis0, ledger0, user_v, w, keys.skip(i as int + 1), m),
                        );
                    }
                },
            }
        }
        i += 1;
    }
    proof {
        assert(keys.skip(assets@.len() as int) =~= Seq::<(bool, Seq<char>)>::empty());
        assert(instr_views(instrs@) + Seq::empty() =~= instr_views(instrs@));
    }
    state.distributions.apply_updates(&updates);
    Ok(instrs)
}

pub open spec fn query_idents_ok(params: UserRewardsParams) -> bool {
    &&& valid_ident(params.user@)
    &&& forall|i: int|
        0 <= i < params.cw20_assets@.len() ==> valid_ident(#[trigger] params.cw20_assets@[i]@)
}

/// What a preview reports for one list of assets: one (identifier, amount)
/// pair for every asset whose global index is not zero, in request order,
/// with the amount the claim path would pay right now.  `None` when any
/// accrual leaves the representable range.
pub open spec fn query_fold(
    store: GlobalIndexStore,
    ledger: DistributionLedger,
    user: Seq<char>,
    weight: int,
    assets: Seq<(bool, Seq<char>)>,
) -> Option<Seq<(Seq<char>, int)>>
    decreases assets.len(),
{
    if assets.len() == 0 {
        Some(Seq::empty())
    } else {
        let a = assets[0];
        let gi = store.spec_get(a);
        if gi == 0 {
            query_fold(store, ledger, user, weight, assets.drop_first())
        } else {
            let up = dist_or_default(ledger.spec_get(user, a));
            if accrue_ok(gi, up.0, up.1, weight) {
                match query_fold(store, ledger, user, weight, assets.drop_first()) {
                    Some(rest) => Some(
                        seq![(a.1, accrued_amount(gi, up.0, up.1, weight))] + rest,
                    ),
                    None => None,
                }
            } else {
                None
            }
        }
    }
}

proof fn lemma_query_join_push(pre: Seq<(Seq<char>, int)>, x: (Seq<char>, int), rest: Option<
    Seq<(Seq<char>, int)>,
>)
    ensures
        (match rest {
            Some(s) => Some(pre.push(x) + s),
            None => None::<Seq<(Seq<char>, int)>>,
        }) == (match rest {
            Some(s) => Some(pre + (seq![x] + s)),
            None => None::<Seq<(Seq<char>, int)>>,
        }),
{
    if rest is Some {
        assert(pre.push(x) + rest->Some_0 =~= pre + (seq![x] + rest->Some_0));
    }
}

/// Previews a claim without changing any state: the same validation and the
/// same accrual formula as `claim_rewards`, reported per asset list.
pub fn query_user_rewards(state: &DistributorState, params: UserRewardsParams) -> (r: Result<
    UserRewardsResponse,
    DistributorError,
>)
    ensures
        !query_idents_ok(params) ==> r == Err::<UserRewardsResponse, DistributorError>(
            DistributorError::MalformedIdentity,
        ),
        query_idents_ok(params) ==> (match (
            query_fold(
                state.global_indices,
                state.distributions,
                params.user@,
                params.user_weight as int,
                native_keys(params.native_denoms@),
            ),
            query_fold(
                state.global_indices,
                state.distributions,
                params.user@,
                params.user_weight as int,
                cw20_keys(params.cw20_assets@),
            ),
        ) {
            (Some(nat_rewards), Some(tok_rewards)) => r matches Ok(resp)
                && resp.native_rewards@.len() == nat_rewards.len() && (forall|j: int|
                0 <= j < nat_rewards.len() ==> (
                #[trigger] resp.native_rewards@[j].denom@,
                resp.native_rewards@[j].amount as int,
            ) == nat_rewards[j]) && resp.cw20_rewards@.len() == tok_rewards.len() && (forall|
                j: int,
            |
                0 <= j < tok_rewards.len() ==> (
                #[trigger] resp.cw20_rewards@[j].asset@,
                resp.cw20_rewards@[j].amount as int,
            ) == tok_rewards[j]),
            _ => r == Err::<UserRewardsResponse, DistributorError>(DistributorError::Overflow),
        }),
{
    if params.user.as_str().is_empty() {
        return Err(DistributorError::MalformedIdentity);
    }
    let mut ci: usize = 0;
    while ci < params.cw20_assets.len()
        invariant
            0 <= ci <= params.cw20_assets@.len(),
            forall|j: int| 0 <= j < ci ==> valid_ident(#[trigger] params.cw20_assets@[j]@),
        decreases params.cw20_assets@.len() - ci,
    {
        if params.cw20_assets[ci].as_str().is_empty() {
            return Err(DistributorError::MalformedIdentity);
        }
        ci += 1;
    }

    let ghost nk = native_keys(params.native_denoms@);
    let ghost ck = cw20_keys(params.cw20_assets@);
    let ghost user_v = params.user@;
    let ghost w = params.user_weight as int;

    let mut native_rewards: Vec<NativeReward> = Vec::new();
    let ghost nviews = Seq::<(Seq<char>, int)>::empty();
    proof {
        assert(nk.skip(0) =~= nk);
        if query_fold(state.global_indices, state.distributions, user_v, w, nk) is Some {
            assert(nviews + query_fold(
                state.global_indices,
                state.distributions,
                user_v,
                w,
                nk,
            )->Some_0 =~= query_fold(state.global_indices, state.distributions, user_v, w, nk)->Some_0);
        }
    }
    let mut i: usize = 0;
    while i < params.native_denoms.len()
        invariant
            0 <= i <= params.native_denoms@.len(),
            query_idents_ok(params),
            nk == native_keys(params.native_denoms@),
            user_v == params.user@,
            w == params.user_weight as int,
            nviews.len() == native_rewards@.len(),
            forall|j: int|
                0 <= j < nviews.len() ==> (
                #[trigger] native_rewards@[j].denom@,
                native_rewards@[j].amount as int,
            ) == nviews[j],
            query_fold(state.global_indices, state.distributions, user_v, w, nk) == (match
                query_fold(
                state.global_indices,
                state.distributions,
                user_v,
                w,
                nk.skip(i as int),
            ) {
                Some(rest) => Some(nviews + rest),
                None => None::<Seq<(Seq<char>, int)>>,
            }),
        decreases params.native_denoms@.len() - i,
    {
        let ghost a = nk[i as int];
        proof {
            assert(nk.skip(i as int)[0] == a);
            assert(nk.skip(i as int).drop_first() =~= nk.skip(i as int + 1));
        }
        let asset = Asset::Native(params.native_denoms[i].clone());
        let gidx = state.global_indices.get(&asset);
        if !gidx.is_zero() {
            let existing = state.distributions.get(&params.user, &asset);
            match accrue(gidx, existing, params.user_weight) {
                Err(e) => {
                    proof {
                        assert(query_fold(
                            state.global_indices,
                            state.distributions,
                            user_v,
                            w,
                            nk.skip(i as int),
                        ) is None);
                    }
                    return Err(e);
                },
                Ok(amount) => {
                    let ghost nviews_pre = nviews;
                    native_rewards.push(
                        NativeReward { denom: params.native_denoms[i].clone(), amount },
                    );
                    proof {
                        let x = (a.1, amount as int);
                        nviews = nviews.push(x);
                        lemma_query_join_push(
                            nviews_pre,
                            x,
                            query_fold(
                                state.global_indices,
                                state.distributions,
                                user_v,
                                w,
                                nk.skip(i as int + 1),
                            ),
                        );
                    }
                },
            }
        }
        i += 1;
    }
    proof {
        assert(nk.skip(params.native_denoms@.len() as int) =~= Seq::<(bool, Seq<char>)>::empty());
        assert(nviews + Seq::<(Seq<char>, int)>::empty() =~= nviews);
    }

    let mut cw20_rewards: Vec<Cw20Reward> = Vec::new();
    let ghost cviews = Seq::<(Seq<char>, int)>::empty();
    proof {
        assert(ck.skip(0) =~= ck);
        if query_fold(state.global_indices, state.distributions, user_v, w, ck) is Some {
            assert(cviews + query_fold(
                state.global_indices,
                state.distributions,
                user_v,
                w,
                ck,
            )->Some_0 =~= query_fold(state.global_indices, state.distributions, user_v, w, ck)->Some_0);
        }
    }
    let mut t: usize = 0;
    while t < params.cw20_assets.len()
        invariant
            0 <= t <= params.cw20_assets@.len(),
            query_idents_ok(params),
            nk == native_keys(params.native_denoms@),
            ck == cw20_keys(params.cw20_assets@),
            user_v == params.user@,
            w == params.user_weight as int,
            query_fold(state.global_indices, state.distributions, user_v, w, nk) is Some,
            nviews == query_fold(state.global_indices, state.distributions, user_v, w, nk)->Some_0,
            nviews.len() == native_rewards@.len(),
            forall|j: int|
                0 <= j < nviews.len() ==> (
                #[trigger] native_rewards@[j].denom@,
                native_rewards@[j].amount as int,
            ) == nviews[j],
            cviews.len() == cw20_rewards@.len(),
            forall|j: int|
                0 <= j < cviews.len() ==> (
                #[trigger] cw20_rewards@[j].asset@,
                cw20_rewards@[j].amount as int,
            ) == cviews[j],
            query_fold(state.global_indices, state.distributions, user_v, w, ck) == (match
                query_fold(
                state.global_indices,
                state.distributions,
                user_v,
                w,
                ck.skip(t as int),
            ) {
                Some(rest) => Some(cviews + rest),
                None => None::<Seq<(Seq<char>, int)>>,
            }),
        decreases params.cw20_assets@.len() - t,
    {
        let ghost a = ck[t as int];
        proof {
            assert(ck.skip(t as int)[0] == a);
            assert(ck.skip(t as int).drop_first() =~= ck.skip(t as int + 1));
        }
        let asset = Asset::Cw20(params.cw20_assets[t].clone());
        let gidx = state.global_indices.get(&asset);
        if !gidx.is_zero() {
            let existing = state.distributions.get(&params.user, &asset);
            match accrue(gidx, existing, params.user_weight) {
                Err(e) => {
                    proof {
                        assert(query_fold(
                            state.global_indices,
                            state.distributions,
                            user_v,
                            w,
                            ck.skip(t as int),
                        ) is None);
                    }
                    return Err(e);
                },
                Ok(amount) => {
                    let ghost cviews_pre = cviews;
                    cw20_rewards.push(
                        Cw20Reward { asset: params.cw20_assets[t].clone(), amount },
                    );
                    proof {
                        let x = (a.1, amount as int);
                        cviews = cviews.push(x);
                        lemma_query_join_push(
                            cviews_pre,
                            x,
                            query_fold(
                                state.global_indices,
                                state.distributions,
                                user_v,
                                w,
                                ck.skip(t as int + 1),
                            ),
                        );
                    }
                },
            }
        }
        t += 1;
    }
    proof {
        assert(ck.skip(params.cw20_assets@.len() as int) =~= Seq::<(bool, Seq<char>)>::empty());
        assert(cviews + Seq::<(Seq<char>, int)>::empty() =~= cviews);
    }
    Ok(UserRewardsResponse { native_rewards, cw20_rewards })
}

} // verus!
