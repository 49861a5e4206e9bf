use vstd::prelude::*;
use crate::assoc::{assoc_lookup, assoc_wf, lemma_assoc_lookup_first_match, lemma_assoc_lookup_none, lemma_assoc_push, lemma_assoc_push_wf, lemma_assoc_update};
use crate::asset::Asset;
use crate::decimal::{Decimal, DECIMAL_FRACTIONAL, ratio_atomics};
use crate::error::DistributorError;

verus! {

/// Per-asset monotonic accumulator of rewards-per-weight-unit.  An asset
/// that never received a deposit has no entry and reads as zero.
pub struct GlobalIndexStore {
    pub entries: Vec<(Asset, Decimal)>,
}

/// The checkpoint of one (user, asset) pair: the global index the pair was
/// last settled at, and rewards accrued at earlier weights but not yet paid.
pub struct UserDistribution {
    pub user: String,
    pub asset: Asset,
    pub user_index: Decimal,
    pub pending_rewards: u128,
}

impl Clone for UserDistribution {
    fn clone(&self) -> (r: UserDistribution)
        ensures
            r == *self,
    {
        UserDistribution {
            user: self.user.clone(),
            asset: self.asset.clone(),
            user_index: self.user_index,
            pending_rewards: self.pending_rewards,
        }
    }
}

/// The table of checkpoints, keyed by (user, asset).  A record is created
/// lazily on first settlement and never removed afterwards.
pub struct DistributionLedger {
    pub records: Vec<UserDistribution>,
}

/// A stored pair read back from a ledger, or the defaults used before the
/// pair's record exists: index zero and nothing pending.
pub open spec fn dist_or_default(o: Option<(int, int)>) -> (int, int) {
    match o {
        Some(x) => x,
        None => (0, 0),
    }
}

/// A deposit goes through exactly when there is weight to distribute over
/// and neither the ratio nor the raised index leaves the representable
/// range.
pub open spec fn increment_ok(index_before: int, amount: int, total_weight: int) -> bool {
    &&& total_weight != 0
    &&& amount * (DECIMAL_FRACTIONAL as int) <= u128::MAX
    &&& index_before + ratio_atomics(amount, total_weight) <= u128::MAX
}

impl GlobalIndexStore {
    /// The entries as specification key/value pairs.
    pub open spec fn keyed(self) -> Seq<((bool, Seq<char>), int)> {
        self.entries@.map(|i: int, e: (Asset, Decimal)| (e.0@, e.1@))
    }

    pub open spec fn wf(self) -> bool {
        assoc_wf(self.keyed())
    }

    /// The stored index of an asset, or zero when it has none.
    pub open spec fn spec_get(self, key: (bool, Seq<char>)) -> int {
        match assoc_lookup(self.keyed(), key) {
            Some(v) => v,
            None => 0,
        }
    }

    pub fn new() -> (s: GlobalIndexStore)
        ensures
            s.wf(),
            s.entries@.len() == 0,
            forall|k: (bool, Seq<char>)| s.spec_get(k) == 0,
    {
        let s = GlobalIndexStore { entries: Vec::new() };
        proof {
            assert(s.keyed() =~= Seq::<((bool, Seq<char>), int)>::empty());
        }
        s
    }

    /// The index of the first entry for the asset, if any.
    fn find(&self, asset: &Asset) -> (r: Option<usize>)
        ensures
            match r {
                Some(i) => i < self.entries@.len() && self.keyed()[i as int].0 == asset@
                    && forall|j: int| 0 <= j < i ==> self.keyed()[j].0 != asset@,
                None => forall|j: int|
                    0 <= j < self.entries@.len() ==> self.keyed()[j].0 != asset@,
            },
    {
        let mut i: usize = 0;
        while i < self.entries.len()
            invariant
                0 <= i <= self.entries@.len(),
                forall|j: int| 0 <= j < i ==> self.keyed()[j].0 != asset@,
            decreases self.entries@.len() - i,
        {
            if self.entries[i].0.key_eq(asset) {
                return Some(i);
            }
            i += 1;
        }
        None
    }

    /// Returns the stored index, or zero for an asset never deposited into.
    pub fn get(&self, asset: &Asset) -> (d: Decimal)
        ensures
            d@ == self.spec_get(asset@),
    {
        match self.find(asset) {
            Some(i) => {
                proof {
                    lemma_assoc_lookup_first_match(self.keyed(), i as int);
                }
                self.entries[i].1
            },
            None => {
                proof {
                    lemma_assoc_lookup_none(self.keyed(), asset@);
                }
                Decimal::zero()
            },
        }
    }

    /// Stores a value for the asset, changing no other entry.
    fn set(&mut self, asset: &Asset, value: Decimal)
        requires
            old(self).wf(),
        ensures
            final(self).wf(),
            final(self).spec_get(asset@) == value@,
            forall|k: (bool, Seq<char>)| k != asset@ ==> final(self).spec_get(k) == old(
                self,
            ).spec_get(k),
    {
        let ghost ks0 = self.keyed();
        match self.find(asset) {
            Some(i) => {
                let key = self.entries[i].0.clone();
                self.entries[i] = (key, value);
                proof {
                    assert(self.keyed() =~= ks0.update(i as int, (ks0[i as int].0, value@)));
                    lemma_assoc_update(ks0, i as int, value@);
                }
            },
            None => {
                self.entries.push((asset.clone(), value));
                proof {
                    assert(self.keyed() =~= ks0.push((asset@, value@)));
                    lemma_assoc_push(ks0, (asset@, value@));
                    lemma_assoc_push_wf(ks0, (asset@, value@));
                    lemma_assoc_lookup_none(ks0, asset@);
                }
            },
        }
    }

    /// Adds `amount / total_weight` to the asset's index.  A zero total
    /// weight rejects the deposit; arithmetic outside the representable
    /// range rejects it as well.  A rejected deposit leaves the store
    /// unchanged.
    pub fn increment(&mut self, asset: &Asset, amount: u128, total_weight: u128) -> (r: Result<
        (),
        DistributorError,
    >)
        requires
            old(self).wf(),
        ensures
            final(self).wf(),
            total_weight == 0 ==> r == Err::<(), DistributorError>(DistributorError::InvalidWeight)
                && *final(self) == *old(self),
            total_weight != 0 && amount * DECIMAL_FRACTIONAL > u128::MAX ==> r == Err::<
                (),
                DistributorError,
            >(DistributorError::Overflow) && *final(self) == *old(self),
            total_weight != 0 && amount * DECIMAL_FRACTIONAL <= u128::MAX && old(self).spec_get(
                asset@,
            ) + ratio_atomics(amount as int, total_weight as int) > u128::MAX ==> r == Err::<
                (),
                DistributorError,
            >(DistributorError::Overflow) && *final(self) == *old(self),
            increment_ok(old(self).spec_get(asset@), amount as int, total_weight as int) ==> r
                == Ok::<(), DistributorError>(()) && final(self).spec_get(asset@) == old(
                self,
            ).spec_get(asset@) + ratio_atomics(amount as int, total_weight as int) && (forall|
                k: (bool, Seq<char>),
            |
                k != asset@ ==> final(self).spec_get(k) == old(self).spec_get(k)),
    {
        let current = self.get(asset);
        let delta = match Decimal::from_ratio(amount, total_weight) {
            Ok(d) => d,
            Err(e) => {
                return Err(e);
            },
        };
        let raised = match current.checked_add(delta) {
            Ok(d) => d,
            Err(e) => {
                return Err(e);
            },
        };
        self.set(asset, raised);
        Ok(())
    }
}

impl DistributionLedger {
    /// The records as specification key/value pairs.
    pub open spec fn keyed(self) -> Seq<((Seq<char>, (bool, Seq<char>)), (int, int))> {
        self.records@.map(
            |i: int, d: UserDistribution|
                ((d.user@, d.asset@), (d.user_index@, d.pending_rewards as int)),
        )
    }

    pub open spec fn wf(self) -> bool {
        assoc_wf(self.keyed())
    }

    /// The stored (index, pending) pair of a (user, asset) key, if the pair
    /// has ever been settled.
    pub open spec fn spec_get(self, user: Seq<char>, key: (bool, Seq<char>)) -> Option<(int, int)> {
        assoc_lookup(self.keyed(), (user, key))
    }

    pub fn new() -> (s: DistributionLedger)
        ensures
            s.wf(),
            s.records@.len() == 0,
            forall|u: Seq<char>, k: (bool, Seq<char>)| s.spec_get(u, k) is None,
    {
        let s = DistributionLedger { records: Vec::new() };
        proof {
            assert(s.keyed() =~= Seq::<((Seq<char>, (bool, Seq<char>)), (int, int))>::empty());
        }
        s
    }

    /// The index of the first record for the key, if any.
    fn find(&self, user: &String, asset: &Asset) -> (r: Option<usize>)
        ensures
            match r {
                Some(i) => i < self.records@.len() && self.keyed()[i as int].0 == (user@, asset@)
                    && forall|j: int| 0 <= j < i ==> self.keyed()[j].0 != (user@, asset@),
                None => forall|j: int|
                    0 <= j < self.records@.len() ==> self.keyed()[j].0 != (user@, asset@),
            },
    {
        let mut i: usize = 0;
        while i < self.records.len()
            invariant
                0 <= i <= self.records@.len(),
                forall|j: int| 0 <= j < i ==> self.keyed()[j].0 != (user@, asset@),
            decreases self.records@.len() - i,
        {
            let rec = &self.records[i];
            if rec.user == *user && rec.asset.key_eq(asset) {
                return Some(i);
            }
            i += 1;
        }
        None
    }

    /// Returns the record of the pair, if one exists.
    pub fn get(&self, user: &String, asset: &Asset) -> (r: Option<&UserDistribution>)
        ensures
            match r {
                Some(d) => self.spec_get(user@, asset@) == Some(
                    (d.user_index@, d.pending_rewards as int),
                ),
                None => self.spec_get(user@, asset@) is None,
            },
    {
        match self.find(user, asset) {
            Some(i) => {
                proof {
                    lemma_assoc_lookup_first_match(self.keyed(), i as int);
                }
                Some(&self.records[i])
            },
            None => {
                proof {
                    lemma_assoc_lookup_none(self.keyed(), (user@, asset@));
                }
                None
            },
        }
    }

    /// Writes the checkpoint of the pair, creating its record on first
    /// settlement and changing no other record.
    pub fn set(&mut self, user: &String, asset: &Asset, user_index: Decimal, pending: u128)
        requires
            old(self).wf(),
        ensures
            final(self).wf(),
            final(self).spec_get(user@, asset@) == Some((user_index@, pending as int)),
            forall|u2: Seq<char>, k2: (bool, Seq<char>)|
                !(u2 == user@ && k2 == asset@) ==> #[trigger] final(self).spec_get(u2, k2) == old(
                    self,
                ).spec_get(u2, k2),
    {
        let ghost ks0 = self.keyed();
        let rec = UserDistribution {
            user: user.clone(),
            asset: asset.clone(),
            user_index,
            pending_rewards: pending,
        };
        match self.find(user, asset) {
            Some(i) => {
                self.records[i] = rec;
                proof {
                    assert(self.keyed() =~= ks0.update(
                        i as int,
                        (ks0[i as int].0, (user_index@, pending as int)),
                    ));
                    lemma_assoc_update(ks0, i as int, (user_index@, pending as int));
                }
            },
            None => {
                self.records.push(rec);
                proof {
                    assert(self.keyed() =~= ks0.push(((user@, asset@), (user_index@, pending as int))));
                    lemma_assoc_push(ks0, ((user@, asset@), (user_index@, pending as int)));
                    lemma_assoc_push_wf(ks0, ((user@, asset@), (user_index@, pending as int)));
                    lemma_assoc_lookup_none(ks0, (user@, asset@));
                }
            },
        }
    }

    /// Applies every record of `updates` as a checkpoint write, leaving all
    /// other records as they were.
    pub fn apply_updates(&mut self, updates: &DistributionLedger)
        requires
            old(self).wf(),
            updates.wf(),
        ensures
            final(self).wf(),
            forall|u: Seq<char>, k: (bool, Seq<char>)|
                #[trigger] final(self).spec_get(u, k) == (match updates.spec_get(u, k) {
                    Some(v) => Some(v),
                    None => old(self).spec_get(u, k),
                }),
    {
        let ghost uk = updates.keyed();
        let mut j: usize = 0;
        while j < updates.records.len()
            invariant
                0 <= j <= updates.records@.len(),
                uk == updates.keyed(),
                updates.wf(),
                self.wf(),
                forall|u: Seq<char>, k: (bool, Seq<char>)|
                    #[trigger] self.spec_get(u, k) == (match assoc_lookup(
                        uk.take(j as int),
                        (u, k),
                    ) {
                        Some(v) => Some(v),
                        None => old(self).spec_get(u, k),
                    }),
            decreases updates.records@.len() - j,
        {
            let rec = &updates.records[j];
            proof {
                assert(uk[j as int] == ((rec.user@, rec.asset@), (rec.user_index@, rec.pending_rewards as int)));
                assert(uk.take(j as int + 1) =~= uk.take(j as int).push(uk[j as int]));
                lemma_assoc_push(uk.take(j as int), uk[j as int]);
                assert forall|l: int| 0 <= l < j implies uk.take(j as int)[l].0 != uk[j as int].0 by {
                    assert(uk.take(j as int)[l] == uk[l]);
                }
                lemma_assoc_lookup_none(uk.take(j as int), uk[j as int].0);
            }
            self.set(&rec.user, &rec.asset, rec.user_index, rec.pending_rewards);
            j += 1;
        }
        proof {
            assert(uk.take(updates.records@.len() as int) =~= uk);
        }
    }
}

/// The whole persisted state of the distributor: the configured controller
/// identity, the per-asset global indices, and the per-(user, asset)
/// checkpoints.
pub struct DistributorState {
    /// The single caller allowed to trigger settlement and claims.
    pub enterprise_contract: String,
    pub global_indices: GlobalIndexStore,
    pub distributions: DistributionLedger,
}

impl DistributorState {
    pub open spec fn wf(self) -> bool {
        self.global_indices.wf() && self.distributions.wf()
    }

    pub fn new(enterprise_contract: String) -> (s: DistributorState)
        ensures
            s.wf(),
            s.enterprise_contract == enterprise_contract,
            forall|k: (bool, Seq<char>)| s.global_indices.spec_get(k) == 0,
            forall|u: Seq<char>, k: (bool, Seq<char>)| s.distributions.spec_get(u, k) is None,
    {
        DistributorState {
            enterprise_contract,
            global_indices: GlobalIndexStore::new(),
            distributions: DistributionLedger::new(),
        }
    }
}

} // verus!
