//! Clearing farms away, and forgetting them.
//!
//! A farm with nothing left to release can be cleared away: what is still
//! unclaimed goes to the beneficiary, and the farm is kept among the farms
//! cleared away, where it changes no more. A farmer can then forget what was
//! noted of it.

use vstd::prelude::*;
use crate::books::{
    farmer_at, farmer_index, has_farmer, inv, inv_debts, inv_links, inv_names, inv_records,
    inv_totals, lemma_farmer_replaced, lemma_names_moved, lemma_parsed_seed, numbered,
    spec_farmer_restaked, spec_names, spec_seeds_restaked, spec_with_farmer,
};
use crate::contract::Contract;
use crate::errors::FarmingError;
use crate::farm_seed::FarmSeedView;
use crate::farmer::FarmerView;
use crate::model::{ContractView, covered, owed, total_stake};
use crate::str_map::{lemma_without, spec_without};
use crate::types::{AccountId, FarmId, TimestampSec};
use crate::utils::{parse_farm_id, spec_parse_farm_id};

verus! {

/// Whether the farm `farm_id` can be cleared away at time `now`: its name
/// can be read, the seed in its name and the farm are on record, and the
/// farm has nothing left to release.
pub open spec fn spec_removable(c: ContractView, farm_id: Seq<char>, now: TimestampSec) -> bool {
    match spec_parse_farm_id(farm_id) {
        None => false,
        Some((seed_id, _)) => c.seeds.contains_key(seed_id) && c.farms.contains_key(farm_id)
            && c.farms[farm_id].spec_can_be_removed(c.seeds[seed_id].amount, now),
    }
}

/// The books with the farm `farm_id` cleared away at time `now`: the farm is
/// cleared, goes from the farms at work to the farms cleared away, and is
/// struck from its seed's list.
pub open spec fn spec_cleared(
    c: ContractView,
    farm_id: Seq<char>,
    now: TimestampSec,
) -> ContractView {
    let farm = c.farms[farm_id];
    let seed_id = farm.terms.seed_id@;
    let seed = c.seeds[seed_id];
    ContractView {
        seeds: c.seeds.insert(
            seed_id,
            FarmSeedView {
                seed_id: seed.seed_id,
                seed_type: seed.seed_type,
                farms: spec_without(seed.farms, farm_id),
                next_index: seed.next_index,
                amount: seed.amount,
                min_deposit: seed.min_deposit,
            },
        ),
        farmers: c.farmers,
        farms: c.farms.remove(farm_id),
        outdated_farms: c.outdated_farms.insert(farm_id, farm.spec_move_to_clear(seed.amount, now)),
        nft_balance_seeds: c.nft_balance_seeds,
        owner_id: c.owner_id,
    }
}

/// The books after an attempt to clear the farm `farm_id` away at time
/// `now`, and whether it was cleared away; refused where the name cannot be
/// read.
pub open spec fn spec_remove_farm(
    c: ContractView,
    farm_id: Seq<char>,
    now: TimestampSec,
) -> Result<(ContractView, bool), FarmingError> {
    if spec_parse_farm_id(farm_id) is None {
        Err(FarmingError::InvalidFarmId)
    } else if spec_removable(c, farm_id, now) {
        Ok((spec_cleared(c, farm_id, now), true))
    } else {
        Ok((c, false))
    }
}

/// Clearing a farm away keeps all that holds of the books.
pub proof fn lemma_cleared(c: ContractView, farm_id: Seq<char>, now: TimestampSec)
    requires
        inv(c),
        spec_removable(c, farm_id, now),
    ensures
        inv(spec_cleared(c, farm_id, now)),
{
    let d = spec_cleared(c, farm_id, now);
    let farm = c.farms[farm_id];
    let seed_id = farm.terms.seed_id@;
    let seed = c.seeds[seed_id];
    lemma_parsed_seed(c, farm_id);
    let gone = farm.spec_move_to_clear(seed.amount, now);
    farm.lemma_move_to_clear_keeps(seed.amount, now);
    lemma_without(seed.farms, farm_id);
    assert(inv_records(d)) by {
        assert forall|k: Seq<char>| #[trigger] d.farms.contains_key(k) implies d.farms[k].farm_id@
            == k && d.farms[k].wf() by {
            assert(c.farms.contains_key(k));
        }
        assert forall|k: Seq<char>| #[trigger]
            d.outdated_farms.contains_key(k) implies d.outdated_farms[k].farm_id@ == k
            && d.outdated_farms[k].wf() by {
            if k != farm_id {
                assert(c.outdated_farms.contains_key(k));
            }
        }
        assert forall|k: Seq<char>| #[trigger] d.seeds.contains_key(k) implies d.seeds[k].seed_id
            == k && d.seeds[k].farms.no_duplicates() by {
            assert(c.seeds.contains_key(k));
        }
    }
    assert(inv_links(d)) by {
        assert forall|k: Seq<char>| #[trigger] d.farms.contains_key(k) implies d.seeds.contains_key(
            d.farms[k].terms.seed_id@,
        ) && d.seeds[d.farms[k].terms.seed_id@].farms.contains(k) by {
            assert(c.farms.contains_key(k));
            let s = c.farms[k].terms.seed_id@;
            assert(c.seeds[s].farms.contains(k));
        }
        assert forall|s: Seq<char>, k: Seq<char>|
            d.seeds.contains_key(s) && #[trigger] d.seeds[s].farms.contains(
                k,
            ) implies d.farms.contains_key(k) && d.farms[k].terms.seed_id@ == s by {
            assert(c.seeds.contains_key(s));
            assert(c.seeds[s].farms.contains(k));
            assert(c.farms.contains_key(k));
        }
    }
    assert(inv_names(d)) by {
        assert forall|k: Seq<char>| #[trigger] d.farms.contains_key(k) implies spec_names(
            d.seeds,
            d.farms[k],
        ) by {
            assert(c.farms.contains_key(k));
            lemma_names_moved(c.seeds, d.seeds, c.farms[k]);
        }
        assert forall|k: Seq<char>| #[trigger]
            d.outdated_farms.contains_key(k) implies spec_names(d.seeds, d.outdated_farms[k]) by {
            if k == farm_id {
                lemma_names_moved(c.seeds, d.seeds, farm);
                let s = farm.terms.seed_id@;
                let n = choose|n: nat|
                    n < d.seeds[s].next_index && #[trigger] numbered(farm.farm_id@, s, n);
                assert(numbered(gone.farm_id@, s, n));
            } else {
                assert(c.outdated_farms.contains_key(k));
                lemma_names_moved(c.seeds, d.seeds, c.outdated_farms[k]);
            }
        }
        assert forall|i: int, k: Seq<char>|
            0 <= i < d.farmers.len() && #[trigger] d.farmers[i].user_rps.contains_key(
                k,
            ) implies d.farms.contains_key(k) || d.outdated_farms.contains_key(k) by {
            assert(c.farmers[i].user_rps.contains_key(k));
        }
    }
    assert(inv_totals(d)) by {
        assert forall|s: Seq<char>| #[trigger] d.seeds.contains_key(s) implies d.seeds[s].amount
            == total_stake(d.farmers, s) by {
            assert(c.seeds.contains_key(s));
        }
        assert forall|i: int, s: Seq<char>|
            0 <= i < d.farmers.len() && #[trigger] d.farmers[i].seeds.contains_key(
                s,
            ) implies d.seeds.contains_key(s) by {
            assert(c.farmers[i].seeds.contains_key(s));
        }
    }
    assert(inv_debts(d)) by {
        assert forall|k: Seq<char>| #[trigger] d.farms.contains_key(k) implies covered(
            d.farmers,
            d.farms[k],
        ) by {
            assert(c.farms.contains_key(k));
        }
    }
}

/// The books after the farmer `sender_id` asked to forget what was noted of
/// the farm `farm_id`, and whether it was forgotten: it is, unless the seed
/// in the farm's name still lists the farm. Refused where the account has no
/// record, the name cannot be read, or the seed is not on record.
pub open spec fn spec_remove_user_rps(
    c: ContractView,
    sender_id: Seq<char>,
    farm_id: Seq<char>,
) -> Result<(ContractView, bool), FarmingError> {
    if !has_farmer(c, sender_id) {
        Err(FarmingError::AccountNotRegistered)
    } else {
        let fi = farmer_index(c, sender_id);
        let farmer = c.farmers[fi];
        match spec_parse_farm_id(farm_id) {
            None => Err(FarmingError::InvalidFarmId),
            Some((seed_id, _)) => if !c.seeds.contains_key(seed_id) {
                Err(FarmingError::SeedNotExist)
            } else if !c.seeds[seed_id].farms.contains(farm_id) {
                Ok(
                    (
                        spec_with_farmer(
                            c,
                            fi,
                            FarmerView {
                                farmer_id: farmer.farmer_id,
                                nft_seeds: farmer.nft_seeds,
                                amount: farmer.amount,
                                rewards: farmer.rewards,
                                seeds: farmer.seeds,
                                user_rps: farmer.user_rps.remove(farm_id),
                            },
                        ),
                        true,
                    ),
                )
            } else {
                Ok((c, false))
            },
        }
    }
}

/// Forgetting what was noted of a farm keeps all that holds of the books,
/// where the seed in the farm's name does not list the farm: no farm at
/// work has that name.
pub proof fn lemma_removed_user_rps(c: ContractView, sender_id: Seq<char>, farm_id: Seq<char>)
    requires
        inv(c),
        spec_remove_user_rps(c, sender_id, farm_id) is Ok,
    ensures
        inv(spec_remove_user_rps(c, sender_id, farm_id)->Ok_0.0),
{
    let fi = farmer_index(c, sender_id);
    assert(farmer_at(c, sender_id, fi));
    let d = spec_remove_user_rps(c, sender_id, farm_id)->Ok_0.0;
    let before = c.farmers[fi];
    let after = d.farmers[fi];
    if d != c {
        if c.farms.contains_key(farm_id) {
            lemma_parsed_seed(c, farm_id);
            assert(false);
        }
        assert(spec_farmer_restaked(c, before, after)) by {
            assert forall|k: Seq<char>| #[trigger] c.farms.contains_key(k) implies owed(
                c.farms[k],
                after,
            ) == owed(c.farms[k], before) && after.spec_rps(k)@
                <= c.farms[k].last_distribution.rps@ by {
                assert(covered(c.farmers, c.farms[k]));
                assert(before.spec_rps(c.farms[k].farm_id@)@
                    <= c.farms[k].last_distribution.rps@);
            }
        }
        assert(spec_seeds_restaked(c.seeds, d.seeds, before, after)) by {
            assert forall|s: Seq<char>| #[trigger] after.seeds.contains_key(s) implies d.seeds.contains_key(
            s) by {
                assert(c.farmers[fi].seeds.contains_key(s));
            }
        }
        lemma_farmer_replaced(c, d, fi);
    }
}

impl Contract {
    /// Clears the farm `farm_id` away at time `now`, if it has nothing left
    /// to release, and says whether it did: the farm is cleared, all its
    /// unclaimed reward goes to the beneficiary, and it is kept among the
    /// farms cleared away. Refused where the name cannot be read.
    pub fn internal_remove_farm_by_farm_id(&mut self, farm_id: &FarmId, now: TimestampSec) -> (r:
        Result<bool, FarmingError>)
        requires
            old(self).wf(),
        ensures
            final(self).wf(),
            match spec_remove_farm(old(self)@, farm_id@, now) {
                Ok((c, removed)) => r == Ok::<bool, FarmingError>(removed) && final(self)@ == c,
                Err(e) => r == Err::<bool, FarmingError>(e) && final(self)@ == old(self)@,
            },
    {
        let seed_id = match parse_farm_id(farm_id) {
            None => {
                return Err(FarmingError::InvalidFarmId);
            },
            Some((seed_id, _)) => seed_id,
        };
        let mut seed = match self.data.seeds.get_ref(&seed_id) {
            None => {
                return Ok(false);
            },
            Some(found) => found.clone(),
        };
        let mut farm = match self.data.farms.get_ref(farm_id) {
            None => {
                return Ok(false);
            },
            Some(found) => found.clone(),
        };
        proof {
            lemma_parsed_seed(self@, farm_id@);
        }
        if !farm.can_be_removed(&seed.amount, now) {
            return Ok(false);
        }
        proof {
            lemma_cleared(self@, farm_id@, now);
        }
        farm.move_to_clear(&seed.amount, now);
        self.data.farms.remove(farm_id);
        self.data.outdated_farms.insert(farm_id.clone(), farm);
        seed.farms.remove(farm_id);
        self.data.seeds.insert(seed_id, seed);
        proof {
            let d = spec_cleared(old(self)@, farm_id@, now);
            assert(self@.seeds =~= d.seeds);
            assert(self@ =~= d);
        }
        Ok(true)
    }

    /// Clears the farm `farm_id` away at time `now`, as
    /// `internal_remove_farm_by_farm_id` does.
    pub fn force_clean_farm(&mut self, farm_id: &FarmId, now: TimestampSec) -> (r: Result<
        bool,
        FarmingError,
    >)
        requires
            old(self).wf(),
        ensures
            final(self).wf(),
            match spec_remove_farm(old(self)@, farm_id@, now) {
                Ok((c, removed)) => r == Ok::<bool, FarmingError>(removed) && final(self)@ == c,
                Err(e) => r == Err::<bool, FarmingError>(e) && final(self)@ == old(self)@,
            },
    {
        self.internal_remove_farm_by_farm_id(farm_id, now)
    }

    /// Makes the farmer `sender_id` forget what was noted of the farm
    /// `farm_id`, and says whether it was forgotten: it is not while the seed
    /// in the farm's name lists the farm.
    ///
    /// Refused where the account has no record, the name cannot be read, or
    /// the seed is not on record.
    pub fn remove_user_rps_by_farm(&mut self, sender_id: &AccountId, farm_id: &FarmId) -> (r:
        Result<bool, FarmingError>)
        requires
            old(self).wf(),
        ensures
            final(self).wf(),
            match spec_remove_user_rps(old(self)@, sender_id@, farm_id@) {
                Ok((c, removed)) => r == Ok::<bool, FarmingError>(removed) && final(self)@ == c,
                Err(e) => r == Err::<bool, FarmingError>(e) && final(self)@ == old(self)@,
            },
    {
        let mut farmer = match self.get_farmer(sender_id) {
            Err(e) => {
                return Err(e);
            },
            Ok(f) => f,
        };
        let ghost fi = farmer_index(self@, sender_id@);
        assert(farmer_at(self@, sender_id@, fi));
        let seed_id = match parse_farm_id(farm_id) {
            None => {
                return Err(FarmingError::InvalidFarmId);
            },
            Some((seed_id, _)) => seed_id,
        };
        let listed: bool = match self.data.seeds.get_ref(&seed_id) {
            None => {
                return Err(FarmingError::SeedNotExist);
            },
            Some(seed) => {
                proof {
                    seed.farms.lemma_keys();
                }
                seed.farms.contains(farm_id)
            },
        };
        if listed {
            return Ok(false);
        }
        farmer.remove_rps(farm_id);
        proof {
            lemma_removed_user_rps(self@, sender_id@, farm_id@);
        }
        self.store_farmer(farmer);
        proof {
            assert(self@ =~= spec_remove_user_rps(old(self)@, sender_id@, farm_id@)->Ok_0.0);
        }
        Ok(true)
    }
}

} // verus!
