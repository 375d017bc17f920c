//! Claiming reward.
//!
//! A claim settles the farmer with a farm, or with every farm of a seed:
//! the farm writes down the release that is due and pays the farmer what it
//! owes, and the farmer notes where the farm's reward per seed then stands.

use vstd::prelude::*;
use crate::books::{farmer_at, farmer_index, has_farmer, lemma_farmer_index, numbered, spec_names};
use crate::contract::Contract;
use crate::errors::FarmingError;
use crate::farm::Farm;
use crate::internals::{
    claim_user_reward_from_farm, lemma_settle_one, settle_seed, spec_settle_all, spec_settle_one,
    spec_work,
};
use crate::model::{ContractView, covered, lemma_can_settle};
use crate::types::{AccountId, FarmId, SeedId, TimestampSec};
use crate::utils::{lemma_parse_names_seed, parse_farm_id, spec_parse_farm_id};

verus! {

/// The books after the farmer `sender_id` claimed from the farm `farm_id` at
/// time `now`, or why the claim is refused.
///
/// The farmer settles with the farm, where there is such a farm and the seed
/// in its name is on record; a claim from any other farm settles nothing.
/// After it the farmer's deposit must still pay for the record's storage.
pub open spec fn spec_claim_reward_by_farm(
    c: ContractView,
    sender_id: Seq<char>,
    farm_id: Seq<char>,
    now: TimestampSec,
) -> Result<ContractView, FarmingError> {
    spec_claim_user_reward_by_farm_id(c, sender_id, farm_id, now, true)
}

/// The books after the farmer `sender_id` claimed from the farm `farm_id` at
/// time `now`, as `spec_claim_reward_by_farm` says; with `check_storage`
/// unset, the farmer's deposit is not looked at.
pub open spec fn spec_claim_user_reward_by_farm_id(
    c: ContractView,
    sender_id: Seq<char>,
    farm_id: Seq<char>,
    now: TimestampSec,
    check_storage: bool,
) -> Result<ContractView, FarmingError> {
    if !has_farmer(c, sender_id) {
        Err(FarmingError::AccountNotRegistered)
    } else {
        let fi = farmer_index(c, sender_id);
        match spec_parse_farm_id(farm_id) {
            None => Err(FarmingError::InvalidFarmId),
            Some((seed_id, _)) => {
                let settled = if c.seeds.contains_key(seed_id) && c.farms.contains_key(farm_id) {
                    spec_settle_one(c, fi, farm_id, c.seeds[seed_id].amount, now)
                } else {
                    Some(c)
                };
                match settled {
                    None => Err(FarmingError::Overflow),
                    Some(d) => if !check_storage || d.farmers[fi].spec_storage_covered() {
                        Ok(d)
                    } else {
                        Err(FarmingError::InsufficientStorage)
                    },
                }
            },
        }
    }
}

/// The books after the farmer `sender_id` claimed from all farms of the seed
/// `seed_id` at time `now`, or why the claim is refused.
///
/// The farmer settles with each farm that the seed lists, in the order of
/// the list; a seed that is not on record lists none. After it the farmer's
/// deposit must still pay for the record's storage.
pub open spec fn spec_claim_reward_by_seed(
    c: ContractView,
    sender_id: Seq<char>,
    seed_id: Seq<char>,
    now: TimestampSec,
) -> Result<ContractView, FarmingError> {
    spec_claim_user_reward_by_seed_id(c, sender_id, seed_id, now, true)
}

/// The books after the farmer `sender_id` claimed from all farms of the seed
/// `seed_id` at time `now`, as `spec_claim_reward_by_seed` says; with
/// `check_storage` unset, the farmer's deposit is not looked at.
pub open spec fn spec_claim_user_reward_by_seed_id(
    c: ContractView,
    sender_id: Seq<char>,
    seed_id: Seq<char>,
    now: TimestampSec,
    check_storage: bool,
) -> Result<ContractView, FarmingError> {
    if !has_farmer(c, sender_id) {
        Err(FarmingError::AccountNotRegistered)
    } else {
        let fi = farmer_index(c, sender_id);
        let settled = if c.seeds.contains_key(seed_id) {
            spec_settle_all(c, fi, c.seeds[seed_id].farms, c.seeds[seed_id].amount, now)
        } else {
            Some(c)
        };
        match settled {
            None => Err(FarmingError::Overflow),
            Some(d) => if !check_storage || d.farmers[fi].spec_storage_covered() {
                Ok(d)
            } else {
                Err(FarmingError::InsufficientStorage)
            },
        }
    }
}

impl Contract {
    /// What holds of a farm on the books whose name can be read: the seed in
    /// its name is its seed, and it can pay any farmer's claim.
    pub(crate) proof fn lemma_farm_ready(
        &self,
        fi: int,
        farm_id: Seq<char>,
        seed_id: Seq<char>,
        now: TimestampSec,
    )
        requires
            self.wf(),
            0 <= fi < self@.farmers.len(),
            self@.farms.contains_key(farm_id),
            match spec_parse_farm_id(farm_id) {
                Some((read, _)) => read == seed_id,
                None => false,
            },
        ensures
            self@.farms[farm_id].terms.seed_id@ == seed_id,
            self@.seeds.contains_key(seed_id),
            self@.farms[farm_id].wf(),
            self@.farms[farm_id].spec_can_claim(
                self@.farmers[fi].spec_rps(farm_id),
                self@.farmers[fi].spec_stake(seed_id),
                self@.seeds[seed_id].amount,
                now,
            ),
    {
        let c = self@;
        let farm = c.farms[farm_id];
        assert(spec_names(c.seeds, farm));
        let n = choose|n: nat|
            n < c.seeds[farm.terms.seed_id@].next_index && #[trigger] numbered(
                farm.farm_id@,
                farm.terms.seed_id@,
                n,
            );
        lemma_parse_names_seed(farm_id, farm.terms.seed_id@, n);
        assert(covered(c.farmers, farm));
        lemma_can_settle(c.farmers, fi, farm, c.seeds[seed_id].amount, now);
    }

    /// The farmer `sender_id` claims from the farm `farm_id` at time `now`:
    /// the two settle, and what the farm pays goes to the farmer's balance of
    /// the farm's reward token.
    ///
    /// Refused where the account has no record, the name is no farm's name,
    /// the balance would pass the greatest balance, or the farmer's deposit
    /// does not pay for the record's storage after the claim.
    pub fn claim_reward_by_farm(
        &mut self,
        sender_id: &AccountId,
        farm_id: &FarmId,
        now: TimestampSec,
    ) -> (r: Result<(), FarmingError>)
        requires
            old(self).wf(),
        ensures
            final(self).wf(),
            match spec_claim_reward_by_farm(old(self)@, sender_id@, farm_id@, now) {
                Ok(c) => r is Ok && final(self)@ == c,
                Err(e) => r == Err::<(), FarmingError>(e) && final(self)@ == old(self)@,
            },
    {
        self.claim_by_farm(sender_id, farm_id, now, true)
    }

    /// The farmer `sender_id` claims from the farm `farm_id` at time `now`,
    /// as `claim_reward_by_farm` does, but the farmer's deposit for storage
    /// is not looked at.
    pub fn internal_claim_user_reward_by_farm_id(
        &mut self,
        sender_id: &AccountId,
        farm_id: &FarmId,
        now: TimestampSec,
    ) -> (r: Result<(), FarmingError>)
        requires
            old(self).wf(),
        ensures
            final(self).wf(),
            match spec_claim_user_reward_by_farm_id(old(self)@, sender_id@, farm_id@, now, false) {
                Ok(c) => r is Ok && final(self)@ == c,
                Err(e) => r == Err::<(), FarmingError>(e) && final(self)@ == old(self)@,
            },
    {
        self.claim_by_farm(sender_id, farm_id, now, false)
    }

    /// Claims from one farm, with or without a look at the farmer's deposit
    /// for storage.
    fn claim_by_farm(
        &mut self,
        sender_id: &AccountId,
        farm_id: &FarmId,
        now: TimestampSec,
        check_storage: bool,
    ) -> (r: Result<(), FarmingError>)
        requires
            old(self).wf(),
        ensures
            final(self).wf(),
            match spec_claim_user_reward_by_farm_id(
                old(self)@,
                sender_id@,
                farm_id@,
                now,
                check_storage,
            ) {
                Ok(c) => r is Ok && final(self)@ == c,
                Err(e) => r == Err::<(), FarmingError>(e) && final(self)@ == old(self)@,
            },
    {
        let mut farmer = match self.get_farmer(sender_id) {
            Err(e) => {
                return Err(e);
            },
            Ok(f) => f,
        };
        let ghost fi = farmer_index(self@, sender_id@);
        assert(farmer_at(self@, sender_id@, fi));
        let seed_id = match parse_farm_id(farm_id) {
            None => {
                return Err(FarmingError::InvalidFarmId);
            },
            Some((seed_id, _)) => seed_id,
        };
        let total: Option<u128> = match self.data.seeds.get_ref(&seed_id) {
            Some(seed) => Some(seed.amount),
            None => None,
        };
        let mut settled: Option<Farm> = None;
        if let Some(amount) = total {
            if let Some(found) = self.data.farms.get_ref(farm_id) {
                let mut farm = found.clone();
                proof {
                    self.lemma_farm_ready(fi, farm_id@, seed_id@, now);
                }
                match claim_user_reward_from_farm(&mut farm, &mut farmer, &amount, now) {
                    Err(e) => {
                        return Err(e);
                    },
                    Ok(_) => {},
                }
                settled = Some(farm);
            }
        }
        if check_storage && !farmer.storage_covered() {
            return Err(FarmingError::InsufficientStorage);
        }
        let ghost goal = spec_claim_user_reward_by_farm_id(
            old(self)@,
            sender_id@,
            farm_id@,
            now,
            check_storage,
        )->Ok_0;
        proof {
            if settled is Some {
                lemma_settle_one(old(self)@, fi, farm_id@, now);
            }
        }
        if let Some(farm) = settled {
            self.store_farm(farm);
        }
        proof {
            lemma_farmer_index(self@, sender_id@, fi);
        }
        self.store_farmer(farmer);
        proof {
            assert(self@ =~= goal);
        }
        Ok(())
    }

    /// The farmer `sender_id` claims from all farms of the seed `seed_id` at
    /// time `now`: the farmer settles with each in turn, and what the farms
    /// pay goes to the farmer's balances of their reward tokens.
    ///
    /// Refused where the account has no record, a balance would pass the
    /// greatest balance, or the farmer's deposit does not pay for the
    /// record's storage after the claim.
    pub fn claim_reward_by_seed(
        &mut self,
        sender_id: &AccountId,
        seed_id: &SeedId,
        now: TimestampSec,
    ) -> (r: Result<(), FarmingError>)
        requires
            old(self).wf(),
        ensures
            final(self).wf(),
            match spec_claim_reward_by_seed(old(self)@, sender_id@, seed_id@, now) {
                Ok(c) => r is Ok && final(self)@ == c,
                Err(e) => r == Err::<(), FarmingError>(e) && final(self)@ == old(self)@,
            },
    {
        self.claim_by_seed(sender_id, seed_id, now, true)
    }

    /// The farmer `sender_id` claims from all farms of the seed `seed_id` at
    /// time `now`, as `claim_reward_by_seed` does, but the farmer's deposit
    /// for storage is not looked at.
    pub fn internal_claim_user_reward_by_seed_id(
        &mut self,
        sender_id: &AccountId,
        seed_id: &SeedId,
        now: TimestampSec,
    ) -> (r: Result<(), FarmingError>)
        requires
            old(self).wf(),
        ensures
            final(self).wf(),
            match spec_claim_user_reward_by_seed_id(old(self)@, sender_id@, seed_id@, now, false) {
                Ok(c) => r is Ok && final(self)@ == c,
                Err(e) => r == Err::<(), FarmingError>(e) && final(self)@ == old(self)@,
            },
    {
        self.claim_by_seed(sender_id, seed_id, now, false)
    }

    /// Claims from all farms of a seed, with or without a look at the
    /// farmer's deposit for storage.
    fn claim_by_seed(
        &mut self,
        sender_id: &AccountId,
        seed_id: &SeedId,
        now: TimestampSec,
        check_storage: bool,
    ) -> (r: Result<(), FarmingError>)
        requires
            old(self).wf(),
        ensures
            final(self).wf(),
            match spec_claim_user_reward_by_seed_id(
                old(self)@,
                sender_id@,
                seed_id@,
                now,
                check_storage,
            ) {
                Ok(c) => r is Ok && final(self)@ == c,
                Err(e) => r == Err::<(), FarmingError>(e) && final(self)@ == old(self)@,
            },
    {
        let mut farmer = match self.get_farmer(sender_id) {
            Err(e) => {
                return Err(e);
            },
            Ok(f) => f,
        };
        let ghost fi = farmer_index(self@, sender_id@);
        assert(farmer_at(self@, sender_id@, fi));
        let mut farms = self.load_farms();
        if let Some(seed) = self.data.seeds.get_ref(seed_id) {
            match settle_seed(
                &mut farms,
                &mut farmer,
                &seed.farms,
                seed.amount,
                now,
                Ghost(self@),
                Ghost(fi),
                Ghost(seed_id@),
            ) {
                Err(e) => {
                    return Err(e);
                },
                Ok(_) => {},
            }
        }
        if check_storage && !farmer.storage_covered() {
            return Err(FarmingError::InsufficientStorage);
        }
        proof {
            assert(spec_work(self@, farms@, fi, farmer@) =~= spec_claim_user_reward_by_seed_id(
                old(self)@,
                sender_id@,
                seed_id@,
                now,
                check_storage,
            )->Ok_0);
        }
        self.store_work(farms, farmer);
        Ok(())
    }
}

} // verus!
