//! Looking at the books without changing them.
//!
//! What a farm would show after the release due at the time of looking is
//! worked out and shown; nothing of it is written down.

use vstd::prelude::*;
use vstd::string::*;
use crate::books::{farmer_at, farmer_index, has_farmer, inv, lemma_parsed_seed};
use crate::contract::Contract;
use crate::errors::FarmingError;
use crate::farm::{Farm, FarmStatus};
use crate::model::{ContractView, covered, lemma_can_settle};
use crate::types::{AccountId, Balance, DENOM, FarmId, RPS, SeedId, TimestampSec};
use crate::utils::{parse_farm_id, spec_parse_farm_id};

verus! {

/// A farm as it is shown.
pub struct FarmInfo {
    pub farm_id: FarmId,
    pub farm_kind: String,
    pub farm_status: String,
    pub seed_id: SeedId,
    pub reward_token: AccountId,
    pub start_at: u32,
    pub reward_per_session: Balance,
    pub session_interval: u32,
    /// All reward ever put into the farm.
    pub total_reward: Balance,
    /// The round that the time of looking falls in.
    pub cur_round: u32,
    /// The round that is written down.
    pub last_round: u32,
    pub claimed_reward: Balance,
    /// The reward unclaimed after the release due at the time of looking.
    pub unclaimed_reward: Balance,
    pub beneficiary_reward: Balance,
}

/// The kind of every farm here.
pub open spec fn spec_farm_kind() -> Seq<char> {
    "SIMPLE_FARM"@
}

/// The status that a farm shows at time `now`: a running farm whose last
/// reward the release due now takes shows as ended.
pub open spec fn spec_shown_status(farm: Farm, now: TimestampSec) -> FarmStatus {
    match farm.spec_try_distribute(DENOM, now) {
        Some(dis) => if farm.status is Running && dis.undistributed == 0 {
            FarmStatus::Ended
        } else {
            farm.status
        },
        None => farm.status,
    }
}

/// The round that a farm shows at time `now`.
pub open spec fn spec_shown_round(farm: Farm, now: TimestampSec) -> u32 {
    match farm.spec_try_distribute(DENOM, now) {
        Some(dis) => dis.rr,
        None => farm.last_distribution.rr,
    }
}

/// The unclaimed reward that a farm shows at time `now`.
pub open spec fn spec_shown_unclaimed(farm: Farm, now: TimestampSec) -> Balance {
    match farm.spec_try_distribute(DENOM, now) {
        Some(dis) => dis.unclaimed,
        None => farm.last_distribution.unclaimed,
    }
}

/// Whether `info` shows the farm `farm` as it stands at time `now`.
pub open spec fn spec_shows(info: FarmInfo, farm: Farm, now: TimestampSec) -> bool {
    &&& info.farm_id@ == farm.farm_id@
    &&& info.farm_kind@ == spec_farm_kind()
    &&& info.farm_status@ == spec_shown_status(farm, now).name()
    &&& info.seed_id@ == farm.terms.seed_id@
    &&& info.reward_token@ == farm.terms.reward_token@
    &&& info.start_at == farm.terms.start_at
    &&& info.reward_per_session == farm.terms.reward_per_session
    &&& info.session_interval == farm.terms.session_interval
    &&& info.total_reward == farm.amount_of_reward
    &&& info.cur_round == spec_shown_round(farm, now)
    &&& info.last_round == farm.last_distribution.rr
    &&& info.claimed_reward == farm.amount_of_claimed
    &&& info.unclaimed_reward == spec_shown_unclaimed(farm, now)
    &&& info.beneficiary_reward == farm.amount_of_beneficiary
}

impl FarmInfo {
    /// Shows a farm as it stands at time `now`.
    pub fn from_farm(farm: &Farm, now: TimestampSec) -> (info: FarmInfo)
        requires
            farm.wf(),
        ensures
            spec_shows(info, *farm, now),
    {
        let seen = farm.try_distribute(&DENOM, now);
        let status: FarmStatus = match seen {
            Some(dis) => match farm.status {
                FarmStatus::Running => if dis.undistributed == 0 {
                    FarmStatus::Ended
                } else {
                    farm.status
                },
                _ => farm.status,
            },
            None => farm.status,
        };
        FarmInfo {
            farm_id: farm.farm_id.clone(),
            farm_kind: String::from_str("SIMPLE_FARM"),
            farm_status: String::from(&status),
            seed_id: farm.terms.seed_id.clone(),
            reward_token: farm.terms.reward_token.clone(),
            start_at: farm.terms.start_at,
            reward_per_session: farm.terms.reward_per_session,
            session_interval: farm.terms.session_interval,
            total_reward: farm.amount_of_reward,
            cur_round: match seen {
                Some(dis) => dis.rr,
                None => farm.last_distribution.rr,
            },
            last_round: farm.last_distribution.rr,
            claimed_reward: farm.amount_of_claimed,
            unclaimed_reward: match seen {
                Some(dis) => dis.unclaimed,
                None => farm.last_distribution.unclaimed,
            },
            beneficiary_reward: farm.amount_of_beneficiary,
        }
    }
}

/// The unclaimed reward of a farm as a farmer sees it at time `now`: after
/// the release due then over a stake of `total_seeds`.
pub open spec fn spec_unclaimed_seen(
    farm: Farm,
    total_seeds: Balance,
    now: TimestampSec,
) -> Balance {
    match farm.spec_try_distribute(total_seeds, now) {
        Some(dis) => dis.unclaimed,
        None => farm.last_distribution.unclaimed,
    }
}

/// What the farm `farm_id` would pay the farmer `account_id` for a claim at
/// time `now`. Nothing where the account, the farm or the seed in the
/// farm's name is not on record. No answer where the name cannot be read.
pub open spec fn spec_get_unclaimed_reward(
    c: ContractView,
    account_id: Seq<char>,
    farm_id: Seq<char>,
    now: TimestampSec,
) -> Result<int, FarmingError> {
    match spec_parse_farm_id(farm_id) {
        None => Err(FarmingError::InvalidFarmId),
        Some((seed_id, _)) => if has_farmer(c, account_id) && c.seeds.contains_key(seed_id)
            && c.farms.contains_key(farm_id) {
            let farmer = c.farmers[farmer_index(c, account_id)];
            Ok(
                c.farms[farm_id].spec_view_unclaimed(
                    farmer.spec_rps(farm_id),
                    farmer.spec_stake(seed_id),
                    c.seeds[seed_id].amount,
                    now,
                ),
            )
        } else {
            Ok(0)
        },
    }
}

/// What a farmer would be paid is covered: it is not less than nothing and
/// not more than the farm's unclaimed reward as it would stand at that time,
/// after the release over the stake of all farmers of the seed.
pub proof fn lemma_unclaimed_covered(
    c: ContractView,
    account_id: Seq<char>,
    farm_id: Seq<char>,
    now: TimestampSec,
)
    requires
        inv(c),
        c.farms.contains_key(farm_id),
        spec_get_unclaimed_reward(c, account_id, farm_id, now) is Ok,
    ensures
        0 <= spec_get_unclaimed_reward(c, account_id, farm_id, now)->Ok_0 <= spec_unclaimed_seen(
            c.farms[farm_id],
            c.seeds[c.farms[farm_id].terms.seed_id@].amount,
            now,
        ),
{
    lemma_parsed_seed(c, farm_id);
    let farm = c.farms[farm_id];
    let seed_id = farm.terms.seed_id@;
    if has_farmer(c, account_id) {
        let fi = farmer_index(c, account_id);
        assert(farmer_at(c, account_id, fi));
        assert(covered(c.farmers, farm));
        lemma_can_settle(c.farmers, fi, farm, c.seeds[seed_id].amount, now);
        farm.lemma_distribute_keeps(c.seeds[seed_id].amount, now);
        if farm.spec_started(now) {
            farm.lemma_release_bounds(c.seeds[seed_id].amount, now);
        }
    }
}

impl Contract {
    /// The farm `farm_id` as it stands at time `now`, if it is at work.
    pub fn get_farm(&self, farm_id: &FarmId, now: TimestampSec) -> (r: Option<FarmInfo>)
        requires
            self.wf(),
        ensures
            r is Some == self@.farms.contains_key(farm_id@),
            r is Some ==> spec_shows(r->0, self@.farms[farm_id@], now),
    {
        match self.data.farms.get_ref(farm_id) {
            Some(farm) => Some(FarmInfo::from_farm(farm, now)),
            None => None,
        }
    }

    /// The reward per seed that the farm `farm_id` has written down, if the
    /// farm is at work.
    pub fn get_farm_rps(&self, farm_id: &FarmId) -> (r: Option<RPS>)
        requires
            self.wf(),
        ensures
            r == (if self@.farms.contains_key(farm_id@) {
                Some(self@.farms[farm_id@].last_distribution.rps)
            } else {
                None
            }),
    {
        match self.data.farms.get_ref(farm_id) {
            Some(farm) => Some(farm.last_distribution.rps),
            None => None,
        }
    }

    /// The farm `farm_id` as it stands at time `now`, if it was cleared
    /// away.
    pub fn get_outdated_farm(&self, farm_id: &FarmId, now: TimestampSec) -> (r: Option<FarmInfo>)
        requires
            self.wf(),
        ensures
            r is Some == self@.outdated_farms.contains_key(farm_id@),
            r is Some ==> spec_shows(r->0, self@.outdated_farms[farm_id@], now),
    {
        match self.data.outdated_farms.get_ref(farm_id) {
            Some(farm) => Some(FarmInfo::from_farm(farm, now)),
            None => None,
        }
    }

    /// The farmer's claimed balance of the token `token_id`; nothing where
    /// the account has no record or no such balance.
    pub fn get_reward(&self, account_id: &AccountId, token_id: &AccountId) -> (r: Balance)
        requires
            self.wf(),
        ensures
            r == (if has_farmer(self@, account_id@) {
                self@.farmers[farmer_index(self@, account_id@)].spec_reward(token_id@)
            } else {
                0
            }),
    {
        proof {
            self.lemma_farmer_lookup(account_id@);
        }
        match self.data.farmers.get_ref(account_id) {
            Some(kept) => match kept.get_ref().rewards.get(token_id) {
                Some(x) => x,
                None => 0,
            },
            None => 0,
        }
    }

    /// The farmer's claimed balance of the token `token_id`, as `get_reward`
    /// gives it.
    pub fn internal_get_reward(&self, sender_id: &AccountId, token_id: &AccountId) -> (r: Balance)
        requires
            self.wf(),
        ensures
            r == (if has_farmer(self@, sender_id@) {
                self@.farmers[farmer_index(self@, sender_id@)].spec_reward(token_id@)
            } else {
                0
            }),
    {
        self.get_reward(sender_id, token_id)
    }

    /// The farmer's stake of the seed `seed_id`; nothing where the account
    /// has no record or no such stake.
    pub fn get_user_seed(&self, account_id: &AccountId, seed_id: &SeedId) -> (r: Balance)
        requires
            self.wf(),
        ensures
            r == (if has_farmer(self@, account_id@) {
                self@.farmers[farmer_index(self@, account_id@)].spec_stake(seed_id@)
            } else {
                0
            }),
    {
        proof {
            self.lemma_farmer_lookup(account_id@);
        }
        match self.data.farmers.get_ref(account_id) {
            Some(kept) => kept.get_ref().get_seed(seed_id),
            None => 0,
        }
    }

    /// The stake of all farmers of the seed `seed_id`, if the seed is on
    /// record.
    pub fn get_seed_amount(&self, seed_id: &SeedId) -> (r: Option<Balance>)
        requires
            self.wf(),
        ensures
            r == (if self@.seeds.contains_key(seed_id@) {
                Some(self@.seeds[seed_id@].amount)
            } else {
                None
            }),
    {
        match self.data.seeds.get_ref(seed_id) {
            Some(seed) => Some(seed.amount),
            None => None,
        }
    }

    /// What the farm `farm_id` would pay the farmer `account_id` for a claim
    /// at time `now`. It is never more than the farm's unclaimed reward as it
    /// would then stand.
    ///
    /// Refused where the name cannot be read.
    pub fn get_unclaimed_reward(
        &self,
        account_id: &AccountId,
        farm_id: &FarmId,
        now: TimestampSec,
    ) -> (r: Result<Balance, FarmingError>)
        requires
            self.wf(),
        ensures
            match spec_get_unclaimed_reward(self@, account_id@, farm_id@, now) {
                Ok(amount) => r == Ok::<Balance, FarmingError>(amount as u128) && 0 <= amount
                    <= u128::MAX,
                Err(e) => r == Err::<Balance, FarmingError>(e),
            },
            r is Ok && self@.farms.contains_key(farm_id@) ==> r->Ok_0 <= spec_unclaimed_seen(
                self@.farms[farm_id@],
                self@.seeds[self@.farms[farm_id@].terms.seed_id@].amount,
                now,
            ),
    {
        let seed_id = match parse_farm_id(farm_id) {
            None => {
                return Err(FarmingError::InvalidFarmId);
            },
            Some((seed_id, _)) => seed_id,
        };
        proof {
            self.lemma_farmer_lookup(account_id@);
            if self@.farms.contains_key(farm_id@) {
                lemma_parsed_seed(self@, farm_id@);
            }
        }
        let farmer = match self.data.farmers.get_ref(account_id) {
            Some(kept) => kept.get_ref(),
            None => {
                return Ok(0);
            },
        };
        let seed = match self.data.seeds.get_ref(&seed_id) {
            Some(seed) => seed,
            None => {
                return Ok(0);
            },
        };
        let farm = match self.data.farms.get_ref(farm_id) {
            Some(farm) => farm,
            None => {
                return Ok(0);
            },
        };
        let ghost fi = farmer_index(self@, account_id@);
        proof {
            lemma_can_settle(self@.farmers, fi, *farm, seed.amount, now);
            farm.lemma_distribute_keeps(seed.amount, now);
            if farm.spec_started(now) {
                farm.lemma_release_bounds(seed.amount, now);
            }
        }
        let user_rps = farmer.get_rps(farm_id);
        let user_seeds: u128 = farmer.get_seed(&seed_id);
        Ok(farm.view_farmer_unclaimed_reward(&user_rps, &user_seeds, &seed.amount, now))
    }
}

} // verus!
