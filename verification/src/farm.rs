//! One farm: a reward campaign that pays one reward token to the stakers of
//! one seed.
//!
//! Someone sets the terms and creates the farm; the first deposit of reward
//! starts it. From its start time on, each session moves a fixed amount from
//! the undistributed reward to the unclaimed reward, and raises the
//! reward-per-seed accumulator by that amount over the total stake. A farmer's
//! share is the stake times the rise of the accumulator since the farmer last
//! settled.

use vstd::prelude::*;
use crate::model::owed;
use crate::sums::sum;
use crate::types::{AccountId, Balance, DENOM, FarmId, RPS, SeedId, TimestampSec};
use crate::wide::{
    U256, full_mul, lemma_from_nat, lemma_from_nat_view, pow128, pow256, spec_from_nat,
};

verus! {

/// How a farm pays: from `start_at` on, `reward_per_session` is released every
/// `session_interval` seconds.
pub struct FarmTerms {
    pub seed_id: SeedId,
    pub reward_token: AccountId,
    pub start_at: TimestampSec,
    pub reward_per_session: Balance,
    pub session_interval: TimestampSec,
}

/// The terms as a caller writes them.
pub struct HRFarmTerms {
    pub seed_id: SeedId,
    pub reward_token: AccountId,
    pub start_at: u32,
    pub reward_per_session: u128,
    pub session_interval: u32,
}

impl Clone for FarmTerms {
    fn clone(&self) -> (r: Self)
        ensures
            r == *self,
    {
        FarmTerms {
            seed_id: self.seed_id.clone(),
            reward_token: self.reward_token.clone(),
            start_at: self.start_at,
            reward_per_session: self.reward_per_session,
            session_interval: self.session_interval,
        }
    }
}

impl vstd::std_specs::convert::FromSpecImpl<&HRFarmTerms> for FarmTerms {
    open spec fn obeys_from_spec() -> bool {
        true
    }

    open spec fn from_spec(terms: &HRFarmTerms) -> FarmTerms {
        terms.spec_terms()
    }
}

impl HRFarmTerms {
    /// The terms as a farm keeps them.
    pub open spec fn spec_terms(&self) -> FarmTerms {
        FarmTerms {
            seed_id: self.seed_id,
            reward_token: self.reward_token,
            start_at: self.start_at,
            reward_per_session: self.reward_per_session,
            session_interval: self.session_interval,
        }
    }
}

impl From<&HRFarmTerms> for FarmTerms {
    fn from(terms: &HRFarmTerms) -> (r: FarmTerms) {
        FarmTerms {
            seed_id: terms.seed_id.clone(),
            reward_token: terms.reward_token.clone(),
            start_at: terms.start_at,
            reward_per_session: terms.reward_per_session,
            session_interval: terms.session_interval,
        }
    }
}

/// Where a farm stands in its life. A farm only ever moves forward:
/// created, running, ended, cleared.
#[derive(Clone, Copy, Debug, PartialEq, Eq, Structural)]
pub enum FarmStatus {
    Created,
    Running,
    Ended,
    Cleared,
}

impl FarmStatus {
    /// The place of a status in the order of a farm's life.
    pub open spec fn rank(self) -> nat {
        match self {
            FarmStatus::Created => 0,
            FarmStatus::Running => 1,
            FarmStatus::Ended => 2,
            FarmStatus::Cleared => 3,
        }
    }

    /// The name of a status.
    pub open spec fn name(self) -> Seq<char> {
        match self {
            FarmStatus::Created => "Created"@,
            FarmStatus::Running => "Running"@,
            FarmStatus::Ended => "Ended"@,
            FarmStatus::Cleared => "Cleared"@,
        }
    }
}

impl vstd::std_specs::convert::FromSpecImpl<&FarmStatus> for String {
    open spec fn obeys_from_spec() -> bool {
        false
    }

    open spec fn from_spec(status: &FarmStatus) -> String {
        arbitrary()
    }
}

impl From<&FarmStatus> for String {
    fn from(status: &FarmStatus) -> (r: String)
        ensures
            r@ == status.name(),
    {
        match *status {
            FarmStatus::Created => "Created".to_string(),
            FarmStatus::Running => "Running".to_string(),
            FarmStatus::Ended => "Ended".to_string(),
            FarmStatus::Cleared => "Cleared".to_string(),
        }
    }
}

/// The books of a farm's reward.
#[derive(Clone, Copy, Debug, PartialEq, Eq, Structural)]
pub struct FarmRewardDistribution {
    /// Reward that no session has released yet.
    pub undistributed: Balance,
    /// Reward released and not yet claimed by any farmer.
    pub unclaimed: Balance,
    /// Reward per seed: rises by the released reward over the total stake.
    pub rps: RPS,
    /// Reward round: the sessions accounted for so far.
    pub rr: u32,
}

impl FarmRewardDistribution {
    /// Books with nothing in them.
    pub fn new() -> (r: Self)
        ensures
            r.undistributed == 0,
            r.unclaimed == 0,
            r.rps@ == 0,
            r.rr == 0,
    {
        FarmRewardDistribution { undistributed: 0, unclaimed: 0, rps: U256::zero(), rr: 0 }
    }
}

/// What a farmer with `user_seeds` staked, who last settled at `user_rps`, is
/// owed once reward per seed stands at `rps`: the stake times the rise,
/// scaled down and rounded down.
pub open spec fn spec_unclaimed_for(user_rps: nat, user_seeds: nat, rps: nat) -> int {
    (user_seeds * (rps - user_rps)) / (DENOM as int)
}

/// What a farmer is owed, as `spec_unclaimed_for` says. There is no answer
/// where the farmer settled past `rps`, or where the amount is no balance.
pub fn unclaimed_for(user_rps: &RPS, user_seeds: Balance, rps: &RPS) -> (r: Option<Balance>)
    ensures
        r == (if user_rps@ <= rps@ && spec_unclaimed_for(user_rps@, user_seeds as nat, rps@)
            <= u128::MAX {
            Some(spec_unclaimed_for(user_rps@, user_seeds as nat, rps@) as u128)
        } else {
            None
        }),
{
    match rps.checked_sub(user_rps) {
        None => None,
        Some(rise) => {
            let ghost product = user_seeds as int * (rps@ - user_rps@);
            proof {
                assert(rise@ * user_seeds == product) by (nonlinear_arith)
                    requires
                        rise@ == rps@ - user_rps@,
                        product == user_seeds as int * (rps@ - user_rps@),
                ;
                assert(product >= pow256() ==> product / (DENOM as int) > u128::MAX)
                    by (nonlinear_arith)
                    requires
                        pow256() == pow128() * pow128(),
                        pow128() == u128::MAX + 1,
                        DENOM == 1_000_000_000_000_000_000_000_000,
                ;
            }
            match rise.checked_mul_u128(user_seeds) {
                None => None,
                Some(owed) => owed.div_u128(DENOM).to_u128(),
            }
        },
    }
}

/// One reward campaign.
pub struct Farm {
    pub farm_id: FarmId,
    pub terms: FarmTerms,
    pub status: FarmStatus,
    pub last_distribution: FarmRewardDistribution,
    /// All reward ever put into the farm.
    pub amount_of_reward: Balance,
    /// Reward that has left the books: claimed by farmers, or gone to the
    /// beneficiary.
    pub amount_of_claimed: Balance,
    /// Reward that went to the beneficiary, for want of anyone staking.
    pub amount_of_beneficiary: Balance,
}

impl Clone for Farm {
    fn clone(&self) -> (r: Self)
        ensures
            r == *self,
    {
        Farm {
            farm_id: self.farm_id.clone(),
            terms: self.terms.clone(),
            status: self.status,
            last_distribution: self.last_distribution,
            amount_of_reward: self.amount_of_reward,
            amount_of_claimed: self.amount_of_claimed,
            amount_of_beneficiary: self.amount_of_beneficiary,
        }
    }
}

impl Farm {
    /// The farm's books balance, and its accumulator is covered by what was
    /// released.
    ///
    /// - A session has a length.
    /// - Every unit of reward put in is undistributed, unclaimed, or has left
    ///   the books.
    /// - Reward per seed is at most the released reward times `DENOM`: each
    ///   release adds the released amount times `DENOM` over a stake of at
    ///   least one.
    /// - A created farm holds nothing, an ended farm has nothing left to
    ///   release, and a cleared farm has nothing left at all.
    pub open spec fn wf(&self) -> bool {
        let d = self.last_distribution;
        &&& self.terms.session_interval > 0
        &&& self.amount_of_reward == d.undistributed + d.unclaimed + self.amount_of_claimed
        &&& self.amount_of_beneficiary <= self.amount_of_claimed
        &&& d.rps@ <= DENOM * (self.amount_of_reward - d.undistributed)
        &&& (self.status is Created ==> self.amount_of_reward == 0 && d.rr == 0)
        &&& (self.status is Ended ==> d.undistributed == 0)
        &&& (self.status is Cleared ==> d.undistributed == 0 && d.unclaimed == 0)
    }

    /// Whether the farm releases reward at time `now`: it runs, and its
    /// start time has come.
    pub open spec fn spec_started(&self, now: TimestampSec) -> bool {
        self.status is Running && now >= self.terms.start_at
    }

    /// The session that time `now` falls in, counted from the start.
    pub open spec fn spec_target_round(&self, now: TimestampSec) -> int {
        (now - self.terms.start_at) / (self.terms.session_interval as int)
    }

    /// The reward that the sessions between the recorded round and time `now`
    /// call for.
    pub open spec fn spec_reward_wanted(&self, now: TimestampSec) -> int {
        if self.spec_target_round(now) > self.last_distribution.rr {
            (self.spec_target_round(now) - self.last_distribution.rr)
                * self.terms.reward_per_session
        } else {
            0
        }
    }

    /// The reward released at time `now`: what is wanted, as far as the
    /// undistributed reward goes.
    pub open spec fn spec_reward_released(&self, now: TimestampSec) -> int {
        if self.spec_reward_wanted(now) > self.last_distribution.undistributed {
            self.last_distribution.undistributed as int
        } else {
            self.spec_reward_wanted(now)
        }
    }

    /// The round recorded after a release at time `now`. Where the reward
    /// runs out, the round is the last one paid in full, plus one for a
    /// remainder paid to a last, partial session.
    pub open spec fn spec_round_reached(&self, now: TimestampSec) -> int {
        let d = self.last_distribution;
        let per = self.terms.reward_per_session as int;
        if self.spec_target_round(now) <= d.rr {
            d.rr as int
        } else if self.spec_reward_wanted(now) > d.undistributed {
            let whole = d.undistributed as int / per;
            d.rr + whole + (if whole * per < d.undistributed {
                1int
            } else {
                0int
            })
        } else {
            self.spec_target_round(now)
        }
    }

    /// Reward per seed after a release at time `now` over a stake of
    /// `total_seeds`. With nothing staked it stays as it is.
    pub open spec fn spec_rps_after(&self, total_seeds: Balance, now: TimestampSec) -> int {
        if total_seeds == 0 {
            self.last_distribution.rps@ as int
        } else {
            self.last_distribution.rps@ + (self.spec_reward_released(now) * DENOM) / (
            total_seeds as int)
        }
    }

    /// The books after a release at time `now` over a stake of `total_seeds`;
    /// nothing for a farm that does not release at that time.
    pub open spec fn spec_try_distribute(
        &self,
        total_seeds: Balance,
        now: TimestampSec,
    ) -> Option<FarmRewardDistribution> {
        let d = self.last_distribution;
        if !self.spec_started(now) {
            None
        } else {
            Some(
                FarmRewardDistribution {
                    undistributed: (d.undistributed - self.spec_reward_released(now)) as u128,
                    unclaimed: (d.unclaimed + self.spec_reward_released(now)) as u128,
                    rps: spec_from_nat(self.spec_rps_after(total_seeds, now) as nat),
                    rr: self.spec_round_reached(now) as u32,
                },
            )
        }
    }

    /// The farm after the release at time `now` is written into its books.
    /// Where the round moved on with nothing staked, all unclaimed reward goes
    /// to the beneficiary. A farm with nothing left to release has ended.
    pub open spec fn spec_distribute(&self, total_seeds: Balance, now: TimestampSec) -> Farm {
        match self.spec_try_distribute(total_seeds, now) {
            None => *self,
            Some(dis) => {
                let swept = dis.rr != self.last_distribution.rr && total_seeds == 0;
                Farm {
                    farm_id: self.farm_id,
                    terms: self.terms,
                    status: if dis.undistributed == 0 {
                        FarmStatus::Ended
                    } else {
                        self.status
                    },
                    last_distribution: if swept {
                        FarmRewardDistribution {
                            undistributed: dis.undistributed,
                            unclaimed: 0,
                            rps: dis.rps,
                            rr: dis.rr,
                        }
                    } else {
                        dis
                    },
                    amount_of_reward: self.amount_of_reward,
                    amount_of_claimed: if swept {
                        (self.amount_of_claimed + dis.unclaimed) as u128
                    } else {
                        self.amount_of_claimed
                    },
                    amount_of_beneficiary: if swept {
                        (self.amount_of_beneficiary + dis.unclaimed) as u128
                    } else {
                        self.amount_of_beneficiary
                    },
                }
            },
        }
    }

    /// A release keeps every number of the books in range: the round stays
    /// at or below the target, the released reward is at hand, and reward per
    /// seed stays covered by what was released.
    pub proof fn lemma_release_bounds(&self, total_seeds: Balance, now: TimestampSec)
        requires
            self.wf(),
            self.spec_started(now),
        ensures
            0 <= self.spec_reward_released(now) <= self.last_distribution.undistributed,
            self.last_distribution.rr <= self.spec_round_reached(now) <= u32::MAX,
            self.spec_round_reached(now) == self.last_distribution.rr
                ==> self.spec_reward_released(now) == 0,
            self.last_distribution.rps@ <= self.spec_rps_after(total_seeds, now),
            self.spec_rps_after(total_seeds, now) <= DENOM * (self.amount_of_reward
                - self.last_distribution.undistributed + self.spec_reward_released(now)),
            self.spec_rps_after(total_seeds, now) < pow256(),
    {
        let d = self.last_distribution;
        let per = self.terms.reward_per_session as int;
        let target = self.spec_target_round(now);
        let span = now - self.terms.start_at;
        let len = self.terms.session_interval as int;
        let und = d.undistributed as int;
        assert(0 <= target <= span) by (nonlinear_arith)
            requires
                target == span / len,
                span >= 0,
                len > 0,
        ;
        let released = self.spec_reward_released(now);
        if target > d.rr {
            let rounds = target - d.rr;
            assert(rounds * per >= 0) by (nonlinear_arith)
                requires
                    rounds > 0,
                    per >= 0,
            ;
            if rounds * per > und {
                assert(per > 0) by (nonlinear_arith)
                    requires
                        rounds * per > und,
                        und >= 0,
                        rounds > 0,
                        per >= 0,
                ;
                let whole = und / per;
                assert(0 <= whole && whole * per <= und && und < (whole + 1) * per && (whole + 1
                    <= rounds)) by (nonlinear_arith)
                    requires
                        whole == und / per,
                        per > 0,
                        und >= 0,
                        rounds * per > und,
                ;
                if whole == 0 && !(whole * per < und) {
                    assert(whole * per == 0) by (nonlinear_arith)
                        requires
                            whole == 0,
                    ;
                }
            }
        }
        let base = self.amount_of_reward - und;
        if total_seeds != 0 {
            let t = total_seeds as int;
            let gain = (released * DENOM) / t;
            assert(0 <= gain <= released * DENOM) by (nonlinear_arith)
                requires
                    gain == (released * DENOM) / t,
                    t >= 1,
                    released >= 0,
            ;
            assert(DENOM * (base + released) == DENOM * base + released * DENOM)
                by (nonlinear_arith);
        } else {
            assert(DENOM * (base + released) >= DENOM * base) by (nonlinear_arith)
                requires
                    released >= 0,
            ;
        }
        assert(DENOM * (base + released) < pow128() * pow128()) by (nonlinear_arith)
            requires
                0 <= base + released <= u128::MAX,
                pow128() == u128::MAX + 1,
                DENOM == 1_000_000_000_000_000_000_000_000,
        ;
    }

    /// A new farm with the given name and terms, holding nothing.
    pub fn new(id: FarmId, terms: FarmTerms) -> (farm: Self)
        requires
            terms.session_interval > 0,
        ensures
            farm.wf(),
            farm.farm_id == id,
            farm.terms == terms,
            farm.status is Created,
            farm.last_distribution.undistributed == 0,
            farm.last_distribution.unclaimed == 0,
            farm.last_distribution.rps@ == 0,
            farm.last_distribution.rr == 0,
            farm.amount_of_reward == 0,
            farm.amount_of_claimed == 0,
            farm.amount_of_beneficiary == 0,
    {
        let farm = Farm {
            farm_id: id,
            amount_of_reward: 0,
            amount_of_claimed: 0,
            amount_of_beneficiary: 0,
            status: FarmStatus::Created,
            last_distribution: FarmRewardDistribution::new(),
            terms,
        };
        assert(DENOM * (farm.amount_of_reward - farm.last_distribution.undistributed) == 0);
        farm
    }

    /// The books as they would stand after the release due at time `now`,
    /// over a stake of `total_seeds`. The farm itself is left as it is.
    ///
    /// Nothing is returned for a farm that is not running or has not started.
    /// A time that falls at or before the recorded round releases nothing.
    pub fn try_distribute(&self, total_seeds: &Balance, now: TimestampSec) -> (r: Option<
        FarmRewardDistribution,
    >)
        requires
            self.wf(),
        ensures
            r == self.spec_try_distribute(*total_seeds, now),
    {
        match self.status {
            FarmStatus::Running => {},
            _ => {
                return None;
            },
        }
        if now < self.terms.start_at {
            return None;
        }
        proof {
            self.lemma_release_bounds(*total_seeds, now);
            lemma_from_nat_view(self.last_distribution.rps);
        }
        let last = self.last_distribution;
        let per: u128 = self.terms.reward_per_session;
        let target: u32 = (now - self.terms.start_at) / self.terms.session_interval;
        if target <= last.rr {
            return Some(last);
        }
        let rounds: u32 = target - last.rr;
        let mut reward: u128 = 0;
        let mut rr: u32 = target;
        if per != 0 {
            let whole: u128 = last.undistributed / per;
            proof {
                let (w, p, u, n) = (whole as int, per as int, last.undistributed as int, rounds as int);
                assert(w * p <= u && u < (w + 1) * p && (w < n <==> n * p > u) && w >= 0)
                    by (nonlinear_arith)
                    requires
                        w == u / p,
                        p > 0,
                        u >= 0,
                        n > 0,
                ;
            }
            if whole < rounds as u128 {
                reward = last.undistributed;
                rr = last.rr + whole as u32;
                if whole * per < last.undistributed {
                    rr = rr + 1;
                }
            } else {
                reward = rounds as u128 * per;
            }
        }
        let rps: U256 = if *total_seeds == 0 {
            last.rps
        } else {
            let gain = full_mul(reward, DENOM).div_u128(*total_seeds);
            match last.rps.checked_add(&gain) {
                Some(sum) => sum,
                None => last.rps,
            }
        };
        proof {
            lemma_from_nat_view(rps);
        }
        Some(
            FarmRewardDistribution {
                undistributed: last.undistributed - reward,
                unclaimed: last.unclaimed + reward,
                rps,
                rr,
            },
        )
    }

    /// Reward per seed as a farmer sees it at time `now`: after the release
    /// due then, or as recorded where the farm does not release.
    pub open spec fn spec_rps_seen(&self, total_seeds: Balance, now: TimestampSec) -> nat {
        match self.spec_try_distribute(total_seeds, now) {
            Some(dis) => dis.rps@,
            None => self.last_distribution.rps@,
        }
    }

    /// What a farmer would be owed at time `now`, had the release due then
    /// been written down. With no stake at all, nothing.
    pub open spec fn spec_view_unclaimed(
        &self,
        user_rps: RPS,
        user_seeds: Balance,
        total_seeds: Balance,
        now: TimestampSec,
    ) -> int {
        if total_seeds == 0 || user_seeds == 0 {
            0
        } else {
            spec_unclaimed_for(
                user_rps@,
                user_seeds as nat,
                self.spec_rps_seen(total_seeds, now),
            )
        }
    }

    /// Whether a farmer's claim at time `now` can be paid: the farmer settled
    /// at or before the farm's reward per seed, and the unclaimed reward
    /// covers what the farmer is owed.
    pub open spec fn spec_can_claim(
        &self,
        user_rps: RPS,
        user_seeds: Balance,
        total_seeds: Balance,
        now: TimestampSec,
    ) -> bool {
        let after = self.spec_distribute(total_seeds, now).last_distribution;
        &&& user_rps@ <= after.rps@
        &&& spec_unclaimed_for(user_rps@, user_seeds as nat, after.rps@) <= after.unclaimed
    }

    /// The farm after a farmer's claim at time `now`: the release is written
    /// down, and what the farmer is owed moves from unclaimed to claimed.
    pub open spec fn spec_claim(
        &self,
        user_rps: RPS,
        user_seeds: Balance,
        total_seeds: Balance,
        now: TimestampSec,
    ) -> Farm {
        let f = self.spec_distribute(total_seeds, now);
        let d = f.last_distribution;
        let claimed = spec_unclaimed_for(user_rps@, user_seeds as nat, d.rps@);
        Farm {
            farm_id: f.farm_id,
            terms: f.terms,
            status: f.status,
            last_distribution: FarmRewardDistribution {
                undistributed: d.undistributed,
                unclaimed: (d.unclaimed - claimed) as u128,
                rps: d.rps,
                rr: d.rr,
            },
            amount_of_reward: f.amount_of_reward,
            amount_of_claimed: (f.amount_of_claimed + claimed) as u128,
            amount_of_beneficiary: f.amount_of_beneficiary,
        }
    }

    /// The farm with all its unclaimed reward handed to the beneficiary.
    pub open spec fn spec_swept(&self) -> Farm {
        let d = self.last_distribution;
        Farm {
            farm_id: self.farm_id,
            terms: self.terms,
            status: self.status,
            last_distribution: FarmRewardDistribution {
                undistributed: d.undistributed,
                unclaimed: 0,
                rps: d.rps,
                rr: d.rr,
            },
            amount_of_reward: self.amount_of_reward,
            amount_of_claimed: (self.amount_of_claimed + d.unclaimed) as u128,
            amount_of_beneficiary: (self.amount_of_beneficiary + d.unclaimed) as u128,
        }
    }

    /// The farm after an attempt to clear it at time `now`. A running farm
    /// first has its release written down. An ended farm is swept and
    /// cleared; any other stays as it is.
    pub open spec fn spec_move_to_clear(&self, total_seeds: Balance, now: TimestampSec) -> Farm {
        let f = if self.status is Running {
            self.spec_distribute(total_seeds, now)
        } else {
            *self
        };
        if f.status is Ended {
            let g = f.spec_swept();
            Farm {
                farm_id: g.farm_id,
                terms: g.terms,
                status: FarmStatus::Cleared,
                last_distribution: g.last_distribution,
                amount_of_reward: g.amount_of_reward,
                amount_of_claimed: g.amount_of_claimed,
                amount_of_beneficiary: g.amount_of_beneficiary,
            }
        } else {
            f
        }
    }

    /// Whether the farm has nothing left to release at time `now`: it has
    /// ended, or it runs and the release due now takes the last of its
    /// reward.
    pub open spec fn spec_can_be_removed(&self, total_seeds: Balance, now: TimestampSec) -> bool {
        match self.status {
            FarmStatus::Ended => true,
            FarmStatus::Running => match self.spec_try_distribute(total_seeds, now) {
                Some(dis) => dis.undistributed == 0,
                None => false,
            },
            _ => false,
        }
    }

    /// Whether the farm takes `amount` more reward at time `now`. A created
    /// farm does. A running farm does unless the release due now takes the
    /// last of its reward, or the total of all reward would pass the greatest
    /// balance. An ended or cleared farm does not.
    pub open spec fn spec_accepts_reward(&self, amount: Balance, now: TimestampSec) -> bool {
        match self.status {
            FarmStatus::Created => true,
            FarmStatus::Running => {
                &&& self.amount_of_reward + amount <= u128::MAX
                &&& match self.spec_try_distribute(DENOM, now) {
                    Some(dis) => dis.undistributed != 0,
                    None => true,
                }
            },
            _ => false,
        }
    }

    /// The farm after it took `amount` more reward at time `now`. The first
    /// reward sets a created farm running, and gives a farm without a start
    /// time the time `now` to start at.
    pub open spec fn spec_add_reward(&self, amount: Balance, now: TimestampSec) -> Farm {
        let d = self.last_distribution;
        Farm {
            farm_id: self.farm_id,
            terms: FarmTerms {
                seed_id: self.terms.seed_id,
                reward_token: self.terms.reward_token,
                start_at: if self.status is Created && self.terms.start_at == 0 {
                    now
                } else {
                    self.terms.start_at
                },
                reward_per_session: self.terms.reward_per_session,
                session_interval: self.terms.session_interval,
            },
            status: FarmStatus::Running,
            last_distribution: FarmRewardDistribution {
                undistributed: (d.undistributed + amount) as u128,
                unclaimed: d.unclaimed,
                rps: d.rps,
                rr: d.rr,
            },
            amount_of_reward: (self.amount_of_reward + amount) as u128,
            amount_of_claimed: self.amount_of_claimed,
            amount_of_beneficiary: self.amount_of_beneficiary,
        }
    }

    /// Writing a release down keeps the books: they still balance, reward per
    /// seed has not fallen, the round has not fallen, and the farm has not
    /// gone back in its life. The reward put in stays as it was.
    pub proof fn lemma_distribute_keeps(&self, total_seeds: Balance, now: TimestampSec)
        requires
            self.wf(),
        ensures
            self.spec_distribute(total_seeds, now).wf(),
            self.spec_distribute(total_seeds, now).last_distribution.rps@
                >= self.last_distribution.rps@,
            self.spec_distribute(total_seeds, now).last_distribution.rr
                >= self.last_distribution.rr,
            self.spec_distribute(total_seeds, now).status.rank() >= self.status.rank(),
            self.spec_distribute(total_seeds, now).amount_of_reward == self.amount_of_reward,
            self.spec_distribute(total_seeds, now).farm_id == self.farm_id,
            self.spec_distribute(total_seeds, now).terms == self.terms,
    {
        if self.spec_started(now) {
            self.lemma_release_bounds(total_seeds, now);
            lemma_from_nat(self.spec_rps_after(total_seeds, now) as nat);
        }
    }

    /// Clearing keeps the books: they still balance, and the farm's name,
    /// terms and reward per seed are as after the release.
    pub proof fn lemma_move_to_clear_keeps(&self, total_seeds: Balance, now: TimestampSec)
        requires
            self.wf(),
        ensures
            self.spec_move_to_clear(total_seeds, now).wf(),
            self.spec_move_to_clear(total_seeds, now).farm_id == self.farm_id,
            self.spec_move_to_clear(total_seeds, now).terms == self.terms,
            self.spec_move_to_clear(total_seeds, now).amount_of_reward == self.amount_of_reward,
            self.spec_move_to_clear(total_seeds, now).last_distribution.rps@
                >= self.last_distribution.rps@,
            self.spec_move_to_clear(total_seeds, now).status.rank() >= self.status.rank(),
    {
        self.lemma_distribute_keeps(total_seeds, now);
    }

    /// Asking twice gives one answer: the books that `try_distribute` returns
    /// are a function of the farm, the stake and the time, and the farm is
    /// not changed by the asking.
    pub proof fn lemma_try_distribute_repeats(
        &self,
        total_seeds: Balance,
        now: TimestampSec,
        first: Option<FarmRewardDistribution>,
        second: Option<FarmRewardDistribution>,
    )
        requires
            first == self.spec_try_distribute(total_seeds, now),
            second == self.spec_try_distribute(total_seeds, now),
        ensures
            first == second,
    {
    }

    /// Writing the same release down twice is writing it down once: at one
    /// time and over one stake, a second `distribute` changes nothing.
    pub proof fn lemma_distribute_idempotent(&self, total_seeds: Balance, now: TimestampSec)
        requires
            self.wf(),
        ensures
            self.spec_distribute(total_seeds, now).spec_distribute(total_seeds, now)
                == self.spec_distribute(total_seeds, now),
    {
        let f = self.spec_distribute(total_seeds, now);
        self.lemma_distribute_keeps(total_seeds, now);
        if self.spec_started(now) {
            self.lemma_release_bounds(total_seeds, now);
            if f.spec_started(now) {
                f.lemma_release_bounds(total_seeds, now);
                let d = f.last_distribution;
                let per = self.terms.reward_per_session as int;
                let und = self.last_distribution.undistributed as int;
                if self.spec_target_round(now) > self.last_distribution.rr
                    && self.spec_reward_wanted(now) > und {
                    assert(d.undistributed == 0);
                    assert(false);
                }
                assert(f.spec_target_round(now) <= d.rr);
                assert(f.spec_reward_released(now) == 0);
                assert(f.spec_rps_after(total_seeds, now) == d.rps@) by {
                    if total_seeds != 0 {
                        assert((0 * DENOM) / (total_seeds as int) == 0) by (nonlinear_arith)
                            requires
                                total_seeds > 0,
                        ;
                    }
                }
                lemma_from_nat_view(d.rps);
                assert(f.spec_try_distribute(total_seeds, now) == Some(d));
            }
        }
    }

    /// Writes down the release due at time `now` over a stake of
    /// `total_seeds`. With nothing staked, a release that moves the round on
    /// hands all unclaimed reward to the beneficiary. A farm with nothing
    /// left to release has ended.
    pub fn distribute(&mut self, total_seeds: &Balance, now: TimestampSec)
        requires
            old(self).wf(),
        ensures
            *final(self) == old(self).spec_distribute(*total_seeds, now),
            final(self).wf(),
            final(self).last_distribution.rps@ >= old(self).last_distribution.rps@,
            final(self).status.rank() >= old(self).status.rank(),
    {
        proof {
            self.lemma_distribute_keeps(*total_seeds, now);
            if self.spec_started(now) {
                self.lemma_release_bounds(*total_seeds, now);
                lemma_from_nat_view(self.last_distribution.rps);
                if self.spec_round_reached(now) == self.last_distribution.rr {
                    assert(self.spec_rps_after(*total_seeds, now) == self.last_distribution.rps@)
                        by {
                        if *total_seeds != 0 {
                            assert((0 * DENOM) / (*total_seeds as int) == 0) by (nonlinear_arith)
                                requires
                                    *total_seeds > 0,
                            ;
                        }
                    }
                }
            }
        }
        if let Some(dis) = self.try_distribute(total_seeds, now) {
            if self.last_distribution.rr != dis.rr {
                self.last_distribution = dis;
                if *total_seeds == 0 {
                    self.amount_of_claimed = self.amount_of_claimed
                        + self.last_distribution.unclaimed;
                    self.amount_of_beneficiary = self.amount_of_beneficiary
                        + self.last_distribution.unclaimed;
                    self.last_distribution.unclaimed = 0;
                }
            }
            if self.last_distribution.undistributed == 0 {
                self.status = FarmStatus::Ended;
            }
        }
    }

    /// What a farmer who last settled at `user_rps` and has `user_seeds`
    /// staked would be owed at time `now`. The farm is left as it is.
    pub fn view_farmer_unclaimed_reward(
        &self,
        user_rps: &RPS,
        user_seeds: &Balance,
        total_seeds: &Balance,
        now: TimestampSec,
    ) -> (r: Balance)
        requires
            self.wf(),
            *total_seeds != 0 && *user_seeds != 0 ==> user_rps@ <= self.spec_rps_seen(
                *total_seeds,
                now,
            ) && self.spec_view_unclaimed(*user_rps, *user_seeds, *total_seeds, now) <= u128::MAX,
        ensures
            r == self.spec_view_unclaimed(*user_rps, *user_seeds, *total_seeds, now),
    {
        if *total_seeds == 0 {
            return 0;
        }
        if *user_seeds == 0 {
            return 0;
        }
        let rps: U256 = match self.try_distribute(total_seeds, now) {
            Some(dis) => dis.rps,
            None => self.last_distribution.rps,
        };
        match unclaimed_for(user_rps, *user_seeds, &rps) {
            Some(amount) => amount,
            None => 0,
        }
    }

    /// Settles a farmer's claim at time `now`: writes the release down, pays
    /// what the farmer is owed out of the unclaimed reward, and returns the
    /// farm's reward per seed, for the farmer to keep, with the amount paid.
    pub fn claim_user_reward(
        &mut self,
        user_rps: &RPS,
        user_seeds: &Balance,
        total_seeds: &Balance,
        now: TimestampSec,
    ) -> (r: (RPS, Balance))
        requires
            old(self).wf(),
            old(self).spec_can_claim(*user_rps, *user_seeds, *total_seeds, now),
        ensures
            *final(self) == old(self).spec_claim(*user_rps, *user_seeds, *total_seeds, now),
            r.0 == final(self).last_distribution.rps,
            r.1 == spec_unclaimed_for(
                user_rps@,
                *user_seeds as nat,
                final(self).last_distribution.rps@,
            ),
            final(self).wf(),
            final(self).last_distribution.rps@ >= old(self).last_distribution.rps@,
            final(self).status.rank() >= old(self).status.rank(),
    {
        self.distribute(total_seeds, now);
        let claimed: u128 = match unclaimed_for(user_rps, *user_seeds, &self.last_distribution.rps) {
            Some(amount) => amount,
            None => 0,
        };
        proof {
            let rise = self.last_distribution.rps@ - user_rps@;
            let stake = *user_seeds as int;
            assert((stake * rise) / (DENOM as int) >= 0) by (nonlinear_arith)
                requires
                    stake >= 0,
                    rise >= 0,
            ;
        }
        if claimed > 0 {
            self.last_distribution.unclaimed = self.last_distribution.unclaimed - claimed;
            self.amount_of_claimed = self.amount_of_claimed + claimed;
        }
        (self.last_distribution.rps, claimed)
    }

    /// Clears the farm if it has ended by time `now`, and says whether it did.
    /// All reward still unclaimed goes to the beneficiary.
    pub fn move_to_clear(&mut self, total_seeds: &Balance, now: TimestampSec) -> (r: bool)
        requires
            old(self).wf(),
        ensures
            *final(self) == old(self).spec_move_to_clear(*total_seeds, now),
            r == (final(self).status is Cleared && !(old(self).status is Cleared)),
            r == old(self).spec_can_be_removed(*total_seeds, now),
            final(self).wf(),
            final(self).last_distribution.rps@ >= old(self).last_distribution.rps@,
            final(self).status.rank() >= old(self).status.rank(),
    {
        if let FarmStatus::Running = self.status {
            self.distribute(total_seeds, now);
        }
        if let FarmStatus::Ended = self.status {
            if self.last_distribution.unclaimed > 0 {
                self.amount_of_claimed = self.amount_of_claimed
                    + self.last_distribution.unclaimed;
                self.amount_of_beneficiary = self.amount_of_beneficiary
                    + self.last_distribution.unclaimed;
                self.last_distribution.unclaimed = 0;
            }
            self.status = FarmStatus::Cleared;
            true
        } else {
            false
        }
    }

    /// Whether the farm has nothing left to release at time `now`, so that it
    /// can be cleared.
    pub fn can_be_removed(&self, total_seeds: &Balance, now: TimestampSec) -> (r: bool)
        requires
            self.wf(),
        ensures
            r == self.spec_can_be_removed(*total_seeds, now),
    {
        match self.status {
            FarmStatus::Ended => true,
            FarmStatus::Running => {
                if let Some(dis) = self.try_distribute(total_seeds, now) {
                    dis.undistributed == 0
                } else {
                    false
                }
            },
            _ => false,
        }
    }

    /// Puts `amount` more reward into the farm at time `now`, and returns the
    /// undistributed reward it then holds; or takes nothing and returns
    /// nothing, where the farm accepts no reward.
    pub fn add_reward(&mut self, amount: &Balance, now: TimestampSec) -> (r: Option<Balance>)
        requires
            old(self).wf(),
        ensures
            r is Some <==> old(self).spec_accepts_reward(*amount, now),
            r is Some ==> *final(self) == old(self).spec_add_reward(*amount, now) && r->0
                == old(self).last_distribution.undistributed + *amount,
            r is None ==> *final(self) == *old(self),
            final(self).wf(),
            final(self).last_distribution.rps@ >= old(self).last_distribution.rps@,
            final(self).status.rank() >= old(self).status.rank(),
    {
        match self.status {
            FarmStatus::Created => {
                self.status = FarmStatus::Running;
                if self.terms.start_at == 0 {
                    self.terms.start_at = now;
                }
                self.amount_of_reward = self.amount_of_reward + *amount;
                self.last_distribution.undistributed = self.last_distribution.undistributed
                    + *amount;
                Some(self.last_distribution.undistributed)
            },
            FarmStatus::Running => {
                if let Some(dis) = self.try_distribute(&DENOM, now) {
                    if dis.undistributed == 0 {
                        return None;
                    }
                }
                if *amount > u128::MAX - self.amount_of_reward {
                    return None;
                }
                self.amount_of_reward = self.amount_of_reward + *amount;
                self.last_distribution.undistributed = self.last_distribution.undistributed
                    + *amount;
                Some(self.last_distribution.undistributed)
            },
            _ => None,
        }
    }

    /// The seed that the farm pays the stakers of.
    pub fn get_seed_id(&self) -> (r: SeedId)
        ensures
            r == self.terms.seed_id,
    {
        self.terms.seed_id.clone()
    }

    /// The token that the farm pays in.
    pub fn get_reward_token(&self) -> (r: AccountId)
        ensures
            r == self.terms.reward_token,
    {
        self.terms.reward_token.clone()
    }

    /// The farm's name.
    pub fn get_farm_id(&self) -> (r: FarmId)
        ensures
            r == self.farm_id,
    {
        self.farm_id.clone()
    }
}

} // verus!
