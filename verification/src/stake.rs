//! Staking and taking back stake.
//!
//! A change of stake settles first: the farmer claims from every farm of the
//! seed at the stake held so far, and only then does the stake change. So
//! every unit of stake earns for the time it was held, and for no other.

use vstd::prelude::*;
use crate::books::{
    farmer_at, farmer_index, has_farmer, inv, inv_records, lemma_farmer_replaced,
    spec_farmer_restaked, spec_seeds_restaked,
};
use crate::contract::Contract;
use crate::errors::FarmingError;
use crate::farm::Farm;
use crate::farm_seed::{FarmSeed, FarmSeedView, SeedType};
use crate::farmer::{Farmer, FarmerView};
use crate::internals::{settle_seed, spec_settle_all, spec_settled, spec_work};
use crate::model::{ContractView, covered, lemma_stake_bound, owed};
use crate::rewards::{Withdrawal, lemma_payout_frame, payout, spec_payout, spec_withdrawals};
use crate::str_map::{StrMap, StrSet};
use crate::types::{AccountId, Balance, SeedId, TimestampSec};

verus! {

/// The farmer with the stake of `seed_id` set to `stake`; a stake of
/// nothing is no entry.
pub open spec fn spec_with_stake(
    farmer: FarmerView,
    seed_id: Seq<char>,
    stake: Balance,
) -> FarmerView {
    FarmerView {
        farmer_id: farmer.farmer_id,
        nft_seeds: farmer.nft_seeds,
        amount: farmer.amount,
        rewards: farmer.rewards,
        seeds: if stake > 0 {
            farmer.seeds.insert(seed_id, stake)
        } else {
            farmer.seeds.remove(seed_id)
        },
        user_rps: farmer.user_rps,
    }
}

/// The farmer with nothing noted of the farms `farm_ids`.
pub open spec fn spec_forgetting(farmer: FarmerView, farm_ids: Seq<Seq<char>>) -> FarmerView {
    FarmerView {
        farmer_id: farmer.farmer_id,
        nft_seeds: farmer.nft_seeds,
        amount: farmer.amount,
        rewards: farmer.rewards,
        seeds: farmer.seeds,
        user_rps: farmer.user_rps.remove_keys(farm_ids.to_set()),
    }
}

/// The seed with another total.
pub open spec fn spec_with_amount(seed: FarmSeedView, amount: Balance) -> FarmSeedView {
    FarmSeedView {
        seed_id: seed.seed_id,
        seed_type: seed.seed_type,
        farms: seed.farms,
        next_index: seed.next_index,
        amount,
        min_deposit: seed.min_deposit,
    }
}

/// The books `c` with the farmer at position `fi` and the seed `seed_id`
/// replaced.
pub open spec fn spec_staged(
    c: ContractView,
    fi: int,
    farmer: FarmerView,
    seed_id: Seq<char>,
    seed: FarmSeedView,
) -> ContractView {
    ContractView {
        seeds: c.seeds.insert(seed_id, seed),
        farmers: c.farmers.update(fi, farmer),
        farms: c.farms,
        outdated_farms: c.outdated_farms,
        nft_balance_seeds: c.nft_balance_seeds,
        owner_id: c.owner_id,
    }
}

/// The books after the farmer `sender_id` staked `amount` more of the seed
/// `seed_id` at time `now`, with what is paid out to the farmer; or why the
/// stake is refused.
///
/// First the farmer settles with every farm of the seed, at the stake held
/// so far. Then the stake and the seed's total grow by `amount`. Last, the
/// farmer's balances of the reward tokens of the seed's farms are paid out.
pub open spec fn spec_seed_deposit(
    c: ContractView,
    seed_id: Seq<char>,
    sender_id: Seq<char>,
    amount: Balance,
    now: TimestampSec,
) -> Result<(ContractView, Seq<(Seq<char>, Balance)>), FarmingError> {
    spec_seed_staking(c, seed_id, sender_id, amount, now, true)
}

/// The books after the farmer `sender_id` staked `amount` more of the seed
/// `seed_id` at time `now`, as `spec_seed_deposit` says; with `pay` unset,
/// nothing is paid out.
pub open spec fn spec_seed_staking(
    c: ContractView,
    seed_id: Seq<char>,
    sender_id: Seq<char>,
    amount: Balance,
    now: TimestampSec,
    pay: bool,
) -> Result<(ContractView, Seq<(Seq<char>, Balance)>), FarmingError> {
    if !has_farmer(c, sender_id) {
        Err(FarmingError::AccountNotRegistered)
    } else if !c.seeds.contains_key(seed_id) {
        Err(FarmingError::SeedNotExist)
    } else {
        let fi = farmer_index(c, sender_id);
        let seed = c.seeds[seed_id];
        match spec_settle_all(c, fi, seed.farms, seed.amount, now) {
            None => Err(FarmingError::Overflow),
            Some(d) => if seed.amount + amount > u128::MAX {
                Err(FarmingError::Overflow)
            } else {
                let farmer = d.farmers[fi];
                let staked = if amount > 0 {
                    spec_with_stake(farmer, seed_id, (farmer.spec_stake(seed_id) + amount) as u128)
                } else {
                    farmer
                };
                let paid = if pay {
                    spec_payout(d.farms, staked, seed.farms)
                } else {
                    (staked, Seq::empty())
                };
                Ok(
                    (
                        spec_staged(
                            d,
                            fi,
                            paid.0,
                            seed_id,
                            spec_with_amount(seed, (seed.amount + amount) as u128),
                        ),
                        paid.1,
                    ),
                )
            },
        }
    }
}

/// The books after the farmer `sender_id` took back `amount` of the stake of
/// the seed `seed_id` at time `now`, with what is paid out to the farmer; or
/// why the stake is not given back.
///
/// First the farmer settles with every farm of the seed, at the stake held
/// so far. Then the stake and the seed's total fall by `amount`; a farmer
/// left without stake forgets what was noted of the seed's farms. Last, the
/// farmer's balances of the reward tokens of the seed's farms are paid out.
pub open spec fn spec_seed_withdraw(
    c: ContractView,
    seed_id: Seq<char>,
    sender_id: Seq<char>,
    amount: Balance,
    now: TimestampSec,
) -> Result<(ContractView, Seq<(Seq<char>, Balance)>), FarmingError> {
    if !has_farmer(c, sender_id) {
        Err(FarmingError::AccountNotRegistered)
    } else if !c.seeds.contains_key(seed_id) {
        Err(FarmingError::SeedNotExist)
    } else {
        let fi = farmer_index(c, sender_id);
        let seed = c.seeds[seed_id];
        match spec_settle_all(c, fi, seed.farms, seed.amount, now) {
            None => Err(FarmingError::Overflow),
            Some(d) => {
                let farmer = d.farmers[fi];
                if !farmer.seeds.contains_key(seed_id) {
                    Err(FarmingError::SeedNotExist)
                } else if farmer.seeds[seed_id] < amount {
                    Err(FarmingError::NotEnoughSeed)
                } else {
                    let remain = (farmer.seeds[seed_id] - amount) as u128;
                    let lower = spec_with_stake(farmer, seed_id, remain);
                    let left = if remain == 0 {
                        spec_forgetting(lower, seed.farms)
                    } else {
                        lower
                    };
                    let paid = spec_payout(d.farms, left, seed.farms);
                    Ok(
                        (
                            spec_staged(
                                d,
                                fi,
                                paid.0,
                                seed_id,
                                spec_with_amount(seed, (seed.amount - amount) as u128),
                            ),
                            paid.1,
                        ),
                    )
                }
            },
        }
    }
}

/// The books after a deposit of `amount` of the seed `seed_id` by the farmer
/// `sender_id` at time `now`, with what is paid out; or why the deposit is
/// refused.
///
/// The seed must be a fungible token and take deposits of this size. The
/// stake is then made as `spec_seed_deposit` says, and after it the farmer's
/// deposit for storage must still pay for the record.
pub open spec fn spec_deposit_seed(
    c: ContractView,
    sender_id: Seq<char>,
    seed_id: Seq<char>,
    amount: Balance,
    now: TimestampSec,
) -> Result<(ContractView, Seq<(Seq<char>, Balance)>), FarmingError> {
    if !has_farmer(c, sender_id) {
        Err(FarmingError::AccountNotRegistered)
    } else if !c.seeds.contains_key(seed_id) {
        Err(FarmingError::SeedNotExist)
    } else if c.seeds[seed_id].seed_type != SeedType::FT {
        Err(FarmingError::InvalidSeedType)
    } else if amount < c.seeds[seed_id].min_deposit {
        Err(FarmingError::BelowMinSeedDeposit)
    } else {
        match spec_seed_deposit(c, seed_id, sender_id, amount, now) {
            Err(e) => Err(e),
            Ok((d, paid)) => if d.farmers[farmer_index(c, sender_id)].spec_storage_covered() {
                Ok((d, paid))
            } else {
                Err(FarmingError::InsufficientStorage)
            },
        }
    }
}

/// The books after the farmer `sender_id` withdrew `amount` of the seed
/// `seed_id` at time `now`, with what is paid out; or why the withdrawal is
/// refused. The stake is given back as `spec_seed_withdraw` says, and the
/// seed must be a fungible token.
pub open spec fn spec_withdraw_seed(
    c: ContractView,
    sender_id: Seq<char>,
    seed_id: Seq<char>,
    amount: Balance,
    now: TimestampSec,
) -> Result<(ContractView, Seq<(Seq<char>, Balance)>), FarmingError> {
    match spec_seed_withdraw(c, seed_id, sender_id, amount, now) {
        Err(e) => Err(e),
        Ok((d, paid)) => if c.seeds[seed_id].seed_type != SeedType::FT {
            Err(FarmingError::InvalidSeedType)
        } else {
            Ok((d, paid))
        },
    }
}

/// A change of the stake of one seed keeps all that holds of the books,
/// where the farmer has settled with every farm of the seed: these farms owe
/// the farmer nothing before and nothing after, whatever the stake.
pub proof fn lemma_restaked(
    c: ContractView,
    fi: int,
    seed_id: Seq<char>,
    stake: Balance,
    after: FarmerView,
)
    requires
        inv(c),
        0 <= fi < c.farmers.len(),
        c.seeds.contains_key(seed_id),
        forall|j: int|
            0 <= j < c.seeds[seed_id].farms.len() ==> spec_settled(
                c.farms[#[trigger] c.seeds[seed_id].farms[j]],
                c.farmers[fi],
            ),
        c.seeds[seed_id].amount - c.farmers[fi].spec_stake(seed_id) + stake <= u128::MAX,
        after.farmer_id == c.farmers[fi].farmer_id,
        after.seeds == spec_with_stake(c.farmers[fi], seed_id, stake).seeds || (stake
            == c.farmers[fi].spec_stake(seed_id) && after.seeds == c.farmers[fi].seeds),
        after.user_rps == c.farmers[fi].user_rps || (stake == 0 && after.user_rps
            == c.farmers[fi].user_rps.remove_keys(c.seeds[seed_id].farms.to_set())),
    ensures
        inv(
            spec_staged(
                c,
                fi,
                after,
                seed_id,
                spec_with_amount(
                    c.seeds[seed_id],
                    (c.seeds[seed_id].amount - c.farmers[fi].spec_stake(seed_id) + stake) as u128,
                ),
            ),
        ),
{
    let before = c.farmers[fi];
    let seed = c.seeds[seed_id];
    lemma_stake_bound(c.farmers, fi, seed_id);
    let d = spec_staged(
        c,
        fi,
        after,
        seed_id,
        spec_with_amount(seed, (seed.amount - before.spec_stake(seed_id) + stake) as u128),
    );
    assert(after.spec_stake(seed_id) == stake);
    assert forall|s: Seq<char>| s != seed_id implies after.spec_stake(s) == before.spec_stake(
        s,
    ) by {}
    assert(spec_farmer_restaked(c, before, after)) by {
        assert forall|k: Seq<char>| #[trigger] c.farms.contains_key(k) implies owed(
            c.farms[k],
            after,
        ) == owed(c.farms[k], before) && after.spec_rps(k)@
            <= c.farms[k].last_distribution.rps@ by {
            let farm = c.farms[k];
            assert(farm.farm_id@ == k);
            assert(covered(c.farmers, farm));
            assert(before.spec_rps(k)@ <= farm.last_distribution.rps@);
            if farm.terms.seed_id@ == seed_id {
                assert(seed.farms.contains(k));
                let j = choose|j: int| 0 <= j < seed.farms.len() && seed.farms[j] == k;
                assert(spec_settled(c.farms[seed.farms[j]], before));
                let old_stake = before.spec_stake(seed_id) as int;
                assert(old_stake * 0 == 0);
                if after.user_rps == before.user_rps {
                    assert((stake as int) * 0 == 0);
                } else {
                    let rise = farm.last_distribution.rps@ - after.spec_rps(k)@;
                    assert(0 * rise == 0);
                    assert(seed.farms.to_set().contains(k));
                }
            } else {
                if after.user_rps != before.user_rps {
                    if seed.farms.to_set().contains(k) {
                        assert(seed.farms.contains(k));
                    }
                }
            }
        }
    }
    assert(spec_seeds_restaked(c.seeds, d.seeds, before, after)) by {
        assert forall|s: Seq<char>| #[trigger] after.seeds.contains_key(s) implies d.seeds.contains_key(
        s) by {
            if s != seed_id {
                assert(before.seeds.contains_key(s));
            }
        }
    }
    assert(d.farmers[fi] == after);
    lemma_farmer_replaced(c, d, fi);
}

/// Makes the farmer forget what was noted of the given farms.
pub fn forget_farms(farmer: &mut Farmer, farm_ids: &StrSet)
    requires
        old(farmer).wf(),
    ensures
        final(farmer).wf(),
        final(farmer)@ == spec_forgetting(old(farmer)@, farm_ids.keys()),
{
    let n: usize = farm_ids.len();
    let ghost keys = farm_ids.keys();
    let mut k: usize = 0;
    proof {
        assert(keys.take(0).to_set() =~= Set::<Seq<char>>::empty());
        assert(farmer@ =~= spec_forgetting(old(farmer)@, keys.take(0)));
    }
    while k < n
        invariant
            n == keys.len(),
            k <= n,
            keys == farm_ids.keys(),
            farmer.wf(),
            farmer@ == spec_forgetting(old(farmer)@, keys.take(k as int)),
        decreases n - k,
    {
        let key = farm_ids.key_at(k);
        farmer.remove_rps(key);
        proof {
            let shorter = keys.take(k as int);
            let longer = keys.take(k + 1);
            assert(longer =~= shorter.push(keys[k as int]));
            assert(longer.to_set() =~= shorter.to_set().insert(keys[k as int])) by {
                assert forall|x: Seq<char>| longer.to_set().contains(x) <==> shorter.to_set().insert(
                    keys[k as int],
                ).contains(x) by {
                    if longer.contains(x) {
                        let i = choose|i: int| 0 <= i < longer.len() && longer[i] == x;
                        if i < k {
                            assert(shorter[i] == x);
                        }
                    }
                    if shorter.contains(x) {
                        let i = choose|i: int| 0 <= i < shorter.len() && shorter[i] == x;
                        assert(longer[i] == x);
                    }
                    if x == keys[k as int] {
                        assert(longer[k as int] == x);
                    }
                }
            }
            assert(farmer@.user_rps =~= old(farmer)@.user_rps.remove_keys(longer.to_set()));
            assert(farmer@ =~= spec_forgetting(old(farmer)@, longer));
        }
        k = k + 1;
    }
    proof {
        assert(keys.take(n as int) =~= keys);
    }
}

/// What an action worked out on copies, before any of it is stored: the
/// farms, the farmer's record, the seed's record, and what is paid out.
pub(crate) struct Staged {
    pub(crate) farms: StrMap<Farm>,
    pub(crate) farmer: Farmer,
    pub(crate) seed: FarmSeed,
    pub(crate) list: Vec<Withdrawal>,
}

impl Staged {
    /// Whether the copies, stored in the books `c` for the farmer
    /// `sender_id` and the seed `seed_id`, make the books `d`, with `paid`
    /// paid out.
    pub(crate) open spec fn spec_stages(
        self,
        c: ContractView,
        sender_id: Seq<char>,
        seed_id: Seq<char>,
        d: ContractView,
        paid: Seq<(Seq<char>, Balance)>,
    ) -> bool {
        let fi = farmer_index(c, sender_id);
        &&& has_farmer(c, sender_id)
        &&& c.seeds.contains_key(seed_id)
        &&& self.farms.wf()
        &&& self.farmer.wf()
        &&& self.seed.wf()
        &&& self.farmer@.farmer_id == sender_id
        &&& self.seed@.seed_id == seed_id
        &&& self.seed@.seed_type == c.seeds[seed_id].seed_type
        &&& d == spec_staged(
            spec_work(c, self.farms@, fi, self.farmer@),
            fi,
            self.farmer@,
            seed_id,
            self.seed@,
        )
        &&& spec_withdrawals(self.list@) == paid
        &&& inv(d)
    }
}

impl Contract {
    /// Stores what an action worked out, and hands on what is paid out.
    pub(crate) fn commit(
        &mut self,
        staged: Staged,
        Ghost(sender_id): Ghost<Seq<char>>,
        Ghost(seed_id): Ghost<Seq<char>>,
    ) -> (list: Vec<Withdrawal>)
        requires
            old(self).wf(),
            exists|d: ContractView, paid: Seq<(Seq<char>, Balance)>|
                staged.spec_stages(old(self)@, sender_id, seed_id, d, paid),
        ensures
            final(self).wf(),
            list == staged.list,
            staged.spec_stages(old(self)@, sender_id, seed_id, final(self)@, spec_withdrawals(list@)),
    {
        let Staged { farms, farmer, seed, list } = staged;
        self.store_staged(farms, farmer, seed);
        list
    }

    /// Puts changed copies of the farms, of a farmer's record and of a
    /// seed's record in the place of the records.
    pub(crate) fn store_staged(&mut self, farms: StrMap<Farm>, farmer: Farmer, seed: FarmSeed)
        requires
            old(self).stores_wf(),
            inv_records(old(self)@),
            has_farmer(old(self)@, farmer@.farmer_id),
            old(self)@.seeds.contains_key(seed@.seed_id),
            farmer.wf(),
            farms.wf(),
            seed.wf(),
        ensures
            final(self).stores_wf(),
            final(self)@ == spec_staged(
                spec_work(
                    old(self)@,
                    farms@,
                    farmer_index(old(self)@, farmer@.farmer_id),
                    farmer@,
                ),
                farmer_index(old(self)@, farmer@.farmer_id),
                farmer@,
                seed@.seed_id,
                seed@,
            ),
    {
        let key = seed.seed_id.clone();
        self.store_work(farms, farmer);
        let ghost mid = self@;
        self.data.seeds.insert(key, seed);
        proof {
            let fi = farmer_index(old(self)@, farmer@.farmer_id);
            assert(self@.seeds =~= mid.seeds.insert(seed@.seed_id, seed@));
            assert(self@ =~= spec_staged(
                spec_work(old(self)@, farms@, fi, farmer@),
                fi,
                farmer@,
                seed@.seed_id,
                seed@,
            ));
        }
    }

    /// Works out, on copies, what a stake of `amount` more would store;
    /// with `pay` unset, nothing is paid out.
    pub(crate) fn stage_seed_deposit(
        &self,
        seed_id: &SeedId,
        sender_id: &AccountId,
        amount: Balance,
        now: TimestampSec,
        pay: bool,
    ) -> (r: Result<Staged, FarmingError>)
        requires
            self.wf(),
        ensures
            match spec_seed_staking(self@, seed_id@, sender_id@, amount, now, pay) {
                Ok((c, paid)) => r is Ok && r->Ok_0.spec_stages(self@, sender_id@, seed_id@, c, paid),
                Err(e) => r is Err && r->Err_0 == e,
            },
    {
        let mut farmer = match self.get_farmer(sender_id) {
            Err(e) => {
                return Err(e);
            },
            Ok(f) => f,
        };
        let ghost c = self@;
        let ghost fi = farmer_index(c, sender_id@);
        assert(farmer_at(c, sender_id@, fi));
        let mut seed = match self.data.seeds.get_ref(seed_id) {
            Some(found) => found.clone(),
            None => {
                return Err(FarmingError::SeedNotExist);
            },
        };
        let mut farms = self.load_farms();
        match settle_seed(
            &mut farms,
            &mut farmer,
            &seed.farms,
            seed.amount,
            now,
            Ghost(c),
            Ghost(fi),
            Ghost(seed_id@),
        ) {
            Err(e) => {
                return Err(e);
            },
            Ok(_) => {},
        }
        if amount > u128::MAX - seed.amount {
            return Err(FarmingError::Overflow);
        }
        let ghost d = spec_settle_all(c, fi, c.seeds[seed_id@].farms, seed.amount, now)->0;
        let ghost settled = farmer@;
        let ghost stake = settled.spec_stake(seed_id@);
        proof {
            lemma_stake_bound(d.farmers, fi, seed_id@);
        }
        seed.add_amount(amount);
        match farmer.add_seed(seed_id, amount) {
            Ok(_) => {},
            Err(_) => vstd::pervasive::unreached(),
        }
        let ghost staked = farmer@;
        proof {
            if amount > 0 {
                assert(staked =~= spec_with_stake(settled, seed_id@, (stake + amount) as u128));
            }
            assert forall|j: int| 0 <= j < seed.farms.keys().len() implies farms@.contains_key(
                #[trigger] seed.farms.keys()[j],
            ) by {
                assert(d.seeds[seed_id@].farms.contains(seed.farms.keys()[j]));
            }
        }
        let list = if pay {
            payout(&farms, &mut farmer, &seed.farms)
        } else {
            Vec::new()
        };
        proof {
            if !pay {
                assert(spec_withdrawals(list@) =~= Seq::empty());
            }
            lemma_payout_frame(d.farms, staked, c.seeds[seed_id@].farms);
            lemma_restaked(d, fi, seed_id@, (stake + amount) as u128, farmer@);
            assert(seed@ == spec_with_amount(
                c.seeds[seed_id@],
                (c.seeds[seed_id@].amount + amount) as u128,
            ));
        }
        proof {
            assert(spec_staged(spec_work(c, farms@, fi, farmer@), fi, farmer@, seed_id@, seed@)
                =~= spec_seed_staking(c, seed_id@, sender_id@, amount, now, pay)->Ok_0.0);
        }
        Ok(Staged { farms, farmer, seed, list })
    }

    /// The farmer `sender_id` stakes `amount` more of the seed `seed_id` at
    /// time `now`. Returns what is paid out to the farmer: the balances of
    /// the reward tokens of the seed's farms.
    ///
    /// Refused where the account has no record, the seed is not on record,
    /// or a balance or the seed's total would pass the greatest balance.
    pub fn internal_seed_deposit(
        &mut self,
        seed_id: &SeedId,
        sender_id: &AccountId,
        amount: Balance,
        now: TimestampSec,
    ) -> (r: Result<Vec<Withdrawal>, FarmingError>)
        requires
            old(self).wf(),
        ensures
            final(self).wf(),
            match spec_seed_deposit(old(self)@, seed_id@, sender_id@, amount, now) {
                Ok((c, paid)) => r is Ok && final(self)@ == c && spec_withdrawals(r->Ok_0@)
                    == paid,
                Err(e) => r is Err && r->Err_0 == e && final(self)@ == old(self)@,
            },
    {
        match self.stage_seed_deposit(seed_id, sender_id, amount, now, true) {
            Err(e) => Err(e),
            Ok(staged) => Ok(self.commit(staged, Ghost(sender_id@), Ghost(seed_id@))),
        }
    }

    /// The farmer `sender_id` deposits `amount` of the seed `seed_id` at time
    /// `now`, as `internal_seed_deposit` does. The seed must be a fungible
    /// token and `amount` no less than the seed takes; after the deposit the
    /// farmer's deposit for storage must still pay for the record.
    pub fn deposit_seed(
        &mut self,
        sender_id: &AccountId,
        seed_id: &SeedId,
        amount: Balance,
        now: TimestampSec,
    ) -> (r: Result<Vec<Withdrawal>, FarmingError>)
        requires
            old(self).wf(),
        ensures
            final(self).wf(),
            match spec_deposit_seed(old(self)@, sender_id@, seed_id@, amount, now) {
                Ok((c, paid)) => r is Ok && final(self)@ == c && spec_withdrawals(r->Ok_0@)
                    == paid,
                Err(e) => r is Err && r->Err_0 == e && final(self)@ == old(self)@,
            },
    {
        proof {
            self.lemma_farmer_lookup(sender_id@);
        }
        if !self.data.farmers.contains_key(sender_id) {
            return Err(FarmingError::AccountNotRegistered);
        }
        match self.data.seeds.get_ref(seed_id) {
            None => {
                return Err(FarmingError::SeedNotExist);
            },
            Some(seed) => {
                match seed.seed_type {
                    SeedType::FT => {},
                    SeedType::NFT => {
                        return Err(FarmingError::InvalidSeedType);
                    },
                }
                if amount < seed.min_deposit {
                    return Err(FarmingError::BelowMinSeedDeposit);
                }
            },
        }
        match self.stage_seed_deposit(seed_id, sender_id, amount, now, true) {
            Err(e) => Err(e),
            Ok(staged) => {
                if !staged.farmer.storage_covered() {
                    return Err(FarmingError::InsufficientStorage);
                }
                Ok(self.commit(staged, Ghost(sender_id@), Ghost(seed_id@)))
            },
        }
    }

    /// Works out, on copies, what `internal_seed_withdraw` would store.
    pub(crate) fn stage_seed_withdraw(
        &self,
        seed_id: &SeedId,
        sender_id: &AccountId,
        amount: Balance,
        now: TimestampSec,
    ) -> (r: Result<Staged, FarmingError>)
        requires
            self.wf(),
        ensures
            match spec_seed_withdraw(self@, seed_id@, sender_id@, amount, now) {
                Ok((c, paid)) => r is Ok && r->Ok_0.spec_stages(self@, sender_id@, seed_id@, c, paid),
                Err(e) => r is Err && r->Err_0 == e,
            },
    {
        let mut farmer = match self.get_farmer(sender_id) {
            Err(e) => {
                return Err(e);
            },
            Ok(f) => f,
        };
        let ghost c = self@;
        let ghost fi = farmer_index(c, sender_id@);
        assert(farmer_at(c, sender_id@, fi));
        let mut seed = match self.data.seeds.get_ref(seed_id) {
            Some(found) => found.clone(),
            None => {
                return Err(FarmingError::SeedNotExist);
            },
        };
        let mut farms = self.load_farms();
        match settle_seed(
            &mut farms,
            &mut farmer,
            &seed.farms,
            seed.amount,
            now,
            Ghost(c),
            Ghost(fi),
            Ghost(seed_id@),
        ) {
            Err(e) => {
                return Err(e);
            },
            Ok(_) => {},
        }
        let ghost d = spec_settle_all(c, fi, c.seeds[seed_id@].farms, seed.amount, now)->0;
        let ghost settled = farmer@;
        let farmer_seed_remain: u128 = match farmer.sub_seed(seed_id, amount) {
            Err(e) => {
                return Err(e);
            },
            Ok(remain) => remain,
        };
        proof {
            lemma_stake_bound(d.farmers, fi, seed_id@);
            assert(farmer@ =~= spec_with_stake(settled, seed_id@, farmer_seed_remain));
        }
        seed.sub_amount(amount);
        if farmer_seed_remain == 0 {
            forget_farms(&mut farmer, &seed.farms);
        }
        let ghost left = farmer@;
        proof {
            assert forall|j: int| 0 <= j < seed.farms.keys().len() implies farms@.contains_key(
                #[trigger] seed.farms.keys()[j],
            ) by {
                assert(d.seeds[seed_id@].farms.contains(seed.farms.keys()[j]));
            }
        }
        let list = payout(&farms, &mut farmer, &seed.farms);
        proof {
            lemma_payout_frame(d.farms, left, c.seeds[seed_id@].farms);
            lemma_restaked(d, fi, seed_id@, farmer_seed_remain, farmer@);
            assert(seed@ == spec_with_amount(
                c.seeds[seed_id@],
                (c.seeds[seed_id@].amount - amount) as u128,
            ));
        }
        proof {
            assert(spec_staged(spec_work(c, farms@, fi, farmer@), fi, farmer@, seed_id@, seed@)
                =~= spec_seed_withdraw(c, seed_id@, sender_id@, amount, now)->Ok_0.0);
        }
        Ok(Staged { farms, farmer, seed, list })
    }

    /// The farmer `sender_id` takes back `amount` of the stake of the seed
    /// `seed_id` at time `now`. Returns what is paid out to the farmer: the
    /// balances of the reward tokens of the seed's farms.
    ///
    /// Refused where the account has no record, the seed is not on record,
    /// the farmer has no stake of the seed or less than `amount`, or a
    /// balance would pass the greatest balance.
    pub fn internal_seed_withdraw(
        &mut self,
        seed_id: &SeedId,
        sender_id: &AccountId,
        amount: Balance,
        now: TimestampSec,
    ) -> (r: Result<Vec<Withdrawal>, FarmingError>)
        requires
            old(self).wf(),
        ensures
            final(self).wf(),
            match spec_seed_withdraw(old(self)@, seed_id@, sender_id@, amount, now) {
                Ok((c, paid)) => r is Ok && final(self)@ == c && spec_withdrawals(r->Ok_0@)
                    == paid,
                Err(e) => r is Err && r->Err_0 == e && final(self)@ == old(self)@,
            },
    {
        match self.stage_seed_withdraw(seed_id, sender_id, amount, now) {
            Err(e) => Err(e),
            Ok(staged) => Ok(self.commit(staged, Ghost(sender_id@), Ghost(seed_id@))),
        }
    }

    /// The farmer `sender_id` withdraws `amount` of the seed `seed_id` at
    /// time `now`, as `internal_seed_withdraw` does; the amount is then due
    /// to the farmer in the seed's token. The seed must be a fungible token.
    pub fn withdraw_seed(
        &mut self,
        sender_id: &AccountId,
        seed_id: &SeedId,
        amount: Balance,
        now: TimestampSec,
    ) -> (r: Result<Vec<Withdrawal>, FarmingError>)
        requires
            old(self).wf(),
        ensures
            final(self).wf(),
            match spec_withdraw_seed(old(self)@, sender_id@, seed_id@, amount, now) {
                Ok((c, paid)) => r is Ok && final(self)@ == c && spec_withdrawals(r->Ok_0@)
                    == paid,
                Err(e) => r is Err && r->Err_0 == e && final(self)@ == old(self)@,
            },
    {
        match self.stage_seed_withdraw(seed_id, sender_id, amount, now) {
            Err(e) => Err(e),
            Ok(staged) => {
                match staged.seed.seed_type {
                    SeedType::FT => {},
                    SeedType::NFT => {
                        return Err(FarmingError::InvalidSeedType);
                    },
                }
                Ok(self.commit(staged, Ghost(sender_id@), Ghost(seed_id@)))
            },
        }
    }

    /// What follows the report on the payment of `amount` of the seed
    /// `seed_id` back to the farmer `sender_id`, after a withdrawal. A
    /// payment that was made changes nothing. One that failed is staked
    /// again at time `now`, as a deposit is, but nothing is paid out; that is
    /// refused as a deposit is.
    pub fn callback_post_withdraw_ft_seed(
        &mut self,
        seed_id: &SeedId,
        sender_id: &AccountId,
        amount: Balance,
        succeeded: bool,
        now: TimestampSec,
    ) -> (r: Result<(), FarmingError>)
        requires
            old(self).wf(),
        ensures
            final(self).wf(),
            succeeded ==> r is Ok && final(self)@ == old(self)@,
            !succeeded ==> match spec_seed_staking(
                old(self)@,
                seed_id@,
                sender_id@,
                amount,
                now,
                false,
            ) {
                Ok((c, _)) => r is Ok && final(self)@ == c,
                Err(e) => r == Err::<(), FarmingError>(e) && final(self)@ == old(self)@,
            },
    {
        if succeeded {
            return Ok(());
        }
        match self.stage_seed_deposit(seed_id, sender_id, amount, now, false) {
            Err(e) => Err(e),
            Ok(staged) => {
                self.commit(staged, Ghost(sender_id@), Ghost(seed_id@));
                Ok(())
            },
        }
    }
}

} // verus!
