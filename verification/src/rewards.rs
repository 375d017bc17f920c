//! Withdrawing claimed reward.
//!
//! A withdrawal takes the amount from the farmer's balance at once and hands
//! it on to be paid. Whoever pays reports back; a payment that failed is
//! given back to the balance. A change of stake pays out, in the same way,
//! the balances of the reward tokens of the seed's farms. The farmer's
//! deposit for storage is kept here too.

use vstd::prelude::*;
use crate::books::{
    farmer_at, farmer_index, has_farmer, lemma_farmer_index, lemma_rewards_changed,
    spec_with_farmer, spec_with_rewards,
};
use crate::claims::{spec_claim_reward_by_farm, spec_claim_reward_by_seed};
use crate::contract::Contract;
use crate::errors::FarmingError;
use crate::farm::Farm;
use crate::farmer::{Farmer, FarmerView};
use crate::internals::lemma_settle_all;
use crate::model::ContractView;
use crate::str_map::{StrMap, StrSet};
use crate::types::{AccountId, Balance, FarmId, SeedId, TimestampSec};

verus! {

/// The farmer with the balance of `token` taken out.
pub open spec fn spec_without_reward(farmer: FarmerView, token: Seq<char>) -> FarmerView {
    FarmerView {
        farmer_id: farmer.farmer_id,
        nft_seeds: farmer.nft_seeds,
        amount: farmer.amount,
        rewards: farmer.rewards.remove(token),
        seeds: farmer.seeds,
        user_rps: farmer.user_rps,
    }
}

/// What a change of stake pays out: for each of the farms `farm_ids` in
/// turn, the farmer's whole balance of the farm's reward token, where the
/// farmer has one. Returns the farmer without these balances, and the
/// payments in their order, each a token with an amount.
pub open spec fn spec_payout(
    farms: Map<Seq<char>, Farm>,
    farmer: FarmerView,
    farm_ids: Seq<Seq<char>>,
) -> (FarmerView, Seq<(Seq<char>, Balance)>)
    decreases farm_ids.len(),
{
    if farm_ids.len() == 0 {
        (farmer, Seq::empty())
    } else {
        let token = farms[farm_ids[0]].terms.reward_token@;
        if farmer.rewards.contains_key(token) {
            let rest = spec_payout(
                farms,
                spec_without_reward(farmer, token),
                farm_ids.drop_first(),
            );
            (rest.0, seq![(token, farmer.rewards[token])] + rest.1)
        } else {
            spec_payout(farms, farmer, farm_ids.drop_first())
        }
    }
}

/// A payout leaves the farmer's name, deposit, stakes and notes alone.
pub proof fn lemma_payout_frame(
    farms: Map<Seq<char>, Farm>,
    farmer: FarmerView,
    farm_ids: Seq<Seq<char>>,
)
    ensures
        spec_payout(farms, farmer, farm_ids).0.farmer_id == farmer.farmer_id,
        spec_payout(farms, farmer, farm_ids).0.amount == farmer.amount,
        spec_payout(farms, farmer, farm_ids).0.seeds == farmer.seeds,
        spec_payout(farms, farmer, farm_ids).0.user_rps == farmer.user_rps,
    decreases farm_ids.len(),
{
    if farm_ids.len() > 0 {
        let token = farms[farm_ids[0]].terms.reward_token@;
        if farmer.rewards.contains_key(token) {
            lemma_payout_frame(farms, spec_without_reward(farmer, token), farm_ids.drop_first());
        } else {
            lemma_payout_frame(farms, farmer, farm_ids.drop_first());
        }
    }
}

/// The books after the farmer `sender_id` withdrew `amount` of the balance
/// of `token`, or all of it where `amount` is zero, with the amount that is
/// then due to the farmer; or why nothing is withdrawn.
pub open spec fn spec_withdraw_reward(
    c: ContractView,
    sender_id: Seq<char>,
    token: Seq<char>,
    amount: Balance,
) -> Result<(ContractView, Balance), FarmingError> {
    if !has_farmer(c, sender_id) {
        Err(FarmingError::AccountNotRegistered)
    } else {
        let fi = farmer_index(c, sender_id);
        let farmer = c.farmers[fi];
        if !farmer.rewards.contains_key(token) {
            Err(FarmingError::TokenNotRegistered)
        } else if farmer.rewards[token] < amount {
            Err(FarmingError::NotEnoughTokens)
        } else if amount == 0 {
            Ok(
                (
                    spec_with_farmer(
                        c,
                        fi,
                        spec_with_rewards(farmer, farmer.rewards.remove(token)),
                    ),
                    farmer.rewards[token],
                ),
            )
        } else {
            Ok(
                (
                    spec_with_farmer(
                        c,
                        fi,
                        spec_with_rewards(
                            farmer,
                            farmer.rewards.insert(token, (farmer.rewards[token] - amount) as u128),
                        ),
                    ),
                    amount,
                ),
            )
        }
    }
}

/// The books after `amount` of `token` was given back to the balance of
/// the farmer `sender_id`, or why it is not given back.
pub open spec fn spec_restore_reward(
    c: ContractView,
    sender_id: Seq<char>,
    token: Seq<char>,
    amount: Balance,
) -> Result<ContractView, FarmingError> {
    if !has_farmer(c, sender_id) {
        Err(FarmingError::AccountNotRegistered)
    } else {
        let fi = farmer_index(c, sender_id);
        let farmer = c.farmers[fi];
        if farmer.spec_reward(token) + amount > u128::MAX {
            Err(FarmingError::Overflow)
        } else {
            Ok(
                spec_with_farmer(
                    c,
                    fi,
                    spec_with_rewards(
                        farmer,
                        farmer.rewards.insert(token, (farmer.spec_reward(token) + amount) as u128),
                    ),
                ),
            )
        }
    }
}

/// The farmer with another deposit for storage.
pub open spec fn spec_with_deposit(farmer: FarmerView, amount: Balance) -> FarmerView {
    FarmerView {
        farmer_id: farmer.farmer_id,
        nft_seeds: farmer.nft_seeds,
        amount,
        rewards: farmer.rewards,
        seeds: farmer.seeds,
        user_rps: farmer.user_rps,
    }
}

/// The books after the farmer `account_id` took back `amount` of the deposit
/// for storage, or all that the record does not need where `amount` is
/// zero, with the amount taken; or why nothing is taken: the account has no
/// record, the deposit does not pay for the record, or less is free than is
/// asked for.
pub open spec fn spec_storage_withdraw(
    c: ContractView,
    account_id: Seq<char>,
    amount: Balance,
) -> Result<(ContractView, Balance), FarmingError> {
    if !has_farmer(c, account_id) {
        Err(FarmingError::AccountNotRegistered)
    } else {
        let fi = farmer_index(c, account_id);
        let farmer = c.farmers[fi];
        if !farmer.spec_storage_covered() {
            Err(FarmingError::InsufficientStorage)
        } else {
            let available = (farmer.amount - farmer.spec_storage_usage()) as u128;
            if available < amount {
                Err(FarmingError::InsufficientStorage)
            } else {
                let taken = if amount == 0 {
                    available
                } else {
                    amount
                };
                Ok(
                    (
                        spec_with_farmer(
                            c,
                            fi,
                            spec_with_deposit(farmer, (farmer.amount - taken) as u128),
                        ),
                        taken,
                    ),
                )
            }
        }
    }
}

/// The books after the farmer `sender_id` claimed from the farm `farm_id`
/// at time `now` and withdrew all of the balance of the farm's reward
/// token, with the amount that is then due to the farmer; or why that is
/// refused: the claim is, there is no such farm, or the farmer has no
/// balance of the token.
pub open spec fn spec_claim_by_farm_and_withdraw(
    c: ContractView,
    sender_id: Seq<char>,
    farm_id: Seq<char>,
    now: TimestampSec,
) -> Result<(ContractView, Balance), FarmingError> {
    match spec_claim_reward_by_farm(c, sender_id, farm_id, now) {
        Err(e) => Err(e),
        Ok(d) => if !d.farms.contains_key(farm_id) {
            Err(FarmingError::FarmNotExist)
        } else {
            spec_withdraw_reward(d, sender_id, d.farms[farm_id].terms.reward_token@, 0)
        },
    }
}

/// The books after the farmer `sender_id` claimed from all farms of the seed
/// `seed_id` at time `now` and was paid out the balances of their reward
/// tokens, with the payments; or why that is refused: the claim is, or the
/// seed is not on record.
pub open spec fn spec_claim_by_seed_and_withdraw(
    c: ContractView,
    sender_id: Seq<char>,
    seed_id: Seq<char>,
    now: TimestampSec,
) -> Result<(ContractView, Seq<(Seq<char>, Balance)>), FarmingError> {
    match spec_claim_reward_by_seed(c, sender_id, seed_id, now) {
        Err(e) => Err(e),
        Ok(d) => if !d.seeds.contains_key(seed_id) {
            Err(FarmingError::SeedNotExist)
        } else {
            let fi = farmer_index(d, sender_id);
            let paid = spec_payout(d.farms, d.farmers[fi], d.seeds[seed_id].farms);
            Ok((spec_with_farmer(d, fi, paid.0), paid.1))
        },
    }
}

/// A payment that is due to a farmer: an amount of a token.
pub struct Withdrawal {
    pub token_id: AccountId,
    pub amount: Balance,
}

/// Payments to the eye, each a token with an amount.
pub open spec fn spec_withdrawals(list: Seq<Withdrawal>) -> Seq<(Seq<char>, Balance)> {
    Seq::new(list.len(), |i: int| (list[i].token_id@, list[i].amount))
}

/// Pays out the farmer's balances of the reward tokens of the given farms:
/// each such balance is taken from the farmer's record, whole, and listed
/// as a payment.
pub fn payout(farms: &StrMap<Farm>, farmer: &mut Farmer, farm_ids: &StrSet) -> (r: Vec<Withdrawal>)
    requires
        farms.wf(),
        old(farmer).wf(),
        forall|j: int|
            0 <= j < farm_ids.keys().len() ==> farms@.contains_key(#[trigger] farm_ids.keys()[j]),
    ensures
        final(farmer).wf(),
        (final(farmer)@, spec_withdrawals(r@)) == spec_payout(
            farms@,
            old(farmer)@,
            farm_ids.keys(),
        ),
{
    let n: usize = farm_ids.len();
    let ghost keys = farm_ids.keys();
    let mut list: Vec<Withdrawal> = Vec::new();
    let mut k: usize = 0;
    proof {
        assert(keys.skip(0) =~= keys);
        assert(spec_withdrawals(list@) =~= Seq::empty());
        let whole = spec_payout(farms@, farmer@, keys);
        assert(Seq::<(Seq<char>, Balance)>::empty() + whole.1 =~= whole.1);
    }
    while k < n
        invariant
            n == keys.len(),
            k <= n,
            keys == farm_ids.keys(),
            farms.wf(),
            farmer.wf(),
            forall|j: int| 0 <= j < keys.len() ==> farms@.contains_key(#[trigger] keys[j]),
            spec_payout(farms@, old(farmer)@, keys).0 == spec_payout(
                farms@,
                farmer@,
                keys.skip(k as int),
            ).0,
            spec_payout(farms@, old(farmer)@, keys).1 == spec_withdrawals(list@) + spec_payout(
                farms@,
                farmer@,
                keys.skip(k as int),
            ).1,
        decreases n - k,
    {
        let key = farm_ids.key_at(k);
        let ghost rest = keys.skip(k as int);
        let ghost before = farmer@;
        let ghost paid = spec_withdrawals(list@);
        proof {
            assert(rest[0] == keys[k as int]);
            assert(rest.drop_first() =~= keys.skip(k + 1));
            assert(farms@.contains_key(keys[k as int]));
        }
        let token = match farms.get_ref(key) {
            Some(farm) => farm.terms.reward_token.clone(),
            None => vstd::pervasive::unreached(),
        };
        if farmer.rewards.contains_key(&token) {
            match farmer.sub_reward(&token, 0) {
                Ok(amount) => {
                    list.push(Withdrawal { token_id: token, amount });
                    proof {
                        assert(farmer@ =~= spec_without_reward(before, token@));
                        let tail = spec_payout(farms@, farmer@, keys.skip(k + 1)).1;
                        assert(spec_withdrawals(list@) =~= paid + seq![(token@, amount)]);
                        assert((paid + seq![(token@, amount)]) + tail =~= paid + (seq![
                            (token@, amount),
                        ] + tail));
                    }
                },
                Err(_) => vstd::pervasive::unreached(),
            }
        }
        k = k + 1;
    }
    proof {
        assert(keys.skip(n as int) =~= Seq::<Seq<char>>::empty());
        let done = spec_payout(farms@, farmer@, keys.skip(n as int));
        assert(spec_withdrawals(list@) + done.1 =~= spec_withdrawals(list@));
    }
    list
}

impl Contract {
    /// The farmer `sender_id` withdraws `amount` of the balance of
    /// `token_id`, or all of it where no amount or an amount of zero is
    /// given. Returns the amount that is then due to the farmer.
    ///
    /// Refused where the account has no record, the farmer has no balance of
    /// the token, or less than `amount`.
    pub fn withdraw_reward(
        &mut self,
        sender_id: &AccountId,
        token_id: &AccountId,
        amount: Option<Balance>,
    ) -> (r: Result<Balance, FarmingError>)
        requires
            old(self).wf(),
        ensures
            final(self).wf(),
            match spec_withdraw_reward(old(self)@, sender_id@, token_id@, amount.unwrap_or(0)) {
                Ok((c, due)) => r == Ok::<Balance, FarmingError>(due) && final(self)@ == c,
                Err(e) => r == Err::<Balance, FarmingError>(e) && final(self)@ == old(self)@,
            },
    {
        let amount: u128 = match amount {
            Some(x) => x,
            None => 0,
        };
        self.internal_execute_withdraw_reward(token_id, sender_id, amount)
    }

    /// The farmer `sender_id` withdraws `amount` of the balance of
    /// `token_id`, or all of it where `amount` is zero. Returns the amount
    /// that is then due to the farmer.
    ///
    /// Refused where the account has no record, the farmer has no balance of
    /// the token, or less than `amount`.
    pub fn internal_execute_withdraw_reward(
        &mut self,
        token_id: &AccountId,
        sender_id: &AccountId,
        amount: Balance,
    ) -> (r: Result<Balance, FarmingError>)
        requires
            old(self).wf(),
        ensures
            final(self).wf(),
            match spec_withdraw_reward(old(self)@, sender_id@, token_id@, amount) {
                Ok((c, due)) => r == Ok::<Balance, FarmingError>(due) && final(self)@ == c,
                Err(e) => r == Err::<Balance, FarmingError>(e) && final(self)@ == old(self)@,
            },
    {
        let mut farmer = match self.get_farmer(sender_id) {
            Err(e) => {
                return Err(e);
            },
            Ok(f) => f,
        };
        let ghost fi = farmer_index(self@, sender_id@);
        assert(farmer_at(self@, sender_id@, fi));
        let due: u128 = match farmer.sub_reward(token_id, amount) {
            Err(e) => {
                return Err(e);
            },
            Ok(x) => x,
        };
        proof {
            lemma_rewards_changed(self@, fi, farmer@);
        }
        self.store_farmer(farmer);
        proof {
            assert(self@ =~= spec_withdraw_reward(
                old(self)@,
                sender_id@,
                token_id@,
                amount,
            )->Ok_0.0);
        }
        Ok(due)
    }

    /// What follows the report on a payment of `amount` of `token_id` to the
    /// farmer `sender_id`. A payment that was made changes nothing. One that
    /// failed is given back to the farmer's balance; that is refused where
    /// the account has no record, or the balance would pass the greatest
    /// balance.
    pub fn callback_post_withdraw_reward(
        &mut self,
        token_id: &AccountId,
        sender_id: &AccountId,
        amount: Balance,
        succeeded: bool,
    ) -> (r: Result<(), FarmingError>)
        requires
            old(self).wf(),
        ensures
            final(self).wf(),
            succeeded ==> r is Ok && final(self)@ == old(self)@,
            !succeeded ==> match spec_restore_reward(old(self)@, sender_id@, token_id@, amount) {
                Ok(c) => r is Ok && final(self)@ == c,
                Err(e) => r == Err::<(), FarmingError>(e) && final(self)@ == old(self)@,
            },
    {
        if succeeded {
            return Ok(());
        }
        let mut farmer = match self.get_farmer(sender_id) {
            Err(e) => {
                return Err(e);
            },
            Ok(f) => f,
        };
        let ghost fi = farmer_index(self@, sender_id@);
        assert(farmer_at(self@, sender_id@, fi));
        match farmer.add_reward(token_id, amount) {
            Err(e) => {
                return Err(e);
            },
            Ok(_) => {},
        }
        proof {
            lemma_rewards_changed(self@, fi, farmer@);
        }
        self.store_farmer(farmer);
        proof {
            assert(self@ =~= spec_restore_reward(old(self)@, sender_id@, token_id@, amount)->Ok_0);
        }
        Ok(())
    }

    /// What the farmer `account_id` has deposited for storage, and the part
    /// of it that the record does not need; nothing where the account has no
    /// record.
    pub fn storage_balance_of(&self, account_id: &AccountId) -> (r: Option<(Balance, Balance)>)
        requires
            self.wf(),
        ensures
            r is Some == has_farmer(self@, account_id@),
            r is Some ==> ({
                let farmer = self@.farmers[farmer_index(self@, account_id@)];
                let (total, available) = r->0;
                &&& total == farmer.amount
                &&& available == (if farmer.spec_storage_covered() {
                    farmer.amount - farmer.spec_storage_usage()
                } else {
                    0
                })
            }),
    {
        proof {
            self.lemma_farmer_lookup(account_id@);
        }
        match self.data.farmers.get_ref(account_id) {
            None => None,
            Some(kept) => {
                let farmer = kept.get_ref();
                let available: u128 = match farmer.storage_available() {
                    Some(x) => x,
                    None => 0,
                };
                Some((farmer.amount, available))
            },
        }
    }

    /// The farmer `account_id` takes back `amount` of the deposit for
    /// storage, or all that the record does not need where no amount or an
    /// amount of zero is given. Returns the amount taken.
    ///
    /// Refused where the account has no record, the deposit does not pay for
    /// the record, or less is free than is asked for.
    pub fn storage_withdraw(&mut self, account_id: &AccountId, amount: Option<Balance>) -> (r:
        Result<Balance, FarmingError>)
        requires
            old(self).wf(),
        ensures
            final(self).wf(),
            match spec_storage_withdraw(old(self)@, account_id@, amount.unwrap_or(0)) {
                Ok((c, taken)) => r == Ok::<Balance, FarmingError>(taken) && final(self)@ == c,
                Err(e) => r == Err::<Balance, FarmingError>(e) && final(self)@ == old(self)@,
            },
    {
        let amount: u128 = match amount {
            Some(x) => x,
            None => 0,
        };
        let mut farmer = match self.get_farmer(account_id) {
            Err(e) => {
                return Err(e);
            },
            Ok(f) => f,
        };
        let ghost fi = farmer_index(self@, account_id@);
        assert(farmer_at(self@, account_id@, fi));
        let available: u128 = match farmer.storage_available() {
            None => {
                return Err(FarmingError::InsufficientStorage);
            },
            Some(x) => x,
        };
        if available < amount {
            return Err(FarmingError::InsufficientStorage);
        }
        let taken: u128 = if amount == 0 {
            available
        } else {
            amount
        };
        farmer.amount = farmer.amount - taken;
        proof {
            lemma_rewards_changed(self@, fi, farmer@);
        }
        self.store_farmer(farmer);
        proof {
            assert(self@ =~= spec_storage_withdraw(old(self)@, account_id@, amount)->Ok_0.0);
        }
        Ok(taken)
    }

    /// The farmer `sender_id` claims from the farm `farm_id` at time `now`
    /// and withdraws all of the balance of the farm's reward token. Returns
    /// the token and the amount that is then due to the farmer.
    ///
    /// Refused, with nothing changed, where the claim is refused, there is
    /// no such farm, or the farmer has no balance of the token.
    pub fn claim_reward_by_farm_and_withdraw(
        &mut self,
        sender_id: &AccountId,
        farm_id: &FarmId,
        now: TimestampSec,
    ) -> (r: Result<Withdrawal, FarmingError>)
        requires
            old(self).wf(),
        ensures
            final(self).wf(),
            match spec_claim_by_farm_and_withdraw(old(self)@, sender_id@, farm_id@, now) {
                Ok((c, due)) => r is Ok && r->Ok_0.amount == due && r->Ok_0.token_id@
                    == c.farms[farm_id@].terms.reward_token@ && final(self)@ == c,
                Err(e) => r is Err && r->Err_0 == e && final(self)@ == old(self)@,
            },
    {
        let backup = self.snapshot();
        match self.claim_reward_by_farm(sender_id, farm_id, now) {
            Err(e) => {
                return Err(e);
            },
            Ok(_) => {},
        }
        let token_id = match self.data.farms.get_ref(farm_id) {
            Some(farm) => farm.terms.reward_token.clone(),
            None => {
                *self = backup;
                return Err(FarmingError::FarmNotExist);
            },
        };
        match self.internal_execute_withdraw_reward(&token_id, sender_id, 0) {
            Err(e) => {
                *self = backup;
                Err(e)
            },
            Ok(amount) => Ok(Withdrawal { token_id, amount }),
        }
    }

    /// The farmer `sender_id` claims from all farms of the seed `seed_id` at
    /// time `now`, and is paid out the balances of their reward tokens.
    /// Returns the payments.
    ///
    /// Refused, with nothing changed, where the claim is refused or the seed
    /// is not on record.
    pub fn claim_reward_by_seed_and_withdraw(
        &mut self,
        sender_id: &AccountId,
        seed_id: &SeedId,
        now: TimestampSec,
    ) -> (r: Result<Vec<Withdrawal>, FarmingError>)
        requires
            old(self).wf(),
        ensures
            final(self).wf(),
            match spec_claim_by_seed_and_withdraw(old(self)@, sender_id@, seed_id@, now) {
                Ok((c, paid)) => r is Ok && spec_withdrawals(r->Ok_0@) == paid && final(self)@
                    == c,
                Err(e) => r is Err && r->Err_0 == e && final(self)@ == old(self)@,
            },
    {
        let backup = self.snapshot();
        match self.claim_reward_by_seed(sender_id, seed_id, now) {
            Err(e) => {
                return Err(e);
            },
            Ok(_) => {},
        }
        let ghost d = self@;
        let ghost fi = farmer_index(old(self)@, sender_id@);
        proof {
            let c = old(self)@;
            assert(farmer_at(c, sender_id@, fi));
            if c.seeds.contains_key(seed_id@) {
                lemma_settle_all(c, fi, seed_id@, c.seeds[seed_id@].farms, now);
            }
            assert(farmer_at(d, sender_id@, fi));
            lemma_farmer_index(d, sender_id@, fi);
        }
        let mut farmer = match self.get_farmer(sender_id) {
            Err(_) => vstd::pervasive::unreached(),
            Ok(f) => f,
        };
        let list = match self.data.seeds.get_ref(seed_id) {
            None => None,
            Some(seed) => {
                proof {
                    assert forall|j: int| 0 <= j < seed.farms.keys().len() implies self.data.farms@.contains_key(
                        #[trigger] seed.farms.keys()[j],
                    ) by {
                        assert(d.seeds[seed_id@].farms.contains(seed.farms.keys()[j]));
                    }
                }
                Some(payout(&self.data.farms, &mut farmer, &seed.farms))
            },
        };
        match list {
            None => {
                *self = backup;
                Err(FarmingError::SeedNotExist)
            },
            Some(list) => {
                proof {
                    lemma_payout_frame(d.farms, d.farmers[fi], d.seeds[seed_id@].farms);
                    lemma_rewards_changed(d, fi, farmer@);
                }
                self.store_farmer(farmer);
                proof {
                    assert(self@ =~= spec_with_farmer(d, fi, farmer@));
                }
                Ok(list)
            },
        }
    }
}

} // verus!
