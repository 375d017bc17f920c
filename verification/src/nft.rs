//! Staking non-fungible tokens.
//!
//! A token stands for an amount of stake, which the seed's table gives for
//! the token, for its series, or for its contract. Staking a token stakes
//! that amount, and taking the token back takes the amount back.

use vstd::prelude::*;
use crate::books::{farmer_at, farmer_index, has_farmer, lemma_rewards_changed, spec_with_farmer};
use crate::contract::Contract;
use crate::errors::FarmingError;
use crate::farm_seed::SeedType;
use crate::internals::spec_work;
use crate::model::ContractView;
use crate::rewards::{Withdrawal, spec_withdrawals};
use crate::stake::{Staged, spec_seed_staking, spec_seed_withdraw, spec_staged};
use crate::types::{AccountId, Balance, ContractNFTTokenId, SeedId, TimestampSec};
use crate::utils::{
    contract_nft_token_id, get_nft_balance_equivalent, spec_contract_nft_token_id,
    spec_nft_balance_equivalent,
};

verus! {

/// The books after the farmer `sender_id` staked the token `nft_token_id`
/// of the contract `nft_contract_id` under the seed `seed_id` at time `now`,
/// whether it was staked, and what is paid out; or why the token is
/// refused.
///
/// The seed must be on record as a seed of non-fungible tokens, with a
/// table of their stakes. A token that the table gives no stake for is not
/// staked, and nothing changes. Any other is staked at the stake that the
/// table gives, as `spec_seed_deposit` says, and noted in the farmer's
/// record.
pub open spec fn spec_nft_deposit(
    c: ContractView,
    seed_id: Seq<char>,
    sender_id: Seq<char>,
    nft_contract_id: Seq<char>,
    nft_token_id: Seq<char>,
    now: TimestampSec,
    pay: bool,
) -> Result<(ContractView, bool, Seq<(Seq<char>, Balance)>), FarmingError> {
    let id = spec_contract_nft_token_id(nft_contract_id, nft_token_id);
    if !c.seeds.contains_key(seed_id) {
        Err(FarmingError::SeedNotExist)
    } else if c.seeds[seed_id].seed_type != SeedType::NFT {
        Err(FarmingError::InvalidSeedType)
    } else if !c.nft_balance_seeds.contains_key(seed_id) {
        Err(FarmingError::NftNotFound)
    } else {
        match spec_nft_balance_equivalent(c.nft_balance_seeds[seed_id], id) {
            None => Ok((c, false, Seq::empty())),
            Some(stake) => match spec_seed_staking(c, seed_id, sender_id, stake, now, pay) {
                Err(e) => Err(e),
                Ok((d, paid)) => {
                    let fi = farmer_index(c, sender_id);
                    Ok(
                        (
                            spec_with_farmer(d, fi, d.farmers[fi].spec_with_nft(seed_id, id)),
                            true,
                            paid,
                        ),
                    )
                },
            },
        }
    }
}

/// The books after the farmer `sender_id` took back the token `nft_token_id`
/// of the contract `nft_contract_id`, staked under the seed `seed_id`, at
/// time `now`, and what is paid out; or why the token is not given back.
///
/// The farmer must have staked the token, and the table of the seed must
/// give a stake for it. That stake is taken back as `spec_seed_withdraw`
/// says, and the token is struck from the farmer's record.
pub open spec fn spec_nft_withdraw(
    c: ContractView,
    seed_id: Seq<char>,
    sender_id: Seq<char>,
    nft_contract_id: Seq<char>,
    nft_token_id: Seq<char>,
    now: TimestampSec,
) -> Result<(ContractView, Seq<(Seq<char>, Balance)>), FarmingError> {
    let id = spec_contract_nft_token_id(nft_contract_id, nft_token_id);
    if !has_farmer(c, sender_id) {
        Err(FarmingError::AccountNotRegistered)
    } else if !c.seeds.contains_key(seed_id) {
        Err(FarmingError::SeedNotExist)
    } else {
        let fi = farmer_index(c, sender_id);
        if !c.farmers[fi].spec_holds_nft(seed_id, id) || !c.nft_balance_seeds.contains_key(
            seed_id,
        ) {
            Err(FarmingError::NftNotFound)
        } else {
            match spec_nft_balance_equivalent(c.nft_balance_seeds[seed_id], id) {
                None => Err(FarmingError::NftNotFound),
                Some(stake) => match spec_seed_withdraw(c, seed_id, sender_id, stake, now) {
                    Err(e) => Err(e),
                    Ok((d, paid)) => Ok(
                        (
                            spec_with_farmer(d, fi, d.farmers[fi].spec_without_nft(seed_id, id)),
                            paid,
                        ),
                    ),
                },
            }
        }
    }
}

impl Contract {
    /// The stake that the table of the seed `seed_id` gives for a staked
    /// token, if the seed has a table and the table a stake for the token.
    pub(crate) fn nft_stake(&self, seed_id: &SeedId, id: &ContractNFTTokenId) -> (r: Option<Balance>)
        requires
            self.wf(),
        ensures
            r == (if self@.nft_balance_seeds.contains_key(seed_id@) {
                spec_nft_balance_equivalent(self@.nft_balance_seeds[seed_id@], id@)
            } else {
                None
            }),
    {
        match self.data.nft_balance_seeds.get_ref(seed_id) {
            Some(table) => get_nft_balance_equivalent(table, id),
            None => None,
        }
    }

    /// Works out, on copies, what staking a token would store.
    fn stage_nft_deposit(
        &self,
        seed_id: &SeedId,
        sender_id: &AccountId,
        nft_contract_id: &String,
        nft_token_id: &String,
        now: TimestampSec,
        pay: bool,
    ) -> (r: Result<Option<Staged>, FarmingError>)
        requires
            self.wf(),
        ensures
            match spec_nft_deposit(
                self@,
                seed_id@,
                sender_id@,
                nft_contract_id@,
                nft_token_id@,
                now,
                pay,
            ) {
                Ok((c, staked, paid)) => r is Ok && r->Ok_0 is Some == staked && (staked
                    ==> r->Ok_0->0.spec_stages(self@, sender_id@, seed_id@, c, paid)),
                Err(e) => r is Err && r->Err_0 == e,
            },
    {
        match self.data.seeds.get_ref(seed_id) {
            None => {
                return Err(FarmingError::SeedNotExist);
            },
            Some(seed) => match seed.seed_type {
                SeedType::NFT => {},
                SeedType::FT => {
                    return Err(FarmingError::InvalidSeedType);
                },
            },
        }
        if !self.data.nft_balance_seeds.contains_key(seed_id) {
            return Err(FarmingError::NftNotFound);
        }
        let id = contract_nft_token_id(nft_contract_id, nft_token_id);
        let stake: u128 = match self.nft_stake(seed_id, &id) {
            None => {
                return Ok(None);
            },
            Some(x) => x,
        };
        let mut staged = match self.stage_seed_deposit(seed_id, sender_id, stake, now, pay) {
            Err(e) => {
                return Err(e);
            },
            Ok(staged) => staged,
        };
        let ghost c = self@;
        let ghost fi = farmer_index(c, sender_id@);
        let ghost d = spec_seed_staking(c, seed_id@, sender_id@, stake, now, pay)->Ok_0.0;
        staged.farmer.add_nft(seed_id, id);
        proof {
            assert(farmer_at(c, sender_id@, fi));
            lemma_rewards_changed(d, fi, staged.farmer@);
            assert(spec_staged(
                spec_work(c, staged.farms@, fi, staged.farmer@),
                fi,
                staged.farmer@,
                seed_id@,
                staged.seed@,
            ) =~= spec_with_farmer(d, fi, staged.farmer@));
        }
        Ok(Some(staged))
    }

    /// The farmer `sender_id` stakes the token `nft_token_id` of the contract
    /// `nft_contract_id` under the seed `seed_id` at time `now`. Says whether
    /// the token was staked, and returns what is paid out to the farmer. A
    /// token that the seed's table gives no stake for is not staked.
    ///
    /// Refused where the seed is not on record, is no seed of non-fungible
    /// tokens or has no table; and where staking the amount is refused.
    pub fn internal_nft_deposit(
        &mut self,
        seed_id: &SeedId,
        sender_id: &AccountId,
        nft_contract_id: &String,
        nft_token_id: &String,
        now: TimestampSec,
    ) -> (r: Result<(bool, Vec<Withdrawal>), FarmingError>)
        requires
            old(self).wf(),
        ensures
            final(self).wf(),
            match spec_nft_deposit(
                old(self)@,
                seed_id@,
                sender_id@,
                nft_contract_id@,
                nft_token_id@,
                now,
                true,
            ) {
                Ok((c, staked, paid)) => r is Ok && r->Ok_0.0 == staked && spec_withdrawals(
                    r->Ok_0.1@,
                ) == paid && final(self)@ == c,
                Err(e) => r is Err && r->Err_0 == e && final(self)@ == old(self)@,
            },
    {
        match self.stage_nft_deposit(seed_id, sender_id, nft_contract_id, nft_token_id, now, true) {
            Err(e) => Err(e),
            Ok(None) => {
                let list: Vec<Withdrawal> = Vec::new();
                assert(spec_withdrawals(list@) =~= Seq::empty());
                Ok((false, list))
            },
            Ok(Some(staged)) => Ok((true, self.commit(staged, Ghost(sender_id@), Ghost(seed_id@)))),
        }
    }

    /// The farmer `sender_id` takes back the token `nft_token_id` of the
    /// contract `nft_contract_id`, staked under the seed `seed_id`, at time
    /// `now`. Returns the name of the token inside its contract, and what is
    /// paid out to the farmer.
    ///
    /// Refused where the account or the seed is not on record, the farmer
    /// has not staked the token or the seed's table gives no stake for it;
    /// and where taking the amount back is refused.
    pub fn internal_nft_withdraw(
        &mut self,
        seed_id: &SeedId,
        sender_id: &AccountId,
        nft_contract_id: &String,
        nft_token_id: &String,
        now: TimestampSec,
    ) -> (r: Result<(ContractNFTTokenId, Vec<Withdrawal>), FarmingError>)
        requires
            old(self).wf(),
        ensures
            final(self).wf(),
            match spec_nft_withdraw(
                old(self)@,
                seed_id@,
                sender_id@,
                nft_contract_id@,
                nft_token_id@,
                now,
            ) {
                Ok((c, paid)) => r is Ok && r->Ok_0.0@ == spec_contract_nft_token_id(
                    nft_contract_id@,
                    nft_token_id@,
                ) && spec_withdrawals(r->Ok_0.1@) == paid && final(self)@ == c,
                Err(e) => r is Err && r->Err_0 == e && final(self)@ == old(self)@,
            },
    {
        let id = contract_nft_token_id(nft_contract_id, nft_token_id);
        proof {
            self.lemma_farmer_lookup(sender_id@);
        }
        let held: bool = match self.data.farmers.get_ref(sender_id) {
            None => {
                return Err(FarmingError::AccountNotRegistered);
            },
            Some(kept) => match kept.get_ref().nft_seeds.get_ref(seed_id) {
                Some(tokens) => tokens.contains(&id),
                None => false,
            },
        };
        if !self.data.seeds.contains_key(seed_id) {
            return Err(FarmingError::SeedNotExist);
        }
        if !held {
            return Err(FarmingError::NftNotFound);
        }
        let stake: u128 = match self.nft_stake(seed_id, &id) {
            None => {
                return Err(FarmingError::NftNotFound);
            },
            Some(x) => x,
        };
        let mut staged = match self.stage_seed_withdraw(seed_id, sender_id, stake, now) {
            Err(e) => {
                return Err(e);
            },
            Ok(staged) => staged,
        };
        let ghost c = self@;
        let ghost fi = farmer_index(c, sender_id@);
        let ghost d = spec_seed_withdraw(c, seed_id@, sender_id@, stake, now)->Ok_0.0;
        staged.farmer.sub_nft(seed_id, id.clone());
        proof {
            assert(farmer_at(c, sender_id@, fi));
            lemma_rewards_changed(d, fi, staged.farmer@);
            assert(spec_staged(
                spec_work(c, staged.farms@, fi, staged.farmer@),
                fi,
                staged.farmer@,
                seed_id@,
                staged.seed@,
            ) =~= spec_with_farmer(d, fi, staged.farmer@));
            assert(staged.spec_stages(
                c,
                sender_id@,
                seed_id@,
                spec_with_farmer(d, fi, staged.farmer@),
                spec_withdrawals(staged.list@),
            ));
        }
        Ok((id, self.commit(staged, Ghost(sender_id@), Ghost(seed_id@))))
    }

    /// The farmer `sender_id` withdraws a staked token at time `now`, as
    /// `internal_nft_withdraw` does; the token is then due to the farmer.
    pub fn withdraw_nft(
        &mut self,
        sender_id: &AccountId,
        seed_id: &SeedId,
        nft_contract_id: &String,
        nft_token_id: &String,
        now: TimestampSec,
    ) -> (r: Result<(ContractNFTTokenId, Vec<Withdrawal>), FarmingError>)
        requires
            old(self).wf(),
        ensures
            final(self).wf(),
            match spec_nft_withdraw(
                old(self)@,
                seed_id@,
                sender_id@,
                nft_contract_id@,
                nft_token_id@,
                now,
            ) {
                Ok((c, paid)) => r is Ok && r->Ok_0.0@ == spec_contract_nft_token_id(
                    nft_contract_id@,
                    nft_token_id@,
                ) && spec_withdrawals(r->Ok_0.1@) == paid && final(self)@ == c,
                Err(e) => r is Err && r->Err_0 == e && final(self)@ == old(self)@,
            },
    {
        self.internal_nft_withdraw(seed_id, sender_id, nft_contract_id, nft_token_id, now)
    }

    /// What follows the report on handing a token back to the farmer
    /// `sender_id`, after a withdrawal. A token that was handed over changes
    /// nothing. One that was not is staked again at time `now`, as a deposit
    /// is, but nothing is paid out; that is refused as a deposit is.
    pub fn callback_post_withdraw_nft(
        &mut self,
        seed_id: &SeedId,
        sender_id: &AccountId,
        nft_contract_id: &String,
        nft_token_id: &String,
        succeeded: bool,
        now: TimestampSec,
    ) -> (r: Result<(), FarmingError>)
        requires
            old(self).wf(),
        ensures
            final(self).wf(),
            succeeded ==> r is Ok && final(self)@ == old(self)@,
            !succeeded ==> match spec_nft_deposit(
                old(self)@,
                seed_id@,
                sender_id@,
                nft_contract_id@,
                nft_token_id@,
                now,
                false,
            ) {
                Ok((c, _, _)) => r is Ok && final(self)@ == c,
                Err(e) => r == Err::<(), FarmingError>(e) && final(self)@ == old(self)@,
            },
    {
        if succeeded {
            return Ok(());
        }
        match self.stage_nft_deposit(seed_id, sender_id, nft_contract_id, nft_token_id, now, false) {
            Err(e) => Err(e),
            Ok(None) => Ok(()),
            Ok(Some(staged)) => {
                self.commit(staged, Ghost(sender_id@), Ghost(seed_id@));
                Ok(())
            },
        }
    }
}

} // verus!
