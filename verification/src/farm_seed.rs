//! A seed: what is staked of it in all, and the farms that pay its stakers.

use vstd::prelude::*;
use crate::str_map::StrSet;
use crate::types::{Balance, SeedId};

verus! {

/// What kind of token a seed is.
#[derive(Clone, Copy, Debug, PartialEq, Eq, Structural)]
pub enum SeedType {
    /// A fungible token: the stake is the amount deposited.
    FT,
    /// Non-fungible tokens, each standing for an amount of stake.
    NFT,
}

/// One seed's record.
pub struct FarmSeed {
    pub seed_id: SeedId,
    pub seed_type: SeedType,
    /// The names of the farms that pay the stakers of this seed.
    pub farms: StrSet,
    /// The number that the next farm under this seed gets.
    pub next_index: u32,
    /// The stake of all farmers together.
    pub amount: Balance,
    /// The least amount that one deposit may stake.
    pub min_deposit: Balance,
}

/// A seed's record to the eye.
pub struct FarmSeedView {
    pub seed_id: Seq<char>,
    pub seed_type: SeedType,
    pub farms: Seq<Seq<char>>,
    pub next_index: u32,
    pub amount: Balance,
    pub min_deposit: Balance,
}

impl View for FarmSeed {
    type V = FarmSeedView;

    open spec fn view(&self) -> FarmSeedView {
        FarmSeedView {
            seed_id: self.seed_id@,
            seed_type: self.seed_type,
            farms: self.farms.keys(),
            next_index: self.next_index,
            amount: self.amount,
            min_deposit: self.min_deposit,
        }
    }
}

impl Clone for FarmSeed {
    fn clone(&self) -> (r: Self)
        ensures
            r@ == self@,
            r.wf() == self.wf(),
    {
        FarmSeed {
            seed_id: self.seed_id.clone(),
            seed_type: self.seed_type,
            farms: self.farms.clone(),
            next_index: self.next_index,
            amount: self.amount,
            min_deposit: self.min_deposit,
        }
    }
}

impl FarmSeed {
    /// No farm is listed twice.
    pub open spec fn wf(&self) -> bool {
        self.farms.wf()
    }

    /// A record for `seed_id` with nothing staked and no farms.
    pub fn new(seed_id: &SeedId, min_deposit: Balance, is_nft_balance: bool) -> (seed: Self)
        ensures
            seed.wf(),
            seed@ == (FarmSeedView {
                seed_id: seed_id@,
                seed_type: if is_nft_balance {
                    SeedType::NFT
                } else {
                    SeedType::FT
                },
                farms: Seq::<Seq<char>>::empty(),
                next_index: 0,
                amount: 0,
                min_deposit,
            }),
    {
        FarmSeed {
            seed_id: seed_id.clone(),
            seed_type: if is_nft_balance {
                SeedType::NFT
            } else {
                SeedType::FT
            },
            farms: StrSet::new(),
            next_index: 0,
            amount: 0,
            min_deposit,
        }
    }

    /// Adds `amount` to the stake of all.
    pub fn add_amount(&mut self, amount: Balance)
        requires
            old(self).amount + amount <= u128::MAX,
        ensures
            final(self).amount == old(self).amount + amount,
            final(self).seed_id == old(self).seed_id,
            final(self).seed_type == old(self).seed_type,
            final(self).farms == old(self).farms,
            final(self).next_index == old(self).next_index,
            final(self).min_deposit == old(self).min_deposit,
    {
        self.amount = self.amount + amount;
    }

    /// Takes `amount` from the stake of all, and returns what remains.
    pub fn sub_amount(&mut self, amount: Balance) -> (r: Balance)
        requires
            amount <= old(self).amount,
        ensures
            r == old(self).amount - amount,
            final(self).amount == r,
            final(self).seed_id == old(self).seed_id,
            final(self).seed_type == old(self).seed_type,
            final(self).farms == old(self).farms,
            final(self).next_index == old(self).next_index,
            final(self).min_deposit == old(self).min_deposit,
    {
        self.amount = self.amount - amount;
        self.amount
    }
}

} // verus!
