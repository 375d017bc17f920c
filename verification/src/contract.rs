//! The books themselves: all seeds, farms and farmers, kept in memory.
//!
//! Every action loads copies of the records it touches, works on the copies,
//! and stores them only when nothing more can refuse the action. An action
//! that is refused leaves the books as they were.

use vstd::prelude::*;
use crate::books::{
    farmer_at, farmer_index, has_farmer, inv, inv_debts, inv_names, inv_records, inv_totals,
    lemma_farmer_index,
};
use crate::errors::FarmingError;
use crate::farm::Farm;
use crate::farm_seed::FarmSeed;
use crate::farmer::{Farmer, FarmerView, VersionedFarmer, spec_storage_byte_cost};
use crate::internals::spec_work;
use crate::model::{ContractView, covered, debts, stakes, total_stake};
use crate::str_map::StrMap;
use crate::sums::lemma_sum_push;
use crate::types::{AccountId, Balance, NftBalance, SeedId};

verus! {

/// All records.
pub struct ContractData {
    /// Who may create and clear farms.
    pub(crate) owner_id: AccountId,
    /// The seeds, by name.
    pub(crate) seeds: StrMap<FarmSeed>,
    /// The farmers, by account.
    pub(crate) farmers: StrMap<VersionedFarmer>,
    /// The farms that are at work, by name.
    pub(crate) farms: StrMap<Farm>,
    /// The farms that were cleared away, by name.
    pub(crate) outdated_farms: StrMap<Farm>,
    /// For each seed of non-fungible tokens, the stake that each token, or
    /// each series or contract of tokens, stands for.
    pub(crate) nft_balance_seeds: StrMap<NftBalance>,
}

/// The books.
pub struct Contract {
    pub(crate) data: ContractData,
}

/// The price of `storage_needed` bytes of storage.
pub open spec fn spec_storage_cost(storage_needed: u64) -> nat {
    storage_needed as nat * spec_storage_byte_cost()
}

/// What is left of `attached_deposit` after it paid for `storage_needed`
/// bytes of storage; refused where it does not pay for them.
pub fn storage_refund(storage_needed: u64, attached_deposit: Balance) -> (r: Result<
    Balance,
    FarmingError,
>)
    ensures
        r == (if spec_storage_cost(storage_needed) <= attached_deposit {
            Ok::<Balance, FarmingError>((attached_deposit - spec_storage_cost(storage_needed)) as u128)
        } else {
            Err(FarmingError::InsufficientStorage)
        }),
{
    let needed: u128 = storage_needed as u128;
    let storage_cost: u128 = needed * near_sdk::env::storage_byte_cost();
    if storage_cost <= attached_deposit {
        Ok(attached_deposit - storage_cost)
    } else {
        Err(FarmingError::InsufficientStorage)
    }
}

/// The books with one farmer more, who has a deposit of `amount` and
/// nothing else; or why the farmer is not taken.
pub open spec fn spec_register_account(
    c: ContractView,
    account_id: Seq<char>,
    amount: Balance,
) -> Result<ContractView, FarmingError> {
    if has_farmer(c, account_id) {
        Err(FarmingError::AccountAlreadyRegistered)
    } else {
        Ok(
            ContractView {
                seeds: c.seeds,
                farmers: c.farmers.push(
                    FarmerView {
                        farmer_id: account_id,
                        nft_seeds: Map::empty(),
                        amount,
                        rewards: Map::empty(),
                        seeds: Map::empty(),
                        user_rps: Map::empty(),
                    },
                ),
                farms: c.farms,
                outdated_farms: c.outdated_farms,
                nft_balance_seeds: c.nft_balance_seeds,
                owner_id: c.owner_id,
            },
        )
    }
}

/// A new farmer keeps all that holds of the books: who has no stake is owed
/// nothing.
pub proof fn lemma_register_account(c: ContractView, account_id: Seq<char>, amount: Balance)
    requires
        inv(c),
        !has_farmer(c, account_id),
    ensures
        inv(spec_register_account(c, account_id, amount)->Ok_0),
{
    let d = spec_register_account(c, account_id, amount)->Ok_0;
    let n = c.farmers.len() as int;
    let fresh = d.farmers[n];
    assert(inv_records(d)) by {
        assert forall|i: int, j: int| 0 <= i < j < d.farmers.len() implies (
        #[trigger] d.farmers[i]).farmer_id != (#[trigger] d.farmers[j]).farmer_id by {
            if j == n {
                assert(!farmer_at(c, account_id, i));
            } else {
                assert(d.farmers[i] == c.farmers[i]);
                assert(d.farmers[j] == c.farmers[j]);
                assert(c.farmers[i].farmer_id != c.farmers[j].farmer_id);
            }
        }
    }
    assert(inv_names(d)) by {
        assert forall|i: int, k: Seq<char>|
            0 <= i < d.farmers.len() && #[trigger] d.farmers[i].user_rps.contains_key(
                k,
            ) implies d.farms.contains_key(k) || d.outdated_farms.contains_key(k) by {
            assert(i < n);
            assert(c.farmers[i].user_rps.contains_key(k));
        }
    }
    assert(inv_totals(d)) by {
        assert forall|s: Seq<char>| #[trigger] d.seeds.contains_key(s) implies d.seeds[s].amount
            == total_stake(d.farmers, s) by {
            assert(stakes(d.farmers, s) =~= stakes(c.farmers, s).push(0));
            lemma_sum_push(stakes(c.farmers, s), 0);
        }
        assert forall|i: int, s: Seq<char>|
            0 <= i < d.farmers.len() && #[trigger] d.farmers[i].seeds.contains_key(
                s,
            ) implies d.seeds.contains_key(s) by {
            assert(i < n);
            assert(c.farmers[i].seeds.contains_key(s));
        }
    }
    assert(inv_debts(d)) by {
        assert forall|k: Seq<char>| #[trigger] d.farms.contains_key(k) implies covered(
            d.farmers,
            d.farms[k],
        ) by {
            let farm = c.farms[k];
            assert(covered(c.farmers, farm));
            let rise = farm.last_distribution.rps@ - fresh.spec_rps(farm.farm_id@)@;
            assert(0 * rise == 0);
            assert(debts(d.farmers, farm) =~= debts(c.farmers, farm).push(0));
            lemma_sum_push(debts(c.farmers, farm), 0);
            assert forall|j: int| 0 <= j < d.farmers.len() implies (
            #[trigger] d.farmers[j]).spec_rps(farm.farm_id@)@
                <= farm.last_distribution.rps@ by {
                if j < n {
                    assert(d.farmers[j] == c.farmers[j]);
                }
            }
        }
    }
}

impl Contract {
    /// The farmers to the eye, in the order in which they registered.
    pub open(crate) spec fn spec_farmers(&self) -> Seq<FarmerView> {
        Seq::new(
            self.data.farmers.entries().len(),
            |i: int| self.data.farmers.entries()[i].value@,
        )
    }

    /// All records to the eye.
    pub open(crate) spec fn view(&self) -> ContractView {
        ContractView {
            seeds: self.data.seeds@.map_values(|s: FarmSeed| s@),
            farmers: self.spec_farmers(),
            farms: self.data.farms@,
            outdated_farms: self.data.outdated_farms@,
            nft_balance_seeds: self.data.nft_balance_seeds@.map_values(|m: NftBalance| m@),
            owner_id: self.data.owner_id@,
        }
    }

    /// Every table is in order, and every farmer stands under the farmer's
    /// own name.
    pub open(crate) spec fn stores_wf(&self) -> bool {
        &&& self.data.seeds.wf()
        &&& self.data.farmers.wf()
        &&& self.data.farms.wf()
        &&& self.data.outdated_farms.wf()
        &&& self.data.nft_balance_seeds.wf()
        &&& forall|k: Seq<char>| #[trigger]
            self.data.nft_balance_seeds@.contains_key(k) ==> self.data.nft_balance_seeds@[k].wf()
        &&& forall|k: Seq<char>| #[trigger]
            self.data.seeds@.contains_key(k) ==> self.data.seeds@[k].wf()
        &&& forall|i: int|
            0 <= i < self.data.farmers.entries().len() ==> (
            #[trigger] self.data.farmers.entries()[i]).value.wf()
                && self.data.farmers.entries()[i].key@
                == self.data.farmers.entries()[i].value@.farmer_id
    }

    /// The books are in order: the tables are, and all holds that holds of
    /// the books at all times.
    pub open(crate) spec fn wf(&self) -> bool {
        &&& self.stores_wf()
        &&& inv(self@)
    }

    /// Books in order keep all that holds of the books at all times.
    pub proof fn lemma_wf_inv(&self)
        requires
            self.wf(),
        ensures
            inv(self@),
    {
    }

    /// How the table of farmers and the farmers to the eye go together.
    pub(crate) proof fn lemma_farmer_lookup(&self, id: Seq<char>)
        requires
            self.stores_wf(),
            inv_records(self@),
        ensures
            self.data.farmers@.contains_key(id) == has_farmer(self@, id),
            self.data.farmers@.contains_key(id) ==> {
                &&& farmer_index(self@, id) == self.data.farmers.position(id)
                &&& farmer_at(self@, id, self.data.farmers.position(id))
                &&& self@.farmers[farmer_index(self@, id)] == self.data.farmers@[id]@
                &&& self.data.farmers@[id].wf()
                &&& self.data.farmers@[id]@.farmer_id == id
            },
    {
        let entries = self.data.farmers.entries();
        if self.data.farmers@.contains_key(id) {
            self.data.farmers.lemma_key_position(id);
            let p = self.data.farmers.position(id);
            self.data.farmers.lemma_entry(p);
            assert(entries[p].value@.farmer_id == id);
            assert(farmer_at(self@, id, p));
            lemma_farmer_index(self@, id, p);
        }
        if has_farmer(self@, id) {
            let i = farmer_index(self@, id);
            assert(farmer_at(self@, id, i));
            assert(entries[i].key@ == entries[i].value@.farmer_id);
            self.data.farmers.lemma_entry(i);
        }
    }

    /// New books, with no records, for `owner_id` to run.
    pub fn new(owner_id: AccountId) -> (contract: Self)
        ensures
            contract.wf(),
            contract@ == (ContractView {
                seeds: Map::empty(),
                farmers: Seq::empty(),
                farms: Map::empty(),
                outdated_farms: Map::empty(),
                nft_balance_seeds: Map::empty(),
                owner_id: owner_id@,
            }),
    {
        let contract = Contract {
            data: ContractData {
                owner_id,
                seeds: StrMap::new(),
                farmers: StrMap::new(),
                farms: StrMap::new(),
                outdated_farms: StrMap::new(),
                nft_balance_seeds: StrMap::new(),
            },
        };
        proof {
            assert(contract@ =~= (ContractView {
                seeds: Map::empty(),
                farmers: Seq::empty(),
                farms: Map::empty(),
                outdated_farms: Map::empty(),
                nft_balance_seeds: Map::empty(),
                owner_id: owner_id@,
            }));
        }
        contract
    }

    /// A copy of the books, to go back to.
    pub(crate) fn snapshot(&self) -> (r: Self)
        requires
            self.wf(),
        ensures
            r.wf(),
            r@ == self@,
    {
        let r = Contract {
            data: ContractData {
                owner_id: self.data.owner_id.clone(),
                seeds: self.data.seeds.clone_map(),
                farmers: self.data.farmers.clone_map(),
                farms: self.data.farms.clone_map(),
                outdated_farms: self.data.outdated_farms.clone_map(),
                nft_balance_seeds: self.data.nft_balance_seeds.clone_map(),
            },
        };
        proof {
            assert(r.data.farms.entries() =~= self.data.farms.entries());
            r.data.farms.lemma_same_entries(&self.data.farms);
            assert(r.data.outdated_farms.entries() =~= self.data.outdated_farms.entries());
            r.data.outdated_farms.lemma_same_entries(&self.data.outdated_farms);
            r.data.seeds.lemma_same_keys(&self.data.seeds);
            r.data.nft_balance_seeds.lemma_same_keys(&self.data.nft_balance_seeds);
            assert forall|k: Seq<char>| #[trigger]
                r.data.nft_balance_seeds@.contains_key(k) implies r.data.nft_balance_seeds@[k]@
                == self.data.nft_balance_seeds@[k]@ && r.data.nft_balance_seeds@[k].wf() by {
                assert(self.data.nft_balance_seeds@.dom().contains(k));
                assert(self.data.nft_balance_seeds@.contains_key(k));
                let i = self.data.nft_balance_seeds.position(k);
                let (a, b) = (
                    self.data.nft_balance_seeds.entries()[i].value,
                    r.data.nft_balance_seeds.entries()[i].value,
                );
                assert(r.data.nft_balance_seeds.entries()[i].key
                    == self.data.nft_balance_seeds.entries()[i].key);
                assert(b.entries() =~= a.entries());
                b.lemma_same_entries(&a);
            }
            assert(r@.nft_balance_seeds =~= self@.nft_balance_seeds);
            r.data.farmers.lemma_same_keys(&self.data.farmers);
            assert(r.spec_farmers() =~= self.spec_farmers());
            assert forall|k: Seq<char>| #[trigger] r.data.seeds@.contains_key(k) implies r.data.seeds@[k]@
                == self.data.seeds@[k]@ && r.data.seeds@[k].wf() by {
                assert(self.data.seeds@.dom().contains(k));
                assert(self.data.seeds@.contains_key(k));
                let i = self.data.seeds.position(k);
                assert(r.data.seeds.entries()[i].key == self.data.seeds.entries()[i].key);
            }
            assert(r@.seeds =~= self@.seeds);
            assert(r@ =~= self@);
            assert forall|i: int| 0 <= i < r.data.farmers.entries().len() implies (
            #[trigger] r.data.farmers.entries()[i]).value.wf() && r.data.farmers.entries()[i].key@
                == r.data.farmers.entries()[i].value@.farmer_id by {
                assert(r.data.farmers.entries()[i].key == self.data.farmers.entries()[i].key);
                assert(self.data.farmers.entries()[i].value.wf());
            }
        }
        r
    }

    /// Who runs the books.
    pub fn owner_id(&self) -> (r: AccountId)
        ensures
            r@ == self@.owner_id,
    {
        self.data.owner_id.clone()
    }

    /// A copy of the record of the farmer `from`, if there is one.
    pub fn get_farmer_wrapped(&self, from: &AccountId) -> (r: Option<Farmer>)
        requires
            self.wf(),
        ensures
            r is Some == has_farmer(self@, from@),
            r is Some ==> r->0@ == self@.farmers[farmer_index(self@, from@)] && r->0.wf()
                && r->0@.farmer_id == from@,
    {
        proof {
            self.lemma_farmer_lookup(from@);
        }
        match self.data.farmers.get_ref(from) {
            Some(kept) => Some(kept.clone().upgrade().get()),
            None => None,
        }
    }

    /// A copy of the record of the farmer `from`; refused where there is
    /// none.
    pub fn get_farmer(&self, from: &AccountId) -> (r: Result<Farmer, FarmingError>)
        requires
            self.wf(),
        ensures
            r is Ok == has_farmer(self@, from@),
            r is Ok ==> r->Ok_0@ == self@.farmers[farmer_index(self@, from@)] && r->Ok_0.wf()
                && r->Ok_0@.farmer_id == from@,
            r is Err ==> r->Err_0 == FarmingError::AccountNotRegistered,
    {
        match self.get_farmer_wrapped(from) {
            Some(farmer) => Ok(farmer),
            None => Err(FarmingError::AccountNotRegistered),
        }
    }

    /// A copy of the record of the farmer `from`, or a new record without
    /// any deposit where there is none.
    pub fn get_farmer_default(&self, from: &AccountId) -> (r: Farmer)
        requires
            self.wf(),
        ensures
            r.wf(),
            r@ == (if has_farmer(self@, from@) {
                self@.farmers[farmer_index(self@, from@)]
            } else {
                FarmerView {
                    farmer_id: from@,
                    amount: 0,
                    rewards: Map::empty(),
                    seeds: Map::empty(),
                    user_rps: Map::empty(),
                    nft_seeds: Map::empty(),
                }
            }),
    {
        match self.get_farmer_wrapped(from) {
            Some(farmer) => farmer,
            None => VersionedFarmer::new(from.clone(), 0).upgrade().get(),
        }
    }

    /// A copy of the record of the seed `seed_id`, if it is on record.
    pub fn get_seed_wrapped(&self, seed_id: &SeedId) -> (r: Option<FarmSeed>)
        requires
            self.wf(),
        ensures
            r is Some == self@.seeds.contains_key(seed_id@),
            r is Some ==> r->0@ == self@.seeds[seed_id@] && r->0.wf(),
    {
        match self.data.seeds.get_ref(seed_id) {
            Some(seed) => Some(seed.clone()),
            None => None,
        }
    }

    /// A copy of the record of the seed `seed_id`; refused where it is not on
    /// record.
    pub fn get_seed(&self, seed_id: &SeedId) -> (r: Result<FarmSeed, FarmingError>)
        requires
            self.wf(),
        ensures
            r is Ok == self@.seeds.contains_key(seed_id@),
            r is Ok ==> r->Ok_0@ == self@.seeds[seed_id@] && r->Ok_0.wf(),
            r is Err ==> r->Err_0 == FarmingError::SeedNotExist,
    {
        match self.get_seed_wrapped(seed_id) {
            Some(seed) => Ok(seed),
            None => Err(FarmingError::SeedNotExist),
        }
    }

    /// A copy of the record of the seed `seed_id`, in the current layout;
    /// refused where it is not on record.
    pub fn get_seed_and_upgrade(&self, seed_id: &SeedId) -> (r: Result<FarmSeed, FarmingError>)
        requires
            self.wf(),
        ensures
            r is Ok == self@.seeds.contains_key(seed_id@),
            r is Ok ==> r->Ok_0@ == self@.seeds[seed_id@] && r->Ok_0.wf(),
            r is Err ==> r->Err_0 == FarmingError::SeedNotExist,
    {
        self.get_seed(seed_id)
    }

    /// Writes the record of the seed `seed_id` anew in the current layout,
    /// which leaves the books to the eye as they were; refused where the
    /// seed is not on record.
    pub fn force_upgrade_seed(&mut self, seed_id: &SeedId) -> (r: Result<(), FarmingError>)
        requires
            old(self).wf(),
        ensures
            final(self).wf(),
            final(self)@ == old(self)@,
            r is Ok == old(self)@.seeds.contains_key(seed_id@),
            r is Err ==> r->Err_0 == FarmingError::SeedNotExist,
    {
        let seed = match self.get_seed_and_upgrade(seed_id) {
            Err(e) => {
                return Err(e);
            },
            Ok(seed) => seed,
        };
        self.data.seeds.insert(seed_id.clone(), seed);
        proof {
            assert(self@.seeds =~= old(self)@.seeds);
            assert(self@ =~= old(self)@);
        }
        Ok(())
    }

    /// Whether the deposit of the farmer `account_id` pays for the storage of
    /// the farmer's record.
    pub fn assert_storage_usage(&self, account_id: &AccountId) -> (r: Result<(), FarmingError>)
        requires
            self.wf(),
        ensures
            r == (if !has_farmer(self@, account_id@) {
                Err::<(), FarmingError>(FarmingError::AccountNotRegistered)
            } else if !self@.farmers[farmer_index(self@, account_id@)].spec_storage_covered() {
                Err(FarmingError::InsufficientStorage)
            } else {
                Ok(())
            }),
    {
        proof {
            self.lemma_farmer_lookup(account_id@);
        }
        match self.data.farmers.get_ref(account_id) {
            None => Err(FarmingError::AccountNotRegistered),
            Some(kept) => if kept.get_ref().storage_covered() {
                Ok(())
            } else {
                Err(FarmingError::InsufficientStorage)
            },
        }
    }

    /// Puts a changed copy of a farmer's record in the place of the record.
    pub(crate) fn store_farmer(&mut self, farmer: Farmer)
        requires
            old(self).stores_wf(),
            inv_records(old(self)@),
            has_farmer(old(self)@, farmer@.farmer_id),
            farmer.wf(),
        ensures
            final(self).stores_wf(),
            final(self)@ == (ContractView {
                seeds: old(self)@.seeds,
                farmers: old(self)@.farmers.update(
                    farmer_index(old(self)@, farmer@.farmer_id),
                    farmer@,
                ),
                farms: old(self)@.farms,
                outdated_farms: old(self)@.outdated_farms,
                nft_balance_seeds: old(self)@.nft_balance_seeds,
                owner_id: old(self)@.owner_id,
            }),
    {
        proof {
            self.lemma_farmer_lookup(farmer@.farmer_id);
        }
        let ghost p = self.data.farmers.position(farmer@.farmer_id);
        let key = farmer.farmer_id.clone();
        self.data.farmers.insert(key, VersionedFarmer::V101(farmer));
        proof {
            assert(self.spec_farmers() =~= old(self).spec_farmers().update(p, farmer@));
            assert(self@ =~= (ContractView {
                seeds: old(self)@.seeds,
                farmers: old(self)@.farmers.update(p, farmer@),
                farms: old(self)@.farms,
                outdated_farms: old(self)@.outdated_farms,
                nft_balance_seeds: old(self)@.nft_balance_seeds,
                owner_id: old(self)@.owner_id,
            }));
        }
    }

    /// Takes a new farmer with a deposit of `amount`. Refused where the
    /// account has a record already.
    pub fn internal_register_account(&mut self, account_id: &AccountId, amount: Balance) -> (r:
        Result<(), FarmingError>)
        requires
            old(self).wf(),
        ensures
            final(self).wf(),
            match spec_register_account(old(self)@, account_id@, amount) {
                Ok(c) => r is Ok && final(self)@ == c,
                Err(e) => r == Err::<(), FarmingError>(e) && final(self)@ == old(self)@,
            },
    {
        proof {
            self.lemma_farmer_lookup(account_id@);
        }
        if self.data.farmers.contains_key(account_id) {
            return Err(FarmingError::AccountAlreadyRegistered);
        }
        let farmer = VersionedFarmer::new(account_id.clone(), amount);
        let ghost fresh = farmer@;
        self.data.farmers.insert(account_id.clone(), farmer);
        proof {
            assert(fresh =~= (FarmerView {
                farmer_id: account_id@,
                nft_seeds: Map::empty(),
                amount,
                rewards: Map::empty(),
                seeds: Map::empty(),
                user_rps: Map::empty(),
            }));
            assert(self.spec_farmers() =~= old(self).spec_farmers().push(fresh));
            assert(self@ =~= spec_register_account(old(self)@, account_id@, amount)->Ok_0);
            lemma_register_account(old(self)@, account_id@, amount);
        }
        Ok(())
    }

    /// Puts a changed copy of a farm's record in the place of the record.
    pub(crate) fn store_farm(&mut self, farm: Farm)
        requires
            old(self).stores_wf(),
            old(self)@.farms.contains_key(farm.farm_id@),
        ensures
            final(self).stores_wf(),
            final(self)@ == (ContractView {
                seeds: old(self)@.seeds,
                farmers: old(self)@.farmers,
                farms: old(self)@.farms.insert(farm.farm_id@, farm),
                outdated_farms: old(self)@.outdated_farms,
                nft_balance_seeds: old(self)@.nft_balance_seeds,
                owner_id: old(self)@.owner_id,
            }),
    {
        let key = farm.farm_id.clone();
        self.data.farms.insert(key, farm);
        proof {
            assert(self@ =~= (ContractView {
                seeds: old(self)@.seeds,
                farmers: old(self)@.farmers,
                farms: old(self)@.farms.insert(farm.farm_id@, farm),
                outdated_farms: old(self)@.outdated_farms,
                nft_balance_seeds: old(self)@.nft_balance_seeds,
                owner_id: old(self)@.owner_id,
            }));
        }
    }

    /// A copy of all farms at work.
    pub(crate) fn load_farms(&self) -> (farms: StrMap<Farm>)
        requires
            self.stores_wf(),
        ensures
            farms.wf(),
            farms@ == self@.farms,
    {
        let farms = self.data.farms.clone_map();
        proof {
            assert(farms.entries() =~= self.data.farms.entries());
            farms.lemma_same_entries(&self.data.farms);
        }
        farms
    }

    /// Puts changed copies of the farms and of a farmer's record in the
    /// place of the records.
    pub(crate) fn store_work(&mut self, farms: StrMap<Farm>, farmer: Farmer)
        requires
            old(self).stores_wf(),
            inv_records(old(self)@),
            has_farmer(old(self)@, farmer@.farmer_id),
            farmer.wf(),
            farms.wf(),
        ensures
            final(self).stores_wf(),
            final(self)@ == spec_work(
                old(self)@,
                farms@,
                farmer_index(old(self)@, farmer@.farmer_id),
                farmer@,
            ),
    {
        let ghost fi = farmer_index(self@, farmer@.farmer_id);
        self.store_farmer(farmer);
        self.data.farms = farms;
        proof {
            assert(self@ =~= spec_work(old(self)@, farms@, fi, farmer@));
        }
    }

}

} // verus!
