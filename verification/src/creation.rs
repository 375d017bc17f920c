//! Creating farms and funding them.
//!
//! A farm gets its name from its seed: the seed's name, a `#`, and the next
//! number that the seed has to give. No two farms ever share a name, so
//! nothing that a farmer noted of one farm is taken for another.

use vstd::prelude::*;
use crate::books::{
    inv, inv_debts, inv_links, inv_names, inv_records, inv_totals, lemma_farm_replaced, numbered,
    spec_names,
};
use crate::contract::Contract;
use crate::errors::FarmingError;
use crate::farm::{Farm, FarmStatus, FarmTerms, HRFarmTerms};
use crate::farm_seed::{FarmSeed, FarmSeedView, SeedType};
use crate::model::{ContractView, covered, debts, stakes, total_stake};
use crate::sums::lemma_sum_zeros;
use crate::types::{AccountId, Balance, DENOM, FarmId, NftBalance, TimestampSec};
use crate::utils::{MIN_SEED_DEPOSIT, gen_farm_id, lemma_gen_farm_id_injective, spec_gen_farm_id};

verus! {

/// The record of the seed `seed_id` as a new farm finds it: the record on
/// the books, or a new one with nothing staked and no farms.
pub open spec fn spec_seed_or_new(
    c: ContractView,
    seed_id: Seq<char>,
    min_deposit: Balance,
    is_nft_balance: bool,
) -> FarmSeedView {
    if c.seeds.contains_key(seed_id) {
        c.seeds[seed_id]
    } else {
        FarmSeedView {
            seed_id,
            seed_type: if is_nft_balance {
                SeedType::NFT
            } else {
                SeedType::FT
            },
            farms: Seq::empty(),
            next_index: 0,
            amount: 0,
            min_deposit,
        }
    }
}

/// Why no farm with these terms can be added: a session has no length, or
/// the seed has no number left to give.
pub open spec fn spec_add_farm_refused(
    c: ContractView,
    terms: FarmTerms,
    min_deposit: Balance,
    is_nft_balance: bool,
) -> Option<FarmingError> {
    if terms.session_interval == 0 {
        Some(FarmingError::InvalidFarmTerms)
    } else if spec_seed_or_new(c, terms.seed_id@, min_deposit, is_nft_balance).next_index
        == u32::MAX {
        Some(FarmingError::Overflow)
    } else {
        None
    }
}

/// Whether `farm` is a farm just created under the name `farm_id` with the
/// given terms: it holds nothing and has released nothing.
pub open spec fn spec_fresh_farm(farm: Farm, farm_id: Seq<char>, terms: FarmTerms) -> bool {
    &&& farm.farm_id@ == farm_id
    &&& farm.terms == terms
    &&& farm.status == FarmStatus::Created
    &&& farm.last_distribution.undistributed == 0
    &&& farm.last_distribution.unclaimed == 0
    &&& farm.last_distribution.rps@ == 0
    &&& farm.last_distribution.rr == 0
    &&& farm.amount_of_reward == 0
    &&& farm.amount_of_claimed == 0
    &&& farm.amount_of_beneficiary == 0
}

/// Whether `d` is the books `c` with one farm more, created with the given
/// terms. The farm gets the seed's next number for its name; the seed,
/// which is put on record if it was not, lists the farm and moves its
/// number on.
pub open spec fn spec_added_farm(
    c: ContractView,
    d: ContractView,
    terms: FarmTerms,
    min_deposit: Balance,
    is_nft_balance: bool,
) -> bool {
    let seed = spec_seed_or_new(c, terms.seed_id@, min_deposit, is_nft_balance);
    let farm_id = spec_gen_farm_id(terms.seed_id@, seed.next_index as nat);
    &&& d.seeds == c.seeds.insert(
        terms.seed_id@,
        FarmSeedView {
            seed_id: seed.seed_id,
            seed_type: seed.seed_type,
            farms: seed.farms.push(farm_id),
            next_index: (seed.next_index + 1) as u32,
            amount: seed.amount,
            min_deposit: seed.min_deposit,
        },
    )
    &&& d.owner_id == c.owner_id
    &&& d.farmers == c.farmers
    &&& d.outdated_farms == c.outdated_farms
    &&& d.farms == c.farms.insert(farm_id, d.farms[farm_id])
    &&& spec_fresh_farm(d.farms[farm_id], farm_id, terms)
    &&& (d.nft_balance_seeds == c.nft_balance_seeds || (!c.seeds.contains_key(terms.seed_id@)
        && is_nft_balance))
}

/// The table of stakes as it stands after a farm was created: where the
/// seed came on record with the farm and a table came with it, the table is
/// kept for the seed.
pub open spec fn spec_added_table(
    c: ContractView,
    seed_id: Seq<char>,
    nft_balance: Option<Map<Seq<char>, Balance>>,
) -> Map<Seq<char>, Map<Seq<char>, Balance>> {
    if !c.seeds.contains_key(seed_id) && nft_balance is Some {
        c.nft_balance_seeds.insert(seed_id, nft_balance->0)
    } else {
        c.nft_balance_seeds
    }
}

/// The name of the farm that is created next under the seed `seed_id`.
pub open spec fn spec_next_farm_id(c: ContractView, seed_id: Seq<char>) -> Seq<char> {
    spec_gen_farm_id(seed_id, spec_seed_or_new(c, seed_id, 0, false).next_index as nat)
}

/// The books after `amount` of the token `reward_token` was put into the
/// farm `farm_id` at time `now`, or why the reward is not taken: there is no
/// such farm, it pays in another token, or it accepts no reward.
pub open spec fn spec_deposit_reward(
    c: ContractView,
    farm_id: Seq<char>,
    reward_token: Seq<char>,
    amount: Balance,
    now: TimestampSec,
) -> Result<ContractView, FarmingError> {
    if !c.farms.contains_key(farm_id) {
        Err(FarmingError::FarmNotExist)
    } else if c.farms[farm_id].terms.reward_token@ != reward_token {
        Err(FarmingError::InvalidFarmReward)
    } else if !c.farms[farm_id].spec_accepts_reward(amount, now) {
        Err(FarmingError::InvalidFarmStatus)
    } else {
        Ok(
            ContractView {
                seeds: c.seeds,
                farmers: c.farmers,
                farms: c.farms.insert(farm_id, c.farms[farm_id].spec_add_reward(amount, now)),
                outdated_farms: c.outdated_farms,
                nft_balance_seeds: c.nft_balance_seeds,
                owner_id: c.owner_id,
            },
        )
    }
}

/// The name that a seed gives out next is the name of no farm, cleared away
/// or not; no farmer has settled under it, and no seed lists it.
pub proof fn lemma_fresh_name(
    c: ContractView,
    seed_id: Seq<char>,
    min_deposit: Balance,
    is_nft_balance: bool,
)
    requires
        inv(c),
    ensures
        ({
            let seed = spec_seed_or_new(c, seed_id, min_deposit, is_nft_balance);
            let farm_id = spec_gen_farm_id(seed_id, seed.next_index as nat);
            &&& !c.farms.contains_key(farm_id)
            &&& !c.outdated_farms.contains_key(farm_id)
            &&& !seed.farms.contains(farm_id)
            &&& forall|i: int|
                0 <= i < c.farmers.len() ==> !(#[trigger] c.farmers[i]).user_rps.contains_key(
                    farm_id,
                )
        }),
{
    let seed = spec_seed_or_new(c, seed_id, min_deposit, is_nft_balance);
    let farm_id = spec_gen_farm_id(seed_id, seed.next_index as nat);
    if c.farms.contains_key(farm_id) {
        let farm = c.farms[farm_id];
        assert(spec_names(c.seeds, farm));
        let other = farm.terms.seed_id@;
        let n = choose|n: nat|
            n < c.seeds[other].next_index && #[trigger] numbered(farm.farm_id@, other, n);
        lemma_gen_farm_id_injective(seed_id, seed.next_index as nat, other, n);
        assert(false);
    }
    if c.outdated_farms.contains_key(farm_id) {
        let farm = c.outdated_farms[farm_id];
        assert(spec_names(c.seeds, farm));
        let other = farm.terms.seed_id@;
        let n = choose|n: nat|
            n < c.seeds[other].next_index && #[trigger] numbered(farm.farm_id@, other, n);
        lemma_gen_farm_id_injective(seed_id, seed.next_index as nat, other, n);
        assert(false);
    }
    if seed.farms.contains(farm_id) {
        assert(c.seeds.contains_key(seed_id));
        assert(c.farms.contains_key(farm_id));
    }
    assert forall|i: int| 0 <= i < c.farmers.len() implies !(
    #[trigger] c.farmers[i]).user_rps.contains_key(farm_id) by {
        if c.farmers[i].user_rps.contains_key(farm_id) {
            assert(c.farms.contains_key(farm_id) || c.outdated_farms.contains_key(farm_id));
        }
    }
}

/// A farm that had a name from its seed still has one after the seed
/// `seed_id` moved its number on, or came on record.
proof fn lemma_names_kept(c: ContractView, d: ContractView, farm: Farm, seed_id: Seq<char>)
    requires
        spec_names(c.seeds, farm),
        d.seeds.contains_key(seed_id),
        forall|s: Seq<char>| c.seeds.contains_key(s) ==> #[trigger] d.seeds.contains_key(s),
        forall|s: Seq<char>|
            c.seeds.contains_key(s) ==> c.seeds[s].next_index <= (
            #[trigger] d.seeds[s]).next_index,
    ensures
        spec_names(d.seeds, farm),
{
    let s = farm.terms.seed_id@;
    let n = choose|n: nat| n < c.seeds[s].next_index && #[trigger] numbered(farm.farm_id@, s, n);
    assert(d.seeds.contains_key(s));
    assert(n < d.seeds[s].next_index && numbered(farm.farm_id@, s, n));
}

/// A new farm keeps all that holds of the books: it owes nobody, for nobody
/// has settled under its name before.
pub proof fn lemma_added_farm(
    c: ContractView,
    d: ContractView,
    terms: FarmTerms,
    min_deposit: Balance,
    is_nft_balance: bool,
)
    requires
        inv(c),
        spec_add_farm_refused(c, terms, min_deposit, is_nft_balance) is None,
        spec_added_farm(c, d, terms, min_deposit, is_nft_balance),
    ensures
        inv(d),
{
    let seed_id = terms.seed_id@;
    let seed = spec_seed_or_new(c, seed_id, min_deposit, is_nft_balance);
    let farm_id = spec_gen_farm_id(seed_id, seed.next_index as nat);
    let farm = d.farms[farm_id];
    lemma_fresh_name(c, seed_id, min_deposit, is_nft_balance);
    assert(farm.wf()) by {
        assert(DENOM * (farm.amount_of_reward - farm.last_distribution.undistributed) == 0);
    }
    assert(d.seeds[seed_id].farms =~= seed.farms.push(farm_id));
    assert(inv_records(d)) by {
        assert forall|k: Seq<char>| #[trigger] d.farms.contains_key(k) implies d.farms[k].farm_id@
            == k && d.farms[k].wf() by {
            if k != farm_id {
                assert(c.farms.contains_key(k));
            }
        }
        assert forall|k: Seq<char>| #[trigger] d.seeds.contains_key(k) implies d.seeds[k].seed_id
            == k && d.seeds[k].farms.no_duplicates() by {
            if k != seed_id {
                assert(c.seeds.contains_key(k));
            } else {
                if c.seeds.contains_key(k) {
                    assert(seed.farms.no_duplicates());
                }
                let list = d.seeds[k].farms;
                assert forall|i: int, j: int|
                    0 <= i < list.len() && 0 <= j < list.len() && i != j implies list[i]
                    != list[j] by {
                    if i < seed.farms.len() && j < seed.farms.len() {
                        assert(seed.farms[i] != seed.farms[j]);
                    } else if i < seed.farms.len() {
                        assert(seed.farms.contains(seed.farms[i]));
                    } else if j < seed.farms.len() {
                        assert(seed.farms.contains(seed.farms[j]));
                    }
                }
            }
        }
    }
    assert(inv_links(d)) by {
        assert forall|k: Seq<char>| #[trigger] d.farms.contains_key(k) implies d.seeds.contains_key(
            d.farms[k].terms.seed_id@,
        ) && d.seeds[d.farms[k].terms.seed_id@].farms.contains(k) by {
            if k == farm_id {
                assert(d.seeds[seed_id].farms[seed.farms.len() as int] == farm_id);
            } else {
                assert(c.farms.contains_key(k));
                let s = c.farms[k].terms.seed_id@;
                assert(c.seeds[s].farms.contains(k));
                if s == seed_id {
                    let i = choose|i: int| 0 <= i < seed.farms.len() && seed.farms[i] == k;
                    assert(d.seeds[seed_id].farms[i] == k);
                }
            }
        }
        assert forall|s: Seq<char>, k: Seq<char>|
            d.seeds.contains_key(s) && #[trigger] d.seeds[s].farms.contains(
                k,
            ) implies d.farms.contains_key(k) && d.farms[k].terms.seed_id@ == s by {
            if s == seed_id {
                let i = choose|i: int|
                    0 <= i < d.seeds[s].farms.len() && d.seeds[s].farms[i] == k;
                if i < seed.farms.len() {
                    assert(seed.farms[i] == k);
                    assert(seed.farms.contains(k));
                    assert(c.seeds.contains_key(s));
                    assert(c.seeds[s].farms.contains(k));
                }
            } else {
                assert(c.seeds[s].farms.contains(k));
            }
        }
    }
    assert(inv_names(d)) by {
        assert forall|k: Seq<char>| #[trigger] d.farms.contains_key(k) implies spec_names(
            d.seeds,
            d.farms[k],
        ) by {
            if k == farm_id {
                assert(numbered(farm.farm_id@, seed_id, seed.next_index as nat));
            } else {
                assert(c.farms.contains_key(k));
                lemma_names_kept(c, d, c.farms[k], seed_id);
            }
        }
        assert forall|k: Seq<char>| #[trigger]
            d.outdated_farms.contains_key(k) implies spec_names(d.seeds, d.outdated_farms[k]) by {
            assert(c.outdated_farms.contains_key(k));
            lemma_names_kept(c, d, c.outdated_farms[k], seed_id);
        }
        assert forall|i: int, k: Seq<char>|
            0 <= i < d.farmers.len() && #[trigger] d.farmers[i].user_rps.contains_key(
                k,
            ) implies d.farms.contains_key(k) || d.outdated_farms.contains_key(k) by {
            assert(c.farmers[i].user_rps.contains_key(k));
        }
    }
    assert(inv_totals(d)) by {
        assert forall|s: Seq<char>| #[trigger] d.seeds.contains_key(s) implies d.seeds[s].amount
            == total_stake(d.farmers, s) by {
            if s == seed_id && !c.seeds.contains_key(s) {
                let st = stakes(c.farmers, s);
                assert forall|i: int| 0 <= i < st.len() implies st[i] == 0 by {
                    if c.farmers[i].seeds.contains_key(s) {
                        assert(c.seeds.contains_key(s));
                    }
                }
                lemma_sum_zeros(st);
            } else {
                assert(c.seeds.contains_key(s));
            }
        }
        assert forall|i: int, s: Seq<char>|
            0 <= i < d.farmers.len() && #[trigger] d.farmers[i].seeds.contains_key(
                s,
            ) implies d.seeds.contains_key(s) by {
            assert(c.farmers[i].seeds.contains_key(s));
        }
    }
    assert(inv_debts(d)) by {
        assert forall|k: Seq<char>| #[trigger] d.farms.contains_key(k) implies covered(
            d.farmers,
            d.farms[k],
        ) by {
            if k == farm_id {
                let due = debts(d.farmers, farm);
                assert forall|i: int| 0 <= i < due.len() implies due[i] == 0 by {
                    assert(!c.farmers[i].user_rps.contains_key(farm_id));
                    let stake = d.farmers[i].spec_stake(farm.terms.seed_id@) as int;
                    assert(stake * 0 == 0);
                }
                lemma_sum_zeros(due);
                assert(DENOM * 0 == 0);
            } else {
                assert(c.farms.contains_key(k));
            }
        }
    }
}

impl Contract {
    /// Creates a farm with the given terms and returns its name. The farm
    /// gets the next number of its seed. A seed not yet on record is put
    /// there, with `min_deposit` as the least deposit it takes; it is a seed
    /// of non-fungible tokens where a table of their stakes comes with it, and
    /// the table is then kept for it.
    ///
    /// Refused where a session has no length, or the seed has no number left
    /// to give.
    pub fn internal_add_farm(
        &mut self,
        terms: &HRFarmTerms,
        min_deposit: Balance,
        nft_balance: Option<NftBalance>,
    ) -> (r: Result<FarmId, FarmingError>)
        requires
            old(self).wf(),
            nft_balance is Some ==> nft_balance->0.wf(),
        ensures
            final(self).wf(),
            match spec_add_farm_refused(
                old(self)@,
                terms.spec_terms(),
                min_deposit,
                nft_balance is Some,
            ) {
                Some(e) => r == Err::<FarmId, FarmingError>(e) && final(self)@ == old(self)@,
                None => {
                    &&& r is Ok
                    &&& r->Ok_0@ == spec_next_farm_id(old(self)@, terms.seed_id@)
                    &&& spec_added_farm(
                        old(self)@,
                        final(self)@,
                        terms.spec_terms(),
                        min_deposit,
                        nft_balance is Some,
                    )
                    &&& final(self)@.nft_balance_seeds == spec_added_table(
                        old(self)@,
                        terms.seed_id@,
                        match nft_balance {
                            Some(table) => Some(table@),
                            None => None,
                        },
                    )
                },
            },
    {
        if terms.session_interval == 0 {
            return Err(FarmingError::InvalidFarmTerms);
        }
        let is_nft_balance: bool = nft_balance.is_some();
        let known: bool = self.data.seeds.contains_key(&terms.seed_id);
        let mut farm_seed = match self.data.seeds.get_ref(&terms.seed_id) {
            Some(seed) => seed.clone(),
            None => FarmSeed::new(&terms.seed_id, min_deposit, is_nft_balance),
        };
        let ghost seed = spec_seed_or_new(old(self)@, terms.seed_id@, min_deposit, is_nft_balance);
        assert(farm_seed@ == seed);
        if farm_seed.next_index == u32::MAX {
            return Err(FarmingError::Overflow);
        }
        let farm_id = gen_farm_id(&terms.seed_id, farm_seed.next_index as usize);
        let farm = Farm::new(farm_id.clone(), FarmTerms::from(terms));
        proof {
            lemma_fresh_name(old(self)@, terms.seed_id@, min_deposit, is_nft_balance);
            farm_seed.farms.lemma_keys();
        }
        farm_seed.farms.insert(farm_id.clone());
        farm_seed.next_index = farm_seed.next_index + 1;
        let ghost tables = self@.nft_balance_seeds;
        if !known {
            if let Some(table) = nft_balance {
                self.data.nft_balance_seeds.insert(terms.seed_id.clone(), table);
                proof {
                    assert(self@.nft_balance_seeds =~= tables.insert(terms.seed_id@, table@));
                }
            }
        }
        self.data.seeds.insert(terms.seed_id.clone(), farm_seed);
        self.data.farms.insert(farm_id.clone(), farm);
        proof {
            let d = self@;
            let c = old(self)@;
            assert(d.seeds =~= c.seeds.insert(terms.seed_id@, farm_seed@));
            assert(d.farms =~= c.farms.insert(farm_id@, d.farms[farm_id@]));
            assert(spec_added_farm(c, d, terms.spec_terms(), min_deposit, is_nft_balance));
            lemma_added_farm(c, d, terms.spec_terms(), min_deposit, is_nft_balance);
        }
        Ok(farm_id)
    }

    /// Creates a farm with the given terms and returns its name, as
    /// `internal_add_farm` does. A seed not yet on record takes deposits of
    /// `min_deposit` or more; of `MIN_SEED_DEPOSIT` or more where none is
    /// given.
    pub fn create_simple_farm(
        &mut self,
        terms: &HRFarmTerms,
        min_deposit: Option<Balance>,
        nft_balance: Option<NftBalance>,
    ) -> (r: Result<FarmId, FarmingError>)
        requires
            old(self).wf(),
            nft_balance is Some ==> nft_balance->0.wf(),
        ensures
            final(self).wf(),
            match spec_add_farm_refused(
                old(self)@,
                terms.spec_terms(),
                min_deposit.unwrap_or(MIN_SEED_DEPOSIT),
                nft_balance is Some,
            ) {
                Some(e) => r == Err::<FarmId, FarmingError>(e) && final(self)@ == old(self)@,
                None => {
                    &&& r is Ok
                    &&& r->Ok_0@ == spec_next_farm_id(old(self)@, terms.seed_id@)
                    &&& spec_added_farm(
                        old(self)@,
                        final(self)@,
                        terms.spec_terms(),
                        min_deposit.unwrap_or(MIN_SEED_DEPOSIT),
                        nft_balance is Some,
                    )
                    &&& final(self)@.nft_balance_seeds == spec_added_table(
                        old(self)@,
                        terms.seed_id@,
                        match nft_balance {
                            Some(table) => Some(table@),
                            None => None,
                        },
                    )
                },
            },
    {
        let least: u128 = match min_deposit {
            Some(x) => x,
            None => MIN_SEED_DEPOSIT,
        };
        self.internal_add_farm(terms, least, nft_balance)
    }

    /// Puts `amount` of the token `reward_token` into the farm `farm_id` at
    /// time `now`, and returns the undistributed reward that the farm then
    /// holds.
    ///
    /// Refused where there is no such farm, the farm pays in another token,
    /// or the farm accepts no reward.
    pub fn deposit_reward(
        &mut self,
        farm_id: &FarmId,
        reward_token: &AccountId,
        amount: Balance,
        now: TimestampSec,
    ) -> (r: Result<Balance, FarmingError>)
        requires
            old(self).wf(),
        ensures
            final(self).wf(),
            match spec_deposit_reward(old(self)@, farm_id@, reward_token@, amount, now) {
                Ok(c) => r is Ok && final(self)@ == c && r->Ok_0
                    == c.farms[farm_id@].last_distribution.undistributed,
                Err(e) => r == Err::<Balance, FarmingError>(e) && final(self)@ == old(self)@,
            },
    {
        let mut farm = match self.data.farms.get_ref(farm_id) {
            Some(found) => found.clone(),
            None => {
                return Err(FarmingError::FarmNotExist);
            },
        };
        if farm.terms.reward_token != *reward_token {
            return Err(FarmingError::InvalidFarmReward);
        }
        match farm.add_reward(&amount, now) {
            None => Err(FarmingError::InvalidFarmStatus),
            Some(remain) => {
                proof {
                    lemma_farm_replaced(old(self)@, farm_id@, farm);
                }
                self.store_farm(farm);
                Ok(remain)
            },
        }
    }
}

} // verus!
