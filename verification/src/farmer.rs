//! A farmer's record: the seeds staked, the rewards claimed and not yet
//! withdrawn, and, for each farm, the reward per seed at which the farmer last
//! settled with it.

use vstd::prelude::*;
use crate::errors::FarmingError;
use crate::str_map::{StrMap, StrSet};
use crate::types::{AccountId, Balance, ContractNFTTokenId, FarmId, RPS, SeedId};
use crate::utils::contract_nft_token_id;
use crate::wide::U256;

verus! {

/// The bytes that a record without any entry takes: an account's name of the
/// greatest length, 16 bytes of deposit, and three empty tables of 4 bytes.
pub const MIN_FARMER_LENGTH: u128 = 92;

/// The bytes that one balance takes: 4 bytes of length, a name of the
/// greatest length, 16 bytes of amount.
pub const BALANCE_ENTRY_LENGTH: u128 = 84;

/// The bytes that one farm's reward per seed takes: a key of 5 bytes and two
/// names of the greatest length, and 32 bytes of number.
pub const RPS_ENTRY_LENGTH: u128 = 165;

/// The price of one byte of storage, as `near_sdk::env::storage_byte_cost`
/// gives it: the constant ten to the power 19, read from no state.
pub assume_specification[ near_sdk::env::storage_byte_cost ]() -> (cost: u128)
    ensures
        cost == 10_000_000_000_000_000_000u128,
;

/// The price of one byte of storage.
pub open spec fn spec_storage_byte_cost() -> nat {
    10_000_000_000_000_000_000
}

/// One farmer's record.
pub struct Farmer {
    pub farmer_id: AccountId,
    /// The deposit that pays for the storage of this record.
    pub amount: Balance,
    /// Rewards claimed and not yet withdrawn, by reward token.
    pub rewards: StrMap<Balance>,
    /// Stake, by seed.
    pub seeds: StrMap<Balance>,
    /// The reward per seed at which the farmer last settled, by farm.
    pub user_rps: StrMap<RPS>,
    /// The non-fungible tokens staked, by seed.
    pub nft_seeds: StrMap<StrSet>,
}

/// A farmer's record to the eye: each table as a mathematical map.
#[verifier::ext_equal]
pub struct FarmerView {
    pub farmer_id: Seq<char>,
    pub amount: Balance,
    pub rewards: Map<Seq<char>, Balance>,
    pub seeds: Map<Seq<char>, Balance>,
    pub user_rps: Map<Seq<char>, RPS>,
    pub nft_seeds: Map<Seq<char>, Set<Seq<char>>>,
}

impl FarmerView {
    /// The farmer's stake of a seed; nothing where none is recorded.
    pub open spec fn spec_stake(&self, seed_id: Seq<char>) -> Balance {
        if self.seeds.contains_key(seed_id) {
            self.seeds[seed_id]
        } else {
            0
        }
    }

    /// The farmer's claimed balance of a reward token.
    pub open spec fn spec_reward(&self, token: Seq<char>) -> Balance {
        if self.rewards.contains_key(token) {
            self.rewards[token]
        } else {
            0
        }
    }

    /// The reward per seed at which the farmer last settled with a farm;
    /// zero where the farmer never did.
    pub open spec fn spec_rps(&self, farm_id: Seq<char>) -> RPS {
        if self.user_rps.contains_key(farm_id) {
            self.user_rps[farm_id]
        } else {
            U256 { hi: 0, lo: 0 }
        }
    }

    /// The bytes that the record takes.
    pub open spec fn spec_storage_bytes(&self) -> nat {
        (MIN_FARMER_LENGTH + self.rewards.dom().len() * BALANCE_ENTRY_LENGTH
            + self.seeds.dom().len() * BALANCE_ENTRY_LENGTH + self.user_rps.dom().len()
            * RPS_ENTRY_LENGTH) as nat
    }

    /// The price of the storage that the record takes.
    pub open spec fn spec_storage_usage(&self) -> nat {
        self.spec_storage_bytes() * spec_storage_byte_cost()
    }

    /// Whether the farmer's deposit pays for the storage of the record.
    pub open spec fn spec_storage_covered(&self) -> bool {
        self.spec_storage_usage() <= self.amount
    }

    /// Whether the farmer has staked the token `id` under the seed
    /// `seed_id`.
    pub open spec fn spec_holds_nft(&self, seed_id: Seq<char>, id: Seq<char>) -> bool {
        self.nft_seeds.contains_key(seed_id) && self.nft_seeds[seed_id].contains(id)
    }

    /// The farmer with the token `id` noted as staked under the seed
    /// `seed_id`.
    pub open spec fn spec_with_nft(&self, seed_id: Seq<char>, id: Seq<char>) -> FarmerView {
        FarmerView {
            farmer_id: self.farmer_id,
            amount: self.amount,
            rewards: self.rewards,
            seeds: self.seeds,
            user_rps: self.user_rps,
            nft_seeds: self.nft_seeds.insert(
                seed_id,
                if self.nft_seeds.contains_key(seed_id) {
                    self.nft_seeds[seed_id].insert(id)
                } else {
                    Set::<Seq<char>>::empty().insert(id)
                },
            ),
        }
    }

    /// The farmer with the token `id` struck from those staked under the
    /// seed `seed_id`.
    pub open spec fn spec_without_nft(&self, seed_id: Seq<char>, id: Seq<char>) -> FarmerView {
        FarmerView {
            farmer_id: self.farmer_id,
            amount: self.amount,
            rewards: self.rewards,
            seeds: self.seeds,
            user_rps: self.user_rps,
            nft_seeds: if self.nft_seeds.contains_key(seed_id) {
                self.nft_seeds.insert(seed_id, self.nft_seeds[seed_id].remove(id))
            } else {
                self.nft_seeds
            },
        }
    }
}

impl View for Farmer {
    type V = FarmerView;

    open spec fn view(&self) -> FarmerView {
        FarmerView {
            farmer_id: self.farmer_id@,
            amount: self.amount,
            rewards: self.rewards@,
            seeds: self.seeds@,
            user_rps: self.user_rps@,
            nft_seeds: self.nft_seeds@.map_values(|s: StrSet| s@),
        }
    }
}

impl Clone for Farmer {
    fn clone(&self) -> (r: Self)
        ensures
            self.wf() ==> r@ == self@ && r.wf(),
    {
        let r = Farmer {
            farmer_id: self.farmer_id.clone(),
            amount: self.amount,
            rewards: self.rewards.clone_map(),
            seeds: self.seeds.clone_map(),
            user_rps: self.user_rps.clone_map(),
            nft_seeds: self.nft_seeds.clone_map(),
        };
        proof {
            assert(r.rewards.entries() =~= self.rewards.entries());
            assert(r.seeds.entries() =~= self.seeds.entries());
            assert(r.user_rps.entries() =~= self.user_rps.entries());
            r.rewards.lemma_same_entries(&self.rewards);
            r.seeds.lemma_same_entries(&self.seeds);
            r.user_rps.lemma_same_entries(&self.user_rps);
            r.nft_seeds.lemma_same_keys(&self.nft_seeds);
            if self.nft_seeds.distinct() {
                assert forall|k: Seq<char>| #[trigger] r.nft_seeds@.contains_key(k) implies r.nft_seeds@[k]@
                    == self.nft_seeds@[k]@ && r.nft_seeds@[k].wf() == self.nft_seeds@[k].wf() by {
                    assert(self.nft_seeds@.dom().contains(k));
                    assert(self.nft_seeds@.contains_key(k));
                    let i = self.nft_seeds.position(k);
                    assert(r.nft_seeds.entries()[i].key == self.nft_seeds.entries()[i].key);
                }
                assert(r@.nft_seeds =~= self@.nft_seeds);
            }
        }
        r
    }
}

impl Farmer {
    /// No table of the record holds a key twice.
    pub open spec fn wf(&self) -> bool {
        &&& self.rewards.wf()
        &&& self.seeds.wf()
        &&& self.user_rps.wf()
        &&& self.nft_seeds.wf()
        &&& forall|k: Seq<char>| #[trigger]
            self.nft_seeds@.contains_key(k) ==> self.nft_seeds@[k].wf()
    }

    /// The farmer's stake of a seed; nothing where none is recorded.
    pub open spec fn spec_stake(&self, seed_id: Seq<char>) -> nat {
        self@.spec_stake(seed_id) as nat
    }

    /// The farmer's claimed balance of a reward token.
    pub open spec fn spec_reward(&self, token: Seq<char>) -> nat {
        self@.spec_reward(token) as nat
    }

    /// The reward per seed at which the farmer last settled with a farm;
    /// zero where the farmer never did.
    pub open spec fn spec_rps(&self, farm_id: Seq<char>) -> nat {
        self@.spec_rps(farm_id)@
    }

    /// The bytes that the record takes.
    pub open spec fn spec_storage_bytes(&self) -> nat {
        self@.spec_storage_bytes()
    }

    /// The price of the storage that the record takes.
    pub open spec fn spec_storage_usage(&self) -> nat {
        self@.spec_storage_usage()
    }

    /// A record for `farmer_id` with a deposit of `amount` and no entries.
    pub fn new(farmer_id: AccountId, amount: Balance) -> (farmer: Self)
        ensures
            farmer.wf(),
            farmer.farmer_id == farmer_id,
            farmer.amount == amount,
            farmer.rewards@ == Map::<Seq<char>, Balance>::empty(),
            farmer.seeds@ == Map::<Seq<char>, Balance>::empty(),
            farmer.user_rps@ == Map::<Seq<char>, RPS>::empty(),
            farmer@.nft_seeds == Map::<Seq<char>, Set<Seq<char>>>::empty(),
    {
        let farmer = Farmer {
            farmer_id,
            amount,
            rewards: StrMap::new(),
            seeds: StrMap::new(),
            user_rps: StrMap::new(),
            nft_seeds: StrMap::new(),
        };
        assert(farmer@.nft_seeds =~= Map::<Seq<char>, Set<Seq<char>>>::empty());
        farmer
    }

    /// Adds `amount` to the claimed balance of `token`. Refused where the
    /// balance would pass the greatest balance.
    pub fn add_reward(&mut self, token: &AccountId, amount: Balance) -> (r: Result<
        (),
        FarmingError,
    >)
        requires
            old(self).wf(),
        ensures
            final(self).wf(),
            r is Ok <==> old(self).spec_reward(token@) + amount <= u128::MAX,
            r is Err ==> r == Err::<(), FarmingError>(FarmingError::Overflow)
                && *final(self) == *old(self),
            r is Ok ==> final(self).rewards@ == old(self).rewards@.insert(
                token@,
                (old(self).spec_reward(token@) + amount) as u128,
            ),
            final(self).farmer_id == old(self).farmer_id,
            final(self).nft_seeds == old(self).nft_seeds,
            final(self).amount == old(self).amount,
            final(self).seeds == old(self).seeds,
            final(self).user_rps == old(self).user_rps,
    {
        let held: u128 = match self.rewards.get(token) {
            Some(x) => x,
            None => 0,
        };
        if amount > u128::MAX - held {
            return Err(FarmingError::Overflow);
        }
        self.rewards.insert(token.clone(), held + amount);
        Ok(())
    }

    /// Takes `amount` from the claimed balance of `token`, or all of it
    /// where `amount` is zero, and returns what was taken. Taking all removes
    /// the entry. Refused where the farmer has no balance of `token`, or less
    /// than `amount`.
    pub fn sub_reward(&mut self, token: &AccountId, amount: Balance) -> (r: Result<
        Balance,
        FarmingError,
    >)
        requires
            old(self).wf(),
        ensures
            final(self).wf(),
            r == (if !old(self).rewards@.contains_key(token@) {
                Err(FarmingError::TokenNotRegistered)
            } else if old(self).rewards@[token@] < amount {
                Err(FarmingError::NotEnoughTokens)
            } else if amount == 0 {
                Ok(old(self).rewards@[token@])
            } else {
                Ok(amount)
            }),
            r is Err ==> *final(self) == *old(self),
            r is Ok && amount == 0 ==> final(self).rewards@ == old(self).rewards@.remove(token@),
            r is Ok && amount != 0 ==> final(self).rewards@ == old(self).rewards@.insert(
                token@,
                (old(self).rewards@[token@] - amount) as u128,
            ),
            final(self).farmer_id == old(self).farmer_id,
            final(self).nft_seeds == old(self).nft_seeds,
            final(self).amount == old(self).amount,
            final(self).seeds == old(self).seeds,
            final(self).user_rps == old(self).user_rps,
    {
        let value: u128 = match self.rewards.get(token) {
            Some(x) => x,
            None => {
                return Err(FarmingError::TokenNotRegistered);
            },
        };
        if value < amount {
            return Err(FarmingError::NotEnoughTokens);
        }
        if amount == 0 {
            self.rewards.remove(token);
            Ok(value)
        } else {
            self.rewards.insert(token.clone(), value - amount);
            Ok(amount)
        }
    }

    /// Adds `amount` to the stake of `seed_id`. An amount of zero changes
    /// nothing. Refused where the stake would pass the greatest balance.
    pub fn add_seed(&mut self, seed_id: &SeedId, amount: Balance) -> (r: Result<(), FarmingError>)
        requires
            old(self).wf(),
        ensures
            final(self).wf(),
            r is Ok <==> old(self).spec_stake(seed_id@) + amount <= u128::MAX,
            r is Err ==> r == Err::<(), FarmingError>(FarmingError::Overflow)
                && *final(self) == *old(self),
            r is Ok && amount == 0 ==> *final(self) == *old(self),
            r is Ok && amount > 0 ==> final(self).seeds@ == old(self).seeds@.insert(
                seed_id@,
                (old(self).spec_stake(seed_id@) + amount) as u128,
            ),
            r is Ok ==> final(self).spec_stake(seed_id@) == old(self).spec_stake(seed_id@)
                + amount,
            final(self).farmer_id == old(self).farmer_id,
            final(self).nft_seeds == old(self).nft_seeds,
            final(self).amount == old(self).amount,
            final(self).rewards == old(self).rewards,
            final(self).user_rps == old(self).user_rps,
    {
        let held: u128 = match self.seeds.get(seed_id) {
            Some(x) => x,
            None => 0,
        };
        if amount > u128::MAX - held {
            return Err(FarmingError::Overflow);
        }
        if amount > 0 {
            self.seeds.insert(seed_id.clone(), held + amount);
        }
        Ok(())
    }

    /// Takes `amount` from the stake of `seed_id` and returns what remains.
    /// A stake that falls to zero is removed. Refused where the farmer has no
    /// stake of the seed, or less than `amount`.
    pub fn sub_seed(&mut self, seed_id: &SeedId, amount: Balance) -> (r: Result<
        Balance,
        FarmingError,
    >)
        requires
            old(self).wf(),
        ensures
            final(self).wf(),
            r == (if !old(self).seeds@.contains_key(seed_id@) {
                Err(FarmingError::SeedNotExist)
            } else if old(self).seeds@[seed_id@] < amount {
                Err(FarmingError::NotEnoughSeed)
            } else {
                Ok((old(self).seeds@[seed_id@] - amount) as u128)
            }),
            r is Err ==> *final(self) == *old(self),
            r is Ok && r->Ok_0 == 0 ==> final(self).seeds@ == old(self).seeds@.remove(seed_id@),
            r is Ok && r->Ok_0 > 0 ==> final(self).seeds@ == old(self).seeds@.insert(
                seed_id@,
                r->Ok_0,
            ),
            r is Ok ==> final(self).spec_stake(seed_id@) == old(self).spec_stake(seed_id@)
                - amount,
            final(self).farmer_id == old(self).farmer_id,
            final(self).nft_seeds == old(self).nft_seeds,
            final(self).amount == old(self).amount,
            final(self).rewards == old(self).rewards,
            final(self).user_rps == old(self).user_rps,
    {
        let prev_balance: u128 = match self.seeds.get(seed_id) {
            Some(x) => x,
            None => {
                return Err(FarmingError::SeedNotExist);
            },
        };
        if prev_balance < amount {
            return Err(FarmingError::NotEnoughSeed);
        }
        let cur_balance: u128 = prev_balance - amount;
        if cur_balance > 0 {
            self.seeds.insert(seed_id.clone(), cur_balance);
        } else {
            self.seeds.remove(seed_id);
        }
        Ok(cur_balance)
    }

    /// The farmer's stake of a seed; nothing where none is recorded.
    pub fn get_seed(&self, seed_id: &SeedId) -> (r: Balance)
        requires
            self.wf(),
        ensures
            r == self.spec_stake(seed_id@),
    {
        match self.seeds.get(seed_id) {
            Some(x) => x,
            None => 0,
        }
    }

    /// The reward per seed at which the farmer last settled with a farm;
    /// zero where the farmer never did.
    pub fn get_rps(&self, farm_id: &FarmId) -> (r: RPS)
        requires
            self.wf(),
        ensures
            r == self@.spec_rps(farm_id@),
    {
        match self.user_rps.get(farm_id) {
            Some(x) => x,
            None => U256::zero(),
        }
    }

    /// Records `rps` as the reward per seed at which the farmer settled with
    /// a farm.
    pub fn set_rps(&mut self, farm_id: &FarmId, rps: RPS)
        requires
            old(self).wf(),
        ensures
            final(self).wf(),
            final(self).user_rps@ == old(self).user_rps@.insert(farm_id@, rps),
            final(self).farmer_id == old(self).farmer_id,
            final(self).nft_seeds == old(self).nft_seeds,
            final(self).amount == old(self).amount,
            final(self).rewards == old(self).rewards,
            final(self).seeds == old(self).seeds,
    {
        self.user_rps.insert(farm_id.clone(), rps);
    }

    /// Forgets the reward per seed at which the farmer settled with a farm.
    pub fn remove_rps(&mut self, farm_id: &FarmId)
        requires
            old(self).wf(),
        ensures
            final(self).wf(),
            final(self).user_rps@ == old(self).user_rps@.remove(farm_id@),
            final(self).farmer_id == old(self).farmer_id,
            final(self).nft_seeds == old(self).nft_seeds,
            final(self).amount == old(self).amount,
            final(self).rewards == old(self).rewards,
            final(self).seeds == old(self).seeds,
    {
        self.user_rps.remove(farm_id);
    }

    /// Whether the farmer has staked the token `id` under the seed
    /// `seed_id`.
    pub open spec fn spec_holds_nft(&self, seed_id: Seq<char>, id: Seq<char>) -> bool {
        self@.spec_holds_nft(seed_id, id)
    }

    /// Notes the token as staked under the seed `seed_id`.
    pub fn add_nft(&mut self, seed_id: &SeedId, contract_nft_token_id: ContractNFTTokenId)
        requires
            old(self).wf(),
        ensures
            final(self).wf(),
            final(self)@ == old(self)@.spec_with_nft(seed_id@, contract_nft_token_id@),
            final(self).farmer_id == old(self).farmer_id,
            final(self).amount == old(self).amount,
            final(self).rewards == old(self).rewards,
            final(self).seeds == old(self).seeds,
            final(self).user_rps == old(self).user_rps,
    {
        let ghost id = contract_nft_token_id@;
        let mut tokens = match self.nft_seeds.remove(seed_id) {
            Some(found) => found,
            None => StrSet::new(),
        };
        tokens.insert(contract_nft_token_id);
        self.nft_seeds.insert(seed_id.clone(), tokens);
        proof {
            assert(self@.nft_seeds =~= old(self)@.spec_with_nft(seed_id@, id).nft_seeds);
            assert(self@ =~= old(self)@.spec_with_nft(seed_id@, id));
            assert forall|k: Seq<char>| #[trigger] self.nft_seeds@.contains_key(k) implies self.nft_seeds@[k].wf() by {
                if k != seed_id@ {
                    assert(old(self).nft_seeds@.contains_key(k));
                }
            }
        }
    }

    /// Strikes the token from those staked under the seed `seed_id`, and
    /// hands it back; nothing where it was not staked there.
    pub fn sub_nft(&mut self, seed_id: &SeedId, contract_nft_token_id: ContractNFTTokenId) -> (r:
        Option<ContractNFTTokenId>)
        requires
            old(self).wf(),
        ensures
            final(self).wf(),
            r is Some == old(self)@.spec_holds_nft(seed_id@, contract_nft_token_id@),
            r is Some ==> r->0 == contract_nft_token_id,
            final(self)@ == old(self)@.spec_without_nft(seed_id@, contract_nft_token_id@),
            final(self).farmer_id == old(self).farmer_id,
            final(self).amount == old(self).amount,
            final(self).rewards == old(self).rewards,
            final(self).seeds == old(self).seeds,
            final(self).user_rps == old(self).user_rps,
    {
        let ghost id = contract_nft_token_id@;
        let mut nft_token_id_exist: bool = false;
        match self.nft_seeds.remove(seed_id) {
            Some(found) => {
                let mut tokens = found;
                nft_token_id_exist = tokens.remove(&contract_nft_token_id);
                self.nft_seeds.insert(seed_id.clone(), tokens);
            },
            None => {},
        }
        proof {
            assert(self@.nft_seeds =~= old(self)@.spec_without_nft(seed_id@, id).nft_seeds);
            assert(self@ =~= old(self)@.spec_without_nft(seed_id@, id));
            assert forall|k: Seq<char>| #[trigger] self.nft_seeds@.contains_key(k) implies self.nft_seeds@[k].wf() by {
                if k != seed_id@ {
                    assert(old(self).nft_seeds@.contains_key(k));
                }
            }
        }
        if nft_token_id_exist {
            Some(contract_nft_token_id)
        } else {
            None
        }
    }

    /// How many farms the farmer has settled with and not forgotten.
    pub fn rps_count(&self) -> (r: usize)
        requires
            self.wf(),
        ensures
            r == self@.user_rps.dom().len(),
    {
        self.user_rps.len()
    }

    /// The bytes that the record takes.
    pub fn storage_bytes(&self) -> (r: u128)
        requires
            self.wf(),
        ensures
            r == self.spec_storage_bytes(),
    {
        let rewards: u128 = self.rewards.len() as u128;
        let seeds: u128 = self.seeds.len() as u128;
        let settled: u128 = self.user_rps.len() as u128;
        MIN_FARMER_LENGTH + rewards * BALANCE_ENTRY_LENGTH + seeds * BALANCE_ENTRY_LENGTH + settled
            * RPS_ENTRY_LENGTH
    }

    /// The price of the storage that the record takes.
    pub fn storage_usage(&self) -> (r: Balance)
        requires
            self.wf(),
            self.spec_storage_usage() <= u128::MAX,
        ensures
            r == self.spec_storage_usage(),
    {
        self.storage_bytes() * near_sdk::env::storage_byte_cost()
    }

    /// The part of the farmer's deposit that the record does not need, if
    /// the deposit pays for the record at all.
    pub fn storage_available(&self) -> (r: Option<Balance>)
        requires
            self.wf(),
        ensures
            r == (if self@.spec_storage_covered() {
                Some((self.amount - self@.spec_storage_usage()) as u128)
            } else {
                None
            }),
    {
        if self.storage_covered() {
            Some(self.amount - self.storage_usage())
        } else {
            None
        }
    }

    /// Whether the farmer's deposit pays for the storage of the record.
    pub fn storage_covered(&self) -> (r: bool)
        requires
            self.wf(),
        ensures
            r == self@.spec_storage_covered(),
    {
        let cost: u128 = near_sdk::env::storage_byte_cost();
        let bytes: u128 = self.storage_bytes();
        proof {
            let (b, c, a) = (bytes as int, cost as int, self.amount as int);
            assert(b * c <= a <==> b <= a / c) by (nonlinear_arith)
                requires
                    c > 0,
                    b >= 0,
                    a >= 0,
            ;
        }
        bytes <= self.amount / cost
    }
}

/// A farmer's record as it is kept, in the layout of the version that wrote
/// it. A record is brought to the current layout when it is loaded.
pub enum VersionedFarmer {
    V101(Farmer),
}

impl View for VersionedFarmer {
    type V = FarmerView;

    open spec fn view(&self) -> FarmerView {
        match self {
            VersionedFarmer::V101(farmer) => farmer@,
        }
    }
}

impl Clone for VersionedFarmer {
    fn clone(&self) -> (r: Self)
        ensures
            self.wf() ==> r@ == self@ && r.wf(),
    {
        match self {
            VersionedFarmer::V101(farmer) => VersionedFarmer::V101(farmer.clone()),
        }
    }
}

impl VersionedFarmer {
    /// The record inside, whatever the layout.
    pub open spec fn spec_farmer(&self) -> Farmer {
        match self {
            VersionedFarmer::V101(farmer) => *farmer,
        }
    }

    /// No table of the record holds a key twice.
    pub open spec fn wf(&self) -> bool {
        self.spec_farmer().wf()
    }

    /// A record in the current layout for `farmer_id`, with a deposit of
    /// `amount` and no entries.
    pub fn new(farmer_id: AccountId, amount: Balance) -> (r: Self)
        ensures
            r.wf(),
            r@ == (FarmerView {
                farmer_id: farmer_id@,
                amount,
                rewards: Map::empty(),
                seeds: Map::empty(),
                user_rps: Map::empty(),
                nft_seeds: Map::empty(),
            }),
    {
        VersionedFarmer::V101(Farmer::new(farmer_id, amount))
    }

    /// The record in the current layout.
    pub fn upgrade(self) -> (r: Self)
        ensures
            r == self,
            !r.spec_need_upgrade(),
    {
        match self {
            VersionedFarmer::V101(farmer) => VersionedFarmer::V101(farmer),
        }
    }

    /// Whether the record is in an older layout than the current one.
    pub open spec fn spec_need_upgrade(&self) -> bool {
        match self {
            VersionedFarmer::V101(_) => false,
        }
    }

    /// Whether the record is in an older layout than the current one.
    pub fn need_upgrade(&self) -> (r: bool)
        ensures
            r == self.spec_need_upgrade(),
    {
        match self {
            VersionedFarmer::V101(_) => false,
        }
    }

    /// The record inside, to read.
    pub fn get_ref(&self) -> (r: &Farmer)
        requires
            !self.spec_need_upgrade(),
        ensures
            *r == self.spec_farmer(),
    {
        match self {
            VersionedFarmer::V101(farmer) => farmer,
        }
    }

    /// The record inside.
    pub fn get(self) -> (r: Farmer)
        requires
            !self.spec_need_upgrade(),
        ensures
            r == self.spec_farmer(),
    {
        match self {
            VersionedFarmer::V101(farmer) => farmer,
        }
    }

    /// The record inside, to change.
    pub fn get_ref_mut(&mut self) -> (r: &mut Farmer)
        requires
            !old(self).spec_need_upgrade(),
        ensures
            *r == old(self).spec_farmer(),
            *final(self) == VersionedFarmer::V101(*final(r)),
    {
        match self {
            VersionedFarmer::V101(farmer) => farmer,
        }
    }
}

} // verus!
