//! Settling: the step that ties a farmer's books to a farm's.
//!
//! To settle, a farm writes down the release that is due and pays the farmer
//! what it owes; the farmer adds that to the balance of the farm's reward
//! token and notes where the farm's reward per seed then stands. A farm that
//! is covered can always pay, and stays covered. Settling with all farms of
//! a seed is settling with each in turn.

use vstd::prelude::*;
use crate::books::{inv, inv_debts, inv_links, inv_names, inv_records, inv_totals, spec_names};
use crate::errors::FarmingError;
use crate::farm::Farm;
use crate::farmer::{Farmer, FarmerView};
use crate::model::{
    ContractView, covered, lemma_can_settle, lemma_owed_frame, lemma_settle_covered,
    lemma_stake_frame, owed, spec_settle_farm, spec_settle_farmer, total_stake,
};
use crate::str_map::{StrMap, StrSet};
use crate::types::{Balance, TimestampSec};

verus! {

/// The books after the farmer at position `fi` settled with the farm
/// `farm_id` at time `now`, the release going over a stake of `total_seeds`.
pub open spec fn spec_settle_one(
    c: ContractView,
    fi: int,
    farm_id: Seq<char>,
    total_seeds: Balance,
    now: TimestampSec,
) -> Option<ContractView> {
    let farm = c.farms[farm_id];
    match spec_settle_farmer(farm, c.farmers[fi], total_seeds, now) {
        None => None,
        Some(farmer) => Some(
            ContractView {
                seeds: c.seeds,
                farmers: c.farmers.update(fi, farmer),
                farms: c.farms.insert(
                    farm_id,
                    spec_settle_farm(farm, c.farmers[fi], total_seeds, now),
                ),
                outdated_farms: c.outdated_farms,
                nft_balance_seeds: c.nft_balance_seeds,
                owner_id: c.owner_id,
            },
        ),
    }
}

/// The books after the farmer at position `fi` settled with each of the
/// farms `farm_ids` in turn at time `now`; no books where one of the
/// settlings is refused.
pub open spec fn spec_settle_all(
    c: ContractView,
    fi: int,
    farm_ids: Seq<Seq<char>>,
    total_seeds: Balance,
    now: TimestampSec,
) -> Option<ContractView>
    decreases farm_ids.len(),
{
    if farm_ids.len() == 0 {
        Some(c)
    } else {
        match spec_settle_one(c, fi, farm_ids[0], total_seeds, now) {
            None => None,
            Some(d) => spec_settle_all(d, fi, farm_ids.drop_first(), total_seeds, now),
        }
    }
}

/// Whether the farmer has settled with the farm and is owed nothing by it:
/// the farmer noted the farm's reward per seed as it stands.
pub open spec fn spec_settled(farm: Farm, farmer: FarmerView) -> bool {
    &&& farmer.user_rps.contains_key(farm.farm_id@)
    &&& farmer.user_rps[farm.farm_id@] == farm.last_distribution.rps
}

/// What settling with the farms `farm_ids` leaves alone, and what it
/// changes, on the way from the books `c` to the books `d`: only these farms
/// and the farmer at position `fi` change; the farmer keeps name, deposit
/// and stakes; no farm loses its name, its terms or any of its reward per
/// seed; and the farmer ends up settled with each of the farms.
pub open spec fn spec_settle_frame(
    c: ContractView,
    d: ContractView,
    fi: int,
    farm_ids: Seq<Seq<char>>,
) -> bool {
    &&& d.seeds == c.seeds
    &&& d.outdated_farms == c.outdated_farms
    &&& d.farmers.len() == c.farmers.len()
    &&& forall|i: int| 0 <= i < c.farmers.len() && i != fi ==> d.farmers[i] == c.farmers[i]
    &&& d.farmers[fi].farmer_id == c.farmers[fi].farmer_id
    &&& d.farmers[fi].amount == c.farmers[fi].amount
    &&& d.farmers[fi].seeds == c.farmers[fi].seeds
    &&& forall|k: Seq<char>| c.farms.contains_key(k) == #[trigger] d.farms.contains_key(k)
    &&& forall|k: Seq<char>| #[trigger]
        d.farms.contains_key(k) ==> {
            &&& d.farms[k].farm_id == c.farms[k].farm_id
            &&& d.farms[k].terms == c.farms[k].terms
            &&& d.farms[k].amount_of_reward == c.farms[k].amount_of_reward
            &&& d.farms[k].last_distribution.rps@ >= c.farms[k].last_distribution.rps@
            &&& d.farms[k].status.rank() >= c.farms[k].status.rank()
        }
    &&& forall|k: Seq<char>|
        !farm_ids.contains(k) ==> (#[trigger] d.farms[k]) == c.farms[k]
    &&& forall|k: Seq<char>|
        !farm_ids.contains(k) ==> (#[trigger] d.farmers[fi].user_rps.contains_key(k))
            == c.farmers[fi].user_rps.contains_key(k) && d.farmers[fi].user_rps[k]
            == c.farmers[fi].user_rps[k]
    &&& forall|j: int|
        0 <= j < farm_ids.len() ==> spec_settled(d.farms[#[trigger] farm_ids[j]], d.farmers[fi])
}

/// Settling keeps all that holds of the books.
pub proof fn lemma_settle_one(
    c: ContractView,
    fi: int,
    farm_id: Seq<char>,
    now: TimestampSec,
)
    requires
        inv(c),
        0 <= fi < c.farmers.len(),
        c.farms.contains_key(farm_id),
        spec_settle_one(
            c,
            fi,
            farm_id,
            c.seeds[c.farms[farm_id].terms.seed_id@].amount,
            now,
        ) is Some,
    ensures
        inv(
            spec_settle_one(
                c,
                fi,
                farm_id,
                c.seeds[c.farms[farm_id].terms.seed_id@].amount,
                now,
            )->0,
        ),
{
    let farm = c.farms[farm_id];
    let seed_id = farm.terms.seed_id@;
    let total = c.seeds[seed_id].amount;
    let d = spec_settle_one(c, fi, farm_id, total, now)->0;
    let before = c.farmers[fi];
    let after = d.farmers[fi];
    let end = d.farms[farm_id];
    lemma_settle_covered(c.farmers, fi, farm, total, now);
    farm.lemma_distribute_keeps(total, now);
    assert(end.farm_id == farm.farm_id && end.terms == farm.terms);
    assert(after.seeds == before.seeds);
    assert(after.farmer_id == before.farmer_id);
    assert(inv_records(d)) by {
        assert forall|k: Seq<char>| #[trigger] d.farms.contains_key(k) implies d.farms[k].farm_id@
            == k && d.farms[k].wf() by {
            if k != farm_id {
                assert(c.farms.contains_key(k));
            }
        }
        assert forall|i: int, j: int| 0 <= i < j < d.farmers.len() implies (
        #[trigger] d.farmers[i]).farmer_id != (#[trigger] d.farmers[j]).farmer_id by {
            assert(d.farmers[i].farmer_id == c.farmers[i].farmer_id);
            assert(d.farmers[j].farmer_id == c.farmers[j].farmer_id);
        }
    }
    assert(inv_links(d)) by {
        assert forall|k: Seq<char>| #[trigger] d.farms.contains_key(k) implies d.seeds.contains_key(
            d.farms[k].terms.seed_id@,
        ) && d.seeds[d.farms[k].terms.seed_id@].farms.contains(k) by {
            assert(c.farms.contains_key(k));
        }
        assert forall|s: Seq<char>, k: Seq<char>|
            d.seeds.contains_key(s) && #[trigger] d.seeds[s].farms.contains(
                k,
            ) implies d.farms.contains_key(k) && d.farms[k].terms.seed_id@ == s by {
            assert(c.seeds[s].farms.contains(k));
            assert(c.farms.contains_key(k));
        }
    }
    assert(inv_names(d)) by {
        assert forall|k: Seq<char>| #[trigger] d.farms.contains_key(k) implies spec_names(
            d.seeds,
            d.farms[k],
        ) by {
            assert(c.farms.contains_key(k));
            assert(spec_names(c.seeds, c.farms[k]));
        }
        assert forall|i: int, k: Seq<char>|
            0 <= i < d.farmers.len() && #[trigger] d.farmers[i].user_rps.contains_key(
                k,
            ) implies d.farms.contains_key(k) || d.outdated_farms.contains_key(k) by {
            if i != fi || k != farm_id {
                assert(c.farmers[i].user_rps.contains_key(k));
            }
        }
    }
    assert(inv_totals(d)) by {
        assert forall|s: Seq<char>| #[trigger] d.seeds.contains_key(s) implies d.seeds[s].amount
            == total_stake(d.farmers, s) by {
            lemma_stake_frame(c.farmers, fi, after, s);
        }
        assert forall|i: int, s: Seq<char>|
            0 <= i < d.farmers.len() && #[trigger] d.farmers[i].seeds.contains_key(
                s,
            ) implies d.seeds.contains_key(s) by {
            assert(c.farmers[i].seeds.contains_key(s));
        }
    }
    assert(inv_debts(d)) by {
        assert forall|k: Seq<char>| #[trigger] d.farms.contains_key(k) implies covered(
            d.farmers,
            d.farms[k],
        ) by {
            if k != farm_id {
                let other = c.farms[k];
                assert(c.farms.contains_key(k));
                assert(covered(c.farmers, other));
                assert(other.farm_id@ == k);
                assert(after.spec_rps(k) == before.spec_rps(k));
                assert(owed(other, after) == owed(other, before));
                lemma_owed_frame(c.farmers, fi, after, other);
                assert forall|j: int| 0 <= j < d.farmers.len() implies (
                #[trigger] d.farmers[j]).spec_rps(other.farm_id@)@
                    <= other.last_distribution.rps@ by {
                    if j != fi {
                        assert(d.farmers[j] == c.farmers[j]);
                    }
                    assert(c.farmers[j].spec_rps(other.farm_id@)@
                        <= other.last_distribution.rps@);
                }
            }
        }
    }
}

/// Settling with farms of one seed, one after the other, keeps all that
/// holds of the books, and changes no more than `spec_settle_frame` says.
pub proof fn lemma_settle_all(
    c: ContractView,
    fi: int,
    seed_id: Seq<char>,
    farm_ids: Seq<Seq<char>>,
    now: TimestampSec,
)
    requires
        inv(c),
        0 <= fi < c.farmers.len(),
        c.seeds.contains_key(seed_id),
        farm_ids.no_duplicates(),
        forall|j: int|
            0 <= j < farm_ids.len() ==> c.seeds[seed_id].farms.contains(#[trigger] farm_ids[j]),
        spec_settle_all(c, fi, farm_ids, c.seeds[seed_id].amount, now) is Some,
    ensures
        inv(spec_settle_all(c, fi, farm_ids, c.seeds[seed_id].amount, now)->0),
        spec_settle_frame(
            c,
            spec_settle_all(c, fi, farm_ids, c.seeds[seed_id].amount, now)->0,
            fi,
            farm_ids,
        ),
    decreases farm_ids.len(),
{
    let total = c.seeds[seed_id].amount;
    let d = spec_settle_all(c, fi, farm_ids, total, now)->0;
    if farm_ids.len() > 0 {
        let first = farm_ids[0];
        let rest = farm_ids.drop_first();
        assert(c.seeds[seed_id].farms.contains(first));
        assert(c.farms.contains_key(first));
        let farm = c.farms[first];
        assert(farm.farm_id@ == first);
        let mid = spec_settle_one(c, fi, first, total, now)->0;
        lemma_settle_one(c, fi, first, now);
        farm.lemma_distribute_keeps(total, now);
        assert forall|j: int| 0 <= j < rest.len() implies mid.seeds[seed_id].farms.contains(
            #[trigger] rest[j],
        ) by {
            assert(rest[j] == farm_ids[j + 1]);
        }
        assert(rest.no_duplicates()) by {
            assert forall|a: int, b: int|
                0 <= a < rest.len() && 0 <= b < rest.len() && a != b implies rest[a]
                != rest[b] by {
                assert(rest[a] == farm_ids[a + 1] && rest[b] == farm_ids[b + 1]);
            }
        }
        lemma_settle_all(mid, fi, seed_id, rest, now);
        assert(!rest.contains(first)) by {
            if rest.contains(first) {
                let j = choose|j: int| 0 <= j < rest.len() && rest[j] == first;
                assert(farm_ids[j + 1] == farm_ids[0]);
            }
        }
        assert forall|k: Seq<char>| !farm_ids.contains(k) implies !rest.contains(k) && k
            != first by {
            if rest.contains(k) {
                let j = choose|j: int| 0 <= j < rest.len() && rest[j] == k;
                assert(farm_ids[j + 1] == k);
            }
            if k == first {
                assert(farm_ids[0] == k);
            }
        }
        assert forall|k: Seq<char>| !farm_ids.contains(k) implies (#[trigger] d.farms[k])
            == c.farms[k] by {
            assert(d.farms[k] == mid.farms[k]);
        }
        assert forall|k: Seq<char>| !farm_ids.contains(k) implies (
        #[trigger] d.farmers[fi].user_rps.contains_key(k)) == c.farmers[fi].user_rps.contains_key(
            k,
        ) && d.farmers[fi].user_rps[k] == c.farmers[fi].user_rps[k] by {
            assert(d.farmers[fi].user_rps.contains_key(k) == mid.farmers[fi].user_rps.contains_key(
                k,
            ));
        }
        assert forall|j: int| 0 <= j < farm_ids.len() implies spec_settled(
            d.farms[#[trigger] farm_ids[j]],
            d.farmers[fi],
        ) by {
            if j == 0 {
                assert(d.farms[first] == mid.farms[first]);
                assert(mid.farmers[fi].user_rps.contains_key(first));
                assert(d.farmers[fi].user_rps.contains_key(first)
                    == mid.farmers[fi].user_rps.contains_key(first));
            } else {
                assert(farm_ids[j] == rest[j - 1]);
            }
        }
        assert forall|k: Seq<char>| #[trigger] d.farms.contains_key(k) implies {
            &&& d.farms[k].farm_id == c.farms[k].farm_id
            &&& d.farms[k].terms == c.farms[k].terms
            &&& d.farms[k].amount_of_reward == c.farms[k].amount_of_reward
            &&& d.farms[k].last_distribution.rps@ >= c.farms[k].last_distribution.rps@
            &&& d.farms[k].status.rank() >= c.farms[k].status.rank()
        } by {
            assert(mid.farms.contains_key(k));
        }
        assert forall|i: int| 0 <= i < c.farmers.len() && i != fi implies d.farmers[i]
            == c.farmers[i] by {
            assert(d.farmers[i] == mid.farmers[i]);
        }
    }
}

/// Settles the farmer with the farm at time `now`: the farm writes down the
/// release due over a stake of `total_seeds` and pays the farmer what it
/// owes; the farmer adds that to the balance of the farm's reward token and
/// notes the farm's reward per seed, paid or not.
///
/// Refused, with nothing changed, where the farmer's balance would pass the
/// greatest balance.
pub fn claim_user_reward_from_farm(
    farm: &mut Farm,
    farmer: &mut Farmer,
    total_seeds: &Balance,
    now: TimestampSec,
) -> (r: Result<(), FarmingError>)
    requires
        old(farm).wf(),
        old(farmer).wf(),
        old(farm).spec_can_claim(
            old(farmer)@.spec_rps(old(farm).farm_id@),
            old(farmer)@.spec_stake(old(farm).terms.seed_id@),
            *total_seeds,
            now,
        ),
    ensures
        final(farm).wf(),
        final(farmer).wf(),
        match spec_settle_farmer(*old(farm), old(farmer)@, *total_seeds, now) {
            Some(settled) => r is Ok && *final(farm) == spec_settle_farm(
                *old(farm),
                old(farmer)@,
                *total_seeds,
                now,
            ) && final(farmer)@ == settled,
            None => r == Err::<(), FarmingError>(FarmingError::Overflow) && *final(farm)
                == *old(farm) && final(farmer)@ == old(farmer)@,
        },
{
    let user_seeds: u128 = farmer.get_seed(&farm.terms.seed_id);
    let user_rps = farmer.get_rps(&farm.farm_id);
    let mut settled = farm.clone();
    let (new_user_rps, reward_amount) = settled.claim_user_reward(
        &user_rps,
        &user_seeds,
        total_seeds,
        now,
    );
    if reward_amount > 0 {
        match farmer.add_reward(&settled.terms.reward_token, reward_amount) {
            Err(e) => {
                return Err(e);
            },
            Ok(_) => {},
        }
    }
    farmer.set_rps(&settled.farm_id, new_user_rps);
    *farm = settled;
    assert(farmer@ =~= spec_settle_farmer(*old(farm), old(farmer)@, *total_seeds, now)->0);
    Ok(())
}

/// The books `c` with the farms `farms` and, at position `fi`, the farmer
/// `farmer`, in place of what `c` has there.
pub open spec fn spec_work(
    c: ContractView,
    farms: Map<Seq<char>, Farm>,
    fi: int,
    farmer: FarmerView,
) -> ContractView {
    ContractView {
        seeds: c.seeds,
        farmers: c.farmers.update(fi, farmer),
        farms,
        outdated_farms: c.outdated_farms,
        nft_balance_seeds: c.nft_balance_seeds,
        owner_id: c.owner_id,
    }
}

/// Settles the farmer with each farm of a seed in turn, on copies of the
/// farms and of the farmer's record: `c` is the books that the copies were
/// taken from, `fi` the farmer's position in them, and `seed_id` the seed.
///
/// Refused where a balance of the farmer would pass the greatest balance;
/// the copies are then of no use.
pub(crate) fn settle_seed(
    farms: &mut StrMap<Farm>,
    farmer: &mut Farmer,
    farm_ids: &StrSet,
    total_seeds: Balance,
    now: TimestampSec,
    Ghost(c): Ghost<ContractView>,
    Ghost(fi): Ghost<int>,
    Ghost(seed_id): Ghost<Seq<char>>,
) -> (r: Result<(), FarmingError>)
    requires
        old(farms).wf(),
        old(farmer).wf(),
        farm_ids.wf(),
        inv(c),
        0 <= fi < c.farmers.len(),
        c.farms == old(farms)@,
        c.farmers[fi] == old(farmer)@,
        c.seeds.contains_key(seed_id),
        c.seeds[seed_id].farms == farm_ids.keys(),
        c.seeds[seed_id].amount == total_seeds,
    ensures
        final(farms).wf(),
        final(farmer).wf(),
        final(farmer)@.farmer_id == old(farmer)@.farmer_id,
        final(farmer)@.amount == old(farmer)@.amount,
        final(farmer)@.seeds == old(farmer)@.seeds,
        match spec_settle_all(c, fi, farm_ids.keys(), total_seeds, now) {
            None => r == Err::<(), FarmingError>(FarmingError::Overflow),
            Some(d) => {
                &&& r is Ok
                &&& d == spec_work(c, final(farms)@, fi, final(farmer)@)
                &&& inv(d)
                &&& forall|j: int|
                    0 <= j < farm_ids.keys().len() ==> spec_settled(
                        d.farms[#[trigger] farm_ids.keys()[j]],
                        d.farmers[fi],
                    )
            },
        },
{
    let n: usize = farm_ids.len();
    let ghost keys = farm_ids.keys();
    let ghost mut work = c;
    proof {
        assert(work =~= spec_work(c, farms@, fi, farmer@));
        assert(keys.skip(0) =~= keys);
    }
    let mut k: usize = 0;
    while k < n
        invariant
            n == keys.len(),
            k <= n,
            keys == farm_ids.keys(),
            farm_ids.wf(),
            farms.wf(),
            farmer.wf(),
            farmer@.farmer_id == old(farmer)@.farmer_id,
            farmer@.amount == old(farmer)@.amount,
            farmer@.seeds == old(farmer)@.seeds,
            0 <= fi < c.farmers.len(),
            c.seeds.contains_key(seed_id),
            c.seeds[seed_id].farms == keys,
            c.seeds[seed_id].amount == total_seeds,
            keys.no_duplicates(),
            work == spec_work(c, farms@, fi, farmer@),
            inv(work),
            spec_settle_all(c, fi, keys, total_seeds, now) == spec_settle_all(
                work,
                fi,
                keys.skip(k as int),
                total_seeds,
                now,
            ),
            forall|j: int|
                0 <= j < k ==> spec_settled(work.farms[#[trigger] keys[j]], work.farmers[fi]),
        decreases n - k,
    {
        let key = farm_ids.key_at(k);
        let ghost rest = keys.skip(k as int);
        proof {
            assert(rest[0] == keys[k as int]);
            assert(rest.drop_first() =~= keys.skip(k + 1));
            assert(work.seeds[seed_id].farms.contains(keys[k as int]));
            assert(work.farms.contains_key(key@));
        }
        let mut farm = match farms.get_ref(key) {
            Some(found) => found.clone(),
            None => vstd::pervasive::unreached(),
        };
        let ghost before = farm;
        proof {
            assert(before.terms.seed_id@ == seed_id);
            assert(before.farm_id@ == key@);
            assert(covered(work.farmers, before));
            lemma_can_settle(work.farmers, fi, before, total_seeds, now);
        }
        match claim_user_reward_from_farm(&mut farm, farmer, &total_seeds, now) {
            Err(e) => {
                proof {
                    assert(spec_settle_one(work, fi, key@, total_seeds, now) is None);
                }
                return Err(e);
            },
            Ok(_) => {},
        }
        farms.insert(key.clone(), farm);
        proof {
            let next = spec_work(c, farms@, fi, farmer@);
            assert(next =~= spec_settle_one(work, fi, key@, total_seeds, now)->0);
            lemma_settle_one(work, fi, key@, now);
            assert forall|j: int| 0 <= j < k + 1 implies spec_settled(
                next.farms[#[trigger] keys[j]],
                next.farmers[fi],
            ) by {
                if j < k {
                    assert(keys[j] != keys[k as int]);
                    assert(spec_settled(work.farms[keys[j]], work.farmers[fi]));
                    assert(work.seeds[seed_id].farms.contains(keys[j]));
                    assert(work.farms[keys[j]].farm_id@ == keys[j]);
                }
            }
            work = next;
        }
        k = k + 1;
    }
    proof {
        assert(keys.skip(n as int) =~= Seq::<Seq<char>>::empty());
    }
    Ok(())
}

} // verus!
