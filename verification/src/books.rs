//! What holds of the books at all times.
//!
//! Every record stands under its own name; farms and seeds point at each
//! other; a seed's total is the stake of all its farmers; and every farm is
//! covered: its unclaimed reward pays what it owes. Here this is said, with
//! what a change to one farm or one farmer needs to keep it; each action on
//! the books is shown to keep it where the action stands.

use vstd::prelude::*;
use crate::farm::Farm;
use crate::farm_seed::FarmSeedView;
use crate::farmer::FarmerView;
use crate::model::{
    ContractView, covered, debts, lemma_owed_frame, lemma_stake_update, owed, total_stake,
};
use crate::types::{Balance, DENOM};
use crate::utils::{lemma_parse_names_seed, spec_gen_farm_id, spec_parse_farm_id};

verus! {

/// Whether the farmer at position `i` has the name `id`.
pub open spec fn farmer_at(c: ContractView, id: Seq<char>, i: int) -> bool {
    0 <= i < c.farmers.len() && c.farmers[i].farmer_id == id
}

/// Whether a farmer with the name `id` is registered.
pub open spec fn has_farmer(c: ContractView, id: Seq<char>) -> bool {
    exists|i: int| farmer_at(c, id, i)
}

/// The position of the farmer with the name `id`.
pub open spec fn farmer_index(c: ContractView, id: Seq<char>) -> int {
    choose|i: int| farmer_at(c, id, i)
}

/// Whether `id` is the name that a farm with number `n` under the seed
/// `seed_id` gets.
pub open spec fn numbered(id: Seq<char>, seed_id: Seq<char>, n: nat) -> bool {
    id == spec_gen_farm_id(seed_id, n)
}

/// The farm's seed is on record, and the farm's name is made of the seed's
/// name and a number that the seed has given out.
pub open spec fn spec_names(seeds: Map<Seq<char>, FarmSeedView>, farm: Farm) -> bool {
    let seed_id = farm.terms.seed_id@;
    &&& seeds.contains_key(seed_id)
    &&& exists|n: nat|
        n < seeds[seed_id].next_index && #[trigger] numbered(farm.farm_id@, seed_id, n)
}

/// Every record stands under its own name, every farm's books balance, no
/// seed lists a farm twice, and no two farmers share a name.
pub open spec fn inv_records(c: ContractView) -> bool {
    &&& forall|k: Seq<char>| #[trigger]
        c.farms.contains_key(k) ==> c.farms[k].farm_id@ == k && c.farms[k].wf()
    &&& forall|k: Seq<char>| #[trigger]
        c.outdated_farms.contains_key(k) ==> c.outdated_farms[k].farm_id@ == k
            && c.outdated_farms[k].wf()
    &&& forall|k: Seq<char>| #[trigger]
        c.seeds.contains_key(k) ==> c.seeds[k].seed_id == k && c.seeds[k].farms.no_duplicates()
    &&& forall|i: int, j: int|
        0 <= i < j < c.farmers.len() ==> (#[trigger] c.farmers[i]).farmer_id != (
        #[trigger] c.farmers[j]).farmer_id
}

/// Every farm is listed by its seed, and every farm that a seed lists is a
/// farm of that seed.
pub open spec fn inv_links(c: ContractView) -> bool {
    &&& forall|k: Seq<char>| #[trigger]
        c.farms.contains_key(k) ==> c.seeds.contains_key(c.farms[k].terms.seed_id@)
            && c.seeds[c.farms[k].terms.seed_id@].farms.contains(k)
    &&& forall|s: Seq<char>, k: Seq<char>|
        c.seeds.contains_key(s) && #[trigger] c.seeds[s].farms.contains(k)
            ==> c.farms.contains_key(k) && c.farms[k].terms.seed_id@ == s
}

/// Every farm, cleared away or not, has a name that its seed gave out, and
/// every farm that a farmer settled with is such a farm.
pub open spec fn inv_names(c: ContractView) -> bool {
    &&& forall|k: Seq<char>| #[trigger]
        c.farms.contains_key(k) ==> spec_names(c.seeds, c.farms[k])
    &&& forall|k: Seq<char>| #[trigger]
        c.outdated_farms.contains_key(k) ==> spec_names(c.seeds, c.outdated_farms[k])
    &&& forall|i: int, k: Seq<char>|
        0 <= i < c.farmers.len() && #[trigger] c.farmers[i].user_rps.contains_key(k)
            ==> c.farms.contains_key(k) || c.outdated_farms.contains_key(k)
}

/// A seed's total is the stake of all its farmers, and every stake is a
/// stake of a seed on record.
pub open spec fn inv_totals(c: ContractView) -> bool {
    &&& forall|s: Seq<char>| #[trigger]
        c.seeds.contains_key(s) ==> c.seeds[s].amount == total_stake(c.farmers, s)
    &&& forall|i: int, s: Seq<char>|
        0 <= i < c.farmers.len() && #[trigger] c.farmers[i].seeds.contains_key(s)
            ==> c.seeds.contains_key(s)
}

/// Every farm is covered.
pub open spec fn inv_debts(c: ContractView) -> bool {
    forall|k: Seq<char>| #[trigger] c.farms.contains_key(k) ==> covered(c.farmers, c.farms[k])
}

/// All that holds of the books at all times.
pub open spec fn inv(c: ContractView) -> bool {
    &&& inv_records(c)
    &&& inv_links(c)
    &&& inv_names(c)
    &&& inv_totals(c)
    &&& inv_debts(c)
}

/// Whether `after` is the farmer `before` with other stakes and other
/// balances, owed by every farm what `before` was owed: the name is the
/// same, and nothing is noted of a farm that was not noted before.
pub open spec fn spec_farmer_restaked(
    c: ContractView,
    before: FarmerView,
    after: FarmerView,
) -> bool {
    &&& after.farmer_id == before.farmer_id
    &&& forall|k: Seq<char>| #[trigger]
        after.user_rps.contains_key(k) ==> before.user_rps.contains_key(k)
    &&& forall|k: Seq<char>| #[trigger]
        c.farms.contains_key(k) ==> owed(c.farms[k], after) == owed(c.farms[k], before)
            && after.spec_rps(k)@ <= c.farms[k].last_distribution.rps@
}

/// Whether `after` are the seeds `before` with each total changed by as much
/// as the stake of one farmer changed, from `old_farmer` to `new_farmer`.
pub open spec fn spec_seeds_restaked(
    before: Map<Seq<char>, FarmSeedView>,
    after: Map<Seq<char>, FarmSeedView>,
    old_farmer: FarmerView,
    new_farmer: FarmerView,
) -> bool {
    &&& forall|s: Seq<char>| before.contains_key(s) == #[trigger] after.contains_key(s)
    &&& forall|s: Seq<char>| #[trigger]
        after.contains_key(s) ==> {
            &&& after[s].seed_id == before[s].seed_id
            &&& after[s].farms == before[s].farms
            &&& after[s].next_index == before[s].next_index
            &&& after[s].amount == before[s].amount - old_farmer.spec_stake(s)
                + new_farmer.spec_stake(s)
        }
    &&& forall|s: Seq<char>| #[trigger]
        new_farmer.seeds.contains_key(s) ==> after.contains_key(s)
}

/// A farmer's stakes and balances may change, and the seeds' totals with
/// the stakes, and all that holds of the books holds still, as long as every
/// farm owes the farmer what it owed before.
pub proof fn lemma_farmer_replaced(c: ContractView, d: ContractView, fi: int)
    requires
        inv(c),
        0 <= fi < c.farmers.len(),
        d.farms == c.farms,
        d.outdated_farms == c.outdated_farms,
        d.farmers == c.farmers.update(fi, d.farmers[fi]),
        spec_farmer_restaked(c, c.farmers[fi], d.farmers[fi]),
        spec_seeds_restaked(c.seeds, d.seeds, c.farmers[fi], d.farmers[fi]),
    ensures
        inv(d),
{
    let before = c.farmers[fi];
    let after = d.farmers[fi];
    assert(inv_records(d)) by {
        assert forall|k: Seq<char>| #[trigger] d.seeds.contains_key(k) implies d.seeds[k].seed_id
            == k && d.seeds[k].farms.no_duplicates() by {
            assert(c.seeds.contains_key(k));
        }
        assert forall|i: int, j: int| 0 <= i < j < d.farmers.len() implies (
        #[trigger] d.farmers[i]).farmer_id != (#[trigger] d.farmers[j]).farmer_id by {
            assert(d.farmers[i].farmer_id == c.farmers[i].farmer_id);
            assert(d.farmers[j].farmer_id == c.farmers[j].farmer_id);
        }
    }
    assert(inv_links(d)) by {
        assert forall|k: Seq<char>| #[trigger] d.farms.contains_key(k) implies d.seeds.contains_key(
            d.farms[k].terms.seed_id@,
        ) && d.seeds[d.farms[k].terms.seed_id@].farms.contains(k) by {
            let s = c.farms[k].terms.seed_id@;
            assert(c.seeds.contains_key(s));
            assert(d.seeds.contains_key(s));
        }
        assert forall|s: Seq<char>, k: Seq<char>|
            d.seeds.contains_key(s) && #[trigger] d.seeds[s].farms.contains(
                k,
            ) implies d.farms.contains_key(k) && d.farms[k].terms.seed_id@ == s by {
            assert(c.seeds.contains_key(s));
            assert(c.seeds[s].farms.contains(k));
        }
    }
    assert(inv_names(d)) by {
        assert forall|k: Seq<char>| #[trigger] d.farms.contains_key(k) implies spec_names(
            d.seeds,
            d.farms[k],
        ) by {
            lemma_names_moved(c.seeds, d.seeds, c.farms[k]);
        }
        assert forall|k: Seq<char>| #[trigger]
            d.outdated_farms.contains_key(k) implies spec_names(d.seeds, d.outdated_farms[k]) by {
            lemma_names_moved(c.seeds, d.seeds, c.outdated_farms[k]);
        }
        assert forall|i: int, k: Seq<char>|
            0 <= i < d.farmers.len() && #[trigger] d.farmers[i].user_rps.contains_key(
                k,
            ) implies d.farms.contains_key(k) || d.outdated_farms.contains_key(k) by {
            if i == fi {
                assert(before.user_rps.contains_key(k));
            }
            assert(c.farmers[i].user_rps.contains_key(k));
        }
    }
    assert(inv_totals(d)) by {
        assert forall|s: Seq<char>| #[trigger] d.seeds.contains_key(s) implies d.seeds[s].amount
            == total_stake(d.farmers, s) by {
            assert(c.seeds.contains_key(s));
            lemma_stake_update(c.farmers, fi, after, s);
        }
        assert forall|i: int, s: Seq<char>|
            0 <= i < d.farmers.len() && #[trigger] d.farmers[i].seeds.contains_key(
                s,
            ) implies d.seeds.contains_key(s) by {
            if i != fi {
                assert(c.farmers[i].seeds.contains_key(s));
                assert(c.seeds.contains_key(s));
            }
        }
    }
    assert(inv_debts(d)) by {
        assert forall|k: Seq<char>| #[trigger] d.farms.contains_key(k) implies covered(
            d.farmers,
            d.farms[k],
        ) by {
            let farm = c.farms[k];
            assert(covered(c.farmers, farm));
            lemma_owed_frame(c.farmers, fi, after, farm);
            assert forall|j: int| 0 <= j < d.farmers.len() implies (
            #[trigger] d.farmers[j]).spec_rps(farm.farm_id@)@
                <= farm.last_distribution.rps@ by {
                if j != fi {
                    assert(d.farmers[j] == c.farmers[j]);
                }
            }
        }
    }
}

/// A farm that had a name from its seed still has one where every seed is
/// still on record and gave out no fewer numbers.
pub proof fn lemma_names_moved(
    before: Map<Seq<char>, FarmSeedView>,
    after: Map<Seq<char>, FarmSeedView>,
    farm: Farm,
)
    requires
        spec_names(before, farm),
        forall|s: Seq<char>| before.contains_key(s) == #[trigger] after.contains_key(s),
        forall|s: Seq<char>| #[trigger]
            after.contains_key(s) ==> after[s].next_index == before[s].next_index,
    ensures
        spec_names(after, farm),
{
    let s = farm.terms.seed_id@;
    let n = choose|n: nat| n < before[s].next_index && #[trigger] numbered(farm.farm_id@, s, n);
    assert(after.contains_key(s));
    assert(n < after[s].next_index && numbered(farm.farm_id@, s, n));
}

/// The farmer with another table of balances.
pub open spec fn spec_with_rewards(
    farmer: FarmerView,
    rewards: Map<Seq<char>, Balance>,
) -> FarmerView {
    FarmerView {
        farmer_id: farmer.farmer_id,
        nft_seeds: farmer.nft_seeds,
        amount: farmer.amount,
        rewards,
        seeds: farmer.seeds,
        user_rps: farmer.user_rps,
    }
}

/// The books with another farmer at position `fi`.
pub open spec fn spec_with_farmer(c: ContractView, fi: int, farmer: FarmerView) -> ContractView {
    ContractView {
        seeds: c.seeds,
        farmers: c.farmers.update(fi, farmer),
        farms: c.farms,
        outdated_farms: c.outdated_farms,
        nft_balance_seeds: c.nft_balance_seeds,
        owner_id: c.owner_id,
    }
}

/// A farmer's balances and deposit may change, and all that holds of the
/// books holds still.
pub proof fn lemma_rewards_changed(c: ContractView, fi: int, after: FarmerView)
    requires
        inv(c),
        0 <= fi < c.farmers.len(),
        after.farmer_id == c.farmers[fi].farmer_id,
        after.seeds == c.farmers[fi].seeds,
        after.user_rps == c.farmers[fi].user_rps,
    ensures
        inv(spec_with_farmer(c, fi, after)),
{
    let d = spec_with_farmer(c, fi, after);
    let before = c.farmers[fi];
    assert(spec_farmer_restaked(c, before, after)) by {
        assert forall|k: Seq<char>| #[trigger] c.farms.contains_key(k) implies owed(
            c.farms[k],
            after,
        ) == owed(c.farms[k], before) && after.spec_rps(k)@
            <= c.farms[k].last_distribution.rps@ by {
            assert(covered(c.farmers, c.farms[k]));
            assert(before.spec_rps(c.farms[k].farm_id@)@ <= c.farms[k].last_distribution.rps@);
        }
    }
    assert(spec_seeds_restaked(c.seeds, d.seeds, before, after)) by {
        assert forall|s: Seq<char>| #[trigger] after.seeds.contains_key(s) implies d.seeds.contains_key(
        s) by {
            assert(c.farmers[fi].seeds.contains_key(s));
        }
    }
    assert(d.farmers[fi] == after);
    lemma_farmer_replaced(c, d, fi);
}

/// The seed in the name of a farm on the books is the farm's seed, where
/// the name can be read.
pub proof fn lemma_parsed_seed(c: ContractView, farm_id: Seq<char>)
    requires
        inv(c),
        c.farms.contains_key(farm_id),
        spec_parse_farm_id(farm_id) is Some,
    ensures
        match spec_parse_farm_id(farm_id) {
            Some((read, _)) => read == c.farms[farm_id].terms.seed_id@,
            None => false,
        },
{
    let farm = c.farms[farm_id];
    assert(spec_names(c.seeds, farm));
    let s = farm.terms.seed_id@;
    let n = choose|n: nat| n < c.seeds[s].next_index && #[trigger] numbered(farm.farm_id@, s, n);
    lemma_parse_names_seed(farm_id, s, n);
}

/// A farm changed in a way that leaves its names, its reward per seed and
/// its unclaimed reward alone, and keeps its books balanced, keeps all that
/// holds of the books.
pub proof fn lemma_farm_replaced(c: ContractView, farm_id: Seq<char>, farm: Farm)
    requires
        inv(c),
        c.farms.contains_key(farm_id),
        farm.wf(),
        farm.farm_id == c.farms[farm_id].farm_id,
        farm.terms.seed_id == c.farms[farm_id].terms.seed_id,
        farm.last_distribution.rps@ >= c.farms[farm_id].last_distribution.rps@,
        farm.last_distribution.rps@ == c.farms[farm_id].last_distribution.rps@
            && farm.last_distribution.unclaimed >= c.farms[farm_id].last_distribution.unclaimed
            || covered(c.farmers, farm),
    ensures
        inv(
            ContractView {
                seeds: c.seeds,
                farmers: c.farmers,
                farms: c.farms.insert(farm_id, farm),
                outdated_farms: c.outdated_farms,
                nft_balance_seeds: c.nft_balance_seeds,
                owner_id: c.owner_id,
            },
        ),
{
    let d = ContractView {
        seeds: c.seeds,
        farmers: c.farmers,
        farms: c.farms.insert(farm_id, farm),
        outdated_farms: c.outdated_farms,
        nft_balance_seeds: c.nft_balance_seeds,
        owner_id: c.owner_id,
    };
    let old_farm = c.farms[farm_id];
    assert(inv_records(d)) by {
        assert forall|k: Seq<char>| #[trigger] d.farms.contains_key(k) implies d.farms[k].farm_id@
            == k && d.farms[k].wf() by {
            assert(c.farms.contains_key(k));
        }
    }
    assert(inv_links(d)) by {
        assert forall|k: Seq<char>| #[trigger] d.farms.contains_key(k) implies d.seeds.contains_key(
            d.farms[k].terms.seed_id@,
        ) && d.seeds[d.farms[k].terms.seed_id@].farms.contains(k) by {
            assert(c.farms.contains_key(k));
        }
        assert forall|s: Seq<char>, k: Seq<char>|
            d.seeds.contains_key(s) && #[trigger] d.seeds[s].farms.contains(
                k,
            ) implies d.farms.contains_key(k) && d.farms[k].terms.seed_id@ == s by {
            assert(c.seeds[s].farms.contains(k));
        }
    }
    assert(inv_names(d)) by {
        assert forall|k: Seq<char>| #[trigger] d.farms.contains_key(k) implies spec_names(
            d.seeds,
            d.farms[k],
        ) by {
            assert(c.farms.contains_key(k));
            assert(spec_names(c.seeds, c.farms[k]));
            if k == farm_id {
                let s = old_farm.terms.seed_id@;
                let n = choose|n: nat|
                    n < c.seeds[s].next_index && #[trigger] numbered(old_farm.farm_id@, s, n);
                assert(numbered(farm.farm_id@, s, n));
            }
        }
        assert forall|i: int, k: Seq<char>|
            0 <= i < d.farmers.len() && #[trigger] d.farmers[i].user_rps.contains_key(
                k,
            ) implies d.farms.contains_key(k) || d.outdated_farms.contains_key(k) by {
            assert(c.farmers[i].user_rps.contains_key(k));
        }
    }
    assert(inv_debts(d)) by {
        assert forall|k: Seq<char>| #[trigger] d.farms.contains_key(k) implies covered(
            d.farmers,
            d.farms[k],
        ) by {
            assert(c.farms.contains_key(k));
            if k == farm_id && !covered(c.farmers, farm) {
                assert(covered(c.farmers, old_farm));
                assert(debts(c.farmers, farm) =~= debts(c.farmers, old_farm));
                let (a, b) = (
                    old_farm.last_distribution.unclaimed as int,
                    farm.last_distribution.unclaimed as int,
                );
                assert(DENOM * a <= DENOM * b) by (nonlinear_arith)
                    requires
                        a <= b,
                ;
            }
        }
    }
}

/// A farmer's name leads to the farmer's position, and to no other.
pub proof fn lemma_farmer_index(c: ContractView, id: Seq<char>, i: int)
    requires
        inv_records(c),
        farmer_at(c, id, i),
    ensures
        has_farmer(c, id),
        farmer_index(c, id) == i,
{
    let j = farmer_index(c, id);
    assert(farmer_at(c, id, j));
    if j < i {
        assert(c.farmers[j].farmer_id != c.farmers[i].farmer_id);
    }
    if i < j {
        assert(c.farmers[i].farmer_id != c.farmers[j].farmer_id);
    }
}

} // verus!
