//! The whole of the books to the eye, and what settling does to them.
//!
//! Here stand the sums that tie the records together: the stake of all
//! farmers of a seed, and what a farm owes all farmers. A farm owes a farmer
//! the stake times the rise of the farm's reward per seed since the farmer
//! last settled; the farm's unclaimed reward covers what it owes to all.

use vstd::prelude::*;
use crate::farm::{Farm, spec_unclaimed_for};
use crate::farm_seed::FarmSeedView;
use crate::farmer::FarmerView;
use crate::sums::{lemma_sum_bounds, lemma_sum_linear, lemma_sum_update, lemma_sum_zeros, sum};
use crate::types::{Balance, DENOM, TimestampSec};
use crate::wide::lemma_from_nat;

verus! {

/// All records to the eye: seeds and farms by name, farmers in the order in
/// which they registered, and the farms that were cleared away.
#[verifier::ext_equal]
pub struct ContractView {
    /// Who runs the books.
    pub owner_id: Seq<char>,
    pub seeds: Map<Seq<char>, FarmSeedView>,
    pub farmers: Seq<FarmerView>,
    pub farms: Map<Seq<char>, Farm>,
    pub outdated_farms: Map<Seq<char>, Farm>,
    /// For each seed of non-fungible tokens, the stake that each token, or
    /// each series or contract of tokens, stands for.
    pub nft_balance_seeds: Map<Seq<char>, Map<Seq<char>, Balance>>,
}

/// What the farm pays the farmer when they settle at time `now`.
pub open spec fn spec_settle_amount(
    farm: Farm,
    farmer: FarmerView,
    total_seeds: Balance,
    now: TimestampSec,
) -> int {
    spec_unclaimed_for(
        farmer.spec_rps(farm.farm_id@)@,
        farmer.spec_stake(farm.terms.seed_id@) as nat,
        farm.spec_distribute(total_seeds, now).last_distribution.rps@,
    )
}

/// The farm after it settled with the farmer at time `now`.
pub open spec fn spec_settle_farm(
    farm: Farm,
    farmer: FarmerView,
    total_seeds: Balance,
    now: TimestampSec,
) -> Farm {
    farm.spec_claim(
        farmer.spec_rps(farm.farm_id@),
        farmer.spec_stake(farm.terms.seed_id@),
        total_seeds,
        now,
    )
}

/// The farmer after settling with the farm at time `now`: the farm's reward
/// per seed is noted, and what was paid is added to the farmer's balance of
/// the reward token. There is no such farmer where that balance would pass
/// the greatest balance.
pub open spec fn spec_settle_farmer(
    farm: Farm,
    farmer: FarmerView,
    total_seeds: Balance,
    now: TimestampSec,
) -> Option<FarmerView> {
    let paid = spec_settle_amount(farm, farmer, total_seeds, now);
    let token = farm.terms.reward_token@;
    if paid > 0 && farmer.spec_reward(token) + paid > u128::MAX {
        None
    } else {
        Some(
            FarmerView {
                farmer_id: farmer.farmer_id,
                nft_seeds: farmer.nft_seeds,
                amount: farmer.amount,
                rewards: if paid > 0 {
                    farmer.rewards.insert(token, (farmer.spec_reward(token) + paid) as u128)
                } else {
                    farmer.rewards
                },
                seeds: farmer.seeds,
                user_rps: farmer.user_rps.insert(
                    farm.farm_id@,
                    spec_settle_farm(farm, farmer, total_seeds, now).last_distribution.rps,
                ),
            },
        )
    }
}

/// Each farmer's stake of a seed.
pub open spec fn stakes(farmers: Seq<FarmerView>, seed_id: Seq<char>) -> Seq<int> {
    Seq::new(farmers.len(), |i: int| farmers[i].spec_stake(seed_id) as int)
}

/// The stake of all farmers of a seed.
pub open spec fn total_stake(farmers: Seq<FarmerView>, seed_id: Seq<char>) -> int {
    sum(stakes(farmers, seed_id))
}

/// What a farm owes a farmer, times `DENOM`: the stake times the rise of
/// reward per seed since the farmer last settled.
pub open spec fn owed(farm: Farm, farmer: FarmerView) -> int {
    farmer.spec_stake(farm.terms.seed_id@) * (farm.last_distribution.rps@ - farmer.spec_rps(
        farm.farm_id@,
    )@)
}

/// What a farm owes each farmer, times `DENOM`.
pub open spec fn debts(farmers: Seq<FarmerView>, farm: Farm) -> Seq<int> {
    Seq::new(farmers.len(), |i: int| owed(farm, farmers[i]))
}

/// What a farm owes all farmers, times `DENOM`.
pub open spec fn total_owed(farmers: Seq<FarmerView>, farm: Farm) -> int {
    sum(debts(farmers, farm))
}

/// No farmer settled past the farm's reward per seed, and the farm's
/// unclaimed reward covers what it owes to all.
pub open spec fn covered(farmers: Seq<FarmerView>, farm: Farm) -> bool {
    &&& forall|i: int|
        0 <= i < farmers.len() ==> (#[trigger] farmers[i]).spec_rps(farm.farm_id@)@
            <= farm.last_distribution.rps@
    &&& total_owed(farmers, farm) <= DENOM * farm.last_distribution.unclaimed
}

/// A farmer changed in a way that leaves the stake of a seed alone leaves
/// the stake of all alone.
pub proof fn lemma_stake_frame(
    farmers: Seq<FarmerView>,
    i: int,
    farmer: FarmerView,
    seed_id: Seq<char>,
)
    requires
        0 <= i < farmers.len(),
        farmer.spec_stake(seed_id) == farmers[i].spec_stake(seed_id),
    ensures
        total_stake(farmers.update(i, farmer), seed_id) == total_stake(farmers, seed_id),
{
    assert(stakes(farmers.update(i, farmer), seed_id) =~= stakes(farmers, seed_id));
}

/// A farmer whose stake of a seed changed changes the stake of all by as
/// much.
pub proof fn lemma_stake_update(
    farmers: Seq<FarmerView>,
    i: int,
    farmer: FarmerView,
    seed_id: Seq<char>,
)
    requires
        0 <= i < farmers.len(),
    ensures
        total_stake(farmers.update(i, farmer), seed_id) == total_stake(farmers, seed_id)
            - farmers[i].spec_stake(seed_id) + farmer.spec_stake(seed_id),
{
    lemma_sum_update(stakes(farmers, seed_id), i, farmer.spec_stake(seed_id) as int);
    assert(stakes(farmers.update(i, farmer), seed_id) =~= stakes(farmers, seed_id).update(
        i,
        farmer.spec_stake(seed_id) as int,
    ));
}

/// No farmer's stake is greater than the stake of all.
pub proof fn lemma_stake_bound(farmers: Seq<FarmerView>, i: int, seed_id: Seq<char>)
    requires
        0 <= i < farmers.len(),
    ensures
        farmers[i].spec_stake(seed_id) <= total_stake(farmers, seed_id),
{
    lemma_sum_bounds(stakes(farmers, seed_id));
    assert(stakes(farmers, seed_id)[i] == farmers[i].spec_stake(seed_id));
}

/// A farmer changed in a way that leaves what a farm owes the farmer alone
/// leaves what the farm owes to all alone.
pub proof fn lemma_owed_frame(farmers: Seq<FarmerView>, i: int, farmer: FarmerView, farm: Farm)
    requires
        0 <= i < farmers.len(),
        owed(farm, farmer) == owed(farm, farmers[i]),
    ensures
        total_owed(farmers.update(i, farmer), farm) == total_owed(farmers, farm),
{
    assert(debts(farmers.update(i, farmer), farm) =~= debts(farmers, farm));
}

/// A farmer changed changes what a farm owes to all by as much as what it
/// owes the farmer changed.
pub proof fn lemma_owed_update(farmers: Seq<FarmerView>, i: int, farmer: FarmerView, farm: Farm)
    requires
        0 <= i < farmers.len(),
    ensures
        total_owed(farmers.update(i, farmer), farm) == total_owed(farmers, farm) - owed(
            farm,
            farmers[i],
        ) + owed(farm, farmer),
{
    lemma_sum_update(debts(farmers, farm), i, owed(farm, farmer));
    assert(debts(farmers.update(i, farmer), farm) =~= debts(farmers, farm).update(
        i,
        owed(farm, farmer),
    ));
}

/// Where no farmer settled past the farm's reward per seed, the farm owes
/// no farmer more than it owes to all, and owes nobody less than nothing.
pub proof fn lemma_owed_bound(farmers: Seq<FarmerView>, i: int, farm: Farm)
    requires
        0 <= i < farmers.len(),
        forall|j: int|
            0 <= j < farmers.len() ==> (#[trigger] farmers[j]).spec_rps(farm.farm_id@)@
                <= farm.last_distribution.rps@,
    ensures
        0 <= owed(farm, farmers[i]) <= total_owed(farmers, farm),
{
    let d = debts(farmers, farm);
    assert forall|j: int| 0 <= j < d.len() implies d[j] >= 0 by {
        let stake = farmers[j].spec_stake(farm.terms.seed_id@) as int;
        let rise = farm.last_distribution.rps@ - farmers[j].spec_rps(farm.farm_id@)@;
        assert(stake * rise >= 0) by (nonlinear_arith)
            requires
                stake >= 0,
                rise >= 0,
        ;
    }
    lemma_sum_bounds(d);
    assert(d[i] == owed(farm, farmers[i]));
}

/// Writing a release down keeps a farm covered, where the release goes over
/// the stake of all farmers of the farm's seed: what the farm owes grows by
/// no more than what was released, and with nothing staked it owes nothing.
pub proof fn lemma_distribute_covered(
    farmers: Seq<FarmerView>,
    farm: Farm,
    total_seeds: Balance,
    now: TimestampSec,
)
    requires
        farm.wf(),
        covered(farmers, farm),
        total_seeds == total_stake(farmers, farm.terms.seed_id@),
    ensures
        covered(farmers, farm.spec_distribute(total_seeds, now)),
        farm.spec_distribute(total_seeds, now).wf(),
{
    let after = farm.spec_distribute(total_seeds, now);
    farm.lemma_distribute_keeps(total_seeds, now);
    if farm.spec_started(now) {
        farm.lemma_release_bounds(total_seeds, now);
        lemma_from_nat(farm.spec_rps_after(total_seeds, now) as nat);
        let d = farm.last_distribution;
        let released = farm.spec_reward_released(now);
        let before = debts(farmers, farm);
        let later = debts(farmers, after);
        let st = stakes(farmers, farm.terms.seed_id@);
        if total_seeds != 0 {
            let t = total_seeds as int;
            let gain = (released * DENOM) / t;
            assert(after.last_distribution.rps@ == d.rps@ + gain);
            assert forall|i: int| 0 <= i < later.len() implies later[i] == before[i] + gain
                * st[i] by {
                let stake = farmers[i].spec_stake(farm.terms.seed_id@) as int;
                let rise = d.rps@ - farmers[i].spec_rps(farm.farm_id@)@;
                assert(stake * (rise + gain) == stake * rise + gain * stake) by (nonlinear_arith);
            }
            lemma_sum_linear(before, st, gain, later);
            assert(gain * t <= released * DENOM) by (nonlinear_arith)
                requires
                    gain == (released * DENOM) / t,
                    t > 0,
                    released >= 0,
            ;
            assert(DENOM * (d.unclaimed + released) == DENOM * d.unclaimed + released * DENOM)
                by (nonlinear_arith);
        } else {
            assert(later =~= before);
            if after.last_distribution.unclaimed == 0 {
                lemma_sum_bounds(st);
                assert forall|i: int| 0 <= i < later.len() implies later[i] == 0 by {
                    assert(st[i] == 0);
                    let rise = d.rps@ - farmers[i].spec_rps(farm.farm_id@)@;
                    assert(0 * rise == 0);
                }
                lemma_sum_zeros(later);
            } else {
                assert(DENOM * (d.unclaimed + released) >= DENOM * d.unclaimed)
                    by (nonlinear_arith)
                    requires
                        released >= 0,
                ;
            }
        }
    }
}

/// A covered farm can pay any farmer's claim, where the release goes over
/// the stake of all farmers of the farm's seed.
pub proof fn lemma_can_settle(
    farmers: Seq<FarmerView>,
    i: int,
    farm: Farm,
    total_seeds: Balance,
    now: TimestampSec,
)
    requires
        0 <= i < farmers.len(),
        farm.wf(),
        covered(farmers, farm),
        total_seeds == total_stake(farmers, farm.terms.seed_id@),
    ensures
        farm.spec_can_claim(
            farmers[i].spec_rps(farm.farm_id@),
            farmers[i].spec_stake(farm.terms.seed_id@),
            total_seeds,
            now,
        ),
        0 <= spec_settle_amount(farm, farmers[i], total_seeds, now) <= farm.spec_distribute(
            total_seeds,
            now,
        ).last_distribution.unclaimed,
{
    let after = farm.spec_distribute(total_seeds, now);
    lemma_distribute_covered(farmers, farm, total_seeds, now);
    lemma_owed_bound(farmers, i, after);
    let due = owed(after, farmers[i]);
    let cap = after.last_distribution.unclaimed as int;
    assert(0 <= due / (DENOM as int) <= cap) by (nonlinear_arith)
        requires
            0 <= due <= DENOM * cap,
            DENOM > 0,
    ;
}

/// Settling keeps the farm covered: the farm pays the farmer no more than
/// it owes, and after it the farm owes this farmer nothing.
pub proof fn lemma_settle_covered(
    farmers: Seq<FarmerView>,
    i: int,
    farm: Farm,
    total_seeds: Balance,
    now: TimestampSec,
)
    requires
        0 <= i < farmers.len(),
        farm.wf(),
        covered(farmers, farm),
        total_seeds == total_stake(farmers, farm.terms.seed_id@),
        spec_settle_farmer(farm, farmers[i], total_seeds, now) is Some,
    ensures
        covered(
            farmers.update(i, spec_settle_farmer(farm, farmers[i], total_seeds, now)->0),
            spec_settle_farm(farm, farmers[i], total_seeds, now),
        ),
        spec_settle_farm(farm, farmers[i], total_seeds, now).wf(),
        owed(
            spec_settle_farm(farm, farmers[i], total_seeds, now),
            spec_settle_farmer(farm, farmers[i], total_seeds, now)->0,
        ) == 0,
{
    let mid = farm.spec_distribute(total_seeds, now);
    let end = spec_settle_farm(farm, farmers[i], total_seeds, now);
    let payee = spec_settle_farmer(farm, farmers[i], total_seeds, now)->0;
    let paid = spec_settle_amount(farm, farmers[i], total_seeds, now);
    let later = farmers.update(i, payee);
    lemma_distribute_covered(farmers, farm, total_seeds, now);
    lemma_can_settle(farmers, i, farm, total_seeds, now);
    lemma_owed_bound(farmers, i, mid);
    // The farm owes the others what it owed them, and this farmer nothing.
    assert(debts(farmers, end) =~= debts(farmers, mid));
    lemma_owed_update(farmers, i, payee, end);
    let due = owed(mid, farmers[i]);
    assert(owed(end, farmers[i]) == due);
    let stake = payee.spec_stake(end.terms.seed_id@) as int;
    assert(owed(end, payee) == stake * 0);
    assert(stake * 0 == 0);
    let cap = mid.last_distribution.unclaimed as int;
    assert(DENOM * paid <= due) by (nonlinear_arith)
        requires
            paid == due / (DENOM as int),
            due >= 0,
            DENOM > 0,
    ;
    assert(DENOM * (cap - paid) == DENOM * cap - DENOM * paid) by (nonlinear_arith);
    assert forall|j: int| 0 <= j < later.len() implies (#[trigger] later[j]).spec_rps(
        end.farm_id@,
    )@ <= end.last_distribution.rps@ by {
        if j != i {
            assert(later[j] == farmers[j]);
        }
    }
}

} // verus!
