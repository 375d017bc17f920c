//! What holds of the books whatever the farmers do.
//!
//! The actions of farmers and funders are written down as values, and a
//! history is a sequence of them; a refused action leaves the books as they
//! were. Over every history the books stay in order: every farm's books
//! balance, no farm's reward per seed ever falls, and no farm goes back in
//! its life. And a farmer who stakes and takes the stake back within one
//! session has earned nothing by it.

use vstd::prelude::*;
use crate::books::{
    farmer_at, farmer_index, has_farmer, inv, lemma_farm_replaced, lemma_farmer_index,
    lemma_parsed_seed, lemma_rewards_changed,
};
use crate::claims::{spec_claim_reward_by_farm, spec_claim_reward_by_seed};
use crate::clearing::{lemma_removed_user_rps, spec_remove_user_rps};
use crate::contract::{lemma_register_account, spec_register_account};
use crate::creation::spec_deposit_reward;
use crate::farm::Farm;
use crate::farmer::FarmerView;
use crate::internals::{
    lemma_settle_all, lemma_settle_one, spec_settle_all, spec_settle_one, spec_settled,
};
use crate::model::{
    ContractView, lemma_stake_bound, spec_settle_amount, spec_settle_farm, spec_settle_farmer,
};
use crate::nft::{spec_nft_deposit, spec_nft_withdraw};
use crate::rewards::{
    lemma_payout_frame, spec_claim_by_farm_and_withdraw, spec_claim_by_seed_and_withdraw,
    spec_payout, spec_restore_reward, spec_storage_withdraw, spec_withdraw_reward,
    spec_without_reward,
};
use crate::stake::{
    lemma_restaked, spec_deposit_seed, spec_forgetting, spec_seed_deposit, spec_seed_staking,
    spec_seed_withdraw, spec_with_stake, spec_withdraw_seed,
};
use crate::types::{Balance, DENOM, TimestampSec};
use crate::utils::{spec_contract_nft_token_id, spec_nft_balance_equivalent};
use crate::wide::lemma_from_nat_view;

verus! {

/// Something that a farmer or a funder does to the books.
pub enum Action {
    /// An account registers, with a deposit for storage.
    Register { account_id: Seq<char>, amount: Balance },
    /// Reward is put into a farm.
    DepositReward { farm_id: Seq<char>, reward_token: Seq<char>, amount: Balance, now: TimestampSec },
    /// A farmer stakes.
    DepositSeed { sender_id: Seq<char>, seed_id: Seq<char>, amount: Balance, now: TimestampSec },
    /// A farmer takes stake back.
    WithdrawSeed { sender_id: Seq<char>, seed_id: Seq<char>, amount: Balance, now: TimestampSec },
    /// A farmer claims from one farm.
    ClaimByFarm { sender_id: Seq<char>, farm_id: Seq<char>, now: TimestampSec },
    /// A farmer claims from all farms of a seed.
    ClaimBySeed { sender_id: Seq<char>, seed_id: Seq<char>, now: TimestampSec },
    /// A farmer withdraws claimed reward.
    WithdrawReward { sender_id: Seq<char>, token_id: Seq<char>, amount: Balance },
    /// A farmer claims from one farm and withdraws what it pays in.
    ClaimByFarmAndWithdraw { sender_id: Seq<char>, farm_id: Seq<char>, now: TimestampSec },
    /// A farmer claims from all farms of a seed and withdraws what they pay
    /// in.
    ClaimBySeedAndWithdraw { sender_id: Seq<char>, seed_id: Seq<char>, now: TimestampSec },
    /// A withdrawal of reward that could not be paid is given back.
    RestoreReward { sender_id: Seq<char>, token_id: Seq<char>, amount: Balance },
    /// Stake that could not be paid back is staked again.
    RestoreSeed { sender_id: Seq<char>, seed_id: Seq<char>, amount: Balance, now: TimestampSec },
    /// A farmer stakes a non-fungible token; one that could not be handed
    /// back is staked again, with nothing paid out.
    DepositNft {
        sender_id: Seq<char>,
        seed_id: Seq<char>,
        nft_contract_id: Seq<char>,
        nft_token_id: Seq<char>,
        now: TimestampSec,
        pay: bool,
    },
    /// A farmer takes a non-fungible token back.
    WithdrawNft {
        sender_id: Seq<char>,
        seed_id: Seq<char>,
        nft_contract_id: Seq<char>,
        nft_token_id: Seq<char>,
        now: TimestampSec,
    },
    /// A farmer takes back deposit for storage.
    StorageWithdraw { account_id: Seq<char>, amount: Balance },
    /// A farmer forgets what was noted of a farm.
    RemoveUserRps { sender_id: Seq<char>, farm_id: Seq<char> },
}

/// The books after an action; the books as they were where the action is
/// refused.
pub open spec fn spec_act(c: ContractView, action: Action) -> ContractView {
    match action {
        Action::Register { account_id, amount } => match spec_register_account(
            c,
            account_id,
            amount,
        ) {
            Ok(d) => d,
            Err(_) => c,
        },
        Action::DepositReward { farm_id, reward_token, amount, now } => match spec_deposit_reward(
            c,
            farm_id,
            reward_token,
            amount,
            now,
        ) {
            Ok(d) => d,
            Err(_) => c,
        },
        Action::DepositSeed { sender_id, seed_id, amount, now } => match spec_deposit_seed(
            c,
            sender_id,
            seed_id,
            amount,
            now,
        ) {
            Ok((d, _)) => d,
            Err(_) => c,
        },
        Action::WithdrawSeed { sender_id, seed_id, amount, now } => match spec_withdraw_seed(
            c,
            sender_id,
            seed_id,
            amount,
            now,
        ) {
            Ok((d, _)) => d,
            Err(_) => c,
        },
        Action::ClaimByFarm { sender_id, farm_id, now } => match spec_claim_reward_by_farm(
            c,
            sender_id,
            farm_id,
            now,
        ) {
            Ok(d) => d,
            Err(_) => c,
        },
        Action::ClaimBySeed { sender_id, seed_id, now } => match spec_claim_reward_by_seed(
            c,
            sender_id,
            seed_id,
            now,
        ) {
            Ok(d) => d,
            Err(_) => c,
        },
        Action::WithdrawReward { sender_id, token_id, amount } => match spec_withdraw_reward(
            c,
            sender_id,
            token_id,
            amount,
        ) {
            Ok((d, _)) => d,
            Err(_) => c,
        },
        Action::ClaimByFarmAndWithdraw {
            sender_id,
            farm_id,
            now,
        } => match spec_claim_by_farm_and_withdraw(c, sender_id, farm_id, now) {
            Ok((d, _)) => d,
            Err(_) => c,
        },
        Action::ClaimBySeedAndWithdraw {
            sender_id,
            seed_id,
            now,
        } => match spec_claim_by_seed_and_withdraw(c, sender_id, seed_id, now) {
            Ok((d, _)) => d,
            Err(_) => c,
        },
        Action::RestoreReward { sender_id, token_id, amount } => match spec_restore_reward(
            c,
            sender_id,
            token_id,
            amount,
        ) {
            Ok(d) => d,
            Err(_) => c,
        },
        Action::RestoreSeed { sender_id, seed_id, amount, now } => match spec_seed_staking(
            c,
            seed_id,
            sender_id,
            amount,
            now,
            false,
        ) {
            Ok((d, _)) => d,
            Err(_) => c,
        },
        Action::DepositNft {
            sender_id,
            seed_id,
            nft_contract_id,
            nft_token_id,
            now,
            pay,
        } => match spec_nft_deposit(c, seed_id, sender_id, nft_contract_id, nft_token_id, now, pay) {
            Ok((d, _, _)) => d,
            Err(_) => c,
        },
        Action::WithdrawNft {
            sender_id,
            seed_id,
            nft_contract_id,
            nft_token_id,
            now,
        } => match spec_nft_withdraw(c, seed_id, sender_id, nft_contract_id, nft_token_id, now) {
            Ok((d, _)) => d,
            Err(_) => c,
        },
        Action::StorageWithdraw { account_id, amount } => match spec_storage_withdraw(
            c,
            account_id,
            amount,
        ) {
            Ok((d, _)) => d,
            Err(_) => c,
        },
        Action::RemoveUserRps { sender_id, farm_id } => match spec_remove_user_rps(
            c,
            sender_id,
            farm_id,
        ) {
            Ok((d, _)) => d,
            Err(_) => c,
        },
    }
}

/// The books after a history of actions, one after the other.
pub open spec fn spec_run(c: ContractView, history: Seq<Action>) -> ContractView
    decreases history.len(),
{
    if history.len() == 0 {
        c
    } else {
        spec_act(spec_run(c, history.drop_last()), history.last())
    }
}

/// Whether the books `d` can follow the books `c`: they hold the same farms,
/// each under its name and terms, none with less reward per seed, with less
/// reward put in, or earlier in its life; and every farmer of `c` is a
/// farmer of `d`, at the same place.
pub open spec fn spec_follows(c: ContractView, d: ContractView) -> bool {
    &&& c.farmers.len() <= d.farmers.len()
    &&& forall|i: int|
        0 <= i < c.farmers.len() ==> (#[trigger] d.farmers[i]).farmer_id == c.farmers[i].farmer_id
    &&& forall|k: Seq<char>| c.farms.contains_key(k) == #[trigger] d.farms.contains_key(k)
    &&& forall|k: Seq<char>| #[trigger]
        d.farms.contains_key(k) ==> {
            &&& d.farms[k].farm_id == c.farms[k].farm_id
            &&& d.farms[k].terms.seed_id == c.farms[k].terms.seed_id
            &&& d.farms[k].terms.reward_token == c.farms[k].terms.reward_token
            &&& d.farms[k].amount_of_reward >= c.farms[k].amount_of_reward
            &&& d.farms[k].last_distribution.rps@ >= c.farms[k].last_distribution.rps@
            &&& d.farms[k].status.rank() >= c.farms[k].status.rank()
        }
}

/// A claim from one farm keeps all that holds of the books.
pub proof fn lemma_claim_by_farm_keeps(
    c: ContractView,
    sender_id: Seq<char>,
    farm_id: Seq<char>,
    now: TimestampSec,
)
    requires
        inv(c),
        spec_claim_reward_by_farm(c, sender_id, farm_id, now) is Ok,
    ensures
        inv(spec_claim_reward_by_farm(c, sender_id, farm_id, now)->Ok_0),
        spec_follows(c, spec_claim_reward_by_farm(c, sender_id, farm_id, now)->Ok_0),
{
    let fi = farmer_index(c, sender_id);
    assert(farmer_at(c, sender_id, fi));
    let d = spec_claim_reward_by_farm(c, sender_id, farm_id, now)->Ok_0;
    if d != c {
        lemma_parsed_seed(c, farm_id);
        lemma_settle_one(c, fi, farm_id, now);
        let farm = c.farms[farm_id];
        farm.lemma_distribute_keeps(c.seeds[farm.terms.seed_id@].amount, now);
    }
}

/// A claim from all farms of a seed keeps all that holds of the books.
pub proof fn lemma_claim_by_seed_keeps(
    c: ContractView,
    sender_id: Seq<char>,
    seed_id: Seq<char>,
    now: TimestampSec,
)
    requires
        inv(c),
        spec_claim_reward_by_seed(c, sender_id, seed_id, now) is Ok,
    ensures
        inv(spec_claim_reward_by_seed(c, sender_id, seed_id, now)->Ok_0),
        spec_follows(c, spec_claim_reward_by_seed(c, sender_id, seed_id, now)->Ok_0),
{
    let fi = farmer_index(c, sender_id);
    assert(farmer_at(c, sender_id, fi));
    if c.seeds.contains_key(seed_id) {
        lemma_settle_all(c, fi, seed_id, c.seeds[seed_id].farms, now);
    }
}

/// Staking keeps all that holds of the books.
pub proof fn lemma_seed_deposit_keeps(
    c: ContractView,
    seed_id: Seq<char>,
    sender_id: Seq<char>,
    amount: Balance,
    now: TimestampSec,
)
    requires
        inv(c),
        spec_seed_deposit(c, seed_id, sender_id, amount, now) is Ok,
    ensures
        inv(spec_seed_deposit(c, seed_id, sender_id, amount, now)->Ok_0.0),
        spec_follows(c, spec_seed_deposit(c, seed_id, sender_id, amount, now)->Ok_0.0),
{
    lemma_seed_staking_keeps(c, seed_id, sender_id, amount, now, true);
}

/// Staking keeps all that holds of the books, paid out or not.
pub proof fn lemma_seed_staking_keeps(
    c: ContractView,
    seed_id: Seq<char>,
    sender_id: Seq<char>,
    amount: Balance,
    now: TimestampSec,
    pay: bool,
)
    requires
        inv(c),
        spec_seed_staking(c, seed_id, sender_id, amount, now, pay) is Ok,
    ensures
        inv(spec_seed_staking(c, seed_id, sender_id, amount, now, pay)->Ok_0.0),
        spec_follows(c, spec_seed_staking(c, seed_id, sender_id, amount, now, pay)->Ok_0.0),
{
    let fi = farmer_index(c, sender_id);
    assert(farmer_at(c, sender_id, fi));
    let seed = c.seeds[seed_id];
    lemma_settle_all(c, fi, seed_id, seed.farms, now);
    let d = spec_settle_all(c, fi, seed.farms, seed.amount, now)->0;
    let farmer = d.farmers[fi];
    let stake = farmer.spec_stake(seed_id);
    lemma_stake_bound(d.farmers, fi, seed_id);
    let staked = if amount > 0 {
        spec_with_stake(farmer, seed_id, (stake + amount) as u128)
    } else {
        farmer
    };
    lemma_payout_frame(d.farms, staked, seed.farms);
    let paid = if pay {
        spec_payout(d.farms, staked, seed.farms)
    } else {
        (staked, Seq::empty())
    };
    lemma_restaked(d, fi, seed_id, (stake + amount) as u128, paid.0);
}

/// Taking stake back keeps all that holds of the books.
pub proof fn lemma_seed_withdraw_keeps(
    c: ContractView,
    seed_id: Seq<char>,
    sender_id: Seq<char>,
    amount: Balance,
    now: TimestampSec,
)
    requires
        inv(c),
        spec_seed_withdraw(c, seed_id, sender_id, amount, now) is Ok,
    ensures
        inv(spec_seed_withdraw(c, seed_id, sender_id, amount, now)->Ok_0.0),
        spec_follows(c, spec_seed_withdraw(c, seed_id, sender_id, amount, now)->Ok_0.0),
{
    let fi = farmer_index(c, sender_id);
    assert(farmer_at(c, sender_id, fi));
    let seed = c.seeds[seed_id];
    lemma_settle_all(c, fi, seed_id, seed.farms, now);
    let d = spec_settle_all(c, fi, seed.farms, seed.amount, now)->0;
    let farmer = d.farmers[fi];
    lemma_stake_bound(d.farmers, fi, seed_id);
    let remain = (farmer.seeds[seed_id] - amount) as u128;
    let lower = spec_with_stake(farmer, seed_id, remain);
    let left = if remain == 0 {
        spec_forgetting(lower, seed.farms)
    } else {
        lower
    };
    lemma_payout_frame(d.farms, left, seed.farms);
    let paid = spec_payout(d.farms, left, seed.farms);
    lemma_restaked(d, fi, seed_id, remain, paid.0);
}

/// Every action keeps all that holds of the books, and leads to books that
/// can follow.
pub proof fn lemma_act_keeps(c: ContractView, action: Action)
    requires
        inv(c),
    ensures
        inv(spec_act(c, action)),
        spec_follows(c, spec_act(c, action)),
{
    match action {
        Action::Register { account_id, amount } => {
            if spec_register_account(c, account_id, amount) is Ok {
                lemma_register_account(c, account_id, amount);
            }
        },
        Action::DepositReward { farm_id, reward_token, amount, now } => {
            if spec_deposit_reward(c, farm_id, reward_token, amount, now) is Ok {
                let farm = c.farms[farm_id];
                let more = farm.spec_add_reward(amount, now);
                assert(more.wf()) by {
                    assert(more.amount_of_reward - more.last_distribution.undistributed
                        == farm.amount_of_reward - farm.last_distribution.undistributed);
                }
                lemma_farm_replaced(c, farm_id, more);
            }
        },
        Action::DepositSeed { sender_id, seed_id, amount, now } => {
            if spec_deposit_seed(c, sender_id, seed_id, amount, now) is Ok {
                lemma_seed_deposit_keeps(c, seed_id, sender_id, amount, now);
            }
        },
        Action::WithdrawSeed { sender_id, seed_id, amount, now } => {
            if spec_withdraw_seed(c, sender_id, seed_id, amount, now) is Ok {
                lemma_seed_withdraw_keeps(c, seed_id, sender_id, amount, now);
            }
        },
        Action::ClaimByFarm { sender_id, farm_id, now } => {
            if spec_claim_reward_by_farm(c, sender_id, farm_id, now) is Ok {
                lemma_claim_by_farm_keeps(c, sender_id, farm_id, now);
            }
        },
        Action::ClaimBySeed { sender_id, seed_id, now } => {
            if spec_claim_reward_by_seed(c, sender_id, seed_id, now) is Ok {
                lemma_claim_by_seed_keeps(c, sender_id, seed_id, now);
            }
        },
        Action::WithdrawReward { sender_id, token_id, amount } => {
            if spec_withdraw_reward(c, sender_id, token_id, amount) is Ok {
                lemma_withdraw_reward_keeps(c, sender_id, token_id, amount);
            }
        },
        Action::ClaimByFarmAndWithdraw { sender_id, farm_id, now } => {
            if spec_claim_by_farm_and_withdraw(c, sender_id, farm_id, now) is Ok {
                lemma_claim_by_farm_keeps(c, sender_id, farm_id, now);
                let d = spec_claim_reward_by_farm(c, sender_id, farm_id, now)->Ok_0;
                lemma_withdraw_reward_keeps(
                    d,
                    sender_id,
                    d.farms[farm_id].terms.reward_token@,
                    0,
                );
            }
        },
        Action::ClaimBySeedAndWithdraw { sender_id, seed_id, now } => {
            if spec_claim_by_seed_and_withdraw(c, sender_id, seed_id, now) is Ok {
                lemma_claim_by_seed_keeps(c, sender_id, seed_id, now);
                let d = spec_claim_reward_by_seed(c, sender_id, seed_id, now)->Ok_0;
                let fi = farmer_index(d, sender_id);
                assert(farmer_at(c, sender_id, farmer_index(c, sender_id)));
                lemma_same_farmers(c, d, sender_id);
                lemma_payout_frame(d.farms, d.farmers[fi], d.seeds[seed_id].farms);
                lemma_rewards_changed(
                    d,
                    fi,
                    spec_payout(d.farms, d.farmers[fi], d.seeds[seed_id].farms).0,
                );
            }
        },
        Action::RestoreReward { sender_id, token_id, amount } => {
            if spec_restore_reward(c, sender_id, token_id, amount) is Ok {
                let fi = farmer_index(c, sender_id);
                assert(farmer_at(c, sender_id, fi));
                let d = spec_restore_reward(c, sender_id, token_id, amount)->Ok_0;
                lemma_rewards_changed(c, fi, d.farmers[fi]);
            }
        },
        Action::RestoreSeed { sender_id, seed_id, amount, now } => {
            if spec_seed_staking(c, seed_id, sender_id, amount, now, false) is Ok {
                lemma_seed_staking_keeps(c, seed_id, sender_id, amount, now, false);
            }
        },
        Action::DepositNft { sender_id, seed_id, nft_contract_id, nft_token_id, now, pay } => {
            let took = spec_nft_deposit(
                c,
                seed_id,
                sender_id,
                nft_contract_id,
                nft_token_id,
                now,
                pay,
            );
            if took is Ok && took->Ok_0.0 != c {
                let id = spec_contract_nft_token_id(nft_contract_id, nft_token_id);
                let stake = spec_nft_balance_equivalent(c.nft_balance_seeds[seed_id], id)->0;
                lemma_seed_staking_keeps(c, seed_id, sender_id, stake, now, pay);
                let d = spec_seed_staking(c, seed_id, sender_id, stake, now, pay)->Ok_0.0;
                let fi = farmer_index(c, sender_id);
                assert(farmer_at(c, sender_id, fi));
                lemma_rewards_changed(d, fi, d.farmers[fi].spec_with_nft(seed_id, id));
            }
        },
        Action::WithdrawNft { sender_id, seed_id, nft_contract_id, nft_token_id, now } => {
            if spec_nft_withdraw(c, seed_id, sender_id, nft_contract_id, nft_token_id, now) is Ok {
                let id = spec_contract_nft_token_id(nft_contract_id, nft_token_id);
                let stake = spec_nft_balance_equivalent(c.nft_balance_seeds[seed_id], id)->0;
                lemma_seed_withdraw_keeps(c, seed_id, sender_id, stake, now);
                let d = spec_seed_withdraw(c, seed_id, sender_id, stake, now)->Ok_0.0;
                let fi = farmer_index(c, sender_id);
                assert(farmer_at(c, sender_id, fi));
                lemma_rewards_changed(d, fi, d.farmers[fi].spec_without_nft(seed_id, id));
            }
        },
        Action::StorageWithdraw { account_id, amount } => {
            if spec_storage_withdraw(c, account_id, amount) is Ok {
                let fi = farmer_index(c, account_id);
                assert(farmer_at(c, account_id, fi));
                let d = spec_storage_withdraw(c, account_id, amount)->Ok_0.0;
                lemma_rewards_changed(c, fi, d.farmers[fi]);
            }
        },
        Action::RemoveUserRps { sender_id, farm_id } => {
            if spec_remove_user_rps(c, sender_id, farm_id) is Ok {
                lemma_removed_user_rps(c, sender_id, farm_id);
            }
        },
    }
}

/// A withdrawal of claimed reward keeps all that holds of the books.
pub proof fn lemma_withdraw_reward_keeps(
    c: ContractView,
    sender_id: Seq<char>,
    token_id: Seq<char>,
    amount: Balance,
)
    requires
        inv(c),
        spec_withdraw_reward(c, sender_id, token_id, amount) is Ok,
    ensures
        inv(spec_withdraw_reward(c, sender_id, token_id, amount)->Ok_0.0),
        spec_follows(c, spec_withdraw_reward(c, sender_id, token_id, amount)->Ok_0.0),
{
    let fi = farmer_index(c, sender_id);
    assert(farmer_at(c, sender_id, fi));
    let d = spec_withdraw_reward(c, sender_id, token_id, amount)->Ok_0.0;
    lemma_rewards_changed(c, fi, d.farmers[fi]);
}

/// A farmer of some books is a farmer of all books that can follow them, at
/// the same place.
pub proof fn lemma_same_farmers(c: ContractView, d: ContractView, id: Seq<char>)
    requires
        inv(d),
        has_farmer(c, id),
        spec_follows(c, d),
    ensures
        has_farmer(d, id),
        farmer_index(d, id) == farmer_index(c, id),
{
    let fi = farmer_index(c, id);
    assert(farmer_at(c, id, fi));
    assert(farmer_at(d, id, fi));
    lemma_farmer_index(d, id, fi);
}

/// After every history all holds that holds of the books at all times, and
/// the books can follow the books that the history began with.
pub proof fn lemma_run_keeps(c: ContractView, history: Seq<Action>)
    requires
        inv(c),
    ensures
        inv(spec_run(c, history)),
        spec_follows(c, spec_run(c, history)),
    decreases history.len(),
{
    if history.len() > 0 {
        lemma_run_keeps(c, history.drop_last());
        lemma_act_keeps(spec_run(c, history.drop_last()), history.last());
    }
}

/// After every history, every farm's books balance: the reward put in is
/// the reward undistributed, the reward unclaimed, and the reward that was
/// claimed or went to the beneficiary.
pub proof fn lemma_books_balance(c: ContractView, history: Seq<Action>, farm_id: Seq<char>)
    requires
        inv(c),
        c.farms.contains_key(farm_id),
    ensures
        spec_run(c, history).farms.contains_key(farm_id),
        ({
            let farm = spec_run(c, history).farms[farm_id];
            farm.last_distribution.undistributed + farm.last_distribution.unclaimed
                + farm.amount_of_claimed == farm.amount_of_reward
        }),
{
    lemma_run_keeps(c, history);
    let d = spec_run(c, history);
    assert(d.farms.contains_key(farm_id));
    assert(d.farms[farm_id].wf());
}

/// Over every history, no farm's reward per seed falls, and no farm goes
/// back in its life.
pub proof fn lemma_rps_never_falls(c: ContractView, history: Seq<Action>, farm_id: Seq<char>)
    requires
        inv(c),
        c.farms.contains_key(farm_id),
    ensures
        spec_run(c, history).farms.contains_key(farm_id),
        spec_run(c, history).farms[farm_id].last_distribution.rps@
            >= c.farms[farm_id].last_distribution.rps@,
        spec_run(c, history).farms[farm_id].status.rank() >= c.farms[farm_id].status.rank(),
{
    lemma_run_keeps(c, history);
    let d = spec_run(c, history);
    assert(d.farms.contains_key(farm_id));
}

/// Whether time `now` falls in no later session than the farm has written
/// down: the release due at that time is none.
pub open spec fn spec_same_session(farm: Farm, now: TimestampSec) -> bool {
    farm.spec_started(now) ==> farm.spec_target_round(now) <= farm.last_distribution.rr
}

/// Within the session written down, writing the release down changes at
/// most the farm's status, and a farmer who has settled is paid nothing.
pub proof fn lemma_quiet_settle(
    farm: Farm,
    farmer: FarmerView,
    total_seeds: Balance,
    now: TimestampSec,
)
    requires
        farm.wf(),
        spec_same_session(farm, now),
        spec_settled(farm, farmer),
    ensures
        spec_settle_amount(farm, farmer, total_seeds, now) == 0,
        spec_settle_farmer(farm, farmer, total_seeds, now) == Some(farmer),
        spec_settle_farm(farm, farmer, total_seeds, now).last_distribution
            == farm.last_distribution,
        spec_settle_farm(farm, farmer, total_seeds, now).terms == farm.terms,
        spec_settle_farm(farm, farmer, total_seeds, now).farm_id == farm.farm_id,
{
    let after = farm.spec_distribute(total_seeds, now);
    if farm.spec_started(now) {
        farm.lemma_release_bounds(total_seeds, now);
        assert(farm.spec_reward_released(now) == 0);
        if total_seeds != 0 {
            assert((0 * DENOM) / (total_seeds as int) == 0) by (nonlinear_arith)
                requires
                    total_seeds > 0,
            ;
        }
        lemma_from_nat_view(farm.last_distribution.rps);
        assert(farm.spec_try_distribute(total_seeds, now) == Some(farm.last_distribution));
    }
    assert(after.last_distribution == farm.last_distribution);
    let stake = farmer.spec_stake(farm.terms.seed_id@) as int;
    assert(stake * 0 == 0);
    assert(0int / (DENOM as int) == 0);
    let settled = spec_settle_farmer(farm, farmer, total_seeds, now)->0;
    assert(settled.user_rps =~= farmer.user_rps);
    assert(settled =~= farmer);
}

/// Within the session written down, a farmer who has settled with all farms
/// of a seed and settles again is paid nothing: the farmers stay as they
/// are, and so does every farm's reward.
pub proof fn lemma_quiet_settle_all(
    c: ContractView,
    fi: int,
    seed_id: Seq<char>,
    farm_ids: Seq<Seq<char>>,
    now: TimestampSec,
)
    requires
        inv(c),
        0 <= fi < c.farmers.len(),
        c.seeds.contains_key(seed_id),
        farm_ids.no_duplicates(),
        forall|j: int|
            0 <= j < farm_ids.len() ==> c.seeds[seed_id].farms.contains(#[trigger] farm_ids[j]),
        forall|j: int|
            0 <= j < farm_ids.len() ==> spec_settled(
                c.farms[#[trigger] farm_ids[j]],
                c.farmers[fi],
            ) && spec_same_session(c.farms[farm_ids[j]], now),
    ensures
        spec_settle_all(c, fi, farm_ids, c.seeds[seed_id].amount, now) is Some,
        ({
            let d = spec_settle_all(c, fi, farm_ids, c.seeds[seed_id].amount, now)->0;
            &&& d.farmers == c.farmers
            &&& d.seeds == c.seeds
            &&& forall|k: Seq<char>| c.farms.contains_key(k) == #[trigger] d.farms.contains_key(k)
            &&& forall|k: Seq<char>| #[trigger]
                d.farms.contains_key(k) ==> d.farms[k].terms == c.farms[k].terms
                    && d.farms[k].last_distribution == c.farms[k].last_distribution
        }),
    decreases farm_ids.len(),
{
    let total = c.seeds[seed_id].amount;
    if farm_ids.len() > 0 {
        let first = farm_ids[0];
        let rest = farm_ids.drop_first();
        assert(c.seeds[seed_id].farms.contains(first));
        assert(c.farms.contains_key(first));
        let farm = c.farms[first];
        assert(farm.farm_id@ == first);
        lemma_quiet_settle(farm, c.farmers[fi], total, now);
        let mid = spec_settle_one(c, fi, first, total, now)->0;
        assert(mid.farmers =~= c.farmers);
        lemma_settle_one(c, fi, first, now);
        assert(rest.no_duplicates()) by {
            assert forall|a: int, b: int|
                0 <= a < rest.len() && 0 <= b < rest.len() && a != b implies rest[a]
                != rest[b] by {
                assert(rest[a] == farm_ids[a + 1] && rest[b] == farm_ids[b + 1]);
            }
        }
        assert forall|j: int| 0 <= j < rest.len() implies mid.seeds[seed_id].farms.contains(
            #[trigger] rest[j],
        ) && spec_settled(mid.farms[rest[j]], mid.farmers[fi]) && spec_same_session(
            mid.farms[rest[j]],
            now,
        ) by {
            assert(rest[j] == farm_ids[j + 1]);
            assert(farm_ids[j + 1] != farm_ids[0]);
        }
        lemma_quiet_settle_all(mid, fi, seed_id, rest, now);
        let d = spec_settle_all(c, fi, farm_ids, total, now)->0;
        assert forall|k: Seq<char>| #[trigger] d.farms.contains_key(k) implies d.farms[k].terms
            == c.farms[k].terms && d.farms[k].last_distribution
            == c.farms[k].last_distribution by {
            assert(mid.farms.contains_key(k));
        }
    }
}

/// A payout takes balances and gives none: what is left was there before,
/// unchanged, and of the reward tokens of the farms nothing is left.
pub proof fn lemma_payout_done(
    farms: Map<Seq<char>, Farm>,
    farmer: FarmerView,
    farm_ids: Seq<Seq<char>>,
)
    ensures
        forall|t: Seq<char>| #[trigger]
            spec_payout(farms, farmer, farm_ids).0.rewards.contains_key(t)
                ==> farmer.rewards.contains_key(t) && spec_payout(
                farms,
                farmer,
                farm_ids,
            ).0.rewards[t] == farmer.rewards[t],
        forall|j: int|
            0 <= j < farm_ids.len() ==> !spec_payout(
                farms,
                farmer,
                farm_ids,
            ).0.rewards.contains_key(farms[#[trigger] farm_ids[j]].terms.reward_token@),
    decreases farm_ids.len(),
{
    if farm_ids.len() > 0 {
        let token = farms[farm_ids[0]].terms.reward_token@;
        let rest = farm_ids.drop_first();
        let next = if farmer.rewards.contains_key(token) {
            spec_without_reward(farmer, token)
        } else {
            farmer
        };
        lemma_payout_done(farms, next, rest);
        let done = spec_payout(farms, farmer, farm_ids).0;
        let tail = spec_payout(farms, next, rest).0;
        assert(done == tail);
        assert forall|t: Seq<char>| #[trigger] done.rewards.contains_key(t) implies farmer.rewards.contains_key(
        t) && done.rewards[t] == farmer.rewards[t] by {
            assert(tail.rewards.contains_key(t));
            assert(next.rewards.contains_key(t));
        }
        assert forall|j: int| 0 <= j < farm_ids.len() implies !done.rewards.contains_key(
            farms[#[trigger] farm_ids[j]].terms.reward_token@,
        ) by {
            if j > 0 {
                assert(farm_ids[j] == rest[j - 1]);
            } else {
                if done.rewards.contains_key(token) {
                    assert(tail.rewards.contains_key(token));
                    assert(next.rewards.contains_key(token));
                }
            }
        }
    }
}

/// A farmer without a balance of any of the farms' reward tokens is paid
/// out nothing.
pub proof fn lemma_payout_nothing(
    farms: Map<Seq<char>, Farm>,
    farmer: FarmerView,
    farm_ids: Seq<Seq<char>>,
)
    requires
        forall|j: int|
            0 <= j < farm_ids.len() ==> !farmer.rewards.contains_key(
                farms[#[trigger] farm_ids[j]].terms.reward_token@,
            ),
    ensures
        spec_payout(farms, farmer, farm_ids) == (farmer, Seq::<(Seq<char>, Balance)>::empty()),
    decreases farm_ids.len(),
{
    if farm_ids.len() > 0 {
        let rest = farm_ids.drop_first();
        assert forall|j: int| 0 <= j < rest.len() implies !farmer.rewards.contains_key(
            farms[#[trigger] rest[j]].terms.reward_token@,
        ) by {
            assert(rest[j] == farm_ids[j + 1]);
        }
        lemma_payout_nothing(farms, farmer, rest);
    }
}

/// Staking and taking the same stake back within one session earns
/// nothing. Where a farmer stakes an amount at time `first` and takes it
/// back at time `second`, and `second` falls in no later session of any farm
/// of the seed than `first` did, then taking it back is not refused, pays
/// nothing out and leaves the farmer's claimed balances as the staking left
/// them; the farmer's stake and the seed's total are what they were before
/// the staking.
pub proof fn lemma_round_trip(
    c: ContractView,
    sender_id: Seq<char>,
    seed_id: Seq<char>,
    amount: Balance,
    first: TimestampSec,
    second: TimestampSec,
)
    requires
        inv(c),
        amount > 0,
        spec_seed_deposit(c, seed_id, sender_id, amount, first) is Ok,
        forall|k: Seq<char>| #[trigger]
            c.seeds[seed_id].farms.contains(k) ==> spec_same_session(
                spec_seed_deposit(c, seed_id, sender_id, amount, first)->Ok_0.0.farms[k],
                second,
            ),
    ensures
        ({
            let fi = farmer_index(c, sender_id);
            let d = spec_seed_deposit(c, seed_id, sender_id, amount, first)->Ok_0.0;
            let back = spec_seed_withdraw(d, seed_id, sender_id, amount, second);
            &&& back is Ok
            &&& back->Ok_0.1 == Seq::<(Seq<char>, Balance)>::empty()
            &&& back->Ok_0.0.farmers[fi].rewards == d.farmers[fi].rewards
            &&& back->Ok_0.0.farmers[fi].spec_stake(seed_id) == c.farmers[fi].spec_stake(seed_id)
            &&& back->Ok_0.0.seeds[seed_id].amount == c.seeds[seed_id].amount
        }),
{
    let fi = farmer_index(c, sender_id);
    assert(farmer_at(c, sender_id, fi));
    let seed = c.seeds[seed_id];
    let keys = seed.farms;
    // The staking.
    lemma_settle_all(c, fi, seed_id, keys, first);
    let settled = spec_settle_all(c, fi, keys, seed.amount, first)->0;
    let farmer = settled.farmers[fi];
    let stake = farmer.spec_stake(seed_id);
    lemma_stake_bound(settled.farmers, fi, seed_id);
    let staked = spec_with_stake(farmer, seed_id, (stake + amount) as u128);
    lemma_payout_frame(settled.farms, staked, keys);
    lemma_payout_done(settled.farms, staked, keys);
    let paid = spec_payout(settled.farms, staked, keys);
    lemma_seed_deposit_keeps(c, seed_id, sender_id, amount, first);
    let d = spec_seed_deposit(c, seed_id, sender_id, amount, first)->Ok_0.0;
    assert(d.farmers[fi] == paid.0);
    assert(d.farms == settled.farms);
    assert(farmer_at(d, sender_id, fi));
    lemma_farmer_index(d, sender_id, fi);
    assert(d.seeds[seed_id].farms == keys);
    // The taking back: settling again pays nothing.
    assert forall|j: int| 0 <= j < keys.len() implies d.seeds[seed_id].farms.contains(
        #[trigger] keys[j],
    ) && spec_settled(d.farms[keys[j]], d.farmers[fi]) && spec_same_session(
        d.farms[keys[j]],
        second,
    ) by {
        assert(seed.farms.contains(keys[j]));
        assert(spec_settled(settled.farms[keys[j]], settled.farmers[fi]));
    }
    lemma_quiet_settle_all(d, fi, seed_id, keys, second);
    let again = spec_settle_all(d, fi, keys, d.seeds[seed_id].amount, second)->0;
    let holder = again.farmers[fi];
    assert(holder == paid.0);
    assert(holder.seeds.contains_key(seed_id));
    assert(holder.seeds[seed_id] == stake + amount);
    let lower = spec_with_stake(holder, seed_id, stake);
    let left = if stake == 0 {
        spec_forgetting(lower, keys)
    } else {
        lower
    };
    assert(left.rewards == paid.0.rewards);
    assert forall|j: int| 0 <= j < keys.len() implies !left.rewards.contains_key(
        again.farms[#[trigger] keys[j]].terms.reward_token@,
    ) by {
        assert(seed.farms.contains(keys[j]));
        assert(d.farms.contains_key(keys[j]));
        assert(again.farms.contains_key(keys[j]));
        assert(again.farms[keys[j]].terms == settled.farms[keys[j]].terms);
    }
    lemma_payout_nothing(again.farms, left, keys);
    let back = spec_seed_withdraw(d, seed_id, sender_id, amount, second);
    assert(back is Ok);
    assert(back->Ok_0.0.farmers[fi] == left);
}

} // verus!
