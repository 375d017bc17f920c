use ref_farming::contract::{storage_refund, Contract};
use ref_farming::errors::FarmingError;
use ref_farming::farm::HRFarmTerms;
use ref_farming::rewards::Withdrawal;
use ref_farming::str_map::StrMap;
use ref_farming::wide::U256;

const BYTE_COST: u128 = 10_000_000_000_000_000_000;

fn id(s: &str) -> String {
    String::from(s)
}

fn terms(seed: &str, token: &str, per: u128, interval: u32) -> HRFarmTerms {
    HRFarmTerms {
        seed_id: id(seed),
        reward_token: id(token),
        start_at: 0,
        reward_per_session: per,
        session_interval: interval,
    }
}

/// Books with the farm `bob#0`, funded at time 100, and two farmers.
fn books(reward: u128) -> Contract {
    let mut c = Contract::new(id("owner"));
    assert_eq!(c.create_simple_farm(&terms("bob", "charlie", 5000, 50), Some(10), None), Ok(id("bob#0")));
    assert_eq!(c.deposit_reward(&id("bob#0"), &id("charlie"), reward, 100), Ok(reward));
    c.internal_register_account(&id("alice"), 2000 * BYTE_COST).unwrap();
    c.internal_register_account(&id("danny"), 2000 * BYTE_COST).unwrap();
    c
}

fn payments(list: &Vec<Withdrawal>) -> Vec<(String, u128)> {
    list.iter().map(|w| (w.token_id.clone(), w.amount)).collect()
}

#[test]
fn farmer_entering_in_session_one_earns_from_session_two() {
    let mut c = books(50000);
    c.deposit_seed(&id("alice"), &id("bob"), 10, 160).unwrap();
    assert_eq!(c.get_unclaimed_reward(&id("alice"), &id("bob#0"), 160), Ok(0));
    assert_eq!(c.get_unclaimed_reward(&id("alice"), &id("bob#0"), 199), Ok(0));
    assert_eq!(c.get_unclaimed_reward(&id("alice"), &id("bob#0"), 200), Ok(5000));
    assert_eq!(c.get_unclaimed_reward(&id("alice"), &id("bob#0"), 210), Ok(5000));
}

#[test]
fn equal_stakes_share_later_sessions_half_and_half() {
    let mut c = books(50000);
    c.deposit_seed(&id("alice"), &id("bob"), 10, 110).unwrap();
    c.deposit_seed(&id("danny"), &id("bob"), 10, 160).unwrap();
    // session 0 went to alice alone; from session 1 on they share
    assert_eq!(c.get_unclaimed_reward(&id("alice"), &id("bob#0"), 160), Ok(5000));
    assert_eq!(c.get_unclaimed_reward(&id("danny"), &id("bob#0"), 160), Ok(0));
    assert_eq!(c.get_unclaimed_reward(&id("alice"), &id("bob#0"), 200), Ok(7500));
    assert_eq!(c.get_unclaimed_reward(&id("danny"), &id("bob#0"), 200), Ok(2500));
    assert_eq!(c.get_unclaimed_reward(&id("alice"), &id("bob#0"), 400), Ok(17500));
    assert_eq!(c.get_unclaimed_reward(&id("danny"), &id("bob#0"), 400), Ok(12500));
}

#[test]
fn farm_ending_on_a_session_boundary_is_cleared_with_its_dust() {
    let mut c = books(10000);
    c.internal_seed_deposit(&id("bob"), &id("alice"), 3, 100).unwrap();
    // not yet over one second before the boundary
    assert_eq!(c.force_clean_farm(&id("bob#0"), 199), Ok(false));
    assert_eq!(c.get_farm(&id("bob#0"), 199).unwrap().farm_status, "Running");
    assert_eq!(c.get_farm(&id("bob#0"), 200).unwrap().farm_status, "Ended");
    c.claim_reward_by_farm(&id("alice"), &id("bob#0"), 200).unwrap();
    assert_eq!(c.get_reward(&id("alice"), &id("charlie")), 9999);
    let info = c.get_farm(&id("bob#0"), 200).unwrap();
    assert_eq!(info.farm_status, "Ended");
    assert_eq!(info.unclaimed_reward, 1);
    assert_eq!(info.claimed_reward, 9999);
    // no more reward is taken
    assert_eq!(
        c.deposit_reward(&id("bob#0"), &id("charlie"), 5, 210),
        Err(FarmingError::InvalidFarmStatus)
    );
    assert_eq!(c.force_clean_farm(&id("bob#0"), 210), Ok(true));
    assert!(c.get_farm(&id("bob#0"), 210).is_none());
    let gone = c.get_outdated_farm(&id("bob#0"), 210).unwrap();
    assert_eq!(gone.farm_status, "Cleared");
    assert_eq!(gone.unclaimed_reward, 0);
    assert_eq!(gone.beneficiary_reward, 1);
    assert_eq!(gone.claimed_reward, 10000);
    assert_eq!(gone.total_reward, 10000);
    // cleared away once only
    assert_eq!(c.force_clean_farm(&id("bob#0"), 220), Ok(false));
}

#[test]
fn reward_goes_to_the_beneficiary_while_nothing_is_staked() {
    let mut c = books(50000);
    c.deposit_seed(&id("alice"), &id("bob"), 10, 110).unwrap();
    let paid = c.withdraw_seed(&id("alice"), &id("bob"), 10, 210).unwrap();
    assert_eq!(payments(&paid), vec![(id("charlie"), 10000)]);
    assert_eq!(c.get_seed_amount(&id("bob")), Some(0));
    // sessions 2 to 5 pass with nothing staked
    c.deposit_seed(&id("danny"), &id("bob"), 10, 410).unwrap();
    let info = c.get_farm(&id("bob#0"), 410).unwrap();
    assert_eq!(info.beneficiary_reward, 20000);
    assert_eq!(info.claimed_reward, 30000);
    assert_eq!(info.unclaimed_reward, 0);
    assert_eq!(info.last_round, 6);
    // and danny earns from session 6 on only
    assert_eq!(c.get_unclaimed_reward(&id("danny"), &id("bob#0"), 450), Ok(5000));
    assert_eq!(c.get_unclaimed_reward(&id("alice"), &id("bob#0"), 450), Ok(0));
}

#[test]
fn books_balance_after_every_action() {
    let mut c = books(50000);
    // released so far: the sessions written down, at 5000 each
    let check = |c: &Contract, now: u32| {
        let info = c.get_farm(&id("bob#0"), now).unwrap();
        assert_eq!(info.cur_round, info.last_round);
        let released = 5000 * info.last_round as u128;
        assert_eq!(info.claimed_reward + info.unclaimed_reward, released);
        assert!(released <= info.total_reward);
        assert!(info.beneficiary_reward <= info.claimed_reward);
    };
    c.deposit_seed(&id("alice"), &id("bob"), 10, 160).unwrap();
    check(&c, 160);
    c.deposit_seed(&id("danny"), &id("bob"), 30, 230).unwrap();
    check(&c, 230);
    c.claim_reward_by_seed(&id("alice"), &id("bob"), 300).unwrap();
    check(&c, 300);
    c.withdraw_seed(&id("danny"), &id("bob"), 7, 333).unwrap();
    check(&c, 333);
    c.claim_reward_by_farm(&id("danny"), &id("bob#0"), 480).unwrap();
    check(&c, 480);
    c.deposit_reward(&id("bob#0"), &id("charlie"), 123, 490).unwrap();
    check(&c, 490);
    let info = c.get_farm(&id("bob#0"), 490).unwrap();
    assert_eq!(info.total_reward, 50123);
    // seven sessions of 5000 were released; the first went to the beneficiary
    assert_eq!(info.last_round, 7);
    assert_eq!(info.beneficiary_reward, 5000);
    let alice = c.get_reward(&id("alice"), &id("charlie")) + c.get_unclaimed_reward(&id("alice"), &id("bob#0"), 490).unwrap();
    let danny = c.get_unclaimed_reward(&id("danny"), &id("bob#0"), 490).unwrap();
    // danny was paid out 3750 * 2 + 375 at the withdrawal of 7
    assert!(alice + danny <= 30000);
    assert_eq!(info.claimed_reward + info.unclaimed_reward, 35000);
}

#[test]
fn what_a_farmer_would_be_paid_is_covered() {
    let mut c = books(50000);
    c.internal_seed_deposit(&id("bob"), &id("alice"), 1, 110).unwrap();
    c.internal_seed_deposit(&id("bob"), &id("danny"), 2, 110).unwrap();
    for now in [110u32, 150, 199, 200, 333, 600, 601, 100_000] {
        let shown = c.get_farm(&id("bob#0"), now).unwrap().unclaimed_reward;
        let a = c.get_unclaimed_reward(&id("alice"), &id("bob#0"), now).unwrap();
        let d = c.get_unclaimed_reward(&id("danny"), &id("bob#0"), now).unwrap();
        assert!(a <= shown);
        assert!(d <= shown);
        assert!(a + d <= shown);
    }
    // thirds round down: 50000 over a stake of 3
    assert_eq!(c.get_unclaimed_reward(&id("alice"), &id("bob#0"), 100_000), Ok(16666));
    assert_eq!(c.get_unclaimed_reward(&id("danny"), &id("bob#0"), 100_000), Ok(33333));
}

#[test]
fn reward_per_seed_as_written_down() {
    let mut c = books(50000);
    assert_eq!(c.get_farm_rps(&id("bob#9")), None);
    assert_eq!(c.get_farm_rps(&id("bob#0")), Some(U256::zero()));
    c.deposit_seed(&id("alice"), &id("bob"), 10, 110).unwrap();
    c.claim_reward_by_farm(&id("alice"), &id("bob#0"), 200).unwrap();
    // two sessions of 5000 over a stake of 10, times 10^24
    assert_eq!(c.get_farm_rps(&id("bob#0")), Some(U256::from_u128(1000 * 1_000_000_000_000_000_000_000_000)));
}

#[test]
fn looking_twice_shows_the_same() {
    let mut c = books(50000);
    c.deposit_seed(&id("alice"), &id("bob"), 10, 160).unwrap();
    let first = c.get_unclaimed_reward(&id("alice"), &id("bob#0"), 433);
    let second = c.get_unclaimed_reward(&id("alice"), &id("bob#0"), 433);
    assert_eq!(first, second);
    assert_eq!(first, Ok(25000));
    let a = c.get_farm(&id("bob#0"), 433).unwrap();
    let b = c.get_farm(&id("bob#0"), 433).unwrap();
    assert_eq!(a.cur_round, b.cur_round);
    assert_eq!(a.unclaimed_reward, b.unclaimed_reward);
    assert_eq!(a.last_round, 1);
}

#[test]
fn staking_and_taking_back_within_a_session_earns_nothing() {
    let mut c = books(50000);
    c.deposit_seed(&id("alice"), &id("bob"), 10, 110).unwrap();
    c.claim_reward_by_seed(&id("alice"), &id("bob"), 260).unwrap();
    assert_eq!(c.get_reward(&id("alice"), &id("charlie")), 15000);
    // danny stakes and takes back within session 3
    let paid = c.deposit_seed(&id("danny"), &id("bob"), 1000, 261).unwrap();
    assert!(paid.is_empty());
    let paid = c.withdraw_seed(&id("danny"), &id("bob"), 1000, 299).unwrap();
    assert!(paid.is_empty());
    assert_eq!(c.get_reward(&id("danny"), &id("charlie")), 0);
    assert_eq!(c.get_user_seed(&id("danny"), &id("bob")), 0);
    assert_eq!(c.get_seed_amount(&id("bob")), Some(10));
    // and alice lost nothing to it
    assert_eq!(c.get_unclaimed_reward(&id("alice"), &id("bob#0"), 300), Ok(5000));
    // alice's round trip pays out what was claimed before, and no more
    let paid = c.deposit_seed(&id("alice"), &id("bob"), 10, 301).unwrap();
    assert_eq!(payments(&paid), vec![(id("charlie"), 20000)]);
    let paid = c.withdraw_seed(&id("alice"), &id("bob"), 10, 349).unwrap();
    assert!(paid.is_empty());
    assert_eq!(c.get_reward(&id("alice"), &id("charlie")), 0);
    assert_eq!(c.get_user_seed(&id("alice"), &id("bob")), 10);
}

#[test]
fn a_refused_action_changes_nothing() {
    let mut c = books(50000);
    c.deposit_seed(&id("alice"), &id("bob"), 10, 110).unwrap();
    assert_eq!(
        c.withdraw_seed(&id("alice"), &id("bob"), 11, 500).map(|p| payments(&p)),
        Err(FarmingError::NotEnoughSeed)
    );
    // the farm was not settled by the refused withdrawal
    assert_eq!(c.get_farm(&id("bob#0"), 110).unwrap().last_round, 0);
    assert_eq!(c.get_reward(&id("alice"), &id("charlie")), 0);
    assert_eq!(c.get_user_seed(&id("alice"), &id("bob")), 10);
}

#[test]
fn farms_of_one_seed_are_numbered() {
    let mut c = Contract::new(id("owner"));
    assert_eq!(c.owner_id(), "owner");
    assert_eq!(c.create_simple_farm(&terms("bob", "charlie", 1, 1), None, None), Ok(id("bob#0")));
    assert_eq!(c.create_simple_farm(&terms("bob", "eve", 1, 1), None, None), Ok(id("bob#1")));
    assert_eq!(c.create_simple_farm(&terms("seed", "eve", 1, 1), None, None), Ok(id("seed#0")));
    assert_eq!(c.internal_add_farm(&terms("bob", "eve", 1, 1), 5, None), Ok(id("bob#2")));
    assert_eq!(
        c.create_simple_farm(&terms("bob", "eve", 1, 0), None, None),
        Err(FarmingError::InvalidFarmTerms)
    );
    let seed = c.get_seed(&id("bob")).unwrap();
    assert_eq!(seed.next_index, 3);
    assert_eq!(seed.farms.len(), 3);
    // the least deposit is set when the seed comes on record
    assert_eq!(seed.min_deposit, 1_000_000_000_000_000_000);
    assert!(c.get_seed_wrapped(&id("none")).is_none());
    assert_eq!(c.force_upgrade_seed(&id("bob")), Ok(()));
    assert_eq!(c.force_upgrade_seed(&id("none")), Err(FarmingError::SeedNotExist));
    assert_eq!(c.get_seed_and_upgrade(&id("bob")).unwrap().next_index, 3);
}

#[test]
fn two_farms_of_one_seed_pay_in_two_tokens() {
    let mut c = books(50000);
    assert_eq!(c.create_simple_farm(&terms("bob", "eve", 300, 100), None, None), Ok(id("bob#1")));
    assert_eq!(c.deposit_reward(&id("bob#1"), &id("eve"), 900, 100), Ok(900));
    c.deposit_seed(&id("alice"), &id("bob"), 10, 100).unwrap();
    c.claim_reward_by_seed(&id("alice"), &id("bob"), 300).unwrap();
    assert_eq!(c.get_reward(&id("alice"), &id("charlie")), 20000);
    assert_eq!(c.get_reward(&id("alice"), &id("eve")), 600);
    let paid = c.claim_reward_by_seed_and_withdraw(&id("alice"), &id("bob"), 400).unwrap();
    assert_eq!(payments(&paid), vec![(id("charlie"), 30000), (id("eve"), 900)]);
    assert_eq!(c.get_reward(&id("alice"), &id("charlie")), 0);
    assert_eq!(c.get_farm(&id("bob#1"), 400).unwrap().farm_status, "Ended");
    let due = c.claim_reward_by_farm_and_withdraw(&id("alice"), &id("bob#0"), 450).unwrap();
    assert_eq!((due.token_id, due.amount), (id("charlie"), 5000));
    // nothing to withdraw right after: refused, and nothing is claimed
    assert_eq!(
        c.claim_reward_by_farm_and_withdraw(&id("alice"), &id("bob#1"), 500).map(|w| w.amount),
        Err(FarmingError::TokenNotRegistered)
    );
    assert_eq!(c.get_farm(&id("bob#0"), 450).unwrap().last_round, 7);
}

#[test]
fn withdrawals_are_given_back_when_the_payment_fails() {
    let mut c = books(50000);
    c.deposit_seed(&id("alice"), &id("bob"), 10, 100).unwrap();
    c.claim_reward_by_farm(&id("alice"), &id("bob#0"), 200).unwrap();
    assert_eq!(c.withdraw_reward(&id("alice"), &id("charlie"), Some(4000)), Ok(4000));
    assert_eq!(c.get_reward(&id("alice"), &id("charlie")), 6000);
    assert_eq!(c.callback_post_withdraw_reward(&id("charlie"), &id("alice"), 4000, true), Ok(()));
    assert_eq!(c.get_reward(&id("alice"), &id("charlie")), 6000);
    assert_eq!(c.withdraw_reward(&id("alice"), &id("charlie"), None), Ok(6000));
    assert_eq!(c.internal_get_reward(&id("alice"), &id("charlie")), 0);
    assert_eq!(c.callback_post_withdraw_reward(&id("charlie"), &id("alice"), 6000, false), Ok(()));
    assert_eq!(c.get_reward(&id("alice"), &id("charlie")), 6000);
    assert_eq!(c.internal_execute_withdraw_reward(&id("charlie"), &id("alice"), 6001), Err(FarmingError::NotEnoughTokens));
    // a seed payment that failed is staked again, and nothing is paid out
    let paid = c.withdraw_seed(&id("alice"), &id("bob"), 4, 250).unwrap();
    assert_eq!(payments(&paid), vec![(id("charlie"), 11000)]);
    assert_eq!(c.callback_post_withdraw_ft_seed(&id("bob"), &id("alice"), 4, true, 260), Ok(()));
    assert_eq!(c.get_user_seed(&id("alice"), &id("bob")), 6);
    assert_eq!(c.callback_post_withdraw_ft_seed(&id("bob"), &id("alice"), 4, false, 300), Ok(()));
    assert_eq!(c.get_user_seed(&id("alice"), &id("bob")), 10);
    assert_eq!(c.get_seed_amount(&id("bob")), Some(10));
    // 5000 over a stake of 6 leaves one unit of dust with the farm
    assert_eq!(c.get_reward(&id("alice"), &id("charlie")), 4999);
    assert_eq!(c.get_farm(&id("bob#0"), 300).unwrap().unclaimed_reward, 1);
}

#[test]
fn storage_deposits() {
    let mut c = books(50000);
    assert_eq!(c.storage_balance_of(&id("nobody")), None);
    assert_eq!(c.storage_balance_of(&id("alice")), Some((2000 * BYTE_COST, 1908 * BYTE_COST)));
    assert_eq!(c.assert_storage_usage(&id("alice")), Ok(()));
    assert_eq!(c.assert_storage_usage(&id("nobody")), Err(FarmingError::AccountNotRegistered));
    assert_eq!(c.storage_withdraw(&id("alice"), Some(8 * BYTE_COST)), Ok(8 * BYTE_COST));
    assert_eq!(c.storage_withdraw(&id("alice"), Some(1901 * BYTE_COST)), Err(FarmingError::InsufficientStorage));
    assert_eq!(c.storage_withdraw(&id("alice"), None), Ok(1900 * BYTE_COST));
    assert_eq!(c.storage_balance_of(&id("alice")), Some((92 * BYTE_COST, 0)));
    assert_eq!(
        c.claim_reward_by_farm(&id("alice"), &id("bob#0"), 200),
        Err(FarmingError::InsufficientStorage)
    );
    assert_eq!(
        c.claim_reward_by_seed(&id("alice"), &id("bob"), 200),
        Err(FarmingError::InsufficientStorage)
    );
    assert_eq!(c.get_farmer(&id("alice")).unwrap().rps_count(), 0);
    // from within, a claim is settled whatever the deposit
    assert_eq!(c.internal_claim_user_reward_by_farm_id(&id("alice"), &id("bob#0"), 200), Ok(()));
    assert_eq!(c.get_farmer(&id("alice")).unwrap().rps_count(), 1);
    assert_eq!(c.internal_claim_user_reward_by_seed_id(&id("alice"), &id("bob"), 300), Ok(()));
    assert_eq!(c.get_farm(&id("bob#0"), 300).unwrap().last_round, 4);
    assert_eq!(c.assert_storage_usage(&id("alice")), Err(FarmingError::InsufficientStorage));
    assert_eq!(c.get_farmer_default(&id("nobody")).amount, 0);
    assert_eq!(c.get_farmer_default(&id("alice")).amount, 92 * BYTE_COST);
    assert!(c.get_farmer_wrapped(&id("nobody")).is_none());
    assert_eq!(storage_refund(573, 573 * BYTE_COST + 9), Ok(9));
    assert_eq!(storage_refund(573, 573 * BYTE_COST - 1), Err(FarmingError::InsufficientStorage));
    assert_eq!(storage_refund(0, 0), Ok(0));
}

fn nft_table(entries: &[(&str, u128)]) -> StrMap<u128> {
    let mut t = StrMap::new();
    for (k, v) in entries {
        t.insert(id(k), *v);
    }
    t
}

#[test]
fn tokens_are_staked_for_what_they_stand_for() {
    let mut c = Contract::new(id("owner"));
    let table = nft_table(&[("x.paras.near@1", 40), ("x.paras.near", 10)]);
    assert_eq!(c.create_simple_farm(&terms("nft", "charlie", 5000, 50), None, Some(table)), Ok(id("nft#0")));
    assert_eq!(c.deposit_reward(&id("nft#0"), &id("charlie"), 50000, 100), Ok(50000));
    c.internal_register_account(&id("alice"), 2000 * BYTE_COST).unwrap();
    c.internal_register_account(&id("danny"), 2000 * BYTE_COST).unwrap();
    // a fungible deposit is not taken by this seed
    assert_eq!(
        c.deposit_seed(&id("alice"), &id("nft"), 10_000_000_000_000_000_000, 100).map(|p| payments(&p)),
        Err(FarmingError::InvalidSeedType)
    );
    let r = c.internal_nft_deposit(&id("nft"), &id("alice"), &id("x.paras.near"), &id("1:7"), 100).unwrap();
    assert!(r.0);
    assert_eq!(c.get_user_seed(&id("alice"), &id("nft")), 40);
    let r = c.internal_nft_deposit(&id("nft"), &id("danny"), &id("x.paras.near"), &id("2:1"), 100).unwrap();
    assert!(r.0);
    assert_eq!(c.get_user_seed(&id("danny"), &id("nft")), 10);
    assert_eq!(c.get_seed_amount(&id("nft")), Some(50));
    // a token that stands for nothing is not staked
    let r = c.internal_nft_deposit(&id("nft"), &id("danny"), &id("y.near"), &id("1"), 100).unwrap();
    assert!(!r.0);
    assert_eq!(c.get_seed_amount(&id("nft")), Some(50));
    assert_eq!(c.get_unclaimed_reward(&id("alice"), &id("nft#0"), 150), Ok(4000));
    assert_eq!(c.get_unclaimed_reward(&id("danny"), &id("nft#0"), 150), Ok(1000));
    // only a staked token is given back
    assert_eq!(
        c.withdraw_nft(&id("danny"), &id("nft"), &id("x.paras.near"), &id("1:7"), 200).map(|r| r.0),
        Err(FarmingError::NftNotFound)
    );
    let (token, paid) = c.withdraw_nft(&id("alice"), &id("nft"), &id("x.paras.near"), &id("1:7"), 200).unwrap();
    assert_eq!(token, "x.paras.near@1:7");
    assert_eq!(payments(&paid), vec![(id("charlie"), 8000)]);
    assert_eq!(c.get_user_seed(&id("alice"), &id("nft")), 0);
    assert_eq!(c.get_seed_amount(&id("nft")), Some(10));
    // handing it over failed: it is staked again
    assert_eq!(
        c.callback_post_withdraw_nft(&id("nft"), &id("alice"), &id("x.paras.near"), &id("1:7"), false, 250),
        Ok(())
    );
    assert_eq!(c.get_user_seed(&id("alice"), &id("nft")), 40);
    assert_eq!(c.get_seed_amount(&id("nft")), Some(50));
    assert_eq!(
        c.callback_post_withdraw_nft(&id("nft"), &id("alice"), &id("x.paras.near"), &id("1:7"), true, 250),
        Ok(())
    );
    assert_eq!(c.get_seed_amount(&id("nft")), Some(50));
    // tokens are not staked under a seed of a fungible token
    assert_eq!(c.create_simple_farm(&terms("bob", "charlie", 1, 1), None, None), Ok(id("bob#0")));
    assert_eq!(
        c.internal_nft_deposit(&id("bob"), &id("alice"), &id("x.paras.near"), &id("1:7"), 300).map(|r| r.0),
        Err(FarmingError::InvalidSeedType)
    );
    assert_eq!(
        c.internal_nft_withdraw(&id("nft"), &id("alice"), &id("x.paras.near"), &id("1:7"), 300).map(|r| r.0),
        Ok(id("x.paras.near@1:7"))
    );
}
