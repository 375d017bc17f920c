use ref_farming::farm::{unclaimed_for, Farm, FarmRewardDistribution, FarmStatus, FarmTerms, HRFarmTerms};
use ref_farming::wide::U256;

const DENOM: u128 = 1_000_000_000_000_000_000_000_000;

fn terms(start_at: u32, per: u128, interval: u32) -> FarmTerms {
    FarmTerms {
        seed_id: String::from("bob"),
        reward_token: String::from("charlie"),
        start_at,
        reward_per_session: per,
        session_interval: interval,
    }
}

fn running(per: u128, interval: u32, reward: u128, start: u32) -> Farm {
    let mut farm = Farm::new(String::from("bob#0"), terms(0, per, interval));
    assert_eq!(farm.add_reward(&reward, start), Some(reward));
    farm
}

fn balances(farm: &Farm) -> bool {
    farm.last_distribution.undistributed + farm.last_distribution.unclaimed + farm.amount_of_claimed
        == farm.amount_of_reward
}

#[test]
fn terms_are_taken_over() {
    let written = HRFarmTerms {
        seed_id: String::from("bob"),
        reward_token: String::from("charlie"),
        start_at: 7,
        reward_per_session: 5000,
        session_interval: 50,
    };
    let kept = FarmTerms::from(&written);
    assert_eq!(kept.seed_id, "bob");
    assert_eq!(kept.reward_token, "charlie");
    assert_eq!(kept.start_at, 7);
    assert_eq!(kept.reward_per_session, 5000);
    assert_eq!(kept.session_interval, 50);
}

#[test]
fn status_names() {
    assert_eq!(String::from(&FarmStatus::Created), "Created");
    assert_eq!(String::from(&FarmStatus::Running), "Running");
    assert_eq!(String::from(&FarmStatus::Ended), "Ended");
    assert_eq!(String::from(&FarmStatus::Cleared), "Cleared");
}

#[test]
fn new_farm_holds_nothing() {
    let farm = Farm::new(String::from("bob#0"), terms(0, 5000, 50));
    assert_eq!(farm.status, FarmStatus::Created);
    assert_eq!(farm.last_distribution, FarmRewardDistribution::new());
    assert_eq!(farm.amount_of_reward, 0);
    assert_eq!(farm.amount_of_claimed, 0);
    assert_eq!(farm.amount_of_beneficiary, 0);
    assert_eq!(farm.get_farm_id(), "bob#0");
    assert_eq!(farm.get_seed_id(), "bob");
    assert_eq!(farm.get_reward_token(), "charlie");
    assert_eq!(farm.try_distribute(&10, 1000), None);
    assert!(!farm.can_be_removed(&10, 1000));
}

#[test]
fn first_reward_starts_the_farm() {
    let mut farm = Farm::new(String::from("bob#0"), terms(0, 5000, 50));
    assert_eq!(farm.add_reward(&50000, 100), Some(50000));
    assert_eq!(farm.status, FarmStatus::Running);
    assert_eq!(farm.terms.start_at, 100);
    assert_eq!(farm.amount_of_reward, 50000);
    assert!(balances(&farm));
}

#[test]
fn a_given_start_time_is_kept() {
    let mut farm = Farm::new(String::from("bob#0"), terms(500, 5000, 50));
    assert_eq!(farm.add_reward(&50000, 100), Some(50000));
    assert_eq!(farm.terms.start_at, 500);
    // nothing is released before the start
    assert_eq!(farm.try_distribute(&10, 499), None);
    assert_eq!(farm.try_distribute(&10, 549).unwrap().rr, 0);
    assert_eq!(farm.try_distribute(&10, 550).unwrap().rr, 1);
}

#[test]
fn one_session_releases_one_reward() {
    let farm = running(5000, 50, 50000, 100);
    let dis = farm.try_distribute(&10, 160).unwrap();
    assert_eq!(dis.rr, 1);
    assert_eq!(dis.unclaimed, 5000);
    assert_eq!(dis.undistributed, 45000);
    assert_eq!(dis.rps, U256 { hi: 0, lo: 500 * DENOM });
    // the farm itself is as it was
    assert_eq!(farm.last_distribution.rr, 0);
    assert_eq!(farm.last_distribution.undistributed, 50000);
}

#[test]
fn asking_twice_gives_one_answer() {
    let farm = running(5000, 50, 50000, 100);
    let first = farm.try_distribute(&7, 333);
    let second = farm.try_distribute(&7, 333);
    assert_eq!(first, second);
    let mut written = running(5000, 50, 50000, 100);
    written.distribute(&7, 333);
    let once = written.last_distribution;
    written.distribute(&7, 333);
    assert_eq!(written.last_distribution, once);
}

#[test]
fn nothing_staked_leaves_reward_per_seed_alone() {
    let mut farm = running(5000, 50, 50000, 100);
    farm.distribute(&10, 160);
    let before = farm.last_distribution.rps;
    let dis = farm.try_distribute(&0, 260).unwrap();
    assert_eq!(dis.rps, before);
    assert_eq!(dis.rr, 3);
    assert_eq!(dis.unclaimed, 15000);
}

#[test]
fn nothing_staked_sends_reward_to_the_beneficiary() {
    let mut farm = running(5000, 50, 50000, 100);
    farm.distribute(&0, 260);
    assert_eq!(farm.last_distribution.rr, 3);
    assert_eq!(farm.last_distribution.unclaimed, 0);
    assert_eq!(farm.last_distribution.undistributed, 35000);
    assert_eq!(farm.amount_of_beneficiary, 15000);
    assert_eq!(farm.amount_of_claimed, 15000);
    assert_eq!(farm.last_distribution.rps, U256::zero());
    assert!(balances(&farm));
}

#[test]
fn reward_runs_out_within_a_session() {
    // 12000 pays two sessions of 5000 and a last one of 2000
    let mut farm = running(5000, 50, 12000, 100);
    let dis = farm.try_distribute(&10, 100 + 50 * 7).unwrap();
    assert_eq!(dis.undistributed, 0);
    assert_eq!(dis.unclaimed, 12000);
    assert_eq!(dis.rr, 3);
    assert_eq!(dis.rps, U256::from_u128(1200 * DENOM));
    assert!(farm.can_be_removed(&10, 100 + 50 * 7));
    farm.distribute(&10, 100 + 50 * 7);
    assert_eq!(farm.status, FarmStatus::Ended);
    assert!(balances(&farm));
}

#[test]
fn reward_runs_out_on_a_session_boundary() {
    let mut farm = running(5000, 50, 10000, 100);
    assert!(!farm.can_be_removed(&10, 199));
    assert_eq!(farm.try_distribute(&10, 199).unwrap().undistributed, 5000);
    assert!(farm.can_be_removed(&10, 200));
    let dis = farm.try_distribute(&10, 200).unwrap();
    assert_eq!(dis.rr, 2);
    assert_eq!(dis.undistributed, 0);
    // later times release no more
    let late = farm.try_distribute(&10, 100_000).unwrap();
    assert_eq!(late.rr, 2);
    assert_eq!(late.unclaimed, 10000);
    farm.distribute(&3, 200);
    assert_eq!(farm.status, FarmStatus::Ended);
    // a third of 10000 * 10^24 each, rounded down
    assert_eq!(farm.last_distribution.rps, U256::from_u128(3_333_333_333_333_333_333_333_333_333));
    // an ended farm takes no reward
    assert_eq!(farm.add_reward(&1, 300), None);
    assert_eq!(farm.amount_of_reward, 10000);
    // clearing sweeps the dust
    let (rps, paid) = farm.claim_user_reward(&U256::zero(), &3, &3, 300);
    assert_eq!(paid, 9999);
    assert_eq!(rps, farm.last_distribution.rps);
    assert_eq!(farm.last_distribution.unclaimed, 1);
    assert!(farm.move_to_clear(&3, 400));
    assert_eq!(farm.status, FarmStatus::Cleared);
    assert_eq!(farm.last_distribution.unclaimed, 0);
    assert_eq!(farm.amount_of_beneficiary, 1);
    assert_eq!(farm.amount_of_claimed, 10000);
    assert!(balances(&farm));
    assert!(!farm.move_to_clear(&3, 500));
    assert!(!farm.can_be_removed(&3, 500));
}

#[test]
fn a_running_farm_is_not_cleared() {
    let mut farm = running(5000, 50, 50000, 100);
    assert!(!farm.move_to_clear(&10, 160));
    assert_eq!(farm.status, FarmStatus::Running);
    // but the release was written down
    assert_eq!(farm.last_distribution.rr, 1);
}

#[test]
fn more_reward_extends_a_running_farm() {
    let mut farm = running(5000, 50, 10000, 100);
    assert_eq!(farm.add_reward(&5000, 150), Some(15000));
    assert_eq!(farm.terms.start_at, 100);
    assert_eq!(farm.amount_of_reward, 15000);
    // not once the last reward is due
    assert_eq!(farm.add_reward(&5000, 250), None);
    // nor past the greatest balance
    let mut full = running(5000, 50, u128::MAX, 100);
    assert_eq!(full.add_reward(&1, 100), None);
    assert_eq!(full.add_reward(&0, 100), Some(u128::MAX));
}

#[test]
fn a_time_before_the_recorded_round_releases_nothing() {
    let mut farm = running(5000, 50, 50000, 100);
    farm.distribute(&10, 400);
    assert_eq!(farm.last_distribution.rr, 6);
    let dis = farm.try_distribute(&10, 200).unwrap();
    assert_eq!(dis, farm.last_distribution);
}

#[test]
fn a_farmers_share_rounds_down() {
    let rps = U256::from_u128(3_333_333_333_333_333_333_333_333_333);
    assert_eq!(unclaimed_for(&U256::zero(), 1, &rps), Some(3333));
    assert_eq!(unclaimed_for(&U256::zero(), 3, &rps), Some(9999));
    assert_eq!(unclaimed_for(&rps, 3, &rps), Some(0));
    assert_eq!(unclaimed_for(&U256::from_u128(DENOM), 0, &rps), Some(0));
    // settled past the farm: no answer
    assert_eq!(unclaimed_for(&rps, 3, &U256::zero()), None);
    // no balance holds it: no answer
    assert_eq!(unclaimed_for(&U256::zero(), u128::MAX, &U256 { hi: 1, lo: 0 }), None);
}

#[test]
fn claims_move_reward_from_unclaimed_to_claimed() {
    let mut farm = running(5000, 50, 50000, 100);
    let (rps, paid) = farm.claim_user_reward(&U256::zero(), &4, &10, 210);
    assert_eq!(rps, U256::from_u128(1000 * DENOM));
    assert_eq!(paid, 4000);
    assert_eq!(farm.last_distribution.unclaimed, 6000);
    assert_eq!(farm.amount_of_claimed, 4000);
    assert!(balances(&farm));
    assert_eq!(farm.view_farmer_unclaimed_reward(&rps, &4, &10, 260), 2000);
    assert_eq!(farm.view_farmer_unclaimed_reward(&rps, &0, &10, 260), 0);
    assert_eq!(farm.view_farmer_unclaimed_reward(&rps, &4, &0, 260), 0);
}

#[test]
fn reward_per_seed_never_falls() {
    let mut farm = running(5000, 50, 50000, 100);
    let mut last = farm.last_distribution.rps;
    for (total, now) in [(10u128, 150u32), (0, 200), (3, 250), (3, 250), (7, 400), (1, 10_000)] {
        farm.distribute(&total, now);
        assert!(last.le(&farm.last_distribution.rps));
        assert!(balances(&farm));
        last = farm.last_distribution.rps;
    }
    assert_eq!(farm.status, FarmStatus::Ended);
}
