use ref_farming::contract::Contract;
use ref_farming::errors::FarmingError;
use ref_farming::farm::HRFarmTerms;
use ref_farming::rewards::Withdrawal;
use ref_farming::view::FarmInfo;

const BYTE_COST: u128 = 10_000_000_000_000_000_000;

fn accounts(i: usize) -> String {
    String::from(["alice", "bob", "charlie", "danny", "eugene", "fargo"][i])
}

fn fail(e: FarmingError) -> ! {
    panic!("{}", e.message())
}

fn setup_contract() -> Contract {
    Contract::new(accounts(0))
}

fn create_farm(
    contract: &mut Contract,
    seed: String,
    reward: String,
    session_amount: u128,
    session_interval: u32,
) -> String {
    contract
        .create_simple_farm(
            &HRFarmTerms {
                seed_id: seed,
                reward_token: reward,
                start_at: 0,
                reward_per_session: session_amount,
                session_interval,
            },
            Some(10),
            None,
        )
        .unwrap_or_else(|e| fail(e))
}

fn deposit_reward(contract: &mut Contract, amount: u128, time_stamp: u32) {
    contract
        .deposit_reward(&String::from("bob#0"), &accounts(2), amount, time_stamp)
        .unwrap_or_else(|e| fail(e));
}

fn register_farmer(contract: &mut Contract, farmer: String) {
    contract
        .internal_register_account(&farmer, BYTE_COST * 1852)
        .unwrap_or_else(|e| fail(e));
}

fn storage_withdraw(contract: &mut Contract, farmer: String) -> (u128, u128) {
    contract.storage_withdraw(&farmer, None).unwrap_or_else(|e| fail(e));
    contract.storage_balance_of(&farmer).expect("Error")
}

fn deposit_seed(contract: &mut Contract, farmer: String, time_stamp: u32, amount: u128) -> Vec<Withdrawal> {
    contract
        .deposit_seed(&farmer, &accounts(1), amount, time_stamp)
        .unwrap_or_else(|e| fail(e))
}

fn withdraw_seed(contract: &mut Contract, farmer: String, time_stamp: u32, amount: u128) -> Vec<Withdrawal> {
    contract
        .withdraw_seed(&farmer, &accounts(1), amount, time_stamp)
        .unwrap_or_else(|e| fail(e))
}

fn claim_reward(contract: &mut Contract, farmer: String, time_stamp: u32) {
    contract
        .claim_reward_by_farm(&farmer, &String::from("bob#0"), time_stamp)
        .unwrap_or_else(|e| fail(e));
}

fn claim_reward_by_seed(contract: &mut Contract, farmer: String, time_stamp: u32) {
    contract
        .claim_reward_by_seed(&farmer, &String::from("bob"), time_stamp)
        .unwrap_or_else(|e| fail(e));
}

fn remove_farm(contract: &mut Contract, time_stamp: u32) {
    contract
        .force_clean_farm(&String::from("bob#0"), time_stamp)
        .unwrap_or_else(|e| fail(e));
}

fn remove_user_rps(contract: &mut Contract, farmer: String, farm_id: String) -> bool {
    contract.remove_user_rps_by_farm(&farmer, &farm_id).unwrap_or_else(|e| fail(e))
}

fn get_farm(contract: &Contract, farm_id: &String, now: u32) -> FarmInfo {
    contract.get_farm(farm_id, now).expect("Error")
}

fn unclaimed(contract: &Contract, farmer: String, farm_id: &String, now: u32) -> u128 {
    contract.get_unclaimed_reward(&farmer, farm_id, now).unwrap_or_else(|e| fail(e))
}

fn to_yocto(value: &str) -> u128 {
    let vals: Vec<_> = value.split('.').collect();
    let part1 = vals[0].parse::<u128>().unwrap() * 10u128.pow(24);
    if vals.len() > 1 {
        let power = vals[1].len() as u32;
        let part2 = vals[1].parse::<u128>().unwrap() * 10u128.pow(24 - power);
        part1 + part2
    } else {
        part1
    }
}

#[test]
fn test_basics() {
    let mut contract = setup_contract();
    // seed is bob, reward is charlie
    let farm_id = create_farm(&mut contract, accounts(1), accounts(2), 5000, 50);
    assert_eq!(farm_id, String::from("bob#0"));
    let farm_info = get_farm(&contract, &farm_id, 0);
    assert_eq!(farm_info.farm_status, String::from("Created"));
    assert_eq!(farm_info.seed_id, String::from("bob"));
    assert_eq!(farm_info.reward_token, String::from("charlie"));
    assert_eq!(farm_info.reward_per_session, 5000);
    assert_eq!(farm_info.session_interval, 50);

    // deposit 50k, can last 10 rounds from 0 to 9
    deposit_reward(&mut contract, 50000, 100);
    let farm_info = get_farm(&contract, &farm_id, 100);
    assert_eq!(farm_info.farm_status, String::from("Running"));
    assert_eq!(farm_info.start_at, 100);

    // Farmer accounts(0) come in round 1
    register_farmer(&mut contract, accounts(0));
    deposit_seed(&mut contract, accounts(0), 160, 10);
    assert_eq!(unclaimed(&contract, accounts(0), &farm_id, 160), 0);
    let farm_info = get_farm(&contract, &farm_id, 160);
    assert_eq!(farm_info.beneficiary_reward, 5000);
    assert_eq!(farm_info.cur_round, 1);
    assert_eq!(farm_info.last_round, 1);

    // move to round 2, 5k unclaimed for accounts(0)
    assert_eq!(unclaimed(&contract, accounts(0), &farm_id, 210), 5000);
    let farm_info = get_farm(&contract, &farm_id, 210);
    assert_eq!(farm_info.cur_round, 2);
    assert_eq!(farm_info.last_round, 1);

    // Farmer accounts(3) come in
    register_farmer(&mut contract, accounts(3));
    deposit_seed(&mut contract, accounts(3), 260, 10);
    assert_eq!(unclaimed(&contract, accounts(3), &farm_id, 260), 0);
    assert_eq!(unclaimed(&contract, accounts(0), &farm_id, 260), 10000);
    let farm_info = get_farm(&contract, &farm_id, 260);
    assert_eq!(farm_info.cur_round, 3);
    assert_eq!(farm_info.last_round, 3);

    // move to round 4,
    assert_eq!(unclaimed(&contract, accounts(0), &farm_id, 320), 12500);
    assert_eq!(unclaimed(&contract, accounts(3), &farm_id, 320), 2500);
    let farm_info = get_farm(&contract, &farm_id, 320);
    assert_eq!(farm_info.cur_round, 4);
    assert_eq!(farm_info.last_round, 3);

    // remove all seeds at round 5
    println!("----> remove all seeds at round 5");
    withdraw_seed(&mut contract, accounts(0), 360, 10);
    withdraw_seed(&mut contract, accounts(3), 370, 10);
    assert_eq!(unclaimed(&contract, accounts(0), &farm_id, 380), 0);
    assert_eq!(unclaimed(&contract, accounts(3), &farm_id, 380), 0);
    assert_eq!(contract.get_reward(&accounts(0), &accounts(2)), 0);
    assert_eq!(contract.get_reward(&accounts(3), &accounts(2)), 0);
    let farm_info = get_farm(&contract, &farm_id, 380);
    assert_eq!(farm_info.cur_round, 5);
    assert_eq!(farm_info.last_round, 5);

    // move to round 7, account3 come in again
    println!("----> move to round 7, account3 come in again");
    deposit_seed(&mut contract, accounts(3), 460, 10);
    assert_eq!(unclaimed(&contract, accounts(3), &farm_id, 460), 0);
    assert_eq!(unclaimed(&contract, accounts(0), &farm_id, 460), 0);
    let farm_info = get_farm(&contract, &farm_id, 460);
    assert_eq!(farm_info.beneficiary_reward, 15000);
    assert_eq!(farm_info.cur_round, 7);
    assert_eq!(farm_info.last_round, 7);

    // move to round 8, account0 come in again
    println!("----> move to round 8, account0 come in again");
    deposit_seed(&mut contract, accounts(0), 520, 10);
    assert_eq!(unclaimed(&contract, accounts(3), &farm_id, 520), 5000);
    assert_eq!(unclaimed(&contract, accounts(0), &farm_id, 520), 0);
    let farm_info = get_farm(&contract, &farm_id, 520);
    assert_eq!(farm_info.cur_round, 8);
    assert_eq!(farm_info.last_round, 8);

    // move to round 9,
    assert_eq!(unclaimed(&contract, accounts(0), &farm_id, 580), 2500);
    assert_eq!(unclaimed(&contract, accounts(3), &farm_id, 580), 7500);
    let farm_info = get_farm(&contract, &farm_id, 580);
    assert_eq!(farm_info.cur_round, 9);
    assert_eq!(farm_info.last_round, 8);
    assert_eq!(farm_info.farm_status, String::from("Running"));

    // move to round 10,
    assert_eq!(unclaimed(&contract, accounts(0), &farm_id, 610), 5000);
    assert_eq!(unclaimed(&contract, accounts(3), &farm_id, 610), 10000);
    let farm_info = get_farm(&contract, &farm_id, 610);
    assert_eq!(farm_info.cur_round, 10);
    assert_eq!(farm_info.last_round, 8);
    assert_eq!(farm_info.farm_status, String::from("Ended"));

    // claim reward
    println!("----> accounts(0) and accounts(3) claim reward");
    assert_eq!(unclaimed(&contract, accounts(0), &farm_id, 710), 5000);
    assert_eq!(unclaimed(&contract, accounts(3), &farm_id, 710), 10000);
    claim_reward(&mut contract, accounts(0), 720);
    claim_reward(&mut contract, accounts(3), 730);
    assert_eq!(unclaimed(&contract, accounts(0), &farm_id, 740), 0);
    assert_eq!(unclaimed(&contract, accounts(3), &farm_id, 740), 0);
    assert_eq!(contract.get_reward(&accounts(0), &accounts(2)), 5000);
    assert_eq!(contract.get_reward(&accounts(3), &accounts(2)), 10000);
    let farm_info = get_farm(&contract, &farm_id, 740);
    assert_eq!(farm_info.cur_round, 10);
    assert_eq!(farm_info.last_round, 10);

    // clean farm
    println!("----> clean farm");
    remove_farm(&mut contract, 750);
    assert!(contract.get_farm(&farm_id, 750).is_none());

    // remove user rps
    println!("----> remove user rps");
    let prev_available = contract.storage_balance_of(&accounts(0)).expect("Error").1;
    let ret = remove_user_rps(&mut contract, accounts(0), String::from("bob#0"));
    assert!(ret);
    let post_available = contract.storage_balance_of(&accounts(0)).expect("Error").1;
    assert_eq!(post_available - prev_available, 165 * 10_u128.pow(19));

    // withdraw seed
    println!("----> accounts(0) and accounts(3) withdraw seed");
    withdraw_seed(&mut contract, accounts(0), 800, 10);
    withdraw_seed(&mut contract, accounts(3), 810, 10);
    assert_eq!(contract.get_reward(&accounts(0), &accounts(2)), 5000);
    assert_eq!(contract.get_reward(&accounts(3), &accounts(2)), 10000);
}

#[test]
fn test_unclaimed_rewards() {
    let mut contract = setup_contract();
    // seed is bob, reward is charlie
    let farm_id = create_farm(&mut contract, accounts(1), accounts(2), to_yocto("1"), 50);
    assert_eq!(farm_id, String::from("bob#0"));

    // deposit 10, can last 10 rounds from 0 to 9
    deposit_reward(&mut contract, to_yocto("10"), 100);

    // Farmer1 accounts(0) come in round 0
    register_farmer(&mut contract, accounts(0));
    deposit_seed(&mut contract, accounts(0), 110, to_yocto("1"));
    assert_eq!(unclaimed(&contract, accounts(0), &farm_id, 110), 0);
    let farm_info = get_farm(&contract, &farm_id, 110);
    assert_eq!(farm_info.cur_round, 0);
    assert_eq!(farm_info.last_round, 0);
    assert_eq!(farm_info.claimed_reward, 0);
    assert_eq!(farm_info.unclaimed_reward, 0);

    // move to round 1,
    assert_eq!(unclaimed(&contract, accounts(0), &farm_id, 160), to_yocto("1"));
    let farm_info = get_farm(&contract, &farm_id, 160);
    assert_eq!(farm_info.cur_round, 1);
    assert_eq!(farm_info.last_round, 0);
    assert_eq!(farm_info.claimed_reward, to_yocto("0"));
    assert_eq!(farm_info.unclaimed_reward, to_yocto("1"));

    // Farmer2 accounts(3) come in round 1
    register_farmer(&mut contract, accounts(3));
    deposit_seed(&mut contract, accounts(3), 180, to_yocto("1"));
    assert_eq!(unclaimed(&contract, accounts(0), &farm_id, 180), to_yocto("1"));
    assert_eq!(unclaimed(&contract, accounts(3), &farm_id, 180), to_yocto("0"));

    // move to round 2,
    assert_eq!(unclaimed(&contract, accounts(0), &farm_id, 210), to_yocto("1.5"));
    assert_eq!(unclaimed(&contract, accounts(3), &farm_id, 210), to_yocto("0.5"));
    let farm_info = get_farm(&contract, &farm_id, 210);
    assert_eq!(farm_info.cur_round, 2);
    assert_eq!(farm_info.last_round, 1);
    assert_eq!(farm_info.claimed_reward, to_yocto("0"));
    assert_eq!(farm_info.unclaimed_reward, to_yocto("2"));

    // farmer1 claim reward by farm_id at round 3
    claim_reward(&mut contract, accounts(0), 260);
    assert_eq!(unclaimed(&contract, accounts(0), &farm_id, 260), to_yocto("0"));
    assert_eq!(unclaimed(&contract, accounts(3), &farm_id, 260), to_yocto("1"));
    let farm_info = get_farm(&contract, &farm_id, 260);
    assert_eq!(farm_info.cur_round, 3);
    assert_eq!(farm_info.last_round, 3);
    assert_eq!(farm_info.claimed_reward, to_yocto("2"));
    assert_eq!(farm_info.unclaimed_reward, to_yocto("1"));

    // farmer2 claim reward by seed_id at round 4
    claim_reward_by_seed(&mut contract, accounts(3), 310);
    assert_eq!(unclaimed(&contract, accounts(0), &farm_id, 310), to_yocto("0.5"));
    assert_eq!(unclaimed(&contract, accounts(3), &farm_id, 310), to_yocto("0"));
    let farm_info = get_farm(&contract, &farm_id, 310);
    assert_eq!(farm_info.cur_round, 4);
    assert_eq!(farm_info.last_round, 4);
    assert_eq!(farm_info.claimed_reward, to_yocto("3.5"));
    assert_eq!(farm_info.unclaimed_reward, to_yocto("0.5"));

    // farmer1 unstake half lpt at round 5
    withdraw_seed(&mut contract, accounts(0), 360, to_yocto("0.4"));
    assert_eq!(unclaimed(&contract, accounts(0), &farm_id, 360), to_yocto("0"));
    assert_eq!(unclaimed(&contract, accounts(3), &farm_id, 360), to_yocto("0.5"));
    let farm_info = get_farm(&contract, &farm_id, 360);
    assert_eq!(farm_info.cur_round, 5);
    assert_eq!(farm_info.last_round, 5);
    assert_eq!(farm_info.claimed_reward, to_yocto("4.5"));
    assert_eq!(farm_info.unclaimed_reward, to_yocto("0.5"));

    // farmer2 unstake all his lpt at round 6
    withdraw_seed(&mut contract, accounts(3), 410, to_yocto("1"));
    assert_eq!(unclaimed(&contract, accounts(0), &farm_id, 410), to_yocto("0.375"));
    assert_eq!(unclaimed(&contract, accounts(3), &farm_id, 410), to_yocto("0"));
    let farm_info = get_farm(&contract, &farm_id, 410);
    assert_eq!(farm_info.cur_round, 6);
    assert_eq!(farm_info.last_round, 6);
    assert_eq!(farm_info.claimed_reward, to_yocto("5.625"));
    assert_eq!(farm_info.unclaimed_reward, to_yocto("0.375"));

    // move to round 7
    assert_eq!(
        unclaimed(&contract, accounts(0), &farm_id, 460),
        to_yocto("1.374999999999999999999999")
    );
    assert_eq!(unclaimed(&contract, accounts(3), &farm_id, 460), to_yocto("0"));
    let farm_info = get_farm(&contract, &farm_id, 460);
    assert_eq!(farm_info.cur_round, 7);
    assert_eq!(farm_info.last_round, 6);
    assert_eq!(farm_info.claimed_reward, to_yocto("5.625"));
    assert_eq!(farm_info.unclaimed_reward, to_yocto("1.375"));
    withdraw_seed(&mut contract, accounts(0), 470, to_yocto("0.6"));
    assert_eq!(unclaimed(&contract, accounts(0), &farm_id, 470), to_yocto("0"));
    assert_eq!(unclaimed(&contract, accounts(3), &farm_id, 470), to_yocto("0"));
    let farm_info = get_farm(&contract, &farm_id, 470);
    assert_eq!(farm_info.cur_round, 7);
    assert_eq!(farm_info.last_round, 7);
    assert_eq!(farm_info.claimed_reward, to_yocto("6.999999999999999999999999"));
    assert_eq!(farm_info.unclaimed_reward, 1);
}

#[test]
#[should_panic(expected = "E11: insufficient $NEAR storage deposit")]
fn test_storage_withdraw() {
    let mut contract = setup_contract();
    // Farmer1 accounts(0) come in round 0
    register_farmer(&mut contract, accounts(0));
    let sb = storage_withdraw(&mut contract, accounts(0));
    assert_eq!(sb.0, 920000000000000000000);
    assert_eq!(sb.1, 0);

    let farm_id = create_farm(&mut contract, accounts(1), accounts(2), 5000, 50);
    assert_eq!(farm_id, String::from("bob#0"));

    deposit_seed(&mut contract, accounts(0), 60, 10);
}
