use ref_farming::contract::Contract;
use ref_farming::errors::FarmingError;
use ref_farming::farm::HRFarmTerms;

const BYTE_COST: u128 = 10_000_000_000_000_000_000;

fn id(s: &str) -> String {
    String::from(s)
}

fn books() -> Contract {
    let mut c = Contract::new(id("owner"));
    let terms = HRFarmTerms {
        seed_id: id("bob"),
        reward_token: id("charlie"),
        start_at: 0,
        reward_per_session: 5000,
        session_interval: 50,
    };
    c.create_simple_farm(&terms, Some(10), None).unwrap();
    c.deposit_reward(&id("bob#0"), &id("charlie"), 50000, 100).unwrap();
    c.internal_register_account(&id("alice"), 2000 * BYTE_COST).unwrap();
    c
}

#[test]
fn every_refusal_has_its_words() {
    let all = [
        (FarmingError::AccountNotRegistered, "E10: account not registered"),
        (FarmingError::InsufficientStorage, "E11: insufficient $NEAR storage deposit"),
        (FarmingError::AccountAlreadyRegistered, "E14: account already registered"),
        (FarmingError::TokenNotRegistered, "E21: token not registered"),
        (FarmingError::NotEnoughTokens, "E22: not enough tokens in deposit"),
        (FarmingError::SeedNotExist, "E31: seed not exist"),
        (FarmingError::NotEnoughSeed, "E32: not enough amount of seed"),
        (FarmingError::InvalidSeedId, "E33: invalid seed id"),
        (FarmingError::BelowMinSeedDeposit, "E34: below min_deposit of this seed"),
        (FarmingError::FarmNotExist, "E41: farm not exist"),
        (FarmingError::InvalidFarmId, "E42: invalid farm id"),
        (FarmingError::InvalidFarmStatus, "E43: invalid farm status"),
        (FarmingError::InvalidFarmReward, "E44: invalid reward token for this farm"),
        (FarmingError::InvalidSeedType, "E45: invalid seed type"),
        (FarmingError::NftNotFound, "E46: token not staked"),
        (FarmingError::InvalidFarmTerms, "E47: invalid farm terms"),
        (FarmingError::Overflow, "E500: Internal ERROR!"),
    ];
    for (e, words) in all {
        assert_eq!(e.message(), words);
    }
}

#[test]
fn unknown_accounts_are_refused() {
    let mut c = books();
    let e = Err(FarmingError::AccountNotRegistered);
    assert_eq!(c.claim_reward_by_farm(&id("nobody"), &id("bob#0"), 200), e);
    assert_eq!(c.claim_reward_by_seed(&id("nobody"), &id("bob"), 200), e);
    assert_eq!(c.deposit_seed(&id("nobody"), &id("bob"), 10, 200).map(|_| ()), e);
    assert_eq!(c.internal_seed_deposit(&id("bob"), &id("nobody"), 10, 200).map(|_| ()), e);
    assert_eq!(c.withdraw_seed(&id("nobody"), &id("bob"), 10, 200).map(|_| ()), e);
    assert_eq!(c.internal_seed_withdraw(&id("bob"), &id("nobody"), 10, 200).map(|_| ()), e);
    assert_eq!(c.withdraw_reward(&id("nobody"), &id("charlie"), None).map(|_| ()), e);
    assert_eq!(c.remove_user_rps_by_farm(&id("nobody"), &id("bob#0")).map(|_| ()), e);
    assert_eq!(c.storage_withdraw(&id("nobody"), None).map(|_| ()), e);
    assert_eq!(c.get_farmer(&id("nobody")).map(|_| ()), e);
    assert_eq!(c.callback_post_withdraw_reward(&id("charlie"), &id("nobody"), 1, false), e);
    assert_eq!(
        c.internal_register_account(&id("alice"), 1),
        Err(FarmingError::AccountAlreadyRegistered)
    );
}

#[test]
fn unknown_seeds_and_farms_are_refused() {
    let mut c = books();
    assert_eq!(c.deposit_seed(&id("alice"), &id("eve"), 10, 200).map(|_| ()), Err(FarmingError::SeedNotExist));
    assert_eq!(c.withdraw_seed(&id("alice"), &id("eve"), 10, 200).map(|_| ()), Err(FarmingError::SeedNotExist));
    // no stake of a seed that is on record
    assert_eq!(c.withdraw_seed(&id("alice"), &id("bob"), 10, 200).map(|_| ()), Err(FarmingError::SeedNotExist));
    assert_eq!(c.get_seed(&id("eve")).map(|_| ()), Err(FarmingError::SeedNotExist));
    assert_eq!(c.remove_user_rps_by_farm(&id("alice"), &id("eve#0")), Err(FarmingError::SeedNotExist));
    assert_eq!(
        c.claim_reward_by_seed_and_withdraw(&id("alice"), &id("eve"), 200).map(|_| ()),
        Err(FarmingError::SeedNotExist)
    );
    assert_eq!(
        c.deposit_reward(&id("bob#9"), &id("charlie"), 1, 200),
        Err(FarmingError::FarmNotExist)
    );
    assert_eq!(
        c.claim_reward_by_farm_and_withdraw(&id("alice"), &id("bob#9"), 200).map(|_| ()),
        Err(FarmingError::FarmNotExist)
    );
    assert_eq!(
        c.deposit_reward(&id("bob#0"), &id("eve"), 1, 200),
        Err(FarmingError::InvalidFarmReward)
    );
    // claims from a farm that is not on record settle nothing
    assert_eq!(c.claim_reward_by_farm(&id("alice"), &id("bob#9"), 200), Ok(()));
    assert_eq!(c.claim_reward_by_seed(&id("alice"), &id("eve"), 200), Ok(()));
    assert_eq!(c.get_unclaimed_reward(&id("alice"), &id("bob#9"), 200), Ok(0));
    assert_eq!(c.get_unclaimed_reward(&id("nobody"), &id("bob#0"), 200), Ok(0));
}

#[test]
fn unreadable_names_are_refused() {
    let mut c = books();
    let e = FarmingError::InvalidFarmId;
    assert_eq!(c.claim_reward_by_farm(&id("alice"), &id("bob"), 200), Err(e));
    assert_eq!(c.get_unclaimed_reward(&id("alice"), &id("bob#0#1"), 200), Err(e));
    assert_eq!(c.force_clean_farm(&id("bob#"), 200), Err(e));
    assert_eq!(c.internal_remove_farm_by_farm_id(&id("#"), 200), Err(e));
    assert_eq!(c.remove_user_rps_by_farm(&id("alice"), &id("bob#x")), Err(e));
}

#[test]
fn small_deposits_and_great_withdrawals_are_refused() {
    let mut c = books();
    assert_eq!(
        c.deposit_seed(&id("alice"), &id("bob"), 9, 200).map(|_| ()),
        Err(FarmingError::BelowMinSeedDeposit)
    );
    // the least deposit does not bind a stake made from within
    assert_eq!(c.internal_seed_deposit(&id("bob"), &id("alice"), 9, 200).map(|p| p.len()), Ok(0));
    assert_eq!(c.withdraw_seed(&id("alice"), &id("bob"), 10, 200).map(|_| ()), Err(FarmingError::NotEnoughSeed));
    assert_eq!(c.deposit_seed(&id("alice"), &id("bob"), u128::MAX, 200).map(|_| ()), Err(FarmingError::Overflow));
    assert_eq!(c.get_user_seed(&id("alice"), &id("bob")), 9);
    assert_eq!(c.withdraw_reward(&id("alice"), &id("charlie"), Some(1)), Err(FarmingError::TokenNotRegistered));
}

#[test]
fn a_farm_at_work_is_not_forgotten() {
    let mut c = books();
    c.deposit_seed(&id("alice"), &id("bob"), 10, 200).unwrap();
    assert_eq!(c.get_farmer(&id("alice")).unwrap().rps_count(), 1);
    assert_eq!(c.remove_user_rps_by_farm(&id("alice"), &id("bob#0")), Ok(false));
    assert_eq!(c.get_farmer(&id("alice")).unwrap().rps_count(), 1);
    assert_eq!(c.force_clean_farm(&id("bob#0"), 200), Ok(false));
    assert_eq!(c.force_clean_farm(&id("bob#0"), 600), Ok(true));
    assert_eq!(c.remove_user_rps_by_farm(&id("alice"), &id("bob#0")), Ok(true));
    assert_eq!(c.get_farmer(&id("alice")).unwrap().rps_count(), 0);
    // what was unclaimed when the farm was cleared went to the beneficiary
    assert_eq!(c.get_outdated_farm(&id("bob#0"), 600).unwrap().beneficiary_reward, 50000);
}
