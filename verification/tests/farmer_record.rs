use ref_farming::errors::FarmingError;
use ref_farming::farmer::{Farmer, VersionedFarmer};
use ref_farming::wide::U256;

const BYTE_COST: u128 = 10_000_000_000_000_000_000;

fn id(s: &str) -> String {
    String::from(s)
}

#[test]
fn rewards_are_added_and_taken() {
    let mut f = Farmer::new(id("alice"), 0);
    assert_eq!(f.add_reward(&id("charlie"), 5), Ok(()));
    assert_eq!(f.add_reward(&id("charlie"), 7), Ok(()));
    assert_eq!(f.rewards.get(&id("charlie")), Some(12));
    assert_eq!(f.sub_reward(&id("charlie"), 2), Ok(2));
    assert_eq!(f.rewards.get(&id("charlie")), Some(10));
    assert_eq!(f.sub_reward(&id("charlie"), 11), Err(FarmingError::NotEnoughTokens));
    assert_eq!(f.sub_reward(&id("danny"), 1), Err(FarmingError::TokenNotRegistered));
    // an amount of zero takes all and removes the entry
    assert_eq!(f.sub_reward(&id("charlie"), 0), Ok(10));
    assert_eq!(f.rewards.get(&id("charlie")), None);
    assert_eq!(f.sub_reward(&id("charlie"), 0), Err(FarmingError::TokenNotRegistered));
}

#[test]
fn a_balance_does_not_pass_the_greatest() {
    let mut f = Farmer::new(id("alice"), 0);
    assert_eq!(f.add_reward(&id("charlie"), u128::MAX), Ok(()));
    assert_eq!(f.add_reward(&id("charlie"), 1), Err(FarmingError::Overflow));
    assert_eq!(f.rewards.get(&id("charlie")), Some(u128::MAX));
    assert_eq!(f.add_seed(&id("bob"), u128::MAX), Ok(()));
    assert_eq!(f.add_seed(&id("bob"), 1), Err(FarmingError::Overflow));
    assert_eq!(f.get_seed(&id("bob")), u128::MAX);
}

#[test]
fn seeds_are_staked_and_taken_back() {
    let mut f = Farmer::new(id("alice"), 0);
    assert_eq!(f.add_seed(&id("bob"), 0), Ok(()));
    assert_eq!(f.seeds.len(), 0);
    assert_eq!(f.add_seed(&id("bob"), 10), Ok(()));
    assert_eq!(f.add_seed(&id("bob"), 5), Ok(()));
    assert_eq!(f.get_seed(&id("bob")), 15);
    assert_eq!(f.sub_seed(&id("bob"), 16), Err(FarmingError::NotEnoughSeed));
    assert_eq!(f.sub_seed(&id("eve"), 1), Err(FarmingError::SeedNotExist));
    assert_eq!(f.sub_seed(&id("bob"), 4), Ok(11));
    assert_eq!(f.sub_seed(&id("bob"), 11), Ok(0));
    assert_eq!(f.seeds.len(), 0);
    assert_eq!(f.get_seed(&id("bob")), 0);
}

#[test]
fn reward_per_seed_is_noted_and_forgotten() {
    let mut f = Farmer::new(id("alice"), 0);
    assert_eq!(f.get_rps(&id("bob#0")), U256::zero());
    assert_eq!(f.rps_count(), 0);
    f.set_rps(&id("bob#0"), U256 { hi: 1, lo: 2 });
    f.set_rps(&id("bob#1"), U256 { hi: 0, lo: 9 });
    f.set_rps(&id("bob#0"), U256 { hi: 3, lo: 4 });
    assert_eq!(f.rps_count(), 2);
    assert_eq!(f.get_rps(&id("bob#0")), U256 { hi: 3, lo: 4 });
    f.remove_rps(&id("bob#0"));
    f.remove_rps(&id("bob#7"));
    assert_eq!(f.rps_count(), 1);
    assert_eq!(f.get_rps(&id("bob#0")), U256::zero());
}

#[test]
fn storage_is_priced_by_the_entries() {
    let mut f = Farmer::new(id("alice"), 92 * BYTE_COST);
    assert_eq!(f.storage_bytes(), 92);
    assert_eq!(f.storage_usage(), 920_000_000_000_000_000_000);
    assert!(f.storage_covered());
    assert_eq!(f.storage_available(), Some(0));
    f.set_rps(&id("bob#0"), U256::zero());
    assert_eq!(f.storage_usage(), (92 + 165) * BYTE_COST);
    assert!(!f.storage_covered());
    assert_eq!(f.storage_available(), None);
    f.add_seed(&id("bob"), 1).unwrap();
    f.add_reward(&id("charlie"), 1).unwrap();
    assert_eq!(f.storage_bytes(), 92 + 165 + 84 + 84);
    f.amount = 425 * BYTE_COST + 5;
    assert_eq!(f.storage_available(), Some(5));
}

#[test]
fn tokens_are_noted_by_seed() {
    let mut f = Farmer::new(id("alice"), 0);
    f.add_nft(&id("seed"), id("x@1"));
    f.add_nft(&id("seed"), id("x@2"));
    f.add_nft(&id("other"), id("x@1"));
    assert_eq!(f.sub_nft(&id("seed"), id("x@3")), None);
    assert_eq!(f.sub_nft(&id("none"), id("x@1")), None);
    assert_eq!(f.sub_nft(&id("seed"), id("x@1")), Some(id("x@1")));
    assert_eq!(f.sub_nft(&id("seed"), id("x@1")), None);
    assert_eq!(f.sub_nft(&id("other"), id("x@1")), Some(id("x@1")));
    assert_eq!(f.sub_nft(&id("seed"), id("x@2")), Some(id("x@2")));
}

#[test]
fn a_kept_record_is_in_the_current_layout() {
    let mut kept = VersionedFarmer::new(id("alice"), 5);
    assert!(!kept.need_upgrade());
    assert_eq!(kept.get_ref().farmer_id, "alice");
    assert_eq!(kept.get_ref().amount, 5);
    kept.get_ref_mut().add_seed(&id("bob"), 3).unwrap();
    let kept = kept.upgrade();
    let farmer = kept.get();
    assert_eq!(farmer.get_seed(&id("bob")), 3);
    let copy = farmer.clone();
    assert_eq!(copy.get_seed(&id("bob")), 3);
    assert_eq!(copy.farmer_id, "alice");
}
