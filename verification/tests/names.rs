use ref_farming::errors::FarmingError;
use ref_farming::str_map::StrMap;
use ref_farming::utils::{
    contract_nft_token_id, decimal, find_char, gen_farm_id, get_nft_balance_equivalent, parse_farm_id,
    parse_index, parse_seed_id, prefix_before, to_nano, to_sec,
};

#[test]
fn seconds_and_nanoseconds() {
    assert_eq!(to_nano(100), 100_000_000_000);
    assert_eq!(to_nano(u32::MAX), 4_294_967_295_000_000_000);
    assert_eq!(to_sec(100_999_999_999), 100);
    assert_eq!(to_sec(to_nano(4_294_967_295)), 4_294_967_295);
    // 2^32 seconds wrap to zero
    assert_eq!(to_sec(4_294_967_296_000_000_000), 0);
}

#[test]
fn farm_names_are_written() {
    assert_eq!(gen_farm_id(&String::from("bob"), 0), "bob#0");
    assert_eq!(gen_farm_id(&String::from("bob"), 10), "bob#10");
    assert_eq!(gen_farm_id(&String::from("v2.ref-finance.near@79"), 4096), "v2.ref-finance.near@79#4096");
    assert_eq!(gen_farm_id(&String::from(""), 7), "#7");
    assert_eq!(decimal(0), "0");
    assert_eq!(decimal(1234567890), "1234567890");
}

#[test]
fn farm_names_are_read_back() {
    assert_eq!(parse_farm_id(&String::from("bob#0")), Some((String::from("bob"), 0)));
    assert_eq!(parse_farm_id(&String::from("bob#0012")), Some((String::from("bob"), 12)));
    assert_eq!(parse_farm_id(&String::from("bob#+5")), Some((String::from("bob"), 5)));
    assert_eq!(parse_farm_id(&String::from("#5")), Some((String::new(), 5)));
    let name = gen_farm_id(&String::from("seed.near"), 987);
    assert_eq!(parse_farm_id(&name), Some((String::from("seed.near"), 987)));
}

#[test]
fn unreadable_farm_names() {
    assert_eq!(parse_farm_id(&String::from("bob")), None);
    assert_eq!(parse_farm_id(&String::from("bob#")), None);
    assert_eq!(parse_farm_id(&String::from("bob#1#2")), None);
    assert_eq!(parse_farm_id(&String::from("bob#x")), None);
    assert_eq!(parse_farm_id(&String::from("bob#-1")), None);
    assert_eq!(parse_farm_id(&String::from("bob#1 ")), None);
    assert_eq!(parse_farm_id(&String::from("bob#+")), None);
    assert_eq!(parse_farm_id(&String::from("bob#99999999999999999999999999")), None);
}

#[test]
fn numbers_are_read() {
    assert_eq!(parse_index("0"), Some(0));
    assert_eq!(parse_index("18446744073709551615"), Some(usize::MAX));
    assert_eq!(parse_index("18446744073709551616"), None);
    assert_eq!(parse_index(""), None);
    assert_eq!(parse_index("12a"), None);
}

#[test]
fn seed_names() {
    assert_eq!(parse_seed_id("bob"), Ok((String::from("bob"), String::from("bob"))));
    assert_eq!(parse_seed_id("bob@1"), Err(FarmingError::InvalidSeedId));
}

#[test]
fn first_occurrences() {
    assert_eq!(find_char("x.paras.near@1:1", ':'), Some(14));
    assert_eq!(find_char("x.paras.near@1:1", '@'), Some(12));
    assert_eq!(find_char("a#b#c", '#'), Some(1));
    assert_eq!(find_char("abc", '#'), None);
    assert_eq!(prefix_before(&String::from("x.paras.near@1:1"), ':'), "x.paras.near@1");
    assert_eq!(prefix_before(&String::from("x.paras.near@1:1"), '@'), "x.paras.near");
    assert_eq!(prefix_before(&String::from("plain"), '@'), "plain");
}

fn table(entries: &[(&str, u128)]) -> StrMap<u128> {
    let mut t = StrMap::new();
    for (k, v) in entries {
        t.insert(String::from(*k), *v);
    }
    t
}

#[test]
fn stake_of_a_token_by_token_series_or_contract() {
    assert_eq!(contract_nft_token_id(&String::from("x.paras.near"), &String::from("1:1")), "x.paras.near@1:1");
    let staked = String::from("x.paras.near@1:1");
    // the token itself comes first
    let t = table(&[("x.paras.near@1:1", 7), ("x.paras.near@1", 5), ("x.paras.near", 3)]);
    assert_eq!(get_nft_balance_equivalent(&t, &staked), Some(7));
    // then its series
    let t = table(&[("x.paras.near@1", 5), ("x.paras.near", 3)]);
    assert_eq!(get_nft_balance_equivalent(&t, &staked), Some(5));
    // then its contract
    let t = table(&[("x.paras.near", 3)]);
    assert_eq!(get_nft_balance_equivalent(&t, &staked), Some(3));
    // a token without a series goes by its contract
    assert_eq!(get_nft_balance_equivalent(&t, &String::from("x.paras.near@9")), Some(3));
    // and nothing else stands for it
    assert_eq!(get_nft_balance_equivalent(&t, &String::from("y.near@9")), None);
    let t = table(&[("x.paras.near@2", 5)]);
    assert_eq!(get_nft_balance_equivalent(&t, &staked), None);
}
