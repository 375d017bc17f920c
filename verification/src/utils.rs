//! Time units, and the names of farms and seeds.
//!
//! A farm's name is its seed's name, a `#`, and the farm's number under that
//! seed in decimal: `gen_farm_id` writes such a name and `parse_farm_id` reads
//! it back.

use vstd::prelude::*;
use vstd::string::*;
use crate::errors::FarmingError;
use crate::types::{
    Balance, ContractNFTTokenId, FarmId, NftBalance, SeedId, Timestamp, TimestampSec,
};

verus! {

/// The least amount of a seed that one deposit may stake, unless the seed says
/// otherwise.
pub const MIN_SEED_DEPOSIT: u128 = 1_000_000_000_000_000_000;

/// The greatest length of an account name, in bytes.
pub const MAX_ACCOUNT_LENGTH: u128 = 64;

/// Nanoseconds in a second.
pub const NANOS_PER_SEC: u64 = 1_000_000_000;

/// What parts a farm's name: the seed before it, the number after it.
pub const FARM_DELIMETER: char = '#';

/// What may not occur in the name of a seed.
pub const MFT_TAG: char = '@';

/// What parts the contract from the token in the name of a staked token.
pub const NFT_DELIMETER: char = '@';

/// What parts a token's series from its edition.
pub const PARAS_SERIES_DELIMETER: char = ':';

/// The time in nanoseconds.
pub fn to_nano(timestamp: TimestampSec) -> (r: Timestamp)
    ensures
        r == timestamp * NANOS_PER_SEC,
{
    let wide: u64 = timestamp as u64;
    wide * NANOS_PER_SEC
}

/// The time in whole seconds, as far as 32 bits hold it.
pub fn to_sec(timestamp: Timestamp) -> (r: TimestampSec)
    ensures
        r == (timestamp / NANOS_PER_SEC) % 0x1_0000_0000,
{
    let secs: u64 = timestamp / NANOS_PER_SEC;
    (secs % 0x1_0000_0000) as u32
}

/// Seconds survive the way to nanoseconds and back, and a time in
/// nanoseconds is before a time in seconds exactly if its whole seconds are.
pub proof fn lemma_sec_nano(secs: TimestampSec, nanos: Timestamp)
    ensures
        (secs * NANOS_PER_SEC / (NANOS_PER_SEC as int)) % 0x1_0000_0000 == secs,
        nanos < secs * NANOS_PER_SEC <==> nanos / NANOS_PER_SEC < secs,
{
}

/// The character that stands for a digit below ten.
pub open spec fn spec_digit_char(d: nat) -> char {
    if d == 0 {
        '0'
    } else if d == 1 {
        '1'
    } else if d == 2 {
        '2'
    } else if d == 3 {
        '3'
    } else if d == 4 {
        '4'
    } else if d == 5 {
        '5'
    } else if d == 6 {
        '6'
    } else if d == 7 {
        '7'
    } else if d == 8 {
        '8'
    } else {
        '9'
    }
}

/// The digit that a character stands for, if it is one of `0` to `9`.
pub open spec fn spec_digit_value(c: char) -> Option<nat> {
    if c == '0' {
        Some(0)
    } else if c == '1' {
        Some(1)
    } else if c == '2' {
        Some(2)
    } else if c == '3' {
        Some(3)
    } else if c == '4' {
        Some(4)
    } else if c == '5' {
        Some(5)
    } else if c == '6' {
        Some(6)
    } else if c == '7' {
        Some(7)
    } else if c == '8' {
        Some(8)
    } else if c == '9' {
        Some(9)
    } else {
        None
    }
}

/// A number in decimal, without leading zeros.
pub open spec fn spec_decimal(n: nat) -> Seq<char>
    decreases n,
{
    if n < 10 {
        seq![spec_digit_char(n)]
    } else {
        spec_decimal(n / 10).push(spec_digit_char(n % 10))
    }
}

/// Whether a text is made of digits only.
pub open spec fn spec_all_digits(s: Seq<char>) -> bool {
    forall|i: int| 0 <= i < s.len() ==> (#[trigger] spec_digit_value(s[i])) is Some
}

/// The number that a text of digits stands for in decimal.
pub open spec fn spec_digits_value(s: Seq<char>) -> nat
    decreases s.len(),
{
    if s.len() == 0 {
        0
    } else {
        match spec_digit_value(s.last()) {
            Some(d) => spec_digits_value(s.drop_last()) * 10 + d,
            None => 0,
        }
    }
}

/// The number that a text stands for: digits, at least one of them, after at
/// most one `+`, and no greater than the greatest index.
pub open spec fn spec_parse_index(s: Seq<char>) -> Option<usize> {
    let digits = if s.len() > 0 && s[0] == '+' {
        s.subrange(1, s.len() as int)
    } else {
        s
    };
    if digits.len() > 0 && spec_all_digits(digits) && spec_digits_value(digits) <= usize::MAX {
        Some(spec_digits_value(digits) as usize)
    } else {
        None
    }
}

/// The name of the farm with number `index` under the seed `seed_id`.
pub open spec fn spec_gen_farm_id(seed_id: Seq<char>, index: nat) -> Seq<char> {
    seed_id.push(FARM_DELIMETER) + spec_decimal(index)
}

/// Whether `c` stands in `s` at position `i` and nowhere before.
pub open spec fn spec_first_at(s: Seq<char>, c: char, i: int) -> bool {
    &&& 0 <= i < s.len()
    &&& s[i] == c
    &&& forall|j: int| 0 <= j < i ==> s[j] != c
}

/// The part of `s` before the first `c`; all of `s` where no `c` occurs.
pub open spec fn spec_prefix_before(s: Seq<char>, c: char) -> Seq<char> {
    if s.contains(c) {
        s.subrange(0, choose|i: int| spec_first_at(s, c, i))
    } else {
        s
    }
}

/// Whether `s` has a `#` at position `i` and nowhere else.
pub open spec fn spec_split_at(s: Seq<char>, i: int) -> bool {
    &&& 0 <= i < s.len()
    &&& s[i] == FARM_DELIMETER
    &&& forall|j: int| 0 <= j < s.len() && j != i ==> s[j] != FARM_DELIMETER
}

/// The seed and the number that a farm's name holds: the name has one `#`,
/// the seed stands before it and the number after it.
pub open spec fn spec_parse_farm_id(farm_id: Seq<char>) -> Option<(Seq<char>, usize)> {
    if exists|i: int| spec_split_at(farm_id, i) {
        let i = choose|i: int| spec_split_at(farm_id, i);
        match spec_parse_index(farm_id.subrange(i + 1, farm_id.len() as int)) {
            Some(n) => Some((farm_id.subrange(0, i), n)),
            None => None,
        }
    } else {
        None
    }
}

/// A number in decimal is made of digits, and stands for that number.
pub proof fn lemma_decimal(n: nat)
    ensures
        spec_decimal(n).len() > 0,
        spec_all_digits(spec_decimal(n)),
        spec_digits_value(spec_decimal(n)) == n,
        forall|i: int|
            0 <= i < spec_decimal(n).len() ==> spec_decimal(n)[i] != FARM_DELIMETER
                && spec_decimal(n)[i] != '+',
    decreases n,
{
    let s = spec_decimal(n);
    if n < 10 {
        assert(s.drop_last() =~= Seq::<char>::empty());
        assert(spec_digits_value(s.drop_last()) == 0);
        assert(spec_digit_value(s.last()) == Some(n));
    } else {
        lemma_decimal(n / 10);
        let head = spec_decimal(n / 10);
        assert(s.drop_last() =~= head);
        assert(spec_digit_value(s.last()) == Some(n % 10));
        assert forall|i: int| 0 <= i < s.len() implies (#[trigger] spec_digit_value(s[i])) is Some
            && s[i] != FARM_DELIMETER && s[i] != '+' by {
            if i < head.len() {
                assert(s[i] == head[i]);
                assert(spec_digit_value(head[i]) is Some);
            }
        }
    }
}

/// The one-character text of a digit below ten.
fn digit_str(d: usize) -> (r: &'static str)
    requires
        d < 10,
    ensures
        r@ == seq![spec_digit_char(d as nat)],
{
    proof {
        reveal_strlit("0");
        reveal_strlit("1");
        reveal_strlit("2");
        reveal_strlit("3");
        reveal_strlit("4");
        reveal_strlit("5");
        reveal_strlit("6");
        reveal_strlit("7");
        reveal_strlit("8");
        reveal_strlit("9");
    }
    let r = if d == 0 {
        "0"
    } else if d == 1 {
        "1"
    } else if d == 2 {
        "2"
    } else if d == 3 {
        "3"
    } else if d == 4 {
        "4"
    } else if d == 5 {
        "5"
    } else if d == 6 {
        "6"
    } else if d == 7 {
        "7"
    } else if d == 8 {
        "8"
    } else {
        "9"
    };
    assert(r@ =~= seq![spec_digit_char(d as nat)]);
    r
}

/// Writes a number in decimal.
pub fn decimal(n: usize) -> (r: String)
    ensures
        r@ == spec_decimal(n as nat),
    decreases n,
{
    if n < 10 {
        String::from_str(digit_str(n))
    } else {
        let mut s = decimal(n / 10);
        s.append(digit_str(n % 10));
        assert(s@ =~= spec_decimal(n as nat));
        s
    }
}

/// The name of the farm with number `index` under the seed `seed_id`.
pub fn gen_farm_id(seed_id: &SeedId, index: usize) -> (r: FarmId)
    ensures
        r@ == spec_gen_farm_id(seed_id@, index as nat),
{
    proof {
        reveal_strlit("#");
    }
    let mut id = seed_id.clone();
    id.append("#");
    let digits = decimal(index);
    id.append(digits.as_str());
    assert(id@ =~= spec_gen_farm_id(seed_id@, index as nat));
    id
}

/// A farm's name, read back, gives the seed and the number it was written
/// from, for a seed without a `#` in its name.
pub proof fn lemma_parse_gen_farm_id(seed_id: Seq<char>, index: usize)
    requires
        !seed_id.contains(FARM_DELIMETER),
    ensures
        spec_parse_farm_id(spec_gen_farm_id(seed_id, index as nat)) == Some((seed_id, index)),
{
    let id = spec_gen_farm_id(seed_id, index as nat);
    let digits = spec_decimal(index as nat);
    let at = seed_id.len() as int;
    lemma_decimal(index as nat);
    assert forall|j: int| 0 <= j < id.len() && j != at implies id[j] != FARM_DELIMETER by {
        if j < at {
            assert(seed_id.contains(seed_id[j]));
        } else {
            assert(id[j] == digits[j - at - 1]);
        }
    }
    assert(spec_split_at(id, at));
    let i = choose|i: int| spec_split_at(id, i);
    assert(i == at);
    assert(id.subrange(0, at) =~= seed_id);
    assert(id.subrange(at + 1, id.len() as int) =~= digits);
    assert(digits[0] != '+');
}

/// Where a farm's name can be read, the seed read from it is the seed that
/// the name was written from.
pub proof fn lemma_parse_names_seed(farm_id: Seq<char>, seed_id: Seq<char>, index: nat)
    requires
        farm_id == spec_gen_farm_id(seed_id, index),
        spec_parse_farm_id(farm_id) is Some,
    ensures
        match spec_parse_farm_id(farm_id) {
            Some((read, _)) => read == seed_id,
            None => false,
        },
{
    let at = seed_id.len() as int;
    let i = choose|i: int| spec_split_at(farm_id, i);
    assert(spec_split_at(farm_id, i));
    assert(farm_id[at] == FARM_DELIMETER);
    assert(i == at);
    assert(farm_id.subrange(0, at) =~= seed_id);
}

/// Two farms have one name only if they have one seed and one number.
pub proof fn lemma_gen_farm_id_injective(first: Seq<char>, m: nat, second: Seq<char>, n: nat)
    requires
        spec_gen_farm_id(first, m) == spec_gen_farm_id(second, n),
    ensures
        first == second,
        m == n,
{
    let id = spec_gen_farm_id(first, m);
    let (a, b) = (first.len() as int, second.len() as int);
    lemma_decimal(m);
    lemma_decimal(n);
    let (head_m, head_n) = (first.push(FARM_DELIMETER), second.push(FARM_DELIMETER));
    assert(id == head_m + spec_decimal(m));
    assert(id == head_n + spec_decimal(n));
    assert(id.len() == a + 1 + spec_decimal(m).len());
    assert(id.len() == b + 1 + spec_decimal(n).len());
    assert(id[a] == head_m[a]);
    assert(id[b] == head_n[b]);
    if a < b {
        assert(id[b] == spec_decimal(m)[b - (a + 1)]);
    }
    if b < a {
        assert(id[a] == spec_decimal(n)[a - (b + 1)]);
    }
    assert(first =~= id.subrange(0, a));
    assert(second =~= id.subrange(0, b));
    assert(spec_decimal(m) =~= id.subrange(a + 1, id.len() as int));
    assert(spec_decimal(n) =~= id.subrange(b + 1, id.len() as int));
}

/// The number of a text of digits is no less than the number of any of its
/// beginnings.
pub proof fn lemma_digits_value_grows(s: Seq<char>, k: int)
    requires
        spec_all_digits(s),
        0 <= k <= s.len(),
    ensures
        spec_digits_value(s.subrange(0, k)) <= spec_digits_value(s),
    decreases s.len() - k,
{
    if k == s.len() {
        assert(s.subrange(0, k) =~= s);
    } else {
        lemma_digits_value_grows(s, k + 1);
        let longer = s.subrange(0, k + 1);
        assert(longer.drop_last() =~= s.subrange(0, k));
        assert(longer.last() == s[k]);
        assert(spec_digit_value(s[k]) is Some);
    }
}

/// The position of the first `c` in `s`, if there is one.
pub fn find_char(s: &str, c: char) -> (r: Option<usize>)
    ensures
        match r {
            Some(i) => spec_first_at(s@, c, i as int),
            None => !s@.contains(c),
        },
        r is Some ==> spec_prefix_before(s@, c) == s@.subrange(0, r->0 as int),
        r is None ==> spec_prefix_before(s@, c) == s@,
{
    let n: usize = s.unicode_len();
    let mut i: usize = 0;
    while i < n
        invariant
            n == s@.len(),
            i <= n,
            forall|j: int| 0 <= j < i ==> s@[j] != c,
        decreases n - i,
    {
        if s.get_char(i) == c {
            proof {
                assert(spec_first_at(s@, c, i as int));
                assert(s@.contains(c));
                let k = choose|k: int| spec_first_at(s@, c, k);
                assert(k == i);
            }
            return Some(i);
        }
        i = i + 1;
    }
    None
}

/// The digit that a character stands for, if it is one of `0` to `9`.
pub fn digit_value(c: char) -> (r: Option<usize>)
    ensures
        match r {
            Some(d) => spec_digit_value(c) == Some(d as nat) && d < 10,
            None => spec_digit_value(c) is None,
        },
{
    if c == '0' {
        Some(0)
    } else if c == '1' {
        Some(1)
    } else if c == '2' {
        Some(2)
    } else if c == '3' {
        Some(3)
    } else if c == '4' {
        Some(4)
    } else if c == '5' {
        Some(5)
    } else if c == '6' {
        Some(6)
    } else if c == '7' {
        Some(7)
    } else if c == '8' {
        Some(8)
    } else if c == '9' {
        Some(9)
    } else {
        None
    }
}

/// Reads a number: digits, at least one of them, after at most one `+`.
/// There is no number in any other text, nor in one that stands for more
/// than the greatest index.
pub fn parse_index(s: &str) -> (r: Option<usize>)
    ensures
        r == spec_parse_index(s@),
{
    let n: usize = s.unicode_len();
    let start: usize = if n > 0 && s.get_char(0) == '+' {
        1
    } else {
        0
    };
    if start == n {
        return None;
    }
    let ghost digits = s@.subrange(start as int, n as int);
    proof {
        if start == 0 {
            assert(digits =~= s@);
        }
    }
    let mut acc: usize = 0;
    let mut i: usize = start;
    while i < n
        invariant
            n == s@.len(),
            start <= i <= n,
            start < n,
            digits == s@.subrange(start as int, n as int),
            digits == (if s@.len() > 0 && s@[0] == '+' {
                s@.subrange(1, s@.len() as int)
            } else {
                s@
            }),
            spec_all_digits(digits.subrange(0, i - start)),
            acc == spec_digits_value(digits.subrange(0, i - start)),
        decreases n - i,
    {
        let c = s.get_char(i);
        let ghost shorter = digits.subrange(0, i - start);
        let ghost longer = digits.subrange(0, i + 1 - start);
        proof {
            assert(longer.drop_last() =~= shorter);
            assert(longer.last() == c);
        }
        match digit_value(c) {
            None => {
                proof {
                    assert(digits[i - start] == c);
                    assert(!spec_all_digits(digits));
                }
                return None;
            },
            Some(d) => {
                proof {
                    assert forall|j: int| 0 <= j < longer.len() implies (
                    #[trigger] spec_digit_value(longer[j])) is Some by {
                        if j < shorter.len() {
                            assert(longer[j] == shorter[j]);
                        }
                    }
                }
                if acc > (usize::MAX - d) / 10 {
                    proof {
                        assert(spec_digits_value(longer) > usize::MAX);
                        if spec_all_digits(digits) {
                            lemma_digits_value_grows(digits, i + 1 - start);
                        }
                    }
                    return None;
                }
                acc = acc * 10 + d;
            },
        }
        i = i + 1;
    }
    proof {
        assert(digits.subrange(0, n - start) =~= digits);
    }
    Some(acc)
}

/// Reads a farm's name: the seed before its one `#`, and the number after
/// it. There is no reading where the name has no `#` or more than one, or
/// where no number follows it.
pub fn parse_farm_id(farm_id: &FarmId) -> (r: Option<(String, usize)>)
    ensures
        match r {
            Some((seed_id, index)) => spec_parse_farm_id(farm_id@) == Some((seed_id@, index)),
            None => spec_parse_farm_id(farm_id@) is None,
        },
{
    let text = farm_id.as_str();
    let n: usize = text.unicode_len();
    let at: usize = match find_char(text, FARM_DELIMETER) {
        None => {
            proof {
                if exists|i: int| spec_split_at(farm_id@, i) {
                    let i = choose|i: int| spec_split_at(farm_id@, i);
                    assert(farm_id@.contains(farm_id@[i]));
                }
            }
            return None;
        },
        Some(i) => i,
    };
    let mut j: usize = at + 1;
    while j < n
        invariant
            n == farm_id@.len(),
            text@ == farm_id@,
            at < j <= n,
            spec_first_at(farm_id@, FARM_DELIMETER, at as int),
            forall|k: int| at < k < j ==> farm_id@[k] != FARM_DELIMETER,
        decreases n - j,
    {
        if text.get_char(j) == FARM_DELIMETER {
            proof {
                if exists|i: int| spec_split_at(farm_id@, i) {
                    let i = choose|i: int| spec_split_at(farm_id@, i);
                    assert(i == at || i == j);
                }
            }
            return None;
        }
        j = j + 1;
    }
    proof {
        assert(spec_split_at(farm_id@, at as int));
        let i = choose|i: int| spec_split_at(farm_id@, i);
        assert(i == at);
    }
    match parse_index(text.substring_char(at + 1, n)) {
        None => None,
        Some(index) => Some((String::from_str(text.substring_char(0, at)), index)),
    }
}

/// Reads a seed's name, which is the name of the token and of the contract
/// that takes it. A name with an `@` in it is no seed's name, and is
/// refused.
pub fn parse_seed_id(lpt_id: &str) -> (r: Result<(String, String), FarmingError>)
    ensures
        match r {
            Ok((receiver, token)) => !lpt_id@.contains(MFT_TAG) && receiver@ == lpt_id@
                && token@ == lpt_id@,
            Err(e) => lpt_id@.contains(MFT_TAG) && e == FarmingError::InvalidSeedId,
        },
{
    match find_char(lpt_id, MFT_TAG) {
        None => Ok((String::from_str(lpt_id), String::from_str(lpt_id))),
        Some(_) => Err(FarmingError::InvalidSeedId),
    }
}

/// The name of a staked token inside its contract: the contract, an `@`,
/// the token.
pub open spec fn spec_contract_nft_token_id(
    nft_contract_id: Seq<char>,
    nft_token_id: Seq<char>,
) -> Seq<char> {
    nft_contract_id.push(NFT_DELIMETER) + nft_token_id
}

/// The name of a staked token inside its contract.
pub fn contract_nft_token_id(nft_contract_id: &String, nft_token_id: &String) -> (r:
    ContractNFTTokenId)
    ensures
        r@ == spec_contract_nft_token_id(nft_contract_id@, nft_token_id@),
{
    proof {
        reveal_strlit("@");
    }
    let mut id = nft_contract_id.clone();
    id.append("@");
    id.append(nft_token_id.as_str());
    assert(id@ =~= spec_contract_nft_token_id(nft_contract_id@, nft_token_id@));
    id
}

/// The stake that the staked token `nft_staked` stands for. The table is
/// asked for the token itself; failing that, for its series, which stands
/// before the first `:` of a name that has one; failing that, for its
/// contract, which stands before the first `@`.
pub open spec fn spec_nft_balance_equivalent(
    nft_balance: Map<Seq<char>, Balance>,
    nft_staked: Seq<char>,
) -> Option<Balance> {
    let series = spec_prefix_before(nft_staked, PARAS_SERIES_DELIMETER);
    let contract = spec_prefix_before(nft_staked, NFT_DELIMETER);
    if nft_balance.contains_key(nft_staked) {
        Some(nft_balance[nft_staked])
    } else if nft_staked.contains(PARAS_SERIES_DELIMETER) && nft_balance.contains_key(series) {
        Some(nft_balance[series])
    } else if nft_balance.contains_key(contract) {
        Some(nft_balance[contract])
    } else {
        None
    }
}

/// The part of `s` before the first `c`; all of `s` where no `c` occurs.
pub fn prefix_before(s: &String, c: char) -> (r: String)
    ensures
        r@ == spec_prefix_before(s@, c),
{
    match find_char(s.as_str(), c) {
        Some(i) => String::from_str(s.as_str().substring_char(0, i)),
        None => s.clone(),
    }
}

/// The stake that the staked token `nft_staked` stands for, if the table
/// says so for the token, its series or its contract.
pub fn get_nft_balance_equivalent(nft_balance: &NftBalance, nft_staked: &ContractNFTTokenId) -> (r:
    Option<Balance>)
    requires
        nft_balance.wf(),
    ensures
        r == spec_nft_balance_equivalent(nft_balance@, nft_staked@),
{
    if let Some(found) = nft_balance.get(nft_staked) {
        return Some(found);
    }
    if find_char(nft_staked.as_str(), PARAS_SERIES_DELIMETER).is_some() {
        let series = prefix_before(nft_staked, PARAS_SERIES_DELIMETER);
        if let Some(found) = nft_balance.get(&series) {
            return Some(found);
        }
    }
    let contract = prefix_before(nft_staked, NFT_DELIMETER);
    nft_balance.get(&contract)
}

} // verus!
