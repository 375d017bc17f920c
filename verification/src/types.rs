//! Names for the plain types that the records are made of.

use vstd::prelude::*;
use crate::str_map::StrMap;
use crate::wide::U256;

verus! {

/// The name of an account.
pub type AccountId = String;

/// An amount of tokens.
pub type Balance = u128;

/// The name of a seed: the asset that farmers stake.
pub type SeedId = String;

/// The name of a farm: its seed, a `#`, and the farm's number under that seed.
pub type FarmId = String;

/// A time in seconds.
pub type TimestampSec = u32;

/// A time in nanoseconds.
pub type Timestamp = u64;

/// Reward per seed: the reward released so far for one unit of stake, times
/// `DENOM`.
pub type RPS = U256;

/// The name of a staked token inside its contract: the contract, a
/// delimiter, the token.
pub type ContractNFTTokenId = String;

/// The name of a non-fungible token.
pub type NFTTokenId = String;

/// The stake that non-fungible tokens stand for: by token, by series of
/// tokens, or by the contract of the tokens.
pub type NftBalance = StrMap<Balance>;

/// The factor that reward per seed is scaled by, ten to the power 24.
pub const DENOM: u128 = 1_000_000_000_000_000_000_000_000;

} // verus!
