//! What can go wrong, each error with the words it is reported in.

use vstd::prelude::*;
use vstd::string::*;

verus! {

/// Why an action was refused. A refused action changes nothing.
#[derive(Clone, Copy, Debug, PartialEq, Eq, Structural)]
pub enum FarmingError {
    /// The account has no farmer's record.
    AccountNotRegistered,
    /// The account's deposit does not pay for the storage of its record.
    InsufficientStorage,
    /// The account has a farmer's record already.
    AccountAlreadyRegistered,
    /// The farmer has no balance of the reward token.
    TokenNotRegistered,
    /// The farmer's balance of the reward token is less than the amount.
    NotEnoughTokens,
    /// No such seed.
    SeedNotExist,
    /// The farmer's stake of the seed is less than the amount.
    NotEnoughSeed,
    /// The text is no seed's name.
    InvalidSeedId,
    /// The deposit is less than the seed takes.
    BelowMinSeedDeposit,
    /// No such farm.
    FarmNotExist,
    /// The text is no farm's name.
    InvalidFarmId,
    /// The farm's terms or state do not allow the action.
    InvalidFarmStatus,
    /// The token is not the token that the farm pays in.
    InvalidFarmReward,
    /// The seed takes no deposit of this kind.
    InvalidSeedType,
    /// The token is not staked, or stands for no stake.
    NftNotFound,
    /// The terms of a farm are no terms: a session has no length.
    InvalidFarmTerms,
    /// An amount or a count would pass the greatest number of its kind.
    Overflow,
}

impl FarmingError {
    /// The words that an error is reported in.
    pub open spec fn spec_message(self) -> Seq<char> {
        match self {
            FarmingError::AccountNotRegistered => "E10: account not registered"@,
            FarmingError::InsufficientStorage => "E11: insufficient $NEAR storage deposit"@,
            FarmingError::AccountAlreadyRegistered => "E14: account already registered"@,
            FarmingError::TokenNotRegistered => "E21: token not registered"@,
            FarmingError::NotEnoughTokens => "E22: not enough tokens in deposit"@,
            FarmingError::SeedNotExist => "E31: seed not exist"@,
            FarmingError::NotEnoughSeed => "E32: not enough amount of seed"@,
            FarmingError::InvalidSeedId => "E33: invalid seed id"@,
            FarmingError::BelowMinSeedDeposit => "E34: below min_deposit of this seed"@,
            FarmingError::FarmNotExist => "E41: farm not exist"@,
            FarmingError::InvalidFarmId => "E42: invalid farm id"@,
            FarmingError::InvalidFarmStatus => "E43: invalid farm status"@,
            FarmingError::InvalidFarmReward => "E44: invalid reward token for this farm"@,
            FarmingError::InvalidSeedType => "E45: invalid seed type"@,
            FarmingError::NftNotFound => "E46: token not staked"@,
            FarmingError::InvalidFarmTerms => "E47: invalid farm terms"@,
            FarmingError::Overflow => "E500: Internal ERROR!"@,
        }
    }

    /// The words that an error is reported in.
    pub fn message(&self) -> (r: String)
        ensures
            r@ == self.spec_message(),
    {
        match self {
            FarmingError::AccountNotRegistered => String::from_str("E10: account not registered"),
            FarmingError::InsufficientStorage => String::from_str(
                "E11: insufficient $NEAR storage deposit",
            ),
            FarmingError::AccountAlreadyRegistered => String::from_str(
                "E14: account already registered",
            ),
            FarmingError::TokenNotRegistered => String::from_str("E21: token not registered"),
            FarmingError::NotEnoughTokens => String::from_str("E22: not enough tokens in deposit"),
            FarmingError::SeedNotExist => String::from_str("E31: seed not exist"),
            FarmingError::NotEnoughSeed => String::from_str("E32: not enough amount of seed"),
            FarmingError::InvalidSeedId => String::from_str("E33: invalid seed id"),
            FarmingError::BelowMinSeedDeposit => String::from_str(
                "E34: below min_deposit of this seed",
            ),
            FarmingError::FarmNotExist => String::from_str("E41: farm not exist"),
            FarmingError::InvalidFarmId => String::from_str("E42: invalid farm id"),
            FarmingError::InvalidFarmStatus => String::from_str("E43: invalid farm status"),
            FarmingError::InvalidFarmReward => String::from_str(
                "E44: invalid reward token for this farm",
            ),
            FarmingError::InvalidSeedType => String::from_str("E45: invalid seed type"),
            FarmingError::NftNotFound => String::from_str("E46: token not staked"),
            FarmingError::InvalidFarmTerms => String::from_str("E47: invalid farm terms"),
            FarmingError::Overflow => String::from_str("E500: Internal ERROR!"),
        }
    }
}

} // verus!
