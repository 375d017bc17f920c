//! Reward farming: a pool of reward tokens is released session by session and
//! shared among stakers in proportion to their stake, in integer arithmetic.
//!
//! - `wide`: the 256-bit numbers that the accumulator is kept in.
//! - `str_map`, `sums`: records by name, and sums over sequences.
//! - `types`, `utils`, `errors`: names of plain types, time units and the
//!   names of farms, and what can be refused.
//! - `farm`: one farm, its life and the release of its reward.
//! - `farm_seed`, `farmer`: the record of a seed and the record of a farmer.
//! - `model`, `books`, `laws`: all records to the eye, what holds of them at
//!   all times, and what follows from that over every history.
//! - `internals`: settling a farmer with a farm.
//! - `contract`, `creation`, `claims`, `stake`, `rewards`, `nft`, `clearing`,
//!   `view`: the books, and what can be done to them and seen of them.

pub mod books;
pub mod claims;
pub mod clearing;
pub mod contract;
pub mod creation;
pub mod errors;
pub mod farm;
pub mod farm_seed;
pub mod farmer;
pub mod internals;
pub mod laws;
pub mod model;
pub mod nft;
pub mod rewards;
pub mod stake;
pub mod str_map;
pub mod sums;
pub mod types;
pub mod utils;
pub mod view;
pub mod wide;

pub use crate::contract::{Contract, ContractData};
pub use crate::farm::HRFarmTerms;
pub use crate::view::FarmInfo;
