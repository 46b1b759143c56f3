//! The rules of a rotating savings group: members join with collateral,
//! contribute each round, bid for the pot, and the highest bid wins the pot
//! less its bid, which is shared among the others.

pub mod contract;
pub mod group;
pub mod laws;
pub mod ledger;
pub mod limits;
pub mod members;
pub mod model;
pub mod settle;
pub mod types;

pub use contract::LiholiswanoContract;
pub use types::{Address, Error, GroupConfig, GroupState, Member, Transfer};
