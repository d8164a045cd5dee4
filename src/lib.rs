//! A cache of vote and stake accounts that keeps, for every vote identity,
//! the total lamports of the stake accounts delegating to it.
pub mod account;
pub mod cache;
pub mod laws;
pub mod sums;
pub mod table;

pub use account::{Account, AccountView};
pub use cache::{Stakes, StakesView};
pub use table::{StakeTable, VoteTable};
