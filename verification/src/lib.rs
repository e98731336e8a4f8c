pub mod contract;
mod cosmos;
mod error;
pub mod laws;
pub mod msg;
pub mod state;

pub use crate::error::ContractError;
