//! Verified core of a backrunning arbitrage bot for constant-product exchanges.

pub mod abi;
pub mod address;
pub mod amm;
pub mod bundle;
pub mod calldata;
pub mod clock;
pub mod config;
pub mod curve;
pub mod discovery;
pub mod market;
pub mod nonce;
pub mod opportunity;
pub mod owner;
pub mod pool;
pub mod registry;
pub mod resolve;
pub mod search;
pub mod simulation;
pub mod table;
pub mod text;
pub mod trades;
pub mod u256;
