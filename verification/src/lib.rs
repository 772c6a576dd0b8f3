//! A verified core for a command-line client of a UTXO-based blockchain.
//!
//! The library covers the wallet state reconstruction engine, the staging
//! transaction builder, the blockchain local mirror iterator, the address
//! lookup engines and the input selection algorithms. File, network and
//! terminal handling live outside the library and exchange plain values
//! with it.

pub mod address;
pub mod bytes;
pub mod chain;
pub mod cli;
pub mod coin;
pub mod config;
pub mod directory_name;
pub mod fee;
pub mod forensic;
pub mod lookup;
pub mod ptr;
pub mod randomindex;
pub mod render;
pub mod selection;
pub mod sequentialindex;
pub mod staging;
pub mod state;
pub mod time_utils;
pub mod transaction;
pub mod txbuild;
pub mod txop;
pub mod utxo;
pub mod utxos;
pub mod wallet_log;
