//! Verified core of the AshSwap aggregator contracts: the routing checks of
//! `aggregate`, the fee ledger of the fee contract, the EGLD wrapper mock and
//! the pool views, all written over plain values.

pub mod biguint;
pub mod errors;
pub mod structs;
pub mod ledger;
pub mod token_send;
pub mod fee;
pub mod aggregator;
pub mod wrapper_mock;
pub mod wrapper_view;
