//! A staking ledger that pays several reward assets to stakers in proportion
//! to their bonding power, with rewards released along a vesting curve.

pub mod apr;
pub mod asset;
pub mod bank;
pub mod book;
pub mod book_laws;
pub mod combine;
pub mod curve;
pub mod error;
pub mod gauge;
pub mod ledger;
pub mod ledger_laws;
pub mod ledger_model;
pub mod lookup;
pub mod math;
pub mod pool;
pub mod scalable_curve;
pub mod stake;
pub mod suite;
pub mod suite_model;
pub mod text;
