//! Seed-recovery engine for a farming-simulation game's traveling merchant.
//!
//! Given ten observed stock entries (item id, price, quantity) and the
//! platform that produced them, the library replays the deterministic
//! stock-generation procedure for candidate seeds and reports the seed whose
//! simulated stock reproduces the observation exactly.

use vstd::prelude::*;

pub mod agent;
pub mod catalog;
pub mod coordinator;
pub mod error;
pub mod jkiss;
pub mod laws;
pub mod merchant;
pub mod prng;
pub mod mscorlib;
pub mod unit;

verus! {

} // verus!
