//! A small verified ledger engine for projects, reviews and their
//! reward/collateral balances.
//!
//! A project owner stakes a reward by reserving it on a balance ledger; a
//! review author locks a collateral to submit a review; accepting a review
//! pays the author a proportional share of the project's reward and releases
//! collateral. The engine keeps the ledger, the project registry, the review
//! registry and the user registry consistent across these transitions: every
//! operation either applies all of its mutations or none of them.

pub mod engine;
pub mod errors;
pub mod minting;
pub mod ledger;
pub mod template;
pub mod projects;
pub mod users;
