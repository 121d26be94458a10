//! A conditional fund-custody engine: a ledger of escrow records keyed by
//! (owner, recipient), each holding value in several denominations under one
//! release condition, with the operations that deposit into the ledger and
//! release from it.
//!
//! The engine computes and nothing else. The host hands it the caller, the
//! funds, the time of the block and what its resolver made of a recipient;
//! the engine changes the ledger and hands back what the host is to report
//! and which transfers it is to make.
//!
//! - [`coin`]: value in several denominations, and the merge of a deposit.
//! - [`condition`]: release conditions, and when one locks.
//! - [`recipient`], [`escrow`]: the recipient of an escrow, and the escrow.
//! - [`ledger`]: the records by key, and the scan by recipient.
//! - [`contract`]: holding funds, the two releases, the queries.
//! - [`laws`]: what holds over more than one call.
//! - [`migration`]: whether a contract that stands may be replaced.
//! - [`text`]: the order of addresses.
//! - [`modules`], [`token`]: the modules of a component and the rules on
//!   them; what a token ledger records of its token.
//! - [`error`]: the ways in which a call fails.

pub mod coin;
pub mod condition;
pub mod contract;
pub mod error;
pub mod escrow;
pub mod laws;
pub mod ledger;
pub mod migration;
pub mod modules;
pub mod recipient;
pub mod text;
pub mod token;
