//! The client's pot: funds locked before work is done, settled after it.

pub mod chain;
pub mod fund;
pub mod ledger;
pub mod payment;
pub mod scan;
pub mod wallet;
