//! A collectible-token ledger: series of tokens with supply caps, royalty
//! payouts, recipe-based fusing, and transfers that notify their recipient and
//! can be rolled back.

pub mod ids;
pub mod strmap;
pub mod types;
pub mod model;
pub mod fuse;
pub mod royalty;
pub mod storage;
pub mod ledger;
pub mod laws;
