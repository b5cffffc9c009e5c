//! The logic of a desktop client for a network of model workers.

pub mod attach;
pub mod codec;
pub mod commands;
pub mod connected_tools;
pub mod diag;
pub mod erase;
pub mod error;
pub mod eth_tx;
pub mod gateway;
pub mod identity_store;
pub mod jobs;
pub mod json;
pub mod laws;
pub mod mock;
pub mod net;
pub mod order;
pub mod p2p;
pub mod pipeline;
pub mod pot;
pub mod protocol;
pub mod results;
pub mod routing;
pub mod state;
pub mod store;
pub mod text;
pub mod update;
