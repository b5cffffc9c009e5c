//! The local endpoint other programs on this machine use the network through.

pub mod access;
pub mod agree;
pub mod answer;
pub mod anthropic;
pub mod held;
pub mod inbound;
pub mod items;
pub mod live;
pub mod openai;
pub mod responses;
pub mod serve;
pub mod thinking;
pub mod tidy;
pub mod translate;
