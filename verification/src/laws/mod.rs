//! What the operations promise, told of what goes in and what comes out.

pub mod chain;
pub mod changes;
pub mod files;
pub mod jobs;
pub mod money;
pub mod offers;
pub mod peers;
pub mod records;
pub mod replies;
pub mod requests;
pub mod routing;
pub mod rows;
pub mod service;
pub mod streams;
pub mod texts;
pub mod told;
pub mod tools;
pub mod worker;
