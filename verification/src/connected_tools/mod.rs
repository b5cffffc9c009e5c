//! Pointing coding tools at the local endpoint by editing their own settings.

pub mod jsonc;
pub mod lines;
pub mod shell;
pub mod tools;
pub mod undo;
