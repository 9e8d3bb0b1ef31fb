//! Configuration storage.

pub mod uci;
