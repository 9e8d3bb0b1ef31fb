//! A small HTTP server that runs scripts, together with an in-memory model of
//! UCI configuration trees, with their contracts proved by Verus.

pub mod error;
pub mod storage;
pub mod search;
pub mod server;
pub mod text;
pub mod utils;
pub mod webserver;
