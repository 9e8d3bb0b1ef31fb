//! The protocol of the web server: requests, replies and their HTTP framing.

pub mod client;
pub mod http;
pub mod response;
