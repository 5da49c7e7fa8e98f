//! Open Sound Control messages: their wire format, a client's correlation of
//! replies with requests, and a server's dispatch of requests to handlers.

pub mod errors;
pub mod message;
pub mod wire;
pub mod encode;
pub mod decode;
pub mod client;
pub mod server;
pub mod laws;
pub mod convert;

pub use crate::message::{Arg, OscMessage};
