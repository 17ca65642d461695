//! Verified core of a file drop service: clients push files over a duplex
//! message stream, receive a short identifier, and fetch the files back by it.

pub mod token;
pub mod protocol;
pub mod session;
pub mod retrieval;
pub mod workspace;
pub mod laws;
