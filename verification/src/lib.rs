//! A DNS resolver: a codec for DNS messages in datagrams of 512 bytes, and the decisions of
//! iterative resolution from the root name servers down. Sending and receiving is left to
//! the caller.

pub mod protocol;
pub mod resolver;
pub mod server;
