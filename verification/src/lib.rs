//! Status queries against Minecraft servers of both editions: the packet
//! framing and exchange of the TCP edition, the payload of the UDP edition,
//! and the address resolution that both share. The crate performs no I/O;
//! its callers carry bytes to and from the network and report what happened.

pub mod address;
pub mod bedrock;
pub mod decimal;
pub mod error;
pub mod fields;
pub mod java;
pub mod packet;
pub mod ping;
pub mod query;
pub mod resolve;
pub mod status;
pub mod varint;
pub mod wire;
