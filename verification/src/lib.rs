//! Protocol core of a relay that carries a legacy datagram protocol over a
//! length-prefixed stream: message framing, redirect interception and the
//! bookkeeping of bridges, relay listeners and the relay registry.
//!
//! Nothing here touches a socket. Callers read and write the transports and
//! hand the bytes, addresses and error kinds to these types.

pub mod addr;
pub mod bridge;
pub mod config;
pub mod registry;
pub mod shim;
pub mod tcpudp;
pub mod wire;
