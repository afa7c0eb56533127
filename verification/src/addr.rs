//! Network addresses as plain values.

use vstd::prelude::*;

verus! {

/// An IP address by its bits, most significant byte first.
#[derive(Clone, Copy, Debug, PartialEq, Eq, Structural, Hash)]
pub enum Host {
    V4(u32),
    V6(u128),
}

/// A socket address: a host and a port.
#[derive(Clone, Copy, Debug, PartialEq, Eq, Structural, Hash)]
pub struct Endpoint {
    pub host: Host,
    pub port: u16,
}

impl Endpoint {
    /// The address of `port` on `host`.
    pub fn new(host: Host, port: u16) -> (e: Endpoint)
        ensures
            e == (Endpoint { host, port }),
    {
        Endpoint { host, port }
    }

    /// The same host with another port.
    pub fn with_port(&self, port: u16) -> (e: Endpoint)
        ensures
            e == (Endpoint { host: self.host, port }),
    {
        Endpoint { host: self.host, port }
    }
}

} // verus!
