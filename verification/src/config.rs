//! The relay's configuration.

use vstd::prelude::*;
use vstd::utf8::encode_utf8;
use crate::addr::{Endpoint, Host};

verus! {

/// What the operator configures. Loaded once; every component that needs
/// it holds its own copy.
#[derive(Debug)]
pub struct AppConfig {
    /// The address under which clients reach this relay.
    pub external_ip: String,
    /// The port under which clients reach the first listener.
    pub external_auth_port: u16,
    /// The address of the backend.
    pub raknet_ip: String,
    /// The port of the backend's first server.
    pub raknet_auth_port: u16,
    /// The local address on which listeners are bound.
    pub bind_to: String,
}

impl AppConfig {
    /// The external address as it is written into packets: its UTF-8 bytes.
    pub open spec fn external_ip_bytes(&self) -> Seq<u8> {
        encode_utf8(self.external_ip@)
    }
}

impl AppConfig {
    /// Where a listener that was asked for at `listen_addr` is bound: on
    /// the configured local address, at the port asked for.
    pub fn bind_target(&self, listen_addr: &Endpoint) -> (target: (String, u16))
        ensures
            target.0@ == self.bind_to@,
            target.1 == listen_addr.port,
    {
        (self.bind_to.clone(), listen_addr.port)
    }

    /// Where the first listener is asked for: any address, the external
    /// port.
    pub fn auth_listen_addr(&self) -> (addr: Endpoint)
        ensures
            addr == (Endpoint { host: Host::V4(0), port: self.external_auth_port }),
    {
        Endpoint { host: Host::V4(0), port: self.external_auth_port }
    }
}

impl Clone for AppConfig {
    fn clone(&self) -> (copy: Self)
        ensures
            copy == *self,
    {
        AppConfig {
            external_ip: self.external_ip.clone(),
            external_auth_port: self.external_auth_port,
            raknet_ip: self.raknet_ip.clone(),
            raknet_auth_port: self.raknet_auth_port,
            bind_to: self.bind_to.clone(),
        }
    }
}

} // verus!
