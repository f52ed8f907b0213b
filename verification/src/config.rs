//! The chain configuration handed to the connector before it starts.

use vstd::prelude::*;

verus! {

/// How the connector walks the configured chain.
#[derive(Clone, Copy, Debug, PartialEq, Eq, Structural)]
pub enum ProxyMethod {
    /// Every configured hop must succeed, in order.
    StrictChain,
    /// Hops that fail are skipped; the chain is made of those that succeed.
    DynamicChain,
}

/// The wire protocol spoken to one upstream hop.
#[derive(Clone, Copy, Debug, PartialEq, Eq, Structural)]
pub enum ProxyProtocol {
    Socks5,
    Socks4,
    Http,
}

/// A username and password attached to a hop.
#[derive(Clone, Debug)]
pub struct Auth {
    pub username: String,
    pub password: String,
}

/// One hop of the chain.
#[derive(Clone, Debug)]
pub struct ProxyConfig {
    pub protocol: ProxyProtocol,
    pub address: String,
    pub port: u16,
    pub auth: Option<Auth>,
}

/// The traversal policy and the hops, in the order in which they are chained.
#[derive(Clone, Debug)]
pub struct Config {
    pub method: ProxyMethod,
    pub proxies: Vec<ProxyConfig>,
}

impl Config {
    /// A configuration names at least one hop.
    pub open spec fn wf(&self) -> bool {
        self.proxies@.len() > 0
    }

    /// Whether the configuration names at least one hop.
    pub fn is_valid(&self) -> (ok: bool)
        ensures
            ok == self.wf(),
    {
        self.proxies.len() > 0
    }
}

} // verus!
