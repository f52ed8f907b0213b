//! Core of a tool that forces the traffic of an unmodified program through a
//! chain of upstream proxies: the placeholder-address resolver and its
//! mapping cache, the command lines that manage the network namespace and the
//! packet-filter rule, and the decisions of the proxy-chain connector.
//!
//! Everything here is pure: sockets, processes and files belong to the
//! caller, which hands in bytes and outcomes and gets back bytes, command
//! lines and decisions.

pub mod config;
pub mod connector;
pub mod dns_server;
pub mod handshake;
pub mod iptables;
pub mod mapping;
pub mod ns;
pub mod text;
pub mod wire;
