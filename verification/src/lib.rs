//! Decision logic of an nftables egress gateway.
//!
//! The crate reads whitelist and resolver configuration, picks the upstream
//! DNS servers, writes the nftables scripts and decides what the daemon does
//! next. It performs no I/O: callers hand in what they read and carry out
//! what comes back.

pub mod addr;
pub mod address_laws;
pub mod cidr;
pub mod cli;
pub mod cli_laws;
pub mod config;
pub mod daemon_laws;
pub mod dns;
pub mod dns_laws;
pub mod file_laws;
pub mod help_laws;
pub mod ipv4;
pub mod ipv6;
pub mod line_laws;
pub mod log;
pub mod nft;
pub mod nft_laws;
pub mod numbers;
pub mod order;
pub mod parser;
pub mod place;
pub mod resolv;
pub mod resolv_laws;
pub mod router;
pub mod router_laws;
pub mod ruleset_laws;
pub mod signals;
pub mod startup;
pub mod text;
pub mod v6_laws;
pub mod view_laws;
pub mod watcher;
pub mod whitelist_laws;
