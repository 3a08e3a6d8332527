//! Control logic for the tutuicmptunnel kernel module and its remote
//! control tools: the generic-netlink wire format, the protocol structures
//! exchanged with the module, command-line and script parsing, and the
//! encrypted remote-control packet format.

pub mod cli;
pub mod client;
pub mod commands;
pub mod config;
pub mod error;
pub mod helper;
pub mod netlink;
pub mod report;
pub mod script;
pub mod server;
pub mod text;
pub mod tunnel;
pub mod uid_map;
pub mod wire;
