//! Verified core of a virtual-network orchestrator.
//!
//! A topology of virtual switches, network namespaces and point-to-point
//! cables is described as plain data, validated, persisted to a text
//! document, and mapped to the command lines of the external programs that
//! realise each device.  Everything here is pure computation on strings and
//! vectors; reading files, spawning processes and parsing command-line
//! arguments live outside this crate's verified boundary.

pub mod addr;
pub mod cable;
pub mod codec;
pub mod config;
pub mod connection;
pub mod errors;
pub mod namespace;
pub mod plan;
pub mod slirp;
pub mod strutil;
pub mod switch;
pub mod topology;
pub mod vxvde;
