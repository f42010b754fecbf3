//! Devendra: a small configuration-management system. This crate holds the
//! decisions that the agent, the server and the bridge take, each proved
//! against its contract; the programs around it perform the I/O.

pub mod text;
pub mod interpolate;
pub mod name_map;
pub mod common;
pub mod agent;
pub mod keys;
pub mod server;
pub mod bridge;
