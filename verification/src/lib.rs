//! Port knocking: a daemon listens on a set of UDP ports and, when a client
//! knocks on them in the configured order, opens the controlled TCP ports of the
//! firewall for that client's address for a while.
//!
//! This crate holds the decisions of that daemon: which settings are in force, how
//! a knock moves a client along the sequence, when a door is opened or closed, and
//! what the firewall is asked to do. The program around it performs the I/O.
pub mod pattern;
pub mod data;
pub mod knock;
pub mod knockers;
pub mod door;
pub mod firewall;
pub mod workflow;
pub mod args;
pub mod config;
