//! Rule-driven autolinking for a live audio graph.
//!
//! The engine keeps the endpoints that the rules name, with their channel
//! ports, decides when a new port completes a rule and a connection should be
//! requested, remembers the connections it asked for itself, and decides which
//! foreign connections the deletion rules tear down. Talking to the graph
//! service is left to the caller: it feeds events in and performs the actions
//! that come out.

pub mod config;
pub mod store;
pub mod engine;
pub mod laws;
