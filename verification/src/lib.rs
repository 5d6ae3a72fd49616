//! Context-tracking core of a transparent observer that sits between an
//! editor and a coding agent.
//!
//! The observer reads the line-delimited JSON-RPC traffic in both directions,
//! learns which files the agent touches, keeps a decaying model of the agent's
//! working set and describes every change of that model as a delta.
//!
//! - [`types`] holds the data that is kept and sent, and the access zone;
//!   [`glob`] matches the patterns of a zone.
//! - [`table`] is the file table of one session, with the laws that hold of
//!   it; [`tracker`] owns one table per session.
//! - [`extract`] turns a line of the traffic into effects on the tracker;
//!   [`paths`] finds the paths in text; [`json`] and [`acp`] say what the
//!   JSON and the protocol crates read.
//! - [`session_registry`] keeps the declared sessions, and [`orchestrator`]
//!   merges the sessions of an orchestrator into one view.
//! - [`proxy`], [`driver`], [`tcp`], [`connection`] and [`rpc`] decide what the
//!   proxy, the tick driver and the broadcast server do; the sockets, the
//!   timers and the tasks themselves live outside this library.
//! - [`parser`] and [`flatten`] hold the nodes of the symbol tree of a
//!   workspace and the calls between its symbols.
//! - [`text`] and [`keyed`] are the tools underneath: text as sequences of
//!   characters, and small maps as lists without a repeated key.
//!
//! Heat and ratios are fixed-point numbers in millionths; timestamps are
//! milliseconds since the Unix epoch.

pub mod acp;
pub mod clock;
pub mod connection;
pub mod driver;
pub mod extract;
pub mod flatten;
pub mod glob;
pub mod json;
pub mod keyed;
pub mod orchestrator;
pub mod parser;
pub mod paths;
pub mod proxy;
pub mod rpc;
pub mod session_registry;
pub mod table;
pub mod tcp;
pub mod text;
pub mod tracker;
pub mod types;
