//! Verified core of an MCP server for the Nordic Power Profiler Kit II (PPK2): the
//! rules of connecting, powering and measuring, the samples of a session, and the texts
//! in which results are reported.
//!
//! `server` takes tool calls and says what is to be done with the device, the clock and
//! the file system; `controller` is the state machine of one device; `laws` states what
//! holds over several calls.

pub mod arith;
pub mod capacity;
pub mod controller;
pub mod csv;
pub mod error;
pub mod figures;
pub mod ieee;
pub mod laws;
pub mod mode;
pub mod ports;
pub mod promises;
pub mod report;
pub mod rounding;
pub mod samples;
pub mod server;
pub mod text;
pub mod trigger;
pub mod voltage;
