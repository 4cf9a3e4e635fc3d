//! Broker layer between a desktop UI and a long-running worker subprocess.
//!
//! The worker speaks a line-oriented JSON protocol over stdin/stdout. This
//! crate supervises the worker process, reassembles and sanitizes its output
//! stream, classifies each JSON unit (command response, session event, or
//! unclassified), correlates responses with pending requests, and compacts
//! the event stream before it reaches the UI.

pub mod broker;
pub mod coalesce;
pub mod compact;
pub mod frames;
pub mod handler;
pub mod json;
pub mod logger;
pub mod media;
pub mod roundtrip;
pub mod router;
pub mod session_cache;
pub mod settings;
pub mod supervisor;
pub mod retry;
pub mod types;
pub mod utils;
