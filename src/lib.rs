//! Supervision of an external media-download command-line tool: choosing which
//! copy of it to run, keeping it current against a release feed, and turning
//! its output into an ordered stream of progress events with cancellation.
pub mod text;
pub mod version;
pub mod platform;
pub mod json;
pub mod release;
pub mod progress;
pub mod session;
pub mod resolver;
pub mod commands;
pub mod config;
pub mod formats;
