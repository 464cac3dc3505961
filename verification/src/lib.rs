//! The provider subsystem of a desktop widget shell.
//!
//! Widget windows show live system information. Each kind of information
//! comes from a provider, a background computation that is started from a
//! configuration. Windows that ask for the same configuration share one
//! provider instance; the instance lives as long as a window subscribes to
//! it, and each subscriber is sent the fields it asked for.
//!
//! - [`config`]: the provider variants, their parameters and their checks.
//! - [`record`], [`schema`], [`filter`]: what a provider produces, which
//!   fields it has, and the part of it that a subscriber is sent.
//! - [`model`], [`registry`], [`manager`]: the instances and their
//!   subscribers, as mathematics and as code, and the operations that
//!   windows call.
//! - [`laws`]: what holds of the registry over whole runs.
//! - [`open_args`]: what a window is opened with, and the window labels.
//! - [`table`]: the string-keyed table that the others are built on.
//!
//! The library decides and computes; it starts no task and sends nothing.
//! The shell around it runs the background computations, hands their samples
//! in, and carries out what the library tells it to start, stop and deliver.

pub mod config;
pub mod filter;
pub mod laws;
pub mod manager;
pub mod model;
pub mod open_args;
pub mod record;
pub mod registry;
pub mod schema;
pub mod table;
