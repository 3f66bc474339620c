//! A per-owner registry of uploaded-file descriptors with tag management.
//!
//! Every operation is a single atomic transition on an explicit, owned
//! registry value. The caller's identity and the clock value are explicit
//! arguments, and every rejected call is reported as an [`error::Error`]
//! with the registry left untouched.
//!
//! [`registry`] holds the registry, [`files`] the operations on one
//! owner's files, [`record`] a single descriptor, [`model`] what the
//! operations mean as mathematics, and [`laws`] what holds of them taken
//! together. [`command`] and [`deployment`] serve a driver that runs one
//! named command at a time against a deployed registry.

pub mod bytes;
pub mod command;
pub mod deployment;
pub mod error;
pub mod files;
pub mod laws;
pub mod model;
pub mod record;
pub mod registry;
