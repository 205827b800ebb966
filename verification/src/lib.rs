//! A live change-stream relay, verified with Verus.
//!
//! One reader per view follows the engine's change feed and publishes the
//! inserts it finds on the view's bus; every client is served a snapshot of
//! the views it asked for, followed by what their buses carry from then on.
//!
//! * [`framing`] cuts the bytes of a feed into lines.
//! * [`json`] and [`decoder`] turn a line into a change record and select
//!   what it publishes.
//! * [`bus`] is the bounded, lossy multicast queue of one view; [`bus_laws`]
//!   states what holds of it over any history of calls.
//! * [`registry`] holds the views of the process, each with its bus.
//! * [`reader`] is the state machine of a view's reader.
//! * [`snapshot`] describes the requests to the engine and reads its answer
//!   to a snapshot query.
//! * [`composer`] builds the answer to a client; [`composer_laws`] states
//!   what holds of every body it builds.
//! * [`webhook`] holds what the relay says to a hub and builds of a feed
//!   that a hub pushes.
//! * [`error`] and [`text`] hold the shared error type and text helpers.
//!
//! The library decides and never waits: whoever runs it performs the
//! requests, reads and sleeps that it asks for, and reports what happened.

pub mod bus;
pub mod bus_laws;
pub mod composer;
pub mod composer_laws;
pub mod decoder;
pub mod error;
pub mod framing;
pub mod json;
pub mod reader;
pub mod registry;
pub mod snapshot;
pub mod text;
pub mod webhook;
