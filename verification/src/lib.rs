//! A verified model of a plugin protocol for columnar data engines.
//!
//! The library covers the pieces a host engine and a foreign plugin need to
//! exchange columnar data and computation requests across a binary boundary:
//!
//! * a bridge that exports an owned array together with its schema as a pair
//!   of plain descriptor structs and imports such a pair back into an owned
//!   array (`bridge`, `array`, `schema`);
//! * a self-describing byte codec for the optional keyword-argument bag that
//!   rides along with a computation request (`kwargs`);
//! * a per-thread last-error slot with panic translation (`error`);
//! * the entry-point logic that a plugin exposes to the host: import the
//!   inputs, decode the kwargs, run the user's function behind a failure
//!   boundary, export the result or a sentinel (`entry`);
//! * a protocol version probe and gate (`version`);
//! * example compute functions written against the model (`exprs`).

pub mod array;
pub mod bridge;
pub mod entry;
pub mod error;
pub mod exprs;
pub mod kwargs;
pub mod schema;
pub mod version;
