//! Verified core of a geographic feature lookup service.
//!
//! The crate holds the decisions behind four operations over a read-only set
//! of named point features: exact lookup, bounded-region listing, route
//! summarisation and a location-keyed chat. Transport, storage formats and
//! process setup are left to the caller, which hands plain values in and takes
//! plain values back.

pub mod geo;
pub mod feature;
pub mod route;
pub mod chat;
pub mod client;
pub mod text;
