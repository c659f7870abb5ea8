//! Core of a development-time log collection service.
//!
//! Clients push log entries which are kept in a bounded in-memory ring
//! buffer and fanned out to live subscribers; a device-keyed request
//! lifecycle lets the server ask a specific device for its logs through a
//! three-step request / poll / upload exchange with ownership and
//! single-fulfillment guarantees.

pub mod buffer;
pub mod clock;
pub mod ids;
pub mod models;
pub mod protocol;
pub mod render;
pub mod storage;
pub mod request_manager;
pub mod tags;
pub mod text;
