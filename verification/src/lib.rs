//! Core logic of a desktop iMessage client: the local message store, the
//! account state machine, relay configuration and the event queue.

pub mod integration;
pub mod text;
pub mod rank;
pub mod store_model;
pub mod storage;
pub mod clock;
pub mod events;
pub mod os_config;
pub mod session;
pub mod app;
pub mod ffi;
pub mod laws;
