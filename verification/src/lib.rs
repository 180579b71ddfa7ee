//! Readiness selection for WASI hosts.
//!
//! A selector keeps the descriptors that are to be watched, builds the list of
//! subscriptions that one `poll_oneoff` call hands to the host, and sorts the
//! events that the host reports back. Two hosts are served: WAMR ([`wamr`]), where
//! a poll can be interrupted from another thread, and WasmEdge ([`wasmedge`]).
//!
//! The library decides and computes; making the host calls, measuring time and
//! sharing a selector between threads is left to the program around it.
pub mod cells;
pub mod dispatch;
pub mod error;
pub mod event;
pub mod ident;
pub mod readiness;
pub mod registrations;
pub mod tcp;
pub mod timeout;
pub mod token;
pub mod wamr;
pub mod wamr_laws;
pub mod wasi;
pub mod wasmedge;
pub mod wasmedge_laws;
