//! Core of a gateway that bridges a poll-only backend to push-style client
//! streams: the registry of clients and pollers, the per-backend poller
//! and the per-client connection handler, each as a verified state machine
//! that the surrounding tasks drive.

pub mod bytes;
pub mod config;
pub mod error;
pub mod frames;
pub mod handler;
pub mod handshake;
pub mod ident;
pub mod keys;
pub mod message;
pub mod poller;
pub mod registry;
pub mod reorder;
pub mod wire;
