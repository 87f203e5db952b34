//! The registry: which client is registered with which backend, what waits
//! in each client's inbound queue, and which backends have a poller.

pub mod laws;
pub mod model;
pub mod state;
mod tables;

pub use model::{
    Deregistration, Inbound, InboundModel, PollerDirective, RegistrationHandle, RegistrationModel,
    RegistryModel,
};
pub use state::GatewayState;
