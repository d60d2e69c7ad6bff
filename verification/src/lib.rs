//! Core of a device-gateway server: the single authentication credential,
//! the registry of controllable devices, and the durable session store,
//! together with the state transitions that the request handlers perform
//! while holding the server-wide guard.

pub mod credential;
pub mod errors;
pub mod registry;
pub mod sessions;
pub mod state;
