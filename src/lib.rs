//! Bridge between one line-protocol measurement device and its monitoring
//! clients: the line codec, the swappable device transport, the fan-out hub
//! and the command router, each with its contract.

pub mod text;
pub mod codec;
pub mod transport;
pub mod hub;
pub mod command;
pub mod ingress;
