//! DNS policy, packet handling and resolution.

pub mod lease;
pub mod message;
pub mod packet;
pub mod platform;
pub mod policy;
pub mod relay;
pub mod resolver;
pub mod runtime;
pub mod transport;
