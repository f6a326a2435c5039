//! Protocol and policy core of a client for iWAN-compatible networks.

pub mod bytes;
pub mod cli;
pub mod client;
pub mod config;
pub mod crypto;
pub mod dns;
pub mod error;
pub mod fragment;
pub mod hex;
pub mod net;
pub mod protocol;
pub mod session;
pub mod text;

pub use client::{Client, PacketDevice, SessionEnd, SessionInfo};
pub use config::{ClientConfig, ReconnectPolicy, SegmentRoutingConfig, SrEncryptionAlgorithm};
pub use error::Error;
pub use protocol::{EncryptionMethod, PacketHeader, PacketType, Tlv, TlvType};
pub use session::ConnectedSession;
