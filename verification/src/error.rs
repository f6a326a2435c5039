//! Errors shared by every part of the library.

use crate::hex::encode_hex;
use crate::hex::hex_text;
use crate::net::{socket_text, SocketAddr};
use crate::net::socket_chars;
use crate::text::{join2, join3, push_decimal, push_text};
use crate::text::decimal;
use vstd::prelude::*;

verus! {

/// Everything that can go wrong in the protocol core and the command-line logic.
#[derive(Debug)]
#[allow(inconsistent_fields)]
pub enum Error {
    Io(String),
    InvalidConfig(String),
    PacketTooShort { minimum: usize, actual: usize },
    UnknownPacketType(u8),
    UnknownEncryptionMethod(u8),
    InvalidSignature,
    InvalidTlv { offset: usize, reason: String },
    TlvTooLarge { kind: &'static str, length: usize },
    MissingTlv(&'static str),
    InvalidTlvValue(&'static str),
    Crypto(&'static str),
    AuthenticationRejected { code: u16, message: String },
    AuthenticationVerifyMismatch,
    Timeout(&'static str),
    InvalidPingResponse,
    SessionMismatch { peer: SocketAddr },
    SessionClosed,
    InvalidFragment(&'static str),
    FragmentTooLarge,
    InvalidSegmentRouting(&'static str),
    SegmentRoutingPeerDown,
    FragmentEncryptionUnsupported,
    Tun(String),
    CommandFailed { program: String, message: String },
    Managed(String),
    LineNotFound(String),
    LineUnavailable { line: String, reason: String },
    CredentialStore(String),
    Http(String),
    Oidc(String),
    Controller(String),
    ControllerUnauthorized,
    ControllerRejected { status: u16, code: String, message: String },
    PostureVersionMismatch,
    PostureConfigUnavailable,
    PostureDenied,
    DeviceBindingBlocked { code: i32, status: &'static str },
}

/// Whether an error is an invalid configuration with a given message.
pub open spec fn is_invalid_config(error: Error, message: Seq<char>) -> bool {
    error matches Error::InvalidConfig(text) && text@ == message
}

/// An invalid configuration with a fixed message.
pub fn invalid_config(message: &str) -> (error: Error)
    ensures
        is_invalid_config(error, message@),
{
    Error::InvalidConfig(message.to_owned())
}

/// A signed number in decimal notation.
pub open spec fn signed_decimal(value: i32) -> Seq<char> {
    if value < 0 {
        seq!['-'] + decimal((-value) as nat)
    } else {
        decimal(value as nat)
    }
}

fn push_signed(out: &mut String, value: i32)
    ensures
        final(out)@ == old(out)@ + signed_decimal(value),
{
    let wide: i64 = value as i64;
    if wide < 0 {
        out.push('-');
        push_decimal(out, (-wide) as u64);
    } else {
        push_decimal(out, wide as u64);
    }
    assert(out@ =~= old(out)@ + signed_decimal(value));
}

fn push_hex(out: &mut String, byte: u8)
    ensures
        final(out)@ == old(out)@ + hex_text(seq![byte]),
{
    let mut bytes: Vec<u8> = Vec::new();
    bytes.push(byte);
    assert(bytes@ =~= seq![byte]);
    let shown = encode_hex(bytes.as_slice());
    push_text(out, &shown);
}

impl Error {
    /// What an error says of itself.
    pub open spec fn shown(&self) -> Seq<char> {
        match self {
            Error::Io(reason) => "I/O error: "@ + reason@,
            Error::InvalidConfig(reason) => "invalid configuration: "@ + reason@,
            Error::PacketTooShort {
                minimum,
                actual,
            } => "packet is too short: expected at least "@ + decimal(*minimum as nat)
                + " bytes, got "@ + decimal(*actual as nat),
            Error::UnknownPacketType(kind) => "unsupported packet type 0x"@ + hex_text(seq![*kind]),
            Error::UnknownEncryptionMethod(method) => "unsupported encryption method 0x"@
                + hex_text(seq![*method]),
            Error::InvalidSignature => "invalid control-packet signature"@,
            Error::InvalidTlv { offset, reason } => "invalid TLV at offset "@ + decimal(
                *offset as nat,
            ) + ": "@ + reason@,
            Error::TlvTooLarge { kind, length } => "TLV value for "@ + kind@ + " is too large ("@
                + decimal(*length as nat) + " bytes)"@,
            Error::MissingTlv(kind) => "required TLV "@ + kind@ + " is missing"@,
            Error::InvalidTlvValue(kind) => "invalid value in TLV "@ + kind@,
            Error::Crypto(reason) => "cryptographic operation failed: "@ + reason@,
            Error::AuthenticationRejected {
                code,
                message,
            } => "authentication was rejected (code "@ + decimal(*code as nat) + "): "@ + message@,
            Error::AuthenticationVerifyMismatch => "authentication verification nonce mismatch"@,
            Error::Timeout(what) => "operation timed out: "@ + what@,
            Error::InvalidPingResponse => "endpoint returned a malformed stateless ping response"@,
            Error::SessionMismatch { peer } => "session validation failed for packet from "@
                + socket_chars(*peer),
            Error::SessionClosed => "server closed the session"@,
            Error::InvalidFragment(reason) => "fragment is malformed: "@ + reason@,
            Error::FragmentTooLarge => "fragment group exceeded the configured maximum size"@,
            Error::InvalidSegmentRouting(reason) => "segment-routing packet is malformed: "@
                + reason@,
            Error::SegmentRoutingPeerDown => "segment-routing path is unavailable"@,
            Error::FragmentEncryptionUnsupported =>
                "fragmentation with encryption is unsupported by the iWAN data plane"@,
            Error::Tun(reason) => "TUN operation failed: "@ + reason@,
            Error::CommandFailed { program, message } => "external command failed: "@ + program@
                + ": "@ + message@,
            Error::Managed(reason) => "managed connection failed: "@ + reason@,
            Error::LineNotFound(line) => "line "@ + line@
                + " does not exist in the current controller configuration"@,
            Error::LineUnavailable { line, reason } => "line "@ + line@ + " is unavailable: "@
                + reason@,
            Error::CredentialStore(reason) => "credential store operation failed: "@ + reason@,
            Error::Http(reason) => "HTTP operation failed: "@ + reason@,
            Error::Oidc(reason) => "OIDC authentication failed: "@ + reason@,
            Error::Controller(reason) => "controller operation failed: "@ + reason@,
            Error::ControllerUnauthorized => "controller rejected the request as unauthorized"@,
            Error::ControllerRejected {
                status,
                code,
                message,
            } => "controller rejected the request (HTTP "@ + decimal(*status as nat) + ", code "@
                + code@ + "): "@ + message@,
            Error::PostureVersionMismatch =>
                "posture configuration version does not match the controller"@,
            Error::PostureConfigUnavailable =>
                "posture configuration is not loaded by the backend"@,
            Error::PostureDenied => "device posture gate denied network access"@,
            Error::DeviceBindingBlocked {
                code,
                status,
            } => "device binding gate blocked network access ("@ + status@ + ", code "@
                + signed_decimal(*code) + ")"@,
        }
    }

    /// The error in words.
    pub fn to_string(&self) -> (text: String)
        ensures
            text@ == self.shown(),
    {
        match self {
            Error::Io(reason) => join2("I/O error: ", reason),
            Error::InvalidConfig(reason) => join2("invalid configuration: ", reason),
            Error::PacketTooShort { minimum, actual } => {
                let mut text = "packet is too short: expected at least ".to_owned();
                push_decimal(&mut text, *minimum as u64);
                push_text(&mut text, " bytes, got ");
                push_decimal(&mut text, *actual as u64);
                text
            },
            Error::UnknownPacketType(kind) => {
                let mut text = "unsupported packet type 0x".to_owned();
                push_hex(&mut text, *kind);
                text
            },
            Error::UnknownEncryptionMethod(method) => {
                let mut text = "unsupported encryption method 0x".to_owned();
                push_hex(&mut text, *method);
                text
            },
            Error::InvalidSignature => "invalid control-packet signature".to_owned(),
            Error::InvalidTlv { offset, reason } => {
                let mut text = "invalid TLV at offset ".to_owned();
                push_decimal(&mut text, *offset as u64);
                push_text(&mut text, ": ");
                push_text(&mut text, reason);
                text
            },
            Error::TlvTooLarge { kind, length } => {
                let mut text = join3("TLV value for ", kind, " is too large (");
                push_decimal(&mut text, *length as u64);
                push_text(&mut text, " bytes)");
                text
            },
            Error::MissingTlv(kind) => join3("required TLV ", kind, " is missing"),
            Error::InvalidTlvValue(kind) => join2("invalid value in TLV ", kind),
            Error::Crypto(reason) => join2("cryptographic operation failed: ", reason),
            Error::AuthenticationRejected { code, message } => {
                let mut text = "authentication was rejected (code ".to_owned();
                push_decimal(&mut text, *code as u64);
                push_text(&mut text, "): ");
                push_text(&mut text, message);
                text
            },
            Error::AuthenticationVerifyMismatch =>
                "authentication verification nonce mismatch".to_owned(),
            Error::Timeout(what) => join2("operation timed out: ", what),
            Error::InvalidPingResponse =>
                "endpoint returned a malformed stateless ping response".to_owned(),
            Error::SessionMismatch { peer } => {
                let shown = socket_text(*peer);
                join2("session validation failed for packet from ", &shown)
            },
            Error::SessionClosed => "server closed the session".to_owned(),
            Error::InvalidFragment(reason) => join2("fragment is malformed: ", reason),
            Error::FragmentTooLarge =>
                "fragment group exceeded the configured maximum size".to_owned(),
            Error::InvalidSegmentRouting(reason) => join2(
                "segment-routing packet is malformed: ",
                reason,
            ),
            Error::SegmentRoutingPeerDown => "segment-routing path is unavailable".to_owned(),
            Error::FragmentEncryptionUnsupported =>
                "fragmentation with encryption is unsupported by the iWAN data plane".to_owned(),
            Error::Tun(reason) => join2("TUN operation failed: ", reason),
            Error::CommandFailed { program, message } => {
                let start = join3("external command failed: ", program, ": ");
                join2(&start, message)
            },
            Error::Managed(reason) => join2("managed connection failed: ", reason),
            Error::LineNotFound(line) => join3(
                "line ",
                line,
                " does not exist in the current controller configuration",
            ),
            Error::LineUnavailable { line, reason } => {
                let start = join3("line ", line, " is unavailable: ");
                join2(&start, reason)
            },
            Error::CredentialStore(reason) => join2("credential store operation failed: ", reason),
            Error::Http(reason) => join2("HTTP operation failed: ", reason),
            Error::Oidc(reason) => join2("OIDC authentication failed: ", reason),
            Error::Controller(reason) => join2("controller operation failed: ", reason),
            Error::ControllerUnauthorized =>
                "controller rejected the request as unauthorized".to_owned(),
            Error::ControllerRejected { status, code, message } => {
                let mut text = "controller rejected the request (HTTP ".to_owned();
                push_decimal(&mut text, *status as u64);
                push_text(&mut text, ", code ");
                push_text(&mut text, code);
                push_text(&mut text, "): ");
                push_text(&mut text, message);
                text
            },
            Error::PostureVersionMismatch =>
                "posture configuration version does not match the controller".to_owned(),
            Error::PostureConfigUnavailable =>
                "posture configuration is not loaded by the backend".to_owned(),
            Error::PostureDenied => "device posture gate denied network access".to_owned(),
            Error::DeviceBindingBlocked { code, status } => {
                let mut text = join3(
                    "device binding gate blocked network access (",
                    status,
                    ", code ",
                );
                push_signed(&mut text, *code);
                push_text(&mut text, ")");
                text
            },
        }
    }
}

} // verus!
