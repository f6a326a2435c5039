//! Wire-level vocabulary.

use crate::net::Ipv4Addr;
use vstd::prelude::*;

verus! {

/// How the payload of a session is encrypted.
#[derive(Debug, Clone, Copy, PartialEq, Eq, Structural)]
pub enum EncryptionMethod {
    Clear,
    Xor,
    Aes,
}

impl Default for EncryptionMethod {
    fn default() -> (method: Self)
        ensures
            method == EncryptionMethod::Xor,
    {
        EncryptionMethod::Xor
    }
}

impl EncryptionMethod {
    /// The name of a method in settings and messages.
    pub open spec fn name(self) -> Seq<char> {
        match self {
            EncryptionMethod::Clear => "none"@,
            EncryptionMethod::Xor => "xor"@,
            EncryptionMethod::Aes => "aes"@,
        }
    }

    pub fn label(self) -> (label: &'static str)
        ensures
            label@ == self.name(),
    {
        match self {
            EncryptionMethod::Clear => "none",
            EncryptionMethod::Xor => "xor",
            EncryptionMethod::Aes => "aes",
        }
    }
}

/// What a packet is for.
#[derive(Debug, Clone, Copy, PartialEq, Eq, Structural)]
pub enum PacketType {
    Open,
    OpenAck,
    OpenReject,
    Data,
    DataDup,
    DataIpv6,
    DataEncrypted,
    DataEncryptedDup,
    IpFragment,
    IpFragmentIpv6,
    EchoRequest,
    EchoResponse,
    PingRequest,
    PingResponse,
    SegmentRouting,
    Close,
}

/// What every packet begins with.
#[derive(Debug, Clone, Copy, PartialEq, Eq, Structural)]
pub struct PacketHeader {
    pub packet_type: PacketType,
    pub encryption: EncryptionMethod,
    pub session_id: u16,
    pub token: u32,
}

impl PacketHeader {
    pub fn new(
        packet_type: PacketType,
        encryption: EncryptionMethod,
        session_id: u16,
        token: u32,
    ) -> (header: Self)
        ensures
            header == (PacketHeader { packet_type, encryption, session_id, token }),
    {
        PacketHeader { packet_type, encryption, session_id, token }
    }
}

/// A packet taken apart.
#[derive(Debug)]
pub struct DecodedPacket {
    pub header: PacketHeader,
    pub body: Vec<u8>,
}

/// What an attribute of a control packet is about.
#[derive(Debug, Clone, Copy, PartialEq, Eq, Structural)]
pub enum TlvType {
    Username,
    AuthVerify,
    ErrorMessage,
    Mtu,
    Ip,
    Dns,
    Gateway,
    Encrypt,
    Other,
}

/// An attribute of a control packet: its value, and the value read as an
/// integer, as a leading 32-bit word and as a leading IPv4 address where it can be.
#[derive(Debug)]
pub struct Tlv {
    pub kind: TlvType,
    pub value: Vec<u8>,
    pub integer: Option<u64>,
    pub first_u32: Option<u32>,
    pub first_ipv4: Option<Ipv4Addr>,
}

/// The position of the first attribute of a kind.
pub open spec fn first_of_kind(attributes: Seq<Tlv>, kind: TlvType) -> Option<int>
    decreases attributes.len(),
{
    if attributes.len() == 0 {
        None
    } else {
        match first_of_kind(attributes.drop_last(), kind) {
            Some(i) => Some(i),
            None => if attributes.last().kind == kind {
                Some(attributes.len() - 1)
            } else {
                None
            },
        }
    }
}

pub fn find_tlv(attributes: &Vec<Tlv>, kind: TlvType) -> (found: Option<usize>)
    ensures
        match found {
            Some(i) => i < attributes@.len() && first_of_kind(attributes@, kind) == Some(i as int)
                && attributes@[i as int].kind == kind,
            None => first_of_kind(attributes@, kind) is None,
        },
{
    let mut i: usize = 0;
    assert(attributes@.take(0) =~= Seq::<Tlv>::empty());
    while i < attributes.len()
        invariant
            i <= attributes@.len(),
            first_of_kind(attributes@.take(i as int), kind) is None,
        decreases attributes@.len() - i,
    {
        assert(attributes@.take(i + 1).drop_last() =~= attributes@.take(i as int));
        if attributes[i].kind == kind {
            proof {
                lemma_first_stays(attributes@, i + 1, kind);
            }
            return Some(i);
        }
        i += 1;
    }
    assert(attributes@.take(i as int) =~= attributes@);
    None
}

proof fn lemma_first_stays(attributes: Seq<Tlv>, n: int, kind: TlvType)
    requires
        0 <= n <= attributes.len(),
        first_of_kind(attributes.take(n), kind) is Some,
    ensures
        first_of_kind(attributes, kind) == first_of_kind(attributes.take(n), kind),
    decreases attributes.len() - n,
{
    if n < attributes.len() {
        assert(attributes.take(n + 1).drop_last() =~= attributes.take(n));
        lemma_first_stays(attributes, n + 1, kind);
    } else {
        assert(attributes.take(n) =~= attributes);
    }
}

/// Delays of echoes, in microseconds.
#[derive(Debug, Clone, Copy, PartialEq, Eq, Structural)]
pub struct EchoDelayStats {
    pub current_micros: u32,
    pub minimum_micros: u32,
    pub maximum_micros: u32,
}

/// What an echo carries.
#[derive(Debug, Clone, Copy, PartialEq, Eq, Structural)]
pub struct EchoBody {
    pub tick_micros: u64,
    pub stats: EchoDelayStats,
}

/// A search finds the first attribute of the kind, if there is one.
pub proof fn law_first_attribute(
    attributes: &Vec<Tlv>,
    kind: TlvType,
    found: Option<usize>,
    i: int,
)
    requires
        call_ensures(find_tlv, (attributes, kind), found),
        0 <= i < attributes@.len(),
        attributes@[i].kind == kind,
    ensures
        found is Some,
        found->Some_0 <= i,
        found->Some_0 < attributes@.len() && attributes@[found->Some_0 as int].kind == kind,
{
    lemma_found_by(attributes@, kind, i);
}

proof fn lemma_found_by(attributes: Seq<Tlv>, kind: TlvType, i: int)
    requires
        0 <= i < attributes.len(),
        attributes[i].kind == kind,
    ensures
        first_of_kind(attributes, kind) is Some,
        first_of_kind(attributes, kind)->Some_0 <= i,
    decreases attributes.len(),
{
    if i < attributes.len() - 1 {
        assert(attributes.drop_last()[i] == attributes[i]);
        lemma_found_by(attributes.drop_last(), kind, i);
    } else if first_of_kind(attributes.drop_last(), kind) is Some {
        lemma_place_in_range(attributes.drop_last(), kind);
    }
}

proof fn lemma_place_in_range(attributes: Seq<Tlv>, kind: TlvType)
    requires
        first_of_kind(attributes, kind) is Some,
    ensures
        0 <= first_of_kind(attributes, kind)->Some_0 < attributes.len(),
    decreases attributes.len(),
{
    if attributes.len() > 0 && first_of_kind(attributes.drop_last(), kind) is Some {
        lemma_place_in_range(attributes.drop_last(), kind);
    }
}

/// The names of the methods, and the method that is taken where none is named.
pub proof fn law_method_names(
    method: EncryptionMethod,
    label: &'static str,
    fallback: EncryptionMethod,
)
    requires
        call_ensures(EncryptionMethod::label, (method,), label),
        call_ensures(EncryptionMethod::default, (), fallback),
    ensures
        method is Clear ==> label@ == "none"@,
        method is Xor ==> label@ == "xor"@,
        method is Aes ==> label@ == "aes"@,
        fallback is Xor,
{
}

} // verus!
