//! Decisions on DNS questions inside IPv4 packets.

use super::message::{copy_questions, decode_message, encode_message, DnsMessage};
use super::message::{dns_decoded, dns_encoded, question_views, DnsMessageView};
use super::policy::{DnsPolicyView, EffectiveDnsPolicy};
use crate::bytes::{be16, le32, push_all, push_be16, push_be32};
use crate::bytes::{
    be16_bytes, be16_value, be32_bytes, be32_value, law_half_word_round_trip, law_word_round_trip,
};
use crate::net::Ipv4Addr;
use std::sync::Arc;
use vstd::prelude::*;
use vstd::slice::{slice_subrange, slice_to_vec};

verus! {

pub const IPV4_MIN_HEADER: usize = 20;

pub const UDP_HEADER: usize = 8;

pub const DNS_PORT: u16 = 53;

pub const ENCRYPTED_DNS_PORT: u16 = 853;

pub const RECORD_TYPE_AAAA: u16 = 28;

pub const RESPONSE_NO_ERROR: u16 = 0;

pub const RESPONSE_SERV_FAIL: u16 = 2;

pub const RESPONSE_NX_DOMAIN: u16 = 3;

/// The sum of the 16-bit words of a byte string; a last odd byte is the high half of a word.
pub open spec fn word_sum(bytes: Seq<u8>) -> nat
    decreases bytes.len(),
{
    if bytes.len() == 0 {
        0
    } else if bytes.len() == 1 {
        (bytes[0] * 0x100) as nat
    } else {
        (be16_value(bytes[0], bytes[1]) + word_sum(bytes.skip(2))) as nat
    }
}

/// A sum with its carries added back in until it fits in 16 bits.
pub open spec fn folded(sum: nat) -> nat {
    if sum == 0 {
        0
    } else {
        ((sum - 1) % 0xffff + 1) as nat
    }
}

/// The Internet checksum of a sum, with zero written as all ones.
pub open spec fn checksum_of(sum: nat) -> int {
    if folded(sum) == 0xffff {
        0xffff
    } else {
        0xffff - folded(sum)
    }
}

/// A sum to which its own checksum was added checks out.
pub proof fn law_checksum_checks_out(sum: nat)
    ensures
        checksum_of((sum + checksum_of(sum)) as nat) == 0xffff,
        0 < checksum_of(sum) <= 0xffff,
{
    if sum > 0 {
        let q = (sum - 1) / 0xffff;
        let f = folded(sum);
        assert(sum - 1 == 0xffff * q + (f - 1)) by {
            vstd::arithmetic::div_mod::lemma_fundamental_div_mod(sum - 1, 0xffff);
        }
        let total = sum + checksum_of(sum);
        let k = if f == 0xffff { q + 1 } else { q };
        assert(total - 1 == 0xffff * k + 0xfffe);
        vstd::arithmetic::div_mod::lemma_fundamental_div_mod_converse(
            total - 1,
            0xffff,
            k,
            0xfffe,
        );
    }
}

proof fn lemma_fold_step(sum: nat)
    requires
        sum >= 0x1_0000,
    ensures
        folded((sum % 0x1_0000 + sum / 0x1_0000) as nat) == folded(sum),
        sum % 0x1_0000 + sum / 0x1_0000 < sum,
{
    let q = sum / 0x1_0000;
    let next = sum % 0x1_0000 + q;
    assert(sum == 0x1_0000 * q + sum % 0x1_0000);
    assert(sum - 1 == 0xffff * q + (next - 1));
    vstd::arithmetic::div_mod::lemma_mod_multiples_vanish(q as int, next - 1, 0xffff);
}

proof fn lemma_word_sum_concat(head: Seq<u8>, tail: Seq<u8>)
    requires
        head.len() % 2 == 0,
    ensures
        word_sum(head + tail) == word_sum(head) + word_sum(tail),
    decreases head.len(),
{
    let all = head + tail;
    if head.len() == 0 {
        assert(all =~= tail);
    } else {
        lemma_word_sum_concat(head.skip(2), tail);
        assert(all.skip(2) =~= head.skip(2) + tail);
        assert(all[0] == head[0] && all[1] == head[1]);
    }
}

proof fn lemma_word_sum_bound(bytes: Seq<u8>)
    ensures
        word_sum(bytes) <= 0xffff * ((bytes.len() + 1) / 2),
    decreases bytes.len(),
{
    if bytes.len() >= 2 {
        lemma_word_sum_bound(bytes.skip(2));
    }
}

/// Adds the 16-bit words of a byte string to a sum.
pub fn add_bytes(sum: &mut u32, bytes: &[u8])
    requires
        *old(sum) + 0xffff * ((bytes@.len() + 1) / 2) <= u32::MAX,
    ensures
        *final(sum) == *old(sum) + word_sum(bytes@),
{
    let ghost before = *sum;
    let mut i: usize = 0;
    assert(bytes@.skip(0) =~= bytes@);
    proof {
        lemma_word_sum_bound(bytes@);
    }
    while bytes.len() - i >= 2
        invariant
            i <= bytes@.len(),
            *sum + word_sum(bytes@.skip(i as int)) == before + word_sum(bytes@),
            before + word_sum(bytes@) <= u32::MAX,
        decreases bytes@.len() - i,
    {
        let ghost rest = bytes@.skip(i as int);
        assert(rest[0] == bytes@[i as int] && rest[1] == bytes@[i + 1]);
        assert(rest.skip(2) =~= bytes@.skip(i + 2));
        *sum = *sum + be16(bytes[i], bytes[i + 1]) as u32;
        i += 2;
    }
    if i < bytes.len() {
        assert(bytes@.skip(i as int)[0] == bytes@[i as int]);
        *sum = *sum + (bytes[i] as u32) * 0x100;
    }
}

/// Turns a sum into a checksum.
pub fn finish_checksum(sum: u32) -> (checksum: u16)
    ensures
        checksum == checksum_of(sum as nat),
{
    let mut rest: u32 = sum;
    while rest >= 0x1_0000
        invariant
            folded(rest as nat) == folded(sum as nat),
        decreases rest,
    {
        proof {
            lemma_fold_step(rest as nat);
        }
        rest = rest % 0x1_0000 + rest / 0x1_0000;
    }
    let value: u16 = 0xffff - rest as u16;
    if value == 0 {
        0xffff
    } else {
        value
    }
}

/// The checksum of a byte string.
pub fn checksum(bytes: &[u8]) -> (value: u16)
    requires
        bytes@.len() <= 0x2_0000,
    ensures
        value == checksum_of(word_sum(bytes@)),
{
    let mut sum: u32 = 0;
    add_bytes(&mut sum, bytes);
    finish_checksum(sum)
}

/// The sum that the checksum of a UDP segment between two addresses is taken of.
pub open spec fn udp_sum(source: Ipv4Addr, destination: Ipv4Addr, segment: Seq<u8>) -> nat {
    word_sum(be32_bytes(source.bits)) + word_sum(be32_bytes(destination.bits)) + 17 + segment.len()
        + word_sum(segment)
}

proof fn lemma_address_sum(bits: u32)
    ensures
        word_sum(be32_bytes(bits)) <= 0x1_fffe,
{
    lemma_word_sum_bound(be32_bytes(bits));
}

pub fn udp_checksum(source: Ipv4Addr, destination: Ipv4Addr, segment: &[u8]) -> (value: u16)
    requires
        segment@.len() <= 0x1_0000,
    ensures
        value == checksum_of(udp_sum(source, destination, segment@)),
{
    let mut pseudo: Vec<u8> = Vec::new();
    push_be32(&mut pseudo, source.bits);
    push_be32(&mut pseudo, destination.bits);
    proof {
        assert(pseudo@ =~= be32_bytes(source.bits) + be32_bytes(destination.bits));
        lemma_word_sum_concat(be32_bytes(source.bits), be32_bytes(destination.bits));
        lemma_address_sum(source.bits);
        lemma_address_sum(destination.bits);
    }
    let mut sum: u32 = 0;
    add_bytes(&mut sum, pseudo.as_slice());
    sum = sum + 17 + segment.len() as u32;
    add_bytes(&mut sum, segment);
    finish_checksum(sum)
}

/// The parts of an IPv4 packet.
#[verifier::ext_equal]
pub struct Ipv4View {
    pub source: Ipv4Addr,
    pub destination: Ipv4Addr,
    pub identification: u16,
    pub protocol: u8,
    pub fragmented: bool,
    pub payload: Seq<u8>,
}

/// The parts of an IPv4 packet, if bytes hold one whole.
pub open spec fn parsed_ipv4(packet: Seq<u8>) -> Option<Ipv4View> {
    let header = (packet[0] % 16) * 4;
    let total = be16_value(packet[2], packet[3]);
    if packet.len() < IPV4_MIN_HEADER || packet[0] / 16 != 4 {
        None
    } else if header < IPV4_MIN_HEADER || header > total || total > packet.len() {
        None
    } else {
        Some(
            Ipv4View {
                source: Ipv4Addr {
                    bits: be32_value(packet[12], packet[13], packet[14], packet[15]) as u32,
                },
                destination: Ipv4Addr {
                    bits: be32_value(packet[16], packet[17], packet[18], packet[19]) as u32,
                },
                identification: be16_value(packet[4], packet[5]) as u16,
                protocol: packet[9],
                fragmented: be16_value(packet[6], packet[7]) % 0x4000 != 0,
                payload: packet.subrange(header, total),
            },
        )
    }
}

/// An IPv4 packet with its payload borrowed.
pub struct Ipv4Packet<'a> {
    pub source: Ipv4Addr,
    pub destination: Ipv4Addr,
    pub identification: u16,
    pub protocol: u8,
    pub fragmented: bool,
    pub payload: &'a [u8],
}

impl<'a> View for Ipv4Packet<'a> {
    type V = Ipv4View;

    open spec fn view(&self) -> Ipv4View {
        Ipv4View {
            source: self.source,
            destination: self.destination,
            identification: self.identification,
            protocol: self.protocol,
            fragmented: self.fragmented,
            payload: self.payload@,
        }
    }
}

impl<'a> Ipv4Packet<'a> {
    pub fn parse(packet: &'a [u8]) -> (parsed: Option<Self>)
        ensures
            match parsed {
                Some(parts) => parsed_ipv4(packet@) == Some(parts@),
                None => parsed_ipv4(packet@) is None,
            },
    {
        if packet.len() < IPV4_MIN_HEADER || packet[0] / 16 != 4 {
            return None;
        }
        let header: usize = (packet[0] % 16) as usize * 4;
        let total: usize = be16(packet[2], packet[3]) as usize;
        if header < IPV4_MIN_HEADER || header > total || total > packet.len() {
            return None;
        }
        let parts = Ipv4Packet {
            source: Ipv4Addr { bits: le32(packet[15], packet[14], packet[13], packet[12]) },
            destination: Ipv4Addr { bits: le32(packet[19], packet[18], packet[17], packet[16]) },
            identification: be16(packet[4], packet[5]),
            protocol: packet[9],
            fragmented: be16(packet[6], packet[7]) % 0x4000 != 0,
            payload: slice_subrange(packet, header, total),
        };
        assert(parts@ =~= parsed_ipv4(packet@)->Some_0);
        Some(parts)
    }
}

/// The parts of a UDP segment.
#[verifier::ext_equal]
pub struct UdpView {
    pub source_port: u16,
    pub destination_port: u16,
    pub payload: Seq<u8>,
}

/// The parts of a UDP segment, if bytes hold one whole.
pub open spec fn parsed_udp(segment: Seq<u8>) -> Option<UdpView> {
    let length = be16_value(segment[4], segment[5]);
    if segment.len() < UDP_HEADER || length < UDP_HEADER || length > segment.len() {
        None
    } else {
        Some(
            UdpView {
                source_port: be16_value(segment[0], segment[1]) as u16,
                destination_port: be16_value(segment[2], segment[3]) as u16,
                payload: segment.subrange(8, length),
            },
        )
    }
}

/// A UDP segment with its payload borrowed.
pub struct UdpPacket<'a> {
    pub source_port: u16,
    pub destination_port: u16,
    pub payload: &'a [u8],
}

impl<'a> View for UdpPacket<'a> {
    type V = UdpView;

    open spec fn view(&self) -> UdpView {
        UdpView {
            source_port: self.source_port,
            destination_port: self.destination_port,
            payload: self.payload@,
        }
    }
}

impl<'a> UdpPacket<'a> {
    pub fn parse(packet: &'a [u8]) -> (parsed: Option<Self>)
        ensures
            match parsed {
                Some(parts) => parsed_udp(packet@) == Some(parts@),
                None => parsed_udp(packet@) is None,
            },
    {
        if packet.len() < UDP_HEADER {
            return None;
        }
        let length: usize = be16(packet[4], packet[5]) as usize;
        if length < UDP_HEADER || length > packet.len() {
            return None;
        }
        let parts = UdpPacket {
            source_port: be16(packet[0], packet[1]),
            destination_port: be16(packet[2], packet[3]),
            payload: slice_subrange(packet, UDP_HEADER, length),
        };
        assert(parts@ =~= parsed_udp(packet@)->Some_0);
        Some(parts)
    }
}

/// The header of an unfragmented IPv4 packet with UDP inside, with a given checksum.
pub open spec fn ipv4_header(
    source: Ipv4Addr,
    destination: Ipv4Addr,
    total: u16,
    identification: u16,
    check: u16,
) -> Seq<u8> {
    header_front(total, identification) + be16_bytes(check) + header_back(source, destination)
}

/// The header bytes before the checksum.
pub open spec fn header_front(total: u16, identification: u16) -> Seq<u8> {
    seq![0x45u8, 0u8] + be16_bytes(total) + be16_bytes(identification) + seq![
        0x40u8,
        0u8,
        64u8,
        17u8,
    ]
}

/// The header bytes behind the checksum.
pub open spec fn header_back(source: Ipv4Addr, destination: Ipv4Addr) -> Seq<u8> {
    be32_bytes(source.bits) + be32_bytes(destination.bits)
}

/// A UDP segment with a given checksum.
pub open spec fn udp_segment(
    source_port: u16,
    destination_port: u16,
    check: u16,
    payload: Seq<u8>,
) -> Seq<u8> {
    segment_front(source_port, destination_port, payload.len()) + be16_bytes(check) + payload
}

/// The segment bytes before the checksum.
pub open spec fn segment_front(source_port: u16, destination_port: u16, length: nat) -> Seq<u8> {
    be16_bytes(source_port) + be16_bytes(destination_port) + be16_bytes((8 + length) as u16)
}

/// An IPv4 packet with UDP inside and both checksums in place; `None` where it would be too long.
pub open spec fn udp_response(
    source: Ipv4Addr,
    destination: Ipv4Addr,
    source_port: u16,
    destination_port: u16,
    identification: u16,
    payload: Seq<u8>,
) -> Option<Seq<u8>> {
    let total = (28 + payload.len()) as u16;
    let blank = ipv4_header(source, destination, total, identification, 0);
    let bare = udp_segment(source_port, destination_port, 0, payload);
    if 28 + payload.len() > 0xffff {
        None
    } else {
        Some(
            ipv4_header(
                source,
                destination,
                total,
                identification,
                checksum_of(word_sum(blank)) as u16,
            ) + udp_segment(
                source_port,
                destination_port,
                checksum_of(udp_sum(source, destination, bare)) as u16,
                payload,
            ),
        )
    }
}

fn build_header(
    source: Ipv4Addr,
    destination: Ipv4Addr,
    total: u16,
    identification: u16,
    check: u16,
) -> (header: Vec<u8>)
    ensures
        header@ == ipv4_header(source, destination, total, identification, check),
{
    let mut header: Vec<u8> = Vec::new();
    header.push(0x45);
    header.push(0);
    push_be16(&mut header, total);
    push_be16(&mut header, identification);
    header.push(0x40);
    header.push(0);
    header.push(64);
    header.push(17);
    push_be16(&mut header, check);
    push_be32(&mut header, source.bits);
    push_be32(&mut header, destination.bits);
    assert(header@ =~= ipv4_header(source, destination, total, identification, check));
    header
}

fn build_segment(source_port: u16, destination_port: u16, check: u16, payload: &[u8]) -> (segment:
    Vec<u8>)
    requires
        payload@.len() <= 0xfff7,
    ensures
        segment@ == udp_segment(source_port, destination_port, check, payload@),
{
    let mut segment: Vec<u8> = Vec::new();
    push_be16(&mut segment, source_port);
    push_be16(&mut segment, destination_port);
    push_be16(&mut segment, (payload.len() + UDP_HEADER) as u16);
    push_be16(&mut segment, check);
    push_all(&mut segment, payload);
    assert(segment@ =~= udp_segment(source_port, destination_port, check, payload@));
    segment
}

pub fn build_udp_response(
    source: Ipv4Addr,
    destination: Ipv4Addr,
    source_port: u16,
    destination_port: u16,
    identification: u16,
    payload: &[u8],
) -> (packet: Option<Vec<u8>>)
    ensures
        match packet {
            Some(bytes) => udp_response(
                source,
                destination,
                source_port,
                destination_port,
                identification,
                payload@,
            ) == Some(bytes@),
            None => udp_response(
                source,
                destination,
                source_port,
                destination_port,
                identification,
                payload@,
            ) is None,
        },
{
    if payload.len() > 0xffff - IPV4_MIN_HEADER - UDP_HEADER {
        return None;
    }
    let total: u16 = (payload.len() + UDP_HEADER + IPV4_MIN_HEADER) as u16;
    let blank = build_header(source, destination, total, identification, 0);
    let header_check: u16 = checksum(blank.as_slice());
    let bare = build_segment(source_port, destination_port, 0, payload);
    let segment_check: u16 = udp_checksum(source, destination, bare.as_slice());
    let mut packet = build_header(source, destination, total, identification, header_check);
    let segment = build_segment(source_port, destination_port, segment_check, payload);
    push_all(&mut packet, segment.as_slice());
    Some(packet)
}

proof fn lemma_half_word_sum(value: u16)
    ensures
        word_sum(be16_bytes(value)) == value,
{
    law_half_word_round_trip(value);
    let rest = be16_bytes(value).skip(2);
    assert(rest =~= Seq::<u8>::empty());
    assert(word_sum(rest) == 0);
}

/// What the engine injects has valid checksums: both sums, checked as the
/// receiver checks them, come out as all ones.
pub proof fn law_response_checksums(
    source: Ipv4Addr,
    destination: Ipv4Addr,
    source_port: u16,
    destination_port: u16,
    identification: u16,
    payload: Seq<u8>,
)
    requires
        28 + payload.len() <= 0xffff,
    ensures
        ({
            let packet = udp_response(
                source,
                destination,
                source_port,
                destination_port,
                identification,
                payload,
            )->Some_0;
            &&& checksum_of(word_sum(packet.take(20))) == 0xffff
            &&& checksum_of(udp_sum(source, destination, packet.skip(20))) == 0xffff
        }),
{
    let total = (28 + payload.len()) as u16;
    let front = header_front(total, identification);
    let back = header_back(source, destination);
    let blank = ipv4_header(source, destination, total, identification, 0);
    let check = checksum_of(word_sum(blank)) as u16;
    let header = ipv4_header(source, destination, total, identification, check);
    law_checksum_checks_out(word_sum(blank));
    lemma_half_word_sum(0);
    lemma_half_word_sum(check);
    lemma_word_sum_concat(front, be16_bytes(0));
    lemma_word_sum_concat(front + be16_bytes(0), back);
    lemma_word_sum_concat(front, be16_bytes(check));
    lemma_word_sum_concat(front + be16_bytes(check), back);
    assert(word_sum(header) == word_sum(blank) + check);
    let bare = udp_segment(source_port, destination_port, 0, payload);
    let lead = segment_front(source_port, destination_port, payload.len());
    let check2 = checksum_of(udp_sum(source, destination, bare)) as u16;
    let segment = udp_segment(source_port, destination_port, check2, payload);
    law_checksum_checks_out(udp_sum(source, destination, bare));
    lemma_half_word_sum(check2);
    lemma_word_sum_concat(lead, be16_bytes(0));
    lemma_word_sum_concat(lead + be16_bytes(0), payload);
    lemma_word_sum_concat(lead, be16_bytes(check2));
    lemma_word_sum_concat(lead + be16_bytes(check2), payload);
    assert(word_sum(segment) == word_sum(bare) + check2);
    assert(segment.len() == bare.len());
    let packet = header + segment;
    assert(packet.take(20) =~= header);
    assert(packet.skip(20) =~= segment);
}

proof fn lemma_header_parses(
    source: Ipv4Addr,
    destination: Ipv4Addr,
    total: u16,
    identification: u16,
    check: u16,
    rest: Seq<u8>,
)
    requires
        total == 20 + rest.len(),
    ensures
        parsed_ipv4(ipv4_header(source, destination, total, identification, check) + rest) == Some(
            Ipv4View {
                source,
                destination,
                identification,
                protocol: 17,
                fragmented: false,
                payload: rest,
            },
        ),
{
    let packet = ipv4_header(source, destination, total, identification, check) + rest;
    let t = be16_bytes(total);
    let n = be16_bytes(identification);
    let s = be32_bytes(source.bits);
    let d = be32_bytes(destination.bits);
    law_word_round_trip(source.bits);
    law_word_round_trip(destination.bits);
    law_half_word_round_trip(total);
    law_half_word_round_trip(identification);
    assert(packet.len() == total);
    assert(packet[0] == 0x45 && packet[2] == t[0] && packet[3] == t[1] && packet[4] == n[0]
        && packet[5] == n[1] && packet[6] == 0x40 && packet[7] == 0 && packet[9] == 17);
    assert(packet[12] == s[0] && packet[13] == s[1] && packet[14] == s[2] && packet[15] == s[3]);
    assert(packet[16] == d[0] && packet[17] == d[1] && packet[18] == d[2] && packet[19] == d[3]);
    assert(be16_value(0x40, 0) % 0x4000 == 0);
    assert(packet.subrange(20, total as int) =~= rest);
}

proof fn lemma_segment_parses(source_port: u16, destination_port: u16, check: u16, payload: Seq<u8>)
    requires
        8 + payload.len() <= 0xffff,
    ensures
        parsed_udp(udp_segment(source_port, destination_port, check, payload)) == Some(
            UdpView { source_port, destination_port, payload },
        ),
{
    let segment = udp_segment(source_port, destination_port, check, payload);
    let length = (8 + payload.len()) as u16;
    let s = be16_bytes(source_port);
    let d = be16_bytes(destination_port);
    let l = be16_bytes(length);
    law_half_word_round_trip(source_port);
    law_half_word_round_trip(destination_port);
    law_half_word_round_trip(length);
    assert(segment[0] == s[0] && segment[1] == s[1] && segment[2] == d[0] && segment[3] == d[1]
        && segment[4] == l[0] && segment[5] == l[1]);
    assert(segment.subrange(8, length as int) =~= payload);
}

/// What the engine injects reads back as what it was built from.
#[verifier::rlimit(60)]
#[verifier::spinoff_prover]
pub proof fn law_response_parses(
    source: Ipv4Addr,
    destination: Ipv4Addr,
    source_port: u16,
    destination_port: u16,
    identification: u16,
    payload: Seq<u8>,
)
    requires
        28 + payload.len() <= 0xffff,
    ensures
        ({
            let packet = udp_response(
                source,
                destination,
                source_port,
                destination_port,
                identification,
                payload,
            )->Some_0;
            &&& parsed_ipv4(packet) matches Some(ip)
            &&& ip.source == source && ip.destination == destination && ip.identification
                == identification && ip.protocol == 17 && !ip.fragmented
            &&& parsed_udp(ip.payload) == Some(UdpView { source_port, destination_port, payload })
        }),
{
    let total = (28 + payload.len()) as u16;
    let blank = ipv4_header(source, destination, total, identification, 0);
    let check = checksum_of(word_sum(blank)) as u16;
    let bare = udp_segment(source_port, destination_port, 0, payload);
    let check2 = checksum_of(udp_sum(source, destination, bare)) as u16;
    let segment = udp_segment(source_port, destination_port, check2, payload);
    let packet = ipv4_header(source, destination, total, identification, check) + segment;
    let ip = Ipv4View {
        source,
        destination,
        identification,
        protocol: 17,
        fragmented: false,
        payload: segment,
    };
    assert(parsed_ipv4(packet) == Some(ip)) by {
        lemma_header_parses(source, destination, total, identification, check, segment);
    }
    assert(parsed_udp(segment) == Some(UdpView { source_port, destination_port, payload })) by {
        lemma_segment_parses(source_port, destination_port, check2, payload);
    }
    assert(udp_response(
        source,
        destination,
        source_port,
        destination_port,
        identification,
        payload,
    ) == Some(packet));
}

/// A DNS question to hand to a resolver outside the tunnel, and where its answer goes.
#[derive(Debug, Clone)]
pub struct DnsRelayRequest {
    dns_request: Vec<u8>,
    source: Ipv4Addr,
    destination: Ipv4Addr,
    source_port: u16,
    destination_port: u16,
    identification: u16,
}

#[verifier::ext_equal]
pub struct RelayRequestView {
    pub dns_request: Seq<u8>,
    pub source: Ipv4Addr,
    pub destination: Ipv4Addr,
    pub source_port: u16,
    pub destination_port: u16,
    pub identification: u16,
}

impl View for DnsRelayRequest {
    type V = RelayRequestView;

    closed spec fn view(&self) -> RelayRequestView {
        RelayRequestView {
            dns_request: self.dns_request@,
            source: self.source,
            destination: self.destination,
            source_port: self.source_port,
            destination_port: self.destination_port,
            identification: self.identification,
        }
    }
}

impl RelayRequestView {
    /// The packet that carries an answer back to who asked.
    pub open spec fn answer(self, dns: Seq<u8>) -> Option<Seq<u8>> {
        udp_response(
            self.destination,
            self.source,
            self.destination_port,
            self.source_port,
            self.identification,
            dns,
        )
    }
}

/// The answer without records to a message, with a response code.
pub open spec fn reply_to(message: DnsMessageView, code: u16) -> DnsMessageView {
    DnsMessageView {
        id: message.id,
        response: true,
        op_code: message.op_code,
        truncated: false,
        recursion_desired: message.recursion_desired,
        recursion_available: true,
        response_code: code,
        questions: message.questions,
    }
}

/// Builds the answer without records to a message.
pub fn synthetic_response(request: &DnsMessage, code: u16) -> (reply: DnsMessage)
    ensures
        reply@ == reply_to(request@, code),
{
    let reply = DnsMessage {
        id: request.id,
        response: true,
        op_code: request.op_code,
        truncated: false,
        recursion_desired: request.recursion_desired,
        recursion_available: true,
        response_code: code,
        questions: copy_questions(&request.questions),
    };
    assert(reply@ =~= reply_to(request@, code));
    reply
}

impl DnsRelayRequest {
    pub fn dns_request(&self) -> (request: &[u8])
        ensures
            request@ == self@.dns_request,
    {
        self.dns_request.as_slice()
    }

    pub fn response_packet(&self, dns_response: &[u8]) -> (packet: Option<Vec<u8>>)
        ensures
            match packet {
                Some(bytes) => self@.answer(dns_response@) == Some(bytes@),
                None => self@.answer(dns_response@) is None,
            },
    {
        build_udp_response(
            self.destination,
            self.source,
            self.destination_port,
            self.source_port,
            self.identification,
            dns_response,
        )
    }

    /// The packet that tells who asked that the question could not be answered.
    pub fn servfail_packet(&self) -> (packet: Option<Vec<u8>>)
        ensures
            match packet {
                Some(bytes) => failure_packet(self@) == Some(bytes@),
                None => failure_packet(self@) is None,
            },
    {
        match decode_message(self.dns_request.as_slice()) {
            Err(_) => None,
            Ok(request) => {
                let reply = synthetic_response(&request, RESPONSE_SERV_FAIL);
                match encode_message(&reply) {
                    None => None,
                    Some(dns) => self.response_packet(dns.as_slice()),
                }
            },
        }
    }
}

/// The packet that reports a server failure on a relayed question.
pub open spec fn failure_packet(request: RelayRequestView) -> Option<Seq<u8>> {
    match dns_decoded(request.dns_request) {
        Err(_) => None,
        Ok(message) => match dns_encoded(reply_to(message, RESPONSE_SERV_FAIL)) {
            None => None,
            Some(dns) => request.answer(dns),
        },
    }
}

/// What to do with a packet.
#[derive(Debug, Clone)]
pub enum DnsPacketAction {
    Pass,
    Drop,
    Inject(Vec<u8>),
    Relay(DnsRelayRequest),
}

#[verifier::ext_equal]
pub enum DnsActionView {
    Pass,
    Drop,
    Inject(Seq<u8>),
    Relay(RelayRequestView),
}

impl View for DnsPacketAction {
    type V = DnsActionView;

    open spec fn view(&self) -> DnsActionView {
        match self {
            DnsPacketAction::Pass => DnsActionView::Pass,
            DnsPacketAction::Drop => DnsActionView::Drop,
            DnsPacketAction::Inject(packet) => DnsActionView::Inject(packet@),
            DnsPacketAction::Relay(request) => DnsActionView::Relay(request@),
        }
    }
}

/// What to do with a DNS question.
#[derive(Debug, Clone, Copy, PartialEq, Eq, Structural)]
pub enum QueryDecision {
    Pass,
    Answer(u16),
    Relay,
}

/// What a policy does with a DNS message: a name of a blocked resolver does not
/// exist, IPv6 addresses are not given out while DNS is routed, and questions
/// that stay out of the tunnel are relayed. Anything but one question passes.
pub open spec fn query_decision(policy: DnsPolicyView, message: DnsMessageView) -> QueryDecision {
    if message.response || message.questions.len() != 1 {
        QueryDecision::Pass
    } else if policy.blocks(message.questions[0].name) {
        QueryDecision::Answer(RESPONSE_NX_DOMAIN)
    } else if policy.routes_dns() && message.questions[0].record_type == RECORD_TYPE_AAAA {
        QueryDecision::Answer(RESPONSE_NO_ERROR)
    } else if !policy.routes_dns() || policy.tunnels(message.questions[0].name) {
        QueryDecision::Pass
    } else {
        QueryDecision::Relay
    }
}

/// The destination port of a TCP or UDP packet.
pub open spec fn transport_port(ip: Ipv4View) -> Option<int> {
    if (ip.protocol == 6 || ip.protocol == 17) && ip.payload.len() >= 4 {
        Some(be16_value(ip.payload[2], ip.payload[3]))
    } else {
        None
    }
}

/// What a policy does with a packet.
pub open spec fn packet_action(policy: DnsPolicyView, packet: Seq<u8>) -> DnsActionView {
    match parsed_ipv4(packet) {
        None => DnsActionView::Pass,
        Some(ip) => if !policy.enabled() || ip.fragmented {
            DnsActionView::Pass
        } else if policy.block_encrypted_dns && transport_port(ip) == Some(
            ENCRYPTED_DNS_PORT as int,
        ) {
            DnsActionView::Drop
        } else if ip.protocol != 17 {
            DnsActionView::Pass
        } else {
            match parsed_udp(ip.payload) {
                None => DnsActionView::Pass,
                Some(udp) => if udp.destination_port != DNS_PORT {
                    DnsActionView::Pass
                } else {
                    match dns_decoded(udp.payload) {
                        Err(_) => DnsActionView::Pass,
                        Ok(message) => question_action(policy, ip, udp, message),
                    }
                },
            }
        },
    }
}

/// The relay request of a packet.
pub open spec fn relay_request(ip: Ipv4View, udp: UdpView) -> RelayRequestView {
    RelayRequestView {
        dns_request: udp.payload,
        source: ip.source,
        destination: ip.destination,
        source_port: udp.source_port,
        destination_port: udp.destination_port,
        identification: ip.identification,
    }
}

/// What a policy does with a packet that holds a DNS message.
pub open spec fn question_action(
    policy: DnsPolicyView,
    ip: Ipv4View,
    udp: UdpView,
    message: DnsMessageView,
) -> DnsActionView {
    match query_decision(policy, message) {
        QueryDecision::Pass => DnsActionView::Pass,
        QueryDecision::Answer(code) => match dns_encoded(reply_to(message, code)) {
            None => DnsActionView::Pass,
            Some(dns) => match relay_request(ip, udp).answer(dns) {
                None => DnsActionView::Pass,
                Some(packet) => DnsActionView::Inject(packet),
            },
        },
        QueryDecision::Relay => DnsActionView::Relay(relay_request(ip, udp)),
    }
}

/// Decides on a DNS message.
pub fn decide_query(policy: &EffectiveDnsPolicy, message: &DnsMessage) -> (decision: QueryDecision)
    ensures
        decision == query_decision(policy@, message@),
{
    if message.response || message.questions.len() != 1 {
        return QueryDecision::Pass;
    }
    assert(question_views(message.questions@)[0] == message.questions@[0]@);
    let question = &message.questions[0];
    if policy.blocks_doh_host(&question.name) {
        QueryDecision::Answer(RESPONSE_NX_DOMAIN)
    } else if policy.dns_routing_enabled() && question.record_type == RECORD_TYPE_AAAA {
        QueryDecision::Answer(RESPONSE_NO_ERROR)
    } else if !policy.dns_routing_enabled() || policy.routes_through_tunnel(&question.name) {
        QueryDecision::Pass
    } else {
        QueryDecision::Relay
    }
}

/// Applies a policy to packets.
#[derive(Debug, Clone)]
pub struct DnsPacketEngine {
    policy: Arc<EffectiveDnsPolicy>,
}

impl DnsPacketEngine {
    pub closed spec fn view(&self) -> DnsPolicyView {
        self.policy@
    }

    pub fn new(policy: EffectiveDnsPolicy) -> (engine: Self)
        ensures
            engine@ == policy@,
    {
        DnsPacketEngine { policy: Arc::new(policy) }
    }

    pub fn from_shared(policy: Arc<EffectiveDnsPolicy>) -> (engine: Self)
        ensures
            engine@ == policy@,
    {
        DnsPacketEngine { policy }
    }

    pub fn policy(&self) -> (policy: &EffectiveDnsPolicy)
        ensures
            policy@ == self@,
    {
        &self.policy
    }

    pub fn process(&self, packet: &[u8]) -> (action: DnsPacketAction)
        ensures
            action@ == packet_action(self@, packet@),
    {
        if !self.policy.engine_enabled() {
            return DnsPacketAction::Pass;
        }
        let ip = match Ipv4Packet::parse(packet) {
            None => {
                return DnsPacketAction::Pass;
            },
            Some(ip) => ip,
        };
        if ip.fragmented {
            return DnsPacketAction::Pass;
        }
        let carries_port = (ip.protocol == 6 || ip.protocol == 17) && ip.payload.len() >= 4;
        if self.policy.block_encrypted_dns && carries_port && be16(ip.payload[2], ip.payload[3])
            == ENCRYPTED_DNS_PORT {
            return DnsPacketAction::Drop;
        }
        if ip.protocol != 17 {
            return DnsPacketAction::Pass;
        }
        let udp = match UdpPacket::parse(ip.payload) {
            None => {
                return DnsPacketAction::Pass;
            },
            Some(udp) => udp,
        };
        if udp.destination_port != DNS_PORT {
            return DnsPacketAction::Pass;
        }
        match decode_message(udp.payload) {
            Err(_) => DnsPacketAction::Pass,
            Ok(request) => self.process_question(&ip, &udp, &request),
        }
    }

    /// Acts on a packet that holds a DNS message.
    pub fn process_question(&self, ip: &Ipv4Packet<'_>, udp: &UdpPacket<'_>, request: &DnsMessage)
        -> (action: DnsPacketAction)
        ensures
            action@ == question_action(self@, ip@, udp@, request@),
    {
        let relayed = DnsRelayRequest {
            dns_request: slice_to_vec(udp.payload),
            source: ip.source,
            destination: ip.destination,
            source_port: udp.source_port,
            destination_port: udp.destination_port,
            identification: ip.identification,
        };
        assert(relayed@ =~= relay_request(ip@, udp@));
        match decide_query(&self.policy, request) {
            QueryDecision::Pass => DnsPacketAction::Pass,
            QueryDecision::Answer(code) => {
                let reply = synthetic_response(request, code);
                match encode_message(&reply) {
                    None => DnsPacketAction::Pass,
                    Some(dns) => match relayed.response_packet(dns.as_slice()) {
                        None => DnsPacketAction::Pass,
                        Some(packet) => DnsPacketAction::Inject(packet),
                    },
                }
            },
            QueryDecision::Relay => DnsPacketAction::Relay(relayed),
        }
    }
}

/// A policy that neither blocks nor routes leaves every packet alone.
pub proof fn law_disabled_engine_passes(policy: DnsPolicyView, packet: Seq<u8>)
    requires
        !policy.enabled(),
    ensures
        packet_action(policy, packet) == DnsActionView::Pass,
{
}

/// The engine fails open: what is no whole IPv4 packet, or a fragment of one, passes.
pub proof fn law_unreadable_packets_pass(policy: DnsPolicyView, packet: Seq<u8>)
    requires
        !(parsed_ipv4(packet) matches Some(ip) && !ip.fragmented),
    ensures
        packet_action(policy, packet) == DnsActionView::Pass,
{
}

/// Bytes are summed by twos, the first of each counting 256 times; a last one alone
/// counts as if a zero stood behind it.
pub proof fn law_word_sum(bytes: Seq<u8>, hi: u8, lo: u8)
    requires
        bytes.len() % 2 == 0,
    ensures
        word_sum(Seq::empty()) == 0,
        word_sum(bytes + seq![hi, lo]) == word_sum(bytes) + hi * 256 + lo,
        word_sum(bytes + seq![hi]) == word_sum(bytes) + hi * 256,
{
    lemma_word_sum_concat(bytes, seq![hi, lo]);
    lemma_word_sum_concat(bytes, seq![hi]);
    assert(seq![hi, lo].skip(2) =~= Seq::<u8>::empty());
}

/// A checksum makes up for the sum of the bytes: together they are a multiple of
/// 65535. It is never zero.
pub proof fn law_checksum_makes_up(bytes: &[u8], value: u16)
    requires
        bytes@.len() <= 0x2_0000,
        call_ensures(checksum, (bytes,), value),
    ensures
        (word_sum(bytes@) + value) % 65_535 == 0,
        value > 0,
{
    lemma_makes_up(word_sum(bytes@));
}

proof fn lemma_makes_up(sum: nat)
    ensures
        (sum + checksum_of(sum)) % 65_535 == 0,
        0 < checksum_of(sum) <= 0xffff,
{
    if sum > 0 {
        let q = (sum - 1) / 65_535;
        assert(sum - 1 == 65_535 * q + (sum - 1) % 65_535);
    }
}

/// The checksum of a datagram covers the addresses, the protocol, the length and
/// the datagram.
pub proof fn law_udp_checksum(
    source: Ipv4Addr,
    destination: Ipv4Addr,
    segment: &[u8],
    value: u16,
)
    requires
        segment@.len() <= 0x1_0000,
        call_ensures(udp_checksum, (source, destination, segment), value),
    ensures
        (source.bits / 0x1_0000 + source.bits % 0x1_0000 + destination.bits / 0x1_0000
            + destination.bits % 0x1_0000 + 17 + segment@.len() + word_sum(segment@) + value)
            % 65_535 == 0,
        value > 0,
{
    lemma_makes_up(udp_sum(source, destination, segment@));
    lemma_address_words(source.bits);
    lemma_address_words(destination.bits);
}

proof fn lemma_address_words(bits: u32)
    ensures
        word_sum(be32_bytes(bits)) == bits / 0x1_0000 + bits % 0x1_0000,
{
    reveal_with_fuel(word_sum, 4);
    let b = be32_bytes(bits);
    assert(b.skip(2)[0] == b[2] && b.skip(2)[1] == b[3]);
    assert(b.skip(2).skip(2) =~= Seq::<u8>::empty());
    law_word_round_trip(bits);
    assert(bits == b[3] + b[2] * 0x100 + b[1] * 0x1_0000 + b[0] * 0x100_0000);
}

/// What an IPv4 packet says: the length of its header in the low half of its first
/// byte, its own in the third and fourth, the identification behind it, whether it
/// is a fragment, its protocol in the tenth and its addresses from the thirteenth
/// on. A packet of another version, or one that is shorter than it says, is none.
pub proof fn law_ipv4_fields(packet: &[u8], parsed: Option<Ipv4Packet>)
    requires
        call_ensures(Ipv4Packet::parse, (packet,), parsed),
    ensures
        ({
            let b = packet@;
            let header = 4 * (b[0] % 16);
            let total = b[2] * 256 + b[3];
            &&& parsed is Some <==> b.len() >= 20 && 0x45 <= b[0] <= 0x4f && header <= total
                <= b.len()
            &&& parsed matches Some(ip) ==> {
                &&& ip.source.bits == b[12] * 0x100_0000 + b[13] * 0x1_0000 + b[14] * 0x100 + b[15]
                &&& ip.destination.bits == b[16] * 0x100_0000 + b[17] * 0x1_0000 + b[18] * 0x100
                    + b[19]
                &&& ip.identification == b[4] * 256 + b[5]
                &&& ip.protocol == b[9]
                &&& ip.fragmented <==> b[7] != 0 || b[6] % 0x40 != 0
                &&& ip.payload@ == b.subrange(header, total)
            }
        }),
{
    if parsed is Some {
        let b = packet@;
        let ip = parsed->Some_0;
        assert(parsed_ipv4(b) == Some(ip@));
        crate::bytes::lemma_bytes_of_value(b[15], b[14], b[13], b[12]);
        crate::bytes::lemma_bytes_of_value(b[19], b[18], b[17], b[16]);
        let flags = b[6] * 256 + b[7];
        assert(flags % 0x4000 == (b[6] % 0x40) * 256 + b[7]) by (nonlinear_arith)
            requires
                flags == b[6] * 256 + b[7],
        ;
    }
}

/// What a datagram says: its ports in its first four bytes, and its length, with the
/// header of eight bytes, in the next two.
pub proof fn law_udp_fields(packet: &[u8], parsed: Option<UdpPacket>)
    requires
        call_ensures(UdpPacket::parse, (packet,), parsed),
    ensures
        ({
            let b = packet@;
            let length = b[4] * 256 + b[5];
            &&& parsed is Some <==> b.len() >= 8 && 8 <= length <= b.len()
            &&& parsed matches Some(udp) ==> {
                &&& udp.source_port == b[0] * 256 + b[1]
                &&& udp.destination_port == b[2] * 256 + b[3]
                &&& udp.payload@ == b.subrange(8, length)
            }
        }),
{
    if parsed is Some {
        assert(parsed_udp(packet@) == Some(parsed->Some_0@));
    }
}

/// An answer goes back to who asked, from where it was asked: it is a datagram of
/// IPv4 that is no fragment, with 64 hops to go, between the same ports.
pub proof fn law_answer_goes_back(
    request: DnsRelayRequest,
    dns_response: &[u8],
    packet: Option<Vec<u8>>,
)
    requires
        call_ensures(DnsRelayRequest::response_packet, (&request, dns_response), packet),
    ensures
        packet is Some <==> dns_response@.len() <= 65_507,
        packet matches Some(bytes) ==> {
            let b = bytes@;
            &&& b.len() == 28 + dns_response@.len()
            &&& b[0] == 0x45 && b[6] == 0x40 && b[7] == 0 && b[8] == 64 && b[9] == 17
            &&& b.skip(28) == dns_response@
            &&& parsed_ipv4(b) matches Some(ip)
            &&& ip.source == request@.destination && ip.destination == request@.source
            &&& ip.identification == request@.identification
            &&& parsed_udp(ip.payload) matches Some(udp)
            &&& udp.source_port == request@.destination_port && udp.destination_port
                == request@.source_port && udp.payload == dns_response@
        },
{
    if packet is Some {
        let view = request@;
        law_response_parses(
            view.destination,
            view.source,
            view.destination_port,
            view.source_port,
            view.identification,
            dns_response@,
        );
        let b = packet->Some_0@;
        assert(view.answer(dns_response@) == Some(b));
        assert(b.skip(28) =~= dns_response@);
    }
}

/// What is decided on a question. An answer, and what does not ask one thing,
/// passes. A name that is blocked does not exist. Where the engine routes names an
/// IPv6 address is answered with none, and a name outside the tunnel is relayed.
pub proof fn law_decided_questions(
    policy: &EffectiveDnsPolicy,
    message: &DnsMessage,
    decision: QueryDecision,
)
    requires
        call_ensures(decide_query, (policy, message), decision),
    ensures
        message.response || message.questions@.len() != 1 ==> decision is Pass,
        !message.response && message.questions@.len() == 1 ==> {
            let name = message.questions@[0].name@;
            let kind = message.questions@[0].record_type;
            &&& policy@.blocks(name) ==> decision == QueryDecision::Answer(3)
            &&& !policy@.blocks(name) && policy@.routes_dns() && kind == 28 ==> decision
                == QueryDecision::Answer(0)
            &&& !policy@.blocks(name) && !policy@.routes_dns() ==> decision is Pass
            &&& !policy@.blocks(name) && policy@.routes_dns() && kind != 28 && policy@.tunnels(name)
                ==> decision is Pass
            &&& !policy@.blocks(name) && policy@.routes_dns() && kind != 28 && !policy@.tunnels(
                name,
            ) ==> decision is Relay
        },
{
    let views = question_views(message.questions@);
    assert(views.len() == message.questions@.len());
    if message.questions@.len() == 1 {
        assert(views[0] == message.questions@[0]@);
    }
}

/// Encrypted DNS on its port is dropped where it is blocked, over TCP and UDP; other
/// packets that are no datagrams to port 53 pass.
pub proof fn law_engine_packets(
    engine: DnsPacketEngine,
    packet: &[u8],
    action: DnsPacketAction,
    header: int,
)
    requires
        call_ensures(DnsPacketEngine::process, (&engine, packet), action),
        packet@.len() >= 20,
        packet@[0] / 16 == 4,
        header == 4 * (packet@[0] % 16),
        20 <= header,
        header + 8 <= packet@[2] * 256 + packet@[3] <= packet@.len(),
        packet@[6] % 0x40 == 0,
        packet@[7] == 0,
    ensures
        ({
            let b = packet@;
            let port = b[header + 2] * 256 + b[header + 3];
            let carried = b[9] == 6 || b[9] == 17;
            &&& engine@.enabled() && engine@.block_encrypted_dns && carried && port == 853
                ==> action is Drop
            &&& action is Drop ==> carried && port == 853 && engine@.block_encrypted_dns
            &&& b[9] != 17 && port != 853 ==> action is Pass
            &&& b[9] == 17 && port != 53 && port != 853 ==> action is Pass
            &&& !engine@.enabled() ==> action is Pass
        }),
{
    let b = packet@;
    let total = b[2] * 256 + b[3];
    let flags = b[6] * 256 + b[7];
    assert(flags % 0x4000 == 0) by (nonlinear_arith)
        requires
            flags == b[6] * 256 + b[7],
            b[6] % 0x40 == 0,
            b[7] == 0,
    ;
    let ip = parsed_ipv4(b)->Some_0;
    assert(parsed_ipv4(b) is Some);
    assert(ip.payload[2] == b[header + 2] && ip.payload[3] == b[header + 3]);
    assert(!ip.fragmented);
}

/// A reply that is made up repeats the question under its identifier, and says that
/// it is an answer, with the given code.
pub proof fn law_made_up_reply(request: &DnsMessage, code: u16, reply: DnsMessage)
    requires
        call_ensures(synthetic_response, (request, code), reply),
    ensures
        reply.id == request.id && reply.op_code == request.op_code && reply.response
            && !reply.truncated,
        reply.recursion_desired == request.recursion_desired && reply.recursion_available,
        reply.response_code == code,
        reply@.questions == request@.questions,
{
    assert(reply@ == reply_to(request@, code));
}

} // verus!
