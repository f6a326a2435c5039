//! Network addresses as plain values.

use crate::text::{chars_of, parse_number, push_decimal, push_text, split};
use crate::text::{
    decimal, digits_value, is_digit, lemma_decimal_digits, lemma_last_piece, lemma_only_piece,
    pieces, views,
};
use hickory_proto::rr::rdata::AAAA;
use vstd::prelude::*;

verus! {

/// An IPv4 address as a 32-bit number, the first octet most significant.
#[derive(Debug, Clone, Copy, PartialEq, Eq, Structural)]
pub struct Ipv4Addr {
    pub bits: u32,
}

/// An IPv6 address as a 128-bit number, the first segment most significant.
#[derive(Debug, Clone, Copy, PartialEq, Eq, Structural)]
pub struct Ipv6Addr {
    pub bits: u128,
}

/// An address of either family.
#[derive(Debug, Clone, Copy, PartialEq, Eq, Structural)]
pub enum IpAddr {
    V4(Ipv4Addr),
    V6(Ipv6Addr),
}

/// An address with a transport port.
#[derive(Debug, Clone, Copy, PartialEq, Eq, Structural)]
pub struct SocketAddr {
    pub ip: IpAddr,
    pub port: u16,
}

/// One octet of an IPv4 address, the first at position zero.
pub open spec fn octet(address: Ipv4Addr, i: int) -> nat {
    if i == 0 {
        (address.bits / 0x100_0000) as nat
    } else if i == 1 {
        (address.bits / 0x1_0000 % 0x100) as nat
    } else if i == 2 {
        (address.bits / 0x100 % 0x100) as nat
    } else {
        (address.bits % 0x100) as nat
    }
}

/// An IPv4 address in dotted decimal notation.
pub open spec fn ipv4_chars(address: Ipv4Addr) -> Seq<char> {
    decimal(octet(address, 0)) + seq!['.'] + decimal(octet(address, 1)) + seq!['.'] + decimal(
        octet(address, 2),
    ) + seq!['.'] + decimal(octet(address, 3))
}

impl Ipv4Addr {
    pub fn new(a: u8, b: u8, c: u8, d: u8) -> (address: Self)
        ensures
            address.bits == a * 0x100_0000 + b * 0x1_0000 + c * 0x100 + d,
    {
        Ipv4Addr {
            bits: (a as u32) * 0x100_0000 + (b as u32) * 0x1_0000 + (c as u32) * 0x100 + (d as u32),
        }
    }
}

pub fn ipv4_text(address: Ipv4Addr) -> (text: String)
    ensures
        text@ == ipv4_chars(address),
{
    let mut text = String::new();
    push_decimal(&mut text, (address.bits / 0x100_0000) as u64);
    text.push('.');
    push_decimal(&mut text, (address.bits / 0x1_0000 % 0x100) as u64);
    text.push('.');
    push_decimal(&mut text, (address.bits / 0x100 % 0x100) as u64);
    text.push('.');
    push_decimal(&mut text, (address.bits % 0x100) as u64);
    assert(text@ =~= ipv4_chars(address));
    text
}

/// The octet that a text writes: up to three digits, without a zero before
/// others.
pub open spec fn octet_of(text: Seq<char>) -> Option<u8> {
    if 1 <= text.len() <= 3 && (text.len() == 1 || text[0] != '0') && (forall|i: int|
        0 <= i < text.len() ==> is_digit(#[trigger] text[i])) && digits_value(text) <= 255 {
        Some(digits_value(text) as u8)
    } else {
        None
    }
}

/// The IPv4 address that a text writes in dotted decimal notation, as a number.
pub open spec fn ipv4_of_text(text: Seq<char>) -> Option<u32> {
    let parts = pieces(text, '.');
    if parts.len() == 4 {
        match (octet_of(parts[0]), octet_of(parts[1]), octet_of(parts[2]), octet_of(parts[3])) {
            (Some(a), Some(b), Some(c), Some(d)) => Some(
                (a * 0x100_0000 + b * 0x1_0000 + c * 0x100 + d) as u32,
            ),
            _ => None,
        }
    } else {
        None
    }
}

/// The IPv6 address that a text writes, as a number.
pub uninterp spec fn ipv6_of_text(text: Seq<char>) -> Option<u128>;

/// An IPv6 address as it is written.
pub uninterp spec fn ipv6_chars(bits: u128) -> Seq<char>;

fn parse_octet(chars: &[char]) -> (value: Option<u8>)
    ensures
        value == octet_of(chars@),
{
    if chars.len() == 0 || chars.len() > 3 || (chars.len() > 1 && chars[0] == '0') {
        return None;
    }
    if chars[0] == '+' {
        assert(!is_digit(chars@[0]));
        return None;
    }
    match parse_number(chars, 255) {
        Some(value) => Some(value as u8),
        None => None,
    }
}

fn parse_ipv4(text: &str) -> (bits: Option<u32>)
    ensures
        bits == ipv4_of_text(text@),
{
    let parts = split(&chars_of(text), '.');
    if parts.len() != 4 {
        return None;
    }
    assert(forall|i: int| 0 <= i < 4 ==> views(parts@)[i] == #[trigger] parts@[i]@);
    match (
        parse_octet(&parts[0]),
        parse_octet(&parts[1]),
        parse_octet(&parts[2]),
        parse_octet(&parts[3]),
    ) {
        (Some(a), Some(b), Some(c), Some(d)) => Some(Ipv4Addr::new(a, b, c, d).bits),
        _ => None,
    }
}

proof fn lemma_octet_read_back(value: nat)
    requires
        value < 256,
    ensures
        octet_of(decimal(value)) == Some(value as u8),
        !decimal(value).contains('.'),
{
    lemma_decimal_digits(value);
    if decimal(value).contains('.') {
        let i = choose|i: int| 0 <= i < decimal(value).len() && decimal(value)[i] == '.';
        assert(is_digit(decimal(value)[i]));
    }
}

proof fn lemma_dotted_pieces(p: Seq<char>, q: Seq<char>, r: Seq<char>, s: Seq<char>)
    requires
        !p.contains('.'),
        !q.contains('.'),
        !r.contains('.'),
        !s.contains('.'),
    ensures
        pieces(p + seq!['.'] + q + seq!['.'] + r + seq!['.'] + s, '.') == seq![p, q, r, s],
{
    lemma_only_piece(p, '.');
    lemma_last_piece(p, '.', q);
    lemma_last_piece(p + seq!['.'] + q, '.', r);
    lemma_last_piece(p + seq!['.'] + q + seq!['.'] + r, '.', s);
    assert(seq![p].push(q).push(r).push(s) =~= seq![p, q, r, s]);
}

/// An IPv4 address is read back from its dotted decimal notation.
pub proof fn law_ipv4_read_back(address: Ipv4Addr)
    ensures
        ipv4_of_text(ipv4_chars(address)) == Some(address.bits),
        ip_of_text(ip_chars(IpAddr::V4(address))) == Some(IpAddr::V4(address)),
{
    let (a, b, c, d) = (octet(address, 0), octet(address, 1), octet(address, 2), octet(address, 3));
    lemma_octet_read_back(a);
    lemma_octet_read_back(b);
    lemma_octet_read_back(c);
    lemma_octet_read_back(d);
    lemma_dotted_pieces(decimal(a), decimal(b), decimal(c), decimal(d));
}

/// `hickory_proto::rr::rdata::AAAA::from_str` reads an IPv6 address from text.
#[verifier::external_body]
fn parse_ipv6(text: &str) -> (bits: Option<u128>)
    ensures
        bits == ipv6_of_text(text@),
{
    text.parse::<AAAA>().ok().map(|address| u128::from(address.0))
}

/// `hickory_proto::rr::rdata::AAAA` shows an IPv6 address in its usual notation.
#[verifier::external_body]
fn ipv6_text(bits: u128) -> (text: String)
    ensures
        text@ == ipv6_chars(bits),
{
    AAAA(bits.into()).to_string()
}

/// The address that a text writes: an IPv4 address, else an IPv6 address.
pub open spec fn ip_of_text(text: Seq<char>) -> Option<IpAddr> {
    match ipv4_of_text(text) {
        Some(bits) => Some(IpAddr::V4(Ipv4Addr { bits })),
        None => match ipv6_of_text(text) {
            Some(bits) => Some(IpAddr::V6(Ipv6Addr { bits })),
            None => None,
        },
    }
}

/// An address as it is written.
pub open spec fn ip_chars(address: IpAddr) -> Seq<char> {
    match address {
        IpAddr::V4(v4) => ipv4_chars(v4),
        IpAddr::V6(v6) => ipv6_chars(v6.bits),
    }
}

pub fn parse_ip(text: &str) -> (address: Option<IpAddr>)
    ensures
        address == ip_of_text(text@),
{
    match parse_ipv4(text) {
        Some(bits) => Some(IpAddr::V4(Ipv4Addr { bits })),
        None => match parse_ipv6(text) {
            Some(bits) => Some(IpAddr::V6(Ipv6Addr { bits })),
            None => None,
        },
    }
}

pub fn ip_text(address: IpAddr) -> (text: String)
    ensures
        text@ == ip_chars(address),
{
    match address {
        IpAddr::V4(v4) => ipv4_text(v4),
        IpAddr::V6(v6) => ipv6_text(v6.bits),
    }
}

/// The address that stands for no address.
pub open spec fn unspecified(address: IpAddr) -> bool {
    match address {
        IpAddr::V4(v4) => v4.bits == 0,
        IpAddr::V6(v6) => v6.bits == 0,
    }
}

/// An address of this host: 127.0.0.0/8 or ::1.
pub open spec fn loopback(address: IpAddr) -> bool {
    match address {
        IpAddr::V4(v4) => v4.bits / 0x100_0000 == 127,
        IpAddr::V6(v6) => v6.bits == 1,
    }
}

/// A multicast address: 224.0.0.0/4 or ff00::/8.
pub open spec fn multicast(address: IpAddr) -> bool {
    match address {
        IpAddr::V4(v4) => v4.bits / 0x1000_0000 == 14,
        IpAddr::V6(v6) => v6.bits / 0x100_0000_0000_0000_0000_0000_0000_0000 == 0xff,
    }
}

impl IpAddr {
    pub fn is_unspecified(&self) -> (answer: bool)
        ensures
            answer == unspecified(*self),
    {
        match self {
            IpAddr::V4(v4) => v4.bits == 0,
            IpAddr::V6(v6) => v6.bits == 0,
        }
    }

    pub fn is_loopback(&self) -> (answer: bool)
        ensures
            answer == loopback(*self),
    {
        match self {
            IpAddr::V4(v4) => v4.bits / 0x100_0000 == 127,
            IpAddr::V6(v6) => v6.bits == 1,
        }
    }

    pub fn is_multicast(&self) -> (answer: bool)
        ensures
            answer == multicast(*self),
    {
        match self {
            IpAddr::V4(v4) => v4.bits / 0x1000_0000 == 14,
            IpAddr::V6(v6) => v6.bits / 0x100_0000_0000_0000_0000_0000_0000_0000 == 0xff,
        }
    }
}

/// An address with a port as it is written.
pub open spec fn socket_chars(address: SocketAddr) -> Seq<char> {
    match address.ip {
        IpAddr::V4(v4) => ipv4_chars(v4) + seq![':'] + decimal(address.port as nat),
        IpAddr::V6(v6) => seq!['['] + ipv6_chars(v6.bits) + seq![']', ':'] + decimal(
            address.port as nat,
        ),
    }
}

pub fn socket_text(address: SocketAddr) -> (text: String)
    ensures
        text@ == socket_chars(address),
{
    let shown = ip_text(address.ip);
    let mut text = String::new();
    match address.ip {
        IpAddr::V4(_) => {
            push_text(&mut text, &shown);
            text.push(':');
        },
        IpAddr::V6(_) => {
            text.push('[');
            push_text(&mut text, &shown);
            text.push(']');
            text.push(':');
        },
    }
    push_decimal(&mut text, address.port as u64);
    assert(text@ =~= socket_chars(address));
    text
}

impl IpAddr {
    pub fn is_ipv4(&self) -> (answer: bool)
        ensures
            answer == (*self is V4),
    {
        match self {
            IpAddr::V4(_) => true,
            IpAddr::V6(_) => false,
        }
    }
}

/// Dotted decimal notation is made of digits and dots.
pub proof fn lemma_dotted_chars(address: Ipv4Addr)
    ensures
        ipv4_chars(address).len() > 0,
        forall|k: int|
            0 <= k < ipv4_chars(address).len() ==> is_digit(#[trigger] ipv4_chars(address)[k])
                || ipv4_chars(address)[k] == '.',
{
    let (p, q) = (decimal(octet(address, 0)), decimal(octet(address, 1)));
    let (r, s) = (decimal(octet(address, 2)), decimal(octet(address, 3)));
    lemma_decimal_digits(octet(address, 0));
    lemma_decimal_digits(octet(address, 1));
    lemma_decimal_digits(octet(address, 2));
    lemma_decimal_digits(octet(address, 3));
    let text = ipv4_chars(address);
    assert forall|k: int| 0 <= k < text.len() implies is_digit(#[trigger] text[k]) || text[k]
        == '.' by {
        let (b, c, d) = (p.len() + 1, p.len() + q.len() + 2, p.len() + q.len() + r.len() + 3);
        if k < p.len() {
            assert(text[k] == p[k]);
        } else if b <= k < b + q.len() {
            assert(text[k] == q[k - b]);
        } else if c <= k < c + r.len() {
            assert(text[k] == r[k - c]);
        } else if d <= k {
            assert(text[k] == s[k - d]);
        }
    }
}

/// An address is written in its four numbers, from the first to the last, and a
/// socket's with its port behind a colon.
pub proof fn law_address_text(a: u8, b: u8, c: u8, d: u8, address: Ipv4Addr, port: u16)
    requires
        call_ensures(Ipv4Addr::new, (a, b, c, d), address),
    ensures
        ipv4_chars(address) == decimal(a as nat) + seq!['.'] + decimal(b as nat) + seq!['.']
            + decimal(c as nat) + seq!['.'] + decimal(d as nat),
        socket_chars(SocketAddr { ip: IpAddr::V4(address), port }) == ipv4_chars(address) + seq![
            ':',
        ] + decimal(port as nat),
{
    let bits = address.bits;
    assert(bits == d + c * 0x100 + b * 0x1_0000 + a * 0x100_0000);
    assert(bits / 0x100_0000 == a && bits / 0x1_0000 % 0x100 == b && bits / 0x100 % 0x100 == c
        && bits % 0x100 == d);
}

/// The kinds of addresses: zero is none, 127.0.0.0/8 and ::1 are the host itself,
/// and 224.0.0.0/4 and ff00::/8 are groups.
pub proof fn law_address_kinds(address: IpAddr, none: bool, own: bool, group: bool, four: bool)
    requires
        call_ensures(IpAddr::is_unspecified, (&address,), none),
        call_ensures(IpAddr::is_loopback, (&address,), own),
        call_ensures(IpAddr::is_multicast, (&address,), group),
        call_ensures(IpAddr::is_ipv4, (&address,), four),
    ensures
        address matches IpAddr::V4(v4) ==> {
            &&& four
            &&& none <==> v4.bits == 0
            &&& own <==> 0x7f00_0000 <= v4.bits <= 0x7fff_ffff
            &&& group <==> 0xe000_0000 <= v4.bits <= 0xefff_ffff
        },
        address matches IpAddr::V6(v6) ==> {
            &&& !four
            &&& none <==> v6.bits == 0
            &&& own <==> v6.bits == 1
            &&& group <==> v6.bits >= 0xff00_0000_0000_0000_0000_0000_0000_0000
        },
{
}

} // verus!
