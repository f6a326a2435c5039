//! How forwarded connections are resolved and set up.
//!
//! Points in time and durations are nanoseconds.

use crate::cli::connect::ConnectKind;
use crate::cli::forward::Target;
use crate::cli::forward::{target_of, TargetScheme, TargetView};
use crate::dns::policy::{first_occurrences, law_first_occurrences, DnsPolicyView};
use crate::dns::policy::EffectiveDnsPolicy;
use crate::dns::resolver::{ResolveVia, ResolverConfig};
use crate::dns::resolver::resolver_error;
use crate::dns::transport::DNS_PORT;
use crate::cli::uri::parse_url;
use crate::client::SessionEnd;
use crate::cli::uri::{url_parsed, UrlView};
use crate::error::{invalid_config, Error};
use crate::error::is_invalid_config;
use crate::net::{ipv4_text, parse_ip, socket_text, IpAddr, Ipv4Addr, SocketAddr};
use crate::net::{
    ip_of_text, ipv4_chars, loopback, multicast, octet, socket_chars, unspecified,
};
use crate::text::{chars_of, decimal_text, join2, join3, push_text, same_chars, to_lower};
use crate::text::{decimal, lemma_filter_contains, lower, texts};
use vstd::arithmetic::power2::{lemma2_to64, lemma_pow2_unfold, pow2};
use vstd::prelude::*;
use vstd::slice::slice_to_vec;

verus! {

pub const MAX_CONNECTIONS: usize = 256;

pub const SYSTEM_DNS_TTL_NS: u64 = 60_000_000_000;

pub const MIN_DNS_TTL_SECS: u64 = 5;

pub const MAX_DNS_TTL_SECS: u64 = 3_600;

pub const NANOS_PER_SEC: u64 = 1_000_000_000;

pub const MIN_ATTEMPT_NS: u64 = 1_000_000;

/// Who resolves the target's name.
#[derive(Debug, Clone, Copy, PartialEq, Eq, Structural)]
pub enum DnsMode {
    Auto,
    Iwan,
    System,
}

/// Name servers for the target's name.
#[derive(Debug, Clone)]
pub struct DnsConfig {
    pub mode: DnsMode,
    pub servers: Vec<SocketAddr>,
    pub timeout_ms: u64,
}

/// A name server that can be asked.
pub open spec fn usable_server(server: SocketAddr) -> bool {
    server.port != 0 && !unspecified(server.ip) && !multicast(server.ip)
}

/// The message on why name servers cannot be used.
pub open spec fn dns_config_error(servers: Seq<SocketAddr>, timeout_ms: u64) -> Option<Seq<char>> {
    if timeout_ms == 0 {
        Some("DNS timeout must be greater than zero"@)
    } else if exists|i: int| 0 <= i < servers.len() && !usable_server(#[trigger] servers[i]) {
        Some("DNS servers must be unicast addresses with a nonzero port"@)
    } else {
        None
    }
}

impl DnsConfig {
    pub fn new(mode: DnsMode, servers: Vec<SocketAddr>, timeout_ms: u64) -> (result: Result<
        Self,
        Error,
    >)
        ensures
            match result {
                Ok(config) => dns_config_error(servers@, timeout_ms) is None && config == (
                DnsConfig { mode, servers, timeout_ms }),
                Err(error) => dns_config_error(servers@, timeout_ms) matches Some(message)
                    && is_invalid_config(error, message),
            },
    {
        if timeout_ms == 0 {
            return Err(invalid_config("DNS timeout must be greater than zero"));
        }
        let mut i: usize = 0;
        while i < servers.len()
            invariant
                timeout_ms != 0,
                i <= servers@.len(),
                forall|k: int| 0 <= k < i ==> usable_server(#[trigger] servers@[k]),
            decreases servers@.len() - i,
        {
            let server = servers[i];
            if server.port == 0 || server.ip.is_unspecified() || server.ip.is_multicast() {
                assert(!usable_server(servers@[i as int]));
                return Err(
                    invalid_config("DNS servers must be unicast addresses with a nonzero port"),
                );
            }
            i += 1;
        }
        Ok(DnsConfig { mode, servers, timeout_ms })
    }
}

/// Everything that a forward is set up from. Certificates are named by the
/// files that hold them.
pub struct ForwardConfig {
    pub listen: SocketAddr,
    pub target: Target,
    pub dns: DnsConfig,
    pub ca_certificates: Vec<String>,
    pub connect_timeout_ms: u64,
}

/// The message on why a forward cannot be set up.
pub open spec fn forward_error(
    listen: SocketAddr,
    target: Seq<char>,
    certificates: nat,
    connect_timeout_ms: u64,
) -> Option<Seq<char>> {
    if !loopback(listen.ip) {
        Some(
            "forward listen address "@ + socket_chars(listen) + " is not a loopback address"@,
        )
    } else if connect_timeout_ms == 0 {
        Some("connect timeout must be greater than zero"@)
    } else {
        match target_of(target) {
            Ok(parsed) => if certificates > 0 && parsed.scheme != TargetScheme::Https {
                Some("--ca-cert is only valid for an https:// target"@)
            } else {
                None
            },
            Err(message) => Some(message),
        }
    }
}

impl ForwardConfig {
    pub fn new(
        listen: SocketAddr,
        target: &str,
        dns: DnsConfig,
        ca_certificates: Vec<String>,
        connect_timeout_ms: u64,
    ) -> (result: Result<Self, Error>)
        ensures
            match result {
                Ok(config) => {
                    &&& forward_error(
                        listen,
                        target@,
                        ca_certificates@.len(),
                        connect_timeout_ms,
                    ) is None
                    &&& config.listen == listen
                    &&& target_of(target@) == Ok::<TargetView, Seq<char>>(config.target@)
                    &&& config.dns == dns
                    &&& config.ca_certificates == ca_certificates
                    &&& config.connect_timeout_ms == connect_timeout_ms
                },
                Err(error) => forward_error(
                    listen,
                    target@,
                    ca_certificates@.len(),
                    connect_timeout_ms,
                ) matches Some(message) && is_invalid_config(error, message),
            },
    {
        if !listen.ip.is_loopback() {
            let shown = socket_text(listen);
            return Err(
                Error::InvalidConfig(
                    join3("forward listen address ", &shown, " is not a loopback address"),
                ),
            );
        }
        if connect_timeout_ms == 0 {
            return Err(invalid_config("connect timeout must be greater than zero"));
        }
        let target = match Target::parse(target) {
            Ok(target) => target,
            Err(error) => {
                return Err(error);
            },
        };
        if ca_certificates.len() > 0 && !target.uses_tls() {
            return Err(invalid_config("--ca-cert is only valid for an https:// target"));
        }
        Ok(ForwardConfig { listen, target, dns, ca_certificates, connect_timeout_ms })
    }
}

/// Name servers with those of a session behind them, each once.
pub open spec fn with_session_servers(
    configured: Seq<SocketAddr>,
    session: Seq<IpAddr>,
) -> Seq<SocketAddr>
    decreases session.len(),
{
    if session.len() == 0 {
        configured
    } else {
        let before = with_session_servers(configured, session.drop_last());
        let server = SocketAddr { ip: session.last(), port: DNS_PORT };
        if unspecified(server.ip) || multicast(server.ip) || before.contains(server) {
            before
        } else {
            before.push(server)
        }
    }
}

fn holds_address(list: &Vec<SocketAddr>, wanted: SocketAddr) -> (answer: bool)
    ensures
        answer == list@.contains(wanted),
{
    let mut i: usize = 0;
    while i < list.len()
        invariant
            i <= list@.len(),
            forall|k: int| 0 <= k < i ==> list@[k] != wanted,
        decreases list@.len() - i,
    {
        if list[i] == wanted {
            assert(list@[i as int] == wanted);
            return true;
        }
        i += 1;
    }
    false
}

pub fn effective_dns_servers(configured: &[SocketAddr], session: &[IpAddr]) -> (servers: Vec<
    SocketAddr,
>)
    ensures
        servers@ == with_session_servers(configured@, session@),
{
    let mut servers = slice_to_vec(configured);
    let mut i: usize = 0;
    assert(session@.take(0) =~= Seq::<IpAddr>::empty());
    while i < session.len()
        invariant
            i <= session@.len(),
            servers@ == with_session_servers(configured@, session@.take(i as int)),
        decreases session@.len() - i,
    {
        let address = session[i];
        assert(session@.take(i + 1).drop_last() =~= session@.take(i as int));
        let server = SocketAddr { ip: address, port: DNS_PORT };
        if !address.is_unspecified() && !address.is_multicast() && !holds_address(
            &servers,
            server,
        ) {
            servers.push(server);
        }
        i += 1;
    }
    assert(session@.take(i as int) =~= session@);
    servers
}

/// What happens to a connection that arrives.
#[derive(Debug, Clone, Copy, PartialEq, Eq, Structural)]
pub enum CapacityDecision {
    Accept,
    RejectAndWarn,
    Reject,
}

/// A connection is accepted below the limit. Above it, the first one that is
/// turned away is warned about.
pub fn capacity_decision(active: usize, warning_active: &mut bool) -> (decision: CapacityDecision)
    ensures
        decision == if active < MAX_CONNECTIONS {
            CapacityDecision::Accept
        } else if *old(warning_active) {
            CapacityDecision::Reject
        } else {
            CapacityDecision::RejectAndWarn
        },
        *final(warning_active) == (*old(warning_active) || active >= MAX_CONNECTIONS),
{
    if active < MAX_CONNECTIONS {
        CapacityDecision::Accept
    } else if *warning_active {
        CapacityDecision::Reject
    } else {
        *warning_active = true;
        CapacityDecision::RejectAndWarn
    }
}

/// The next overflow is warned about again once there was room.
pub fn reset_capacity_warning(active: usize, warning_active: &mut bool)
    ensures
        *final(warning_active) == (*old(warning_active) && active >= MAX_CONNECTIONS),
{
    if active < MAX_CONNECTIONS {
        *warning_active = false;
    }
}

/// How many addresses a network with a prefix of a given length has.
pub open spec fn network_size(prefix: nat) -> nat
    decreases 32 - prefix,
{
    if prefix >= 32 {
        1
    } else {
        2 * network_size(prefix + 1)
    }
}

/// Whether a mask has its leading bits set, as many as a prefix is long, and
/// no others.
pub open spec fn is_mask_of(mask: Ipv4Addr, prefix: nat) -> bool {
    prefix <= 32 && mask.bits == 0x1_0000_0000 - network_size(prefix)
}

/// The length of the prefix that a mask stands for.
pub fn ipv4_mask_prefix(mask: Ipv4Addr) -> (result: Result<u8, Error>)
    ensures
        match result {
            Ok(prefix) => is_mask_of(mask, prefix as nat),
            Err(error) => (forall|prefix: nat| !is_mask_of(mask, prefix)) && is_invalid_config(
                error,
                "non-contiguous IPv4 netmask "@ + ipv4_chars(mask),
            ),
        },
{
    let bits: u64 = mask.bits as u64;
    let mut prefix: u8 = 32;
    let mut size: u64 = 1;
    assert(lower_size(32) == 0x1_0000_0000) by {
        reveal_with_fuel(lower_size, 33);
    }
    loop
        invariant
            bits == mask.bits,
            prefix <= 32,
            size == network_size(prefix as nat),
            size <= 0x1_0000_0000,
            prefix > 0 ==> size <= 0x8000_0000,
            size * lower_size(prefix as nat) == 0x1_0000_0000,
            forall|other: nat| prefix < other <= 32 ==> !is_mask_of(mask, other),
        decreases prefix,
    {
        if bits == 0x1_0000_0000 - size {
            return Ok(prefix);
        }
        assert(!is_mask_of(mask, prefix as nat));
        if prefix == 0 {
            let shown = ipv4_text(mask);
            return Err(Error::InvalidConfig(join2("non-contiguous IPv4 netmask ", &shown)));
        }
        let ghost old_size = size as int;
        let ghost below = lower_size((prefix - 1) as nat) as int;
        prefix -= 1;
        size *= 2;
        proof {
            assert(network_size(prefix as nat) == 2 * network_size((prefix + 1) as nat));
            assert(lower_size((prefix + 1) as nat) == 2 * below);
            assert(old_size * (2 * below) == (old_size * 2) * below) by (nonlinear_arith);
            if prefix > 0 {
                assert(below >= 2) by {
                    lemma_lower_size(prefix as nat);
                }
                assert(size * below == 0x1_0000_0000);
                assert(size <= 0x8000_0000) by (nonlinear_arith)
                    requires
                        size * below == 0x1_0000_0000,
                        below >= 2,
                        size >= 0,
                ;
            } else {
                assert(size * below == 0x1_0000_0000);
            }
        }
    }
}

/// How many networks with a prefix of a given length there are.
spec fn lower_size(prefix: nat) -> nat
    decreases prefix,
{
    if prefix == 0 {
        1
    } else {
        2 * lower_size((prefix - 1) as nat)
    }
}

proof fn lemma_lower_size(prefix: nat)
    ensures
        lower_size(prefix) >= 1,
        prefix > 0 ==> lower_size(prefix) >= 2,
    decreases prefix,
{
    if prefix > 0 {
        lemma_lower_size((prefix - 1) as nat);
    }
}

/// The prefix of the address in user space: that of the session's mask, else
/// the address alone.
pub fn userspace_prefix(address: IpAddr, netmask: Option<Ipv4Addr>) -> (result: Result<u8, Error>)
    ensures
        match address {
            IpAddr::V4(_) => match netmask {
                Some(mask) => match result {
                    Ok(prefix) => is_mask_of(mask, prefix as nat),
                    Err(error) => (forall|prefix: nat| !is_mask_of(mask, prefix))
                        && is_invalid_config(
                        error,
                        "non-contiguous IPv4 netmask "@ + ipv4_chars(mask),
                    ),
                },
                None => result == Ok::<u8, Error>(32),
            },
            IpAddr::V6(_) => result == Ok::<u8, Error>(128),
        },
{
    match address {
        IpAddr::V4(_) => match netmask {
            Some(mask) => ipv4_mask_prefix(mask),
            None => Ok(32),
        },
        IpAddr::V6(_) => Ok(128),
    }
}

/// Whether two addresses are of one family.
pub open spec fn same_family(left: IpAddr, right: IpAddr) -> bool {
    left is V4 == right is V4
}

/// The gateway of a session, where it is of the address's family.
pub fn userspace_gateway(address: IpAddr, gateway: Option<IpAddr>) -> (used: Option<IpAddr>)
    ensures
        used == if gateway is Some && same_family(gateway->Some_0, address) {
            gateway
        } else {
            None
        },
{
    match gateway {
        Some(ip) => if ip.is_ipv4() == address.is_ipv4() {
            Some(ip)
        } else {
            None
        },
        None => None,
    }
}

/// A seed from the clock and the session.
pub fn session_random_seed(time: u64, token: u32, session_id: u16) -> (seed: u64)
    ensures
        seed == (time ^ ((token as u64) * 0x1_0000) as u64) ^ (session_id as u64),
{
    time ^ ((token as u64) * 0x1_0000) ^ (session_id as u64)
}

/// Whether an address is one of those that benchmarks use, 198.18.0.0/15.
pub open spec fn is_benchmark(address: IpAddr) -> bool {
    match address {
        IpAddr::V4(v4) => octet(v4, 0) == 198 && (octet(v4, 1) == 18 || octet(v4, 1) == 19),
        IpAddr::V6(_) => false,
    }
}

pub fn is_ipv4_benchmark_address(address: IpAddr) -> (answer: bool)
    ensures
        answer == is_benchmark(address),
{
    match address {
        IpAddr::V4(v4) => {
            let first: u32 = v4.bits / 0x100_0000;
            let second: u32 = v4.bits / 0x1_0000 % 0x100;
            first == 198 && (second == 18 || second == 19)
        },
        IpAddr::V6(_) => false,
    }
}

/// For how many seconds an answer is kept: as long as it says, within limits.
pub fn clamp_dns_ttl(ttl_secs: u64) -> (kept: u64)
    ensures
        kept == if ttl_secs < MIN_DNS_TTL_SECS {
            MIN_DNS_TTL_SECS
        } else if ttl_secs > MAX_DNS_TTL_SECS {
            MAX_DNS_TTL_SECS
        } else {
            ttl_secs
        },
{
    if ttl_secs < MIN_DNS_TTL_SECS {
        MIN_DNS_TTL_SECS
    } else if ttl_secs > MAX_DNS_TTL_SECS {
        MAX_DNS_TTL_SECS
    } else {
        ttl_secs
    }
}

/// The addresses of one family, in order.
pub open spec fn of_family(list: Seq<SocketAddr>, ipv4: bool) -> Seq<SocketAddr> {
    list.filter(|address: SocketAddr| address.ip is V4 == ipv4)
}

/// The addresses that a session can reach: those of its family, each once.
pub open spec fn normalized_addresses(list: Seq<SocketAddr>, ipv4: bool) -> Seq<SocketAddr> {
    first_occurrences(of_family(list, ipv4))
}

/// Keeps the addresses of one family.
pub fn keep_family(list: &[SocketAddr], ipv4: bool) -> (kept: Vec<SocketAddr>)
    ensures
        kept@ == of_family(list@, ipv4),
{
    let ghost wanted = |address: SocketAddr| address.ip is V4 == ipv4;
    let mut kept: Vec<SocketAddr> = Vec::new();
    let mut i: usize = 0;
    proof {
        reveal(Seq::filter);
        assert(kept@ =~= list@.take(0).filter(wanted));
    }
    while i < list.len()
        invariant
            i <= list@.len(),
            wanted == (|address: SocketAddr| address.ip is V4 == ipv4),
            kept@ == list@.take(i as int).filter(wanted),
        decreases list@.len() - i,
    {
        proof {
            assert(list@.take(i + 1).drop_last() =~= list@.take(i as int));
            assert(list@.take(i + 1).last() == list@[i as int]);
            reveal(Seq::filter);
        }
        if list[i].ip.is_ipv4() == ipv4 {
            kept.push(list[i]);
        }
        i += 1;
    }
    assert(list@.take(i as int) =~= list@);
    kept
}

pub fn normalize_addresses(list: &[SocketAddr], ipv4: bool) -> (kept: Vec<SocketAddr>)
    ensures
        kept@ == normalized_addresses(list@, ipv4),
{
    let family = keep_family(list, ipv4);
    let mut kept: Vec<SocketAddr> = Vec::new();
    let mut i: usize = 0;
    assert(family@.take(0) =~= Seq::<SocketAddr>::empty());
    while i < family.len()
        invariant
            i <= family@.len(),
            kept@ == first_occurrences(family@.take(i as int)),
        decreases family@.len() - i,
    {
        assert(family@.take(i + 1).drop_last() =~= family@.take(i as int));
        if !holds_address(&kept, family[i]) {
            kept.push(family[i]);
        }
        i += 1;
    }
    assert(family@.take(i as int) =~= family@);
    kept
}

/// The address that a host is, where it is one and the session can reach it.
pub open spec fn fixed_addresses(address: IpAddr, port: u16, ipv4: bool) -> Seq<SocketAddr> {
    if address is V4 == ipv4 {
        seq![SocketAddr { ip: address, port }]
    } else {
        Seq::empty()
    }
}

/// The addresses of a host that is an address itself and needs no resolver.
pub fn fixed_resolution(address: Option<IpAddr>, port: u16, ipv4: bool) -> (addresses: Option<
    Vec<SocketAddr>,
>)
    ensures
        match address {
            Some(ip) => addresses matches Some(list) && list@ == fixed_addresses(ip, port, ipv4),
            None => addresses is None,
        },
{
    match address {
        Some(ip) => {
            let mut list: Vec<SocketAddr> = Vec::new();
            if ip.is_ipv4() == ipv4 {
                list.push(SocketAddr { ip, port });
            }
            assert(list@ =~= fixed_addresses(ip, port, ipv4));
            Some(list)
        },
        None => None,
    }
}

/// The addresses of a target whose host is an address.
pub fn resolve_fixed(target: &Target, ipv4: bool) -> (addresses: Option<Vec<SocketAddr>>)
    ensures
        match ip_of_text(target.host@) {
            Some(ip) => addresses matches Some(list) && list@ == fixed_addresses(
                ip,
                target.port,
                ipv4,
            ),
            None => addresses is None,
        },
{
    fixed_resolution(parse_ip(&target.host), target.port, ipv4)
}

/// Where an answer came from.
#[derive(Debug, Clone, Copy, PartialEq, Eq, Structural)]
pub enum ResolutionSource {
    Fixed,
    IwanDns(SocketAddr),
    SystemDns,
}

/// Addresses and until when they may be used.
pub struct CachedResolution {
    pub addresses: Vec<SocketAddr>,
    pub source: ResolutionSource,
    pub expires_at: u64,
}

/// Whether a kept answer can still be used.
pub fn is_fresh(cached: &CachedResolution, now: u64) -> (answer: bool)
    ensures
        answer == (cached.expires_at > now),
{
    cached.expires_at > now
}

/// A point in time, as far as the clock reaches.
pub open spec fn later(now: u64, delay: int) -> u64 {
    if now + delay > u64::MAX {
        u64::MAX
    } else {
        (now + delay) as u64
    }
}

/// Who is asked for addresses.
#[derive(Debug, Clone, Copy, PartialEq, Eq, Structural)]
pub enum ResolutionWay {
    Tunnel,
    System { reject_fake_ip: bool },
}

/// The tunnel's name servers are asked where there are any, unless the mode
/// says otherwise. The host's answers are mistrusted where nobody chose them.
pub fn resolution_way(mode: DnsMode, has_servers: bool) -> (way: ResolutionWay)
    ensures
        way == match mode {
            DnsMode::Iwan => ResolutionWay::Tunnel,
            DnsMode::System => ResolutionWay::System { reject_fake_ip: false },
            DnsMode::Auto => if has_servers {
                ResolutionWay::Tunnel
            } else {
                ResolutionWay::System { reject_fake_ip: true }
            },
        },
{
    match mode {
        DnsMode::Iwan => ResolutionWay::Tunnel,
        DnsMode::System => ResolutionWay::System { reject_fake_ip: false },
        DnsMode::Auto => if has_servers {
            ResolutionWay::Tunnel
        } else {
            ResolutionWay::System { reject_fake_ip: true }
        },
    }
}

/// What one name server answered.
pub enum ServerOutcome {
    Answer { addresses: Vec<IpAddr>, ttl_secs: u64 },
    Failed(String),
}

/// A round of questions to name servers, one after the other.
pub struct ServerRound {
    pub servers: Vec<SocketAddr>,
    pub next: usize,
    pub last_error: Option<String>,
    pub ipv4: bool,
}

pub open spec fn no_servers_message() -> Seq<char> {
    "no usable iWAN DNS server was advertised or configured; add dns_servers to the managed provider or pass --dns-server"@
}

/// Addresses with a port.
pub open spec fn with_port(addresses: Seq<IpAddr>, port: u16) -> Seq<SocketAddr> {
    addresses.map_values(|ip: IpAddr| SocketAddr { ip, port })
}

fn add_port(addresses: &Vec<IpAddr>, port: u16) -> (list: Vec<SocketAddr>)
    ensures
        list@ == with_port(addresses@, port),
{
    let mut list: Vec<SocketAddr> = Vec::new();
    let mut i: usize = 0;
    while i < addresses.len()
        invariant
            i <= addresses@.len(),
            list@ =~= with_port(addresses@, port).take(i as int),
        decreases addresses@.len() - i,
    {
        list.push(SocketAddr { ip: addresses[i], port });
        i += 1;
    }
    assert(with_port(addresses@, port).take(i as int) =~= with_port(addresses@, port));
    list
}

/// The message that a round keeps.
pub open spec fn error_view(error: Option<String>) -> Option<Seq<char>> {
    match error {
        Some(text) => Some(text@),
        None => None,
    }
}

impl ServerRound {
    /// Begins a round with the servers of the session's family.
    pub fn start(servers: &[SocketAddr], ipv4: bool) -> (result: Result<Self, String>)
        ensures
            match result {
                Ok(round) => servers@.len() > 0 && round.servers@ == of_family(servers@, ipv4)
                    && round.next == 0 && round.last_error is None && round.ipv4 == ipv4,
                Err(message) => servers@.len() == 0 && message@ == no_servers_message(),
            },
    {
        if servers.len() == 0 {
            return Err(
                "no usable iWAN DNS server was advertised or configured; add dns_servers to the managed provider or pass --dns-server".to_owned(),
            );
        }
        Ok(
            ServerRound {
                servers: keep_family(servers, ipv4),
                next: 0,
                last_error: None,
                ipv4,
            },
        )
    }

    /// The next server to ask, or why the round failed: the last server's error.
    pub fn next_server(&mut self) -> (result: Result<SocketAddr, String>)
        ensures
            final(self).servers == old(self).servers,
            final(self).ipv4 == old(self).ipv4,
            final(self).last_error == old(self).last_error,
            match result {
                Ok(server) => old(self).next < old(self).servers@.len() && server
                    == old(self).servers@[old(self).next as int] && final(self).next
                    == old(self).next + 1,
                Err(message) => old(self).next >= old(self).servers@.len() && final(self).next
                    == old(self).next && message@ == match error_view(old(self).last_error) {
                    Some(text) => text,
                    None => "no iWAN DNS server matches the session address family"@,
                },
            },
    {
        if self.next < self.servers.len() {
            let server = self.servers[self.next];
            self.next += 1;
            return Ok(server);
        }
        match &self.last_error {
            Some(text) => Err(text.clone()),
            None => Err("no iWAN DNS server matches the session address family".to_owned()),
        }
    }

    /// Takes in what a server answered. Addresses of the session's family end
    /// the round.
    pub fn absorb(
        &mut self,
        server: SocketAddr,
        outcome: ServerOutcome,
        port: u16,
        now: u64,
    ) -> (found: Option<CachedResolution>)
        ensures
            final(self).servers == old(self).servers,
            final(self).ipv4 == old(self).ipv4,
            final(self).next == old(self).next,
            match outcome {
                ServerOutcome::Answer { addresses, ttl_secs } => {
                    let usable = normalized_addresses(
                        with_port(addresses@, port),
                        old(self).ipv4,
                    );
                    if usable.len() > 0 {
                        &&& found matches Some(resolution)
                        &&& resolution.addresses@ == usable
                        &&& resolution.source == ResolutionSource::IwanDns(server)
                        &&& resolution.expires_at == later(
                            now,
                            (if ttl_secs < MIN_DNS_TTL_SECS {
                                MIN_DNS_TTL_SECS
                            } else if ttl_secs > MAX_DNS_TTL_SECS {
                                MAX_DNS_TTL_SECS
                            } else {
                                ttl_secs
                            }) * NANOS_PER_SEC,
                        )
                        &&& final(self).last_error == old(self).last_error
                    } else {
                        found is None && error_view(final(self).last_error) == Some(
                            "iWAN DNS result does not match the session address family"@,
                        )
                    }
                },
                ServerOutcome::Failed(message) => found is None && final(self).last_error == Some(
                    message,
                ),
            },
    {
        match outcome {
            ServerOutcome::Answer { addresses, ttl_secs } => {
                let all = add_port(&addresses, port);
                let usable = normalize_addresses(all.as_slice(), self.ipv4);
                if usable.len() == 0 {
                    self.last_error = Some(
                        "iWAN DNS result does not match the session address family".to_owned(),
                    );
                    return None;
                }
                let kept: u64 = clamp_dns_ttl(ttl_secs);
                Some(
                    CachedResolution {
                        addresses: usable,
                        source: ResolutionSource::IwanDns(server),
                        expires_at: now.saturating_add(kept * NANOS_PER_SEC),
                    },
                )
            },
            ServerOutcome::Failed(message) => {
                self.last_error = Some(message);
                None
            },
        }
    }
}

/// Whether some address is one that benchmarks use.
pub open spec fn any_benchmark(list: Seq<SocketAddr>) -> bool {
    exists|i: int| 0 <= i < list.len() && is_benchmark((#[trigger] list[i]).ip)
}

/// Whether addresses look like placeholders of a VPN.
pub fn has_fake_addresses(list: &Vec<SocketAddr>) -> (answer: bool)
    ensures
        answer == any_benchmark(list@),
{
    let mut i: usize = 0;
    while i < list.len()
        invariant
            i <= list@.len(),
            forall|k: int| 0 <= k < i ==> !is_benchmark((#[trigger] list@[k]).ip),
        decreases list@.len() - i,
    {
        if is_ipv4_benchmark_address(list[i].ip) {
            assert(is_benchmark(list@[i as int].ip));
            return true;
        }
        i += 1;
    }
    false
}

pub open spec fn fake_address_message() -> Seq<char> {
    "host DNS returned an address in 198.18.0.0/15, likely a VPN Fake-IP; configure an organization DNS server with --dns-server or provider dns_servers"@
}

/// Takes in what the host's resolver answered.
pub fn accept_system_answer(
    found: &[SocketAddr],
    ipv4: bool,
    reject_fake_ip: bool,
    now: u64,
) -> (result: Result<CachedResolution, String>)
    ensures
        ({
            let usable = normalized_addresses(found@, ipv4);
            match result {
                Ok(resolution) => {
                    &&& usable.len() > 0
                    &&& !(reject_fake_ip && any_benchmark(usable))
                    &&& resolution.addresses@ == usable
                    &&& resolution.source == ResolutionSource::SystemDns
                    &&& resolution.expires_at == later(now, SYSTEM_DNS_TTL_NS as int)
                },
                Err(message) => if usable.len() == 0 {
                    message@ == "host DNS result does not match the iWAN session address family"@
                } else {
                    reject_fake_ip && any_benchmark(usable) && message@ == fake_address_message()
                },
            }
        }),
{
    let usable = normalize_addresses(found, ipv4);
    if usable.len() == 0 {
        return Err("host DNS result does not match the iWAN session address family".to_owned());
    }
    if reject_fake_ip && has_fake_addresses(&usable) {
        return Err(
            "host DNS returned an address in 198.18.0.0/15, likely a VPN Fake-IP; configure an organization DNS server with --dns-server or provider dns_servers".to_owned(),
        );
    }
    Ok(
        CachedResolution {
            addresses: usable,
            source: ResolutionSource::SystemDns,
            expires_at: now.saturating_add(SYSTEM_DNS_TTL_NS),
        },
    )
}

/// What resolving the other end before any connection came to.
pub enum PreflightOutcome {
    TimedOut,
    Failed(String),
    Resolved(Vec<SocketAddr>),
}

/// What a message calls the other end.
pub open spec fn kind_word(kind: ConnectKind) -> Seq<char> {
    match kind {
        ConnectKind::Target => "target"@,
        ConnectKind::Upstream => "upstream"@,
    }
}

/// Whether a forward or a proxy can start: its other end has an address that the
/// session can reach, and the first one is handed back.
pub fn check_preflight(
    kind: ConnectKind,
    host: &str,
    ipv4: bool,
    outcome: PreflightOutcome,
) -> (result: Result<SocketAddr, Error>)
    ensures
        match outcome {
            PreflightOutcome::TimedOut => result matches Err(error) && is_invalid_config(
                error,
                "DNS resolution for "@ + kind_word(kind) + " "@ + host@ + " timed out"@,
            ),
            PreflightOutcome::Failed(reason) => result matches Err(error) && is_invalid_config(
                error,
                "cannot resolve "@ + kind_word(kind) + " "@ + host@ + ": "@ + reason@,
            ),
            PreflightOutcome::Resolved(addresses) => if addresses@.len() > 0 {
                result == Ok::<SocketAddr, Error>(addresses@[0])
            } else {
                result matches Err(error) && is_invalid_config(
                    error,
                    kind_word(kind) + " "@ + host@ + " has no "@ + (if ipv4 {
                        "IPv4"@
                    } else {
                        "IPv6"@
                    }) + " address matching the iWAN session"@,
                )
            },
        },
{
    let word = match kind {
        ConnectKind::Target => "target",
        ConnectKind::Upstream => "upstream",
    };
    match outcome {
        PreflightOutcome::TimedOut => {
            let start = join3("DNS resolution for ", word, " ");
            Err(Error::InvalidConfig(join3(&start, host, " timed out")))
        },
        PreflightOutcome::Failed(reason) => {
            let start = join3("cannot resolve ", word, " ");
            let start = join3(&start, host, ": ");
            Err(Error::InvalidConfig(join2(&start, &reason)))
        },
        PreflightOutcome::Resolved(addresses) => {
            if addresses.len() > 0 {
                return Ok(addresses[0]);
            }
            let start = join3(word, " ", host);
            let start = join2(&start, " has no ");
            let family = if ipv4 {
                "IPv4"
            } else {
                "IPv6"
            };
            Err(
                Error::InvalidConfig(
                    join3(&start, family, " address matching the iWAN session"),
                ),
            )
        },
    }
}

/// How long one attempt to connect may take: a fair share of what is left of
/// the whole time, but a millisecond at least, as far as there is one.
pub open spec fn attempt_share(timeout: u64, elapsed: u64, attempts_left: nat) -> Option<u64> {
    if elapsed >= timeout {
        None
    } else {
        let remaining = (timeout - elapsed) as nat;
        let share = remaining / attempts_left;
        Some(
            if share < MIN_ATTEMPT_NS {
                if remaining < MIN_ATTEMPT_NS {
                    remaining as u64
                } else {
                    MIN_ATTEMPT_NS
                }
            } else {
                share as u64
            },
        )
    }
}

pub fn attempt_timeout(timeout: u64, elapsed: u64, attempts_left: u32) -> (share: Option<u64>)
    requires
        attempts_left > 0,
    ensures
        share == attempt_share(timeout, elapsed, attempts_left as nat),
        share matches Some(time) ==> 0 < time <= timeout - elapsed,
{
    if elapsed >= timeout {
        return None;
    }
    let remaining: u64 = timeout - elapsed;
    let share: u64 = remaining / (attempts_left as u64);
    assert(share <= remaining) by (nonlinear_arith)
        requires
            share == remaining / (attempts_left as u64),
            attempts_left > 0,
    ;
    if share < MIN_ATTEMPT_NS {
        if remaining < MIN_ATTEMPT_NS {
            Some(remaining)
        } else {
            Some(MIN_ATTEMPT_NS)
        }
    } else {
        Some(share)
    }
}

/// Whether two texts are the same but for the case of ASCII letters.
fn same_ignoring_case(left: &str, right: &str) -> (answer: bool)
    ensures
        answer == (lower(left@) == lower(right@)),
{
    let left_chars = chars_of(left);
    let right_chars = chars_of(right);
    let left_lower = to_lower(left_chars.as_slice());
    let right_lower = to_lower(right_chars.as_slice());
    same_chars(left_lower.as_slice(), right_lower.as_slice())
}

/// Whether a URI leads to the target and nowhere else.
pub fn matches_target_uri(target: &Target, scheme: Option<&str>, authority: Option<&str>) -> (answer:
    bool)
    ensures
        answer == (scheme is Some && scheme->Some_0@ == target.scheme.name() && authority is Some
            && lower(authority->Some_0@) == lower(target.authority@)),
{
    match (scheme, authority) {
        (Some(given), Some(place)) => crate::text::same_text(given, target.scheme.as_str())
            && same_ignoring_case(place, &target.authority),
        _ => false,
    }
}

/// Whether a packet fits a buffer, or in words why not.
pub fn fit_packet(length: usize, capacity: usize) -> (result: Result<(), String>)
    ensures
        match result {
            Ok(_) => length <= capacity,
            Err(message) => length > capacity && message@ == "userspace packet of "@ + decimal(
                length as nat,
            ) + " bytes exceeds device buffer of "@ + decimal(capacity as nat) + " bytes"@,
        },
{
    if length > capacity {
        let shown = decimal_text(length as u64);
        let mut message = join3(
            "userspace packet of ",
            &shown,
            " bytes exceeds device buffer of ",
        );
        let limit = decimal_text(capacity as u64);
        push_text(&mut message, &limit);
        push_text(&mut message, " bytes");
        return Err(message);
    }
    Ok(())
}

/// Which resolvers a forward asks, and how.
pub open spec fn forward_servers(given: Seq<SocketAddr>, configured: Seq<IpAddr>) -> Seq<
    SocketAddr,
> {
    if given.len() > 0 {
        given
    } else {
        with_port(configured, DNS_PORT)
    }
}

pub open spec fn forward_way(
    asked: ResolveVia,
    auto_tunnel: Option<bool>,
    has_servers: bool,
) -> ResolveVia {
    match (asked, auto_tunnel) {
        (ResolveVia::Auto, Some(tunnel)) => if tunnel && has_servers {
            ResolveVia::Tunnel
        } else {
            ResolveVia::System
        },
        _ => asked,
    }
}

/// Sets up the resolvers of a forward. `auto_tunnel` says whether a policy
/// sends the target's name through the tunnel, where there is a policy.
pub fn forward_resolvers(
    asked: ResolveVia,
    given: &Vec<SocketAddr>,
    configured: &Vec<IpAddr>,
    auto_tunnel: Option<bool>,
    timeout_ms: u64,
) -> (result: Result<ResolverConfig, Error>)
    ensures
        ({
            let servers = forward_servers(given@, configured@);
            match result {
                Ok(config) => {
                    &&& resolver_error(servers, timeout_ms) is None
                    &&& config.via == forward_way(asked, auto_tunnel, servers.len() > 0)
                    &&& config.servers@ == servers
                    &&& config.include_session_servers == (given@.len() == 0 && configured@.len()
                        == 0 && auto_tunnel is None)
                    &&& config.timeout_ms == timeout_ms
                },
                Err(error) => resolver_error(servers, timeout_ms) matches Some(message)
                    && is_invalid_config(error, message),
            }
        }),
{
    let included = given.len() == 0 && configured.len() == 0 && auto_tunnel.is_none();
    let servers = if given.len() > 0 {
        slice_to_vec(given.as_slice())
    } else {
        add_port(configured, DNS_PORT)
    };
    let way = match (asked, auto_tunnel) {
        (ResolveVia::Auto, Some(tunnel)) => if tunnel && servers.len() > 0 {
            ResolveVia::Tunnel
        } else {
            ResolveVia::System
        },
        _ => asked,
    };
    match ResolverConfig::new(way, servers, timeout_ms) {
        Ok(config) => Ok(config.with_session_servers(included)),
        Err(error) => Err(error),
    }
}

/// Whether a policy sends a target through the tunnel: nothing is said of a
/// target without a name.
pub open spec fn policy_tunnels(
    policy: DnsPolicyView,
    host: Option<Seq<char>>,
    address: Option<IpAddr>,
) -> Option<bool> {
    match host {
        Some(name) => if address is Some {
            None
        } else {
            Some(policy.tunnels(name))
        },
        None => None,
    }
}

pub fn tunnel_for_host(policy: &EffectiveDnsPolicy, host: Option<&str>, address: Option<IpAddr>) -> (answer:
    Option<bool>)
    ensures
        answer == policy_tunnels(
            policy@,
            match host {
                Some(name) => Some(name@),
                None => None,
            },
            address,
        ),
{
    match host {
        Some(name) => if address.is_some() {
            None
        } else {
            Some(policy.routes_through_tunnel(name))
        },
        None => None,
    }
}

/// The host in a target that is a URL.
pub open spec fn target_host_text(url: Result<UrlView, Seq<char>>) -> Option<Seq<char>> {
    match url {
        Ok(parts) => parts.host_text,
        Err(_) => None,
    }
}

/// Whether a policy sends a target through the tunnel.
pub fn tunnel_for_target(policy: &EffectiveDnsPolicy, target: &str) -> (answer: Option<bool>)
    ensures
        ({
            let host = target_host_text(url_parsed(target@));
            answer == policy_tunnels(
                policy@,
                host,
                match host {
                    Some(name) => ip_of_text(name),
                    None => None,
                },
            )
        }),
{
    match parse_url(target) {
        Ok(parts) => match &parts.host_text {
            Some(name) => {
                let address = parse_ip(name);
                tunnel_for_host(policy, Some(name.as_str()), address)
            },
            None => None,
        },
        Err(_) => None,
    }
}

/// What is said when a forward begins.
pub fn announce_forward(listen: SocketAddr, target: &Target) -> (lines: Vec<String>)
    ensures
        texts(lines@) == if target.scheme == TargetScheme::Tcp {
            seq![
                "TCP forward listening on tcp://"@ + socket_chars(listen) + " -> "@ + (
                target.scheme.name() + "://"@ + target.authority@),
                "TCP bytes, including TLS, are relayed unchanged"@,
                "no TUN interface or host route was created; press Ctrl-C to stop"@,
            ]
        } else if target.scheme == TargetScheme::Http {
            seq![
                "HTTP forward listening on http://"@ + socket_chars(listen) + " -> "@ + (
                target.scheme.name() + "://"@ + target.authority@),
                "warning: upstream HTTP traffic is not protected by TLS"@,
                "no TUN interface or host route was created; press Ctrl-C to stop"@,
            ]
        } else {
            seq![
                "HTTP forward listening on http://"@ + socket_chars(listen) + " -> "@ + (
                target.scheme.name() + "://"@ + target.authority@),
                "no TUN interface or host route was created; press Ctrl-C to stop"@,
            ]
        },
{
    let place = socket_text(listen);
    let shown = target.display();
    let mut lines: Vec<String> = Vec::new();
    assert(texts(lines@) =~= Seq::empty());
    if target.is_http() {
        let start = join3("HTTP forward listening on http://", &place, " -> ");
        crate::text::push_one(&mut lines, join2(&start, &shown));
        if !target.uses_tls() {
            crate::text::push_one(
                &mut lines,
                "warning: upstream HTTP traffic is not protected by TLS".to_owned(),
            );
        }
    } else {
        let start = join3("TCP forward listening on tcp://", &place, " -> ");
        crate::text::push_one(&mut lines, join2(&start, &shown));
        crate::text::push_one(
            &mut lines,
            "TCP bytes, including TLS, are relayed unchanged".to_owned(),
        );
    }
    crate::text::push_one(
        &mut lines,
        "no TUN interface or host route was created; press Ctrl-C to stop".to_owned(),
    );
    lines
}

/// How a forward ends: as its tunnel did, and where that ended well, with the
/// failure to take connections, if there was one.
pub fn forward_end(tunnel: Result<SessionEnd, Error>, accepting: Option<Error>) -> (result: Result<
    SessionEnd,
    Error,
>)
    ensures
        result == match tunnel {
            Err(error) => Err::<SessionEnd, Error>(error),
            Ok(end) => match accepting {
                Some(error) => Err(error),
                None => Ok(end),
            },
        },
{
    match tunnel {
        Err(error) => Err(error),
        Ok(end) => match accepting {
            Some(error) => Err(error),
            None => Ok(end),
        },
    }
}

/// Whether an address is that of one host: neither zero nor multicast.
pub open spec fn is_unicast(address: IpAddr) -> bool {
    match address {
        IpAddr::V4(v4) => v4.bits != 0 && !(0xe000_0000 <= v4.bits <= 0xefff_ffff),
        IpAddr::V6(v6) => v6.bits != 0 && v6.bits < 0xff00_0000_0000_0000_0000_0000_0000_0000,
    }
}

/// Resolvers are valid where each is one host with a port, and there is time to ask
/// them.
pub proof fn law_resolver_settings(
    mode: DnsMode,
    servers: Vec<SocketAddr>,
    timeout_ms: u64,
    result: Result<DnsConfig, Error>,
)
    requires
        call_ensures(DnsConfig::new, (mode, servers, timeout_ms), result),
    ensures
        result is Ok <==> timeout_ms > 0 && (forall|i: int|
            0 <= i < servers@.len() ==> is_unicast((#[trigger] servers@[i]).ip) && servers@[i].port
                > 0),
        result matches Ok(config) ==> config.mode == mode && config.servers == servers
            && config.timeout_ms == timeout_ms,
{
}

/// A forward listens on the loopback interface alone, has time to connect, and takes
/// certificates for an https target only.
pub proof fn law_forward_settings(
    listen: SocketAddr,
    target: &str,
    dns: DnsConfig,
    ca_certificates: Vec<String>,
    connect_timeout_ms: u64,
    result: Result<ForwardConfig, Error>,
)
    requires
        call_ensures(
            ForwardConfig::new,
            (listen, target, dns, ca_certificates, connect_timeout_ms),
            result,
        ),
    ensures
        result matches Ok(config) ==> {
            &&& listen.ip matches IpAddr::V4(v4) ==> 0x7f00_0000 <= v4.bits <= 0x7fff_ffff
            &&& listen.ip matches IpAddr::V6(v6) ==> v6.bits == 1
            &&& connect_timeout_ms > 0
            &&& ca_certificates@.len() > 0 ==> config.target.scheme is Https
            &&& config.listen == listen && config.connect_timeout_ms == connect_timeout_ms
            &&& config.dns == dns && config.ca_certificates == ca_certificates
        },
        result is Err ==> target_of(target@) is Err || connect_timeout_ms == 0
            || ca_certificates@.len() > 0 || (match listen.ip {
            IpAddr::V4(v4) => !(0x7f00_0000 <= v4.bits <= 0x7fff_ffff),
            IpAddr::V6(v6) => v6.bits != 1,
        }),
{
}

/// The resolvers that are used: those of the configuration, and then, on port 53,
/// those of the session that are hosts and not there yet.
pub proof fn law_resolvers_used(
    configured: &[SocketAddr],
    session: &[IpAddr],
    servers: Vec<SocketAddr>,
    server: SocketAddr,
)
    requires
        call_ensures(effective_dns_servers, (configured, session), servers),
    ensures
        servers@.take(configured@.len() as int) == configured@,
        servers@.contains(server) <==> configured@.contains(server) || (server.port == 53
            && is_unicast(server.ip) && session@.contains(server.ip)),
{
    lemma_resolvers_used(configured@, session@, server);
}

proof fn lemma_resolvers_used(configured: Seq<SocketAddr>, session: Seq<IpAddr>, server: SocketAddr)
    ensures
        ({
            let servers = with_session_servers(configured, session);
            &&& servers.len() >= configured.len()
            &&& servers.take(configured.len() as int) == configured
            &&& servers.contains(server) <==> configured.contains(server) || (server.port == 53
                && is_unicast(server.ip) && session.contains(server.ip))
        }),
    decreases session.len(),
{
    if session.len() == 0 {
        assert(configured.take(configured.len() as int) =~= configured);
        assert(!session.contains(server.ip));
    } else {
        let rest = session.drop_last();
        let before = with_session_servers(configured, rest);
        let added = SocketAddr { ip: session.last(), port: DNS_PORT };
        lemma_resolvers_used(configured, rest, server);
        assert(session =~= rest.push(session.last()));
        assert(session.contains(server.ip) <==> rest.contains(server.ip) || server.ip
            == session.last()) by {
            if rest.contains(server.ip) {
                let i = choose|i: int| 0 <= i < rest.len() && rest[i] == server.ip;
                assert(session[i] == server.ip);
            }
            if session.contains(server.ip) && server.ip != session.last() {
                let i = choose|i: int| 0 <= i < session.len() && session[i] == server.ip;
                assert(rest[i] == server.ip);
            }
            if server.ip == session.last() {
                assert(session[session.len() - 1] == server.ip);
            }
        }
        if !(unspecified(added.ip) || multicast(added.ip) || before.contains(added)) {
            let all = before.push(added);
            assert(all.take(configured.len() as int) =~= before.take(configured.len() as int));
            assert(all.contains(server) <==> before.contains(server) || server == added) by {
                if before.contains(server) {
                    let i = choose|i: int| 0 <= i < before.len() && before[i] == server;
                    assert(all[i] == server);
                }
                if server == added {
                    assert(all[before.len() as int] == server);
                }
            }
        }
    }
}

/// A connection is taken while fewer than 256 are open. The first one that is not is
/// warned about, and the next ones are not, until there is room again.
pub proof fn law_connection_limit(active: usize, decision: CapacityDecision)
    ensures
        forall|warned: &mut bool| #[trigger]
            call_ensures(capacity_decision, (active, warned), decision) ==> {
                &&& decision is Accept <==> active < 256
                &&& decision is RejectAndWarn <==> active >= 256 && !*warned
                &&& active >= 256 ==> *final(warned)
                &&& active < 256 ==> *final(warned) == *warned
            },
        forall|warned: &mut bool| #[trigger]
            call_ensures(reset_capacity_warning, (active, warned), ()) ==> {
                &&& active < 256 ==> !*final(warned)
                &&& active >= 256 ==> *final(warned) == *warned
            },
{
}

proof fn lemma_network_size(prefix: nat)
    requires
        prefix <= 32,
    ensures
        network_size(prefix) == pow2((32 - prefix) as nat),
    decreases 32 - prefix,
{
    if prefix == 32 {
        lemma2_to64();
    } else {
        lemma_network_size(prefix + 1);
        lemma_pow2_unfold((32 - prefix) as nat);
    }
}

/// A netmask stands for a prefix where the bits above the network's size are set and
/// the others are not. Without one an address stands for itself.
pub proof fn law_netmask(
    address: IpAddr,
    netmask: Option<Ipv4Addr>,
    result: Result<u8, Error>,
    prefix: u8,
)
    requires
        call_ensures(userspace_prefix, (address, netmask), result),
        prefix <= 32,
    ensures
        address is V6 ==> result == Ok::<u8, Error>(128),
        address is V4 && netmask is None ==> result == Ok::<u8, Error>(32),
        (address is V4 && (netmask matches Some(mask) && mask.bits + pow2((32 - prefix) as nat)
            == 0x1_0000_0000)) ==> result is Ok,
        (address is V4 && netmask is Some && result is Ok) ==> result->Ok_0 <= 32
            && netmask->Some_0.bits + pow2((32 - result->Ok_0) as nat) == 0x1_0000_0000,
{
    lemma_network_size(prefix as nat);
    if netmask is Some {
        if netmask->Some_0.bits + pow2((32 - prefix) as nat) == 0x1_0000_0000 {
            assert(is_mask_of(netmask->Some_0, prefix as nat));
        }
        if address is V4 && result is Ok {
            lemma_network_size(result->Ok_0 as nat);
        }
    }
}

/// A gateway is used where it is of the address's family.
pub proof fn law_gateway_family(
    address: IpAddr,
    gateway: Option<IpAddr>,
    used: Option<IpAddr>,
)
    requires
        call_ensures(userspace_gateway, (address, gateway), used),
    ensures
        gateway matches Some(ip) ==> (used == gateway <==> (ip is V4 && address is V4) || (ip is V6
            && address is V6)),
        used is Some ==> used == gateway,
{
}

/// The addresses that stand for made-up ones: 198.18.0.0 to 198.19.255.255.
pub proof fn law_made_up_addresses(address: IpAddr, answer: bool)
    requires
        call_ensures(is_ipv4_benchmark_address, (address,), answer),
    ensures
        address matches IpAddr::V4(v4) ==> (answer <==> 0xc612_0000 <= v4.bits <= 0xc613_ffff),
        address is V6 ==> !answer,
{
}

/// An answer is kept for as long as it says, but between five seconds and an hour.
pub proof fn law_answer_lifetime(ttl_secs: u64, kept: u64)
    requires
        call_ensures(clamp_dns_ttl, (ttl_secs,), kept),
    ensures
        5 <= kept <= 3_600,
        5 <= ttl_secs <= 3_600 ==> kept == ttl_secs,
        ttl_secs < 5 ==> kept == 5,
        ttl_secs > 3_600 ==> kept == 3_600,
{
}

/// What is left of addresses: those of the family, each once.
pub proof fn law_addresses_kept(
    list: &[SocketAddr],
    ipv4: bool,
    kept: Vec<SocketAddr>,
    address: SocketAddr,
)
    requires
        call_ensures(normalize_addresses, (list, ipv4), kept),
    ensures
        kept@.no_duplicates(),
        kept@.contains(address) <==> list@.contains(address) && (address.ip is V4 <==> ipv4),
{
    lemma_addresses_kept(list@, ipv4, address);
}

proof fn lemma_addresses_kept(list: Seq<SocketAddr>, ipv4: bool, address: SocketAddr)
    ensures
        normalized_addresses(list, ipv4).no_duplicates(),
        normalized_addresses(list, ipv4).contains(address) <==> list.contains(address) && (
        address.ip is V4 <==> ipv4),
{
    let wanted = |address: SocketAddr| address.ip is V4 == ipv4;
    lemma_filter_contains(list, wanted, address);
    law_first_occurrences(of_family(list, ipv4));
}

/// A target that is an address is not looked up: it stands for itself, where it is
/// of the session's family.
pub proof fn law_fixed_target(
    target: &Target,
    ipv4: bool,
    addresses: Option<Vec<SocketAddr>>,
)
    requires
        call_ensures(resolve_fixed, (target, ipv4), addresses),
    ensures
        addresses is Some <==> ip_of_text(target.host@) is Some,
        ip_of_text(target.host@) matches Some(ip) ==> {
            &&& (ip is V4 <==> ipv4) ==> addresses->Some_0@ == seq![
                SocketAddr { ip, port: target.port },
            ]
            &&& !(ip is V4 <==> ipv4) ==> addresses->Some_0@.len() == 0
        },
{
}

/// Where names are looked up: through the tunnel if that is asked for, or left open
/// and it has resolvers; and else on the host, whose made-up addresses count only
/// where the host was asked for.
pub proof fn law_where_names_are_looked_up(
    mode: DnsMode,
    has_servers: bool,
    way: ResolutionWay,
)
    requires
        call_ensures(resolution_way, (mode, has_servers), way),
    ensures
        way is Tunnel <==> mode is Iwan || (mode is Auto && has_servers),
        way matches ResolutionWay::System { reject_fake_ip } ==> (reject_fake_ip <==> mode is Auto),
{
}

/// An answer is used until it expires.
pub proof fn law_cached_answer(cached: &CachedResolution, now: u64, answer: bool)
    requires
        call_ensures(is_fresh, (cached, now), answer),
    ensures
        answer <==> now < cached.expires_at,
{
}

/// Resolvers of the session's family are asked one after the other.
pub proof fn law_resolvers_in_turn(
    servers: &[SocketAddr],
    ipv4: bool,
    round: Result<ServerRound, String>,
    result: Result<SocketAddr, String>,
    server: SocketAddr,
)
    requires
        call_ensures(ServerRound::start, (servers, ipv4), round),
    ensures
        round is Ok <==> servers@.len() > 0,
        round matches Ok(turn) ==> turn.next == 0 && turn.ipv4 == ipv4 && (turn.servers@.contains(
            server,
        ) <==> servers@.contains(server) && (server.ip is V4 <==> ipv4)),
        forall|turn: &mut ServerRound| #[trigger]
            call_ensures(ServerRound::next_server, (turn,), result) ==> {
                &&& result is Ok <==> (*turn).next < (*turn).servers@.len()
                &&& result matches Ok(found) ==> found == (*turn).servers@[(*turn).next as int]
                    && (*final(turn)).next == (*turn).next + 1
                &&& result is Err && (*turn).last_error is Some ==> result->Err_0@
                    == (*turn).last_error->Some_0@
            },
{
    let wanted = |address: SocketAddr| address.ip is V4 == ipv4;
    lemma_filter_contains(servers@, wanted, server);
}

/// A resolver's answer with an address of the session's family is taken, with the
/// target's port, for five seconds to an hour; a failure, or an answer without one,
/// is remembered and the next resolver asked.
pub proof fn law_resolver_answer(
    server: SocketAddr,
    addresses: Vec<IpAddr>,
    ttl_secs: u64,
    port: u16,
    now: u64,
    found: Option<CachedResolution>,
    ip: IpAddr,
)
    requires
        addresses@.contains(ip),
        now <= 0x7fff_ffff_ffff_ffff,
    ensures
        forall|turn: &mut ServerRound| #[trigger]
            call_ensures(
                ServerRound::absorb,
                (turn, server, ServerOutcome::Answer { addresses, ttl_secs }, port, now),
                found,
            ) ==> {
                &&& (ip is V4 <==> (*turn).ipv4) ==> {
                    &&& found matches Some(resolution)
                    &&& resolution.addresses@.contains(SocketAddr { ip, port })
                    &&& resolution.source == ResolutionSource::IwanDns(server)
                    &&& 5 <= ttl_secs <= 3_600 ==> resolution.expires_at == now + ttl_secs
                        * 1_000_000_000
                    &&& ttl_secs < 5 ==> resolution.expires_at == now + 5_000_000_000
                    &&& ttl_secs > 3_600 ==> resolution.expires_at == now + 3_600_000_000_000
                }
                &&& found is None ==> (*final(turn)).last_error is Some
                &&& (*final(turn)).next == (*turn).next
            },
{
    let target = SocketAddr { ip, port };
    let list = with_port(addresses@, port);
    let i = choose|i: int| 0 <= i < addresses@.len() && addresses@[i] == ip;
    assert(list[i] == target);
    lemma_addresses_kept(list, true, target);
    lemma_addresses_kept(list, false, target);
}

/// The host's answer is used for a minute, where it has an address of the family;
/// where made-up addresses do not count, one among them refuses it.
pub proof fn law_host_answer(
    found: &[SocketAddr],
    ipv4: bool,
    reject_fake_ip: bool,
    now: u64,
    result: Result<CachedResolution, String>,
    address: SocketAddr,
)
    requires
        call_ensures(accept_system_answer, (found, ipv4, reject_fake_ip, now), result),
        found@.contains(address),
        address.ip is V4 <==> ipv4,
    ensures
        !reject_fake_ip ==> result is Ok,
        (reject_fake_ip && (address.ip matches IpAddr::V4(v4) && 0xc612_0000 <= v4.bits
            <= 0xc613_ffff)) ==> result is Err,
        result matches Ok(resolution) ==> {
            &&& resolution.addresses@.contains(address)
            &&& resolution.source is SystemDns
            &&& now <= 0x7fff_ffff_ffff_ffff ==> resolution.expires_at == now + 60_000_000_000
        },
{
    lemma_addresses_kept(found@, ipv4, address);
    let usable = normalized_addresses(found@, ipv4);
    let i = choose|i: int| 0 <= i < usable.len() && usable[i] == address;
    assert(usable[i] == address);
}

/// Before a forward starts its target must have an address, and the first one is
/// named.
pub proof fn law_target_resolves(
    kind: ConnectKind,
    host: &str,
    ipv4: bool,
    outcome: PreflightOutcome,
    result: Result<SocketAddr, Error>,
)
    requires
        call_ensures(check_preflight, (kind, host, ipv4, outcome), result),
    ensures
        result is Ok <==> (outcome matches PreflightOutcome::Resolved(list) && list@.len() > 0),
        outcome matches PreflightOutcome::Resolved(list) ==> (result matches Ok(address) ==> address
            == list@[0]),
{
}

/// The time of an attempt: an even share of what is left, but no less than a
/// millisecond, as far as that is left.
pub proof fn law_attempt_time(
    timeout: u64,
    elapsed: u64,
    attempts_left: u32,
    share: Option<u64>,
)
    requires
        attempts_left > 0,
        call_ensures(attempt_timeout, (timeout, elapsed, attempts_left), share),
    ensures
        share is None <==> elapsed >= timeout,
        share matches Some(time) ==> {
            let left = timeout - elapsed;
            &&& left / attempts_left as int >= 1_000_000 ==> time == left / attempts_left as int
            &&& left / (attempts_left as int) < 1_000_000 && left >= 1_000_000 ==> time == 1_000_000
            &&& left / (attempts_left as int) < 1_000_000 && left < 1_000_000 ==> time == left
        },
{
}

/// A request names the target where its scheme is the target's and its authority is
/// the target's, whatever the case of its letters.
pub proof fn law_request_names_target(
    target: &Target,
    scheme: Option<&str>,
    authority: Option<&str>,
    answer: bool,
)
    requires
        call_ensures(matches_target_uri, (target, scheme, authority), answer),
    ensures
        scheme is None || authority is None ==> !answer,
        answer ==> scheme->Some_0@ == (match target.scheme {
            TargetScheme::Http => "http"@,
            TargetScheme::Https => "https"@,
            TargetScheme::Tcp => "tcp"@,
        }),
        scheme is Some && authority is Some && scheme->Some_0@ == target.scheme.name()
            && authority->Some_0@ == target.authority@ ==> answer,
{
}

/// A packet goes to a device that it fits into.
pub proof fn law_packet_fits(length: usize, capacity: usize, result: Result<(), String>)
    requires
        call_ensures(fit_packet, (length, capacity), result),
    ensures
        result is Ok <==> length <= capacity,
{
}

/// The resolvers of a forward: those that are given, else those of the
/// configuration on port 53. Where the way is left open and the settings decide on
/// the target, they decide on the way too; and those of the session are added where
/// nothing else is said.
pub proof fn law_forward_resolvers(
    asked: ResolveVia,
    given: &Vec<SocketAddr>,
    configured: &Vec<IpAddr>,
    auto_tunnel: Option<bool>,
    timeout_ms: u64,
    result: Result<ResolverConfig, Error>,
    i: int,
)
    requires
        call_ensures(
            forward_resolvers,
            (asked, given, configured, auto_tunnel, timeout_ms),
            result,
        ),
    ensures
        result matches Ok(config) ==> {
            &&& given@.len() > 0 ==> config.servers@ == given@
            &&& given@.len() == 0 ==> config.servers@.len() == configured@.len()
            &&& given@.len() == 0 && 0 <= i < configured@.len() ==> config.servers@[i] == (
            SocketAddr { ip: configured@[i], port: 53 })
            &&& !(asked is Auto) || auto_tunnel is None ==> config.via == asked
            &&& asked is Auto && auto_tunnel == Some(false) ==> config.via is System
            &&& asked is Auto && auto_tunnel == Some(true) && config.servers@.len() > 0
                ==> config.via is Tunnel
            &&& asked is Auto && auto_tunnel == Some(true) && config.servers@.len() == 0
                ==> config.via is System
            &&& config.include_session_servers <==> given@.len() == 0 && configured@.len() == 0
                && auto_tunnel is None
            &&& config.timeout_ms == timeout_ms
        },
{
}

/// The settings decide on a target by its name; an address, or a target without a
/// host, is not theirs to decide on.
pub proof fn law_target_by_name(
    policy: &EffectiveDnsPolicy,
    host: Option<&str>,
    address: Option<IpAddr>,
    answer: Option<bool>,
)
    requires
        call_ensures(tunnel_for_host, (policy, host, address), answer),
    ensures
        answer is None <==> host is None || address is Some,
        answer matches Some(tunnel) ==> tunnel == policy@.tunnels(host->Some_0@),
{
}

/// A forward ends with the error of its tunnel, else with that of its listener, and
/// else as its session ended.
pub proof fn law_forward_ends(
    tunnel: Result<SessionEnd, Error>,
    accepting: Option<Error>,
    result: Result<SessionEnd, Error>,
)
    requires
        call_ensures(forward_end, (tunnel, accepting), result),
    ensures
        tunnel is Err ==> result == tunnel,
        tunnel is Ok && accepting is None ==> result == tunnel,
        tunnel is Ok && accepting is Some ==> result == Err::<SessionEnd, Error>(
            accepting->Some_0,
        ),
{
}

/// What a forward tells when it starts: where it listens and what it leads to, and
/// for tcp that bytes are relayed as they are, and for http that nothing protects
/// them.
pub proof fn law_announced_forward(listen: SocketAddr, target: &Target, lines: Vec<String>)
    requires
        call_ensures(announce_forward, (listen, target), lines),
    ensures
        ({
            let count = lines@.len() as int;
            &&& target.scheme is Https ==> count == 2
            &&& !(target.scheme is Https) ==> count == 3
            &&& lines@[count - 1]@
                == "no TUN interface or host route was created; press Ctrl-C to stop"@
            &&& target.scheme is Tcp ==> lines@[0]@ == "TCP forward listening on tcp://"@
                + socket_chars(listen) + " -> "@ + ("tcp"@ + "://"@ + target.authority@)
                && lines@[1]@ == "TCP bytes, including TLS, are relayed unchanged"@
            &&& target.scheme is Http ==> lines@[0]@ == "HTTP forward listening on http://"@
                + socket_chars(listen) + " -> "@ + ("http"@ + "://"@ + target.authority@)
                && lines@[1]@ == "warning: upstream HTTP traffic is not protected by TLS"@
            &&& target.scheme is Https ==> lines@[0]@ == "HTTP forward listening on http://"@
                + socket_chars(listen) + " -> "@ + ("https"@ + "://"@ + target.authority@)
        }),
{
    let shown = texts(lines@);
    assert(shown.len() == lines@.len());
    assert(shown[0] == lines@[0]@ && shown[1] == lines@[1]@);
    if shown.len() == 3 {
        assert(shown[2] == lines@[2]@);
    }
}

/// Why a forward's settings are refused, in the order in which they are looked at.
pub proof fn law_forward_refusals(
    listen: SocketAddr,
    target: &str,
    dns: DnsConfig,
    ca_certificates: Vec<String>,
    connect_timeout_ms: u64,
    error: Error,
)
    requires
        call_ensures(
            ForwardConfig::new,
            (listen, target, dns, ca_certificates, connect_timeout_ms),
            Err::<ForwardConfig, Error>(error),
        ),
    ensures
        !loopback(listen.ip) ==> is_invalid_config(
            error,
            "forward listen address "@ + socket_chars(listen) + " is not a loopback address"@,
        ),
        loopback(listen.ip) && connect_timeout_ms == 0 ==> is_invalid_config(
            error,
            "connect timeout must be greater than zero"@,
        ),
        loopback(listen.ip) && connect_timeout_ms > 0 && target_of(target@) is Ok
            ==> is_invalid_config(error, "--ca-cert is only valid for an https:// target"@),
{
}

/// A resolver that failed gives no answer, and why it failed is remembered.
pub proof fn law_failed_resolver(
    server: SocketAddr,
    message: String,
    port: u16,
    now: u64,
    found: Option<CachedResolution>,
)
    ensures
        forall|turn: &mut ServerRound| #[trigger]
            call_ensures(
                ServerRound::absorb,
                (turn, server, ServerOutcome::Failed(message), port, now),
                found,
            ) ==> found is None && (*final(turn)).last_error == Some(message) && (*final(turn)).next
                == (*turn).next,
{
}

} // verus!
