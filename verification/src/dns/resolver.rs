//! Which resolvers a forwarded connection asks.

use crate::error::{invalid_config, Error};
use crate::error::is_invalid_config;
use crate::net::{IpAddr, SocketAddr};
use crate::net::{multicast, unspecified};
use vstd::prelude::*;

verus! {

pub const DEFAULT_RESOLVER_TIMEOUT_MS: u64 = 3_000;

/// The way that questions take.
#[derive(Debug, Clone, Copy, PartialEq, Eq, Structural)]
pub enum ResolveVia {
    Auto,
    Tunnel,
    System,
}

impl Default for ResolveVia {
    fn default() -> (way: Self)
        ensures
            way == ResolveVia::Auto,
    {
        ResolveVia::Auto
    }
}

/// Resolvers and how long to wait for them.
#[derive(Debug, Clone)]
pub struct ResolverConfig {
    pub via: ResolveVia,
    pub servers: Vec<SocketAddr>,
    pub include_session_servers: bool,
    pub timeout_ms: u64,
}

impl Default for ResolverConfig {
    fn default() -> (config: Self)
        ensures
            config.via == ResolveVia::Auto,
            config.servers@ == Seq::<SocketAddr>::empty(),
            config.include_session_servers,
            config.timeout_ms == DEFAULT_RESOLVER_TIMEOUT_MS,
    {
        ResolverConfig {
            via: ResolveVia::Auto,
            servers: Vec::new(),
            include_session_servers: true,
            timeout_ms: DEFAULT_RESOLVER_TIMEOUT_MS,
        }
    }
}

/// Whether a resolver can be asked at an address.
pub open spec fn askable(server: SocketAddr) -> bool {
    server.port != 0 && !unspecified(server.ip) && !multicast(server.ip)
}

/// The message on why resolvers cannot be used.
pub open spec fn resolver_error(servers: Seq<SocketAddr>, timeout_ms: u64) -> Option<Seq<char>> {
    if timeout_ms == 0 {
        Some("DNS resolver timeout must be greater than zero"@)
    } else if exists|i: int| 0 <= i < servers.len() && !askable(#[trigger] servers[i]) {
        Some("DNS resolvers must be unicast addresses with a nonzero port"@)
    } else {
        None
    }
}

impl ResolverConfig {
    pub fn new(way: ResolveVia, servers: Vec<SocketAddr>, timeout_ms: u64) -> (result: Result<
        Self,
        Error,
    >)
        ensures
            match result {
                Ok(config) => resolver_error(servers@, timeout_ms) is None && config.via == way
                    && config.servers == servers && config.include_session_servers
                    && config.timeout_ms == timeout_ms,
                Err(error) => resolver_error(servers@, timeout_ms) matches Some(message)
                    && is_invalid_config(error, message),
            },
    {
        let config = ResolverConfig { via: way, servers, include_session_servers: true, timeout_ms };
        match config.validate() {
            Ok(_) => Ok(config),
            Err(error) => Err(error),
        }
    }

    pub fn validate(&self) -> (result: Result<(), Error>)
        ensures
            match result {
                Ok(_) => resolver_error(self.servers@, self.timeout_ms) is None,
                Err(error) => resolver_error(self.servers@, self.timeout_ms) matches Some(message)
                    && is_invalid_config(error, message),
            },
    {
        if self.timeout_ms == 0 {
            return Err(invalid_config("DNS resolver timeout must be greater than zero"));
        }
        let mut i: usize = 0;
        while i < self.servers.len()
            invariant
                self.timeout_ms != 0,
                i <= self.servers@.len(),
                forall|k: int| 0 <= k < i ==> askable(#[trigger] self.servers@[k]),
            decreases self.servers@.len() - i,
        {
            let server = self.servers[i];
            if server.port == 0 || server.ip.is_unspecified() || server.ip.is_multicast() {
                assert(!askable(self.servers@[i as int]));
                return Err(
                    invalid_config("DNS resolvers must be unicast addresses with a nonzero port"),
                );
            }
            i += 1;
        }
        Ok(())
    }

    pub fn with_session_servers(self, included: bool) -> (config: Self)
        ensures
            config.via == self.via,
            config.servers == self.servers,
            config.include_session_servers == included,
            config.timeout_ms == self.timeout_ms,
    {
        ResolverConfig {
            via: self.via,
            servers: self.servers,
            include_session_servers: included,
            timeout_ms: self.timeout_ms,
        }
    }
}

/// Resolvers are valid where each is one host with a port, and there is time to ask
/// them; those of the session are asked too, unless that is taken back.
pub proof fn law_resolver_config(
    way: ResolveVia,
    servers: Vec<SocketAddr>,
    timeout_ms: u64,
    result: Result<ResolverConfig, Error>,
    included: bool,
    config: ResolverConfig,
    changed: ResolverConfig,
)
    requires
        call_ensures(ResolverConfig::new, (way, servers, timeout_ms), result),
        call_ensures(ResolverConfig::with_session_servers, (config, included), changed),
    ensures
        result is Ok <==> timeout_ms > 0 && (forall|i: int|
            0 <= i < servers@.len() ==> (#[trigger] servers@[i]).port > 0 && match servers@[i].ip {
                IpAddr::V4(v4) => v4.bits != 0 && !(0xe000_0000 <= v4.bits <= 0xefff_ffff),
                IpAddr::V6(v6) => v6.bits != 0 && v6.bits
                    < 0xff00_0000_0000_0000_0000_0000_0000_0000,
            }),
        result matches Ok(made) ==> made.via == way && made.servers == servers && made.timeout_ms
            == timeout_ms && made.include_session_servers,
        changed.include_session_servers == included && changed.servers == config.servers
            && changed.via == config.via && changed.timeout_ms == config.timeout_ms,
{
    if forall|i: int|
        0 <= i < servers@.len() ==> (#[trigger] servers@[i]).port > 0 && match servers@[i].ip {
            IpAddr::V4(v4) => v4.bits != 0 && !(0xe000_0000 <= v4.bits <= 0xefff_ffff),
            IpAddr::V6(v6) => v6.bits != 0 && v6.bits < 0xff00_0000_0000_0000_0000_0000_0000_0000,
        } {
        assert forall|i: int| 0 <= i < servers@.len() implies askable(#[trigger] servers@[i]) by {}
    }
    if resolver_error(servers@, timeout_ms) is None {
        assert forall|i: int| 0 <= i < servers@.len() implies (#[trigger] servers@[i]).port > 0
            && match servers@[i].ip {
            IpAddr::V4(v4) => v4.bits != 0 && !(0xe000_0000 <= v4.bits <= 0xefff_ffff),
            IpAddr::V6(v6) => v6.bits != 0 && v6.bits < 0xff00_0000_0000_0000_0000_0000_0000_0000,
        } by {
            assert(askable(servers@[i]));
        }
    }
}

/// Left open, a name is resolved any way, with the session's resolvers, within three
/// seconds.
pub proof fn law_default_resolver(config: ResolverConfig)
    requires
        call_ensures(ResolverConfig::default, (), config),
    ensures
        config.via is Auto && config.servers@.len() == 0 && config.include_session_servers,
        config.timeout_ms == 3_000,
{
}

} // verus!
