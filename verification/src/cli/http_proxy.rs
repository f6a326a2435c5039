//! A local proxy in front of one HTTP server.

use crate::cli::connector::DnsConfig;
use crate::cli::connector::keep_family;
use crate::cli::connector::of_family;
use crate::cli::http::{
    forward_headers, read_location, set_location, strip_hop_by_hop, write_relative,
    STATUS_BAD_GATEWAY, STATUS_BAD_REQUEST, STATUS_GATEWAY_TIMEOUT,
};
use crate::cli::http::{
    asked_path, can_name_host, forwarded, header_contents, header_key, location_text, relative_part,
    relocated, stripped,
};
use crate::cli::uri::{
    build_uri, check_authority, find_origin, normalize_url, parse_url, UrlParts,
};
use crate::cli::uri::{authority_error, origin_of, uri_built, url_normalized, url_parsed, UrlView};
use crate::error::{invalid_config, Error};
use crate::error::is_invalid_config;
use crate::net::{parse_ip, socket_text, IpAddr, SocketAddr};
use crate::net::{ip_of_text, loopback, multicast, socket_chars, unspecified};
use crate::text::{chars_of, decimal_text, join2, join3, same_text};
use crate::text::decimal;
use hyper::header::{HeaderMap, HeaderValue};
use vstd::prelude::*;

verus! {

/// The server behind the proxy.
pub struct Upstream {
    pub url: String,
    pub scheme: String,
    pub host: String,
    pub authority: String,
    pub port: u16,
}

#[verifier::ext_equal]
pub struct UpstreamView {
    pub url: Seq<char>,
    pub scheme: Seq<char>,
    pub host: Seq<char>,
    pub authority: Seq<char>,
    pub port: u16,
}

impl View for Upstream {
    type V = UpstreamView;

    open spec fn view(&self) -> UpstreamView {
        UpstreamView {
            url: self.url@,
            scheme: self.scheme@,
            host: self.host@,
            authority: self.authority@,
            port: self.port,
        }
    }
}

/// The message on why a URL is no server to stand in front of.
pub open spec fn upstream_error(url: UrlView) -> Option<Seq<char>> {
    if url.scheme != "http"@ && url.scheme != "https"@ {
        Some("upstream URL must use http or https"@)
    } else if url.username.len() > 0 || url.password is Some {
        Some("upstream URL must not contain user information"@)
    } else if url.path != "/"@ || url.query is Some || url.fragment is Some {
        Some("upstream URL must be an origin without a path, query, or fragment"@)
    } else if url.host_text is None {
        Some("upstream URL has no host"@)
    } else if url.port_or_default is None {
        Some("upstream URL has no port"@)
    } else {
        None
    }
}

pub fn check_upstream_url(url: &UrlParts) -> (result: Result<(), Error>)
    ensures
        match result {
            Ok(_) => upstream_error(url@) is None,
            Err(error) => upstream_error(url@) matches Some(message) && is_invalid_config(
                error,
                message,
            ),
        },
{
    if !same_text(&url.scheme, "http") && !same_text(&url.scheme, "https") {
        return Err(invalid_config("upstream URL must use http or https"));
    }
    let username = chars_of(&url.username);
    if username.len() > 0 || url.password.is_some() {
        return Err(invalid_config("upstream URL must not contain user information"));
    }
    if !same_text(&url.path, "/") || url.query.is_some() || url.fragment.is_some() {
        return Err(
            invalid_config("upstream URL must be an origin without a path, query, or fragment"),
        );
    }
    if url.host_text.is_none() {
        return Err(invalid_config("upstream URL has no host"));
    }
    if url.port_or_default.is_none() {
        return Err(invalid_config("upstream URL has no port"));
    }
    Ok(())
}

/// The authority of a server: its host, and its port where the URL names one.
pub open spec fn upstream_authority(host: Seq<char>, is_ipv6: bool, port: Option<u16>) -> Seq<
    char,
> {
    let shown = if is_ipv6 {
        "["@ + host + "]"@
    } else {
        host
    };
    match port {
        Some(number) => shown + ":"@ + decimal(number as nat),
        None => shown,
    }
}

fn write_authority(host: &str, is_ipv6: bool, port: Option<u16>) -> (authority: String)
    ensures
        authority@ == upstream_authority(host@, is_ipv6, port),
{
    let shown = if is_ipv6 {
        join3("[", host, "]")
    } else {
        host.to_owned()
    };
    match port {
        Some(number) => {
            let digits = decimal_text(number as u64);
            join3(&shown, ":", &digits)
        },
        None => shown,
    }
}

/// The server that a URL names, or the message on why it names none.
pub open spec fn upstream_of(text: Seq<char>) -> Result<UpstreamView, Seq<char>> {
    match url_parsed(text) {
        Ok(url) => match upstream_error(url) {
            Some(message) => Err(message),
            None => {
                let host = url.host_text->Some_0;
                let is_ipv6 = ip_of_text(host) matches Some(IpAddr::V6(_));
                let authority = upstream_authority(host, is_ipv6, url.port);
                match authority_error(authority) {
                    Some(reason) => Err("invalid upstream authority: "@ + reason),
                    None => Ok(
                        UpstreamView {
                            url: url_normalized(text),
                            scheme: url.scheme,
                            host,
                            authority,
                            port: url.port_or_default->Some_0,
                        },
                    ),
                }
            },
        },
        Err(reason) => Err("invalid upstream URL: "@ + reason),
    }
}

impl Upstream {
    pub fn parse(value: &str) -> (result: Result<Self, Error>)
        ensures
            match result {
                Ok(upstream) => upstream_of(value@) == Ok::<UpstreamView, Seq<char>>(upstream@),
                Err(error) => upstream_of(value@) matches Err(message) && is_invalid_config(
                    error,
                    message,
                ),
            },
    {
        let url = match parse_url(value) {
            Ok(url) => url,
            Err(reason) => {
                return Err(Error::InvalidConfig(join2("invalid upstream URL: ", &reason)));
            },
        };
        match check_upstream_url(&url) {
            Ok(_) => {},
            Err(error) => {
                return Err(error);
            },
        }
        let host = match &url.host_text {
            Some(text) => text.clone(),
            None => {
                return Err(invalid_config("upstream URL has no host"));
            },
        };
        let port: u16 = match url.port_or_default {
            Some(number) => number,
            None => {
                return Err(invalid_config("upstream URL has no port"));
            },
        };
        let is_ipv6 = match parse_ip(&host) {
            Some(IpAddr::V6(_)) => true,
            _ => false,
        };
        let authority = write_authority(&host, is_ipv6, url.port);
        match check_authority(&authority) {
            Ok(_) => {},
            Err(reason) => {
                return Err(Error::InvalidConfig(join2("invalid upstream authority: ", &reason)));
            },
        }
        match normalize_url(value) {
            Ok(shown) => Ok(Upstream { url: shown, scheme: url.scheme, host, authority, port }),
            Err(reason) => Err(Error::InvalidConfig(join2("invalid upstream URL: ", &reason))),
        }
    }

    /// The URI of a request to the server for a path and query.
    pub fn request_uri(&self, path_and_query: Option<&str>) -> (result: Result<String, Error>)
        ensures
            ({
                let path = asked_path(path_and_query);
                match result {
                    Ok(uri) => uri_built(self.scheme@, self.authority@, path) == Ok::<
                        Seq<char>,
                        Seq<char>,
                    >(uri@),
                    Err(error) => uri_built(self.scheme@, self.authority@, path) matches Err(reason)
                        && (error matches Error::Http(text) && text@
                        == "build upstream request URI: "@ + reason),
                }
            }),
    {
        let path = match path_and_query {
            Some(text) => text,
            None => "/",
        };
        match build_uri(&self.scheme, &self.authority, path) {
            Ok(uri) => Ok(uri),
            Err(reason) => Err(Error::Http(join2("build upstream request URI: ", &reason))),
        }
    }

    pub fn uses_tls(&self) -> (answer: bool)
        ensures
            answer == (self.scheme@ == "https"@),
    {
        same_text(&self.scheme, "https")
    }

    /// Whether a URI leads to the server and nowhere else.
    pub fn accepts(&self, scheme: Option<&str>, host: Option<&str>, port: Option<u16>) -> (answer:
        bool)
        ensures
            answer == (scheme is Some && scheme->Some_0@ == self.scheme@ && host is Some
                && host->Some_0@ == self.host@ && (port is None || port == Some(self.port))),
    {
        let same_scheme = match scheme {
            Some(text) => same_text(text, &self.scheme),
            None => false,
        };
        let same_host = match host {
            Some(text) => same_text(text, &self.host),
            None => false,
        };
        let same_port = match port {
            Some(number) => number == self.port,
            None => true,
        };
        same_scheme && same_host && same_port
    }
}

/// Everything that the proxy is set up from.
pub struct HttpProxyConfig {
    pub listen: SocketAddr,
    pub upstream: Upstream,
    pub upstream_ips: Vec<IpAddr>,
    pub dns: DnsConfig,
    pub ca_certificates: Vec<String>,
    pub upstream_timeout_ms: u64,
}

/// The message on why the proxy cannot be set up.
pub open spec fn proxy_error(
    listen: SocketAddr,
    upstream: Seq<char>,
    upstream_ips: Seq<IpAddr>,
    upstream_timeout_ms: u64,
) -> Option<Seq<char>> {
    if !loopback(listen.ip) {
        Some(
            "HTTP proxy listen address "@ + socket_chars(listen) + " is not a loopback address"@,
        )
    } else if upstream_timeout_ms == 0 {
        Some("upstream timeout must be greater than zero"@)
    } else if exists|i: int|
        0 <= i < upstream_ips.len() && (unspecified(#[trigger] upstream_ips[i]) || multicast(
            upstream_ips[i],
        )) {
        Some("fixed upstream IPs must be unicast, non-unspecified addresses"@)
    } else {
        match upstream_of(upstream) {
            Ok(_) => None,
            Err(message) => Some(message),
        }
    }
}

impl HttpProxyConfig {
    pub fn new(
        listen: SocketAddr,
        upstream: &str,
        upstream_ips: Vec<IpAddr>,
        dns: DnsConfig,
        ca_certificates: Vec<String>,
        upstream_timeout_ms: u64,
    ) -> (result: Result<Self, Error>)
        ensures
            match result {
                Ok(config) => {
                    &&& proxy_error(
                        listen,
                        upstream@,
                        upstream_ips@,
                        upstream_timeout_ms,
                    ) is None
                    &&& config.listen == listen
                    &&& upstream_of(upstream@) == Ok::<UpstreamView, Seq<char>>(config.upstream@)
                    &&& config.upstream_ips == upstream_ips
                    &&& config.dns == dns
                    &&& config.ca_certificates == ca_certificates
                    &&& config.upstream_timeout_ms == upstream_timeout_ms
                },
                Err(error) => proxy_error(
                    listen,
                    upstream@,
                    upstream_ips@,
                    upstream_timeout_ms,
                ) matches Some(message) && is_invalid_config(error, message),
            },
    {
        if !listen.ip.is_loopback() {
            let shown = socket_text(listen);
            return Err(
                Error::InvalidConfig(
                    join3("HTTP proxy listen address ", &shown, " is not a loopback address"),
                ),
            );
        }
        if upstream_timeout_ms == 0 {
            return Err(invalid_config("upstream timeout must be greater than zero"));
        }
        let mut i: usize = 0;
        while i < upstream_ips.len()
            invariant
                loopback(listen.ip),
                upstream_timeout_ms != 0,
                i <= upstream_ips@.len(),
                forall|k: int|
                    0 <= k < i ==> !unspecified(#[trigger] upstream_ips@[k]) && !multicast(
                        upstream_ips@[k],
                    ),
            decreases upstream_ips@.len() - i,
        {
            if upstream_ips[i].is_unspecified() || upstream_ips[i].is_multicast() {
                assert(unspecified(upstream_ips@[i as int]) || multicast(upstream_ips@[i as int]));
                return Err(
                    invalid_config("fixed upstream IPs must be unicast, non-unspecified addresses"),
                );
            }
            i += 1;
        }
        match Upstream::parse(upstream) {
            Ok(server) => Ok(
                HttpProxyConfig {
                    listen,
                    upstream: server,
                    upstream_ips,
                    dns,
                    ca_certificates,
                    upstream_timeout_ms,
                },
            ),
            Err(error) => Err(error),
        }
    }
}

/// The location that replaces the one in headers, where it has the server's
/// origin.
pub open spec fn new_upstream_location(
    headers: Map<Seq<char>, Seq<Seq<u8>>>,
    upstream: Seq<char>,
) -> Option<Seq<char>> {
    match location_text(headers) {
        Some(text) => match url_parsed(text) {
            Ok(url) => if origin_of(text) is Some && origin_of(text) == origin_of(upstream) {
                Some(relative_part(url))
            } else {
                None
            },
            Err(_) => None,
        },
        None => None,
    }
}

fn find_upstream_location(headers: &HeaderMap<HeaderValue>, upstream: &str) -> (location: Option<
    String,
>)
    ensures
        match location {
            Some(text) => new_upstream_location(header_contents(*headers), upstream@) == Some(
                text@,
            ),
            None => new_upstream_location(header_contents(*headers), upstream@) is None,
        },
{
    let text = match read_location(headers) {
        Some(text) => text,
        None => {
            return None;
        },
    };
    let url = match parse_url(&text) {
        Ok(url) => url,
        Err(_) => {
            return None;
        },
    };
    match (find_origin(&text), find_origin(upstream)) {
        (Some(found), Some(own)) => if same_text(&found, &own) {
            Some(write_relative(&url))
        } else {
            None
        },
        _ => None,
    }
}

/// Makes the `location` header relative where it has the server's origin.
pub fn rewrite_location(headers: &mut HeaderMap<HeaderValue>, upstream: &Upstream)
    ensures
        relocated(
            header_contents(*old(headers)),
            header_contents(*final(headers)),
            new_upstream_location(header_contents(*old(headers)), upstream.url@),
        ),
{
    if let Some(text) = find_upstream_location(headers, &upstream.url) {
        set_location(headers, &text);
    }
}

/// Prepares a request for the server, or gives the status of the response where
/// it cannot be sent on.
pub fn prepare_request(
    headers: &mut HeaderMap<HeaderValue>,
    upstream: &Upstream,
    path_and_query: Option<&str>,
) -> (result: Result<String, u16>)
    ensures
        ({
            let before = header_contents(*old(headers));
            let after = header_contents(*final(headers));
            let uri = uri_built(upstream.scheme@, upstream.authority@, asked_path(path_and_query));
            match result {
                Ok(text) => {
                    &&& uri == Ok::<Seq<char>, Seq<char>>(text@)
                    &&& header_key("host"@) is Some
                    &&& after == forwarded(before, upstream.authority@)
                },
                Err(status) => if uri is Err {
                    status == STATUS_BAD_REQUEST && after == before
                } else {
                    status == STATUS_BAD_GATEWAY && !can_name_host(before, upstream.authority@)
                },
            }
        }),
{
    let uri = match upstream.request_uri(path_and_query) {
        Ok(uri) => uri,
        Err(_) => {
            return Err(STATUS_BAD_REQUEST);
        },
    };
    if !forward_headers(headers, &upstream.authority) {
        return Err(STATUS_BAD_GATEWAY);
    }
    Ok(uri)
}

/// Prepares a response for the client.
pub fn prepare_response(headers: &mut HeaderMap<HeaderValue>, upstream: &Upstream)
    ensures
        relocated(
            stripped(header_contents(*old(headers))),
            header_contents(*final(headers)),
            new_upstream_location(stripped(header_contents(*old(headers))), upstream.url@),
        ),
{
    strip_hop_by_hop(headers);
    rewrite_location(headers, upstream);
}

/// What an error response says.
pub fn error_body(status: u16) -> (text: &'static str)
    ensures
        text@ == if status == STATUS_BAD_REQUEST {
            "bad request\n"@
        } else if status == STATUS_GATEWAY_TIMEOUT {
            "upstream connection timed out\n"@
        } else {
            "upstream unavailable\n"@
        },
{
    if status == STATUS_BAD_REQUEST {
        "bad request\n"
    } else if status == STATUS_GATEWAY_TIMEOUT {
        "upstream connection timed out\n"
    } else {
        "upstream unavailable\n"
    }
}

/// What is said when the proxy begins.
pub fn announce_proxy(listen: SocketAddr, upstream: &Upstream) -> (lines: Vec<String>)
    ensures
        crate::text::texts(lines@) == if upstream.scheme@ == "https"@ {
            seq![
                "HTTP proxy listening on http://"@ + socket_chars(listen) + " -> "@ + upstream.url@,
                "no TUN interface or host route was created; press Ctrl-C to stop"@,
            ]
        } else {
            seq![
                "HTTP proxy listening on http://"@ + socket_chars(listen) + " -> "@ + upstream.url@,
                "warning: HTTP upstream traffic is not protected by TLS"@,
                "no TUN interface or host route was created; press Ctrl-C to stop"@,
            ]
        },
{
    let place = socket_text(listen);
    let start = join3("HTTP proxy listening on http://", &place, " -> ");
    let mut lines: Vec<String> = Vec::new();
    assert(crate::text::texts(lines@) =~= Seq::empty());
    crate::text::push_one(&mut lines, join2(&start, &upstream.url));
    if !upstream.uses_tls() {
        crate::text::push_one(
            &mut lines,
            "warning: HTTP upstream traffic is not protected by TLS".to_owned(),
        );
    }
    crate::text::push_one(
        &mut lines,
        "no TUN interface or host route was created; press Ctrl-C to stop".to_owned(),
    );
    lines
}

/// The order of addresses: IPv4 before IPv6, then by address, then by port.
pub open spec fn address_precedes(left: SocketAddr, right: SocketAddr) -> bool {
    match (left.ip, right.ip) {
        (IpAddr::V4(a), IpAddr::V4(b)) => a.bits < b.bits || a.bits == b.bits && left.port
            < right.port,
        (IpAddr::V6(a), IpAddr::V6(b)) => a.bits < b.bits || a.bits == b.bits && left.port
            < right.port,
        (IpAddr::V4(_), IpAddr::V6(_)) => true,
        (IpAddr::V6(_), IpAddr::V4(_)) => false,
    }
}

fn comes_before(left: SocketAddr, right: SocketAddr) -> (answer: bool)
    ensures
        answer == address_precedes(left, right),
{
    match (left.ip, right.ip) {
        (IpAddr::V4(a), IpAddr::V4(b)) => a.bits < b.bits || (a.bits == b.bits && left.port
            < right.port),
        (IpAddr::V6(a), IpAddr::V6(b)) => a.bits < b.bits || (a.bits == b.bits && left.port
            < right.port),
        (IpAddr::V4(_), IpAddr::V6(_)) => true,
        (IpAddr::V6(_), IpAddr::V4(_)) => false,
    }
}

/// Addresses in ascending order, none of them twice.
pub open spec fn ascending_addresses(list: Seq<SocketAddr>) -> bool {
    forall|i: int, j: int|
        0 <= i < j < list.len() ==> #[trigger] address_precedes(list[i], list[j])
}

fn insert_address(list: &mut Vec<SocketAddr>, address: SocketAddr)
    requires
        ascending_addresses(old(list)@),
    ensures
        ascending_addresses(final(list)@),
        forall|other: SocketAddr| #[trigger]
            final(list)@.contains(other) <==> old(list)@.contains(other) || other == address,
{
    let ghost before = list@;
    let mut at: usize = 0;
    while at < list.len() && comes_before(list[at], address)
        invariant
            before == list@,
            ascending_addresses(before),
            at <= list@.len(),
            forall|k: int| 0 <= k < at ==> address_precedes(#[trigger] before[k], address),
        decreases list@.len() - at,
    {
        at += 1;
    }
    if at < list.len() && list[at] == address {
        assert(before[at as int] == address);
        return;
    }
    list.insert(at, address);
    proof {
        let after = list@;
        assert(after =~= before.insert(at as int, address));
        if at < before.len() {
            assert(address_precedes(address, before[at as int]));
        }
        assert forall|i: int, j: int| 0 <= i < j < after.len() implies #[trigger] address_precedes(
            after[i],
            after[j],
        ) by {
            if i == at {
                if j > at + 1 {
                    assert(address_precedes(before[at as int], before[j - 1]));
                }
            } else if j != at {
                let ii = if i < at {
                    i
                } else {
                    i - 1
                };
                let jj = if j < at {
                    j
                } else {
                    j - 1
                };
                assert(address_precedes(before[ii], before[jj]));
            }
        }
        assert forall|other: SocketAddr| #[trigger]
            after.contains(other) <==> before.contains(other) || other == address by {
            if before.contains(other) {
                let k = choose|k: int| 0 <= k < before.len() && before[k] == other;
                if k < at {
                    assert(after[k] == other);
                } else {
                    assert(after[k + 1] == other);
                }
            }
            if other == address {
                assert(after[at as int] == other);
            }
            if after.contains(other) && other != address {
                let k = choose|k: int| 0 <= k < after.len() && after[k] == other;
                if k < at {
                    assert(before[k] == other);
                } else {
                    assert(before[k - 1] == other);
                }
            }
        }
    }
}

/// The addresses that the session can reach: those of its family, in ascending
/// order, each once.
pub fn sort_addresses(found: &[SocketAddr], ipv4: bool) -> (sorted: Vec<SocketAddr>)
    ensures
        ascending_addresses(sorted@),
        forall|address: SocketAddr| #[trigger]
            sorted@.contains(address) <==> of_family(found@, ipv4).contains(address),
{
    let family = keep_family(found, ipv4);
    let mut sorted: Vec<SocketAddr> = Vec::new();
    let mut i: usize = 0;
    while i < family.len()
        invariant
            i <= family@.len(),
            ascending_addresses(sorted@),
            forall|address: SocketAddr| #[trigger]
                sorted@.contains(address) <==> family@.take(i as int).contains(address),
        decreases family@.len() - i,
    {
        let ghost before = sorted@;
        insert_address(&mut sorted, family[i]);
        proof {
            let head = family@.take(i as int);
            let grown = family@.take(i + 1);
            assert(grown =~= head.push(family@[i as int]));
            assert forall|address: SocketAddr| #[trigger]
                sorted@.contains(address) <==> grown.contains(address) by {
                assert(before.contains(address) <==> head.contains(address));
                if head.contains(address) {
                    let k = choose|k: int| 0 <= k < head.len() && head[k] == address;
                    assert(grown[k] == address);
                }
                if address == family@[i as int] {
                    assert(grown[i as int] == address);
                }
                if grown.contains(address) && address != family@[i as int] {
                    let k = choose|k: int| 0 <= k < grown.len() && grown[k] == address;
                    assert(head[k] == address);
                }
            }
        }
        i += 1;
    }
    assert(family@.take(i as int) =~= family@);
    sorted
}

/// The addresses of a server that needs no resolver: those that were fixed, or
/// the one that its host is. `address` is what the host writes.
pub fn fixed_upstream(
    upstream_ips: &Vec<IpAddr>,
    address: Option<IpAddr>,
    port: u16,
    ipv4: bool,
) -> (addresses: Option<Vec<SocketAddr>>)
    ensures
        match addresses {
            Some(list) => {
                &&& ascending_addresses(list@)
                &&& forall|place: SocketAddr| #[trigger]
                    list@.contains(place) <==> place.ip is V4 == ipv4 && place.port == port && (
                    if upstream_ips@.len() > 0 {
                        upstream_ips@.contains(place.ip)
                    } else {
                        address == Some(place.ip)
                    })
                &&& upstream_ips@.len() > 0 || address is Some
            },
            None => upstream_ips@.len() == 0 && address is None,
        },
{
    let mut places: Vec<SocketAddr> = Vec::new();
    if upstream_ips.len() > 0 {
        let mut i: usize = 0;
        while i < upstream_ips.len()
            invariant
                i <= upstream_ips@.len(),
                places@.len() == i,
                forall|k: int|
                    0 <= k < i ==> #[trigger] places@[k] == (SocketAddr {
                        ip: upstream_ips@[k],
                        port,
                    }),
            decreases upstream_ips@.len() - i,
        {
            places.push(SocketAddr { ip: upstream_ips[i], port });
            i += 1;
        }
    } else {
        match address {
            Some(ip) => places.push(SocketAddr { ip, port }),
            None => {
                return None;
            },
        }
    }
    let sorted = sort_addresses(places.as_slice(), ipv4);
    proof {
        let wanted = |place: SocketAddr| place.ip is V4 == ipv4;
        assert forall|place: SocketAddr| #[trigger]
            sorted@.contains(place) <==> place.ip is V4 == ipv4 && place.port == port && (
            if upstream_ips@.len() > 0 {
                upstream_ips@.contains(place.ip)
            } else {
                address == Some(place.ip)
            }) by {
            lemma_family_members(places@, ipv4, place);
            if places@.contains(place) {
                let k = choose|k: int| 0 <= k < places@.len() && places@[k] == place;
                if upstream_ips@.len() > 0 {
                    assert(upstream_ips@[k] == place.ip);
                }
            }
            if place.port == port && upstream_ips@.len() > 0 && upstream_ips@.contains(place.ip) {
                let k = choose|k: int| 0 <= k < upstream_ips@.len() && upstream_ips@[k] == place.ip;
                assert(places@[k] == place);
            }
            if place.port == port && upstream_ips@.len() == 0 && address == Some(place.ip) {
                assert(places@[0] == place);
            }
        }
    }
    Some(sorted)
}

proof fn lemma_family_members(list: Seq<SocketAddr>, ipv4: bool, place: SocketAddr)
    ensures
        of_family(list, ipv4).contains(place) <==> list.contains(place) && place.ip is V4 == ipv4,
    decreases list.len(),
{
    reveal(Seq::filter);
    if list.len() > 0 {
        let head = list.drop_last();
        lemma_family_members(head, ipv4, place);
        let before = of_family(head, ipv4);
        let after = of_family(list, ipv4);
        if list.contains(place) {
            let k = choose|k: int| 0 <= k < list.len() && list[k] == place;
            if k < head.len() {
                assert(head[k] == place);
            }
        }
        if head.contains(place) {
            let k = choose|k: int| 0 <= k < head.len() && head[k] == place;
            assert(list[k] == place);
        }
        if list.last() == place {
            assert(list[list.len() - 1] == place);
        }
        if before.contains(place) {
            let k = choose|k: int| 0 <= k < before.len() && before[k] == place;
            assert(after[k] == place);
        }
        if list.last().ip is V4 == ipv4 {
            assert(after == before.push(list.last()));
            if list.last() == place {
                assert(after[before.len() as int] == place);
            }
            if after.contains(place) && place != list.last() {
                let k = choose|k: int| 0 <= k < after.len() && after[k] == place;
                assert(before[k] == place);
            }
        } else {
            assert(after == before);
        }
    }
}

/// An upstream is an origin of http or https, without user information.
pub proof fn law_upstream_url(url: &UrlParts, result: Result<(), Error>)
    requires
        call_ensures(check_upstream_url, (url,), result),
    ensures
        result is Ok <==> {
            &&& url.scheme@ == "http"@ || url.scheme@ == "https"@
            &&& url.username@.len() == 0 && url.password is None
            &&& url.path@ == "/"@ && url.query is None && url.fragment is None
            &&& url.host_text is Some && url.port_or_default is Some
        },
{
}

/// The authority of an upstream: its host, in brackets where it is an IPv6 address,
/// and the port that its URL names.
pub proof fn law_upstream_parts(value: &str, url: UrlView, upstream: Upstream)
    requires
        call_ensures(Upstream::parse, (value,), Ok::<Upstream, Error>(upstream)),
        url_parsed(value@) == Ok::<UrlView, Seq<char>>(url),
    ensures
        url.host_text == Some(upstream.host@),
        url.port_or_default == Some(upstream.port),
        upstream.scheme@ == url.scheme,
        !(ip_of_text(upstream.host@) matches Some(IpAddr::V6(_))) && url.port is None
            ==> upstream.authority@ == upstream.host@,
        !(ip_of_text(upstream.host@) matches Some(IpAddr::V6(_))) && url.port is Some
            ==> upstream.authority@ == upstream.host@ + ":"@ + decimal(url.port->Some_0 as nat),
        (ip_of_text(upstream.host@) matches Some(IpAddr::V6(_))) && url.port is None
            ==> upstream.authority@ == "["@ + upstream.host@ + "]"@,
{
    assert(upstream_of(value@) == Ok::<UpstreamView, Seq<char>>(upstream@));
}

/// The proxy takes requests for its upstream, with the upstream's port or none.
pub proof fn law_upstream_accepts(
    upstream: &Upstream,
    scheme: Option<&str>,
    host: Option<&str>,
    port: Option<u16>,
    answer: bool,
    tls: bool,
)
    requires
        call_ensures(Upstream::accepts, (upstream, scheme, host, port), answer),
        call_ensures(Upstream::uses_tls, (upstream,), tls),
    ensures
        scheme is None || host is None ==> !answer,
        scheme is Some && host is Some ==> (answer <==> scheme->Some_0@ == upstream.scheme@
            && host->Some_0@ == upstream.host@ && (port is None || port->Some_0 == upstream.port)),
        tls <==> upstream.scheme@ == "https"@,
{
}

/// The proxy listens on the loopback interface alone, has time for its upstream, and
/// is given addresses of hosts.
pub proof fn law_proxy_settings(
    listen: SocketAddr,
    upstream: &str,
    upstream_ips: Vec<IpAddr>,
    dns: DnsConfig,
    ca_certificates: Vec<String>,
    upstream_timeout_ms: u64,
    result: Result<HttpProxyConfig, Error>,
)
    requires
        call_ensures(
            HttpProxyConfig::new,
            (listen, upstream, upstream_ips, dns, ca_certificates, upstream_timeout_ms),
            result,
        ),
    ensures
        result is Ok <==> {
            &&& listen.ip matches IpAddr::V4(v4) ==> 0x7f00_0000 <= v4.bits <= 0x7fff_ffff
            &&& listen.ip matches IpAddr::V6(v6) ==> v6.bits == 1
            &&& upstream_timeout_ms > 0
            &&& forall|i: int|
                0 <= i < upstream_ips@.len() ==> crate::cli::connector::is_unicast(
                    #[trigger] upstream_ips@[i],
                )
            &&& upstream_of(upstream@) is Ok
        },
        result matches Ok(config) ==> config.listen == listen && config.upstream_ips == upstream_ips
            && config.dns == dns && config.ca_certificates == ca_certificates
            && config.upstream_timeout_ms == upstream_timeout_ms,
{
}

/// What a request that cannot go on to the upstream is answered.
pub proof fn law_proxy_answers(code: u16, body: &'static str)
    requires
        call_ensures(error_body, (code,), body),
    ensures
        code == 400 ==> body@ == "bad request\n"@,
        code == 504 ==> body@ == "upstream connection timed out\n"@,
        code == 502 ==> body@ == "upstream unavailable\n"@,
{
}

/// A request goes on to the upstream under the upstream's authority and without the
/// headers of its connection.
pub proof fn law_proxied_request(
    upstream: &Upstream,
    path_and_query: Option<&str>,
    result: Result<String, u16>,
    key: Seq<char>,
)
    requires
        header_key("host"@) != Some(key),
    ensures
        forall|headers: &mut HeaderMap<HeaderValue>| #[trigger]
            call_ensures(prepare_request, (headers, upstream, path_and_query), result) ==> {
                let before = header_contents(*headers);
                let after = header_contents(*final(headers));
                &&& result is Err ==> result->Err_0 == 400 || result->Err_0 == 502
                &&& result is Err && result->Err_0 == 400 ==> after == before
                &&& result is Ok ==> {
                    &&& header_key("host"@) is Some
                    &&& after.dom().contains(header_key("host"@)->Some_0)
                    &&& after[header_key("host"@)->Some_0] == seq![
                        vstd::utf8::encode_utf8(upstream.authority@),
                    ]
                    &&& after.dom().contains(key) == stripped(before).dom().contains(key)
                }
                &&& result is Ok && path_and_query is Some ==> uri_built(
                    upstream.scheme@,
                    upstream.authority@,
                    path_and_query->Some_0@,
                ) == Ok::<Seq<char>, Seq<char>>(result->Ok_0@)
                &&& result is Ok && path_and_query is None ==> uri_built(
                    upstream.scheme@,
                    upstream.authority@,
                    "/"@,
                ) == Ok::<Seq<char>, Seq<char>>(result->Ok_0@)
            },
{
}

/// Addresses are tried in order: those of IPv4 by number and then by port, and those
/// of IPv6 likewise; each once, and only those of the session's family.
pub proof fn law_address_order(
    found: &[SocketAddr],
    ipv4: bool,
    sorted: Vec<SocketAddr>,
    i: int,
    j: int,
    address: SocketAddr,
)
    requires
        call_ensures(sort_addresses, (found, ipv4), sorted),
    ensures
        sorted@.contains(address) <==> found@.contains(address) && (address.ip is V4 <==> ipv4),
        0 <= i < j < sorted@.len() && ipv4 ==> (match (sorted@[i].ip, sorted@[j].ip) {
            (IpAddr::V4(a), IpAddr::V4(b)) => a.bits < b.bits || (a.bits == b.bits
                && sorted@[i].port < sorted@[j].port),
            _ => false,
        }),
        0 <= i < j < sorted@.len() && !ipv4 ==> (match (sorted@[i].ip, sorted@[j].ip) {
            (IpAddr::V6(a), IpAddr::V6(b)) => a.bits < b.bits || (a.bits == b.bits
                && sorted@[i].port < sorted@[j].port),
            _ => false,
        }),
{
    lemma_family_members(found@, ipv4, address);
    if 0 <= i < j < sorted@.len() {
        assert(address_precedes(sorted@[i], sorted@[j]));
        assert(sorted@.contains(sorted@[i]) && sorted@.contains(sorted@[j]));
        lemma_family_members(found@, ipv4, sorted@[i]);
        lemma_family_members(found@, ipv4, sorted@[j]);
    }
}

/// An upstream with given addresses is not looked up, nor is one that is an address.
pub proof fn law_fixed_upstream(
    upstream_ips: &Vec<IpAddr>,
    address: Option<IpAddr>,
    port: u16,
    ipv4: bool,
    addresses: Option<Vec<SocketAddr>>,
    ip: IpAddr,
)
    requires
        call_ensures(fixed_upstream, (upstream_ips, address, port, ipv4), addresses),
    ensures
        addresses is None <==> upstream_ips@.len() == 0 && address is None,
        (addresses is Some && upstream_ips@.len() > 0) ==> (addresses->Some_0@.contains(
            SocketAddr { ip, port },
        ) <==> upstream_ips@.contains(ip) && (ip is V4 <==> ipv4)),
        (addresses is Some && upstream_ips@.len() == 0) ==> (addresses->Some_0@.contains(
            SocketAddr { ip, port },
        ) <==> address == Some(ip) && (ip is V4 <==> ipv4)),
{
}

/// What a proxy tells when it starts: where it listens and what it leads to, and for
/// http that nothing protects what it sends.
pub proof fn law_announced_proxy(listen: SocketAddr, upstream: &Upstream, lines: Vec<String>)
    requires
        call_ensures(announce_proxy, (listen, upstream), lines),
    ensures
        lines@[0]@ == "HTTP proxy listening on http://"@ + socket_chars(listen) + " -> "@
            + upstream.url@,
        upstream.scheme@ == "https"@ ==> lines@.len() == 2 && lines@[1]@
            == "no TUN interface or host route was created; press Ctrl-C to stop"@,
        upstream.scheme@ != "https"@ ==> lines@.len() == 3 && lines@[1]@
            == "warning: HTTP upstream traffic is not protected by TLS"@ && lines@[2]@
            == "no TUN interface or host route was created; press Ctrl-C to stop"@,
{
    let shown = crate::text::texts(lines@);
    assert(shown.len() == lines@.len());
    assert(shown[0] == lines@[0]@ && shown[1] == lines@[1]@);
    if shown.len() == 3 {
        assert(shown[2] == lines@[2]@);
    }
}

/// Why an upstream is refused, in the order in which its URL is looked at.
pub proof fn law_upstream_refusals(url: &UrlParts, error: Error)
    requires
        call_ensures(check_upstream_url, (url,), Err::<(), Error>(error)),
    ensures
        url.scheme@ != "http"@ && url.scheme@ != "https"@ ==> is_invalid_config(
            error,
            "upstream URL must use http or https"@,
        ),
        (url.scheme@ == "http"@ || url.scheme@ == "https"@) && (url.username@.len() > 0
            || url.password is Some) ==> is_invalid_config(
            error,
            "upstream URL must not contain user information"@,
        ),
        (url.scheme@ == "http"@ || url.scheme@ == "https"@) && url.username@.len() == 0
            && url.password is None && (url.path@ != "/"@ || url.query is Some
            || url.fragment is Some) ==> is_invalid_config(
            error,
            "upstream URL must be an origin without a path, query, or fragment"@,
        ),
{
}

/// A location on the upstream becomes relative to the proxy, and one elsewhere, or
/// that cannot be read, stays.
pub proof fn law_upstream_location(upstream: &Upstream, text: Seq<char>)
    ensures
        forall|headers: &mut HeaderMap<HeaderValue>| #[trigger]
            call_ensures(rewrite_location, (headers, upstream), ()) ==> {
                let before = header_contents(*headers);
                let after = header_contents(*final(headers));
                &&& location_text(before) is None ==> after == before
                &&& location_text(before) == Some(text) && url_parsed(text) is Err ==> after
                    == before
                &&& location_text(before) == Some(text) && origin_of(text) != origin_of(
                    upstream.url@,
                ) ==> after == before
                &&& location_text(before) == Some(text) && origin_of(text) is None ==> after
                    == before
                &&& location_text(before) == Some(text) && url_parsed(text) is Ok && origin_of(
                    text,
                ) is Some && origin_of(text) == origin_of(upstream.url@) && after != before ==> {
                    let url = url_parsed(text)->Ok_0;
                    &&& header_key("location"@) is Some
                    &&& url.query is None && url.fragment is None
                        ==> after[header_key("location"@)->Some_0] == seq![
                        vstd::utf8::encode_utf8(url.path),
                    ]
                }
            },
{
    if url_parsed(text) is Ok {
        let url = url_parsed(text)->Ok_0;
        if url.query is None && url.fragment is None {
            assert(relative_part(url) =~= url.path);
        }
    }
}

} // verus!
