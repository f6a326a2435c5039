//! Forwarded connections: targets, resolvers and limits.

use crate::cli::uri::{check_authority, check_server_name, parse_url, UrlHost, UrlParts};
use crate::cli::uri::{
    authority_error, host_view, server_name_error, url_parsed, UrlHostView, UrlView,
};
use crate::dns::message::{read_ascii_name, AsciiName};
use crate::dns::message::{ascii_name, AsciiNameView};
use crate::error::{invalid_config, Error};
use crate::error::is_invalid_config;
use crate::net::{ip_text, parse_ip, IpAddr, Ipv4Addr, Ipv6Addr};
use crate::net::{ip_chars, ip_of_text, multicast, unspecified};
use crate::text::{
    chars_of, decimal_text, join2, join3, push_text, quoted, same_text, split_once, string_of, trim,
};
use crate::text::{
    contains_text, decimal, lemma_split_first, occurs_at, quoted_text, split_first, trimmed,
};
use vstd::prelude::*;

verus! {

/// The kinds of targets.
#[derive(Debug, Clone, Copy, PartialEq, Eq, Structural)]
pub enum TargetScheme {
    Tcp,
    Http,
    Https,
}

impl TargetScheme {
    pub open spec fn name(self) -> Seq<char> {
        match self {
            TargetScheme::Tcp => "tcp"@,
            TargetScheme::Http => "http"@,
            TargetScheme::Https => "https"@,
        }
    }

    pub fn as_str(self) -> (text: &'static str)
        ensures
            text@ == self.name(),
    {
        match self {
            TargetScheme::Tcp => "tcp",
            TargetScheme::Http => "http",
            TargetScheme::Https => "https",
        }
    }
}

/// Where connections are forwarded to.
#[derive(Debug, Clone)]
pub struct Target {
    pub scheme: TargetScheme,
    pub host: String,
    pub authority: String,
    pub port: u16,
}

#[verifier::ext_equal]
pub struct TargetView {
    pub scheme: TargetScheme,
    pub host: Seq<char>,
    pub authority: Seq<char>,
    pub port: u16,
}

impl View for Target {
    type V = TargetView;

    open spec fn view(&self) -> TargetView {
        TargetView {
            scheme: self.scheme,
            host: self.host@,
            authority: self.authority@,
            port: self.port,
        }
    }
}

/// The scheme that a URL has, if it is one that can be forwarded to.
pub open spec fn scheme_of(text: Seq<char>) -> Option<TargetScheme> {
    if text == "tcp"@ {
        Some(TargetScheme::Tcp)
    } else if text == "http"@ {
        Some(TargetScheme::Http)
    } else if text == "https"@ {
        Some(TargetScheme::Https)
    } else {
        None
    }
}

/// The path that a URL without a path has.
pub open spec fn bare_path(scheme: TargetScheme) -> Seq<char> {
    match scheme {
        TargetScheme::Tcp => Seq::empty(),
        _ => "/"@,
    }
}

/// The scheme of a URL that is an origin and nothing else, or the message on
/// why it is none. `has_at` tells whether its authority holds an at sign.
pub open spec fn origin_scheme(url: UrlView, has_at: bool) -> Result<TargetScheme, Seq<char>> {
    match scheme_of(url.scheme) {
        Some(scheme) => if has_at || url.username.len() > 0 || url.password is Some {
            Err("forward target URI must not contain user information"@)
        } else if url.path != bare_path(scheme) || url.query is Some || url.fragment is Some {
            Err("forward target must be an origin without a path, query, or fragment"@)
        } else {
            Ok(scheme)
        },
        None => Err(
            "unsupported forward target scheme "@ + quoted_text(url.scheme)
                + "; use tcp, http, or https"@,
        ),
    }
}

pub fn check_origin(url: &UrlParts, has_at: bool) -> (result: Result<TargetScheme, Error>)
    ensures
        match result {
            Ok(scheme) => origin_scheme(url@, has_at) == Ok::<TargetScheme, Seq<char>>(scheme),
            Err(error) => origin_scheme(url@, has_at) matches Err(message) && is_invalid_config(
                error,
                message,
            ),
        },
{
    let scheme = if same_text(&url.scheme, "tcp") {
        TargetScheme::Tcp
    } else if same_text(&url.scheme, "http") {
        TargetScheme::Http
    } else if same_text(&url.scheme, "https") {
        TargetScheme::Https
    } else {
        let shown = quoted(&url.scheme);
        return Err(
            Error::InvalidConfig(
                join3(
                    "unsupported forward target scheme ",
                    &shown,
                    "; use tcp, http, or https",
                ),
            ),
        );
    };
    let username = chars_of(&url.username);
    if has_at || username.len() > 0 || url.password.is_some() {
        return Err(invalid_config("forward target URI must not contain user information"));
    }
    let bare = match scheme {
        TargetScheme::Tcp => {
            let path = chars_of(&url.path);
            assert(path@.len() == 0 ==> path@ =~= Seq::<char>::empty());
            path.len() == 0
        },
        _ => same_text(&url.path, "/"),
    };
    if !bare || url.query.is_some() || url.fragment.is_some() {
        return Err(
            invalid_config("forward target must be an origin without a path, query, or fragment"),
        );
    }
    Ok(scheme)
}

/// What a domain of a URL is as a host, given how it reads as a name, or the
/// message on why it is none.
pub open spec fn domain_host(
    domain: Seq<char>,
    name: Result<AsciiNameView, Seq<char>>,
) -> Result<Seq<char>, Seq<char>> {
    match name {
        Ok(parsed) => if parsed.labels.len() == 0 && parsed.fully_qualified {
            Err("forward target URI must contain a non-root host"@)
        } else {
            Ok(domain)
        },
        Err(reason) => Err(
            "invalid forward target host "@ + quoted_text(domain) + ": "@ + reason,
        ),
    }
}

pub open spec fn name_view(name: Result<AsciiName, String>) -> Result<AsciiNameView, Seq<char>> {
    match name {
        Ok(parsed) => Ok(parsed@),
        Err(reason) => Err(reason@),
    }
}

pub fn host_of_domain(domain: &str, name: Result<AsciiName, String>) -> (result: Result<
    String,
    Error,
>)
    ensures
        match result {
            Ok(host) => domain_host(domain@, name_view(name)) == Ok::<Seq<char>, Seq<char>>(host@),
            Err(error) => domain_host(domain@, name_view(name)) matches Err(message)
                && is_invalid_config(error, message),
        },
{
    match name {
        Ok(parsed) => {
            if parsed.labels.len() == 0 && parsed.fully_qualified {
                return Err(invalid_config("forward target URI must contain a non-root host"));
            }
            Ok(domain.to_owned())
        },
        Err(reason) => {
            let shown = quoted(domain);
            let start = join3("invalid forward target host ", &shown, ": ");
            Err(Error::InvalidConfig(join2(&start, &reason)))
        },
    }
}

/// A host that is no address or one that can be connected to.
pub open spec fn host_error(address: Option<IpAddr>) -> Option<Seq<char>> {
    match address {
        Some(ip) => if unspecified(ip) || multicast(ip) {
            Some("forward target must be a unicast, non-unspecified address"@)
        } else {
            None
        },
        None => None,
    }
}

pub fn check_host_address(address: Option<IpAddr>) -> (result: Result<(), Error>)
    ensures
        match result {
            Ok(_) => host_error(address) is None,
            Err(error) => host_error(address) matches Some(message) && is_invalid_config(
                error,
                message,
            ),
        },
{
    if let Some(ip) = address {
        if ip.is_unspecified() || ip.is_multicast() {
            return Err(invalid_config("forward target must be a unicast, non-unspecified address"));
        }
    }
    Ok(())
}

/// The host of a URL as a text, or the message on why it has none to connect to.
pub open spec fn url_host(host: Option<UrlHostView>) -> Result<Seq<char>, Seq<char>> {
    let text = match host {
        Some(UrlHostView::Domain(domain)) => domain_host(domain, ascii_name(domain)),
        Some(UrlHostView::Ipv4(bits)) => Ok(ip_chars(IpAddr::V4(Ipv4Addr { bits }))),
        Some(UrlHostView::Ipv6(bits)) => Ok(ip_chars(IpAddr::V6(Ipv6Addr { bits }))),
        None => Err("forward target URI has no host"@),
    };
    match text {
        Ok(chars) => match host_error(ip_of_text(chars)) {
            Some(message) => Err(message),
            None => Ok(chars),
        },
        Err(message) => Err(message),
    }
}

pub fn parse_target_host(host: &Option<UrlHost>) -> (result: Result<String, Error>)
    ensures
        match result {
            Ok(text) => url_host(host_view(*host)) == Ok::<Seq<char>, Seq<char>>(text@),
            Err(error) => url_host(host_view(*host)) matches Err(message) && is_invalid_config(
                error,
                message,
            ),
        },
{
    let text = match host {
        Some(UrlHost::Domain(domain)) => {
            let name = read_ascii_name(domain);
            match host_of_domain(domain, name) {
                Ok(text) => text,
                Err(error) => {
                    return Err(error);
                },
            }
        },
        Some(UrlHost::Ipv4(bits)) => ip_text(IpAddr::V4(Ipv4Addr { bits: *bits })),
        Some(UrlHost::Ipv6(bits)) => ip_text(IpAddr::V6(Ipv6Addr { bits: *bits })),
        None => {
            return Err(invalid_config("forward target URI has no host"));
        },
    };
    match check_host_address(parse_ip(&text)) {
        Ok(_) => Ok(text),
        Err(error) => Err(error),
    }
}

/// The port of a target, or the message on why it has none.
pub open spec fn port_of(
    scheme: TargetScheme,
    explicit: Option<u16>,
    with_default: Option<u16>,
) -> Result<u16, Seq<char>> {
    let port = if scheme == TargetScheme::Tcp {
        explicit
    } else {
        with_default
    };
    match port {
        Some(number) => if number == 0 {
            Err("forward target port must be nonzero"@)
        } else {
            Ok(number)
        },
        None => Err("tcp:// forward targets must include an explicit port"@),
    }
}

pub fn target_port(
    scheme: TargetScheme,
    explicit: Option<u16>,
    with_default: Option<u16>,
) -> (result: Result<u16, Error>)
    requires
        scheme != TargetScheme::Tcp ==> with_default is Some,
    ensures
        match result {
            Ok(port) => port_of(scheme, explicit, with_default) == Ok::<u16, Seq<char>>(port),
            Err(error) => port_of(scheme, explicit, with_default) matches Err(message)
                && is_invalid_config(error, message),
        },
{
    let port = if scheme == TargetScheme::Tcp {
        explicit
    } else {
        with_default
    };
    match port {
        Some(number) => {
            if number == 0 {
                return Err(invalid_config("forward target port must be nonzero"));
            }
            Ok(number)
        },
        None => Err(invalid_config("tcp:// forward targets must include an explicit port")),
    }
}

/// The authority of a target: brackets around an IPv6 address, and the port
/// unless HTTP goes without one.
pub open spec fn authority_text(
    scheme: TargetScheme,
    host: Seq<char>,
    is_ipv6: bool,
    port: u16,
    explicit: Option<u16>,
) -> Seq<char> {
    let shown = if is_ipv6 {
        seq!['['] + host + seq![']']
    } else {
        host
    };
    match (scheme, explicit) {
        (TargetScheme::Tcp, _) => shown + seq![':'] + decimal(port as nat),
        (_, Some(number)) => shown + seq![':'] + decimal(number as nat),
        (_, None) => shown,
    }
}

pub fn target_authority(
    scheme: TargetScheme,
    host: &str,
    is_ipv6: bool,
    port: u16,
    explicit: Option<u16>,
) -> (authority: String)
    ensures
        authority@ == authority_text(scheme, host@, is_ipv6, port, explicit),
{
    let mut authority = String::new();
    if is_ipv6 {
        authority.push('[');
    }
    push_text(&mut authority, host);
    if is_ipv6 {
        authority.push(']');
        assert(authority@ =~= seq!['['] + host@ + seq![']']);
    } else {
        assert(authority@ =~= host@);
    }
    let shown = if scheme == TargetScheme::Tcp {
        Some(port)
    } else {
        explicit
    };
    if let Some(number) = shown {
        authority.push(':');
        let digits = decimal_text(number as u64);
        push_text(&mut authority, &digits);
        assert(authority@ =~= authority_text(scheme, host@, is_ipv6, port, explicit));
    }
    authority
}

/// Whether the authority in what follows `://` holds an at sign.
pub open spec fn authority_has_at(rest: Seq<char>) -> bool {
    exists|i: int|
        0 <= i < rest.len() && #[trigger] rest[i] == '@' && forall|k: int|
            0 <= k < i ==> #[trigger] rest[k] != '/' && rest[k] != '?' && rest[k] != '#'
}

fn find_at(rest: &[char]) -> (answer: bool)
    ensures
        answer == authority_has_at(rest@),
{
    let mut i: usize = 0;
    while i < rest.len()
        invariant
            i <= rest@.len(),
            forall|k: int|
                0 <= k < i ==> #[trigger] rest@[k] != '/' && rest@[k] != '?' && rest@[k] != '#'
                    && rest@[k] != '@',
        decreases rest@.len() - i,
    {
        let character: char = rest[i];
        if character == '@' {
            assert(rest@[i as int] == '@');
            return true;
        }
        if character == '/' || character == '?' || character == '#' {
            assert(!authority_has_at(rest@)) by {
                if authority_has_at(rest@) {
                    let at = choose|at: int|
                        0 <= at < rest@.len() && #[trigger] rest@[at] == '@' && forall|k: int|
                            0 <= k < at ==> #[trigger] rest@[k] != '/' && rest@[k] != '?'
                                && rest@[k] != '#';
                    assert(at > i);
                    assert(rest@[i as int] != '/' && rest@[i as int] != '?' && rest@[i as int]
                        != '#');
                }
            }
            return false;
        }
        i += 1;
    }
    false
}

/// The target that a URL is, or the message on why it is none.
pub open spec fn target_of_url(url: UrlView, has_at: bool) -> Result<TargetView, Seq<char>> {
    match origin_scheme(url, has_at) {
        Ok(scheme) => match url_host(url.host) {
            Ok(host) => match port_of(scheme, url.port, url.port_or_default) {
                Ok(port) => {
                    let is_ipv6 = ip_of_text(host) matches Some(IpAddr::V6(_));
                    let authority = authority_text(scheme, host, is_ipv6, port, url.port);
                    if scheme == TargetScheme::Https && server_name_error(host) is Some {
                        Err(
                            "HTTPS target host is not a valid TLS server identity: "@
                                + server_name_error(host)->Some_0,
                        )
                    } else if authority_error(authority) is Some {
                        Err(
                            "invalid forward target authority: "@ + authority_error(
                                authority,
                            )->Some_0,
                        )
                    } else {
                        Ok(TargetView { scheme, host, authority, port })
                    }
                },
                Err(message) => Err(message),
            },
            Err(message) => Err(message),
        },
        Err(message) => Err(message),
    }
}

/// The target that a text writes, or the message on why it writes none.
pub open spec fn target_of(text: Seq<char>) -> Result<TargetView, Seq<char>> {
    let value = trimmed(text);
    if value.len() == 0 {
        Err("forward target must not be empty"@)
    } else {
        match split_first(value, "://"@) {
            Some(parts) => match url_parsed(value) {
                Ok(url) => target_of_url(url, authority_has_at(parts.1)),
                Err(reason) => Err(
                    "invalid forward target URI; use tcp://, http://, or https://: "@ + reason,
                ),
            },
            None => Err(
                "forward target must be an absolute URI using tcp://, http://, or https://"@,
            ),
        }
    }
}

impl Target {
    /// Reads a target such as `tcp://host:port` or `https://host`.
    pub fn parse(value: &str) -> (result: Result<Self, Error>)
        ensures
            match result {
                Ok(target) => target_of(value@) == Ok::<TargetView, Seq<char>>(target@),
                Err(error) => target_of(value@) matches Err(message) && is_invalid_config(
                    error,
                    message,
                ),
            },
    {
        let all = chars_of(value);
        let kept = trim(all.as_slice());
        if kept.len() == 0 {
            return Err(invalid_config("forward target must not be empty"));
        }
        let text = string_of(kept.as_slice());
        let rest = match split_once(kept.as_slice(), "://") {
            Some(parts) => parts.1,
            None => {
                return Err(
                    invalid_config(
                        "forward target must be an absolute URI using tcp://, http://, or https://",
                    ),
                );
            },
        };
        let has_at = find_at(rest.as_slice());
        match parse_url(&text) {
            Ok(url) => Target::from_url(url, has_at),
            Err(reason) => Err(
                Error::InvalidConfig(
                    join2(
                        "invalid forward target URI; use tcp://, http://, or https://: ",
                        &reason,
                    ),
                ),
            ),
        }
    }

    /// The target that a URL is. A URL over HTTP or HTTPS has a port by default.
    pub fn from_url(url: UrlParts, has_at: bool) -> (result: Result<Self, Error>)
        requires
            url.scheme@ == "http"@ || url.scheme@ == "https"@ ==> url.port_or_default is Some,
        ensures
            match result {
                Ok(target) => target_of_url(url@, has_at) == Ok::<TargetView, Seq<char>>(target@),
                Err(error) => target_of_url(url@, has_at) matches Err(message)
                    && is_invalid_config(error, message),
            },
    {
        let scheme = match check_origin(&url, has_at) {
            Ok(scheme) => scheme,
            Err(error) => {
                return Err(error);
            },
        };
        let host = match parse_target_host(&url.host) {
            Ok(host) => host,
            Err(error) => {
                return Err(error);
            },
        };
        let port = match target_port(scheme, url.port, url.port_or_default) {
            Ok(port) => port,
            Err(error) => {
                return Err(error);
            },
        };
        if scheme == TargetScheme::Https {
            match check_server_name(&host) {
                Ok(_) => {},
                Err(reason) => {
                    return Err(
                        Error::InvalidConfig(
                            join2(
                                "HTTPS target host is not a valid TLS server identity: ",
                                &reason,
                            ),
                        ),
                    );
                },
            }
        }
        let is_ipv6 = match parse_ip(&host) {
            Some(IpAddr::V6(_)) => true,
            _ => false,
        };
        let authority = target_authority(scheme, &host, is_ipv6, port, url.port);
        match check_authority(&authority) {
            Ok(_) => {},
            Err(reason) => {
                return Err(
                    Error::InvalidConfig(join2("invalid forward target authority: ", &reason)),
                );
            },
        }
        Ok(Target { scheme, host, authority, port })
    }

    /// The target as it is shown.
    pub fn display(&self) -> (text: String)
        ensures
            text@ == self.scheme.name() + "://"@ + self.authority@,
    {
        join3(self.scheme.as_str(), "://", &self.authority)
    }

    pub fn is_http(&self) -> (answer: bool)
        ensures
            answer == (self.scheme != TargetScheme::Tcp),
    {
        self.scheme != TargetScheme::Tcp
    }

    pub fn uses_tls(&self) -> (answer: bool)
        ensures
            answer == (self.scheme == TargetScheme::Https),
    {
        self.scheme == TargetScheme::Https
    }
}

/// Reads the value of the target option: the text without white space around it.
pub fn parse_target_argument(value: &str) -> (result: Result<String, String>)
    ensures
        match result {
            Ok(text) => target_of(value@) is Ok && text@ == trimmed(value@),
            Err(reason) => target_of(value@) matches Err(message) && reason@
                == "invalid configuration: "@ + message,
        },
{
    match Target::parse(value) {
        Ok(_) => Ok(crate::text::trim_text(value)),
        Err(error) => Err(error.to_string()),
    }
}

/// A target is an origin: one of three schemes, no user information, and nothing
/// behind the authority but the slash that http and https have.
pub proof fn law_origin(url: &UrlParts, has_at: bool, result: Result<TargetScheme, Error>)
    requires
        call_ensures(check_origin, (url, has_at), result),
    ensures
        result is Ok <==> {
            &&& url.scheme@ == "tcp"@ || url.scheme@ == "http"@ || url.scheme@ == "https"@
            &&& !has_at && url.username@.len() == 0 && url.password is None
            &&& url.query is None && url.fragment is None
            &&& url.scheme@ == "tcp"@ ==> url.path@.len() == 0
            &&& url.scheme@ != "tcp"@ ==> url.path@ == "/"@
        },
        result matches Ok(scheme) ==> {
            &&& scheme is Tcp <==> url.scheme@ == "tcp"@
            &&& scheme is Http <==> url.scheme@ == "http"@
            &&& scheme is Https <==> url.scheme@ == "https"@
        },
{
    reveal_strlit("tcp");
    reveal_strlit("http");
    reveal_strlit("https");
    assert("tcp"@.len() != "http"@.len() && "http"@.len() != "https"@.len() && "tcp"@.len()
        != "https"@.len());
    if url.path@.len() == 0 {
        assert(url.path@ =~= Seq::<char>::empty());
    }
}

/// The port of a target: for tcp it must be named, and for http and https the
/// scheme's own stands in; it is never zero.
pub proof fn law_target_port(
    scheme: TargetScheme,
    explicit: Option<u16>,
    with_default: Option<u16>,
    result: Result<u16, Error>,
)
    requires
        scheme != TargetScheme::Tcp ==> with_default is Some,
        call_ensures(target_port, (scheme, explicit, with_default), result),
    ensures
        scheme is Tcp ==> (result is Ok <==> explicit is Some && explicit != Some(0u16)),
        scheme is Tcp && result is Ok ==> explicit == Some(result->Ok_0),
        !(scheme is Tcp) ==> (result is Ok <==> with_default != Some(0u16)),
        !(scheme is Tcp) && result is Ok ==> with_default == Some(result->Ok_0),
{
}

/// The authority of a target: its host, in brackets where it is an IPv6 address,
/// and its port where that is named or the target is of tcp.
pub proof fn law_authority(
    scheme: TargetScheme,
    host: &str,
    is_ipv6: bool,
    port: u16,
    explicit: Option<u16>,
    authority: String,
)
    requires
        call_ensures(target_authority, (scheme, host, is_ipv6, port, explicit), authority),
    ensures
        ({
            let shown = if is_ipv6 {
                seq!['['] + host@ + seq![']']
            } else {
                host@
            };
            &&& scheme is Tcp ==> authority@ == shown + seq![':'] + decimal(port as nat)
            &&& !(scheme is Tcp) && explicit is None ==> authority@ == shown
            &&& !(scheme is Tcp) && explicit is Some ==> authority@ == shown + seq![':'] + decimal(
                explicit->Some_0 as nat,
            )
        }),
{
}

/// A target's address must be that of one host.
pub proof fn law_target_address(address: Option<IpAddr>, result: Result<(), Error>)
    requires
        call_ensures(check_host_address, (address,), result),
    ensures
        address is None ==> result is Ok,
        address matches Some(IpAddr::V4(v4)) ==> (result is Ok <==> v4.bits != 0 && !(0xe000_0000
            <= v4.bits <= 0xefff_ffff)),
        address matches Some(IpAddr::V6(v6)) ==> (result is Ok <==> v6.bits != 0 && v6.bits
            < 0xff00_0000_0000_0000_0000_0000_0000_0000),
{
}

/// A target's name is kept as it is; the root of names, and what is no name, is
/// refused.
pub proof fn law_target_name(
    domain: &str,
    name: Result<AsciiName, String>,
    result: Result<String, Error>,
)
    requires
        call_ensures(host_of_domain, (domain, name), result),
    ensures
        name is Err ==> result is Err,
        name matches Ok(parsed) ==> (result is Err <==> parsed@.labels.len() == 0
            && parsed@.fully_qualified),
        result matches Ok(host) ==> host@ == domain@,
{
}

/// What a target is made of: the scheme and the port of its URI, and a host that is
/// shown in its authority.
pub proof fn law_target_of_uri(url: UrlParts, has_at: bool, result: Result<Target, Error>)
    requires
        url.scheme@ == "http"@ || url.scheme@ == "https"@ ==> url.port_or_default is Some,
        call_ensures(Target::from_url, (url, has_at), result),
    ensures
        has_at || url.username@.len() > 0 || url.password is Some ==> result is Err,
        url.query is Some || url.fragment is Some || url.host is None ==> result is Err,
        url.scheme@ == "tcp"@ && url.port is None ==> result is Err,
        result matches Ok(target) ==> {
            &&& url.scheme@ == "tcp"@ ==> target.scheme is Tcp && url.port == Some(target.port)
            &&& url.scheme@ == "http"@ ==> target.scheme is Http && url.port_or_default == Some(
                target.port,
            )
            &&& url.scheme@ == "https"@ ==> target.scheme is Https && url.port_or_default == Some(
                target.port,
            )
            &&& target.port > 0
            &&& url.host matches Some(UrlHost::Domain(name)) ==> target.host@ == name@
            &&& url.host matches Some(UrlHost::Ipv4(bits)) ==> target.host@ == ip_chars(
                IpAddr::V4(Ipv4Addr { bits }),
            )
        },
{
    reveal_strlit("tcp");
    reveal_strlit("http");
    reveal_strlit("https");
    assert("tcp"@.len() != "http"@.len() && "http"@.len() != "https"@.len() && "tcp"@.len()
        != "https"@.len());
}

/// A target with user information is refused, also where what stands in front of
/// the at sign is empty.
pub proof fn law_no_user_information(
    value: &str,
    scheme: Seq<char>,
    user: Seq<char>,
    rest: Seq<char>,
    result: Result<Target, Error>,
)
    requires
        call_ensures(Target::parse, (value,), result),
        trimmed(value@) == scheme + "://"@ + (user + seq!['@'] + rest),
        !scheme.contains(':'),
        !user.contains('/') && !user.contains('?') && !user.contains('#'),
    ensures
        result is Err,
{
    reveal_strlit("://");
    let text = trimmed(value@);
    let needle = "://"@;
    let at = scheme.len() as int;
    let tail = user + seq!['@'] + rest;
    assert(needle[0] == ':');
    assert(text.subrange(at, at + 3) =~= needle);
    assert forall|k: int| 0 <= k < at implies !occurs_at(text, needle, k) by {
        if occurs_at(text, needle, k) {
            assert(text.subrange(k, k + 3)[0] == scheme[k]);
        }
    }
    lemma_split_first(text, needle, at);
    assert(text.skip(at + 3) =~= tail);
    let i = user.len() as int;
    assert(tail[i] == '@');
    assert forall|k: int| 0 <= k < i implies #[trigger] tail[k] != '/' && tail[k] != '?' && tail[k]
        != '#' by {
        assert(tail[k] == user[k]);
    }
    assert(authority_has_at(tail));
}

/// How a target is shown, and what its scheme means.
pub proof fn law_target_traits(target: &Target, shown: String, http: bool, tls: bool)
    requires
        call_ensures(Target::display, (target,), shown),
        call_ensures(Target::is_http, (target,), http),
        call_ensures(Target::uses_tls, (target,), tls),
    ensures
        target.scheme is Tcp ==> shown@ == "tcp"@ + "://"@ + target.authority@ && !http && !tls,
        target.scheme is Http ==> shown@ == "http"@ + "://"@ + target.authority@ && http && !tls,
        target.scheme is Https ==> shown@ == "https"@ + "://"@ + target.authority@ && http && tls,
{
}

/// A target on the command line is checked and taken without the space around it.
pub proof fn law_target_argument(
    value: &str,
    result: Result<String, String>,
    parsed: Result<Target, Error>,
)
    requires
        call_ensures(parse_target_argument, (value,), result),
        call_ensures(Target::parse, (value,), parsed),
    ensures
        result is Ok <==> parsed is Ok,
        result matches Ok(text) ==> text@ == trimmed(value@),
{
}

/// A target is an absolute URI: an empty text, and one without a scheme, is none, and
/// one that can be read is a target where its parts make one.
pub proof fn law_absolute_target(
    value: &str,
    result: Result<Target, Error>,
    scheme: Seq<char>,
    rest: Seq<char>,
)
    requires
        call_ensures(Target::parse, (value,), result),
    ensures
        trimmed(value@).len() == 0 ==> result is Err,
        !contains_text(trimmed(value@), "://"@) ==> result is Err,
        url_parsed(trimmed(value@)) is Err ==> result is Err,
        (trimmed(value@) == scheme + "://"@ + rest && !scheme.contains(':') && !rest.contains('@')
            && url_parsed(trimmed(value@)) is Ok) ==> {
            let url = url_parsed(trimmed(value@))->Ok_0;
            &&& result is Ok <==> target_of_url(url, false) is Ok
            &&& result matches Ok(target) ==> target_of_url(url, false) == Ok::<
                TargetView,
                Seq<char>,
            >(target@)
        },
{
    reveal_strlit("://");
    let text = trimmed(value@);
    let needle = "://"@;
    if text == scheme + needle + rest && !scheme.contains(':') && !rest.contains('@') {
        let at = scheme.len() as int;
        assert(needle[0] == ':');
        assert(text.subrange(at, at + 3) =~= needle);
        assert forall|k: int| 0 <= k < at implies !occurs_at(text, needle, k) by {
            if occurs_at(text, needle, k) {
                assert(text.subrange(k, k + 3)[0] == scheme[k]);
            }
        }
        lemma_split_first(text, needle, at);
        assert(text.skip(at + 3) =~= rest);
        assert(!authority_has_at(rest));
        assert(text.len() > 0);
    }
}

} // verus!
