//! URIs and their parts.

use crate::text::{chars_of, same_text};
use hyper::http::uri::{Authority, Builder};
use rustls::pki_types::ServerName;
use url::{Host, Origin, Url};
use vstd::prelude::*;

verus! {

/// The host of a URL.
pub enum UrlHost {
    Domain(String),
    Ipv4(u32),
    Ipv6(u128),
}

/// A URL taken apart.
pub struct UrlParts {
    pub scheme: String,
    pub username: String,
    pub password: Option<String>,
    pub host: Option<UrlHost>,
    pub host_text: Option<String>,
    pub port: Option<u16>,
    pub port_or_default: Option<u16>,
    pub path: String,
    pub query: Option<String>,
    pub fragment: Option<String>,
}

pub enum UrlHostView {
    Domain(Seq<char>),
    Ipv4(u32),
    Ipv6(u128),
}

/// A URL with texts as sequences.
#[verifier::ext_equal]
pub struct UrlView {
    pub scheme: Seq<char>,
    pub username: Seq<char>,
    pub password: Option<Seq<char>>,
    pub host: Option<UrlHostView>,
    pub host_text: Option<Seq<char>>,
    pub port: Option<u16>,
    pub port_or_default: Option<u16>,
    pub path: Seq<char>,
    pub query: Option<Seq<char>>,
    pub fragment: Option<Seq<char>>,
}

pub open spec fn host_view(host: Option<UrlHost>) -> Option<UrlHostView> {
    match host {
        Some(UrlHost::Domain(name)) => Some(UrlHostView::Domain(name@)),
        Some(UrlHost::Ipv4(bits)) => Some(UrlHostView::Ipv4(bits)),
        Some(UrlHost::Ipv6(bits)) => Some(UrlHostView::Ipv6(bits)),
        None => None,
    }
}

pub open spec fn optional(text: Option<String>) -> Option<Seq<char>> {
    match text {
        Some(value) => Some(value@),
        None => None,
    }
}

impl View for UrlParts {
    type V = UrlView;

    open spec fn view(&self) -> UrlView {
        UrlView {
            scheme: self.scheme@,
            username: self.username@,
            password: optional(self.password),
            host: host_view(self.host),
            host_text: optional(self.host_text),
            port: self.port,
            port_or_default: self.port_or_default,
            path: self.path@,
            query: optional(self.query),
            fragment: optional(self.fragment),
        }
    }
}

/// The host of the URL that a text writes, if it has one.
pub uninterp spec fn url_host(text: Seq<char>) -> Option<UrlHostView>;

/// `url::Url::host` gives the host of a URL that `url::Url::parse` read.
#[verifier::external_body]
fn parse_url_host(text: &str) -> (host: Option<UrlHost>)
    ensures
        host_view(host) == url_host(text@),
{
    let url = Url::parse(text).ok()?;
    url.host().map(|host| match host {
        Host::Domain(name) => UrlHost::Domain(name.to_owned()),
        Host::Ipv4(address) => UrlHost::Ipv4(address.into()),
        Host::Ipv6(address) => UrlHost::Ipv6(address.into()),
    })
}

/// The parts of the URL that a text writes, without its host, or in words why
/// it writes none.
pub uninterp spec fn url_fields(text: Seq<char>) -> Result<UrlView, Seq<char>>;

/// `url::Url::parse` takes a URL apart; the accessors of `Url` hand the parts
/// out. The port with defaults is the explicit port where there is one, and
/// otherwise the one that HTTP and HTTPS are known for.
#[verifier::external_body]
fn parse_url_fields(text: &str) -> (result: Result<UrlParts, String>)
    ensures
        match result {
            Ok(parts) => {
                &&& url_fields(text@) == Ok::<UrlView, Seq<char>>(parts@)
                &&& parts.port is Some ==> parts.port_or_default == parts.port
                &&& parts.port is None && parts.scheme@ == "http"@ ==> parts.port_or_default
                    == Some(80u16)
                &&& parts.port is None && parts.scheme@ == "https"@ ==> parts.port_or_default
                    == Some(443u16)
            },
            Err(reason) => url_fields(text@) == Err::<UrlView, Seq<char>>(reason@),
        },
{
    let url = Url::parse(text).map_err(|error| error.to_string())?;
    Ok(UrlParts { scheme: url.scheme().into(), username: url.username().into(),
        password: url.password().map(Into::into), host: None,
        host_text: url.host_str().map(Into::into), port: url.port(),
        port_or_default: url.port_or_known_default(), path: url.path().into(),
        query: url.query().map(Into::into), fragment: url.fragment().map(Into::into) })
}

/// The parts of the URL that a text writes, or in words why it writes none.
pub open spec fn url_parsed(text: Seq<char>) -> Result<UrlView, Seq<char>> {
    match url_fields(text) {
        Ok(fields) => Ok(UrlView { host: url_host(text), ..fields }),
        Err(reason) => Err(reason),
    }
}

pub fn parse_url(text: &str) -> (result: Result<UrlParts, String>)
    ensures
        match result {
            Ok(parts) => {
                &&& url_parsed(text@) == Ok::<UrlView, Seq<char>>(parts@)
                &&& parts.port is Some ==> parts.port_or_default == parts.port
                &&& parts.port is None && parts.scheme@ == "http"@ ==> parts.port_or_default
                    == Some(80u16)
                &&& parts.port is None && parts.scheme@ == "https"@ ==> parts.port_or_default
                    == Some(443u16)
            },
            Err(reason) => url_parsed(text@) == Err::<UrlView, Seq<char>>(reason@),
        },
{
    match parse_url_fields(text) {
        Ok(fields) => Ok(UrlParts { host: parse_url_host(text), ..fields }),
        Err(reason) => Err(reason),
    }
}

/// The usual form of the URL that a text writes.
pub uninterp spec fn url_normalized(text: Seq<char>) -> Seq<char>;

/// `url::Url::as_str` gives the usual form of a URL that `url::Url::parse` read.
#[verifier::external_body]
pub(crate) fn normalize_url(text: &str) -> (result: Result<String, String>)
    ensures
        match result {
            Ok(shown) => shown@ == url_normalized(text@) && url_fields(text@) is Ok,
            Err(reason) => url_fields(text@) == Err::<UrlView, Seq<char>>(reason@),
        },
{
    Url::parse(text).map(|url| url.as_str().to_owned()).map_err(|error| error.to_string())
}

/// The origin of the URL that a text writes, where it has one of its own that
/// can be compared.
pub uninterp spec fn url_origin(text: Seq<char>) -> Option<Seq<char>>;

/// Whether a text writes a URL that takes its origin from the URL in its path.
pub open spec fn borrows_origin(text: Seq<char>) -> bool {
    url_fields(text) matches Ok(fields) && fields.scheme == "blob"@
}

/// `url::Url::origin` gives the scheme, host and port of a URL together, here
/// in ASCII, or an origin that equals no other. Of a `blob` URL it would give
/// the origin of the URL in the path, by calling itself once for each `blob`
/// that stands in another.
#[verifier::external_body]
fn parse_origin(text: &str) -> (origin: Option<String>)
    requires
        !borrows_origin(text@),
    ensures
        match origin {
            Some(shown) => url_origin(text@) == Some(shown@),
            None => url_origin(text@) is None,
        },
{
    match Url::parse(text).ok()?.origin() {
        Origin::Tuple(scheme, host, port) => {
            Some(Origin::Tuple(scheme, host, port).ascii_serialization())
        },
        Origin::Opaque(_) => None,
    }
}

/// The origin of the URL that a text writes, where it has one that can be
/// compared: that of the first URL, from path to path and over at most the given
/// number of steps, that is no `blob`.
pub open spec fn nested_origin(text: Seq<char>, steps: nat) -> Option<Seq<char>>
    decreases steps,
{
    match url_fields(text) {
        Ok(fields) => if fields.scheme != "blob"@ {
            url_origin(text)
        } else if steps == 0 {
            None
        } else {
            nested_origin(fields.path, (steps - 1) as nat)
        },
        Err(_) => None,
    }
}

/// The origin of the URL that a text writes, where it has one that can be
/// compared. Each `blob` takes characters of the text, so that no more of them
/// stand in one another than the text has characters.
pub open spec fn origin_of(text: Seq<char>) -> Option<Seq<char>> {
    nested_origin(text, text.len())
}

pub fn find_origin(text: &str) -> (origin: Option<String>)
    ensures
        match origin {
            Some(shown) => origin_of(text@) == Some(shown@),
            None => origin_of(text@) is None,
        },
{
    let mut steps: usize = chars_of(text).len();
    let mut current = text.to_owned();
    loop
        invariant
            origin_of(text@) == nested_origin(current@, steps as nat),
        decreases steps,
    {
        let parts = match parse_url_fields(&current) {
            Ok(parts) => parts,
            Err(_) => {
                return None;
            },
        };
        if !same_text(&parts.scheme, "blob") {
            return parse_origin(&current);
        }
        if steps == 0 {
            return None;
        }
        steps -= 1;
        current = parts.path;
    }
}

/// In words why a text is no authority of a URI, if it is none.
pub uninterp spec fn authority_error(text: Seq<char>) -> Option<Seq<char>>;

/// `hyper::http::uri::Authority::from_str` reads the authority of a URI.
#[verifier::external_body]
pub(crate) fn check_authority(text: &str) -> (result: Result<(), String>)
    ensures
        match result {
            Ok(_) => authority_error(text@) is None,
            Err(reason) => authority_error(text@) == Some(reason@),
        },
{
    text.parse::<Authority>().map(|_| ()).map_err(|error| error.to_string())
}

/// In words why a text names no TLS server, if it names none.
pub uninterp spec fn server_name_error(text: Seq<char>) -> Option<Seq<char>>;

/// `rustls::pki_types::ServerName::try_from` reads the identity of a TLS server.
#[verifier::external_body]
pub(crate) fn check_server_name(text: &str) -> (result: Result<(), String>)
    ensures
        match result {
            Ok(_) => server_name_error(text@) is None,
            Err(reason) => server_name_error(text@) == Some(reason@),
        },
{
    ServerName::try_from(text.to_owned()).map(|_| ()).map_err(|error| error.to_string())
}

/// The URI of a scheme, an authority and a path with a query, or in words why
/// they make up none.
pub uninterp spec fn uri_built(
    scheme: Seq<char>,
    authority: Seq<char>,
    path_and_query: Seq<char>,
) -> Result<Seq<char>, Seq<char>>;

/// `hyper::http::uri::Builder` puts a URI together from its parts.
#[verifier::external_body]
pub(crate) fn build_uri(scheme: &str, authority: &str, path_and_query: &str) -> (result: Result<
    String,
    String,
>)
    ensures
        match result {
            Ok(uri) => uri_built(scheme@, authority@, path_and_query@) == Ok::<
                Seq<char>,
                Seq<char>,
            >(uri@),
            Err(reason) => uri_built(scheme@, authority@, path_and_query@) == Err::<
                Seq<char>,
                Seq<char>,
            >(reason@),
        },
{
    Builder::new().scheme(scheme).authority(authority).path_and_query(path_and_query).build()
        .map(|uri| uri.to_string())
        .map_err(|error| error.to_string())
}

/// The origin of a URI is its own, and that of a blob the origin of the URI inside
/// it; what cannot be read has none.
pub proof fn law_origins(text: &str, origin: Option<String>)
    requires
        call_ensures(find_origin, (text,), origin),
    ensures
        url_fields(text@) is Err ==> origin is None,
        (url_fields(text@) matches Ok(fields) && fields.scheme != "blob"@) ==> {
            &&& origin is Some <==> url_origin(text@) is Some
            &&& origin matches Some(shown) ==> url_origin(text@) == Some(shown@)
        },
        (url_fields(text@) matches Ok(fields) && fields.scheme == "blob"@ && text@.len() > 0 && (
        url_fields(fields.path) matches Ok(inner) && inner.scheme != "blob"@)) ==> {
            let path = url_fields(text@)->Ok_0.path;
            &&& origin is Some <==> url_origin(path) is Some
            &&& origin matches Some(shown) ==> url_origin(path) == Some(shown@)
        },
{
    reveal_with_fuel(nested_origin, 3);
}

} // verus!
