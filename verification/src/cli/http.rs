//! HTTP requests and responses on their way through a forward.

use crate::cli::forward::Target;
use crate::cli::uri::{build_uri, parse_url, UrlHost, UrlParts};
use crate::cli::uri::{host_view, uri_built, url_parsed, UrlHostView, UrlView};
use crate::error::Error;
use crate::net::{parse_ip, IpAddr, Ipv4Addr, Ipv6Addr};
use crate::net::ip_of_text;
use crate::text::{
    chars_of, join2, push_one, push_text, same_chars, same_text, split, string_of, to_lower, trim,
};
use crate::text::{lower, pieces, texts, trimmed, views};
use hyper::header::{HeaderMap, HeaderName, HeaderValue};
use vstd::prelude::*;

verus! {

/// `http::HeaderValue`, the value of a header.
#[verifier::external_type_specification]
#[verifier::external_body]
pub struct ExHeaderValue(HeaderValue);

/// `http::HeaderMap`, which holds values by the names of their headers.
#[verifier::external_type_specification]
#[verifier::external_body]
#[verifier::reject_recursive_types(T)]
pub struct ExHeaderMap<T>(HeaderMap<T>);

/// The values in a map of headers, by the headers' names, in order.
pub uninterp spec fn header_contents(headers: HeaderMap<HeaderValue>) -> Map<
    Seq<char>,
    Seq<Seq<u8>>,
>;

/// The name of a header as maps use it, where a text is one.
pub uninterp spec fn header_key(text: Seq<char>) -> Option<Seq<char>>;

/// The views of values.
pub open spec fn value_views(values: Seq<Vec<u8>>) -> Seq<Seq<u8>> {
    values.map_values(|value: Vec<u8>| value@)
}

/// The values under a name, however it is written.
pub open spec fn values_under(headers: Map<Seq<char>, Seq<Seq<u8>>>, name: Seq<char>) -> Seq<
    Seq<u8>,
> {
    match header_key(name) {
        Some(key) => if headers.dom().contains(key) {
            headers[key]
        } else {
            Seq::empty()
        },
        None => Seq::empty(),
    }
}

/// Headers without those of a name, however it is written.
pub open spec fn without(headers: Map<Seq<char>, Seq<Seq<u8>>>, name: Seq<char>) -> Map<
    Seq<char>,
    Seq<Seq<u8>>,
> {
    match header_key(name) {
        Some(key) => headers.remove(key),
        None => headers,
    }
}

/// `HeaderMap::get_all` gives the values under a name, in order; a text that is
/// no name has none.
#[verifier::external_body]
fn header_values(headers: &HeaderMap<HeaderValue>, name: &str) -> (values: Vec<Vec<u8>>)
    ensures
        value_views(values@) == values_under(header_contents(*headers), name@),
{
    headers.get_all(name).iter().map(|value| value.as_bytes().to_vec()).collect()
}

/// `HeaderMap::remove` takes all values under a name out; a text that is no
/// name changes nothing.
#[verifier::external_body]
fn remove_header(headers: &mut HeaderMap<HeaderValue>, name: &str)
    ensures
        header_contents(*final(headers)) == without(header_contents(*old(headers)), name@),
{
    headers.remove(name);
}

/// A byte that the value of a header may hold.
pub open spec fn is_value_byte(byte: u8) -> bool {
    byte >= 32 && byte != 127 || byte == 9
}

/// Whether a text can be the value of a header.
pub open spec fn is_header_value(text: Seq<char>) -> bool {
    let bytes = vstd::utf8::encode_utf8(text);
    forall|i: int| 0 <= i < bytes.len() ==> is_value_byte(#[trigger] bytes[i])
}

/// `HeaderMap::try_insert` puts one value under a name in place of all that
/// were there. `HeaderName::from_bytes` and `HeaderValue::from_str` read the
/// name and the value. A map of fewer than 6,554 names has room for another;
/// of larger ones it is not stated when they have.
#[verifier::external_body]
fn set_header(headers: &mut HeaderMap<HeaderValue>, name: &str, value: &str) -> (done: bool)
    ensures
        done ==> header_key(name@) is Some && is_header_value(value@) && header_contents(
            *final(headers),
        ) == header_contents(*old(headers)).insert(
            header_key(name@)->Some_0,
            seq![vstd::utf8::encode_utf8(value@)],
        ),
        !done ==> header_contents(*final(headers)) == header_contents(*old(headers)),
        header_key(name@) is Some && is_header_value(value@) && header_contents(
            *old(headers),
        ).dom().len() < 6_554 ==> done,
{
    match (HeaderName::from_bytes(name.as_bytes()), HeaderValue::from_str(value)) {
        (Ok(name), Ok(value)) => headers.try_insert(name, value).is_ok(),
        _ => false,
    }
}

/// A byte that is shown as the character it stands for.
pub open spec fn is_visible(byte: u8) -> bool {
    32 <= byte < 127 || byte == 9
}

/// The text of a value, where all of it can be shown.
pub open spec fn value_text(value: Seq<u8>) -> Option<Seq<char>> {
    if forall|i: int| 0 <= i < value.len() ==> is_visible(#[trigger] value[i]) {
        Some(value.map_values(|byte: u8| byte as char))
    } else {
        None
    }
}

fn visible_text(value: &Vec<u8>) -> (text: Option<Vec<char>>)
    ensures
        match text {
            Some(chars) => value_text(value@) == Some(chars@),
            None => value_text(value@) is None,
        },
{
    let mut chars: Vec<char> = Vec::new();
    let mut i: usize = 0;
    while i < value.len()
        invariant
            i <= value@.len(),
            forall|k: int| 0 <= k < i ==> is_visible(#[trigger] value@[k]),
            chars@ =~= value@.map_values(|byte: u8| byte as char).take(i as int),
        decreases value@.len() - i,
    {
        let byte: u8 = value[i];
        if !((32 <= byte && byte < 127) || byte == 9) {
            assert(!is_visible(value@[i as int]));
            return None;
        }
        chars.push(byte as char);
        i += 1;
    }
    assert(value@.map_values(|byte: u8| byte as char).take(i as int) =~= value@.map_values(
        |byte: u8| byte as char,
    ));
    Some(chars)
}

/// Texts without white space around them.
pub open spec fn all_trimmed(list: Seq<Seq<char>>) -> Seq<Seq<char>> {
    list.map_values(|text: Seq<char>| trimmed(text))
}

/// The headers that values of the `connection` header name.
pub open spec fn nominated(values: Seq<Seq<u8>>) -> Seq<Seq<char>>
    decreases values.len(),
{
    if values.len() == 0 {
        Seq::empty()
    } else {
        nominated(values.drop_last()) + match value_text(values.last()) {
            Some(text) => all_trimmed(pieces(text, ',')),
            None => Seq::empty(),
        }
    }
}

fn push_trimmed(out: &mut Vec<String>, parts: &Vec<Vec<char>>)
    ensures
        texts(final(out)@) == texts(old(out)@) + all_trimmed(views(parts@)),
{
    let ghost start = texts(out@);
    let ghost all = all_trimmed(views(parts@));
    let mut i: usize = 0;
    assert(start + all.take(0) =~= start);
    while i < parts.len()
        invariant
            i <= parts@.len(),
            all == all_trimmed(views(parts@)),
            texts(out@) == start + all.take(i as int),
        decreases parts@.len() - i,
    {
        let kept = trim(parts[i].as_slice());
        push_one(out, string_of(kept.as_slice()));
        assert(start + all.take(i + 1) =~= (start + all.take(i as int)).push(all[i as int]));
        i += 1;
    }
    assert(all.take(i as int) =~= all);
}

/// Reads which headers values of the `connection` header name.
pub fn nominated_headers(values: &Vec<Vec<u8>>) -> (names: Vec<String>)
    ensures
        texts(names@) == nominated(value_views(values@)),
{
    let ghost all = value_views(values@);
    let mut names: Vec<String> = Vec::new();
    let mut i: usize = 0;
    assert(texts(names@) =~= nominated(all.take(0)));
    while i < values.len()
        invariant
            i <= values@.len(),
            all == value_views(values@),
            texts(names@) == nominated(all.take(i as int)),
        decreases values@.len() - i,
    {
        proof {
            assert(all.take(i + 1).drop_last() =~= all.take(i as int));
            assert(all.take(i + 1).last() == values@[i as int]@);
            assert(nominated(all.take(i as int)) + Seq::<Seq<char>>::empty() =~= nominated(
                all.take(i as int),
            ));
        }
        if let Some(text) = visible_text(&values[i]) {
            let parts = split(text.as_slice(), ',');
            push_trimmed(&mut names, &parts);
        }
        i += 1;
    }
    assert(all.take(i as int) =~= all);
    names
}

/// Headers that concern one connection only.
pub open spec fn hop_names() -> Seq<Seq<char>> {
    seq![
        "connection"@,
        "keep-alive"@,
        "proxy-authenticate"@,
        "proxy-authorization"@,
        "proxy-connection"@,
        "te"@,
        "trailer"@,
        "transfer-encoding"@,
        "upgrade"@,
    ]
}

/// Headers without those of several names.
pub open spec fn without_all(
    headers: Map<Seq<char>, Seq<Seq<u8>>>,
    names: Seq<Seq<char>>,
) -> Map<Seq<char>, Seq<Seq<u8>>>
    decreases names.len(),
{
    if names.len() == 0 {
        headers
    } else {
        without(without_all(headers, names.drop_last()), names.last())
    }
}

/// The names of the headers that do not go past one connection.
pub open spec fn names_to_strip(headers: Map<Seq<char>, Seq<Seq<u8>>>) -> Seq<Seq<char>> {
    nominated(values_under(headers, "connection"@)) + hop_names()
}

/// Headers without those that do not go past one connection.
pub open spec fn stripped(headers: Map<Seq<char>, Seq<Seq<u8>>>) -> Map<Seq<char>, Seq<Seq<u8>>> {
    without_all(headers, names_to_strip(headers))
}

/// Removes the headers that do not go past one connection: the standard ones,
/// and those that the `connection` header names.
pub fn strip_hop_by_hop(headers: &mut HeaderMap<HeaderValue>)
    ensures
        header_contents(*final(headers)) == stripped(header_contents(*old(headers))),
{
    let ghost before = header_contents(*headers);
    let values = header_values(headers, "connection");
    let mut names = nominated_headers(&values);
    push_one(&mut names, "connection".to_owned());
    push_one(&mut names, "keep-alive".to_owned());
    push_one(&mut names, "proxy-authenticate".to_owned());
    push_one(&mut names, "proxy-authorization".to_owned());
    push_one(&mut names, "proxy-connection".to_owned());
    push_one(&mut names, "te".to_owned());
    push_one(&mut names, "trailer".to_owned());
    push_one(&mut names, "transfer-encoding".to_owned());
    push_one(&mut names, "upgrade".to_owned());
    let ghost all = texts(names@);
    assert(all =~= names_to_strip(before));
    let mut i: usize = 0;
    assert(all.take(0) =~= Seq::<Seq<char>>::empty());
    while i < names.len()
        invariant
            i <= names@.len(),
            all == texts(names@),
            header_contents(*headers) == without_all(before, all.take(i as int)),
        decreases names@.len() - i,
    {
        assert(all.take(i + 1).drop_last() =~= all.take(i as int));
        assert(all.take(i + 1).last() == names@[i as int]@);
        remove_header(headers, &names[i]);
        i += 1;
    }
    assert(all.take(i as int) =~= all);
}

proof fn lemma_without_all(
    headers: Map<Seq<char>, Seq<Seq<u8>>>,
    names: Seq<Seq<char>>,
    key: Seq<char>,
)
    ensures
        without_all(headers, names).dom().contains(key) ==> headers.dom().contains(key)
            && without_all(headers, names)[key] == headers[key] && forall|i: int|
            0 <= i < names.len() ==> header_key(#[trigger] names[i]) != Some(key),
        headers.dom().contains(key) && (forall|i: int|
            0 <= i < names.len() ==> header_key(#[trigger] names[i]) != Some(key))
            ==> without_all(headers, names).dom().contains(key),
    decreases names.len(),
{
    if names.len() > 0 {
        let head = names.drop_last();
        lemma_without_all(headers, head, key);
        if without_all(headers, names).dom().contains(key) {
            assert forall|i: int| 0 <= i < names.len() implies header_key(#[trigger] names[i])
                != Some(key) by {
                if i < head.len() {
                    assert(head[i] == names[i]);
                }
            }
        }
        if headers.dom().contains(key) && (forall|i: int|
            0 <= i < names.len() ==> header_key(#[trigger] names[i]) != Some(key)) {
            assert forall|i: int| 0 <= i < head.len() implies header_key(#[trigger] head[i])
                != Some(key) by {
                assert(head[i] == names[i]);
            }
            assert(header_key(names[names.len() - 1]) != Some(key));
        }
    }
}

/// Stripping removes each header that does not go past one connection, and
/// keeps each other one as it is.
pub proof fn law_stripping(headers: Map<Seq<char>, Seq<Seq<u8>>>, key: Seq<char>)
    ensures
        ({
            let names = names_to_strip(headers);
            let after = stripped(headers);
            if exists|i: int| 0 <= i < names.len() && header_key(#[trigger] names[i]) == Some(key) {
                !after.dom().contains(key)
            } else {
                after.dom().contains(key) == headers.dom().contains(key) && (headers.dom().contains(
                    key,
                ) ==> after[key] == headers[key])
            }
        }),
{
    lemma_without_all(headers, names_to_strip(headers), key);
}

/// Whether the host of a URL is the target's. `address` is the address that the
/// target's host writes, if it writes one.
pub open spec fn same_host(
    host: Option<UrlHostView>,
    target_host: Seq<char>,
    address: Option<IpAddr>,
) -> bool {
    match host {
        Some(UrlHostView::Domain(name)) => lower(name) == lower(target_host),
        Some(UrlHostView::Ipv4(bits)) => address == Some(IpAddr::V4(Ipv4Addr { bits })),
        Some(UrlHostView::Ipv6(bits)) => address == Some(IpAddr::V6(Ipv6Addr { bits })),
        None => false,
    }
}

/// A URL without its origin.
pub open spec fn relative_part(url: UrlView) -> Seq<char> {
    url.path + (match url.query {
        Some(query) => seq!['?'] + query,
        None => Seq::empty(),
    }) + (match url.fragment {
        Some(fragment) => seq!['#'] + fragment,
        None => Seq::empty(),
    })
}

/// What a location on the target itself is as seen through the forward.
pub open spec fn relative_location_of(
    url: UrlView,
    scheme: Seq<char>,
    target_host: Seq<char>,
    port: u16,
    address: Option<IpAddr>,
) -> Option<Seq<char>> {
    if url.scheme == scheme && same_host(url.host, target_host, address) && url.port_or_default
        == Some(port) {
        Some(relative_part(url))
    } else {
        None
    }
}

fn names_same_host(host: &Option<UrlHost>, target_host: &str, address: Option<IpAddr>) -> (answer:
    bool)
    ensures
        answer == same_host(host_view(*host), target_host@, address),
{
    match host {
        Some(UrlHost::Domain(name)) => {
            let left_chars = chars_of(name);
            let right_chars = chars_of(target_host);
            let left = to_lower(left_chars.as_slice());
            let right = to_lower(right_chars.as_slice());
            same_chars(left.as_slice(), right.as_slice())
        },
        Some(UrlHost::Ipv4(bits)) => match address {
            Some(ip) => ip == IpAddr::V4(Ipv4Addr { bits: *bits }),
            None => false,
        },
        Some(UrlHost::Ipv6(bits)) => match address {
            Some(ip) => ip == IpAddr::V6(Ipv6Addr { bits: *bits }),
            None => false,
        },
        None => false,
    }
}

/// Writes a URL without its origin.
pub fn write_relative(url: &UrlParts) -> (text: String)
    ensures
        text@ == relative_part(url@),
{
    let mut text = url.path.clone();
    if let Some(query) = &url.query {
        text.push('?');
        push_text(&mut text, query);
    }
    if let Some(fragment) = &url.fragment {
        text.push('#');
        push_text(&mut text, fragment);
    }
    assert(text@ =~= relative_part(url@));
    text
}

/// Makes a location on the target relative. `address` is the address that the
/// target's host writes, if it writes one.
pub fn relative_location(url: &UrlParts, target: &Target, address: Option<IpAddr>) -> (location:
    Option<String>)
    ensures
        match location {
            Some(text) => relative_location_of(
                url@,
                target.scheme.name(),
                target.host@,
                target.port,
                address,
            ) == Some(text@),
            None => relative_location_of(
                url@,
                target.scheme.name(),
                target.host@,
                target.port,
                address,
            ) is None,
        },
{
    if !same_text(&url.scheme, target.scheme.as_str()) {
        return None;
    }
    if !names_same_host(&url.host, &target.host, address) {
        return None;
    }
    match url.port_or_default {
        Some(port) => {
            if port != target.port {
                return None;
            }
        },
        None => {
            return None;
        },
    }
    Some(write_relative(url))
}

/// The location in headers, where it can be shown.
pub open spec fn location_text(headers: Map<Seq<char>, Seq<Seq<u8>>>) -> Option<Seq<char>> {
    let values = values_under(headers, "location"@);
    if values.len() == 0 {
        None
    } else {
        value_text(values[0])
    }
}

/// The location that replaces the one in headers, where it is on the target.
pub open spec fn new_location(headers: Map<Seq<char>, Seq<Seq<u8>>>, target: Target) -> Option<
    Seq<char>,
> {
    match location_text(headers) {
        Some(text) => match url_parsed(text) {
            Ok(url) => relative_location_of(
                url,
                target.scheme.name(),
                target.host@,
                target.port,
                ip_of_text(target.host@),
            ),
            Err(_) => None,
        },
        None => None,
    }
}

/// Reads the location in headers.
pub fn read_location(headers: &HeaderMap<HeaderValue>) -> (location: Option<String>)
    ensures
        match location {
            Some(text) => location_text(header_contents(*headers)) == Some(text@),
            None => location_text(header_contents(*headers)) is None,
        },
{
    let values = header_values(headers, "location");
    if values.len() == 0 {
        return None;
    }
    assert(value_views(values@)[0] == values@[0]@);
    match visible_text(&values[0]) {
        Some(chars) => Some(string_of(chars.as_slice())),
        None => None,
    }
}

fn find_location(headers: &HeaderMap<HeaderValue>, target: &Target) -> (location: Option<String>)
    ensures
        match location {
            Some(text) => new_location(header_contents(*headers), *target) == Some(text@),
            None => new_location(header_contents(*headers), *target) is None,
        },
{
    match read_location(headers) {
        Some(text) => match parse_url(&text) {
            Ok(url) => {
                let address = parse_ip(&target.host);
                relative_location(&url, target, address)
            },
            Err(_) => None,
        },
        None => None,
    }
}

/// Headers with one location in place of all.
pub open spec fn with_location(headers: Map<Seq<char>, Seq<Seq<u8>>>, location: Seq<char>) -> Map<
    Seq<char>,
    Seq<Seq<u8>>,
> {
    headers.insert(header_key("location"@)->Some_0, seq![vstd::utf8::encode_utf8(location)])
}

/// Headers before and after their location was rewritten to one, if to any: it
/// stays only where a map cannot hold the new one.
pub open spec fn relocated(
    before: Map<Seq<char>, Seq<Seq<u8>>>,
    after: Map<Seq<char>, Seq<Seq<u8>>>,
    location: Option<Seq<char>>,
) -> bool {
    match location {
        Some(text) => {
            ||| header_key("location"@) is Some && after == with_location(before, text)
            ||| after == before && (header_key("location"@) is None || !is_header_value(text)
                || before.dom().len() >= 6_554)
        },
        None => after == before,
    }
}

/// Puts a location into headers.
pub fn set_location(headers: &mut HeaderMap<HeaderValue>, location: &str)
    ensures
        relocated(
            header_contents(*old(headers)),
            header_contents(*final(headers)),
            Some(location@),
        ),
{
    let _ = set_header(headers, "location", location);
}

/// Makes the `location` header relative where it leads to the target, so that
/// clients come back through the forward.
pub fn rewrite_location(headers: &mut HeaderMap<HeaderValue>, target: &Target)
    ensures
        relocated(
            header_contents(*old(headers)),
            header_contents(*final(headers)),
            new_location(header_contents(*old(headers)), *target),
        ),
{
    if let Some(text) = find_location(headers, target) {
        set_location(headers, &text);
    }
}

pub const STATUS_BAD_REQUEST: u16 = 400;

pub const STATUS_BAD_GATEWAY: u16 = 502;

pub const STATUS_GATEWAY_TIMEOUT: u16 = 504;

/// What an error response says.
pub fn error_body(status: u16) -> (text: &'static str)
    ensures
        text@ == if status == STATUS_BAD_REQUEST {
            "bad request\n"@
        } else if status == STATUS_GATEWAY_TIMEOUT {
            "target connection timed out\n"@
        } else {
            "target unavailable\n"@
        },
{
    if status == STATUS_BAD_REQUEST {
        "bad request\n"
    } else if status == STATUS_GATEWAY_TIMEOUT {
        "target connection timed out\n"
    } else {
        "target unavailable\n"
    }
}

/// The status of a response to a request that the target did not answer.
pub fn failure_status(timed_out: bool) -> (status: u16)
    ensures
        status == if timed_out {
            STATUS_GATEWAY_TIMEOUT
        } else {
            STATUS_BAD_GATEWAY
        },
{
    if timed_out {
        STATUS_GATEWAY_TIMEOUT
    } else {
        STATUS_BAD_GATEWAY
    }
}

/// The path and query that a request asks for.
pub open spec fn asked_path(path_and_query: Option<&str>) -> Seq<char> {
    match path_and_query {
        Some(text) => text@,
        None => "/"@,
    }
}

/// The URI of a request to the target for a path and query.
pub fn request_uri(target: &Target, path_and_query: Option<&str>) -> (result: Result<String, Error>)
    ensures
        match result {
            Ok(uri) => uri_built(
                target.scheme.name(),
                target.authority@,
                asked_path(path_and_query),
            ) == Ok::<Seq<char>, Seq<char>>(uri@),
            Err(error) => uri_built(
                target.scheme.name(),
                target.authority@,
                asked_path(path_and_query),
            ) matches Err(reason) && (error matches Error::Http(text) && text@
                == "build target request URI: "@ + reason),
        },
{
    let path = match path_and_query {
        Some(text) => text,
        None => "/",
    };
    match build_uri(target.scheme.as_str(), &target.authority, path) {
        Ok(uri) => Ok(uri),
        Err(reason) => Err(Error::Http(join2("build target request URI: ", &reason))),
    }
}

/// Whether a request is refused: it asks for a tunnel or another protocol.
pub open spec fn refuses(method: Seq<char>, headers: Map<Seq<char>, Seq<Seq<u8>>>) -> bool {
    method == "CONNECT"@ || values_under(headers, "upgrade"@).len() > 0
}

/// Headers of a request on its way to a server: without those of the connection
/// it came on, and with the server as its host.
pub open spec fn forwarded(headers: Map<Seq<char>, Seq<Seq<u8>>>, authority: Seq<char>) -> Map<
    Seq<char>,
    Seq<Seq<u8>>,
> {
    stripped(headers).insert(
        header_key("host"@)->Some_0,
        seq![vstd::utf8::encode_utf8(authority)],
    )
}

/// Whether headers can name a server as their host.
pub open spec fn can_name_host(
    headers: Map<Seq<char>, Seq<Seq<u8>>>,
    authority: Seq<char>,
) -> bool {
    header_key("host"@) is Some && is_header_value(authority) && stripped(headers).dom().len()
        < 6_554
}

/// Prepares the headers of a request for a server.
pub fn forward_headers(headers: &mut HeaderMap<HeaderValue>, authority: &str) -> (done: bool)
    ensures
        done ==> header_key("host"@) is Some && header_contents(*final(headers)) == forwarded(
            header_contents(*old(headers)),
            authority@,
        ),
        can_name_host(header_contents(*old(headers)), authority@) ==> done,
{
    strip_hop_by_hop(headers);
    set_header(headers, "host", authority)
}

/// Prepares a request for the target: its URI, and its headers without those of
/// the connection it came on, with the target as its host. Or the status of
/// the response where it cannot be sent on.
pub fn prepare_request(
    headers: &mut HeaderMap<HeaderValue>,
    target: &Target,
    method: &str,
    path_and_query: Option<&str>,
) -> (result: Result<String, u16>)
    ensures
        ({
            let before = header_contents(*old(headers));
            let after = header_contents(*final(headers));
            let uri = uri_built(
                target.scheme.name(),
                target.authority@,
                asked_path(path_and_query),
            );
            match result {
                Ok(text) => {
                    &&& !refuses(method@, before)
                    &&& uri == Ok::<Seq<char>, Seq<char>>(text@)
                    &&& header_key("host"@) is Some
                    &&& after == forwarded(before, target.authority@)
                },
                Err(status) => if refuses(method@, before) || uri is Err {
                    status == STATUS_BAD_REQUEST && after == before
                } else {
                    status == STATUS_BAD_GATEWAY && !can_name_host(before, target.authority@)
                },
            }
        }),
{
    let upgrades = header_values(headers, "upgrade");
    assert(value_views(upgrades@).len() == upgrades@.len());
    if same_text(method, "CONNECT") || upgrades.len() > 0 {
        return Err(STATUS_BAD_REQUEST);
    }
    let uri = match request_uri(target, path_and_query) {
        Ok(uri) => uri,
        Err(_) => {
            return Err(STATUS_BAD_REQUEST);
        },
    };
    if !forward_headers(headers, &target.authority) {
        return Err(STATUS_BAD_GATEWAY);
    }
    Ok(uri)
}

/// Prepares a response for the client: its headers without those of the
/// connection it came on, and with locations that lead back here.
pub fn prepare_response(headers: &mut HeaderMap<HeaderValue>, target: &Target)
    ensures
        relocated(
            stripped(header_contents(*old(headers))),
            header_contents(*final(headers)),
            new_location(stripped(header_contents(*old(headers))), *target),
        ),
{
    strip_hop_by_hop(headers);
    rewrite_location(headers, target);
}

/// Whether a header belongs to one connection, whoever sends it.
pub open spec fn is_hop_header(name: Seq<char>) -> bool {
    name == "connection"@ || name == "keep-alive"@ || name == "proxy-authenticate"@ || name
        == "proxy-authorization"@ || name == "proxy-connection"@ || name == "te"@ || name
        == "trailer"@ || name == "transfer-encoding"@ || name == "upgrade"@
}

proof fn lemma_hop_header_goes(
    headers: Map<Seq<char>, Seq<Seq<u8>>>,
    name: Seq<char>,
    key: Seq<char>,
)
    requires
        is_hop_header(name),
        header_key(name) == Some(key),
    ensures
        !stripped(headers).dom().contains(key),
{
    let hops = hop_names();
    let at = if name == "connection"@ {
        0int
    } else if name == "keep-alive"@ {
        1
    } else if name == "proxy-authenticate"@ {
        2
    } else if name == "proxy-authorization"@ {
        3
    } else if name == "proxy-connection"@ {
        4
    } else if name == "te"@ {
        5
    } else if name == "trailer"@ {
        6
    } else if name == "transfer-encoding"@ {
        7
    } else {
        8
    };
    assert(hops[at] == name);
    let names = names_to_strip(headers);
    let i = nominated(values_under(headers, "connection"@)).len() + at;
    assert(names[i] == name);
    law_stripping(headers, key);
}

proof fn lemma_other_header_stays(headers: Map<Seq<char>, Seq<Seq<u8>>>, key: Seq<char>)
    requires
        values_under(headers, "connection"@).len() == 0,
        headers.dom().contains(key),
        forall|name: Seq<char>|
            is_hop_header(name) ==> #[trigger] header_key(name) != Some(key),
    ensures
        stripped(headers).dom().contains(key),
        stripped(headers)[key] == headers[key],
{
    let names = names_to_strip(headers);
    assert(names =~= hop_names());
    assert forall|i: int| 0 <= i < names.len() implies header_key(#[trigger] names[i]) != Some(
        key,
    ) by {
        assert(is_hop_header(names[i]));
    }
    law_stripping(headers, key);
}

/// The headers of one connection do not go on to the next, and where the message
/// names no others the rest goes on as it is.
pub proof fn law_hop_headers_end(name: Seq<char>, key: Seq<char>)
    ensures
        forall|headers: &mut HeaderMap<HeaderValue>| #[trigger]
            call_ensures(strip_hop_by_hop, (headers,), ()) ==> {
                let before = header_contents(*headers);
                let after = header_contents(*final(headers));
                &&& is_hop_header(name) && header_key(name) == Some(key) ==> !after.dom().contains(
                    key,
                )
                &&& values_under(before, "connection"@).len() == 0 && before.dom().contains(key) && (
                forall|other: Seq<char>|
                    is_hop_header(other) ==> #[trigger] header_key(other) != Some(key))
                    ==> after.dom().contains(key) && after[key] == before[key]
            },
{
    assert forall|headers: &mut HeaderMap<HeaderValue>| #[trigger]
        call_ensures(strip_hop_by_hop, (headers,), ()) implies {
        let before = header_contents(*headers);
        let after = header_contents(*final(headers));
        &&& is_hop_header(name) && header_key(name) == Some(key) ==> !after.dom().contains(key)
        &&& values_under(before, "connection"@).len() == 0 && before.dom().contains(key) && (forall|
            other: Seq<char>,
        | is_hop_header(other) ==> #[trigger] header_key(other) != Some(key))
            ==> after.dom().contains(key) && after[key] == before[key]
    } by {
        let before = header_contents(*headers);
        if is_hop_header(name) && header_key(name) == Some(key) {
            lemma_hop_header_goes(before, name, key);
        }
        if values_under(before, "connection"@).len() == 0 && before.dom().contains(key) && (forall|
            other: Seq<char>,
        | is_hop_header(other) ==> #[trigger] header_key(other) != Some(key)) {
            lemma_other_header_stays(before, key);
        }
    }
}

/// A header that a message's own connection header names goes too.
pub proof fn law_named_header_ends(
    headers: Map<Seq<char>, Seq<Seq<u8>>>,
    text: Seq<char>,
    key: Seq<char>,
)
    requires
        values_under(headers, "connection"@).len() == 1,
        values_under(headers, "connection"@)[0].len() == text.len(),
        forall|i: int|
            0 <= i < text.len() ==> 32 <= #[trigger] values_under(headers, "connection"@)[0][i]
                < 127 && text[i] == values_under(headers, "connection"@)[0][i] as char,
        !text.contains(','),
        header_key(trimmed(text)) == Some(key),
    ensures
        !stripped(headers).dom().contains(key),
{
    let values = values_under(headers, "connection"@);
    let value = values[0];
    assert(values.last() == value);
    assert(values.drop_last() =~= Seq::<Seq<u8>>::empty());
    assert(value.map_values(|byte: u8| byte as char) =~= text);
    assert forall|i: int| 0 <= i < value.len() implies is_visible(#[trigger] value[i]) by {
        assert(32 <= values_under(headers, "connection"@)[0][i] < 127);
    }
    crate::text::lemma_only_piece(text, ',');
    assert(nominated(values.drop_last()) == Seq::<Seq<char>>::empty());
    assert(nominated(values) =~= seq![trimmed(text)]);
    let names = names_to_strip(headers);
    assert(names[0] == trimmed(text));
    law_stripping(headers, key);
}

/// A location on the target itself becomes relative to the forward: its path, with
/// the query and the fragment that it has. One elsewhere stays.
pub proof fn law_relative_location(
    url: &UrlParts,
    target: &Target,
    address: Option<IpAddr>,
    location: Option<String>,
)
    requires
        call_ensures(relative_location, (url, target, address), location),
    ensures
        location is Some ==> url.scheme@ == target.scheme.name() && url.port_or_default == Some(
            target.port,
        ) && url.host is Some,
        url.scheme@ == target.scheme.name() && url.port_or_default == Some(target.port) && (
        url.host matches Some(UrlHost::Domain(name)) && name@ == target.host@) ==> location is Some,
        (url.host matches Some(UrlHost::Ipv4(bits)) && address != Some(
            IpAddr::V4(Ipv4Addr { bits }),
        )) ==> location is None,
        location matches Some(text) ==> {
            &&& url.query is None && url.fragment is None ==> text@ == url.path@
            &&& url.query is Some && url.fragment is None ==> text@ == url.path@ + seq!['?']
                + url.query->Some_0@
            &&& url.query is None && url.fragment is Some ==> text@ == url.path@ + seq!['#']
                + url.fragment->Some_0@
            &&& url.query is Some && url.fragment is Some ==> text@ == url.path@ + seq!['?']
                + url.query->Some_0@ + seq!['#'] + url.fragment->Some_0@
        },
{
    if location is Some {
        let text = location->Some_0@;
        assert(text == relative_part(url@));
        if url.query is None && url.fragment is None {
            assert(text =~= url.path@);
        }
        if url.query is Some && url.fragment is None {
            assert(text =~= url.path@ + seq!['?'] + url.query->Some_0@);
        }
        if url.query is None && url.fragment is Some {
            assert(text =~= url.path@ + seq!['#'] + url.fragment->Some_0@);
        }
        if url.query is Some && url.fragment is Some {
            assert(text =~= url.path@ + seq!['?'] + url.query->Some_0@ + seq!['#']
                + url.fragment->Some_0@);
        }
    }
}

/// What a request that cannot go on is answered: 504 where the target kept one
/// waiting and 502 where it is not there, each with a line that says so.
pub proof fn law_error_answers(
    timed_out: bool,
    status: u16,
    code: u16,
    body: &'static str,
)
    requires
        call_ensures(failure_status, (timed_out,), status),
        call_ensures(error_body, (code,), body),
    ensures
        timed_out ==> status == 504,
        !timed_out ==> status == 502,
        code == 400 ==> body@ == "bad request\n"@,
        code == 504 ==> body@ == "target connection timed out\n"@,
        code == 502 ==> body@ == "target unavailable\n"@,
{
}

/// A request goes on to the target, under the target's authority and without the
/// headers of its connection; a tunnel and a change of protocol are refused.
pub proof fn law_request_goes_on(
    target: &Target,
    method: &str,
    path_and_query: Option<&str>,
    result: Result<String, u16>,
    name: Seq<char>,
    key: Seq<char>,
)
    requires
        is_hop_header(name),
        header_key(name) == Some(key),
        header_key("host"@) is Some ==> header_key("host"@) != Some(key),
    ensures
        forall|headers: &mut HeaderMap<HeaderValue>| #[trigger]
            call_ensures(prepare_request, (headers, target, method, path_and_query), result) ==> {
                let before = header_contents(*headers);
                let after = header_contents(*final(headers));
                &&& method@ == "CONNECT"@ ==> result == Err::<String, u16>(400)
                &&& values_under(before, "upgrade"@).len() > 0 ==> result == Err::<String, u16>(400)
                &&& result is Err ==> result->Err_0 == 400 || result->Err_0 == 502
                &&& result is Err && result->Err_0 == 400 ==> after == before
                &&& method@ != "CONNECT"@ && values_under(before, "upgrade"@).len() == 0
                    && path_and_query is Some && uri_built(
                    target.scheme.name(),
                    target.authority@,
                    path_and_query->Some_0@,
                ) is Ok ==> result != Err::<String, u16>(400)
                &&& result is Ok ==> header_key("host"@) is Some && after.dom().contains(
                    header_key("host"@)->Some_0,
                ) && after[header_key("host"@)->Some_0] == seq![
                    vstd::utf8::encode_utf8(target.authority@),
                ] && !after.dom().contains(key)
                &&& result is Ok && path_and_query is Some ==> uri_built(
                    target.scheme.name(),
                    target.authority@,
                    path_and_query->Some_0@,
                ) == Ok::<Seq<char>, Seq<char>>(result->Ok_0@)
                &&& result is Ok && path_and_query is None ==> uri_built(
                    target.scheme.name(),
                    target.authority@,
                    "/"@,
                ) == Ok::<Seq<char>, Seq<char>>(result->Ok_0@)
            },
{
    assert forall|before: Map<Seq<char>, Seq<Seq<u8>>>| !(
    #[trigger] stripped(before)).dom().contains(key) by {
        lemma_hop_header_goes(before, name, key);
    }
}

/// A response comes back without the headers of its connection.
pub proof fn law_response_comes_back(target: &Target, name: Seq<char>, key: Seq<char>)
    requires
        is_hop_header(name),
        header_key(name) == Some(key),
        header_key("location"@) != Some(key),
    ensures
        forall|headers: &mut HeaderMap<HeaderValue>| #[trigger]
            call_ensures(prepare_response, (headers, target), ()) ==> !header_contents(
                *final(headers),
            ).dom().contains(key),
{
    assert forall|before: Map<Seq<char>, Seq<Seq<u8>>>| !(
    #[trigger] stripped(before)).dom().contains(key) by {
        lemma_hop_header_goes(before, name, key);
    }
}

/// The location of a response is its first one, where it can be shown.
pub proof fn law_read_location(
    headers: &HeaderMap<HeaderValue>,
    location: Option<String>,
    i: int,
)
    requires
        call_ensures(read_location, (headers,), location),
    ensures
        ({
            let values = values_under(header_contents(*headers), "location"@);
            &&& values.len() == 0 ==> location is None
            &&& values.len() > 0 && 0 <= i < values[0].len() && (values[0][i] >= 127 || (
            values[0][i] < 32 && values[0][i] != 9)) ==> location is None
            &&& values.len() > 0 && (forall|k: int|
                0 <= k < values[0].len() ==> 32 <= #[trigger] values[0][k] < 127)
                ==> location is Some
            &&& location is Some ==> values.len() > 0 && location->Some_0@.len() == values[0].len()
                && (0 <= i < values[0].len() ==> location->Some_0@[i] == values[0][i] as char)
        }),
{
    let values = values_under(header_contents(*headers), "location"@);
    if values.len() > 0 {
        let value = values[0];
        if 0 <= i < value.len() && (value[i] >= 127 || (value[i] < 32 && value[i] != 9)) {
            assert(!is_visible(value[i]));
        }
        if forall|k: int| 0 <= k < values[0].len() ==> 32 <= #[trigger] values[0][k] < 127 {
            assert forall|k: int| 0 <= k < value.len() implies is_visible(#[trigger] value[k]) by {
                assert(32 <= values[0][k] < 127);
            }
        }
    }
}

} // verus!
