//! What commands tell about sessions and profiles, line by line.

use super::login::AuthMethod;
use super::profile::{list_line, profile_line};
use super::state::{CliState, ManagedProfile};
use super::state::{maybe, ProfileView, StateView};
use crate::client::SessionInfo;
use crate::dns::policy::DnsOverrides;
use crate::dns::policy::no_overrides;
use super::routing::no_routing;
use crate::net::{ip_text, socket_text, IpAddr};
use crate::net::{ip_chars, socket_chars};
use crate::text::{join2, join3, push_one, push_text, same_text};
use crate::text::texts;
use vstd::prelude::*;

verus! {

/// Addresses in a row.
pub open spec fn joined_addresses(addresses: Seq<IpAddr>) -> Seq<char>
    decreases addresses.len(),
{
    if addresses.len() == 0 {
        Seq::empty()
    } else if addresses.len() == 1 {
        ip_chars(addresses[0])
    } else {
        joined_addresses(addresses.drop_last()) + ", "@ + ip_chars(addresses.last())
    }
}

fn join_addresses(addresses: &Vec<IpAddr>) -> (joined: String)
    ensures
        joined@ == joined_addresses(addresses@),
{
    let mut joined = String::new();
    let mut i: usize = 0;
    assert(addresses@.take(0) =~= Seq::<IpAddr>::empty());
    while i < addresses.len()
        invariant
            i <= addresses@.len(),
            joined@ == joined_addresses(addresses@.take(i as int)),
        decreases addresses@.len() - i,
    {
        assert(addresses@.take(i + 1).drop_last() =~= addresses@.take(i as int));
        let shown = ip_text(addresses[i]);
        if i > 0 {
            push_text(&mut joined, ", ");
        }
        push_text(&mut joined, &shown);
        assert(i == 0 ==> joined@ =~= ip_chars(addresses@[0]));
        i += 1;
    }
    assert(addresses@.take(i as int) =~= addresses@);
    joined
}

/// A line where there is something to tell.
pub open spec fn optional_line(label: Seq<char>, address: Option<IpAddr>) -> Seq<Seq<char>> {
    match address {
        Some(ip) => seq![label + ip_chars(ip)],
        None => Seq::empty(),
    }
}

fn push_address_line(lines: &mut Vec<String>, label: &str, address: Option<IpAddr>)
    ensures
        texts(final(lines)@) == texts(old(lines)@) + optional_line(label@, address),
{
    let ghost before = texts(lines@);
    if let Some(ip) = address {
        let shown = ip_text(ip);
        push_one(lines, join2(label, &shown));
    }
    assert(texts(lines@) =~= before + optional_line(label@, address));
}

/// What is told of a session.
pub open spec fn session_report(info: SessionInfo) -> Seq<Seq<char>> {
    seq!["authenticated: "@ + socket_chars(info.peer)] + optional_line(
        "address: "@,
        info.address,
    ) + optional_line("gateway: "@, info.gateway) + (if info.dns_servers@.len() == 0 {
        Seq::empty()
    } else {
        seq!["dns: "@ + joined_addresses(info.dns_servers@)]
    })
}

pub fn describe_session(info: &SessionInfo) -> (lines: Vec<String>)
    ensures
        texts(lines@) == session_report(*info),
{
    let mut lines: Vec<String> = Vec::new();
    let peer = socket_text(info.peer);
    push_one(&mut lines, join2("authenticated: ", &peer));
    assert(texts(lines@) =~= seq!["authenticated: "@ + socket_chars(info.peer)]);
    push_address_line(&mut lines, "address: ", info.address);
    push_address_line(&mut lines, "gateway: ", info.gateway);
    if info.dns_servers.len() > 0 {
        let servers = join_addresses(&info.dns_servers);
        push_one(&mut lines, join2("dns: ", &servers));
    }
    assert(texts(lines@) =~= session_report(*info));
    lines
}

/// Whether DNS settings leave everything to others.
pub fn dns_overrides_are_empty(value: &DnsOverrides) -> (answer: bool)
    ensures
        answer == (value@ == no_overrides()),
{
    let answer = value.server_mode.is_none() && value.servers.is_none()
        && value.split_mode.is_none() && value.split_domains.is_none()
        && value.encrypted_dns.is_none() && value.doh_hosts.is_none();
    assert(answer ==> value@ =~= no_overrides());
    answer
}

/// What is told of a profile. Settings are shown as given, unless there are none.
pub open spec fn profile_report(
    name: Seq<char>,
    profile: ProfileView,
    default_profile: Option<Seq<char>>,
    dns: Seq<char>,
    routing: Seq<char>,
) -> Seq<Seq<char>> {
    seq![
        "profile: "@ + name,
        "  default: "@ + (if default_profile == Some(name) {
            "yes"@
        } else {
            "no"@
        }),
        "  domain: "@ + profile.domain,
        "  device-id: "@ + profile.device_id,
        "  username: "@ + (match profile.username {
            Some(user) => user,
            None => "-"@,
        }),
        "  line: "@ + profile.line,
        "  dns: "@ + (if profile.dns == no_overrides() {
            "inherit"@
        } else {
            dns
        }),
        "  routing: "@ + (if profile.routing == no_routing() {
            "inherit"@
        } else {
            routing
        }),
    ]
}

pub fn describe_profile(
    name: &str,
    profile: &ManagedProfile,
    default_profile: &Option<String>,
    dns: &str,
    routing: &str,
) -> (lines: Vec<String>)
    ensures
        texts(lines@) == profile_report(name@, profile@, maybe(*default_profile), dns@, routing@),
{
    let mut lines: Vec<String> = Vec::new();
    let is_default = match default_profile {
        Some(current) => same_text(current, name),
        None => false,
    };
    lines.push(join2("profile: ", name));
    lines.push(
        join2(
            "  default: ",
            if is_default {
                "yes"
            } else {
                "no"
            },
        ),
    );
    lines.push(join2("  domain: ", &profile.domain));
    lines.push(join2("  device-id: ", &profile.device_id));
    lines.push(
        match &profile.username {
            Some(user) => join2("  username: ", user),
            None => join2("  username: ", "-"),
        },
    );
    lines.push(join2("  line: ", &profile.line));
    lines.push(
        join2(
            "  dns: ",
            if dns_overrides_are_empty(&profile.dns) {
                "inherit"
            } else {
                dns
            },
        ),
    );
    lines.push(
        join2(
            "  routing: ",
            if profile.routing.is_inherited() {
                "inherit"
            } else {
                routing
            },
        ),
    );
    assert(texts(lines@) =~= profile_report(
        name@,
        profile@,
        maybe(*default_profile),
        dns@,
        routing@,
    ));
    lines
}

/// A line on each profile, in order.
pub open spec fn list_report(state: StateView, order: Seq<Seq<char>>) -> Seq<Seq<char>> {
    if order.len() == 0 {
        seq!["no profiles"@]
    } else {
        order.map_values(
            |name: Seq<char>| list_line(name, state.profiles[name], state.default_profile),
        )
    }
}

pub fn describe_profiles(state: &CliState) -> (lines: Vec<String>)
    requires
        state.profiles.wf(),
    ensures
        texts(lines@) == list_report(state@, state.profiles.order()),
{
    let ghost order = state.profiles.order();
    let ghost shown = |name: Seq<char>|
        list_line(name, state@.profiles[name], state@.default_profile);
    let mut lines: Vec<String> = Vec::new();
    let count: usize = state.profiles.len();
    if count == 0 {
        lines.push("no profiles".to_owned());
        assert(texts(lines@) =~= list_report(state@, order));
        return lines;
    }
    let mut i: usize = 0;
    assert(texts(lines@) =~= order.map_values(shown).take(0));
    while i < count
        invariant
            state.profiles.wf(),
            order == state.profiles.order(),
            shown == (|name: Seq<char>|
                list_line(name, state@.profiles[name], state@.default_profile)),
            count == order.len(),
            i <= count,
            texts(lines@) == order.map_values(shown).take(i as int),
        decreases count - i,
    {
        let (name, profile) = state.profiles.at(i);
        let ghost before = texts(lines@);
        push_one(&mut lines, profile_line(name, profile, &state.default_profile));
        assert(texts(lines@) =~= order.map_values(shown).take(i + 1));
        i += 1;
    }
    assert(order.map_values(shown).take(i as int) =~= order.map_values(shown));
    lines
}

/// What is told of the routing of a connection.
pub fn describe_routing(mode: &str, block_ipv6: bool) -> (line: String)
    ensures
        line@ == "routing: mode="@ + mode@ + ", ipv6="@ + (if block_ipv6 {
            "blocked"@
        } else {
            "allowed"@
        }),
{
    let mut line = join3("routing: mode=", mode, ", ipv6=");
    if block_ipv6 {
        push_text(&mut line, "blocked");
    } else {
        push_text(&mut line, "allowed");
    }
    line
}

/// What a domain was found to be.
pub open spec fn discovery_report(
    domain: Seq<char>,
    device_id: Seq<char>,
    service: Seq<char>,
    cached: bool,
    method: AuthMethod,
) -> Seq<Seq<char>> {
    seq![
        "domain: "@ + domain,
        "device-id: "@ + device_id,
        "service: "@ + service,
        "source: "@ + (if cached {
            "cache"@
        } else {
            "network"@
        }),
        "auth: "@ + match method {
            AuthMethod::Credential => "credential"@,
            AuthMethod::Oidc => "oidc"@,
        },
    ]
}

pub fn describe_discovery(
    domain: &str,
    device_id: &str,
    service: &str,
    cached: bool,
    method: AuthMethod,
) -> (lines: Vec<String>)
    ensures
        texts(lines@) == discovery_report(domain@, device_id@, service@, cached, method),
{
    let source = if cached {
        "cache"
    } else {
        "network"
    };
    let auth = match method {
        AuthMethod::Credential => "credential",
        AuthMethod::Oidc => "oidc",
    };
    let mut lines: Vec<String> = Vec::new();
    lines.push(join2("domain: ", domain));
    lines.push(join2("device-id: ", device_id));
    lines.push(join2("service: ", service));
    lines.push(join2("source: ", source));
    lines.push(join2("auth: ", auth));
    assert(texts(lines@) =~= discovery_report(domain@, device_id@, service@, cached, method));
    lines
}

/// Where a managed session enters the network. Latencies are in milliseconds, as
/// they are shown.
pub enum Ingress {
    Server { name: String, endpoint: String, latency: String },
    SegmentRouting { group: String, endpoint: String, latency: String },
}

pub open spec fn ingress_report(ingress: Ingress) -> Seq<char> {
    match ingress {
        Ingress::Server { name, endpoint, latency } => "server: "@ + name@ + " endpoint="@
            + endpoint@ + " latency="@ + latency@ + " ms"@,
        Ingress::SegmentRouting { group, endpoint, latency } => "sr-group: "@ + group@
            + ", ingress="@ + endpoint@ + " latency="@ + latency@ + " ms"@,
    }
}

/// What a managed connection was prepared with.
pub fn describe_prepared(domain: &str, line: &str, ingress: &Ingress) -> (lines: Vec<String>)
    ensures
        texts(lines@) == seq!["domain: "@ + domain@, "line: "@ + line@, ingress_report(*ingress)],
{
    let mut entry: String;
    match ingress {
        Ingress::Server { name, endpoint, latency } => {
            entry = join3("server: ", name, " endpoint=");
            push_text(&mut entry, endpoint);
            push_text(&mut entry, " latency=");
            push_text(&mut entry, latency);
        },
        Ingress::SegmentRouting { group, endpoint, latency } => {
            entry = join3("sr-group: ", group, ", ingress=");
            push_text(&mut entry, endpoint);
            push_text(&mut entry, " latency=");
            push_text(&mut entry, latency);
        },
    }
    push_text(&mut entry, " ms");
    let mut lines: Vec<String> = Vec::new();
    lines.push(join2("domain: ", domain));
    lines.push(join2("line: ", line));
    lines.push(entry);
    assert(texts(lines@) =~= seq![
        "domain: "@ + domain@,
        "line: "@ + line@,
        ingress_report(*ingress),
    ]);
    lines
}

/// A session is told by its peer, and then by its address, its gateway and its
/// resolvers, as far as it has them.
pub proof fn law_session_lines(info: &SessionInfo, lines: Vec<String>)
    requires
        call_ensures(describe_session, (info,), lines),
    ensures
        ({
            let count = |part: bool|
                if part {
                    1int
                } else {
                    0
                };
            let gateway = 1 + count(info.address is Some);
            let dns = gateway + count(info.gateway is Some);
            &&& lines@.len() == dns + count(info.dns_servers@.len() > 0)
            &&& lines@[0]@ == "authenticated: "@ + socket_chars(info.peer)
            &&& info.address matches Some(ip) ==> lines@[1]@ == "address: "@ + ip_chars(ip)
            &&& info.gateway matches Some(ip) ==> lines@[gateway]@ == "gateway: "@ + ip_chars(ip)
            &&& info.dns_servers@.len() == 1 ==> lines@[dns]@ == "dns: "@ + ip_chars(
                info.dns_servers@[0],
            )
            &&& info.dns_servers@.len() == 2 ==> lines@[dns]@ == "dns: "@ + (ip_chars(
                info.dns_servers@[0],
            ) + ", "@ + ip_chars(info.dns_servers@[1]))
        }),
{
    reveal_with_fuel(joined_addresses, 3);
    let shown = texts(lines@);
    assert(shown.len() == lines@.len());
    assert forall|i: int| 0 <= i < shown.len() implies shown[i] == #[trigger] lines@[i]@ by {}
    if info.dns_servers@.len() == 2 {
        assert(info.dns_servers@.drop_last() =~= seq![info.dns_servers@[0]]);
    }
    assert(shown[0] == lines@[0]@);
}

/// Settings that say nothing are told as inherited, and a profile that is the
/// default as such.
pub proof fn law_profile_lines(
    name: &str,
    profile: &ManagedProfile,
    default_profile: &Option<String>,
    dns: &str,
    routing: &str,
    lines: Vec<String>,
)
    requires
        call_ensures(describe_profile, (name, profile, default_profile, dns, routing), lines),
    ensures
        lines@.len() == 8,
        lines@[0]@ == "profile: "@ + name@,
        (default_profile matches Some(chosen) && chosen@ == name@) ==> lines@[1]@ == "  default: "@
            + "yes"@,
        !(default_profile matches Some(chosen) && chosen@ == name@) ==> lines@[1]@
            == "  default: "@ + "no"@,
        lines@[2]@ == "  domain: "@ + profile@.domain,
        lines@[3]@ == "  device-id: "@ + profile@.device_id,
        profile@.username is None ==> lines@[4]@ == "  username: "@ + "-"@,
        profile@.username matches Some(user) ==> lines@[4]@ == "  username: "@ + user,
        lines@[5]@ == "  line: "@ + profile@.line,
        profile@.dns == no_overrides() ==> lines@[6]@ == "  dns: "@ + "inherit"@,
        profile@.dns != no_overrides() ==> lines@[6]@ == "  dns: "@ + dns@,
        profile@.routing == no_routing() ==> lines@[7]@ == "  routing: "@ + "inherit"@,
        profile@.routing != no_routing() ==> lines@[7]@ == "  routing: "@ + routing@,
{
    let shown = texts(lines@);
    assert(shown.len() == lines@.len());
    assert(shown[0] == lines@[0]@ && shown[1] == lines@[1]@ && shown[2] == lines@[2]@ && shown[3]
        == lines@[3]@);
    assert(shown[4] == lines@[4]@ && shown[5] == lines@[5]@ && shown[6] == lines@[6]@ && shown[7]
        == lines@[7]@);
}

/// What is told of a discovery: where the configuration came from and how to log in.
pub proof fn law_discovery_lines(
    domain: &str,
    device_id: &str,
    service: &str,
    cached: bool,
    method: AuthMethod,
    lines: Vec<String>,
)
    requires
        call_ensures(describe_discovery, (domain, device_id, service, cached, method), lines),
    ensures
        lines@.len() == 5,
        lines@[0]@ == "domain: "@ + domain@,
        lines@[1]@ == "device-id: "@ + device_id@,
        lines@[2]@ == "service: "@ + service@,
        cached ==> lines@[3]@ == "source: "@ + "cache"@,
        !cached ==> lines@[3]@ == "source: "@ + "network"@,
        method is Credential ==> lines@[4]@ == "auth: "@ + "credential"@,
        method is Oidc ==> lines@[4]@ == "auth: "@ + "oidc"@,
{
    let shown = texts(lines@);
    assert(shown.len() == lines@.len());
    assert(shown[0] == lines@[0]@ && shown[1] == lines@[1]@ && shown[2] == lines@[2]@ && shown[3]
        == lines@[3]@ && shown[4] == lines@[4]@);
}

/// How routing is told, and what a prepared connection leads to.
pub proof fn law_told_lines(
    mode: &str,
    block_ipv6: bool,
    line: String,
    domain: &str,
    name: &str,
    ingress: &Ingress,
    lines: Vec<String>,
)
    requires
        call_ensures(describe_routing, (mode, block_ipv6), line),
        call_ensures(describe_prepared, (domain, name, ingress), lines),
    ensures
        block_ipv6 ==> line@ == "routing: mode="@ + mode@ + ", ipv6="@ + "blocked"@,
        !block_ipv6 ==> line@ == "routing: mode="@ + mode@ + ", ipv6="@ + "allowed"@,
        lines@.len() == 3 && lines@[0]@ == "domain: "@ + domain@ && lines@[1]@ == "line: "@ + name@,
        ingress matches Ingress::Server { name: server, endpoint, latency } ==> lines@[2]@
            == "server: "@ + server@ + " endpoint="@ + endpoint@ + " latency="@ + latency@ + " ms"@,
        ingress matches Ingress::SegmentRouting { group, endpoint, latency } ==> lines@[2]@
            == "sr-group: "@ + group@ + ", ingress="@ + endpoint@ + " latency="@ + latency@
            + " ms"@,
{
    let shown = texts(lines@);
    assert(shown.len() == lines@.len());
    assert(shown[0] == lines@[0]@ && shown[1] == lines@[1]@ && shown[2] == lines@[2]@);
}

/// The list of profiles has a line for each, in their order, and says so where there
/// is none.
pub proof fn law_profile_list(state: &CliState, lines: Vec<String>, i: int)
    requires
        state.profiles.wf(),
        call_ensures(describe_profiles, (state,), lines),
    ensures
        state.profiles.order().len() == 0 ==> lines@.len() == 1 && lines@[0]@ == "no profiles"@,
        state.profiles.order().len() > 0 ==> lines@.len() == state.profiles.order().len(),
        0 <= i < state.profiles.order().len() ==> {
            let name = state.profiles.order()[i];
            let profile = state@.profiles[name];
            let mark = if state@.default_profile == Some(name) {
                "* "@
            } else {
                "  "@
            };
            let user = if profile.username is Some {
                profile.username->Some_0
            } else {
                "-"@
            };
            lines@[i]@ == mark + name + ": domain="@ + profile.domain + " user="@ + user
                + " line="@ + profile.line
        },
{
    let shown = texts(lines@);
    assert(shown.len() == lines@.len());
    if 0 <= i < shown.len() {
        assert(shown[i] == lines@[i]@);
    }
    if shown.len() > 0 {
        assert(shown[0] == lines@[0]@);
    }
}

} // verus!
