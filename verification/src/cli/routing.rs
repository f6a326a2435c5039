//! Which traffic goes through the tunnel.

use crate::client::{PacketDevice, SessionInfo};
use crate::dns::platform::PhysicalResolver;
use crate::dns::policy::{DnsServerMode, EffectiveDnsPolicy, SplitDnsMode};
use crate::dns::policy::DnsPolicyView;
use crate::error::Error;
use crate::net::{ip_text, ipv4_text, parse_ip, IpAddr, Ipv4Addr};
use crate::net::{ip_chars, ip_of_text, ipv4_chars};
use crate::text::{
    chars_of, copy_texts, decimal_text, join2, parse_number, push_one, push_text, push_texts,
    same_text, sort_texts, split_once, string_of,
};
use crate::text::{
    ascending, decimal, lemma_filter_contains, lemma_map_contains, lemma_sum_contains, number_of,
    split_first, texts,
};
use std::sync::Arc;
use vstd::prelude::*;
use vstd::slice::slice_subrange;

verus! {

pub const MIN_INTERFACE_MTU: i64 = 576;

pub const MAX_INTERFACE_MTU: i64 = 9_000;

/// The routing modes that a user can choose.
#[derive(Debug, Clone, Copy, PartialEq, Eq, Structural)]
pub enum UserRoutingMode {
    All,
    Custom,
}

impl UserRoutingMode {
    pub fn label(self) -> (label: &'static str)
        ensures
            label@ == match self {
                UserRoutingMode::All => "all"@,
                UserRoutingMode::Custom => "custom"@,
            },
    {
        match self {
            UserRoutingMode::All => "all",
            UserRoutingMode::Custom => "custom",
        }
    }
}

/// The routing modes that a controller can set.
#[derive(Debug, Clone, Copy, PartialEq, Eq, Structural)]
pub enum RoutingMode {
    All,
    IpFilter,
    Custom,
}

impl RoutingMode {
    pub fn label(self) -> (label: &'static str)
        ensures
            label@ == match self {
                RoutingMode::All => "all"@,
                RoutingMode::IpFilter => "ipfilter"@,
                RoutingMode::Custom => "custom"@,
            },
    {
        match self {
            RoutingMode::All => "all",
            RoutingMode::IpFilter => "ipfilter",
            RoutingMode::Custom => "custom",
        }
    }
}

/// Routing options of one command.
#[derive(Debug, Clone, Copy, PartialEq, Eq, Structural)]
pub struct RoutingOverrideArgs {
    pub routing_mode: Option<UserRoutingMode>,
    pub block_ipv6: bool,
    pub allow_ipv6: bool,
}

impl Default for RoutingOverrideArgs {
    fn default() -> (args: Self)
        ensures
            args == (RoutingOverrideArgs {
                routing_mode: None,
                block_ipv6: false,
                allow_ipv6: false,
            }),
    {
        RoutingOverrideArgs { routing_mode: None, block_ipv6: false, allow_ipv6: false }
    }
}

impl RoutingOverrideArgs {
    /// What the options say on blocking IPv6.
    pub open spec fn ipv6(self) -> Option<bool> {
        if self.block_ipv6 {
            Some(true)
        } else if self.allow_ipv6 {
            Some(false)
        } else {
            None
        }
    }

    pub fn ipv6_override(&self) -> (block: Option<bool>)
        ensures
            block == self.ipv6(),
    {
        if self.block_ipv6 {
            Some(true)
        } else if self.allow_ipv6 {
            Some(false)
        } else {
            None
        }
    }
}

/// Routing options and the destinations that one command names.
#[derive(Debug, Clone)]
pub struct RouteArgs {
    pub policy: RoutingOverrideArgs,
    pub routes: Vec<String>,
    pub route_ips: Vec<String>,
    pub route_domains: Vec<String>,
}

impl Default for RouteArgs {
    fn default() -> (args: Self)
        ensures
            args.policy == (RoutingOverrideArgs {
                routing_mode: None,
                block_ipv6: false,
                allow_ipv6: false,
            }),
            args.routes@.len() == 0,
            args.route_ips@.len() == 0,
            args.route_domains@.len() == 0,
    {
        RouteArgs {
            policy: RoutingOverrideArgs::default(),
            routes: Vec::new(),
            route_ips: Vec::new(),
            route_domains: Vec::new(),
        }
    }
}

/// Routing settings of a profile.
#[derive(Debug, Clone)]
pub struct RoutingOverrides {
    pub mode: Option<UserRoutingMode>,
    pub routes: Vec<String>,
    pub block_ipv6: bool,
}

/// Routing settings with routes as texts.
#[verifier::ext_equal]
pub struct RoutingView {
    pub mode: Option<UserRoutingMode>,
    pub routes: Seq<Seq<char>>,
    pub block_ipv6: bool,
}

impl View for RoutingOverrides {
    type V = RoutingView;

    open spec fn view(&self) -> RoutingView {
        RoutingView {
            mode: self.mode,
            routes: texts(self.routes@),
            block_ipv6: self.block_ipv6,
        }
    }
}

/// Routing settings that leave everything to others.
pub open spec fn no_routing() -> RoutingView {
    RoutingView { mode: None, routes: Seq::empty(), block_ipv6: false }
}

impl RoutingOverrides {
    pub fn copy(&self) -> (routing: Self)
        ensures
            routing@ == self@,
    {
        RoutingOverrides {
            mode: self.mode,
            routes: copy_texts(&self.routes),
            block_ipv6: self.block_ipv6,
        }
    }

    /// Whether everything is left to others.
    pub fn is_inherited(&self) -> (answer: bool)
        ensures
            answer == (self@ == no_routing()),
    {
        let answer = self.mode.is_none() && self.routes.len() == 0 && !self.block_ipv6;
        assert(answer ==> self@ =~= no_routing());
        assert(self@ == no_routing() ==> self@.routes.len() == 0);
        answer
    }
}

impl Default for RoutingOverrides {
    fn default() -> (routing: Self)
        ensures
            routing@ == no_routing(),
    {
        let routing = RoutingOverrides { mode: None, routes: Vec::new(), block_ipv6: false };
        assert(routing@ =~= no_routing());
        routing
    }
}

/// Routing settings of a controller.
#[derive(Debug, Clone)]
pub struct RoutingConfiguration {
    pub mode: RoutingMode,
    pub custom_routes: Vec<String>,
    pub mtu_mode: String,
    pub custom_mtu: i64,
}

/// Address filters of a controller.
#[derive(Debug, Clone)]
pub struct IpFilterConfiguration {
    pub inclusive: Vec<String>,
    pub exclusive: Vec<String>,
}

/// The two halves of the IPv6 address space.
pub open spec fn capture_routes() -> Seq<Seq<char>> {
    seq!["::/1"@, "8000::/1"@]
}

/// The routes that draw all IPv6 traffic in, where it is blocked.
pub open spec fn ipv6_routes(block_ipv6: bool) -> Seq<Seq<char>> {
    if block_ipv6 {
        capture_routes()
    } else {
        Seq::empty()
    }
}

pub fn append_ipv6_capture_routes(routes: &mut Vec<String>, block_ipv6: bool)
    ensures
        texts(final(routes)@) == texts(old(routes)@) + ipv6_routes(block_ipv6),
{
    if block_ipv6 {
        push_one(routes, "::/1".to_owned());
        push_one(routes, "8000::/1".to_owned());
    }
    assert(texts(routes@) =~= texts(old(routes)@) + ipv6_routes(block_ipv6));
}

/// Link-local, multicast and loopback addresses never go through the tunnel.
pub open spec fn base_exclusions() -> Seq<Seq<char>> {
    seq!["169.254.0.0/16"@, "224.0.0.0/4"@, "127.0.0.0/8"@]
}

pub fn base_full_ipv4_exclusions() -> (exclusions: Vec<String>)
    ensures
        texts(exclusions@) == base_exclusions(),
{
    let mut exclusions: Vec<String> = Vec::new();
    push_one(&mut exclusions, "169.254.0.0/16".to_owned());
    push_one(&mut exclusions, "224.0.0.0/4".to_owned());
    push_one(&mut exclusions, "127.0.0.0/8".to_owned());
    assert(texts(exclusions@) =~= base_exclusions());
    exclusions
}

/// The network that holds one address alone.
pub open spec fn host_network(address: IpAddr) -> Seq<char> {
    match address {
        IpAddr::V4(_) => ip_chars(address) + "/32"@,
        IpAddr::V6(_) => ip_chars(address) + "/128"@,
    }
}

pub fn host_cidr(address: IpAddr) -> (text: String)
    ensures
        text@ == host_network(address),
{
    let shown = ip_text(address);
    match address {
        IpAddr::V4(_) => join2(&shown, "/32"),
        IpAddr::V6(_) => join2(&shown, "/128"),
    }
}

/// The networks of single addresses.
pub open spec fn host_networks(addresses: Seq<IpAddr>) -> Seq<Seq<char>> {
    addresses.map_values(|address: IpAddr| host_network(address))
}

/// The addresses of resolvers that stay reachable: all of them, or those of
/// IPv4 where IPv6 is blocked.
pub open spec fn reachable(physical: Seq<PhysicalResolver>, block_ipv6: bool) -> Seq<IpAddr> {
    physical.map_values(|resolver: PhysicalResolver| resolver.address.ip).filter(
        |address: IpAddr| !block_ipv6 || address is V4,
    )
}

/// Whether some questions go to resolvers of the host under a policy.
pub open spec fn asks_host(policy: DnsPolicyView) -> bool {
    policy.server_mode == DnsServerMode::Disabled || policy.split_mode == SplitDnsMode::Managed
        || policy.split_mode == SplitDnsMode::Custom
}

/// The networks of resolvers that a policy keeps out of the tunnel.
pub open spec fn resolver_exclusions(
    policy: DnsPolicyView,
    physical: Seq<PhysicalResolver>,
    block_ipv6: bool,
) -> Seq<Seq<char>> {
    if asks_host(policy) {
        host_networks(reachable(physical, block_ipv6))
    } else {
        Seq::empty()
    }
}

fn push_resolver_exclusions(
    out: &mut Vec<String>,
    policy: &EffectiveDnsPolicy,
    physical: &[PhysicalResolver],
    block_ipv6: bool,
)
    ensures
        texts(final(out)@) == texts(old(out)@) + resolver_exclusions(
            policy@,
            physical@,
            block_ipv6,
        ),
{
    let ghost start = texts(out@);
    let asks = policy.server_mode == DnsServerMode::Disabled || policy.split_mode
        == SplitDnsMode::Managed || policy.split_mode == SplitDnsMode::Custom;
    if !asks {
        assert(start + resolver_exclusions(policy@, physical@, block_ipv6) =~= start);
        return;
    }
    let ghost keeps = |address: IpAddr| !block_ipv6 || address is V4;
    let ghost addresses = physical@.map_values(|resolver: PhysicalResolver| resolver.address.ip);
    let mut i: usize = 0;
    proof {
        reveal(Seq::filter);
        assert(addresses.take(0).filter(keeps) =~= Seq::<IpAddr>::empty());
        assert(start + host_networks(addresses.take(0).filter(keeps)) =~= start);
    }
    while i < physical.len()
        invariant
            i <= physical@.len(),
            keeps == (|address: IpAddr| !block_ipv6 || address is V4),
            addresses == physical@.map_values(|resolver: PhysicalResolver| resolver.address.ip),
            texts(out@) == start + host_networks(addresses.take(i as int).filter(keeps)),
        decreases physical@.len() - i,
    {
        let address = physical[i].address.ip;
        let keep = match address {
            IpAddr::V4(_) => true,
            IpAddr::V6(_) => !block_ipv6,
        };
        let ghost before = addresses.take(i as int).filter(keeps);
        proof {
            let head = addresses.take(i + 1);
            assert(head.drop_last() =~= addresses.take(i as int));
            assert(head.last() == address);
            reveal(Seq::filter);
            assert(host_networks(before.push(address)) =~= host_networks(before).push(
                host_network(address),
            ));
            assert(start + host_networks(before).push(host_network(address)) =~= (start
                + host_networks(before)).push(host_network(address)));
        }
        if keep {
            push_one(out, host_cidr(address));
        }
        i += 1;
    }
    assert(addresses.take(i as int) =~= addresses);
}

/// Whether a text writes a network: an address, a slash and a prefix length
/// that fits the address.
pub open spec fn is_network(text: Seq<char>) -> bool {
    match split_first(text, "/"@) {
        Some(parts) => match ip_of_text(parts.0) {
            Some(IpAddr::V4(_)) => number_of(parts.1, 255) matches Some(length) && length <= 32,
            Some(IpAddr::V6(_)) => number_of(parts.1, 255) matches Some(length) && length <= 128,
            None => false,
        },
        None => false,
    }
}

fn writes_network(value: &str) -> (answer: bool)
    ensures
        answer == is_network(value@),
{
    let chars = chars_of(value);
    match split_once(chars.as_slice(), "/") {
        Some(parts) => {
            let text = string_of(parts.0.as_slice());
            match parse_ip(&text) {
                Some(address) => {
                    let limit: u64 = match address {
                        IpAddr::V4(_) => 32,
                        IpAddr::V6(_) => 128,
                    };
                    match parse_number(parts.1.as_slice(), 255) {
                        Some(length) => length <= limit,
                        None => false,
                    }
                },
                None => false,
            }
        },
        None => false,
    }
}

/// The members of a list that write networks.
pub open spec fn networks(list: Seq<Seq<char>>) -> Seq<Seq<char>> {
    list.filter(|text: Seq<char>| is_network(text))
}

/// Keeps the rules of a filter that are networks and ignores the others.
pub fn valid_filter_cidrs(values: &Vec<String>) -> (kept: Vec<String>)
    ensures
        texts(kept@) == networks(texts(values@)),
{
    let ghost all = texts(values@);
    let ghost wanted = |text: Seq<char>| is_network(text);
    let mut kept: Vec<String> = Vec::new();
    let mut i: usize = 0;
    proof {
        reveal(Seq::filter);
        assert(texts(kept@) =~= all.take(0).filter(wanted));
    }
    while i < values.len()
        invariant
            i <= values@.len(),
            all == texts(values@),
            wanted == (|text: Seq<char>| is_network(text)),
            texts(kept@) == all.take(i as int).filter(wanted),
        decreases values@.len() - i,
    {
        proof {
            let head = all.take(i + 1);
            assert(head.drop_last() =~= all.take(i as int));
            assert(head.last() == values@[i as int]@);
            reveal(Seq::filter);
        }
        if writes_network(&values[i]) {
            push_one(&mut kept, values[i].clone());
        }
        i += 1;
    }
    assert(all.take(i as int) =~= all);
    kept
}

/// The endpoint of a segment-routing ingress: none without a name or a usable
/// port, and with brackets around an IPv6 address that has none.
pub open spec fn ingress_endpoint_of(name: Seq<char>, port: i64) -> Option<Seq<char>> {
    if name.len() == 0 || port < 1 || port > 0xffff {
        None
    } else if name.contains(':') && name[0] != '[' {
        Some(seq!['['] + name + "]:"@ + decimal(port as nat))
    } else {
        Some(name + ":"@ + decimal(port as nat))
    }
}

pub fn ingress_endpoint(name: &str, port: i64) -> (endpoint: Option<String>)
    ensures
        match endpoint {
            Some(text) => ingress_endpoint_of(name@, port) == Some(text@),
            None => ingress_endpoint_of(name@, port) is None,
        },
{
    let chars = chars_of(name);
    if chars.len() == 0 || port < 1 || port > 0xffff {
        return None;
    }
    let mut colon = false;
    let mut i: usize = 0;
    while i < chars.len()
        invariant
            i <= chars@.len(),
            colon == exists|k: int| 0 <= k < i && #[trigger] chars@[k] == ':',
        decreases chars@.len() - i,
    {
        if chars[i] == ':' {
            colon = true;
            assert(chars@[i as int] == ':');
        }
        i += 1;
    }
    proof {
        if colon {
            let k = choose|k: int| 0 <= k < i && #[trigger] chars@[k] == ':';
            assert(name@.contains(':'));
        } else {
            assert(!name@.contains(':'));
        }
    }
    let mut text = String::new();
    if colon && chars[0] != '[' {
        text.push('[');
        push_text(&mut text, name);
        push_text(&mut text, "]:");
        assert(text@ =~= seq!['['] + name@ + "]:"@);
    } else {
        push_text(&mut text, name);
        push_text(&mut text, ":");
        assert(text@ =~= name@ + ":"@);
    }
    let shown = decimal_text(port as u64);
    push_text(&mut text, &shown);
    Some(text)
}

/// Everything that must stay outside the tunnel for the tunnel to work: the
/// base networks and the addresses of the servers, in ascending order.
pub fn managed_server_exclusions(addresses: &Vec<IpAddr>) -> (exclusions: Vec<String>)
    ensures
        ascending(texts(exclusions@)),
        forall|network: Seq<char>| #[trigger]
            texts(exclusions@).contains(network) <==> (base_exclusions() + host_networks(
                addresses@,
            )).contains(network),
{
    let mut all = base_full_ipv4_exclusions();
    let mut i: usize = 0;
    assert(base_exclusions() + host_networks(addresses@).take(0) =~= base_exclusions());
    while i < addresses.len()
        invariant
            i <= addresses@.len(),
            texts(all@) == base_exclusions() + host_networks(addresses@).take(i as int),
        decreases addresses@.len() - i,
    {
        push_one(&mut all, host_cidr(addresses[i]));
        assert(base_exclusions() + host_networks(addresses@).take(i + 1) =~= (base_exclusions()
            + host_networks(addresses@).take(i as int)).push(host_network(addresses@[i as int])));
        i += 1;
    }
    assert(host_networks(addresses@).take(i as int) =~= host_networks(addresses@));
    sort_texts(&all)
}

/// What the command, the profile and the controller make of routing together.
#[derive(Debug, Clone, Copy, PartialEq, Eq, Structural)]
pub struct ManagedRoutingSelection {
    pub mode: RoutingMode,
    pub user_overridden: bool,
    pub block_ipv6: bool,
}

/// A user's mode as a controller names it.
pub open spec fn as_routing_mode(mode: UserRoutingMode) -> RoutingMode {
    match mode {
        UserRoutingMode::All => RoutingMode::All,
        UserRoutingMode::Custom => RoutingMode::Custom,
    }
}

/// The command decides over the profile, and the profile over the controller;
/// where nobody says anything, all traffic goes through the tunnel.
pub open spec fn selected_routing(
    command: RoutingOverrideArgs,
    profile_mode: Option<UserRoutingMode>,
    profile_blocks: bool,
    controller: Option<RoutingMode>,
) -> ManagedRoutingSelection {
    let user = match command.routing_mode {
        Some(mode) => Some(mode),
        None => profile_mode,
    };
    ManagedRoutingSelection {
        mode: match user {
            Some(mode) => as_routing_mode(mode),
            None => match controller {
                Some(mode) => mode,
                None => RoutingMode::All,
            },
        },
        user_overridden: user is Some,
        block_ipv6: match command.ipv6() {
            Some(block) => block,
            None => profile_blocks,
        },
    }
}

/// The mode of a controller that sets one.
pub open spec fn controller_mode(controller: Option<&RoutingConfiguration>) -> Option<RoutingMode> {
    match controller {
        Some(routing) => Some(routing.mode),
        None => None,
    }
}

pub fn select_managed_routing(
    route_arguments: &RouteArgs,
    profile_routing: &RoutingOverrides,
    controller_routing: Option<&RoutingConfiguration>,
) -> (selection: ManagedRoutingSelection)
    ensures
        selection == selected_routing(
            route_arguments.policy,
            profile_routing.mode,
            profile_routing.block_ipv6,
            controller_mode(controller_routing),
        ),
{
    let user_mode = match route_arguments.policy.routing_mode {
        Some(mode) => Some(mode),
        None => profile_routing.mode,
    };
    let mode = match user_mode {
        Some(UserRoutingMode::All) => RoutingMode::All,
        Some(UserRoutingMode::Custom) => RoutingMode::Custom,
        None => match controller_routing {
            Some(routing) => routing.mode,
            None => RoutingMode::All,
        },
    };
    let block_ipv6 = match route_arguments.policy.ipv6_override() {
        Some(block) => block,
        None => profile_routing.block_ipv6,
    };
    ManagedRoutingSelection { mode, user_overridden: user_mode.is_some(), block_ipv6 }
}

/// A command's mode stands whatever the profile and the controller say.
pub proof fn law_command_mode_wins(
    mode: UserRoutingMode,
    block_ipv6: bool,
    allow_ipv6: bool,
    profile_mode: Option<UserRoutingMode>,
    profile_blocks: bool,
    controller: Option<RoutingMode>,
)
    ensures
        ({
            let command = RoutingOverrideArgs { routing_mode: Some(mode), block_ipv6, allow_ipv6 };
            let selection = selected_routing(command, profile_mode, profile_blocks, controller);
            &&& selection.mode == as_routing_mode(mode)
            &&& selection.user_overridden
            &&& block_ipv6 ==> selection.block_ipv6
            &&& !block_ipv6 && allow_ipv6 ==> !selection.block_ipv6
        }),
{
}

/// The routes that a controller adds: its custom ones, where its custom mode
/// is in force.
pub open spec fn controller_routes(
    controller: Option<&RoutingConfiguration>,
    user_overridden: bool,
) -> Seq<Seq<char>> {
    match controller {
        Some(routing) => if !user_overridden && routing.mode == RoutingMode::Custom {
            texts(routing.custom_routes@)
        } else {
            Seq::empty()
        },
        None => Seq::empty(),
    }
}

/// The networks that go through the tunnel.
pub open spec fn managed_networks(
    profile: Seq<Seq<char>>,
    command: Seq<Seq<char>>,
    inclusive: Seq<Seq<char>>,
    controller: Seq<Seq<char>>,
    block_ipv6: bool,
) -> Seq<Seq<char>> {
    profile + command + networks(inclusive) + controller + ipv6_routes(block_ipv6)
}

pub fn collect_managed_cidrs(
    route_arguments: &RouteArgs,
    profile_routing: &RoutingOverrides,
    controller_routing: Option<&RoutingConfiguration>,
    ip_filter_inclusive: &Vec<String>,
    selection: ManagedRoutingSelection,
) -> (cidrs: Vec<String>)
    ensures
        texts(cidrs@) == managed_networks(
            texts(profile_routing.routes@),
            texts(route_arguments.routes@),
            texts(ip_filter_inclusive@),
            controller_routes(controller_routing, selection.user_overridden),
            selection.block_ipv6,
        ),
{
    let mut cidrs = copy_texts(&profile_routing.routes);
    push_texts(&mut cidrs, &route_arguments.routes);
    let included = valid_filter_cidrs(ip_filter_inclusive);
    push_texts(&mut cidrs, &included);
    let ghost start = texts(cidrs@);
    assert(start + Seq::<Seq<char>>::empty() =~= start);
    if let Some(routing) = controller_routing {
        if !selection.user_overridden && routing.mode == RoutingMode::Custom {
            push_texts(&mut cidrs, &routing.custom_routes);
        }
    }
    append_ipv6_capture_routes(&mut cidrs, selection.block_ipv6);
    cidrs
}

/// A controller's custom routes are left out once the user chose a mode.
pub proof fn law_user_mode_drops_controller_routes(
    controller: Option<&RoutingConfiguration>,
    command: RoutingOverrideArgs,
    profile_mode: Option<UserRoutingMode>,
    profile_blocks: bool,
)
    requires
        command.routing_mode is Some || profile_mode is Some,
    ensures
        controller_routes(
            controller,
            selected_routing(
                command,
                profile_mode,
                profile_blocks,
                controller_mode(controller),
            ).user_overridden,
        ) == Seq::<Seq<char>>::empty(),
{
}

/// What the routing table is made of.
pub struct RoutePlan {
    pub cidrs: Vec<String>,
    pub route_ips: Vec<String>,
    pub route_domains: Vec<String>,
    pub exclusions: Vec<String>,
    pub peer: IpAddr,
    pub full_ipv4: bool,
}

/// A route plan with lists of texts.
#[verifier::ext_equal]
pub struct RoutePlanView {
    pub cidrs: Seq<Seq<char>>,
    pub route_ips: Seq<Seq<char>>,
    pub route_domains: Seq<Seq<char>>,
    pub exclusions: Seq<Seq<char>>,
    pub peer: IpAddr,
    pub full_ipv4: bool,
}

impl View for RoutePlan {
    type V = RoutePlanView;

    open spec fn view(&self) -> RoutePlanView {
        RoutePlanView {
            cidrs: texts(self.cidrs@),
            route_ips: texts(self.route_ips@),
            route_domains: texts(self.route_domains@),
            exclusions: texts(self.exclusions@),
            peer: self.peer,
            full_ipv4: self.full_ipv4,
        }
    }
}

/// The DNS servers of a policy as texts, without the tunnel's own peer.
pub open spec fn server_texts(servers: Seq<Ipv4Addr>, peer: IpAddr) -> Seq<Seq<char>> {
    servers.filter(|server: Ipv4Addr| IpAddr::V4(server) != peer).map_values(
        |server: Ipv4Addr| ipv4_chars(server),
    )
}

/// The routes of a direct connection: those of the command and to the DNS
/// servers, and all traffic only where the command asks for it.
pub open spec fn direct_plan(
    args: RouteArgs,
    policy: DnsPolicyView,
    physical: Seq<PhysicalResolver>,
    peer: IpAddr,
) -> RoutePlanView {
    let all = args.policy.routing_mode == Some(UserRoutingMode::All);
    let block_ipv6 = args.policy.ipv6() == Some(true);
    RoutePlanView {
        cidrs: texts(args.routes@) + ipv6_routes(block_ipv6),
        route_ips: texts(args.route_ips@) + server_texts(policy.servers, peer),
        route_domains: texts(args.route_domains@),
        exclusions: resolver_exclusions(policy, physical, block_ipv6) + (if all {
            base_exclusions()
        } else {
            Seq::empty()
        }),
        peer,
        full_ipv4: all,
    }
}

fn push_server_texts(out: &mut Vec<String>, servers: &Vec<Ipv4Addr>, peer: IpAddr)
    ensures
        texts(final(out)@) == texts(old(out)@) + server_texts(servers@, peer),
{
    let ghost start = texts(out@);
    let ghost wanted = |server: Ipv4Addr| IpAddr::V4(server) != peer;
    let ghost shown = |server: Ipv4Addr| ipv4_chars(server);
    let mut i: usize = 0;
    proof {
        reveal(Seq::filter);
        assert(start + servers@.take(0).filter(wanted).map_values(shown) =~= start);
    }
    while i < servers.len()
        invariant
            i <= servers@.len(),
            wanted == (|server: Ipv4Addr| IpAddr::V4(server) != peer),
            shown == (|server: Ipv4Addr| ipv4_chars(server)),
            texts(out@) == start + servers@.take(i as int).filter(wanted).map_values(shown),
        decreases servers@.len() - i,
    {
        let server = servers[i];
        proof {
            let head = servers@.take(i + 1);
            let before = servers@.take(i as int).filter(wanted);
            assert(head.drop_last() =~= servers@.take(i as int));
            assert(head.last() == server);
            reveal(Seq::filter);
            assert(before.push(server).map_values(shown) =~= before.map_values(shown).push(
                ipv4_chars(server),
            ));
            assert(start + before.map_values(shown).push(ipv4_chars(server)) =~= (start
                + before.map_values(shown)).push(ipv4_chars(server)));
        }
        if IpAddr::V4(server) != peer {
            push_one(out, ipv4_text(server));
        }
        i += 1;
    }
    assert(servers@.take(i as int) =~= servers@);
}

/// Plans the routes of a direct connection.
pub fn plan_direct_routes(
    args: &RouteArgs,
    policy: &EffectiveDnsPolicy,
    physical: &[PhysicalResolver],
    peer: IpAddr,
) -> (plan: RoutePlan)
    ensures
        plan@ == direct_plan(*args, policy@, physical@, peer),
{
    let full_ipv4 = match args.policy.routing_mode {
        Some(mode) => mode == UserRoutingMode::All,
        None => false,
    };
    let block_ipv6 = match args.policy.ipv6_override() {
        Some(block) => block,
        None => false,
    };
    let mut route_ips = copy_texts(&args.route_ips);
    push_server_texts(&mut route_ips, &policy.servers, peer);
    let mut exclusions: Vec<String> = Vec::new();
    push_resolver_exclusions(&mut exclusions, policy, physical, block_ipv6);
    if full_ipv4 {
        let base = base_full_ipv4_exclusions();
        push_texts(&mut exclusions, &base);
    }
    let mut cidrs = copy_texts(&args.routes);
    append_ipv6_capture_routes(&mut cidrs, block_ipv6);
    let route_domains = copy_texts(&args.route_domains);
    let plan = RoutePlan { cidrs, route_ips, route_domains, exclusions, peer, full_ipv4 };
    assert(plan@ =~= direct_plan(*args, policy@, physical@, peer));
    plan
}

/// A filter that is in force: one with members, under a mode other than `all`.
pub open spec fn filter_in_force(
    mode: RoutingMode,
    filter: Option<&IpFilterConfiguration>,
) -> Option<IpFilterConfiguration> {
    match filter {
        Some(lists) => if mode != RoutingMode::All && (lists.inclusive@.len() > 0
            || lists.exclusive@.len() > 0) {
            Some(*lists)
        } else {
            None
        },
        None => None,
    }
}

/// The networks of single DNS servers.
pub open spec fn server_networks(servers: Seq<Ipv4Addr>) -> Seq<Seq<char>> {
    servers.map_values(|server: Ipv4Addr| ipv4_chars(server) + "/32"@)
}

/// The routes of a managed connection.
pub open spec fn managed_plan(
    args: RouteArgs,
    profile: RoutingOverrides,
    controller: Option<&RoutingConfiguration>,
    filter: Option<&IpFilterConfiguration>,
    servers: Seq<Seq<char>>,
    policy: DnsPolicyView,
    physical: Seq<PhysicalResolver>,
    peer: IpAddr,
) -> RoutePlanView {
    let selection = selected_routing(
        args.policy,
        profile.mode,
        profile.block_ipv6,
        controller_mode(controller),
    );
    let effective = filter_in_force(selection.mode, filter);
    RoutePlanView {
        cidrs: managed_networks(
            texts(profile.routes@),
            texts(args.routes@),
            match effective {
                Some(lists) => texts(lists.inclusive@),
                None => Seq::empty(),
            },
            controller_routes(controller, selection.user_overridden),
            selection.block_ipv6,
        ) + (if selection.mode == RoutingMode::All {
            Seq::empty()
        } else {
            server_networks(policy.servers)
        }),
        route_ips: texts(args.route_ips@),
        route_domains: texts(args.route_domains@),
        exclusions: (match effective {
            Some(lists) => networks(texts(lists.exclusive@)),
            None => Seq::empty(),
        }) + servers + resolver_exclusions(policy, physical, selection.block_ipv6),
        peer,
        full_ipv4: selection.mode == RoutingMode::All || (selection.mode == RoutingMode::IpFilter
            && effective is None),
    }
}

fn push_server_networks(out: &mut Vec<String>, servers: &Vec<Ipv4Addr>)
    ensures
        texts(final(out)@) == texts(old(out)@) + server_networks(servers@),
{
    let ghost start = texts(out@);
    let mut i: usize = 0;
    assert(start + server_networks(servers@).take(0) =~= start);
    while i < servers.len()
        invariant
            i <= servers@.len(),
            texts(out@) == start + server_networks(servers@).take(i as int),
        decreases servers@.len() - i,
    {
        let shown = ipv4_text(servers[i]);
        push_one(out, join2(&shown, "/32"));
        assert(start + server_networks(servers@).take(i + 1) =~= (start + server_networks(
            servers@,
        ).take(i as int)).push(ipv4_chars(servers@[i as int]) + "/32"@));
        i += 1;
    }
    assert(server_networks(servers@).take(i as int) =~= server_networks(servers@));
}

/// Plans the routes of a managed connection. `servers` are the exclusions that
/// the controller's servers need.
pub fn plan_managed_routes(
    args: &RouteArgs,
    profile: &RoutingOverrides,
    controller: Option<&RoutingConfiguration>,
    filter: Option<&IpFilterConfiguration>,
    servers: &Vec<String>,
    policy: &EffectiveDnsPolicy,
    physical: &[PhysicalResolver],
    peer: IpAddr,
) -> (plan: RoutePlan)
    ensures
        plan@ == managed_plan(
            *args,
            *profile,
            controller,
            filter,
            texts(servers@),
            policy@,
            physical@,
            peer,
        ),
{
    let selection = select_managed_routing(args, profile, controller);
    let mut inclusive: Vec<String> = Vec::new();
    let mut exclusions: Vec<String> = Vec::new();
    let mut filtered = false;
    assert(texts(inclusive@) =~= Seq::empty());
    assert(texts(exclusions@) =~= Seq::empty());
    if let Some(lists) = filter {
        if selection.mode != RoutingMode::All && (lists.inclusive.len() > 0
            || lists.exclusive.len() > 0) {
            filtered = true;
            inclusive = copy_texts(&lists.inclusive);
            exclusions = valid_filter_cidrs(&lists.exclusive);
        }
    }
    let mut cidrs = collect_managed_cidrs(args, profile, controller, &inclusive, selection);
    if selection.mode != RoutingMode::All {
        push_server_networks(&mut cidrs, &policy.servers);
    }
    push_texts(&mut exclusions, servers);
    push_resolver_exclusions(&mut exclusions, policy, physical, selection.block_ipv6);
    let plan = RoutePlan {
        cidrs,
        route_ips: copy_texts(&args.route_ips),
        route_domains: copy_texts(&args.route_domains),
        exclusions,
        peer,
        full_ipv4: selection.mode == RoutingMode::All || (selection.mode == RoutingMode::IpFilter
            && !filtered),
    };
    assert(plan@ =~= managed_plan(
        *args,
        *profile,
        controller,
        filter,
        texts(servers@),
        policy@,
        physical@,
        peer,
    ));
    plan
}

/// The addresses of a policy's DNS servers.
pub open spec fn server_addresses(servers: Seq<Ipv4Addr>) -> Seq<IpAddr> {
    servers.map_values(|server: Ipv4Addr| IpAddr::V4(server))
}

/// The MTU of the interface: the controller's custom one where it is usable,
/// else the session's.
pub open spec fn mtu_in_force(session: u16, controller: Option<&RoutingConfiguration>) -> u16 {
    match controller {
        Some(routing) => if routing.mtu_mode@ == "custom"@ && MIN_INTERFACE_MTU
            <= routing.custom_mtu <= MAX_INTERFACE_MTU {
            routing.custom_mtu as u16
        } else {
            session
        },
        None => session,
    }
}

/// The session as the interface is set up for it.
pub fn interface_session(
    session: &SessionInfo,
    policy: &EffectiveDnsPolicy,
    controller: Option<&RoutingConfiguration>,
) -> (interface: SessionInfo)
    ensures
        interface.peer == session.peer,
        interface.session_id == session.session_id,
        interface.token == session.token,
        interface.encryption == session.encryption,
        interface.mtu == mtu_in_force(session.mtu, controller),
        interface.address == session.address,
        interface.gateway == session.gateway,
        interface.dns_servers@ == server_addresses(policy@.servers),
        interface.segment_routing == session.segment_routing,
{
    let mut mtu: u16 = session.mtu;
    if let Some(routing) = controller {
        if same_text(&routing.mtu_mode, "custom") && routing.custom_mtu >= MIN_INTERFACE_MTU
            && routing.custom_mtu <= MAX_INTERFACE_MTU {
            mtu = routing.custom_mtu as u16;
        }
    }
    let mut dns_servers: Vec<IpAddr> = Vec::new();
    let mut i: usize = 0;
    while i < policy.servers.len()
        invariant
            i <= policy.servers@.len(),
            dns_servers@ =~= server_addresses(policy.servers@).take(i as int),
        decreases policy.servers@.len() - i,
    {
        dns_servers.push(IpAddr::V4(policy.servers[i]));
        i += 1;
    }
    assert(server_addresses(policy.servers@).take(i as int) =~= server_addresses(policy.servers@));
    SessionInfo {
        peer: session.peer,
        session_id: session.session_id,
        token: session.token,
        encryption: session.encryption,
        mtu,
        address: session.address,
        gateway: session.gateway,
        dns_servers,
        segment_routing: session.segment_routing,
    }
}

/// Where IPv6 is blocked, all of it is routed into the tunnel, and no resolver
/// that stays outside is reached over it.
pub proof fn law_blocked_ipv6_is_captured(
    args: RouteArgs,
    profile: RoutingOverrides,
    controller: Option<&RoutingConfiguration>,
    filter: Option<&IpFilterConfiguration>,
    servers: Seq<Seq<char>>,
    policy: DnsPolicyView,
    physical: Seq<PhysicalResolver>,
    peer: IpAddr,
    i: int,
)
    requires
        args.policy.ipv6() == Some(true),
    ensures
        direct_plan(args, policy, physical, peer).cidrs.contains("::/1"@),
        direct_plan(args, policy, physical, peer).cidrs.contains("8000::/1"@),
        managed_plan(args, profile, controller, filter, servers, policy, physical, peer)
            .cidrs.contains("::/1"@),
        managed_plan(args, profile, controller, filter, servers, policy, physical, peer)
            .cidrs.contains("8000::/1"@),
        0 <= i < reachable(physical, true).len() ==> reachable(physical, true)[i] is V4,
{
    let direct = direct_plan(args, policy, physical, peer).cidrs;
    let given: int = texts(args.routes@).len() as int;
    assert(direct[given] == "::/1"@);
    assert(direct[given + 1] == "8000::/1"@);
    let managed = managed_plan(args, profile, controller, filter, servers, policy, physical, peer);
    let selection = selected_routing(
        args.policy,
        profile.mode,
        profile.block_ipv6,
        controller_mode(controller),
    );
    let effective = filter_in_force(selection.mode, filter);
    let named = texts(profile.routes@) + texts(args.routes@) + networks(
        match effective {
            Some(lists) => texts(lists.inclusive@),
            None => Seq::empty(),
        },
    ) + controller_routes(controller, selection.user_overridden);
    assert(managed.cidrs[named.len() as int] == "::/1"@);
    assert(managed.cidrs[named.len() as int + 1] == "8000::/1"@);
    let block_ipv6 = true;
    if 0 <= i < reachable(physical, block_ipv6).len() {
        physical.map_values(|resolver: PhysicalResolver| resolver.address.ip).lemma_filter_pred(
            |address: IpAddr| !block_ipv6 || address is V4,
            i,
        );
    }
}

/// Whether a packet says that it is of version six.
pub open spec fn claims_ipv6(packet: Seq<u8>) -> bool {
    packet.len() > 0 && packet[0] / 16 == 6
}

pub fn is_ipv6_packet(packet: &[u8]) -> (answer: bool)
    ensures
        answer == claims_ipv6(packet@),
{
    packet.len() > 0 && packet[0] / 16 == 6
}

/// A device that lets no IPv6 packet through, where IPv6 is blocked.
pub struct Ipv6BlockingDevice<D: PacketDevice> {
    pub inner: Arc<D>,
    pub block_ipv6: bool,
}

impl<D: PacketDevice> Ipv6BlockingDevice<D> {
    pub fn new(inner: Arc<D>, block_ipv6: bool) -> (device: Self)
        ensures
            device.inner == inner,
            device.block_ipv6 == block_ipv6,
    {
        Ipv6BlockingDevice { inner, block_ipv6 }
    }
}

impl<D: PacketDevice> PacketDevice for Ipv6BlockingDevice<D> {
    fn name(&self) -> (name: &str)
        ensures
            call_ensures(D::name, (&*self.inner,), name),
    {
        self.inner.name()
    }

    fn activate_session(&self, session: &SessionInfo) -> (result: Result<(), Error>)
        ensures
            call_ensures(D::activate_session, (&*self.inner, session), result),
    {
        self.inner.activate_session(session)
    }

    fn deactivate_session(&self) -> (result: Result<(), Error>)
        ensures
            call_ensures(D::deactivate_session, (&*self.inner,), result),
    {
        self.inner.deactivate_session()
    }

    /// Reads the next packet that is let through.
    fn read_packet(&self, buffer: &mut [u8]) -> (result: Result<usize, Error>)
        ensures
            match result {
                Ok(length) => {
                    &&& length <= final(buffer)@.len()
                    &&& !(self.block_ipv6 && claims_ipv6(final(buffer)@.take(length as int)))
                    &&& exists|read: &mut [u8]| #[trigger]
                        call_ensures(
                            D::read_packet,
                            (&*self.inner, read),
                            Ok::<usize, Error>(length),
                        ) && final(read)@ == final(buffer)@
                },
                Err(error) => {
                    ||| exists|read: &mut [u8]| #[trigger]
                        call_ensures(D::read_packet, (&*self.inner, read), Err::<usize, Error>(error))
                    ||| (error matches Error::Io(text) && text@
                        == "packet device filled more than the buffer"@) && exists|
                        length: usize,
                        read: &mut [u8],
                    |
                        #[trigger] call_ensures(
                            D::read_packet,
                            (&*self.inner, read),
                            Ok::<usize, Error>(length),
                        ) && length > final(read)@.len()
                    ||| (error matches Error::Io(text) && text@
                        == "packet device gave blocked packets only"@) && self.block_ipv6 && exists|
                        length: usize,
                        read: &mut [u8],
                    |
                        #[trigger] call_ensures(
                            D::read_packet,
                            (&*self.inner, read),
                            Ok::<usize, Error>(length),
                        ) && length <= final(read)@.len() && claims_ipv6(
                            final(read)@.take(length as int),
                        )
                },
            },
    {
        let mut blocked: u64 = 0;
        while blocked < u64::MAX
            invariant
                blocked > 0 ==> self.block_ipv6 && exists|length: usize, read: &mut [u8]|
                    #[trigger] call_ensures(
                        D::read_packet,
                        (&*self.inner, read),
                        Ok::<usize, Error>(length),
                    ) && length <= final(read)@.len() && claims_ipv6(
                        final(read)@.take(length as int),
                    ),
            decreases u64::MAX - blocked,
        {
            let outcome = self.inner.read_packet(buffer);
            let length: usize = match outcome {
                Ok(length) => length,
                Err(error) => {
                    return Err(error);
                },
            };
            if length > buffer.len() {
                return Err(Error::Io("packet device filled more than the buffer".to_owned()));
            }
            let packet = slice_subrange(buffer, 0, length);
            assert(packet@ =~= buffer@.take(length as int));
            if !self.block_ipv6 || !is_ipv6_packet(packet) {
                return Ok(length);
            }
            blocked += 1;
        }
        Err(Error::Io("packet device gave blocked packets only".to_owned()))
    }

    /// Writes a packet, or drops it as if it had been written.
    fn write_packet(&self, packet: &[u8]) -> (result: Result<usize, Error>)
        ensures
            if self.block_ipv6 && claims_ipv6(packet@) {
                result == Ok::<usize, Error>(packet@.len() as usize)
            } else {
                call_ensures(D::write_packet, (&*self.inner, packet), result)
            },
    {
        if self.block_ipv6 && is_ipv6_packet(packet) {
            Ok(packet.len())
        } else {
            self.inner.write_packet(packet)
        }
    }
}

/// The mode that a user asks for: that of the command, else that of the profile.
pub open spec fn asked_mode(args: RouteArgs, profile: RoutingOverrides) -> Option<UserRoutingMode> {
    if args.policy.routing_mode is Some {
        args.policy.routing_mode
    } else {
        profile.mode
    }
}

/// A managed connection sends all IPv4 traffic through the tunnel where the user
/// asks for everything, or asks for nothing and the controller neither lists
/// networks nor has a filter with members; where networks are listed it never
/// does.
pub proof fn law_full_tunnel(
    args: RouteArgs,
    profile: RoutingOverrides,
    controller: Option<&RoutingConfiguration>,
    filter: Option<&IpFilterConfiguration>,
    servers: &Vec<String>,
    policy: &EffectiveDnsPolicy,
    physical: &[PhysicalResolver],
    peer: IpAddr,
    plan: RoutePlan,
)
    requires
        call_ensures(
            plan_managed_routes,
            (&args, &profile, controller, filter, servers, policy, physical, peer),
            plan,
        ),
    ensures
        asked_mode(args, profile) == Some(UserRoutingMode::All) ==> plan.full_ipv4,
        asked_mode(args, profile) == Some(UserRoutingMode::Custom) ==> !plan.full_ipv4,
        asked_mode(args, profile) is None && controller is None ==> plan.full_ipv4,
        asked_mode(args, profile) is None && (controller matches Some(routing) && routing.mode is All)
            ==> plan.full_ipv4,
        asked_mode(args, profile) is None && (controller matches Some(routing)
            && routing.mode is Custom) ==> !plan.full_ipv4,
        asked_mode(args, profile) is None && (controller matches Some(routing)
            && routing.mode is IpFilter) ==> (plan.full_ipv4 <==> !(filter matches Some(lists) && (
        lists.inclusive@.len() > 0 || lists.exclusive@.len() > 0))),
        plan.peer == peer,
{
}

/// Whether IPv6 is kept off the network: the command says so, or says nothing and
/// the profile does.
pub open spec fn keeps_ipv6_out(args: RouteArgs, profile: RoutingOverrides) -> bool {
    args.policy.block_ipv6 || (!args.policy.allow_ipv6 && profile.block_ipv6)
}

/// Whether the lists of a filter count: they do unless everything is to go through
/// the tunnel.
pub open spec fn filter_counts(
    args: RouteArgs,
    profile: RoutingOverrides,
    controller: Option<&RoutingConfiguration>,
) -> bool {
    asked_mode(args, profile) == Some(UserRoutingMode::Custom) || (asked_mode(
        args,
        profile,
    ) is None && (controller matches Some(routing) && !(routing.mode is All)))
}

/// The networks that a managed connection routes are those that the profile and
/// the command list, the well-formed ones that a filter in force lets in, those of
/// the controller where the user chose no mode, both halves of IPv6 where it is
/// kept out, and the DNS servers where not everything is routed: these and no
/// others.
pub proof fn law_managed_networks(
    args: RouteArgs,
    profile: RoutingOverrides,
    controller: Option<&RoutingConfiguration>,
    filter: Option<&IpFilterConfiguration>,
    servers: &Vec<String>,
    policy: &EffectiveDnsPolicy,
    physical: &[PhysicalResolver],
    peer: IpAddr,
    plan: RoutePlan,
    network: Seq<char>,
)
    requires
        call_ensures(
            plan_managed_routes,
            (&args, &profile, controller, filter, servers, policy, physical, peer),
            plan,
        ),
    ensures
        texts(plan.cidrs@).contains(network) <==> {
            ||| texts(profile.routes@).contains(network)
            ||| texts(args.routes@).contains(network)
            ||| filter_counts(args, profile, controller) && (filter matches Some(lists) && texts(
                lists.inclusive@,
            ).contains(network) && is_network(network))
            ||| asked_mode(args, profile) is None && (controller matches Some(routing)
                && routing.mode is Custom && texts(routing.custom_routes@).contains(network))
            ||| keeps_ipv6_out(args, profile) && (network == "::/1"@ || network == "8000::/1"@)
            ||| filter_counts(args, profile, controller) && exists|i: int|
                0 <= i < policy.servers@.len() && network == #[trigger] ipv4_chars(
                    policy.servers@[i],
                ) + "/32"@
        },
        texts(plan.route_ips@) == texts(args.route_ips@),
        texts(plan.route_domains@) == texts(args.route_domains@),
{
    let selection = selected_routing(
        args.policy,
        profile.mode,
        profile.block_ipv6,
        controller_mode(controller),
    );
    let effective = filter_in_force(selection.mode, filter);
    let inclusive = match effective {
        Some(lists) => texts(lists.inclusive@),
        None => Seq::empty(),
    };
    let own = texts(profile.routes@);
    let asked = texts(args.routes@);
    let given = controller_routes(controller, selection.user_overridden);
    let capture = ipv6_routes(selection.block_ipv6);
    let last = if selection.mode == RoutingMode::All {
        Seq::empty()
    } else {
        server_networks(policy@.servers)
    };
    lemma_sum_contains(own, asked, network);
    lemma_sum_contains(own + asked, networks(inclusive), network);
    lemma_sum_contains(own + asked + networks(inclusive), given, network);
    lemma_sum_contains(own + asked + networks(inclusive) + given, capture, network);
    lemma_sum_contains(own + asked + networks(inclusive) + given + capture, last, network);
    lemma_filter_contains(inclusive, |text: Seq<char>| is_network(text), network);
    lemma_map_contains(
        policy@.servers,
        |server: Ipv4Addr| ipv4_chars(server) + "/32"@,
        network,
    );
    assert(capture_routes().contains(network) <==> network == "::/1"@ || network == "8000::/1"@)
        by {
        assert(capture_routes()[0] == "::/1"@ && capture_routes()[1] == "8000::/1"@);
    }
    let image = |server: Ipv4Addr| ipv4_chars(server) + "/32"@;
    if exists|i: int|
        0 <= i < policy.servers@.len() && network == #[trigger] ipv4_chars(policy.servers@[i])
            + "/32"@ {
        let i = choose|i: int|
            0 <= i < policy.servers@.len() && network == #[trigger] ipv4_chars(policy.servers@[i])
                + "/32"@;
        assert(image(policy@.servers[i]) == network);
    }
    if exists|i: int| 0 <= i < policy@.servers.len() && image(#[trigger] policy@.servers[i]) == network {
        let i = choose|i: int|
            0 <= i < policy@.servers.len() && image(#[trigger] policy@.servers[i]) == network;
        assert(network == ipv4_chars(policy.servers@[i]) + "/32"@);
    }
}

/// The DNS resolvers of the host that questions still go to: those that can be
/// reached, under the name of a network of one address.
pub open spec fn is_resolver_network(
    policy: EffectiveDnsPolicy,
    physical: Seq<PhysicalResolver>,
    block_ipv6: bool,
    network: Seq<char>,
) -> bool {
    &&& policy.server_mode is Disabled || policy.split_mode is Managed || policy.split_mode is Custom
    &&& exists|i: int|
        0 <= i < physical.len() && match (#[trigger] physical[i]).address.ip {
            IpAddr::V4(address) => network == ipv4_chars(address) + "/32"@,
            IpAddr::V6(address) => !block_ipv6 && network == crate::net::ipv6_chars(address.bits)
                + "/128"@,
        }
}

proof fn lemma_resolver_networks(
    policy: EffectiveDnsPolicy,
    physical: Seq<PhysicalResolver>,
    block_ipv6: bool,
    network: Seq<char>,
)
    ensures
        resolver_exclusions(policy@, physical, block_ipv6).contains(network)
            <==> is_resolver_network(policy, physical, block_ipv6, network),
{
    let ips = physical.map_values(|resolver: PhysicalResolver| resolver.address.ip);
    let wanted = |address: IpAddr| !block_ipv6 || address is V4;
    let found = reachable(physical, block_ipv6);
    let shown = |address: IpAddr| host_network(address);
    lemma_map_contains(found, shown, network);
    if resolver_exclusions(policy@, physical, block_ipv6).contains(network) {
        let k = choose|k: int| 0 <= k < found.len() && shown(#[trigger] found[k]) == network;
        lemma_filter_contains(ips, wanted, found[k]);
        assert(found.contains(found[k]));
        let i = choose|i: int| 0 <= i < ips.len() && ips[i] == found[k];
        assert(physical[i].address.ip == found[k]);
    }
    if is_resolver_network(policy, physical, block_ipv6, network) {
        let i = choose|i: int|
            0 <= i < physical.len() && match (#[trigger] physical[i]).address.ip {
                IpAddr::V4(address) => network == ipv4_chars(address) + "/32"@,
                IpAddr::V6(address) => !block_ipv6 && network == crate::net::ipv6_chars(
                    address.bits,
                ) + "/128"@,
            };
        let ip = physical[i].address.ip;
        assert(ips[i] == ip);
        assert(ips.contains(ip));
        lemma_filter_contains(ips, wanted, ip);
        let k = choose|k: int| 0 <= k < found.len() && found[k] == ip;
        assert(shown(found[k]) == network);
    }
}

/// What a managed connection keeps out of the tunnel: the well-formed networks
/// that a filter in force excludes, those of the servers, and the resolvers of the
/// host that questions still go to.
pub proof fn law_managed_exclusions(
    args: RouteArgs,
    profile: RoutingOverrides,
    controller: Option<&RoutingConfiguration>,
    filter: Option<&IpFilterConfiguration>,
    servers: &Vec<String>,
    policy: &EffectiveDnsPolicy,
    physical: &[PhysicalResolver],
    peer: IpAddr,
    plan: RoutePlan,
    network: Seq<char>,
)
    requires
        call_ensures(
            plan_managed_routes,
            (&args, &profile, controller, filter, servers, policy, physical, peer),
            plan,
        ),
    ensures
        texts(plan.exclusions@).contains(network) <==> {
            ||| filter_counts(args, profile, controller) && (filter matches Some(lists) && texts(
                lists.exclusive@,
            ).contains(network) && is_network(network))
            ||| texts(servers@).contains(network)
            ||| is_resolver_network(
                *policy,
                physical@,
                keeps_ipv6_out(args, profile),
                network,
            )
        },
{
    let selection = selected_routing(
        args.policy,
        profile.mode,
        profile.block_ipv6,
        controller_mode(controller),
    );
    let effective = filter_in_force(selection.mode, filter);
    let listed = match effective {
        Some(lists) => texts(lists.exclusive@),
        None => Seq::empty(),
    };
    let kept = match effective {
        Some(lists) => networks(texts(lists.exclusive@)),
        None => Seq::empty(),
    };
    let resolvers = resolver_exclusions(policy@, physical@, selection.block_ipv6);
    lemma_filter_contains(listed, |text: Seq<char>| is_network(text), network);
    lemma_sum_contains(kept, texts(servers@), network);
    lemma_sum_contains(kept + texts(servers@), resolvers, network);
    lemma_resolver_networks(*policy, physical@, selection.block_ipv6, network);
}

/// A direct connection routes what the command lists and the DNS servers other
/// than the peer; everything of IPv4 only where it asks for that, and then neither
/// link-local, multicast nor loopback networks.
pub proof fn law_direct_routes(
    args: RouteArgs,
    policy: &EffectiveDnsPolicy,
    physical: &[PhysicalResolver],
    peer: IpAddr,
    plan: RoutePlan,
    network: Seq<char>,
)
    requires
        call_ensures(plan_direct_routes, (&args, policy, physical, peer), plan),
    ensures
        plan.full_ipv4 <==> args.policy.routing_mode == Some(UserRoutingMode::All),
        texts(plan.cidrs@).contains(network) <==> texts(args.routes@).contains(network) || (
        args.policy.block_ipv6 && (network == "::/1"@ || network == "8000::/1"@)),
        texts(plan.route_ips@).contains(network) <==> texts(args.route_ips@).contains(network)
            || exists|i: int|
            0 <= i < policy.servers@.len() && IpAddr::V4(policy.servers@[i]) != peer && network
                == #[trigger] ipv4_chars(policy.servers@[i]),
        texts(plan.route_domains@) == texts(args.route_domains@),
        texts(plan.exclusions@).contains(network) <==> {
            ||| is_resolver_network(*policy, physical@, args.policy.block_ipv6, network)
            ||| args.policy.routing_mode == Some(UserRoutingMode::All) && (network
                == "169.254.0.0/16"@ || network == "224.0.0.0/4"@ || network == "127.0.0.0/8"@)
        },
        plan.peer == peer,
{
    let blocked = args.policy.ipv6() == Some(true);
    assert(blocked == args.policy.block_ipv6);
    let own = texts(args.routes@);
    lemma_sum_contains(own, ipv6_routes(blocked), network);
    assert(capture_routes().contains(network) <==> network == "::/1"@ || network == "8000::/1"@)
        by {
        assert(capture_routes()[0] == "::/1"@ && capture_routes()[1] == "8000::/1"@);
    }
    let wanted = |server: Ipv4Addr| IpAddr::V4(server) != peer;
    let shown = |server: Ipv4Addr| ipv4_chars(server);
    let kept = policy@.servers.filter(wanted);
    lemma_sum_contains(texts(args.route_ips@), server_texts(policy@.servers, peer), network);
    lemma_map_contains(kept, shown, network);
    if server_texts(policy@.servers, peer).contains(network) {
        let k = choose|k: int| 0 <= k < kept.len() && shown(#[trigger] kept[k]) == network;
        assert(kept.contains(kept[k]));
        lemma_filter_contains(policy@.servers, wanted, kept[k]);
        let i = choose|i: int| 0 <= i < policy@.servers.len() && policy@.servers[i] == kept[k];
        assert(ipv4_chars(policy.servers@[i]) == network);
    }
    if exists|i: int|
        0 <= i < policy.servers@.len() && IpAddr::V4(policy.servers@[i]) != peer && network
            == #[trigger] ipv4_chars(policy.servers@[i]) {
        let i = choose|i: int|
            0 <= i < policy.servers@.len() && IpAddr::V4(policy.servers@[i]) != peer && network
                == #[trigger] ipv4_chars(policy.servers@[i]);
        assert(policy@.servers.contains(policy@.servers[i]));
        lemma_filter_contains(policy@.servers, wanted, policy@.servers[i]);
        let k = choose|k: int| 0 <= k < kept.len() && kept[k] == policy@.servers[i];
        assert(shown(kept[k]) == network);
    }
    let base = if args.policy.routing_mode == Some(UserRoutingMode::All) {
        base_exclusions()
    } else {
        Seq::empty()
    };
    let resolvers = resolver_exclusions(policy@, physical@, blocked);
    lemma_sum_contains(resolvers, base, network);
    lemma_resolver_networks(*policy, physical@, blocked, network);
    assert(base_exclusions().contains(network) <==> network == "169.254.0.0/16"@ || network
        == "224.0.0.0/4"@ || network == "127.0.0.0/8"@) by {
        assert(base_exclusions()[0] == "169.254.0.0/16"@);
        assert(base_exclusions()[1] == "224.0.0.0/4"@);
        assert(base_exclusions()[2] == "127.0.0.0/8"@);
    }
}

/// What a command says of routing goes before what the profile says, and that
/// before what the controller says; nobody saying anything means everything.
pub proof fn law_routing_precedence(
    args: RouteArgs,
    profile: RoutingOverrides,
    controller: Option<&RoutingConfiguration>,
    selection: ManagedRoutingSelection,
)
    requires
        call_ensures(select_managed_routing, (&args, &profile, controller), selection),
    ensures
        args.policy.routing_mode == Some(UserRoutingMode::All) ==> selection.mode is All,
        args.policy.routing_mode == Some(UserRoutingMode::Custom) ==> selection.mode is Custom,
        args.policy.routing_mode is None && profile.mode == Some(UserRoutingMode::All)
            ==> selection.mode is All,
        args.policy.routing_mode is None && profile.mode == Some(UserRoutingMode::Custom)
            ==> selection.mode is Custom,
        args.policy.routing_mode is None && profile.mode is None ==> (match controller {
            Some(routing) => selection.mode == routing.mode,
            None => selection.mode is All,
        }),
        selection.user_overridden <==> args.policy.routing_mode is Some || profile.mode is Some,
        selection.block_ipv6 <==> keeps_ipv6_out(args, profile),
{
}

/// The networks around a controller's servers: link-local, multicast and loopback
/// ones, and each address that the servers have.
pub proof fn law_server_exclusions(
    addresses: &Vec<IpAddr>,
    exclusions: Vec<String>,
    network: Seq<char>,
)
    requires
        call_ensures(managed_server_exclusions, (addresses,), exclusions),
    ensures
        texts(exclusions@).contains(network) <==> {
            ||| network == "169.254.0.0/16"@ || network == "224.0.0.0/4"@ || network
                == "127.0.0.0/8"@
            ||| exists|i: int|
                0 <= i < addresses@.len() && match #[trigger] addresses@[i] {
                    IpAddr::V4(address) => network == ipv4_chars(address) + "/32"@,
                    IpAddr::V6(address) => network == crate::net::ipv6_chars(address.bits)
                        + "/128"@,
                }
        },
{
    lemma_sum_contains(base_exclusions(), host_networks(addresses@), network);
    let shown = |address: IpAddr| host_network(address);
    lemma_map_contains(addresses@, shown, network);
    assert(base_exclusions().contains(network) <==> network == "169.254.0.0/16"@ || network
        == "224.0.0.0/4"@ || network == "127.0.0.0/8"@) by {
        assert(base_exclusions()[0] == "169.254.0.0/16"@);
        assert(base_exclusions()[1] == "224.0.0.0/4"@);
        assert(base_exclusions()[2] == "127.0.0.0/8"@);
    }
    if exists|i: int| 0 <= i < addresses@.len() && shown(#[trigger] addresses@[i]) == network {
        let i = choose|i: int| 0 <= i < addresses@.len() && shown(#[trigger] addresses@[i]) == network;
        assert(host_network(addresses@[i]) == network);
    }
    if exists|i: int|
        0 <= i < addresses@.len() && match #[trigger] addresses@[i] {
            IpAddr::V4(address) => network == ipv4_chars(address) + "/32"@,
            IpAddr::V6(address) => network == crate::net::ipv6_chars(address.bits) + "/128"@,
        } {
        let i = choose|i: int|
            0 <= i < addresses@.len() && match #[trigger] addresses@[i] {
                IpAddr::V4(address) => network == ipv4_chars(address) + "/32"@,
                IpAddr::V6(address) => network == crate::net::ipv6_chars(address.bits) + "/128"@,
            };
        assert(shown(addresses@[i]) == network);
    }
}

/// An IPv4 network is an address, a slash and a length of at most 32.
pub proof fn law_ipv4_network(address: Ipv4Addr, length: nat)
    ensures
        is_network(ipv4_chars(address) + "/"@ + decimal(length)) <==> length <= 32,
        !is_network(ipv4_chars(address)),
{
    reveal_strlit("/");
    let shown = ipv4_chars(address);
    let text = shown + "/"@ + decimal(length);
    crate::net::law_ipv4_read_back(address);
    crate::net::lemma_dotted_chars(address);
    assert("/"@ =~= seq!['/']);
    assert(crate::text::first_occurrence(text, "/"@, shown.len() as int)) by {
        assert(text.subrange(shown.len() as int, (shown.len() + 1) as int) =~= "/"@);
        assert forall|k: int| 0 <= k < shown.len() implies !crate::text::occurs_at(text, "/"@, k) by {
            assert(text.subrange(k, k + 1)[0] == shown[k]);
        }
    }
    crate::text::lemma_split_first(text, "/"@, shown.len() as int);
    assert(text.take(shown.len() as int) =~= shown);
    assert(text.skip((shown.len() + 1) as int) =~= decimal(length));
    crate::text::lemma_decimal_digits(length);
    assert(decimal(length)[0] != '+');
    assert forall|k: int| 0 <= k < shown.len() implies !crate::text::occurs_at(shown, "/"@, k) by {
        if crate::text::occurs_at(shown, "/"@, k) {
            assert(shown.subrange(k, k + 1)[0] == shown[k]);
        }
    }
}

/// The endpoint of an ingress: its name and its port, with brackets round a name
/// that holds a colon; none for an unnamed one or a port that there is not.
pub proof fn law_ingress_endpoint(name: &str, port: i64, endpoint: Option<String>)
    requires
        call_ensures(ingress_endpoint, (name, port), endpoint),
    ensures
        endpoint is None <==> name@.len() == 0 || port <= 0 || port >= 65_536,
        endpoint matches Some(text) ==> if name@.contains(':') && name@[0] != '[' {
            text@ == "["@ + name@ + "]:"@ + decimal(port as nat)
        } else {
            text@ == name@ + ":"@ + decimal(port as nat)
        },
{
    reveal_strlit("[");
    assert("["@ =~= seq!['[']);
}

/// The interface takes its MTU from the controller where that sets one between 576
/// and 9000, and else from the session; its DNS servers are the policy's, and
/// everything else is the session's.
pub proof fn law_interface_session(
    session: &SessionInfo,
    policy: &EffectiveDnsPolicy,
    controller: Option<&RoutingConfiguration>,
    interface: SessionInfo,
)
    requires
        call_ensures(interface_session, (session, policy, controller), interface),
    ensures
        (controller matches Some(routing) && routing.mtu_mode@ == "custom"@ && 576
            <= routing.custom_mtu <= 9000) ==> interface.mtu == controller->Some_0.custom_mtu,
        !(controller matches Some(routing) && routing.mtu_mode@ == "custom"@ && 576
            <= routing.custom_mtu <= 9000) ==> interface.mtu == session.mtu,
        interface.dns_servers@.len() == policy.servers@.len(),
        forall|i: int|
            0 <= i < policy.servers@.len() ==> #[trigger] interface.dns_servers@[i] == IpAddr::V4(
                policy.servers@[i],
            ),
        interface.address == session.address && interface.gateway == session.gateway,
        interface.encryption == session.encryption && interface.token == session.token,
        interface.session_id == session.session_id && interface.peer == session.peer,
        interface.segment_routing == session.segment_routing,
{
}

/// A packet is taken for IPv6 by its first four bits; blocking lets every other
/// packet through.
pub proof fn law_ipv6_packets(packet: &[u8], answer: bool)
    requires
        call_ensures(is_ipv6_packet, (packet,), answer),
    ensures
        answer <==> packet@.len() > 0 && 0x60 <= packet@[0] <= 0x6f,
{
}

/// The names of the routing modes.
pub proof fn law_routing_mode_names(
    user: UserRoutingMode,
    chosen: &'static str,
    mode: RoutingMode,
    label: &'static str,
)
    requires
        call_ensures(UserRoutingMode::label, (user,), chosen),
        call_ensures(RoutingMode::label, (mode,), label),
    ensures
        user is All ==> chosen@ == "all"@,
        user is Custom ==> chosen@ == "custom"@,
        mode is All ==> label@ == "all"@,
        mode is IpFilter ==> label@ == "ipfilter"@,
        mode is Custom ==> label@ == "custom"@,
{
}

} // verus!
