//! DNS options of the command line.

use crate::client::SessionEnd;
use crate::dns::policy::{
    copy_rules, DnsDefaults, DnsOverrides, DnsPolicyResolver, DnsServerMode, DomainRule,
    EffectiveDnsPolicy, EncryptedDnsMode, SplitDnsMode,
};
use crate::dns::policy::{
    no_overrides, plain_defaults, resolved_policy, rules, DnsOverridesView, DnsPolicyView,
    DomainRuleView,
};
use crate::error::{invalid_config, Error};
use crate::error::is_invalid_config;
use crate::net::{ipv4_text, IpAddr, Ipv4Addr};
use crate::net::ipv4_chars;
use crate::text::{copy_texts, push_text};
use crate::text::texts;
use vstd::prelude::*;
use vstd::slice::slice_to_vec;

verus! {

/// Where DNS servers come from, as an option says it.
#[derive(Debug, Clone, Copy, PartialEq, Eq, Structural)]
pub enum DnsServerModeArg {
    Inherit,
    Server,
    Custom,
    Disabled,
}

impl DnsServerModeArg {
    pub open spec fn policy(self) -> Option<DnsServerMode> {
        match self {
            DnsServerModeArg::Inherit => None,
            DnsServerModeArg::Server => Some(DnsServerMode::Server),
            DnsServerModeArg::Custom => Some(DnsServerMode::Custom),
            DnsServerModeArg::Disabled => Some(DnsServerMode::Disabled),
        }
    }

    pub fn into_policy(self) -> (mode: Option<DnsServerMode>)
        ensures
            mode == self.policy(),
    {
        match self {
            DnsServerModeArg::Inherit => None,
            DnsServerModeArg::Server => Some(DnsServerMode::Server),
            DnsServerModeArg::Custom => Some(DnsServerMode::Custom),
            DnsServerModeArg::Disabled => Some(DnsServerMode::Disabled),
        }
    }
}

/// Which names go through the tunnel, as an option says it.
#[derive(Debug, Clone, Copy, PartialEq, Eq, Structural)]
pub enum SplitDnsModeArg {
    Inherit,
    Off,
    TunnelAll,
    Managed,
    Custom,
}

impl SplitDnsModeArg {
    pub open spec fn policy(self) -> Option<SplitDnsMode> {
        match self {
            SplitDnsModeArg::Inherit => None,
            SplitDnsModeArg::Off => Some(SplitDnsMode::Off),
            SplitDnsModeArg::TunnelAll => Some(SplitDnsMode::TunnelAll),
            SplitDnsModeArg::Managed => Some(SplitDnsMode::Managed),
            SplitDnsModeArg::Custom => Some(SplitDnsMode::Custom),
        }
    }

    pub fn into_policy(self) -> (mode: Option<SplitDnsMode>)
        ensures
            mode == self.policy(),
    {
        match self {
            SplitDnsModeArg::Inherit => None,
            SplitDnsModeArg::Off => Some(SplitDnsMode::Off),
            SplitDnsModeArg::TunnelAll => Some(SplitDnsMode::TunnelAll),
            SplitDnsModeArg::Managed => Some(SplitDnsMode::Managed),
            SplitDnsModeArg::Custom => Some(SplitDnsMode::Custom),
        }
    }
}

/// Whether encrypted DNS is blocked, as an option says it.
#[derive(Debug, Clone, Copy, PartialEq, Eq, Structural)]
pub enum EncryptedDnsModeArg {
    Inherit,
    Block,
    Allow,
}

impl EncryptedDnsModeArg {
    pub open spec fn policy(self) -> EncryptedDnsMode {
        match self {
            EncryptedDnsModeArg::Inherit => EncryptedDnsMode::Inherit,
            EncryptedDnsModeArg::Block => EncryptedDnsMode::Block,
            EncryptedDnsModeArg::Allow => EncryptedDnsMode::Allow,
        }
    }

    pub fn into_policy(self) -> (mode: EncryptedDnsMode)
        ensures
            mode == self.policy(),
    {
        match self {
            EncryptedDnsModeArg::Inherit => EncryptedDnsMode::Inherit,
            EncryptedDnsModeArg::Block => EncryptedDnsMode::Block,
            EncryptedDnsModeArg::Allow => EncryptedDnsMode::Allow,
        }
    }
}

/// The DNS options of one command.
#[derive(Debug, Clone)]
pub struct DnsOverrideArgs {
    pub dns_mode: Option<DnsServerModeArg>,
    pub dns_servers: Vec<Ipv4Addr>,
    pub split_dns_mode: Option<SplitDnsModeArg>,
    pub split_dns_domains: Vec<DomainRule>,
    pub encrypted_dns: Option<EncryptedDnsModeArg>,
    pub doh_hosts: Vec<String>,
}

/// The options with lists as sequences.
#[verifier::ext_equal]
pub struct DnsArgsView {
    pub dns_mode: Option<DnsServerModeArg>,
    pub dns_servers: Seq<Ipv4Addr>,
    pub split_dns_mode: Option<SplitDnsModeArg>,
    pub split_dns_domains: Seq<DomainRuleView>,
    pub encrypted_dns: Option<EncryptedDnsModeArg>,
    pub doh_hosts: Seq<Seq<char>>,
}

impl View for DnsOverrideArgs {
    type V = DnsArgsView;

    open spec fn view(&self) -> DnsArgsView {
        DnsArgsView {
            dns_mode: self.dns_mode,
            dns_servers: self.dns_servers@,
            split_dns_mode: self.split_dns_mode,
            split_dns_domains: rules(self.split_dns_domains@),
            encrypted_dns: self.encrypted_dns,
            doh_hosts: texts(self.doh_hosts@),
        }
    }
}

/// A list where it has members, else what was there before.
pub open spec fn listed<A>(list: Seq<A>, before: Option<Seq<A>>) -> Option<Seq<A>> {
    if list.len() > 0 {
        Some(list)
    } else {
        before
    }
}

/// The server mode after options: the one they name, else the custom mode
/// where they list servers.
pub open spec fn server_mode_after(args: DnsArgsView, before: Option<DnsServerMode>) -> Option<
    DnsServerMode,
> {
    match args.dns_mode {
        Some(mode) => mode.policy(),
        None => if args.dns_servers.len() > 0 {
            Some(DnsServerMode::Custom)
        } else {
            before
        },
    }
}

/// The split mode after options: the one they name, else the custom mode where
/// they list rules.
pub open spec fn split_mode_after(args: DnsArgsView, before: Option<SplitDnsMode>) -> Option<
    SplitDnsMode,
> {
    match args.split_dns_mode {
        Some(mode) => mode.policy(),
        None => if args.split_dns_domains.len() > 0 {
            Some(SplitDnsMode::Custom)
        } else {
            before
        },
    }
}

/// Overrides for one command: its options over those of a profile. An explicit
/// `inherit` also drops the profile's list.
pub open spec fn command_overrides(
    args: DnsArgsView,
    lower: DnsOverridesView,
) -> DnsOverridesView {
    DnsOverridesView {
        server_mode: server_mode_after(args, lower.server_mode),
        servers: listed(
            args.dns_servers,
            if args.dns_mode == Some(DnsServerModeArg::Inherit) {
                None
            } else {
                lower.servers
            },
        ),
        split_mode: split_mode_after(args, lower.split_mode),
        split_domains: listed(
            args.split_dns_domains,
            if args.split_dns_mode == Some(SplitDnsModeArg::Inherit) {
                None
            } else {
                lower.split_domains
            },
        ),
        encrypted_dns: match args.encrypted_dns {
            Some(mode) => Some(mode.policy()),
            None => lower.encrypted_dns,
        },
        doh_hosts: listed(args.doh_hosts, lower.doh_hosts),
    }
}

/// A profile's overrides after options: lists stay until they are replaced, and
/// an explicit `inherit` removes a mode.
pub open spec fn profile_overrides(
    args: DnsArgsView,
    before: DnsOverridesView,
) -> DnsOverridesView {
    DnsOverridesView {
        server_mode: server_mode_after(args, before.server_mode),
        servers: listed(args.dns_servers, before.servers),
        split_mode: split_mode_after(args, before.split_mode),
        split_domains: listed(args.split_dns_domains, before.split_domains),
        encrypted_dns: match args.encrypted_dns {
            Some(EncryptedDnsModeArg::Inherit) => None,
            Some(mode) => Some(mode.policy()),
            None => before.encrypted_dns,
        },
        doh_hosts: listed(args.doh_hosts, before.doh_hosts),
    }
}

impl Default for DnsOverrideArgs {
    fn default() -> (args: Self)
        ensures
            args@ == (DnsArgsView {
                dns_mode: None,
                dns_servers: Seq::empty(),
                split_dns_mode: None,
                split_dns_domains: Seq::empty(),
                encrypted_dns: None,
                doh_hosts: Seq::empty(),
            }),
    {
        let args = DnsOverrideArgs {
            dns_mode: None,
            dns_servers: Vec::new(),
            split_dns_mode: None,
            split_dns_domains: Vec::new(),
            encrypted_dns: None,
            doh_hosts: Vec::new(),
        };
        assert(args@.dns_servers =~= Seq::empty());
        assert(args@.split_dns_domains =~= Seq::empty());
        assert(args@.doh_hosts =~= Seq::empty());
        args
    }
}

impl DnsOverrideArgs {
    pub fn applied_to(&self, lower: &DnsOverrides) -> (overrides: DnsOverrides)
        ensures
            overrides@ == command_overrides(self@, lower@),
    {
        let none = DnsOverrides::default();
        let mut target = DnsOverrides::layered(&none, lower);
        if let Some(mode) = self.dns_mode {
            target.server_mode = mode.into_policy();
            if mode == DnsServerModeArg::Inherit {
                target.servers = None;
            }
        }
        if self.dns_servers.len() > 0 {
            target.servers = Some(slice_to_vec(self.dns_servers.as_slice()));
            if self.dns_mode.is_none() {
                target.server_mode = Some(DnsServerMode::Custom);
            }
        }
        if let Some(mode) = self.split_dns_mode {
            target.split_mode = mode.into_policy();
            if mode == SplitDnsModeArg::Inherit {
                target.split_domains = None;
            }
        }
        if self.split_dns_domains.len() > 0 {
            target.split_domains = Some(copy_rules(&self.split_dns_domains));
            if self.split_dns_mode.is_none() {
                target.split_mode = Some(SplitDnsMode::Custom);
            }
        }
        if let Some(mode) = self.encrypted_dns {
            target.encrypted_dns = Some(mode.into_policy());
        }
        if self.doh_hosts.len() > 0 {
            target.doh_hosts = Some(copy_texts(&self.doh_hosts));
        }
        target
    }

    pub fn patch_profile(&self, target: &mut DnsOverrides)
        ensures
            final(target)@ == profile_overrides(self@, old(target)@),
    {
        if let Some(mode) = self.dns_mode {
            target.server_mode = mode.into_policy();
        }
        if self.dns_servers.len() > 0 {
            target.servers = Some(slice_to_vec(self.dns_servers.as_slice()));
            if self.dns_mode.is_none() {
                target.server_mode = Some(DnsServerMode::Custom);
            }
        }
        if let Some(mode) = self.split_dns_mode {
            target.split_mode = mode.into_policy();
        }
        if self.split_dns_domains.len() > 0 {
            target.split_domains = Some(copy_rules(&self.split_dns_domains));
            if self.split_dns_mode.is_none() {
                target.split_mode = Some(SplitDnsMode::Custom);
            }
        }
        if let Some(mode) = self.encrypted_dns {
            target.encrypted_dns = if mode == EncryptedDnsModeArg::Inherit {
                None
            } else {
                Some(mode.into_policy())
            };
        }
        if self.doh_hosts.len() > 0 {
            target.doh_hosts = Some(copy_texts(&self.doh_hosts));
        }
    }
}

/// Options that name nothing leave overrides as they are.
pub proof fn law_no_options_change_nothing(lower: DnsOverridesView)
    ensures
        command_overrides(
            DnsArgsView {
                dns_mode: None,
                dns_servers: Seq::empty(),
                split_dns_mode: None,
                split_dns_domains: Seq::empty(),
                encrypted_dns: None,
                doh_hosts: Seq::empty(),
            },
            lower,
        ) == lower,
        profile_overrides(
            DnsArgsView {
                dns_mode: None,
                dns_servers: Seq::empty(),
                split_dns_mode: None,
                split_dns_domains: Seq::empty(),
                encrypted_dns: None,
                doh_hosts: Seq::empty(),
            },
            lower,
        ) == lower,
{
}

/// The policy of a direct connection, or why there is none.
pub open spec fn direct_policy(args: DnsArgsView, session_dns: Seq<IpAddr>) -> Result<
    DnsPolicyView,
    Seq<char>,
> {
    let overrides = command_overrides(args, no_overrides());
    if overrides.split_mode == Some(SplitDnsMode::Managed) {
        Err("direct connect cannot use managed split DNS without controller domain rules"@)
    } else {
        resolved_policy(plain_defaults(), overrides, session_dns)
    }
}

/// Resolves the policy of a connection that no controller manages.
pub fn resolve_direct_policy(args: &DnsOverrideArgs, session_dns: &[IpAddr]) -> (result: Result<
    EffectiveDnsPolicy,
    Error,
>)
    ensures
        match result {
            Ok(policy) => direct_policy(args@, session_dns@) == Ok::<DnsPolicyView, Seq<char>>(
                policy@,
            ),
            Err(error) => direct_policy(args@, session_dns@) matches Err(message)
                && is_invalid_config(error, message),
        },
{
    let none = DnsOverrides::default();
    let overrides = args.applied_to(&none);
    if let Some(mode) = overrides.split_mode {
        if mode == SplitDnsMode::Managed {
            return Err(
                invalid_config(
                    "direct connect cannot use managed split DNS without controller domain rules",
                ),
            );
        }
    }
    let defaults = DnsDefaults::default();
    DnsPolicyResolver::resolve(&defaults, &overrides, session_dns)
}

pub open spec fn server_mode_name(mode: DnsServerMode) -> Seq<char> {
    match mode {
        DnsServerMode::Server => "server"@,
        DnsServerMode::Custom => "custom"@,
        DnsServerMode::Disabled => "disabled"@,
    }
}

/// The policy of a managed session: the command's options over the profile's
/// settings, and those over what the controller configured.
pub fn resolve_managed_policy(
    args: &DnsOverrideArgs,
    profile: &DnsOverrides,
    defaults: &DnsDefaults,
    session_dns: &[IpAddr],
) -> (result: Result<EffectiveDnsPolicy, Error>)
    ensures
        match result {
            Ok(policy) => resolved_policy(
                defaults@,
                command_overrides(args@, profile@),
                session_dns@,
            ) == Ok::<DnsPolicyView, Seq<char>>(policy@),
            Err(error) => resolved_policy(
                defaults@,
                command_overrides(args@, profile@),
                session_dns@,
            ) matches Err(message) && is_invalid_config(error, message),
        },
{
    let overrides = args.applied_to(profile);
    DnsPolicyResolver::resolve(defaults, &overrides, session_dns)
}

pub fn dns_server_mode_label(mode: DnsServerMode) -> (label: &'static str)
    ensures
        label@ == server_mode_name(mode),
{
    match mode {
        DnsServerMode::Server => "server",
        DnsServerMode::Custom => "custom",
        DnsServerMode::Disabled => "disabled",
    }
}

pub open spec fn split_mode_name(mode: SplitDnsMode) -> Seq<char> {
    match mode {
        SplitDnsMode::Off => "off"@,
        SplitDnsMode::TunnelAll => "tunnel-all"@,
        SplitDnsMode::Managed => "managed"@,
        SplitDnsMode::Custom => "custom"@,
    }
}

pub fn split_dns_mode_label(mode: SplitDnsMode) -> (label: &'static str)
    ensures
        label@ == split_mode_name(mode),
{
    match mode {
        SplitDnsMode::Off => "off",
        SplitDnsMode::TunnelAll => "tunnel-all",
        SplitDnsMode::Managed => "managed",
        SplitDnsMode::Custom => "custom",
    }
}

pub fn session_end_label(end: SessionEnd) -> (label: &'static str)
    ensures
        label@ == match end {
            SessionEnd::LocalShutdown => "local shutdown"@,
            SessionEnd::ServerClose => "server closed the session"@,
            SessionEnd::HeartbeatTimeout => "heartbeat timeout"@,
            SessionEnd::TransportFailure => "transport failure"@,
        },
{
    match end {
        SessionEnd::LocalShutdown => "local shutdown",
        SessionEnd::ServerClose => "server closed the session",
        SessionEnd::HeartbeatTimeout => "heartbeat timeout",
        SessionEnd::TransportFailure => "transport failure",
    }
}

/// Addresses with commas between them.
pub open spec fn address_list(servers: Seq<Ipv4Addr>) -> Seq<char>
    decreases servers.len(),
{
    if servers.len() == 0 {
        Seq::empty()
    } else if servers.len() == 1 {
        ipv4_chars(servers[0])
    } else {
        address_list(servers.drop_last()) + ", "@ + ipv4_chars(servers.last())
    }
}

/// One line on a policy.
pub open spec fn policy_line(policy: DnsPolicyView) -> Seq<char> {
    "dns: mode="@ + server_mode_name(policy.server_mode) + ", servers="@ + (if policy.servers.len()
        == 0 {
        "none"@
    } else {
        address_list(policy.servers)
    }) + ", split="@ + split_mode_name(policy.split_mode) + ", encrypted="@ + (
    if policy.block_encrypted_dns {
        "blocked"@
    } else {
        "allowed"@
    })
}

fn push_addresses(out: &mut String, servers: &Vec<Ipv4Addr>)
    ensures
        final(out)@ == old(out)@ + address_list(servers@),
{
    let ghost start = out@;
    let mut i: usize = 0;
    assert(start + address_list(servers@.take(0)) =~= start);
    while i < servers.len()
        invariant
            i <= servers@.len(),
            out@ == start + address_list(servers@.take(i as int)),
        decreases servers@.len() - i,
    {
        let ghost before = out@;
        if i > 0 {
            push_text(out, ", ");
        }
        let shown = ipv4_text(servers[i]);
        push_text(out, &shown);
        proof {
            let head = servers@.take(i + 1);
            assert(head.drop_last() =~= servers@.take(i as int));
            assert(out@ =~= start + address_list(head));
        }
        i += 1;
    }
    assert(servers@.take(i as int) =~= servers@);
}

/// Describes a policy in one line.
pub fn describe_policy(policy: &EffectiveDnsPolicy) -> (line: String)
    ensures
        line@ == policy_line(policy@),
{
    let mut line = "dns: mode=".to_owned();
    push_text(&mut line, dns_server_mode_label(policy.server_mode));
    push_text(&mut line, ", servers=");
    if policy.servers.len() == 0 {
        push_text(&mut line, "none");
    } else {
        push_addresses(&mut line, &policy.servers);
    }
    push_text(&mut line, ", split=");
    push_text(&mut line, split_dns_mode_label(policy.split_mode));
    push_text(&mut line, ", encrypted=");
    if policy.block_encrypted_dns {
        push_text(&mut line, "blocked");
    } else {
        push_text(&mut line, "allowed");
    }
    line
}

/// Options of one command count for it alone. A list that is given is used, and
/// makes its mode the custom one unless another is named; without an option what is
/// below it stays. To inherit takes away the mode, and the list below.
pub proof fn law_command_options(
    args: DnsOverrideArgs,
    lower: &DnsOverrides,
    overrides: DnsOverrides,
)
    requires
        call_ensures(DnsOverrideArgs::applied_to, (&args, lower), overrides),
    ensures
        args.dns_mode == Some(DnsServerModeArg::Inherit) ==> overrides@.server_mode is None,
        args.dns_mode == Some(DnsServerModeArg::Server) ==> overrides@.server_mode == Some(
            DnsServerMode::Server,
        ),
        args.dns_mode == Some(DnsServerModeArg::Custom) ==> overrides@.server_mode == Some(
            DnsServerMode::Custom,
        ),
        args.dns_mode == Some(DnsServerModeArg::Disabled) ==> overrides@.server_mode == Some(
            DnsServerMode::Disabled,
        ),
        args.dns_mode is None && args.dns_servers@.len() > 0 ==> overrides@.server_mode == Some(
            DnsServerMode::Custom,
        ),
        args.dns_mode is None && args.dns_servers@.len() == 0 ==> overrides@.server_mode
            == lower@.server_mode,
        args.dns_servers@.len() > 0 ==> overrides@.servers == Some(args.dns_servers@),
        args.dns_servers@.len() == 0 && args.dns_mode == Some(DnsServerModeArg::Inherit)
            ==> overrides@.servers is None,
        args.dns_servers@.len() == 0 && args.dns_mode != Some(DnsServerModeArg::Inherit)
            ==> overrides@.servers == lower@.servers,
        args.split_dns_mode == Some(SplitDnsModeArg::Inherit) ==> overrides@.split_mode is None,
        args.split_dns_mode == Some(SplitDnsModeArg::Off) ==> overrides@.split_mode == Some(
            SplitDnsMode::Off,
        ),
        args.split_dns_mode == Some(SplitDnsModeArg::TunnelAll) ==> overrides@.split_mode == Some(
            SplitDnsMode::TunnelAll,
        ),
        args.split_dns_mode == Some(SplitDnsModeArg::Managed) ==> overrides@.split_mode == Some(
            SplitDnsMode::Managed,
        ),
        args.split_dns_mode == Some(SplitDnsModeArg::Custom) ==> overrides@.split_mode == Some(
            SplitDnsMode::Custom,
        ),
        args.split_dns_mode is None && args.split_dns_domains@.len() > 0 ==> overrides@.split_mode
            == Some(SplitDnsMode::Custom),
        args.split_dns_mode is None && args.split_dns_domains@.len() == 0 ==> overrides@.split_mode
            == lower@.split_mode,
        args.split_dns_domains@.len() > 0 ==> overrides@.split_domains == Some(
            rules(args.split_dns_domains@),
        ),
        args.split_dns_domains@.len() == 0 && args.split_dns_mode == Some(SplitDnsModeArg::Inherit)
            ==> overrides@.split_domains is None,
        args.split_dns_domains@.len() == 0 && args.split_dns_mode != Some(SplitDnsModeArg::Inherit)
            ==> overrides@.split_domains == lower@.split_domains,
        args.encrypted_dns is None ==> overrides@.encrypted_dns == lower@.encrypted_dns,
        args.encrypted_dns == Some(EncryptedDnsModeArg::Inherit) ==> overrides@.encrypted_dns
            == Some(EncryptedDnsMode::Inherit),
        args.encrypted_dns == Some(EncryptedDnsModeArg::Block) ==> overrides@.encrypted_dns == Some(
            EncryptedDnsMode::Block,
        ),
        args.encrypted_dns == Some(EncryptedDnsModeArg::Allow) ==> overrides@.encrypted_dns == Some(
            EncryptedDnsMode::Allow,
        ),
        args.doh_hosts@.len() > 0 ==> overrides@.doh_hosts == Some(texts(args.doh_hosts@)),
        args.doh_hosts@.len() == 0 ==> overrides@.doh_hosts == lower@.doh_hosts,
{
}

/// Options that change a profile: lists stay until they are replaced, and to inherit
/// takes a mode away and leaves its list.
pub proof fn law_profile_options(args: DnsOverrideArgs)
    ensures
        forall|target: &mut DnsOverrides| #[trigger]
            call_ensures(DnsOverrideArgs::patch_profile, (&args, target), ()) ==> {
                let before = (*target)@;
                let after = (*final(target))@;
                &&& args.dns_servers@.len() > 0 ==> after.servers == Some(args.dns_servers@)
                &&& args.dns_servers@.len() == 0 ==> after.servers == before.servers
                &&& args.split_dns_domains@.len() > 0 ==> after.split_domains == Some(
                    rules(args.split_dns_domains@),
                )
                &&& args.split_dns_domains@.len() == 0 ==> after.split_domains
                    == before.split_domains
                &&& args.doh_hosts@.len() > 0 ==> after.doh_hosts == Some(texts(args.doh_hosts@))
                &&& args.doh_hosts@.len() == 0 ==> after.doh_hosts == before.doh_hosts
                &&& args.dns_mode == Some(DnsServerModeArg::Inherit) ==> after.server_mode is None
                &&& args.dns_mode == Some(DnsServerModeArg::Disabled) ==> after.server_mode == Some(
                    DnsServerMode::Disabled,
                )
                &&& args.dns_mode is None && args.dns_servers@.len() > 0 ==> after.server_mode
                    == Some(DnsServerMode::Custom)
                &&& args.dns_mode is None && args.dns_servers@.len() == 0 ==> after.server_mode
                    == before.server_mode
                &&& args.split_dns_mode == Some(SplitDnsModeArg::Inherit)
                    ==> after.split_mode is None
                &&& args.split_dns_mode is None && args.split_dns_domains@.len() > 0
                    ==> after.split_mode == Some(SplitDnsMode::Custom)
                &&& args.split_dns_mode is None && args.split_dns_domains@.len() == 0
                    ==> after.split_mode == before.split_mode
                &&& args.encrypted_dns is None ==> after.encrypted_dns == before.encrypted_dns
                &&& args.encrypted_dns == Some(EncryptedDnsModeArg::Inherit)
                    ==> after.encrypted_dns is None
                &&& args.encrypted_dns == Some(EncryptedDnsModeArg::Block) ==> after.encrypted_dns
                    == Some(EncryptedDnsMode::Block)
                &&& args.encrypted_dns == Some(EncryptedDnsModeArg::Allow) ==> after.encrypted_dns
                    == Some(EncryptedDnsMode::Allow)
            },
{
}

/// A connection without a controller has no managed rules to go by.
pub proof fn law_direct_dns(
    args: &DnsOverrideArgs,
    session_dns: &[IpAddr],
    result: Result<EffectiveDnsPolicy, Error>,
)
    requires
        call_ensures(resolve_direct_policy, (args, session_dns), result),
    ensures
        args.split_dns_mode == Some(SplitDnsModeArg::Managed) ==> result is Err,
{
}

/// The names of the modes and of the ways in which a session ends.
pub proof fn law_labels(
    servers: DnsServerMode,
    split: SplitDnsMode,
    end: SessionEnd,
    server_label: &'static str,
    split_label: &'static str,
    end_label: &'static str,
)
    requires
        call_ensures(dns_server_mode_label, (servers,), server_label),
        call_ensures(split_dns_mode_label, (split,), split_label),
        call_ensures(session_end_label, (end,), end_label),
    ensures
        servers is Server ==> server_label@ == "server"@,
        servers is Custom ==> server_label@ == "custom"@,
        servers is Disabled ==> server_label@ == "disabled"@,
        split is Off ==> split_label@ == "off"@,
        split is TunnelAll ==> split_label@ == "tunnel-all"@,
        split is Managed ==> split_label@ == "managed"@,
        split is Custom ==> split_label@ == "custom"@,
        end is LocalShutdown ==> end_label@ == "local shutdown"@,
        end is ServerClose ==> end_label@ == "server closed the session"@,
        end is HeartbeatTimeout ==> end_label@ == "heartbeat timeout"@,
        end is TransportFailure ==> end_label@ == "transport failure"@,
{
}

/// How a policy is told: its mode, its servers or that there are none, how names
/// are split, and whether encrypted DNS is blocked.
pub proof fn law_policy_line(policy: &EffectiveDnsPolicy, line: String, mode: Seq<char>, split: Seq<char>)
    requires
        call_ensures(describe_policy, (policy,), line),
        mode == (match policy@.server_mode {
            DnsServerMode::Server => "server"@,
            DnsServerMode::Custom => "custom"@,
            DnsServerMode::Disabled => "disabled"@,
        }),
        split == (match policy@.split_mode {
            SplitDnsMode::Off => "off"@,
            SplitDnsMode::TunnelAll => "tunnel-all"@,
            SplitDnsMode::Managed => "managed"@,
            SplitDnsMode::Custom => "custom"@,
        }),
    ensures
        ({
            let end = if policy@.block_encrypted_dns {
                "blocked"@
            } else {
                "allowed"@
            };
            let list = policy@.servers;
            &&& list.len() == 0 ==> line@ == "dns: mode="@ + mode + ", servers="@ + "none"@
                + ", split="@ + split + ", encrypted="@ + end
            &&& list.len() == 1 ==> line@ == "dns: mode="@ + mode + ", servers="@ + ipv4_chars(
                list[0],
            ) + ", split="@ + split + ", encrypted="@ + end
            &&& list.len() == 2 ==> line@ == "dns: mode="@ + mode + ", servers="@ + (ipv4_chars(
                list[0],
            ) + ", "@ + ipv4_chars(list[1])) + ", split="@ + split + ", encrypted="@ + end
        }),
{
    reveal_with_fuel(address_list, 3);
    let list = policy@.servers;
    if list.len() == 2 {
        assert(list.drop_last() =~= seq![list[0]]);
    }
}

} // verus!
