//! How a host is told which DNS servers a link has, and told to forget them.

use super::platform::{fields, resolvconf_input, split_fields, valid_interface, DnsPlatformTarget};
use super::platform::nameserver_lines;
use crate::error::Error;
use crate::error::is_invalid_config;
use crate::net::{ipv4_text, parse_ip, IpAddr, Ipv4Addr};
use crate::net::{ip_of_text, ipv4_chars};
use crate::text::{chars_of, join3, push_one, push_text, same_text, split, string_of};
use crate::text::{strip_trailing, trim, trim_text};
use crate::text::{has_prefix, pieces, texts, trimmed, views, without_trailing};
use vstd::prelude::*;

verus! {

/// What a host offers to set DNS servers with.
#[derive(Debug, Clone, Copy, PartialEq, Eq, Structural)]
pub enum HostSystem {
    /// With the commands that are installed.
    Linux { resolvectl: bool, resolvconf: bool },
    MacOs,
    Windows,
    Other,
}

/// A command to run, with what it reads.
#[derive(Debug, Clone)]
pub struct HostCommand {
    pub program: String,
    pub arguments: Vec<String>,
    pub input: Option<String>,
}

#[verifier::ext_equal]
pub struct CommandView {
    pub program: Seq<char>,
    pub arguments: Seq<Seq<char>>,
    pub input: Option<Seq<char>>,
}

impl View for HostCommand {
    type V = CommandView;

    open spec fn view(&self) -> CommandView {
        CommandView {
            program: self.program@,
            arguments: texts(self.arguments@),
            input: match self.input {
                Some(text) => Some(text@),
                None => None,
            },
        }
    }
}

pub open spec fn command_views(list: Seq<HostCommand>) -> Seq<CommandView> {
    list.map_values(|command: HostCommand| command@)
}

/// What was changed on a host.
#[derive(Debug, Clone)]
pub enum PlatformLease {
    Nothing,
    Resolved { interface: String },
    Resolvconf { interface: String },
    Scutil { key: String },
    Windows { platform_id: u64 },
}

pub enum LeaseView {
    Nothing,
    Resolved { interface: Seq<char> },
    Resolvconf { interface: Seq<char> },
    Scutil { key: Seq<char> },
    Windows { platform_id: u64 },
}

/// DNS servers of a link, until they are restored.
#[derive(Debug, Clone)]
pub struct PlatformDnsLease {
    pub lease: PlatformLease,
}

impl View for PlatformDnsLease {
    type V = LeaseView;

    open spec fn view(&self) -> LeaseView {
        match self.lease {
            PlatformLease::Nothing => LeaseView::Nothing,
            PlatformLease::Resolved { interface } => LeaseView::Resolved { interface: interface@ },
            PlatformLease::Resolvconf { interface } => LeaseView::Resolvconf {
                interface: interface@,
            },
            PlatformLease::Scutil { key } => LeaseView::Scutil { key: key@ },
            PlatformLease::Windows { platform_id } => LeaseView::Windows { platform_id },
        }
    }
}

/// A lease with what it takes to get it: commands in order, or a list of name
/// servers for the interface's settings.
#[derive(Debug, Clone)]
pub struct LeasePlan {
    pub lease: PlatformDnsLease,
    pub commands: Vec<HostCommand>,
    pub name_servers: Option<String>,
}

#[verifier::ext_equal]
pub struct PlanView {
    pub lease: LeaseView,
    pub commands: Seq<CommandView>,
    pub name_servers: Option<Seq<char>>,
}

impl View for LeasePlan {
    type V = PlanView;

    open spec fn view(&self) -> PlanView {
        PlanView {
            lease: self.lease@,
            commands: command_views(self.commands@),
            name_servers: match self.name_servers {
                Some(text) => Some(text@),
                None => None,
            },
        }
    }
}

/// Addresses in a row.
pub open spec fn joined_servers(servers: Seq<Ipv4Addr>, separator: Seq<char>) -> Seq<char>
    decreases servers.len(),
{
    if servers.len() == 0 {
        Seq::empty()
    } else if servers.len() == 1 {
        ipv4_chars(servers[0])
    } else {
        joined_servers(servers.drop_last(), separator) + separator + ipv4_chars(servers.last())
    }
}

pub fn join_servers(servers: &[Ipv4Addr], separator: &str) -> (joined: String)
    ensures
        joined@ == joined_servers(servers@, separator@),
{
    let mut joined = String::new();
    let mut i: usize = 0;
    assert(servers@.take(0) =~= Seq::<Ipv4Addr>::empty());
    while i < servers.len()
        invariant
            i <= servers@.len(),
            joined@ == joined_servers(servers@.take(i as int), separator@),
        decreases servers@.len() - i,
    {
        assert(servers@.take(i + 1).drop_last() =~= servers@.take(i as int));
        let shown = ipv4_text(servers[i]);
        if i > 0 {
            push_text(&mut joined, separator);
        }
        push_text(&mut joined, &shown);
        assert(i == 0 ==> joined@ =~= ipv4_chars(servers@[0]));
        i += 1;
    }
    assert(servers@.take(i as int) =~= servers@);
    joined
}

pub open spec fn server_texts(servers: Seq<Ipv4Addr>) -> Seq<Seq<char>> {
    servers.map_values(|server: Ipv4Addr| ipv4_chars(server))
}

fn push_servers(out: &mut Vec<String>, servers: &[Ipv4Addr])
    ensures
        texts(final(out)@) == texts(old(out)@) + server_texts(servers@),
{
    let ghost before = texts(out@);
    let mut i: usize = 0;
    assert(texts(out@) =~= before + server_texts(servers@.take(0)));
    while i < servers.len()
        invariant
            i <= servers@.len(),
            texts(out@) == before + server_texts(servers@.take(i as int)),
        decreases servers@.len() - i,
    {
        let ghost so_far = texts(out@);
        push_one(out, ipv4_text(servers[i]));
        assert(server_texts(servers@.take(i + 1)) =~= server_texts(servers@.take(i as int)).push(
            ipv4_chars(servers@[i as int]),
        ));
        assert(texts(out@) =~= before + server_texts(servers@.take(i + 1)));
        i += 1;
    }
    assert(servers@.take(i as int) =~= servers@);
}

pub open spec fn plain_command(program: Seq<char>, arguments: Seq<Seq<char>>) -> CommandView {
    CommandView { program, arguments, input: None }
}

fn command2(program: &str, first: &str, second: &str) -> (command: HostCommand)
    ensures
        command@ == plain_command(program@, seq![first@, second@]),
{
    let mut arguments: Vec<String> = Vec::new();
    arguments.push(first.to_owned());
    arguments.push(second.to_owned());
    assert(texts(arguments@) =~= seq![first@, second@]);
    HostCommand { program: program.to_owned(), arguments, input: None }
}

fn command3(program: &str, first: &str, second: &str, third: &str) -> (command: HostCommand)
    ensures
        command@ == plain_command(program@, seq![first@, second@, third@]),
{
    let mut arguments: Vec<String> = Vec::new();
    arguments.push(first.to_owned());
    arguments.push(second.to_owned());
    arguments.push(third.to_owned());
    assert(texts(arguments@) =~= seq![first@, second@, third@]);
    HostCommand { program: program.to_owned(), arguments, input: None }
}

pub open spec fn scutil_key(interface: Seq<char>) -> Seq<char> {
    "State:/Network/Service/openiwan-"@ + interface + "/DNS"@
}

pub open spec fn scutil_command(script: Seq<char>) -> CommandView {
    CommandView { program: "scutil"@, arguments: Seq::empty(), input: Some(script) }
}

fn scutil(script: String) -> (command: HostCommand)
    ensures
        command@ == scutil_command(script@),
{
    let arguments: Vec<String> = Vec::new();
    assert(texts(arguments@) =~= Seq::<Seq<char>>::empty());
    HostCommand { program: "scutil".to_owned(), arguments, input: Some(script) }
}

/// Whether a host can be told about servers.
pub open spec fn can_apply(
    platform_id: Option<u64>,
    servers: Seq<Ipv4Addr>,
    system: HostSystem,
) -> bool {
    servers.len() == 0 || match system {
        HostSystem::Linux { resolvectl, resolvconf } => resolvectl || resolvconf,
        HostSystem::MacOs => true,
        HostSystem::Windows => platform_id is Some,
        HostSystem::Other => false,
    }
}

/// What telling a host about servers takes.
pub open spec fn planned_lease(
    interface: Seq<char>,
    platform_id: Option<u64>,
    servers: Seq<Ipv4Addr>,
    system: HostSystem,
) -> PlanView
    recommends
        can_apply(platform_id, servers, system),
{
    if servers.len() == 0 {
        PlanView { lease: LeaseView::Nothing, commands: Seq::empty(), name_servers: None }
    } else {
        match system {
            HostSystem::Linux { resolvectl, resolvconf } => if resolvectl {
                PlanView {
                    lease: LeaseView::Resolved { interface },
                    commands: seq![
                        plain_command(
                            "resolvectl"@,
                            seq!["dns"@, interface] + server_texts(servers),
                        ),
                        plain_command("resolvectl"@, seq!["domain"@, interface, "~."@]),
                        plain_command("resolvectl"@, seq!["default-route"@, interface, "yes"@]),
                    ],
                    name_servers: None,
                }
            } else {
                PlanView {
                    lease: LeaseView::Resolvconf { interface },
                    commands: seq![
                        CommandView {
                            program: "resolvconf"@,
                            arguments: seq!["-a"@, interface],
                            input: Some(nameserver_lines(servers)),
                        },
                    ],
                    name_servers: None,
                }
            },
            HostSystem::Windows => PlanView {
                lease: LeaseView::Windows { platform_id: platform_id->Some_0 },
                commands: Seq::empty(),
                name_servers: Some(joined_servers(servers, ","@)),
            },
            _ => PlanView {
                lease: LeaseView::Scutil { key: scutil_key(interface) },
                commands: seq![
                    scutil_command(
                        "d.init\nd.add ServerAddresses * "@ + joined_servers(servers, " "@)
                            + "\nd.add SupplementalMatchDomains * \"\"\nset "@ + scutil_key(
                            interface,
                        ) + "\n"@,
                    ),
                ],
                name_servers: None,
            },
        }
    }
}

fn plan_resolved(interface: &str, servers: &[Ipv4Addr]) -> (plan: LeasePlan)
    requires
        servers@.len() > 0,
    ensures
        plan@ == planned_lease(
            interface@,
            None,
            servers@,
            HostSystem::Linux { resolvectl: true, resolvconf: false },
        ),
{
    let mut first = command2("resolvectl", "dns", interface);
    push_servers(&mut first.arguments, servers);
    let mut commands: Vec<HostCommand> = Vec::new();
    let ghost expected = planned_lease(
        interface@,
        None,
        servers@,
        HostSystem::Linux { resolvectl: true, resolvconf: false },
    ).commands;
    assert(first@ =~= expected[0]);
    commands.push(first);
    commands.push(command3("resolvectl", "domain", interface, "~."));
    commands.push(command3("resolvectl", "default-route", interface, "yes"));
    assert(command_views(commands@) =~= expected);
    LeasePlan {
        lease: PlatformDnsLease {
            lease: PlatformLease::Resolved { interface: interface.to_owned() },
        },
        commands,
        name_servers: None,
    }
}

fn plan_resolvconf(interface: &str, servers: &[Ipv4Addr]) -> (plan: LeasePlan)
    requires
        servers@.len() > 0,
    ensures
        plan@ == planned_lease(
            interface@,
            None,
            servers@,
            HostSystem::Linux { resolvectl: false, resolvconf: true },
        ),
{
    let mut command = command2("resolvconf", "-a", interface);
    command.input = Some(resolvconf_input(servers));
    let mut commands: Vec<HostCommand> = Vec::new();
    commands.push(command);
    assert(command_views(commands@) =~= planned_lease(
        interface@,
        None,
        servers@,
        HostSystem::Linux { resolvectl: false, resolvconf: true },
    ).commands);
    LeasePlan {
        lease: PlatformDnsLease {
            lease: PlatformLease::Resolvconf { interface: interface.to_owned() },
        },
        commands,
        name_servers: None,
    }
}

fn plan_scutil(interface: &str, servers: &[Ipv4Addr]) -> (plan: LeasePlan)
    requires
        servers@.len() > 0,
    ensures
        plan@ == planned_lease(interface@, None, servers@, HostSystem::MacOs),
{
    let key = join3("State:/Network/Service/openiwan-", interface, "/DNS");
    let values = join_servers(servers, " ");
    let mut script = join3(
        "d.init\nd.add ServerAddresses * ",
        &values,
        "\nd.add SupplementalMatchDomains * \"\"\nset ",
    );
    push_text(&mut script, &key);
    push_text(&mut script, "\n");
    let mut commands: Vec<HostCommand> = Vec::new();
    commands.push(scutil(script));
    assert(command_views(commands@) =~= planned_lease(
        interface@,
        None,
        servers@,
        HostSystem::MacOs,
    ).commands);
    LeasePlan {
        lease: PlatformDnsLease { lease: PlatformLease::Scutil { key } },
        commands,
        name_servers: None,
    }
}

/// The failure of a host that cannot be told about servers.
pub open spec fn is_apply_error(error: Error, system: HostSystem) -> bool {
    match system {
        HostSystem::Linux { .. } => error matches Error::CommandFailed { program, message }
            && program@ == "resolvectl/resolvconf"@ && message@
            == "no supported link-scoped Linux DNS backend is installed"@,
        HostSystem::Windows => error matches Error::Tun(message) && message@
            == "Windows DNS configuration requires the Wintun NET_LUID"@,
        _ => error matches Error::Tun(message) && message@
            == "DNS configuration is supported on Linux, macOS, and Windows"@,
    }
}

impl PlatformDnsLease {
    /// What it takes to give the interface of a target its DNS servers.
    pub fn apply(target: &DnsPlatformTarget, servers: &[Ipv4Addr], system: HostSystem) -> (result:
        Result<LeasePlan, Error>)
        ensures
            match result {
                Ok(plan) => {
                    &&& valid_interface(target.interface_name@)
                    &&& can_apply(target.platform_id, servers@, system)
                    &&& plan@ == planned_lease(
                        target.interface_name@,
                        target.platform_id,
                        servers@,
                        system,
                    )
                },
                Err(error) => if !valid_interface(target.interface_name@) {
                    is_invalid_config(
                        error,
                        "DNS interface name contains unsupported characters"@,
                    )
                } else {
                    !can_apply(target.platform_id, servers@, system) && is_apply_error(
                        error,
                        system,
                    )
                },
            },
    {
        match target.validate() {
            Ok(_) => {},
            Err(error) => {
                return Err(error);
            },
        }
        if servers.len() == 0 {
            let commands: Vec<HostCommand> = Vec::new();
            assert(command_views(commands@) =~= Seq::<CommandView>::empty());
            return Ok(
                LeasePlan {
                    lease: PlatformDnsLease { lease: PlatformLease::Nothing },
                    commands,
                    name_servers: None,
                },
            );
        }
        match system {
            HostSystem::Linux { resolvectl, resolvconf } => if resolvectl {
                Ok(plan_resolved(&target.interface_name, servers))
            } else if resolvconf {
                Ok(plan_resolvconf(&target.interface_name, servers))
            } else {
                Err(
                    Error::CommandFailed {
                        program: "resolvectl/resolvconf".to_owned(),
                        message: "no supported link-scoped Linux DNS backend is installed".to_owned(),
                    },
                )
            },
            HostSystem::MacOs => Ok(plan_scutil(&target.interface_name, servers)),
            HostSystem::Windows => match target.platform_id {
                Some(platform_id) => {
                    let commands: Vec<HostCommand> = Vec::new();
                    assert(command_views(commands@) =~= Seq::<CommandView>::empty());
                    Ok(
                        LeasePlan {
                            lease: PlatformDnsLease {
                                lease: PlatformLease::Windows { platform_id },
                            },
                            commands,
                            name_servers: Some(join_servers(servers, ",")),
                        },
                    )
                },
                None => Err(
                    Error::Tun(
                        "Windows DNS configuration requires the Wintun NET_LUID".to_owned(),
                    ),
                ),
            },
            HostSystem::Other => Err(
                Error::Tun(
                    "DNS configuration is supported on Linux, macOS, and Windows".to_owned(),
                ),
            ),
        }
    }

    /// The command that gives an interface its own servers back, where it takes
    /// a command.
    pub fn restore(&self) -> (command: Option<HostCommand>)
        ensures
            match command {
                Some(command) => restored_by(self@) == Some(command@),
                None => restored_by(self@) is None,
            },
    {
        match &self.lease {
            PlatformLease::Nothing => None,
            PlatformLease::Resolved { interface } => Some(
                command2("resolvectl", "revert", interface),
            ),
            PlatformLease::Resolvconf { interface } => Some(
                command2("resolvconf", "-d", interface),
            ),
            PlatformLease::Scutil { key } => Some(scutil(join3("remove ", key, "\n"))),
            PlatformLease::Windows { .. } => None,
        }
    }

    /// Whether the interface gets its own servers back after one of the commands
    /// failed: `step` counts from 0, and `started` tells whether it ran at all.
    pub fn restores_after(&self, step: usize, started: bool) -> (answer: bool)
        ensures
            answer == match self@ {
                LeaseView::Resolved { .. } => step > 0,
                LeaseView::Resolvconf { .. } => started,
                _ => false,
            },
    {
        match &self.lease {
            PlatformLease::Resolved { .. } => step > 0,
            PlatformLease::Resolvconf { .. } => started,
            _ => false,
        }
    }
}

/// The command that undoes a lease.
pub open spec fn restored_by(lease: LeaseView) -> Option<CommandView> {
    match lease {
        LeaseView::Resolved { interface } => Some(
            plain_command("resolvectl"@, seq!["revert"@, interface]),
        ),
        LeaseView::Resolvconf { interface } => Some(
            plain_command("resolvconf"@, seq!["-d"@, interface]),
        ),
        LeaseView::Scutil { key } => Some(scutil_command("remove "@ + key + "\n"@)),
        _ => None,
    }
}

/// Every command of a lease is run by the program that also undoes the lease.
pub proof fn law_lease_is_undone_by_its_program(
    interface: Seq<char>,
    platform_id: Option<u64>,
    servers: Seq<Ipv4Addr>,
    system: HostSystem,
    i: int,
)
    requires
        can_apply(platform_id, servers, system),
        0 <= i < planned_lease(interface, platform_id, servers, system).commands.len(),
    ensures
        restored_by(planned_lease(interface, platform_id, servers, system).lease) matches Some(
            undo,
        ) && undo.program == planned_lease(
            interface,
            platform_id,
            servers,
            system,
        ).commands[i].program,
{
}

/// The failure of a command that ended badly, with what it complained of.
pub fn command_failed(program: &str, complaint: &str) -> (error: Error)
    ensures
        error matches Error::CommandFailed { program: failed, message } && failed@ == program@
            && message@ == trimmed(complaint@),
{
    Error::CommandFailed { program: program.to_owned(), message: trim_text(complaint) }
}

/// The addresses among fields, each with or without colons behind it.
pub open spec fn field_addresses(list: Seq<Seq<char>>) -> Seq<IpAddr>
    decreases list.len(),
{
    if list.len() == 0 {
        Seq::empty()
    } else {
        let before = field_addresses(list.drop_last());
        match ip_of_text(without_trailing(list.last(), ':')) {
            Some(address) => before.push(address),
            None => before,
        }
    }
}

/// The addresses that the resolver service lists for its links.
pub fn resolved_resolvers(output: &str) -> (addresses: Vec<IpAddr>)
    ensures
        addresses@ == field_addresses(fields(output@)),
{
    let chars = chars_of(output);
    let parts = split_fields(chars.as_slice());
    let ghost all = fields(output@);
    let mut addresses: Vec<IpAddr> = Vec::new();
    let mut i: usize = 0;
    assert(all.take(0) =~= Seq::<Seq<char>>::empty());
    while i < parts.len()
        invariant
            views(parts@) == all,
            i <= parts@.len(),
            addresses@ == field_addresses(all.take(i as int)),
        decreases parts@.len() - i,
    {
        proof {
            assert(all.take(i + 1).drop_last() =~= all.take(i as int));
            assert(all.take(i + 1).last() == parts@[i as int]@);
        }
        let bare = strip_trailing(parts[i].as_slice(), ':');
        let value = string_of(bare.as_slice());
        if let Some(address) = parse_ip(&value) {
            addresses.push(address);
        }
        i += 1;
    }
    assert(all.take(i as int) =~= all);
    addresses
}

/// The field behind the first `dev`.
pub open spec fn device_among(list: Seq<Seq<char>>) -> Option<Seq<char>>
    decreases list.len(),
{
    if list.len() == 0 {
        None
    } else if list[0] == "dev"@ {
        if list.len() >= 2 {
            Some(list[1])
        } else {
            None
        }
    } else {
        device_among(list.skip(1))
    }
}

/// The interface that a route leads through, as the `ip` command shows it.
pub fn route_interface(output: &str) -> (name: Option<String>)
    ensures
        match name {
            Some(name) => device_among(fields(output@)) == Some(name@),
            None => device_among(fields(output@)) is None,
        },
{
    let chars = chars_of(output);
    let parts = split_fields(chars.as_slice());
    let ghost all = fields(output@);
    let mut i: usize = 0;
    assert(all.skip(0) =~= all);
    while i < parts.len()
        invariant
            views(parts@) == all,
            i <= parts@.len(),
            all == fields(output@),
            device_among(all) == device_among(all.skip(i as int)),
        decreases parts@.len() - i,
    {
        assert(all.skip(i as int)[0] == parts@[i as int]@);
        assert(all.skip(i as int).skip(1) =~= all.skip(i + 1));
        let word = string_of(parts[i].as_slice());
        if same_text(&word, "dev") {
            if i + 1 < parts.len() {
                assert(all.skip(i as int)[1] == parts@[i + 1]@);
                return Some(string_of(parts[i + 1].as_slice()));
            }
            return None;
        }
        i += 1;
    }
    assert(all.skip(i as int) =~= Seq::<Seq<char>>::empty());
    None
}

/// What the first line that names an interface says.
pub open spec fn interface_among(lines: Seq<Seq<char>>) -> Option<Seq<char>>
    decreases lines.len(),
{
    if lines.len() == 0 {
        None
    } else {
        let line = trimmed(lines[0]);
        if has_prefix(line, "interface:"@) {
            Some(trimmed(line.skip("interface:"@.len() as int)))
        } else {
            interface_among(lines.skip(1))
        }
    }
}

/// The interface that a route leads through, as the `route` command shows it.
pub fn route_interface_line(output: &str) -> (name: Option<String>)
    ensures
        match name {
            Some(name) => interface_among(pieces(output@, '\n')) == Some(name@),
            None => interface_among(pieces(output@, '\n')) is None,
        },
{
    let chars = chars_of(output);
    let lines = split(chars.as_slice(), '\n');
    let ghost all = pieces(output@, '\n');
    let mut i: usize = 0;
    assert(all.skip(0) =~= all);
    while i < lines.len()
        invariant
            views(lines@) == all,
            i <= lines@.len(),
            all == pieces(output@, '\n'),
            interface_among(all) == interface_among(all.skip(i as int)),
        decreases lines@.len() - i,
    {
        assert(all.skip(i as int)[0] == lines@[i as int]@);
        assert(all.skip(i as int).skip(1) =~= all.skip(i + 1));
        let line = trim(lines[i].as_slice());
        if let Some(rest) = crate::text::strip_prefix(line.as_slice(), "interface:") {
            let name = trim(rest.as_slice());
            return Some(string_of(name.as_slice()));
        }
        i += 1;
    }
    assert(all.skip(i as int) =~= Seq::<Seq<char>>::empty());
    None
}

/// What a host is told about a link's servers. Without servers nothing is done. On
/// Linux resolvectl is used where it is there, and is told the servers, that the
/// link answers for every name, and that it is the default; and else resolvconf.
/// On macOS the servers go into the link's own entry, and on Windows they are set
/// for the link's identifier.
pub proof fn law_lease_plan(
    target: &DnsPlatformTarget,
    servers: &[Ipv4Addr],
    system: HostSystem,
    result: Result<LeasePlan, Error>,
)
    requires
        call_ensures(PlatformDnsLease::apply, (target, servers, system), result),
    ensures
        ({
            let name = target.interface_name@;
            let named = crate::dns::platform::valid_interface(name);
            let some = servers@.len() > 0;
            &&& !named ==> result is Err
            &&& named && !some ==> (result matches Ok(plan) && plan.lease.lease is Nothing
                && plan.commands@.len() == 0 && plan.name_servers is None)
            &&& some && system is Other ==> result is Err
            &&& some && system is Windows && target.platform_id is None ==> result is Err
            &&& (some && (system matches HostSystem::Linux { resolvectl, resolvconf }
                && !resolvectl && !resolvconf)) ==> result is Err
            &&& (named && some && (system matches HostSystem::Linux { resolvectl, resolvconf }
                && resolvectl)) ==> {
                &&& result matches Ok(plan)
                &&& plan.commands@.len() == 3
                &&& plan.commands@[0].program@ == "resolvectl"@
                &&& texts(plan.commands@[0].arguments@) == seq!["dns"@, name] + servers@.map_values(
                    |server: Ipv4Addr| ipv4_chars(server),
                )
                &&& texts(plan.commands@[1].arguments@) == seq!["domain"@, name, "~."@]
                &&& texts(plan.commands@[2].arguments@) == seq!["default-route"@, name, "yes"@]
            }
            &&& (named && some && (system matches HostSystem::Linux { resolvectl, resolvconf }
                && !resolvectl && resolvconf)) ==> {
                &&& result matches Ok(plan)
                &&& plan.commands@.len() == 1
                &&& plan.commands@[0].program@ == "resolvconf"@
                &&& texts(plan.commands@[0].arguments@) == seq!["-a"@, name]
                &&& plan.commands@[0].input is Some
            }
            &&& named && some && system is MacOs ==> {
                &&& result matches Ok(plan)
                &&& plan.commands@.len() == 1
                &&& plan.commands@[0].program@ == "scutil"@
                &&& servers@.len() == 1 ==> plan.commands@[0].input is Some
                    && plan.commands@[0].input->Some_0@ == "d.init\nd.add ServerAddresses * "@
                    + ipv4_chars(servers@[0]) + "\nd.add SupplementalMatchDomains * \"\"\nset "@
                    + ("State:/Network/Service/openiwan-"@ + name + "/DNS"@) + "\n"@
            }
            &&& named && some && system is Windows && target.platform_id is Some ==> {
                &&& result matches Ok(plan)
                &&& plan.commands@.len() == 0
                &&& plan.lease.lease == (PlatformLease::Windows {
                    platform_id: target.platform_id->Some_0,
                })
                &&& servers@.len() == 1 ==> plan.name_servers is Some
                    && plan.name_servers->Some_0@ == ipv4_chars(servers@[0])
            }
        }),
{
    if result is Ok {
        let plan = result->Ok_0;
        let list = command_views(plan.commands@);
        assert(list == plan@.commands);
        assert(list.len() == plan.commands@.len());
        if list.len() > 0 {
            assert(list[0] == plan.commands@[0]@);
        }
        if list.len() > 2 {
            assert(list[1] == plan.commands@[1]@);
            assert(list[2] == plan.commands@[2]@);
        }
    }
}

/// What undoes it: resolvectl reverts the link, resolvconf forgets it, and the entry
/// is removed.
pub proof fn law_lease_undo(lease: PlatformDnsLease, command: Option<HostCommand>)
    requires
        call_ensures(PlatformDnsLease::restore, (&lease,), command),
    ensures
        lease.lease is Nothing || lease.lease is Windows ==> command is None,
        lease.lease matches PlatformLease::Resolved { interface } ==> {
            &&& command matches Some(undo)
            &&& undo.program@ == "resolvectl"@
            &&& texts(undo.arguments@) == seq!["revert"@, interface@]
        },
        lease.lease matches PlatformLease::Resolvconf { interface } ==> {
            &&& command matches Some(undo)
            &&& undo.program@ == "resolvconf"@
            &&& texts(undo.arguments@) == seq!["-d"@, interface@]
        },
        lease.lease matches PlatformLease::Scutil { key } ==> {
            &&& command matches Some(undo)
            &&& undo.program@ == "scutil"@
            &&& undo.input is Some && undo.input->Some_0@ == "remove "@ + key@ + "\n"@
        },
{
    if command is Some {
        assert(restored_by(lease@) == Some(command->Some_0@));
    }
}

/// A plan that breaks off is undone where something may have been done: behind the
/// first step of resolvectl, and once resolvconf was started.
pub proof fn law_broken_off_plan(
    lease: PlatformDnsLease,
    step: usize,
    started: bool,
    answer: bool,
)
    requires
        call_ensures(PlatformDnsLease::restores_after, (&lease, step, started), answer),
    ensures
        lease.lease is Resolved ==> (answer <==> step > 0),
        lease.lease is Resolvconf ==> (answer <==> started),
        lease.lease is Nothing || lease.lease is Scutil || lease.lease is Windows ==> !answer,
{
}

/// Servers in a row, with the separator between each two.
pub proof fn law_joined_servers(
    servers: &[Ipv4Addr],
    more: &[Ipv4Addr],
    separator: &str,
    joined: String,
    longer: String,
    server: Ipv4Addr,
)
    requires
        call_ensures(join_servers, (servers, separator), joined),
        call_ensures(join_servers, (more, separator), longer),
        more@ == servers@.push(server),
    ensures
        servers@.len() == 0 ==> joined@.len() == 0 && longer@ == ipv4_chars(server),
        servers@.len() > 0 ==> longer@ == joined@ + separator@ + ipv4_chars(server),
{
    assert(more@.drop_last() =~= servers@);
}

/// The resolvers in what resolvectl says: the words that are addresses, also with a
/// colon behind them.
pub proof fn law_resolved_words(
    before: &str,
    output: &str,
    first: Vec<IpAddr>,
    all: Vec<IpAddr>,
    address: Ipv4Addr,
)
    requires
        call_ensures(resolved_resolvers, (before,), first),
        call_ensures(resolved_resolvers, (output,), all),
        output@ == before@.push(' ') + ipv4_chars(address),
    ensures
        all@ == first@.push(IpAddr::V4(address)),
{
    crate::net::lemma_dotted_chars(address);
    let word = ipv4_chars(address);
    assert forall|i: int| 0 <= i < word.len() implies !crate::text::is_space(
        #[trigger] word[i],
    ) by {
        crate::text::lemma_char_code(word[i]);
        assert(crate::text::is_digit(word[i]) || word[i] == '.');
    }
    crate::dns::platform::law_words(before@, ' ', word);
    crate::net::law_ipv4_read_back(address);
    assert(word.last() != ':') by {
        crate::text::lemma_char_code(word[word.len() - 1]);
        assert(crate::text::is_digit(word[word.len() - 1]) || word[word.len() - 1] == '.');
    }
    assert(without_trailing(word, ':') == word);
    let list = fields(before@);
    assert(list.push(word).drop_last() =~= list);
}

proof fn lemma_device(list: Seq<Seq<char>>, i: int)
    requires
        0 <= i < list.len() - 1,
        list[i] == "dev"@,
        forall|k: int| 0 <= k < i ==> #[trigger] list[k] != "dev"@,
    ensures
        device_among(list) == Some(list[i + 1]),
    decreases list.len(),
{
    if i > 0 {
        assert(list[0] != "dev"@);
        let rest = list.skip(1);
        assert forall|k: int| 0 <= k < i - 1 implies #[trigger] rest[k] != "dev"@ by {
            assert(rest[k] == list[k + 1]);
        }
        lemma_device(rest, i - 1);
    }
}

/// The interface of a route: the word behind the first "dev".
pub proof fn law_route_interface(output: &str, name: Option<String>, i: int)
    requires
        call_ensures(route_interface, (output,), name),
        0 <= i < fields(output@).len() - 1,
        fields(output@)[i] == "dev"@,
        forall|k: int| 0 <= k < i ==> #[trigger] fields(output@)[k] != "dev"@,
    ensures
        name matches Some(found) && found@ == fields(output@)[i + 1],
{
    lemma_device(fields(output@), i);
}

/// What a command that failed says, without the space around it.
pub proof fn law_failed_command(program: &str, complaint: &str, error: Error)
    requires
        call_ensures(command_failed, (program, complaint), error),
    ensures
        error matches Error::CommandFailed { program: failed, message } && failed@ == program@
            && message@ == trimmed(complaint@),
{
}

proof fn lemma_interface(lines: Seq<Seq<char>>, i: int)
    requires
        0 <= i < lines.len(),
        has_prefix(trimmed(lines[i]), "interface:"@),
        forall|k: int| 0 <= k < i ==> !has_prefix(trimmed(#[trigger] lines[k]), "interface:"@),
    ensures
        interface_among(lines) == Some(
            trimmed(trimmed(lines[i]).skip("interface:"@.len() as int)),
        ),
    decreases lines.len(),
{
    if i > 0 {
        let rest = lines.skip(1);
        assert(!has_prefix(trimmed(lines[0]), "interface:"@));
        assert forall|k: int| 0 <= k < i - 1 implies !has_prefix(
            trimmed(#[trigger] rest[k]),
            "interface:"@,
        ) by {
            assert(rest[k] == lines[k + 1]);
        }
        lemma_interface(rest, i - 1);
    }
}

/// The interface of a route, where lines name it: what follows the colon in the
/// first line of that name.
pub proof fn law_route_interface_line(output: &str, name: Option<String>, i: int, rest: Seq<char>)
    requires
        call_ensures(route_interface_line, (output,), name),
        0 <= i < pieces(output@, '\n').len(),
        trimmed(pieces(output@, '\n')[i]) == "interface:"@ + rest,
        forall|k: int|
            0 <= k < i ==> !has_prefix(
                trimmed(#[trigger] pieces(output@, '\n')[k]),
                "interface:"@,
            ),
    ensures
        name matches Some(found) && found@ == trimmed(rest),
{
    let line = trimmed(pieces(output@, '\n')[i]);
    let word = "interface:"@;
    assert(line.take(word.len() as int) =~= word);
    assert(line.skip(word.len() as int) =~= rest);
    lemma_interface(pieces(output@, '\n'), i);
}

} // verus!
