//! Options of the command line: durations, secrets, DNS and routing.

use openiwan::cli::args::{
    check_secret_permissions, given_password, merge_config, parse_duration, parse_resolver,
    password_from_file, typed_password,
};
use openiwan::cli::dns::{
    describe_policy, dns_server_mode_label, resolve_direct_policy, resolve_managed_policy,
    session_end_label, split_dns_mode_label, DnsOverrideArgs, DnsServerModeArg, EncryptedDnsModeArg, SplitDnsModeArg,
};
use openiwan::cli::lines::{format_line_probes, LineProbe};
use openiwan::cli::routing::{
    append_ipv6_capture_routes, base_full_ipv4_exclusions, collect_managed_cidrs, host_cidr,
    ingress_endpoint, interface_session, managed_server_exclusions, plan_direct_routes,
    plan_managed_routes, select_managed_routing, valid_filter_cidrs, IpFilterConfiguration,
    Ipv6BlockingDevice, ManagedRoutingSelection, RouteArgs, RoutingConfiguration, RoutingMode,
    RoutingOverrideArgs, RoutingOverrides, UserRoutingMode,
};
use openiwan::dns::platform::PhysicalResolver;
use openiwan::dns::policy::{
    DnsDefaults, DnsOverrides, DnsPolicyResolver, DnsServerMode, DomainRule, EncryptedDnsMode,
    SplitDnsMode,
};
use openiwan::hex::{decode_hex, encode_hex};
use openiwan::net::{parse_ip, IpAddr, Ipv4Addr, SocketAddr};
use openiwan::{
    ClientConfig, EncryptionMethod, Error, PacketDevice, SessionEnd, SessionInfo,
};
use std::collections::VecDeque;
use std::sync::atomic::{AtomicBool, Ordering};
use std::sync::{Arc, Mutex};

fn ip(text: &str) -> IpAddr {
    parse_ip(text).unwrap()
}

fn rule(text: &str) -> DomainRule {
    DomainRule::parse(text).unwrap()
}

fn strings(list: &[&str]) -> Vec<String> {
    list.iter().map(|text| text.to_string()).collect()
}

fn config_message(error: Error) -> String {
    match error {
        Error::InvalidConfig(message) => message,
        other => panic!("unexpected error: {other:?}"),
    }
}

fn session(peer: SocketAddr) -> SessionInfo {
    SessionInfo {
        peer,
        session_id: 1,
        token: 2,
        encryption: EncryptionMethod::Xor,
        mtu: 1400,
        address: Some(ip("198.18.0.2")),
        gateway: None,
        dns_servers: Vec::new(),
        segment_routing: false,
    }
}

#[test]
fn hex_decoder_accepts_capture_formats() {
    assert_eq!(decode_hex("11:22 aa-bb").unwrap(), [0x11, 0x22, 0xaa, 0xbb]);
    assert!(decode_hex("abc").is_err());
}

#[test]
fn hex_reports_where_it_is_wrong() {
    assert_eq!(
        config_message(decode_hex("abc").unwrap_err()),
        "hexadecimal input has an odd number of digits"
    );
    assert_eq!(
        config_message(decode_hex("00zz").unwrap_err()),
        "invalid hex at digit 2"
    );
}

#[test]
fn hex_text_reads_back() {
    let bytes: Vec<u8> = (0..=255).collect();
    assert_eq!(encode_hex(&[0x0f, 0xa0]), "0fa0");
    assert_eq!(decode_hex(&encode_hex(&bytes)).unwrap(), bytes);
}

#[test]
fn parses_human_readable_timeouts() {
    assert_eq!(parse_duration("750ms").unwrap(), 750);
    assert_eq!(parse_duration("2s").unwrap(), 2_000);
    assert_eq!(parse_duration("3m").unwrap(), 180_000);
    assert!(parse_duration("0s").is_err());
    assert!(parse_duration("1000").is_err());
}

#[test]
fn resolvers_have_a_port_by_default() {
    let parsed = SocketAddr {
        ip: ip("192.0.2.53"),
        port: 5353,
    };
    assert_eq!(parse_resolver("192.0.2.53:5353", Some(parsed)).unwrap(), parsed);
    assert_eq!(
        parse_resolver("192.0.2.53", None).unwrap(),
        SocketAddr {
            ip: ip("192.0.2.53"),
            port: 53
        }
    );
    assert!(parse_resolver("resolver.example", None).is_err());
}

#[test]
fn passwords_are_the_first_line_and_not_empty() {
    assert_eq!(password_from_file("secret\r\nrest\n").unwrap(), "secret");
    assert_eq!(
        config_message(password_from_file("\nsecret").unwrap_err()),
        "password file is empty"
    );
    assert_eq!(typed_password("secret".into()).unwrap(), "secret");
    assert_eq!(
        config_message(typed_password(String::new()).unwrap_err()),
        "password must not be empty"
    );
    assert!(check_secret_permissions(0o100_600, "secret").is_ok());
    assert_eq!(
        config_message(check_secret_permissions(0o100_640, "secret").unwrap_err()),
        "secret: permissions allow access by group or other users"
    );
}

#[test]
fn options_win_over_a_configuration_file() {
    let file = ClientConfig::new("192.0.2.10:6001");
    let merged = merge_config(
        Some(file),
        Some("192.0.2.11:6001".into()),
        Some(1300),
        Some(EncryptionMethod::Aes),
    )
    .ok()
    .unwrap();
    assert_eq!(merged.server, "192.0.2.11:6001");
    assert_eq!(merged.mtu, 1300);
    assert_eq!(merged.encryption, EncryptionMethod::Aes);
    match merge_config(None, None, None, None) {
        Err(error) => assert_eq!(config_message(error), "specify --server or --config"),
        Ok(_) => panic!("a server is needed"),
    }
}

#[test]
fn parses_typed_dns_overrides() {
    let arguments = DnsOverrideArgs {
        dns_mode: Some(DnsServerModeArg::Custom),
        dns_servers: vec![Ipv4Addr::new(192, 0, 2, 53)],
        split_dns_mode: Some(SplitDnsModeArg::Custom),
        split_dns_domains: vec![rule("@corp.example")],
        encrypted_dns: Some(EncryptedDnsModeArg::Block),
        doh_hosts: strings(&["dns.example"]),
    };
    let overrides = arguments.applied_to(&DnsOverrides::default());
    assert_eq!(overrides.server_mode, Some(DnsServerMode::Custom));
    assert_eq!(overrides.servers, Some(vec![Ipv4Addr::new(192, 0, 2, 53)]));
    assert_eq!(overrides.split_mode, Some(SplitDnsMode::Custom));
    let domains = overrides.split_domains.unwrap();
    assert_eq!(domains.len(), 1);
    assert_eq!(domains[0].to_string(), "@corp.example");
    assert_eq!(overrides.encrypted_dns, Some(EncryptedDnsMode::Block));
}

#[test]
fn explicit_dns_inherit_clears_lower_precedence_profile_values() {
    let lower = DnsOverrides {
        server_mode: Some(DnsServerMode::Custom),
        servers: Some(vec![Ipv4Addr::new(192, 0, 2, 53)]),
        split_mode: Some(SplitDnsMode::Custom),
        split_domains: Some(vec![rule("@corp.example")]),
        encrypted_dns: Some(EncryptedDnsMode::Block),
        doh_hosts: Some(vec!["dns.example".into()]),
    };
    let arguments = DnsOverrideArgs {
        dns_mode: Some(DnsServerModeArg::Inherit),
        split_dns_mode: Some(SplitDnsModeArg::Inherit),
        encrypted_dns: Some(EncryptedDnsModeArg::Inherit),
        ..DnsOverrideArgs::default()
    };

    let overrides = arguments.applied_to(&lower);
    assert_eq!(overrides.server_mode, None);
    assert_eq!(overrides.servers, None);
    assert_eq!(overrides.split_mode, None);
    assert!(overrides.split_domains.is_none());
    assert_eq!(overrides.encrypted_dns, Some(EncryptedDnsMode::Inherit));
    assert_eq!(overrides.doh_hosts, lower.doh_hosts);
}

#[test]
fn no_dns_options_change_nothing() {
    let lower = DnsOverrides {
        server_mode: Some(DnsServerMode::Disabled),
        doh_hosts: Some(strings(&["dns.example"])),
        ..DnsOverrides::default()
    };
    let overrides = DnsOverrideArgs::default().applied_to(&lower);
    assert_eq!(overrides.server_mode, Some(DnsServerMode::Disabled));
    assert_eq!(overrides.servers, None);
    assert_eq!(overrides.doh_hosts, Some(strings(&["dns.example"])));
}

#[test]
fn direct_connections_have_no_managed_domains() {
    let managed = DnsOverrideArgs {
        split_dns_mode: Some(SplitDnsModeArg::Managed),
        ..DnsOverrideArgs::default()
    };
    match resolve_direct_policy(&managed, &[]) {
        Err(error) => assert_eq!(
            config_message(error),
            "direct connect cannot use managed split DNS without controller domain rules"
        ),
        Ok(_) => panic!("managed split DNS needs a controller"),
    }
    let policy = resolve_direct_policy(&DnsOverrideArgs::default(), &[ip("192.0.2.53")])
        .ok()
        .unwrap();
    assert_eq!(policy.servers, [Ipv4Addr::new(192, 0, 2, 53)]);
    assert_eq!(
        describe_policy(&policy),
        "dns: mode=server, servers=192.0.2.53, split=off, encrypted=allowed"
    );
}

#[test]
fn a_password_file_goes_before_the_environment() {
    assert_eq!(
        given_password(Some("filed\nrest"), Some("set".into())).unwrap(),
        Some("filed".to_owned())
    );
    assert_eq!(
        config_message(given_password(Some(""), Some("set".into())).unwrap_err()),
        "password file is empty"
    );
    assert_eq!(
        given_password(None, Some("set".into())).unwrap(),
        Some("set".to_owned())
    );
    assert_eq!(given_password(None, Some(String::new())).unwrap(), None);
    assert_eq!(given_password(None, None).unwrap(), None);
}

#[test]
fn managed_policies_layer_options_profile_and_controller() {
    let mut defaults = DnsDefaults::default();
    defaults.local_mode = DnsServerMode::Custom;
    defaults.local_dns = vec![Ipv4Addr::new(192, 0, 2, 1)];
    let mut profile = DnsOverrides::default();
    profile.server_mode = Some(DnsServerMode::Custom);
    profile.servers = Some(vec![Ipv4Addr::new(192, 0, 2, 2)]);
    let none = DnsOverrideArgs::default();
    let policy = resolve_managed_policy(&none, &profile, &defaults, &[])
        .ok()
        .unwrap();
    assert_eq!(policy.servers, [Ipv4Addr::new(192, 0, 2, 2)]);
    let given = DnsOverrideArgs {
        dns_servers: vec![Ipv4Addr::new(192, 0, 2, 3)],
        ..DnsOverrideArgs::default()
    };
    let policy = resolve_managed_policy(&given, &profile, &defaults, &[])
        .ok()
        .unwrap();
    assert_eq!(policy.servers, [Ipv4Addr::new(192, 0, 2, 3)]);
}

#[test]
fn modes_have_labels() {
    assert_eq!(dns_server_mode_label(DnsServerMode::Disabled), "disabled");
    assert_eq!(split_dns_mode_label(SplitDnsMode::TunnelAll), "tunnel-all");
    assert_eq!(session_end_label(SessionEnd::HeartbeatTimeout), "heartbeat timeout");
    assert_eq!(UserRoutingMode::All.label(), "all");
    assert_eq!(RoutingMode::IpFilter.label(), "ipfilter");
}

struct QueuePacketDevice {
    reads: Mutex<VecDeque<Vec<u8>>>,
    writes: Mutex<Vec<Vec<u8>>>,
    active: AtomicBool,
}

impl PacketDevice for QueuePacketDevice {
    fn name(&self) -> &str {
        "queue0"
    }

    fn activate_session(&self, _session: &SessionInfo) -> Result<(), Error> {
        self.active.store(true, Ordering::Release);
        Ok(())
    }

    fn deactivate_session(&self) -> Result<(), Error> {
        self.active.store(false, Ordering::Release);
        Ok(())
    }

    fn read_packet(&self, buffer: &mut [u8]) -> Result<usize, Error> {
        match self.reads.lock().unwrap().pop_front() {
            Some(packet) => {
                buffer[..packet.len()].copy_from_slice(&packet);
                Ok(packet.len())
            }
            None => Err(Error::Io("empty".into())),
        }
    }

    fn write_packet(&self, packet: &[u8]) -> Result<usize, Error> {
        self.writes.lock().unwrap().push(packet.to_vec());
        Ok(packet.len())
    }
}

#[test]
fn ipv6_blocking_device_drops_both_packet_directions() {
    let inner = Arc::new(QueuePacketDevice {
        reads: Mutex::new(VecDeque::new()),
        writes: Mutex::new(Vec::new()),
        active: AtomicBool::new(false),
    });
    inner
        .reads
        .lock()
        .unwrap()
        .extend([vec![0x60, 0, 0, 0], vec![0x45, 0, 0, 0]]);
    let device = Ipv6BlockingDevice::new(Arc::clone(&inner), true);
    let mut buffer = [0_u8; 64];

    assert_eq!(device.read_packet(&mut buffer).unwrap(), 4);
    assert_eq!(buffer[0] >> 4, 4);
    assert_eq!(device.write_packet(&[0x60, 1, 2, 3]).unwrap(), 4);
    assert!(inner.writes.lock().unwrap().is_empty());
    assert_eq!(device.write_packet(&[0x45, 1, 2, 3]).unwrap(), 4);
    assert_eq!(&*inner.writes.lock().unwrap(), &[vec![0x45, 1, 2, 3]]);

    let info = session(SocketAddr {
        ip: ip("192.0.2.1"),
        port: 6001,
    });
    device.activate_session(&info).unwrap();
    assert!(inner.active.load(Ordering::Acquire));
    device.deactivate_session().unwrap();
    assert!(!inner.active.load(Ordering::Acquire));
    assert_eq!(device.name(), "queue0");
}

struct OverfullDevice;

impl PacketDevice for OverfullDevice {
    fn name(&self) -> &str {
        "overfull0"
    }

    fn read_packet(&self, buffer: &mut [u8]) -> Result<usize, Error> {
        Ok(buffer.len() + 1)
    }

    fn write_packet(&self, packet: &[u8]) -> Result<usize, Error> {
        Ok(packet.len())
    }
}

#[test]
fn devices_cannot_fill_more_than_the_buffer() {
    let device = Ipv6BlockingDevice::new(Arc::new(OverfullDevice), true);
    match device.read_packet(&mut [0_u8; 4]) {
        Err(Error::Io(text)) => assert_eq!(text, "packet device filled more than the buffer"),
        other => panic!("unexpected result: {other:?}"),
    }
}

#[test]
fn managed_routing_precedence_and_custom_route_sources_are_stable() {
    let controller = RoutingConfiguration {
        mode: RoutingMode::Custom,
        custom_routes: vec!["172.16.0.0/12".into()],
        mtu_mode: "server".into(),
        custom_mtu: 0,
    };
    let profile = RoutingOverrides {
        mode: Some(UserRoutingMode::Custom),
        routes: vec!["10.0.0.0/8".into()],
        block_ipv6: true,
    };
    let mut command = RouteArgs::default();
    command.routes.push("192.0.2.0/24".into());

    let profile_selection = select_managed_routing(&command, &profile, Some(&controller));
    assert_eq!(
        profile_selection,
        ManagedRoutingSelection {
            mode: RoutingMode::Custom,
            user_overridden: true,
            block_ipv6: true,
        }
    );
    let cidrs = collect_managed_cidrs(
        &command,
        &profile,
        Some(&controller),
        &strings(&["100.64.0.0/10"]),
        profile_selection,
    );
    assert!(cidrs.contains(&"10.0.0.0/8".into()));
    assert!(cidrs.contains(&"192.0.2.0/24".into()));
    assert!(cidrs.contains(&"100.64.0.0/10".into()));
    assert!(!cidrs.contains(&"172.16.0.0/12".into()));
    assert!(cidrs.contains(&"::/1".into()));
    assert!(cidrs.contains(&"8000::/1".into()));

    command.policy.routing_mode = Some(UserRoutingMode::All);
    command.policy.allow_ipv6 = true;
    let cli_selection = select_managed_routing(&command, &profile, Some(&controller));
    assert_eq!(
        cli_selection,
        ManagedRoutingSelection {
            mode: RoutingMode::All,
            user_overridden: true,
            block_ipv6: false,
        }
    );

    let inherited = select_managed_routing(
        &RouteArgs::default(),
        &RoutingOverrides::default(),
        Some(&controller),
    );
    let inherited_cidrs = collect_managed_cidrs(
        &RouteArgs::default(),
        &RoutingOverrides::default(),
        Some(&controller),
        &Vec::new(),
        inherited,
    );
    assert_eq!(inherited.mode, RoutingMode::Custom);
    assert!(inherited_cidrs.contains(&"172.16.0.0/12".into()));
}

#[test]
fn formats_managed_lines_with_dynamic_column_widths() {
    let probes = vec![
        LineProbe {
            preference: "iwan:2".into(),
            name: "教育网线路".into(),
            name_en: "Education network".into(),
            endpoint: Some("202.38.64.106:6001".into()),
            latency: Some(format!("{:.3} ms", 35_687.0 / 1_000.0)),
            error: None,
        },
        LineProbe {
            preference: "iwan:30".into(),
            name: "移动线路".into(),
            name_en: "Mobile network".into(),
            endpoint: None,
            latency: None,
            error: Some("probe timed out".into()),
        },
    ];

    let output = format_line_probes(&probes);
    let lines = output.lines().collect::<Vec<_>>();
    assert_eq!(lines.len(), 4);
    assert_eq!(
        lines[0].find("LATENCY"),
        lines[1].find("35.687 ms"),
        "latency column should align with its heading"
    );
    assert_eq!(
        lines[0].find("ENDPOINT"),
        lines[1].find("202.38.64.106:6001"),
        "endpoint column should align with its heading"
    );
    assert_eq!(
        lines[0].find("NAME"),
        lines[1].find("教育网线路"),
        "name column should align with its heading"
    );
    assert_eq!(
        lines[0].find("NAME"),
        lines[2].find("移动线路"),
        "short values should be padded to the computed column width"
    );
    assert_eq!(lines[3], "  error: probe timed out");
    assert!(!output.contains('\t'));
}

#[test]
fn an_empty_list_of_lines_has_a_heading() {
    assert_eq!(format_line_probes(&Vec::new()), "ID  LATENCY  ENDPOINT  NAME\n");
}

#[test]
fn invalid_server_ip_filter_rules_are_ignored() {
    assert_eq!(
        valid_filter_cidrs(&strings(&["10.0.0.0/8", "10.0.0.0/99", "not-a-route"])),
        ["10.0.0.0/8"]
    );
}

#[test]
fn managed_controller_dns_rejects_unspecified_and_uses_official_fallbacks() {
    let servers = DnsPolicyResolver::resolve(
        &DnsDefaults {
            controller_service: true,
            ..DnsDefaults::default()
        },
        &DnsOverrides::default(),
        &[ip("0.0.0.0")],
    )
    .ok()
    .unwrap()
    .servers;
    assert_eq!(
        servers,
        [Ipv4Addr::new(1, 1, 1, 1), Ipv4Addr::new(114, 114, 114, 114)]
    );
    assert!(DnsPolicyResolver::resolve(
        &DnsDefaults::default(),
        &DnsOverrides::default(),
        &[ip("0.0.0.0")],
    )
    .ok()
    .unwrap()
    .servers
    .is_empty());
}

#[test]
fn ipv6_options_override_each_other() {
    let mut options = RoutingOverrideArgs {
        routing_mode: None,
        block_ipv6: false,
        allow_ipv6: false,
    };
    assert_eq!(options.ipv6_override(), None);
    options.allow_ipv6 = true;
    assert_eq!(options.ipv6_override(), Some(false));
    options.allow_ipv6 = false;
    options.block_ipv6 = true;
    assert_eq!(options.ipv6_override(), Some(true));
    let mut routes = strings(&["10.0.0.0/8"]);
    append_ipv6_capture_routes(&mut routes, false);
    assert_eq!(routes, ["10.0.0.0/8"]);
    append_ipv6_capture_routes(&mut routes, true);
    assert_eq!(routes, ["10.0.0.0/8", "::/1", "8000::/1"]);
}

#[test]
fn direct_routes_leave_the_peer_and_resolvers_out() {
    let peer = ip("192.0.2.53");
    let policy = resolve_direct_policy(&DnsOverrideArgs::default(), &[peer])
        .ok()
        .unwrap();
    let mut arguments = RouteArgs::default();
    arguments.policy.routing_mode = Some(UserRoutingMode::All);
    arguments.routes.push("10.0.0.0/8".into());
    let plan = plan_direct_routes(
        &arguments,
        &policy,
        &[PhysicalResolver::new(ip("203.0.113.1"))],
        peer,
    );
    assert!(plan.full_ipv4);
    assert_eq!(plan.cidrs, ["10.0.0.0/8"]);
    assert!(plan.route_ips.is_empty());
    assert_eq!(plan.exclusions, base_full_ipv4_exclusions());

    let custom = DnsOverrideArgs {
        split_dns_domains: vec![rule("@corp.example")],
        ..DnsOverrideArgs::default()
    };
    let policy = resolve_direct_policy(&custom, &[peer]).ok().unwrap();
    let plan = plan_direct_routes(
        &RouteArgs::default(),
        &policy,
        &[PhysicalResolver::new(ip("203.0.113.1"))],
        ip("192.0.2.1"),
    );
    assert_eq!(plan.route_ips, ["192.0.2.53"]);
    assert_eq!(plan.exclusions, ["203.0.113.1/32"]);
    assert!(!plan.full_ipv4);
    let mut blocking = RouteArgs::default();
    blocking.policy.block_ipv6 = true;
    let plan = plan_direct_routes(
        &blocking,
        &policy,
        &[
            PhysicalResolver::new(ip("203.0.113.1")),
            PhysicalResolver::new(ip("2001:db8::53")),
        ],
        ip("192.0.2.1"),
    );
    assert_eq!(plan.cidrs, ["::/1", "8000::/1"]);
    assert_eq!(plan.exclusions, ["203.0.113.1/32"]);
}

#[test]
fn managed_routes_cover_servers_and_filters() {
    let policy = resolve_direct_policy(&DnsOverrideArgs::default(), &[ip("192.0.2.53")])
        .ok()
        .unwrap();
    let filter = IpFilterConfiguration {
        inclusive: strings(&["100.64.0.0/10"]),
        exclusive: strings(&["100.64.1.0/24", "broken"]),
    };
    let controller = RoutingConfiguration {
        mode: RoutingMode::IpFilter,
        custom_routes: Vec::new(),
        mtu_mode: "custom".into(),
        custom_mtu: 1280,
    };
    let servers = managed_server_exclusions(&vec![ip("198.51.100.7"), ip("198.51.100.7")]);
    assert_eq!(servers.iter().filter(|text| *text == "198.51.100.7/32").count(), 1);
    let plan = plan_managed_routes(
        &RouteArgs::default(),
        &RoutingOverrides::default(),
        Some(&controller),
        Some(&filter),
        &servers,
        &policy,
        &[],
        ip("192.0.2.1"),
    );
    assert!(!plan.full_ipv4);
    assert_eq!(plan.cidrs, ["100.64.0.0/10", "192.0.2.53/32"]);
    assert_eq!(plan.exclusions[0], "100.64.1.0/24");
    assert!(plan.exclusions.contains(&"198.51.100.7/32".to_string()));

    let info = session(SocketAddr {
        ip: ip("192.0.2.1"),
        port: 6001,
    });
    let interface = interface_session(&info, &policy, Some(&controller));
    assert_eq!(interface.mtu, 1280);
    assert_eq!(interface.dns_servers, [ip("192.0.2.53")]);
}

#[test]
fn endpoints_and_networks_are_written_as_usual() {
    assert_eq!(host_cidr(ip("192.0.2.1")), "192.0.2.1/32");
    assert_eq!(host_cidr(ip("2001:db8::1")), "2001:db8::1/128");
    assert_eq!(
        ingress_endpoint("gateway.example", 6001),
        Some("gateway.example:6001".to_string())
    );
    assert_eq!(
        ingress_endpoint("2001:db8::1", 6001),
        Some("[2001:db8::1]:6001".to_string())
    );
    assert_eq!(ingress_endpoint("gateway.example", 0), None);
    assert_eq!(ingress_endpoint("", 6001), None);
}
