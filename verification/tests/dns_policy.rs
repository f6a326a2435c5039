//! DNS policy: rules, layers and resolution.

use openiwan::dns::policy::{
    normalize_names, validate_name, DnsDefaults, DnsOverrides, DnsPolicyResolver, DnsServerMode,
    DomainRule, DomainRuleKind, EffectiveDnsPolicy, EncryptedDnsMode, ServerListDnsMode,
    SplitDnsMode,
};
use openiwan::net::{parse_ip, IpAddr, Ipv4Addr, SocketAddr};
use openiwan::dns::resolver::{ResolveVia, ResolverConfig};
use openiwan::Error;

fn rule(value: &str) -> DomainRule {
    value.parse().ok().unwrap()
}

fn resolve(
    defaults: &DnsDefaults,
    overrides: &DnsOverrides,
    session: &[IpAddr],
) -> EffectiveDnsPolicy {
    DnsPolicyResolver::resolve(defaults, overrides, session)
        .ok()
        .unwrap()
}

fn config_message(error: Error) -> String {
    match error {
        Error::InvalidConfig(message) => message,
        other => panic!("unexpected error: {other:?}"),
    }
}

#[test]
fn implements_official_domain_prefixes() {
    assert!(rule("*example.com").matches("notexample.com"));
    assert!(rule("example.com").matches("notexample.com"));
    assert!(rule("@example.com").matches("www.example.com"));
    assert!(rule("@example.com").matches("example.com."));
    assert!(!rule("@example.com").matches("notexample.com"));
    assert!(rule("^example.com").matches("EXAMPLE.COM."));
    assert!(!rule("^example.com").matches("www.example.com"));
}

#[test]
fn exclusion_wins_and_empty_inclusive_tunnels() {
    let mut policy = EffectiveDnsPolicy::direct(&[]);
    policy.split_mode = SplitDnsMode::Managed;
    policy.exclusive = vec![rule("@local.test")];
    assert!(!policy.routes_through_tunnel("host.local.test"));
    assert!(policy.routes_through_tunnel("public.test"));
    policy.inclusive = vec![rule("@corp.test")];
    assert!(policy.routes_through_tunnel("api.corp.test"));
    assert!(!policy.routes_through_tunnel("public.test"));
}

#[test]
fn resolves_serverlist_custom_openack_and_controller_fallback() {
    let mut defaults = DnsDefaults {
        server_mode: ServerListDnsMode::Custom,
        server_dns: vec![Ipv4Addr::new(0, 0, 0, 0)],
        controller_service: true,
        ..DnsDefaults::default()
    };
    let policy = resolve(
        &defaults,
        &DnsOverrides::default(),
        &[IpAddr::V4(Ipv4Addr::new(192, 0, 2, 53))],
    );
    assert_eq!(policy.servers, [Ipv4Addr::new(192, 0, 2, 53)]);

    defaults.server_dns = vec![
        Ipv4Addr::new(192, 0, 2, 1),
        Ipv4Addr::new(192, 0, 2, 1),
        Ipv4Addr::new(192, 0, 2, 2),
        Ipv4Addr::new(192, 0, 2, 3),
    ];
    let policy = resolve(&defaults, &DnsOverrides::default(), &[]);
    assert_eq!(
        policy.servers,
        [Ipv4Addr::new(192, 0, 2, 1), Ipv4Addr::new(192, 0, 2, 2)]
    );

    defaults.server_dns.clear();
    let policy = resolve(&defaults, &DnsOverrides::default(), &[]);
    assert_eq!(
        policy.servers,
        [Ipv4Addr::new(1, 1, 1, 1), Ipv4Addr::new(114, 114, 114, 114)]
    );
}

#[test]
fn layers_profile_below_cli() {
    let profile = DnsOverrides {
        server_mode: Some(DnsServerMode::Custom),
        servers: Some(vec![Ipv4Addr::new(192, 0, 2, 1)]),
        ..DnsOverrides::default()
    };
    let cli = DnsOverrides {
        server_mode: Some(DnsServerMode::Disabled),
        ..DnsOverrides::default()
    };
    let merged = DnsOverrides::layered(&profile, &cli);
    assert_eq!(merged.server_mode, Some(DnsServerMode::Disabled));
    assert_eq!(merged.servers, profile.servers);
}

#[test]
fn disabled_serverlist_disables_dns_routing_but_not_encrypted_dns_blocking() {
    let defaults = DnsDefaults {
        server_mode: ServerListDnsMode::Disabled,
        split_mode: SplitDnsMode::TunnelAll,
        ..DnsDefaults::default()
    };
    let policy = resolve(&defaults, &DnsOverrides::default(), &[]);
    assert_eq!(policy.server_mode, DnsServerMode::Disabled);
    assert!(!policy.engine_enabled());

    let policy = resolve(
        &defaults,
        &DnsOverrides {
            encrypted_dns: Some(EncryptedDnsMode::Block),
            ..DnsOverrides::default()
        },
        &[],
    );
    assert!(policy.engine_enabled());
    assert!(!policy.dns_routing_enabled());
}

#[test]
fn rules_read_back_as_written() {
    for text in ["*example.com", "example.com", "@example.com", "^example.com"] {
        assert_eq!(rule(text).to_string(), text);
    }
    let parsed = rule(" @Example.COM. ");
    assert_eq!(parsed.domain(), "example.com");
    assert_eq!(parsed.kind(), DomainRuleKind::Domain);
    assert!(DomainRule::parse("@").is_err());
    assert!(DomainRule::parse("two words").is_err());
    assert!(DomainRule::parse("a..b").is_err());
}

#[test]
fn blocking_encrypted_dns_blocks_the_canary() {
    let policy = resolve(
        &DnsDefaults::default(),
        &DnsOverrides {
            encrypted_dns: Some(EncryptedDnsMode::Block),
            doh_hosts: Some(vec!["DNS.example.".into()]),
            ..DnsOverrides::default()
        },
        &[],
    );
    assert!(policy.blocks_doh_host("use-application-dns.net"));
    assert!(policy.blocks_doh_host("dns.example"));
    assert!(!policy.blocks_doh_host("other.example"));
}

#[test]
fn custom_servers_are_one_or_two_usable_addresses() {
    let overrides = |servers: Vec<Ipv4Addr>| DnsOverrides {
        server_mode: Some(DnsServerMode::Custom),
        servers: Some(servers),
        ..DnsOverrides::default()
    };
    assert_eq!(
        config_message(overrides(Vec::new()).validate().unwrap_err()),
        "custom DNS mode requires at least one --dns-server"
    );
    assert_eq!(
        config_message(
            overrides(vec![Ipv4Addr::new(192, 0, 2, 1); 3])
                .validate()
                .unwrap_err()
        ),
        "custom DNS accepts at most two IPv4 servers"
    );
    let multicast = overrides(vec![Ipv4Addr::new(224, 0, 0, 1)]);
    match DnsPolicyResolver::resolve(&DnsDefaults::default(), &multicast, &[]) {
        Err(error) => assert_eq!(
            config_message(error),
            "custom DNS server 224.0.0.1 is not a usable unicast IPv4 address"
        ),
        Ok(_) => panic!("a multicast server should be refused"),
    }
    overrides(vec![Ipv4Addr::new(192, 0, 2, 1)]).validate().unwrap();
}

#[test]
fn names_are_checked_and_kept_once() {
    let names = vec![
        "DNS.example.".to_string(),
        "dns.example".to_string(),
        "other.example".to_string(),
    ];
    assert_eq!(
        normalize_names(&names).unwrap(),
        ["dns.example", "other.example"]
    );
    assert_eq!(
        config_message(normalize_names(&vec!["bad host".to_string()]).unwrap_err()),
        "invalid DoH hostname \"bad host\""
    );
    assert!(validate_name(&"a".repeat(64), "name").is_err());
    assert!(validate_name(&"a".repeat(63), "name").is_ok());
}

#[test]
fn modes_are_read_from_settings() {
    assert_eq!(
        "custom".parse::<DnsServerMode>().ok(),
        Some(DnsServerMode::Custom)
    );
    assert!("other".parse::<DnsServerMode>().is_err());
    assert_eq!(
        "tunnel-all".parse::<SplitDnsMode>().ok(),
        Some(SplitDnsMode::TunnelAll)
    );
    assert_eq!(
        "block".parse::<EncryptedDnsMode>().ok(),
        Some(EncryptedDnsMode::Block)
    );
    assert_eq!(
        ServerListDnsMode::from_server_value("something"),
        ServerListDnsMode::Auto
    );
}

#[test]
fn resolvers_are_unicast_with_a_port() {
    let server = SocketAddr {
        ip: parse_ip("192.0.2.53").unwrap(),
        port: 53,
    };
    let config = ResolverConfig::new(ResolveVia::Tunnel, vec![server], 3_000)
        .unwrap()
        .with_session_servers(false);
    assert!(!config.include_session_servers);
    assert_eq!(config.servers, [server]);
    assert_eq!(
        config_message(ResolverConfig::new(ResolveVia::Auto, Vec::new(), 0).unwrap_err()),
        "DNS resolver timeout must be greater than zero"
    );
    for (text, port) in [("192.0.2.53", 0), ("0.0.0.0", 53), ("ff02::1", 53)] {
        let server = SocketAddr {
            ip: parse_ip(text).unwrap(),
            port,
        };
        assert_eq!(
            config_message(
                ResolverConfig::new(ResolveVia::Auto, vec![server], 3_000).unwrap_err()
            ),
            "DNS resolvers must be unicast addresses with a nonzero port"
        );
    }
    assert_eq!(ResolverConfig::default().timeout_ms, 3_000);
}

#[test]
fn rules_ignore_case_and_a_final_dot() {
    for text in ["corp.test", "*corp.test", "@corp.test", "^corp.test"] {
        let rule = DomainRule::parse(text).unwrap();
        for name in ["corp.test", "api.corp.test", "mycorp.test", "other.test", ""] {
            let answer = rule.matches(name);
            assert_eq!(rule.matches(&name.to_uppercase()), answer);
            assert_eq!(rule.matches(&format!("{name}.")), answer);
            assert_eq!(rule.matches(&format!("{}.", name.to_uppercase())), answer);
        }
    }
    let exact = DomainRule::parse("^corp.test").unwrap();
    assert!(exact.matches("corp.test "));
    assert!(!exact.matches("corp.test ."));
}

#[test]
fn rules_on_one_domain_widen_from_exact_to_suffix() {
    let answers = |name: &str| {
        ["^corp.test", "@corp.test", "*corp.test"]
            .map(|text| DomainRule::parse(text).unwrap().matches(name))
    };
    assert_eq!(answers("corp.test"), [true, true, true]);
    assert_eq!(answers("api.corp.test"), [false, true, true]);
    assert_eq!(answers("mycorp.test"), [false, false, true]);
    assert_eq!(answers("corp.example"), [false, false, false]);
}
