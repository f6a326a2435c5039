//! Forwarding to fixed targets.

use hyper::header::{CONNECTION, HOST, LOCATION};
use hyper::header::{HeaderMap, HeaderValue};
use openiwan::cli::connect::{
    resolution_timed_out, AttemptFailure, ConnectError, ConnectKind, ConnectRound,
};
use openiwan::cli::connector::{
    accept_system_answer, announce_forward, attempt_timeout, capacity_decision, check_preflight,
    clamp_dns_ttl, effective_dns_servers, fit_packet, forward_end, forward_resolvers, has_fake_addresses,
    ipv4_mask_prefix, is_fresh, is_ipv4_benchmark_address, matches_target_uri,
    normalize_addresses, reset_capacity_warning, resolution_way, resolve_fixed,
    session_random_seed, tunnel_for_target, userspace_gateway, userspace_prefix, CapacityDecision,
    DnsConfig, DnsMode, ForwardConfig, PreflightOutcome, ResolutionSource, ResolutionWay,
    ServerOutcome, ServerRound, MAX_CONNECTIONS,
};
use openiwan::cli::forward::{parse_target_argument, Target, TargetScheme};
use openiwan::cli::http::{
    error_body, failure_status, prepare_request, prepare_response, request_uri, rewrite_location,
    strip_hop_by_hop,
};
use openiwan::cli::http_proxy::{
    announce_proxy, fixed_upstream, sort_addresses, HttpProxyConfig, Upstream,
};
use openiwan::dns::policy::{EffectiveDnsPolicy, SplitDnsMode};
use openiwan::dns::resolver::ResolveVia;
use openiwan::net::{parse_ip, IpAddr, Ipv4Addr, SocketAddr};
use openiwan::{Error, SessionEnd};

fn ip(text: &str) -> IpAddr {
    parse_ip(text).unwrap()
}

#[test]
fn forwards_end_as_their_tunnel_does() {
    let failed = || Error::Io("accept".into());
    assert!(matches!(
        forward_end(Ok(SessionEnd::ServerClose), None),
        Ok(SessionEnd::ServerClose)
    ));
    assert!(matches!(
        forward_end(Ok(SessionEnd::LocalShutdown), Some(failed())),
        Err(Error::Io(_))
    ));
    assert!(matches!(
        forward_end(Err(Error::ControllerUnauthorized), Some(failed())),
        Err(Error::ControllerUnauthorized)
    ));
}

fn socket(text: &str, port: u16) -> SocketAddr {
    SocketAddr { ip: ip(text), port }
}

fn target(text: &str) -> Target {
    Target::parse(text).ok().unwrap()
}

fn upstream(text: &str) -> Upstream {
    Upstream::parse(text).ok().unwrap()
}

fn dns(timeout_ms: u64) -> DnsConfig {
    DnsConfig::new(DnsMode::Auto, Vec::new(), timeout_ms).unwrap()
}

#[test]
fn validates_target_and_loopback_listener() {
    let config = ForwardConfig::new(
        socket("127.0.0.1", 8080),
        "tcp://db.example.test:5432",
        dns(3_000),
        Vec::new(),
        10_000,
    )
    .ok()
    .unwrap();
    assert_eq!(config.target.host, "db.example.test");
    assert_eq!(config.target.port, 5432);

    assert!(ForwardConfig::new(
        socket("0.0.0.0", 8080),
        "tcp://db.example.test:5432",
        dns(3_000),
        Vec::new(),
        10_000,
    )
    .is_err());
    assert!(ForwardConfig::new(
        socket("127.0.0.1", 8080),
        "tcp://db.example.test:5432",
        dns(3_000),
        Vec::new(),
        0,
    )
    .is_err());
    assert!(DnsConfig::new(DnsMode::Iwan, vec![socket("0.0.0.0", 53)], 3_000).is_err());
}

#[test]
fn parses_domain_ipv4_and_bracketed_ipv6_targets() {
    let tcp = target("tcp://db.example.test:5432");
    assert_eq!(tcp.scheme, TargetScheme::Tcp);
    assert_eq!(tcp.host, "db.example.test");
    assert_eq!(tcp.authority, "db.example.test:5432");
    assert_eq!(tcp.port, 5432);

    let ipv4 = target("tcp://192.0.2.25:22");
    assert_eq!(ipv4.host, "192.0.2.25");
    assert_eq!(ipv4.port, 22);

    let ipv6 = target("tcp://[2001:db8::25]:443");
    assert_eq!(ipv6.host, "2001:db8::25");
    assert_eq!(ipv6.port, 443);
    assert_eq!(ipv6.display(), "tcp://[2001:db8::25]:443");

    let http = target("http://example.test");
    assert_eq!(http.scheme, TargetScheme::Http);
    assert_eq!(http.port, 80);
    assert_eq!(http.authority, "example.test");

    let https = target("https://example.test:8443");
    assert_eq!(https.scheme, TargetScheme::Https);
    assert_eq!(https.port, 8443);
    assert_eq!(https.authority, "example.test:8443");

    for invalid in [
        "",
        "db.example.test",
        "db.example.test:5432",
        "http:example.test",
        "tcp://db.example.test",
        "tcp://db.example.test:5432/",
        "tcp://db.example.test:0",
        "udp://db.example.test:53",
        "http://user@example.test",
        "http://@example.test",
        "http://./",
        "http://example.test/path",
        "https://example.test?query=yes",
        "2001:db8::25:443",
        "tcp://0.0.0.0:80",
        "tcp://[ff02::1]:80",
    ] {
        assert!(Target::parse(invalid).is_err(), "{invalid:?} was accepted");
    }
}

#[test]
fn target_arguments_are_checked_as_text() {
    assert_eq!(
        parse_target_argument("tcp://db.example.test:5432").unwrap(),
        "tcp://db.example.test:5432"
    );
    let message = parse_target_argument("udp://db.example.test:53").unwrap_err();
    assert!(message.starts_with("invalid configuration: "));
    assert!(target("https://example.test").uses_tls());
    assert!(!target("tcp://example.test:1").is_http());
}

#[test]
fn forward_identifies_common_vpn_fake_ip_range() {
    assert!(is_ipv4_benchmark_address(ip("198.18.0.23")));
    assert!(is_ipv4_benchmark_address(ip("198.19.255.254")));
    assert!(!is_ipv4_benchmark_address(ip("198.20.0.1")));
    assert!(!is_ipv4_benchmark_address(ip("2001:db8::1")));
}

#[test]
fn http_proxy_identifies_common_vpn_fake_ip_range() {
    assert!(is_ipv4_benchmark_address(ip("198.18.0.23")));
    assert!(is_ipv4_benchmark_address(ip("198.19.255.254")));
    assert!(!is_ipv4_benchmark_address(ip("198.20.0.1")));
    assert!(!is_ipv4_benchmark_address(ip("2001:db8::1")));
}

#[test]
fn enforces_connection_capacity_and_throttles_warnings() {
    let mut warning_active = false;
    assert_eq!(
        capacity_decision(MAX_CONNECTIONS - 1, &mut warning_active),
        CapacityDecision::Accept
    );
    assert_eq!(
        capacity_decision(MAX_CONNECTIONS, &mut warning_active),
        CapacityDecision::RejectAndWarn
    );
    assert!(warning_active);
    assert_eq!(
        capacity_decision(MAX_CONNECTIONS + 1, &mut warning_active),
        CapacityDecision::Reject
    );

    reset_capacity_warning(MAX_CONNECTIONS - 1, &mut warning_active);
    assert!(!warning_active);
    assert_eq!(
        capacity_decision(MAX_CONNECTIONS, &mut warning_active),
        CapacityDecision::RejectAndWarn
    );
}

#[test]
fn forward_validates_contiguous_ipv4_masks() {
    assert_eq!(
        ipv4_mask_prefix(Ipv4Addr::new(255, 255, 255, 0)).unwrap(),
        24
    );
    assert!(ipv4_mask_prefix(Ipv4Addr::new(255, 0, 255, 0)).is_err());
}

#[test]
fn http_proxy_validates_contiguous_ipv4_masks() {
    assert_eq!(
        ipv4_mask_prefix(Ipv4Addr::new(255, 255, 255, 0)).unwrap(),
        24
    );
    assert!(ipv4_mask_prefix(Ipv4Addr::new(255, 0, 255, 0)).is_err());
}

#[test]
fn preserves_path_and_query_for_fixed_target() {
    let target = target("https://api.example.test:8443");
    assert_eq!(
        request_uri(&target, Some("/v1/profile?full=true")).unwrap(),
        "https://api.example.test:8443/v1/profile?full=true"
    );
    assert_eq!(
        request_uri(&target, None).unwrap(),
        "https://api.example.test:8443/"
    );
}

#[test]
fn connector_accepts_the_configured_ipv6_authority() {
    let target = target("https://[2001:db8::25]:8443");
    assert_eq!(
        request_uri(&target, Some("/v1/profile")).unwrap(),
        "https://[2001:db8::25]:8443/v1/profile"
    );
    assert!(matches_target_uri(
        &target,
        Some("https"),
        Some("[2001:db8::25]:8443")
    ));
    assert!(!matches_target_uri(
        &target,
        Some("http"),
        Some("[2001:db8::25]:8443")
    ));
    assert!(!matches_target_uri(&target, Some("https"), None));
}

#[test]
fn strips_standard_and_connection_named_hop_headers() {
    let mut headers = HeaderMap::new();
    headers.insert(CONNECTION, HeaderValue::from_static("keep-alive, x-remove"));
    headers.insert("keep-alive", HeaderValue::from_static("timeout=5"));
    headers.insert("x-remove", HeaderValue::from_static("yes"));
    headers.insert("authorization", HeaderValue::from_static("Bearer token"));
    strip_hop_by_hop(&mut headers);
    assert!(!headers.contains_key(CONNECTION));
    assert!(!headers.contains_key("keep-alive"));
    assert!(!headers.contains_key("x-remove"));
    assert_eq!(headers["authorization"], "Bearer token");
}

#[test]
fn strips_hop_headers_and_connection_nominations() {
    let mut headers = HeaderMap::new();
    headers.insert(CONNECTION, HeaderValue::from_static("keep-alive, x-remove"));
    headers.insert("keep-alive", HeaderValue::from_static("timeout=5"));
    headers.insert("x-remove", HeaderValue::from_static("yes"));
    headers.insert("authorization", HeaderValue::from_static("Bearer secret"));
    strip_hop_by_hop(&mut headers);
    assert!(!headers.contains_key(CONNECTION));
    assert!(!headers.contains_key("keep-alive"));
    assert!(!headers.contains_key("x-remove"));
    assert_eq!(headers["authorization"], "Bearer secret");
}

#[test]
fn rewrites_only_same_origin_locations() {
    let fixed = target("https://api.example.test");
    let mut headers = HeaderMap::new();
    headers.insert(
        LOCATION,
        HeaderValue::from_static("https://api.example.test/login?next=%2F"),
    );
    rewrite_location(&mut headers, &fixed);
    assert_eq!(headers[LOCATION], "/login?next=%2F");

    headers.insert(
        LOCATION,
        HeaderValue::from_static("https://other.example.test/login"),
    );
    rewrite_location(&mut headers, &fixed);
    assert_eq!(headers[LOCATION], "https://other.example.test/login");

    let fixed = target("https://[2001:db8::25]:8443");
    headers.insert(
        LOCATION,
        HeaderValue::from_static("https://[2001:db8::25]:8443/v1?full=true"),
    );
    rewrite_location(&mut headers, &fixed);
    assert_eq!(headers[LOCATION], "/v1?full=true");
}

#[test]
fn requests_and_responses_change_hands() {
    let fixed = target("http://api.example.test:8080");
    let mut headers = HeaderMap::new();
    headers.insert(HOST, HeaderValue::from_static("local.example"));
    headers.insert(CONNECTION, HeaderValue::from_static("close, x-remove"));
    headers.insert("x-remove", HeaderValue::from_static("secret"));
    headers.insert("authorization", HeaderValue::from_static("Bearer token"));
    let uri = prepare_request(&mut headers, &fixed, "GET", Some("/v1?topic=a")).unwrap();
    assert_eq!(uri, "http://api.example.test:8080/v1?topic=a");
    assert_eq!(headers[HOST], "api.example.test:8080");
    assert!(!headers.contains_key("x-remove"));
    assert_eq!(headers["authorization"], "Bearer token");

    let mut headers = HeaderMap::new();
    headers.insert(
        LOCATION,
        HeaderValue::from_static("http://api.example.test:8080/next?from=proxy#done"),
    );
    headers.insert("proxy-authenticate", HeaderValue::from_static("Basic"));
    prepare_response(&mut headers, &fixed);
    assert_eq!(headers[LOCATION], "/next?from=proxy#done");
    assert!(!headers.contains_key("proxy-authenticate"));
    assert_eq!(failure_status(true), 504);
    assert_eq!(failure_status(false), 502);
    assert!(!error_body(502).is_empty());
}

#[test]
fn ca_cert_is_rejected_before_file_access_for_non_https_targets() {
    let missing = "this-forward-ca-file-does-not-exist.pem".to_string();
    for target in [
        "tcp://service.example.test:443",
        "http://service.example.test",
    ] {
        let error = ForwardConfig::new(
            socket("127.0.0.1", 19384),
            target,
            dns(1_000),
            vec![missing.clone()],
            1_000,
        )
        .err()
        .unwrap();
        assert!(
            error
                .to_string()
                .contains("--ca-cert is only valid for an https:// target"),
            "unexpected error for {target}: {error:?}"
        );
    }
    assert!(ForwardConfig::new(
        socket("127.0.0.1", 19384),
        "https://service.example.test",
        dns(1_000),
        vec![missing],
        1_000,
    )
    .is_ok());
}

#[test]
fn validates_http_or_https_origin_and_loopback_listener() {
    let configure = |listen: SocketAddr, origin: &str| {
        HttpProxyConfig::new(listen, origin, Vec::new(), dns(3_000), Vec::new(), 10_000)
    };
    let local = socket("127.0.0.1", 8080);
    let secure = configure(local, "https://api.example.test").ok().unwrap();
    assert_eq!(secure.upstream.authority, "api.example.test");
    assert!(secure.upstream.uses_tls());

    let plain = configure(local, "http://api.example.test").ok().unwrap();
    assert_eq!(plain.upstream.port, 80);
    assert!(!plain.upstream.uses_tls());

    assert!(configure(socket("0.0.0.0", 8080), "https://api.example.test").is_err());
    assert!(configure(local, "ftp://api.example.test").is_err());
    assert!(configure(local, "https://api.example.test/base").is_err());
    assert!(DnsConfig::new(DnsMode::Iwan, vec![socket("0.0.0.0", 53)], 3_000).is_err());
}

#[test]
fn preserves_path_and_query_for_fixed_upstream() {
    let secure_origin = upstream("https://api.example.test:8443");
    assert_eq!(
        secure_origin.request_uri(Some("/v1/items?limit=5")).unwrap(),
        "https://api.example.test:8443/v1/items?limit=5"
    );
    let plain_origin = upstream("http://api.example.test:8080");
    assert_eq!(
        plain_origin.request_uri(Some("/v1/items?limit=5")).unwrap(),
        "http://api.example.test:8080/v1/items?limit=5"
    );
}

#[test]
fn rewrites_only_same_origin_absolute_locations() {
    let origin = upstream("https://api.example.test");
    let mut headers = HeaderMap::new();
    headers.insert(
        LOCATION,
        HeaderValue::from_static("https://api.example.test/v2/items?next=1"),
    );
    openiwan::cli::http_proxy::rewrite_location(&mut headers, &origin);
    assert_eq!(headers[LOCATION], "/v2/items?next=1");

    headers.insert(
        LOCATION,
        HeaderValue::from_static("https://login.example.test/authorize"),
    );
    openiwan::cli::http_proxy::rewrite_location(&mut headers, &origin);
    assert_eq!(headers[LOCATION], "https://login.example.test/authorize");
}

#[test]
fn origins_are_shown_in_their_usual_form() {
    let origin = upstream("https://API.example.test:443");
    assert_eq!(origin.url, "https://api.example.test/");
    assert_eq!(origin.host, "api.example.test");
    let lines = announce_proxy(socket("127.0.0.1", 8080), &origin);
    assert!(lines.iter().any(|line| line.contains("127.0.0.1:8080")));
    let lines = announce_forward(socket("127.0.0.1", 8080), &target("tcp://db.test:1"));
    assert!(lines.iter().any(|line| line.contains("tcp://db.test:1")));
}

#[test]
fn servers_are_asked_in_turn() {
    let servers = [socket("192.0.2.1", 53), socket("192.0.2.2", 53)];
    let mut round = ServerRound::start(&servers, true).ok().unwrap();
    let first = round.next_server().unwrap();
    assert_eq!(first, servers[0]);
    assert!(round
        .absorb(first, ServerOutcome::Failed("late".into()), 80, 0)
        .is_none());
    let second = round.next_server().unwrap();
    let found = round
        .absorb(
            second,
            ServerOutcome::Answer {
                addresses: vec![ip("2001:db8::1"), ip("10.0.0.7")],
                ttl_secs: 1,
            },
            80,
            0,
        )
        .unwrap();
    assert_eq!(found.addresses, [socket("10.0.0.7", 80)]);
    assert_eq!(found.source, ResolutionSource::IwanDns(second));
    assert!(is_fresh(&found, 0));
    assert!(ServerRound::start(&[], true).is_err());
}

#[test]
fn answers_with_fake_addresses_are_refused() {
    let fake = [socket("198.18.0.7", 80)];
    assert!(has_fake_addresses(&fake.to_vec()));
    assert!(accept_system_answer(&fake, true, true, 0).is_err());
    let found = accept_system_answer(&fake, true, false, 0).ok().unwrap();
    assert_eq!(found.addresses, fake);
    assert!(accept_system_answer(&[socket("2001:db8::1", 80)], true, false, 0).is_err());
    assert_eq!(
        normalize_addresses(
            &[
                socket("10.0.0.2", 80),
                socket("10.0.0.2", 80),
                socket("2001:db8::1", 80)
            ],
            true
        ),
        [socket("10.0.0.2", 80)]
    );
}

#[test]
fn resolution_goes_the_way_that_is_asked_for() {
    assert_eq!(resolution_way(DnsMode::Iwan, false), ResolutionWay::Tunnel);
    assert_eq!(resolution_way(DnsMode::Auto, true), ResolutionWay::Tunnel);
    assert!(matches!(
        resolution_way(DnsMode::Auto, false),
        ResolutionWay::System { .. }
    ));
    assert!(matches!(
        resolution_way(DnsMode::System, true),
        ResolutionWay::System { .. }
    ));
    assert_eq!(
        resolve_fixed(&target("tcp://192.0.2.25:22"), true),
        Some(vec![socket("192.0.2.25", 22)])
    );
    assert_eq!(resolve_fixed(&target("tcp://db.test:22"), true), None);
    assert_eq!(
        fixed_upstream(&vec![ip("192.0.2.9")], None, 443, true),
        Some(vec![socket("192.0.2.9", 443)])
    );
    assert_eq!(
        sort_addresses(&[socket("10.0.0.2", 1), socket("10.0.0.1", 1)], true),
        [socket("10.0.0.1", 1), socket("10.0.0.2", 1)]
    );
    assert_eq!(
        effective_dns_servers(&[], &[ip("192.0.2.1")]),
        [socket("192.0.2.1", 53)]
    );
}

#[test]
fn resolvers_follow_the_policy() {
    let config = forward_resolvers(
        ResolveVia::Auto,
        &Vec::new(),
        &vec![ip("192.0.2.53")],
        Some(true),
        3_000,
    )
    .unwrap();
    assert_eq!(config.via, ResolveVia::Tunnel);
    assert_eq!(config.servers, [socket("192.0.2.53", 53)]);
    assert!(!config.include_session_servers);
    let config =
        forward_resolvers(ResolveVia::Auto, &Vec::new(), &Vec::new(), None, 3_000).unwrap();
    assert_eq!(config.via, ResolveVia::Auto);
    assert!(config.include_session_servers);
    let mut policy = EffectiveDnsPolicy::direct(&[]);
    policy.split_mode = SplitDnsMode::Managed;
    policy.inclusive = vec!["@corp.test".parse().ok().unwrap()];
    assert_eq!(
        tunnel_for_target(&policy, "tcp://db.corp.test:5432"),
        Some(true)
    );
    assert_eq!(
        tunnel_for_target(&policy, "tcp://public.test:5432"),
        Some(false)
    );
    assert_eq!(tunnel_for_target(&policy, "tcp://192.0.2.1:5432"), None);
    assert_eq!(tunnel_for_target(&policy, "not a url"), None);
}

#[test]
fn targets_are_tried_before_listening() {
    let found = check_preflight(
        ConnectKind::Target,
        "db.test",
        true,
        PreflightOutcome::Resolved(vec![socket("10.0.0.7", 80)]),
    )
    .unwrap();
    assert_eq!(found, socket("10.0.0.7", 80));
    let message = |kind, outcome| match check_preflight(kind, "db.test", true, outcome) {
        Err(Error::InvalidConfig(message)) => message,
        _ => panic!("the other end cannot be reached"),
    };
    assert_eq!(
        message(ConnectKind::Target, PreflightOutcome::TimedOut),
        "DNS resolution for target db.test timed out"
    );
    assert_eq!(
        message(ConnectKind::Upstream, PreflightOutcome::TimedOut),
        "DNS resolution for upstream db.test timed out"
    );
    assert_eq!(
        message(ConnectKind::Upstream, PreflightOutcome::Failed("refused".into())),
        "cannot resolve upstream db.test: refused"
    );
    assert_eq!(
        message(ConnectKind::Target, PreflightOutcome::Failed("refused".into())),
        "cannot resolve target db.test: refused"
    );
    assert_eq!(
        message(ConnectKind::Upstream, PreflightOutcome::Resolved(Vec::new())),
        "upstream db.test has no IPv4 address matching the iWAN session"
    );
    assert_eq!(
        message(ConnectKind::Target, PreflightOutcome::Resolved(Vec::new())),
        "target db.test has no IPv4 address matching the iWAN session"
    );
    assert_eq!(attempt_timeout(100, 100, 2), None);
    assert_eq!(
        attempt_timeout(100_000_000, 0, 2),
        Some(50_000_000)
    );
    assert_eq!(attempt_timeout(1_500_000, 0, 2), Some(1_000_000));
    assert_eq!(attempt_timeout(100, 0, 2), Some(100));
}

#[test]
fn userspace_networks_follow_the_session() {
    assert_eq!(userspace_prefix(ip("10.0.0.2"), None).unwrap(), 32);
    assert_eq!(
        userspace_prefix(ip("10.0.0.2"), Some(Ipv4Addr::new(255, 255, 0, 0))).unwrap(),
        16
    );
    assert_eq!(
        userspace_gateway(ip("10.0.0.2"), Some(ip("2001:db8::1"))),
        None
    );
    assert_eq!(
        userspace_gateway(ip("10.0.0.2"), Some(ip("10.0.0.1"))),
        Some(ip("10.0.0.1"))
    );
    assert_ne!(session_random_seed(1, 2, 3), session_random_seed(1, 2, 4));
    assert_eq!(clamp_dns_ttl(0), clamp_dns_ttl(1));
    assert!(clamp_dns_ttl(1_000_000) < 1_000_000);
    assert!(fit_packet(20, 20).is_ok());
    assert!(fit_packet(21, 20).is_err());
    assert!(matches!(
        Target::parse("nonsense"),
        Err(Error::InvalidConfig(_))
    ));
}

fn places(list: &[&str]) -> Vec<SocketAddr> {
    list.iter()
        .map(|text| SocketAddr {
            ip: parse_ip(text).unwrap(),
            port: 443,
        })
        .collect()
}

#[test]
fn targets_share_their_time_among_addresses() {
    let addresses = places(&["192.0.2.1", "192.0.2.2"]);
    let mut round =
        ConnectRound::start(ConnectKind::Target, addresses.clone(), 10_000_000_000).unwrap();
    let first = round.next_attempt(0).unwrap();
    assert_eq!(first.address, addresses[0]);
    assert_eq!(first.share, 5_000_000_000);
    assert!(round
        .record(first.address, AttemptFailure::TimedOut)
        .is_none());
    let second = round.next_attempt(5_000_000_000).unwrap();
    assert_eq!(second.address, addresses[1]);
    assert_eq!(second.share, 5_000_000_000);
    let refused = ConnectError {
        message: "refused".into(),
        timed_out: false,
    };
    assert!(round
        .record(second.address, AttemptFailure::Failed(refused))
        .is_none());
    let error = round.next_attempt(6_000_000_000).unwrap_err();
    assert_eq!(error.message, "refused");
    assert!(!error.timed_out);
}

#[test]
fn late_rounds_end_in_what_went_wrong_before() {
    let addresses = places(&["192.0.2.1", "192.0.2.2"]);
    let mut round = ConnectRound::start(ConnectKind::Target, addresses.clone(), 1_000).unwrap();
    let first = round.next_attempt(0).unwrap();
    assert_eq!(first.share, 1_000);
    round.record(first.address, AttemptFailure::TimedOut);
    let error = round.next_attempt(1_000).unwrap_err();
    assert_eq!(
        error.message,
        "connection setup for target address 192.0.2.1:443 timed out"
    );
    assert!(error.timed_out);
    let mut round = ConnectRound::start(ConnectKind::Target, addresses, 1_000).unwrap();
    assert_eq!(
        round.next_attempt(1_000).unwrap_err().message,
        "target connection timed out"
    );
}

#[test]
fn upstreams_have_one_time_for_all_addresses() {
    let addresses = places(&["192.0.2.1", "192.0.2.2"]);
    let mut round = ConnectRound::start(ConnectKind::Upstream, addresses, 1_000).unwrap();
    let first = round.next_attempt(100).unwrap();
    assert_eq!(first.share, 900);
    let over = round
        .record(first.address, AttemptFailure::TimedOut)
        .unwrap();
    assert_eq!(over.message, "upstream connection timed out");
    assert!(over.timed_out);
    let none = ConnectRound::start(ConnectKind::Upstream, Vec::new(), 1_000).unwrap_err();
    assert_eq!(
        none.message,
        "upstream DNS result does not match the iWAN address family"
    );
    assert_eq!(
        ConnectRound::start(ConnectKind::Target, Vec::new(), 1)
            .unwrap_err()
            .message,
        "target DNS result does not match the iWAN address family"
    );
    assert_eq!(
        resolution_timed_out(ConnectKind::Target).message,
        "target resolution timed out"
    );
}
