//! DNS packets, messages, relaying and the runtime around them.

use hickory_proto::op::{Edns, Message, MessageType, OpCode, Query, ResponseCode};
use hickory_proto::rr::rdata::{A, CNAME};
use hickory_proto::rr::{Name, RData, Record, RecordType};
use openiwan::dns::lease::{
    command_failed, resolved_resolvers, route_interface, route_interface_line, HostSystem,
    PlatformDnsLease,
};
use openiwan::dns::packet::{
    build_udp_response, checksum, udp_checksum, DnsPacketAction, DnsPacketEngine, DnsRelayRequest,
    Ipv4Packet, UdpPacket,
};
use openiwan::dns::platform::{
    parse_resolv_conf, select_physical_addresses, DnsPlatformTarget, PhysicalResolver,
};
use openiwan::dns::policy::{
    DnsDefaults, DnsOverrides, DnsServerMode, EffectiveDnsPolicy, SplitDnsMode,
};
use openiwan::dns::relay::{
    all_failed, receive_size, retry_over_tcp, tcp_frame, tcp_response_length, udp_outcome,
    AttemptOutcome, DnsRelay, RelayConfig, RelayError, RelayErrorKind, UdpOutcome,
};
use openiwan::dns::runtime::{
    answer_relay, DeviceRead, DeviceStep, DnsPacketDevice, DnsRuntime, RelayAdmission,
};
use openiwan::dns::transport::{
    default_port, judge_datagram, judge_stream, DatagramVerdict, Lookup, LookupError, LookupStep,
};
use openiwan::net::{parse_ip, IpAddr, Ipv4Addr, SocketAddr};
use openiwan::{EncryptionMethod, Error, PacketDevice, SessionInfo};
use std::collections::VecDeque;
use std::sync::{Arc, Mutex};

fn ip(text: &str) -> IpAddr {
    parse_ip(text).unwrap()
}

fn name(text: &str) -> Name {
    Name::from_ascii(text).unwrap()
}

fn question(id: u16, text: &str) -> Message {
    let mut message = Message::new(id, MessageType::Query, OpCode::Query);
    message.metadata.recursion_desired = true;
    message.add_query(Query::query(name(text), RecordType::A));
    message
}

fn query(record_type: RecordType, text: &str, transport: u8, port: u16) -> Vec<u8> {
    let mut dns = Message::new(7, MessageType::Query, OpCode::Query);
    dns.metadata.recursion_desired = true;
    dns.add_query(Query::query(name(text), record_type));
    let dns = dns.to_vec().unwrap();
    if transport == 17 {
        let mut packet = build_udp_response(
            Ipv4Addr::new(10, 0, 0, 2),
            Ipv4Addr::new(192, 0, 2, 53),
            55_000,
            port,
            1,
            &dns,
        )
        .unwrap();
        packet[10..12].fill(0);
        let checksum = checksum(&packet[..20]);
        packet[10..12].copy_from_slice(&checksum.to_be_bytes());
        packet
    } else {
        let mut packet = vec![0_u8; 40];
        packet[0] = 0x45;
        packet[2..4].copy_from_slice(&40_u16.to_be_bytes());
        packet[8] = 64;
        packet[9] = transport;
        packet[12..16].copy_from_slice(&[10, 0, 0, 2]);
        packet[16..20].copy_from_slice(&[192, 0, 2, 53]);
        packet[20..22].copy_from_slice(&55_000_u16.to_be_bytes());
        packet[22..24].copy_from_slice(&port.to_be_bytes());
        packet
    }
}

fn policy() -> EffectiveDnsPolicy {
    EffectiveDnsPolicy {
        server_mode: DnsServerMode::Server,
        servers: vec![Ipv4Addr::new(192, 0, 2, 53)],
        split_mode: SplitDnsMode::TunnelAll,
        inclusive: Vec::new(),
        exclusive: Vec::new(),
        block_encrypted_dns: true,
        doh_hosts: vec!["dns.example.test".into(), "use-application-dns.net".into()],
    }
}

fn engine() -> DnsPacketEngine {
    DnsPacketEngine::new(policy())
}

fn injected(action: DnsPacketAction) -> Vec<u8> {
    match action {
        DnsPacketAction::Inject(packet) => packet,
        other => panic!("expected injection: {other:?}"),
    }
}

fn dns_of(packet: &[u8]) -> Message {
    let ipv4 = Ipv4Packet::parse(packet).unwrap();
    let udp = UdpPacket::parse(ipv4.payload).unwrap();
    Message::from_vec(udp.payload).unwrap()
}

#[test]
fn synthesizes_empty_aaaa_and_doh_nxdomain() {
    let packet = injected(engine().process(&query(RecordType::AAAA, "example.test", 17, 53)));
    let response = dns_of(&packet);
    assert_eq!(response.metadata.response_code, ResponseCode::NoError);
    assert!(response.answers.is_empty());

    let packet = injected(engine().process(&query(RecordType::A, "dns.example.test", 17, 53)));
    assert_eq!(
        dns_of(&packet).metadata.response_code,
        ResponseCode::NXDomain
    );

    let packet = injected(engine().process(&query(RecordType::AAAA, "dns.example.test", 17, 53)));
    assert_eq!(
        dns_of(&packet).metadata.response_code,
        ResponseCode::NXDomain
    );
}

#[test]
fn drops_tcp_and_udp_853_but_passes_other_traffic() {
    assert!(matches!(
        engine().process(&query(RecordType::A, "example.test", 17, 853)),
        DnsPacketAction::Drop
    ));
    assert!(matches!(
        engine().process(&query(RecordType::A, "example.test", 6, 853)),
        DnsPacketAction::Drop
    ));
    assert!(matches!(
        engine().process(&[0, 1, 2]),
        DnsPacketAction::Pass
    ));
}

#[test]
fn encrypted_dns_blocking_works_without_dns_routing() {
    let mut policy = engine().policy().clone();
    policy.server_mode = DnsServerMode::Disabled;
    policy.servers.clear();
    policy.split_mode = SplitDnsMode::Off;
    let engine = DnsPacketEngine::new(policy);

    assert!(matches!(
        engine.process(&query(RecordType::A, "example.test", 17, 853)),
        DnsPacketAction::Drop
    ));
    assert!(matches!(
        engine.process(&query(RecordType::A, "example.test", 6, 853)),
        DnsPacketAction::Drop
    ));
    assert!(matches!(
        engine.process(&query(RecordType::AAAA, "example.test", 17, 53)),
        DnsPacketAction::Pass
    ));

    let packet = injected(engine.process(&query(RecordType::AAAA, "dns.example.test", 17, 53)));
    assert_eq!(
        dns_of(&packet).metadata.response_code,
        ResponseCode::NXDomain
    );
}

#[test]
fn relays_physical_and_passes_tunnel_queries() {
    let mut policy = engine().policy().clone();
    policy.split_mode = SplitDnsMode::Managed;
    policy.inclusive = vec!["@corp.test".parse().ok().unwrap()];
    let engine = DnsPacketEngine::new(policy);
    assert!(matches!(
        engine.process(&query(RecordType::A, "public.test", 17, 53)),
        DnsPacketAction::Relay(_)
    ));
    assert!(matches!(
        engine.process(&query(RecordType::A, "api.corp.test", 17, 53)),
        DnsPacketAction::Pass
    ));
}

#[test]
fn malformed_fragmented_and_multi_question_dns_fail_open() {
    let mut fragmented = query(RecordType::A, "dns.example.test", 17, 53);
    fragmented[6..8].copy_from_slice(&0x2000_u16.to_be_bytes());
    fragmented[10..12].fill(0);
    let header_checksum = checksum(&fragmented[..20]);
    fragmented[10..12].copy_from_slice(&header_checksum.to_be_bytes());
    assert!(matches!(
        engine().process(&fragmented),
        DnsPacketAction::Pass
    ));

    let mut malformed = query(RecordType::A, "dns.example.test", 17, 53);
    malformed[24..26].copy_from_slice(&u16::MAX.to_be_bytes());
    assert!(matches!(
        engine().process(&malformed),
        DnsPacketAction::Pass
    ));

    let mut message = Message::new(9, MessageType::Query, OpCode::Query);
    message
        .add_query(Query::query(name("dns.example.test"), RecordType::A))
        .add_query(Query::query(name("other.test"), RecordType::A));
    let multi = build_udp_response(
        Ipv4Addr::new(10, 0, 0, 2),
        Ipv4Addr::new(192, 0, 2, 53),
        55_000,
        53,
        2,
        &message.to_vec().unwrap(),
    )
    .unwrap();
    assert!(matches!(engine().process(&multi), DnsPacketAction::Pass));
}

#[test]
fn injected_response_has_valid_ipv4_and_udp_checksums() {
    let packet = injected(engine().process(&query(RecordType::AAAA, "example.test", 17, 53)));
    assert_eq!(checksum(&packet[..20]), 0xffff);
    let ipv4 = Ipv4Packet::parse(&packet).unwrap();
    assert_eq!(
        udp_checksum(ipv4.source, ipv4.destination, ipv4.payload),
        0xffff
    );
}

#[test]
fn injected_responses_go_back_where_the_question_came_from() {
    let packet = injected(engine().process(&query(RecordType::AAAA, "example.test", 17, 53)));
    let ipv4 = Ipv4Packet::parse(&packet).unwrap();
    assert_eq!(ipv4.source, Ipv4Addr::new(192, 0, 2, 53));
    assert_eq!(ipv4.destination, Ipv4Addr::new(10, 0, 0, 2));
    let udp = UdpPacket::parse(ipv4.payload).unwrap();
    assert_eq!((udp.source_port, udp.destination_port), (53, 55_000));
    let message = dns_of(&packet);
    assert_eq!(message.metadata.id, 7);
    assert_eq!(message.metadata.message_type, MessageType::Response);
    assert!(message.metadata.recursion_desired);
    assert_eq!(message.queries.len(), 1);
}

#[test]
fn responses_larger_than_a_packet_are_not_built() {
    let build = |length: usize| {
        build_udp_response(
            Ipv4Addr::new(10, 0, 0, 1),
            Ipv4Addr::new(10, 0, 0, 2),
            53,
            1,
            0,
            &vec![0_u8; length],
        )
    };
    assert!(build(65_507).is_some());
    assert!(build(65_508).is_none());
}

fn relayed() -> DnsRelayRequest {
    let mut policy = policy();
    policy.split_mode = SplitDnsMode::Managed;
    policy.inclusive = vec!["@corp.test".parse().ok().unwrap()];
    match DnsPacketEngine::new(policy).process(&query(RecordType::A, "public.test", 17, 53)) {
        DnsPacketAction::Relay(request) => request,
        other => panic!("expected a relayed question: {other:?}"),
    }
}

fn answer_to(request: &[u8]) -> Message {
    let mut message = Message::from_vec(request).unwrap();
    message.metadata.message_type = MessageType::Response;
    message
}

fn resolvers() -> Vec<PhysicalResolver> {
    vec![
        PhysicalResolver::new(ip("203.0.113.1")),
        PhysicalResolver::new(ip("203.0.113.2")),
    ]
}

#[test]
fn rejects_mismatched_transaction_or_question() {
    let mut relay = DnsRelay::new(RelayConfig::default(), resolvers(), 1);
    let generation = relay.generation();
    let request = question(0x1234, "example.test").to_vec().unwrap();
    let mut job = relay.begin(&request, generation).unwrap();
    let attempt = relay.next_attempt(&mut job).unwrap().unwrap();
    let mut response = answer_to(&attempt.request);
    response.metadata.id = attempt.relay_id + 1;
    assert!(matches!(
        relay.accept(&job, &response.to_vec().unwrap()),
        Ok(AttemptOutcome::Failed(_))
    ));
    let mut other = question(attempt.relay_id, "other.test");
    other.metadata.message_type = MessageType::Response;
    assert!(matches!(
        relay.accept(&job, &other.to_vec().unwrap()),
        Ok(AttemptOutcome::Failed(_))
    ));
    response.metadata.id = attempt.relay_id;
    assert!(matches!(
        relay.accept(&job, &response.to_vec().unwrap()),
        Ok(AttemptOutcome::Answered(_))
    ));
}

#[test]
fn generation_invalidates_in_flight_work() {
    let mut relay = DnsRelay::new(RelayConfig::default(), Vec::new(), 1);
    let generation = relay.generation();
    assert!(relay.update_resolvers(Vec::new()) > generation);
    assert_eq!(
        relay
            .begin(&question(7, "example.test").to_vec().unwrap(), generation)
            .unwrap_err()
            .kind,
        RelayErrorKind::Interrupted
    );
}

#[test]
fn concurrency_limit_fails_fast() {
    let mut relay = DnsRelay::new(
        RelayConfig {
            max_concurrent: 1,
            ..RelayConfig::default()
        },
        Vec::new(),
        1,
    );
    relay.acquire().unwrap();
    assert_eq!(relay.acquire().unwrap_err().kind, RelayErrorKind::WouldBlock);
    relay.release();
    relay.acquire().unwrap();
}

#[test]
fn relayed_answers_carry_the_original_identifier() {
    let mut relay = DnsRelay::new(RelayConfig::default(), resolvers(), 0xffff);
    let generation = relay.generation();
    let request = question(0x1234, "example.test").to_vec().unwrap();
    let mut job = relay.begin(&request, generation).unwrap();
    let first = relay.next_attempt(&mut job).unwrap().unwrap();
    assert_eq!(first.relay_id, 0xffff);
    assert_eq!(first.resolver.address.ip, ip("203.0.113.1"));
    assert_eq!(
        Message::from_vec(&first.request).unwrap().metadata.id,
        0xffff
    );
    let second = relay.next_attempt(&mut job).unwrap().unwrap();
    assert_eq!(second.relay_id, 0);
    assert_eq!(second.resolver.address.ip, ip("203.0.113.2"));
    let response = answer_to(&second.request).to_vec().unwrap();
    match relay.accept(&job, &response) {
        Ok(AttemptOutcome::Answered(bytes)) => {
            assert_eq!(Message::from_vec(&bytes).unwrap().metadata.id, 0x1234);
        }
        other => panic!("unexpected outcome: {other:?}"),
    }
    assert!(relay.next_attempt(&mut job).unwrap().is_none());
    let _ = relay.reset_generation();
    assert_eq!(
        relay.accept(&job, &response).unwrap_err().kind,
        RelayErrorKind::Interrupted
    );
}

#[test]
fn relaying_needs_one_question_and_a_resolver() {
    let mut relay = DnsRelay::new(RelayConfig::default(), Vec::new(), 1);
    let generation = relay.generation();
    assert_eq!(
        relay.begin(&[1, 2, 3], generation).unwrap_err().kind,
        RelayErrorKind::InvalidInput
    );
    let response = answer_to(&question(1, "example.test").to_vec().unwrap());
    assert_eq!(
        relay
            .begin(&response.to_vec().unwrap(), generation)
            .unwrap_err()
            .kind,
        RelayErrorKind::InvalidInput
    );
    assert_eq!(
        relay
            .begin(&question(1, "example.test").to_vec().unwrap(), generation)
            .unwrap_err()
            .kind,
        RelayErrorKind::NotFound
    );
    assert!(!relay.has_resolvers());
}

#[test]
fn truncated_or_late_answers_are_asked_again_over_tcp() {
    assert!(retry_over_tcp(UdpOutcome::Response { truncated: true }));
    assert!(!retry_over_tcp(UdpOutcome::Response { truncated: false }));
    assert!(retry_over_tcp(UdpOutcome::Failed(RelayErrorKind::TimedOut)));
    assert!(!retry_over_tcp(UdpOutcome::Failed(RelayErrorKind::Other)));
    assert_eq!(tcp_frame(&[1, 2, 3]).unwrap(), [0, 3, 1, 2, 3]);
    assert!(tcp_frame(&vec![0; 65_536]).is_err());
    assert_eq!(tcp_response_length(1, 2).unwrap(), 258);
    assert!(tcp_response_length(0, 0).is_err());
    let last = RelayError {
        kind: RelayErrorKind::TimedOut,
        message: "late".into(),
    };
    assert_eq!(all_failed(Some(last)).kind, RelayErrorKind::TimedOut);
    assert_eq!(default_port(), 53);
}

#[test]
fn the_room_for_an_answer_is_what_the_question_offers() {
    let mut asked = question(1, "example.test");
    assert_eq!(receive_size(&asked.to_vec().unwrap()), 512);
    let mut edns = Edns::new();
    edns.set_max_payload(1_232);
    asked.edns = Some(edns);
    assert_eq!(receive_size(&asked.to_vec().unwrap()), 1_232);
    let mut edns = Edns::new();
    edns.set_max_payload(65_535);
    asked.edns = Some(edns);
    assert_eq!(receive_size(&asked.to_vec().unwrap()), 65_507);
    let mut edns = Edns::new();
    edns.set_max_payload(100);
    asked.edns = Some(edns);
    assert_eq!(receive_size(&asked.to_vec().unwrap()), 512);
    assert_eq!(receive_size(&[1, 2, 3]), 512);
}

#[test]
fn datagrams_are_judged_by_sender_identifier_and_truncation() {
    let mut message = Message::new(7, MessageType::Response, OpCode::Query);
    let whole = message.to_vec().unwrap();
    message.metadata.truncation = true;
    let cut = message.to_vec().unwrap();
    assert!(matches!(
        udp_outcome(&whole),
        UdpOutcome::Response { truncated: false }
    ));
    assert!(matches!(
        udp_outcome(&cut),
        UdpOutcome::Response { truncated: true }
    ));
    assert!(matches!(
        udp_outcome(&[0; 5]),
        UdpOutcome::Failed(RelayErrorKind::InvalidData)
    ));
    assert_eq!(judge_datagram(&whole, 7, true), Ok(DatagramVerdict::Answer));
    assert_eq!(judge_datagram(&cut, 7, true), Ok(DatagramVerdict::Truncated));
    assert_eq!(judge_datagram(&whole, 8, true), Ok(DatagramVerdict::Ignore));
    assert_eq!(judge_datagram(&[0; 5], 7, false), Ok(DatagramVerdict::Ignore));
    assert_eq!(
        judge_datagram(&[0; 5], 7, true),
        Err(LookupError::MalformedResponse)
    );
    assert_eq!(judge_stream(&cut, 7), Ok(()));
    assert_eq!(judge_stream(&[], 7), Err(LookupError::EmptyStreamResponse));
    assert_eq!(
        judge_stream(&whole, 8),
        Err(LookupError::TransactionMismatch)
    );
    assert_eq!(
        judge_stream(&[0; 5], 7),
        Err(LookupError::MalformedResponse)
    );
}

fn answer(text: &str, ttl: u32, address: [u8; 4]) -> Record {
    Record::from_rdata(
        name(text),
        ttl,
        RData::A(A(std::convert::From::from(address))),
    )
}

fn looked_up(id: u16, host: &str, response: &Message) -> Result<LookupStep, LookupError> {
    let mut lookup = Lookup::start(host, true).unwrap();
    lookup.next_query(id).unwrap();
    lookup.absorb(&response.to_vec().unwrap(), id)
}

#[test]
fn parses_valid_address_response_and_ttl() {
    let mut response = Message::new(42, MessageType::Response, OpCode::Query);
    response
        .add_query(Query::query(name("api.example.test."), RecordType::A))
        .add_answer(answer("api.example.test.", 120, [192, 0, 2, 10]))
        .add_answer(answer("api.example.test.", 90, [192, 0, 2, 5]))
        .add_answer(answer("api.example.test.", 60, [192, 0, 2, 10]));
    match looked_up(42, "api.example.test", &response) {
        Ok(LookupStep::Done(found)) => {
            assert_eq!(found.addresses, [ip("192.0.2.10"), ip("192.0.2.5")]);
            assert_eq!(found.ttl_secs, 60);
        }
        other => panic!("unexpected step: {other:?}"),
    }
}

#[test]
fn validates_transaction_and_follows_matching_cname() {
    let mut response = Message::new(7, MessageType::Response, OpCode::Query);
    response
        .add_query(Query::query(name("api.example.test."), RecordType::A))
        .add_answer(Record::from_rdata(
            name("api.example.test."),
            30,
            RData::CNAME(CNAME(name("internal.example.test."))),
        ))
        .add_answer(answer("unrelated.example.test.", 30, [192, 0, 2, 99]));
    let mut lookup = Lookup::start("api.example.test", true).unwrap();
    lookup.next_query(7).unwrap();
    assert!(matches!(
        lookup.absorb(&response.to_vec().unwrap(), 7),
        Ok(LookupStep::AskAgain)
    ));
    let second = Message::from_vec(&lookup.next_query(8).unwrap()).unwrap();
    assert_eq!(second.queries[0].name.to_utf8(), "internal.example.test.");
    assert!(matches!(
        looked_up(8, "api.example.test", &response),
        Err(LookupError::HeaderMismatch)
    ));
    let empty = Message::new(7, MessageType::Response, OpCode::Query);
    assert!(looked_up(7, "api.example.test", &empty).is_err());
}

#[test]
fn failed_lookups_say_why() {
    let mut response = Message::new(7, MessageType::Response, OpCode::Query);
    response.add_query(Query::query(name("api.example.test."), RecordType::A));
    response.metadata.response_code = ResponseCode::NXDomain;
    assert!(matches!(
        looked_up(7, "api.example.test", &response),
        Err(LookupError::NoSuchName)
    ));
    response.metadata.response_code = ResponseCode::ServFail;
    assert!(matches!(
        looked_up(7, "api.example.test", &response),
        Err(LookupError::ServerReturned(2))
    ));
    response.metadata.response_code = ResponseCode::NoError;
    assert!(matches!(
        looked_up(7, "api.example.test", &response),
        Err(LookupError::NoRecords)
    ));
    let mut lookup = Lookup::start("api.example.test", true).unwrap();
    lookup.next_query(7).unwrap();
    assert!(matches!(
        lookup.absorb(&[0; 3], 7),
        Err(LookupError::MalformedResponse)
    ));
    assert!(Lookup::start("..", true).is_err());
}

#[test]
fn validates_platform_target_names() {
    assert!(DnsPlatformTarget::new("utun42").validate().is_ok());
    assert!(DnsPlatformTarget::new("Ethernet_2").validate().is_ok());
    assert!(DnsPlatformTarget::new("").validate().is_err());
    assert!(DnsPlatformTarget::new("utun0\nremove State:/Network")
        .validate()
        .is_err());
}

#[test]
fn parses_nameservers_without_search_or_comments() {
    assert_eq!(
        parse_resolv_conf("search example.test\nnameserver 192.0.2.53 # primary\nnameserver ::1\n"),
        [IpAddr::V4(Ipv4Addr::new(192, 0, 2, 53)), ip("::1")]
    );
}

#[test]
fn physical_resolvers_are_distinct_unicast_addresses() {
    let mut found = vec![
        ip("0.0.0.0"),
        ip("127.0.0.53"),
        ip("224.0.0.1"),
        ip("::1"),
        ip("192.0.2.1"),
        ip("192.0.2.1"),
    ];
    assert_eq!(select_physical_addresses(&found), [ip("192.0.2.1")]);
    for last in 2..20 {
        found.push(IpAddr::V4(Ipv4Addr::new(192, 0, 2, last)));
    }
    assert_eq!(select_physical_addresses(&found).len(), 8);
}

#[test]
fn host_commands_show_resolvers_and_interfaces() {
    assert_eq!(
        resolved_resolvers("Global: 192.0.2.1\nLink 2 (eth0): 192.0.2.2 2001:db8::1:\n"),
        [ip("192.0.2.1"), ip("192.0.2.2"), ip("2001:db8::1")]
    );
    assert_eq!(
        route_interface("192.0.2.1 via 10.0.0.1 dev eth0 src 10.0.0.2"),
        Some("eth0".to_string())
    );
    assert_eq!(route_interface("unreachable dev"), None);
    assert_eq!(
        route_interface_line("   route to: 192.0.2.1\n  interface: en0 \n"),
        Some("en0".to_string())
    );
    assert_eq!(route_interface_line("no route"), None);
    match command_failed("resolvectl", " denied\n") {
        Error::CommandFailed { program, message } => {
            assert_eq!((program.as_str(), message.as_str()), ("resolvectl", "denied"));
        }
        other => panic!("unexpected error: {other:?}"),
    }
}

#[test]
fn leases_name_the_commands_that_make_and_undo_them() {
    let target = DnsPlatformTarget::new("tun0");
    let servers = [Ipv4Addr::new(192, 0, 2, 1), Ipv4Addr::new(192, 0, 2, 2)];
    let linux = |resolvectl, resolvconf| HostSystem::Linux {
        resolvectl,
        resolvconf,
    };
    let plan = PlatformDnsLease::apply(&target, &servers, linux(true, true)).unwrap();
    let shown: Vec<String> = plan
        .commands
        .iter()
        .map(|command| format!("{} {}", command.program, command.arguments.join(" ")))
        .collect();
    assert_eq!(
        shown,
        [
            "resolvectl dns tun0 192.0.2.1 192.0.2.2",
            "resolvectl domain tun0 ~.",
            "resolvectl default-route tun0 yes"
        ]
    );
    let undo = plan.lease.restore().unwrap();
    assert_eq!(undo.arguments, ["revert", "tun0"]);
    assert!(!plan.lease.restores_after(0, true));
    assert!(plan.lease.restores_after(1, true));

    let plan = PlatformDnsLease::apply(&target, &servers, linux(false, true)).unwrap();
    assert_eq!(
        plan.commands[0].input.as_deref(),
        Some("nameserver 192.0.2.1\nnameserver 192.0.2.2\n")
    );
    assert_eq!(plan.lease.restore().unwrap().arguments, ["-d", "tun0"]);

    let plan = PlatformDnsLease::apply(&target, &servers, HostSystem::MacOs).unwrap();
    assert_eq!(
        plan.commands[0].input.as_deref(),
        Some(
            "d.init\nd.add ServerAddresses * 192.0.2.1 192.0.2.2\n\
             d.add SupplementalMatchDomains * \"\"\n\
             set State:/Network/Service/openiwan-tun0/DNS\n"
        )
    );
    assert_eq!(
        plan.lease.restore().unwrap().input.as_deref(),
        Some("remove State:/Network/Service/openiwan-tun0/DNS\n")
    );

    let windows = DnsPlatformTarget::with_platform_id("tun0", 9);
    let plan = PlatformDnsLease::apply(&windows, &servers, HostSystem::Windows).unwrap();
    assert_eq!(plan.name_servers.as_deref(), Some("192.0.2.1,192.0.2.2"));
    assert!(matches!(
        PlatformDnsLease::apply(&target, &servers, HostSystem::Windows),
        Err(Error::Tun(_))
    ));
    assert!(matches!(
        PlatformDnsLease::apply(&target, &servers, linux(false, false)),
        Err(Error::CommandFailed { .. })
    ));
    assert!(matches!(
        PlatformDnsLease::apply(&target, &servers, HostSystem::Other),
        Err(Error::Tun(_))
    ));
    let plan = PlatformDnsLease::apply(&target, &[], HostSystem::Other).unwrap();
    assert!(plan.commands.is_empty());
    assert!(plan.lease.restore().is_none());
}

struct NullDevice {
    reads: Mutex<VecDeque<Vec<u8>>>,
    writes: Mutex<Vec<Vec<u8>>>,
}

impl PacketDevice for NullDevice {
    fn name(&self) -> &str {
        "null0"
    }

    fn read_packet(&self, buffer: &mut [u8]) -> Result<usize, Error> {
        match self.reads.lock().unwrap().pop_front() {
            Some(packet) => {
                buffer[..packet.len()].copy_from_slice(&packet);
                Ok(packet.len())
            }
            None => Err(Error::Io("empty".into())),
        }
    }

    fn write_packet(&self, packet: &[u8]) -> Result<usize, Error> {
        self.writes.lock().unwrap().push(packet.to_vec());
        Ok(packet.len())
    }
}

fn null_device() -> Arc<NullDevice> {
    Arc::new(NullDevice {
        reads: Mutex::new(VecDeque::new()),
        writes: Mutex::new(Vec::new()),
    })
}

fn runtime(physical: Vec<PhysicalResolver>) -> DnsRuntime {
    DnsRuntime::new(
        DnsPlatformTarget::new("test0"),
        DnsDefaults::default(),
        DnsOverrides::default(),
        physical,
        RelayConfig {
            max_concurrent: 1,
            ..RelayConfig::default()
        },
        1,
    )
    .ok()
    .unwrap()
}

fn session(dns: Ipv4Addr) -> SessionInfo {
    SessionInfo {
        peer: SocketAddr {
            ip: ip("192.0.2.1"),
            port: 6001,
        },
        session_id: 1,
        token: 2,
        encryption: EncryptionMethod::Xor,
        mtu: 1400,
        address: Some(ip("10.0.0.2")),
        gateway: None,
        dns_servers: vec![IpAddr::V4(dns)],
        segment_routing: false,
    }
}

#[test]
fn session_activation_recomputes_openack_dns() {
    let mut runtime = runtime(Vec::new());
    runtime
        .update_inputs(
            DnsDefaults::default(),
            DnsOverrides {
                server_mode: Some(DnsServerMode::Disabled),
                split_mode: Some(SplitDnsMode::Off),
                ..DnsOverrides::default()
            },
        )
        .unwrap();
    let info = session(Ipv4Addr::new(192, 0, 2, 53));
    runtime
        .activate(&info.dns_servers, None, Ok(()), false)
        .unwrap();
    assert_eq!(runtime.policy().server_mode, DnsServerMode::Disabled);
    runtime.deactivate();
}

#[test]
fn wrapper_delegates_identity_and_writes() {
    let device = DnsPacketDevice::new(null_device(), runtime(Vec::new()));
    assert_eq!(device.name(), "null0");
    assert_eq!(device.write_packet(&[1, 2, 3]).unwrap(), 3);
}

#[test]
fn runtimes_apply_policies_whole_or_not_at_all() {
    let mut runtime = runtime(resolvers());
    let info = session(Ipv4Addr::new(203, 0, 113, 1));
    let policy = runtime.session_policy(&info.dns_servers).ok().unwrap();
    assert_eq!(policy.servers, [Ipv4Addr::new(203, 0, 113, 1)]);
    assert!(matches!(
        runtime.activate(
            &info.dns_servers,
            None,
            Err(Error::Tun("no backend".into())),
            true
        ),
        Err(Error::Tun(_))
    ));
    assert!(runtime.policy().servers.is_empty());
    let before = runtime.relay().generation();
    runtime
        .activate(&info.dns_servers, None, Ok(()), false)
        .unwrap();
    assert_eq!(runtime.policy().servers, [Ipv4Addr::new(203, 0, 113, 1)]);
    assert!(runtime.relay().generation() > before);
    runtime
        .update_policy(
            DnsDefaults::default(),
            DnsOverrides {
                server_mode: Some(DnsServerMode::Custom),
                servers: Some(vec![Ipv4Addr::new(192, 0, 2, 7)]),
                ..DnsOverrides::default()
            },
            &info.dns_servers,
            Ok(()),
            false,
        )
        .unwrap();
    assert_eq!(runtime.policy().servers, [Ipv4Addr::new(192, 0, 2, 7)]);
}

#[test]
fn devices_answer_relay_and_deliver() {
    let inner = null_device();
    inner.reads.lock().unwrap().extend([
        query(RecordType::A, "example.test", 17, 853),
        query(RecordType::AAAA, "dns.example.test", 17, 53),
        query(RecordType::A, "public.test", 17, 53),
        query(RecordType::A, "api.corp.test", 17, 53),
    ]);
    let mut policy = policy();
    policy.split_mode = SplitDnsMode::Managed;
    policy.inclusive = vec!["@corp.test".parse().ok().unwrap()];
    let mut device = DnsPacketDevice::new(Arc::clone(&inner), runtime(resolvers()));
    let passed = query(RecordType::A, "example.test", 17, 853);
    assert!(matches!(
        device.runtime().read_step(&passed),
        DeviceStep::Deliver
    ));
    device
        .runtime()
        .activate_policy(policy, Ok(()), false)
        .unwrap();
    let mut buffer = [0_u8; 512];
    let request = match device.read_packet(&mut buffer).unwrap() {
        DeviceRead::Relay(request) => request,
        DeviceRead::Packet(_) => panic!("expected a question to relay"),
    };
    assert_eq!(inner.writes.lock().unwrap().len(), 1);
    assert!(matches!(
        device.runtime().admit_relay(&request),
        RelayAdmission::Started { .. }
    ));
    match device.runtime().admit_relay(&request) {
        RelayAdmission::Refused(Some(packet)) => assert_eq!(
            dns_of(&packet).metadata.response_code,
            ResponseCode::ServFail
        ),
        _ => panic!("the limit is one worker"),
    }
    device.runtime().release_worker();
    match device.read_packet(&mut buffer).unwrap() {
        DeviceRead::Packet(length) => {
            assert_eq!(&buffer[..length], query(RecordType::A, "api.corp.test", 17, 53));
        }
        DeviceRead::Relay(_) => panic!("expected a packet for the tunnel"),
    }
    let info = session(Ipv4Addr::new(192, 0, 2, 53));
    device.activate_session(&info, None, Ok(()), false).unwrap();
    device.deactivate_session().unwrap();
    assert!(matches!(
        device.runtime().read_step(&passed),
        DeviceStep::Deliver
    ));
}

#[test]
fn packets_are_taken_one_by_one() {
    let inner = null_device();
    let mut policy = policy();
    policy.split_mode = SplitDnsMode::Managed;
    policy.inclusive = vec!["@corp.test".parse().ok().unwrap()];
    let mut device = DnsPacketDevice::new(Arc::clone(&inner), runtime(resolvers()));
    device
        .runtime()
        .activate_policy(policy, Ok(()), false)
        .unwrap();
    let dropped = query(RecordType::A, "example.test", 17, 853);
    assert!(matches!(device.take_packet(&dropped), Ok(None)));
    assert!(inner.writes.lock().unwrap().is_empty());
    let answered = query(RecordType::AAAA, "dns.example.test", 17, 53);
    assert!(matches!(device.take_packet(&answered), Ok(None)));
    assert_eq!(inner.writes.lock().unwrap().len(), 1);
    assert!(matches!(
        device.take_packet(&query(RecordType::A, "public.test", 17, 53)),
        Ok(Some(DeviceRead::Relay(_)))
    ));
    let passed = query(RecordType::A, "api.corp.test", 17, 53);
    match device.take_packet(&passed) {
        Ok(Some(DeviceRead::Packet(length))) => assert_eq!(length, passed.len()),
        _ => panic!("expected a packet for the tunnel"),
    }
}

struct StrangeDevice {
    packet: Vec<u8>,
}

impl PacketDevice for StrangeDevice {
    fn name(&self) -> &str {
        "strange0"
    }

    fn read_packet(&self, buffer: &mut [u8]) -> Result<usize, Error> {
        let length = buffer.len().min(self.packet.len());
        buffer[..length].copy_from_slice(&self.packet[..length]);
        Ok(self.packet.len())
    }

    fn write_packet(&self, packet: &[u8]) -> Result<usize, Error> {
        Ok(packet.len() - 1)
    }

    fn deactivate_session(&self) -> Result<(), Error> {
        Err(Error::Io("busy".into()))
    }
}

#[test]
fn devices_that_break_their_promises_are_noticed() {
    let strange = Arc::new(StrangeDevice {
        packet: query(RecordType::AAAA, "dns.example.test", 17, 53),
    });
    let mut device = DnsPacketDevice::new(Arc::clone(&strange), runtime(resolvers()));
    let mut small = [0_u8; 8];
    match device.read_packet(&mut small) {
        Err(Error::Io(text)) => assert_eq!(text, "packet device filled more than the buffer"),
        _ => panic!("expected the error on a full buffer"),
    }
    device
        .runtime()
        .activate_policy(policy(), Ok(()), false)
        .unwrap();
    let mut buffer = [0_u8; 512];
    match device.read_packet(&mut buffer) {
        Err(Error::Io(text)) => {
            assert!(text.starts_with("packet device accepted "));
            assert!(text.ends_with(" DNS response bytes"));
        }
        _ => panic!("expected the error on a short write"),
    }
    let info = session(Ipv4Addr::new(192, 0, 2, 53));
    assert!(matches!(
        device.activate_session(&info, None, Err(Error::Tun("no backend".into())), false),
        Err(Error::Tun(_))
    ));
    assert!(matches!(device.deactivate_session(), Err(Error::Io(_))));
}

#[test]
fn workers_outlast_the_end_of_a_session() {
    let mut runtime = runtime(resolvers());
    let request = relayed();
    assert!(!runtime.has_workers());
    assert!(matches!(
        runtime.admit_relay(&request),
        RelayAdmission::Started { .. }
    ));
    runtime.deactivate();
    assert!(runtime.has_workers());
    runtime.release_worker();
    assert!(!runtime.has_workers());
}

#[test]
fn malformed_questions_are_refused_in_the_words_of_the_decoder() {
    let reason = Message::from_vec(&[0; 5]).unwrap_err().to_string();
    let mut relay = DnsRelay::new(RelayConfig::default(), resolvers(), 1);
    let generation = relay.generation();
    let error = relay.begin(&[0; 5], generation).unwrap_err();
    assert_eq!(error.kind, RelayErrorKind::InvalidInput);
    assert_eq!(error.message, reason);
    let request = question(1, "example.test").to_vec().unwrap();
    let job = relay.begin(&request, generation).unwrap();
    match relay.accept(&job, &[0; 5]).unwrap() {
        AttemptOutcome::Failed(error) => {
            assert_eq!(error.kind, RelayErrorKind::InvalidData);
            assert_eq!(error.message, reason);
        }
        AttemptOutcome::Answered(_) => panic!("expected a failure"),
    }
}

#[test]
fn relayed_questions_are_answered_in_packets() {
    let request = relayed();
    let response = answer_to(request.dns_request()).to_vec().unwrap();
    let packet = answer_relay(&request, Ok(response)).unwrap();
    assert_eq!(dns_of(&packet).metadata.id, 7);
    let failure = |kind| RelayError {
        kind,
        message: "failed".into(),
    };
    assert!(answer_relay(&request, Err(failure(RelayErrorKind::Interrupted))).is_none());
    let packet = answer_relay(&request, Err(failure(RelayErrorKind::TimedOut))).unwrap();
    assert_eq!(
        dns_of(&packet).metadata.response_code,
        ResponseCode::ServFail
    );
}

#[test]
fn a_runtime_keeps_the_interface_that_it_was_made_for() {
    let made = DnsRuntime::new(
        DnsPlatformTarget::with_platform_id("Ethernet_2", 7),
        DnsDefaults::default(),
        DnsOverrides::default(),
        Vec::new(),
        RelayConfig::default(),
        1,
    )
    .ok()
    .unwrap();
    assert_eq!(made.target().interface_name, "Ethernet_2");
    assert_eq!(made.target().platform_id, Some(7));
    assert_eq!(runtime(Vec::new()).target().platform_id, None);
}
