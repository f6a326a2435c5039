//! Opening, holding and replacing sessions.

use openiwan::client::{
    ensure_same_tun_assignment, monotonic_micros, next_nap, parse_open_ack, parse_rejection,
    random_nonzero_u32, rejection_code, require_encryption, encode_traditional_data,
    check_ping_response, AttemptEnd, HeartbeatTracker, ReconnectAction, WorkerFailure,
    AUTH_ATTEMPT_TIMEOUT_NS, AUTH_OVERALL_TIMEOUT_NS, HEARTBEAT_TIMEOUT_NS,
};
use openiwan::crypto::NoCipher;
use openiwan::fragment::Fragment;
use openiwan::net::{parse_ip, IpAddr, Ipv4Addr, SocketAddr};
use openiwan::protocol::{DecodedPacket, EchoBody, EchoDelayStats};
use openiwan::session::{
    after_delivery, monitor_lost, ConnectedSession, Datagram, DeviceInput, Heartbeat,
    HeartbeatStep, OpenAttempt, OpenProgress, OpenReply, ReceiveStep, Receiver, SendStep,
    SrDecoded,
};
use openiwan::{
    Client, ClientConfig, EncryptionMethod, Error, PacketHeader, PacketType, SegmentRoutingConfig,
    SessionEnd, SessionInfo, SrEncryptionAlgorithm, Tlv, TlvType,
};

fn ip(text: &str) -> IpAddr {
    parse_ip(text).unwrap()
}

fn local() -> SocketAddr {
    SocketAddr {
        ip: ip("127.0.0.1"),
        port: 6001,
    }
}

fn tlv(kind: TlvType, value: &[u8]) -> Tlv {
    Tlv {
        kind,
        value: value.to_vec(),
        integer: match value.len() {
            1 => Some(u64::from(value[0])),
            2 => Some(u64::from(u16::from_be_bytes([value[0], value[1]]))),
            4 => Some(u64::from(u32::from_be_bytes([
                value[0], value[1], value[2], value[3],
            ]))),
            _ => None,
        },
        first_u32: if value.len() >= 4 {
            Some(u32::from_be_bytes([value[0], value[1], value[2], value[3]]))
        } else {
            None
        },
        first_ipv4: if value.len() >= 4 {
            Some(Ipv4Addr::new(value[0], value[1], value[2], value[3]))
        } else {
            None
        },
    }
}

fn encode(body: &mut Vec<u8>, kind: u8, value: &[u8]) {
    body.push(kind);
    body.push(value.len() as u8 + 2);
    body.extend_from_slice(value);
}

fn structured_body() -> (Vec<u8>, Vec<Option<Vec<Tlv>>>) {
    let mut body = b"prefix".to_vec();
    let start = body.len();
    encode(&mut body, 1, b"alice");
    encode(&mut body, 2, &7_u32.to_be_bytes());
    encode(&mut body, 3, b"POOL FULL");
    let mut parsed: Vec<Option<Vec<Tlv>>> = Vec::new();
    for offset in 0..body.len() {
        parsed.push(if offset == start {
            Some(vec![
                tlv(TlvType::Username, b"alice"),
                tlv(TlvType::AuthVerify, &7_u32.to_be_bytes()),
                tlv(TlvType::ErrorMessage, b"POOL FULL"),
            ])
        } else {
            None
        });
    }
    (body, parsed)
}

fn nothing_parsed(body: &[u8]) -> Vec<Option<Vec<Tlv>>> {
    body.iter().map(|_| None).collect()
}

/// What looking a server up gives where it has an address.
fn found() -> Result<Vec<SocketAddr>, Error> {
    Ok(vec![local()])
}

fn client(config: ClientConfig) -> Client {
    Client::new(config, "alice", "secret", Ok(()), found()).ok().unwrap()
}

fn routing() -> SegmentRoutingConfig {
    SegmentRoutingConfig {
        id: 7,
        keepalive: true,
        encrypt_algo: SrEncryptionAlgorithm::Aes128,
        encrypt_key: "0123456789abcdef".into(),
        links: vec![1, 2],
        local_sr_id: None,
    }
}

fn header(packet_type: PacketType, encryption: EncryptionMethod) -> PacketHeader {
    PacketHeader::new(packet_type, encryption, 0x1234, 0x5060_7080)
}

fn acknowledgement(attributes: Vec<Tlv>) -> OpenReply {
    OpenReply::Packet {
        packet: DecodedPacket {
            header: header(PacketType::OpenAck, EncryptionMethod::Xor),
            body: Vec::new(),
        },
        attributes: Ok(attributes),
        tails: Vec::new(),
    }
}

fn opened(client: &Client) -> ConnectedSession {
    let attempt = client.authenticate().ok().unwrap();
    let reply = acknowledgement(vec![
        tlv(TlvType::AuthVerify, &attempt.request.nonce.to_be_bytes()),
        tlv(TlvType::Ip, &[10, 0, 0, 2]),
    ]);
    match client.open_reply(&attempt, reply, local(), 0, Ok(())) {
        Ok(OpenProgress::Opened(session)) => session,
        _ => panic!("the session should open"),
    }
}

fn ipv4_packet(length: u8) -> Vec<u8> {
    let mut packet = vec![0_u8; usize::from(length)];
    packet[0] = 0x45;
    packet[3] = length;
    packet
}

#[test]
fn plain_rejection_keeps_its_first_character() {
    let body = b"bad password";
    let error = parse_rejection(body, &nothing_parsed(body), 1).unwrap();
    assert!(matches!(
        error,
        Error::AuthenticationRejected {
            code: 2105,
            ref message
        } if message == "bad password"
    ));
}

#[test]
fn structured_rejection_validates_nonce_and_err_msg() {
    let (body, parsed) = structured_body();
    assert!(matches!(
        parse_rejection(&body, &parsed, 7).unwrap(),
        Error::AuthenticationRejected { code: 2115, .. }
    ));
    assert!(matches!(
        parse_rejection(&body, &parsed, 8),
        Err(Error::AuthenticationVerifyMismatch)
    ));
}

#[test]
fn rejections_decode_what_they_can() {
    let body = [b'N', b'A', b'M', b'E', 0xff];
    match parse_rejection(&body, &nothing_parsed(&body), 1).unwrap() {
        Error::AuthenticationRejected { code, message } => {
            assert_eq!(code, 2102);
            assert_eq!(message, "NAME\u{fffd}");
        }
        other => panic!("unexpected error: {other:?}"),
    }
}

#[test]
fn rejection_keywords_are_found_in_any_case() {
    assert_eq!(rejection_code("name too long"), 2102);
    assert_eq!(rejection_code("TOOLONG"), 2100);
    assert_eq!(rejection_code(" no free ip "), 2999);
    assert_eq!(rejection_code("freeip"), 2111);
    assert_eq!(rejection_code("account expired"), 2104);
}

#[test]
fn open_ack_accepts_android_integer_widths_and_omitted_nonce() {
    let attributes = vec![
        tlv(TlvType::Mtu, &1400_u32.to_be_bytes()),
        tlv(TlvType::Encrypt, &[99]),
    ];
    let info = parse_open_ack(
        &header(PacketType::OpenAck, EncryptionMethod::Xor),
        &attributes,
        local(),
        7,
        1400,
    )
    .unwrap();
    assert_eq!(info.mtu, 1400);
    assert_eq!(info.encryption, EncryptionMethod::Clear);
}

#[test]
fn open_ack_skips_bad_ip_fields_and_uses_last_valid_values() {
    let attributes = vec![
        tlv(TlvType::Ip, &[192, 0]),
        tlv(TlvType::Ip, &[192, 0, 2, 1, 99]),
        tlv(TlvType::Dns, &[0, 0, 0, 0]),
        tlv(TlvType::Encrypt, &[1]),
        tlv(TlvType::Encrypt, &[0, 0, 2]),
    ];
    let info = parse_open_ack(
        &header(PacketType::OpenAck, EncryptionMethod::Xor),
        &attributes,
        local(),
        7,
        1400,
    )
    .unwrap();
    assert_eq!(info.address, Some(ip("192.0.2.1")));
    assert_eq!(info.dns_servers, [ip("0.0.0.0")]);
    assert_eq!(info.encryption, EncryptionMethod::Clear);
}

#[test]
fn traditional_plain_path_uses_data_for_ipv6() {
    let packet = {
        let mut value = vec![0_u8; 40];
        value[0] = 0x60;
        value
    };
    let info = SessionInfo {
        peer: local(),
        session_id: 1,
        token: 2,
        encryption: EncryptionMethod::Clear,
        mtu: 1400,
        address: None,
        gateway: None,
        dns_servers: Vec::new(),
        segment_routing: false,
    };
    let outbound = encode_traditional_data(&packet, &info, &NoCipher).unwrap();
    assert_eq!(outbound.header.packet_type, PacketType::Data);
    assert_eq!(outbound.payload, packet);
}

#[test]
fn debug_output_redacts_credentials() {
    let client = Client::new(
        ClientConfig::new("127.0.0.1:6001"),
        "alice",
        "very-secret",
        Ok(()),
        found(),
    )
    .ok()
    .unwrap();
    let debug = client.debug_string();
    assert!(debug.contains("[REDACTED]"));
    assert!(!debug.contains("very-secret"));
    assert!(debug.contains("\"alice\""));
}

#[test]
fn minimal_configuration_has_only_confirmed_protocol_knobs() {
    let config = ClientConfig::new("127.0.0.1:6001");
    assert_eq!(config.mtu, 1400);
    assert_eq!(config.encryption, EncryptionMethod::Xor);
    config.validate(Ok(()), found()).unwrap();
}

#[test]
fn validates_sr_path_and_raw_key_length() {
    let mut config = ClientConfig::new("127.0.0.1:6001");
    config.segment_routing = Some(SegmentRoutingConfig {
        id: 7,
        keepalive: true,
        encrypt_algo: SrEncryptionAlgorithm::Aes128,
        encrypt_key: "0123456789abcdef".into(),
        links: vec![1, 2],
        local_sr_id: None,
    });
    config.validate(Ok(()), found()).unwrap();
}

#[test]
fn settings_out_of_range_are_refused() {
    let mut config = ClientConfig::new("127.0.0.1:6001");
    config.mtu = 575;
    assert_eq!(
        config.validate(Ok(()), found()).unwrap_err().to_string(),
        "invalid configuration: MTU 575 is outside 576..=9000"
    );
    config.mtu = 1400;
    config.receive_poll_ms = 0;
    assert!(config.validate(Ok(()), found()).is_err());
    config.receive_poll_ms = 100;
    config.reconnect.initial_delay_ms = 60_000;
    assert!(config.validate(Ok(()), found()).is_err());
    config.reconnect.initial_delay_ms = 0;
    config.reconnect.max_delay_ms = 0;
    assert!(config.validate(Ok(()), found()).is_err());
    config.reconnect.max_delay_ms = 1;
    config.segment_routing = Some(SegmentRoutingConfig {
        links: vec![0],
        ..routing()
    });
    assert!(config.validate(Ok(()), found()).is_err());
    assert_eq!(config.receive_poll(), 100);
    assert_eq!(config.resolve_server(&[local()]).unwrap(), local());
    assert!(config.resolve_server(&[]).is_err());
    let mut path = routing();
    assert_eq!(path.monitor_sr_id(), 7);
    path.local_sr_id = Some(9);
    assert_eq!(path.monitor_sr_id(), 9);
    path.local_sr_id = Some(0);
    assert_eq!(path.monitor_sr_id(), 7);
}

#[test]
fn a_server_without_an_address_is_refused() {
    let config = || ClientConfig::new("server.test:6001");
    assert!(matches!(
        config().validate(Ok(()), Ok(Vec::new())),
        Err(Error::InvalidConfig(message)) if message == "server resolved to no address"
    ));
    assert!(matches!(
        config().validate(Ok(()), Err(Error::Timeout("lookup"))),
        Err(Error::Timeout("lookup"))
    ));
    assert!(Client::new(config(), "alice", "secret", Ok(()), Ok(Vec::new())).is_err());
    let mut narrow = config();
    narrow.mtu = 575;
    assert!(matches!(
        narrow.validate(Ok(()), Ok(Vec::new())),
        Err(Error::InvalidConfig(message)) if message == "MTU 575 is outside 576..=9000"
    ));
}

#[test]
fn a_cipher_that_cannot_be_made_refuses_the_path() {
    let refused = || Err(Error::Crypto("key length"));
    let mut config = ClientConfig::new("127.0.0.1:6001");
    config.validate(refused(), found()).unwrap();
    config.segment_routing = Some(routing());
    assert!(matches!(
        config.validate(refused(), found()),
        Err(Error::Crypto("key length"))
    ));
    assert!(routing().validate(Ok(())).is_ok());
    assert!(routing().validate(refused()).is_err());
    let unusable = SegmentRoutingConfig {
        links: Vec::new(),
        ..routing()
    };
    assert!(matches!(
        unusable.validate(refused()),
        Err(Error::InvalidConfig(_))
    ));
    assert!(Client::new(config, "alice", "secret", refused(), found()).is_err());
}

#[test]
fn a_path_without_a_cipher_opens_no_session() {
    let mut config = ClientConfig::new("127.0.0.1:6001");
    config.segment_routing = Some(routing());
    let client = client(config);
    let attempt = client.authenticate().ok().unwrap();
    let reply = || {
        acknowledgement(vec![
            tlv(TlvType::AuthVerify, &attempt.request.nonce.to_be_bytes()),
            tlv(TlvType::Ip, &[10, 0, 0, 2]),
        ])
    };
    assert!(matches!(
        client.open_reply(&attempt, reply(), local(), 0, Err(Error::Crypto("key length"))),
        Err(Error::Crypto("key length"))
    ));
    match client.open_reply(&attempt, reply(), local(), 0, Ok(())) {
        Ok(OpenProgress::Opened(session)) => assert!(session.sr.is_some()),
        _ => panic!("the session should open"),
    }
}

#[test]
fn a_description_shows_all_settings_but_secrets() {
    let mut config = ClientConfig::new("127.0.0.1:6001");
    config.segment_routing = Some(SegmentRoutingConfig {
        local_sr_id: Some(3),
        ..routing()
    });
    let client = Client::new(config, "alice", "very-secret", Ok(()), found())
        .ok()
        .unwrap();
    assert_eq!(
        client.debug_string(),
        "Client { config: ClientConfig { server: \"127.0.0.1:6001\", mtu: 1400, \
         encryption: Xor, receive_poll_ms: 250, reconnect: ReconnectPolicy { attempts: 10, \
         initial_delay_ms: 1000, max_delay_ms: 30000 }, segment_routing: \
         Some(SegmentRoutingConfig { id: 7, keepalive: true, encrypt_algo: Aes128, \
         encrypt_key: \"[REDACTED]\", links: [1, 2], local_sr_id: Some(3) }) }, \
         credentials: Credentials { username: \"alice\", password: \"[REDACTED]\" } }"
    );
    let mut config = ClientConfig::new("server:1");
    config.encryption = EncryptionMethod::Clear;
    assert_eq!(
        config.debug_string(),
        "ClientConfig { server: \"server:1\", mtu: 1400, encryption: None, \
         receive_poll_ms: 250, reconnect: ReconnectPolicy { attempts: 10, \
         initial_delay_ms: 1000, max_delay_ms: 30000 }, segment_routing: None }"
    );
}

#[test]
fn opening_takes_tries_while_time_is_left() {
    let client = client(ClientConfig::new("127.0.0.1:6001"));
    let attempt = client.authenticate().ok().unwrap();
    assert_eq!(attempt.overall, AUTH_OVERALL_TIMEOUT_NS);
    assert_ne!(attempt.request.nonce, 0);
    assert_eq!(attempt.request.username, "alice");
    assert_eq!(attempt.request.first_hop, None);
    assert!(matches!(
        client.open_reply(&attempt, OpenReply::TimedOut, local(), 0, Ok(())),
        Ok(OpenProgress::Retry)
    ));
    assert!(matches!(
        client.open_reply(&attempt, OpenReply::TimedOut, local(), 12_000_000_000, Ok(())),
        Err(Error::Timeout("authentication"))
    ));
    let once = client.authenticate_once().ok().unwrap();
    assert_eq!(once.overall, AUTH_ATTEMPT_TIMEOUT_NS);
    assert!(matches!(
        client.open_reply(&once, OpenReply::TimedOut, local(), 0, Ok(())),
        Err(Error::Timeout("authentication"))
    ));
    assert!(matches!(
        client.open_reply(
            &attempt,
            OpenReply::Failed(Error::Io("refused".into())),
            local(),
            0,
            Ok(())
        ),
        Err(Error::Io(_))
    ));
}

#[test]
fn rejections_end_the_opening() {
    let client = client(ClientConfig::new("127.0.0.1:6001"));
    let (body, tails) = structured_body();
    let attempt = OpenAttempt {
        overall: AUTH_OVERALL_TIMEOUT_NS,
        request: client.open_request(7),
    };
    let reply = OpenReply::Packet {
        packet: DecodedPacket {
            header: header(PacketType::OpenReject, EncryptionMethod::Xor),
            body,
        },
        attributes: Ok(Vec::new()),
        tails,
    };
    assert!(matches!(
        client.open_reply(&attempt, reply, local(), 0, Ok(())),
        Err(Error::AuthenticationRejected { code: 2115, .. })
    ));
    let reply = acknowledgement(vec![tlv(TlvType::AuthVerify, &8_u32.to_be_bytes())]);
    assert!(matches!(
        client.open_reply(&attempt, reply, local(), 0, Ok(())),
        Err(Error::AuthenticationVerifyMismatch)
    ));
    let reply = acknowledgement(vec![tlv(TlvType::AuthVerify, &[1, 2])]);
    assert!(matches!(
        client.open_reply(&attempt, reply, local(), 0, Ok(())),
        Err(Error::InvalidTlvValue(_))
    ));
}

#[test]
fn acknowledgements_open_a_session() {
    let mut session = opened(&client(ClientConfig::new("127.0.0.1:6001")));
    assert_eq!(session.info().session_id, 0x1234);
    assert_eq!(session.info().address, Some(ip("10.0.0.2")));
    assert_eq!(session.info().encryption, EncryptionMethod::Xor);
    assert_eq!(session.heartbeat(), Heartbeat::Echo);
    assert_eq!(session.read_buffer_size(), 4_160);
    assert!(session.running);
    let closing = session.close().unwrap();
    assert_eq!(closing.packet_type, PacketType::Close);
    assert_eq!(closing.session_id, 0x1234);
    assert!(session.close().is_none());
    assert!(!session.running);
}

#[test]
fn packets_arrive_as_they_were_sent() {
    let mut config = ClientConfig::new("127.0.0.1:6001");
    config.encryption = EncryptionMethod::Aes;
    let mut session = opened(&client(config));
    let packet = ipv4_packet(21);
    let mut padded = packet.clone();
    padded.extend_from_slice(&[0; 7]);
    let outbound = match session.send_step(DeviceInput::Packet(&padded)) {
        SendStep::Send(outbound) => outbound,
        other => panic!("unexpected step: {other:?}"),
    };
    assert_eq!(outbound.header.packet_type, PacketType::DataEncrypted);
    let mut receiver = Receiver::new(0);
    let step = receiver.receive_step(
        &session,
        Datagram::Packet {
            packet: DecodedPacket {
                header: outbound.header,
                body: outbound.payload,
            },
            echo: Err(Error::SessionClosed),
        },
        false,
        0,
        0,
    );
    match step {
        ReceiveStep::Deliver(bytes) => assert_eq!(bytes, packet),
        other => panic!("unexpected step: {other:?}"),
    }
}

#[test]
fn reads_of_the_device_are_handled() {
    let mut session = opened(&client(ClientConfig::new("127.0.0.1:6001")));
    assert!(matches!(session.send_step(DeviceInput::Idle), SendStep::Pause));
    assert!(matches!(
        session.send_step(DeviceInput::Interrupted),
        SendStep::Continue
    ));
    assert!(matches!(
        session.send_step(DeviceInput::Failed),
        SendStep::Fail(WorkerFailure::Transport)
    ));
    assert!(matches!(
        session.send_step(DeviceInput::Packet(&[])),
        SendStep::Continue
    ));
    assert!(matches!(
        session.send_step(DeviceInput::Packet(&[0x50])),
        SendStep::Continue
    ));
    let mut large = vec![0_u8; 1401];
    large[0] = 0x45;
    large[2] = 5;
    large[3] = 0x79;
    assert!(matches!(
        session.send_step(DeviceInput::Packet(&large)),
        SendStep::Continue
    ));
}

#[test]
fn paths_number_their_packets() {
    let mut config = ClientConfig::new("127.0.0.1:6001");
    config.segment_routing = Some(routing());
    let client = client(config);
    assert_eq!(client.open_request(1).first_hop, Some(1));
    let mut session = opened(&client);
    assert!(session.info().segment_routing);
    assert_eq!(session.heartbeat(), Heartbeat::Monitor);
    let first = session.sr.as_ref().unwrap().fragment_id;
    assert_ne!(first, 0);
    let packet = ipv4_packet(20);
    match session.send_step(DeviceInput::Packet(&packet)) {
        SendStep::SendAlongPath {
            packet: sent,
            fragment_id,
        } => {
            assert_eq!(sent, packet);
            assert_eq!(fragment_id, first);
        }
        other => panic!("unexpected step: {other:?}"),
    }
    assert_eq!(
        session.sr.as_ref().unwrap().fragment_id,
        first.wrapping_add(1)
    );
}

#[test]
fn packets_on_a_path_are_sorted() {
    let plain = opened(&client(ClientConfig::new("127.0.0.1:6001")));
    assert!(matches!(
        plain.process_sr_packet(Ok(SrDecoded::Data(vec![1])), true, 0),
        Err(Error::InvalidSegmentRouting(
            "received SR packet in traditional mode"
        ))
    ));
    let mut config = ClientConfig::new("127.0.0.1:6001");
    config.segment_routing = Some(routing());
    let session = opened(&client(config));
    assert!(matches!(
        session.process_sr_packet(Ok(SrDecoded::Data(vec![1])), true, 0),
        Ok(ReceiveStep::Deliver(_))
    ));
    assert!(matches!(
        session.process_sr_packet(Ok(SrDecoded::EchoRequest { sr_id: 7 }), true, 0),
        Ok(ReceiveStep::AnswerMonitor)
    ));
    assert!(matches!(
        session.process_sr_packet(Ok(SrDecoded::EchoRequest { sr_id: 8 }), true, 0),
        Err(Error::InvalidSegmentRouting(
            "SR monitor request has the wrong SR ID"
        ))
    ));
    assert!(matches!(
        session.process_sr_packet(Ok(SrDecoded::EchoResponse { tick_micros: 5 }), true, 9),
        Ok(ReceiveStep::ObserveMonitor { rtt: 4 })
    ));
    assert!(matches!(
        session.process_sr_packet(Ok(SrDecoded::EchoResponse { tick_micros: 10 }), true, 9),
        Err(Error::InvalidSegmentRouting(
            "SR response echoed a future tick"
        ))
    ));
    assert!(matches!(
        session.process_sr_packet(Ok(SrDecoded::EchoResponse { tick_micros: 5 }), false, 9),
        Err(Error::InvalidSegmentRouting(
            "received SR monitor response while monitoring is disabled"
        ))
    ));
    let fragment = Fragment {
        id: 1,
        end_of_packet: true,
        from_in: false,
        offset: 0,
        data: vec![1],
    };
    assert!(matches!(
        session.process_sr_packet(
            Ok(SrDecoded::Fragment {
                packet_type: PacketType::IpFragment,
                fragment
            }),
            true,
            0
        ),
        Ok(ReceiveStep::Reassemble { .. })
    ));
    let mut receiver = Receiver::new(0);
    assert!(matches!(
        receiver.receive_step(&plain, Datagram::Segment(Ok(SrDecoded::Data(vec![1]))), true, 0, 0),
        ReceiveStep::Continue
    ));
}

#[test]
fn datagrams_are_sorted() {
    let session = opened(&client(ClientConfig::new("127.0.0.1:6001")));
    let mut receiver = Receiver::new(0);
    let packet = |packet_type, encryption, body: &[u8]| Datagram::Packet {
        packet: DecodedPacket {
            header: header(packet_type, encryption),
            body: body.to_vec(),
        },
        echo: Ok(EchoBody {
            tick_micros: 5,
            stats: EchoDelayStats {
                current_micros: 0,
                minimum_micros: 0,
                maximum_micros: 0,
            },
        }),
    };
    assert!(matches!(
        receiver.receive_step(&session, Datagram::Idle, false, 0, 0),
        ReceiveStep::Continue
    ));
    assert!(matches!(
        receiver.receive_step(&session, Datagram::Malformed, false, 0, 0),
        ReceiveStep::Continue
    ));
    assert!(matches!(
        receiver.receive_step(&session, Datagram::Failed, false, 0, 0),
        ReceiveStep::End(SessionEnd::TransportFailure)
    ));
    let close = packet(PacketType::Close, EncryptionMethod::Xor, &[]);
    assert!(matches!(
        receiver.receive_step(&session, close, false, 0, 0),
        ReceiveStep::End(SessionEnd::ServerClose)
    ));
    let mut foreign = opened(&client(ClientConfig::new("127.0.0.1:6001")));
    foreign.info.token = 1;
    let close = packet(PacketType::Close, EncryptionMethod::Xor, &[]);
    assert!(matches!(
        receiver.receive_step(&foreign, close, false, 0, 0),
        ReceiveStep::Continue
    ));
    let echo = packet(PacketType::EchoRequest, EncryptionMethod::Xor, &[1, 2]);
    match receiver.receive_step(&session, echo, false, 0, 0) {
        ReceiveStep::AnswerEcho { body, .. } => assert_eq!(body, [1, 2]),
        other => panic!("unexpected step: {other:?}"),
    }
    let echo = packet(PacketType::EchoResponse, EncryptionMethod::Xor, &[]);
    assert!(matches!(
        receiver.receive_step(&session, echo, false, 12, 100),
        ReceiveStep::Continue
    ));
    assert_eq!(receiver.heartbeat.current, 7);
    assert_eq!(receiver.heartbeat.last_response, 100);
    let wrong = packet(
        PacketType::DataEncrypted,
        EncryptionMethod::Aes,
        &ipv4_packet(20),
    );
    assert!(matches!(
        receiver.receive_step(&session, wrong, false, 0, 0),
        ReceiveStep::Continue
    ));
    let mut halves = Vec::new();
    let whole = ipv4_packet(24);
    for (end, data) in [(true, &whole[20..]), (false, &whole[..20])] {
        halves.push(
            Fragment {
                id: 3,
                end_of_packet: end,
                from_in: false,
                offset: 0,
                data: data.to_vec(),
            }
            .encode_traditional()
            .unwrap(),
        );
    }
    let half = packet(PacketType::IpFragment, EncryptionMethod::Clear, &halves[0]);
    assert!(matches!(
        receiver.receive_step(&session, half, false, 0, 0),
        ReceiveStep::Continue
    ));
    let half = packet(PacketType::IpFragment, EncryptionMethod::Clear, &halves[1]);
    match receiver.receive_step(&session, half, false, 0, 0) {
        ReceiveStep::Deliver(bytes) => assert_eq!(bytes, whole),
        other => panic!("unexpected step: {other:?}"),
    }
}

#[test]
fn sessions_end_for_a_reason() {
    let mut session = opened(&client(ClientConfig::new("127.0.0.1:6001")));
    let receiver = Receiver::new(0);
    assert_eq!(receiver.before_datagram(&session, false, None), None);
    assert_eq!(
        receiver.before_datagram(&session, true, None),
        Some(SessionEnd::LocalShutdown)
    );
    assert_eq!(
        receiver.before_datagram(&session, false, Some(WorkerFailure::HeartbeatTimeout)),
        Some(SessionEnd::HeartbeatTimeout)
    );
    assert_eq!(
        receiver.before_datagram(&session, false, Some(WorkerFailure::Transport)),
        Some(SessionEnd::TransportFailure)
    );
    session.shutdown();
    assert_eq!(
        receiver.before_datagram(&session, false, None),
        Some(SessionEnd::LocalShutdown)
    );
    assert_eq!(after_delivery(Ok(20), 20), None);
    assert_eq!(after_delivery(Ok(19), 20), Some(SessionEnd::TransportFailure));
    assert_eq!(
        after_delivery(Err(Error::Io("gone".into())), 20),
        Some(SessionEnd::TransportFailure)
    );
    assert!(monitor_lost(true, false, 0, 1));
    assert!(monitor_lost(false, true, 2, 1));
    assert!(!monitor_lost(false, true, 1, 1));
}

#[test]
fn heartbeats_notice_silence() {
    let mut session = opened(&client(ClientConfig::new("127.0.0.1:6001")));
    let mut receiver = Receiver::new(0);
    for _ in 0..10 {
        match receiver.heartbeat_step(&mut session, 4, 1) {
            HeartbeatStep::Send { header, body } => {
                assert_eq!(header.packet_type, PacketType::EchoRequest);
                assert_eq!(body.tick_micros, 4);
            }
            other => panic!("unexpected step: {other:?}"),
        }
    }
    assert_eq!(
        receiver.heartbeat_step(&mut session, 4, 1),
        HeartbeatStep::Lost
    );
    assert_eq!(
        receiver.heartbeat_step(&mut session, 4, 1),
        HeartbeatStep::Stop
    );
    let tracker = HeartbeatTracker::new(0);
    assert!(!tracker.timed_out(HEARTBEAT_TIMEOUT_NS));
    assert!(tracker.timed_out(HEARTBEAT_TIMEOUT_NS + 1));
}

#[test]
fn broken_sessions_are_replaced_a_few_times() {
    let mut config = ClientConfig::new("127.0.0.1:6001");
    config.reconnect.attempts = 3;
    config.reconnect.initial_delay_ms = 1_000;
    config.reconnect.max_delay_ms = 3_000;
    let client = client(config);
    let mut holder = client.run_reconnecting();
    assert_eq!(holder.before_session(false), None);
    assert_eq!(
        holder.before_session(true),
        Some(SessionEnd::LocalShutdown)
    );
    let mut waits = Vec::new();
    for _ in 0..3 {
        match holder.after_session(AttemptEnd::Failed) {
            Ok(ReconnectAction::WaitMillis(wait)) => waits.push(wait),
            other => panic!("unexpected action: {other:?}"),
        }
    }
    assert_eq!(waits, [1_000, 2_000, 3_000]);
    assert!(matches!(
        holder.after_session(AttemptEnd::Failed),
        Err(Error::Timeout("reconnection budget exhausted"))
    ));
    assert!(matches!(
        holder.after_session(AttemptEnd::Ended(
            SessionEnd::HeartbeatTimeout,
            HEARTBEAT_TIMEOUT_NS
        )),
        Ok(ReconnectAction::WaitMillis(1_000))
    ));
    assert!(matches!(
        holder.after_session(AttemptEnd::Ended(SessionEnd::ServerClose, 1)),
        Ok(ReconnectAction::Return(SessionEnd::ServerClose))
    ));
}

#[test]
fn replacements_keep_the_tunnel() {
    let client = client(ClientConfig::new("127.0.0.1:6001"));
    let session = opened(&client);
    let holder = client.run_reconnecting_from(&session);
    holder.allow(session.info()).unwrap();
    let mut moved = session.info().copy();
    moved.address = Some(ip("10.0.0.3"));
    match holder.allow(&moved) {
        Err(Error::InvalidConfig(message)) => {
            assert!(message.starts_with(
                "server changed the tunnel assignment during reconnection: \
                 expected address=Some(10.0.0.2), gateway=None, mtu=1400, sr=false; "
            ));
            assert!(message.ends_with(
                "received address=Some(10.0.0.3), gateway=None, mtu=1400, sr=false"
            ));
        }
        _ => panic!("another address should be refused"),
    }
    assert!(ensure_same_tun_assignment(&moved, &moved).is_ok());
}

#[test]
fn pings_are_answered_in_kind() {
    let answer = |body: &[u8]| DecodedPacket {
        header: PacketHeader::new(PacketType::PingResponse, EncryptionMethod::Clear, 1, 2),
        body: body.to_vec(),
    };
    check_ping_response(&answer(&[]), 1, 2).unwrap();
    assert!(check_ping_response(&answer(&[0]), 1, 2).is_err());
    assert!(check_ping_response(&answer(&[]), 2, 2).is_err());
}

#[test]
fn small_helpers_keep_their_limits() {
    assert_ne!(random_nonzero_u32().unwrap(), 0);
    assert_eq!(monotonic_micros(1_999), 1);
    assert_eq!(monotonic_micros(u128::MAX), u64::MAX);
    assert_eq!(next_nap(0, 50), Some(50));
    assert_eq!(next_nap(0, 1_000_000_000), Some(100_000_000));
    assert_eq!(next_nap(50, 50), None);
    let aes = header(PacketType::Data, EncryptionMethod::Aes);
    match require_encryption(&aes, EncryptionMethod::Xor) {
        Err(Error::InvalidConfig(message)) => assert_eq!(
            message,
            "packet encryption aes does not match expected xor"
        ),
        _ => panic!("another encryption should be refused"),
    }
}
