//! What is shown of captured packets.

use openiwan::cli::decode::{
    describe_body, describe_header, describe_inner_body, describe_packet, describe_segment,
    inner_part, HeaderWords, NamedAttribute, SegmentHeader,
};
use openiwan::hex::decode_hex;
use openiwan::{EncryptionMethod, Error, PacketHeader, PacketType};

fn words() -> HeaderWords {
    HeaderWords {
        packet_type: "open-ack".into(),
        encryption: "xor".into(),
    }
}

fn header(packet_type: PacketType) -> PacketHeader {
    PacketHeader::new(packet_type, EncryptionMethod::Xor, 42, 0x00ab_cdef)
}

fn attributes() -> Vec<NamedAttribute> {
    vec![
        NamedAttribute {
            name: "mtu".into(),
            value: vec![0x05, 0x78],
        },
        NamedAttribute {
            name: "empty".into(),
            value: Vec::new(),
        },
    ]
}

#[test]
fn a_header_is_shown_on_one_line() {
    assert_eq!(
        describe_header(&words(), &header(PacketType::OpenAck)),
        "type=open-ack encryption=xor session_id=42 token=0x00abcdef"
    );
    let lines = describe_packet(&words(), &header(PacketType::OpenAck), true);
    assert_eq!(
        lines,
        [
            "type=open-ack encryption=xor session_id=42 token=0x00abcdef",
            "signature=true",
        ]
    );
    let lines = describe_packet(&words(), &header(PacketType::Data), false);
    assert_eq!(lines[1], "signature=false");
}

#[test]
fn control_packets_show_their_attributes() {
    for kind in [
        PacketType::Open,
        PacketType::OpenAck,
        PacketType::OpenReject,
    ] {
        assert_eq!(
            describe_body(kind, &[1, 2], Ok(attributes())).unwrap(),
            ["tlv=mtu length=2 value=0578", "tlv=empty length=0 value="]
        );
        assert!(describe_body(kind, &[1, 2], Ok(Vec::new())).unwrap().is_empty());
        assert!(matches!(
            describe_body(kind, &[1, 2], Err(Error::MissingTlv("IP/IP6"))),
            Err(Error::MissingTlv("IP/IP6"))
        ));
    }
}

#[test]
fn other_packets_show_their_bytes() {
    for kind in [PacketType::Data, PacketType::EchoRequest, PacketType::Close] {
        assert_eq!(
            describe_body(kind, &[0, 0xff], Err(Error::MissingTlv("IP/IP6"))).unwrap(),
            ["body=00ff"]
        );
        assert_eq!(
            describe_body(kind, &[], Ok(attributes())).unwrap(),
            ["body="]
        );
    }
}

#[test]
fn a_segment_shows_its_outer_and_its_inner_header() {
    let mut outer = SegmentHeader {
        next_id: 7,
        links: vec![1, 22, 333],
        algorithm: "Aes128".into(),
        padding: 3,
    };
    assert_eq!(
        describe_segment(&outer, &words(), &header(PacketType::Data)),
        [
            "sr next_id=7 links=1,22,333 algorithm=Aes128 padding=3",
            "inner type=open-ack encryption=xor session_id=42 token=0x00abcdef",
        ]
    );
    outer.links = vec![9];
    assert!(describe_segment(&outer, &words(), &header(PacketType::Data))[0].contains(" links=9 "));
    outer.links = Vec::new();
    assert!(describe_segment(&outer, &words(), &header(PacketType::Data))[0].contains(" links= "));
}

#[test]
fn the_body_of_a_segment_stands_behind_both_headers() {
    let packet = decode_hex("01:02:03:04-05").unwrap();
    assert_eq!(inner_part(&packet, 2).unwrap(), [3, 4, 5]);
    assert!(inner_part(&packet, 5).unwrap().is_empty());
    assert!(matches!(
        inner_part(&packet, 6),
        Err(Error::InvalidSegmentRouting("missing SR inner header"))
    ));
    assert_eq!(describe_inner_body(&packet, 2, 1).unwrap(), "body=0405");
    assert_eq!(describe_inner_body(&packet, 2, 3).unwrap(), "body=");
    for (outer, inner) in [(2, 4), (6, 0), (usize::MAX, usize::MAX)] {
        assert!(matches!(
            describe_inner_body(&packet, outer, inner),
            Err(Error::InvalidSegmentRouting("missing SR inner body"))
        ));
    }
}
