//! Ciphers, fragments and inner packets.

use openiwan::crypto::{
    create_cipher, derive_password_key, derive_session_key, encrypt_password, java_us_ascii, md5,
    AesCipher, DataCipher, NoCipher, XorCipher,
};
use openiwan::fragment::{
    fragment_sr_packet, trim_ip_packet, Fragment, SrFragmentReassembler,
    TraditionalFragmentReassembler,
};
use openiwan::{EncryptionMethod, Error};

fn fragment(id: u32, offset: u16, end: bool, data: &[u8]) -> Fragment {
    Fragment {
        id,
        end_of_packet: end,
        from_in: false,
        offset,
        data: data.to_vec(),
    }
}

#[test]
fn md5_matches_standard_vector() {
    assert_eq!(
        md5(b"abc"),
        [
            0x90, 0x01, 0x50, 0x98, 0x3c, 0xd2, 0x4f, 0xb0, 0xd6, 0x96, 0x3f, 0x7d, 0x28, 0xe1,
            0x7f, 0x72
        ]
    );
}

#[test]
fn xor_round_trip() {
    let cipher = XorCipher::new([0x5a; 16]);
    assert_eq!(cipher.debug_string(), "XorCipher { key: \"[REDACTED]\" }");
    let ciphertext = cipher.encrypt(b"openiwan").unwrap();
    assert_eq!(cipher.decrypt(&ciphertext).unwrap(), b"openiwan");
}

#[test]
fn xor_key_repeats_after_eight_bytes() {
    let key = [
        0, 1, 2, 3, 4, 5, 6, 7, 0x80, 0x81, 0x82, 0x83, 0x84, 0x85, 0x86, 0x87,
    ];
    let cipher = XorCipher::new(key);
    assert_eq!(
        cipher.encrypt(&[0_u8; 16]).unwrap(),
        [0, 1, 2, 3, 4, 5, 6, 7, 0, 1, 2, 3, 4, 5, 6, 7]
    );
}

#[test]
fn xor_matches_specification_vector() {
    let cipher = XorCipher::new(derive_session_key("alice", "secret"));
    let plain = [
        0x45, 0x00, 0x00, 0x14, 0x00, 0x00, 0x00, 0x00, 0x40, 0x01, 0x00, 0x00, 0xc0, 0x00, 0x02,
        0x01, 0xc6, 0x33, 0x64, 0x02,
    ];
    assert_eq!(
        cipher.encrypt(&plain).unwrap(),
        [
            0x81, 0xe3, 0x13, 0x07, 0x22, 0x2c, 0xf0, 0x5f, 0x84, 0xe2, 0x13, 0x13, 0xe2, 0x2c,
            0xf2, 0x5e, 0x02, 0xd0, 0x77, 0x11
        ]
    );
}

#[test]
fn aes_round_trip_and_zero_padding() {
    let cipher = AesCipher::new([0x11; 16]);
    let ciphertext = cipher.encrypt(b"twenty-one byte input").unwrap();
    assert_eq!(ciphertext.len(), 32);
    let plaintext = cipher.decrypt(&ciphertext).unwrap();
    assert_eq!(&plaintext[..21], b"twenty-one byte input");
    assert!(plaintext[21..].iter().all(|byte| *byte == 0));
}

#[test]
fn session_aes_matches_specification_vector() {
    let cipher = AesCipher::new(derive_session_key("alice", "secret"));
    let plain = [
        0x45, 0x00, 0x00, 0x14, 0x00, 0x00, 0x00, 0x00, 0x40, 0x01, 0x00, 0x00, 0xc0, 0x00, 0x02,
        0x01, 0xc6, 0x33, 0x64, 0x02,
    ];
    assert_eq!(
        cipher.encrypt(&plain).unwrap(),
        [
            0x44, 0x4d, 0x65, 0x8f, 0x5b, 0xb3, 0x0e, 0x9a, 0x09, 0x9e, 0x02, 0x95, 0xe2, 0x1f,
            0xf1, 0x18, 0x49, 0x6f, 0x56, 0x63, 0xd9, 0x78, 0x0f, 0x85, 0x2b, 0xa4, 0xf9, 0xc6,
            0xc7, 0x5d, 0xf2, 0x55
        ]
    );
}

#[test]
fn java_ascii_replaces_unmappable_characters() {
    assert_eq!(java_us_ascii("a中🙂z"), b"a??z");
}

#[test]
fn aes_refuses_partial_blocks() {
    let cipher = AesCipher::new([0x11; 16]);
    assert_eq!(cipher.debug_string(), "AesCipher([REDACTED])");
    assert!(matches!(
        cipher.decrypt(&[0; 15]),
        Err(Error::Crypto("AES ciphertext length is not a multiple of 16"))
    ));
    assert!(cipher.encrypt(&[]).unwrap().is_empty());
}

#[test]
fn keys_come_from_credentials() {
    assert_eq!(derive_session_key("alice", "secret"), md5(b"alicesecret"));
    assert_eq!(derive_session_key("al", "icesecret"), md5(b"alicesecret"));
    assert_ne!(derive_password_key("alice"), derive_password_key("bob"));
    let field = encrypt_password("secret", "alice");
    let opened = AesCipher::new(derive_password_key("alice"))
        .decrypt(&field)
        .unwrap();
    assert_eq!(&opened[..6], b"secret");
    assert!(opened[6..].iter().all(|byte| *byte == 0));
}

#[test]
fn every_method_gives_a_packet_back() {
    let mut packet = vec![0_u8; 21];
    packet[0] = 0x45;
    packet[3] = 21;
    for method in [
        EncryptionMethod::Clear,
        EncryptionMethod::Xor,
        EncryptionMethod::Aes,
    ] {
        let cipher = create_cipher(method, "alice", "secret").ok().unwrap();
        assert_eq!(cipher.method(), method);
        let sealed = cipher.encrypt(&packet).unwrap();
        let restored = cipher.decrypt(&sealed).unwrap();
        assert_eq!(trim_ip_packet(&restored).unwrap(), packet);
    }
    assert_eq!(NoCipher.encrypt(b"plain").unwrap(), b"plain");
}

#[test]
fn fragment_words_match_specification_vectors() {
    let first = fragment(1, 0, false, &vec![0_u8; 1400]);
    assert_eq!(&first.encode_sr().unwrap()[4..8], &[0x00, 0x00, 0xbc, 0x02]);
    let second = fragment(1, 1400, true, &vec![0_u8; 600]);
    assert_eq!(
        &second.encode_sr().unwrap()[4..8],
        &[0xe1, 0x15, 0x2c, 0x01]
    );
}

#[test]
fn traditional_and_sr_fragment_ids_have_different_endianness() {
    let value = fragment(0x0102_0304, 0, true, b"x");
    assert_eq!(&value.encode_traditional().unwrap()[..4], &[1, 2, 3, 4]);
    assert_eq!(&value.encode_sr().unwrap()[..4], &[4, 3, 2, 1]);
}

#[test]
fn from_in_is_parsed_not_rejected() {
    let mut encoded = fragment(1, 0, true, b"x").encode_traditional().unwrap();
    encoded[4] |= 2;
    assert!(Fragment::parse_traditional(&encoded).unwrap().from_in);
}

#[test]
fn traditional_reassembly_ignores_offsets_and_uses_eop_order() {
    let now = 0;
    let mut queue = TraditionalFragmentReassembler::default();
    assert!(queue
        .insert(fragment(1, 999, true, b"tail"), now)
        .unwrap()
        .is_none());
    assert_eq!(
        queue
            .insert(fragment(1, 444, false, b"head"), now)
            .unwrap()
            .unwrap(),
        b"headtail"
    );
}

#[test]
fn sr_reassembly_is_offset_aware_and_out_of_order() {
    let now = 0;
    let mut queue = SrFragmentReassembler::default();
    queue.insert(fragment(1, 5, true, b" world"), now).unwrap();
    assert_eq!(
        queue
            .insert(fragment(1, 0, false, b"hello"), now)
            .unwrap()
            .unwrap(),
        b"hello world"
    );
    assert_eq!(queue.buffered_bytes(), 0);
}

#[test]
fn sr_fragmenter_emits_exactly_two_parts() {
    let packet = vec![7_u8; 2000];
    let fragments = fragment_sr_packet(&packet, 1400, 9).unwrap();
    assert_eq!(fragments[0].data.len(), 1400);
    assert_eq!(fragments[1].offset, 1400);
    assert_eq!(fragments[1].data.len(), 600);
    assert!(fragments[1].end_of_packet);
}

#[test]
fn fragments_read_back_as_written() {
    let value = fragment(0x0102_0304, 1400, true, b"payload");
    for encoded in [
        value.encode_traditional().unwrap(),
        value.encode_sr().unwrap(),
    ] {
        let parsed = if encoded[0] == 1 {
            Fragment::parse_traditional(&encoded).unwrap()
        } else {
            Fragment::parse_sr(&encoded).unwrap()
        };
        assert_eq!(parsed.id, 0x0102_0304);
        assert_eq!(parsed.offset, 1400);
        assert_eq!(parsed.data, b"payload");
        assert!(parsed.end_of_packet);
    }
    assert_eq!(value.end_offset().unwrap(), 1407);
    assert!(Fragment::parse_traditional(&[0; 7]).is_err());
}

#[test]
fn split_packets_reassemble_in_either_order() {
    let packet: Vec<u8> = (0..2000_u32).map(|i| i as u8).collect();
    let [first, second] = fragment_sr_packet(&packet, 1400, 9).unwrap();
    let mut queue = SrFragmentReassembler::default();
    assert!(queue.insert(second, 0).unwrap().is_none());
    assert_eq!(queue.pending_groups(), 1);
    assert_eq!(queue.insert(first, 0).unwrap().unwrap(), packet);
    assert_eq!(queue.pending_groups(), 0);
}

#[test]
fn pieces_reassemble_in_any_order() {
    let packet: Vec<u8> = (0..1000_u32).map(|i| i as u8).collect();
    let cuts = [0_usize, 1, 250, 251, 777, 1000];
    for order in [[0, 1, 2, 3, 4], [4, 3, 2, 1, 0], [2, 4, 0, 3, 1]] {
        let mut queue = SrFragmentReassembler::default();
        let mut held = 0;
        for (turn, &piece) in order.iter().enumerate() {
            let (start, end) = (cuts[piece], cuts[piece + 1]);
            let part = fragment(9, start as u16, end == 1000, &packet[start..end]);
            let given = queue.insert(part, 1_000 + turn as u64 * 500_000_000).unwrap();
            if turn < 4 {
                held += end - start;
                assert!(given.is_none());
                assert_eq!(queue.buffered_bytes(), held);
                assert_eq!(queue.pending_groups(), 1);
            } else {
                assert_eq!(given.unwrap(), packet);
            }
        }
        assert_eq!(queue.buffered_bytes(), 0);
        assert_eq!(queue.pending_groups(), 0);
    }
}

#[test]
fn no_more_than_sixteen_packets_are_held() {
    let mut queue = SrFragmentReassembler::default();
    for id in 0..16 {
        let part = fragment(id, 0, false, &vec![7; 8192]);
        assert!(queue.insert(part, 0).unwrap().is_none());
    }
    assert_eq!(queue.pending_groups(), 16);
    assert_eq!(queue.buffered_bytes(), 16 * 8192);
    assert!(matches!(
        queue.insert(fragment(16, 0, false, b"more"), 0),
        Err(Error::FragmentTooLarge)
    ));
    assert_eq!(queue.buffered_bytes(), 16 * 8192);
}

#[test]
fn halves_that_wait_too_long_are_forgotten() {
    let mut queue = TraditionalFragmentReassembler::default();
    queue.insert(fragment(1, 0, true, b"tail"), 0).unwrap();
    assert_eq!(queue.pending_groups(), 1);
    queue.purge_expired(3_600_000_000_000);
    assert_eq!(queue.pending_groups(), 0);
    queue.insert(fragment(2, 0, true, b"tail"), 0).unwrap();
    queue.clear();
    assert_eq!(queue.pending_groups(), 0);
}

#[test]
fn padding_is_trimmed_by_the_declared_length() {
    let mut packet = vec![0_u8; 32];
    packet[0] = 0x45;
    packet[3] = 20;
    assert_eq!(trim_ip_packet(&packet).unwrap(), &packet[..20]);
    packet[3] = 33;
    assert!(matches!(
        trim_ip_packet(&packet),
        Err(Error::InvalidFragment("inner IP length exceeds decrypted payload"))
    ));
    assert!(matches!(
        trim_ip_packet(&[]),
        Err(Error::InvalidFragment("empty inner IP packet"))
    ));
    assert!(matches!(
        trim_ip_packet(&[0x45; 19]),
        Err(Error::InvalidFragment("truncated IPv4 header"))
    ));
    assert!(matches!(
        trim_ip_packet(&[0x60; 39]),
        Err(Error::InvalidFragment("truncated IPv6 header"))
    ));
    assert!(matches!(
        trim_ip_packet(&[0x50; 40]),
        Err(Error::InvalidFragment("unknown inner IP version"))
    ));
}
