use waker::packet::MagicPacket;
use waker::sanitizers::{canonical_mac_text, AddressError};

#[test]
fn init_packet() {
    let packet1 = MagicPacket::new(&[0xFF; 6]);
    let packet2 = MagicPacket::new(&[0xAA; 6]);

    let vec: [u8; 102] = [0xFF; 102];

    assert_eq!(packet1.bytes, vec);
    assert_ne!(packet2.bytes, vec);
}

#[test]
fn magic_packet_from_new() {
    let packet3 = MagicPacket::from_str("10:10:10:10:10:10").unwrap();
    let slice = &packet3.bytes[packet3.bytes.len() - 6..];
    for a in slice {
        println!("{}", a);
    }

    let bytes: [u8; 6] = [0x10; 6];
    assert_eq!(slice, bytes);
}

#[test]
fn test_parse() {
    let mp = MagicPacket::parse_macstr("ff:ff:ff:ff:ff:ff", ':').unwrap();
    assert_eq!([0xFF; 6], mp);
    let mp2 = MagicPacket::parse_macstr("10:10:10:10:10:10", ':').unwrap();
    assert_eq!([0x10; 6], mp2);
}

#[test]
fn packet_header_and_every_window() {
    let mac: [u8; 6] = [0x12, 0x34, 0x56, 0x78, 0x9A, 0xBC];
    let p = MagicPacket::new(&mac);
    assert_eq!(&p.bytes[0..6], [0xFF; 6]);
    for k in 0..16 {
        assert_eq!(&p.bytes[6 + 6 * k..12 + 6 * k], mac);
    }
}

#[test]
fn encode_is_deterministic() {
    let mac: [u8; 6] = [0xDE, 0xAD, 0xBE, 0xEF, 0x00, 0x01];
    let a = MagicPacket::new(&mac);
    let b = MagicPacket::new(&mac);
    assert_eq!(a.bytes, b.bytes);
}

#[test]
fn canonical_text_round_trips() {
    let macs: [[u8; 6]; 3] = [
        [0x00, 0x00, 0x00, 0x00, 0x00, 0x00],
        [0x12, 0x34, 0x56, 0x78, 0x9A, 0xBC],
        [0xFF, 0xFF, 0xFF, 0xFF, 0xFF, 0xFF],
    ];
    for mac in macs {
        let text = canonical_mac_text(&mac);
        assert_eq!(mac, MagicPacket::parse_macstr(&text, ':').unwrap());
    }
}

#[test]
fn canonical_text_shape() {
    let text = canonical_mac_text(&[0x01, 0x23, 0x45, 0x67, 0x89, 0xAB]);
    assert_eq!("01:23:45:67:89:AB", text);
}

#[test]
fn parse_needs_colon_separator() {
    assert_eq!(
        Err(AddressError::Malformed),
        MagicPacket::parse_macstr("12:34:56:78:9A:BC", '-')
    );
}

#[test]
fn broadcast_mac_gives_all_ff_packet() {
    let p = MagicPacket::from_str("ff:ff:ff:ff:ff:ff").unwrap();
    assert_eq!(p.bytes, [0xFF; 102]);
}

#[test]
fn malformed_mac_text_is_rejected() {
    match MagicPacket::from_str("zz:zz:zz") {
        Err(AddressError::Malformed) => (),
        Ok(_) => panic!("malformed text must not produce a packet"),
    }
}
