use proxies_rotator::codec::decode_address;
use proxies_rotator::codec::SocksAddrType;
use proxies_rotator::errors::ClientError;

#[test]
fn ipv4_round_trip() {
    let addr = SocksAddrType::Ipv4(vec![192, 0, 2, 1]);
    let encoded = addr.encode_address();
    assert_eq!(encoded, vec![1, 192, 0, 2, 1]);
    let (decoded, consumed) = decode_address(&encoded).unwrap();
    assert_eq!(decoded, addr);
    assert_eq!(consumed, 5);
}

#[test]
fn domain_round_trip() {
    let addr = SocksAddrType::Domain(b"example.com".to_vec());
    let encoded = addr.encode_address();
    assert_eq!(encoded[0], 3);
    assert_eq!(encoded[1], 11);
    let (decoded, consumed) = decode_address(&encoded).unwrap();
    assert_eq!(decoded, addr);
    assert_eq!(consumed, 13);
}

#[test]
fn longest_domain_round_trip() {
    let name = vec![0x61u8; 255];
    let addr = SocksAddrType::new_domain(name.clone()).unwrap();
    let encoded = addr.encode_address();
    assert_eq!(encoded.len(), 257);
    let (decoded, consumed) = decode_address(&encoded).unwrap();
    assert_eq!(decoded, SocksAddrType::Domain(name));
    assert_eq!(consumed, 257);
}

#[test]
fn ipv6_round_trip() {
    let bytes: Vec<u8> = (1..=16).collect();
    let addr = SocksAddrType::Ipv6(bytes);
    let encoded = addr.encode_address();
    assert_eq!(encoded.len(), 17);
    let (decoded, consumed) = decode_address(&encoded).unwrap();
    assert_eq!(decoded, addr);
    assert_eq!(consumed, 17);
}

#[test]
fn empty_domain_rejected() {
    assert!(matches!(SocksAddrType::new_domain(vec![]), Err(ClientError::HandShake(_))));
    // On the wire, a domain length byte of zero is rejected as well.
    assert!(matches!(decode_address(&[3, 0, 65]), Err(ClientError::HandShake(_))));
}

#[test]
fn oversized_domain_rejected() {
    assert!(matches!(
        SocksAddrType::new_domain(vec![0x61; 256]),
        Err(ClientError::HandShake(_))
    ));
}

#[test]
fn encoding_refuses_uncarriable_domains() {
    // A zero-length domain and one of 256 bytes have no honest single-byte
    // length prefix: encoding refuses them instead of framing a wrong
    // length.
    assert!(matches!(
        SocksAddrType::Domain(vec![]).try_encode_address(),
        Err(ClientError::HandShake(_))
    ));
    assert!(matches!(
        SocksAddrType::Domain(vec![0x61; 256]).try_encode_address(),
        Err(ClientError::HandShake(_))
    ));
    let ok = SocksAddrType::Domain(vec![0x61; 255]).try_encode_address().unwrap();
    assert_eq!(ok.len(), 257);
    assert_eq!(ok[1], 255);
}

#[test]
fn unknown_tag_rejected() {
    assert!(matches!(decode_address(&[2, 1, 2, 3, 4]), Err(ClientError::HandShake(_))));
    assert!(matches!(decode_address(&[0]), Err(ClientError::HandShake(_))));
}

#[test]
fn truncated_buffer_rejected() {
    assert!(matches!(decode_address(&[]), Err(ClientError::HandShake(_))));
    assert!(matches!(decode_address(&[1, 192, 0]), Err(ClientError::HandShake(_))));
    assert!(matches!(decode_address(&[4, 1, 2, 3]), Err(ClientError::HandShake(_))));
}

#[test]
fn connect_frame_has_fixed_header() {
    let addr = SocksAddrType::Ipv4(vec![10, 0, 0, 1]);
    assert_eq!(addr.to_bytes(), vec![5, 1, 0, 1, 10, 0, 0, 1]);
}

#[test]
fn ipv4_display() {
    let addr = SocksAddrType::Ipv4(vec![192, 0, 2, 1]);
    assert_eq!(addr.display_bytes(), b"192.0.2.1".to_vec());
}

#[test]
fn domain_display_is_raw() {
    let addr = SocksAddrType::Domain(b"example.com".to_vec());
    assert_eq!(addr.display_bytes(), b"example.com".to_vec());
}

#[test]
fn ipv6_display_has_eight_groups() {
    let addr = SocksAddrType::Ipv6(vec![
        0x20, 0x01, 0x0D, 0xB8, 0, 0, 0, 0, 0, 0, 0, 0, 0x00, 0x12, 0x00, 0x34,
    ]);
    let shown = addr.display_bytes();
    assert_eq!(shown, b"[2001:0DB8:0000:0000:0000:0000:0012:0034]".to_vec());
    assert_eq!(shown.len(), 41);
    assert_eq!(shown.iter().filter(|&&c| c == b':').count(), 7);
}
