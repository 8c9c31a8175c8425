use proxies_rotator::codec::SocksAddrType;
use proxies_rotator::errors::ClientError;
use proxies_rotator::outbound::auth_request;
use proxies_rotator::outbound::check_method_reply;
use proxies_rotator::outbound::connect_request;
use proxies_rotator::outbound::outbound_greeting;
use proxies_rotator::proxy::ProxyAuth;

#[test]
fn greeting_offers_no_auth_only() {
    assert_eq!(outbound_greeting(), vec![5, 1, 0]);
}

#[test]
fn method_reply_accepts_version_five() {
    assert!(check_method_reply(&[5, 0]).is_ok());
    assert!(check_method_reply(&[5, 2, 9, 9]).is_ok());
}

#[test]
fn method_reply_rejects_short_or_foreign_reply() {
    assert!(matches!(check_method_reply(&[]), Err(ClientError::HandShake(_))));
    assert!(matches!(check_method_reply(&[5]), Err(ClientError::HandShake(_))));
    assert!(matches!(check_method_reply(&[4, 0]), Err(ClientError::HandShake(_))));
}

#[test]
fn auth_frame_carries_both_credentials() {
    let auth = ProxyAuth { username: "alice".to_owned(), password: "secret".to_owned() };
    let mut expected = vec![1u8, 5];
    expected.extend_from_slice(b"alice");
    expected.push(6);
    expected.extend_from_slice(b"secret");
    assert_eq!(auth_request(&auth), expected);
}

#[test]
fn auth_frame_with_empty_credentials() {
    let auth = ProxyAuth { username: String::new(), password: String::new() };
    assert_eq!(auth_request(&auth), vec![1, 0, 0]);
}

#[test]
fn connect_frame_appends_big_endian_port() {
    let target = SocksAddrType::Ipv4(vec![192, 0, 2, 1]);
    assert_eq!(connect_request(&target, 1337), vec![5, 1, 0, 1, 192, 0, 2, 1, 5, 57]);
    let domain = SocksAddrType::Domain(b"example.com".to_vec());
    let mut expected = vec![5u8, 1, 0, 3, 11];
    expected.extend_from_slice(b"example.com");
    expected.extend_from_slice(&[0, 80]);
    assert_eq!(connect_request(&domain, 80), expected);
}
