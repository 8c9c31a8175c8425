use proxies_rotator::list::load_proxies_from_bytes;
use proxies_rotator::proxy::HostAddr;
use proxies_rotator::proxy::Proxy;
use proxies_rotator::proxy::SocketAddress;

#[test]
fn test_parse_empty() {
    let list = load_proxies_from_bytes(b"").unwrap();
    assert_eq!(list, Vec::<Proxy>::new());
}

#[test]
fn test_parse_empty_newline() {
    let list = load_proxies_from_bytes(b"\n").unwrap();
    assert_eq!(list, Vec::<Proxy>::new());
}

#[test]
fn test_parse_empty_two_newlines() {
    let list = load_proxies_from_bytes(b"\n\n").unwrap();
    assert_eq!(list, Vec::<Proxy>::new());
}

#[test]
fn test_parse_empty_comment() {
    let list = load_proxies_from_bytes(b"# this is a comment").unwrap();
    assert_eq!(list, Vec::<Proxy>::new());
}

#[test]
fn list_test_parse_ipv4() {
    let list = load_proxies_from_bytes(b"192.0.2.1:1337").unwrap();
    assert_eq!(list.len(), 1);
    assert_eq!(
        list[0].addr,
        SocketAddress { ip: HostAddr::V4([192, 0, 2, 1]), port: 1337 }
    );
    assert!(list[0].auth.is_none());
}

#[test]
fn list_test_parse_ipv6() {
    let list = load_proxies_from_bytes(b"[2001:0DB8::12:34]:1337").unwrap();
    assert_eq!(list.len(), 1);
    assert_eq!(
        list[0].addr,
        SocketAddress {
            ip: HostAddr::V6([0x2001, 0xdb8, 0, 0, 0, 0, 0x12, 0x34]),
            port: 1337,
        }
    );
    assert!(list[0].auth.is_none());
}

#[test]
fn test_parse_mixed() {
    let buf = b"192.0.2.1:1337
192.0.2.2:1337
192.0.2.3:1337
[2001:0DB8::12:34]:1337
[2001:0DB8::56:78]:1337


";
    let list = load_proxies_from_bytes(buf).unwrap();
    let addrs: Vec<SocketAddress> = list.iter().map(|p| p.addr).collect();
    assert_eq!(
        addrs,
        vec![
            SocketAddress { ip: HostAddr::V4([192, 0, 2, 1]), port: 1337 },
            SocketAddress { ip: HostAddr::V4([192, 0, 2, 2]), port: 1337 },
            SocketAddress { ip: HostAddr::V4([192, 0, 2, 3]), port: 1337 },
            SocketAddress {
                ip: HostAddr::V6([0x2001, 0xdb8, 0, 0, 0, 0, 0x12, 0x34]),
                port: 1337,
            },
            SocketAddress {
                ip: HostAddr::V6([0x2001, 0xdb8, 0, 0, 0, 0, 0x56, 0x78]),
                port: 1337,
            },
        ]
    );
}

#[test]
fn config_test_parse_ipv4() {
    let list = load_proxies_from_bytes(b"192.0.2.1:1337").unwrap();
    for proxy in list {
        assert!(proxy.auth.is_none());
        assert!(proxy.addr.is_ipv4());
        assert_eq!(proxy.addr.port(), 1337);
        assert_eq!(proxy.addr.display_bytes(), b"192.0.2.1:1337".to_vec());
    }
}

#[test]
fn config_test_parse_ipv6() {
    let list = load_proxies_from_bytes(b"[2001:db8::12:34]:1337").unwrap();
    for proxy in list {
        assert!(proxy.auth.is_none());
        assert!(proxy.addr.is_ipv6());
        assert_eq!(proxy.addr.port(), 1337);
        assert_eq!(proxy.addr.display_bytes(), b"[2001:db8::12:34]:1337".to_vec());
    }
}

#[test]
fn descriptor_line_with_credentials() {
    let buf = b"192.0.2.1:1080\n192.0.2.2:1080|alice:secret\n\n# upstreams\n";
    let list = load_proxies_from_bytes(buf).unwrap();
    assert_eq!(list.len(), 2);
    assert!(list[0].auth.is_none());
    assert_eq!(
        list[0].addr,
        SocketAddress { ip: HostAddr::V4([192, 0, 2, 1]), port: 1080 }
    );
    let auth = list[1].auth.as_ref().unwrap();
    assert_eq!(auth.username, "alice");
    assert_eq!(auth.password, "secret");
    assert_eq!(
        list[1].addr,
        SocketAddress { ip: HostAddr::V4([192, 0, 2, 2]), port: 1080 }
    );
}

#[test]
fn invalid_lines_are_skipped() {
    let buf = b"not an address\n192.0.2.1:1080\n300.0.0.1:1080\n1.2.3.4:70000\n";
    let list = load_proxies_from_bytes(buf).unwrap();
    assert_eq!(list.len(), 1);
    assert_eq!(
        list[0].addr,
        SocketAddress { ip: HostAddr::V4([192, 0, 2, 1]), port: 1080 }
    );
}

#[test]
fn invalid_utf8_is_a_parser_error() {
    assert!(load_proxies_from_bytes(&[0xFF, 0xFE, b'\n']).is_err());
}

#[test]
fn windows_line_endings_are_accepted() {
    let list = load_proxies_from_bytes(b"192.0.2.1:1337\r\n").unwrap();
    assert_eq!(list.len(), 1);
    assert_eq!(list[0].addr.port(), 1337);
}
