use proxies_rotator::proxy::HostAddr;
use proxies_rotator::proxy::Proxy;
use proxies_rotator::proxy::SocketAddress;

#[test]
fn parses_ipv4_with_port() {
    let a = SocketAddress::parse(b"192.0.2.1:1337").unwrap();
    assert_eq!(a, SocketAddress { ip: HostAddr::V4([192, 0, 2, 1]), port: 1337 });
}

#[test]
fn parses_bracketed_ipv6_with_port() {
    let a = SocketAddress::parse(b"[2001:db8::12:34]:1337").unwrap();
    assert_eq!(
        a,
        SocketAddress { ip: HostAddr::V6([0x2001, 0xdb8, 0, 0, 0, 0, 0x12, 0x34]), port: 1337 }
    );
}

#[test]
fn parses_full_and_compressed_ipv6_forms() {
    let full = SocketAddress::parse(b"[2001:db8:0:0:0:0:12:34]:1").unwrap();
    let compressed = SocketAddress::parse(b"[2001:DB8::12:34]:1").unwrap();
    assert_eq!(full.ip, compressed.ip);
    let loopback = SocketAddress::parse(b"[::1]:80").unwrap();
    assert_eq!(loopback.ip, HostAddr::V6([0, 0, 0, 0, 0, 0, 0, 1]));
    let unspecified = SocketAddress::parse(b"[::]:80").unwrap();
    assert_eq!(unspecified.ip, HostAddr::V6([0; 8]));
    let trailing = SocketAddress::parse(b"[1::]:80").unwrap();
    assert_eq!(trailing.ip, HostAddr::V6([1, 0, 0, 0, 0, 0, 0, 0]));
}

#[test]
fn parses_ipv6_with_embedded_ipv4_tail() {
    let mapped = SocketAddress::parse(b"[::ffff:192.0.2.1]:1080").unwrap();
    assert_eq!(
        mapped.ip,
        HostAddr::V6([0, 0, 0, 0, 0, 0xffff, 0xc000, 0x0201])
    );
    assert_eq!(mapped.port(), 1080);
    let full = SocketAddress::parse(b"[1:2:3:4:5:6:7.8.9.10]:80").unwrap();
    assert_eq!(full.ip, HostAddr::V6([1, 2, 3, 4, 5, 6, 0x0708, 0x090a]));
    let compat = SocketAddress::parse(b"[::192.0.2.1]:80").unwrap();
    assert_eq!(compat.ip, HostAddr::V6([0, 0, 0, 0, 0, 0, 0xc000, 0x0201]));
    // The dotted quad may only stand last, and only once.
    assert!(SocketAddress::parse(b"[1.2.3.4::]:80").is_none());
    assert!(SocketAddress::parse(b"[::1.2.3.4:5]:80").is_none());
    assert!(SocketAddress::parse(b"[1:2:3:4:5:6:7:7.8.9.10]:80").is_none());
}

#[test]
fn rejects_zone_suffixes() {
    // A descriptor names a host and port only; a scope identifier has no
    // place in it.
    assert!(SocketAddress::parse(b"[fe80::1%1]:80").is_none());
    assert!(SocketAddress::parse(b"[fe80::1%eth0]:80").is_none());
}

#[test]
fn rejects_out_of_range_and_malformed_addresses() {
    assert!(SocketAddress::parse(b"").is_none());
    assert!(SocketAddress::parse(b"192.0.2.1").is_none());
    assert!(SocketAddress::parse(b"300.0.2.1:80").is_none());
    assert!(SocketAddress::parse(b"192.0.2:80").is_none());
    assert!(SocketAddress::parse(b"192.0.2.1:").is_none());
    assert!(SocketAddress::parse(b"192.0.2.1:70000").is_none());
    assert!(SocketAddress::parse(b"[2001:db8::12:34]").is_none());
    assert!(SocketAddress::parse(b"[1:::2]:80").is_none());
    assert!(SocketAddress::parse(b"[1:2:3:4:5:6:7]:80").is_none());
    assert!(SocketAddress::parse(b"[1:2:3:4:5:6:7:8:9]:80").is_none());
    assert!(SocketAddress::parse(b"[12345::]:80").is_none());
}

#[test]
fn renders_ipv4_and_ipv6_addresses() {
    let v4 = SocketAddress { ip: HostAddr::V4([192, 0, 2, 1]), port: 1337 };
    assert_eq!(v4.display_bytes(), b"192.0.2.1:1337".to_vec());
    let v6 = SocketAddress { ip: HostAddr::V6([0x2001, 0xdb8, 0, 0, 0, 0, 0x12, 0x34]), port: 1337 };
    assert_eq!(v6.display_bytes(), b"[2001:db8::12:34]:1337".to_vec());
}

#[test]
fn renders_ipv6_zero_compression_edge_forms() {
    let show = |h: [u16; 8]| SocketAddress { ip: HostAddr::V6(h), port: 80 }.display_bytes();
    // All zero, and zeros at either end.
    assert_eq!(show([0; 8]), b"[::]:80".to_vec());
    assert_eq!(show([0, 0, 0, 0, 0, 0, 0, 1]), b"[::1]:80".to_vec());
    assert_eq!(show([1, 0, 0, 0, 0, 0, 0, 0]), b"[1::]:80".to_vec());
    // A single zero group is not compressed.
    assert_eq!(
        show([1, 0, 2, 3, 4, 5, 6, 7]),
        b"[1:0:2:3:4:5:6:7]:80".to_vec()
    );
    // The leftmost of two equal runs is compressed; a longer later run
    // wins over a shorter earlier one.
    assert_eq!(show([1, 0, 0, 2, 3, 0, 0, 4]), b"[1::2:3:0:0:4]:80".to_vec());
    assert_eq!(show([1, 0, 0, 2, 0, 0, 0, 3]), b"[1:0:0:2::3]:80".to_vec());
    // No run of two or more zeros at all.
    assert_eq!(
        show([0x2001, 0xdb8, 1, 2, 3, 4, 5, 6]),
        b"[2001:db8:1:2:3:4:5:6]:80".to_vec()
    );
}

#[test]
fn renders_embedded_ipv4_forms() {
    let show = |h: [u16; 8]| SocketAddress { ip: HostAddr::V6(h), port: 80 }.display_bytes();
    // IPv4-mapped and IPv4-compatible addresses show a dotted quad.
    assert_eq!(
        show([0, 0, 0, 0, 0, 0xffff, 0xc000, 0x0201]),
        b"[::ffff:192.0.2.1]:80".to_vec()
    );
    assert_eq!(
        show([0, 0, 0, 0, 0, 0, 0xc000, 0x0201]),
        b"[::192.0.2.1]:80".to_vec()
    );
    assert_eq!(show([0, 0, 0, 0, 0, 0, 0, 5]), b"[::0.0.0.5]:80".to_vec());
    // The all-zero and loopback addresses keep their short forms.
    assert_eq!(show([0; 8]), b"[::]:80".to_vec());
    assert_eq!(show([0, 0, 0, 0, 0, 0, 0, 1]), b"[::1]:80".to_vec());
    // A parsed mapped descriptor renders back as it was written.
    let a = SocketAddress::parse(b"[::ffff:192.0.2.1]:1080").unwrap();
    assert_eq!(a.display_bytes(), b"[::ffff:192.0.2.1]:1080".to_vec());
}

#[test]
fn descriptor_line_without_credentials() {
    let p = Proxy::try_from(b"192.0.2.1:1080").unwrap();
    assert_eq!(p.addr, SocketAddress { ip: HostAddr::V4([192, 0, 2, 1]), port: 1080 });
    assert!(p.auth.is_none());
}

#[test]
fn descriptor_line_with_credential_pair() {
    let p = Proxy::try_from(b"192.0.2.2:1080|alice:secret").unwrap();
    let auth = p.auth.unwrap();
    assert_eq!(auth.username, "alice");
    assert_eq!(auth.password, "secret");
}

#[test]
fn descriptor_password_stops_at_the_next_colon() {
    let p = Proxy::try_from(b"192.0.2.2:1080|alice:sec:ret").unwrap();
    let auth = p.auth.unwrap();
    assert_eq!(auth.username, "alice");
    assert_eq!(auth.password, "sec");
}

#[test]
fn descriptor_credentials_end_at_the_second_pipe() {
    let p = Proxy::try_from(b"192.0.2.2:1080|alice:se|cret:x").unwrap();
    let auth = p.auth.unwrap();
    assert_eq!(auth.username, "alice");
    assert_eq!(auth.password, "se");
}

#[test]
fn descriptor_line_with_bad_credentials_is_rejected() {
    assert!(Proxy::try_from(b"192.0.2.2:1080|alicesecret").is_err());
    assert!(Proxy::try_from(b"not an address|alice:secret").is_err());
}
