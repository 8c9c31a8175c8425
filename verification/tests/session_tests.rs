use proxies_rotator::codec::SocksAddrType;
use proxies_rotator::errors::ClientError;
use proxies_rotator::list::load_proxies_from_bytes;
use proxies_rotator::session::inbound_step;
use proxies_rotator::session::plan_connection;
use proxies_rotator::session::InboundStep;

#[test]
fn inbound_steps_through_a_whole_exchange() {
    let mut buf: Vec<u8> = Vec::new();
    assert_eq!(inbound_step(&buf, false), InboundStep::Wait);
    buf.extend_from_slice(&[5, 1, 0]);
    // The completed greeting is answered exactly once, with `05 00`.
    assert_eq!(inbound_step(&buf, false), InboundStep::Reply(vec![5, 0]));
    assert_eq!(inbound_step(&buf, true), InboundStep::Wait);
    buf.extend_from_slice(&[5, 1, 0, 1, 192, 0, 2, 1, 5, 57]);
    assert_eq!(
        inbound_step(&buf, true),
        InboundStep::Target(SocksAddrType::Ipv4(vec![192, 0, 2, 1]), 1337)
    );
}

#[test]
fn inbound_aborts_without_replying_on_zero_methods() {
    // A greeting offering no methods aborts the connection before any
    // reply is produced.
    match inbound_step(&[5, 0], false) {
        InboundStep::Abort(ClientError::HandShake(_)) => (),
        other => panic!("unexpected step: {:?}", other),
    }
}

#[test]
fn empty_pool_aborts_the_connection() {
    let target = SocksAddrType::Ipv4(vec![192, 0, 2, 7]);
    match plan_connection(&Vec::new(), &target, 443) {
        Err(ClientError::Connect(_)) => (),
        other => panic!("unexpected outcome: {:?}", other.map(|_| ())),
    }
}

#[test]
fn plan_uses_first_upstream_and_exact_frames() {
    let snapshot = load_proxies_from_bytes(b"192.0.2.1:1080\n192.0.2.2:1080\n").unwrap();
    let target = SocksAddrType::Domain(b"example.com".to_vec());
    let plan = plan_connection(&snapshot, &target, 443).unwrap();
    assert_eq!(plan.upstream, snapshot[0].addr);
    assert_eq!(plan.greeting, vec![5, 1, 0]);
    assert!(plan.auth.is_none());
    let mut expected = vec![5u8, 1, 0, 3, 11];
    expected.extend_from_slice(b"example.com");
    expected.extend_from_slice(&[1, 187]);
    assert_eq!(plan.request, expected);
}

#[test]
fn oversized_credentials_abort_the_connection() {
    let mut line = b"192.0.2.1:1080|".to_vec();
    line.extend_from_slice(&[b'u'; 300]);
    line.extend_from_slice(b":pw\n");
    let snapshot = load_proxies_from_bytes(&line).unwrap();
    assert_eq!(snapshot.len(), 1);
    let target = SocksAddrType::Ipv4(vec![10, 0, 0, 1]);
    match plan_connection(&snapshot, &target, 80) {
        Err(ClientError::Auth(_)) => (),
        other => panic!("unexpected outcome: {:?}", other.map(|_| ())),
    }
}

#[test]
fn plan_includes_credential_frame_when_configured() {
    let snapshot = load_proxies_from_bytes(b"192.0.2.1:1080|alice:secret\n").unwrap();
    let target = SocksAddrType::Ipv4(vec![10, 0, 0, 1]);
    let plan = plan_connection(&snapshot, &target, 8080).unwrap();
    let mut auth = vec![1u8, 5];
    auth.extend_from_slice(b"alice");
    auth.push(6);
    auth.extend_from_slice(b"secret");
    assert_eq!(plan.auth.unwrap(), auth);
    assert_eq!(plan.request, vec![5, 1, 0, 1, 10, 0, 0, 1, 31, 144]);
}
