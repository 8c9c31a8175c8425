use proxies_rotator::list::load_proxies_from_bytes;
use proxies_rotator::pool::ProxyPool;
use proxies_rotator::proxy::HostAddr;
use proxies_rotator::proxy::SocketAddress;

#[test]
fn pool_publishes_what_it_was_built_from() {
    let list = load_proxies_from_bytes(b"192.0.2.1:1080\n192.0.2.2:1080|alice:secret\n").unwrap();
    let pool = ProxyPool::new(list.clone());
    assert_eq!(pool.load(), list);
}

#[test]
fn reload_replaces_the_whole_list() {
    let old_list = load_proxies_from_bytes(b"192.0.2.1:1080\n").unwrap();
    let new_list = load_proxies_from_bytes(b"192.0.2.9:1080\n[2001:db8::1]:1080\n").unwrap();
    let mut pool = ProxyPool::new(old_list.clone());
    // A snapshot taken before the reload stays as it was.
    let before = pool.load();
    assert_eq!(before, old_list);
    pool.reload(new_list.clone());
    // A snapshot taken after the reload is entirely the new list, never a
    // mixture of the two.
    let after = pool.load();
    assert_eq!(after, new_list);
    assert_eq!(before, old_list);
}

#[test]
fn reload_from_valid_text_counts_descriptors() {
    let mut pool = ProxyPool::new(Vec::new());
    let n = pool.reload_from_bytes(b"192.0.2.1:1080\n# comment\n192.0.2.2:1080\n").unwrap();
    assert_eq!(n, 2);
    assert_eq!(pool.load().len(), 2);
}

#[test]
fn failed_reload_keeps_the_previous_list() {
    let list = load_proxies_from_bytes(b"192.0.2.1:1080\n192.0.2.2:1080|alice:secret\n").unwrap();
    let mut pool = ProxyPool::new(list.clone());
    let before = pool.load();
    // Text that is not valid UTF-8 cannot be read as a list.
    assert!(pool.reload_from_bytes(&[0xC0, 0x00, b'\n']).is_err());
    // The previously published descriptors are observably unchanged.
    assert_eq!(pool.load(), before);
    assert_eq!(pool.load(), list);
}

#[test]
fn first_descriptor_is_selected() {
    let list = load_proxies_from_bytes(b"192.0.2.1:1080\n192.0.2.2:1080\n").unwrap();
    let chosen = ProxyPool::select_upstream(&list).unwrap();
    assert_eq!(
        chosen.addr,
        SocketAddress { ip: HostAddr::V4([192, 0, 2, 1]), port: 1080 }
    );
}

#[test]
fn empty_snapshot_selects_nothing() {
    assert!(ProxyPool::select_upstream(&Vec::new()).is_none());
}
