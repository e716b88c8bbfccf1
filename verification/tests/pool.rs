//! Address pool behaviour: allocation, re-binding, verification, eviction.

use dhc3po::types::DhcpOption;
use dhc3po::types::MacAddr;
use dhc3po::AddrPool;
use dhc3po::Client;

const SUBNET: [u8; 4] = [192, 168, 1, 0];
const MASK: [u8; 4] = [255, 255, 255, 0];

fn mac(last: u8) -> MacAddr {
    MacAddr::new([2, 0, 0, 0, 0, last])
}

#[test]
fn request_allocates_lowest_free_address() {
    let mut pool = AddrPool::new(SUBNET, MASK, ([192, 168, 1, 100], [192, 168, 1, 110]));
    assert_eq!(pool.request(&mac(1), 1000), [192, 168, 1, 100]);
    assert_eq!(pool.request(&mac(2), 1000), [192, 168, 1, 101]);
    assert_eq!(pool.request(&mac(3), 1000), [192, 168, 1, 102]);
}

#[test]
fn request_then_verify_request_holds() {
    let mut pool = AddrPool::new(SUBNET, MASK, ([192, 168, 1, 100], [192, 168, 1, 110]));
    let ip = pool.request(&mac(9), 500);
    assert!(pool.verify_request(&mac(9), &ip));
    assert!(!pool.verify_request(&mac(8), &ip));
}

#[test]
fn repeated_request_returns_same_address() {
    let mut pool = AddrPool::new(SUBNET, MASK, ([192, 168, 1, 100], [192, 168, 1, 110]));
    let first = pool.request(&mac(7), 500);
    let again = pool.request(&mac(7), 900);
    assert_eq!(first, again);
    assert_eq!(pool.lookup_mac(&mac(7)), Some(first));
}

#[test]
fn exhaustion_evicts_the_oldest_lease() {
    // Two addresses, three clients: the third grant reclaims the slot
    // whose lease expires soonest (the first one).
    let mut pool = AddrPool::new(SUBNET, MASK, ([192, 168, 1, 100], [192, 168, 1, 101]));
    let a = pool.request(&mac(1), 1000);
    let b = pool.request(&mac(2), 2000);
    assert_eq!(a, [192, 168, 1, 100]);
    assert_eq!(b, [192, 168, 1, 101]);
    let c = pool.request(&mac(3), 3000);
    assert_eq!(c, a);
    assert!(pool.verify_request(&mac(3), &c));
    assert!(!pool.verify_request(&mac(1), &c));
    assert!(pool.verify_request(&mac(2), &b));
}

#[test]
fn eviction_picks_minimum_expiry_not_first_slot() {
    let mut pool = AddrPool::new(SUBNET, MASK, ([10, 0, 0, 1], [10, 0, 0, 2]));
    // Grant the second slot an EARLIER expiry than the first.
    let a = pool.request(&mac(1), 5000);
    let b = pool.request(&mac(2), 1000);
    assert_eq!(a, [10, 0, 0, 1]);
    assert_eq!(b, [10, 0, 0, 2]);
    let c = pool.request(&mac(3), 1500);
    assert_eq!(c, b);
    assert!(pool.verify_request(&mac(1), &a));
    assert!(pool.verify_request(&mac(3), &b));
}

#[test]
fn lease_time_comes_from_the_pool_default() {
    let mut pool = AddrPool::new(SUBNET, MASK, ([10, 0, 0, 1], [10, 0, 0, 1]));
    assert!(pool.add_option(DhcpOption::LeaseTime(60)));
    let ip = pool.request(&mac(1), 1000);
    // Evict at now=1061: the lease granted at 1000 expired at 1060.
    let ip2 = pool.request(&mac(2), 1061);
    assert_eq!(ip, ip2);
    assert!(pool.verify_request(&mac(2), &ip));
}

#[test]
fn verify_request_rejects_foreign_and_free_addresses() {
    let mut pool = AddrPool::new(SUBNET, MASK, ([192, 168, 1, 100], [192, 168, 1, 110]));
    assert!(!pool.verify_request(&mac(1), &[192, 168, 1, 100])); // nothing leased
    let ip = pool.request(&mac(1), 100);
    assert!(!pool.verify_request(&mac(1), &[192, 168, 1, 200])); // out of range
    assert!(!pool.verify_request(&mac(1), &[192, 168, 1, 101])); // free slot
    assert!(pool.verify_request(&mac(1), &ip));
}

#[test]
fn lookup_mac_returns_lowest_match_or_nothing() {
    let mut pool = AddrPool::new(SUBNET, MASK, ([192, 168, 1, 100], [192, 168, 1, 110]));
    assert_eq!(pool.lookup_mac(&mac(5)), None);
    pool.request(&mac(4), 100);
    let ip = pool.request(&mac(5), 100);
    assert_eq!(pool.lookup_mac(&mac(5)), Some(ip));
}

#[test]
fn pool_defaults_start_with_subnet_mask_and_end() {
    let pool = AddrPool::new(SUBNET, MASK, ([192, 168, 1, 100], [192, 168, 1, 110]));
    assert_eq!(pool.options().get(1), Some(DhcpOption::SubnetMask(MASK)));
    assert_eq!(pool.options().get(255), Some(DhcpOption::End));
    assert_eq!(pool.options().get(3), None);
}

#[test]
fn add_option_replaces_and_respects_the_budget() {
    let mut pool = AddrPool::new(SUBNET, MASK, ([10, 0, 0, 1], [10, 0, 0, 1]));
    assert!(pool.add_option(DhcpOption::Router([10, 0, 0, 1])));
    assert!(pool.add_option(DhcpOption::Router([10, 0, 0, 2])));
    assert_eq!(
        pool.options().get(3),
        Some(DhcpOption::Router([10, 0, 0, 2]))
    );
    // Four 66-byte name options would blow the reply budget: the last is
    // refused and the registered defaults stay as they were.
    let name = [7u8; 64];
    assert!(pool.add_option(DhcpOption::HostName(name, 64)));
    assert!(pool.add_option(DhcpOption::DomainName(name, 64)));
    assert!(pool.add_option(DhcpOption::TftpServerName(name, 64)));
    assert!(!pool.add_option(DhcpOption::BootFileName(name, 64)));
    assert_eq!(pool.options().get(67), None);
    assert_eq!(pool.options().get(66), Some(DhcpOption::TftpServerName(name, 64)));
}

#[test]
fn client_lease_expiry_is_now_plus_lease_time() {
    let lease = Client::new(&mac(1), 100, 1000);
    assert_eq!(lease.expires, 1100);
    assert_eq!(lease.mac_address, mac(1));
}
