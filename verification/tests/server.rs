//! The state machine end to end: Discover, Request, Nack, and the option
//! registry the replies are built from.

use dhc3po::types::DhcpOption;
use dhc3po::types::DhcpOptionList;
use dhc3po::types::MessageType;
use dhc3po::types::ParameterRequest;
use dhc3po::AddrPool;
use dhc3po::Dhcp;

const XID: [u8; 4] = [0xAA, 0xBB, 0xCC, 0xDD];
const MAC: [u8; 6] = [0xAA, 0xBB, 0xCC, 0xDD, 0xEE, 0xFF];

fn base_request(xid: [u8; 4], mac: [u8; 6], opts: &[u8]) -> Vec<u8> {
    let mut d = vec![0u8; 240];
    d[0] = 1;
    d[1] = 1;
    d[2] = 6;
    d[4..8].copy_from_slice(&xid);
    d[28..34].copy_from_slice(&mac);
    d[236] = 0x63;
    d[237] = 0x82;
    d[238] = 0x53;
    d[239] = 0x63;
    d.extend_from_slice(opts);
    d
}

/// The pool of the Discover/Request scenarios: 192.168.1.100..101, with
/// router, lease time and server identifier defaults registered.
fn scenario_pool() -> AddrPool {
    let mut pool = AddrPool::new(
        [192, 168, 1, 0],
        [255, 255, 255, 0],
        ([192, 168, 1, 100], [192, 168, 1, 101]),
    );
    assert!(pool.add_option(DhcpOption::Router([192, 168, 1, 1])));
    assert!(pool.add_option(DhcpOption::LeaseTime(3600)));
    assert!(pool.add_option(DhcpOption::DhcpServerIpAddr([192, 168, 1, 1])));
    pool
}

/// The options of a reply datagram, decoded into (opcode, payload) pairs.
fn reply_options(buf: &[u8]) -> Vec<(u8, Vec<u8>)> {
    let mut out = Vec::new();
    let mut i = 240;
    while i < buf.len() {
        let op = buf[i];
        if op == 255 {
            out.push((255, Vec::new()));
            break;
        }
        if op == 0 {
            out.push((0, Vec::new()));
            i += 1;
            continue;
        }
        let len = buf[i + 1] as usize;
        out.push((op, buf[i + 2..i + 2 + len].to_vec()));
        i += 2 + len;
    }
    out
}

#[test]
fn discover_gets_an_offer_with_requested_options() {
    // Fresh client broadcasts a Discover asking for subnet mask and router.
    let mut pool = scenario_pool();
    let data = base_request(XID, MAC, &[53, 1, 1, 55, 2, 1, 3, 255]);
    let packet = Dhcp::parse(&data).unwrap();
    let mut buf = vec![0u8; 512];
    let n = packet.handle(&mut pool, &mut buf, 1000);

    assert!(n >= 240);
    assert_eq!(buf[0], 2, "reply is a BOOTREPLY");
    assert_eq!(buf[1], 1);
    assert_eq!(buf[2], 6);
    assert_eq!(&buf[4..8], &XID, "xid is echoed");
    assert_eq!(&buf[16..20], &[192, 168, 1, 100], "first address offered");
    assert_eq!(&buf[20..24], &[192, 168, 1, 1], "siaddr from server identifier");
    assert_eq!(&buf[28..34], &MAC, "chaddr is echoed");
    assert_eq!(&buf[236..240], &[0x63, 0x82, 0x53, 0x63]);
    assert_eq!(
        reply_options(&buf[..n]),
        vec![
            (1, vec![255, 255, 255, 0]),
            (3, vec![192, 168, 1, 1]),
            (51, vec![0, 0, 0x0E, 0x10]),
            (53, vec![2]),
            (54, vec![192, 168, 1, 1]),
            (255, vec![]),
        ]
    );
    assert!(buf[n..].iter().all(|b| *b == 0));
}

#[test]
fn unsatisfiable_requested_options_are_skipped() {
    let mut pool = scenario_pool();
    // Parameter 6 (DNS) has no pool default; 3 (router) does.
    let data = base_request(XID, MAC, &[53, 1, 1, 55, 2, 6, 3, 255]);
    let packet = Dhcp::parse(&data).unwrap();
    let mut buf = vec![0u8; 512];
    let n = packet.handle(&mut pool, &mut buf, 1000);
    let opts = reply_options(&buf[..n]);
    assert!(opts.iter().any(|(op, _)| *op == 3));
    assert!(!opts.iter().any(|(op, _)| *op == 6));
}

#[test]
fn request_for_granted_address_is_acked() {
    // Following the Discover, the client requests the offered address.
    let mut pool = scenario_pool();
    let discover = base_request(XID, MAC, &[53, 1, 1, 255]);
    let mut buf = vec![0u8; 512];
    Dhcp::parse(&discover).unwrap().handle(&mut pool, &mut buf, 1000);

    let request = base_request(XID, MAC, &[50, 4, 192, 168, 1, 100, 53, 1, 3, 255]);
    let packet = Dhcp::parse(&request).unwrap();
    let mut buf = vec![0u8; 512];
    let n = packet.handle(&mut pool, &mut buf, 1001);
    assert_eq!(&buf[16..20], &[192, 168, 1, 100]);
    let opts = reply_options(&buf[..n]);
    assert!(opts.contains(&(53, vec![5])), "Ack sent: {:?}", opts);
    assert!(opts.contains(&(255, vec![])));
}

#[test]
fn request_for_foreign_address_is_nacked() {
    let mut pool = scenario_pool();
    let discover = base_request(XID, MAC, &[53, 1, 1, 255]);
    let mut buf = vec![0u8; 512];
    Dhcp::parse(&discover).unwrap().handle(&mut pool, &mut buf, 1000);

    // Same client asks for an address it does not hold.
    let request = base_request(XID, MAC, &[50, 4, 192, 168, 1, 200, 53, 1, 3, 255]);
    let packet = Dhcp::parse(&request).unwrap();
    let mut buf = vec![0u8; 512];
    let n = packet.handle(&mut pool, &mut buf, 1001);
    assert_eq!(&buf[16..20], &[0, 0, 0, 0], "no address granted");
    assert_eq!(reply_options(&buf[..n]), vec![(53, vec![6]), (255, vec![])]);
}

#[test]
fn renewing_client_is_acked_on_its_own_address() {
    let mut pool = scenario_pool();
    let discover = base_request(XID, MAC, &[53, 1, 1, 255]);
    let mut buf = vec![0u8; 512];
    Dhcp::parse(&discover).unwrap().handle(&mut pool, &mut buf, 1000);

    // ciaddr set, no RequestedIpAddr: RENEWING.
    let mut renew = base_request(XID, MAC, &[53, 1, 3, 255]);
    renew[12..16].copy_from_slice(&[192, 168, 1, 100]);
    let packet = Dhcp::parse(&renew).unwrap();
    let mut buf = vec![0u8; 512];
    let n = packet.handle(&mut pool, &mut buf, 1001);
    assert_eq!(&buf[16..20], &[192, 168, 1, 100]);
    let opts = reply_options(&buf[..n]);
    assert!(opts.contains(&(53, vec![5])), "Ack sent: {:?}", opts);
}

#[test]
fn exhausted_pool_reassigns_by_eviction() {
    // One address only: a second client's Discover reclaims it.
    let mut pool = AddrPool::new(
        [192, 168, 1, 0],
        [255, 255, 255, 0],
        ([192, 168, 1, 100], [192, 168, 1, 100]),
    );
    let mac_b: [u8; 6] = [2, 2, 2, 2, 2, 2];

    let mut buf = vec![0u8; 512];
    let first = base_request(XID, MAC, &[53, 1, 1, 255]);
    Dhcp::parse(&first).unwrap().handle(&mut pool, &mut buf, 1000);
    assert_eq!(&buf[16..20], &[192, 168, 1, 100]);

    let mut buf = vec![0u8; 512];
    let second = base_request([1, 2, 3, 4], mac_b, &[53, 1, 1, 255]);
    Dhcp::parse(&second).unwrap().handle(&mut pool, &mut buf, 2000);
    assert_eq!(&buf[16..20], &[192, 168, 1, 100]);

    // The lease now belongs to the second client.
    assert!(pool.verify_request(&dhc3po::types::MacAddr::new(mac_b), &[192, 168, 1, 100]));
    assert!(!pool.verify_request(&dhc3po::types::MacAddr::new(MAC), &[192, 168, 1, 100]));
}

#[test]
fn unhandled_message_kinds_produce_no_datagram() {
    let mut pool = scenario_pool();
    for code in [4u8, 7, 8] {
        // Decline, Release, Inform
        let data = base_request(XID, MAC, &[53, 1, code, 255]);
        let packet = Dhcp::parse(&data).unwrap();
        let mut buf = vec![0u8; 512];
        let n = packet.handle(&mut pool, &mut buf, 1000);
        assert_eq!(n, 0);
        assert!(buf.iter().all(|b| *b == 0));
    }
}

#[test]
fn adding_twice_keeps_the_second_option() {
    let mut list = DhcpOptionList::builder();
    list.add(DhcpOption::LeaseTime(100));
    list.add(DhcpOption::LeaseTime(200));
    assert_eq!(list.get(51), Some(DhcpOption::LeaseTime(200)));
    // And the other slots are untouched.
    assert_eq!(list.get(50), None);
}

#[test]
fn option_list_is_indexed_by_opcode() {
    let mut list = DhcpOptionList::builder();
    assert_eq!(list.get(3), None);
    list.add(DhcpOption::Router([1, 2, 3, 4]));
    list.add(DhcpOption::End);
    assert_eq!(list.get(3), Some(DhcpOption::Router([1, 2, 3, 4])));
    assert_eq!(list.get(255), Some(DhcpOption::End));
    let slots = list.consume();
    assert_eq!(slots.len(), 256);
    assert_eq!(slots[3], Some(DhcpOption::Router([1, 2, 3, 4])));
}

#[test]
fn opcodes_of_every_option_kind() {
    assert_eq!(DhcpOption::Pad.opcode(), 0);
    assert_eq!(DhcpOption::SubnetMask([0; 4]).opcode(), 1);
    assert_eq!(DhcpOption::Router([0; 4]).opcode(), 3);
    assert_eq!(DhcpOption::DomainNameServer([0; 4]).opcode(), 6);
    assert_eq!(DhcpOption::HostName([0; 64], 0).opcode(), 12);
    assert_eq!(DhcpOption::BootFileSize(0).opcode(), 13);
    assert_eq!(DhcpOption::DomainName([0; 64], 0).opcode(), 15);
    assert_eq!(DhcpOption::BroadcastAddress([0; 4]).opcode(), 28);
    assert_eq!(DhcpOption::RequestedIpAddr([0; 4]).opcode(), 50);
    assert_eq!(DhcpOption::LeaseTime(0).opcode(), 51);
    assert_eq!(DhcpOption::MessageType(MessageType::Discover).opcode(), 53);
    assert_eq!(DhcpOption::DhcpServerIpAddr([0; 4]).opcode(), 54);
    assert_eq!(DhcpOption::ParameterRequestList([0; 40], 1).opcode(), 55);
    assert_eq!(DhcpOption::MaxMessageSize(0).opcode(), 57);
    assert_eq!(DhcpOption::VendorClassIndentifier([0; 32]).opcode(), 60);
    assert_eq!(DhcpOption::TftpServerName([0; 64], 0).opcode(), 66);
    assert_eq!(DhcpOption::BootFileName([0; 64], 0).opcode(), 67);
    assert_eq!(DhcpOption::ClientSystemArch([0; 2]).opcode(), 93);
    assert_eq!(DhcpOption::ClientNetworkDeviceInterface([0; 3]).opcode(), 94);
    assert_eq!(DhcpOption::ClientUid([0; 17]).opcode(), 97);
    assert_eq!(DhcpOption::End.opcode(), 255);
}

#[test]
fn message_type_codes_round_trip() {
    for code in 1u8..=8 {
        let mt = MessageType::try_from(code).unwrap();
        assert_eq!(mt.code(), code);
    }
    assert!(MessageType::try_from(0).is_err());
    assert!(MessageType::try_from(255).is_err());
}

#[test]
fn parameter_request_codes() {
    assert_eq!(ParameterRequest::from_code(1), Some(ParameterRequest::SubnetMask));
    assert_eq!(ParameterRequest::from_code(3), Some(ParameterRequest::Router));
    assert_eq!(ParameterRequest::from_code(51), Some(ParameterRequest::IpAddressLease));
    assert_eq!(ParameterRequest::from_code(200), None);
    assert_eq!(ParameterRequest::Router.code(), 3);
    assert_eq!(ParameterRequest::ProxyAutodiscovery.code(), 252);
}
