//! Wire codec behaviour: parsing, serializing, and the round trip.

use dhc3po::error::Error;
use dhc3po::types::ClientIdentifier;
use dhc3po::types::DhcpOption;
use dhc3po::types::MacAddr;
use dhc3po::types::MessageType;
use dhc3po::Dhcp;

/// A minimal valid BOOTREQUEST header (240 bytes incl. magic) with the
/// given option bytes appended.
fn base_request(xid: [u8; 4], mac: [u8; 6], opts: &[u8]) -> Vec<u8> {
    let mut d = vec![0u8; 240];
    d[0] = 1;
    d[1] = 1;
    d[2] = 6;
    d[4..8].copy_from_slice(&xid);
    d[28..34].copy_from_slice(&mac);
    d[236] = 0x63;
    d[237] = 0x82;
    d[238] = 0x53;
    d[239] = 0x63;
    d.extend_from_slice(opts);
    d
}

const XID: [u8; 4] = [0xAA, 0xBB, 0xCC, 0xDD];
const MAC: [u8; 6] = [0xAA, 0xBB, 0xCC, 0xDD, 0xEE, 0xFF];

#[test]
fn parse_reads_header_fields() {
    let mut data = base_request(XID, MAC, &[53, 1, 1, 255]);
    data[3] = 7; // hops
    data[10] = 0x80; // broadcast flag
    data[12..16].copy_from_slice(&[10, 0, 0, 1]); // ciaddr
    let p = Dhcp::parse(&data).unwrap();
    assert_eq!(p.op_code, 1);
    assert_eq!(p.hw_addr_ty, 1);
    assert_eq!(p.hw_addr_len, 6);
    assert_eq!(p.hops, 7);
    assert_eq!(p.transaction_id, XID);
    assert_eq!(p.flags, [0x80, 0]);
    assert_eq!(p.ciaddr, [10, 0, 0, 1]);
    assert_eq!(p.client_hw_addr, MAC);
    assert_eq!(p.message_type, MessageType::Discover);
}

#[test]
fn parse_too_short_returns_payload_too_short() {
    let data = vec![0u8; 239];
    assert_eq!(Dhcp::parse(&data), Err(Error::PayloadTooShort(239)));
    assert_eq!(Dhcp::parse(&[]), Err(Error::PayloadTooShort(0)));
}

#[test]
fn parse_reply_op_returns_not_a_request() {
    let mut data = base_request(XID, MAC, &[53, 1, 1, 255]);
    data[0] = 2;
    assert_eq!(Dhcp::parse(&data), Err(Error::NotADhcpRequest(2)));
}

#[test]
fn parse_bad_magic_returns_magic_missing() {
    let mut data = base_request(XID, MAC, &[53, 1, 1, 255]);
    data[236] = 0;
    data[237] = 0;
    data[238] = 0;
    data[239] = 0;
    assert_eq!(Dhcp::parse(&data), Err(Error::DhcpMagicMissing));
}

#[test]
fn parse_without_message_type_is_rejected() {
    let data = base_request(XID, MAC, &[255]);
    assert_eq!(Dhcp::parse(&data), Err(Error::NoMessageDhcpTypeProvided));
    let bare = base_request(XID, MAC, &[]);
    assert_eq!(Dhcp::parse(&bare), Err(Error::NoMessageDhcpTypeProvided));
}

#[test]
fn parse_message_type_bad_len() {
    let data = base_request(XID, MAC, &[53, 2, 1, 0]);
    assert_eq!(Dhcp::parse(&data), Err(Error::MessageTypeBadLen(2)));
}

#[test]
fn parse_message_type_bad_value() {
    let data = base_request(XID, MAC, &[53, 1, 9]);
    assert_eq!(Dhcp::parse(&data), Err(Error::InvalidDhcpOptionMessageType(9)));
}

#[test]
fn parse_every_message_kind() {
    let kinds = [
        (1u8, MessageType::Discover),
        (2, MessageType::Offer),
        (3, MessageType::Request),
        (4, MessageType::Decline),
        (5, MessageType::Ack),
        (6, MessageType::Nack),
        (7, MessageType::Release),
        (8, MessageType::Inform),
    ];
    for (code, kind) in kinds {
        let data = base_request(XID, MAC, &[53, 1, code, 255]);
        let p = Dhcp::parse(&data).unwrap();
        assert_eq!(p.message_type, kind);
    }
}

#[test]
fn parse_requested_ip_addr() {
    let data = base_request(XID, MAC, &[50, 4, 192, 168, 1, 100, 53, 1, 3, 255]);
    let p = Dhcp::parse(&data).unwrap();
    assert_eq!(
        p.options.get(50),
        Some(DhcpOption::RequestedIpAddr([192, 168, 1, 100]))
    );
}

#[test]
fn parse_ip_options_require_four_bytes() {
    let data = base_request(XID, MAC, &[50, 5, 1, 2, 3, 4, 5]);
    assert_eq!(Dhcp::parse(&data), Err(Error::InvalidIpAddrLen(5)));
    let data = base_request(XID, MAC, &[1, 3, 255, 255, 0]);
    assert_eq!(Dhcp::parse(&data), Err(Error::InvalidIpAddrLen(3)));
}

#[test]
fn parse_address_options_of_every_kind() {
    let data = base_request(
        XID,
        MAC,
        &[
            1, 4, 255, 255, 0, 0, 3, 4, 10, 0, 0, 1, 6, 4, 10, 0, 0, 2, 28, 4, 10, 0, 255, 255,
            54, 4, 10, 0, 0, 1, 53, 1, 1, 255,
        ],
    );
    let p = Dhcp::parse(&data).unwrap();
    assert_eq!(p.options.get(1), Some(DhcpOption::SubnetMask([255, 255, 0, 0])));
    assert_eq!(p.options.get(3), Some(DhcpOption::Router([10, 0, 0, 1])));
    assert_eq!(
        p.options.get(6),
        Some(DhcpOption::DomainNameServer([10, 0, 0, 2]))
    );
    assert_eq!(
        p.options.get(28),
        Some(DhcpOption::BroadcastAddress([10, 0, 255, 255]))
    );
    assert_eq!(
        p.options.get(54),
        Some(DhcpOption::DhcpServerIpAddr([10, 0, 0, 1]))
    );
}

#[test]
fn parse_lease_time_value() {
    let data = base_request(XID, MAC, &[51, 4, 0, 0, 0x0E, 0x10, 53, 1, 1, 255]);
    let p = Dhcp::parse(&data).unwrap();
    assert_eq!(p.options.get(51), Some(DhcpOption::LeaseTime(3600)));
}

#[test]
fn parse_max_message_size_value() {
    let data = base_request(XID, MAC, &[57, 2, 0x02, 0x40, 53, 1, 1, 255]);
    let p = Dhcp::parse(&data).unwrap();
    assert_eq!(p.options.get(57), Some(DhcpOption::MaxMessageSize(576)));
}

#[test]
fn parse_max_message_size_bad_len() {
    let data = base_request(XID, MAC, &[57, 3, 0, 0, 0]);
    assert_eq!(Dhcp::parse(&data), Err(Error::MaxMessageSizeBadLen(3)));
}

#[test]
fn parse_parameter_request_list() {
    let data = base_request(XID, MAC, &[55, 2, 1, 3, 53, 1, 1, 255]);
    let p = Dhcp::parse(&data).unwrap();
    match p.options.get(55) {
        Some(DhcpOption::ParameterRequestList(params, len)) => {
            assert_eq!(len, 2);
            assert_eq!(params[0], 1);
            assert_eq!(params[1], 3);
            assert_eq!(params[2], 0);
        }
        other => panic!("wrong option: {:?}", other),
    }
}

#[test]
fn parse_parameter_request_list_bad_lens() {
    let data = base_request(XID, MAC, &[55, 0]);
    assert_eq!(Dhcp::parse(&data), Err(Error::InvalidParameterRequestLen(0)));
    let mut long = vec![55u8, 41];
    long.extend_from_slice(&[1u8; 41]);
    let data = base_request(XID, MAC, &long);
    assert_eq!(Dhcp::parse(&data), Err(Error::InvalidParameterRequestLen(41)));
}

#[test]
fn parse_vendor_class_is_padded() {
    let data = base_request(XID, MAC, &[60, 2, 7, 8, 53, 1, 1, 255]);
    let p = Dhcp::parse(&data).unwrap();
    match p.options.get(60) {
        Some(DhcpOption::VendorClassIndentifier(v)) => {
            assert_eq!(v[0], 7);
            assert_eq!(v[1], 8);
            assert_eq!(&v[2..], &[0u8; 30]);
        }
        other => panic!("wrong option: {:?}", other),
    }
}

#[test]
fn parse_vendor_class_too_long() {
    let mut long = vec![60u8, 33];
    long.extend_from_slice(&[1u8; 33]);
    let data = base_request(XID, MAC, &long);
    assert_eq!(
        Dhcp::parse(&data),
        Err(Error::InvalidVendorClassIdentifierLen(33))
    );
}

#[test]
fn parse_client_system_arch() {
    let data = base_request(XID, MAC, &[93, 2, 0, 7, 53, 1, 1, 255]);
    let p = Dhcp::parse(&data).unwrap();
    assert_eq!(p.options.get(93), Some(DhcpOption::ClientSystemArch([0, 7])));
    let bad = base_request(XID, MAC, &[93, 3, 0, 0, 0]);
    assert_eq!(Dhcp::parse(&bad), Err(Error::InvalidClientSystemArchLen(3)));
}

#[test]
fn parse_client_network_device_interface() {
    let data = base_request(XID, MAC, &[94, 3, 1, 2, 1, 53, 1, 1, 255]);
    let p = Dhcp::parse(&data).unwrap();
    assert_eq!(
        p.options.get(94),
        Some(DhcpOption::ClientNetworkDeviceInterface([1, 2, 1]))
    );
    let bad = base_request(XID, MAC, &[94, 2, 1, 2]);
    assert_eq!(
        Dhcp::parse(&bad),
        Err(Error::InvalidClientNetworkDeviceInterfaceLen(2))
    );
}

#[test]
fn parse_client_uid_bounds() {
    let short = base_request(XID, MAC, &[97, 1, 5]);
    assert_eq!(Dhcp::parse(&short), Err(Error::InvalidClientUidLen(1)));
    let mut long = vec![97u8, 18];
    long.extend_from_slice(&[1u8; 18]);
    let data = base_request(XID, MAC, &long);
    assert_eq!(Dhcp::parse(&data), Err(Error::InvalidClientUidLen(18)));
    let ok = base_request(XID, MAC, &[97, 2, 5, 6, 53, 1, 1, 255]);
    let p = Dhcp::parse(&ok).unwrap();
    match p.options.get(97) {
        Some(DhcpOption::ClientUid(uid)) => {
            assert_eq!(uid[0], 5);
            assert_eq!(uid[1], 6);
            assert_eq!(&uid[2..], &[0u8; 15]);
        }
        other => panic!("wrong option: {:?}", other),
    }
}

#[test]
fn parse_client_identifier() {
    let data = base_request(
        XID,
        MAC,
        &[61, 7, 1, 0xAA, 0xBB, 0xCC, 0xDD, 0xEE, 0xFF, 53, 1, 1, 255],
    );
    let p = Dhcp::parse(&data).unwrap();
    match p.options.get(61) {
        Some(DhcpOption::ClientIdentifier(c)) => {
            assert_eq!(c.hw_type, 1);
            assert_eq!(c.id, MacAddr::new(MAC));
        }
        other => panic!("wrong option: {:?}", other),
    }
}

#[test]
fn parse_client_identifier_bad_len_and_hw_type() {
    let bad_len = base_request(XID, MAC, &[61, 6, 1, 2, 3, 4, 5, 6]);
    assert_eq!(
        Dhcp::parse(&bad_len),
        Err(Error::UnsupportedClientIdentifierLen(6))
    );
    let bad_hw = base_request(XID, MAC, &[61, 7, 2, 1, 2, 3, 4, 5, 6]);
    assert_eq!(Dhcp::parse(&bad_hw), Err(Error::UnsupportedClientIdHwType(2)));
}

#[test]
fn parse_truncated_length_byte_is_out_of_bounds() {
    let data = base_request(XID, MAC, &[53, 1, 1, 50]);
    assert_eq!(Dhcp::parse(&data), Err(Error::DhcpOptionLenOutOfBounds));
}

#[test]
fn parse_truncated_payload_is_out_of_bounds() {
    let data = base_request(XID, MAC, &[50, 4, 192, 168]);
    assert_eq!(Dhcp::parse(&data), Err(Error::DhcpOptionLenOutOfBounds));
}

#[test]
fn parse_unknown_option_is_skipped() {
    let data = base_request(XID, MAC, &[43, 2, 9, 9, 53, 1, 1, 255]);
    let p = Dhcp::parse(&data).unwrap();
    assert_eq!(p.message_type, MessageType::Discover);
    assert_eq!(p.options.get(43), None);
}

#[test]
fn parse_unknown_option_truncated_payload_is_not_fatal() {
    let data = base_request(XID, MAC, &[53, 1, 1, 43, 200, 1]);
    let p = Dhcp::parse(&data).unwrap();
    assert_eq!(p.message_type, MessageType::Discover);
}

#[test]
fn parse_stops_at_end_option() {
    let data = base_request(XID, MAC, &[53, 1, 1, 255, 50, 99]);
    let p = Dhcp::parse(&data).unwrap();
    assert_eq!(p.message_type, MessageType::Discover);
    assert_eq!(p.options.get(50), None);
    assert_eq!(p.options.get(255), Some(DhcpOption::End));
}

#[test]
fn parse_pad_is_recorded_and_skipped() {
    let data = base_request(XID, MAC, &[0, 0, 53, 1, 1, 255]);
    let p = Dhcp::parse(&data).unwrap();
    assert_eq!(p.options.get(0), Some(DhcpOption::Pad));
    assert_eq!(p.message_type, MessageType::Discover);
}

#[test]
fn serialise_option_wire_forms() {
    let mut buf = vec![0u8; 512];
    let n = DhcpOption::SubnetMask([255, 255, 255, 0]).serialise(&mut buf, 0);
    assert_eq!(n, Some(6));
    assert_eq!(&buf[0..6], &[1, 4, 255, 255, 255, 0]);

    let n = DhcpOption::LeaseTime(3600).serialise(&mut buf, 6);
    assert_eq!(n, Some(6));
    assert_eq!(&buf[6..12], &[51, 4, 0, 0, 0x0E, 0x10]);

    let n = DhcpOption::MessageType(MessageType::Offer).serialise(&mut buf, 12);
    assert_eq!(n, Some(3));
    assert_eq!(&buf[12..15], &[53, 1, 2]);

    let n = DhcpOption::BootFileSize(0x0102).serialise(&mut buf, 15);
    assert_eq!(n, Some(4));
    assert_eq!(&buf[15..19], &[13, 2, 1, 2]);

    let n = DhcpOption::MaxMessageSize(576).serialise(&mut buf, 19);
    assert_eq!(n, Some(4));
    assert_eq!(&buf[19..23], &[57, 2, 0x02, 0x40]);

    let n = DhcpOption::Pad.serialise(&mut buf, 23);
    assert_eq!(n, Some(1));
    assert_eq!(buf[23], 0);

    let n = DhcpOption::End.serialise(&mut buf, 24);
    assert_eq!(n, Some(1));
    assert_eq!(buf[24], 255);
}

#[test]
fn serialise_name_option_writes_its_bytes() {
    let mut name = [0u8; 64];
    name[0] = b'd';
    name[1] = b'h';
    name[2] = b'c';
    let mut buf = vec![0u8; 512];
    let n = DhcpOption::HostName(name, 3).serialise(&mut buf, 0);
    assert_eq!(n, Some(5));
    assert_eq!(&buf[0..5], &[12, 3, b'd', b'h', b'c']);
}

#[test]
fn serialise_unsupported_option_is_refused_not_fatal() {
    let mut buf = vec![0u8; 512];
    let before = buf.clone();
    assert_eq!(DhcpOption::ClientUid([0; 17]).serialise(&mut buf, 0), None);
    assert_eq!(
        DhcpOption::ClientIdentifier(ClientIdentifier {
            hw_type: 1,
            id: MacAddr::new(MAC)
        })
        .serialise(&mut buf, 0),
        None
    );
    assert_eq!(buf, before);
}

#[test]
fn round_trip_preserves_the_packet() {
    let mut data = base_request(
        XID,
        MAC,
        &[
            0, // pad
            1, 4, 255, 255, 0, 0, // subnet mask
            3, 4, 10, 0, 0, 1, // router
            50, 4, 10, 0, 3, 7, // requested address
            51, 4, 0, 0, 14, 16, // lease time
            53, 1, 3, // message type: request
            54, 4, 10, 0, 0, 1, // server identifier
            57, 2, 2, 64, // max message size
            255,
        ],
    );
    data[3] = 2; // hops survive the trip
    data[10] = 0x80; // so do the flags
    data[12..16].copy_from_slice(&[10, 0, 3, 7]); // and ciaddr
    let p = Dhcp::parse(&data).unwrap();

    let mut buf = vec![0u8; 512];
    let n = p.serialiase(&mut buf);
    let q = Dhcp::parse(&buf[..n]).unwrap();
    assert_eq!(p, q);
}

#[test]
fn serialised_request_matches_its_input_bytes() {
    let opts = [53u8, 1, 1, 255];
    let data = base_request(XID, MAC, &opts);
    let p = Dhcp::parse(&data).unwrap();
    let mut buf = vec![0u8; 512];
    let n = p.serialiase(&mut buf);
    assert_eq!(n, 244);
    assert_eq!(&buf[236..240], &Dhcp::MAGIC);
    assert_eq!(&buf[..n], &data[..]);
}
