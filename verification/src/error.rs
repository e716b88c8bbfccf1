//! Failure kinds surfaced by the wire codec and the address pool.

use vstd::prelude::*;

verus! {

/// Every way a datagram can be rejected by the parser, plus the internal
/// pool-exhaustion kind that `request` resolves by eviction.
#[derive(Debug, Clone, Copy, PartialEq, Eq, Structural)]
pub enum Error {
    /// Too short to be a DHCP packet
    PayloadTooShort(usize),

    /// As a DHCP server we only care about requests
    NotADhcpRequest(u8),

    /// Missing the DHCP magic bytes at 236..240
    DhcpMagicMissing,

    /// The DHCP option is not handled
    UnhandledDhcpOption(u8),

    /// Invalid value in the op field
    InvalidDhcpOpCode(u8),

    /// A DHCP message must contain a message type
    NoMessageDhcpTypeProvided,

    /// The MessageType payload is not a known message kind
    InvalidDhcpOptionMessageType(u8),

    /// An option length field or payload runs past the end of the datagram
    DhcpOptionLenOutOfBounds,

    /// The message type is not 1 byte
    MessageTypeBadLen(u8),

    /// The max message size is not 2 bytes
    MaxMessageSizeBadLen(u8),

    /// A four-byte option (an IP address, or a lease time) has another length
    InvalidIpAddrLen(u8),

    /// A parameter request list must hold between 1 and 40 opcodes
    InvalidParameterRequestLen(u8),

    /// More parameters were requested than the server supports
    UnsupportedRequestedParameters(u8),

    /// A client UUID must hold between 2 and 17 bytes
    InvalidClientUidLen(u8),

    /// Expected to be 3 bytes
    InvalidClientNetworkDeviceInterfaceLen(u8),

    /// Expected to be 2 bytes
    InvalidClientSystemArchLen(u8),

    /// A client identifier must hold exactly 7 bytes
    UnsupportedClientIdentifierLen(u8),

    /// We only support ethernet (hardware type 1) client identifiers
    UnsupportedClientIdHwType(u8),

    /// A vendor class identifier may hold at most 32 bytes
    InvalidVendorClassIdentifierLen(u8),

    /// Every address in the pool is leased; `request` handles this internally
    /// by evicting the lease closest to expiry and never surfaces it
    AllIPAddressesExhausted,
}

} // verus!
