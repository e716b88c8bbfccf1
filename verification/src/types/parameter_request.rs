//! The option opcodes a client may ask for in a parameter request list.

use vstd::prelude::*;

verus! {

/// Parameters a client can name in a `ParameterRequestList` option
/// (opcode 55). Each variant stands for one option opcode.
#[derive(Debug, Clone, Copy, PartialEq, Eq, Structural)]
pub enum ParameterRequest {
    SubnetMask,
    TimeOffset,
    Router,
    TimeServer,
    NameServer,
    DomainNameServer,
    HostName,
    BootFileSize,
    DomainName,
    RootPath,
    ExtensionsPath,
    MaxDatagramReassmblySize,
    DefaultIpTtl,
    BroadcastAddress,
    PerformRouterDiscover,
    StaticRoute,
    NetworkInformationServiceDomain,
    NetworkInformationServiceServers,
    NtpServers,
    VendorSpecificInfo,
    NetBiosNameServer,
    NetBiosNodeType,
    NetBiosScope,
    RequestedIpAddress,
    IpAddressLease,
    DhcpServerIndentifier,
    RenewalTimeValue,
    RebindingTimeValue,
    VendorClassIndentifier,
    TftpServerName,
    BootfileName,
    UUIDBasedClientIdentifier,
    DomainSearch,
    ClasslessStaticRoute,
    DocsisFullSecurityServerIp,
    PxeUndefined1,
    PxeUndefined2,
    PxeUndefined3,
    PxeUndefined4,
    PxeUndefined5,
    PxeUndefined6,
    PxeUndefined7,
    ClasslessStaticRouteMicrosoft,
    ProxyAutodiscovery,
}

impl ParameterRequest {
    /// The option opcode this parameter names.
    pub open spec fn spec_code(self) -> u8 {
        match self {
            ParameterRequest::SubnetMask => 1,
            ParameterRequest::TimeOffset => 2,
            ParameterRequest::Router => 3,
            ParameterRequest::TimeServer => 4,
            ParameterRequest::NameServer => 5,
            ParameterRequest::DomainNameServer => 6,
            ParameterRequest::HostName => 12,
            ParameterRequest::BootFileSize => 13,
            ParameterRequest::DomainName => 15,
            ParameterRequest::RootPath => 17,
            ParameterRequest::ExtensionsPath => 18,
            ParameterRequest::MaxDatagramReassmblySize => 22,
            ParameterRequest::DefaultIpTtl => 23,
            ParameterRequest::BroadcastAddress => 28,
            ParameterRequest::PerformRouterDiscover => 31,
            ParameterRequest::StaticRoute => 33,
            ParameterRequest::NetworkInformationServiceDomain => 40,
            ParameterRequest::NetworkInformationServiceServers => 41,
            ParameterRequest::NtpServers => 42,
            ParameterRequest::VendorSpecificInfo => 43,
            ParameterRequest::NetBiosNameServer => 44,
            ParameterRequest::NetBiosNodeType => 46,
            ParameterRequest::NetBiosScope => 47,
            ParameterRequest::RequestedIpAddress => 50,
            ParameterRequest::IpAddressLease => 51,
            ParameterRequest::DhcpServerIndentifier => 54,
            ParameterRequest::RenewalTimeValue => 58,
            ParameterRequest::RebindingTimeValue => 59,
            ParameterRequest::VendorClassIndentifier => 60,
            ParameterRequest::TftpServerName => 66,
            ParameterRequest::BootfileName => 67,
            ParameterRequest::UUIDBasedClientIdentifier => 97,
            ParameterRequest::DomainSearch => 119,
            ParameterRequest::ClasslessStaticRoute => 121,
            ParameterRequest::DocsisFullSecurityServerIp => 128,
            ParameterRequest::PxeUndefined1 => 129,
            ParameterRequest::PxeUndefined2 => 130,
            ParameterRequest::PxeUndefined3 => 131,
            ParameterRequest::PxeUndefined4 => 132,
            ParameterRequest::PxeUndefined5 => 133,
            ParameterRequest::PxeUndefined6 => 134,
            ParameterRequest::PxeUndefined7 => 135,
            ParameterRequest::ClasslessStaticRouteMicrosoft => 249,
            ParameterRequest::ProxyAutodiscovery => 252,
        }
    }

    pub fn code(&self) -> (r: u8)
        ensures
            r == self.spec_code(),
    {
        match self {
            ParameterRequest::SubnetMask => 1,
            ParameterRequest::TimeOffset => 2,
            ParameterRequest::Router => 3,
            ParameterRequest::TimeServer => 4,
            ParameterRequest::NameServer => 5,
            ParameterRequest::DomainNameServer => 6,
            ParameterRequest::HostName => 12,
            ParameterRequest::BootFileSize => 13,
            ParameterRequest::DomainName => 15,
            ParameterRequest::RootPath => 17,
            ParameterRequest::ExtensionsPath => 18,
            ParameterRequest::MaxDatagramReassmblySize => 22,
            ParameterRequest::DefaultIpTtl => 23,
            ParameterRequest::BroadcastAddress => 28,
            ParameterRequest::PerformRouterDiscover => 31,
            ParameterRequest::StaticRoute => 33,
            ParameterRequest::NetworkInformationServiceDomain => 40,
            ParameterRequest::NetworkInformationServiceServers => 41,
            ParameterRequest::NtpServers => 42,
            ParameterRequest::VendorSpecificInfo => 43,
            ParameterRequest::NetBiosNameServer => 44,
            ParameterRequest::NetBiosNodeType => 46,
            ParameterRequest::NetBiosScope => 47,
            ParameterRequest::RequestedIpAddress => 50,
            ParameterRequest::IpAddressLease => 51,
            ParameterRequest::DhcpServerIndentifier => 54,
            ParameterRequest::RenewalTimeValue => 58,
            ParameterRequest::RebindingTimeValue => 59,
            ParameterRequest::VendorClassIndentifier => 60,
            ParameterRequest::TftpServerName => 66,
            ParameterRequest::BootfileName => 67,
            ParameterRequest::UUIDBasedClientIdentifier => 97,
            ParameterRequest::DomainSearch => 119,
            ParameterRequest::ClasslessStaticRoute => 121,
            ParameterRequest::DocsisFullSecurityServerIp => 128,
            ParameterRequest::PxeUndefined1 => 129,
            ParameterRequest::PxeUndefined2 => 130,
            ParameterRequest::PxeUndefined3 => 131,
            ParameterRequest::PxeUndefined4 => 132,
            ParameterRequest::PxeUndefined5 => 133,
            ParameterRequest::PxeUndefined6 => 134,
            ParameterRequest::PxeUndefined7 => 135,
            ParameterRequest::ClasslessStaticRouteMicrosoft => 249,
            ParameterRequest::ProxyAutodiscovery => 252,
        }
    }

    /// The parameter a wire opcode names, if any.
    pub open spec fn spec_from_code(value: u8) -> Option<ParameterRequest> {
        if value == 1 {
            Some(ParameterRequest::SubnetMask)
        } else if value == 2 {
            Some(ParameterRequest::TimeOffset)
        } else if value == 3 {
            Some(ParameterRequest::Router)
        } else if value == 4 {
            Some(ParameterRequest::TimeServer)
        } else if value == 5 {
            Some(ParameterRequest::NameServer)
        } else if value == 6 {
            Some(ParameterRequest::DomainNameServer)
        } else if value == 12 {
            Some(ParameterRequest::HostName)
        } else if value == 13 {
            Some(ParameterRequest::BootFileSize)
        } else if value == 15 {
            Some(ParameterRequest::DomainName)
        } else if value == 17 {
            Some(ParameterRequest::RootPath)
        } else if value == 18 {
            Some(ParameterRequest::ExtensionsPath)
        } else if value == 22 {
            Some(ParameterRequest::MaxDatagramReassmblySize)
        } else if value == 23 {
            Some(ParameterRequest::DefaultIpTtl)
        } else if value == 28 {
            Some(ParameterRequest::BroadcastAddress)
        } else if value == 31 {
            Some(ParameterRequest::PerformRouterDiscover)
        } else if value == 33 {
            Some(ParameterRequest::StaticRoute)
        } else if value == 40 {
            Some(ParameterRequest::NetworkInformationServiceDomain)
        } else if value == 41 {
            Some(ParameterRequest::NetworkInformationServiceServers)
        } else if value == 42 {
            Some(ParameterRequest::NtpServers)
        } else if value == 43 {
            Some(ParameterRequest::VendorSpecificInfo)
        } else if value == 44 {
            Some(ParameterRequest::NetBiosNameServer)
        } else if value == 46 {
            Some(ParameterRequest::NetBiosNodeType)
        } else if value == 47 {
            Some(ParameterRequest::NetBiosScope)
        } else if value == 50 {
            Some(ParameterRequest::RequestedIpAddress)
        } else if value == 51 {
            Some(ParameterRequest::IpAddressLease)
        } else if value == 54 {
            Some(ParameterRequest::DhcpServerIndentifier)
        } else if value == 58 {
            Some(ParameterRequest::RenewalTimeValue)
        } else if value == 59 {
            Some(ParameterRequest::RebindingTimeValue)
        } else if value == 60 {
            Some(ParameterRequest::VendorClassIndentifier)
        } else if value == 66 {
            Some(ParameterRequest::TftpServerName)
        } else if value == 67 {
            Some(ParameterRequest::BootfileName)
        } else if value == 97 {
            Some(ParameterRequest::UUIDBasedClientIdentifier)
        } else if value == 119 {
            Some(ParameterRequest::DomainSearch)
        } else if value == 121 {
            Some(ParameterRequest::ClasslessStaticRoute)
        } else if value == 128 {
            Some(ParameterRequest::DocsisFullSecurityServerIp)
        } else if value == 129 {
            Some(ParameterRequest::PxeUndefined1)
        } else if value == 130 {
            Some(ParameterRequest::PxeUndefined2)
        } else if value == 131 {
            Some(ParameterRequest::PxeUndefined3)
        } else if value == 132 {
            Some(ParameterRequest::PxeUndefined4)
        } else if value == 133 {
            Some(ParameterRequest::PxeUndefined5)
        } else if value == 134 {
            Some(ParameterRequest::PxeUndefined6)
        } else if value == 135 {
            Some(ParameterRequest::PxeUndefined7)
        } else if value == 249 {
            Some(ParameterRequest::ClasslessStaticRouteMicrosoft)
        } else if value == 252 {
            Some(ParameterRequest::ProxyAutodiscovery)
        } else {
            None
        }
    }

    /// The parameter a wire opcode names, or `None` for an opcode this
    /// server has no name for. A request for an unnamed opcode is not an
    /// error; it is simply never satisfiable from the pool's defaults.
    pub fn from_code(value: u8) -> (r: Option<ParameterRequest>)
        ensures
            r == ParameterRequest::spec_from_code(value),
    {
        match value {
            1 => Some(ParameterRequest::SubnetMask),
            2 => Some(ParameterRequest::TimeOffset),
            3 => Some(ParameterRequest::Router),
            4 => Some(ParameterRequest::TimeServer),
            5 => Some(ParameterRequest::NameServer),
            6 => Some(ParameterRequest::DomainNameServer),
            12 => Some(ParameterRequest::HostName),
            13 => Some(ParameterRequest::BootFileSize),
            15 => Some(ParameterRequest::DomainName),
            17 => Some(ParameterRequest::RootPath),
            18 => Some(ParameterRequest::ExtensionsPath),
            22 => Some(ParameterRequest::MaxDatagramReassmblySize),
            23 => Some(ParameterRequest::DefaultIpTtl),
            28 => Some(ParameterRequest::BroadcastAddress),
            31 => Some(ParameterRequest::PerformRouterDiscover),
            33 => Some(ParameterRequest::StaticRoute),
            40 => Some(ParameterRequest::NetworkInformationServiceDomain),
            41 => Some(ParameterRequest::NetworkInformationServiceServers),
            42 => Some(ParameterRequest::NtpServers),
            43 => Some(ParameterRequest::VendorSpecificInfo),
            44 => Some(ParameterRequest::NetBiosNameServer),
            46 => Some(ParameterRequest::NetBiosNodeType),
            47 => Some(ParameterRequest::NetBiosScope),
            50 => Some(ParameterRequest::RequestedIpAddress),
            51 => Some(ParameterRequest::IpAddressLease),
            54 => Some(ParameterRequest::DhcpServerIndentifier),
            58 => Some(ParameterRequest::RenewalTimeValue),
            59 => Some(ParameterRequest::RebindingTimeValue),
            60 => Some(ParameterRequest::VendorClassIndentifier),
            66 => Some(ParameterRequest::TftpServerName),
            67 => Some(ParameterRequest::BootfileName),
            97 => Some(ParameterRequest::UUIDBasedClientIdentifier),
            119 => Some(ParameterRequest::DomainSearch),
            121 => Some(ParameterRequest::ClasslessStaticRoute),
            128 => Some(ParameterRequest::DocsisFullSecurityServerIp),
            129 => Some(ParameterRequest::PxeUndefined1),
            130 => Some(ParameterRequest::PxeUndefined2),
            131 => Some(ParameterRequest::PxeUndefined3),
            132 => Some(ParameterRequest::PxeUndefined4),
            133 => Some(ParameterRequest::PxeUndefined5),
            134 => Some(ParameterRequest::PxeUndefined6),
            135 => Some(ParameterRequest::PxeUndefined7),
            249 => Some(ParameterRequest::ClasslessStaticRouteMicrosoft),
            252 => Some(ParameterRequest::ProxyAutodiscovery),
            _ => None,
        }
    }
}

} // verus!
