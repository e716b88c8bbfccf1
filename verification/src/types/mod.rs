//! The data types a DHCP datagram is made of.

mod client_identifier;
pub mod dhcp_option;
mod mac;
mod message_type;
mod parameter_request;

pub use client_identifier::ClientIdentifier;
pub use dhcp_option::DhcpOption;
pub use dhcp_option::DhcpOptionList;
pub use mac::MacAddr;
pub use message_type::MessageType;
pub use parameter_request::ParameterRequest;
