//! The mandatory DHCP message kind carried by option 53.

use crate::error::Error;
use vstd::prelude::*;

verus! {

/// Value message types for the `MessageType` option (opcode 53). `Unset`
/// never appears on the wire; it marks a packet whose message type has not
/// been seen yet while parsing.
#[derive(Debug, Clone, Copy, PartialEq, Eq, Structural)]
pub enum MessageType {
    Discover,
    Offer,
    Request,
    Decline,
    Ack,
    Nack,
    Release,
    Inform,
    Unset,
}

impl MessageType {
    /// The wire value of this message kind; `Unset` maps to 255, which no
    /// valid datagram carries.
    pub open spec fn spec_code(self) -> u8 {
        match self {
            MessageType::Discover => 1,
            MessageType::Offer => 2,
            MessageType::Request => 3,
            MessageType::Decline => 4,
            MessageType::Ack => 5,
            MessageType::Nack => 6,
            MessageType::Release => 7,
            MessageType::Inform => 8,
            MessageType::Unset => 255,
        }
    }

    pub fn code(&self) -> (r: u8)
        ensures
            r == self.spec_code(),
    {
        match self {
            MessageType::Discover => 1,
            MessageType::Offer => 2,
            MessageType::Request => 3,
            MessageType::Decline => 4,
            MessageType::Ack => 5,
            MessageType::Nack => 6,
            MessageType::Release => 7,
            MessageType::Inform => 8,
            MessageType::Unset => 255,
        }
    }

    /// The message kind a wire value stands for, if any.
    pub open spec fn spec_try_from(value: u8) -> Result<MessageType, Error> {
        if value == 1 {
            Ok(MessageType::Discover)
        } else if value == 2 {
            Ok(MessageType::Offer)
        } else if value == 3 {
            Ok(MessageType::Request)
        } else if value == 4 {
            Ok(MessageType::Decline)
        } else if value == 5 {
            Ok(MessageType::Ack)
        } else if value == 6 {
            Ok(MessageType::Nack)
        } else if value == 7 {
            Ok(MessageType::Release)
        } else if value == 8 {
            Ok(MessageType::Inform)
        } else {
            Err(Error::InvalidDhcpOptionMessageType(value))
        }
    }

    pub fn try_from(value: u8) -> (r: Result<MessageType, Error>)
        ensures
            r == MessageType::spec_try_from(value),
    {
        match value {
            1 => Ok(MessageType::Discover),
            2 => Ok(MessageType::Offer),
            3 => Ok(MessageType::Request),
            4 => Ok(MessageType::Decline),
            5 => Ok(MessageType::Ack),
            6 => Ok(MessageType::Nack),
            7 => Ok(MessageType::Release),
            8 => Ok(MessageType::Inform),
            _ => Err(Error::InvalidDhcpOptionMessageType(value)),
        }
    }
}

} // verus!
