//! The client identifier option payload: a hardware type plus a MAC.

use crate::error::Error;
use crate::types::MacAddr;
use vstd::prelude::*;

verus! {

/// Payload of the `ClientIdentifier` option (opcode 61): a hardware type
/// byte followed by a six-byte hardware address. Only Ethernet is accepted.
#[derive(Debug, Clone, Copy, PartialEq)]
pub struct ClientIdentifier {
    pub hw_type: u8,
    pub id: MacAddr,
}

impl ClientIdentifier {
    /// The only hardware type this server accepts.
    pub const ETHERNET: u8 = 1;

    /// Wire length of the payload: one type byte plus six address bytes.
    pub const LEN: u8 = 7;

    /// Decode a seven-byte payload. The first byte must name Ethernet;
    /// the remaining six are the hardware address.
    pub fn try_from(value: &[u8]) -> (r: Result<ClientIdentifier, Error>)
        requires
            value@.len() == 7,
        ensures
            match r {
                Ok(c) => value@[0] == 1 && c.hw_type == 1 && c.id@ == value@.subrange(1, 7),
                Err(e) => value@[0] != 1 && e == Error::UnsupportedClientIdHwType(value@[0]),
            },
    {
        let hw_type = value[0];
        if hw_type != Self::ETHERNET {
            return Err(Error::UnsupportedClientIdHwType(hw_type));
        }
        let mac_addr: [u8; 6] = [value[1], value[2], value[3], value[4], value[5], value[6]];
        assert(mac_addr@ =~= value@.subrange(1, 7));
        Ok(ClientIdentifier { hw_type, id: MacAddr::new(mac_addr) })
    }
}

} // verus!
