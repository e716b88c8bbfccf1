//! A DHCPv4 server core: a strict wire codec for BOOTP/DHCP datagrams, an
//! option registry keyed by opcode, an address pool with lease tracking and
//! oldest-lease eviction, and the decision logic that turns an incoming
//! request into an Offer, Ack or Nack reply.
//!
//! Socket handling, thread dispatch and configuration loading are left to the
//! embedding program; the core works on plain byte buffers and values.

pub mod dhcp;
pub mod error;
pub mod state;
pub mod types;

pub use dhcp::Dhcp;
pub use error::Error;
pub use state::AddrPool;
pub use state::Client;

use vstd::prelude::*;

verus! {

/// Replies are built into fixed 512-byte datagrams, the minimum size every
/// DHCP participant must accept; anything longer is never produced.
pub const UDP_BUFFER_SIZE: usize = 512;

/// Lease duration, in seconds, granted when the pool carries no `LeaseTime`
/// default option.
pub const DEFAULT_LEASE_TIME: u32 = 43200;

} // verus!
