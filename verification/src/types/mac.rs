//! Deals with MAC addresses.

use vstd::prelude::*;

verus! {

/// A six-byte Ethernet hardware address.
#[derive(Debug, Clone, Copy, Eq)]
pub struct MacAddr(pub [u8; 6]);

impl View for MacAddr {
    type V = Seq<u8>;

    open spec fn view(&self) -> Seq<u8> {
        self.0@
    }
}

impl PartialEq for MacAddr {
    fn eq(&self, other: &MacAddr) -> bool {
        let r = self.0[0] == other.0[0] && self.0[1] == other.0[1] && self.0[2] == other.0[2]
            && self.0[3] == other.0[3] && self.0[4] == other.0[4] && self.0[5] == other.0[5];
        proof {
            if r {
                assert(self.0 =~= other.0);
            }
        }
        r
    }
}

impl vstd::std_specs::cmp::PartialEqSpecImpl for MacAddr {
    open spec fn obeys_eq_spec() -> bool {
        true
    }

    open spec fn eq_spec(&self, other: &MacAddr) -> bool {
        self.0 == other.0
    }
}

impl MacAddr {
    /// Every MAC address this server handles is exactly this long.
    pub const LEN: usize = 6;

    pub fn new(bytes: [u8; 6]) -> (r: Self)
        ensures
            r.0 == bytes,
    {
        MacAddr(bytes)
    }
}

} // verus!
