//! Storage of IPv4 address leases: the shared pool the server allocates from.

use crate::types::DhcpOption;
use crate::types::DhcpOptionList;
use crate::types::MacAddr;
use crate::types::dhcp_option::lemma_stream_all_none;
use crate::types::dhcp_option::lemma_stream_update_len;
use crate::types::dhcp_option::options_wire_len;
use crate::DEFAULT_LEASE_TIME;
use vstd::prelude::*;

verus! {

broadcast use vstd::array::group_array_axioms;

/// One granted lease: which client holds the address and when the grant
/// runs out, as seconds of absolute time.
#[derive(Debug, Clone, Copy, PartialEq)]
pub struct Client {
    pub mac_address: MacAddr,
    pub expires: u64,
}

impl Client {
    /// A fresh lease for `mac_address`, expiring `lease_time` seconds after
    /// `now`.
    pub fn new(mac_address: &MacAddr, lease_time: u32, now: u64) -> (r: Client)
        requires
            now + lease_time <= u64::MAX,
        ensures
            r.mac_address == *mac_address,
            r.expires == now + lease_time,
    {
        Client { mac_address: *mac_address, expires: now + lease_time as u64 }
    }
}

/// The numeric value of four address octets in network byte order.
pub open spec fn spec_ip_int(ip: Seq<u8>) -> int {
    ip[0] * 0x100_0000 + ip[1] * 0x1_0000 + ip[2] * 0x100 + ip[3]
}

/// The four network-order octets of a numeric address.
pub open spec fn spec_ip_octets(v: u32) -> Seq<u8> {
    seq![(v >> 24) as u8, (v >> 16) as u8, (v >> 8) as u8, v as u8]
}

/// Octets of a value, back to the value.
pub proof fn lemma_ip_roundtrip(v: u32)
    ensures
        spec_ip_int(spec_ip_octets(v)) == v,
{
    let b0 = (v >> 24) as u8;
    let b1 = (v >> 16) as u8;
    let b2 = (v >> 8) as u8;
    let b3 = v as u8;
    assert(b0 as int * 0x100_0000 + b1 as int * 0x1_0000 + b2 as int * 0x100 + b3 as int
        == v as int) by (bit_vector)
        requires
            b0 == (v >> 24) as u8,
            b1 == (v >> 16) as u8,
            b2 == (v >> 8) as u8,
            b3 == v as u8,
    ;
}

/// The numeric value of an address, executably.
pub fn ip_value(ip: &[u8; 4]) -> (r: u32)
    ensures
        r == spec_ip_int(ip@),
{
    (ip[0] as u32) * 0x100_0000 + (ip[1] as u32) * 0x1_0000 + (ip[2] as u32) * 0x100 + (
    ip[3] as u32)
}

/// The octets of a numeric address, executably.
pub fn ip_octets(v: u32) -> (r: [u8; 4])
    ensures
        r@ == spec_ip_octets(v),
        spec_ip_int(r@) == v,
{
    let r: [u8; 4] = [
        #[verifier::truncate] ((v >> 24) as u8),
        #[verifier::truncate] ((v >> 16) as u8),
        #[verifier::truncate] ((v >> 8) as u8),
        #[verifier::truncate] (v as u8),
    ];
    proof {
        assert(r@ =~= spec_ip_octets(v));
        lemma_ip_roundtrip(v);
    }
    r
}

/// The first index at or after `i` whose slot is leased to `mac`.
pub open spec fn spec_find_mac(leases: Seq<Option<Client>>, mac: MacAddr, i: int) -> Option<int>
    decreases leases.len() - i,
{
    if i < 0 || i >= leases.len() {
        None
    } else if leases[i] is Some && leases[i]->0.mac_address == mac {
        Some(i)
    } else {
        spec_find_mac(leases, mac, i + 1)
    }
}

/// The first index at or after `i` holding no lease.
pub open spec fn spec_first_free(leases: Seq<Option<Client>>, i: int) -> Option<int>
    decreases leases.len() - i,
{
    if i < 0 || i >= leases.len() {
        None
    } else if leases[i] is None {
        Some(i)
    } else {
        spec_first_free(leases, i + 1)
    }
}

/// The index of the first lease with the smallest expiry among slots at or
/// after `i`, continuing a scan whose best find so far is `best` (-1 when
/// nothing leased has been seen yet).
pub open spec fn spec_oldest_from(leases: Seq<Option<Client>>, i: int, best: int) -> int
    decreases leases.len() - i,
{
    if i < 0 || i >= leases.len() {
        best
    } else if leases[i] is Some && (best == -1 || !(leases[best] is Some)
        || leases[i]->0.expires < leases[best]->0.expires) {
        spec_oldest_from(leases, i + 1, i)
    } else {
        spec_oldest_from(leases, i + 1, best)
    }
}

/// The index evicted under exhaustion: the first lease with the earliest
/// expiry.
pub open spec fn spec_oldest(leases: Seq<Option<Client>>) -> int {
    spec_oldest_from(leases, 0, -1)
}

/// What the oldest-lease scan returns: a leased slot whose expiry is no
/// later than any leased slot's, and no later than the best seen so far.
pub proof fn lemma_oldest_from(leases: Seq<Option<Client>>, i: int, best: int)
    requires
        0 <= i,
        best == -1 || (0 <= best < leases.len() && leases[best] is Some),
        best == -1 ==> exists|j: int| i <= j < leases.len() && leases[j] is Some,
    ensures
        ({
            let r = spec_oldest_from(leases, i, best);
            &&& 0 <= r < leases.len()
            &&& leases[r] is Some
            &&& best != -1 ==> leases[r]->0.expires <= leases[best]->0.expires
            &&& forall|j: int|
                i <= j < leases.len() && leases[j] is Some
                    ==> leases[r]->0.expires <= (#[trigger] leases[j])->0.expires
        }),
    decreases leases.len() - i,
{
    if i >= leases.len() {
    } else if leases[i] is Some && (best == -1 || !(leases[best] is Some)
        || leases[i]->0.expires < leases[best]->0.expires) {
        lemma_oldest_from(leases, i + 1, i);
    } else {
        if best == -1 {
            assert(exists|j: int| i + 1 <= j < leases.len() && leases[j] is Some);
        }
        lemma_oldest_from(leases, i + 1, best);
    }
}

/// The lease table: one slot per address of the allocatable range, kept in
/// ascending address order, plus the server's default reply options.
#[derive(Debug)]
pub struct AddrPool {
    subnet: [u8; 4],
    mask: [u8; 4],
    start: u32,
    leases: Vec<Option<Client>>,
    options: DhcpOptionList,
}

impl AddrPool {
    /// The lowest allocatable address, as a number.
    pub closed spec fn spec_start(&self) -> u32 {
        self.start
    }

    /// The lease slots, lowest address first.
    pub closed spec fn spec_leases(&self) -> Seq<Option<Client>> {
        self.leases@
    }

    /// The default options attached to replies on demand.
    pub closed spec fn spec_options(&self) -> DhcpOptionList {
        self.options
    }

    pub closed spec fn spec_subnet(&self) -> [u8; 4] {
        self.subnet
    }

    pub closed spec fn spec_mask(&self) -> [u8; 4] {
        self.mask
    }

    /// A usable pool: at least one slot, addresses that stay inside the
    /// 32-bit space, a well-formed option list, and default options small
    /// enough that any reply built from them fits a 512-byte datagram.
    pub open spec fn wf(&self) -> bool {
        &&& 1 <= self.spec_leases().len()
        &&& self.spec_start() + self.spec_leases().len() <= 0x1_0000_0000
        &&& self.spec_options().wf()
        &&& options_wire_len(self.spec_options()@) <= 268
    }

    /// The lease duration granted on new allocations: the pool's `LeaseTime`
    /// default if one is registered, else the compile-time default.
    pub open spec fn spec_lease_time(&self) -> u32 {
        match self.spec_options()@[DhcpOption::LEASE_TIME as int] {
            Some(DhcpOption::LeaseTime(t)) => t,
            _ => DEFAULT_LEASE_TIME,
        }
    }

    /// A pool whose allocatable set is every address of `range`, inclusive,
    /// with no leases granted, and whose only default options are the
    /// subnet mask and the end marker.
    pub fn new(subnet: [u8; 4], mask: [u8; 4], range: ([u8; 4], [u8; 4])) -> (r: AddrPool)
        requires
            spec_ip_int(range.0@) <= spec_ip_int(range.1@),
            spec_ip_int(range.1@) - spec_ip_int(range.0@) < usize::MAX,
        ensures
            r.wf(),
            r.spec_subnet() == subnet,
            r.spec_mask() == mask,
            r.spec_start() == spec_ip_int(range.0@),
            r.spec_leases().len() == spec_ip_int(range.1@) - spec_ip_int(range.0@) + 1,
            forall|i: int| 0 <= i < r.spec_leases().len() ==> r.spec_leases()[i] is None,
            forall|i: int|
                0 <= i < 256 ==> r.spec_options()@[i] == (if i == DhcpOption::SUBNET_MASK as int {
                    Some(DhcpOption::SubnetMask(mask))
                } else if i == DhcpOption::END as int {
                    Some(DhcpOption::End)
                } else {
                    Option::<DhcpOption>::None
                }),
    {
        let mut options = DhcpOptionList::builder();
        proof {
            lemma_stream_all_none(options@, 0);
        }
        let ghost empty = options@;
        options.add(DhcpOption::SubnetMask(mask));
        proof {
            lemma_stream_update_len(empty, 1, Some(DhcpOption::SubnetMask(mask)), 0);
        }
        let ghost once = options@;
        options.add(DhcpOption::End);
        proof {
            lemma_stream_update_len(once, 255, Some(DhcpOption::End), 0);
        }

        let start = ip_value(&range.0);
        let end = ip_value(&range.1);
        AddrPool { subnet, mask, start, leases: Self::initialise_range(start, end), options }
    }

    /// One free slot per address of `[start, end]`, inclusive, in ascending
    /// address order.
    fn initialise_range(start: u32, end: u32) -> (leases: Vec<Option<Client>>)
        requires
            start <= end,
            end - start < usize::MAX,
        ensures
            leases@.len() == end - start + 1,
            forall|i: int| 0 <= i < leases@.len() ==> leases@[i] is None,
    {
        let count = (end - start) as usize + 1;
        let mut leases: Vec<Option<Client>> = Vec::new();
        let mut n: usize = 0;
        while n < count
            invariant
                n <= count,
                leases@.len() == n,
                forall|i: int| 0 <= i < n ==> leases@[i] is None,
            decreases count - n,
        {
            leases.push(None);
            n = n + 1;
        }
        leases
    }

    /// Read-only view of the default options, for the reply builder.
    pub fn options(&self) -> (r: &DhcpOptionList)
        ensures
            *r == self.spec_options(),
    {
        &self.options
    }

    /// Register a default option, replacing any previous default with the
    /// same opcode. The option is refused -- and the pool left untouched --
    /// only when adding it could make a reply outgrow its datagram.
    pub fn add_option(&mut self, option: DhcpOption) -> (added: bool)
        requires
            old(self).wf(),
            option.wf(),
        ensures
            final(self).wf(),
            final(self).spec_start() == old(self).spec_start(),
            final(self).spec_subnet() == old(self).spec_subnet(),
            final(self).spec_mask() == old(self).spec_mask(),
            final(self).spec_leases() == old(self).spec_leases(),
            ({
                let updated = old(self).spec_options()@.update(
                    option.spec_opcode() as int,
                    Some(option),
                );
                if options_wire_len(updated) <= 268 {
                    added && final(self).spec_options()@ == updated
                } else {
                    !added && final(self).spec_options() == old(self).spec_options()
                }
            }),
    {
        let opcode = option.opcode();
        let total = self.options.wire_len();
        let cur_sz = match self.options.get(opcode) {
            Some(o) => o.encoded_len(),
            None => 0,
        };
        let new_sz = option.encoded_len();
        proof {
            lemma_stream_update_len(
                self.spec_options()@,
                opcode as int,
                Some(option),
                0,
            );
        }
        if total + new_sz <= 268 + cur_sz {
            self.options.add(option);
            true
        } else {
            false
        }
    }

    /// The first (lowest) address currently leased to `mac_addr`, if any.
    pub fn lookup_mac(&self, mac_addr: &MacAddr) -> (r: Option<[u8; 4]>)
        requires
            self.wf(),
        ensures
            match spec_find_mac(self.spec_leases(), *mac_addr, 0) {
                Some(i) => r is Some && r->0@ == spec_ip_octets((self.spec_start() + i) as u32),
                None => r is None,
            },
    {
        let n = self.leases.len();
        let mut i: usize = 0;
        while i < n
            invariant
                self.wf(),
                i <= n,
                n == self.spec_leases().len(),
                spec_find_mac(self.spec_leases(), *mac_addr, 0) == spec_find_mac(
                    self.spec_leases(),
                    *mac_addr,
                    i as int,
                ),
                forall|j: int|
                    0 <= j < i ==> !((#[trigger] self.spec_leases()[j]) is Some
                        && self.spec_leases()[j]->0.mac_address == *mac_addr),
            decreases n - i,
        {
            if let Some(client) = self.leases[i] {
                if client.mac_address == *mac_addr {
                    return Some(ip_octets(self.start + i as u32));
                }
            }
            i = i + 1;
        }
        None
    }

    /// Install a fresh lease for `mac_address` at the lowest free address,
    /// or report that every address is taken.
    fn allocate_address(&mut self, mac_address: &MacAddr, now: u64) -> (r: Option<[u8; 4]>)
        requires
            old(self).wf(),
            now + u32::MAX <= u64::MAX,
        ensures
            final(self).wf(),
            final(self).spec_start() == old(self).spec_start(),
            final(self).spec_subnet() == old(self).spec_subnet(),
            final(self).spec_mask() == old(self).spec_mask(),
            final(self).spec_options() == old(self).spec_options(),
            match spec_first_free(old(self).spec_leases(), 0) {
                Some(i) => {
                    &&& r is Some
                    &&& r->0@ == spec_ip_octets((old(self).spec_start() + i) as u32)
                    &&& final(self).spec_leases() == old(self).spec_leases().update(
                        i,
                        Some(
                            Client {
                                mac_address: *mac_address,
                                expires: (now + old(self).spec_lease_time()) as u64,
                            },
                        ),
                    )
                },
                None => r is None && final(self).spec_leases() == old(self).spec_leases(),
            },
    {
        let lease_time = match self.options.get(DhcpOption::LEASE_TIME) {
            Some(DhcpOption::LeaseTime(time)) => time,
            _ => DEFAULT_LEASE_TIME,
        };

        let n = self.leases.len();
        let mut i: usize = 0;
        while i < n
            invariant
                self.wf(),
                *self == *old(self),
                i <= n,
                n == self.spec_leases().len(),
                lease_time == self.spec_lease_time(),
                now + u32::MAX <= u64::MAX,
                spec_first_free(self.spec_leases(), 0) == spec_first_free(
                    self.spec_leases(),
                    i as int,
                ),
            decreases n - i,
        {
            if self.leases[i].is_none() {
                let lease = Client::new(mac_address, lease_time, now);
                self.leases.set(i, Some(lease));
                return Some(ip_octets(self.start + i as u32));
            }
            i = i + 1;
        }
        None
    }

    /// Replace the lease with the earliest expiry -- the least recently
    /// renewed grant -- by a fresh lease for `mac_address`, and hand back
    /// the reclaimed address. Called only once every address is taken.
    fn evict_oldest_lease(&mut self, mac_address: &MacAddr, now: u64) -> (r: [u8; 4])
        requires
            old(self).wf(),
            now + u32::MAX <= u64::MAX,
            spec_first_free(old(self).spec_leases(), 0) is None,
        ensures
            final(self).wf(),
            final(self).spec_start() == old(self).spec_start(),
            final(self).spec_subnet() == old(self).spec_subnet(),
            final(self).spec_mask() == old(self).spec_mask(),
            final(self).spec_options() == old(self).spec_options(),
            ({
                let victim = spec_oldest(old(self).spec_leases());
                &&& r@ == spec_ip_octets((old(self).spec_start() + victim) as u32)
                &&& final(self).spec_leases() == old(self).spec_leases().update(
                    victim,
                    Some(
                        Client {
                            mac_address: *mac_address,
                            expires: (now + old(self).spec_lease_time()) as u64,
                        },
                    ),
                )
            }),
    {
        let lease_time = match self.options.get(DhcpOption::LEASE_TIME) {
            Some(DhcpOption::LeaseTime(time)) => time,
            _ => DEFAULT_LEASE_TIME,
        };

        proof {
            lemma_first_free_none(self.spec_leases(), 0);
            assert(self.spec_leases()[0] is Some);
            lemma_oldest_from(self.spec_leases(), 0, -1);
        }

        let n = self.leases.len();
        let mut best: usize = 0;
        let mut found = false;
        let mut i: usize = 0;
        while i < n
            invariant
                self.wf(),
                *self == *old(self),
                i <= n,
                n == self.spec_leases().len(),
                found ==> best < i && self.spec_leases()[best as int] is Some,
                spec_oldest_from(self.spec_leases(), 0, -1) == spec_oldest_from(
                    self.spec_leases(),
                    i as int,
                    if found {
                        best as int
                    } else {
                        -1
                    },
                ),
            decreases n - i,
        {
            let better = match (&self.leases[i], found) {
                (Some(_), false) => true,
                (Some(client), true) => {
                    let best_expires = match &self.leases[best] {
                        Some(b) => b.expires,
                        None => 0,
                    };
                    client.expires < best_expires
                },
                (None, _) => false,
            };
            if better {
                best = i;
                found = true;
            }
            i = i + 1;
        }

        let lease = Client::new(mac_address, lease_time, now);
        self.leases.set(best, Some(lease));
        ip_octets(self.start + best as u32)
    }

    /// An address for `mac_address`: the address already leased to it if
    /// there is one, else the lowest free address under a fresh lease, else
    /// -- with every address taken -- the address whose lease expires
    /// soonest, re-granted to this client. Never fails.
    pub fn request(&mut self, mac_address: &MacAddr, now: u64) -> (r: [u8; 4])
        requires
            old(self).wf(),
            now + u32::MAX <= u64::MAX,
        ensures
            final(self).wf(),
            final(self).spec_start() == old(self).spec_start(),
            final(self).spec_subnet() == old(self).spec_subnet(),
            final(self).spec_mask() == old(self).spec_mask(),
            final(self).spec_options() == old(self).spec_options(),
            ({
                let l = old(self).spec_leases();
                &&& r@ == spec_ip_octets(
                    (old(self).spec_start() + spec_request_slot(l, *mac_address)) as u32,
                )
                &&& final(self).spec_leases() == spec_request_leases(
                    l,
                    *mac_address,
                    (now + old(self).spec_lease_time()) as u64,
                )
            }),
    {
        match self.lookup_mac(mac_address) {
            Some(ip) => ip,
            None => match self.allocate_address(mac_address, now) {
                Some(ip) => ip,
                None => self.evict_oldest_lease(mac_address, now),
            },
        }
    }

    /// Whether the pool holds a lease at `ip_addr` and that lease belongs
    /// to `mac_address`: the check behind SELECTING and INIT-REBOOT.
    pub fn verify_request(&self, mac_address: &MacAddr, ip_addr: &[u8; 4]) -> (r: bool)
        requires
            self.wf(),
        ensures
            r == spec_verify(*self, *mac_address, ip_addr@),
    {
        let v = ip_value(ip_addr);
        if v < self.start {
            return false;
        }
        let off = (v - self.start) as usize;
        if off >= self.leases.len() {
            return false;
        }
        match &self.leases[off] {
            Some(client) => client.mac_address == *mac_address,
            None => false,
        }
    }
}

/// The slot `request` hands out on a pool whose leases are `l`: the first
/// slot already leased to `mac`, else the first free slot, else the first
/// slot whose lease expires soonest.
pub open spec fn spec_request_slot(l: Seq<Option<Client>>, mac: MacAddr) -> int {
    match spec_find_mac(l, mac, 0) {
        Some(i) => i,
        None => match spec_first_free(l, 0) {
            Some(f) => f,
            None => spec_oldest(l),
        },
    }
}

/// The lease table after `request`: untouched when `mac` already held an
/// address, else the chosen slot holds a fresh lease expiring at `exp`.
pub open spec fn spec_request_leases(l: Seq<Option<Client>>, mac: MacAddr, exp: u64) -> Seq<
    Option<Client>,
> {
    match spec_find_mac(l, mac, 0) {
        Some(_) => l,
        None => l.update(
            spec_request_slot(l, mac),
            Some(Client { mac_address: mac, expires: exp }),
        ),
    }
}

/// Whether `pool` holds a lease at address `ip` owned by `mac`.
pub open spec fn spec_verify(pool: AddrPool, mac: MacAddr, ip: Seq<u8>) -> bool {
    let v = spec_ip_int(ip);
    let off = v - pool.spec_start();
    &&& pool.spec_start() <= v
    &&& off < pool.spec_leases().len()
    &&& pool.spec_leases()[off] is Some
    &&& pool.spec_leases()[off]->0.mac_address == mac
}

/// When no slot at or after `i` is free, every slot from `i` on is leased.
pub proof fn lemma_first_free_none(leases: Seq<Option<Client>>, i: int)
    requires
        0 <= i,
        spec_first_free(leases, i) is None,
    ensures
        forall|j: int| i <= j < leases.len() ==> leases[j] is Some,
    decreases leases.len() - i,
{
    if i < leases.len() {
        lemma_first_free_none(leases, i + 1);
    }
}

/// What the MAC scan returns: the first matching leased slot, and nothing
/// matching before it; or nothing matching at all.
pub proof fn lemma_find_mac_props(l: Seq<Option<Client>>, mac: MacAddr, i: int)
    requires
        0 <= i,
    ensures
        match spec_find_mac(l, mac, i) {
            Some(k) => {
                &&& i <= k < l.len()
                &&& l[k] is Some
                &&& l[k]->0.mac_address == mac
                &&& forall|j: int|
                    i <= j < k ==> !((#[trigger] l[j]) is Some && l[j]->0.mac_address == mac)
            },
            None => forall|j: int|
                i <= j < l.len() ==> !((#[trigger] l[j]) is Some && l[j]->0.mac_address == mac),
        },
    decreases l.len() - i,
{
    if i < l.len() && !(l[i] is Some && l[i]->0.mac_address == mac) {
        lemma_find_mac_props(l, mac, i + 1);
    }
}

/// What the free-slot scan returns: the first free slot, everything before
/// it leased; or nothing free at all.
pub proof fn lemma_first_free_props(l: Seq<Option<Client>>, i: int)
    requires
        0 <= i,
    ensures
        match spec_first_free(l, i) {
            Some(k) => {
                &&& i <= k < l.len()
                &&& l[k] is None
                &&& forall|j: int| i <= j < k ==> (#[trigger] l[j]) is Some
            },
            None => forall|j: int| i <= j < l.len() ==> (#[trigger] l[j]) is Some,
        },
    decreases l.len() - i,
{
    if i < l.len() && !(l[i] is None) {
        lemma_first_free_props(l, i + 1);
    }
}

/// When slots `i..t` are leased and slot `t` is free, `t` is the first
/// free slot of the scan from `i`.
pub proof fn lemma_first_free_exact(l: Seq<Option<Client>>, t: int, i: int)
    requires
        0 <= i <= t < l.len(),
        forall|j: int| i <= j < t ==> (#[trigger] l[j]) is Some,
        l[t] is None,
    ensures
        spec_first_free(l, i) == Some(t),
    decreases t - i,
{
    if i < t {
        lemma_first_free_exact(l, t, i + 1);
    }
}

/// Granting a fresh lease to a client the table did not know makes its
/// slot the first -- and only -- slot the MAC scan finds for that client.
pub proof fn lemma_find_mac_after_update(
    l: Seq<Option<Client>>,
    mac: MacAddr,
    f: int,
    c: Client,
    i: int,
)
    requires
        0 <= i <= f < l.len(),
        spec_find_mac(l, mac, i) is None,
        c.mac_address == mac,
    ensures
        spec_find_mac(l.update(f, Some(c)), mac, i) == Some(f),
    decreases f - i,
{
    if i < f {
        lemma_find_mac_after_update(l, mac, f, c, i + 1);
    }
}

/// A scan keeps its best find when no remaining lease expires strictly
/// earlier.
pub proof fn lemma_oldest_from_stable(l: Seq<Option<Client>>, i: int, best: int)
    requires
        0 <= i,
        0 <= best < l.len(),
        l[best] is Some,
        forall|j: int|
            i <= j < l.len() && (#[trigger] l[j]) is Some
                ==> l[best]->0.expires <= l[j]->0.expires,
    ensures
        spec_oldest_from(l, i, best) == best,
    decreases l.len() - i,
{
    if i < l.len() {
        lemma_oldest_from_stable(l, i + 1, best);
    }
}

/// After `request` grants `ip` to `mac`, the pool verifies the pair
/// `(mac, ip)`: the lease at `ip` belongs to `mac`.
pub proof fn lemma_request_then_verify(p0: AddrPool, p1: AddrPool, mac: MacAddr, exp: u64)
    requires
        p0.wf(),
        p1.spec_start() == p0.spec_start(),
        p1.spec_leases() == spec_request_leases(p0.spec_leases(), mac, exp),
    ensures
        spec_verify(
            p1,
            mac,
            spec_ip_octets((p0.spec_start() + spec_request_slot(p0.spec_leases(), mac)) as u32),
        ),
{
    let l = p0.spec_leases();
    let slot = spec_request_slot(l, mac);
    lemma_find_mac_props(l, mac, 0);
    lemma_first_free_props(l, 0);
    if spec_find_mac(l, mac, 0) is None && spec_first_free(l, 0) is None {
        lemma_oldest_from(l, 0, -1);
    }
    assert(0 <= slot < l.len());
    lemma_ip_roundtrip((p0.spec_start() + slot) as u32);
}

/// Asking again changes nothing: once `request` has granted a slot to
/// `mac`, an immediate second `request` for `mac` picks the same slot and
/// leaves the lease table as it was.
pub proof fn lemma_repeat_request(l: Seq<Option<Client>>, mac: MacAddr, exp: u64, exp2: u64)
    requires
        l.len() >= 1,
    ensures
        ({
            let l1 = spec_request_leases(l, mac, exp);
            &&& spec_request_slot(l1, mac) == spec_request_slot(l, mac)
            &&& spec_request_leases(l1, mac, exp2) == l1
        }),
{
    let slot = spec_request_slot(l, mac);
    let l1 = spec_request_leases(l, mac, exp);
    if spec_find_mac(l, mac, 0) is None {
        lemma_first_free_props(l, 0);
        if spec_first_free(l, 0) is None {
            lemma_oldest_from(l, 0, -1);
        }
        assert(0 <= slot < l.len());
        lemma_find_mac_after_update(
            l,
            mac,
            slot,
            Client { mac_address: mac, expires: exp },
            0,
        );
    }
}

/// Under exhaustion a request from an unknown client evicts the first
/// lease with the earliest expiry; and when no current lease outlives the
/// new grant, the refreshed slot ends up holding the latest expiry of the
/// whole table.
pub proof fn lemma_eviction(l: Seq<Option<Client>>, mac: MacAddr, exp: u64)
    requires
        l.len() >= 1,
        spec_find_mac(l, mac, 0) is None,
        spec_first_free(l, 0) is None,
    ensures
        ({
            let v = spec_request_slot(l, mac);
            let l1 = spec_request_leases(l, mac, exp);
            &&& 0 <= v < l.len()
            &&& l[v] is Some
            &&& forall|j: int|
                0 <= j < l.len() && (#[trigger] l[j]) is Some
                    ==> l[v]->0.expires <= l[j]->0.expires
            &&& l1 == l.update(v, Some(Client { mac_address: mac, expires: exp }))
            &&& (forall|j: int|
                0 <= j < l.len() && (#[trigger] l[j]) is Some ==> l[j]->0.expires <= exp)
                ==> forall|j: int|
                0 <= j < l1.len() && (#[trigger] l1[j]) is Some
                    ==> l1[j]->0.expires <= l1[v]->0.expires
        }),
{
    lemma_first_free_none(l, 0);
    lemma_oldest_from(l, 0, -1);
}

/// The lease table after a run of requests, one per entry of `macs`, all
/// granted the same expiry.
pub open spec fn spec_fill(l: Seq<Option<Client>>, macs: Seq<MacAddr>, exp: u64) -> Seq<
    Option<Client>,
>
    decreases macs.len(),
{
    if macs.len() == 0 {
        l
    } else {
        spec_fill(spec_request_leases(l, macs[0], exp), macs.skip(1), exp)
    }
}

/// A pool with `k` allocatable addresses facing `k + 1` distinct clients:
/// the first `k` requests fill the table in address order, and the last
/// grant evicts the lease whose expiry is earliest -- the very first one
/// granted -- and, granted no earlier than the rest, ends up holding the
/// latest expiry in the whole table.
pub proof fn lemma_exhaustion_round(
    l: Seq<Option<Client>>,
    macs: Seq<MacAddr>,
    exp: u64,
    exp2: u64,
)
    requires
        l.len() >= 1,
        macs.len() == l.len() + 1,
        forall|j1: int, j2: int| 0 <= j1 < j2 < macs.len() ==> macs[j1] != macs[j2],
        forall|j: int| 0 <= j < l.len() ==> (#[trigger] l[j]) is None,
        exp <= exp2,
    ensures
        ({
            let k = l.len() as int;
            let filled = spec_fill(l, macs.take(k), exp);
            let last = macs[k];
            let end = spec_request_leases(filled, last, exp2);
            &&& forall|j: int|
                0 <= j < k ==> filled[j] == Some(
                    Client { mac_address: macs[j], expires: exp },
                )
            &&& spec_request_slot(filled, last) == 0
            &&& end == filled.update(0, Some(Client { mac_address: last, expires: exp2 }))
            &&& forall|j: int|
                0 <= j < end.len() && (#[trigger] end[j]) is Some ==> end[j]->0.expires
                    <= end[0]->0.expires
        }),
{
    let k = l.len() as int;
    let taken = macs.take(k);
    assert(Seq::<MacAddr>::empty() + taken =~= taken);
    lemma_fill_distinct(l, Seq::empty(), taken, exp);
    let filled = spec_fill(l, taken, exp);
    let last = macs[k];

    assert forall|j: int|
        0 <= j < filled.len() implies !((#[trigger] filled[j]) is Some
        && filled[j]->0.mac_address == last) by {
        assert(taken[j] == macs[j]);
    }
    lemma_find_mac_props(filled, last, 0);
    if spec_find_mac(filled, last, 0) is Some {
        let w = spec_find_mac(filled, last, 0)->0;
        assert(filled[w] is Some && filled[w]->0.mac_address == last);
        assert(false);
    }
    lemma_first_free_props(filled, 0);
    if spec_first_free(filled, 0) is Some {
        let f = spec_first_free(filled, 0)->0;
        assert(filled[f] is None);
        assert(false);
    }
    assert(spec_oldest_from(filled, 0, -1) == spec_oldest_from(filled, 1, 0));
    lemma_oldest_from_stable(filled, 1, 0);
}

/// Requests from pairwise distinct clients fill an empty table in address
/// order: after the table's first `pre.len()` slots went to the clients of
/// `pre`, the clients of `macs` receive the following slots, one each, in
/// the order they ask.
pub proof fn lemma_fill_distinct(
    l: Seq<Option<Client>>,
    pre: Seq<MacAddr>,
    macs: Seq<MacAddr>,
    exp: u64,
)
    requires
        pre.len() + macs.len() <= l.len(),
        ({
            let all = pre + macs;
            forall|j1: int, j2: int| 0 <= j1 < j2 < all.len() ==> all[j1] != all[j2]
        }),
        forall|j: int|
            0 <= j < pre.len() ==> l[j] == Some(Client { mac_address: pre[j], expires: exp }),
        forall|j: int| pre.len() <= j < l.len() ==> (#[trigger] l[j]) is None,
    ensures
        ({
            let lf = spec_fill(l, macs, exp);
            let all = pre + macs;
            &&& lf.len() == l.len()
            &&& forall|j: int|
                0 <= j < all.len() ==> lf[j] == Some(
                    Client { mac_address: all[j], expires: exp },
                )
            &&& forall|j: int| all.len() <= j < l.len() ==> (#[trigger] lf[j]) is None
        }),
    decreases macs.len(),
{
    let all = pre + macs;
    if macs.len() == 0 {
        assert(all =~= pre);
    } else {
        let t = pre.len() as int;
        let mac0 = macs[0];
        assert(all[t] == mac0);
        assert forall|j: int|
            0 <= j < l.len() implies !((#[trigger] l[j]) is Some
            && l[j]->0.mac_address == mac0) by {
            if j < t {
                assert(all[j] == pre[j]);
            }
        }
        lemma_find_mac_props(l, mac0, 0);
        if spec_find_mac(l, mac0, 0) is Some {
            let k = spec_find_mac(l, mac0, 0)->0;
            assert(l[k] is Some && l[k]->0.mac_address == mac0);
            assert(false);
        }
        lemma_first_free_exact(l, t, 0);
        let l1 = spec_request_leases(l, mac0, exp);
        assert(l1 == l.update(t, Some(Client { mac_address: mac0, expires: exp })));
        let pre1 = pre.push(mac0);
        assert(pre1 + macs.skip(1) =~= all);
        lemma_fill_distinct(l1, pre1, macs.skip(1), exp);
        assert(spec_fill(l, macs, exp) == spec_fill(l1, macs.skip(1), exp));
    }
}

} // verus!
