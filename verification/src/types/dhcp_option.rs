//! Individual DHCP options and the opcode-indexed option list.

use crate::types::ClientIdentifier;
use crate::types::MessageType;
use vstd::prelude::*;

verus! {

broadcast use vstd::array::group_array_axioms;

/// One decoded DHCP option. Options whose payload has a variable length on
/// the wire are stored zero-padded in a fixed buffer; where the length
/// matters for re-encoding it is kept alongside the bytes.
#[derive(Debug, Clone, Copy, PartialEq)]
pub enum DhcpOption {
    /// 0
    Pad,
    /// 1
    SubnetMask([u8; 4]),
    /// 3
    Router([u8; 4]),
    /// 6
    DomainNameServer([u8; 4]),
    /// 12: bytes of the name, zero-padded, plus its length
    HostName([u8; 64], u8),
    /// 13
    BootFileSize(u16),
    /// 15: bytes of the name, zero-padded, plus its length
    DomainName([u8; 64], u8),
    /// 28
    BroadcastAddress([u8; 4]),
    /// 50
    RequestedIpAddr([u8; 4]),
    /// 51
    LeaseTime(u32),
    /// 53
    MessageType(MessageType),
    /// 54
    DhcpServerIpAddr([u8; 4]),
    /// 55: the requested opcodes, zero-padded, plus how many were given
    ParameterRequestList([u8; 40], u8),
    /// 57
    MaxMessageSize(u16),
    /// 60
    VendorClassIndentifier([u8; 32]),
    /// 61
    ClientIdentifier(ClientIdentifier),
    /// 66: bytes of the name, zero-padded, plus its length
    TftpServerName([u8; 64], u8),
    /// 67: bytes of the name, zero-padded, plus its length
    BootFileName([u8; 64], u8),
    /// 93
    ClientSystemArch([u8; 2]),
    /// 94
    ClientNetworkDeviceInterface([u8; 3]),
    /// 97
    ClientUid([u8; 17]),
    /// 255
    End,
}

impl DhcpOption {
    pub const PAD: u8 = 0;
    pub const SUBNET_MASK: u8 = 1;
    pub const ROUTER: u8 = 3;
    pub const DOMAIN_NAME_SERVER: u8 = 6;
    pub const REQUESTED_IP_ADDR: u8 = 50;
    pub const LEASE_TIME: u8 = 51;
    pub const MESSAGE_TYPE: u8 = 53;
    pub const DHCP_SERVER_IP_ADDR: u8 = 54;
    pub const PARAMETER_REQUEST_LIST: u8 = 55;
    pub const MAX_MESSAGE_SIZE: u8 = 57;
    pub const VENDOR_CLASS_ID: u8 = 60;
    pub const CLIENT_ID: u8 = 61;
    pub const CLIENT_SYSTEM_ARCH: u8 = 93;
    pub const CLIENT_NET_DEV_INTERFACE: u8 = 94;
    pub const CLIENT_UID: u8 = 97;
    pub const END: u8 = 255;

    // Expected payload lengths
    pub const IP_ADDR_LEN: u8 = 4;
    pub const MAX_PARAMETER_REQUEST_LIST_LEN: u8 = 40;
    pub const MAX_CLIENT_UID_LEN: u8 = 17;
    pub const MIN_CLIENT_UID_LEN: u8 = 2;
    pub const MAX_MESSAGE_SIZE_LEN: u8 = 2;
    pub const MESSAGE_TYPE_LEN: u8 = 1;
    pub const MIN_PARAMETER_REQUEST_LEN: u8 = 1;
    pub const CLIENT_NET_DEV_INTERFACE_LEN: u8 = 3;
    pub const CLIENT_SYSTEM_ARCH_LEN: u8 = 2;
    pub const MAX_VENDOR_CLASS_ID_LEN: u8 = 32;
    pub const MAX_NAME_LEN: u8 = 64;

    /// The wire opcode of this option.
    pub open spec fn spec_opcode(self) -> u8 {
        match self {
            DhcpOption::Pad => 0,
            DhcpOption::SubnetMask(_) => 1,
            DhcpOption::Router(_) => 3,
            DhcpOption::DomainNameServer(_) => 6,
            DhcpOption::HostName(_, _) => 12,
            DhcpOption::BootFileSize(_) => 13,
            DhcpOption::DomainName(_, _) => 15,
            DhcpOption::BroadcastAddress(_) => 28,
            DhcpOption::RequestedIpAddr(_) => 50,
            DhcpOption::LeaseTime(_) => 51,
            DhcpOption::MessageType(_) => 53,
            DhcpOption::DhcpServerIpAddr(_) => 54,
            DhcpOption::ParameterRequestList(_, _) => 55,
            DhcpOption::MaxMessageSize(_) => 57,
            DhcpOption::VendorClassIndentifier(_) => 60,
            DhcpOption::ClientIdentifier(_) => 61,
            DhcpOption::TftpServerName(_, _) => 66,
            DhcpOption::BootFileName(_, _) => 67,
            DhcpOption::ClientSystemArch(_) => 93,
            DhcpOption::ClientNetworkDeviceInterface(_) => 94,
            DhcpOption::ClientUid(_) => 97,
            DhcpOption::End => 255,
        }
    }

    pub fn opcode(&self) -> (r: u8)
        ensures
            r == self.spec_opcode(),
    {
        match self {
            DhcpOption::Pad => 0,
            DhcpOption::SubnetMask(_) => 1,
            DhcpOption::Router(_) => 3,
            DhcpOption::DomainNameServer(_) => 6,
            DhcpOption::HostName(_, _) => 12,
            DhcpOption::BootFileSize(_) => 13,
            DhcpOption::DomainName(_, _) => 15,
            DhcpOption::BroadcastAddress(_) => 28,
            DhcpOption::RequestedIpAddr(_) => 50,
            DhcpOption::LeaseTime(_) => 51,
            DhcpOption::MessageType(_) => 53,
            DhcpOption::DhcpServerIpAddr(_) => 54,
            DhcpOption::ParameterRequestList(_, _) => 55,
            DhcpOption::MaxMessageSize(_) => 57,
            DhcpOption::VendorClassIndentifier(_) => 60,
            DhcpOption::ClientIdentifier(_) => 61,
            DhcpOption::TftpServerName(_, _) => 66,
            DhcpOption::BootFileName(_, _) => 67,
            DhcpOption::ClientSystemArch(_) => 93,
            DhcpOption::ClientNetworkDeviceInterface(_) => 94,
            DhcpOption::ClientUid(_) => 97,
            DhcpOption::End => 255,
        }
    }

    /// The payload bytes of this option as they appear on the wire. Kinds
    /// that are stored zero-padded without a length keep the whole padded
    /// buffer as their payload.
    pub open spec fn payload_view(self) -> Seq<u8> {
        match self {
            DhcpOption::Pad => Seq::empty(),
            DhcpOption::SubnetMask(a) => a@,
            DhcpOption::Router(a) => a@,
            DhcpOption::DomainNameServer(a) => a@,
            DhcpOption::HostName(b, len) => b@.take(len as int),
            DhcpOption::BootFileSize(v) => seq![(v >> 8) as u8, v as u8],
            DhcpOption::DomainName(b, len) => b@.take(len as int),
            DhcpOption::BroadcastAddress(a) => a@,
            DhcpOption::RequestedIpAddr(a) => a@,
            DhcpOption::LeaseTime(t) => seq![
                (t >> 24) as u8,
                (t >> 16) as u8,
                (t >> 8) as u8,
                t as u8,
            ],
            DhcpOption::MessageType(mt) => seq![mt.spec_code()],
            DhcpOption::DhcpServerIpAddr(a) => a@,
            DhcpOption::ParameterRequestList(b, len) => b@.take(len as int),
            DhcpOption::MaxMessageSize(v) => seq![(v >> 8) as u8, v as u8],
            DhcpOption::VendorClassIndentifier(b) => b@,
            DhcpOption::ClientIdentifier(c) => seq![c.hw_type] + c.id@,
            DhcpOption::TftpServerName(b, len) => b@.take(len as int),
            DhcpOption::BootFileName(b, len) => b@.take(len as int),
            DhcpOption::ClientSystemArch(b) => b@,
            DhcpOption::ClientNetworkDeviceInterface(b) => b@,
            DhcpOption::ClientUid(b) => b@,
            DhcpOption::End => Seq::empty(),
        }
    }

    /// Whether the serializer knows the wire form of this option. Callers
    /// must only emit options they know how to encode; the rest are decoded
    /// from clients but never sent.
    pub open spec fn is_encodable(self) -> bool {
        match self {
            DhcpOption::Pad => true,
            DhcpOption::SubnetMask(_) => true,
            DhcpOption::Router(_) => true,
            DhcpOption::DomainNameServer(_) => true,
            DhcpOption::HostName(_, _) => true,
            DhcpOption::BootFileSize(_) => true,
            DhcpOption::DomainName(_, _) => true,
            DhcpOption::BroadcastAddress(_) => true,
            DhcpOption::RequestedIpAddr(_) => true,
            DhcpOption::LeaseTime(_) => true,
            DhcpOption::MessageType(_) => true,
            DhcpOption::DhcpServerIpAddr(_) => true,
            DhcpOption::MaxMessageSize(_) => true,
            DhcpOption::TftpServerName(_, _) => true,
            DhcpOption::BootFileName(_, _) => true,
            DhcpOption::End => true,
            _ => false,
        }
    }

    /// The wire form of an encodable option: `Pad` and `End` are their bare
    /// opcode; everything else is opcode, payload length, payload.
    pub open spec fn spec_encode(self) -> Seq<u8> {
        match self {
            DhcpOption::Pad => seq![0u8],
            DhcpOption::End => seq![255u8],
            _ => seq![self.spec_opcode(), self.payload_view().len() as u8]
                + self.payload_view(),
        }
    }

    /// How many bytes this option contributes to a serialized option
    /// stream: the length of its wire form, or nothing when the serializer
    /// skips it.
    pub open spec fn enc_len(self) -> nat {
        if self.is_encodable() {
            self.spec_encode().len()
        } else {
            0
        }
    }

    /// The stream contribution, as an executable count.
    pub fn encoded_len(&self) -> (r: usize)
        requires
            self.wf(),
        ensures
            r == self.enc_len(),
    {
        match self {
            DhcpOption::Pad => 1,
            DhcpOption::End => 1,
            DhcpOption::SubnetMask(_) => 6,
            DhcpOption::Router(_) => 6,
            DhcpOption::DomainNameServer(_) => 6,
            DhcpOption::BroadcastAddress(_) => 6,
            DhcpOption::RequestedIpAddr(_) => 6,
            DhcpOption::DhcpServerIpAddr(_) => 6,
            DhcpOption::HostName(_, len) => 2 + *len as usize,
            DhcpOption::DomainName(_, len) => 2 + *len as usize,
            DhcpOption::TftpServerName(_, len) => 2 + *len as usize,
            DhcpOption::BootFileName(_, len) => 2 + *len as usize,
            DhcpOption::MessageType(_) => 3,
            DhcpOption::LeaseTime(_) => 6,
            DhcpOption::BootFileSize(_) => 4,
            DhcpOption::MaxMessageSize(_) => 4,
            _ => 0,
        }
    }

    /// Write this option's wire form into `buffer` at offset `at`, leaving
    /// every other byte untouched, and say how many bytes were written.
    /// An option the serializer has no wire form for is reported as `None`
    /// and the buffer is left as it was: the failure is not fatal.
    pub fn serialise(&self, buffer: &mut Vec<u8>, at: usize) -> (r: Option<usize>)
        requires
            self.wf(),
            at + self.enc_len() <= old(buffer).len(),
        ensures
            final(buffer)@.len() == old(buffer)@.len(),
            match r {
                Some(n) => {
                    &&& self.is_encodable()
                    &&& n == self.enc_len()
                    &&& final(buffer)@.subrange(at as int, at + n) == self.spec_encode()
                    &&& forall|j: int|
                        0 <= j < old(buffer)@.len() && !(at <= j < at + n)
                            ==> final(buffer)@[j] == old(buffer)@[j]
                },
                None => !self.is_encodable() && final(buffer)@ == old(buffer)@,
            },
    {
        match self {
            DhcpOption::Pad => {
                buffer.set(at, 0);
                proof {
                    assert(buffer@.subrange(at as int, at + 1) =~= self.spec_encode());
                }
                Some(1)
            },
            DhcpOption::End => {
                buffer.set(at, 255);
                proof {
                    assert(buffer@.subrange(at as int, at + 1) =~= self.spec_encode());
                }
                Some(1)
            },
            DhcpOption::SubnetMask(a)
            | DhcpOption::Router(a)
            | DhcpOption::DomainNameServer(a)
            | DhcpOption::BroadcastAddress(a)
            | DhcpOption::RequestedIpAddr(a)
            | DhcpOption::DhcpServerIpAddr(a) => {
                buffer.set(at, self.opcode());
                buffer.set(at + 1, 4);
                buffer.set(at + 2, a[0]);
                buffer.set(at + 3, a[1]);
                buffer.set(at + 4, a[2]);
                buffer.set(at + 5, a[3]);
                proof {
                    assert(buffer@.subrange(at as int, at + 6) =~= self.spec_encode());
                }
                Some(6)
            },
            DhcpOption::HostName(b, len)
            | DhcpOption::DomainName(b, len)
            | DhcpOption::TftpServerName(b, len)
            | DhcpOption::BootFileName(b, len) => {
                let n: usize = 2 + *len as usize;
                buffer.set(at, self.opcode());
                buffer.set(at + 1, *len);
                let mut k: usize = 0;
                while k < *len as usize
                    invariant
                        k <= len as usize,
                        len <= 64,
                        at + 2 + len as usize <= buffer.len(),
                        buffer@.len() == old(buffer)@.len(),
                        buffer@[at as int] == self.spec_opcode(),
                        buffer@[at + 1] == len,
                        forall|m: int| 0 <= m < k ==> buffer@[at + 2 + m] == b@[m],
                        forall|j: int|
                            0 <= j < old(buffer)@.len() && !(at <= j < at + 2 + k)
                                ==> buffer@[j] == old(buffer)@[j],
                    decreases len as usize - k,
                {
                    buffer.set(at + 2 + k, b[k]);
                    k = k + 1;
                }
                proof {
                    assert(buffer@.subrange(at as int, at + n) =~= self.spec_encode());
                }
                Some(n)
            },
            DhcpOption::MessageType(mt) => {
                buffer.set(at, 53);
                buffer.set(at + 1, 1);
                buffer.set(at + 2, mt.code());
                proof {
                    assert(buffer@.subrange(at as int, at + 3) =~= self.spec_encode());
                }
                Some(3)
            },
            DhcpOption::LeaseTime(t) => {
                buffer.set(at, 51);
                buffer.set(at + 1, 4);
                buffer.set(at + 2, #[verifier::truncate] ((*t >> 24) as u8));
                buffer.set(at + 3, #[verifier::truncate] ((*t >> 16) as u8));
                buffer.set(at + 4, #[verifier::truncate] ((*t >> 8) as u8));
                buffer.set(at + 5, #[verifier::truncate] (*t as u8));
                proof {
                    assert(buffer@.subrange(at as int, at + 6) =~= self.spec_encode());
                }
                Some(6)
            },
            DhcpOption::BootFileSize(v) | DhcpOption::MaxMessageSize(v) => {
                buffer.set(at, self.opcode());
                buffer.set(at + 1, 2);
                buffer.set(at + 2, #[verifier::truncate] ((*v >> 8) as u8));
                buffer.set(at + 3, #[verifier::truncate] (*v as u8));
                proof {
                    assert(buffer@.subrange(at as int, at + 4) =~= self.spec_encode());
                }
                Some(4)
            },
            _ => None,
        }
    }

    /// Payload well-formedness: stored lengths stay within their buffers
    /// and inside the wire limits of their option kind, and a message-type
    /// option carries a kind that exists on the wire.
    pub open spec fn wf(self) -> bool {
        match self {
            DhcpOption::HostName(_, len) => len <= DhcpOption::MAX_NAME_LEN,
            DhcpOption::DomainName(_, len) => len <= DhcpOption::MAX_NAME_LEN,
            DhcpOption::TftpServerName(_, len) => len <= DhcpOption::MAX_NAME_LEN,
            DhcpOption::BootFileName(_, len) => len <= DhcpOption::MAX_NAME_LEN,
            DhcpOption::ParameterRequestList(_, len) => 1 <= len <= 40,
            DhcpOption::MessageType(mt) => mt != MessageType::Unset,
            _ => true,
        }
    }
}

/// A fixed-capacity option collection indexed by opcode: at most one option
/// per opcode, and adding an option replaces any previous entry with the
/// same opcode. Iteration (and hence serialization) is opcode-ascending.
#[derive(Debug, Clone, PartialEq)]
pub struct DhcpOptionList {
    slots: Vec<Option<DhcpOption>>,
}

impl View for DhcpOptionList {
    type V = Seq<Option<DhcpOption>>;

    closed spec fn view(&self) -> Seq<Option<DhcpOption>> {
        self.slots@
    }
}

impl DhcpOptionList {
    pub const MAX_LEN: usize = 256;

    /// One slot per possible opcode, every present entry stored at its own
    /// opcode and well formed.
    pub open spec fn wf(self) -> bool {
        &&& self@.len() == 256
        &&& forall|i: int|
            0 <= i < 256 && self@[i] is Some ==> (#[trigger] self@[i])->0.spec_opcode() == i
                && self@[i]->0.wf()
    }

    /// An empty list, ready to collect options.
    pub fn builder() -> (r: Self)
        ensures
            r.wf(),
            r@.len() == 256,
            forall|i: int| 0 <= i < 256 ==> r@[i] is None,
    {
        let mut slots: Vec<Option<DhcpOption>> = Vec::new();
        let mut n: usize = 0;
        while n < 256
            invariant
                n <= 256,
                slots@.len() == n,
                forall|i: int| 0 <= i < n ==> slots@[i] is None,
            decreases 256 - n,
        {
            slots.push(None);
            n = n + 1;
        }
        DhcpOptionList { slots }
    }

    /// Insert `option` at its opcode, replacing any previous entry there.
    pub fn add(&mut self, option: DhcpOption)
        requires
            old(self).wf(),
            option.wf(),
        ensures
            final(self).wf(),
            final(self)@ == old(self)@.update(option.spec_opcode() as int, Some(option)),
    {
        let opcode = option.opcode();
        self.slots.set(opcode as usize, Some(option));
    }

    /// The entry stored for `opcode`, if any.
    pub fn get(&self, opcode: u8) -> (r: Option<DhcpOption>)
        requires
            self.wf(),
        ensures
            r == self@[opcode as int],
    {
        self.slots[opcode as usize]
    }

    /// The full opcode-indexed slot array.
    pub fn consume(&self) -> (r: &Vec<Option<DhcpOption>>)
        ensures
            r@ == self@,
    {
        &self.slots
    }

    /// How many bytes serializing every encodable entry of this list takes.
    pub fn wire_len(&self) -> (r: usize)
        requires
            self.wf(),
        ensures
            r == options_wire_len(self@),
    {
        proof {
            lemma_stream_len_bound(self@, 0);
        }
        let mut acc: usize = 0;
        let mut i: usize = 0;
        while i < 256
            invariant
                self.wf(),
                i <= 256,
                acc + options_stream_from(self@, i as int).len() == options_wire_len(self@),
                options_wire_len(self@) <= 16896,
            decreases 256 - i,
        {
            proof {
                assert(options_stream_from(self@, i as int) == slot_enc(self@[i as int])
                    + options_stream_from(self@, i as int + 1));
            }
            match self.slots[i] {
                Some(o) => {
                    acc = acc + o.encoded_len();
                },
                None => {},
            }
            i = i + 1;
        }
        acc
    }
}

/// What one slot of an option list contributes to the serialized stream:
/// the wire form of a present, encodable option, and nothing otherwise.
pub open spec fn slot_enc(slot: Option<DhcpOption>) -> Seq<u8> {
    match slot {
        Some(o) => if o.is_encodable() {
            o.spec_encode()
        } else {
            Seq::empty()
        },
        None => Seq::empty(),
    }
}

/// The serialized option stream of slots `i..256` of an option list, in
/// ascending opcode order.
pub open spec fn options_stream_from(slots: Seq<Option<DhcpOption>>, i: int) -> Seq<u8>
    decreases 256 - i,
{
    if i < 0 || i >= 256 {
        Seq::empty()
    } else {
        slot_enc(slots[i]) + options_stream_from(slots, i + 1)
    }
}

/// The full serialized option stream of an option list.
pub open spec fn options_wire_len(slots: Seq<Option<DhcpOption>>) -> nat {
    options_stream_from(slots, 0).len()
}

/// No well-formed option's wire form is longer than a name option's:
/// two header bytes plus a 64-byte payload.
pub proof fn lemma_slot_enc_bound(slot: Option<DhcpOption>)
    requires
        slot is Some ==> slot->0.wf(),
    ensures
        slot_enc(slot).len() <= 66,
{
}

/// The whole option stream of a well-formed list is boundedly short.
pub proof fn lemma_stream_len_bound(slots: Seq<Option<DhcpOption>>, i: int)
    requires
        0 <= i <= 256,
        forall|j: int| 0 <= j < 256 && slots[j] is Some ==> (#[trigger] slots[j])->0.wf(),
    ensures
        options_stream_from(slots, i).len() <= (256 - i) * 66,
    decreases 256 - i,
{
    if 0 <= i < 256 {
        lemma_slot_enc_bound(slots[i]);
        lemma_stream_len_bound(slots, i + 1);
    }
}

/// A list whose slots from `i` on are all empty serializes to nothing.
pub proof fn lemma_stream_all_none(slots: Seq<Option<DhcpOption>>, i: int)
    requires
        forall|j: int| i <= j < 256 ==> slots[j] is None,
    ensures
        options_stream_from(slots, i) == Seq::<u8>::empty(),
    decreases 256 - i,
{
    if 0 <= i < 256 {
        lemma_stream_all_none(slots, i + 1);
        assert(options_stream_from(slots, i) =~= Seq::<u8>::empty());
    }
}

/// Replacing one slot changes the stream length by exactly the difference
/// of the two slots' contributions.
pub proof fn lemma_stream_update_len(
    slots: Seq<Option<DhcpOption>>,
    k: int,
    v: Option<DhcpOption>,
    i: int,
)
    requires
        slots.len() == 256,
        0 <= i <= k < 256,
    ensures
        options_stream_from(slots.update(k, v), i).len() + slot_enc(slots[k]).len()
            == options_stream_from(slots, i).len() + slot_enc(v).len(),
    decreases 256 - i,
{
    if i < k {
        lemma_stream_update_len(slots, k, v, i + 1);
    } else {
        lemma_stream_from_unaffected(slots, slots.update(k, v), i + 1);
    }
}

/// Two lists that agree on slots `i..256` serialize those slots alike.
pub proof fn lemma_stream_from_unaffected(
    a: Seq<Option<DhcpOption>>,
    b: Seq<Option<DhcpOption>>,
    i: int,
)
    requires
        a.len() == 256,
        b.len() == 256,
        forall|j: int| i <= j < 256 ==> a[j] == b[j],
    ensures
        options_stream_from(a, i) == options_stream_from(b, i),
    decreases 256 - i,
{
    if 0 <= i < 256 {
        lemma_stream_from_unaffected(a, b, i + 1);
    }
}

/// A list whose slots each contribute no more than another's serializes to
/// a stream no longer than the other's.
pub proof fn lemma_stream_pointwise_le(
    a: Seq<Option<DhcpOption>>,
    b: Seq<Option<DhcpOption>>,
    i: int,
)
    requires
        forall|j: int| i <= j < 256 ==> (#[trigger] slot_enc(a[j])).len() <= slot_enc(b[j]).len(),
    ensures
        options_stream_from(a, i).len() <= options_stream_from(b, i).len(),
    decreases 256 - i,
{
    if 0 <= i < 256 {
        lemma_stream_pointwise_le(a, b, i + 1);
    }
}

/// Replacement semantics of the option list: after adding two options that
/// share an opcode, the list holds the second at that opcode, and every
/// other opcode is untouched.
pub proof fn lemma_add_replaces(list: DhcpOptionList, first: DhcpOption, second: DhcpOption)
    requires
        list.wf(),
        first.spec_opcode() == second.spec_opcode(),
    ensures
        ({
            let once = list@.update(first.spec_opcode() as int, Some(first));
            let twice = once.update(second.spec_opcode() as int, Some(second));
            &&& twice[second.spec_opcode() as int] == Some(second)
            &&& forall|i: int|
                0 <= i < 256 && i != second.spec_opcode() ==> twice[i] == list@[i]
        }),
{
}

} // verus!
