//! The DHCP packet type and its wire codec.

use crate::error::Error;
use crate::state::spec_ip_octets;
use crate::state::spec_request_leases;
use crate::state::spec_request_slot;
use crate::state::spec_verify;
use crate::state::AddrPool;
use crate::types::dhcp_option::lemma_stream_all_none;
use crate::types::dhcp_option::lemma_stream_pointwise_le;
use crate::types::dhcp_option::lemma_stream_update_len;
use crate::types::dhcp_option::options_stream_from;
use crate::types::dhcp_option::options_wire_len;
use crate::types::dhcp_option::slot_enc;
use crate::types::DhcpOption;
use crate::types::DhcpOptionList;
use crate::types::MacAddr;
use crate::types::MessageType;
use vstd::prelude::*;

verus! {

broadcast use vstd::array::group_array_axioms;

/// A parsed BOOTP/DHCP datagram: the fixed header fields this server reads
/// and writes, the decoded option list, and the mandatory message type.
#[derive(Debug, Clone, PartialEq)]
pub struct Dhcp {
    /// op - operate code of the message: 1 request, 2 reply
    pub op_code: u8,
    /// htype - what type of hardware address; 1 is Ethernet
    pub hw_addr_ty: u8,
    /// hlen - hardware address length; 6 for Ethernet
    pub hw_addr_len: u8,
    /// hops - how many relay hops the message has taken
    pub hops: u8,
    /// xid - the id of one transaction between client and server
    pub transaction_id: [u8; 4],
    /// secs - seconds since the client began acquiring an address
    pub secs: [u8; 2],
    /// flags - only the broadcast bit is meaningful
    pub flags: [u8; 2],
    /// ciaddr - the address the client claims to already hold
    pub ciaddr: [u8; 4],
    /// yiaddr - the address this server grants in a reply
    pub yiaddr: [u8; 4],
    /// siaddr - the next server to ask about future boot steps
    pub siaddr: [u8; 4],
    /// giaddr - relay agent address
    pub giaddr: [u8; 4],
    /// chaddr - client hardware address; only a MAC is handled
    pub client_hw_addr: [u8; 6],
    /// sname - optional server host name, zero-padded
    pub server_hostname: [u8; 64],
    /// file - boot file name, zero-padded
    pub file: [u8; 128],
    /// options - the variable-length data after the magic
    pub options: DhcpOptionList,
    /// the mandatory message type, also kept in the option list
    pub message_type: MessageType,
}

/// The option slots of a packet reduced to payload bytes: one entry per
/// opcode, `Some` holding the option's wire payload.
pub open spec fn list_views(slots: Seq<Option<DhcpOption>>) -> Seq<Option<Seq<u8>>> {
    Seq::new(256, |i: int| match slots[i] {
        Some(o) => Some(o.payload_view()),
        None => None,
    })
}

/// No options seen yet.
pub open spec fn empty_opts() -> Seq<Option<Seq<u8>>> {
    Seq::new(256, |i: int| None)
}

/// Inserting an option into a list inserts its payload into the views.
pub proof fn lemma_list_views_update(slots: Seq<Option<DhcpOption>>, o: DhcpOption)
    requires
        slots.len() == 256,
        0 <= o.spec_opcode() < 256,
    ensures
        list_views(slots.update(o.spec_opcode() as int, Some(o))) == list_views(slots).update(
            o.spec_opcode() as int,
            Some(o.payload_view()),
        ),
{
    assert(list_views(slots.update(o.spec_opcode() as int, Some(o))) =~~= list_views(
        slots,
    ).update(o.spec_opcode() as int, Some(o.payload_view())));
}

/// What decoding the option at `ptr` contributes to the packet.
pub enum OptStep {
    /// Store this payload at this opcode
    Insert(int, Seq<u8>),
    /// Record the packet's message type (and its payload at opcode 53)
    SetType(MessageType),
    /// An opcode this server has no decoder for: skipped, never fatal
    Skip,
}

/// A variable-length payload as stored by the decoder: the given bytes,
/// zero-padded to the option's fixed capacity.
pub open spec fn spec_padded(data: Seq<u8>, at: int, len: int, cap: int) -> Seq<u8> {
    Seq::new(cap as nat, |k: int| if k < len {
        data[at + k]
    } else {
        0u8
    })
}

/// Decode one option at `ptr`: which opcodes are known, the length each
/// one allows, and when the datagram ends too soon. Everything the parser
/// accepts or rejects is decided here.
pub open spec fn spec_decode_at(data: Seq<u8>, ptr: int) -> Result<(OptStep, int), Error> {
    let op = data[ptr];
    if op == 0 {
        Ok((OptStep::Insert(0, Seq::empty()), 1))
    } else if op == 255 {
        Ok((OptStep::Insert(255, Seq::empty()), 1))
    } else if ptr + 1 >= data.len() {
        Err(Error::DhcpOptionLenOutOfBounds)
    } else {
        let len = data[ptr + 1] as int;
        if op == 53 {
            if len != 1 {
                Err(Error::MessageTypeBadLen(data[ptr + 1]))
            } else if ptr + 3 > data.len() {
                Err(Error::DhcpOptionLenOutOfBounds)
            } else {
                match MessageType::spec_try_from(data[ptr + 2]) {
                    Ok(mt) => Ok((OptStep::SetType(mt), 3)),
                    Err(e) => Err(e),
                }
            }
        } else if op == 1 || op == 3 || op == 6 || op == 28 || op == 50 || op == 51 || op == 54 {
            if len != 4 {
                Err(Error::InvalidIpAddrLen(data[ptr + 1]))
            } else if ptr + 6 > data.len() {
                Err(Error::DhcpOptionLenOutOfBounds)
            } else {
                Ok((OptStep::Insert(op as int, data.subrange(ptr + 2, ptr + 6)), 6))
            }
        } else if op == 57 {
            if len != 2 {
                Err(Error::MaxMessageSizeBadLen(data[ptr + 1]))
            } else if ptr + 4 > data.len() {
                Err(Error::DhcpOptionLenOutOfBounds)
            } else {
                Ok((OptStep::Insert(57, data.subrange(ptr + 2, ptr + 4)), 4))
            }
        } else if op == 55 {
            if len < 1 || len > 40 {
                Err(Error::InvalidParameterRequestLen(data[ptr + 1]))
            } else if ptr + 2 + len > data.len() {
                Err(Error::DhcpOptionLenOutOfBounds)
            } else {
                Ok((OptStep::Insert(55, data.subrange(ptr + 2, ptr + 2 + len)), 2 + len))
            }
        } else if op == 60 {
            if len > 32 {
                Err(Error::InvalidVendorClassIdentifierLen(data[ptr + 1]))
            } else if ptr + 2 + len > data.len() {
                Err(Error::DhcpOptionLenOutOfBounds)
            } else {
                Ok((OptStep::Insert(60, spec_padded(data, ptr + 2, len, 32)), 2 + len))
            }
        } else if op == 61 {
            if len != 7 {
                Err(Error::UnsupportedClientIdentifierLen(data[ptr + 1]))
            } else if ptr + 9 > data.len() {
                Err(Error::DhcpOptionLenOutOfBounds)
            } else if data[ptr + 2] != 1 {
                Err(Error::UnsupportedClientIdHwType(data[ptr + 2]))
            } else {
                Ok((OptStep::Insert(61, data.subrange(ptr + 2, ptr + 9)), 9))
            }
        } else if op == 93 {
            if len != 2 {
                Err(Error::InvalidClientSystemArchLen(data[ptr + 1]))
            } else if ptr + 4 > data.len() {
                Err(Error::DhcpOptionLenOutOfBounds)
            } else {
                Ok((OptStep::Insert(93, data.subrange(ptr + 2, ptr + 4)), 4))
            }
        } else if op == 94 {
            if len != 3 {
                Err(Error::InvalidClientNetworkDeviceInterfaceLen(data[ptr + 1]))
            } else if ptr + 5 > data.len() {
                Err(Error::DhcpOptionLenOutOfBounds)
            } else {
                Ok((OptStep::Insert(94, data.subrange(ptr + 2, ptr + 5)), 5))
            }
        } else if op == 97 {
            if len < 2 || len > 17 {
                Err(Error::InvalidClientUidLen(data[ptr + 1]))
            } else if ptr + 2 + len > data.len() {
                Err(Error::DhcpOptionLenOutOfBounds)
            } else {
                Ok((OptStep::Insert(97, spec_padded(data, ptr + 2, len, 17)), 2 + len))
            }
        } else {
            Ok((OptStep::Skip, 2 + len))
        }
    }
}

/// Run the option decoder from `ptr` to the end of the datagram (or to an
/// `End` option), accumulating decoded payloads and the message type.
pub open spec fn spec_parse_opts(
    data: Seq<u8>,
    ptr: int,
    opts: Seq<Option<Seq<u8>>>,
    mt: MessageType,
) -> Result<(Seq<Option<Seq<u8>>>, MessageType), Error>
    decreases data.len() - ptr,
{
    if ptr < 0 || ptr >= data.len() {
        Ok((opts, mt))
    } else {
        match spec_decode_at(data, ptr) {
            Err(e) => Err(e),
            Ok((step, consumed)) => {
                if data[ptr] == 255 {
                    Ok((opts.update(255, Some(Seq::empty())), mt))
                } else {
                    let opts1 = match step {
                        OptStep::Insert(k, pv) => opts.update(k, Some(pv)),
                        OptStep::SetType(m) => opts.update(
                            53,
                            Some(seq![m.spec_code()]),
                        ),
                        OptStep::Skip => opts,
                    };
                    let mt1 = match step {
                        OptStep::SetType(m) => m,
                        _ => mt,
                    };
                    let next = if ptr + consumed > data.len() {
                        data.len() as int
                    } else {
                        ptr + consumed
                    };
                    spec_parse_opts(data, next, opts1, mt1)
                }
            },
        }
    }
}

/// Everything parsing pins down about an accepted datagram: the header
/// fields it reads, the payload of every decoded option, and the message
/// type.
pub struct ParsedPacket {
    pub op_code: u8,
    pub hw_addr_ty: u8,
    pub hw_addr_len: u8,
    pub hops: u8,
    pub transaction_id: Seq<u8>,
    pub secs: Seq<u8>,
    pub flags: Seq<u8>,
    pub ciaddr: Seq<u8>,
    pub yiaddr: Seq<u8>,
    pub siaddr: Seq<u8>,
    pub giaddr: Seq<u8>,
    pub client_hw_addr: Seq<u8>,
    pub server_hostname: Seq<u8>,
    pub file: Seq<u8>,
    pub opts: Seq<Option<Seq<u8>>>,
    pub message_type: MessageType,
}

/// The defensive parse of a datagram, start to finish: the three header
/// gates, then the option stream, then the demand for a message type.
pub open spec fn spec_parse(data: Seq<u8>) -> Result<ParsedPacket, Error> {
    if data.len() < 240 {
        Err(Error::PayloadTooShort(data.len() as usize))
    } else if data[0] != 1 {
        Err(Error::NotADhcpRequest(data[0]))
    } else if !(data[236] == 0x63 && data[237] == 0x82 && data[238] == 0x53 && data[239]
        == 0x63) {
        Err(Error::DhcpMagicMissing)
    } else {
        match spec_parse_opts(data, 240, empty_opts(), MessageType::Unset) {
            Err(e) => Err(e),
            Ok((opts, mt)) => {
                if mt == MessageType::Unset {
                    Err(Error::NoMessageDhcpTypeProvided)
                } else {
                    Ok(
                        ParsedPacket {
                            op_code: data[0],
                            hw_addr_ty: data[1],
                            hw_addr_len: data[2],
                            hops: data[3],
                            transaction_id: data.subrange(4, 8),
                            secs: data.subrange(8, 10),
                            flags: data.subrange(10, 12),
                            ciaddr: data.subrange(12, 16),
                            yiaddr: data.subrange(16, 20),
                            siaddr: data.subrange(20, 24),
                            giaddr: data.subrange(24, 28),
                            client_hw_addr: data.subrange(28, 34),
                            server_hostname: data.subrange(44, 108),
                            file: data.subrange(108, 236),
                            opts,
                            message_type: mt,
                        },
                    )
                }
            },
        }
    }
}

/// One decoder step that stores an option payload advances the spec parse
/// by that option's consumed bytes.
proof fn lemma_step_insert(
    data: Seq<u8>,
    p: int,
    views: Seq<Option<Seq<u8>>>,
    mt: MessageType,
    o: DhcpOption,
    c: int,
)
    requires
        0 <= p < data.len(),
        data[p] != 255,
        spec_decode_at(data, p) == Ok::<_, Error>(
            (OptStep::Insert(o.spec_opcode() as int, o.payload_view()), c),
        ),
    ensures
        spec_parse_opts(data, p, views, mt) == spec_parse_opts(
            data,
            if p + c > data.len() {
                data.len() as int
            } else {
                p + c
            },
            views.update(o.spec_opcode() as int, Some(o.payload_view())),
            mt,
        ),
{
}

/// The decoder step that reads the message type records it and stores its
/// one-byte payload at opcode 53.
proof fn lemma_step_set_type(
    data: Seq<u8>,
    p: int,
    views: Seq<Option<Seq<u8>>>,
    mt: MessageType,
    m: MessageType,
)
    requires
        0 <= p < data.len(),
        data[p] != 255,
        spec_decode_at(data, p) == Ok::<_, Error>((OptStep::SetType(m), 3int)),
    ensures
        spec_parse_opts(data, p, views, mt) == spec_parse_opts(
            data,
            if p + 3 > data.len() {
                data.len() as int
            } else {
                p + 3
            },
            views.update(53, Some(seq![m.spec_code()])),
            m,
        ),
{
}

/// A decoder step over an unknown opcode skips it and changes nothing.
proof fn lemma_step_skip(
    data: Seq<u8>,
    p: int,
    views: Seq<Option<Seq<u8>>>,
    mt: MessageType,
    c: int,
)
    requires
        0 <= p < data.len(),
        data[p] != 255,
        spec_decode_at(data, p) == Ok::<_, Error>((OptStep::Skip, c)),
    ensures
        spec_parse_opts(data, p, views, mt) == spec_parse_opts(
            data,
            if p + c > data.len() {
                data.len() as int
            } else {
                p + c
            },
            views,
            mt,
        ),
{
}

/// A decoder step that fails fails the whole option parse with its error.
proof fn lemma_step_err(data: Seq<u8>, p: int, views: Seq<Option<Seq<u8>>>, mt: MessageType, e: Error)
    requires
        0 <= p < data.len(),
        spec_decode_at(data, p) == Err::<(OptStep, int), _>(e),
    ensures
        spec_parse_opts(data, p, views, mt) == Err::<(Seq<Option<Seq<u8>>>, MessageType), _>(e),
{
}

impl Dhcp {
    /// The "magic" of a DHCP payload.
    pub const MAGIC: [u8; 4] = [0x63, 0x82, 0x53, 0x63];

    pub const MINIMUM_PAYLOAD_LENGTH: usize = 240;

    pub const OPTIONS_START: usize = 240;

    pub const REQUEST_OP_CODE: u8 = 1;

    pub const REPLY_OP_CODE: u8 = 2;

    pub const HW_TYPE_ETHERNET: u8 = 1;

    pub const HW_ADDRESS_LEN: u8 = 6;

    /// A structurally sound packet: a well-formed option list whose slot 53
    /// agrees with the packet's own message type, which is set.
    pub open spec fn wf(&self) -> bool {
        &&& self.options.wf()
        &&& self.message_type != MessageType::Unset
        &&& self.options@[53] == Some(DhcpOption::MessageType(self.message_type))
    }

    /// Convert the raw bytes of a UDP datagram into a packet, defensively.
    /// Exactly the inputs [`spec_parse`] accepts are accepted, its errors
    /// are returned on the rest, and every header field and option payload
    /// of the result is pinned to the bytes it was read from.
    #[verifier::loop_isolation(false)]
    #[verifier::rlimit(60)]
    pub fn parse(data: &[u8]) -> (r: Result<Dhcp, Error>)
        ensures
            match r {
                Ok(p) => spec_parse(data@) == Ok::<_, Error>(p.parsed_view()) && p.wf(),
                Err(e) => spec_parse(data@) == Err::<ParsedPacket, _>(e),
            },
    {
        let data_len = data.len();

        if data_len < Self::MINIMUM_PAYLOAD_LENGTH {
            return Err(Error::PayloadTooShort(data_len));
        }

        let dhcp_op_code = data[0];
        if dhcp_op_code != Self::REQUEST_OP_CODE {
            return Err(Error::NotADhcpRequest(dhcp_op_code));
        }

        if !(data[236] == 0x63 && data[237] == 0x82 && data[238] == 0x53 && data[239] == 0x63) {
            return Err(Error::DhcpMagicMissing);
        }

        let mut message_type = MessageType::Unset;
        let mut option_ptr: usize = Self::OPTIONS_START;
        let mut options = DhcpOptionList::builder();
        proof {
            assert(list_views(options@) =~~= empty_opts());
        }
        #[verifier::loop_isolation(true)]
        loop
            invariant_except_break
                data_len == data@.len(),
                240 <= data@.len(),
                data@[0] == 1,
                data@[236] == 0x63 && data@[237] == 0x82 && data@[238] == 0x53 && data@[239]
                    == 0x63,
                240 <= option_ptr <= data_len,
                options.wf(),
                message_type != MessageType::Unset ==> options@[53] == Some(
                    DhcpOption::MessageType(message_type),
                ),
                spec_parse_opts(data@, 240, empty_opts(), MessageType::Unset) == spec_parse_opts(
                    data@,
                    option_ptr as int,
                    list_views(options@),
                    message_type,
                ),
            ensures
                options.wf(),
                message_type != MessageType::Unset ==> options@[53] == Some(
                    DhcpOption::MessageType(message_type),
                ),
                spec_parse_opts(data@, 240, empty_opts(), MessageType::Unset) == Ok::<_, Error>(
                    (list_views(options@), message_type),
                ),
            decreases data_len - option_ptr,
        {
            // The options pointer reached the end of the datagram: done
            if option_ptr >= data_len {
                break;
            }
            let ghost p = option_ptr as int;
            let ghost prev_views = list_views(options@);
            let ghost prev_mt = message_type;
            let ghost prev_slots = options@;

            let option_opcode: u8 = data[option_ptr];

            match option_opcode {
                0u8 => {
                    options.add(DhcpOption::Pad);
                    proof {
                        assert(DhcpOption::Pad.payload_view() =~= Seq::<u8>::empty());
                        lemma_step_insert(data@, p, prev_views, prev_mt, DhcpOption::Pad, 1);
                        lemma_list_views_update(prev_slots, DhcpOption::Pad);
                    }
                    option_ptr = option_ptr + 1;
                },
                255u8 => {
                    options.add(DhcpOption::End);
                    proof {
                        assert(DhcpOption::End.payload_view() =~= Seq::<u8>::empty());
                        lemma_list_views_update(prev_slots, DhcpOption::End);
                    }
                    break;
                },
                53u8 => {
                    if data_len - option_ptr < 2 {
                        proof {
                            lemma_step_err(
                                data@,
                                p,
                                prev_views,
                                prev_mt,
                                Error::DhcpOptionLenOutOfBounds,
                            );
                        }
                        return Err(Error::DhcpOptionLenOutOfBounds);
                    }
                    let option_len = data[option_ptr + 1];
                    if option_len != DhcpOption::MESSAGE_TYPE_LEN {
                        proof {
                            lemma_step_err(
                                data@,
                                p,
                                prev_views,
                                prev_mt,
                                Error::MessageTypeBadLen(option_len),
                            );
                        }
                        return Err(Error::MessageTypeBadLen(option_len));
                    }
                    if data_len - option_ptr < 3 {
                        proof {
                            lemma_step_err(
                                data@,
                                p,
                                prev_views,
                                prev_mt,
                                Error::DhcpOptionLenOutOfBounds,
                            );
                        }
                        return Err(Error::DhcpOptionLenOutOfBounds);
                    }
                    match MessageType::try_from(data[option_ptr + 2]) {
                        Ok(mt) => {
                            message_type = mt;
                            options.add(DhcpOption::MessageType(mt));
                            proof {
                                lemma_step_set_type(data@, p, prev_views, prev_mt, mt);
                                lemma_list_views_update(prev_slots, DhcpOption::MessageType(mt));
                                assert(DhcpOption::MessageType(mt).payload_view() =~= seq![
                                    mt.spec_code(),
                                ]);
                            }
                            option_ptr = option_ptr + 3;
                        },
                        Err(e) => {
                            proof {
                                lemma_step_err(data@, p, prev_views, prev_mt, e);
                            }
                            return Err(e);
                        },
                    }
                },
                1u8 | 3u8 | 6u8 | 28u8 | 50u8 | 54u8 => {
                    if data_len - option_ptr < 2 {
                        proof {
                            lemma_step_err(
                                data@,
                                p,
                                prev_views,
                                prev_mt,
                                Error::DhcpOptionLenOutOfBounds,
                            );
                        }
                        return Err(Error::DhcpOptionLenOutOfBounds);
                    }
                    let option_len = data[option_ptr + 1];
                    if option_len != DhcpOption::IP_ADDR_LEN {
                        proof {
                            lemma_step_err(
                                data@,
                                p,
                                prev_views,
                                prev_mt,
                                Error::InvalidIpAddrLen(option_len),
                            );
                        }
                        return Err(Error::InvalidIpAddrLen(option_len));
                    }
                    if data_len - option_ptr < 6 {
                        proof {
                            lemma_step_err(
                                data@,
                                p,
                                prev_views,
                                prev_mt,
                                Error::DhcpOptionLenOutOfBounds,
                            );
                        }
                        return Err(Error::DhcpOptionLenOutOfBounds);
                    }
                    let addr: [u8; 4] = read_bytes::<4>(data, option_ptr + 2);
                    let option = match option_opcode {
                        1 => DhcpOption::SubnetMask(addr),
                        3 => DhcpOption::Router(addr),
                        6 => DhcpOption::DomainNameServer(addr),
                        28 => DhcpOption::BroadcastAddress(addr),
                        50 => DhcpOption::RequestedIpAddr(addr),
                        _ => DhcpOption::DhcpServerIpAddr(addr),
                    };
                    options.add(option);
                    proof {
                        lemma_step_insert(data@, p, prev_views, prev_mt, option, 6);
                        lemma_list_views_update(prev_slots, option);
                    }
                    option_ptr = option_ptr + 6;
                },
                51u8 => {
                    if data_len - option_ptr < 2 {
                        proof {
                            lemma_step_err(
                                data@,
                                p,
                                prev_views,
                                prev_mt,
                                Error::DhcpOptionLenOutOfBounds,
                            );
                        }
                        return Err(Error::DhcpOptionLenOutOfBounds);
                    }
                    let option_len = data[option_ptr + 1];
                    if option_len != DhcpOption::IP_ADDR_LEN {
                        proof {
                            lemma_step_err(
                                data@,
                                p,
                                prev_views,
                                prev_mt,
                                Error::InvalidIpAddrLen(option_len),
                            );
                        }
                        return Err(Error::InvalidIpAddrLen(option_len));
                    }
                    if data_len - option_ptr < 6 {
                        proof {
                            lemma_step_err(
                                data@,
                                p,
                                prev_views,
                                prev_mt,
                                Error::DhcpOptionLenOutOfBounds,
                            );
                        }
                        return Err(Error::DhcpOptionLenOutOfBounds);
                    }
                    let b0 = data[option_ptr + 2];
                    let b1 = data[option_ptr + 3];
                    let b2 = data[option_ptr + 4];
                    let b3 = data[option_ptr + 5];
                    let time = ((b0 as u32) << 24) | ((b1 as u32) << 16) | ((b2 as u32) << 8) | (
                    b3 as u32);
                    let option = DhcpOption::LeaseTime(time);
                    options.add(option);
                    proof {
                        assert((time >> 24) as u8 == b0 && (time >> 16) as u8 == b1 && (time
                            >> 8) as u8 == b2 && time as u8 == b3) by (bit_vector)
                            requires
                                time == ((b0 as u32) << 24) | ((b1 as u32) << 16) | ((b2 as u32)
                                    << 8) | (b3 as u32),
                        ;
                        assert(option.payload_view() =~= data@.subrange(p + 2, p + 6));
                        lemma_step_insert(data@, p, prev_views, prev_mt, option, 6);
                        lemma_list_views_update(prev_slots, option);
                    }
                    option_ptr = option_ptr + 6;
                },
                57u8 => {
                    if data_len - option_ptr < 2 {
                        proof {
                            lemma_step_err(
                                data@,
                                p,
                                prev_views,
                                prev_mt,
                                Error::DhcpOptionLenOutOfBounds,
                            );
                        }
                        return Err(Error::DhcpOptionLenOutOfBounds);
                    }
                    let option_len = data[option_ptr + 1];
                    if option_len != DhcpOption::MAX_MESSAGE_SIZE_LEN {
                        proof {
                            lemma_step_err(
                                data@,
                                p,
                                prev_views,
                                prev_mt,
                                Error::MaxMessageSizeBadLen(option_len),
                            );
                        }
                        return Err(Error::MaxMessageSizeBadLen(option_len));
                    }
                    if data_len - option_ptr < 4 {
                        proof {
                            lemma_step_err(
                                data@,
                                p,
                                prev_views,
                                prev_mt,
                                Error::DhcpOptionLenOutOfBounds,
                            );
                        }
                        return Err(Error::DhcpOptionLenOutOfBounds);
                    }
                    let b0 = data[option_ptr + 2];
                    let b1 = data[option_ptr + 3];
                    let max_msg_size = ((b0 as u16) << 8) | (b1 as u16);
                    let option = DhcpOption::MaxMessageSize(max_msg_size);
                    options.add(option);
                    proof {
                        assert((max_msg_size >> 8) as u8 == b0 && max_msg_size as u8 == b1)
                            by (bit_vector)
                            requires
                                max_msg_size == ((b0 as u16) << 8) | (b1 as u16),
                        ;
                        assert(option.payload_view() =~= data@.subrange(p + 2, p + 4));
                        lemma_step_insert(data@, p, prev_views, prev_mt, option, 4);
                        lemma_list_views_update(prev_slots, option);
                    }
                    option_ptr = option_ptr + 4;
                },
                55u8 => {
                    if data_len - option_ptr < 2 {
                        proof {
                            lemma_step_err(
                                data@,
                                p,
                                prev_views,
                                prev_mt,
                                Error::DhcpOptionLenOutOfBounds,
                            );
                        }
                        return Err(Error::DhcpOptionLenOutOfBounds);
                    }
                    let option_len = data[option_ptr + 1];
                    if option_len < DhcpOption::MIN_PARAMETER_REQUEST_LEN || option_len
                        > DhcpOption::MAX_PARAMETER_REQUEST_LIST_LEN {
                        proof {
                            lemma_step_err(
                                data@,
                                p,
                                prev_views,
                                prev_mt,
                                Error::InvalidParameterRequestLen(option_len),
                            );
                        }
                        return Err(Error::InvalidParameterRequestLen(option_len));
                    }
                    if (option_len as usize) > data_len - option_ptr - 2 {
                        proof {
                            lemma_step_err(
                                data@,
                                p,
                                prev_views,
                                prev_mt,
                                Error::DhcpOptionLenOutOfBounds,
                            );
                        }
                        return Err(Error::DhcpOptionLenOutOfBounds);
                    }
                    let mut req_params = [0u8; 40];
                    let mut k: usize = 0;
                    while k < option_len as usize
                        invariant
                            k <= option_len as usize,
                            forall|m: int| 0 <= m < k ==> req_params@[m] == data@[p + 2 + m],
                        decreases option_len as usize - k,
                    {
                        req_params[k] = data[option_ptr + 2 + k];
                        k = k + 1;
                    }
                    let option = DhcpOption::ParameterRequestList(req_params, option_len);
                    options.add(option);
                    proof {
                        assert(option.payload_view() =~= data@.subrange(
                            p + 2,
                            p + 2 + option_len,
                        ));
                        lemma_step_insert(
                            data@,
                            p,
                            prev_views,
                            prev_mt,
                            option,
                            2 + option_len as int,
                        );
                        lemma_list_views_update(prev_slots, option);
                    }
                    option_ptr = option_ptr + 2 + option_len as usize;
                },
                60u8 => {
                    if data_len - option_ptr < 2 {
                        proof {
                            lemma_step_err(
                                data@,
                                p,
                                prev_views,
                                prev_mt,
                                Error::DhcpOptionLenOutOfBounds,
                            );
                        }
                        return Err(Error::DhcpOptionLenOutOfBounds);
                    }
                    let option_len = data[option_ptr + 1];
                    if option_len > DhcpOption::MAX_VENDOR_CLASS_ID_LEN {
                        proof {
                            lemma_step_err(
                                data@,
                                p,
                                prev_views,
                                prev_mt,
                                Error::InvalidVendorClassIdentifierLen(option_len),
                            );
                        }
                        return Err(Error::InvalidVendorClassIdentifierLen(option_len));
                    }
                    if (option_len as usize) > data_len - option_ptr - 2 {
                        proof {
                            lemma_step_err(
                                data@,
                                p,
                                prev_views,
                                prev_mt,
                                Error::DhcpOptionLenOutOfBounds,
                            );
                        }
                        return Err(Error::DhcpOptionLenOutOfBounds);
                    }
                    let mut vendor = [0u8; 32];
                    let mut k: usize = 0;
                    while k < option_len as usize
                        invariant
                            k <= option_len as usize,
                            forall|m: int| 0 <= m < k ==> vendor@[m] == data@[p + 2 + m],
                            forall|m: int| k <= m < 32 ==> vendor@[m] == 0,
                        decreases option_len as usize - k,
                    {
                        vendor[k] = data[option_ptr + 2 + k];
                        k = k + 1;
                    }
                    let option = DhcpOption::VendorClassIndentifier(vendor);
                    options.add(option);
                    proof {
                        assert(option.payload_view() =~= spec_padded(
                            data@,
                            p + 2,
                            option_len as int,
                            32,
                        ));
                        lemma_step_insert(
                            data@,
                            p,
                            prev_views,
                            prev_mt,
                            option,
                            2 + option_len as int,
                        );
                        lemma_list_views_update(prev_slots, option);
                    }
                    option_ptr = option_ptr + 2 + option_len as usize;
                },
                61u8 => {
                    if data_len - option_ptr < 2 {
                        proof {
                            lemma_step_err(
                                data@,
                                p,
                                prev_views,
                                prev_mt,
                                Error::DhcpOptionLenOutOfBounds,
                            );
                        }
                        return Err(Error::DhcpOptionLenOutOfBounds);
                    }
                    let option_len = data[option_ptr + 1];
                    if option_len != crate::types::ClientIdentifier::LEN {
                        proof {
                            lemma_step_err(
                                data@,
                                p,
                                prev_views,
                                prev_mt,
                                Error::UnsupportedClientIdentifierLen(option_len),
                            );
                        }
                        return Err(Error::UnsupportedClientIdentifierLen(option_len));
                    }
                    if data_len - option_ptr < 9 {
                        proof {
                            lemma_step_err(
                                data@,
                                p,
                                prev_views,
                                prev_mt,
                                Error::DhcpOptionLenOutOfBounds,
                            );
                        }
                        return Err(Error::DhcpOptionLenOutOfBounds);
                    }
                    let raw: [u8; 7] = read_bytes::<7>(data, option_ptr + 2);
                    match crate::types::ClientIdentifier::try_from(vstd::array::array_as_slice(
                        &raw,
                    )) {
                        Ok(client_id) => {
                            let option = DhcpOption::ClientIdentifier(client_id);
                            options.add(option);
                            proof {
                                assert(option.payload_view() =~= data@.subrange(p + 2, p + 9));
                                lemma_step_insert(data@, p, prev_views, prev_mt, option, 9);
                                lemma_list_views_update(prev_slots, option);
                            }
                            option_ptr = option_ptr + 9;
                        },
                        Err(err) => {
                            proof {
                                lemma_step_err(data@, p, prev_views, prev_mt, err);
                            }
                            return Err(err);
                        },
                    }
                },
                93u8 => {
                    if data_len - option_ptr < 2 {
                        proof {
                            lemma_step_err(
                                data@,
                                p,
                                prev_views,
                                prev_mt,
                                Error::DhcpOptionLenOutOfBounds,
                            );
                        }
                        return Err(Error::DhcpOptionLenOutOfBounds);
                    }
                    let option_len = data[option_ptr + 1];
                    if option_len != DhcpOption::CLIENT_SYSTEM_ARCH_LEN {
                        proof {
                            lemma_step_err(
                                data@,
                                p,
                                prev_views,
                                prev_mt,
                                Error::InvalidClientSystemArchLen(option_len),
                            );
                        }
                        return Err(Error::InvalidClientSystemArchLen(option_len));
                    }
                    if data_len - option_ptr < 4 {
                        proof {
                            lemma_step_err(
                                data@,
                                p,
                                prev_views,
                                prev_mt,
                                Error::DhcpOptionLenOutOfBounds,
                            );
                        }
                        return Err(Error::DhcpOptionLenOutOfBounds);
                    }
                    let option = DhcpOption::ClientSystemArch(read_bytes::<2>(data, option_ptr + 2));
                    options.add(option);
                    proof {
                        lemma_step_insert(data@, p, prev_views, prev_mt, option, 4);
                        lemma_list_views_update(prev_slots, option);
                    }
                    option_ptr = option_ptr + 4;
                },
                94u8 => {
                    if data_len - option_ptr < 2 {
                        proof {
                            lemma_step_err(
                                data@,
                                p,
                                prev_views,
                                prev_mt,
                                Error::DhcpOptionLenOutOfBounds,
                            );
                        }
                        return Err(Error::DhcpOptionLenOutOfBounds);
                    }
                    let option_len = data[option_ptr + 1];
                    if option_len != DhcpOption::CLIENT_NET_DEV_INTERFACE_LEN {
                        proof {
                            lemma_step_err(
                                data@,
                                p,
                                prev_views,
                                prev_mt,
                                Error::InvalidClientNetworkDeviceInterfaceLen(option_len),
                            );
                        }
                        return Err(Error::InvalidClientNetworkDeviceInterfaceLen(option_len));
                    }
                    if data_len - option_ptr < 5 {
                        proof {
                            lemma_step_err(
                                data@,
                                p,
                                prev_views,
                                prev_mt,
                                Error::DhcpOptionLenOutOfBounds,
                            );
                        }
                        return Err(Error::DhcpOptionLenOutOfBounds);
                    }
                    let option = DhcpOption::ClientNetworkDeviceInterface(
                        read_bytes::<3>(data, option_ptr + 2),
                    );
                    options.add(option);
                    proof {
                        lemma_step_insert(data@, p, prev_views, prev_mt, option, 5);
                        lemma_list_views_update(prev_slots, option);
                    }
                    option_ptr = option_ptr + 5;
                },
                97u8 => {
                    if data_len - option_ptr < 2 {
                        proof {
                            lemma_step_err(
                                data@,
                                p,
                                prev_views,
                                prev_mt,
                                Error::DhcpOptionLenOutOfBounds,
                            );
                        }
                        return Err(Error::DhcpOptionLenOutOfBounds);
                    }
                    let option_len = data[option_ptr + 1];
                    if option_len < DhcpOption::MIN_CLIENT_UID_LEN || option_len
                        > DhcpOption::MAX_CLIENT_UID_LEN {
                        proof {
                            lemma_step_err(
                                data@,
                                p,
                                prev_views,
                                prev_mt,
                                Error::InvalidClientUidLen(option_len),
                            );
                        }
                        return Err(Error::InvalidClientUidLen(option_len));
                    }
                    if (option_len as usize) > data_len - option_ptr - 2 {
                        proof {
                            lemma_step_err(
                                data@,
                                p,
                                prev_views,
                                prev_mt,
                                Error::DhcpOptionLenOutOfBounds,
                            );
                        }
                        return Err(Error::DhcpOptionLenOutOfBounds);
                    }
                    let mut uid = [0u8; 17];
                    let mut k: usize = 0;
                    while k < option_len as usize
                        invariant
                            k <= option_len as usize,
                            forall|m: int| 0 <= m < k ==> uid@[m] == data@[p + 2 + m],
                            forall|m: int| k <= m < 17 ==> uid@[m] == 0,
                        decreases option_len as usize - k,
                    {
                        uid[k] = data[option_ptr + 2 + k];
                        k = k + 1;
                    }
                    let option = DhcpOption::ClientUid(uid);
                    options.add(option);
                    proof {
                        assert(option.payload_view() =~= spec_padded(
                            data@,
                            p + 2,
                            option_len as int,
                            17,
                        ));
                        lemma_step_insert(
                            data@,
                            p,
                            prev_views,
                            prev_mt,
                            option,
                            2 + option_len as int,
                        );
                        lemma_list_views_update(prev_slots, option);
                    }
                    option_ptr = option_ptr + 2 + option_len as usize;
                },
                // Opcodes we have no decoder for: skip their payload
                _ => {
                    if data_len - option_ptr < 2 {
                        proof {
                            lemma_step_err(
                                data@,
                                p,
                                prev_views,
                                prev_mt,
                                Error::DhcpOptionLenOutOfBounds,
                            );
                        }
                        return Err(Error::DhcpOptionLenOutOfBounds);
                    }
                    let option_len = data[option_ptr + 1];
                    proof {
                        lemma_step_skip(data@, p, prev_views, prev_mt, 2 + option_len as int);
                    }
                    if (option_len as usize) > data_len - option_ptr - 2 {
                        option_ptr = data_len;
                    } else {
                        option_ptr = option_ptr + 2 + option_len as usize;
                    }
                },
            };
        }

        if message_type == MessageType::Unset {
            return Err(Error::NoMessageDhcpTypeProvided);
        }

        let packet = Dhcp {
            op_code: data[0],
            hw_addr_ty: data[1],
            hw_addr_len: data[2],
            hops: data[3],
            transaction_id: read_bytes::<4>(data, 4),
            secs: read_bytes::<2>(data, 8),
            flags: read_bytes::<2>(data, 10),
            ciaddr: read_bytes::<4>(data, 12),
            yiaddr: read_bytes::<4>(data, 16),
            siaddr: read_bytes::<4>(data, 20),
            giaddr: read_bytes::<4>(data, 24),
            client_hw_addr: read_bytes::<6>(data, 28),
            server_hostname: read_bytes::<64>(data, 44),
            file: read_bytes::<128>(data, 108),
            options,
            message_type,
        };
        proof {
            assert(spec_parse(data@) == Ok::<_, Error>(packet.parsed_view()));
        }
        Ok(packet)
    }

    /// Write this packet's options into `buffer` from offset 240 on, in
    /// ascending opcode order, skipping entries the serializer has no wire
    /// form for, and return the total datagram length.
    pub fn set_options(&self, buffer: &mut Vec<u8>) -> (n: usize)
        requires
            self.options.wf(),
            old(buffer).len() == 512,
            options_wire_len(self.options@) <= 272,
        ensures
            final(buffer)@.len() == 512,
            n == 240 + options_wire_len(self.options@),
            final(buffer)@.subrange(240, n as int) == options_stream_from(self.options@, 0),
            forall|j: int|
                0 <= j < 512 && !(240 <= j < n) ==> final(buffer)@[j] == old(buffer)@[j],
    {
        let ghost slots = self.options@;
        let ghost total = options_stream_from(slots, 0);
        let mut option_ptr: usize = 240;
        let mut i: usize = 0;
        while i < 256
            invariant
                self.options.wf(),
                slots == self.options@,
                total == options_stream_from(slots, 0),
                total.len() <= 272,
                buffer.len() == 512,
                i <= 256,
                240 <= option_ptr <= 512,
                option_ptr - 240 + options_stream_from(slots, i as int).len() == total.len(),
                buffer@.subrange(240, option_ptr as int) + options_stream_from(slots, i as int)
                    == total,
                forall|j: int|
                    0 <= j < 512 && !(240 <= j < option_ptr) ==> buffer@[j] == old(buffer)@[j],
            decreases 256 - i,
        {
            proof {
                assert(options_stream_from(slots, i as int) == slot_enc(slots[i as int])
                    + options_stream_from(slots, i as int + 1));
            }
            match self.options.get(i as u8) {
                Some(opt) => {
                    let ghost prev_buf = buffer@;
                    let ghost prev_ptr = option_ptr as int;
                    let written = opt.serialise(buffer, option_ptr);
                    match written {
                        Some(len) => {
                            option_ptr = option_ptr + len;
                            proof {
                                assert(buffer@.subrange(240, option_ptr as int) =~= prev_buf
                                    .subrange(240, prev_ptr) + opt.spec_encode());
                                assert(buffer@.subrange(240, option_ptr as int)
                                    + options_stream_from(slots, i as int + 1) =~= total);
                            }
                        },
                        None => {},
                    }
                },
                None => {},
            }
            i = i + 1;
        }
        proof {
            assert(buffer@.subrange(240, option_ptr as int) =~= total);
        }
        option_ptr
    }

    /// Serialize this packet into a zeroed 512-byte buffer: fixed header
    /// fields at their BOOTP offsets, the magic, then the option stream.
    /// Returns the datagram length; everything past it stays zero.
    pub fn serialiase(&self, buffer: &mut Vec<u8>) -> (n: usize)
        requires
            self.options.wf(),
            old(buffer).len() == 512,
            forall|j: int| 0 <= j < 512 ==> old(buffer)@[j] == 0,
            options_wire_len(self.options@) <= 272,
        ensures
            final(buffer)@.len() == 512,
            240 <= n <= 512,
            n == 240 + options_wire_len(self.options@),
            final(buffer)@.subrange(0, n as int) == spec_serialize(*self),
            forall|j: int| n <= j < 512 ==> final(buffer)@[j] == 0,
    {
        buffer.set(0, self.op_code);
        buffer.set(1, self.hw_addr_ty);
        buffer.set(2, self.hw_addr_len);
        buffer.set(3, self.hops);
        buffer.set(4, self.transaction_id[0]);
        buffer.set(5, self.transaction_id[1]);
        buffer.set(6, self.transaction_id[2]);
        buffer.set(7, self.transaction_id[3]);
        buffer.set(10, self.flags[0]);
        buffer.set(11, self.flags[1]);
        buffer.set(12, self.ciaddr[0]);
        buffer.set(13, self.ciaddr[1]);
        buffer.set(14, self.ciaddr[2]);
        buffer.set(15, self.ciaddr[3]);
        buffer.set(16, self.yiaddr[0]);
        buffer.set(17, self.yiaddr[1]);
        buffer.set(18, self.yiaddr[2]);
        buffer.set(19, self.yiaddr[3]);
        buffer.set(20, self.siaddr[0]);
        buffer.set(21, self.siaddr[1]);
        buffer.set(22, self.siaddr[2]);
        buffer.set(23, self.siaddr[3]);
        buffer.set(28, self.client_hw_addr[0]);
        buffer.set(29, self.client_hw_addr[1]);
        buffer.set(30, self.client_hw_addr[2]);
        buffer.set(31, self.client_hw_addr[3]);
        buffer.set(32, self.client_hw_addr[4]);
        buffer.set(33, self.client_hw_addr[5]);
        buffer.set(236, 0x63);
        buffer.set(237, 0x82);
        buffer.set(238, 0x53);
        buffer.set(239, 0x63);
        proof {
            assert(buffer@.subrange(0, 240) =~= Seq::new(
                240,
                |i: int| spec_header_byte(*self, i),
            ));
        }
        let ghost header_done = buffer@;
        let n = self.set_options(buffer);
        proof {
            assert(buffer@.subrange(0, 240) =~= header_done.subrange(0, 240));
            assert(buffer@.subrange(0, n as int) =~= buffer@.subrange(0, 240) + buffer@.subrange(
                240,
                n as int,
            ));
        }
        n
    }

    /// A reply skeleton for this request: a BOOTREPLY echoing the
    /// transaction id and hardware address, with no options and no granted
    /// addresses yet.
    pub fn build_response(&self) -> (r: Dhcp)
        ensures
            spec_is_reply_template(*self, r),
            r.yiaddr@ == seq![0u8, 0u8, 0u8, 0u8],
            r.siaddr@ == seq![0u8, 0u8, 0u8, 0u8],
            r.options.wf(),
            r.options@ == empty_slots(),
            r.message_type == MessageType::Unset,
    {
        let r = Dhcp {
            op_code: Self::REPLY_OP_CODE,
            hw_addr_ty: Self::HW_TYPE_ETHERNET,
            hw_addr_len: Self::HW_ADDRESS_LEN,
            hops: 0,
            transaction_id: self.transaction_id,
            secs: [0, 0],
            flags: [0, 0],
            ciaddr: [0, 0, 0, 0],
            yiaddr: [0, 0, 0, 0],
            siaddr: [0, 0, 0, 0],
            giaddr: [0, 0, 0, 0],
            client_hw_addr: self.client_hw_addr,
            server_hostname: [0u8; 64],
            file: [0u8; 128],
            options: DhcpOptionList::builder(),
            message_type: MessageType::Unset,
        };
        proof {
            assert(r.secs@ =~= seq![0u8, 0u8]);
            assert(r.flags@ =~= seq![0u8, 0u8]);
            assert(r.ciaddr@ =~= seq![0u8, 0u8, 0u8, 0u8]);
            assert(r.yiaddr@ =~= seq![0u8, 0u8, 0u8, 0u8]);
            assert(r.siaddr@ =~= seq![0u8, 0u8, 0u8, 0u8]);
            assert(r.giaddr@ =~= seq![0u8, 0u8, 0u8, 0u8]);
            assert(r.server_hostname@ =~= Seq::new(64, |i: int| 0u8));
            assert(r.file@ =~= Seq::new(128, |i: int| 0u8));
            assert(r.options@ =~= empty_slots());
        }
        r
    }

    /// Satisfy the client's parameter request list from the pool's default
    /// options: every requested opcode the pool has an entry for is copied
    /// into the reply, the rest are skipped.
    fn insert_requested_options(&self, pool: &AddrPool, res: &mut Dhcp)
        requires
            self.options.wf(),
            pool.wf(),
            old(res).options.wf(),
        ensures
            same_identity(*final(res), *old(res)),
            final(res).yiaddr == old(res).yiaddr,
            final(res).siaddr == old(res).siaddr,
            final(res).message_type == old(res).message_type,
            final(res).options.wf(),
            final(res).options@ == spec_merge_requested(
                *self,
                pool.spec_options()@,
                old(res).options@,
            ),
    {
        let ghost pool_opts = pool.spec_options()@;
        let ghost base = old(res).options@;
        match self.options.get(DhcpOption::PARAMETER_REQUEST_LIST) {
            Some(DhcpOption::ParameterRequestList(params, len)) => {
                let mut k: usize = 0;
                while k < len as usize
                    invariant
                        self.options.wf(),
                        pool.wf(),
                        res.options.wf(),
                        same_identity(*res, *old(res)),
                        res.yiaddr == old(res).yiaddr,
                        res.siaddr == old(res).siaddr,
                        res.message_type == old(res).message_type,
                        pool_opts == pool.spec_options()@,
                        base == old(res).options@,
                        k <= len as usize,
                        self.options@[55] == Some(DhcpOption::ParameterRequestList(params, len)),
                        res.options@ == Seq::new(
                            256,
                            |j: int|
                                if (exists|m: int| 0 <= m < k && params@[m] == j)
                                    && pool_opts[j] is Some {
                                    pool_opts[j]
                                } else {
                                    base[j]
                                },
                        ),
                    decreases len as usize - k,
                {
                    let code = params[k];
                    let ghost prev = res.options@;
                    match pool.options().get(code) {
                        Some(opt) => {
                            res.options.add(opt);
                        },
                        None => {},
                    }
                    proof {
                        assert(res.options@ =~= Seq::new(
                            256,
                            |j: int|
                                if (exists|m: int| 0 <= m < k + 1 && params@[m] == j)
                                    && pool_opts[j] is Some {
                                    pool_opts[j]
                                } else {
                                    base[j]
                                },
                        ));
                    }
                    k = k + 1;
                }
                proof {
                    assert(res.options@ =~= spec_merge_requested(*self, pool_opts, base));
                }
            },
            _ => {
                proof {
                    assert(res.options@ =~= spec_merge_requested(*self, pool_opts, base));
                }
            },
        }
    }

    /// Attach the pool's default lease time to the reply, when one is
    /// registered.
    fn insert_lease(&self, pool: &AddrPool, res: &mut Dhcp)
        requires
            pool.wf(),
            old(res).options.wf(),
        ensures
            same_identity(*final(res), *old(res)),
            final(res).yiaddr == old(res).yiaddr,
            final(res).siaddr == old(res).siaddr,
            final(res).message_type == old(res).message_type,
            final(res).options.wf(),
            final(res).options@ == (if pool.spec_options()@[51] matches Some(
                DhcpOption::LeaseTime(_),
            ) {
                old(res).options@.update(51, pool.spec_options()@[51])
            } else {
                old(res).options@
            }),
    {
        match pool.options().get(DhcpOption::LEASE_TIME) {
            Some(DhcpOption::LeaseTime(lease)) => {
                res.options.add(DhcpOption::LeaseTime(lease));
            },
            _ => {},
        }
    }

    /// Attach the pool's server identifier to the reply, when one is
    /// registered, and carry it as the next-server address too.
    fn insert_server_addr(&self, pool: &AddrPool, res: &mut Dhcp)
        requires
            pool.wf(),
            old(res).options.wf(),
        ensures
            same_identity(*final(res), *old(res)),
            final(res).yiaddr == old(res).yiaddr,
            final(res).message_type == old(res).message_type,
            final(res).options.wf(),
            match pool.spec_options()@[54] {
                Some(DhcpOption::DhcpServerIpAddr(addr)) => final(res).siaddr == addr
                    && final(res).options@ == old(res).options@.update(
                    54,
                    Some(DhcpOption::DhcpServerIpAddr(addr)),
                ),
                _ => final(res).siaddr == old(res).siaddr
                    && final(res).options@ == old(res).options@,
            },
    {
        match pool.options().get(DhcpOption::DHCP_SERVER_IP_ADDR) {
            Some(DhcpOption::DhcpServerIpAddr(addr)) => {
                res.siaddr = addr;
                res.options.add(DhcpOption::DhcpServerIpAddr(addr));
            },
            _ => {},
        }
    }

    /// Turn the reply into a Nack: no address granted, just the message
    /// type and the end marker.
    pub fn nack(&self, res: &mut Dhcp)
        requires
            old(res).options.wf(),
        ensures
            same_identity(*final(res), *old(res)),
            final(res).yiaddr == old(res).yiaddr,
            final(res).siaddr == old(res).siaddr,
            final(res).options.wf(),
            final(res).message_type == MessageType::Nack,
            final(res).options@ == old(res).options@.update(
                53,
                Some(DhcpOption::MessageType(MessageType::Nack)),
            ).update(255, Some(DhcpOption::End)),
    {
        res.options.add(DhcpOption::MessageType(MessageType::Nack));
        res.options.add(DhcpOption::End);
        res.message_type = MessageType::Nack;
    }

    /// Turn the reply into an Ack: satisfy the parameter request list,
    /// attach the server identifier, then the message type and the end
    /// marker. The granted address was set by the caller.
    fn ack(&self, res: &mut Dhcp, pool: &AddrPool)
        requires
            self.options.wf(),
            pool.wf(),
            old(res).options.wf(),
        ensures
            same_identity(*final(res), *old(res)),
            final(res).yiaddr == old(res).yiaddr,
            final(res).options.wf(),
            final(res).message_type == MessageType::Ack,
            match pool.spec_options()@[54] {
                Some(DhcpOption::DhcpServerIpAddr(addr)) => final(res).siaddr == addr,
                _ => final(res).siaddr == old(res).siaddr,
            },
            final(res).options@ == spec_reply_opts_from(
                *self,
                pool.spec_options()@,
                old(res).options@,
                false,
                MessageType::Ack,
            ),
    {
        self.insert_requested_options(pool, res);
        self.insert_server_addr(pool, res);
        res.options.add(DhcpOption::MessageType(MessageType::Ack));
        res.options.add(DhcpOption::End);
        res.message_type = MessageType::Ack;
    }

    /// Handler for a DHCP Discover: grant an address from the pool and
    /// build the Offer carrying it.
    fn offer(&self, pool: &mut AddrPool, now: u64) -> (r: Dhcp)
        requires
            self.options.wf(),
            old(pool).wf(),
            now + u32::MAX <= u64::MAX,
        ensures
            final(pool).wf(),
            final(pool).spec_start() == old(pool).spec_start(),
            final(pool).spec_subnet() == old(pool).spec_subnet(),
            final(pool).spec_mask() == old(pool).spec_mask(),
            final(pool).spec_options() == old(pool).spec_options(),
            final(pool).spec_leases() == spec_request_leases(
                old(pool).spec_leases(),
                MacAddr(self.client_hw_addr),
                (now + old(pool).spec_lease_time()) as u64,
            ),
            spec_is_reply_template(*self, r),
            r.yiaddr@ == spec_ip_octets(
                (old(pool).spec_start() + spec_request_slot(
                    old(pool).spec_leases(),
                    MacAddr(self.client_hw_addr),
                )) as u32,
            ),
            r.siaddr@ == spec_siaddr(old(pool).spec_options()@),
            r.options.wf(),
            r.options@ == spec_reply_opts_from(
                *self,
                old(pool).spec_options()@,
                empty_slots(),
                true,
                MessageType::Offer,
            ),
            r.message_type == MessageType::Offer,
            options_wire_len(r.options@) <= 272,
    {
        let mut res = self.build_response();
        let mac = MacAddr::new(self.client_hw_addr);
        let ip = pool.request(&mac, now);
        res.yiaddr = ip;
        self.insert_requested_options(pool, &mut res);
        self.insert_lease(pool, &mut res);
        self.insert_server_addr(pool, &mut res);
        res.options.add(DhcpOption::MessageType(MessageType::Offer));
        res.options.add(DhcpOption::End);
        res.message_type = MessageType::Offer;
        proof {
            lemma_reply_opts_wf_fits(
                *self,
                pool.spec_options()@,
                empty_slots(),
                true,
                MessageType::Offer,
            );
        }
        res
    }

    /// Handler for a DHCP Request: Ack a RENEWING client on its own
    /// address, Ack a SELECTING or INIT-REBOOT client whose requested
    /// address the pool verifies, and Nack everything else.
    fn verify(&self, pool: &AddrPool) -> (r: Dhcp)
        requires
            self.options.wf(),
            pool.wf(),
        ensures
            spec_is_reply_template(*self, r),
            r.options.wf(),
            options_wire_len(r.options@) <= 272,
            ({
                let pool_opts = pool.spec_options()@;
                if spec_renewing(*self) {
                    &&& r.yiaddr == self.ciaddr
                    &&& r.siaddr@ == spec_siaddr(pool_opts)
                    &&& r.message_type == MessageType::Ack
                    &&& r.options@ == spec_reply_opts_from(
                        *self,
                        pool_opts,
                        empty_slots(),
                        false,
                        MessageType::Ack,
                    )
                } else if spec_selected(*self) is Some && spec_verify(
                    *pool,
                    MacAddr(self.client_hw_addr),
                    spec_selected(*self)->0@,
                ) {
                    &&& r.yiaddr == spec_selected(*self)->0
                    &&& r.siaddr@ == spec_siaddr(pool_opts)
                    &&& r.message_type == MessageType::Ack
                    &&& r.options@ == spec_reply_opts_from(
                        *self,
                        pool_opts,
                        empty_slots(),
                        false,
                        MessageType::Ack,
                    )
                } else {
                    &&& r.yiaddr@ == seq![0u8, 0u8, 0u8, 0u8]
                    &&& r.siaddr@ == seq![0u8, 0u8, 0u8, 0u8]
                    &&& r.message_type == MessageType::Nack
                    &&& r.options@ == empty_slots().update(
                        53,
                        Some(DhcpOption::MessageType(MessageType::Nack)),
                    ).update(255, Some(DhcpOption::End))
                }
            }),
    {
        let mut res = self.build_response();
        let requested_ip = self.options.get(DhcpOption::REQUESTED_IP_ADDR);
        let client_mac = MacAddr::new(self.client_hw_addr);

        // RENEWING | REBINDING
        let client_ip_set = self.ciaddr[0] != 0 || self.ciaddr[1] != 0 || self.ciaddr[2] != 0
            || self.ciaddr[3] != 0;
        proof {
            if !client_ip_set {
                assert(self.ciaddr@ =~= seq![0u8, 0u8, 0u8, 0u8]);
            }
            lemma_reply_opts_wf_fits(
                *self,
                pool.spec_options()@,
                empty_slots(),
                false,
                MessageType::Ack,
            );
        }
        if client_ip_set && requested_ip.is_none() {
            res.yiaddr = self.ciaddr;
            self.ack(&mut res, pool);
            return res;
        }

        // SELECTING | INIT-REBOOT
        if let Some(DhcpOption::RequestedIpAddr(ip)) = requested_ip {
            if pool.verify_request(&client_mac, &ip) {
                res.yiaddr = ip;
                self.ack(&mut res, pool);
                return res;
            }
        }

        // Fall through into Nack
        self.nack(&mut res);
        proof {
            lemma_stream_all_none(empty_slots(), 0);
            lemma_stream_update_len(
                empty_slots(),
                53,
                Some(DhcpOption::MessageType(MessageType::Nack)),
                0,
            );
            lemma_stream_update_len(
                empty_slots().update(53, Some(DhcpOption::MessageType(MessageType::Nack))),
                255,
                Some(DhcpOption::End),
                0,
            );
        }
        res
    }

    /// State machine deciding what to do with a packet: a Discover draws an
    /// address from the pool and serializes an Offer; a Request is verified
    /// and serializes an Ack or a Nack; everything else is ignored and no
    /// datagram is produced. Returns the length to send, zero for none.
    pub fn handle(&self, pool: &mut AddrPool, buffer: &mut Vec<u8>, now: u64) -> (n: usize)
        requires
            self.options.wf(),
            old(pool).wf(),
            old(buffer).len() == 512,
            forall|j: int| 0 <= j < 512 ==> old(buffer)@[j] == 0,
            now + u32::MAX <= u64::MAX,
        ensures
            final(pool).wf(),
            final(pool).spec_start() == old(pool).spec_start(),
            final(pool).spec_subnet() == old(pool).spec_subnet(),
            final(pool).spec_mask() == old(pool).spec_mask(),
            final(pool).spec_options() == old(pool).spec_options(),
            final(buffer)@.len() == 512,
            n <= 512,
            forall|j: int| n <= j < 512 ==> final(buffer)@[j] == 0,
            match self.message_type {
                MessageType::Discover => ({
                    let mac = MacAddr(self.client_hw_addr);
                    let pool_opts = old(pool).spec_options()@;
                    let offer_opts = spec_reply_opts_from(
                        *self,
                        pool_opts,
                        empty_slots(),
                        true,
                        MessageType::Offer,
                    );
                    let granted = spec_ip_octets(
                        (old(pool).spec_start() + spec_request_slot(
                            old(pool).spec_leases(),
                            mac,
                        )) as u32,
                    );
                    &&& final(pool).spec_leases() == spec_request_leases(
                        old(pool).spec_leases(),
                        mac,
                        (now + old(pool).spec_lease_time()) as u64,
                    )
                    &&& n == 240 + options_wire_len(offer_opts)
                    &&& final(buffer)@.subrange(0, 240) == Seq::new(
                        240,
                        |i: int|
                            spec_reply_header_byte(*self, granted, spec_siaddr(pool_opts), i),
                    )
                    &&& final(buffer)@.subrange(240, n as int) == options_stream_from(
                        offer_opts,
                        0,
                    )
                }),
                MessageType::Request => ({
                    let mac = MacAddr(self.client_hw_addr);
                    let pool_opts = old(pool).spec_options()@;
                    let ack_opts = spec_reply_opts_from(
                        *self,
                        pool_opts,
                        empty_slots(),
                        false,
                        MessageType::Ack,
                    );
                    let nack_opts = empty_slots().update(
                        53,
                        Some(DhcpOption::MessageType(MessageType::Nack)),
                    ).update(255, Some(DhcpOption::End));
                    &&& final(pool).spec_leases() == old(pool).spec_leases()
                    &&& if spec_renewing(*self) {
                        &&& n == 240 + options_wire_len(ack_opts)
                        &&& final(buffer)@.subrange(0, 240) == Seq::new(
                            240,
                            |i: int|
                                spec_reply_header_byte(
                                    *self,
                                    self.ciaddr@,
                                    spec_siaddr(pool_opts),
                                    i,
                                ),
                        )
                        &&& final(buffer)@.subrange(240, n as int) == options_stream_from(
                            ack_opts,
                            0,
                        )
                    } else if spec_selected(*self) is Some && spec_verify(
                        *old(pool),
                        mac,
                        spec_selected(*self)->0@,
                    ) {
                        &&& n == 240 + options_wire_len(ack_opts)
                        &&& final(buffer)@.subrange(0, 240) == Seq::new(
                            240,
                            |i: int|
                                spec_reply_header_byte(
                                    *self,
                                    spec_selected(*self)->0@,
                                    spec_siaddr(pool_opts),
                                    i,
                                ),
                        )
                        &&& final(buffer)@.subrange(240, n as int) == options_stream_from(
                            ack_opts,
                            0,
                        )
                    } else {
                        &&& n == 240 + options_wire_len(nack_opts)
                        &&& final(buffer)@.subrange(0, 240) == Seq::new(
                            240,
                            |i: int|
                                spec_reply_header_byte(
                                    *self,
                                    seq![0u8, 0u8, 0u8, 0u8],
                                    seq![0u8, 0u8, 0u8, 0u8],
                                    i,
                                ),
                        )
                        &&& final(buffer)@.subrange(240, n as int) == options_stream_from(
                            nack_opts,
                            0,
                        )
                    }
                }),
                _ => n == 0 && *final(pool) == *old(pool) && final(buffer)@ == old(buffer)@,
            },
    {
        match self.message_type {
            MessageType::Discover => {
                let reply = self.offer(pool, now);
                let n = reply.serialiase(buffer);
                proof {
                    let ser = spec_serialize(reply);
                    let stream = options_stream_from(reply.options@, 0);
                    assert forall|j: int| 0 <= j < n implies buffer@[j] == ser[j] by {
                        assert(buffer@.subrange(0, n as int)[j] == buffer@[j]);
                    }
                    assert(buffer@.subrange(0, 240) =~= Seq::new(
                        240,
                        |i: int|
                            spec_reply_header_byte(
                                *self,
                                reply.yiaddr@,
                                reply.siaddr@,
                                i,
                            ),
                    ));
                    assert(n == 240 + stream.len());
                    assert forall|j: int| 0 <= j < stream.len() implies buffer@.subrange(
                        240,
                        n as int,
                    )[j] == stream[j] by {
                        assert(buffer@.subrange(240, n as int)[j] == buffer@[240 + j]);
                        assert(ser[240 + j] == stream[j]);
                    }
                    assert(buffer@.subrange(240, n as int) =~= stream);
                }
                n
            },
            MessageType::Request => {
                let reply = self.verify(pool);
                let n = reply.serialiase(buffer);
                proof {
                    let ser = spec_serialize(reply);
                    let stream = options_stream_from(reply.options@, 0);
                    assert forall|j: int| 0 <= j < n implies buffer@[j] == ser[j] by {
                        assert(buffer@.subrange(0, n as int)[j] == buffer@[j]);
                    }
                    assert(buffer@.subrange(0, 240) =~= Seq::new(
                        240,
                        |i: int|
                            spec_reply_header_byte(
                                *self,
                                reply.yiaddr@,
                                reply.siaddr@,
                                i,
                            ),
                    ));
                    assert(n == 240 + stream.len());
                    assert forall|j: int| 0 <= j < stream.len() implies buffer@.subrange(
                        240,
                        n as int,
                    )[j] == stream[j] by {
                        assert(buffer@.subrange(240, n as int)[j] == buffer@[240 + j]);
                        assert(ser[240 + j] == stream[j]);
                    }
                    assert(buffer@.subrange(240, n as int) =~= stream);
                }
                n
            },
            _ => 0,
        }
    }

    /// What this packet pins down for the parser: its fields and option
    /// payloads, as one value.
    pub open spec fn parsed_view(&self) -> ParsedPacket {
        ParsedPacket {
            op_code: self.op_code,
            hw_addr_ty: self.hw_addr_ty,
            hw_addr_len: self.hw_addr_len,
            hops: self.hops,
            transaction_id: self.transaction_id@,
            secs: self.secs@,
            flags: self.flags@,
            ciaddr: self.ciaddr@,
            yiaddr: self.yiaddr@,
            siaddr: self.siaddr@,
            giaddr: self.giaddr@,
            client_hw_addr: self.client_hw_addr@,
            server_hostname: self.server_hostname@,
            file: self.file@,
            opts: list_views(self.options@),
            message_type: self.message_type,
        }
    }
}

/// Byte `i` of the fixed 236-byte header plus magic that the serializer
/// emits for packet `p`. Fields the serializer does not carry -- secs,
/// giaddr, sname, file -- are zero on the wire.
pub open spec fn spec_header_byte(p: Dhcp, i: int) -> u8 {
    if i == 0 {
        p.op_code
    } else if i == 1 {
        p.hw_addr_ty
    } else if i == 2 {
        p.hw_addr_len
    } else if i == 3 {
        p.hops
    } else if 4 <= i < 8 {
        p.transaction_id@[i - 4]
    } else if 10 <= i < 12 {
        p.flags@[i - 10]
    } else if 12 <= i < 16 {
        p.ciaddr@[i - 12]
    } else if 16 <= i < 20 {
        p.yiaddr@[i - 16]
    } else if 20 <= i < 24 {
        p.siaddr@[i - 20]
    } else if 28 <= i < 34 {
        p.client_hw_addr@[i - 28]
    } else if i == 236 {
        0x63
    } else if i == 237 {
        0x82
    } else if i == 238 {
        0x53
    } else if i == 239 {
        0x63
    } else {
        0
    }
}

/// The full wire form of a packet: the fixed header with the magic, then
/// the options in ascending opcode order.
pub open spec fn spec_serialize(p: Dhcp) -> Seq<u8> {
    Seq::new(240, |i: int| spec_header_byte(p, i)) + options_stream_from(p.options@, 0)
}

/// An option list with nothing in it.
pub open spec fn empty_slots() -> Seq<Option<DhcpOption>> {
    Seq::new(256, |i: int| None)
}

/// Whether the request asks for option `j` in its parameter request list.
pub open spec fn spec_requested(req: Dhcp, j: int) -> bool {
    match req.options@[55] {
        Some(DhcpOption::ParameterRequestList(b, l)) => exists|k: int| 0 <= k < l && b@[k] == j,
        _ => false,
    }
}

/// The requested pool defaults, copied over `base`: every opcode the client
/// asked for that the pool has an entry for is satisfied; the rest are
/// skipped.
pub open spec fn spec_merge_requested(
    req: Dhcp,
    pool_opts: Seq<Option<DhcpOption>>,
    base: Seq<Option<DhcpOption>>,
) -> Seq<Option<DhcpOption>> {
    Seq::new(256, |j: int| if spec_requested(req, j) && pool_opts[j] is Some {
        pool_opts[j]
    } else {
        base[j]
    })
}

/// The option list of a reply to `req`: the requested defaults, the pool's
/// lease time (for an Offer), the pool's server identifier, then the
/// message type and the end marker.
pub open spec fn spec_reply_opts_from(
    req: Dhcp,
    pool_opts: Seq<Option<DhcpOption>>,
    base: Seq<Option<DhcpOption>>,
    include_lease: bool,
    mt: MessageType,
) -> Seq<Option<DhcpOption>> {
    let merged = spec_merge_requested(req, pool_opts, base);
    let with_lease = if include_lease && pool_opts[51] matches Some(DhcpOption::LeaseTime(_)) {
        merged.update(51, pool_opts[51])
    } else {
        merged
    };
    let with_server = if pool_opts[54] matches Some(DhcpOption::DhcpServerIpAddr(_)) {
        with_lease.update(54, pool_opts[54])
    } else {
        with_lease
    };
    with_server.update(53, Some(DhcpOption::MessageType(mt))).update(255, Some(DhcpOption::End))
}

/// The `siaddr` a reply carries: the pool's server identifier when one is
/// registered, zero otherwise.
pub open spec fn spec_siaddr(pool_opts: Seq<Option<DhcpOption>>) -> Seq<u8> {
    match pool_opts[54] {
        Some(DhcpOption::DhcpServerIpAddr(a)) => a@,
        _ => seq![0u8, 0u8, 0u8, 0u8],
    }
}

/// Byte `i` of the header of a reply to `req` granting `yiaddr` with
/// next-server `siaddr`: the reply template on the wire.
pub open spec fn spec_reply_header_byte(req: Dhcp, yiaddr: Seq<u8>, siaddr: Seq<u8>, i: int) -> u8 {
    if i == 0 {
        2
    } else if i == 1 {
        1
    } else if i == 2 {
        6
    } else if 4 <= i < 8 {
        req.transaction_id@[i - 4]
    } else if 16 <= i < 20 {
        yiaddr[i - 16]
    } else if 20 <= i < 24 {
        siaddr[i - 20]
    } else if 28 <= i < 34 {
        req.client_hw_addr@[i - 28]
    } else if i == 236 {
        0x63
    } else if i == 237 {
        0x82
    } else if i == 238 {
        0x53
    } else if i == 239 {
        0x63
    } else {
        0
    }
}

/// The fixed header fields every reply carries: a BOOTREPLY for Ethernet,
/// echoing the request's transaction id and hardware address, everything
/// else zeroed.
pub open spec fn spec_is_reply_template(req: Dhcp, r: Dhcp) -> bool {
    &&& r.op_code == 2
    &&& r.hw_addr_ty == 1
    &&& r.hw_addr_len == 6
    &&& r.hops == 0
    &&& r.transaction_id == req.transaction_id
    &&& r.secs@ == seq![0u8, 0u8]
    &&& r.flags@ == seq![0u8, 0u8]
    &&& r.ciaddr@ == seq![0u8, 0u8, 0u8, 0u8]
    &&& r.giaddr@ == seq![0u8, 0u8, 0u8, 0u8]
    &&& r.client_hw_addr == req.client_hw_addr
    &&& r.server_hostname@ == Seq::new(64, |i: int| 0u8)
    &&& r.file@ == Seq::new(128, |i: int| 0u8)
}

/// All fields untouched by the reply builders: everything but the granted
/// address, the server address, the options and the message type.
pub open spec fn same_identity(a: Dhcp, b: Dhcp) -> bool {
    &&& a.op_code == b.op_code
    &&& a.hw_addr_ty == b.hw_addr_ty
    &&& a.hw_addr_len == b.hw_addr_len
    &&& a.hops == b.hops
    &&& a.transaction_id == b.transaction_id
    &&& a.secs == b.secs
    &&& a.flags == b.flags
    &&& a.ciaddr == b.ciaddr
    &&& a.giaddr == b.giaddr
    &&& a.client_hw_addr == b.client_hw_addr
    &&& a.server_hostname == b.server_hostname
    &&& a.file == b.file
}

/// A RENEWING or REBINDING request: the client names its address in
/// `ciaddr` and asks for no other.
pub open spec fn spec_renewing(req: Dhcp) -> bool {
    &&& req.ciaddr@ != seq![0u8, 0u8, 0u8, 0u8]
    &&& req.options@[50] is None
}

/// The address a SELECTING or INIT-REBOOT request asks for, if any.
pub open spec fn spec_selected(req: Dhcp) -> Option<[u8; 4]> {
    match req.options@[50] {
        Some(DhcpOption::RequestedIpAddr(ip)) => Some(ip),
        _ => None,
    }
}

/// A reply's options are well formed and -- because they are drawn from a
/// pool whose defaults fit -- short enough for a 512-byte datagram.
pub proof fn lemma_reply_opts_wf_fits(
    req: Dhcp,
    pool_opts: Seq<Option<DhcpOption>>,
    base: Seq<Option<DhcpOption>>,
    include_lease: bool,
    mt: MessageType,
)
    requires
        pool_opts.len() == 256,
        forall|i: int|
            0 <= i < 256 && pool_opts[i] is Some ==> (#[trigger] pool_opts[i])->0.spec_opcode()
                == i && pool_opts[i]->0.wf(),
        options_wire_len(pool_opts) <= 268,
        base == empty_slots(),
        mt != MessageType::Unset,
    ensures
        ({
            let ro = spec_reply_opts_from(req, pool_opts, base, include_lease, mt);
            &&& ro.len() == 256
            &&& forall|i: int|
                0 <= i < 256 && ro[i] is Some ==> (#[trigger] ro[i])->0.spec_opcode() == i
                    && ro[i]->0.wf()
            &&& options_wire_len(ro) <= 272
        }),
{
    let ro = spec_reply_opts_from(req, pool_opts, base, include_lease, mt);
    let capped = pool_opts.update(53, Some(DhcpOption::MessageType(mt))).update(
        255,
        Some(DhcpOption::End),
    );
    lemma_stream_update_len(pool_opts, 53, Some(DhcpOption::MessageType(mt)), 0);
    lemma_stream_update_len(
        pool_opts.update(53, Some(DhcpOption::MessageType(mt))),
        255,
        Some(DhcpOption::End),
        0,
    );
    assert(options_stream_from(capped, 0).len() <= 272);
    assert forall|j: int| 0 <= j < 256 implies (#[trigger] slot_enc(ro[j])).len() <= slot_enc(
        capped[j],
    ).len() by {
        if j != 53 && j != 255 {
            assert(ro[j] is Some ==> ro[j] == pool_opts[j]);
        }
    }
    lemma_stream_pointwise_le(ro, capped, 0);
}

/// Any datagram shorter than the fixed header and magic is rejected as too
/// short, whatever its bytes.
pub proof fn lemma_parse_short_payload(data: Seq<u8>)
    requires
        data.len() < 240,
    ensures
        spec_parse(data) == Err::<ParsedPacket, _>(Error::PayloadTooShort(data.len() as usize)),
{
}

/// Any long-enough datagram whose op byte is not BOOTREQUEST is rejected,
/// whatever the rest of its bytes.
pub proof fn lemma_parse_not_request(data: Seq<u8>)
    requires
        data.len() >= 240,
        data[0] != 1,
    ensures
        spec_parse(data) == Err::<ParsedPacket, _>(Error::NotADhcpRequest(data[0])),
{
}

/// The opcodes that survive a round trip: the serializer can emit them and
/// the parser reads them back.
pub open spec fn rt_opcode(i: int) -> bool {
    ||| i == 0
    ||| i == 1
    ||| i == 3
    ||| i == 6
    ||| i == 28
    ||| i == 50
    ||| i == 51
    ||| i == 53
    ||| i == 54
    ||| i == 57
    ||| i == 255
}

/// `N` bytes of `data` starting at `at`, as a fixed buffer.
fn read_bytes<const N: usize>(data: &[u8], at: usize) -> (r: [u8; N])
    requires
        at + N <= data.len(),
    ensures
        r@ == data@.subrange(at as int, at + N),
{
    let mut r: [u8; N] = [0u8; N];
    let mut i: usize = 0;
    while i < N
        invariant
            i <= N,
            at + N <= data.len(),
            forall|k: int| 0 <= k < i ==> r@[k] == data@[at + k],
        decreases N - i,
    {
        r[i] = data[at + i];
        i = i + 1;
    }
    proof {
        assert(r@ =~= data@.subrange(at as int, at + N));
    }
    r
}

impl Dhcp {
    /// A packet the codec can send and read back unchanged: structurally
    /// sound, a request, every option at an opcode both codecs handle, and
    /// the header fields the serializer leaves at zero actually zero.
    pub open spec fn round_trippable(&self) -> bool {
        &&& self.wf()
        &&& self.op_code == 1
        &&& self.secs@ == seq![0u8, 0u8]
        &&& self.giaddr@ == seq![0u8, 0u8, 0u8, 0u8]
        &&& self.server_hostname@ == Seq::new(64, |i: int| 0u8)
        &&& self.file@ == Seq::new(128, |i: int| 0u8)
        &&& forall|i: int| 0 <= i < 256 && self.options@[i] is Some ==> rt_opcode(i)
    }
}

/// Every round-trippable opcode is one the serializer can emit.
proof fn lemma_rt_encodable(o: DhcpOption)
    requires
        rt_opcode(o.spec_opcode() as int),
    ensures
        o.is_encodable(),
{
}

/// The round-trippable options that are neither markers, the message type,
/// nor the max message size carry exactly four payload bytes.
proof fn lemma_rt_payload_four(o: DhcpOption)
    requires
        rt_opcode(o.spec_opcode() as int),
        o.spec_opcode() != 0,
        o.spec_opcode() != 53,
        o.spec_opcode() != 57,
        o.spec_opcode() != 255,
    ensures
        o.payload_view().len() == 4,
{
}

/// Parsing the option stream of a round-trippable packet, with the slots
/// below `i` already decoded, reproduces exactly the packet's options and
/// message type.
proof fn lemma_rt_opts(
    p: Dhcp,
    s: Seq<u8>,
    i: int,
    pos: int,
    acc: Seq<Option<Seq<u8>>>,
    mt: MessageType,
)
    requires
        p.round_trippable(),
        s == spec_serialize(p),
        0 <= i <= 256,
        240 <= pos <= s.len(),
        s.subrange(pos, s.len() as int) == options_stream_from(p.options@, i),
        acc.len() == 256,
        forall|j: int| 0 <= j < i ==> acc[j] == list_views(p.options@)[j],
        forall|j: int| i <= j < 256 ==> acc[j] is None,
        mt == (if i > 53 {
            p.message_type
        } else {
            MessageType::Unset
        }),
    ensures
        spec_parse_opts(s, pos, acc, mt) == Ok::<_, Error>(
            (list_views(p.options@), p.message_type),
        ),
    decreases 256 - i,
{
    let slots = p.options@;
    let views = list_views(slots);
    if i == 256 {
        assert(options_stream_from(slots, 256) == Seq::<u8>::empty());
        assert(pos == s.len());
        assert(acc =~~= views);
    } else {
        match slots[i] {
            None => {
                assert(options_stream_from(slots, i) =~= options_stream_from(slots, i + 1));
                assert(i != 53);
                lemma_rt_opts(p, s, i + 1, pos, acc, mt);
            },
            Some(o) => {
                assert(o.spec_opcode() == i && o.wf());
                assert(rt_opcode(i));
                lemma_rt_encodable(o);
                let enc = o.spec_encode();
                let pv = o.payload_view();
                let rest = options_stream_from(slots, i + 1);
                assert(slot_enc(slots[i]) == enc);
                assert(options_stream_from(slots, i) == slot_enc(slots[i])
                    + options_stream_from(slots, i + 1));
                assert(options_stream_from(slots, i) == enc + rest);
                let sub = s.subrange(pos, s.len() as int);
                assert(sub.len() == s.len() - pos);
                assert(sub == enc + rest);
                assert(s.len() - pos == enc.len() + rest.len());
                assert(sub[0] == s[pos + 0]);
                assert((enc + rest)[0] == enc[0]);
                assert(s.subrange(pos + enc.len(), s.len() as int) =~= rest) by {
                    assert forall|k: int| 0 <= k < rest.len() implies s.subrange(
                        pos + enc.len(),
                        s.len() as int,
                    )[k] == rest[k] by {
                        assert(s.subrange(pos + enc.len(), s.len() as int)[k] == s[pos + enc.len()
                            + k]);
                        assert(sub[enc.len() + k] == s[pos + (enc.len() + k)]);
                        assert((enc + rest)[enc.len() + k] == rest[k]);
                    }
                }
                if i == 255 {
                    assert(o == DhcpOption::End);
                    assert(enc == seq![255u8]);
                    assert(s[pos] == 255);
                    assert(spec_parse_opts(s, pos, acc, mt) == Ok::<_, Error>(
                        (acc.update(255, Some(Seq::<u8>::empty())), mt),
                    ));
                    assert(o.payload_view() =~= Seq::<u8>::empty());
                    assert(acc.update(255, Some(Seq::<u8>::empty())) =~~= views);
                } else {
                    if i == 0 {
                        assert(o == DhcpOption::Pad);
                        assert(enc == seq![0u8]);
                    } else {
                        let two = seq![o.spec_opcode(), pv.len() as u8];
                        assert(enc == two + pv);
                        assert((two + pv)[0] == o.spec_opcode());
                        assert((two + pv)[1] == pv.len() as u8);
                        assert(sub[1] == s[pos + 1]);
                        assert((enc + rest)[1] == enc[1]);
                        assert(s[pos + 1] == pv.len() as u8);
                        assert(pv =~= s.subrange(pos + 2, pos + 2 + pv.len() as int)) by {
                            assert forall|k: int| 0 <= k < pv.len() implies s.subrange(
                                pos + 2,
                                pos + 2 + pv.len() as int,
                            )[k] == pv[k] by {
                                assert(s.subrange(pos + 2, pos + 2 + pv.len() as int)[k] == s[pos
                                    + 2 + k]);
                                assert(sub[2 + k] == s[pos + (2 + k)]);
                                assert((enc + rest)[2 + k] == enc[2 + k]);
                                assert((two + pv)[2 + k] == pv[k]);
                            }
                        }
                    }
                    assert(s[pos] == i as u8);
                    assert(s[pos] != 255);
                    let consumed = enc.len() as int;
                    assert(pos + consumed <= s.len());
                    if i == 0 {
                        assert(o.payload_view() =~= Seq::<u8>::empty());
                        assert(spec_decode_at(s, pos) == Ok::<_, Error>(
                            (OptStep::Insert(0, o.payload_view()), 1int),
                        ));
                        lemma_step_insert(s, pos, acc, mt, o, 1);
                    } else if i == 53 {
                        let m = p.message_type;
                        assert(o == DhcpOption::MessageType(m));
                        assert(pv == seq![m.spec_code()]);
                        assert(enc.len() == 3);
                        assert(s[pos + 1] == 1);
                        assert(s[pos + 2] == pv[0]) by {
                            assert(pv == s.subrange(pos + 2, pos + 2 + pv.len() as int));
                            assert(s.subrange(pos + 2, pos + 3)[0] == s[pos + 2 + 0]);
                        }
                        assert(s[pos + 2] == m.spec_code());
                        assert(MessageType::spec_try_from(m.spec_code()) == Ok::<_, Error>(m));
                        assert(spec_decode_at(s, pos) == Ok::<_, Error>(
                            (OptStep::SetType(m), 3int),
                        ));
                        lemma_step_set_type(s, pos, acc, mt, m);
                    } else if i == 57 {
                        assert(pv.len() == 2);
                        assert(enc.len() == 4);
                        assert(s[pos + 1] == 2);
                        assert(spec_decode_at(s, pos) == Ok::<_, Error>(
                            (OptStep::Insert(57, s.subrange(pos + 2, pos + 4)), 4int),
                        ));
                        lemma_step_insert(s, pos, acc, mt, o, 4);
                    } else {
                        // The four-byte options: the addresses and the lease time
                        lemma_rt_payload_four(o);
                        assert(pv.len() == 4);
                        assert(enc.len() == 6);
                        assert(s[pos + 1] == 4);
                        assert(spec_decode_at(s, pos) == Ok::<_, Error>(
                            (OptStep::Insert(i, s.subrange(pos + 2, pos + 6)), 6int),
                        ));
                        lemma_step_insert(s, pos, acc, mt, o, 6);
                    }
                    let acc1 = if i == 53 {
                        acc.update(53, Some(seq![p.message_type.spec_code()]))
                    } else {
                        acc.update(i, Some(o.payload_view()))
                    };
                    let mt1 = if i == 53 {
                        p.message_type
                    } else {
                        mt
                    };
                    assert(acc1[i] == views[i]);
                    lemma_rt_opts(p, s, i + 1, pos + consumed, acc1, mt1);
                }
            },
        }
    }
}

/// Round trip: a round-trippable packet, parsed back from its own wire
/// form, is accepted and comes out exactly as it went in.
pub proof fn lemma_round_trip(p: Dhcp)
    requires
        p.round_trippable(),
    ensures
        spec_parse(spec_serialize(p)) == Ok::<_, Error>(p.parsed_view()),
{
    let s = spec_serialize(p);
    let hdr = Seq::new(240, |i: int| spec_header_byte(p, i));
    assert forall|k: int| 0 <= k < 240 implies s[k] == spec_header_byte(p, k) by {
        assert(s[k] == hdr[k]);
    }
    assert(s.len() >= 240);
    assert(s[0] == 1);
    assert(s[236] == 0x63 && s[237] == 0x82 && s[238] == 0x53 && s[239] == 0x63);
    assert(s.subrange(240, s.len() as int) =~= options_stream_from(p.options@, 0)) by {
        assert forall|k: int|
            0 <= k < options_stream_from(p.options@, 0).len() implies s.subrange(
            240,
            s.len() as int,
        )[k] == options_stream_from(p.options@, 0)[k] by {
            assert(s[240 + k] == (hdr + options_stream_from(p.options@, 0))[240 + k]);
        }
    }
    lemma_rt_opts(p, s, 0, 240, empty_opts(), MessageType::Unset);
    assert(s.subrange(4, 8) =~= p.transaction_id@);
    assert(s.subrange(8, 10) =~= p.secs@);
    assert(s.subrange(10, 12) =~= p.flags@);
    assert(s.subrange(12, 16) =~= p.ciaddr@);
    assert(s.subrange(16, 20) =~= p.yiaddr@);
    assert(s.subrange(20, 24) =~= p.siaddr@);
    assert(s.subrange(24, 28) =~= p.giaddr@);
    assert(s.subrange(28, 34) =~= p.client_hw_addr@);
    assert(s.subrange(44, 108) =~= p.server_hostname@);
    assert(s.subrange(108, 236) =~= p.file@);
}

} // verus!
