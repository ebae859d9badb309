//! Netlink link messages (Linux): parsing of the message headers received on a
//! `NETLINK_ROUTE` socket subscribed to `RTMGRP_LINK`, and the shadow state of
//! interface flags that tells real changes from periodic repeats.
use crate::text::{decimal, decimal_text};
use crate::vec_map::{KeyEq, VecMap};
use nix::net::if_::InterfaceFlags;
use vstd::prelude::*;
use zerocopy::FromBytes;

verus! {

/// The message types of link messages, as in `<linux/rtnetlink.h>`.
pub const RTM_NEWLINK: u16 = 16;

pub const RTM_DELLINK: u16 = 17;

pub const RTM_GETLINK: u16 = 18;

/// The size of a netlink message header.
pub const NLMSG_HDR_LEN: usize = 16;

/// The size of a link message body.
pub const IFINFO_MSG_LEN: usize = 16;

/// The number of the first two bytes of `b`, least significant first.
pub open spec fn le16(b: Seq<u8>) -> int {
    b[0] + 256 * b[1]
}

/// The number of the first two bytes of `b`, most significant first.
pub open spec fn be16(b: Seq<u8>) -> int {
    b[1] + 256 * b[0]
}

/// The number of the first four bytes of `b`, least significant first.
pub open spec fn le32(b: Seq<u8>) -> int {
    b[0] + 256 * b[1] + 65536 * b[2] + 16777216 * b[3]
}

/// The number of the first four bytes of `b`, most significant first.
pub open spec fn be32(b: Seq<u8>) -> int {
    b[3] + 256 * b[2] + 65536 * b[1] + 16777216 * b[0]
}

/// `v` is the first two bytes of `b` read in the byte order of the machine.
pub open spec fn native16(b: Seq<u8>, v: u16) -> bool {
    v == le16(b) || v == be16(b)
}

/// `v` is the first four bytes of `b` read in the byte order of the machine.
pub open spec fn native32(b: Seq<u8>, v: u32) -> bool {
    v == le32(b) || v == be32(b)
}

/// Reads a `u16` from the first bytes of `bytes` with zerocopy's
/// `FromBytes::read_from_prefix`: `None` when there are fewer than two bytes,
/// else the two bytes in the byte order of the machine, which the contract
/// leaves open between the two orders.
#[verifier::external_body]
fn read_u16(bytes: &[u8]) -> (r: Option<u16>)
    ensures
        r is Some <==> bytes@.len() >= 2,
        r matches Some(v) ==> native16(bytes@, v),
{
    u16::read_from_prefix(bytes).ok().map(|(v, _)| v)
}

/// Reads a `u32` from the first bytes of `bytes` with zerocopy's
/// `FromBytes::read_from_prefix`: `None` when there are fewer than four bytes,
/// else the four bytes in the byte order of the machine, which the contract
/// leaves open between the two orders.
#[verifier::external_body]
fn read_u32(bytes: &[u8]) -> (r: Option<u32>)
    ensures
        r is Some <==> bytes@.len() >= 4,
        r matches Some(v) ==> native32(bytes@, v),
{
    u32::read_from_prefix(bytes).ok().map(|(v, _)| v)
}

/// The interface flags that nix knows on this platform, among `bits`.
pub uninterp spec fn known_interface_flags(bits: i32) -> i32;

/// Keeps the flags of `bits` that nix knows, with nix's
/// `InterfaceFlags::from_bits_truncate` (which unsets unknown bits). The
/// contract claims that the result is the named function of `bits` and holds
/// no bit that `bits` does not hold.
#[verifier::external_body]
fn truncate_interface_flags(bits: i32) -> (r: i32)
    ensures
        r == known_interface_flags(bits),
        r & bits == r,
{
    InterfaceFlags::from_bits_truncate(bits).bits()
}

/// A netlink message header (`struct nlmsghdr`).
#[derive(Debug, Clone, Copy)]
pub struct NlMsgHdr {
    pub nlmsg_len: u32,
    pub nlmsg_type: u16,
    pub nlmsg_flags: u16,
    pub nlmsg_seq: u32,
    pub nlmsg_pid: u32,
}

/// The body of a link message (`struct ifinfomsg`).
#[derive(Debug, Clone, Copy)]
pub struct IfInfoMsg {
    pub ifi_family: u8,
    pub __ifi_pad: u8,
    pub ifi_type: u16,
    pub ifi_index: i32,
    pub ifi_flags: u32,
    pub ifi_change: u32,
}

/// `h` is the header laid out at the start of `b`.
pub open spec fn is_nlmsghdr(b: Seq<u8>, h: NlMsgHdr) -> bool {
    &&& native32(b.subrange(0, 4), h.nlmsg_len)
    &&& native16(b.subrange(4, 6), h.nlmsg_type)
    &&& native16(b.subrange(6, 8), h.nlmsg_flags)
    &&& native32(b.subrange(8, 12), h.nlmsg_seq)
    &&& native32(b.subrange(12, 16), h.nlmsg_pid)
}

/// `m` is the link message body laid out at the start of `b`.
pub open spec fn is_ifinfomsg(b: Seq<u8>, m: IfInfoMsg) -> bool {
    &&& m.ifi_family == b[0]
    &&& m.__ifi_pad == b[1]
    &&& native16(b.subrange(2, 4), m.ifi_type)
    &&& native32(b.subrange(4, 8), m.ifi_index as u32)
    &&& native32(b.subrange(8, 12), m.ifi_flags)
    &&& native32(b.subrange(12, 16), m.ifi_change)
}

impl NlMsgHdr {
    /// The header at the start of `b`, if `b` is long enough.
    pub fn from_prefix(b: &[u8]) -> (r: Option<NlMsgHdr>)
        ensures
            r is Some <==> b@.len() >= NLMSG_HDR_LEN,
            r matches Some(h) ==> is_nlmsghdr(b@, h),
    {
        if b.len() < NLMSG_HDR_LEN {
            return None;
        }
        let nlmsg_len = read_u32(&b[0..4])?;
        let nlmsg_type = read_u16(&b[4..6])?;
        let nlmsg_flags = read_u16(&b[6..8])?;
        let nlmsg_seq = read_u32(&b[8..12])?;
        let nlmsg_pid = read_u32(&b[12..16])?;
        Some(NlMsgHdr { nlmsg_len, nlmsg_type, nlmsg_flags, nlmsg_seq, nlmsg_pid })
    }
}

impl IfInfoMsg {
    /// The link message body at the start of `b`, if `b` is long enough.
    pub fn from_prefix(b: &[u8]) -> (r: Option<IfInfoMsg>)
        ensures
            r is Some <==> b@.len() >= IFINFO_MSG_LEN,
            r matches Some(m) ==> is_ifinfomsg(b@, m),
    {
        if b.len() < IFINFO_MSG_LEN {
            return None;
        }
        let ifi_type = read_u16(&b[2..4])?;
        let index = read_u32(&b[4..8])?;
        let ifi_flags = read_u32(&b[8..12])?;
        let ifi_change = read_u32(&b[12..16])?;
        let ifi_index = index as i32;
        proof {
            assert(ifi_index as u32 == index) by (bit_vector)
                requires
                    ifi_index == index as i32,
            ;
        }
        Some(IfInfoMsg { ifi_family: b[0], __ifi_pad: b[1], ifi_type, ifi_index, ifi_flags, ifi_change })
    }
}

/// The name of a routing netlink message type (`rtnetlink.h`), if it is one.
pub open spec fn rtnetlink_name(t: u16) -> Option<Seq<char>> {
    match t {
        16 => Some("RTM_NEWLINK"@),
        17 => Some("RTM_DELLINK"@),
        18 => Some("RTM_GETLINK"@),
        19 => Some("RTM_SETLINK"@),
        20 => Some("RTM_NEWADDR"@),
        21 => Some("RTM_DELADDR"@),
        22 => Some("RTM_GETADDR"@),
        24 => Some("RTM_NEWROUTE"@),
        25 => Some("RTM_DELROUTE"@),
        26 => Some("RTM_GETROUTE"@),
        28 => Some("RTM_NEWNEIGH"@),
        29 => Some("RTM_DELNEIGH"@),
        30 => Some("RTM_GETNEIGH"@),
        32 => Some("RTM_NEWRULE"@),
        33 => Some("RTM_DELRULE"@),
        34 => Some("RTM_GETRULE"@),
        36 => Some("RTM_NEWQDISC"@),
        37 => Some("RTM_DELQDISC"@),
        38 => Some("RTM_GETQDISC"@),
        40 => Some("RTM_NEWTCLASS"@),
        41 => Some("RTM_DELTCLASS"@),
        42 => Some("RTM_GETTCLASS"@),
        44 => Some("RTM_NEWTFILTER"@),
        45 => Some("RTM_DELTFILTER"@),
        46 => Some("RTM_GETTFILTER"@),
        48 => Some("RTM_NEWACTION"@),
        49 => Some("RTM_DELACTION"@),
        50 => Some("RTM_GETACTION"@),
        52 => Some("RTM_NEWPREFIX"@),
        58 => Some("RTM_GETMULTICAST"@),
        62 => Some("RTM_GETANYCAST"@),
        64 => Some("RTM_NEWNEIGHTBL"@),
        66 => Some("RTM_GETNEIGHTBL"@),
        67 => Some("RTM_SETNEIGHTBL"@),
        68 => Some("RTM_NEWNDUSEROPT"@),
        72 => Some("RTM_NEWADDRLABEL"@),
        73 => Some("RTM_DELADDRLABEL"@),
        74 => Some("RTM_GETADDRLABEL"@),
        78 => Some("RTM_GETDCB"@),
        79 => Some("RTM_SETDCB"@),
        80 => Some("RTM_NEWNETCONF"@),
        82 => Some("RTM_GETNETCONF"@),
        84 => Some("RTM_NEWMDB"@),
        85 => Some("RTM_DELMDB"@),
        86 => Some("RTM_GETMDB"@),
        88 => Some("RTM_NEWNSID"@),
        89 => Some("RTM_DELNSID"@),
        90 => Some("RTM_GETNSID"@),
        _ => None,
    }
}

/// The human-readable text of a netlink message type: its name, or
/// `Unknown-` and its number.
pub open spec fn message_type_text(t: u16) -> Seq<char> {
    match rtnetlink_name(t) {
        Some(name) => name,
        None => "Unknown-"@ + decimal_text(t as nat),
    }
}

/// Converts a netlink message type to a human-readable string.
pub fn message_type_to_string(message_type: u16) -> (s: String)
    ensures
        s@ == message_type_text(message_type),
{
    match message_type {
        16 => "RTM_NEWLINK".to_owned(),
        17 => "RTM_DELLINK".to_owned(),
        18 => "RTM_GETLINK".to_owned(),
        19 => "RTM_SETLINK".to_owned(),
        20 => "RTM_NEWADDR".to_owned(),
        21 => "RTM_DELADDR".to_owned(),
        22 => "RTM_GETADDR".to_owned(),
        24 => "RTM_NEWROUTE".to_owned(),
        25 => "RTM_DELROUTE".to_owned(),
        26 => "RTM_GETROUTE".to_owned(),
        28 => "RTM_NEWNEIGH".to_owned(),
        29 => "RTM_DELNEIGH".to_owned(),
        30 => "RTM_GETNEIGH".to_owned(),
        32 => "RTM_NEWRULE".to_owned(),
        33 => "RTM_DELRULE".to_owned(),
        34 => "RTM_GETRULE".to_owned(),
        36 => "RTM_NEWQDISC".to_owned(),
        37 => "RTM_DELQDISC".to_owned(),
        38 => "RTM_GETQDISC".to_owned(),
        40 => "RTM_NEWTCLASS".to_owned(),
        41 => "RTM_DELTCLASS".to_owned(),
        42 => "RTM_GETTCLASS".to_owned(),
        44 => "RTM_NEWTFILTER".to_owned(),
        45 => "RTM_DELTFILTER".to_owned(),
        46 => "RTM_GETTFILTER".to_owned(),
        48 => "RTM_NEWACTION".to_owned(),
        49 => "RTM_DELACTION".to_owned(),
        50 => "RTM_GETACTION".to_owned(),
        52 => "RTM_NEWPREFIX".to_owned(),
        58 => "RTM_GETMULTICAST".to_owned(),
        62 => "RTM_GETANYCAST".to_owned(),
        64 => "RTM_NEWNEIGHTBL".to_owned(),
        66 => "RTM_GETNEIGHTBL".to_owned(),
        67 => "RTM_SETNEIGHTBL".to_owned(),
        68 => "RTM_NEWNDUSEROPT".to_owned(),
        72 => "RTM_NEWADDRLABEL".to_owned(),
        73 => "RTM_DELADDRLABEL".to_owned(),
        74 => "RTM_GETADDRLABEL".to_owned(),
        78 => "RTM_GETDCB".to_owned(),
        79 => "RTM_SETDCB".to_owned(),
        80 => "RTM_NEWNETCONF".to_owned(),
        82 => "RTM_GETNETCONF".to_owned(),
        84 => "RTM_NEWMDB".to_owned(),
        85 => "RTM_DELMDB".to_owned(),
        86 => "RTM_GETMDB".to_owned(),
        88 => "RTM_NEWNSID".to_owned(),
        89 => "RTM_DELNSID".to_owned(),
        90 => "RTM_GETNSID".to_owned(),
        other => {
            let mut s = "Unknown-".to_owned();
            s.append(decimal(other as u64).as_str());
            s
        },
    }
}

/// The type of a netlink message.
#[derive(Debug, Clone, Copy)]
pub struct MsgType(pub u16);

impl MsgType {
    /// Wraps a message type.
    pub fn new(value: u16) -> (t: MsgType)
        ensures
            t.0 == value,
    {
        MsgType(value)
    }

    /// The human-readable text of the message type.
    pub fn to_string(&self) -> (s: String)
        ensures
            s@ == message_type_text(self.0),
    {
        message_type_to_string(self.0)
    }
}

/// The result of parsing a netlink message.
///
/// Only link messages are subscribed to, so `Unknown` should never come; it is
/// there for completeness and troubleshooting.
#[derive(Debug)]
pub enum ParseResult {
    Link { len: usize, msg_type: MsgType, index: i32, flags: i32 },
    Unknown { len: usize, msg_type: MsgType },
}

/// Why a netlink message could not be parsed.
#[derive(Debug, PartialEq, Eq, Clone, Copy)]
pub enum NetlinkError {
    /// Fewer bytes than a message header.
    NoHeader,
    /// A link message with fewer bytes than its body.
    NoLinkInfo,
    /// A message announcing a length of zero, which the walk of a buffer
    /// cannot step over.
    NoProgress,
}

/// The type is that of a link message.
pub open spec fn is_link_type(t: u16) -> bool {
    t == RTM_NEWLINK || t == RTM_DELLINK || t == RTM_GETLINK
}

/// `r` is what parsing the netlink message at the start of `b` gives: the
/// header must be there; a link message must have its body; the length
/// reported is the one the header announces.
#[verifier::opaque]
pub open spec fn parses(b: Seq<u8>, r: Result<ParseResult, NetlinkError>) -> bool {
    &&& b.len() < NLMSG_HDR_LEN ==> r == Err::<ParseResult, NetlinkError>(NetlinkError::NoHeader)
    &&& b.len() >= NLMSG_HDR_LEN ==> exists|h: NlMsgHdr|
        #![trigger is_nlmsghdr(b, h)]
        is_nlmsghdr(b, h) && if is_link_type(h.nlmsg_type) {
            if b.len() < NLMSG_HDR_LEN + IFINFO_MSG_LEN {
                r == Err::<ParseResult, NetlinkError>(NetlinkError::NoLinkInfo)
            } else {
                exists|m: IfInfoMsg|
                    #![trigger is_ifinfomsg(b.subrange(16, b.len() as int), m)]
                    is_ifinfomsg(b.subrange(16, b.len() as int), m) && (r matches Ok(
                        ParseResult::Link { len, msg_type, index, flags },
                    ) && len == h.nlmsg_len && msg_type.0 == h.nlmsg_type && index == m.ifi_index
                        && flags == known_interface_flags(m.ifi_flags as i32))
            }
        } else {
            r matches Ok(ParseResult::Unknown { len, msg_type }) && len == h.nlmsg_len
                && msg_type.0 == h.nlmsg_type
        }
}

/// Parses the netlink message at the start of `slice`. The length reported is
/// the one the header announces.
pub fn parse(slice: &[u8]) -> (r: Result<ParseResult, NetlinkError>)
    ensures
        parses(slice@, r),
        r matches Err(e) ==> e != NetlinkError::NoProgress,
        r matches Ok(m) ==> message_len(m) <= u32::MAX,
{
    reveal(parses);
    let header = match NlMsgHdr::from_prefix(slice) {
        Some(header) => header,
        None => {
            return Err(NetlinkError::NoHeader);
        },
    };
    let rest = &slice[NLMSG_HDR_LEN..slice.len()];
    let len = header.nlmsg_len as usize;
    let t = header.nlmsg_type;
    if t == RTM_NEWLINK || t == RTM_DELLINK || t == RTM_GETLINK {
        let info = match IfInfoMsg::from_prefix(rest) {
            Some(info) => info,
            None => {
                return Err(NetlinkError::NoLinkInfo);
            },
        };
        Ok(
            ParseResult::Link {
                len,
                msg_type: MsgType::new(t),
                index: info.ifi_index,
                flags: truncate_interface_flags(info.ifi_flags as i32),
            },
        )
    } else {
        Ok(ParseResult::Unknown { len, msg_type: MsgType::new(t) })
    }
}

impl KeyEq for i32 {
    fn key_eq(&self, other: &Self) -> (b: bool) {
        *self == *other
    }

    fn key_clone(&self) -> (c: Self) {
        *self
    }
}

/// The last flags seen for each interface. Some systems (e.g. a periodic Wi-Fi
/// scan) send link messages every few minutes with no change reported; only
/// messages that change the flags of an interface count.
pub struct LinkFlags {
    pub flags_per_interface: VecMap<i32, i32>,
}

/// The flags last seen for interface `index` in `m`; none for an interface never seen.
pub open spec fn flags_of(m: Map<i32, i32>, index: i32) -> i32 {
    if m.contains_key(index) {
        m[index]
    } else {
        0
    }
}

impl LinkFlags {
    /// No interface seen yet.
    pub fn new() -> (l: LinkFlags)
        ensures
            l.flags_per_interface.wf(),
            l.flags_per_interface@ == Map::<i32, i32>::empty(),
    {
        LinkFlags { flags_per_interface: VecMap::new() }
    }

    /// Takes the flags of a link message: returns whether they changed, and
    /// keeps them as the last flags seen for the interface.
    pub fn on_link(&mut self, index: i32, new_flags: i32) -> (changed: bool)
        requires
            old(self).flags_per_interface.wf(),
        ensures
            final(self).flags_per_interface.wf(),
            changed == (flags_of(old(self).flags_per_interface@, index) != new_flags),
            changed ==> final(self).flags_per_interface@ == old(self).flags_per_interface@.insert(
                index,
                new_flags,
            ),
            !changed ==> final(self).flags_per_interface@ == old(self).flags_per_interface@,
    {
        let old_flags = match self.flags_per_interface.get(&index) {
            Some(f) => *f,
            None => 0,
        };
        if old_flags != new_flags {
            self.flags_per_interface.insert(index, new_flags);
            true
        } else {
            false
        }
    }
}

/// The length of the message that a parse result describes.
pub open spec fn message_len(r: ParseResult) -> int {
    match r {
        ParseResult::Link { len, .. } => len as int,
        ParseResult::Unknown { len, .. } => len as int,
    }
}

/// `n` rounded up to a multiple of four: messages are aligned to four bytes.
pub open spec fn aligned4(n: int) -> int {
    (n + 3) / 4 * 4
}

/// Where the message after the messages `found` starts.
pub open spec fn offset_after(found: Seq<(ParseResult, bool)>) -> int
    decreases found.len(),
{
    if found.len() == 0 {
        0
    } else {
        offset_after(found.drop_last()) + aligned4(message_len(found.last().0))
    }
}

/// The flags in `m` after taking the link messages of `found`, in order.
pub open spec fn flags_after(m: Map<i32, i32>, found: Seq<(ParseResult, bool)>) -> Map<i32, i32>
    decreases found.len(),
{
    if found.len() == 0 {
        m
    } else {
        let prev = flags_after(m, found.drop_last());
        match found.last().0 {
            ParseResult::Link { index, flags, .. } => if flags_of(prev, index) != flags {
                prev.insert(index, flags)
            } else {
                prev
            },
            _ => prev,
        }
    }
}

/// The `k`-th message of `found` is the message of `b` where the ones before it
/// end, it can be stepped over, and it is listed with whether it changed the
/// flags of its interface, starting from the flags `m`.
pub open spec fn found_at(b: Seq<u8>, m: Map<i32, i32>, found: Seq<(ParseResult, bool)>, k: int) -> bool {
    let o = offset_after(found.take(k));
    &&& o < b.len()
    &&& parses(b.subrange(o, b.len() as int), Ok(found[k].0))
    &&& aligned4(message_len(found[k].0)) > 0
    &&& found[k].1 == match found[k].0 {
        ParseResult::Link { index, flags, .. } => flags_of(flags_after(m, found.take(k)), index)
            != flags,
        _ => false,
    }
}

/// `found` lists the first messages of `b`, in order, each one where the ones
/// before it end, each with whether it changed the flags of its interface,
/// starting from the flags `m`.
pub open spec fn walked(b: Seq<u8>, m: Map<i32, i32>, found: Seq<(ParseResult, bool)>) -> bool {
    forall|k: int| 0 <= k < found.len() ==> #[trigger] found_at(b, m, found, k)
}

/// What walking a received buffer gave.
#[derive(Debug)]
pub struct LinkWalk {
    /// The messages, in order, each with whether it changed the flags of its interface.
    pub messages: Vec<(ParseResult, bool)>,
    /// Why the walk stopped before the end of the buffer, if it did.
    pub error: Option<NetlinkError>,
}

/// A message found where the messages `found` end extends the walk.
proof fn lemma_walked_push(
    b: Seq<u8>,
    m: Map<i32, i32>,
    found: Seq<(ParseResult, bool)>,
    x: (ParseResult, bool),
)
    requires
        walked(b, m, found),
        offset_after(found) < b.len(),
        parses(b.subrange(offset_after(found), b.len() as int), Ok(x.0)),
        aligned4(message_len(x.0)) > 0,
        x.1 == match x.0 {
            ParseResult::Link { index, flags, .. } => flags_of(flags_after(m, found), index) != flags,
            _ => false,
        },
    ensures
        walked(b, m, found.push(x)),
        offset_after(found.push(x)) == offset_after(found) + aligned4(message_len(x.0)),
        flags_after(m, found.push(x)) == match x.0 {
            ParseResult::Link { index, flags, .. } => if flags_of(flags_after(m, found), index)
                != flags {
                flags_after(m, found).insert(index, flags)
            } else {
                flags_after(m, found)
            },
            _ => flags_after(m, found),
        },
{
    let next = found.push(x);
    assert(next.drop_last() =~= found);
    assert(next.take(found.len() as int) =~= found);
    assert forall|k: int| 0 <= k < next.len() implies #[trigger] found_at(b, m, next, k) by {
        if k < found.len() {
            assert(next.take(k) =~= found.take(k));
            assert(next[k] == found[k]);
            assert(found_at(b, m, found, k));
        }
    }
}

impl LinkFlags {
    /// Walks the netlink messages of a received buffer, each aligned to four
    /// bytes, and takes the flags of each link message. The walk ends at the
    /// end of the buffer, or at the first message that cannot be parsed or
    /// stepped over.
    pub fn on_messages(&mut self, buf: &[u8]) -> (w: LinkWalk)
        requires
            old(self).flags_per_interface.wf(),
        ensures
            final(self).flags_per_interface.wf(),
            walked(buf@, old(self).flags_per_interface@, w.messages@),
            final(self).flags_per_interface@ == flags_after(
                old(self).flags_per_interface@,
                w.messages@,
            ),
            ({
                let o = offset_after(w.messages@);
                match w.error {
                    None => o >= buf@.len(),
                    Some(e) => o < buf@.len() && if e == NetlinkError::NoProgress {
                        exists|r: ParseResult|
                            #[trigger] parses(buf@.subrange(o, buf@.len() as int), Ok(r))
                                && message_len(r) == 0
                    } else {
                        parses(buf@.subrange(o, buf@.len() as int), Err(e))
                    },
                }
            }),
    {
        let ghost m0 = self.flags_per_interface@;
        let mut messages: Vec<(ParseResult, bool)> = Vec::new();
        if buf.len() == 0 {
            return LinkWalk { messages, error: None };
        }
        let mut offset: usize = 0;
        loop
            invariant
                m0 == old(self).flags_per_interface@,
                self.flags_per_interface.wf(),
                offset < buf@.len(),
                offset == offset_after(messages@),
                walked(buf@, m0, messages@),
                self.flags_per_interface@ == flags_after(m0, messages@),
            decreases buf@.len() - offset,
        {
            let slice = &buf[offset..buf.len()];
            assert(slice@ == buf@.subrange(offset as int, buf@.len() as int));
            let result = match parse(slice) {
                Ok(r) => r,
                Err(e) => {
                    return LinkWalk { messages, error: Some(e) };
                },
            };
            let len: usize = match &result {
                ParseResult::Link { len, .. } => *len,
                ParseResult::Unknown { len, .. } => *len,
            };
            assert(len <= u32::MAX);
            let step: u64 = ((len as u64) + 3) / 4 * 4;
            if step == 0 {
                assert(message_len(result) == 0);
                return LinkWalk { messages, error: Some(NetlinkError::NoProgress) };
            }
            let ghost before = messages@;
            let changed = match &result {
                ParseResult::Link { index, flags, .. } => self.on_link(*index, *flags),
                ParseResult::Unknown { .. } => false,
            };
            messages.push((result, changed));
            proof {
                lemma_walked_push(buf@, m0, before, (result, changed));
                assert(messages@ == before.push((result, changed)));
            }
            let remaining = (buf.len() - offset) as u64;
            if step >= remaining {
                return LinkWalk { messages, error: None };
            }
            offset = offset + step as usize;
        }
    }
}


/// A netlink message parses as a link message exactly when its header's type
/// is 16, 17 or 18 (`RTM_NEWLINK`, `RTM_DELLINK`, `RTM_GETLINK`): any of the
/// three, with its body there, gives `Link`, with the type read from the
/// header; every other type gives `Unknown`.
pub proof fn lemma_link_types(b: Seq<u8>, r: Result<ParseResult, NetlinkError>)
    requires
        parses(b, r),
    ensures
        r matches Ok(ParseResult::Link { msg_type, .. }) ==> msg_type.0 == 16 || msg_type.0 == 17
            || msg_type.0 == 18,
        r matches Ok(ParseResult::Unknown { msg_type, .. }) ==> msg_type.0 != 16 && msg_type.0
            != 17 && msg_type.0 != 18,
        r matches Err(e) ==> e == NetlinkError::NoHeader || e == NetlinkError::NoLinkInfo,
        b.len() < 16 <==> r == Err::<ParseResult, NetlinkError>(NetlinkError::NoHeader),
        b.len() >= 32 ==> r is Ok,
{
    reveal(parses);
}

} // verus!
