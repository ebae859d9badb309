//! Routing socket messages (macOS): the text of message types and interface
//! flags, for the log of the network watcher.
use crate::text::{decimal, decimal_text};
use vstd::prelude::*;

verus! {

/// The name of a routing message type (`<net/route.h>`), if it is one.
pub open spec fn route_message_name(t: u8) -> Option<Seq<char>> {
    match t {
        1 => Some("RTM_ADD"@),
        2 => Some("RTM_DELETE"@),
        3 => Some("RTM_CHANGE"@),
        4 => Some("RTM_GET"@),
        5 => Some("RTM_LOSING"@),
        6 => Some("RTM_REDIRECT"@),
        7 => Some("RTM_MISS"@),
        8 => Some("RTM_LOCK"@),
        9 => Some("RTM_OLDADD"@),
        10 => Some("RTM_OLDDEL"@),
        11 => Some("RTM_RESOLVE"@),
        12 => Some("RTM_NEWADDR"@),
        13 => Some("RTM_DELADDR"@),
        14 => Some("RTM_IFINFO"@),
        15 => Some("RTM_NEWMADDR"@),
        16 => Some("RTM_DELMADDR"@),
        18 => Some("RTM_IFINFO2"@),
        19 => Some("RTM_NEWMADDR2"@),
        20 => Some("RTM_GET2"@),
        _ => None,
    }
}

/// The text of a routing message type: its name, or `Unknown RTM type (n)`.
pub open spec fn route_message_text(t: u8) -> Seq<char> {
    match route_message_name(t) {
        Some(name) => name,
        None => "Unknown RTM type ("@ + decimal_text(t as nat) + ")"@,
    }
}

/// Converts a routing message type to its text.
pub fn message_type_to_string(msg_type: u8) -> (s: String)
    ensures
        s@ == route_message_text(msg_type),
{
    match msg_type {
        1 => "RTM_ADD".to_owned(),
        2 => "RTM_DELETE".to_owned(),
        3 => "RTM_CHANGE".to_owned(),
        4 => "RTM_GET".to_owned(),
        5 => "RTM_LOSING".to_owned(),
        6 => "RTM_REDIRECT".to_owned(),
        7 => "RTM_MISS".to_owned(),
        8 => "RTM_LOCK".to_owned(),
        9 => "RTM_OLDADD".to_owned(),
        10 => "RTM_OLDDEL".to_owned(),
        11 => "RTM_RESOLVE".to_owned(),
        12 => "RTM_NEWADDR".to_owned(),
        13 => "RTM_DELADDR".to_owned(),
        14 => "RTM_IFINFO".to_owned(),
        15 => "RTM_NEWMADDR".to_owned(),
        16 => "RTM_DELMADDR".to_owned(),
        18 => "RTM_IFINFO2".to_owned(),
        19 => "RTM_NEWMADDR2".to_owned(),
        20 => "RTM_GET2".to_owned(),
        other => {
            let mut s = "Unknown RTM type (".to_owned();
            s.append(decimal(other as u64).as_str());
            s.append(")");
            s
        },
    }
}

/// `IFF_UP`.
pub const IFF_UP: i32 = 0x1;

/// `IFF_BROADCAST`.
pub const IFF_BROADCAST: i32 = 0x2;

/// `IFF_DEBUG`.
pub const IFF_DEBUG: i32 = 0x4;

/// `IFF_LOOPBACK`.
pub const IFF_LOOPBACK: i32 = 0x8;

/// `IFF_POINTOPOINT`.
pub const IFF_POINTOPOINT: i32 = 0x10;

/// `IFF_NOTRAILERS`.
pub const IFF_NOTRAILERS: i32 = 0x20;

/// `IFF_RUNNING`.
pub const IFF_RUNNING: i32 = 0x40;

/// `IFF_NOARP`.
pub const IFF_NOARP: i32 = 0x80;

/// `IFF_PROMISC`.
pub const IFF_PROMISC: i32 = 0x100;

/// `IFF_MULTICAST`.
pub const IFF_MULTICAST: i32 = 0x8000;

/// `w` where `set` holds, else nothing.
pub open spec fn flag_word(set: bool, w: Seq<char>) -> Seq<char> {
    if set {
        w
    } else {
        Seq::empty()
    }
}

/// The text of interface flags (`<net/if.h>`): the name of each flag set,
/// each followed by a space, in the order of the flags.
pub open spec fn if_flag_text(flags: i32) -> Seq<char> {
    flag_word(flags & IFF_UP != 0, "UP "@)
        + flag_word(flags & IFF_BROADCAST != 0, "BROADCAST "@)
        + flag_word(flags & IFF_DEBUG != 0, "DEBUG "@)
        + flag_word(flags & IFF_LOOPBACK != 0, "LOOPBACK "@)
        + flag_word(flags & IFF_POINTOPOINT != 0, "POINTOPOINT "@)
        + flag_word(flags & IFF_NOTRAILERS != 0, "NOTRAILERS "@)
        + flag_word(flags & IFF_RUNNING != 0, "RUNNING "@)
        + flag_word(flags & IFF_NOARP != 0, "NOARP "@)
        + flag_word(flags & IFF_PROMISC != 0, "PROMISC "@)
        + flag_word(flags & IFF_MULTICAST != 0, "MULTICAST "@)
}

/// Interface flags.
#[derive(Debug, Clone, Copy)]
pub struct IfFlag(pub i32);

impl IfFlag {
    /// The names of the flags set, each followed by a space.
    pub fn to_string(&self) -> (s: String)
        ensures
            s@ == if_flag_text(self.0),
    {
        let flags = self.0;
        let mut s = String::new();
        if flags & IFF_UP != 0 {
            s.append("UP ");
        }
        if flags & IFF_BROADCAST != 0 {
            s.append("BROADCAST ");
        }
        if flags & IFF_DEBUG != 0 {
            s.append("DEBUG ");
        }
        if flags & IFF_LOOPBACK != 0 {
            s.append("LOOPBACK ");
        }
        if flags & IFF_POINTOPOINT != 0 {
            s.append("POINTOPOINT ");
        }
        if flags & IFF_NOTRAILERS != 0 {
            s.append("NOTRAILERS ");
        }
        if flags & IFF_RUNNING != 0 {
            s.append("RUNNING ");
        }
        if flags & IFF_NOARP != 0 {
            s.append("NOARP ");
        }
        if flags & IFF_PROMISC != 0 {
            s.append("PROMISC ");
        }
        if flags & IFF_MULTICAST != 0 {
            s.append("MULTICAST ");
        }
        s
    }
}

} // verus!
