use adbmdns::netlink::{
    message_type_to_string, parse, LinkFlags, MsgType, NetlinkError, ParseResult, RTM_NEWLINK,
};

fn link_message(len: u32, msg_type: u16, index: i32, flags: u32) -> Vec<u8> {
    let mut b = Vec::new();
    b.extend_from_slice(&len.to_ne_bytes());
    b.extend_from_slice(&msg_type.to_ne_bytes());
    b.extend_from_slice(&0u16.to_ne_bytes());
    b.extend_from_slice(&7u32.to_ne_bytes());
    b.extend_from_slice(&0u32.to_ne_bytes());
    // ifinfomsg
    b.push(0);
    b.push(0);
    b.extend_from_slice(&1u16.to_ne_bytes());
    b.extend_from_slice(&index.to_ne_bytes());
    b.extend_from_slice(&flags.to_ne_bytes());
    b.extend_from_slice(&0u32.to_ne_bytes());
    b
}

#[test]
fn parses_a_link_message() {
    // IFF_UP | IFF_RUNNING
    let b = link_message(1076, RTM_NEWLINK, 3, 0x41);
    match parse(&b) {
        Ok(ParseResult::Link { len, msg_type, index, flags }) => {
            assert_eq!(len, 1076);
            assert_eq!(msg_type.0, RTM_NEWLINK);
            assert_eq!(index, 3);
            assert_eq!(flags, 0x41);
        }
        _ => panic!("expected a link message"),
    }
}

#[test]
fn parses_other_messages_as_unknown() {
    let b = link_message(40, 20, 3, 0);
    match parse(&b[..16]) {
        Ok(ParseResult::Unknown { len, msg_type }) => {
            assert_eq!(len, 40);
            assert_eq!(msg_type.0, 20);
        }
        _ => panic!("expected an unknown message"),
    }
}

#[test]
fn short_buffers_are_errors() {
    let b = link_message(32, RTM_NEWLINK, 1, 1);
    assert!(matches!(parse(&b[..15]), Err(NetlinkError::NoHeader)));
    assert!(matches!(parse(&b[..20]), Err(NetlinkError::NoLinkInfo)));
}

#[test]
fn link_flags_count_changes_only() {
    let mut l = LinkFlags::new();
    assert!(l.on_link(2, 0x41));
    assert!(!l.on_link(2, 0x41));
    assert!(l.on_link(2, 0x1));
    assert!(l.on_link(5, 0x1));
    // An interface never seen has no flags.
    assert!(!l.on_link(9, 0));
}

#[test]
fn msg_type_wraps() {
    assert_eq!(MsgType::new(17).0, 17);
}

#[test]
fn unknown_interface_flags_are_dropped() {
    let b = link_message(32, RTM_NEWLINK, 3, 0x4000_0041);
    match parse(&b) {
        Ok(ParseResult::Link { flags, .. }) => assert_eq!(flags, 0x41),
        _ => panic!("expected a link message"),
    }
}

#[test]
fn message_type_names() {
    assert_eq!(message_type_to_string(16), "RTM_NEWLINK");
    assert_eq!(message_type_to_string(90), "RTM_GETNSID");
    assert_eq!(message_type_to_string(23), "Unknown-23");
    assert_eq!(message_type_to_string(65535), "Unknown-65535");
    assert_eq!(MsgType::new(17).to_string(), "RTM_DELLINK");
    assert_eq!(MsgType::new(0).to_string(), "Unknown-0");
}

#[test]
fn walk_takes_each_aligned_message() {
    let mut buf = link_message(34, RTM_NEWLINK, 2, 0x1);
    // Padding up to the next multiple of four.
    buf.extend_from_slice(&[0, 0, 0, 0]);
    buf.extend_from_slice(&link_message(32, RTM_NEWLINK, 2, 0x1));
    buf.extend_from_slice(&link_message(32, RTM_NEWLINK, 4, 0x41));
    let mut l = LinkFlags::new();
    let walk = l.on_messages(&buf);
    assert!(walk.error.is_none());
    let changed: Vec<bool> = walk.messages.iter().map(|(_, c)| *c).collect();
    assert_eq!(changed, vec![true, false, true]);
    // The same flags again change nothing.
    let again = l.on_messages(&buf[36..68]);
    assert_eq!(again.messages.len(), 1);
    assert!(!again.messages[0].1);
}

#[test]
fn walk_stops_at_a_broken_message() {
    let mut buf = link_message(32, RTM_NEWLINK, 2, 0x1);
    buf.extend_from_slice(&[1, 2, 3]);
    let mut l = LinkFlags::new();
    let walk = l.on_messages(&buf);
    assert_eq!(walk.messages.len(), 1);
    assert!(walk.messages[0].1);
    assert_eq!(walk.error, Some(NetlinkError::NoHeader));

    let zero = link_message(0, RTM_NEWLINK, 2, 0x1);
    let walk = l.on_messages(&zero);
    assert!(walk.messages.is_empty());
    assert_eq!(walk.error, Some(NetlinkError::NoProgress));

    let empty = l.on_messages(&[]);
    assert!(empty.messages.is_empty() && empty.error.is_none());
}

#[test]
fn walk_ends_when_a_message_reaches_past_the_buffer() {
    // The header announces more bytes than were received.
    let buf = link_message(1076, RTM_NEWLINK, 7, 0x1);
    let mut l = LinkFlags::new();
    let walk = l.on_messages(&buf);
    assert_eq!(walk.messages.len(), 1);
    assert!(walk.error.is_none());
}
