use ktuctl::config::{
    CTRL_ATTR_FAMILY_ID, CTRL_ATTR_FAMILY_NAME, CTRL_CMD_GETFAMILY, GENL_ID_CTRL, NLMSG_DONE,
    NLMSG_ERROR, NLM_F_ACK, NLM_F_DUMP, NLM_F_REQUEST,
};
use ktuctl::netlink::{
    build_packet_genl_msg, check_nlmsg_error, dump_request, family_request, nla_align, nlmsg_align,
    nul_prefix, parse_attrs, parse_genlhdr, parse_nlmsghdr, push_nlattr, scan_reply, string_request,
    struct_request, NetlinkSeq, NlError, ReplyMode, ReplyStatus,
};

fn header(len: u32, ty: u16, flags: u16, seq: u32) -> Vec<u8> {
    let mut v = Vec::new();
    v.extend_from_slice(&len.to_ne_bytes());
    v.extend_from_slice(&ty.to_ne_bytes());
    v.extend_from_slice(&flags.to_ne_bytes());
    v.extend_from_slice(&seq.to_ne_bytes());
    v.extend_from_slice(&0u32.to_ne_bytes());
    v
}

fn error_msg(seq: u32, code: i32) -> Vec<u8> {
    let mut v = header(36, NLMSG_ERROR, 0, seq);
    v.extend_from_slice(&code.to_ne_bytes());
    v.extend_from_slice(&[0u8; 16]);
    v
}

fn data_msg(seq: u32, attrs: &[(u16, Vec<u8>)]) -> Vec<u8> {
    build_packet_genl_msg(0x20, 0, seq, 0, 1, 1, attrs)
}

#[test]
fn alignment() {
    assert_eq!(nlmsg_align(0), 0);
    assert_eq!(nlmsg_align(1), 4);
    assert_eq!(nlmsg_align(20), 20);
    assert_eq!(nla_align(5), 8);
}

#[test]
fn attribute_layout() {
    let mut buf = Vec::new();
    push_nlattr(&mut buf, 7, &[1, 2, 3]);
    assert_eq!(buf.len(), 8);
    assert_eq!(&buf[0..2], &7u16.to_ne_bytes());
    assert_eq!(&buf[2..4], &7u16.to_ne_bytes());
    assert_eq!(&buf[4..8], &[1, 2, 3, 0]);
}

#[test]
fn message_layout_and_parse_back() {
    let msg = build_packet_genl_msg(0x1c, NLM_F_REQUEST | NLM_F_ACK, 5, 9, 7, 1, &[(3, vec![0xaa; 5]), (4, vec![])]);
    assert_eq!(msg.len(), 16 + 4 + 12 + 4);
    let h = parse_nlmsghdr(&msg, 0).unwrap();
    assert_eq!(h.nlmsg_len, 36);
    assert_eq!(h.nlmsg_type, 0x1c);
    assert_eq!(h.nlmsg_flags, NLM_F_REQUEST | NLM_F_ACK);
    assert_eq!(h.nlmsg_seq, 5);
    assert_eq!(h.nlmsg_pid, 9);
    let g = parse_genlhdr(&msg, 16).unwrap();
    assert_eq!(g.cmd, 7);
    assert_eq!(g.version, 1);
    let attrs = parse_attrs(&msg[20..]);
    assert_eq!(attrs, vec![(3, vec![0xaa; 5]), (4, vec![])]);
    assert!(parse_nlmsghdr(&msg, 30).is_none());
}

#[test]
fn attributes_stop_at_bad_length() {
    let mut data = Vec::new();
    push_nlattr(&mut data, 1, &[9, 9]);
    data.extend_from_slice(&[2, 0, 5, 0]);
    assert_eq!(parse_attrs(&data), vec![(1, vec![9, 9])]);
}

#[test]
fn error_payloads() {
    let ok = error_msg(1, 0);
    assert_eq!(check_nlmsg_error(&ok[16..]), Ok(()));
    let bad = error_msg(1, -17);
    assert_eq!(check_nlmsg_error(&bad[16..]), Err(NlError::Errno(17)));
    assert_eq!(check_nlmsg_error(&bad[16..30]), Err(NlError::ShortErrorPayload));
    assert_eq!(NlError::Errno(17).message(), "netlink error");
}

#[test]
fn requests() {
    let m = family_request(1, 0, "tutuicmptunnel");
    assert_eq!(parse_nlmsghdr(&m, 0).unwrap().nlmsg_type, GENL_ID_CTRL);
    assert_eq!(parse_genlhdr(&m, 16).unwrap().cmd, CTRL_CMD_GETFAMILY);
    assert_eq!(parse_attrs(&m[20..]), vec![(CTRL_ATTR_FAMILY_NAME, b"tutuicmptunnel\0".to_vec())]);
    let s = string_request(0x20, 2, 0, 18, 7, "eth0", true);
    assert_eq!(parse_attrs(&s[20..]), vec![(7, b"eth0\0".to_vec())]);
    assert_eq!(parse_nlmsghdr(&s, 0).unwrap().nlmsg_flags, NLM_F_REQUEST | NLM_F_ACK);
    let t = struct_request(0x20, 3, 0, 2, 1, &[1, 2, 3, 4], false);
    assert_eq!(parse_nlmsghdr(&t, 0).unwrap().nlmsg_flags, NLM_F_REQUEST);
    assert_eq!(parse_attrs(&t[20..]), vec![(1, vec![1, 2, 3, 4])]);
    let d = dump_request(0x20, 4, 0, 5);
    assert_eq!(d.len(), 20);
    assert_eq!(parse_nlmsghdr(&d, 0).unwrap().nlmsg_flags, NLM_F_REQUEST | NLM_F_DUMP);
}

#[test]
fn sequence_numbers() {
    let mut s = NetlinkSeq::new();
    assert_eq!(s.next_seq(), 1);
    assert_eq!(s.next_seq(), 2);
    s.seq = u32::MAX;
    assert_eq!(s.next_seq(), u32::MAX);
    assert_eq!(s.seq, 0);
}

#[test]
fn scan_ack_and_errors() {
    let r = scan_reply(&error_msg(3, 0), 3, ReplyMode::Ack);
    assert_eq!(r.status, ReplyStatus::Finished);
    let r = scan_reply(&error_msg(3, -1), 3, ReplyMode::Ack);
    assert_eq!(r.status, ReplyStatus::Failed(NlError::Errno(1)));
    let r = scan_reply(&error_msg(2, -1), 3, ReplyMode::Ack);
    assert_eq!(r.status, ReplyStatus::NeedMore);
    let mut short = header(8, NLMSG_DONE, 0, 3);
    short.truncate(16);
    assert_eq!(scan_reply(&short, 3, ReplyMode::Ack).status, ReplyStatus::Failed(NlError::InvalidLength));
    let long = header(40, NLMSG_DONE, 0, 3);
    assert_eq!(scan_reply(&long, 3, ReplyMode::Ack).status, ReplyStatus::Failed(NlError::Truncated));
}

#[test]
fn scan_family_id() {
    let mut rx = data_msg(1, &[(CTRL_ATTR_FAMILY_NAME, b"x\0".to_vec()), (CTRL_ATTR_FAMILY_ID, 0x1eu16.to_ne_bytes().to_vec())]);
    assert_eq!(scan_reply(&rx, 1, ReplyMode::FamilyId).status, ReplyStatus::FamilyId(0x1e));
    rx = header(16, NLMSG_DONE, 0, 1);
    assert_eq!(scan_reply(&rx, 1, ReplyMode::FamilyId).status, ReplyStatus::Failed(NlError::FamilyNotFound));
}

#[test]
fn scan_single_and_dump() {
    let rx = data_msg(4, &[(2, vec![1, 2, 3, 4, 5, 6, 7, 8])]);
    let r = scan_reply(&rx, 4, ReplyMode::Single { attr_type: 2, size: 8 });
    assert_eq!(r.status, ReplyStatus::Found);
    assert_eq!(r.items, vec![vec![1, 2, 3, 4, 5, 6, 7, 8]]);
    let r = scan_reply(&rx, 4, ReplyMode::Single { attr_type: 2, size: 9 });
    assert_eq!(r.status, ReplyStatus::Failed(NlError::TooSmall));
    let mut two = data_msg(5, &[(3, vec![1; 4]), (3, vec![2; 2])]);
    two.extend(data_msg(5, &[(3, vec![3; 4])]));
    two.extend(header(20, NLMSG_DONE, 0, 5));
    two.extend_from_slice(&[0; 4]);
    let r = scan_reply(&two, 5, ReplyMode::Dump { attr_type: 3, size: 4 });
    assert_eq!(r.items, vec![vec![1; 4], vec![3; 4]]);
    assert_eq!(r.status, ReplyStatus::Finished);
    let strs = data_msg(6, &[(7, b"eth0\0junk".to_vec()), (7, b"lo".to_vec())]);
    let r = scan_reply(&strs, 6, ReplyMode::DumpStrings { attr_type: 7 });
    assert_eq!(r.items, vec![b"eth0".to_vec(), b"lo".to_vec()]);
    assert_eq!(r.status, ReplyStatus::NeedMore);
    assert_eq!(nul_prefix(b"ab\0cd"), b"ab".to_vec());
}
