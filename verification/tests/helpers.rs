use ktuctl::config::{
    SessionKey, SessionValue, TutuConfig, TutuEgress, TutuIngress, TutuSession, TutuStats,
    TutuUserInfo, EgressPeerKey, EgressPeerValue, IngressPeerKey, IngressPeerValue, UserInfoValue,
    TUTU_EGRESS_LEN, TUTU_CONFIG_LEN,
};
use ktuctl::helper::{
    copy_comment, format_comment, format_xor_key, ipv4_of, ipv4_string, parse_xor_key, pick_address,
    resolve_hostname, resolve_uid, to_in6, GlobalFlags, IpAddress, XorKeyError,
};
use ktuctl::error::CmdError;
use ktuctl::report::{
    client_set_message, dump_egress_line, dump_server_line, dump_user_info_line, egress_line,
    ingress_line, role_line, server_mode_message, server_updated_message, session_line,
    sessions_heading, stats_lines, user_info_line, user_report,
};
use ktuctl::commands::cmd_client_add;
use ktuctl::text::{decimal_string, parse_u16, parse_u8, IntErrorKind};
use ktuctl::uid_map::{read_uid_line, LineOutcome, UidLine, UidMap};
use ktuctl::wire::{htons, ntohs};

fn flags(numeric: bool) -> GlobalFlags {
    GlobalFlags { numeric, debug: false, ip_family: None }
}

fn comment(s: &str) -> [u8; 22] {
    let mut c = [0u8; 22];
    copy_comment(&mut c, s);
    c
}

#[test]
fn byte_order_round_trip() {
    assert_eq!(htons(0x1234), 0x1234u16.to_be());
    assert_eq!(ntohs(htons(0xabcd)), 0xabcd);
    assert_eq!(htons(ntohs(7)), 7);
}

#[test]
fn uid_table_lines() {
    let mut m = UidMap::new();
    m.apply_line("1 alice # first");
    m.apply_line("# 2 nobody");
    m.apply_line("300 toolarge");
    m.apply_line("4");
    m.apply_line("  5   bob   extra");
    m.apply_line("1 alicia");
    assert_eq!(m.get_host(1).as_deref(), Some("alicia"));
    assert_eq!(m.get_host(5).as_deref(), Some("bob"));
    assert_eq!(m.get_host(2), None);
    assert_eq!(m.get_host(4), None);
    assert_eq!(m.get_uid("bob"), Some(5));
    assert_eq!(m.get_uid("alice"), None);
    assert_eq!(read_uid_line("7 x"), UidLine::Entry(7, "x".to_string()));
    assert_eq!(read_uid_line("x 7"), UidLine::InvalidUid("x".to_string(), IntErrorKind::InvalidDigit));
    assert_eq!(read_uid_line("  # c"), UidLine::Blank);
    assert_eq!(read_uid_line("7"), UidLine::Malformed);
    assert_eq!(m.apply_line("5 robert"), LineOutcome::Replaced(5, "bob".to_string()));
    assert_eq!(m.apply_line("6 eve"), LineOutcome::Added(6, "eve".to_string()));
    assert_eq!(m.apply_line(""), LineOutcome::Skipped(UidLine::Blank));
    m.clear();
    assert_eq!(m.get_host(1), None);
}

#[test]
fn uid_lookup_prefers_smallest_id() {
    let mut m = UidMap::new();
    m.apply_line("9 same");
    m.apply_line("3 same");
    assert_eq!(m.get_uid("same"), Some(3));
}

#[test]
fn users_by_name_or_number() {
    let mut m = UidMap::new();
    m.apply_line("12 alice");
    m.apply_line("13 7");
    assert_eq!(resolve_uid(&m, "alice"), Ok(12));
    assert_eq!(resolve_uid(&m, "7"), Ok(13));
    assert_eq!(resolve_uid(&m, "+42"), Ok(42));
    assert_eq!(resolve_uid(&m, "bob"), Err(CmdError::UnknownUser("bob".to_string())));
}

#[test]
fn users_shown_by_name_or_number() {
    let mut m = UidMap::new();
    m.apply_line("12 alice");
    assert_eq!(resolve_hostname(&m, &flags(false), 12, false), "User: alice");
    assert_eq!(resolve_hostname(&m, &flags(false), 12, true), "user alice");
    assert_eq!(resolve_hostname(&m, &flags(true), 12, false), "UID: 12");
    assert_eq!(resolve_hostname(&m, &flags(false), 200, true), "uid 200");
}

#[test]
fn comments_cut_and_shown() {
    let c = comment("a comment longer than twenty-two bytes");
    assert_eq!(&c[..], b"a comment longer than ");
    assert_eq!(format_comment(&comment("home"), false), ", Comment: home");
    assert_eq!(format_comment(&comment("home"), true), " comment home");
    assert_eq!(format_comment(&[0; 22], false), "");
    let mut raw = [0u8; 22];
    raw[0] = b'a';
    raw[1] = 0xff;
    raw[2] = b'b';
    assert_eq!(format_comment(&raw, false), ", Comment: a\u{fffd}b");
}

#[test]
fn xor_keys() {
    let mut key = [0u8; 4];
    let mut len = 0u8;
    assert_eq!(parse_xor_key("0aFF", &mut key, &mut len), Ok(()));
    assert_eq!(len, 2);
    assert_eq!(&key[..2], &[0x0a, 0xff]);
    assert_eq!(format_xor_key(&key, len), "0aff");
    assert_eq!(parse_xor_key("abc", &mut key, &mut len), Err(XorKeyError::BadLength));
    assert_eq!(parse_xor_key("", &mut key, &mut len), Err(XorKeyError::BadLength));
    assert_eq!(parse_xor_key("0011223344", &mut key, &mut len), Err(XorKeyError::TooLong));
    assert_eq!(parse_xor_key("12zz", &mut key, &mut len), Err(XorKeyError::InvalidHex));
    assert_eq!(key[0], 0x12);
    assert_eq!(len, 2);
}

#[test]
fn addresses_chosen_by_family() {
    let v4 = IpAddress::V4([192, 0, 2, 1]);
    let v6 = IpAddress::V6([0x20, 1, 0xd, 0xb8, 0, 0, 0, 0, 0, 0, 0, 0, 0, 0, 0, 1]);
    let both = vec![v6, v4];
    assert_eq!(pick_address("h", &both, &None), Ok(to_in6(v6)));
    assert_eq!(pick_address("h", &both, &Some("ip4".to_string())), Ok(to_in6(v4)));
    assert_eq!(pick_address("h", &vec![v4], &Some("ip6".to_string())), Err(CmdError::NoSuitableAddress));
    assert_eq!(pick_address("h", &vec![], &None), Err(CmdError::CouldNotResolve("h".to_string())));
    assert_eq!(CmdError::CouldNotResolve("h".to_string()).message(), "could not resolve address: h");
    let mapped = to_in6(v4);
    assert_eq!(mapped, [0, 0, 0, 0, 0, 0, 0, 0, 0, 0, 0xff, 0xff, 192, 0, 2, 1]);
    assert_eq!(ipv4_of(&mapped), Some([192, 0, 2, 1]));
    assert_eq!(ipv4_string(&[192, 0, 2, 1]), "192.0.2.1");
    assert_eq!(ipv4_of(&to_in6(v6)), None);
}

#[test]
fn numbers_parsed_like_std() {
    assert_eq!(parse_u8("255"), Ok(255));
    assert_eq!(parse_u8("256"), Err(IntErrorKind::PosOverflow));
    assert_eq!(parse_u8("-1"), Err(IntErrorKind::InvalidDigit));
    assert_eq!(parse_u8("+"), Err(IntErrorKind::InvalidDigit));
    assert_eq!(parse_u16(""), Err(IntErrorKind::Empty));
    assert_eq!(parse_u16("0065535"), Ok(65535));
    assert_eq!(decimal_string(0), "0");
    assert_eq!(decimal_string(18446744073709551615), "18446744073709551615");
    assert_eq!(parse_u16(&decimal_string(4242)), Ok(4242));
}

#[test]
fn structures_round_trip() {
    let e = TutuEgress {
        key: EgressPeerKey { address: [7; 16], port: 0x1234, _pad0: [0; 2] },
        value: EgressPeerValue { uid: 9, comment: comment("c") },
        _pad0: [0; 5],
        map_flags: 1,
    };
    let b = e.to_bytes();
    assert_eq!(b.len(), TUTU_EGRESS_LEN);
    assert_eq!(&b[16..18], &0x1234u16.to_ne_bytes());
    assert_eq!(&b[48..56], &1u64.to_ne_bytes());
    assert_eq!(TutuEgress::from_bytes(&b), Some(e));
    assert_eq!(TutuEgress::from_bytes(&b[..55]), None);
    let c = TutuConfig { session_max_age: 600, _pad0: 0, is_server: 1, _pad1: [0; 2] };
    let cb = c.to_bytes();
    assert_eq!(cb.len(), TUTU_CONFIG_LEN);
    assert_eq!(&cb[..4], &600u32.to_ne_bytes());
    assert_eq!(TutuConfig::from_bytes(&cb), Some(c));
}

fn sample_user() -> TutuUserInfo {
    TutuUserInfo {
        uid: 3,
        _pad0: [0; 3],
        value: UserInfoValue { address: [0; 16], icmp_id: htons(1000), dport: htons(443), comment: comment("x") },
        _pad1: [0; 2],
        map_flags: 0,
    }
}

#[test]
fn status_lines() {
    let mut m = UidMap::new();
    m.apply_line("3 alice");
    let cfg = TutuConfig { session_max_age: 90, _pad0: 0, is_server: 1, _pad1: [0; 2] };
    assert_eq!(role_line(&cfg), "ktuctl-rs: Role: Server\n");
    assert_eq!(
        user_info_line(&m, &flags(false), &sample_user(), "1.2.3.4"),
        "  User: alice, Address: 1.2.3.4, Dport: 443, ICMP: 1000, Comment: x"
    );
    assert_eq!(sessions_heading(&cfg), "\nSessions (max age: 90):");
    let s = TutuSession {
        key: SessionKey { address: [0; 16], sport: htons(1), dport: htons(2) },
        _pad0: [0; 4],
        value: SessionValue { age: 5, uid: 3, _pad0: 0, client_sport: htons(3), _pad_end: [0; 4] },
        _pad1: [0; 8],
        map_flags: 0,
    };
    assert_eq!(
        session_line(&m, &flags(true), &s, "::1"),
        "  Address: ::1, SPort: 1, DPort: 2 => UID: 3, Age: 5, Client Sport: 3"
    );
    let mut e = TutuEgress {
        key: EgressPeerKey { address: [0; 16], port: htons(7000), _pad0: [0; 2] },
        value: EgressPeerValue { uid: 3, comment: [0; 22] },
        _pad0: [0; 5],
        map_flags: 0,
    };
    assert_eq!(egress_line(&m, &flags(false), &e, "a").as_deref(), Some("  User: alice, Address: a, Port: 7000"));
    assert_eq!(dump_egress_line(&m, &flags(false), &e, "a").as_deref(), Some("client-add user alice addr a port 7000"));
    e.key.port = 0;
    assert_eq!(egress_line(&m, &flags(false), &e, "a"), None);
    assert_eq!(dump_egress_line(&m, &flags(false), &e, "a"), None);
    let i = TutuIngress {
        key: IngressPeerKey { address: [0; 16], uid: 4, _pad0: [0; 3] },
        value: IngressPeerValue { port: htons(9) },
        _pad0: [0; 2],
        map_flags: 0,
    };
    assert_eq!(ingress_line(&m, &flags(false), &i, "b"), "  UID: 4, Address: b => Sport: 9");
    let st = TutuStats { packets_processed: 1, packets_dropped: 2, checksum_errors: 3, fragmented: 4, gso: 5 };
    assert_eq!(
        stats_lines(&st),
        vec!["  processed:   1", "  dropped:     2", "  cksum error: 3", "  fragmented:  4", "  GSO:         5"]
    );
}

#[test]
fn dump_lines() {
    let m = UidMap::new();
    let cfg = TutuConfig { session_max_age: 30, _pad0: 0, is_server: 1, _pad1: [0; 2] };
    assert_eq!(dump_server_line(&cfg), "server max-age 30\n");
    assert_eq!(
        dump_user_info_line(&m, &flags(false), &sample_user(), "1.2.3.4"),
        "server-add uid 3 addr 1.2.3.4 icmp-id 1000 port 443 comment x"
    );
    assert_eq!(server_mode_message(&cfg), "server mode, session max age=30");
}

#[test]
fn peer_messages() {
    let mut m = UidMap::new();
    m.apply_line("3 alice");
    let words: Vec<String> = ["user", "alice", "addr", "h", "port", "80", "comment", "c"].iter().map(|s| s.to_string()).collect();
    let a = cmd_client_add(&m, &words).unwrap();
    assert_eq!(
        client_set_message(&m, &flags(false), &a, "10.0.0.1"),
        "client set: User: alice, address: 10.0.0.1, port: 80, comment: c"
    );
    assert_eq!(
        server_updated_message(&m, &flags(true), &a, "::2"),
        "server updated: UID: 3, address: ::2, dport: 80, comment: c"
    );
    assert_eq!(user_report("client deleted: ", &m, &flags(false), 3), "client deleted: User: alice");
}
