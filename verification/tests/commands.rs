use ktuctl::cli::{flags_of, select_command, Cli, Commands};
use ktuctl::commands::{
    client_add_entries, cmd_client, cmd_client_add, cmd_client_del, cmd_server, cmd_server_add,
    cmd_server_del, egress_to_delete, iface_names, ingress_delete_request, require_client_mode,
    require_server_mode, user_info_entry,
};
use ktuctl::config::{
    EgressPeerKey, EgressPeerValue, TutuConfig, TutuEgress, TutuUserInfo, UserInfoValue, TUTU_ANY,
    TUTU_NOEXIST,
};
use ktuctl::helper::{copy_comment, format_xor_key, parse_xor_key};
use ktuctl::report::{dump_egress_line, dump_user_info_line};
use ktuctl::error::{CmdError, CmdOption};
use ktuctl::helper::GlobalFlags;
use ktuctl::script::{command_named, invocation, script_command, script_line_commands, Command, ScriptError};
use ktuctl::text::IntErrorKind;
use ktuctl::uid_map::UidMap;
use ktuctl::wire::htons;

fn words(ws: &[&str]) -> Vec<String> {
    ws.iter().map(|s| s.to_string()).collect()
}

fn map_with(lines: &[&str]) -> UidMap {
    let mut m = UidMap::new();
    for l in lines {
        m.apply_line(l);
    }
    m
}

fn addr(last: u8) -> [u8; 16] {
    [0, 0, 0, 0, 0, 0, 0, 0, 0, 0, 0xff, 0xff, 10, 0, 0, last]
}

#[test]
fn server_mode_default_age() {
    let c = cmd_server(&[]).unwrap();
    assert_eq!(c.session_max_age, 60);
    assert_eq!(c.is_server, 1);
    assert_eq!(c._pad0, 0);
    assert_eq!(c._pad1, [0, 0]);
}

#[test]
fn server_mode_max_age_given() {
    let c = cmd_server(&words(&["max-age", "120"])).unwrap();
    assert_eq!(c.session_max_age, 120);
    let c = cmd_server(&words(&["max-age", "5", "max-age", "7"])).unwrap();
    assert_eq!(c.session_max_age, 7);
}

#[test]
fn server_mode_trailing_keyword_ignored() {
    let c = cmd_server(&words(&["max-age"])).unwrap();
    assert_eq!(c.session_max_age, 60);
}

#[test]
fn server_mode_bad_age() {
    assert_eq!(
        cmd_server(&words(&["max-age", "x1"])).unwrap_err(),
        CmdError::InvalidNumber(IntErrorKind::InvalidDigit)
    );
    assert_eq!(
        cmd_server(&words(&["max-age", "4294967296"])).unwrap_err(),
        CmdError::InvalidNumber(IntErrorKind::PosOverflow)
    );
    assert_eq!(
        cmd_server(&words(&["max-age", ""])).unwrap_err(),
        CmdError::InvalidNumber(IntErrorKind::Empty)
    );
}

#[test]
fn client_mode_config() {
    let c = cmd_client(&words(&["ignored"]));
    assert_eq!(c, TutuConfig { session_max_age: 0, _pad0: 0, is_server: 0, _pad1: [0; 2] });
}

#[test]
fn client_add_reads_all_values() {
    let m = map_with(&["3 alice"]);
    let a = cmd_client_add(&m, &words(&["user", "alice", "addr", "10.0.0.1", "port", "3455", "comment", "home"]))
        .unwrap();
    assert_eq!(a.uid, 3);
    assert!(a.uid_set);
    assert_eq!(a.address, "10.0.0.1");
    assert_eq!(a.port, 3455);
    assert_eq!(a.comment, "home");
    assert_eq!(a.echo_id, 0);
}

#[test]
fn client_add_skips_unknown_words() {
    let m = UidMap::new();
    let a = cmd_client_add(&m, &words(&["junk", "uid", "9", "address", "h", "port", "1", "icmp-id", "5"]))
        .unwrap();
    assert_eq!(a.uid, 9);
    assert_eq!(a.address, "h");
    assert_eq!(a.port, 1);
    assert_eq!(a.echo_id, 0);
}

#[test]
fn client_add_missing_value() {
    let m = UidMap::new();
    assert_eq!(
        cmd_client_add(&m, &words(&["uid", "1", "port"])).unwrap_err(),
        CmdError::MissingValue(CmdOption::Port)
    );
    assert_eq!(cmd_client_add(&m, &words(&["comment"])).unwrap_err().message(), "missing value for comment");
}

#[test]
fn client_add_incomplete() {
    let m = UidMap::new();
    assert_eq!(
        cmd_client_add(&m, &words(&["uid", "1", "addr", "x"])).unwrap_err(),
        CmdError::ClientAddIncomplete
    );
    assert_eq!(
        cmd_client_add(&m, &words(&["uid", "1", "addr", "x", "port", "0"])).unwrap_err(),
        CmdError::ClientAddIncomplete
    );
    assert_eq!(
        cmd_client_add(&m, &words(&["addr", "x", "port", "2"])).unwrap_err().message(),
        "UID, address, and port must be specified"
    );
}

#[test]
fn client_add_unknown_user() {
    let m = map_with(&["3 alice"]);
    let e = cmd_client_add(&m, &words(&["user", "bob", "addr", "x", "port", "2"])).unwrap_err();
    assert_eq!(e, CmdError::UnknownUser("bob".to_string()));
    assert_eq!(e.message(), "unknown user or invalid uid format: bob");
    assert_eq!(
        cmd_client_add(&m, &words(&["uid", "256", "addr", "x", "port", "2"])).unwrap_err(),
        CmdError::UnknownUser("256".to_string())
    );
}

#[test]
fn client_add_bad_port() {
    let m = UidMap::new();
    let e = cmd_client_add(&m, &words(&["uid", "1", "addr", "x", "port", "70000"])).unwrap_err();
    assert_eq!(e, CmdError::InvalidNumber(IntErrorKind::PosOverflow));
    assert_eq!(e.message(), "number too large to fit in target type");
}

#[test]
fn client_add_builds_entries() {
    let m = UidMap::new();
    let a = cmd_client_add(&m, &words(&["uid", "4", "addr", "h", "port", "4660", "comment", "x"])).unwrap();
    let (ingress, egress) = client_add_entries(&a, addr(1));
    assert_eq!(ingress.key.address, addr(1));
    assert_eq!(ingress.key.uid, 4);
    assert_eq!(ingress.value.port, 4660u16.to_be());
    assert_eq!(ingress.map_flags, TUTU_NOEXIST);
    assert_eq!(egress.key.port, 4660u16.to_be());
    assert_eq!(egress.value.uid, 4);
    assert_eq!(egress.value.comment[0], b'x');
    assert_eq!(egress.value.comment[1], 0);
    assert_eq!(egress.map_flags, TUTU_ANY);
}

#[test]
fn client_del_reads_user_and_address() {
    let m = map_with(&["2 bob"]);
    let a = cmd_client_del(&m, &words(&["user", "bob", "addr", "h", "port", "x"])).unwrap();
    assert_eq!(a.uid, 2);
    assert_eq!(a.address, "h");
    assert_eq!(a.port, 0);
    assert_eq!(cmd_client_del(&m, &words(&["user", "bob"])).unwrap_err(), CmdError::ClientDelIncomplete);
}

#[test]
fn client_del_picks_last_matching_entry() {
    let mk = |uid: u8, last: u8, port: u16| TutuEgress {
        key: EgressPeerKey { address: addr(last), port, _pad0: [0; 2] },
        value: EgressPeerValue { uid, comment: [0; 22] },
        _pad0: [0; 5],
        map_flags: 0,
    };
    let entries = vec![mk(1, 1, 10), mk(2, 1, 20), mk(1, 1, 30), mk(1, 2, 40)];
    assert_eq!(egress_to_delete(&entries, 1, &addr(1)).unwrap().key.port, 30);
    assert!(egress_to_delete(&entries, 3, &addr(1)).is_none());
    let r = ingress_delete_request(7, addr(3));
    assert_eq!(r.key.uid, 7);
    assert_eq!(r.value.port, 0);
    assert_eq!(r.map_flags, 0);
}

#[test]
fn server_add_reads_echo_id() {
    let m = UidMap::new();
    let a = cmd_server_add(&m, &words(&["uid", "5", "addr", "h", "port", "22", "icmp-id", "777"])).unwrap();
    assert_eq!(a.echo_id, 777);
    let u = user_info_entry(&a, addr(9));
    assert_eq!(u.uid, 5);
    assert_eq!(u.value.icmp_id, htons(777));
    assert_eq!(u.value.dport, htons(22));
    assert_eq!(u.map_flags, TUTU_ANY);
    assert_eq!(
        cmd_server_add(&m, &words(&["uid", "5", "addr", "h"])).unwrap_err().message(),
        "uid, address and port must be specified"
    );
}

#[test]
fn server_del_builds_request() {
    let m = map_with(&["8 carol"]);
    let r = cmd_server_del(&m, &words(&["user", "carol"])).unwrap();
    assert_eq!(r.uid, 8);
    assert_eq!(r.value.address, [0; 16]);
    assert_eq!(r.map_flags, 0);
    assert_eq!(cmd_server_del(&m, &words(&["addr", "x"])).unwrap_err(), CmdError::ServerDelIncomplete);
    assert_eq!(cmd_server_del(&m, &words(&["uid"])).unwrap_err(), CmdError::MissingValue(CmdOption::Uid));
}

#[test]
fn mode_checks() {
    let server = TutuConfig { session_max_age: 1, _pad0: 0, is_server: 1, _pad1: [0; 2] };
    let client = TutuConfig { session_max_age: 0, _pad0: 0, is_server: 0, _pad1: [0; 2] };
    assert_eq!(require_client_mode(&server), Err(CmdError::NotClientMode));
    assert_eq!(require_client_mode(&client), Ok(()));
    assert_eq!(require_server_mode(&client), Err(CmdError::NotServerMode));
    assert_eq!(require_server_mode(&server), Ok(()));
    assert_eq!(CmdError::NotServerMode.message(), "must be in server mode");
}

#[test]
fn load_interface_names() {
    let names = iface_names(&words(&["iface", "eth0", "x", "iface", "wlan0", "iface"]));
    assert_eq!(names, words(&["eth0", "wlan0"]));
}

#[test]
fn script_lines_are_split() {
    assert_eq!(script_line_commands("  client-add uid 1 ; status ;; "), words(&["client-add uid 1", "status", "", ""]));
    assert!(script_line_commands("   # a comment").is_empty());
    assert!(script_line_commands("   ").is_empty());
}

#[test]
fn script_commands_use_shell_words() {
    let (c, name, args) = script_command("client-add comment 'two words' uid 1").unwrap().unwrap();
    assert_eq!(name, "client-add");
    assert_eq!(c, Command::ClientAdd);
    assert_eq!(args, words(&["comment", "two words", "uid", "1"]));
    assert_eq!(script_command("status 'open").unwrap_err(), ScriptError::Parse);
    assert!(script_command("").unwrap().is_none());
    let (c, _, _) = script_command("script x").unwrap().unwrap();
    assert_eq!(c, Command::Unknown);
}

#[test]
fn command_names() {
    assert_eq!(command_named("server-del", false), Command::ServerDel);
    assert_eq!(command_named("tui", true), Command::Tui);
    assert_eq!(command_named("tui", false), Command::Unknown);
    assert_eq!(command_named("reaper", false), Command::Reaper);
    let (c, rest) = invocation(&[]);
    assert_eq!(c, Command::Status);
    assert!(rest.is_empty());
    let (c, rest) = invocation(&words(&["script", "-"]));
    assert_eq!(c, Command::Script);
    assert_eq!(rest, words(&["-"]));
}

#[test]
fn command_line_selection() {
    let cli = Cli {
        numeric: true,
        debug: false,
        ipv4: true,
        ipv6: true,
        command: Some(Commands::Reaper { args: words(&["f"]) }),
        args: vec![],
    };
    let (c, args) = select_command(&cli);
    assert_eq!(c, Command::Script);
    assert_eq!(args, words(&["f"]));
    let f: GlobalFlags = flags_of(&cli);
    assert!(f.numeric);
    assert_eq!(f.ip_family.as_deref(), Some("ip6"));
    let cli = Cli { numeric: false, debug: true, ipv4: true, ipv6: false, command: None, args: words(&["dump"]) };
    assert_eq!(select_command(&cli).0, Command::Dump);
    assert_eq!(flags_of(&cli).ip_family.as_deref(), Some("ip4"));
}

#[test]
fn dumped_peer_reads_back() {
    let m = map_with(&["3 alice", "4 bob"]);
    let mut comment = [0u8; 22];
    copy_comment(&mut comment, "home");
    let e = TutuEgress {
        key: EgressPeerKey { address: addr(1), port: htons(5000), _pad0: [0; 2] },
        value: EgressPeerValue { uid: 3, comment },
        _pad0: [0; 5],
        map_flags: 0,
    };
    for numeric in [false, true] {
        let flags = GlobalFlags { numeric, debug: false, ip_family: None };
        let line = dump_egress_line(&m, &flags, &e, "10.0.0.1").unwrap();
        let ws: Vec<String> = line.split_whitespace().map(|s| s.to_string()).collect();
        assert_eq!(ws[0], "client-add");
        let a = cmd_client_add(&m, &ws[1..]).unwrap();
        assert_eq!((a.uid, a.address.as_str(), a.port, a.comment.as_str()), (3, "10.0.0.1", 5000, "home"));
    }
    let u = TutuUserInfo {
        uid: 4,
        _pad0: [0; 3],
        value: UserInfoValue { address: addr(2), icmp_id: htons(99), dport: htons(22), comment: [0; 22] },
        _pad1: [0; 2],
        map_flags: 0,
    };
    let flags = GlobalFlags { numeric: false, debug: false, ip_family: None };
    let line = dump_user_info_line(&m, &flags, &u, "10.0.0.2");
    let ws: Vec<String> = line.split_whitespace().map(|s| s.to_string()).collect();
    assert_eq!(ws[0], "server-add");
    let a = cmd_server_add(&m, &ws[1..]).unwrap();
    assert_eq!((a.uid, a.address.as_str(), a.echo_id, a.port, a.comment.as_str()), (4, "10.0.0.2", 99, 22, ""));
}

#[test]
fn xor_key_text_reads_back() {
    let key = [0x00u8, 0x7f, 0x80, 0xff, 0x12];
    let text = format_xor_key(&key, 5);
    assert_eq!(text, "007f80ff12");
    let mut back = [0u8; 8];
    let mut len = 0u8;
    parse_xor_key(&text, &mut back, &mut len).unwrap();
    assert_eq!(len, 5);
    assert_eq!(&back[..5], &key);
}
