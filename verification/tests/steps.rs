use ktuctl::client::{decrypt_and_validate_packet_at, reply_failure_code};
use ktuctl::commands::{
    after_ingress, client_add_requests, client_del_deleted, client_del_requests, server_add_request,
};
use ktuctl::config::{EgressPeerKey, EgressPeerValue, TutuConfig, TutuEgress, TUTU_ANY, TUTU_NOEXIST};
use ktuctl::error::{CmdError, CmdOption};
use ktuctl::helper::{comment_from_text, copy_comment, format_comment, ip_to_string};
use ktuctl::netlink::{string_item, NlError};
use ktuctl::report::{empty_peers_line, status_tables, table_heading, StatusTable};
use ktuctl::script::{script_failure_message, script_step, Command, ScriptError, ScriptStep};
use ktuctl::server::{accept_request, seal_response};
use ktuctl::tunnel::{
    decrypt_packet, encrypt_packet, padded_command, remove_padding, ReplayWindow, TunnelError,
};
use ktuctl::wire::{htons, ntohs, push_u64_be, read_u64_be};
use ktuctl::uid_map::UidMap;

fn words(ws: &[&str]) -> Vec<String> {
    ws.iter().map(|s| s.to_string()).collect()
}

fn addr(last: u8) -> [u8; 16] {
    [0, 0, 0, 0, 0, 0, 0, 0, 0, 0, 0xff, 0xff, 192, 168, 1, last]
}

fn config(is_server: u8) -> TutuConfig {
    TutuConfig { session_max_age: 45, _pad0: 0, is_server, _pad1: [0; 2] }
}

fn egress(uid: u8, last: u8, port: u16) -> TutuEgress {
    TutuEgress {
        key: EgressPeerKey { address: addr(last), port, _pad0: [0; 2] },
        value: EgressPeerValue { uid, comment: [0; 22] },
        _pad0: [0; 5],
        map_flags: 0,
    }
}

#[test]
fn client_add_requests_in_order() {
    let m = UidMap::new();
    let args = words(&["uid", "3", "addr", "peer", "port", "8080", "comment", "home"]);
    // A refused argument comes before the mode check.
    assert_eq!(
        client_add_requests(&m, &words(&["uid", "3", "port"]), &config(1), Ok(addr(7))).unwrap_err(),
        CmdError::MissingValue(CmdOption::Port)
    );
    assert_eq!(client_add_requests(&m, &args, &config(1), Ok(addr(7))).unwrap_err(), CmdError::NotClientMode);
    // The mode check comes before the lookup.
    let lookup = Err(CmdError::LookupFailed("no such host".to_string()));
    assert_eq!(client_add_requests(&m, &args, &config(1), lookup.clone()).unwrap_err(), CmdError::NotClientMode);
    assert_eq!(
        client_add_requests(&m, &args, &config(0), lookup).unwrap_err(),
        CmdError::LookupFailed("no such host".to_string())
    );
    let (ingress, egress) = client_add_requests(&m, &args, &config(0), Ok(addr(7))).unwrap();
    assert_eq!(ingress.key.address, addr(7));
    assert_eq!(ingress.key.uid, 3);
    assert_eq!(ingress.value.port, 8080u16.to_be());
    assert_eq!(ingress.map_flags, TUTU_NOEXIST);
    assert_eq!(egress.key.address, addr(7));
    assert_eq!(egress.key.port, 8080u16.to_be());
    assert_eq!(egress.value.uid, 3);
    assert_eq!(&egress.value.comment[..5], b"home\0");
    assert_eq!(egress.map_flags, TUTU_ANY);
}

#[test]
fn refused_ingress_stops_client_add() {
    assert_eq!(after_ingress(Ok(())), Ok(()));
    let e = after_ingress(Err(NlError::Errno(-17))).unwrap_err();
    assert_eq!(e, CmdError::IngressUpdateFailed(NlError::Errno(-17)));
    assert!(e.message().starts_with("ingress update failed (possible port conflict): "));
}

#[test]
fn client_del_requests_in_order() {
    let m = UidMap::new();
    let args = words(&["uid", "1", "addr", "peer"]);
    let entries = vec![egress(1, 5, 10), egress(2, 5, 20), egress(1, 5, 30), egress(1, 6, 40)];
    assert_eq!(
        client_del_requests(&m, &words(&["uid", "1"]), Ok(addr(5)), &entries).unwrap_err(),
        CmdError::ClientDelIncomplete
    );
    assert_eq!(
        client_del_requests(&m, &args, Err(CmdError::LookupFailed("x".to_string())), &entries).unwrap_err(),
        CmdError::LookupFailed("x".to_string())
    );
    let (d, ingress) = client_del_requests(&m, &args, Ok(addr(5)), &entries).unwrap();
    assert_eq!(d.unwrap().key.port, 30);
    assert_eq!(ingress.key.uid, 1);
    assert_eq!(ingress.key.address, addr(5));
    assert_eq!(ingress.value.port, 0);
    assert_eq!(ingress.map_flags, 0);
    let (none, _) = client_del_requests(&m, &args, Ok(addr(9)), &entries).unwrap();
    assert!(none.is_none());
}

#[test]
fn client_del_reports_either_deletion() {
    assert!(client_del_deleted(true, false));
    assert!(client_del_deleted(false, true));
    assert!(client_del_deleted(true, true));
    assert!(!client_del_deleted(false, false));
}

#[test]
fn server_add_request_in_order() {
    let m = UidMap::new();
    let args = words(&["uid", "9", "addr", "192.168.1.100", "port", "443", "icmp-id", "1234"]);
    assert_eq!(server_add_request(&m, &args, &config(0), Ok(addr(100))).unwrap_err(), CmdError::NotServerMode);
    assert_eq!(
        server_add_request(&m, &args, &config(1), Err(CmdError::LookupFailed("dns".to_string()))).unwrap_err(),
        CmdError::LookupFailed("dns".to_string())
    );
    assert_eq!(
        server_add_request(&m, &words(&["uid", "9", "addr", "h"]), &config(0), Ok(addr(1))).unwrap_err(),
        CmdError::ServerAddIncomplete
    );
    let u = server_add_request(&m, &args, &config(1), Ok(addr(100))).unwrap();
    assert_eq!(u.uid, 9);
    assert_eq!(u.value.address, addr(100));
    assert_eq!(u.value.icmp_id, 1234u16.to_be());
    assert_eq!(u.value.dport, 443u16.to_be());
    assert_eq!(u.value.comment, [0; 22]);
    assert_eq!(u.map_flags, 0);
}

#[test]
fn script_steps() {
    assert!(matches!(script_step("", 1, 1), Ok(ScriptStep::Skip)));
    match script_step("client-add uid 1 addr 'a b' port 2", 4, 2) {
        Ok(ScriptStep::Run(c, name, args)) => {
            assert_eq!(c, Command::ClientAdd);
            assert_eq!(name, "client-add");
            assert_eq!(args, words(&["uid", "1", "addr", "a b", "port", "2"]));
        }
        other => panic!("unexpected step {:?}", other),
    }
    match script_step("frobnicate now", 12, 3) {
        Ok(ScriptStep::Report(m)) => assert_eq!(m, "Line 12 (cmd 3): Unknown command 'frobnicate'"),
        other => panic!("unexpected step {:?}", other),
    }
    assert_eq!(script_step("load 'open", 1, 1).unwrap_err(), ScriptError::Parse);
    assert_eq!(
        script_failure_message(2, 1, "server-add", "must be in server mode"),
        "line 2 (cmd 1) [server-add]: must be in server mode"
    );
}

#[test]
fn status_shows_tables_by_role() {
    assert_eq!(status_tables(&config(1), false), vec![StatusTable::UserInfo]);
    assert_eq!(
        status_tables(&config(1), true),
        vec![StatusTable::UserInfo, StatusTable::Sessions, StatusTable::Stats]
    );
    assert_eq!(status_tables(&config(0), false), vec![StatusTable::Egress]);
    assert_eq!(
        status_tables(&config(0), true),
        vec![StatusTable::Egress, StatusTable::Ingress, StatusTable::Stats]
    );
    assert_eq!(table_heading(StatusTable::UserInfo, &config(1)), "Peers:");
    assert_eq!(table_heading(StatusTable::Sessions, &config(1)), "\nSessions (max age: 45):");
    assert_eq!(table_heading(StatusTable::Egress, &config(0)), "Client Peers:");
    assert_eq!(table_heading(StatusTable::Ingress, &config(0)), "\nIngress peers:");
    assert_eq!(table_heading(StatusTable::Stats, &config(0)), "\nPackets:");
    assert_eq!(empty_peers_line(0), Some("No peer configure".to_string()));
    assert_eq!(empty_peers_line(2), None);
}

#[test]
fn reply_failure_codes() {
    assert_eq!(reply_failure_code(&TunnelError::ShortPacket), -22);
    assert_eq!(reply_failure_code(&TunnelError::DecryptAuth), -1);
    assert_eq!(reply_failure_code(&TunnelError::Replay), -1);
}

#[test]
fn copied_comment_is_shown_as_written() {
    for text in ["a", "héllo wörld", "exactly-22-bytes-long!"] {
        let mut field = [0xaau8; 22];
        copy_comment(&mut field, text);
        assert_eq!(format_comment(&field, true), format!(" comment {}", text));
        assert_eq!(format_comment(&field, false), format!(", Comment: {}", text));
    }
    let mut field = [0u8; 22];
    copy_comment(&mut field, "");
    assert_eq!(format_comment(&field, true), "");
    // Bytes after the first NUL do not count.
    let mut field = [0u8; 22];
    field[0] = b'x';
    field[2] = b'y';
    assert_eq!(format_comment(&field, false), ", Comment: x");
    // A lone invalid byte still shows a comment.
    let mut field = [0u8; 22];
    field[0] = 0xff;
    assert_eq!(format_comment(&field, true), " comment \u{fffd}");
}

#[test]
fn comment_lines_from_text() {
    assert_eq!(comment_from_text("", true), "");
    assert_eq!(comment_from_text("office", true), " comment office");
    assert_eq!(comment_from_text("office", false), ", Comment: office");
}

#[test]
fn dumped_strings_are_read_lossily() {
    assert_eq!(string_item(b"eth0"), "eth0");
    assert_eq!(string_item(b""), "");
    assert_eq!(string_item(&[b'e', 0xff, b'1']), "e\u{fffd}1");
}

#[test]
fn remembered_packet_refused_until_pushed_out() {
    let a = [1u8; 24];
    let b = [2u8; 24];
    let c = [3u8; 24];
    let mut w = ReplayWindow::new(60, 2);
    w.replay_add(1000, &a);
    w.replay_add(1001, &b);
    // Two entries fit: the first is still remembered, at any time.
    assert!(!w.replay_check_at(1010, 1000, &a));
    assert!(!w.replay_check_at(5000, 1000, &a));
    // A third pushes the first out, within the window it is accepted again.
    w.replay_add(1002, &c);
    assert!(w.replay_check_at(1010, 1000, &a));
    assert!(!w.replay_check_at(1010, 1001, &b));
}

#[test]
fn address_text_by_kind() {
    assert_eq!(ip_to_string(&addr(100), "unused"), "192.168.1.100");
    let mut compat = [0u8; 16];
    compat[12..].copy_from_slice(&[10, 0, 0, 1]);
    assert_eq!(ip_to_string(&compat, "unused"), "10.0.0.1");
    let mut v6 = [0u8; 16];
    v6[0] = 0x20;
    v6[1] = 0x01;
    v6[15] = 1;
    assert_eq!(ip_to_string(&v6, "2001::1"), "2001::1");
}

#[test]
fn network_order_reads_host_bytes_big_endian() {
    for x in [0u16, 1, 0x1234, 0xff00, 0xffff] {
        assert_eq!(ntohs(x), u16::from_be_bytes(x.to_ne_bytes()));
        assert_eq!(htons(x), u16::from_be_bytes(x.to_ne_bytes()));
        assert_eq!(ntohs(htons(x)), x);
    }
}

#[test]
fn accepted_request_refused_the_second_time() {
    let psk = "correct horse";
    let mem: usize = 8 * 1024;
    let (packet, _, ts) = encrypt_packet(psk, b"status####", mem).unwrap();
    let mut w = ReplayWindow::new(60, 4);
    assert_eq!(accept_request(&mut w, psk, &packet, mem, ts).unwrap(), b"status".to_vec());
    assert_eq!(accept_request(&mut w, psk, &packet, mem, ts + 30).unwrap_err(), TunnelError::Replay);
    assert_eq!(accept_request(&mut w, psk, &packet, mem, ts + 3600).unwrap_err(), TunnelError::Replay);
}

#[test]
fn big_endian_u64_round_trip() {
    let mut buf = vec![7u8];
    push_u64_be(&mut buf, 0x0102_0304_0506_0708);
    assert_eq!(buf, vec![7, 1, 2, 3, 4, 5, 6, 7, 8]);
    assert_eq!(read_u64_be(&buf, 1), 0x0102_0304_0506_0708);
    let mut buf = Vec::new();
    push_u64_be(&mut buf, u64::MAX - 1);
    assert_eq!(read_u64_be(&buf, 0), u64::MAX - 1);
    assert_eq!(buf, (u64::MAX - 1).to_be_bytes().to_vec());
}

#[test]
fn script_and_response_read_back() {
    let psk = "sekrit-key";
    let mem: usize = 8 * 1024;
    let cmd = padded_command("client-add uid 1 addr h port 2", 9);
    let (packet, _, ts) = encrypt_packet(psk, &cmd, mem).unwrap();
    let mut server_window = ReplayWindow::new(30, 8);
    assert_eq!(
        accept_request(&mut server_window, psk, &packet, mem, ts).unwrap(),
        b"client-add uid 1 addr h port 2".to_vec()
    );
    let resp = seal_response(&mut server_window, psk, b"done".to_vec(), mem, 17).unwrap();
    let (_, _, rts) = decrypt_packet(psk, &resp, mem).unwrap();
    let mut client_window = ReplayWindow::new(30, 8);
    let mut pt = decrypt_and_validate_packet_at(&resp, &mut client_window, psk, mem, rts).unwrap();
    assert_eq!(pt.len(), 4 + 17);
    remove_padding(&mut pt);
    assert_eq!(pt, b"done".to_vec());
    assert_eq!(
        decrypt_and_validate_packet_at(&resp, &mut client_window, psk, mem, rts).unwrap_err(),
        TunnelError::Replay
    );
}
