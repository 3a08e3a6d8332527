use ktuctl::client::{
    decrypt_and_validate_packet_at, exit_status, first_address_of, is_help_kw, is_keyword,
    next_retry, parse_dsl_args, parse_port, parse_u16, parse_window, ArgsError, Family, ValueError,
};
use ktuctl::helper::IpAddress;
use ktuctl::server::{
    accept_request, command_argv, detect_ktuctl, env_flag, psk_long_enough, seal_response,
    setup_pwhash_memlimit, sudo_enabled, PwhashMemlimit,
};
use ktuctl::text::IntErrorKind;
use ktuctl::tunnel::{
    build_padded_cmd, command_response, current_unix_time, decrypt_packet, encrypt_packet,
    pad_response, padded_command, psk2key, remove_padding, seal_packet, ReplayWindow, TunnelError,
    MAX_CT_SIZE, MIN_LEN,
};

const MEM: usize = 8 * 1024;

fn argv(ws: &[&str]) -> Vec<String> {
    ws.iter().map(|s| s.to_string()).collect()
}

#[test]
fn key_derivation() {
    let salt = [1u8; 16];
    let k1 = psk2key("password1", &salt, MEM).unwrap();
    let k2 = psk2key("password1", &salt, MEM).unwrap();
    let k3 = psk2key("password1", &[2u8; 16], MEM).unwrap();
    assert_eq!(k1, k2);
    assert_ne!(k1, k3);
    assert_ne!(k1, [0u8; 32]);
    assert_eq!(psk2key("password1", &[1u8; 15], MEM), Err(TunnelError::InvalidSaltLength));
    assert!(matches!(psk2key("password1", &salt, 7 * 1024), Err(TunnelError::KdfParams(_))));
}

#[test]
fn packet_round_trip() {
    let salt = [3u8; 16];
    let nonce = [4u8; 24];
    let p = seal_packet("sekrit-key", b"status", MEM, &salt, &nonce, 1_700_000_000).unwrap();
    assert_eq!(p.len(), 48 + 6 + 16);
    assert_eq!(&p[..16], &salt);
    assert_eq!(&p[16..24], &1_700_000_000u64.to_be_bytes());
    assert_eq!(&p[24..48], &nonce);
    assert_ne!(&p[48..54], b"status");
    let (pt, n, ts) = decrypt_packet("sekrit-key", &p, MEM).unwrap();
    assert_eq!(pt, b"status".to_vec());
    assert_eq!(n, nonce);
    assert_eq!(ts, 1_700_000_000);
    assert_eq!(decrypt_packet("other-key!", &p, MEM).unwrap_err(), TunnelError::DecryptAuth);
    let mut bad = p.clone();
    bad[17] ^= 1;
    assert_eq!(decrypt_packet("sekrit-key", &bad, MEM).unwrap_err(), TunnelError::DecryptAuth);
    assert_eq!(decrypt_packet("sekrit-key", &p[..MIN_LEN - 1], MEM).unwrap_err(), TunnelError::ShortPacket);
}

#[test]
fn fresh_packets_differ() {
    let (p1, n1, t1) = encrypt_packet("sekrit-key", b"hello", MEM).unwrap();
    let (p2, n2, _) = encrypt_packet("sekrit-key", b"hello", MEM).unwrap();
    assert_ne!(p1, p2);
    assert_ne!(n1, n2);
    assert!((t1 - current_unix_time()).abs() <= 5);
    let (pt, n, t) = decrypt_packet("sekrit-key", &p1, MEM).unwrap();
    assert_eq!(pt, b"hello".to_vec());
    assert_eq!(n, n1);
    assert_eq!(t, t1);
}

#[test]
fn replay_window_refuses_repeats() {
    let mut w = ReplayWindow::new(30, 2);
    let n = [9u8; 24];
    assert!(w.replay_check_at(1000, 1000, &n));
    w.replay_add(1000, &n);
    assert!(!w.replay_check_at(1000, 1000, &n));
    assert!(!w.replay_check_at(1025, 1000, &n));
    assert!(w.replay_check_at(1000, 1000, &[8u8; 24]));
    assert!(!w.replay_check_at(1031, 1000, &[8u8; 24]));
    assert!(!w.replay_check_at(969, 1000, &[8u8; 24]));
    assert!(w.replay_check_at(i64::MIN, i64::MIN + 5, &n));
    assert!(!w.replay_check_at(i64::MAX, i64::MIN, &n));
}

#[test]
fn replay_window_forgets_oldest() {
    let mut w = ReplayWindow::init(30, 2);
    w.replay_add(100, &[1; 24]);
    w.replay_add(100, &[2; 24]);
    w.replay_add(100, &[3; 24]);
    assert!(w.replay_check_at(100, 100, &[1; 24]));
    assert!(!w.replay_check_at(100, 100, &[2; 24]));
    assert!(!w.replay_check_at(100, 100, &[3; 24]));
    let mut z = ReplayWindow::new(30, 0);
    z.replay_add(100, &[1; 24]);
    assert!(z.replay_check_at(100, 100, &[1; 24]));
}

#[test]
fn replay_window_forgets_stale_entries() {
    let mut w = ReplayWindow::new(10, 8);
    w.replay_add(100, &[1; 24]);
    assert!(!w.replay_check_at(105, 100, &[1; 24]));
    assert!(w.replay_check_at(111, 105, &[2; 24]));
    assert!(w.replay_check_at(105, 100, &[1; 24]));
}

#[test]
fn padding() {
    let mut v = b"cmd##".to_vec();
    remove_padding(&mut v);
    assert_eq!(v, b"cmd".to_vec());
    let mut e: Vec<u8> = Vec::new();
    remove_padding(&mut e);
    assert!(e.is_empty());
    assert_eq!(padded_command("ab", 3), b"ab###".to_vec());
    let long = "x".repeat(4094);
    assert_eq!(padded_command(&long, 200).len(), 4095);
    assert_eq!(padded_command(&"y".repeat(5000), 9).len(), 5000);
    let c = build_padded_cmd("status");
    assert!(c.starts_with(b"status") && c.len() < 6 + 256);
    let mut r = b"out".to_vec();
    pad_response(&mut r, 2);
    assert_eq!(r, b"out##".to_vec());
    let mut big = vec![b'a'; 4000];
    pad_response(&mut big, 255);
    assert_eq!(big.len(), 4095);
    let mut full = vec![b'a'; 4094];
    pad_response(&mut full, 255);
    assert_eq!(full.len(), 4094);
    let out = command_response(&vec![b'o'; 4000], &vec![b'e'; 200]);
    assert_eq!(out.len(), 4096);
    assert_eq!(out[3999], b'o');
    assert_eq!(out[4000], b'e');
    assert_eq!(command_response(b"a", b"b"), b"ab".to_vec());
}

#[test]
fn client_command_line() {
    let a = parse_dsl_args(3, &argv(&["tuctl-client", "psk", "12345678"])).unwrap();
    assert_eq!(a.psk, "12345678");
    assert_eq!(a.server, "127.0.0.1");
    assert_eq!(a.server_port, 7000);
    assert_eq!(a.script, "-");
    assert_eq!(a.family, Family::Unspec);
    assert_eq!(a.window, 30);
    assert_eq!(a.max_retries, 3);
    let a = parse_dsl_args(
        14,
        &argv(&[
            "c", "server", "h", "server-port", "99", "script", "f", "window", "5", "max-retries", "0",
            "-6", "psk", "abcdefgh",
        ]),
    )
    .unwrap();
    assert_eq!((a.server.as_str(), a.server_port, a.script.as_str(), a.window, a.max_retries), ("h", 99, "f", 5, 0));
    assert_eq!(a.family, Family::Inet6);
}

#[test]
fn client_command_line_errors() {
    let e = parse_dsl_args(2, &argv(&["c", "psk"])).unwrap_err();
    assert_eq!(e, ArgsError::MissingValue);
    assert_eq!(e.message(), None);
    assert_eq!(e.code(), -22);
    let e = parse_dsl_args(2, &argv(&["c", "bogus"])).unwrap_err();
    assert_eq!(e.message().as_deref(), Some("unknown keyword \"bogus\""));
    assert_eq!(parse_dsl_args(2, &argv(&["c", "--help"])).unwrap_err(), ArgsError::Help);
    assert_eq!(parse_dsl_args(1, &argv(&["c"])).unwrap_err().message().as_deref(), Some("psk must be specified"));
    assert_eq!(
        parse_dsl_args(3, &argv(&["c", "psk", "short"])).unwrap_err(),
        ArgsError::ShortPsk
    );
    let e = parse_dsl_args(5, &argv(&["c", "psk", "12345678", "server-port", "0"])).unwrap_err();
    assert_eq!(e, ArgsError::Value(ValueError::ZeroPort));
    assert_eq!(e.message().as_deref(), Some("port must be non-zero"));
    let e = parse_dsl_args(5, &argv(&["c", "window", "x", "psk", "12345678"])).unwrap_err();
    assert_eq!(e.message().as_deref(), Some("invalid u32 'x': invalid digit found in string"));
    let ok = parse_dsl_args(3, &argv(&["c", "psk", "12345678", "junk"])).unwrap();
    assert_eq!(ok.psk, "12345678");
}

#[test]
fn client_values() {
    assert_eq!(parse_u16("65536"), Err(ValueError::NotU16("65536".to_string(), IntErrorKind::PosOverflow)));
    assert_eq!(parse_port("8080"), Ok(8080));
    assert_eq!(parse_window("0"), Err(ValueError::ZeroWindow));
    assert!(is_keyword("psk", "psk"));
    assert!(!is_keyword("psk2", "psk"));
    assert!(is_help_kw("-h") && is_help_kw("help") && !is_help_kw("-help"));
    assert_eq!(next_retry(0, 3), Some(1));
    assert_eq!(next_retry(3, 3), None);
    assert_eq!(exit_status(-22), 1);
    assert_eq!(exit_status(0), 0);
    let v4 = IpAddress::V4([1, 2, 3, 4]);
    let v6 = IpAddress::V6([0; 16]);
    assert_eq!(first_address_of(Family::Inet6, &[v4, v6]), Some(v6));
    assert_eq!(first_address_of(Family::Inet4, &[v6]), None);
    assert_eq!(first_address_of(Family::Unspec, &[v6, v4]), Some(v6));
}

#[test]
fn client_checks_responses() {
    let mut w = ReplayWindow::new(30, 16);
    let p = seal_packet("sekrit-key", b"done##", MEM, &[5; 16], &[6; 24], 2000).unwrap();
    assert_eq!(decrypt_and_validate_packet_at(&p, &mut w, "sekrit-key", MEM, 2010).unwrap(), b"done##".to_vec());
    assert_eq!(decrypt_and_validate_packet_at(&p, &mut w, "sekrit-key", MEM, 2010).unwrap_err(), TunnelError::Replay);
    let q = seal_packet("sekrit-key", b"x", MEM, &[5; 16], &[7; 24], 2000).unwrap();
    assert_eq!(decrypt_and_validate_packet_at(&q, &mut w, "sekrit-key", MEM, 2100).unwrap_err(), TunnelError::Replay);
    assert_eq!(decrypt_and_validate_packet_at(&q, &mut w, "wrong-key!", MEM, 2000).unwrap_err(), TunnelError::DecryptAuth);
    assert_eq!(decrypt_and_validate_packet_at(&q[..10], &mut w, "sekrit-key", MEM, 2000).unwrap_err(), TunnelError::ShortPacket);
    assert!(MAX_CT_SIZE > MIN_LEN);
}

#[test]
fn server_settings() {
    assert!(env_flag(Some("1")));
    assert!(!env_flag(Some("0")));
    assert!(!env_flag(Some("yes")));
    assert!(!env_flag(None));
    assert!(detect_ktuctl(None, true));
    assert!(detect_ktuctl(Some("2"), false));
    assert!(!detect_ktuctl(Some("0"), false));
    assert!(sudo_enabled(None));
    assert!(!sudo_enabled(Some("1")));
    assert_eq!(command_argv(true, false), argv(&["sudo", "tuctl", "script", "-"]));
    assert_eq!(command_argv(false, true), argv(&["ktuctl", "script", "-"]));
    assert_eq!(setup_pwhash_memlimit(None), PwhashMemlimit::Default);
    assert_eq!(setup_pwhash_memlimit(Some("1048576")).bytes(), 1048576);
    assert_eq!(setup_pwhash_memlimit(Some("big")), PwhashMemlimit::Invalid);
    assert_eq!(PwhashMemlimit::Invalid.bytes(), 64 * 1024 * 1024);
    assert!(psk_long_enough("12345678"));
    assert!(!psk_long_enough("1234567"));
}

#[test]
fn server_request_and_response() {
    let mut w = ReplayWindow::new(30, 16);
    let now = current_unix_time();
    let req = seal_packet("sekrit-key", b"status###", MEM, &[1; 16], &[2; 24], now).unwrap();
    assert_eq!(accept_request(&mut w, "sekrit-key", &req, MEM, now).unwrap(), b"status".to_vec());
    assert_eq!(accept_request(&mut w, "sekrit-key", &req, MEM, now).unwrap_err(), TunnelError::Replay);
    let resp = seal_response(&mut w, "sekrit-key", b"ok".to_vec(), MEM, 4).unwrap();
    let (pt, _, _) = decrypt_packet("sekrit-key", &resp, MEM).unwrap();
    assert_eq!(pt, b"ok####".to_vec());
    let mut client_window = ReplayWindow::new(30, 16);
    let (_, n, t) = decrypt_packet("sekrit-key", &resp, MEM).unwrap();
    assert!(!w.replay_check_at(t, t, &n));
    assert!(client_window.replay_check_at(t, t, &n));
}
