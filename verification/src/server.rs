//! The remote-control server: its settings from the environment, the
//! command it runs, and how it accepts a request and seals a response.

use crate::commands::args_view;
use crate::text::{parse_u32, spec_parse_unsigned};
use crate::tunnel::{
    encrypt_packet, kdf_m_cost, kdf_ok, open_packet, packet_nonce, packet_ts, decrypt_packet,
    hashes, pad_response, random_byte, remove_padding, response_pad_len, sealed_packet, packet_salt,
    spec_replay_add, spec_replay_check, strip_padding, lemma_add_remembers, lemma_remembered_refused,
    lemma_strip_padding, command_pad_len, padded_command_bytes, ReplayWindow, ReplayWindowV, TunnelError,
    DEFAULT_PWHASH_MEMLIMIT, HEADER_LEN, MIN_LEN, TAG,
};
use vstd::prelude::*;
use vstd::utf8::encode_utf8;

verus! {

/// Whether an environment variable that switches something on is set: it
/// must hold a non-zero `u32`.
pub open spec fn spec_env_flag(value: Option<Seq<char>>) -> bool {
    match value {
        Some(v) => match spec_parse_unsigned(v, 0xffff_ffff) {
            Ok(n) => n != 0,
            Err(_) => false,
        },
        None => false,
    }
}

/// The text of an optional setting.
pub open spec fn opt_view(value: Option<&str>) -> Option<Seq<char>> {
    match value {
        Some(v) => Some(v@),
        None => None,
    }
}

/// Whether an environment variable that switches something on is set.
pub fn env_flag(value: Option<&str>) -> (r: bool)
    ensures
        r == spec_env_flag(opt_view(value)),
{
    match value {
        Some(v) => match parse_u32(v) {
            Ok(n) => n != 0,
            Err(_) => false,
        },
        None => false,
    }
}

/// Whether the kernel-module tool is used: when the environment asks for
/// it (`TUTUICMPTUNNEL_USE_KTUCTL`), or when the module is loaded.
pub fn detect_ktuctl(use_ktuctl: Option<&str>, module_loaded: bool) -> (r: bool)
    ensures
        r == (spec_env_flag(opt_view(use_ktuctl)) || module_loaded),
{
    env_flag(use_ktuctl) || module_loaded
}

/// Whether the command runs through `sudo`: unless the environment turns
/// it off (`TUTUICMPTUNNEL_DISABLE_SUDO`).
pub fn sudo_enabled(disable_sudo: Option<&str>) -> (r: bool)
    ensures
        r == !spec_env_flag(opt_view(disable_sudo)),
{
    !env_flag(disable_sudo)
}

/// The command that runs a request as a script read from standard input:
/// `ktuctl` or `tuctl`, through `sudo` where it is enabled.
pub open spec fn spec_command_argv(sudo: bool, ktuctl: bool) -> Seq<Seq<char>> {
    let prog = if ktuctl {
        "ktuctl"@
    } else {
        "tuctl"@
    };
    if sudo {
        seq!["sudo"@, prog, "script"@, "-"@]
    } else {
        seq![prog, "script"@, "-"@]
    }
}

/// The command that runs a request: the program first, then its arguments.
pub fn command_argv(sudo: bool, ktuctl: bool) -> (r: Vec<String>)
    ensures
        args_view(r@) == spec_command_argv(sudo, ktuctl),
{
    let mut r: Vec<String> = Vec::new();
    if sudo {
        r.push(String::from_str("sudo"));
    }
    if ktuctl {
        r.push(String::from_str("ktuctl"));
    } else {
        r.push(String::from_str("tuctl"));
    }
    r.push(String::from_str("script"));
    r.push(String::from_str("-"));
    assert(args_view(r@) =~= spec_command_argv(sudo, ktuctl));
    r
}

/// The memory limit of the key derivation, as the environment
/// (`TUTUICMPTUNNEL_PWHASH_MEMLIMIT`) sets it.
#[derive(Clone, Copy, Debug, PartialEq, Eq, Structural)]
pub enum PwhashMemlimit {
    /// Not set: 64 MiB.
    Default,
    /// Set to this many bytes.
    Given(u32),
    /// Set to a text that is no `u32`: 64 MiB.
    Invalid,
}

/// The memory limit that the environment's value gives.
pub open spec fn spec_pwhash_memlimit(value: Option<Seq<char>>) -> PwhashMemlimit {
    match value {
        None => PwhashMemlimit::Default,
        Some(v) => match spec_parse_unsigned(v, 0xffff_ffff) {
            Ok(n) => PwhashMemlimit::Given(n as u32),
            Err(_) => PwhashMemlimit::Invalid,
        },
    }
}

/// Reads the memory limit of the key derivation from the environment's
/// value.
pub fn setup_pwhash_memlimit(value: Option<&str>) -> (r: PwhashMemlimit)
    ensures
        r == spec_pwhash_memlimit(opt_view(value)),
{
    match value {
        None => PwhashMemlimit::Default,
        Some(v) => match parse_u32(v) {
            Ok(n) => PwhashMemlimit::Given(n),
            Err(_) => PwhashMemlimit::Invalid,
        },
    }
}

impl PwhashMemlimit {
    /// The limit in bytes.
    pub fn bytes(&self) -> (m: usize)
        ensures
            m == match *self {
                PwhashMemlimit::Given(n) => n as usize,
                _ => DEFAULT_PWHASH_MEMLIMIT,
            },
    {
        match self {
            PwhashMemlimit::Given(n) => *n as usize,
            _ => DEFAULT_PWHASH_MEMLIMIT,
        }
    }
}

/// Whether a pre-shared key is long enough: at least 8 bytes.
pub fn psk_long_enough(psk: &str) -> (r: bool)
    ensures
        r == (encode_utf8(psk@).len() >= 8),
{
    psk.as_bytes().len() >= 8
}

/// Whether `w2` is `w` after remembering a packet with time stamp `ts` and
/// nonce `nonce`.
pub open spec fn remembered(w2: ReplayWindowV, w: ReplayWindowV, ts: i64, nonce: Seq<u8>) -> bool {
    exists|n: [u8; 24]| n@ == nonce && w2 == #[trigger] spec_replay_add(w, ts, n)
}

/// What accepting the request `packet` at time `now` under the pre-shared
/// key `psk` does: `r` is its result, and the window goes from `w0` to `w1`.
/// A packet too short, a key derivation that fails and a packet that does
/// not open are refused and change nothing; one outside the window or seen
/// before is refused after the window forgets what is no longer fresh;
/// any other is remembered and gives its command without the padding.
pub open spec fn request_outcome(
    w0: ReplayWindowV,
    w1: ReplayWindowV,
    psk: Seq<u8>,
    memlimit: usize,
    packet: Seq<u8>,
    now: i64,
    r: Result<Vec<u8>, TunnelError>,
) -> bool {
    &&& packet.len() < MIN_LEN ==> r == Err::<Vec<u8>, TunnelError>(TunnelError::ShortPacket)
    &&& packet.len() >= MIN_LEN && kdf_m_cost(memlimit) < 8 ==> (r matches Err(TunnelError::KdfParams(_)))
    &&& packet.len() >= MIN_LEN && kdf_m_cost(memlimit) >= 8 && !kdf_ok(psk.len(), memlimit) ==> (r matches Err(
        TunnelError::KdfDerive(_),
    ))
    &&& packet.len() >= MIN_LEN && kdf_ok(psk.len(), memlimit) ==> match open_packet(psk, memlimit, packet) {
        Some((pt, nonce, ts)) => {
            let checked = spec_replay_check(w0, now, ts, nonce);
            &&& !checked.0 ==> r == Err::<Vec<u8>, TunnelError>(TunnelError::Replay) && w1 == checked.1
            &&& checked.0 ==> (r matches Ok(cmd) && cmd@ == strip_padding(pt)) && remembered(w1, checked.1, ts, nonce)
        },
        None => r == Err::<Vec<u8>, TunnelError>(TunnelError::DecryptAuth),
    }
    &&& r is Err && r != Err::<Vec<u8>, TunnelError>(TunnelError::Replay) ==> w1 == w0
}

/// Accepts a request at time `now`: opens it, refuses it if it is outside
/// the window or seen before, remembers it, and gives the command without
/// its padding.
pub fn accept_request(
    rwin: &mut ReplayWindow,
    psk: &str,
    packet: &[u8],
    memlimit: usize,
    now: i64,
) -> (r: Result<Vec<u8>, TunnelError>)
    ensures
        request_outcome(old(rwin)@, final(rwin)@, encode_utf8(psk@), memlimit, packet@, now, r),
{
    let (mut pt, nonce, ts) = decrypt_packet(psk, packet, memlimit)?;
    if !rwin.replay_check_at(now, ts, &nonce) {
        return Err(TunnelError::Replay);
    }
    let ghost checked = rwin@;
    rwin.replay_add(ts, &nonce);
    assert(remembered(rwin@, checked, ts, nonce@));
    remove_padding(&mut pt);
    Ok(pt)
}

/// A request is read as it was written: a packet that seals a script
/// padded by the client, under the same pre-shared key and memory limit,
/// is accepted by a window that takes its time stamp and nonce, and gives
/// back the script exactly (a script that does not end in `#`, which the
/// padding would swallow).
pub proof fn lemma_sealed_request_read_back(
    w0: ReplayWindowV,
    w1: ReplayWindowV,
    psk: Seq<u8>,
    memlimit: usize,
    script: Seq<u8>,
    pad: u8,
    packet: Seq<u8>,
    nonce: Seq<u8>,
    ts: i64,
    now: i64,
    r: Result<Vec<u8>, TunnelError>,
)
    requires
        kdf_ok(psk.len(), memlimit),
        packet.len() == HEADER_LEN + padded_command_bytes(script, pad).len() + TAG,
        open_packet(psk, memlimit, packet) == Some((padded_command_bytes(script, pad), nonce, ts)),
        spec_replay_check(w0, now, ts, nonce).0,
        script.len() == 0 || script.last() != 35u8,
        request_outcome(w0, w1, psk, memlimit, packet, now, r),
    ensures
        r matches Ok(cmd) && cmd@ == script,
        remembered(w1, spec_replay_check(w0, now, ts, nonce).1, ts, nonce),
{
    lemma_strip_padding(script, command_pad_len(script.len(), pad));
}

/// A request is accepted at most once: once `accept_request` has accepted
/// a packet, accepting the same packet again, at any later time, refuses
/// it as a replay, as long as the window remembers at least one packet.
pub proof fn lemma_accepted_once(
    w0: ReplayWindowV,
    w1: ReplayWindowV,
    w2: ReplayWindowV,
    psk: Seq<u8>,
    memlimit: usize,
    packet: Seq<u8>,
    now1: i64,
    now2: i64,
    r1: Result<Vec<u8>, TunnelError>,
    r2: Result<Vec<u8>, TunnelError>,
)
    requires
        w0.max_size >= 1,
        request_outcome(w0, w1, psk, memlimit, packet, now1, r1),
        request_outcome(w1, w2, psk, memlimit, packet, now2, r2),
    ensures
        r1 is Ok ==> r2 == Err::<Vec<u8>, TunnelError>(TunnelError::Replay),
{
    if r1 is Ok {
        let (pt, nonce, ts) = open_packet(psk, memlimit, packet)->0;
        let checked = spec_replay_check(w0, now1, ts, nonce);
        let n = choose|n: [u8; 24]| n@ == nonce && w1 == #[trigger] spec_replay_add(checked.1, ts, n);
        lemma_add_remembers(checked.1, ts, n);
        lemma_remembered_refused(w1, now2, ts, nonce, 1);
    }
}

/// Seals a response: pads it for the random byte `r`, encrypts it, and
/// remembers the packet; gives the packet to send.
pub fn seal_response(
    rwin: &mut ReplayWindow,
    psk: &str,
    resp: Vec<u8>,
    memlimit: usize,
    r: u8,
) -> (out: Result<Vec<u8>, TunnelError>)
    ensures
        ({
            let padded = resp@ + hashes(response_pad_len(resp@.len(), r));
            &&& kdf_m_cost(memlimit) < 8 ==> (out matches Err(TunnelError::KdfParams(_)))
            &&& kdf_m_cost(memlimit) >= 8 && !kdf_ok(encode_utf8(psk@).len(), memlimit) ==> (out matches Err(
                TunnelError::KdfDerive(_),
            ))
            &&& kdf_ok(encode_utf8(psk@).len(), memlimit) && padded.len() / 64 >= 0xFFFF_FFFF ==> (out matches Err(
                TunnelError::Encrypt(_),
            ))
            &&& kdf_ok(encode_utf8(psk@).len(), memlimit) && padded.len() / 64 < 0xFFFF_FFFF ==> out is Ok
            &&& out is Err ==> final(rwin)@ == old(rwin)@
            &&& out matches Ok(p) ==> {
                &&& p@.len() == HEADER_LEN + padded.len() + TAG
                &&& p@ == sealed_packet(
                    encode_utf8(psk@),
                    memlimit,
                    packet_salt(p@),
                    packet_ts(p@),
                    packet_nonce(p@),
                    padded,
                )
                &&& open_packet(encode_utf8(psk@), memlimit, p@) == Some((padded, packet_nonce(p@), packet_ts(p@)))
                &&& remembered(final(rwin)@, old(rwin)@, packet_ts(p@), packet_nonce(p@))
            }
        }),
{
    let mut resp = resp;
    pad_response(&mut resp, r);
    let (p, nonce, ts) = encrypt_packet(psk, resp.as_slice(), memlimit)?;
    rwin.replay_add(ts, &nonce);
    assert(remembered(rwin@, old(rwin)@, ts, nonce@));
    Ok(p)
}

/// Seals a response with random padding.
pub fn seal_response_padded(rwin: &mut ReplayWindow, psk: &str, resp: Vec<u8>, memlimit: usize) -> (out:
    Result<Vec<u8>, TunnelError>)
    ensures
        kdf_m_cost(memlimit) < 8 ==> (out matches Err(TunnelError::KdfParams(_))),
        kdf_m_cost(memlimit) >= 8 && !kdf_ok(encode_utf8(psk@).len(), memlimit) ==> (out matches Err(
            TunnelError::KdfDerive(_),
        )),
        kdf_ok(encode_utf8(psk@).len(), memlimit) && resp@.len() / 64 >= 0xFFFF_FFFF ==> (out matches Err(
            TunnelError::Encrypt(_),
        )),
        kdf_ok(encode_utf8(psk@).len(), memlimit) && (resp@.len() + 255) / 64 < 0xFFFF_FFFF ==> out is Ok,
        out is Err ==> final(rwin)@ == old(rwin)@,
        out matches Ok(p) ==> remembered(final(rwin)@, old(rwin)@, packet_ts(p@), packet_nonce(p@)),
        out matches Ok(p) ==> exists|r: u8| {
            let padded = resp@ + hashes(response_pad_len(resp@.len(), r));
            &&& #[trigger] response_pad_len(resp@.len(), r) < 256
            &&& p@.len() == HEADER_LEN + padded.len() + TAG
            &&& p@ == sealed_packet(
                encode_utf8(psk@),
                memlimit,
                packet_salt(p@),
                packet_ts(p@),
                packet_nonce(p@),
                padded,
            )
            &&& open_packet(encode_utf8(psk@), memlimit, p@) == Some((padded, packet_nonce(p@), packet_ts(p@)))
        },
{
    let r = random_byte();
    let out = seal_response(rwin, psk, resp, memlimit, r);
    assert(response_pad_len(resp@.len(), r) < 256);
    out
}

} // verus!
