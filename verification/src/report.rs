//! The lines that the control commands print: the state of the module as
//! `status` shows it and as `dump` writes it back as a script, and the
//! messages of the peer commands.

use crate::commands::{
    is_client_add_entries, is_client_config, is_server_config, is_user_info_entry,
    client_add_opts, keyword, no_peer_args, scan_args, server_add_opts, spec_cmd_client_add,
    spec_cmd_server_add, OptSet, PeerArgs, PeerArgsV,
};
use crate::error::{CmdErrorV, CmdOption};
use crate::helper::spec_resolve_uid;
use crate::uid_map::spec_get_uid;
use crate::config::{
    In6Addr, TutuConfig, TutuEgress, TutuIngress, TutuSession, TutuStats, TutuUserInfo, PROJECT_NAME,
};
use crate::helper::{comment_field, comment_text, format_comment, hostname_text, resolve_hostname, GlobalFlags};
use crate::text::{decimal, lemma_parse_decimal, push_decimal, push_str};
use crate::uid_map::UidMap;
use crate::wire::{lemma_htons_ntohs, lemma_ne_roundtrip, ntohs, to_network_order, u64_of_ne};
use vstd::prelude::*;
use vstd::utf8::encode_utf8;

verus! {

/// The decimal text of a port or identifier kept in network byte order.
pub open spec fn net_u16_text(v: u16) -> Seq<char> {
    decimal(to_network_order(v) as nat)
}

/// Appends the decimal text of a value kept in network byte order.
fn push_net_u16(s: &mut String, v: u16)
    ensures
        final(s)@ == old(s)@ + net_u16_text(v),
{
    let h = ntohs(v);
    push_decimal(s, h as u64);
}

/// Appends the decimal text of `n`.
fn push_number(s: &mut String, n: u64)
    ensures
        final(s)@ == old(s)@ + decimal(n as nat),
{
    push_decimal(s, n);
}

/// The first line of `status`: the name of the tool and the mode.
pub open spec fn role_text(cfg: TutuConfig) -> Seq<char> {
    PROJECT_NAME@ + ": Role: "@ + (if cfg.is_server != 0 {
        "Server"@
    } else {
        "Client"@
    }) + "\n"@
}

/// The first line of `status`.
pub fn role_line(cfg: &TutuConfig) -> (s: String)
    ensures
        s@ == role_text(*cfg),
{
    let mut s = String::new();
    push_str(&mut s, PROJECT_NAME);
    push_str(&mut s, ": Role: ");
    if cfg.is_server != 0 {
        push_str(&mut s, "Server");
    } else {
        push_str(&mut s, "Client");
    }
    push_str(&mut s, "\n");
    assert(s@ =~= role_text(*cfg));
    s
}

/// What `status` and `server` report for the configurations that `server`
/// and `client` set: the role, and for a server the session age given.
pub proof fn lemma_mode_shown(c: TutuConfig, age: u32)
    ensures
        is_server_config(c, age) ==> role_text(c) == "ktuctl-rs: Role: Server\n"@,
        is_server_config(c, age) ==> server_mode_text(c) == "server mode, session max age="@ + decimal(age as nat),
        is_client_config(c) ==> role_text(c) == "ktuctl-rs: Role: Client\n"@,
{
    reveal_strlit("ktuctl-rs");
    reveal_strlit(": Role: ");
    reveal_strlit("Server");
    reveal_strlit("Client");
    reveal_strlit("\n");
    reveal_strlit("ktuctl-rs: Role: Server\n");
    reveal_strlit("ktuctl-rs: Role: Client\n");
    if is_server_config(c, age) {
        assert(role_text(c) =~= "ktuctl-rs: Role: Server\n"@);
    }
    if is_client_config(c) {
        assert(role_text(c) =~= "ktuctl-rs: Role: Client\n"@);
    }
}

/// How `status` shows a user of a server, reached at the address whose
/// text is `addr`.
pub open spec fn user_info_text(
    map: Map<u8, Seq<char>>,
    numeric: bool,
    u: TutuUserInfo,
    addr: Seq<char>,
) -> Seq<char> {
    "  "@ + hostname_text(map, numeric, u.uid, false) + ", Address: "@ + addr + ", Dport: "@
        + net_u16_text(u.value.dport) + ", ICMP: "@ + net_u16_text(u.value.icmp_id) + comment_text(
        u.value.comment@,
        false,
    )
}

/// How `status` shows a user of a server.
pub fn user_info_line(map: &UidMap, flags: &GlobalFlags, u: &TutuUserInfo, addr: &str) -> (s: String)
    ensures
        s@ == user_info_text(map@, flags.numeric, *u, addr@),
{
    let mut s = String::new();
    push_str(&mut s, "  ");
    let host = resolve_hostname(map, flags, u.uid, false);
    push_str(&mut s, host.as_str());
    push_str(&mut s, ", Address: ");
    push_str(&mut s, addr);
    push_str(&mut s, ", Dport: ");
    push_net_u16(&mut s, u.value.dport);
    push_str(&mut s, ", ICMP: ");
    push_net_u16(&mut s, u.value.icmp_id);
    let c = format_comment(&u.value.comment, false);
    push_str(&mut s, c.as_str());
    assert(s@ =~= user_info_text(map@, flags.numeric, *u, addr@));
    s
}

/// The heading of the session list of a server.
pub open spec fn sessions_heading_text(cfg: TutuConfig) -> Seq<char> {
    "\nSessions (max age: "@ + decimal(cfg.session_max_age as nat) + "):"@
}

/// The heading of the session list of a server.
pub fn sessions_heading(cfg: &TutuConfig) -> (s: String)
    ensures
        s@ == sessions_heading_text(*cfg),
{
    let mut s = String::new();
    push_str(&mut s, "\nSessions (max age: ");
    push_number(&mut s, cfg.session_max_age as u64);
    push_str(&mut s, "):");
    assert(s@ =~= sessions_heading_text(*cfg));
    s
}

/// A table that `status` shows.
#[derive(Clone, Copy, Debug, PartialEq, Eq, Structural)]
pub enum StatusTable {
    /// The users of a server.
    UserInfo,
    /// The sessions of a server.
    Sessions,
    /// The peers of a client.
    Egress,
    /// The ingress entries of a client.
    Ingress,
    /// The packet counters.
    Stats,
}

/// The tables that `status` shows, in order: a server's users, or a
/// client's peers; with `debug`, then a server's sessions or a client's
/// ingress entries, and last the packet counters.
pub open spec fn spec_status_tables(is_server: bool, debug: bool) -> Seq<StatusTable> {
    let main = if is_server {
        seq![StatusTable::UserInfo]
    } else {
        seq![StatusTable::Egress]
    };
    if !debug {
        main
    } else if is_server {
        main + seq![StatusTable::Sessions, StatusTable::Stats]
    } else {
        main + seq![StatusTable::Ingress, StatusTable::Stats]
    }
}

/// The tables that `status` shows for the module's configuration `cfg`.
pub fn status_tables(cfg: &TutuConfig, debug: bool) -> (r: Vec<StatusTable>)
    ensures
        r@ == spec_status_tables(cfg.is_server != 0, debug),
{
    let mut r: Vec<StatusTable> = Vec::new();
    if cfg.is_server != 0 {
        r.push(StatusTable::UserInfo);
        if debug {
            r.push(StatusTable::Sessions);
        }
    } else {
        r.push(StatusTable::Egress);
        if debug {
            r.push(StatusTable::Ingress);
        }
    }
    if debug {
        r.push(StatusTable::Stats);
    }
    assert(r@ =~= spec_status_tables(cfg.is_server != 0, debug));
    r
}

/// The heading that `status` prints above a table.
pub open spec fn table_heading_text(t: StatusTable, cfg: TutuConfig) -> Seq<char> {
    match t {
        StatusTable::UserInfo => "Peers:"@,
        StatusTable::Sessions => sessions_heading_text(cfg),
        StatusTable::Egress => "Client Peers:"@,
        StatusTable::Ingress => "\nIngress peers:"@,
        StatusTable::Stats => "\nPackets:"@,
    }
}

/// The heading that `status` prints above a table.
pub fn table_heading(t: StatusTable, cfg: &TutuConfig) -> (s: String)
    ensures
        s@ == table_heading_text(t, *cfg),
{
    match t {
        StatusTable::UserInfo => String::from_str("Peers:"),
        StatusTable::Sessions => sessions_heading(cfg),
        StatusTable::Egress => String::from_str("Client Peers:"),
        StatusTable::Ingress => String::from_str("\nIngress peers:"),
        StatusTable::Stats => String::from_str("\nPackets:"),
    }
}

/// The line that `status` prints after the peers of a client when it
/// showed `shown` of them: one saying so when there were none.
pub fn empty_peers_line(shown: usize) -> (r: Option<String>)
    ensures
        shown == 0 ==> (r matches Some(s) && s@ == "No peer configure"@),
        shown > 0 ==> r is None,
{
    if shown == 0 {
        Some(String::from_str("No peer configure"))
    } else {
        None
    }
}

/// How `status` shows a session of a server, from the address whose text
/// is `addr`.
pub open spec fn session_text(
    map: Map<u8, Seq<char>>,
    numeric: bool,
    x: TutuSession,
    addr: Seq<char>,
) -> Seq<char> {
    "  Address: "@ + addr + ", SPort: "@ + net_u16_text(x.key.sport) + ", DPort: "@ + net_u16_text(
        x.key.dport,
    ) + " => "@ + hostname_text(map, numeric, x.value.uid, false) + ", Age: "@ + decimal(
        x.value.age as nat,
    ) + ", Client Sport: "@ + net_u16_text(x.value.client_sport)
}

/// How `status` shows a session of a server.
pub fn session_line(map: &UidMap, flags: &GlobalFlags, x: &TutuSession, addr: &str) -> (s: String)
    ensures
        s@ == session_text(map@, flags.numeric, *x, addr@),
{
    let mut s = String::new();
    push_str(&mut s, "  Address: ");
    push_str(&mut s, addr);
    push_str(&mut s, ", SPort: ");
    push_net_u16(&mut s, x.key.sport);
    push_str(&mut s, ", DPort: ");
    push_net_u16(&mut s, x.key.dport);
    push_str(&mut s, " => ");
    let host = resolve_hostname(map, flags, x.value.uid, false);
    push_str(&mut s, host.as_str());
    push_str(&mut s, ", Age: ");
    push_number(&mut s, x.value.age);
    push_str(&mut s, ", Client Sport: ");
    push_net_u16(&mut s, x.value.client_sport);
    assert(s@ =~= session_text(map@, flags.numeric, *x, addr@));
    s
}

/// How `status` shows a peer of a client: only entries with a port are
/// shown.
pub open spec fn egress_text(
    map: Map<u8, Seq<char>>,
    numeric: bool,
    e: TutuEgress,
    addr: Seq<char>,
) -> Option<Seq<char>> {
    if to_network_order(e.key.port) == 0 {
        None
    } else {
        Some(
            "  "@ + hostname_text(map, numeric, e.value.uid, false) + ", Address: "@ + addr
                + ", Port: "@ + net_u16_text(e.key.port) + comment_text(e.value.comment@, false),
        )
    }
}

/// How `status` shows a peer of a client, if it shows it.
pub fn egress_line(map: &UidMap, flags: &GlobalFlags, e: &TutuEgress, addr: &str) -> (r: Option<
    String,
>)
    ensures
        match egress_text(map@, flags.numeric, *e, addr@) {
            Some(t) => r matches Some(s) && s@ == t,
            None => r is None,
        },
{
    if ntohs(e.key.port) == 0 {
        return None;
    }
    let mut s = String::new();
    push_str(&mut s, "  ");
    let host = resolve_hostname(map, flags, e.value.uid, false);
    push_str(&mut s, host.as_str());
    push_str(&mut s, ", Address: ");
    push_str(&mut s, addr);
    push_str(&mut s, ", Port: ");
    push_net_u16(&mut s, e.key.port);
    let c = format_comment(&e.value.comment, false);
    push_str(&mut s, c.as_str());
    assert(s@ =~= egress_text(map@, flags.numeric, *e, addr@)->0);
    Some(s)
}

/// How `status` shows an ingress entry of a client.
pub open spec fn ingress_text(
    map: Map<u8, Seq<char>>,
    numeric: bool,
    x: TutuIngress,
    addr: Seq<char>,
) -> Seq<char> {
    "  "@ + hostname_text(map, numeric, x.key.uid, false) + ", Address: "@ + addr + " => Sport: "@
        + net_u16_text(x.value.port)
}

/// How `status` shows an ingress entry of a client.
pub fn ingress_line(map: &UidMap, flags: &GlobalFlags, x: &TutuIngress, addr: &str) -> (s: String)
    ensures
        s@ == ingress_text(map@, flags.numeric, *x, addr@),
{
    let mut s = String::new();
    push_str(&mut s, "  ");
    let host = resolve_hostname(map, flags, x.key.uid, false);
    push_str(&mut s, host.as_str());
    push_str(&mut s, ", Address: ");
    push_str(&mut s, addr);
    push_str(&mut s, " => Sport: ");
    push_net_u16(&mut s, x.value.port);
    assert(s@ =~= ingress_text(map@, flags.numeric, *x, addr@));
    s
}

/// The packet counters as `status` shows them, one line each.
pub open spec fn stats_text(st: TutuStats) -> Seq<Seq<char>> {
    seq![
        "  processed:   "@ + decimal(st.packets_processed as nat),
        "  dropped:     "@ + decimal(st.packets_dropped as nat),
        "  cksum error: "@ + decimal(st.checksum_errors as nat),
        "  fragmented:  "@ + decimal(st.fragmented as nat),
        "  GSO:         "@ + decimal(st.gso as nat),
    ]
}

/// The counters that `status` shows for the bytes `b` that the module sent:
/// the first eight bytes are the packets processed, then dropped, checksum
/// errors, fragmented and GSO packets, each in host byte order.
pub proof fn lemma_stats_shown_from_bytes(st: TutuStats, b: Seq<u8>)
    requires
        st.spec_bytes() == b,
    ensures
        stats_text(st) == seq![
            "  processed:   "@ + decimal(u64_of_ne(b.subrange(0, 8)) as nat),
            "  dropped:     "@ + decimal(u64_of_ne(b.subrange(8, 16)) as nat),
            "  cksum error: "@ + decimal(u64_of_ne(b.subrange(16, 24)) as nat),
            "  fragmented:  "@ + decimal(u64_of_ne(b.subrange(24, 32)) as nat),
            "  GSO:         "@ + decimal(u64_of_ne(b.subrange(32, 40)) as nat),
        ],
{
    lemma_ne_roundtrip();
    st.lemma_layout();
}

/// What `server-add` installs, `status` shows with the values it was
/// given: the user, the address, the destination port and then the ICMP
/// id, in decimal, and the comment.
pub proof fn lemma_server_add_shown(
    map: Map<u8, Seq<char>>,
    numeric: bool,
    x: TutuUserInfo,
    a: PeerArgsV,
    in6: In6Addr,
    addr: Seq<char>,
)
    requires
        is_user_info_entry(x, a, in6),
    ensures
        user_info_text(map, numeric, x, addr) == "  "@ + hostname_text(map, numeric, a.uid, false)
            + ", Address: "@ + addr + ", Dport: "@ + decimal(a.port as nat) + ", ICMP: "@ + decimal(
            a.echo_id as nat,
        ) + comment_text(comment_field(encode_utf8(a.comment)), false),
{
    lemma_htons_ntohs(a.port);
    lemma_htons_ntohs(a.echo_id);
}

/// What `client-add` installs, `status` shows with the values it was
/// given: the peer with its user, address, port and comment, and with
/// `-d` the ingress entry with the same user, address and port.
pub proof fn lemma_client_add_shown(
    map: Map<u8, Seq<char>>,
    numeric: bool,
    ing: TutuIngress,
    eg: TutuEgress,
    a: PeerArgsV,
    in6: In6Addr,
    addr: Seq<char>,
)
    requires
        is_client_add_entries(ing, eg, a, in6),
        a.port != 0,
    ensures
        egress_text(map, numeric, eg, addr) == Some(
            "  "@ + hostname_text(map, numeric, a.uid, false) + ", Address: "@ + addr + ", Port: "@ + decimal(
                a.port as nat,
            ) + comment_text(comment_field(encode_utf8(a.comment)), false),
        ),
        ingress_text(map, numeric, ing, addr) == "  "@ + hostname_text(map, numeric, a.uid, false)
            + ", Address: "@ + addr + " => Sport: "@ + decimal(a.port as nat),
{
    lemma_htons_ntohs(a.port);
}

/// One labelled counter.
fn counter_line(label: &str, n: u64) -> (s: String)
    ensures
        s@ == label@ + decimal(n as nat),
{
    let mut s = String::new();
    push_str(&mut s, label);
    push_number(&mut s, n);
    assert(s@ =~= label@ + decimal(n as nat));
    s
}

/// The packet counters as `status` shows them.
pub fn stats_lines(st: &TutuStats) -> (r: Vec<String>)
    ensures
        r@.map_values(|s: String| s@) == stats_text(*st),
{
    let mut r: Vec<String> = Vec::new();
    r.push(counter_line("  processed:   ", st.packets_processed));
    r.push(counter_line("  dropped:     ", st.packets_dropped));
    r.push(counter_line("  cksum error: ", st.checksum_errors));
    r.push(counter_line("  fragmented:  ", st.fragmented));
    r.push(counter_line("  GSO:         ", st.gso));
    assert(r@.map_values(|s: String| s@) =~= stats_text(*st));
    r
}

/// The line of a dump that sets server mode.
pub open spec fn dump_server_text(cfg: TutuConfig) -> Seq<char> {
    "server max-age "@ + decimal(cfg.session_max_age as nat) + "\n"@
}

/// The line of a dump that sets server mode.
pub fn dump_server_line(cfg: &TutuConfig) -> (s: String)
    ensures
        s@ == dump_server_text(*cfg),
{
    let mut s = String::new();
    push_str(&mut s, "server max-age ");
    push_number(&mut s, cfg.session_max_age as u64);
    push_str(&mut s, "\n");
    assert(s@ =~= dump_server_text(*cfg));
    s
}

/// The `server-add` command of a dump that restores a user of a server.
pub open spec fn dump_user_info_text(
    map: Map<u8, Seq<char>>,
    numeric: bool,
    u: TutuUserInfo,
    addr: Seq<char>,
) -> Seq<char> {
    "server-add "@ + hostname_text(map, numeric, u.uid, true) + " addr "@ + addr + " icmp-id "@
        + net_u16_text(u.value.icmp_id) + " port "@ + net_u16_text(u.value.dport) + comment_text(
        u.value.comment@,
        true,
    )
}

/// The `server-add` command of a dump that restores a user of a server.
pub fn dump_user_info_line(map: &UidMap, flags: &GlobalFlags, u: &TutuUserInfo, addr: &str) -> (s:
    String)
    ensures
        s@ == dump_user_info_text(map@, flags.numeric, *u, addr@),
{
    let mut s = String::new();
    push_str(&mut s, "server-add ");
    let host = resolve_hostname(map, flags, u.uid, true);
    push_str(&mut s, host.as_str());
    push_str(&mut s, " addr ");
    push_str(&mut s, addr);
    push_str(&mut s, " icmp-id ");
    push_net_u16(&mut s, u.value.icmp_id);
    push_str(&mut s, " port ");
    push_net_u16(&mut s, u.value.dport);
    let c = format_comment(&u.value.comment, true);
    push_str(&mut s, c.as_str());
    assert(s@ =~= dump_user_info_text(map@, flags.numeric, *u, addr@));
    s
}

/// The `client-add` command of a dump that restores a peer of a client;
/// entries without a port are left out.
pub open spec fn dump_egress_text(
    map: Map<u8, Seq<char>>,
    numeric: bool,
    e: TutuEgress,
    addr: Seq<char>,
) -> Option<Seq<char>> {
    if to_network_order(e.key.port) == 0 {
        None
    } else {
        Some(
            "client-add "@ + hostname_text(map, numeric, e.value.uid, true) + " addr "@ + addr
                + " port "@ + net_u16_text(e.key.port) + comment_text(e.value.comment@, true),
        )
    }
}

/// The `client-add` command of a dump that restores a peer of a client.
pub fn dump_egress_line(map: &UidMap, flags: &GlobalFlags, e: &TutuEgress, addr: &str) -> (r:
    Option<String>)
    ensures
        match dump_egress_text(map@, flags.numeric, *e, addr@) {
            Some(t) => r matches Some(s) && s@ == t,
            None => r is None,
        },
{
    if ntohs(e.key.port) == 0 {
        return None;
    }
    let mut s = String::new();
    push_str(&mut s, "client-add ");
    let host = resolve_hostname(map, flags, e.value.uid, true);
    push_str(&mut s, host.as_str());
    push_str(&mut s, " addr ");
    push_str(&mut s, addr);
    push_str(&mut s, " port ");
    push_net_u16(&mut s, e.key.port);
    let c = format_comment(&e.value.comment, true);
    push_str(&mut s, c.as_str());
    assert(s@ =~= dump_egress_text(map@, flags.numeric, *e, addr@)->0);
    Some(s)
}

/// What `client-add` reports once the peer is set.
pub open spec fn client_set_text(
    map: Map<u8, Seq<char>>,
    numeric: bool,
    uid: u8,
    addr: Seq<char>,
    port: u16,
    comment: Seq<char>,
) -> Seq<char> {
    "client set: "@ + hostname_text(map, numeric, uid, false) + ", address: "@ + addr + ", port: "@
        + decimal(port as nat) + ", comment: "@ + comment
}

/// What `client-add` reports once the peer at the address whose text is
/// `addr` is set.
pub fn client_set_message(map: &UidMap, flags: &GlobalFlags, req: &PeerArgs, addr: &str) -> (s:
    String)
    ensures
        s@ == client_set_text(map@, flags.numeric, req.uid, addr@, req.port, req.comment@),
{
    let mut s = String::new();
    push_str(&mut s, "client set: ");
    let host = resolve_hostname(map, flags, req.uid, false);
    push_str(&mut s, host.as_str());
    push_str(&mut s, ", address: ");
    push_str(&mut s, addr);
    push_str(&mut s, ", port: ");
    push_number(&mut s, req.port as u64);
    push_str(&mut s, ", comment: ");
    push_str(&mut s, req.comment.as_str());
    assert(s@ =~= client_set_text(map@, flags.numeric, req.uid, addr@, req.port, req.comment@));
    s
}

/// What `server-add` reports once the user is set.
pub open spec fn server_updated_text(
    map: Map<u8, Seq<char>>,
    numeric: bool,
    uid: u8,
    addr: Seq<char>,
    port: u16,
    comment: Seq<char>,
) -> Seq<char> {
    "server updated: "@ + hostname_text(map, numeric, uid, false) + ", address: "@ + addr
        + ", dport: "@ + decimal(port as nat) + ", comment: "@ + comment
}

/// What `server-add` reports once the user, reached at the address whose
/// text is `addr`, is set.
pub fn server_updated_message(map: &UidMap, flags: &GlobalFlags, req: &PeerArgs, addr: &str) -> (s:
    String)
    ensures
        s@ == server_updated_text(map@, flags.numeric, req.uid, addr@, req.port, req.comment@),
{
    let mut s = String::new();
    push_str(&mut s, "server updated: ");
    let host = resolve_hostname(map, flags, req.uid, false);
    push_str(&mut s, host.as_str());
    push_str(&mut s, ", address: ");
    push_str(&mut s, addr);
    push_str(&mut s, ", dport: ");
    push_number(&mut s, req.port as u64);
    push_str(&mut s, ", comment: ");
    push_str(&mut s, req.comment.as_str());
    assert(s@ =~= server_updated_text(map@, flags.numeric, req.uid, addr@, req.port, req.comment@));
    s
}

/// A report about one user: a fixed text followed by how the user is shown.
pub open spec fn user_report_text(
    lead: Seq<char>,
    map: Map<u8, Seq<char>>,
    numeric: bool,
    uid: u8,
) -> Seq<char> {
    lead + hostname_text(map, numeric, uid, false)
}

/// A report about one user, such as `client deleted: ` or
/// `server deleted: ` followed by the user.
pub fn user_report(lead: &str, map: &UidMap, flags: &GlobalFlags, uid: u8) -> (s: String)
    ensures
        s@ == user_report_text(lead@, map@, flags.numeric, uid),
{
    let mut s = String::new();
    push_str(&mut s, lead);
    let host = resolve_hostname(map, flags, uid, false);
    push_str(&mut s, host.as_str());
    assert(s@ =~= user_report_text(lead@, map@, flags.numeric, uid));
    s
}

/// What `server` reports.
pub open spec fn server_mode_text(cfg: TutuConfig) -> Seq<char> {
    "server mode, session max age="@ + decimal(cfg.session_max_age as nat)
}

/// What `server` reports.
pub fn server_mode_message(cfg: &TutuConfig) -> (s: String)
    ensures
        s@ == server_mode_text(*cfg),
{
    let mut s = String::new();
    push_str(&mut s, "server mode, session max age=");
    push_number(&mut s, cfg.session_max_age as u64);
    assert(s@ =~= server_mode_text(*cfg));
    s
}


/// The words that name a user in a dump: `uid N`, or `user NAME` for a
/// user with a host name.
pub open spec fn user_words(map: Map<u8, Seq<char>>, numeric: bool, uid: u8) -> Seq<Seq<char>> {
    if !numeric && map.contains_key(uid) {
        seq!["user"@, map[uid]]
    } else {
        seq!["uid"@, decimal(uid as nat)]
    }
}

/// The words of the comment of a dumped entry: none for an empty comment.
pub open spec fn comment_words(comment: Seq<char>) -> Seq<Seq<char>> {
    if comment.len() > 0 {
        seq!["comment"@, comment]
    } else {
        seq![]
    }
}

/// The arguments of the `client-add` command that a dump writes for a
/// peer of a client, word by word.
pub open spec fn dumped_client_add_args(
    map: Map<u8, Seq<char>>,
    numeric: bool,
    uid: u8,
    addr: Seq<char>,
    port: u16,
    comment: Seq<char>,
) -> Seq<Seq<char>> {
    user_words(map, numeric, uid) + seq!["addr"@, addr, "port"@, decimal(port as nat)] + comment_words(comment)
}

/// The arguments of the `server-add` command that a dump writes for a
/// user of a server, word by word.
pub open spec fn dumped_server_add_args(
    map: Map<u8, Seq<char>>,
    numeric: bool,
    uid: u8,
    addr: Seq<char>,
    echo_id: u16,
    port: u16,
    comment: Seq<char>,
) -> Seq<Seq<char>> {
    user_words(map, numeric, uid) + seq!["addr"@, addr, "icmp-id"@, decimal(echo_id as nat), "port"@, decimal(port as nat)]
        + comment_words(comment)
}

/// Whether the way a dump names user `uid` leads back to that user: by
/// number, unless some host is named like the number; by name, if no
/// smaller user id has the same name.
pub open spec fn user_named_back(map: Map<u8, Seq<char>>, numeric: bool, uid: u8) -> bool {
    if !numeric && map.contains_key(uid) {
        spec_get_uid(map, map[uid]) == Some(uid)
    } else {
        spec_get_uid(map, decimal(uid as nat)) is None
    }
}

/// The keywords of the peer commands are distinct words.
proof fn lemma_keyword_words()
    ensures
        forall|o: OptSet| #[trigger] keyword("uid"@, o) == (if o.uid { Some(CmdOption::Uid) } else { None::<CmdOption> }),
        forall|o: OptSet| #[trigger] keyword("user"@, o) == (if o.uid { Some(CmdOption::Uid) } else { None::<CmdOption> }),
        forall|o: OptSet| #[trigger] keyword("addr"@, o) == (if o.address { Some(CmdOption::Address) } else { None::<CmdOption> }),
        forall|o: OptSet| #[trigger] keyword("port"@, o) == (if o.port { Some(CmdOption::Port) } else { None::<CmdOption> }),
        forall|o: OptSet| #[trigger] keyword("icmp-id"@, o) == (if o.echo_id { Some(CmdOption::EchoId) } else { None::<CmdOption> }),
        forall|o: OptSet| #[trigger] keyword("comment"@, o) == (if o.comment { Some(CmdOption::Comment) } else { None::<CmdOption> }),
{
    reveal_strlit("uid");
    reveal_strlit("user");
    reveal_strlit("addr");
    reveal_strlit("address");
    reveal_strlit("port");
    reveal_strlit("icmp-id");
    reveal_strlit("comment");
    assert("uid"@.len() != "user"@.len());
    assert("uid"@.len() != "addr"@.len());
    assert("uid"@.len() != "address"@.len());
    assert("uid"@.len() != "port"@.len());
    assert("uid"@.len() != "icmp-id"@.len());
    assert("uid"@.len() != "comment"@.len());
    assert("user"@[0] != "addr"@[0]);
    assert("user"@.len() != "address"@.len());
    assert("user"@[0] != "port"@[0]);
    assert("user"@.len() != "icmp-id"@.len());
    assert("user"@.len() != "comment"@.len());
    assert("addr"@.len() != "address"@.len());
    assert("addr"@[0] != "port"@[0]);
    assert("addr"@.len() != "icmp-id"@.len());
    assert("addr"@.len() != "comment"@.len());
    assert("address"@.len() != "port"@.len());
    assert("address"@[0] != "icmp-id"@[0]);
    assert("address"@[0] != "comment"@[0]);
    assert("port"@.len() != "icmp-id"@.len());
    assert("port"@.len() != "comment"@.len());
    assert("icmp-id"@[0] != "comment"@[0]);
}

/// Reading the user words of a dump gives back the user.
proof fn lemma_user_words_read_back(map: Map<u8, Seq<char>>, numeric: bool, uid: u8)
    requires
        user_named_back(map, numeric, uid),
    ensures
        user_words(map, numeric, uid).len() == 2,
        spec_resolve_uid(map, user_words(map, numeric, uid)[1]) == Some(uid),
{
    if !(!numeric && map.contains_key(uid)) {
        lemma_parse_decimal(uid as nat, 255);
    }
}

/// `client-add` reads back, word by word, what a dump wrote for a peer of
/// a client: the same user, address, port and comment.
pub proof fn lemma_dumped_client_add_read_back(
    map: Map<u8, Seq<char>>,
    numeric: bool,
    uid: u8,
    addr: Seq<char>,
    port: u16,
    comment: Seq<char>,
)
    requires
        addr.len() > 0,
        port != 0,
        user_named_back(map, numeric, uid),
    ensures
        spec_cmd_client_add(map, dumped_client_add_args(map, numeric, uid, addr, port, comment)) == Ok::<
            PeerArgsV,
            CmdErrorV,
        >(PeerArgsV { address: addr, port, echo_id: 0, uid, uid_set: true, comment }),
{
    lemma_keyword_words();
    lemma_user_words_read_back(map, numeric, uid);
    lemma_parse_decimal(port as nat, 65535);
    let w = dumped_client_add_args(map, numeric, uid, addr, port, comment);
    let who = user_words(map, numeric, uid);
    let o = client_add_opts();
    assert(keyword(who[0], o) == Some(CmdOption::Uid));
    let s0 = no_peer_args();
    let s1 = PeerArgsV { uid, uid_set: true, ..s0 };
    let s2 = PeerArgsV { address: addr, ..s1 };
    let s3 = PeerArgsV { port, ..s2 };
    assert(w[0] == who[0] && w[1] == who[1] && w[2] == "addr"@ && w[3] == addr && w[4] == "port"@ && w[5]
        == decimal(port as nat));
    if comment.len() > 0 {
        assert(w.len() == 8 && w[6] == "comment"@ && w[7] == comment);
        let s4 = PeerArgsV { comment, ..s3 };
        assert(scan_args(map, w, o, 8, s4) == Ok::<PeerArgsV, CmdErrorV>(s4));
        assert(scan_args(map, w, o, 6, s3) == Ok::<PeerArgsV, CmdErrorV>(s4));
        assert(scan_args(map, w, o, 4, s2) == Ok::<PeerArgsV, CmdErrorV>(s4));
        assert(scan_args(map, w, o, 2, s1) == Ok::<PeerArgsV, CmdErrorV>(s4));
        assert(scan_args(map, w, o, 0, s0) == Ok::<PeerArgsV, CmdErrorV>(s4));
        assert(s4 == PeerArgsV { address: addr, port, echo_id: 0, uid, uid_set: true, comment });
    } else {
        assert(w.len() == 6);
        assert(comment =~= Seq::<char>::empty());
        assert(scan_args(map, w, o, 6, s3) == Ok::<PeerArgsV, CmdErrorV>(s3));
        assert(scan_args(map, w, o, 4, s2) == Ok::<PeerArgsV, CmdErrorV>(s3));
        assert(scan_args(map, w, o, 2, s1) == Ok::<PeerArgsV, CmdErrorV>(s3));
        assert(scan_args(map, w, o, 0, s0) == Ok::<PeerArgsV, CmdErrorV>(s3));
        assert(s3 == PeerArgsV { address: addr, port, echo_id: 0, uid, uid_set: true, comment });
    }
}

/// `server-add` reads back, word by word, what a dump wrote for a user of
/// a server: the same user, address, ICMP id, port and comment.
pub proof fn lemma_dumped_server_add_read_back(
    map: Map<u8, Seq<char>>,
    numeric: bool,
    uid: u8,
    addr: Seq<char>,
    echo_id: u16,
    port: u16,
    comment: Seq<char>,
)
    requires
        addr.len() > 0,
        port != 0,
        user_named_back(map, numeric, uid),
    ensures
        spec_cmd_server_add(map, dumped_server_add_args(map, numeric, uid, addr, echo_id, port, comment))
            == Ok::<PeerArgsV, CmdErrorV>(PeerArgsV { address: addr, port, echo_id, uid, uid_set: true, comment }),
{
    lemma_keyword_words();
    lemma_user_words_read_back(map, numeric, uid);
    lemma_parse_decimal(port as nat, 65535);
    lemma_parse_decimal(echo_id as nat, 65535);
    let w = dumped_server_add_args(map, numeric, uid, addr, echo_id, port, comment);
    let who = user_words(map, numeric, uid);
    let o = server_add_opts();
    assert(keyword(who[0], o) == Some(CmdOption::Uid));
    let s0 = no_peer_args();
    let s1 = PeerArgsV { uid, uid_set: true, ..s0 };
    let s2 = PeerArgsV { address: addr, ..s1 };
    let s3 = PeerArgsV { echo_id, ..s2 };
    let s4 = PeerArgsV { port, ..s3 };
    assert(w[0] == who[0] && w[1] == who[1] && w[2] == "addr"@ && w[3] == addr && w[4] == "icmp-id"@ && w[5]
        == decimal(echo_id as nat) && w[6] == "port"@ && w[7] == decimal(port as nat));
    if comment.len() > 0 {
        assert(w.len() == 10 && w[8] == "comment"@ && w[9] == comment);
        let s5 = PeerArgsV { comment, ..s4 };
        assert(scan_args(map, w, o, 10, s5) == Ok::<PeerArgsV, CmdErrorV>(s5));
        assert(scan_args(map, w, o, 8, s4) == Ok::<PeerArgsV, CmdErrorV>(s5));
        assert(scan_args(map, w, o, 6, s3) == Ok::<PeerArgsV, CmdErrorV>(s5));
        assert(scan_args(map, w, o, 4, s2) == Ok::<PeerArgsV, CmdErrorV>(s5));
        assert(scan_args(map, w, o, 2, s1) == Ok::<PeerArgsV, CmdErrorV>(s5));
        assert(scan_args(map, w, o, 0, s0) == Ok::<PeerArgsV, CmdErrorV>(s5));
        assert(s5 == PeerArgsV { address: addr, port, echo_id, uid, uid_set: true, comment });
    } else {
        assert(w.len() == 8);
        assert(comment =~= Seq::<char>::empty());
        assert(scan_args(map, w, o, 8, s4) == Ok::<PeerArgsV, CmdErrorV>(s4));
        assert(scan_args(map, w, o, 6, s3) == Ok::<PeerArgsV, CmdErrorV>(s4));
        assert(scan_args(map, w, o, 4, s2) == Ok::<PeerArgsV, CmdErrorV>(s4));
        assert(scan_args(map, w, o, 2, s1) == Ok::<PeerArgsV, CmdErrorV>(s4));
        assert(scan_args(map, w, o, 0, s0) == Ok::<PeerArgsV, CmdErrorV>(s4));
        assert(s4 == PeerArgsV { address: addr, port, echo_id, uid, uid_set: true, comment });
    }
}

} // verus!
