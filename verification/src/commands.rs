//! The control commands: what each one reads from its arguments, which
//! structures it hands to the module, and what it reports.

use crate::config::{
    EgressPeerKey, EgressPeerValue, In6Addr, IngressPeerKey, IngressPeerValue, TutuConfig,
    TutuEgress, TutuIngress, TutuUserInfo, UserInfoValue, TUTU_ANY, TUTU_NOEXIST,
};
use crate::error::{CmdError, CmdErrorV, CmdOption};
use crate::netlink::NlError;
use crate::helper::{comment_field, copy_comment, resolve_uid, spec_resolve_uid};
use crate::netlink::zeros;
use crate::text::{decimal, lemma_parse_decimal, parse_u16, parse_u32, spec_parse_unsigned, str_eq, IntErrorKind};
use crate::uid_map::UidMap;
use crate::wire::{htons, lemma_network_order_in_memory, ne_bytes_u32, ne_bytes_u64, to_network_order};
use vstd::prelude::*;
use vstd::utf8::encode_utf8;

verus! {

/// The arguments of a command as character sequences.
pub open spec fn args_view(args: Seq<String>) -> Seq<Seq<char>> {
    args.map_values(|s: String| s@)
}

/// Which keywords a command reads.
#[derive(Clone, Copy, Debug, PartialEq, Eq, Structural)]
pub struct OptSet {
    /// `address` / `addr`
    pub address: bool,
    /// `port`
    pub port: bool,
    /// `icmp-id`
    pub echo_id: bool,
    /// `uid` / `user`
    pub uid: bool,
    /// `comment`
    pub comment: bool,
}

/// The values that a peer command was given.
#[derive(Clone, Debug, PartialEq, Eq)]
pub struct PeerArgs {
    pub address: String,
    pub port: u16,
    pub echo_id: u16,
    pub uid: u8,
    /// Whether a user was given at all.
    pub uid_set: bool,
    pub comment: String,
}

/// [`PeerArgs`] with its texts taken as character sequences.
pub struct PeerArgsV {
    pub address: Seq<char>,
    pub port: u16,
    pub echo_id: u16,
    pub uid: u8,
    pub uid_set: bool,
    pub comment: Seq<char>,
}

impl View for PeerArgs {
    type V = PeerArgsV;

    open spec fn view(&self) -> PeerArgsV {
        PeerArgsV {
            address: self.address@,
            port: self.port,
            echo_id: self.echo_id,
            uid: self.uid,
            uid_set: self.uid_set,
            comment: self.comment@,
        }
    }
}

/// The values before any keyword is read: empty texts, zero numbers, no user.
pub open spec fn no_peer_args() -> PeerArgsV {
    PeerArgsV {
        address: Seq::empty(),
        port: 0,
        echo_id: 0,
        uid: 0,
        uid_set: false,
        comment: Seq::empty(),
    }
}

/// A result of argument reading, with its texts taken as character sequences.
pub open spec fn peer_result_view(r: Result<PeerArgs, CmdError>) -> Result<PeerArgsV, CmdErrorV> {
    match r {
        Ok(a) => Ok(a@),
        Err(e) => Err(e@),
    }
}

/// The option that `tok` names, among those that `opts` reads.
pub open spec fn keyword(tok: Seq<char>, opts: OptSet) -> Option<CmdOption> {
    if opts.address && (tok == "address"@ || tok == "addr"@) {
        Some(CmdOption::Address)
    } else if opts.port && tok == "port"@ {
        Some(CmdOption::Port)
    } else if opts.echo_id && tok == "icmp-id"@ {
        Some(CmdOption::EchoId)
    } else if opts.uid && (tok == "uid"@ || tok == "user"@) {
        Some(CmdOption::Uid)
    } else if opts.comment && tok == "comment"@ {
        Some(CmdOption::Comment)
    } else {
        None
    }
}

/// What giving option `o` the value `v` does: texts are taken as they
/// are, numbers must be `u16`, and a user must be known or a user id.
pub open spec fn apply_value(
    map: Map<u8, Seq<char>>,
    st: PeerArgsV,
    o: CmdOption,
    v: Seq<char>,
) -> Result<PeerArgsV, CmdErrorV> {
    match o {
        CmdOption::Address => Ok(PeerArgsV { address: v, ..st }),
        CmdOption::Port => match spec_parse_unsigned(v, 65535) {
            Ok(n) => Ok(PeerArgsV { port: n as u16, ..st }),
            Err(k) => Err(CmdErrorV::InvalidNumber(k)),
        },
        CmdOption::EchoId => match spec_parse_unsigned(v, 65535) {
            Ok(n) => Ok(PeerArgsV { echo_id: n as u16, ..st }),
            Err(k) => Err(CmdErrorV::InvalidNumber(k)),
        },
        CmdOption::Uid => match spec_resolve_uid(map, v) {
            Some(u) => Ok(PeerArgsV { uid: u, uid_set: true, ..st }),
            None => Err(CmdErrorV::UnknownUser(v)),
        },
        CmdOption::Comment => Ok(PeerArgsV { comment: v, ..st }),
    }
}

/// Reads the arguments from index `i` on: a keyword takes the next
/// argument as its value (an error if there is none, or if the value is
/// refused); other arguments are skipped; a later value replaces an
/// earlier one.
pub open spec fn scan_args(
    map: Map<u8, Seq<char>>,
    args: Seq<Seq<char>>,
    opts: OptSet,
    i: nat,
    st: PeerArgsV,
) -> Result<PeerArgsV, CmdErrorV>
    decreases args.len() - i,
{
    if i >= args.len() {
        Ok(st)
    } else {
        match keyword(args[i as int], opts) {
            None => scan_args(map, args, opts, i + 1, st),
            Some(o) => if i + 1 >= args.len() {
                Err(CmdErrorV::MissingValue(o))
            } else {
                match apply_value(map, st, o, args[i + 1 as int]) {
                    Ok(st2) => scan_args(map, args, opts, i + 2, st2),
                    Err(e) => Err(e),
                }
            },
        }
    }
}

/// The option that `tok` names, among those that `opts` reads.
fn keyword_of(tok: &str, opts: OptSet) -> (r: Option<CmdOption>)
    ensures
        r == keyword(tok@, opts),
{
    if opts.address && (str_eq(tok, "address") || str_eq(tok, "addr")) {
        Some(CmdOption::Address)
    } else if opts.port && str_eq(tok, "port") {
        Some(CmdOption::Port)
    } else if opts.echo_id && str_eq(tok, "icmp-id") {
        Some(CmdOption::EchoId)
    } else if opts.uid && (str_eq(tok, "uid") || str_eq(tok, "user")) {
        Some(CmdOption::Uid)
    } else if opts.comment && str_eq(tok, "comment") {
        Some(CmdOption::Comment)
    } else {
        None
    }
}

/// Gives option `o` the value `v`.
fn apply_arg(map: &UidMap, st: PeerArgs, o: CmdOption, v: &String) -> (r: Result<PeerArgs, CmdError>)
    ensures
        peer_result_view(r) == apply_value(map@, st@, o, v@),
{
    let mut st = st;
    match o {
        CmdOption::Address => {
            st.address = v.clone();
            Ok(st)
        },
        CmdOption::Port => match parse_u16(v.as_str()) {
            Ok(n) => {
                st.port = n;
                Ok(st)
            },
            Err(k) => Err(CmdError::InvalidNumber(k)),
        },
        CmdOption::EchoId => match parse_u16(v.as_str()) {
            Ok(n) => {
                st.echo_id = n;
                Ok(st)
            },
            Err(k) => Err(CmdError::InvalidNumber(k)),
        },
        CmdOption::Uid => match resolve_uid(map, v.as_str()) {
            Ok(u) => {
                st.uid = u;
                st.uid_set = true;
                Ok(st)
            },
            Err(e) => Err(e),
        },
        CmdOption::Comment => {
            st.comment = v.clone();
            Ok(st)
        },
    }
}

/// Reads the keywords that `opts` names, with their values, from `args`.
pub fn parse_peer_args(map: &UidMap, args: &[String], opts: OptSet) -> (r: Result<PeerArgs, CmdError>)
    ensures
        peer_result_view(r) == scan_args(map@, args_view(args@), opts, 0, no_peer_args()),
{
    let ghost a = args_view(args@);
    let mut st = PeerArgs {
        address: String::new(),
        port: 0,
        echo_id: 0,
        uid: 0,
        uid_set: false,
        comment: String::new(),
    };
    assert(st@ == no_peer_args());
    let mut i: usize = 0;
    while i < args.len()
        invariant
            a == args_view(args@),
            i <= args@.len(),
            scan_args(map@, a, opts, 0, no_peer_args()) == scan_args(map@, a, opts, i as nat, st@),
        decreases args@.len() - i,
    {
        let o = keyword_of(args[i].as_str(), opts);
        assert(a[i as int] == args@[i as int]@);
        match o {
            None => {
                i = i + 1;
            },
            Some(o) => {
                if i + 1 >= args.len() {
                    return Err(CmdError::MissingValue(o));
                }
                assert(a[i + 1] == args@[i + 1]@);
                match apply_arg(map, st, o, &args[i + 1]) {
                    Ok(st2) => {
                        st = st2;
                        i = i + 2;
                    },
                    Err(e) => {
                        return Err(e);
                    },
                }
            },
        }
    }
    Ok(st)
}


/// The keywords of `client-add`.
pub open spec fn client_add_opts() -> OptSet {
    OptSet { address: true, port: true, echo_id: false, uid: true, comment: true }
}

/// The keywords of `client-del`.
pub open spec fn client_del_opts() -> OptSet {
    OptSet { address: true, port: false, echo_id: false, uid: true, comment: false }
}

/// The keywords of `server-add`.
pub open spec fn server_add_opts() -> OptSet {
    OptSet { address: true, port: true, echo_id: true, uid: true, comment: true }
}

/// The keywords of `server-del`.
pub open spec fn server_del_opts() -> OptSet {
    OptSet { address: false, port: false, echo_id: false, uid: true, comment: false }
}

/// What `client-add` reads: the user, a non-empty address and a non-zero
/// port are required.
pub open spec fn spec_cmd_client_add(map: Map<u8, Seq<char>>, args: Seq<Seq<char>>) -> Result<
    PeerArgsV,
    CmdErrorV,
> {
    match scan_args(map, args, client_add_opts(), 0, no_peer_args()) {
        Ok(a) => if a.address.len() == 0 || a.port == 0 || !a.uid_set {
            Err(CmdErrorV::ClientAddIncomplete)
        } else {
            Ok(a)
        },
        Err(e) => Err(e),
    }
}

/// What `client-del` reads: the user and a non-empty address are required.
pub open spec fn spec_cmd_client_del(map: Map<u8, Seq<char>>, args: Seq<Seq<char>>) -> Result<
    PeerArgsV,
    CmdErrorV,
> {
    match scan_args(map, args, client_del_opts(), 0, no_peer_args()) {
        Ok(a) => if a.address.len() == 0 || !a.uid_set {
            Err(CmdErrorV::ClientDelIncomplete)
        } else {
            Ok(a)
        },
        Err(e) => Err(e),
    }
}

/// What `server-add` reads: the user, a non-empty address and a non-zero
/// port are required; the ICMP id defaults to zero.
pub open spec fn spec_cmd_server_add(map: Map<u8, Seq<char>>, args: Seq<Seq<char>>) -> Result<
    PeerArgsV,
    CmdErrorV,
> {
    match scan_args(map, args, server_add_opts(), 0, no_peer_args()) {
        Ok(a) => if !a.uid_set || a.address.len() == 0 || a.port == 0 {
            Err(CmdErrorV::ServerAddIncomplete)
        } else {
            Ok(a)
        },
        Err(e) => Err(e),
    }
}

/// What `server-del` reads: the user, which is required.
pub open spec fn spec_cmd_server_del(map: Map<u8, Seq<char>>, args: Seq<Seq<char>>) -> Result<
    u8,
    CmdErrorV,
> {
    match scan_args(map, args, server_del_opts(), 0, no_peer_args()) {
        Ok(a) => if !a.uid_set {
            Err(CmdErrorV::ServerDelIncomplete)
        } else {
            Ok(a.uid)
        },
        Err(e) => Err(e),
    }
}

/// Reading arguments that end in a keyword and its value reads what comes
/// before, then gives that option the value.
proof fn lemma_scan_args_append(
    map: Map<u8, Seq<char>>,
    args: Seq<Seq<char>>,
    opts: OptSet,
    i: nat,
    st: PeerArgsV,
    k: Seq<char>,
    v: Seq<char>,
)
    requires
        i <= args.len(),
        scan_args(map, args, opts, i, st) is Ok,
        keyword(k, opts) is Some,
    ensures
        scan_args(map, args + seq![k, v], opts, i, st) == apply_value(
            map,
            scan_args(map, args, opts, i, st)->Ok_0,
            keyword(k, opts)->Some_0,
            v,
        ),
    decreases args.len() - i,
{
    let a2 = args + seq![k, v];
    if i == args.len() {
        assert(a2[i as int] == k && a2[i + 1 as int] == v);
        let o = keyword(k, opts)->Some_0;
        match apply_value(map, st, o, v) {
            Ok(st2) => {
                assert(scan_args(map, a2, opts, i + 2, st2) == Ok::<PeerArgsV, CmdErrorV>(st2));
            },
            Err(_) => {},
        }
    } else {
        assert(a2[i as int] == args[i as int]);
        match keyword(args[i as int], opts) {
            None => lemma_scan_args_append(map, args, opts, i + 1, st, k, v),
            Some(o) => {
                assert(a2[i + 1 as int] == args[i + 1 as int]);
                if let Ok(st2) = apply_value(map, st, o, args[i + 1 as int]) {
                    lemma_scan_args_append(map, args, opts, i + 2, st2, k, v);
                }
            },
        }
    }
}

/// The keywords that the peer commands read, by name.
proof fn lemma_keyword_names(opts: OptSet)
    ensures
        opts.address ==> keyword("address"@, opts) == Some(CmdOption::Address),
        opts.address ==> keyword("addr"@, opts) == Some(CmdOption::Address),
        opts.port ==> keyword("port"@, opts) == Some(CmdOption::Port),
        opts.echo_id ==> keyword("icmp-id"@, opts) == Some(CmdOption::EchoId),
        opts.uid ==> keyword("uid"@, opts) == Some(CmdOption::Uid),
        opts.uid ==> keyword("user"@, opts) == Some(CmdOption::Uid),
        opts.comment ==> keyword("comment"@, opts) == Some(CmdOption::Comment),
{
    reveal_strlit("address");
    reveal_strlit("addr");
    reveal_strlit("port");
    reveal_strlit("icmp-id");
    reveal_strlit("uid");
    reveal_strlit("user");
    reveal_strlit("comment");
    assert("address"@.len() != "addr"@.len());
    assert("port"@[0] != "addr"@[0] && "port"@.len() != "address"@.len());
    assert("icmp-id"@[0] != "address"@[0] && "icmp-id"@.len() != "addr"@.len() && "icmp-id"@.len() != "port"@.len());
    assert("uid"@.len() != "address"@.len() && "uid"@.len() != "addr"@.len() && "uid"@.len() != "port"@.len()
        && "uid"@.len() != "icmp-id"@.len());
    assert("user"@.len() != "address"@.len() && "user"@[0] != "addr"@[0] && "user"@[0] != "port"@[0]
        && "user"@.len() != "icmp-id"@.len());
    assert("comment"@[0] != "address"@[0] && "comment"@.len() != "addr"@.len() && "comment"@.len() != "port"@.len()
        && "comment"@[0] != "icmp-id"@[0] && "comment"@.len() != "uid"@.len() && "comment"@.len() != "user"@.len());
}

/// `server-add` reads each keyword, and the last value given wins: to
/// arguments it accepts, adding `port P` (P not zero, in decimal),
/// `icmp-id I`, `addr A` or `address A` (A not empty), `comment C`, or
/// `user U` / `uid U` (U a known user or a user id) at the end changes
/// that one setting and nothing else.
pub proof fn lemma_server_add_keywords(
    map: Map<u8, Seq<char>>,
    args: Seq<Seq<char>>,
    port: u16,
    id: u16,
    addr: Seq<char>,
    comment: Seq<char>,
    user: Seq<char>,
)
    requires
        spec_cmd_server_add(map, args) is Ok,
    ensures
        ({
            let a = spec_cmd_server_add(map, args)->Ok_0;
            &&& port != 0 ==> spec_cmd_server_add(map, args + seq!["port"@, decimal(port as nat)]) == Ok::<
                PeerArgsV,
                CmdErrorV,
            >(PeerArgsV { port, ..a })
            &&& spec_cmd_server_add(map, args + seq!["icmp-id"@, decimal(id as nat)]) == Ok::<PeerArgsV, CmdErrorV>(
                PeerArgsV { echo_id: id, ..a },
            )
            &&& addr.len() > 0 ==> spec_cmd_server_add(map, args + seq!["addr"@, addr]) == Ok::<PeerArgsV, CmdErrorV>(
                PeerArgsV { address: addr, ..a },
            )
            &&& addr.len() > 0 ==> spec_cmd_server_add(map, args + seq!["address"@, addr]) == Ok::<
                PeerArgsV,
                CmdErrorV,
            >(PeerArgsV { address: addr, ..a })
            &&& spec_cmd_server_add(map, args + seq!["comment"@, comment]) == Ok::<PeerArgsV, CmdErrorV>(
                PeerArgsV { comment, ..a },
            )
            &&& spec_resolve_uid(map, user) is Some ==> spec_cmd_server_add(map, args + seq!["user"@, user]) == Ok::<
                PeerArgsV,
                CmdErrorV,
            >(PeerArgsV { uid: spec_resolve_uid(map, user)->Some_0, uid_set: true, ..a })
            &&& spec_resolve_uid(map, user) is Some ==> spec_cmd_server_add(map, args + seq!["uid"@, user]) == Ok::<
                PeerArgsV,
                CmdErrorV,
            >(PeerArgsV { uid: spec_resolve_uid(map, user)->Some_0, uid_set: true, ..a })
        }),
{
    let o = server_add_opts();
    let s0 = no_peer_args();
    lemma_keyword_names(o);
    lemma_parse_decimal(port as nat, 65535);
    lemma_parse_decimal(id as nat, 65535);
    lemma_scan_args_append(map, args, o, 0, s0, "port"@, decimal(port as nat));
    lemma_scan_args_append(map, args, o, 0, s0, "icmp-id"@, decimal(id as nat));
    lemma_scan_args_append(map, args, o, 0, s0, "addr"@, addr);
    lemma_scan_args_append(map, args, o, 0, s0, "address"@, addr);
    lemma_scan_args_append(map, args, o, 0, s0, "comment"@, comment);
    lemma_scan_args_append(map, args, o, 0, s0, "user"@, user);
    lemma_scan_args_append(map, args, o, 0, s0, "uid"@, user);
}

/// `client-add` reads each keyword, and the last value given wins: to
/// arguments it accepts, adding `port P` (P not zero, in decimal),
/// `addr A` or `address A` (A not empty), `comment C`, or `user U` /
/// `uid U` (U a known user or a user id) at the end changes that one
/// setting and nothing else.
pub proof fn lemma_client_add_keywords(
    map: Map<u8, Seq<char>>,
    args: Seq<Seq<char>>,
    port: u16,
    addr: Seq<char>,
    comment: Seq<char>,
    user: Seq<char>,
)
    requires
        spec_cmd_client_add(map, args) is Ok,
    ensures
        ({
            let a = spec_cmd_client_add(map, args)->Ok_0;
            &&& port != 0 ==> spec_cmd_client_add(map, args + seq!["port"@, decimal(port as nat)]) == Ok::<
                PeerArgsV,
                CmdErrorV,
            >(PeerArgsV { port, ..a })
            &&& addr.len() > 0 ==> spec_cmd_client_add(map, args + seq!["addr"@, addr]) == Ok::<PeerArgsV, CmdErrorV>(
                PeerArgsV { address: addr, ..a },
            )
            &&& addr.len() > 0 ==> spec_cmd_client_add(map, args + seq!["address"@, addr]) == Ok::<
                PeerArgsV,
                CmdErrorV,
            >(PeerArgsV { address: addr, ..a })
            &&& spec_cmd_client_add(map, args + seq!["comment"@, comment]) == Ok::<PeerArgsV, CmdErrorV>(
                PeerArgsV { comment, ..a },
            )
            &&& spec_resolve_uid(map, user) is Some ==> spec_cmd_client_add(map, args + seq!["user"@, user]) == Ok::<
                PeerArgsV,
                CmdErrorV,
            >(PeerArgsV { uid: spec_resolve_uid(map, user)->Some_0, uid_set: true, ..a })
            &&& spec_resolve_uid(map, user) is Some ==> spec_cmd_client_add(map, args + seq!["uid"@, user]) == Ok::<
                PeerArgsV,
                CmdErrorV,
            >(PeerArgsV { uid: spec_resolve_uid(map, user)->Some_0, uid_set: true, ..a })
        }),
{
    let o = client_add_opts();
    let s0 = no_peer_args();
    lemma_keyword_names(o);
    lemma_parse_decimal(port as nat, 65535);
    lemma_scan_args_append(map, args, o, 0, s0, "port"@, decimal(port as nat));
    lemma_scan_args_append(map, args, o, 0, s0, "addr"@, addr);
    lemma_scan_args_append(map, args, o, 0, s0, "address"@, addr);
    lemma_scan_args_append(map, args, o, 0, s0, "comment"@, comment);
    lemma_scan_args_append(map, args, o, 0, s0, "user"@, user);
    lemma_scan_args_append(map, args, o, 0, s0, "uid"@, user);
}

/// `client-del` reads the address and the user, and the last value given
/// wins: to arguments it accepts, adding `addr A` or `address A` (A not
/// empty), or `user U` / `uid U` (U a known user or a user id) at the end
/// changes that one setting and nothing else.
pub proof fn lemma_client_del_keywords(
    map: Map<u8, Seq<char>>,
    args: Seq<Seq<char>>,
    addr: Seq<char>,
    user: Seq<char>,
)
    requires
        spec_cmd_client_del(map, args) is Ok,
    ensures
        ({
            let a = spec_cmd_client_del(map, args)->Ok_0;
            &&& addr.len() > 0 ==> spec_cmd_client_del(map, args + seq!["addr"@, addr]) == Ok::<PeerArgsV, CmdErrorV>(
                PeerArgsV { address: addr, ..a },
            )
            &&& addr.len() > 0 ==> spec_cmd_client_del(map, args + seq!["address"@, addr]) == Ok::<
                PeerArgsV,
                CmdErrorV,
            >(PeerArgsV { address: addr, ..a })
            &&& spec_resolve_uid(map, user) is Some ==> spec_cmd_client_del(map, args + seq!["user"@, user]) == Ok::<
                PeerArgsV,
                CmdErrorV,
            >(PeerArgsV { uid: spec_resolve_uid(map, user)->Some_0, uid_set: true, ..a })
            &&& spec_resolve_uid(map, user) is Some ==> spec_cmd_client_del(map, args + seq!["uid"@, user]) == Ok::<
                PeerArgsV,
                CmdErrorV,
            >(PeerArgsV { uid: spec_resolve_uid(map, user)->Some_0, uid_set: true, ..a })
        }),
{
    let o = client_del_opts();
    let s0 = no_peer_args();
    lemma_keyword_names(o);
    lemma_scan_args_append(map, args, o, 0, s0, "addr"@, addr);
    lemma_scan_args_append(map, args, o, 0, s0, "address"@, addr);
    lemma_scan_args_append(map, args, o, 0, s0, "user"@, user);
    lemma_scan_args_append(map, args, o, 0, s0, "uid"@, user);
}

/// Reads the arguments of `client-add`.
pub fn cmd_client_add(map: &UidMap, args: &[String]) -> (r: Result<PeerArgs, CmdError>)
    ensures
        peer_result_view(r) == spec_cmd_client_add(map@, args_view(args@)),
{
    let opts = OptSet { address: true, port: true, echo_id: false, uid: true, comment: true };
    let a = parse_peer_args(map, args, opts)?;
    if a.address.as_str().is_empty() || a.port == 0 || !a.uid_set {
        return Err(CmdError::ClientAddIncomplete);
    }
    Ok(a)
}

/// Reads the arguments of `client-del`.
pub fn cmd_client_del(map: &UidMap, args: &[String]) -> (r: Result<PeerArgs, CmdError>)
    ensures
        peer_result_view(r) == spec_cmd_client_del(map@, args_view(args@)),
{
    let opts = OptSet { address: true, port: false, echo_id: false, uid: true, comment: false };
    let a = parse_peer_args(map, args, opts)?;
    if a.address.as_str().is_empty() || !a.uid_set {
        return Err(CmdError::ClientDelIncomplete);
    }
    Ok(a)
}

/// Reads the arguments of `server-add`.
pub fn cmd_server_add(map: &UidMap, args: &[String]) -> (r: Result<PeerArgs, CmdError>)
    ensures
        peer_result_view(r) == spec_cmd_server_add(map@, args_view(args@)),
{
    let opts = OptSet { address: true, port: true, echo_id: true, uid: true, comment: true };
    let a = parse_peer_args(map, args, opts)?;
    if !a.uid_set || a.address.as_str().is_empty() || a.port == 0 {
        return Err(CmdError::ServerAddIncomplete);
    }
    Ok(a)
}

/// Whether `x` is the request that deletes user `uid` on a server: the
/// user id and nothing else.
pub open spec fn is_user_info_delete(x: TutuUserInfo, uid: u8) -> bool {
    &&& x.uid == uid
    &&& x._pad0@ == zeros(3)
    &&& x.value.address@ == zeros(16)
    &&& x.value.icmp_id == 0
    &&& x.value.dport == 0
    &&& x.value.comment@ == zeros(22)
    &&& x._pad1@ == zeros(2)
    &&& x.map_flags == 0
}

/// The request that deletes user `uid` on a server.
pub fn user_info_delete_request(uid: u8) -> (x: TutuUserInfo)
    ensures
        is_user_info_delete(x, uid),
{
    let x = TutuUserInfo {
        uid,
        _pad0: [0; 3],
        value: UserInfoValue { address: [0; 16], icmp_id: 0, dport: 0, comment: [0; 22] },
        _pad1: [0; 2],
        map_flags: 0,
    };
    assert(x._pad0@ =~= zeros(3));
    assert(x.value.address@ =~= zeros(16));
    assert(x.value.comment@ =~= zeros(22));
    assert(x._pad1@ =~= zeros(2));
    x
}

/// Reads the arguments of `server-del` and gives the request that deletes
/// the user.
pub fn cmd_server_del(map: &UidMap, args: &[String]) -> (r: Result<TutuUserInfo, CmdError>)
    ensures
        match spec_cmd_server_del(map@, args_view(args@)) {
            Ok(u) => r matches Ok(x) && is_user_info_delete(x, u),
            Err(e) => r matches Err(f) && f@ == e,
        },
{
    let opts = OptSet { address: false, port: false, echo_id: false, uid: true, comment: false };
    let a = parse_peer_args(map, args, opts)?;
    if !a.uid_set {
        return Err(CmdError::ServerDelIncomplete);
    }
    Ok(user_info_delete_request(a.uid))
}

/// The session age that `server` sets: the value after the last
/// `max-age` keyword that has one (60 without any), which must be a `u32`.
pub open spec fn server_max_age(args: Seq<Seq<char>>, i: nat, age: u32) -> Result<u32, IntErrorKind>
    decreases args.len() - i,
{
    if i >= args.len() {
        Ok(age)
    } else if args[i as int] == "max-age"@ && i + 1 < args.len() {
        match spec_parse_unsigned(args[i + 1 as int], 0xffff_ffff) {
            Ok(n) => server_max_age(args, i + 2, n as u32),
            Err(k) => Err(k),
        }
    } else {
        server_max_age(args, i + 1, age)
    }
}

/// Whether `c` is the configuration of a server whose sessions live `age`
/// seconds.
pub open spec fn is_server_config(c: TutuConfig, age: u32) -> bool {
    c.session_max_age == age && c._pad0 == 0 && c.is_server == 1 && c._pad1@ == zeros(2)
}

/// Whether `c` is the configuration of a client.
pub open spec fn is_client_config(c: TutuConfig) -> bool {
    c.session_max_age == 0 && c._pad0 == 0 && c.is_server == 0 && c._pad1@ == zeros(2)
}

/// Reading `server` arguments that end in `max-age N` reads what comes
/// before, then takes N.
proof fn lemma_max_age_append(args: Seq<Seq<char>>, i: nat, age: u32, v: Seq<char>)
    requires
        i <= args.len(),
        args.len() == 0 || args.last() != "max-age"@,
        server_max_age(args, i, age) is Ok,
    ensures
        server_max_age(args + seq!["max-age"@, v], i, age) == match spec_parse_unsigned(v, 0xffff_ffff) {
            Ok(n) => Ok::<u32, IntErrorKind>(n as u32),
            Err(k) => Err(k),
        },
    decreases args.len() - i,
{
    let a2 = args + seq!["max-age"@, v];
    if i == args.len() {
        assert(a2[i as int] == "max-age"@ && a2[i + 1 as int] == v);
        if let Ok(n) = spec_parse_unsigned(v, 0xffff_ffff) {
            assert(server_max_age(a2, i + 2, n as u32) == Ok::<u32, IntErrorKind>(n as u32));
        }
    } else {
        assert(a2[i as int] == args[i as int]);
        if args[i as int] == "max-age"@ && i + 1 < args.len() {
            assert(a2[i + 1 as int] == args[i + 1 as int]);
            if let Ok(n) = spec_parse_unsigned(args[i + 1 as int], 0xffff_ffff) {
                lemma_max_age_append(args, i + 2, n as u32, v);
            }
        } else {
            if args[i as int] == "max-age"@ {
                assert(i + 1 == args.len());
                assert(args.last() == "max-age"@);
            }
            lemma_max_age_append(args, i + 1, age, v);
        }
    }
}

/// `server` takes the session age from the last `max-age` keyword: 60
/// seconds without arguments, and, to arguments it accepts that do not
/// end in a bare `max-age`, adding `max-age N` (N in decimal) sets N.
pub proof fn lemma_server_max_age(args: Seq<Seq<char>>, n: u32)
    ensures
        server_max_age(seq![], 0, 60) == Ok::<u32, IntErrorKind>(60),
        server_max_age(args, 0, 60) is Ok && (args.len() == 0 || args.last() != "max-age"@) ==> server_max_age(
            args + seq!["max-age"@, decimal(n as nat)],
            0,
            60,
        ) == Ok::<u32, IntErrorKind>(n),
{
    if server_max_age(args, 0, 60) is Ok && (args.len() == 0 || args.last() != "max-age"@) {
        lemma_parse_decimal(n as nat, 0xffff_ffff);
        lemma_max_age_append(args, 0, 60, decimal(n as nat));
    }
}

/// The configurations that `server` and `client` set, as the module reads
/// them: the session age in host byte order, then a zero byte, the server
/// flag (1 for a server, 0 for a client) and two zero bytes.
pub proof fn lemma_mode_config_bytes(c: TutuConfig, age: u32)
    ensures
        is_server_config(c, age) ==> c.spec_bytes() == ne_bytes_u32(age) + seq![0u8, 1u8, 0u8, 0u8],
        is_client_config(c) ==> c.spec_bytes() == ne_bytes_u32(0) + seq![0u8, 0u8, 0u8, 0u8],
{
    c.lemma_layout();
    assert(zeros(2) =~= seq![0u8, 0u8]);
    if is_server_config(c, age) || is_client_config(c) {
        let b = c.spec_bytes();
        assert(b =~= b.subrange(0, 4) + seq![b[4], b[5]] + b.subrange(6, 8));
    }
}

/// Reads the arguments of `server` and gives the configuration to set.
pub fn cmd_server(args: &[String]) -> (r: Result<TutuConfig, CmdError>)
    ensures
        match server_max_age(args_view(args@), 0, 60) {
            Ok(age) => r matches Ok(c) && is_server_config(c, age),
            Err(k) => r == Err::<TutuConfig, CmdError>(CmdError::InvalidNumber(k)),
        },
{
    let ghost a = args_view(args@);
    let mut max_age: u32 = 60;
    let mut i: usize = 0;
    while i < args.len()
        invariant
            a == args_view(args@),
            i <= args@.len(),
            server_max_age(a, 0, 60) == server_max_age(a, i as nat, max_age),
        decreases args@.len() - i,
    {
        assert(a[i as int] == args@[i as int]@);
        if str_eq(args[i].as_str(), "max-age") && i + 1 < args.len() {
            assert(a[i + 1] == args@[i + 1]@);
            match parse_u32(args[i + 1].as_str()) {
                Ok(n) => {
                    max_age = n;
                    i = i + 2;
                },
                Err(k) => {
                    return Err(CmdError::InvalidNumber(k));
                },
            }
        } else {
            i = i + 1;
        }
    }
    let c = TutuConfig { session_max_age: max_age, _pad0: 0, is_server: 1, _pad1: [0; 2] };
    assert(c._pad1@ =~= zeros(2));
    Ok(c)
}

/// The configuration that `client` sets.
pub fn cmd_client(args: &[String]) -> (c: TutuConfig)
    ensures
        is_client_config(c),
{
    let _ = args;
    let c = TutuConfig { session_max_age: 0, _pad0: 0, is_server: 0, _pad1: [0; 2] };
    assert(c._pad1@ =~= zeros(2));
    c
}

/// Client commands need the module in client mode.
pub fn require_client_mode(cfg: &TutuConfig) -> (r: Result<(), CmdError>)
    ensures
        cfg.is_server == 0 ==> r is Ok,
        cfg.is_server != 0 ==> r == Err::<(), CmdError>(CmdError::NotClientMode),
{
    if cfg.is_server != 0 {
        Err(CmdError::NotClientMode)
    } else {
        Ok(())
    }
}

/// Server commands need the module in server mode.
pub fn require_server_mode(cfg: &TutuConfig) -> (r: Result<(), CmdError>)
    ensures
        cfg.is_server != 0 ==> r is Ok,
        cfg.is_server == 0 ==> r == Err::<(), CmdError>(CmdError::NotServerMode),
{
    if cfg.is_server == 0 {
        Err(CmdError::NotServerMode)
    } else {
        Ok(())
    }
}

/// The comment field that a comment text gives.
fn comment_bytes(comment: &String) -> (c: [u8; 22])
    ensures
        c@ == comment_field(encode_utf8(comment@)),
{
    let mut c: [u8; 22] = [0; 22];
    copy_comment(&mut c, comment.as_str());
    c
}

/// Whether `ing` and `eg` are the two entries that `client-add` installs
/// for the arguments `a` and a peer at `in6`: the ingress entry, which must
/// not exist yet, maps the address and user to the port; the egress entry
/// maps the address and port to the user and comment. Ports are in network
/// byte order; padding is zero.
pub open spec fn is_client_add_entries(ing: TutuIngress, eg: TutuEgress, a: PeerArgsV, in6: In6Addr) -> bool {
    &&& ing.key.address == in6
    &&& ing.key.uid == a.uid
    &&& ing.key._pad0@ == zeros(3)
    &&& ing.value.port == to_network_order(a.port)
    &&& ing._pad0@ == zeros(2)
    &&& ing.map_flags == TUTU_NOEXIST
    &&& eg.key.address == in6
    &&& eg.key.port == to_network_order(a.port)
    &&& eg.key._pad0@ == zeros(2)
    &&& eg.value.uid == a.uid
    &&& eg.value.comment@ == comment_field(encode_utf8(a.comment))
    &&& eg._pad0@ == zeros(5)
    &&& eg.map_flags == TUTU_ANY
}

/// The two entries that `client-add` installs for a peer at `in6`.
pub fn client_add_entries(req: &PeerArgs, in6: In6Addr) -> (r: (TutuIngress, TutuEgress))
    ensures
        is_client_add_entries(r.0, r.1, req@, in6),
{
    let port = htons(req.port);
    let comment = comment_bytes(&req.comment);
    let egress = TutuEgress {
        key: EgressPeerKey { address: in6, port, _pad0: [0; 2] },
        value: EgressPeerValue { uid: req.uid, comment },
        _pad0: [0; 5],
        map_flags: TUTU_ANY,
    };
    let ingress = TutuIngress {
        key: IngressPeerKey { address: in6, uid: req.uid, _pad0: [0; 3] },
        value: IngressPeerValue { port },
        _pad0: [0; 2],
        map_flags: TUTU_NOEXIST,
    };
    assert(egress.key._pad0@ =~= zeros(2));
    assert(egress._pad0@ =~= zeros(5));
    assert(ingress.key._pad0@ =~= zeros(3));
    assert(ingress._pad0@ =~= zeros(2));
    (ingress, egress)
}

/// Whether `x` is the entry that `server-add` installs for the arguments
/// `a`: the user is reached at `in6` with the given ICMP id and destination
/// port (network byte order) and comment; padding is zero.
pub open spec fn is_user_info_entry(x: TutuUserInfo, a: PeerArgsV, in6: In6Addr) -> bool {
    &&& x.uid == a.uid
    &&& x._pad0@ == zeros(3)
    &&& x.value.address == in6
    &&& x.value.icmp_id == to_network_order(a.echo_id)
    &&& x.value.dport == to_network_order(a.port)
    &&& x.value.comment@ == comment_field(encode_utf8(a.comment))
    &&& x._pad1@ == zeros(2)
    &&& x.map_flags == TUTU_ANY
}

/// The entry that `server-add` installs for a user reached at `in6`.
pub fn user_info_entry(req: &PeerArgs, in6: In6Addr) -> (x: TutuUserInfo)
    ensures
        is_user_info_entry(x, req@, in6),
{
    let comment = comment_bytes(&req.comment);
    let x = TutuUserInfo {
        uid: req.uid,
        _pad0: [0; 3],
        value: UserInfoValue {
            address: in6,
            icmp_id: htons(req.echo_id),
            dport: htons(req.port),
            comment,
        },
        _pad1: [0; 2],
        map_flags: TUTU_ANY,
    };
    assert(x._pad0@ =~= zeros(3));
    assert(x._pad1@ =~= zeros(2));
    x
}

/// The two bytes of a port or id as the module reads it: most significant
/// first.
pub open spec fn big_endian_u16(v: u16) -> Seq<u8> {
    seq![(v / 256) as u8, (v % 256) as u8]
}

/// What `client-add` writes into the module, byte by byte: the ingress
/// entry holds the address (0..16), the user (16), three zero bytes, the
/// port most significant byte first (20..22), two zero bytes and the flag
/// that the entry must not exist yet (1, at 24..32); the egress entry holds
/// the address (0..16), the port (16..18), two zero bytes, the user (20),
/// the comment field (21..43), five zero bytes and the flag 0 (48..56).
pub proof fn lemma_client_add_request_bytes(ing: TutuIngress, eg: TutuEgress, a: PeerArgsV, in6: In6Addr)
    requires
        is_client_add_entries(ing, eg, a, in6),
    ensures
        ing.spec_bytes().len() == 32,
        ing.spec_bytes().subrange(0, 16) == in6@,
        ing.spec_bytes()[16] == a.uid,
        ing.spec_bytes().subrange(17, 20) == seq![0u8, 0u8, 0u8],
        ing.spec_bytes().subrange(20, 22) == big_endian_u16(a.port),
        ing.spec_bytes().subrange(22, 24) == seq![0u8, 0u8],
        ing.spec_bytes().subrange(24, 32) == ne_bytes_u64(1),
        eg.spec_bytes().len() == 56,
        eg.spec_bytes().subrange(0, 16) == in6@,
        eg.spec_bytes().subrange(16, 18) == big_endian_u16(a.port),
        eg.spec_bytes().subrange(18, 20) == seq![0u8, 0u8],
        eg.spec_bytes()[20] == a.uid,
        eg.spec_bytes().subrange(21, 43) == comment_field(encode_utf8(a.comment)),
        eg.spec_bytes().subrange(43, 48) == seq![0u8, 0u8, 0u8, 0u8, 0u8],
        eg.spec_bytes().subrange(48, 56) == ne_bytes_u64(0),
{
    ing.lemma_layout();
    eg.lemma_layout();
    lemma_network_order_in_memory(a.port);
    assert(zeros(3) =~= seq![0u8, 0u8, 0u8]);
    assert(zeros(2) =~= seq![0u8, 0u8]);
    assert(zeros(5) =~= seq![0u8, 0u8, 0u8, 0u8, 0u8]);
}

/// What `server-add` writes into the module, byte by byte: the user (0),
/// three zero bytes, the address (4..20), the ICMP id (20..22) and then
/// the destination port (22..24), each most significant byte first, the
/// comment field (24..46), two zero bytes and the flag 0 (48..56).
pub proof fn lemma_server_add_request_bytes(x: TutuUserInfo, a: PeerArgsV, in6: In6Addr)
    requires
        is_user_info_entry(x, a, in6),
    ensures
        x.spec_bytes().len() == 56,
        x.spec_bytes()[0] == a.uid,
        x.spec_bytes().subrange(1, 4) == seq![0u8, 0u8, 0u8],
        x.spec_bytes().subrange(4, 20) == in6@,
        x.spec_bytes().subrange(20, 22) == big_endian_u16(a.echo_id),
        x.spec_bytes().subrange(22, 24) == big_endian_u16(a.port),
        x.spec_bytes().subrange(24, 46) == comment_field(encode_utf8(a.comment)),
        x.spec_bytes().subrange(46, 48) == seq![0u8, 0u8],
        x.spec_bytes().subrange(48, 56) == ne_bytes_u64(0),
{
    x.lemma_layout();
    lemma_network_order_in_memory(a.port);
    lemma_network_order_in_memory(a.echo_id);
    assert(zeros(3) =~= seq![0u8, 0u8, 0u8]);
    assert(zeros(2) =~= seq![0u8, 0u8]);
}

/// What `client-del` writes into the module to delete the ingress entry:
/// the address (0..16), the user (16), and zeros everywhere else.
pub proof fn lemma_ingress_delete_bytes(x: TutuIngress, uid: u8, in6: In6Addr)
    requires
        is_ingress_delete(x, uid, in6),
    ensures
        x.spec_bytes().len() == 32,
        x.spec_bytes().subrange(0, 16) == in6@,
        x.spec_bytes()[16] == uid,
        x.spec_bytes().subrange(17, 24) == seq![0u8, 0u8, 0u8, 0u8, 0u8, 0u8, 0u8],
        x.spec_bytes().subrange(24, 32) == ne_bytes_u64(0),
{
    x.lemma_layout();
    lemma_network_order_in_memory(0);
    assert(zeros(3) =~= seq![0u8, 0u8, 0u8]);
    assert(zeros(2) =~= seq![0u8, 0u8]);
    let b = x.spec_bytes();
    assert(b.subrange(17, 24) =~= b.subrange(17, 20) + b.subrange(20, 22) + b.subrange(22, 24));
    assert(to_network_order(0) == 0);
}

/// Whether an egress entry belongs to user `uid` at `in6`.
pub open spec fn egress_matches(e: TutuEgress, uid: u8, in6: Seq<u8>) -> bool {
    e.value.uid == uid && e.key.address@ == in6
}

/// The last of `es` that belongs to user `uid` at `in6`.
pub open spec fn last_matching_egress(es: Seq<TutuEgress>, uid: u8, in6: Seq<u8>) -> Option<TutuEgress>
    decreases es.len(),
{
    if es.len() == 0 {
        None
    } else if egress_matches(es.last(), uid, in6) {
        Some(es.last())
    } else {
        last_matching_egress(es.drop_last(), uid, in6)
    }
}

/// Whether two addresses are equal.
fn same_address(a: &In6Addr, b: &In6Addr) -> (r: bool)
    ensures
        r == (a@ == b@),
{
    let mut i: usize = 0;
    while i < 16
        invariant
            0 <= i <= 16,
            forall|j: int| 0 <= j < i ==> a@[j] == b@[j],
        decreases 16 - i,
    {
        if a[i] != b[i] {
            return false;
        }
        i = i + 1;
    }
    assert(a@ =~= b@);
    true
}

/// Among the egress entries that the module lists, the one that
/// `client-del` deletes: the last that belongs to user `uid` at `in6`.
pub fn egress_to_delete(entries: &[TutuEgress], uid: u8, in6: &In6Addr) -> (r: Option<TutuEgress>)
    ensures
        r == last_matching_egress(entries@, uid, in6@),
{
    let mut found: Option<TutuEgress> = None;
    let mut i: usize = 0;
    while i < entries.len()
        invariant
            i <= entries@.len(),
            found == last_matching_egress(entries@.take(i as int), uid, in6@),
        decreases entries@.len() - i,
    {
        let e = entries[i];
        assert(entries@.take(i + 1).drop_last() =~= entries@.take(i as int));
        if e.value.uid == uid && same_address(&e.key.address, in6) {
            found = Some(e);
        }
        i = i + 1;
    }
    assert(entries@.take(entries@.len() as int) =~= entries@);
    found
}

/// Whether `x` is the request that deletes the ingress entry of user `uid`
/// at `in6`.
pub open spec fn is_ingress_delete(x: TutuIngress, uid: u8, in6: In6Addr) -> bool {
    &&& x.key.address == in6
    &&& x.key.uid == uid
    &&& x.key._pad0@ == zeros(3)
    &&& x.value.port == 0
    &&& x._pad0@ == zeros(2)
    &&& x.map_flags == 0
}

/// The request that deletes the ingress entry of user `uid` at `in6`.
pub fn ingress_delete_request(uid: u8, in6: In6Addr) -> (x: TutuIngress)
    ensures
        is_ingress_delete(x, uid, in6),
{
    let x = TutuIngress {
        key: IngressPeerKey { address: in6, uid, _pad0: [0; 3] },
        value: IngressPeerValue { port: 0 },
        _pad0: [0; 2],
        map_flags: 0,
    };
    assert(x.key._pad0@ =~= zeros(3));
    assert(x._pad0@ =~= zeros(2));
    x
}

/// The interface names that `load` and `unload` are given: the argument
/// after each `iface` keyword that has one.
pub open spec fn iface_args(args: Seq<Seq<char>>, i: nat) -> Seq<Seq<char>>
    decreases args.len() - i,
{
    if i >= args.len() {
        seq![]
    } else if args[i as int] == "iface"@ && i + 1 < args.len() {
        seq![args[i + 1 as int]] + iface_args(args, i + 2)
    } else {
        iface_args(args, i + 1)
    }
}

/// The interface names that `load` and `unload` are given.
pub fn iface_names(args: &[String]) -> (r: Vec<String>)
    ensures
        args_view(r@) == iface_args(args_view(args@), 0),
{
    let ghost a = args_view(args@);
    let mut r: Vec<String> = Vec::new();
    let mut i: usize = 0;
    while i < args.len()
        invariant
            a == args_view(args@),
            i <= args@.len(),
            iface_args(a, 0) == args_view(r@) + iface_args(a, i as nat),
        decreases args@.len() - i,
    {
        assert(a[i as int] == args@[i as int]@);
        if str_eq(args[i].as_str(), "iface") && i + 1 < args.len() {
            assert(a[i + 1] == args@[i + 1]@);
            let ghost before = r@;
            r.push(args[i + 1].clone());
            assert(args_view(r@) =~= args_view(before) + seq![a[i + 1]]);
            i = i + 2;
        } else {
            i = i + 1;
        }
    }
    assert(args_view(r@) + iface_args(a, i as nat) =~= args_view(r@));
    r
}


/// The requests of `client-add`, given the module's configuration and the
/// address that the peer's name resolved to (or why it did not): first a
/// refused argument; then a module not in client mode; then the failed
/// lookup; otherwise the ingress entry and the egress entry, to be sent in
/// that order.
pub fn client_add_requests(
    map: &UidMap,
    args: &[String],
    cfg: &TutuConfig,
    in6: Result<In6Addr, CmdError>,
) -> (r: Result<(TutuIngress, TutuEgress), CmdError>)
    ensures
        match spec_cmd_client_add(map@, args_view(args@)) {
            Err(e) => r matches Err(f) && f@ == e,
            Ok(a) => if cfg.is_server != 0 {
                r == Err::<(TutuIngress, TutuEgress), CmdError>(CmdError::NotClientMode)
            } else {
                match in6 {
                    Err(e) => r == Err::<(TutuIngress, TutuEgress), CmdError>(e),
                    Ok(x) => r matches Ok((ing, eg)) && is_client_add_entries(ing, eg, a, x),
                }
            },
        },
{
    let req = cmd_client_add(map, args)?;
    require_client_mode(cfg)?;
    let x = in6?;
    Ok(client_add_entries(&req, x))
}

/// What the answer to the ingress request of `client-add` decides: a
/// refusal stops the command (possibly a port conflict), and no egress
/// request follows; otherwise the egress request is sent.
pub fn after_ingress(res: Result<(), NlError>) -> (r: Result<(), CmdError>)
    ensures
        match res {
            Ok(()) => r is Ok,
            Err(e) => r == Err::<(), CmdError>(CmdError::IngressUpdateFailed(e)),
        },
{
    match res {
        Ok(()) => Ok(()),
        Err(e) => Err(CmdError::IngressUpdateFailed(e)),
    }
}

/// The requests of `client-del`, given the address that the peer's name
/// resolved to (or why it did not) and the egress entries that the module
/// lists: first a refused argument; then the failed lookup; otherwise the
/// egress entry to delete, if any (the last that belongs to the user at
/// that address), to be sent first, and the request that deletes the
/// ingress entry, sent after it.
pub fn client_del_requests(
    map: &UidMap,
    args: &[String],
    in6: Result<In6Addr, CmdError>,
    egress: &[TutuEgress],
) -> (r: Result<(Option<TutuEgress>, TutuIngress), CmdError>)
    ensures
        match spec_cmd_client_del(map@, args_view(args@)) {
            Err(e) => r matches Err(f) && f@ == e,
            Ok(a) => match in6 {
                Err(e) => r == Err::<(Option<TutuEgress>, TutuIngress), CmdError>(e),
                Ok(x) => r matches Ok((d, ing)) && d == last_matching_egress(egress@, a.uid, x@)
                    && is_ingress_delete(ing, a.uid, x),
            },
        },
{
    let req = cmd_client_del(map, args)?;
    let x = in6?;
    let d = egress_to_delete(egress, req.uid, &x);
    Ok((d, ingress_delete_request(req.uid, x)))
}

/// Whether `client-del` deleted anything: the egress entry or the ingress
/// entry. It succeeds either way; the answer only chooses the report.
pub fn client_del_deleted(egress_deleted: bool, ingress_deleted: bool) -> (r: bool)
    ensures
        r == (egress_deleted || ingress_deleted),
{
    egress_deleted || ingress_deleted
}

/// The request of `server-add`, given the module's configuration and the
/// address that the user's name resolved to (or why it did not): first a
/// refused argument; then a module not in server mode; then the failed
/// lookup; otherwise the user entry to send.
pub fn server_add_request(
    map: &UidMap,
    args: &[String],
    cfg: &TutuConfig,
    in6: Result<In6Addr, CmdError>,
) -> (r: Result<TutuUserInfo, CmdError>)
    ensures
        match spec_cmd_server_add(map@, args_view(args@)) {
            Err(e) => r matches Err(f) && f@ == e,
            Ok(a) => if cfg.is_server == 0 {
                r == Err::<TutuUserInfo, CmdError>(CmdError::NotServerMode)
            } else {
                match in6 {
                    Err(e) => r == Err::<TutuUserInfo, CmdError>(e),
                    Ok(x) => r matches Ok(u) && is_user_info_entry(u, a, x),
                }
            },
        },
{
    let req = cmd_server_add(map, args)?;
    require_server_mode(cfg)?;
    let x = in6?;
    Ok(user_info_entry(&req, x))
}

} // verus!
