//! The remote-control client: its command line, the address it sends to,
//! when it tries again, and how it checks a response.

use crate::commands::args_view;
use crate::helper::IpAddress;
use crate::text::{decimal, int_error_text, lemma_parse_decimal, push_str, spec_parse_unsigned, str_eq, IntErrorKind};
use crate::tunnel::{
    current_unix_time, kdf_m_cost, kdf_ok, open_packet, open_parts, packet_nonce, packet_parts,
    packet_ts, spec_replay_add, spec_replay_check, ReplayWindow, ReplayWindowV, TunnelError,
    hashes, lemma_strip_padding, response_pad_len, strip_padding, HEADER_LEN, TAG,
    DEFAULT_SERVER_PORT,
    DEFAULT_WINDOW, MIN_LEN,
};
use vstd::prelude::*;
use vstd::utf8::encode_utf8;

verus! {

/// The address family the client may use for the server.
#[derive(Clone, Copy, Debug, PartialEq, Eq, Structural)]
pub enum Family {
    Unspec,
    Inet4,
    Inet6,
}

/// The settings of the client.
#[derive(Clone, Debug, PartialEq, Eq)]
pub struct Args {
    /// Where the script comes from: a file name, or `-` for standard input.
    pub script: String,
    pub psk: String,
    pub server: String,
    pub server_port: u16,
    pub family: Family,
    pub window: u32,
    pub max_retries: u16,
}

/// The settings of the client while its command line is read, with texts
/// taken as character sequences.
pub struct ArgsV {
    pub script: Seq<char>,
    pub psk: Option<Seq<char>>,
    pub server: Seq<char>,
    pub server_port: u16,
    pub family: Family,
    pub window: u32,
    pub max_retries: u16,
}

impl View for Args {
    type V = ArgsV;

    open spec fn view(&self) -> ArgsV {
        ArgsV {
            script: self.script@,
            psk: Some(self.psk@),
            server: self.server@,
            server_port: self.server_port,
            family: self.family,
            window: self.window,
            max_retries: self.max_retries,
        }
    }
}

/// Why a value on the command line was refused.
#[derive(Clone, Debug, PartialEq, Eq)]
pub enum ValueError {
    /// The text is not a `u16`.
    NotU16(String, IntErrorKind),
    /// The text is not a `u32`.
    NotU32(String, IntErrorKind),
    /// A port of zero.
    ZeroPort,
    /// A window of zero seconds.
    ZeroWindow,
}

/// A [`ValueError`] with its text taken as a character sequence.
pub enum ValueErrorV {
    NotU16(Seq<char>, IntErrorKind),
    NotU32(Seq<char>, IntErrorKind),
    ZeroPort,
    ZeroWindow,
}

impl View for ValueError {
    type V = ValueErrorV;

    open spec fn view(&self) -> ValueErrorV {
        match self {
            ValueError::NotU16(s, k) => ValueErrorV::NotU16(s@, *k),
            ValueError::NotU32(s, k) => ValueErrorV::NotU32(s@, *k),
            ValueError::ZeroPort => ValueErrorV::ZeroPort,
            ValueError::ZeroWindow => ValueErrorV::ZeroWindow,
        }
    }
}

/// How a refused value is reported.
pub open spec fn value_error_text(e: ValueErrorV) -> Seq<char> {
    match e {
        ValueErrorV::NotU16(s, k) => "invalid u16 '"@ + s + "': "@ + int_error_text(k),
        ValueErrorV::NotU32(s, k) => "invalid u32 '"@ + s + "': "@ + int_error_text(k),
        ValueErrorV::ZeroPort => "port must be non-zero"@,
        ValueErrorV::ZeroWindow => "window must be > 0"@,
    }
}

impl ValueError {
    /// How this refused value is reported.
    pub fn message(&self) -> (s: String)
        ensures
            s@ == value_error_text(self@),
    {
        let mut s = String::new();
        match self {
            ValueError::NotU16(t, k) => {
                push_str(&mut s, "invalid u16 '");
                push_str(&mut s, t.as_str());
                push_str(&mut s, "': ");
                push_str(&mut s, k.message());
            },
            ValueError::NotU32(t, k) => {
                push_str(&mut s, "invalid u32 '");
                push_str(&mut s, t.as_str());
                push_str(&mut s, "': ");
                push_str(&mut s, k.message());
            },
            ValueError::ZeroPort => push_str(&mut s, "port must be non-zero"),
            ValueError::ZeroWindow => push_str(&mut s, "window must be > 0"),
        }
        assert(s@ =~= value_error_text(self@));
        s
    }
}

/// A `u16` read from `s`.
pub open spec fn spec_u16_value(s: Seq<char>) -> Result<u16, ValueErrorV> {
    match spec_parse_unsigned(s, 65535) {
        Ok(n) => Ok(n as u16),
        Err(k) => Err(ValueErrorV::NotU16(s, k)),
    }
}

/// A `u32` read from `s`.
pub open spec fn spec_u32_value(s: Seq<char>) -> Result<u32, ValueErrorV> {
    match spec_parse_unsigned(s, 0xffff_ffff) {
        Ok(n) => Ok(n as u32),
        Err(k) => Err(ValueErrorV::NotU32(s, k)),
    }
}

/// A port read from `s`: a non-zero `u16`.
pub open spec fn spec_port_value(s: Seq<char>) -> Result<u16, ValueErrorV> {
    match spec_u16_value(s) {
        Ok(p) => if p == 0 {
            Err(ValueErrorV::ZeroPort)
        } else {
            Ok(p)
        },
        Err(e) => Err(e),
    }
}

/// A window read from `s`: a non-zero `u32`.
pub open spec fn spec_window_value(s: Seq<char>) -> Result<u32, ValueErrorV> {
    match spec_u32_value(s) {
        Ok(w) => if w == 0 {
            Err(ValueErrorV::ZeroWindow)
        } else {
            Ok(w)
        },
        Err(e) => Err(e),
    }
}

/// A result whose error is a [`ValueError`], with its text taken as a
/// character sequence.
pub open spec fn value_result_view<T>(r: Result<T, ValueError>) -> Result<T, ValueErrorV> {
    match r {
        Ok(v) => Ok(v),
        Err(e) => Err(e@),
    }
}

/// Reads a `u16`.
pub fn parse_u16(s: &str) -> (r: Result<u16, ValueError>)
    ensures
        value_result_view(r) == spec_u16_value(s@),
{
    match crate::text::parse_u16(s) {
        Ok(v) => Ok(v),
        Err(k) => Err(ValueError::NotU16(s.to_owned(), k)),
    }
}

/// Reads a `u32`.
pub fn parse_u32(s: &str) -> (r: Result<u32, ValueError>)
    ensures
        value_result_view(r) == spec_u32_value(s@),
{
    match crate::text::parse_u32(s) {
        Ok(v) => Ok(v),
        Err(k) => Err(ValueError::NotU32(s.to_owned(), k)),
    }
}

/// Reads a port: a non-zero `u16`.
pub fn parse_port(s: &str) -> (r: Result<u16, ValueError>)
    ensures
        value_result_view(r) == spec_port_value(s@),
{
    let p = parse_u16(s)?;
    if p == 0 {
        return Err(ValueError::ZeroPort);
    }
    Ok(p)
}

/// Reads a window: a non-zero `u32`.
pub fn parse_window(s: &str) -> (r: Result<u32, ValueError>)
    ensures
        value_result_view(r) == spec_window_value(s@),
{
    let w = parse_u32(s)?;
    if w == 0 {
        return Err(ValueError::ZeroWindow);
    }
    Ok(w)
}

/// Whether the word `tok` is the keyword `kw`.
pub fn is_keyword(tok: &str, kw: &str) -> (r: bool)
    ensures
        r == (tok@ == kw@),
{
    str_eq(tok, kw)
}

/// The words that ask for help.
pub open spec fn spec_is_help(tok: Seq<char>) -> bool {
    tok == "-h"@ || tok == "--help"@ || tok == "help"@
}

/// Whether the word `tok` asks for help.
pub fn is_help_kw(tok: &str) -> (r: bool)
    ensures
        r == spec_is_help(tok@),
{
    str_eq(tok, "-h") || str_eq(tok, "--help") || str_eq(tok, "help")
}

/// Why the command line of the client was refused.
#[derive(Clone, Debug, PartialEq, Eq)]
pub enum ArgsError {
    /// A keyword is the last word and has no value.
    MissingValue,
    /// A value was refused.
    Value(ValueError),
    /// Help was asked for.
    Help,
    /// A word that is no keyword.
    UnknownKeyword(String),
    /// No pre-shared key was given.
    NoPsk,
    /// The pre-shared key is shorter than 8 bytes.
    ShortPsk,
}

/// An [`ArgsError`] with its texts taken as character sequences.
pub enum ArgsErrorV {
    MissingValue,
    Value(ValueErrorV),
    Help,
    UnknownKeyword(Seq<char>),
    NoPsk,
    ShortPsk,
}

impl View for ArgsError {
    type V = ArgsErrorV;

    open spec fn view(&self) -> ArgsErrorV {
        match self {
            ArgsError::MissingValue => ArgsErrorV::MissingValue,
            ArgsError::Value(e) => ArgsErrorV::Value(e@),
            ArgsError::Help => ArgsErrorV::Help,
            ArgsError::UnknownKeyword(s) => ArgsErrorV::UnknownKeyword(s@),
            ArgsError::NoPsk => ArgsErrorV::NoPsk,
            ArgsError::ShortPsk => ArgsErrorV::ShortPsk,
        }
    }
}

/// What is logged for a refused command line before the usage text:
/// nothing for a missing value or a request for help.
pub open spec fn args_error_text(e: ArgsErrorV) -> Option<Seq<char>> {
    match e {
        ArgsErrorV::MissingValue => None,
        ArgsErrorV::Value(v) => Some(value_error_text(v)),
        ArgsErrorV::Help => None,
        ArgsErrorV::UnknownKeyword(t) => Some("unknown keyword \""@ + t + "\""@),
        ArgsErrorV::NoPsk => Some("psk must be specified"@),
        ArgsErrorV::ShortPsk => Some("PSK must be at least 8 characters long"@),
    }
}

impl ArgsError {
    /// What is logged for this refusal before the usage text.
    pub fn message(&self) -> (r: Option<String>)
        ensures
            match args_error_text(self@) {
                Some(t) => r matches Some(s) && s@ == t,
                None => r is None,
            },
    {
        match self {
            ArgsError::MissingValue => None,
            ArgsError::Value(v) => Some(v.message()),
            ArgsError::Help => None,
            ArgsError::UnknownKeyword(t) => {
                let mut s = String::new();
                push_str(&mut s, "unknown keyword \"");
                push_str(&mut s, t.as_str());
                push_str(&mut s, "\"");
                assert(s@ =~= "unknown keyword \""@ + t@ + "\""@);
                Some(s)
            },
            ArgsError::NoPsk => Some(String::from_str("psk must be specified")),
            ArgsError::ShortPsk => Some(String::from_str("PSK must be at least 8 characters long")),
        }
    }

    /// The status a refused command line exits with.
    pub fn code(&self) -> (c: i32)
        ensures
            c == -22,
    {
        -22
    }
}

/// The settings before the command line is read.
pub open spec fn default_args() -> ArgsV {
    ArgsV {
        script: "-"@,
        psk: None,
        server: "127.0.0.1"@,
        server_port: DEFAULT_SERVER_PORT,
        family: Family::Unspec,
        window: DEFAULT_WINDOW,
        max_retries: 3,
    }
}

/// Reads the command line from word `i` on (of the first `argc`): each
/// keyword takes the next word as its value; `-4` and `-6` choose the
/// family; a request for help or a word that is no keyword stops the
/// reading.
pub open spec fn scan_client_args(argv: Seq<Seq<char>>, argc: nat, i: nat, st: ArgsV) -> Result<
    ArgsV,
    ArgsErrorV,
>
    decreases argc - i,
{
    if i >= argc {
        Ok(st)
    } else {
        let tok = argv[i as int];
        if tok == "server-port"@ || tok == "script"@ || tok == "psk"@ || tok == "server"@ || tok
            == "window"@ || tok == "max-retries"@ {
            if i + 1 >= argc {
                Err(ArgsErrorV::MissingValue)
            } else {
                let v = argv[i + 1 as int];
                if tok == "server-port"@ {
                    match spec_port_value(v) {
                        Ok(p) => scan_client_args(argv, argc, i + 2, ArgsV { server_port: p, ..st }),
                        Err(e) => Err(ArgsErrorV::Value(e)),
                    }
                } else if tok == "script"@ {
                    scan_client_args(argv, argc, i + 2, ArgsV { script: v, ..st })
                } else if tok == "psk"@ {
                    scan_client_args(argv, argc, i + 2, ArgsV { psk: Some(v), ..st })
                } else if tok == "server"@ {
                    scan_client_args(argv, argc, i + 2, ArgsV { server: v, ..st })
                } else if tok == "window"@ {
                    match spec_window_value(v) {
                        Ok(w) => scan_client_args(argv, argc, i + 2, ArgsV { window: w, ..st }),
                        Err(e) => Err(ArgsErrorV::Value(e)),
                    }
                } else {
                    match spec_u16_value(v) {
                        Ok(m) => scan_client_args(argv, argc, i + 2, ArgsV { max_retries: m, ..st }),
                        Err(e) => Err(ArgsErrorV::Value(e)),
                    }
                }
            }
        } else if tok == "-4"@ {
            scan_client_args(argv, argc, i + 1, ArgsV { family: Family::Inet4, ..st })
        } else if tok == "-6"@ {
            scan_client_args(argv, argc, i + 1, ArgsV { family: Family::Inet6, ..st })
        } else if spec_is_help(tok) {
            Err(ArgsErrorV::Help)
        } else {
            Err(ArgsErrorV::UnknownKeyword(tok))
        }
    }
}

/// The settings that the command line of the client gives (the program's
/// name, word 0, is skipped): a pre-shared key of at least 8 bytes is
/// required.
pub open spec fn spec_parse_dsl_args(argv: Seq<Seq<char>>, argc: nat) -> Result<ArgsV, ArgsErrorV> {
    match scan_client_args(argv, argc, 1, default_args()) {
        Ok(st) => match st.psk {
            None => Err(ArgsErrorV::NoPsk),
            Some(p) => if encode_utf8(p).len() < 8 {
                Err(ArgsErrorV::ShortPsk)
            } else {
                Ok(st)
            },
        },
        Err(e) => Err(e),
    }
}

/// The family that the word `w` chooses: `-4` IPv4, `-6` IPv6.
pub open spec fn family_word(w: Seq<char>) -> Family {
    if w == "-4"@ {
        Family::Inet4
    } else {
        Family::Inet6
    }
}

/// Reading a command line that ends in `-4` or `-6` reads what comes
/// before, then takes that family.
proof fn lemma_scan_family_last(argv: Seq<Seq<char>>, i: nat, st: ArgsV, w: Seq<char>)
    requires
        i <= argv.len(),
        w == "-4"@ || w == "-6"@,
        scan_client_args(argv, argv.len(), i, st) is Ok,
    ensures
        scan_client_args(argv.push(w), argv.len() + 1, i, st) == Ok::<ArgsV, ArgsErrorV>(
            ArgsV { family: family_word(w), ..scan_client_args(argv, argv.len(), i, st)->Ok_0 },
        ),
    decreases argv.len() - i,
{
    reveal_strlit("-4");
    reveal_strlit("-6");
    reveal_strlit("server-port");
    reveal_strlit("script");
    reveal_strlit("psk");
    reveal_strlit("server");
    reveal_strlit("window");
    reveal_strlit("max-retries");
    let a2 = argv.push(w);
    let n = argv.len();
    if i == n {
        assert(a2[i as int] == w);
        assert(w != "server-port"@ && w != "script"@ && w != "psk"@ && w != "server"@ && w != "window"@
            && w != "max-retries"@) by {
            assert(w.len() == 2);
        }
        if w == "-4"@ {
            assert(scan_client_args(a2, n + 1, i + 1, ArgsV { family: Family::Inet4, ..st }) == Ok::<
                ArgsV,
                ArgsErrorV,
            >(ArgsV { family: Family::Inet4, ..st }));
        } else {
            assert(w != "-4"@) by {
                assert(w[1] != "-4"@[1]);
            }
            assert(scan_client_args(a2, n + 1, i + 1, ArgsV { family: Family::Inet6, ..st }) == Ok::<
                ArgsV,
                ArgsErrorV,
            >(ArgsV { family: Family::Inet6, ..st }));
        }
    } else {
        let tok = argv[i as int];
        assert(a2[i as int] == tok);
        if tok == "server-port"@ || tok == "script"@ || tok == "psk"@ || tok == "server"@ || tok == "window"@
            || tok == "max-retries"@ {
            assert(i + 1 < n);
            assert(a2[i + 1 as int] == argv[i + 1 as int]);
            let v = argv[i + 1 as int];
            if tok == "server-port"@ {
                if let Ok(p) = spec_port_value(v) {
                    lemma_scan_family_last(argv, i + 2, ArgsV { server_port: p, ..st }, w);
                }
            } else if tok == "script"@ {
                lemma_scan_family_last(argv, i + 2, ArgsV { script: v, ..st }, w);
            } else if tok == "psk"@ {
                lemma_scan_family_last(argv, i + 2, ArgsV { psk: Some(v), ..st }, w);
            } else if tok == "server"@ {
                lemma_scan_family_last(argv, i + 2, ArgsV { server: v, ..st }, w);
            } else if tok == "window"@ {
                if let Ok(x) = spec_window_value(v) {
                    lemma_scan_family_last(argv, i + 2, ArgsV { window: x, ..st }, w);
                }
            } else {
                if let Ok(m) = spec_u16_value(v) {
                    lemma_scan_family_last(argv, i + 2, ArgsV { max_retries: m, ..st }, w);
                }
            }
        } else if tok == "-4"@ {
            lemma_scan_family_last(argv, i + 1, ArgsV { family: Family::Inet4, ..st }, w);
        } else if tok == "-6"@ {
            lemma_scan_family_last(argv, i + 1, ArgsV { family: Family::Inet6, ..st }, w);
        }
    }
}

/// The last of the words `-4` and `-6` chooses the family: a command line
/// that the client accepts, with `-4` added at its end, is accepted with
/// the same settings and the family IPv4 only; with `-6` added, IPv6 only.
pub proof fn lemma_family_word_chooses(argv: Seq<Seq<char>>)
    requires
        spec_parse_dsl_args(argv, argv.len()) is Ok,
    ensures
        spec_parse_dsl_args(argv.push("-4"@), argv.len() + 1) == Ok::<ArgsV, ArgsErrorV>(
            ArgsV { family: Family::Inet4, ..spec_parse_dsl_args(argv, argv.len())->Ok_0 },
        ),
        spec_parse_dsl_args(argv.push("-6"@), argv.len() + 1) == Ok::<ArgsV, ArgsErrorV>(
            ArgsV { family: Family::Inet6, ..spec_parse_dsl_args(argv, argv.len())->Ok_0 },
        ),
{
    reveal_strlit("-4");
    reveal_strlit("-6");
    if argv.len() == 0 {
        assert(scan_client_args(argv, 0, 1, default_args()) == Ok::<ArgsV, ArgsErrorV>(default_args()));
    } else {
        lemma_scan_family_last(argv, 1, default_args(), "-4"@);
        lemma_scan_family_last(argv, 1, default_args(), "-6"@);
        assert(family_word("-4"@) == Family::Inet4);
        assert("-6"@ != "-4"@) by {
            assert("-6"@[1] != "-4"@[1]);
        }
        assert(family_word("-6"@) == Family::Inet6);
    }
}

/// Reading words at the end of a longer command line is reading them
/// alone.
proof fn lemma_scan_client_shift(pre: Seq<Seq<char>>, suf: Seq<Seq<char>>, j: nat, st: ArgsV)
    requires
        j <= suf.len(),
    ensures
        scan_client_args(pre + suf, pre.len() + suf.len(), pre.len() + j, st) == scan_client_args(
            suf,
            suf.len(),
            j,
            st,
        ),
    decreases suf.len() - j,
{
    let a = pre + suf;
    let n = pre.len();
    if j < suf.len() {
        assert(a[n + j as int] == suf[j as int]);
        if j + 1 < suf.len() {
            assert(a[n + j + 1 as int] == suf[j + 1 as int]);
        }
        let tok = suf[j as int];
        if tok == "server-port"@ || tok == "script"@ || tok == "psk"@ || tok == "server"@ || tok == "window"@
            || tok == "max-retries"@ {
            if j + 1 < suf.len() {
                let v = suf[j + 1 as int];
                lemma_scan_client_shift(pre, suf, j + 2, ArgsV { server_port: spec_port_value(v)->Ok_0, ..st });
                lemma_scan_client_shift(pre, suf, j + 2, ArgsV { script: v, ..st });
                lemma_scan_client_shift(pre, suf, j + 2, ArgsV { psk: Some(v), ..st });
                lemma_scan_client_shift(pre, suf, j + 2, ArgsV { server: v, ..st });
                lemma_scan_client_shift(pre, suf, j + 2, ArgsV { window: spec_window_value(v)->Ok_0, ..st });
                lemma_scan_client_shift(pre, suf, j + 2, ArgsV { max_retries: spec_u16_value(v)->Ok_0, ..st });
            }
        } else if tok == "-4"@ {
            lemma_scan_client_shift(pre, suf, j + 1, ArgsV { family: Family::Inet4, ..st });
        } else if tok == "-6"@ {
            lemma_scan_client_shift(pre, suf, j + 1, ArgsV { family: Family::Inet6, ..st });
        }
    }
}

/// Reading a command line whose first part reads without error reads that
/// part, then the rest from the settings it gave.
proof fn lemma_scan_client_concat(pre: Seq<Seq<char>>, suf: Seq<Seq<char>>, i: nat, st: ArgsV)
    requires
        i <= pre.len(),
        scan_client_args(pre, pre.len(), i, st) is Ok,
    ensures
        scan_client_args(pre + suf, pre.len() + suf.len(), i, st) == scan_client_args(
            suf,
            suf.len(),
            0,
            scan_client_args(pre, pre.len(), i, st)->Ok_0,
        ),
    decreases pre.len() - i,
{
    let a = pre + suf;
    let n = pre.len();
    if i == n {
        lemma_scan_client_shift(pre, suf, 0, st);
    } else {
        let tok = pre[i as int];
        assert(a[i as int] == tok);
        if tok == "server-port"@ || tok == "script"@ || tok == "psk"@ || tok == "server"@ || tok == "window"@
            || tok == "max-retries"@ {
            assert(i + 1 < n);
            let v = pre[i + 1 as int];
            assert(a[i + 1 as int] == v);
            if tok == "server-port"@ {
                lemma_scan_client_concat(pre, suf, i + 2, ArgsV { server_port: spec_port_value(v)->Ok_0, ..st });
            } else if tok == "script"@ {
                lemma_scan_client_concat(pre, suf, i + 2, ArgsV { script: v, ..st });
            } else if tok == "psk"@ {
                lemma_scan_client_concat(pre, suf, i + 2, ArgsV { psk: Some(v), ..st });
            } else if tok == "server"@ {
                lemma_scan_client_concat(pre, suf, i + 2, ArgsV { server: v, ..st });
            } else if tok == "window"@ {
                lemma_scan_client_concat(pre, suf, i + 2, ArgsV { window: spec_window_value(v)->Ok_0, ..st });
            } else {
                lemma_scan_client_concat(pre, suf, i + 2, ArgsV { max_retries: spec_u16_value(v)->Ok_0, ..st });
            }
        } else if tok == "-4"@ {
            lemma_scan_client_concat(pre, suf, i + 1, ArgsV { family: Family::Inet4, ..st });
        } else if tok == "-6"@ {
            lemma_scan_client_concat(pre, suf, i + 1, ArgsV { family: Family::Inet6, ..st });
        }
    }
}

/// Each keyword of the client sets its own setting, and the last value
/// given wins: to a command line that the client accepts, adding at the
/// end `server S`, `script F`, `server-port P` (P not zero, in decimal),
/// `window W` (W not zero), `max-retries R`, or `psk K` (K of at least 8
/// bytes) changes that one setting and nothing else.
pub proof fn lemma_client_keywords(
    argv: Seq<Seq<char>>,
    server: Seq<char>,
    script: Seq<char>,
    port: u16,
    window: u32,
    retries: u16,
    psk: Seq<char>,
)
    requires
        spec_parse_dsl_args(argv, argv.len()) is Ok,
    ensures
        ({
            let a = spec_parse_dsl_args(argv, argv.len())->Ok_0;
            &&& spec_parse_dsl_args(argv + seq!["server"@, server], argv.len() + 2) == Ok::<ArgsV, ArgsErrorV>(
                ArgsV { server, ..a },
            )
            &&& spec_parse_dsl_args(argv + seq!["script"@, script], argv.len() + 2) == Ok::<ArgsV, ArgsErrorV>(
                ArgsV { script, ..a },
            )
            &&& port != 0 ==> spec_parse_dsl_args(argv + seq!["server-port"@, decimal(port as nat)], argv.len() + 2)
                == Ok::<ArgsV, ArgsErrorV>(ArgsV { server_port: port, ..a })
            &&& window != 0 ==> spec_parse_dsl_args(argv + seq!["window"@, decimal(window as nat)], argv.len() + 2)
                == Ok::<ArgsV, ArgsErrorV>(ArgsV { window, ..a })
            &&& spec_parse_dsl_args(argv + seq!["max-retries"@, decimal(retries as nat)], argv.len() + 2) == Ok::<
                ArgsV,
                ArgsErrorV,
            >(ArgsV { max_retries: retries, ..a })
            &&& encode_utf8(psk).len() >= 8 ==> spec_parse_dsl_args(argv + seq!["psk"@, psk], argv.len() + 2) == Ok::<
                ArgsV,
                ArgsErrorV,
            >(ArgsV { psk: Some(psk), ..a })
        }),
{
    reveal_strlit("server-port");
    reveal_strlit("script");
    reveal_strlit("psk");
    reveal_strlit("server");
    reveal_strlit("window");
    reveal_strlit("max-retries");
    assert("script"@[1] != "server"@[1]);
    assert("psk"@.len() != "server"@.len() && "psk"@.len() != "script"@.len());
    assert("window"@[0] != "server"@[0] && "window"@[0] != "script"@[0]);
    assert("server-port"@.len() != "server"@.len());
    assert("max-retries"@[0] != "server-port"@[0]);
    lemma_parse_decimal(port as nat, 65535);
    lemma_parse_decimal(window as nat, 0xffff_ffff);
    lemma_parse_decimal(retries as nat, 65535);
    if argv.len() >= 1 {
        let st = scan_client_args(argv, argv.len(), 1, default_args())->Ok_0;
        lemma_scan_client_concat(argv, seq!["server"@, server], 1, default_args());
        lemma_scan_client_concat(argv, seq!["script"@, script], 1, default_args());
        lemma_scan_client_concat(argv, seq!["server-port"@, decimal(port as nat)], 1, default_args());
        lemma_scan_client_concat(argv, seq!["window"@, decimal(window as nat)], 1, default_args());
        lemma_scan_client_concat(argv, seq!["max-retries"@, decimal(retries as nat)], 1, default_args());
        lemma_scan_client_concat(argv, seq!["psk"@, psk], 1, default_args());
        assert(scan_client_args(seq!["server"@, server], 2, 2, ArgsV { server, ..st }) == Ok::<ArgsV, ArgsErrorV>(
            ArgsV { server, ..st },
        ));
        assert(scan_client_args(seq!["script"@, script], 2, 2, ArgsV { script, ..st }) == Ok::<ArgsV, ArgsErrorV>(
            ArgsV { script, ..st },
        ));
        assert(scan_client_args(seq!["server-port"@, decimal(port as nat)], 2, 2, ArgsV { server_port: port, ..st })
            == Ok::<ArgsV, ArgsErrorV>(ArgsV { server_port: port, ..st }));
        assert(scan_client_args(seq!["window"@, decimal(window as nat)], 2, 2, ArgsV { window, ..st }) == Ok::<
            ArgsV,
            ArgsErrorV,
        >(ArgsV { window, ..st }));
        assert(scan_client_args(
            seq!["max-retries"@, decimal(retries as nat)],
            2,
            2,
            ArgsV { max_retries: retries, ..st },
        ) == Ok::<ArgsV, ArgsErrorV>(ArgsV { max_retries: retries, ..st }));
        assert(scan_client_args(seq!["psk"@, psk], 2, 2, ArgsV { psk: Some(psk), ..st }) == Ok::<ArgsV, ArgsErrorV>(
            ArgsV { psk: Some(psk), ..st },
        ));
    }
}

/// A result of reading the command line, with its texts taken as
/// character sequences.
pub open spec fn args_result_view(r: Result<Args, ArgsError>) -> Result<ArgsV, ArgsErrorV> {
    match r {
        Ok(a) => Ok(a@),
        Err(e) => Err(e@),
    }
}

/// Reads the command line of the client: the first `argc` words of
/// `argv`, the program's name first.
pub fn parse_dsl_args(argc: usize, argv: &[String]) -> (r: Result<Args, ArgsError>)
    requires
        argc <= argv@.len(),
    ensures
        args_result_view(r) == spec_parse_dsl_args(args_view(argv@), argc as nat),
{
    let ghost a = args_view(argv@);
    let mut psk: Option<String> = None;
    let mut server = String::from_str("127.0.0.1");
    let mut server_port: u16 = DEFAULT_SERVER_PORT;
    let mut script = String::from_str("-");
    let mut family = Family::Unspec;
    let mut max_retries: u16 = 3;
    let mut window: u32 = DEFAULT_WINDOW;
    let mut i: usize = 1;
    while i < argc
        invariant
            a == args_view(argv@),
            argc <= argv@.len(),
            1 <= i,
            scan_client_args(a, argc as nat, 1, default_args()) == scan_client_args(
                a,
                argc as nat,
                i as nat,
                ArgsV {
                    script: script@,
                    psk: match psk {
                        Some(p) => Some(p@),
                        None => None,
                    },
                    server: server@,
                    server_port,
                    family,
                    window,
                    max_retries,
                },
            ),
        decreases argc - i,
    {
        let tok = argv[i].as_str();
        assert(a[i as int] == tok@);
        if is_keyword(tok, "server-port") || is_keyword(tok, "script") || is_keyword(tok, "psk")
            || is_keyword(tok, "server") || is_keyword(tok, "window") || is_keyword(tok, "max-retries") {
            if i + 1 >= argc {
                return Err(ArgsError::MissingValue);
            }
            let v = &argv[i + 1];
            assert(a[i + 1] == v@);
            if is_keyword(tok, "server-port") {
                match parse_port(v.as_str()) {
                    Ok(p) => server_port = p,
                    Err(e) => {
                        return Err(ArgsError::Value(e));
                    },
                }
            } else if is_keyword(tok, "script") {
                script = v.clone();
            } else if is_keyword(tok, "psk") {
                psk = Some(v.clone());
            } else if is_keyword(tok, "server") {
                server = v.clone();
            } else if is_keyword(tok, "window") {
                match parse_window(v.as_str()) {
                    Ok(w) => window = w,
                    Err(e) => {
                        return Err(ArgsError::Value(e));
                    },
                }
            } else {
                match parse_u16(v.as_str()) {
                    Ok(m) => max_retries = m,
                    Err(e) => {
                        return Err(ArgsError::Value(e));
                    },
                }
            }
            i = i + 2;
        } else if is_keyword(tok, "-4") {
            family = Family::Inet4;
            i = i + 1;
        } else if is_keyword(tok, "-6") {
            family = Family::Inet6;
            i = i + 1;
        } else if is_help_kw(tok) {
            return Err(ArgsError::Help);
        } else {
            return Err(ArgsError::UnknownKeyword(tok.to_owned()));
        }
    }
    let psk = match psk {
        Some(p) => p,
        None => {
            return Err(ArgsError::NoPsk);
        },
    };
    if psk.as_str().as_bytes().len() < 8 {
        return Err(ArgsError::ShortPsk);
    }
    Ok(Args { script, psk, server, server_port, family, window, max_retries })
}

/// Whether the family setting allows an address.
pub open spec fn family_allows(family: Family, ip: IpAddress) -> bool {
    match family {
        Family::Unspec => true,
        Family::Inet4 => ip is V4,
        Family::Inet6 => ip is V6,
    }
}

/// Whether the family setting allows an address.
pub fn family_accepts(family: Family, ip: &IpAddress) -> (r: bool)
    ensures
        r == family_allows(family, *ip),
{
    match family {
        Family::Unspec => true,
        Family::Inet4 => match ip {
            IpAddress::V4(_) => true,
            IpAddress::V6(_) => false,
        },
        Family::Inet6 => match ip {
            IpAddress::V4(_) => false,
            IpAddress::V6(_) => true,
        },
    }
}

/// The first of the resolved addresses that the family setting allows.
pub open spec fn first_allowed(family: Family, addrs: Seq<IpAddress>) -> Option<IpAddress>
    decreases addrs.len(),
{
    if addrs.len() == 0 {
        None
    } else if family_allows(family, addrs[0]) {
        Some(addrs[0])
    } else {
        first_allowed(family, addrs.drop_first())
    }
}

/// The first of the resolved addresses that the family setting allows.
pub fn first_address_of(family: Family, addrs: &[IpAddress]) -> (r: Option<IpAddress>)
    ensures
        r == first_allowed(family, addrs@),
{
    let mut i: usize = 0;
    assert(addrs@.skip(0) =~= addrs@);
    while i < addrs.len()
        invariant
            i <= addrs@.len(),
            first_allowed(family, addrs@) == first_allowed(family, addrs@.skip(i as int)),
        decreases addrs@.len() - i,
    {
        assert(addrs@.skip(i as int)[0] == addrs@[i as int]);
        assert(addrs@.skip(i as int).drop_first() =~= addrs@.skip(i + 1));
        if family_accepts(family, &addrs[i]) {
            return Some(addrs[i]);
        }
        i = i + 1;
    }
    assert(addrs@.skip(i as int) =~= Seq::<IpAddress>::empty());
    None
}

/// After a receive timed out: the count of tries so far if another try is
/// allowed, `None` once `max_retries` tries again have been made.
pub fn next_retry(retries: u16, max_retries: u16) -> (r: Option<u16>)
    ensures
        retries < max_retries ==> r == Some((retries + 1) as u16),
        retries >= max_retries ==> r is None,
{
    if retries < max_retries {
        Some(retries + 1)
    } else {
        None
    }
}

/// The result code of the client when the response cannot be used: a
/// response too short to be a packet is an invalid argument (`-EINVAL`),
/// any other failure `-1`.
pub fn reply_failure_code(e: &TunnelError) -> (c: i32)
    ensures
        (*e matches TunnelError::ShortPacket) ==> c == -22,
        !(*e matches TunnelError::ShortPacket) ==> c == -1,
{
    match e {
        TunnelError::ShortPacket => -22,
        _ => -1,
    }
}

/// The exit status of the client for its result code: 1 for a negative
/// code, otherwise the code's low byte.
pub fn exit_status(code: i32) -> (s: u8)
    ensures
        code < 0 ==> s == 1,
        code >= 0 ==> s == code as u8,
{
    if code < 0 {
        1
    } else {
        code as u8
    }
}

/// Whether the window accepts the packet `p` at time `now`.
pub open spec fn replay_fresh(w: ReplayWindowV, now: i64, p: Seq<u8>) -> bool {
    spec_replay_check(w, now, packet_ts(p), packet_nonce(p)).0
}

/// The window after checking the packet `p` at time `now`.
pub open spec fn replay_checked(w: ReplayWindowV, now: i64, p: Seq<u8>) -> ReplayWindowV {
    spec_replay_check(w, now, packet_ts(p), packet_nonce(p)).1
}

/// Whether `w2` is `w` after remembering the packet `p`.
pub open spec fn remembers(w2: ReplayWindowV, w: ReplayWindowV, p: Seq<u8>) -> bool {
    exists|n: [u8; 24]| n@ == packet_nonce(p) && w2 == #[trigger] spec_replay_add(w, packet_ts(p), n)
}

/// What checking and opening a response at time `now` does, for a window
/// `w0` that becomes `w1`, pre-shared key `psk` (its bytes), memory limit
/// `memlimit` and packet `p`: a packet shorter than a header and a tag is
/// refused and changes nothing; then one outside the window or seen before
/// is refused; then the key derivation may fail; then one that is not
/// authentic is refused. An accepted packet gives its plaintext and is
/// remembered.
pub open spec fn validated(
    w0: ReplayWindowV,
    w1: ReplayWindowV,
    psk: Seq<u8>,
    memlimit: usize,
    p: Seq<u8>,
    now: i64,
    r: Result<Vec<u8>, TunnelError>,
) -> bool {
    if p.len() < MIN_LEN {
        r == Err::<Vec<u8>, TunnelError>(TunnelError::ShortPacket) && w1 == w0
    } else if !replay_fresh(w0, now, p) {
        r == Err::<Vec<u8>, TunnelError>(TunnelError::Replay) && w1 == replay_checked(w0, now, p)
    } else if kdf_m_cost(memlimit) < 8 {
        (r matches Err(TunnelError::KdfParams(_))) && w1 == replay_checked(w0, now, p)
    } else if !kdf_ok(psk.len(), memlimit) {
        (r matches Err(TunnelError::KdfDerive(_))) && w1 == replay_checked(w0, now, p)
    } else {
        match open_packet(psk, memlimit, p) {
            None => r == Err::<Vec<u8>, TunnelError>(TunnelError::DecryptAuth) && w1 == replay_checked(
                w0,
                now,
                p,
            ),
            Some((pt, _, _)) => (r matches Ok(v) && v@ == pt) && remembers(w1, replay_checked(w0, now, p), p),
        }
    }
}

/// Checks a response at time `now` and opens it.
pub fn decrypt_and_validate_packet_at(
    pkt_in: &[u8],
    rwin: &mut ReplayWindow,
    psk: &str,
    memlimit: usize,
    now: i64,
) -> (r: Result<Vec<u8>, TunnelError>)
    ensures
        validated(old(rwin)@, final(rwin)@, encode_utf8(psk@), memlimit, pkt_in@, now, r),
{
    if pkt_in.len() < MIN_LEN {
        return Err(TunnelError::ShortPacket);
    }
    let parts = packet_parts(pkt_in);
    if !rwin.replay_check_at(now, parts.ts, &parts.nonce) {
        return Err(TunnelError::Replay);
    }
    let ghost checked = rwin@;
    let pt = open_parts(psk, &parts, memlimit)?;
    rwin.replay_add(parts.ts, &parts.nonce);
    assert(rwin@ == spec_replay_add(checked, parts.ts, parts.nonce));
    assert(remembers(rwin@, checked, pkt_in@));
    Ok(pt)
}

/// Checks a response against the current time and opens it: as
/// [`decrypt_and_validate_packet_at`] does at some time.
pub fn decrypt_and_validate_packet(
    pkt_in: &[u8],
    rwin: &mut ReplayWindow,
    psk: &str,
    memlimit: usize,
) -> (r: Result<Vec<u8>, TunnelError>)
    ensures
        exists|now: i64| #[trigger] validated(old(rwin)@, final(rwin)@, encode_utf8(psk@), memlimit, pkt_in@, now, r),
{
    let now = current_unix_time();
    let r = decrypt_and_validate_packet_at(pkt_in, rwin, psk, memlimit, now);
    assert(validated(old(rwin)@, rwin@, encode_utf8(psk@), memlimit, pkt_in@, now, r));
    r
}

/// A response is read as it was written: a packet that seals a response
/// padded by the server, under the same pre-shared key and memory limit,
/// is accepted by a window that takes its time stamp and nonce, and its
/// plaintext without the padding is the response (one that does not end
/// in `#`, which the padding would swallow).
pub proof fn lemma_sealed_response_read_back(
    w0: ReplayWindowV,
    w1: ReplayWindowV,
    psk: Seq<u8>,
    memlimit: usize,
    resp: Seq<u8>,
    pad: u8,
    p: Seq<u8>,
    now: i64,
    r: Result<Vec<u8>, TunnelError>,
)
    requires
        kdf_ok(psk.len(), memlimit),
        p.len() == HEADER_LEN + resp.len() + response_pad_len(resp.len(), pad) + TAG,
        open_packet(psk, memlimit, p) == Some(
            (resp + hashes(response_pad_len(resp.len(), pad)), packet_nonce(p), packet_ts(p)),
        ),
        replay_fresh(w0, now, p),
        resp.len() == 0 || resp.last() != 35u8,
        validated(w0, w1, psk, memlimit, p, now, r),
    ensures
        r matches Ok(v) && strip_padding(v@) == resp,
        remembers(w1, replay_checked(w0, now, p), p),
{
    lemma_strip_padding(resp, response_pad_len(resp.len(), pad));
}

} // verus!
