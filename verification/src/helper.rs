//! Helpers shared by the control commands: byte order, user names,
//! addresses, comments and XOR keys.

use crate::config::In6Addr;
use crate::error::CmdError;
use crate::text::{decimal, lossy_string, utf8_lossy, parse_u8, push_char, push_decimal, push_str, spec_parse_unsigned};
use crate::uid_map::{spec_get_uid, UidMap};
use vstd::prelude::*;
use vstd::string::StringSliceAdditionalSpecFns;
use vstd::utf8::{decode_utf8, decode_utf8_encode_utf8, encode_utf8, encode_utf8_decode_utf8, encode_utf8_valid_utf8, valid_utf8};

verus! {

/// Settings given on the command line that every command consults.
#[derive(Clone, Debug, PartialEq, Eq)]
pub struct GlobalFlags {
    /// Show user ids instead of host names.
    pub numeric: bool,
    /// Show sessions, ingress peers and packet counters too.
    pub debug: bool,
    /// `"ip4"` or `"ip6"` to restrict name resolution to one family.
    pub ip_family: Option<String>,
}

impl Default for GlobalFlags {
    fn default() -> (f: Self)
        ensures
            !f.numeric,
            !f.debug,
            f.ip_family is None,
    {
        GlobalFlags { numeric: false, debug: false, ip_family: None }
    }
}

/// The user that `s` names: a host name in the table (the smallest user id
/// with that name), otherwise a user id written in decimal.
pub open spec fn spec_resolve_uid(map: Map<u8, Seq<char>>, s: Seq<char>) -> Option<u8> {
    match spec_get_uid(map, s) {
        Some(u) => Some(u),
        None => match spec_parse_unsigned(s, 255) {
            Ok(n) => Some(n as u8),
            Err(_) => None,
        },
    }
}

/// How a user is found: a host name in the table gives the smallest user
/// id with that name; a text that names no user and is the decimal form
/// of a user id gives that id.
pub proof fn lemma_resolve_uid(map: Map<u8, Seq<char>>, s: Seq<char>, n: u8)
    ensures
        (exists|w: u8| map.contains_key(w) && map[w] == s) ==> (spec_resolve_uid(map, s) matches Some(u)
            && map.contains_key(u) && map[u] == s && forall|w: u8| w < u ==> !(map.contains_key(w) && map[w]
            == s)),
        (forall|w: u8| !(map.contains_key(w) && #[trigger] map[w] == decimal(n as nat))) ==> spec_resolve_uid(
            map,
            decimal(n as nat),
        ) == Some(n),
{
    crate::uid_map::lemma_get_uid(map, s, 0);
    crate::uid_map::lemma_get_uid(map, decimal(n as nat), 0);
    crate::text::lemma_parse_decimal(n as nat, 255);
}

/// Resolves a user given by host name or by number: a name in the table
/// wins; otherwise the text must be a user id.
pub fn resolve_uid(map: &UidMap, s: &str) -> (r: Result<u8, CmdError>)
    ensures
        match spec_resolve_uid(map@, s@) {
            Some(u) => r == Ok::<u8, CmdError>(u),
            None => r matches Err(CmdError::UnknownUser(t)) && t@ == s@,
        },
{
    match map.get_uid(s) {
        Some(u) => Ok(u),
        None => match parse_u8(s) {
            Ok(u) => Ok(u),
            Err(_) => Err(CmdError::UnknownUser(s.to_owned())),
        },
    }
}


/// How a user is shown: as `uid N` / `user NAME` in dumps (which are
/// scripts), as `UID: N` / `User: NAME` otherwise; by number when asked to
/// or when the table has no name for it.
pub open spec fn hostname_text(map: Map<u8, Seq<char>>, numeric: bool, uid: u8, is_dump: bool) -> Seq<char> {
    if !numeric && map.contains_key(uid) {
        (if is_dump { "user "@ } else { "User: "@ }) + map[uid]
    } else {
        (if is_dump { "uid "@ } else { "UID: "@ }) + decimal(uid as nat)
    }
}

/// Shows user `uid` by name or number.
pub fn resolve_hostname(map: &UidMap, flags: &GlobalFlags, uid: u8, is_dump: bool) -> (r: String)
    ensures
        r@ == hostname_text(map@, flags.numeric, uid, is_dump),
{
    let mut r = String::new();
    if !flags.numeric {
        match map.get_host(uid) {
            Some(name) => {
                if is_dump {
                    push_str(&mut r, "user ");
                } else {
                    push_str(&mut r, "User: ");
                }
                push_str(&mut r, name.as_str());
                return r;
            },
            None => {},
        }
    }
    if is_dump {
        push_str(&mut r, "uid ");
    } else {
        push_str(&mut r, "UID: ");
    }
    push_decimal(&mut r, uid as u64);
    r
}

/// An address that a host name resolved to.
#[derive(Clone, Copy, Debug, PartialEq, Eq)]
pub enum IpAddress {
    V4([u8; 4]),
    V6([u8; 16]),
}

/// The IPv6 form of an address: IPv4 addresses become IPv4-mapped
/// (`::ffff:a.b.c.d`).
pub open spec fn in6_of(ip: IpAddress) -> Seq<u8> {
    match ip {
        IpAddress::V4(o) => Seq::new(10, |i: int| 0u8) + seq![0xffu8, 0xffu8] + o@,
        IpAddress::V6(o) => o@,
    }
}

/// The index of the first address of the requested family, if any.
pub open spec fn first_of_family(ips: Seq<IpAddress>, v4: bool) -> Option<int>
    decreases ips.len(),
{
    if ips.len() == 0 {
        None
    } else if (ips[0] is V4) == v4 {
        Some(0)
    } else {
        match first_of_family(ips.drop_first(), v4) {
            Some(i) => Some(i + 1),
            None => None,
        }
    }
}

/// Which address a name resolves to: none at all is an error; with family
/// `ip4` (`ip6`) the first IPv4 (IPv6) address, an error if there is none;
/// otherwise the first address.
pub open spec fn spec_pick_address(ips: Seq<IpAddress>, family: Option<Seq<char>>) -> Option<IpAddress> {
    if family == Some("ip4"@) {
        match first_of_family(ips, true) { Some(i) => Some(ips[i]), None => None }
    } else if family == Some("ip6"@) {
        match first_of_family(ips, false) { Some(i) => Some(ips[i]), None => None }
    } else if ips.len() > 0 {
        Some(ips[0])
    } else {
        None
    }
}

proof fn lemma_first_of_family(ips: Seq<IpAddress>, v4: bool)
    ensures
        first_of_family(ips, v4) matches Some(i) ==> 0 <= i < ips.len() && (ips[i] is V4) == v4
            && forall|j: int| 0 <= j < i ==> (ips[j] is V4) != v4,
        first_of_family(ips, v4) is None ==> forall|j: int| 0 <= j < ips.len() ==> (ips[j] is V4) != v4,
    decreases ips.len(),
{
    if ips.len() > 0 {
        lemma_first_of_family(ips.drop_first(), v4);
        assert forall|j: int| 1 <= j < ips.len() implies ips[j] == ips.drop_first()[j - 1] by {}
    }
}

fn find_family(ips: &Vec<IpAddress>, v4: bool) -> (r: Option<usize>)
    ensures
        match r {
            Some(i) => first_of_family(ips@, v4) == Some(i as int),
            None => first_of_family(ips@, v4) is None,
        },
{
    proof { lemma_first_of_family(ips@, v4); }
    let mut i: usize = 0;
    while i < ips.len()
        invariant
            0 <= i <= ips@.len(),
            forall|j: int| 0 <= j < i ==> (ips@[j] is V4) != v4,
        decreases ips@.len() - i,
    {
        let is_v4 = match ips[i] {
            IpAddress::V4(_) => true,
            IpAddress::V6(_) => false,
        };
        if is_v4 == v4 {
            proof {
                lemma_first_of_family(ips@, v4);
                if first_of_family(ips@, v4) != Some(i as int) {
                    match first_of_family(ips@, v4) {
                        Some(k) => { assert(k < i || k > i); },
                        None => {},
                    }
                }
            }
            return Some(i);
        }
        i = i + 1;
    }
    None
}

fn is_family(family: &Option<String>, name: &str) -> (r: bool)
    ensures
        r == (match family { Some(f) => f@ == name@, None => false }),
{
    match family {
        Some(f) => crate::text::str_eq(f.as_str(), name),
        None => false,
    }
}

/// The IPv6 form of an address.
pub fn to_in6(ip: IpAddress) -> (a: In6Addr)
    ensures
        a@ == in6_of(ip),
{
    match ip {
        IpAddress::V4(o) => {
            let a: [u8; 16] = [0, 0, 0, 0, 0, 0, 0, 0, 0, 0, 0xff, 0xff, o[0], o[1], o[2], o[3]];
            assert(a@ =~= in6_of(ip));
            a
        },
        IpAddress::V6(o) => o,
    }
}

/// Chooses among the addresses that `addr` resolved to, as the family
/// setting asks, and gives its IPv6 form.
pub fn pick_address(addr: &str, ips: &Vec<IpAddress>, family: &Option<String>) -> (r: Result<In6Addr, CmdError>)
    ensures
        ips@.len() == 0 ==> (r matches Err(CmdError::CouldNotResolve(t)) && t@ == addr@),
        ips@.len() > 0 ==> match spec_pick_address(ips@, family_view(family)) {
            Some(ip) => r matches Ok(a) && a@ == in6_of(ip),
            None => r == Err::<In6Addr, CmdError>(CmdError::NoSuitableAddress),
        },
{
    proof {
        lemma_first_of_family(ips@, true);
        lemma_first_of_family(ips@, false);
    }
    if ips.len() == 0 {
        return Err(CmdError::CouldNotResolve(addr.to_owned()));
    }
    let chosen = if is_family(family, "ip4") {
        match find_family(ips, true) {
            Some(i) => Some(ips[i]),
            None => None,
        }
    } else if is_family(family, "ip6") {
        match find_family(ips, false) {
            Some(i) => Some(ips[i]),
            None => None,
        }
    } else {
        Some(ips[0])
    };
    match chosen {
        Some(ip) => Ok(to_in6(ip)),
        None => Err(CmdError::NoSuitableAddress),
    }
}

/// Which address a name resolves to: asked for `ip4`, the first IPv4
/// address in the list, and none only when the list has no IPv4 address;
/// asked for `ip6`, likewise the first IPv6 address; otherwise the first
/// address. An IPv4 address is handed to the module IPv4-mapped, and reads
/// back as that IPv4 address.
pub proof fn lemma_pick_address(ips: Seq<IpAddress>, family: Option<Seq<char>>)
    ensures
        family == Some("ip4"@) ==> match spec_pick_address(ips, family) {
            Some(ip) => ip is V4 && exists|i: int| 0 <= i < ips.len() && ips[i] == ip && forall|j: int|
                0 <= j < i ==> #[trigger] ips[j] is V6,
            None => forall|j: int| 0 <= j < ips.len() ==> #[trigger] ips[j] is V6,
        },
        family == Some("ip6"@) ==> match spec_pick_address(ips, family) {
            Some(ip) => ip is V6 && exists|i: int| 0 <= i < ips.len() && ips[i] == ip && forall|j: int|
                0 <= j < i ==> #[trigger] ips[j] is V4,
            None => forall|j: int| 0 <= j < ips.len() ==> #[trigger] ips[j] is V4,
        },
        family != Some("ip4"@) && family != Some("ip6"@) ==> spec_pick_address(ips, family) == if ips.len() > 0 {
            Some(ips[0])
        } else {
            None::<IpAddress>
        },
        forall|o: [u8; 4]| #[trigger] spec_ipv4_of(in6_of(IpAddress::V4(o))) == Some(o@),
{
    reveal_strlit("ip4");
    reveal_strlit("ip6");
    assert("ip4"@ != "ip6"@) by {
        assert("ip4"@[2] != "ip6"@[2]);
    }
    lemma_first_of_family(ips, true);
    lemma_first_of_family(ips, false);
    if family == Some("ip4"@) {
        if let Some(i) = first_of_family(ips, true) {
            assert forall|j: int| 0 <= j < i implies #[trigger] ips[j] is V6 by {
                assert(!(ips[j] is V4));
            }
        } else {
            assert forall|j: int| 0 <= j < ips.len() implies #[trigger] ips[j] is V6 by {
                assert(!(ips[j] is V4));
            }
        }
    }
    if family == Some("ip6"@) {
        if let Some(i) = first_of_family(ips, false) {
            assert(!(ips[i] is V4));
        }
    }
    assert forall|o: [u8; 4]| #[trigger] spec_ipv4_of(in6_of(IpAddress::V4(o))) == Some(o@) by {
        let a = in6_of(IpAddress::V4(o));
        assert(a.subrange(12, 16) =~= o@);
    }
}

/// The family setting as plain text.
pub open spec fn family_view(family: &Option<String>) -> Option<Seq<char>> {
    match family {
        Some(f) => Some(f@),
        None => None,
    }
}

/// The IPv4 address an IPv6 address stands for, as `Ipv6Addr::to_ipv4`
/// finds it: the first ten bytes are zero and the next two are both zero
/// (IPv4-compatible) or both `0xff` (IPv4-mapped).
pub open spec fn spec_ipv4_of(a: Seq<u8>) -> Option<Seq<u8>> {
    if (forall|i: int| 0 <= i < 10 ==> a[i] == 0) && ((a[10] == 0 && a[11] == 0) || (a[10] == 0xff
        && a[11] == 0xff)) {
        Some(a.subrange(12, 16))
    } else {
        None
    }
}

/// The IPv4 address an IPv6 address stands for, if any.
pub fn ipv4_of(addr: &In6Addr) -> (r: Option<[u8; 4]>)
    ensures
        match r {
            Some(o) => spec_ipv4_of(addr@) == Some(o@),
            None => spec_ipv4_of(addr@) is None,
        },
{
    let mut i: usize = 0;
    while i < 10
        invariant
            0 <= i <= 10,
            forall|j: int| 0 <= j < i ==> addr@[j] == 0,
        decreases 10 - i,
    {
        if addr[i] != 0 {
            return None;
        }
        i = i + 1;
    }
    if (addr[10] == 0 && addr[11] == 0) || (addr[10] == 0xff && addr[11] == 0xff) {
        let o: [u8; 4] = [addr[12], addr[13], addr[14], addr[15]];
        assert(o@ =~= addr@.subrange(12, 16));
        Some(o)
    } else {
        None
    }
}

/// Dotted-decimal text of an IPv4 address.
pub open spec fn ipv4_text(o: Seq<u8>) -> Seq<char> {
    decimal(o[0] as nat) + seq!['.'] + decimal(o[1] as nat) + seq!['.'] + decimal(o[2] as nat) + seq!['.']
        + decimal(o[3] as nat)
}

/// The text of an address: an IPv4-compatible or IPv4-mapped address as
/// its IPv4 address in dotted decimal; any other as `v6_text`, its text as
/// an IPv6 address.
pub fn ip_to_string(addr: &In6Addr, v6_text: &str) -> (s: String)
    ensures
        match spec_ipv4_of(addr@) {
            Some(o) => s@ == ipv4_text(o),
            None => s@ == v6_text@,
        },
{
    match ipv4_of(addr) {
        Some(o) => ipv4_string(&o),
        None => String::from_str(v6_text),
    }
}

/// Dotted-decimal text of an IPv4 address.
pub fn ipv4_string(o: &[u8; 4]) -> (s: String)
    ensures
        s@ == ipv4_text(o@),
{
    let mut s = String::new();
    push_decimal(&mut s, o[0] as u64);
    push_char(&mut s, '.');
    push_decimal(&mut s, o[1] as u64);
    push_char(&mut s, '.');
    push_decimal(&mut s, o[2] as u64);
    push_char(&mut s, '.');
    push_decimal(&mut s, o[3] as u64);
    assert(s@ =~= ipv4_text(o@));
    s
}


/// Size of the comment field of the protocol structures.
pub const COMMENT_LEN: usize = 22;

/// How a comment text is shown: nothing when it is empty, otherwise
/// ` comment TEXT` in dumps and `, Comment: TEXT` elsewhere.
pub open spec fn comment_line(text: Seq<char>, is_dump: bool) -> Seq<char> {
    if text.len() == 0 {
        seq![]
    } else {
        (if is_dump { " comment "@ } else { ", Comment: "@ }) + text
    }
}

/// How a comment field is shown: its text is the bytes before the first
/// NUL, read as UTF-8 with invalid sequences replaced.
pub open spec fn comment_text(c: Seq<u8>, is_dump: bool) -> Seq<char> {
    comment_line(utf8_lossy(crate::netlink::up_to_nul(c)), is_dump)
}

/// Shows a comment text.
pub fn comment_from_text(text: &str, is_dump: bool) -> (r: String)
    ensures
        r@ == comment_line(text@, is_dump),
{
    if text.is_empty() {
        return String::new();
    }
    let mut r = String::new();
    if is_dump {
        push_str(&mut r, " comment ");
    } else {
        push_str(&mut r, ", Comment: ");
    }
    push_str(&mut r, text);
    r
}

/// Shows a comment field: nothing when its first byte is NUL, otherwise
/// the prefix and the text; a field whose bytes before the first NUL are
/// valid UTF-8 shows that text.
pub fn format_comment(c: &[u8; 22], is_dump: bool) -> (r: String)
    ensures
        r@ == comment_text(c@, is_dump),
        (r@.len() == 0) == (crate::netlink::up_to_nul(c@).len() == 0),
        valid_utf8(crate::netlink::up_to_nul(c@)) ==> r@ == comment_line(
            decode_utf8(crate::netlink::up_to_nul(c@)),
            is_dump,
        ),
{
    let text = crate::netlink::nul_prefix(c.as_slice());
    let s = lossy_string(text.as_slice());
    comment_from_text(s.as_str(), is_dump)
}

/// A comment that `copy_comment` stored whole (one to 22 bytes, none of
/// them NUL) is read back from the field as the same text, so
/// `format_comment` shows it with its prefix.
pub proof fn lemma_copied_comment_shown(s: Seq<char>)
    requires
        1 <= encode_utf8(s).len() <= 22,
        forall|i: int| 0 <= i < encode_utf8(s).len() ==> #[trigger] encode_utf8(s)[i] != 0,
    ensures
        crate::netlink::up_to_nul(comment_field(encode_utf8(s))) == encode_utf8(s),
        valid_utf8(crate::netlink::up_to_nul(comment_field(encode_utf8(s)))),
        decode_utf8(crate::netlink::up_to_nul(comment_field(encode_utf8(s)))) == s,
        s.len() > 0,
        comment_line(decode_utf8(crate::netlink::up_to_nul(comment_field(encode_utf8(s)))), true) == " comment "@
            + s,
        comment_line(decode_utf8(crate::netlink::up_to_nul(comment_field(encode_utf8(s)))), false)
            == ", Comment: "@ + s,
{
    let b = encode_utf8(s);
    let f = comment_field(b);
    assert(f =~= b + Seq::new((22 - b.len()) as nat, |i: int| 0u8));
    lemma_up_to_nul_prefix(b, Seq::new((22 - b.len()) as nat, |i: int| 0u8));
    encode_utf8_valid_utf8(s);
    encode_utf8_decode_utf8(s);
    if s.len() == 0 {
        assert(decode_utf8(b).len() == 0);
        assert(b =~= Seq::<u8>::empty()) by {
            decode_utf8_encode_utf8(b);
        }
    }
}

/// The bytes before the first NUL of a text without NUL, followed by
/// nothing or by a NUL, are the text.
proof fn lemma_up_to_nul_prefix(b: Seq<u8>, z: Seq<u8>)
    requires
        forall|i: int| 0 <= i < b.len() ==> #[trigger] b[i] != 0,
        z.len() == 0 || z[0] == 0,
    ensures
        crate::netlink::up_to_nul(b + z) == b,
    decreases b.len(),
{
    if b.len() == 0 {
        if z.len() > 0 {
            assert((b + z)[0] == 0);
        } else {
            assert(b + z =~= Seq::<u8>::empty());
        }
    } else {
        assert((b + z)[0] == b[0]);
        assert((b + z).drop_first() =~= b.drop_first() + z);
        lemma_up_to_nul_prefix(b.drop_first(), z);
        assert(seq![b[0]] + b.drop_first() =~= b);
    }
}

/// What a comment field holds after `copy_comment`: the first 22 bytes of
/// the text, then zeros.
pub open spec fn comment_field(src: Seq<u8>) -> Seq<u8> {
    let n = if src.len() < 22 { src.len() } else { 22 };
    src.take(n as int) + Seq::new((22 - n) as nat, |i: int| 0u8)
}

/// Stores a comment in a comment field, cut to the field's size.
pub fn copy_comment(dest: &mut [u8; 22], src: &str)
    ensures
        final(dest)@ == comment_field(src.spec_bytes()),
{
    let bytes = src.as_bytes();
    let len = if bytes.len() < COMMENT_LEN { bytes.len() } else { COMMENT_LEN };
    let mut out: [u8; 22] = [0; 22];
    let mut i: usize = 0;
    while i < 22
        invariant
            0 <= i <= 22,
            bytes@ == src.spec_bytes(),
            len == (if bytes@.len() < 22 { bytes@.len() } else { 22 }),
            forall|j: int| 0 <= j < i ==> out@[j] == comment_field(bytes@)[j],
        decreases 22 - i,
    {
        if i < len {
            out[i] = bytes[i];
        } else {
            out[i] = 0;
        }
        i = i + 1;
    }
    assert(out@ =~= comment_field(bytes@));
    *dest = out;
}


/// Why a hexadecimal XOR key was refused.
#[derive(Clone, Copy, Debug, PartialEq, Eq, Structural)]
pub enum XorKeyError {
    /// The key text is empty or has an odd number of bytes.
    BadLength,
    /// The key holds more bytes than the key buffer.
    TooLong,
    /// The key text holds a character that is not a hexadecimal digit.
    InvalidHex,
}

/// Whether byte `b` is an ASCII hexadecimal digit.
pub open spec fn is_hex_byte(b: u8) -> bool {
    (48 <= b <= 57) || (97 <= b <= 102) || (65 <= b <= 70)
}

/// The value of hexadecimal digit `b`.
pub open spec fn hex_value(b: u8) -> u8 {
    if b <= 57 {
        (b - 48) as u8
    } else if b >= 97 {
        (b - 87) as u8
    } else {
        (b - 55) as u8
    }
}

/// The index of the first byte of `b[i..n]` that is not a hexadecimal
/// digit, or `n` if there is none.
pub open spec fn first_non_hex(b: Seq<u8>, i: int, n: int) -> int
    decreases n - i,
{
    if i >= n {
        n
    } else if !is_hex_byte(b[i]) {
        i
    } else {
        first_non_hex(b, i + 1, n)
    }
}

/// Whether the key text has an even, non-zero number of bytes that fit a
/// key buffer of `cap` bytes.
pub open spec fn xor_key_fits(b: Seq<u8>, cap: nat) -> bool {
    b.len() > 0 && b.len() % 2 == 0 && b.len() / 2 <= cap
}

/// The inputs on which the key parser stops the program: the first byte
/// that is not a hexadecimal digit is not ASCII, so it cannot be taken as a
/// one-byte string.
pub open spec fn xor_key_panics(b: Seq<u8>, cap: nat) -> bool {
    xor_key_fits(b, cap) && first_non_hex(b, 0, b.len() as int) < b.len() && b[first_non_hex(
        b,
        0,
        b.len() as int,
    )] >= 0x80
}

proof fn lemma_first_non_hex(b: Seq<u8>, i: int, n: int)
    requires
        0 <= i <= n <= b.len(),
    ensures
        i <= first_non_hex(b, i, n) <= n,
        forall|j: int| i <= j < first_non_hex(b, i, n) ==> is_hex_byte(b[j]),
        first_non_hex(b, i, n) < n ==> !is_hex_byte(b[first_non_hex(b, i, n)]),
    decreases n - i,
{
    if i < n && is_hex_byte(b[i]) {
        lemma_first_non_hex(b, i + 1, n);
    }
}

fn hex_digit_value(b: u8) -> (r: Option<u8>)
    ensures
        r is Some <==> is_hex_byte(b),
        r matches Some(v) ==> v == hex_value(b) && v < 16,
{
    if 48 <= b && b <= 57 {
        Some(b - 48)
    } else if 97 <= b && b <= 102 {
        Some(b - 87)
    } else if 65 <= b && b <= 70 {
        Some(b - 55)
    } else {
        None
    }
}

/// What reading the key text `b` does to a key buffer `key0` and a key
/// length `len0`, giving `key1`, `len1` and the result `r`: a text of odd
/// or no length, or one too long for the buffer, changes nothing; else
/// the bytes are stored one by one up to the first invalid digit, and the
/// length is set only where every digit is valid.
pub open spec fn xor_key_outcome(
    b: Seq<u8>,
    key0: Seq<u8>,
    len0: u8,
    key1: Seq<u8>,
    len1: u8,
    r: Result<(), XorKeyError>,
) -> bool {
    let cap = key0.len();
    let n = (b.len() / 2) as int;
    let stored = first_non_hex(b, 0, b.len() as int) / 2;
    &&& key1.len() == key0.len()
    &&& if !(b.len() > 0 && b.len() % 2 == 0) {
        &&& r == Err::<(), XorKeyError>(XorKeyError::BadLength)
        &&& key1 == key0
        &&& len1 == len0
    } else if n > cap {
        &&& r == Err::<(), XorKeyError>(XorKeyError::TooLong)
        &&& key1 == key0
        &&& len1 == len0
    } else {
        &&& forall|i: int| 0 <= i < stored ==> #[trigger] key1[i] == hex_value(b[2 * i]) * 16 + hex_value(b[2 * i + 1])
        &&& forall|i: int| stored <= i < cap ==> #[trigger] key1[i] == key0[i]
        &&& if first_non_hex(b, 0, b.len() as int) < b.len() {
            &&& r == Err::<(), XorKeyError>(XorKeyError::InvalidHex)
            &&& len1 == len0
        } else {
            &&& r == Ok::<(), XorKeyError>(())
            &&& len1 == (n % 256) as u8
        }
    }
}

/// Reads a hexadecimal XOR key into `key`, and its length into `key_len`.
/// The key bytes are stored one by one: when a digit turns out invalid, the
/// bytes before it have already been stored.
pub fn parse_xor_key(hex: &str, key: &mut [u8], key_len: &mut u8) -> (r: Result<(), XorKeyError>)
    requires
        !xor_key_panics(hex.spec_bytes(), old(key)@.len()),
    ensures
        xor_key_outcome(hex.spec_bytes(), old(key)@, *old(key_len), final(key)@, *final(key_len), r),
{
    let b = hex.as_bytes();
    if b.len() == 0 || b.len() % 2 != 0 {
        return Err(XorKeyError::BadLength);
    }
    let len = b.len() / 2;
    if len > key.len() {
        return Err(XorKeyError::TooLong);
    }
    proof { lemma_first_non_hex(b@, 0, b@.len() as int); }
    let ghost p = first_non_hex(b@, 0, b@.len() as int);
    let mut i: usize = 0;
    while i < len
        invariant
            0 <= i <= len,
            len == b@.len() / 2,
            b@.len() == 2 * len,
            2 * len <= usize::MAX,
            len <= key@.len(),
            b@ == hex.spec_bytes(),
            p == first_non_hex(b@, 0, b@.len() as int),
            0 <= p <= b@.len(),
            forall|j: int| 0 <= j < p ==> is_hex_byte(b@[j]),
            p < b@.len() ==> !is_hex_byte(b@[p]) && b@[p] < 0x80,
            2 * i <= p,
            key@.len() == old(key)@.len(),
            forall|j: int| 0 <= j < i ==> #[trigger] key@[j] == hex_value(b@[2 * j]) * 16 + hex_value(b@[2 * j + 1]),
            forall|j: int| i <= j < key@.len() ==> #[trigger] key@[j] == old(key)@[j],
            *key_len == *old(key_len),
        decreases len - i,
    {
        let hi = match hex_digit_value(b[2 * i]) {
            Some(v) => v,
            None => {
                return Err(XorKeyError::InvalidHex);
            },
        };
        let lo = match hex_digit_value(b[2 * i + 1]) {
            Some(v) => v,
            None => {
                return Err(XorKeyError::InvalidHex);
            },
        };
        let v: u8 = hi * 16 + lo;
        key[i] = v;
        i = i + 1;
    }
    *key_len = (len % 256) as u8;
    Ok(())
}

/// The lower-case hexadecimal digit of `v` (below 16).
pub open spec fn hex_char(v: u8) -> char {
    if v < 10 {
        (v + 48) as char
    } else {
        (v + 87) as char
    }
}

/// Two lower-case hexadecimal digits per byte.
pub open spec fn hex_text(bytes: Seq<u8>) -> Seq<char>
    decreases bytes.len(),
{
    if bytes.len() == 0 {
        seq![]
    } else {
        seq![hex_char(bytes[0] / 16), hex_char(bytes[0] % 16)] + hex_text(bytes.drop_first())
    }
}

proof fn lemma_hex_text_push(bytes: Seq<u8>, x: u8)
    ensures
        hex_text(bytes.push(x)) == hex_text(bytes) + seq![hex_char(x / 16), hex_char(x % 16)],
    decreases bytes.len(),
{
    if bytes.len() == 0 {
        assert(bytes.push(x).drop_first() =~= Seq::<u8>::empty());
        assert(hex_text(Seq::<u8>::empty()) == Seq::<char>::empty());
        assert(hex_text(bytes) == Seq::<char>::empty());
        assert(hex_text(bytes.push(x)) =~= seq![hex_char(x / 16), hex_char(x % 16)]);
    } else {
        assert(bytes.push(x).drop_first() =~= bytes.drop_first().push(x));
        lemma_hex_text_push(bytes.drop_first(), x);
        assert(hex_text(bytes.push(x)) =~= hex_text(bytes) + seq![hex_char(x / 16), hex_char(x % 16)]);
    }
}

fn hex_digit_char(v: u8) -> (c: char)
    requires
        v < 16,
    ensures
        c == hex_char(v),
{
    if v < 10 {
        (v + 48) as char
    } else {
        (v + 87) as char
    }
}

/// The key bytes that `format_xor_key` shows: the first `len` of them, or
/// all if there are fewer.
pub open spec fn shown_key(key: Seq<u8>, len: u8) -> Seq<u8> {
    if (len as nat) < key.len() { key.take(len as int) } else { key }
}

/// Shows the first `len` bytes of a key in lower-case hexadecimal.
pub fn format_xor_key(key: &[u8], len: u8) -> (s: String)
    ensures
        s@ == hex_text(shown_key(key@, len)),
{
    let n: usize = if (len as usize) < key.len() { len as usize } else { key.len() };
    let mut s = String::new();
    let mut i: usize = 0;
    assert(key@.take(0) =~= Seq::<u8>::empty());
    while i < n
        invariant
            0 <= i <= n <= key@.len(),
            s@ == hex_text(key@.take(i as int)),
        decreases n - i,
    {
        let b = key[i];
        proof {
            lemma_hex_text_push(key@.take(i as int), b);
            assert(key@.take(i as int).push(b) =~= key@.take(i + 1));
        }
        push_char(&mut s, hex_digit_char(b / 16));
        push_char(&mut s, hex_digit_char(b % 16));
        assert(s@ =~= hex_text(key@.take(i + 1)));
        i = i + 1;
    }
    assert(key@.take(n as int) =~= shown_key(key@, len));
    s
}


/// Hexadecimal digit `c` in lower case.
pub open spec fn lower_hex_char(c: u8) -> char {
    if 65 <= c <= 70 {
        (c + 32) as char
    } else {
        c as char
    }
}

/// Key text with its hexadecimal digits in lower case.
pub open spec fn lower_hex(b: Seq<u8>) -> Seq<char> {
    Seq::new(b.len(), |i: int| lower_hex_char(b[i]))
}

proof fn lemma_hex_digit(c: u8)
    requires
        is_hex_byte(c),
    ensures
        hex_value(c) < 16,
        hex_char(hex_value(c)) == lower_hex_char(c),
{
}

/// A key that `parse_xor_key` accepted is shown by `format_xor_key` as the
/// text it was read from, in lower case: if the first `n` key bytes hold
/// the pairs of hexadecimal digits of `b` (`2 * n` digits), they are shown
/// as `b` with its letters in lower case.
pub proof fn lemma_xor_key_roundtrip(b: Seq<u8>, key: Seq<u8>, n: nat)
    requires
        b.len() == 2 * n,
        n <= key.len(),
        forall|j: int| 0 <= j < b.len() ==> is_hex_byte(#[trigger] b[j]),
        forall|i: int| 0 <= i < n ==> #[trigger] key[i] == hex_value(b[2 * i]) * 16 + hex_value(b[2 * i + 1]),
    ensures
        hex_text(key.take(n as int)) == lower_hex(b),
    decreases n,
{
    if n == 0 {
        assert(key.take(0) =~= Seq::<u8>::empty());
        assert(lower_hex(b) =~= Seq::<char>::empty());
    } else {
        let m = (n - 1) as nat;
        let b0 = b.take(2 * m as int);
        assert forall|j: int| 0 <= j < b0.len() implies is_hex_byte(#[trigger] b0[j]) by {
            assert(b0[j] == b[j]);
        }
        assert forall|i: int| 0 <= i < m implies #[trigger] key[i] == hex_value(b0[2 * i]) * 16 + hex_value(b0[2 * i + 1]) by {
            assert(key[i] == hex_value(b[2 * i]) * 16 + hex_value(b[2 * i + 1]));
        }
        lemma_xor_key_roundtrip(b0, key, m);
        let hi = b[2 * m as int];
        let lo = b[2 * m as int + 1];
        lemma_hex_digit(hi);
        lemma_hex_digit(lo);
        let v = key[m as int];
        assert(v == hex_value(hi) * 16 + hex_value(lo));
        assert(v / 16 == hex_value(hi));
        assert(v % 16 == hex_value(lo));
        lemma_hex_text_push(key.take(m as int), v);
        assert(key.take(m as int).push(v) =~= key.take(n as int));
        assert(lower_hex(b) =~= lower_hex(b0) + seq![lower_hex_char(hi), lower_hex_char(lo)]);
    }
}


/// A key that `parse_xor_key` read without error is shown by
/// `format_xor_key` as the text it was read from, in lower case (for keys
/// of fewer than 256 bytes, whose length the key length holds).
pub proof fn lemma_parsed_key_shown(
    b: Seq<u8>,
    key0: Seq<u8>,
    len0: u8,
    key1: Seq<u8>,
    len1: u8,
    r: Result<(), XorKeyError>,
)
    requires
        xor_key_outcome(b, key0, len0, key1, len1, r),
        r is Ok,
        b.len() / 2 < 256,
    ensures
        hex_text(shown_key(key1, len1)) == lower_hex(b),
{
    let n = b.len() / 2;
    lemma_first_non_hex(b, 0, b.len() as int);
    assert(first_non_hex(b, 0, b.len() as int) == b.len());
    assert forall|j: int| 0 <= j < b.len() implies is_hex_byte(#[trigger] b[j]) by {}
    lemma_xor_key_roundtrip(b, key1, n);
    assert(len1 == n);
    if n == key1.len() {
        assert(key1.take(n as int) =~= key1);
    }
}

}
