//! Constants and structures of the tutuicmptunnel generic-netlink protocol.

use crate::wire::{
    lemma_ne_roundtrip, ne_bytes_u16, ne_bytes_u32, ne_bytes_u64, push_bytes, push_u16_ne,
    push_u32_ne, push_u64_ne, read_u16_ne, read_u32_ne, read_u64_ne, u16_of_ne, u32_of_ne,
    u64_of_ne,
};
use vstd::prelude::*;

verus! {

/// Name of this control tool.
pub const PROJECT_NAME: &'static str = "ktuctl-rs";

/// Generic-netlink family registered by the kernel module.
pub const TUTU_GENL_FAMILY_NAME: &'static str = "tutuicmptunnel";

/// Version of the module's generic-netlink interface.
pub const TUTU_GENL_VERSION: u8 = 0x1;

/// Where the table of user names is read from.
pub const UID_CONFIG_PATH: &'static str = "/etc/tutuicmptunnel/uids";

pub const TUTU_ATTR_CONFIG: u16 = 1;
pub const TUTU_ATTR_STATS: u16 = 2;
pub const TUTU_ATTR_EGRESS: u16 = 3;
pub const TUTU_ATTR_INGRESS: u16 = 4;
pub const TUTU_ATTR_SESSION: u16 = 5;
pub const TUTU_ATTR_USER_INFO: u16 = 6;
pub const TUTU_ATTR_IFNAME_NAME: u16 = 7;

pub const TUTU_CMD_GET_CONFIG: u8 = 1;
pub const TUTU_CMD_SET_CONFIG: u8 = 2;
pub const TUTU_CMD_GET_STATS: u8 = 3;
pub const TUTU_CMD_GET_EGRESS: u8 = 5;
pub const TUTU_CMD_DELETE_EGRESS: u8 = 6;
pub const TUTU_CMD_UPDATE_EGRESS: u8 = 7;
pub const TUTU_CMD_GET_INGRESS: u8 = 8;
pub const TUTU_CMD_DELETE_INGRESS: u8 = 9;
pub const TUTU_CMD_UPDATE_INGRESS: u8 = 10;
pub const TUTU_CMD_GET_SESSION: u8 = 11;
pub const TUTU_CMD_GET_USER_INFO: u8 = 14;
pub const TUTU_CMD_DELETE_USER_INFO: u8 = 15;
pub const TUTU_CMD_UPDATE_USER_INFO: u8 = 16;
pub const TUTU_CMD_IFNAME_GET: u8 = 17;
pub const TUTU_CMD_IFNAME_ADD: u8 = 18;
pub const TUTU_CMD_IFNAME_DEL: u8 = 19;

/// Map update flag: create or replace.
pub const TUTU_ANY: u64 = 0;

/// Map update flag: create only.
pub const TUTU_NOEXIST: u64 = 1;

pub const NLMSG_ALIGNTO: usize = 4;
pub const NLA_ALIGNTO: usize = 4;
pub const GENL_ID_CTRL: u16 = 0x10;
pub const CTRL_CMD_GETFAMILY: u8 = 3;
pub const CTRL_ATTR_FAMILY_ID: u16 = 1;
pub const CTRL_ATTR_FAMILY_NAME: u16 = 2;

pub const NLM_F_REQUEST: u16 = 0x0001;
pub const NLM_F_ACK: u16 = 0x0004;
pub const NLM_F_DUMP: u16 = 0x0300;

pub const NLMSG_ERROR: u16 = 0x2;
pub const NLMSG_DONE: u16 = 0x3;


/// An IPv6 address (IPv4 addresses are stored IPv4-mapped).
pub type In6Addr = [u8; 16];

/// The `len` bytes of `b` that start at `off`.
pub open spec fn span(b: Seq<u8>, off: usize, len: usize) -> Seq<u8> {
    b.subrange(off as int, off + len)
}

/// Size of the encoding of [`TutuConfig`].
pub const TUTU_CONFIG_LEN: usize = 8;

/// The mode of the module: server or client, and how long a server keeps an idle session.
#[derive(Clone, Copy, Debug, PartialEq, Eq)]
pub struct TutuConfig {
    pub session_max_age: u32,
    pub _pad0: u8,
    pub is_server: u8,
    pub _pad1: [u8; 2],
}

impl TutuConfig {
    /// The bytes of this structure as the module lays it out in memory.
    pub open spec fn spec_bytes(self) -> Seq<u8> {
        ne_bytes_u32(self.session_max_age)
            + seq![self._pad0]
            + seq![self.is_server]
            + self._pad1@
    }

    /// The layout of the structure in memory, as the module declares it:
    /// each field at its fixed byte offset.
    pub proof fn lemma_layout(self)
        ensures
            self.spec_bytes().len() == 8,
            self.spec_bytes().subrange(0, 4) == ne_bytes_u32(self.session_max_age),
            self.spec_bytes()[4] == self._pad0,
            self.spec_bytes()[5] == self.is_server,
            self.spec_bytes().subrange(6, 8) == self._pad1@,
    {
        lemma_ne_roundtrip();
        assert(self.spec_bytes().subrange(0, 4) =~= ne_bytes_u32(self.session_max_age));
        assert(self.spec_bytes().subrange(6, 8) =~= self._pad1@);
    }

    /// Appends the bytes of this structure.
    pub fn write(&self, buf: &mut Vec<u8>)
        ensures
            final(buf)@ == old(buf)@ + self.spec_bytes(),
    {
        let ghost start = buf@;
        push_u32_ne(buf, self.session_max_age);
        buf.push(self._pad0);
        buf.push(self.is_server);
        push_bytes(buf, self._pad1.as_slice());
        assert(buf@ =~= start + self.spec_bytes());
    }

    /// The bytes of this structure, for sending it to the module.
    pub fn to_bytes(&self) -> (b: Vec<u8>)
        ensures
            b@ == self.spec_bytes(),
    {
        let mut b: Vec<u8> = Vec::new();
        self.write(&mut b);
        assert(b@ =~= self.spec_bytes());
        b
    }

    /// Reads the structure whose bytes start at `off`.
    pub fn read(b: &[u8], off: usize) -> (x: Self)
        requires
            off + TUTU_CONFIG_LEN <= b@.len(),
        ensures
            x.spec_bytes() == span(b@, off, TUTU_CONFIG_LEN),
    {
        let _ = b.len();
        proof { lemma_ne_roundtrip(); }
        let session_max_age = read_u32_ne(b, off + 0);
        assert(ne_bytes_u32(session_max_age) == b@.subrange(off + 0, off + 4));
        let _pad1: [u8; 2] = [b[off + 6], b[off + 7]];
        assert(_pad1@ =~= b@.subrange(off + 6, off + 8));
        let x = TutuConfig { session_max_age, _pad0: b[off + 4], is_server: b[off + 5], _pad1 };
        assert(x.spec_bytes() =~= span(b@, off, TUTU_CONFIG_LEN));
        x
    }

    /// Reads the structure from the first bytes of `b`, if `b` is long enough.
    pub fn from_bytes(b: &[u8]) -> (r: Option<Self>)
        ensures
            r is Some <==> b@.len() >= TUTU_CONFIG_LEN,
            r matches Some(x) ==> x.spec_bytes() == span(b@, 0, TUTU_CONFIG_LEN),
    {
        if b.len() < TUTU_CONFIG_LEN {
            return None;
        }
        let x = Self::read(b, 0);
        Some(x)
    }

    /// The encoding has the structure's size and determines the structure.
    pub proof fn lemma_bytes_injective(self, other: Self)
        ensures
            self.spec_bytes().len() == TUTU_CONFIG_LEN,
            self.spec_bytes() == other.spec_bytes() ==> self == other,
    {
        lemma_ne_roundtrip();
        if self.spec_bytes() == other.spec_bytes() {
            let a = self.spec_bytes();
            let c = other.spec_bytes();
            assert(a.subrange(0, 4) =~= ne_bytes_u32(self.session_max_age));
            assert(c.subrange(0, 4) =~= ne_bytes_u32(other.session_max_age));
            assert(u32_of_ne(ne_bytes_u32(self.session_max_age)) == u32_of_ne(ne_bytes_u32(other.session_max_age)));
            assert(self.session_max_age == other.session_max_age);
            assert(a[4] == c[4]);
            assert(self._pad0 == other._pad0);
            assert(a[5] == c[5]);
            assert(self.is_server == other.is_server);
            assert(a.subrange(6, 8) =~= self._pad1@);
            assert(c.subrange(6, 8) =~= other._pad1@);
            assert(self._pad1@ =~= other._pad1@);
            assert(self._pad1 == other._pad1);
        }
    }
}

/// Size of the encoding of [`TutuStats`].
pub const TUTU_STATS_LEN: usize = 40;

/// Packet counters of the module.
#[derive(Clone, Copy, Debug, PartialEq, Eq)]
pub struct TutuStats {
    pub packets_processed: u64,
    pub packets_dropped: u64,
    pub checksum_errors: u64,
    pub fragmented: u64,
    pub gso: u64,
}

impl TutuStats {
    /// The bytes of this structure as the module lays it out in memory.
    pub open spec fn spec_bytes(self) -> Seq<u8> {
        ne_bytes_u64(self.packets_processed)
            + ne_bytes_u64(self.packets_dropped)
            + ne_bytes_u64(self.checksum_errors)
            + ne_bytes_u64(self.fragmented)
            + ne_bytes_u64(self.gso)
    }

    /// The layout of the structure in memory, as the module declares it:
    /// each field at its fixed byte offset.
    pub proof fn lemma_layout(self)
        ensures
            self.spec_bytes().len() == 40,
            self.spec_bytes().subrange(0, 8) == ne_bytes_u64(self.packets_processed),
            self.spec_bytes().subrange(8, 16) == ne_bytes_u64(self.packets_dropped),
            self.spec_bytes().subrange(16, 24) == ne_bytes_u64(self.checksum_errors),
            self.spec_bytes().subrange(24, 32) == ne_bytes_u64(self.fragmented),
            self.spec_bytes().subrange(32, 40) == ne_bytes_u64(self.gso),
    {
        lemma_ne_roundtrip();
        assert(self.spec_bytes().subrange(0, 8) =~= ne_bytes_u64(self.packets_processed));
        assert(self.spec_bytes().subrange(8, 16) =~= ne_bytes_u64(self.packets_dropped));
        assert(self.spec_bytes().subrange(16, 24) =~= ne_bytes_u64(self.checksum_errors));
        assert(self.spec_bytes().subrange(24, 32) =~= ne_bytes_u64(self.fragmented));
        assert(self.spec_bytes().subrange(32, 40) =~= ne_bytes_u64(self.gso));
    }

    /// Appends the bytes of this structure.
    pub fn write(&self, buf: &mut Vec<u8>)
        ensures
            final(buf)@ == old(buf)@ + self.spec_bytes(),
    {
        let ghost start = buf@;
        push_u64_ne(buf, self.packets_processed);
        push_u64_ne(buf, self.packets_dropped);
        push_u64_ne(buf, self.checksum_errors);
        push_u64_ne(buf, self.fragmented);
        push_u64_ne(buf, self.gso);
        assert(buf@ =~= start + self.spec_bytes());
    }

    /// The bytes of this structure, for sending it to the module.
    pub fn to_bytes(&self) -> (b: Vec<u8>)
        ensures
            b@ == self.spec_bytes(),
    {
        let mut b: Vec<u8> = Vec::new();
        self.write(&mut b);
        assert(b@ =~= self.spec_bytes());
        b
    }

    /// Reads the structure whose bytes start at `off`.
    pub fn read(b: &[u8], off: usize) -> (x: Self)
        requires
            off + TUTU_STATS_LEN <= b@.len(),
        ensures
            x.spec_bytes() == span(b@, off, TUTU_STATS_LEN),
    {
        let _ = b.len();
        proof { lemma_ne_roundtrip(); }
        let packets_processed = read_u64_ne(b, off + 0);
        assert(ne_bytes_u64(packets_processed) == b@.subrange(off + 0, off + 8));
        let packets_dropped = read_u64_ne(b, off + 8);
        assert(ne_bytes_u64(packets_dropped) == b@.subrange(off + 8, off + 16));
        let checksum_errors = read_u64_ne(b, off + 16);
        assert(ne_bytes_u64(checksum_errors) == b@.subrange(off + 16, off + 24));
        let fragmented = read_u64_ne(b, off + 24);
        assert(ne_bytes_u64(fragmented) == b@.subrange(off + 24, off + 32));
        let gso = read_u64_ne(b, off + 32);
        assert(ne_bytes_u64(gso) == b@.subrange(off + 32, off + 40));
        let x = TutuStats { packets_processed, packets_dropped, checksum_errors, fragmented, gso };
        assert(x.spec_bytes() =~= span(b@, off, TUTU_STATS_LEN));
        x
    }

    /// Reads the structure from the first bytes of `b`, if `b` is long enough.
    pub fn from_bytes(b: &[u8]) -> (r: Option<Self>)
        ensures
            r is Some <==> b@.len() >= TUTU_STATS_LEN,
            r matches Some(x) ==> x.spec_bytes() == span(b@, 0, TUTU_STATS_LEN),
    {
        if b.len() < TUTU_STATS_LEN {
            return None;
        }
        let x = Self::read(b, 0);
        Some(x)
    }

    /// The encoding has the structure's size and determines the structure.
    pub proof fn lemma_bytes_injective(self, other: Self)
        ensures
            self.spec_bytes().len() == TUTU_STATS_LEN,
            self.spec_bytes() == other.spec_bytes() ==> self == other,
    {
        lemma_ne_roundtrip();
        if self.spec_bytes() == other.spec_bytes() {
            let a = self.spec_bytes();
            let c = other.spec_bytes();
            assert(a.subrange(0, 8) =~= ne_bytes_u64(self.packets_processed));
            assert(c.subrange(0, 8) =~= ne_bytes_u64(other.packets_processed));
            assert(u64_of_ne(ne_bytes_u64(self.packets_processed)) == u64_of_ne(ne_bytes_u64(other.packets_processed)));
            assert(self.packets_processed == other.packets_processed);
            assert(a.subrange(8, 16) =~= ne_bytes_u64(self.packets_dropped));
            assert(c.subrange(8, 16) =~= ne_bytes_u64(other.packets_dropped));
            assert(u64_of_ne(ne_bytes_u64(self.packets_dropped)) == u64_of_ne(ne_bytes_u64(other.packets_dropped)));
            assert(self.packets_dropped == other.packets_dropped);
            assert(a.subrange(16, 24) =~= ne_bytes_u64(self.checksum_errors));
            assert(c.subrange(16, 24) =~= ne_bytes_u64(other.checksum_errors));
            assert(u64_of_ne(ne_bytes_u64(self.checksum_errors)) == u64_of_ne(ne_bytes_u64(other.checksum_errors)));
            assert(self.checksum_errors == other.checksum_errors);
            assert(a.subrange(24, 32) =~= ne_bytes_u64(self.fragmented));
            assert(c.subrange(24, 32) =~= ne_bytes_u64(other.fragmented));
            assert(u64_of_ne(ne_bytes_u64(self.fragmented)) == u64_of_ne(ne_bytes_u64(other.fragmented)));
            assert(self.fragmented == other.fragmented);
            assert(a.subrange(32, 40) =~= ne_bytes_u64(self.gso));
            assert(c.subrange(32, 40) =~= ne_bytes_u64(other.gso));
            assert(u64_of_ne(ne_bytes_u64(self.gso)) == u64_of_ne(ne_bytes_u64(other.gso)));
            assert(self.gso == other.gso);
        }
    }
}

/// Size of the encoding of [`UserInfoValue`].
pub const USER_INFO_VALUE_LEN: usize = 42;

/// Where a server reaches one user: address, ICMP id and port (both in network byte order), and a comment.
#[derive(Clone, Copy, Debug, PartialEq, Eq)]
pub struct UserInfoValue {
    pub address: In6Addr,
    pub icmp_id: u16,
    pub dport: u16,
    pub comment: [u8; 22],
}

impl UserInfoValue {
    /// The bytes of this structure as the module lays it out in memory.
    pub open spec fn spec_bytes(self) -> Seq<u8> {
        self.address@
            + ne_bytes_u16(self.icmp_id)
            + ne_bytes_u16(self.dport)
            + self.comment@
    }

    /// The layout of the structure in memory, as the module declares it:
    /// each field at its fixed byte offset.
    pub proof fn lemma_layout(self)
        ensures
            self.spec_bytes().len() == 42,
            self.spec_bytes().subrange(0, 16) == self.address@,
            self.spec_bytes().subrange(16, 18) == ne_bytes_u16(self.icmp_id),
            self.spec_bytes().subrange(18, 20) == ne_bytes_u16(self.dport),
            self.spec_bytes().subrange(20, 42) == self.comment@,
    {
        lemma_ne_roundtrip();
        assert(self.spec_bytes().subrange(0, 16) =~= self.address@);
        assert(self.spec_bytes().subrange(16, 18) =~= ne_bytes_u16(self.icmp_id));
        assert(self.spec_bytes().subrange(18, 20) =~= ne_bytes_u16(self.dport));
        assert(self.spec_bytes().subrange(20, 42) =~= self.comment@);
    }

    /// Appends the bytes of this structure.
    pub fn write(&self, buf: &mut Vec<u8>)
        ensures
            final(buf)@ == old(buf)@ + self.spec_bytes(),
    {
        let ghost start = buf@;
        push_bytes(buf, self.address.as_slice());
        push_u16_ne(buf, self.icmp_id);
        push_u16_ne(buf, self.dport);
        push_bytes(buf, self.comment.as_slice());
        assert(buf@ =~= start + self.spec_bytes());
    }

    /// The bytes of this structure, for sending it to the module.
    pub fn to_bytes(&self) -> (b: Vec<u8>)
        ensures
            b@ == self.spec_bytes(),
    {
        let mut b: Vec<u8> = Vec::new();
        self.write(&mut b);
        assert(b@ =~= self.spec_bytes());
        b
    }

    /// Reads the structure whose bytes start at `off`.
    pub fn read(b: &[u8], off: usize) -> (x: Self)
        requires
            off + USER_INFO_VALUE_LEN <= b@.len(),
        ensures
            x.spec_bytes() == span(b@, off, USER_INFO_VALUE_LEN),
    {
        let _ = b.len();
        proof { lemma_ne_roundtrip(); }
        let address: [u8; 16] = [b[off + 0], b[off + 1], b[off + 2], b[off + 3], b[off + 4], b[off + 5], b[off + 6], b[off + 7], b[off + 8], b[off + 9], b[off + 10], b[off + 11], b[off + 12], b[off + 13], b[off + 14], b[off + 15]];
        assert(address@ =~= b@.subrange(off + 0, off + 16));
        let icmp_id = read_u16_ne(b, off + 16);
        assert(ne_bytes_u16(icmp_id) == b@.subrange(off + 16, off + 18));
        let dport = read_u16_ne(b, off + 18);
        assert(ne_bytes_u16(dport) == b@.subrange(off + 18, off + 20));
        let comment: [u8; 22] = [b[off + 20], b[off + 21], b[off + 22], b[off + 23], b[off + 24], b[off + 25], b[off + 26], b[off + 27], b[off + 28], b[off + 29], b[off + 30], b[off + 31], b[off + 32], b[off + 33], b[off + 34], b[off + 35], b[off + 36], b[off + 37], b[off + 38], b[off + 39], b[off + 40], b[off + 41]];
        assert(comment@ =~= b@.subrange(off + 20, off + 42));
        let x = UserInfoValue { address, icmp_id, dport, comment };
        assert(x.spec_bytes() =~= span(b@, off, USER_INFO_VALUE_LEN));
        x
    }

    /// Reads the structure from the first bytes of `b`, if `b` is long enough.
    pub fn from_bytes(b: &[u8]) -> (r: Option<Self>)
        ensures
            r is Some <==> b@.len() >= USER_INFO_VALUE_LEN,
            r matches Some(x) ==> x.spec_bytes() == span(b@, 0, USER_INFO_VALUE_LEN),
    {
        if b.len() < USER_INFO_VALUE_LEN {
            return None;
        }
        let x = Self::read(b, 0);
        Some(x)
    }

    /// The encoding has the structure's size and determines the structure.
    pub proof fn lemma_bytes_injective(self, other: Self)
        ensures
            self.spec_bytes().len() == USER_INFO_VALUE_LEN,
            self.spec_bytes() == other.spec_bytes() ==> self == other,
    {
        lemma_ne_roundtrip();
        if self.spec_bytes() == other.spec_bytes() {
            let a = self.spec_bytes();
            let c = other.spec_bytes();
            assert(a.subrange(0, 16) =~= self.address@);
            assert(c.subrange(0, 16) =~= other.address@);
            assert(self.address@ =~= other.address@);
            assert(self.address == other.address);
            assert(a.subrange(16, 18) =~= ne_bytes_u16(self.icmp_id));
            assert(c.subrange(16, 18) =~= ne_bytes_u16(other.icmp_id));
            assert(u16_of_ne(ne_bytes_u16(self.icmp_id)) == u16_of_ne(ne_bytes_u16(other.icmp_id)));
            assert(self.icmp_id == other.icmp_id);
            assert(a.subrange(18, 20) =~= ne_bytes_u16(self.dport));
            assert(c.subrange(18, 20) =~= ne_bytes_u16(other.dport));
            assert(u16_of_ne(ne_bytes_u16(self.dport)) == u16_of_ne(ne_bytes_u16(other.dport)));
            assert(self.dport == other.dport);
            assert(a.subrange(20, 42) =~= self.comment@);
            assert(c.subrange(20, 42) =~= other.comment@);
            assert(self.comment@ =~= other.comment@);
            assert(self.comment == other.comment);
        }
    }
}

/// Size of the encoding of [`TutuUserInfo`].
pub const TUTU_USER_INFO_LEN: usize = 56;

/// One user of a server, with the map update flags.
#[derive(Clone, Copy, Debug, PartialEq, Eq)]
pub struct TutuUserInfo {
    pub uid: u8,
    pub _pad0: [u8; 3],
    pub value: UserInfoValue,
    pub _pad1: [u8; 2],
    pub map_flags: u64,
}

impl TutuUserInfo {
    /// The bytes of this structure as the module lays it out in memory.
    pub open spec fn spec_bytes(self) -> Seq<u8> {
        seq![self.uid]
            + self._pad0@
            + self.value.spec_bytes()
            + self._pad1@
            + ne_bytes_u64(self.map_flags)
    }

    /// The layout of the structure in memory, as the module declares it:
    /// each field at its fixed byte offset.
    pub proof fn lemma_layout(self)
        ensures
            self.spec_bytes().len() == 56,
            self.spec_bytes()[0] == self.uid,
            self.spec_bytes().subrange(1, 4) == self._pad0@,
            self.spec_bytes().subrange(4, 20) == self.value.address@,
            self.spec_bytes().subrange(20, 22) == ne_bytes_u16(self.value.icmp_id),
            self.spec_bytes().subrange(22, 24) == ne_bytes_u16(self.value.dport),
            self.spec_bytes().subrange(24, 46) == self.value.comment@,
            self.spec_bytes().subrange(46, 48) == self._pad1@,
            self.spec_bytes().subrange(48, 56) == ne_bytes_u64(self.map_flags),
    {
        lemma_ne_roundtrip();
        assert(self.spec_bytes().subrange(1, 4) =~= self._pad0@);
        assert(self.spec_bytes().subrange(4, 20) =~= self.value.address@);
        assert(self.spec_bytes().subrange(20, 22) =~= ne_bytes_u16(self.value.icmp_id));
        assert(self.spec_bytes().subrange(22, 24) =~= ne_bytes_u16(self.value.dport));
        assert(self.spec_bytes().subrange(24, 46) =~= self.value.comment@);
        assert(self.spec_bytes().subrange(46, 48) =~= self._pad1@);
        assert(self.spec_bytes().subrange(48, 56) =~= ne_bytes_u64(self.map_flags));
    }

    /// Appends the bytes of this structure.
    pub fn write(&self, buf: &mut Vec<u8>)
        ensures
            final(buf)@ == old(buf)@ + self.spec_bytes(),
    {
        let ghost start = buf@;
        buf.push(self.uid);
        push_bytes(buf, self._pad0.as_slice());
        self.value.write(buf);
        push_bytes(buf, self._pad1.as_slice());
        push_u64_ne(buf, self.map_flags);
        assert(buf@ =~= start + self.spec_bytes());
    }

    /// The bytes of this structure, for sending it to the module.
    pub fn to_bytes(&self) -> (b: Vec<u8>)
        ensures
            b@ == self.spec_bytes(),
    {
        let mut b: Vec<u8> = Vec::new();
        self.write(&mut b);
        assert(b@ =~= self.spec_bytes());
        b
    }

    /// Reads the structure whose bytes start at `off`.
    pub fn read(b: &[u8], off: usize) -> (x: Self)
        requires
            off + TUTU_USER_INFO_LEN <= b@.len(),
        ensures
            x.spec_bytes() == span(b@, off, TUTU_USER_INFO_LEN),
    {
        let _ = b.len();
        proof { lemma_ne_roundtrip(); }
        let _pad0: [u8; 3] = [b[off + 1], b[off + 2], b[off + 3]];
        assert(_pad0@ =~= b@.subrange(off + 1, off + 4));
        let value = UserInfoValue::read(b, off + 4);
        let _pad1: [u8; 2] = [b[off + 46], b[off + 47]];
        assert(_pad1@ =~= b@.subrange(off + 46, off + 48));
        let map_flags = read_u64_ne(b, off + 48);
        assert(ne_bytes_u64(map_flags) == b@.subrange(off + 48, off + 56));
        let x = TutuUserInfo { uid: b[off + 0], _pad0, value, _pad1, map_flags };
        assert(x.spec_bytes() =~= span(b@, off, TUTU_USER_INFO_LEN));
        x
    }

    /// Reads the structure from the first bytes of `b`, if `b` is long enough.
    pub fn from_bytes(b: &[u8]) -> (r: Option<Self>)
        ensures
            r is Some <==> b@.len() >= TUTU_USER_INFO_LEN,
            r matches Some(x) ==> x.spec_bytes() == span(b@, 0, TUTU_USER_INFO_LEN),
    {
        if b.len() < TUTU_USER_INFO_LEN {
            return None;
        }
        let x = Self::read(b, 0);
        Some(x)
    }

    /// The encoding has the structure's size and determines the structure.
    pub proof fn lemma_bytes_injective(self, other: Self)
        ensures
            self.spec_bytes().len() == TUTU_USER_INFO_LEN,
            self.spec_bytes() == other.spec_bytes() ==> self == other,
    {
        lemma_ne_roundtrip();
        self.value.lemma_bytes_injective(other.value);
        if self.spec_bytes() == other.spec_bytes() {
            let a = self.spec_bytes();
            let c = other.spec_bytes();
            assert(a[0] == c[0]);
            assert(self.uid == other.uid);
            assert(a.subrange(1, 4) =~= self._pad0@);
            assert(c.subrange(1, 4) =~= other._pad0@);
            assert(self._pad0@ =~= other._pad0@);
            assert(self._pad0 == other._pad0);
            assert(a.subrange(4, 46) =~= self.value.spec_bytes());
            assert(c.subrange(4, 46) =~= other.value.spec_bytes());
            assert(self.value == other.value);
            assert(a.subrange(46, 48) =~= self._pad1@);
            assert(c.subrange(46, 48) =~= other._pad1@);
            assert(self._pad1@ =~= other._pad1@);
            assert(self._pad1 == other._pad1);
            assert(a.subrange(48, 56) =~= ne_bytes_u64(self.map_flags));
            assert(c.subrange(48, 56) =~= ne_bytes_u64(other.map_flags));
            assert(u64_of_ne(ne_bytes_u64(self.map_flags)) == u64_of_ne(ne_bytes_u64(other.map_flags)));
            assert(self.map_flags == other.map_flags);
        }
    }
}

/// Size of the encoding of [`EgressPeerKey`].
pub const EGRESS_PEER_KEY_LEN: usize = 20;

/// The key of a client's egress peer: address and port (network byte order).
#[derive(Clone, Copy, Debug, PartialEq, Eq)]
pub struct EgressPeerKey {
    pub address: In6Addr,
    pub port: u16,
    pub _pad0: [u8; 2],
}

impl EgressPeerKey {
    /// The bytes of this structure as the module lays it out in memory.
    pub open spec fn spec_bytes(self) -> Seq<u8> {
        self.address@
            + ne_bytes_u16(self.port)
            + self._pad0@
    }

    /// The layout of the structure in memory, as the module declares it:
    /// each field at its fixed byte offset.
    pub proof fn lemma_layout(self)
        ensures
            self.spec_bytes().len() == 20,
            self.spec_bytes().subrange(0, 16) == self.address@,
            self.spec_bytes().subrange(16, 18) == ne_bytes_u16(self.port),
            self.spec_bytes().subrange(18, 20) == self._pad0@,
    {
        lemma_ne_roundtrip();
        assert(self.spec_bytes().subrange(0, 16) =~= self.address@);
        assert(self.spec_bytes().subrange(16, 18) =~= ne_bytes_u16(self.port));
        assert(self.spec_bytes().subrange(18, 20) =~= self._pad0@);
    }

    /// Appends the bytes of this structure.
    pub fn write(&self, buf: &mut Vec<u8>)
        ensures
            final(buf)@ == old(buf)@ + self.spec_bytes(),
    {
        let ghost start = buf@;
        push_bytes(buf, self.address.as_slice());
        push_u16_ne(buf, self.port);
        push_bytes(buf, self._pad0.as_slice());
        assert(buf@ =~= start + self.spec_bytes());
    }

    /// The bytes of this structure, for sending it to the module.
    pub fn to_bytes(&self) -> (b: Vec<u8>)
        ensures
            b@ == self.spec_bytes(),
    {
        let mut b: Vec<u8> = Vec::new();
        self.write(&mut b);
        assert(b@ =~= self.spec_bytes());
        b
    }

    /// Reads the structure whose bytes start at `off`.
    pub fn read(b: &[u8], off: usize) -> (x: Self)
        requires
            off + EGRESS_PEER_KEY_LEN <= b@.len(),
        ensures
            x.spec_bytes() == span(b@, off, EGRESS_PEER_KEY_LEN),
    {
        let _ = b.len();
        proof { lemma_ne_roundtrip(); }
        let address: [u8; 16] = [b[off + 0], b[off + 1], b[off + 2], b[off + 3], b[off + 4], b[off + 5], b[off + 6], b[off + 7], b[off + 8], b[off + 9], b[off + 10], b[off + 11], b[off + 12], b[off + 13], b[off + 14], b[off + 15]];
        assert(address@ =~= b@.subrange(off + 0, off + 16));
        let port = read_u16_ne(b, off + 16);
        assert(ne_bytes_u16(port) == b@.subrange(off + 16, off + 18));
        let _pad0: [u8; 2] = [b[off + 18], b[off + 19]];
        assert(_pad0@ =~= b@.subrange(off + 18, off + 20));
        let x = EgressPeerKey { address, port, _pad0 };
        assert(x.spec_bytes() =~= span(b@, off, EGRESS_PEER_KEY_LEN));
        x
    }

    /// Reads the structure from the first bytes of `b`, if `b` is long enough.
    pub fn from_bytes(b: &[u8]) -> (r: Option<Self>)
        ensures
            r is Some <==> b@.len() >= EGRESS_PEER_KEY_LEN,
            r matches Some(x) ==> x.spec_bytes() == span(b@, 0, EGRESS_PEER_KEY_LEN),
    {
        if b.len() < EGRESS_PEER_KEY_LEN {
            return None;
        }
        let x = Self::read(b, 0);
        Some(x)
    }

    /// The encoding has the structure's size and determines the structure.
    pub proof fn lemma_bytes_injective(self, other: Self)
        ensures
            self.spec_bytes().len() == EGRESS_PEER_KEY_LEN,
            self.spec_bytes() == other.spec_bytes() ==> self == other,
    {
        lemma_ne_roundtrip();
        if self.spec_bytes() == other.spec_bytes() {
            let a = self.spec_bytes();
            let c = other.spec_bytes();
            assert(a.subrange(0, 16) =~= self.address@);
            assert(c.subrange(0, 16) =~= other.address@);
            assert(self.address@ =~= other.address@);
            assert(self.address == other.address);
            assert(a.subrange(16, 18) =~= ne_bytes_u16(self.port));
            assert(c.subrange(16, 18) =~= ne_bytes_u16(other.port));
            assert(u16_of_ne(ne_bytes_u16(self.port)) == u16_of_ne(ne_bytes_u16(other.port)));
            assert(self.port == other.port);
            assert(a.subrange(18, 20) =~= self._pad0@);
            assert(c.subrange(18, 20) =~= other._pad0@);
            assert(self._pad0@ =~= other._pad0@);
            assert(self._pad0 == other._pad0);
        }
    }
}

/// Size of the encoding of [`EgressPeerValue`].
pub const EGRESS_PEER_VALUE_LEN: usize = 23;

/// What a client's egress peer maps to: the user id and a comment.
#[derive(Clone, Copy, Debug, PartialEq, Eq)]
pub struct EgressPeerValue {
    pub uid: u8,
    pub comment: [u8; 22],
}

impl EgressPeerValue {
    /// The bytes of this structure as the module lays it out in memory.
    pub open spec fn spec_bytes(self) -> Seq<u8> {
        seq![self.uid]
            + self.comment@
    }

    /// The layout of the structure in memory, as the module declares it:
    /// each field at its fixed byte offset.
    pub proof fn lemma_layout(self)
        ensures
            self.spec_bytes().len() == 23,
            self.spec_bytes()[0] == self.uid,
            self.spec_bytes().subrange(1, 23) == self.comment@,
    {
        lemma_ne_roundtrip();
        assert(self.spec_bytes().subrange(1, 23) =~= self.comment@);
    }

    /// Appends the bytes of this structure.
    pub fn write(&self, buf: &mut Vec<u8>)
        ensures
            final(buf)@ == old(buf)@ + self.spec_bytes(),
    {
        let ghost start = buf@;
        buf.push(self.uid);
        push_bytes(buf, self.comment.as_slice());
        assert(buf@ =~= start + self.spec_bytes());
    }

    /// The bytes of this structure, for sending it to the module.
    pub fn to_bytes(&self) -> (b: Vec<u8>)
        ensures
            b@ == self.spec_bytes(),
    {
        let mut b: Vec<u8> = Vec::new();
        self.write(&mut b);
        assert(b@ =~= self.spec_bytes());
        b
    }

    /// Reads the structure whose bytes start at `off`.
    pub fn read(b: &[u8], off: usize) -> (x: Self)
        requires
            off + EGRESS_PEER_VALUE_LEN <= b@.len(),
        ensures
            x.spec_bytes() == span(b@, off, EGRESS_PEER_VALUE_LEN),
    {
        let _ = b.len();
        proof { lemma_ne_roundtrip(); }
        let comment: [u8; 22] = [b[off + 1], b[off + 2], b[off + 3], b[off + 4], b[off + 5], b[off + 6], b[off + 7], b[off + 8], b[off + 9], b[off + 10], b[off + 11], b[off + 12], b[off + 13], b[off + 14], b[off + 15], b[off + 16], b[off + 17], b[off + 18], b[off + 19], b[off + 20], b[off + 21], b[off + 22]];
        assert(comment@ =~= b@.subrange(off + 1, off + 23));
        let x = EgressPeerValue { uid: b[off + 0], comment };
        assert(x.spec_bytes() =~= span(b@, off, EGRESS_PEER_VALUE_LEN));
        x
    }

    /// Reads the structure from the first bytes of `b`, if `b` is long enough.
    pub fn from_bytes(b: &[u8]) -> (r: Option<Self>)
        ensures
            r is Some <==> b@.len() >= EGRESS_PEER_VALUE_LEN,
            r matches Some(x) ==> x.spec_bytes() == span(b@, 0, EGRESS_PEER_VALUE_LEN),
    {
        if b.len() < EGRESS_PEER_VALUE_LEN {
            return None;
        }
        let x = Self::read(b, 0);
        Some(x)
    }

    /// The encoding has the structure's size and determines the structure.
    pub proof fn lemma_bytes_injective(self, other: Self)
        ensures
            self.spec_bytes().len() == EGRESS_PEER_VALUE_LEN,
            self.spec_bytes() == other.spec_bytes() ==> self == other,
    {
        lemma_ne_roundtrip();
        if self.spec_bytes() == other.spec_bytes() {
            let a = self.spec_bytes();
            let c = other.spec_bytes();
            assert(a[0] == c[0]);
            assert(self.uid == other.uid);
            assert(a.subrange(1, 23) =~= self.comment@);
            assert(c.subrange(1, 23) =~= other.comment@);
            assert(self.comment@ =~= other.comment@);
            assert(self.comment == other.comment);
        }
    }
}

/// Size of the encoding of [`TutuEgress`].
pub const TUTU_EGRESS_LEN: usize = 56;

/// One egress peer of a client, with the map update flags.
#[derive(Clone, Copy, Debug, PartialEq, Eq)]
pub struct TutuEgress {
    pub key: EgressPeerKey,
    pub value: EgressPeerValue,
    pub _pad0: [u8; 5],
    pub map_flags: u64,
}

impl TutuEgress {
    /// The bytes of this structure as the module lays it out in memory.
    pub open spec fn spec_bytes(self) -> Seq<u8> {
        self.key.spec_bytes()
            + self.value.spec_bytes()
            + self._pad0@
            + ne_bytes_u64(self.map_flags)
    }

    /// The layout of the structure in memory, as the module declares it:
    /// each field at its fixed byte offset.
    pub proof fn lemma_layout(self)
        ensures
            self.spec_bytes().len() == 56,
            self.spec_bytes().subrange(0, 16) == self.key.address@,
            self.spec_bytes().subrange(16, 18) == ne_bytes_u16(self.key.port),
            self.spec_bytes().subrange(18, 20) == self.key._pad0@,
            self.spec_bytes()[20] == self.value.uid,
            self.spec_bytes().subrange(21, 43) == self.value.comment@,
            self.spec_bytes().subrange(43, 48) == self._pad0@,
            self.spec_bytes().subrange(48, 56) == ne_bytes_u64(self.map_flags),
    {
        lemma_ne_roundtrip();
        assert(self.spec_bytes().subrange(0, 16) =~= self.key.address@);
        assert(self.spec_bytes().subrange(16, 18) =~= ne_bytes_u16(self.key.port));
        assert(self.spec_bytes().subrange(18, 20) =~= self.key._pad0@);
        assert(self.spec_bytes().subrange(21, 43) =~= self.value.comment@);
        assert(self.spec_bytes().subrange(43, 48) =~= self._pad0@);
        assert(self.spec_bytes().subrange(48, 56) =~= ne_bytes_u64(self.map_flags));
    }

    /// Appends the bytes of this structure.
    pub fn write(&self, buf: &mut Vec<u8>)
        ensures
            final(buf)@ == old(buf)@ + self.spec_bytes(),
    {
        let ghost start = buf@;
        self.key.write(buf);
        self.value.write(buf);
        push_bytes(buf, self._pad0.as_slice());
        push_u64_ne(buf, self.map_flags);
        assert(buf@ =~= start + self.spec_bytes());
    }

    /// The bytes of this structure, for sending it to the module.
    pub fn to_bytes(&self) -> (b: Vec<u8>)
        ensures
            b@ == self.spec_bytes(),
    {
        let mut b: Vec<u8> = Vec::new();
        self.write(&mut b);
        assert(b@ =~= self.spec_bytes());
        b
    }

    /// Reads the structure whose bytes start at `off`.
    pub fn read(b: &[u8], off: usize) -> (x: Self)
        requires
            off + TUTU_EGRESS_LEN <= b@.len(),
        ensures
            x.spec_bytes() == span(b@, off, TUTU_EGRESS_LEN),
    {
        let _ = b.len();
        proof { lemma_ne_roundtrip(); }
        let key = EgressPeerKey::read(b, off + 0);
        let value = EgressPeerValue::read(b, off + 20);
        let _pad0: [u8; 5] = [b[off + 43], b[off + 44], b[off + 45], b[off + 46], b[off + 47]];
        assert(_pad0@ =~= b@.subrange(off + 43, off + 48));
        let map_flags = read_u64_ne(b, off + 48);
        assert(ne_bytes_u64(map_flags) == b@.subrange(off + 48, off + 56));
        let x = TutuEgress { key, value, _pad0, map_flags };
        assert(x.spec_bytes() =~= span(b@, off, TUTU_EGRESS_LEN));
        x
    }

    /// Reads the structure from the first bytes of `b`, if `b` is long enough.
    pub fn from_bytes(b: &[u8]) -> (r: Option<Self>)
        ensures
            r is Some <==> b@.len() >= TUTU_EGRESS_LEN,
            r matches Some(x) ==> x.spec_bytes() == span(b@, 0, TUTU_EGRESS_LEN),
    {
        if b.len() < TUTU_EGRESS_LEN {
            return None;
        }
        let x = Self::read(b, 0);
        Some(x)
    }

    /// The encoding has the structure's size and determines the structure.
    pub proof fn lemma_bytes_injective(self, other: Self)
        ensures
            self.spec_bytes().len() == TUTU_EGRESS_LEN,
            self.spec_bytes() == other.spec_bytes() ==> self == other,
    {
        lemma_ne_roundtrip();
        self.key.lemma_bytes_injective(other.key);
        self.value.lemma_bytes_injective(other.value);
        if self.spec_bytes() == other.spec_bytes() {
            let a = self.spec_bytes();
            let c = other.spec_bytes();
            assert(a.subrange(0, 20) =~= self.key.spec_bytes());
            assert(c.subrange(0, 20) =~= other.key.spec_bytes());
            assert(self.key == other.key);
            assert(a.subrange(20, 43) =~= self.value.spec_bytes());
            assert(c.subrange(20, 43) =~= other.value.spec_bytes());
            assert(self.value == other.value);
            assert(a.subrange(43, 48) =~= self._pad0@);
            assert(c.subrange(43, 48) =~= other._pad0@);
            assert(self._pad0@ =~= other._pad0@);
            assert(self._pad0 == other._pad0);
            assert(a.subrange(48, 56) =~= ne_bytes_u64(self.map_flags));
            assert(c.subrange(48, 56) =~= ne_bytes_u64(other.map_flags));
            assert(u64_of_ne(ne_bytes_u64(self.map_flags)) == u64_of_ne(ne_bytes_u64(other.map_flags)));
            assert(self.map_flags == other.map_flags);
        }
    }
}

/// Size of the encoding of [`IngressPeerKey`].
pub const INGRESS_PEER_KEY_LEN: usize = 20;

/// The key of a client's ingress peer: address and user id.
#[derive(Clone, Copy, Debug, PartialEq, Eq)]
pub struct IngressPeerKey {
    pub address: In6Addr,
    pub uid: u8,
    pub _pad0: [u8; 3],
}

impl IngressPeerKey {
    /// The bytes of this structure as the module lays it out in memory.
    pub open spec fn spec_bytes(self) -> Seq<u8> {
        self.address@
            + seq![self.uid]
            + self._pad0@
    }

    /// The layout of the structure in memory, as the module declares it:
    /// each field at its fixed byte offset.
    pub proof fn lemma_layout(self)
        ensures
            self.spec_bytes().len() == 20,
            self.spec_bytes().subrange(0, 16) == self.address@,
            self.spec_bytes()[16] == self.uid,
            self.spec_bytes().subrange(17, 20) == self._pad0@,
    {
        lemma_ne_roundtrip();
        assert(self.spec_bytes().subrange(0, 16) =~= self.address@);
        assert(self.spec_bytes().subrange(17, 20) =~= self._pad0@);
    }

    /// Appends the bytes of this structure.
    pub fn write(&self, buf: &mut Vec<u8>)
        ensures
            final(buf)@ == old(buf)@ + self.spec_bytes(),
    {
        let ghost start = buf@;
        push_bytes(buf, self.address.as_slice());
        buf.push(self.uid);
        push_bytes(buf, self._pad0.as_slice());
        assert(buf@ =~= start + self.spec_bytes());
    }

    /// The bytes of this structure, for sending it to the module.
    pub fn to_bytes(&self) -> (b: Vec<u8>)
        ensures
            b@ == self.spec_bytes(),
    {
        let mut b: Vec<u8> = Vec::new();
        self.write(&mut b);
        assert(b@ =~= self.spec_bytes());
        b
    }

    /// Reads the structure whose bytes start at `off`.
    pub fn read(b: &[u8], off: usize) -> (x: Self)
        requires
            off + INGRESS_PEER_KEY_LEN <= b@.len(),
        ensures
            x.spec_bytes() == span(b@, off, INGRESS_PEER_KEY_LEN),
    {
        let _ = b.len();
        proof { lemma_ne_roundtrip(); }
        let address: [u8; 16] = [b[off + 0], b[off + 1], b[off + 2], b[off + 3], b[off + 4], b[off + 5], b[off + 6], b[off + 7], b[off + 8], b[off + 9], b[off + 10], b[off + 11], b[off + 12], b[off + 13], b[off + 14], b[off + 15]];
        assert(address@ =~= b@.subrange(off + 0, off + 16));
        let _pad0: [u8; 3] = [b[off + 17], b[off + 18], b[off + 19]];
        assert(_pad0@ =~= b@.subrange(off + 17, off + 20));
        let x = IngressPeerKey { address, uid: b[off + 16], _pad0 };
        assert(x.spec_bytes() =~= span(b@, off, INGRESS_PEER_KEY_LEN));
        x
    }

    /// Reads the structure from the first bytes of `b`, if `b` is long enough.
    pub fn from_bytes(b: &[u8]) -> (r: Option<Self>)
        ensures
            r is Some <==> b@.len() >= INGRESS_PEER_KEY_LEN,
            r matches Some(x) ==> x.spec_bytes() == span(b@, 0, INGRESS_PEER_KEY_LEN),
    {
        if b.len() < INGRESS_PEER_KEY_LEN {
            return None;
        }
        let x = Self::read(b, 0);
        Some(x)
    }

    /// The encoding has the structure's size and determines the structure.
    pub proof fn lemma_bytes_injective(self, other: Self)
        ensures
            self.spec_bytes().len() == INGRESS_PEER_KEY_LEN,
            self.spec_bytes() == other.spec_bytes() ==> self == other,
    {
        lemma_ne_roundtrip();
        if self.spec_bytes() == other.spec_bytes() {
            let a = self.spec_bytes();
            let c = other.spec_bytes();
            assert(a.subrange(0, 16) =~= self.address@);
            assert(c.subrange(0, 16) =~= other.address@);
            assert(self.address@ =~= other.address@);
            assert(self.address == other.address);
            assert(a[16] == c[16]);
            assert(self.uid == other.uid);
            assert(a.subrange(17, 20) =~= self._pad0@);
            assert(c.subrange(17, 20) =~= other._pad0@);
            assert(self._pad0@ =~= other._pad0@);
            assert(self._pad0 == other._pad0);
        }
    }
}

/// Size of the encoding of [`IngressPeerValue`].
pub const INGRESS_PEER_VALUE_LEN: usize = 2;

/// The port (network byte order) a client's ingress peer maps to.
#[derive(Clone, Copy, Debug, PartialEq, Eq)]
pub struct IngressPeerValue {
    pub port: u16,
}

impl IngressPeerValue {
    /// The bytes of this structure as the module lays it out in memory.
    pub open spec fn spec_bytes(self) -> Seq<u8> {
        ne_bytes_u16(self.port)
    }

    /// The layout of the structure in memory, as the module declares it:
    /// each field at its fixed byte offset.
    pub proof fn lemma_layout(self)
        ensures
            self.spec_bytes().len() == 2,
            self.spec_bytes().subrange(0, 2) == ne_bytes_u16(self.port),
    {
        lemma_ne_roundtrip();
        assert(self.spec_bytes().subrange(0, 2) =~= ne_bytes_u16(self.port));
    }

    /// Appends the bytes of this structure.
    pub fn write(&self, buf: &mut Vec<u8>)
        ensures
            final(buf)@ == old(buf)@ + self.spec_bytes(),
    {
        let ghost start = buf@;
        push_u16_ne(buf, self.port);
        assert(buf@ =~= start + self.spec_bytes());
    }

    /// The bytes of this structure, for sending it to the module.
    pub fn to_bytes(&self) -> (b: Vec<u8>)
        ensures
            b@ == self.spec_bytes(),
    {
        let mut b: Vec<u8> = Vec::new();
        self.write(&mut b);
        assert(b@ =~= self.spec_bytes());
        b
    }

    /// Reads the structure whose bytes start at `off`.
    pub fn read(b: &[u8], off: usize) -> (x: Self)
        requires
            off + INGRESS_PEER_VALUE_LEN <= b@.len(),
        ensures
            x.spec_bytes() == span(b@, off, INGRESS_PEER_VALUE_LEN),
    {
        let _ = b.len();
        proof { lemma_ne_roundtrip(); }
        let port = read_u16_ne(b, off + 0);
        assert(ne_bytes_u16(port) == b@.subrange(off + 0, off + 2));
        let x = IngressPeerValue { port };
        assert(x.spec_bytes() =~= span(b@, off, INGRESS_PEER_VALUE_LEN));
        x
    }

    /// Reads the structure from the first bytes of `b`, if `b` is long enough.
    pub fn from_bytes(b: &[u8]) -> (r: Option<Self>)
        ensures
            r is Some <==> b@.len() >= INGRESS_PEER_VALUE_LEN,
            r matches Some(x) ==> x.spec_bytes() == span(b@, 0, INGRESS_PEER_VALUE_LEN),
    {
        if b.len() < INGRESS_PEER_VALUE_LEN {
            return None;
        }
        let x = Self::read(b, 0);
        Some(x)
    }

    /// The encoding has the structure's size and determines the structure.
    pub proof fn lemma_bytes_injective(self, other: Self)
        ensures
            self.spec_bytes().len() == INGRESS_PEER_VALUE_LEN,
            self.spec_bytes() == other.spec_bytes() ==> self == other,
    {
        lemma_ne_roundtrip();
        if self.spec_bytes() == other.spec_bytes() {
            let a = self.spec_bytes();
            let c = other.spec_bytes();
            assert(a.subrange(0, 2) =~= ne_bytes_u16(self.port));
            assert(c.subrange(0, 2) =~= ne_bytes_u16(other.port));
            assert(u16_of_ne(ne_bytes_u16(self.port)) == u16_of_ne(ne_bytes_u16(other.port)));
            assert(self.port == other.port);
        }
    }
}

/// Size of the encoding of [`TutuIngress`].
pub const TUTU_INGRESS_LEN: usize = 32;

/// One ingress peer of a client, with the map update flags.
#[derive(Clone, Copy, Debug, PartialEq, Eq)]
pub struct TutuIngress {
    pub key: IngressPeerKey,
    pub value: IngressPeerValue,
    pub _pad0: [u8; 2],
    pub map_flags: u64,
}

impl TutuIngress {
    /// The bytes of this structure as the module lays it out in memory.
    pub open spec fn spec_bytes(self) -> Seq<u8> {
        self.key.spec_bytes()
            + self.value.spec_bytes()
            + self._pad0@
            + ne_bytes_u64(self.map_flags)
    }

    /// The layout of the structure in memory, as the module declares it:
    /// each field at its fixed byte offset.
    pub proof fn lemma_layout(self)
        ensures
            self.spec_bytes().len() == 32,
            self.spec_bytes().subrange(0, 16) == self.key.address@,
            self.spec_bytes()[16] == self.key.uid,
            self.spec_bytes().subrange(17, 20) == self.key._pad0@,
            self.spec_bytes().subrange(20, 22) == ne_bytes_u16(self.value.port),
            self.spec_bytes().subrange(22, 24) == self._pad0@,
            self.spec_bytes().subrange(24, 32) == ne_bytes_u64(self.map_flags),
    {
        lemma_ne_roundtrip();
        assert(self.spec_bytes().subrange(0, 16) =~= self.key.address@);
        assert(self.spec_bytes().subrange(17, 20) =~= self.key._pad0@);
        assert(self.spec_bytes().subrange(20, 22) =~= ne_bytes_u16(self.value.port));
        assert(self.spec_bytes().subrange(22, 24) =~= self._pad0@);
        assert(self.spec_bytes().subrange(24, 32) =~= ne_bytes_u64(self.map_flags));
    }

    /// Appends the bytes of this structure.
    pub fn write(&self, buf: &mut Vec<u8>)
        ensures
            final(buf)@ == old(buf)@ + self.spec_bytes(),
    {
        let ghost start = buf@;
        self.key.write(buf);
        self.value.write(buf);
        push_bytes(buf, self._pad0.as_slice());
        push_u64_ne(buf, self.map_flags);
        assert(buf@ =~= start + self.spec_bytes());
    }

    /// The bytes of this structure, for sending it to the module.
    pub fn to_bytes(&self) -> (b: Vec<u8>)
        ensures
            b@ == self.spec_bytes(),
    {
        let mut b: Vec<u8> = Vec::new();
        self.write(&mut b);
        assert(b@ =~= self.spec_bytes());
        b
    }

    /// Reads the structure whose bytes start at `off`.
    pub fn read(b: &[u8], off: usize) -> (x: Self)
        requires
            off + TUTU_INGRESS_LEN <= b@.len(),
        ensures
            x.spec_bytes() == span(b@, off, TUTU_INGRESS_LEN),
    {
        let _ = b.len();
        proof { lemma_ne_roundtrip(); }
        let key = IngressPeerKey::read(b, off + 0);
        let value = IngressPeerValue::read(b, off + 20);
        let _pad0: [u8; 2] = [b[off + 22], b[off + 23]];
        assert(_pad0@ =~= b@.subrange(off + 22, off + 24));
        let map_flags = read_u64_ne(b, off + 24);
        assert(ne_bytes_u64(map_flags) == b@.subrange(off + 24, off + 32));
        let x = TutuIngress { key, value, _pad0, map_flags };
        assert(x.spec_bytes() =~= span(b@, off, TUTU_INGRESS_LEN));
        x
    }

    /// Reads the structure from the first bytes of `b`, if `b` is long enough.
    pub fn from_bytes(b: &[u8]) -> (r: Option<Self>)
        ensures
            r is Some <==> b@.len() >= TUTU_INGRESS_LEN,
            r matches Some(x) ==> x.spec_bytes() == span(b@, 0, TUTU_INGRESS_LEN),
    {
        if b.len() < TUTU_INGRESS_LEN {
            return None;
        }
        let x = Self::read(b, 0);
        Some(x)
    }

    /// The encoding has the structure's size and determines the structure.
    pub proof fn lemma_bytes_injective(self, other: Self)
        ensures
            self.spec_bytes().len() == TUTU_INGRESS_LEN,
            self.spec_bytes() == other.spec_bytes() ==> self == other,
    {
        lemma_ne_roundtrip();
        self.key.lemma_bytes_injective(other.key);
        self.value.lemma_bytes_injective(other.value);
        if self.spec_bytes() == other.spec_bytes() {
            let a = self.spec_bytes();
            let c = other.spec_bytes();
            assert(a.subrange(0, 20) =~= self.key.spec_bytes());
            assert(c.subrange(0, 20) =~= other.key.spec_bytes());
            assert(self.key == other.key);
            assert(a.subrange(20, 22) =~= self.value.spec_bytes());
            assert(c.subrange(20, 22) =~= other.value.spec_bytes());
            assert(self.value == other.value);
            assert(a.subrange(22, 24) =~= self._pad0@);
            assert(c.subrange(22, 24) =~= other._pad0@);
            assert(self._pad0@ =~= other._pad0@);
            assert(self._pad0 == other._pad0);
            assert(a.subrange(24, 32) =~= ne_bytes_u64(self.map_flags));
            assert(c.subrange(24, 32) =~= ne_bytes_u64(other.map_flags));
            assert(u64_of_ne(ne_bytes_u64(self.map_flags)) == u64_of_ne(ne_bytes_u64(other.map_flags)));
            assert(self.map_flags == other.map_flags);
        }
    }
}

/// Size of the encoding of [`SessionKey`].
pub const SESSION_KEY_LEN: usize = 20;

/// The key of a server session: address and ports (network byte order).
#[derive(Clone, Copy, Debug, PartialEq, Eq)]
pub struct SessionKey {
    pub address: In6Addr,
    pub sport: u16,
    pub dport: u16,
}

impl SessionKey {
    /// The bytes of this structure as the module lays it out in memory.
    pub open spec fn spec_bytes(self) -> Seq<u8> {
        self.address@
            + ne_bytes_u16(self.sport)
            + ne_bytes_u16(self.dport)
    }

    /// The layout of the structure in memory, as the module declares it:
    /// each field at its fixed byte offset.
    pub proof fn lemma_layout(self)
        ensures
            self.spec_bytes().len() == 20,
            self.spec_bytes().subrange(0, 16) == self.address@,
            self.spec_bytes().subrange(16, 18) == ne_bytes_u16(self.sport),
            self.spec_bytes().subrange(18, 20) == ne_bytes_u16(self.dport),
    {
        lemma_ne_roundtrip();
        assert(self.spec_bytes().subrange(0, 16) =~= self.address@);
        assert(self.spec_bytes().subrange(16, 18) =~= ne_bytes_u16(self.sport));
        assert(self.spec_bytes().subrange(18, 20) =~= ne_bytes_u16(self.dport));
    }

    /// Appends the bytes of this structure.
    pub fn write(&self, buf: &mut Vec<u8>)
        ensures
            final(buf)@ == old(buf)@ + self.spec_bytes(),
    {
        let ghost start = buf@;
        push_bytes(buf, self.address.as_slice());
        push_u16_ne(buf, self.sport);
        push_u16_ne(buf, self.dport);
        assert(buf@ =~= start + self.spec_bytes());
    }

    /// The bytes of this structure, for sending it to the module.
    pub fn to_bytes(&self) -> (b: Vec<u8>)
        ensures
            b@ == self.spec_bytes(),
    {
        let mut b: Vec<u8> = Vec::new();
        self.write(&mut b);
        assert(b@ =~= self.spec_bytes());
        b
    }

    /// Reads the structure whose bytes start at `off`.
    pub fn read(b: &[u8], off: usize) -> (x: Self)
        requires
            off + SESSION_KEY_LEN <= b@.len(),
        ensures
            x.spec_bytes() == span(b@, off, SESSION_KEY_LEN),
    {
        let _ = b.len();
        proof { lemma_ne_roundtrip(); }
        let address: [u8; 16] = [b[off + 0], b[off + 1], b[off + 2], b[off + 3], b[off + 4], b[off + 5], b[off + 6], b[off + 7], b[off + 8], b[off + 9], b[off + 10], b[off + 11], b[off + 12], b[off + 13], b[off + 14], b[off + 15]];
        assert(address@ =~= b@.subrange(off + 0, off + 16));
        let sport = read_u16_ne(b, off + 16);
        assert(ne_bytes_u16(sport) == b@.subrange(off + 16, off + 18));
        let dport = read_u16_ne(b, off + 18);
        assert(ne_bytes_u16(dport) == b@.subrange(off + 18, off + 20));
        let x = SessionKey { address, sport, dport };
        assert(x.spec_bytes() =~= span(b@, off, SESSION_KEY_LEN));
        x
    }

    /// Reads the structure from the first bytes of `b`, if `b` is long enough.
    pub fn from_bytes(b: &[u8]) -> (r: Option<Self>)
        ensures
            r is Some <==> b@.len() >= SESSION_KEY_LEN,
            r matches Some(x) ==> x.spec_bytes() == span(b@, 0, SESSION_KEY_LEN),
    {
        if b.len() < SESSION_KEY_LEN {
            return None;
        }
        let x = Self::read(b, 0);
        Some(x)
    }

    /// The encoding has the structure's size and determines the structure.
    pub proof fn lemma_bytes_injective(self, other: Self)
        ensures
            self.spec_bytes().len() == SESSION_KEY_LEN,
            self.spec_bytes() == other.spec_bytes() ==> self == other,
    {
        lemma_ne_roundtrip();
        if self.spec_bytes() == other.spec_bytes() {
            let a = self.spec_bytes();
            let c = other.spec_bytes();
            assert(a.subrange(0, 16) =~= self.address@);
            assert(c.subrange(0, 16) =~= other.address@);
            assert(self.address@ =~= other.address@);
            assert(self.address == other.address);
            assert(a.subrange(16, 18) =~= ne_bytes_u16(self.sport));
            assert(c.subrange(16, 18) =~= ne_bytes_u16(other.sport));
            assert(u16_of_ne(ne_bytes_u16(self.sport)) == u16_of_ne(ne_bytes_u16(other.sport)));
            assert(self.sport == other.sport);
            assert(a.subrange(18, 20) =~= ne_bytes_u16(self.dport));
            assert(c.subrange(18, 20) =~= ne_bytes_u16(other.dport));
            assert(u16_of_ne(ne_bytes_u16(self.dport)) == u16_of_ne(ne_bytes_u16(other.dport)));
            assert(self.dport == other.dport);
        }
    }
}

/// Size of the encoding of [`SessionValue`].
pub const SESSION_VALUE_LEN: usize = 16;

/// What a server session maps to: its age, user id and the client's source port (network byte order).
#[derive(Clone, Copy, Debug, PartialEq, Eq)]
pub struct SessionValue {
    pub age: u64,
    pub uid: u8,
    pub _pad0: u8,
    pub client_sport: u16,
    pub _pad_end: [u8; 4],
}

impl SessionValue {
    /// The bytes of this structure as the module lays it out in memory.
    pub open spec fn spec_bytes(self) -> Seq<u8> {
        ne_bytes_u64(self.age)
            + seq![self.uid]
            + seq![self._pad0]
            + ne_bytes_u16(self.client_sport)
            + self._pad_end@
    }

    /// The layout of the structure in memory, as the module declares it:
    /// each field at its fixed byte offset.
    pub proof fn lemma_layout(self)
        ensures
            self.spec_bytes().len() == 16,
            self.spec_bytes().subrange(0, 8) == ne_bytes_u64(self.age),
            self.spec_bytes()[8] == self.uid,
            self.spec_bytes()[9] == self._pad0,
            self.spec_bytes().subrange(10, 12) == ne_bytes_u16(self.client_sport),
            self.spec_bytes().subrange(12, 16) == self._pad_end@,
    {
        lemma_ne_roundtrip();
        assert(self.spec_bytes().subrange(0, 8) =~= ne_bytes_u64(self.age));
        assert(self.spec_bytes().subrange(10, 12) =~= ne_bytes_u16(self.client_sport));
        assert(self.spec_bytes().subrange(12, 16) =~= self._pad_end@);
    }

    /// Appends the bytes of this structure.
    pub fn write(&self, buf: &mut Vec<u8>)
        ensures
            final(buf)@ == old(buf)@ + self.spec_bytes(),
    {
        let ghost start = buf@;
        push_u64_ne(buf, self.age);
        buf.push(self.uid);
        buf.push(self._pad0);
        push_u16_ne(buf, self.client_sport);
        push_bytes(buf, self._pad_end.as_slice());
        assert(buf@ =~= start + self.spec_bytes());
    }

    /// The bytes of this structure, for sending it to the module.
    pub fn to_bytes(&self) -> (b: Vec<u8>)
        ensures
            b@ == self.spec_bytes(),
    {
        let mut b: Vec<u8> = Vec::new();
        self.write(&mut b);
        assert(b@ =~= self.spec_bytes());
        b
    }

    /// Reads the structure whose bytes start at `off`.
    pub fn read(b: &[u8], off: usize) -> (x: Self)
        requires
            off + SESSION_VALUE_LEN <= b@.len(),
        ensures
            x.spec_bytes() == span(b@, off, SESSION_VALUE_LEN),
    {
        let _ = b.len();
        proof { lemma_ne_roundtrip(); }
        let age = read_u64_ne(b, off + 0);
        assert(ne_bytes_u64(age) == b@.subrange(off + 0, off + 8));
        let client_sport = read_u16_ne(b, off + 10);
        assert(ne_bytes_u16(client_sport) == b@.subrange(off + 10, off + 12));
        let _pad_end: [u8; 4] = [b[off + 12], b[off + 13], b[off + 14], b[off + 15]];
        assert(_pad_end@ =~= b@.subrange(off + 12, off + 16));
        let x = SessionValue { age, uid: b[off + 8], _pad0: b[off + 9], client_sport, _pad_end };
        assert(x.spec_bytes() =~= span(b@, off, SESSION_VALUE_LEN));
        x
    }

    /// Reads the structure from the first bytes of `b`, if `b` is long enough.
    pub fn from_bytes(b: &[u8]) -> (r: Option<Self>)
        ensures
            r is Some <==> b@.len() >= SESSION_VALUE_LEN,
            r matches Some(x) ==> x.spec_bytes() == span(b@, 0, SESSION_VALUE_LEN),
    {
        if b.len() < SESSION_VALUE_LEN {
            return None;
        }
        let x = Self::read(b, 0);
        Some(x)
    }

    /// The encoding has the structure's size and determines the structure.
    pub proof fn lemma_bytes_injective(self, other: Self)
        ensures
            self.spec_bytes().len() == SESSION_VALUE_LEN,
            self.spec_bytes() == other.spec_bytes() ==> self == other,
    {
        lemma_ne_roundtrip();
        if self.spec_bytes() == other.spec_bytes() {
            let a = self.spec_bytes();
            let c = other.spec_bytes();
            assert(a.subrange(0, 8) =~= ne_bytes_u64(self.age));
            assert(c.subrange(0, 8) =~= ne_bytes_u64(other.age));
            assert(u64_of_ne(ne_bytes_u64(self.age)) == u64_of_ne(ne_bytes_u64(other.age)));
            assert(self.age == other.age);
            assert(a[8] == c[8]);
            assert(self.uid == other.uid);
            assert(a[9] == c[9]);
            assert(self._pad0 == other._pad0);
            assert(a.subrange(10, 12) =~= ne_bytes_u16(self.client_sport));
            assert(c.subrange(10, 12) =~= ne_bytes_u16(other.client_sport));
            assert(u16_of_ne(ne_bytes_u16(self.client_sport)) == u16_of_ne(ne_bytes_u16(other.client_sport)));
            assert(self.client_sport == other.client_sport);
            assert(a.subrange(12, 16) =~= self._pad_end@);
            assert(c.subrange(12, 16) =~= other._pad_end@);
            assert(self._pad_end@ =~= other._pad_end@);
            assert(self._pad_end == other._pad_end);
        }
    }
}

/// Size of the encoding of [`TutuSession`].
pub const TUTU_SESSION_LEN: usize = 56;

/// One session of a server, with the map update flags.
#[derive(Clone, Copy, Debug, PartialEq, Eq)]
pub struct TutuSession {
    pub key: SessionKey,
    pub _pad0: [u8; 4],
    pub value: SessionValue,
    pub _pad1: [u8; 8],
    pub map_flags: u64,
}

impl TutuSession {
    /// The bytes of this structure as the module lays it out in memory.
    pub open spec fn spec_bytes(self) -> Seq<u8> {
        self.key.spec_bytes()
            + self._pad0@
            + self.value.spec_bytes()
            + self._pad1@
            + ne_bytes_u64(self.map_flags)
    }

    /// The layout of the structure in memory, as the module declares it:
    /// each field at its fixed byte offset.
    pub proof fn lemma_layout(self)
        ensures
            self.spec_bytes().len() == 56,
            self.spec_bytes().subrange(0, 16) == self.key.address@,
            self.spec_bytes().subrange(16, 18) == ne_bytes_u16(self.key.sport),
            self.spec_bytes().subrange(18, 20) == ne_bytes_u16(self.key.dport),
            self.spec_bytes().subrange(20, 24) == self._pad0@,
            self.spec_bytes().subrange(24, 32) == ne_bytes_u64(self.value.age),
            self.spec_bytes()[32] == self.value.uid,
            self.spec_bytes()[33] == self.value._pad0,
            self.spec_bytes().subrange(34, 36) == ne_bytes_u16(self.value.client_sport),
            self.spec_bytes().subrange(36, 40) == self.value._pad_end@,
            self.spec_bytes().subrange(40, 48) == self._pad1@,
            self.spec_bytes().subrange(48, 56) == ne_bytes_u64(self.map_flags),
    {
        lemma_ne_roundtrip();
        assert(self.spec_bytes().subrange(0, 16) =~= self.key.address@);
        assert(self.spec_bytes().subrange(16, 18) =~= ne_bytes_u16(self.key.sport));
        assert(self.spec_bytes().subrange(18, 20) =~= ne_bytes_u16(self.key.dport));
        assert(self.spec_bytes().subrange(20, 24) =~= self._pad0@);
        assert(self.spec_bytes().subrange(24, 32) =~= ne_bytes_u64(self.value.age));
        assert(self.spec_bytes().subrange(34, 36) =~= ne_bytes_u16(self.value.client_sport));
        assert(self.spec_bytes().subrange(36, 40) =~= self.value._pad_end@);
        assert(self.spec_bytes().subrange(40, 48) =~= self._pad1@);
        assert(self.spec_bytes().subrange(48, 56) =~= ne_bytes_u64(self.map_flags));
    }

    /// Appends the bytes of this structure.
    pub fn write(&self, buf: &mut Vec<u8>)
        ensures
            final(buf)@ == old(buf)@ + self.spec_bytes(),
    {
        let ghost start = buf@;
        self.key.write(buf);
        push_bytes(buf, self._pad0.as_slice());
        self.value.write(buf);
        push_bytes(buf, self._pad1.as_slice());
        push_u64_ne(buf, self.map_flags);
        assert(buf@ =~= start + self.spec_bytes());
    }

    /// The bytes of this structure, for sending it to the module.
    pub fn to_bytes(&self) -> (b: Vec<u8>)
        ensures
            b@ == self.spec_bytes(),
    {
        let mut b: Vec<u8> = Vec::new();
        self.write(&mut b);
        assert(b@ =~= self.spec_bytes());
        b
    }

    /// Reads the structure whose bytes start at `off`.
    pub fn read(b: &[u8], off: usize) -> (x: Self)
        requires
            off + TUTU_SESSION_LEN <= b@.len(),
        ensures
            x.spec_bytes() == span(b@, off, TUTU_SESSION_LEN),
    {
        let _ = b.len();
        proof { lemma_ne_roundtrip(); }
        let key = SessionKey::read(b, off + 0);
        let _pad0: [u8; 4] = [b[off + 20], b[off + 21], b[off + 22], b[off + 23]];
        assert(_pad0@ =~= b@.subrange(off + 20, off + 24));
        let value = SessionValue::read(b, off + 24);
        let _pad1: [u8; 8] = [b[off + 40], b[off + 41], b[off + 42], b[off + 43], b[off + 44], b[off + 45], b[off + 46], b[off + 47]];
        assert(_pad1@ =~= b@.subrange(off + 40, off + 48));
        let map_flags = read_u64_ne(b, off + 48);
        assert(ne_bytes_u64(map_flags) == b@.subrange(off + 48, off + 56));
        let x = TutuSession { key, _pad0, value, _pad1, map_flags };
        assert(x.spec_bytes() =~= span(b@, off, TUTU_SESSION_LEN));
        x
    }

    /// Reads the structure from the first bytes of `b`, if `b` is long enough.
    pub fn from_bytes(b: &[u8]) -> (r: Option<Self>)
        ensures
            r is Some <==> b@.len() >= TUTU_SESSION_LEN,
            r matches Some(x) ==> x.spec_bytes() == span(b@, 0, TUTU_SESSION_LEN),
    {
        if b.len() < TUTU_SESSION_LEN {
            return None;
        }
        let x = Self::read(b, 0);
        Some(x)
    }

    /// The encoding has the structure's size and determines the structure.
    pub proof fn lemma_bytes_injective(self, other: Self)
        ensures
            self.spec_bytes().len() == TUTU_SESSION_LEN,
            self.spec_bytes() == other.spec_bytes() ==> self == other,
    {
        lemma_ne_roundtrip();
        self.key.lemma_bytes_injective(other.key);
        self.value.lemma_bytes_injective(other.value);
        if self.spec_bytes() == other.spec_bytes() {
            let a = self.spec_bytes();
            let c = other.spec_bytes();
            assert(a.subrange(0, 20) =~= self.key.spec_bytes());
            assert(c.subrange(0, 20) =~= other.key.spec_bytes());
            assert(self.key == other.key);
            assert(a.subrange(20, 24) =~= self._pad0@);
            assert(c.subrange(20, 24) =~= other._pad0@);
            assert(self._pad0@ =~= other._pad0@);
            assert(self._pad0 == other._pad0);
            assert(a.subrange(24, 40) =~= self.value.spec_bytes());
            assert(c.subrange(24, 40) =~= other.value.spec_bytes());
            assert(self.value == other.value);
            assert(a.subrange(40, 48) =~= self._pad1@);
            assert(c.subrange(40, 48) =~= other._pad1@);
            assert(self._pad1@ =~= other._pad1@);
            assert(self._pad1 == other._pad1);
            assert(a.subrange(48, 56) =~= ne_bytes_u64(self.map_flags));
            assert(c.subrange(48, 56) =~= ne_bytes_u64(other.map_flags));
            assert(u64_of_ne(ne_bytes_u64(self.map_flags)) == u64_of_ne(ne_bytes_u64(other.map_flags)));
            assert(self.map_flags == other.map_flags);
        }
    }
}

}
