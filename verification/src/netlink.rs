//! The generic-netlink wire format used to talk to the tutuicmptunnel
//! kernel module: building request messages and scanning the kernel's
//! replies.

use crate::config::{
    CTRL_ATTR_FAMILY_ID, CTRL_ATTR_FAMILY_NAME, CTRL_CMD_GETFAMILY, GENL_ID_CTRL, NLA_ALIGNTO,
    NLMSG_ALIGNTO, NLMSG_DONE, NLMSG_ERROR, NLM_F_ACK, NLM_F_DUMP, NLM_F_REQUEST,
    TUTU_GENL_VERSION,
};
use crate::wire::{
    lemma_ne_roundtrip, ne_bytes_u16, ne_bytes_u32, push_bytes, push_u16_ne, push_u32_ne,
    read_u16_ne, read_u32_ne, u16_of_ne, u32_of_ne,
};
use crate::text::{lossy_string, utf8_lossy};
use vstd::prelude::*;
use vstd::utf8::{decode_utf8, valid_utf8};
use vstd::string::StringSliceAdditionalSpecFns;

verus! {

/// Size of a netlink message header.
pub const NLMSGHDR_LEN: usize = 16;

/// Size of a generic-netlink header.
pub const GENLMSGHDR_LEN: usize = 4;

/// Size of a netlink attribute header.
pub const NLATTR_LEN: usize = 4;

/// Size of the payload of an `NLMSG_ERROR` message (error code and the
/// offending request's header).
pub const NLMSGERR_LEN: usize = 20;

/// `n` rounded up to the next multiple of four.
pub open spec fn align4(n: int) -> int {
    (n + 3) / 4 * 4
}

/// Rounds a message length up to the netlink message alignment.
pub fn nlmsg_align(len: usize) -> (r: usize)
    requires
        len + NLMSG_ALIGNTO - 1 <= usize::MAX,
    ensures
        r == align4(len as int),
{
    let a = len + (NLMSG_ALIGNTO - 1);
    let r = a & !(NLMSG_ALIGNTO - 1);
    assert(r == a / 4 * 4) by (bit_vector)
        requires
            r == a & !3usize,
    ;
    r
}

/// Rounds an attribute length up to the netlink attribute alignment.
pub fn nla_align(len: usize) -> (r: usize)
    requires
        len + NLA_ALIGNTO - 1 <= usize::MAX,
    ensures
        r == align4(len as int),
{
    let a = len + (NLA_ALIGNTO - 1);
    let r = a & !(NLA_ALIGNTO - 1);
    assert(r == a / 4 * 4) by (bit_vector)
        requires
            r == a & !3usize,
    ;
    r
}

/// `n` zero bytes.
pub open spec fn zeros(n: nat) -> Seq<u8> {
    Seq::new(n, |i: int| 0u8)
}

/// The bytes of one netlink attribute: its length (truncated to 16 bits as
/// the header field holds it), its type, the payload, and zero padding up
/// to a multiple of four.
pub open spec fn nlattr_bytes(attr_type: u16, payload: Seq<u8>) -> Seq<u8> {
    let len = 4 + payload.len() as int;
    ne_bytes_u16((len % 65536) as u16) + ne_bytes_u16(attr_type) + payload + zeros(
        (align4(len) - len) as nat,
    )
}

/// The bytes of a list of attributes, one after the other.
pub open spec fn attrs_bytes(attrs: Seq<(u16, Seq<u8>)>) -> Seq<u8>
    decreases attrs.len(),
{
    if attrs.len() == 0 {
        seq![]
    } else {
        nlattr_bytes(attrs[0].0, attrs[0].1) + attrs_bytes(attrs.drop_first())
    }
}

/// The attributes of a request as plain values.
pub open spec fn attrs_view(attrs: Seq<(u16, Vec<u8>)>) -> Seq<(u16, Seq<u8>)> {
    attrs.map_values(|a: (u16, Vec<u8>)| (a.0, a.1@))
}

/// The bytes of a generic-netlink request: netlink header, generic header
/// and attributes.
pub open spec fn genl_msg_bytes(
    nlmsg_type: u16,
    nlmsg_flags: u16,
    nlmsg_seq: u32,
    nlmsg_pid: u32,
    cmd: u8,
    version: u8,
    attrs: Seq<(u16, Seq<u8>)>,
) -> Seq<u8> {
    let body = attrs_bytes(attrs);
    let total = (NLMSGHDR_LEN + GENLMSGHDR_LEN + body.len()) % 0x1_0000_0000;
    ne_bytes_u32(total as u32) + ne_bytes_u16(nlmsg_type) + ne_bytes_u16(nlmsg_flags)
        + ne_bytes_u32(nlmsg_seq) + ne_bytes_u32(nlmsg_pid) + seq![cmd, version] + ne_bytes_u16(0)
        + body
}

proof fn lemma_attrs_bytes_append(a: Seq<(u16, Seq<u8>)>, x: (u16, Seq<u8>))
    ensures
        attrs_bytes(a.push(x)) == attrs_bytes(a) + nlattr_bytes(x.0, x.1),
    decreases a.len(),
{
    if a.len() == 0 {
        assert(a.push(x).drop_first() =~= Seq::<(u16, Seq<u8>)>::empty());
        assert(attrs_bytes(a.push(x).drop_first()) == Seq::<u8>::empty());
        assert(attrs_bytes(a) == Seq::<u8>::empty());
        assert(attrs_bytes(a.push(x)) =~= nlattr_bytes(x.0, x.1));
    } else {
        assert(a.push(x).drop_first() =~= a.drop_first().push(x));
        lemma_attrs_bytes_append(a.drop_first(), x);
        assert(attrs_bytes(a.push(x)) =~= attrs_bytes(a) + nlattr_bytes(x.0, x.1));
    }
}

proof fn lemma_len_field(len: int)
    requires
        len >= 0,
    ensures
        (len % 65536 + 4) % 65536 == (4 + len) % 65536,
{
}

proof fn lemma_pad(len: int)
    requires
        len >= 0,
    ensures
        (4 - len % 4) % 4 == align4(4 + len) - (4 + len),
        0 <= align4(4 + len) - (4 + len) < 4,
{
}

/// The layout of one attribute: a 16-bit length that counts the 4-byte
/// header and the payload, the 16-bit type, the payload, then fewer than
/// four zero bytes so that the attribute ends on a multiple of four.
pub proof fn lemma_nlattr_layout(attr_type: u16, payload: Seq<u8>)
    ensures
        nlattr_bytes(attr_type, payload).len() % 4 == 0,
        payload.len() + 4 <= nlattr_bytes(attr_type, payload).len() < payload.len() + 8,
        nlattr_bytes(attr_type, payload).subrange(0, 2) == ne_bytes_u16(((payload.len() + 4) % 65536) as u16),
        nlattr_bytes(attr_type, payload).subrange(2, 4) == ne_bytes_u16(attr_type),
        nlattr_bytes(attr_type, payload).subrange(4, payload.len() + 4 as int) == payload,
        forall|i: int|
            payload.len() + 4 <= i < nlattr_bytes(attr_type, payload).len() ==> #[trigger] nlattr_bytes(
                attr_type,
                payload,
            )[i] == 0,
{
    lemma_ne_roundtrip();
    let n = payload.len() as int;
    lemma_pad(n);
    let a = nlattr_bytes(attr_type, payload);
    let lf = ne_bytes_u16(((4 + n) % 65536) as u16);
    let tf = ne_bytes_u16(attr_type);
    let z = zeros((align4(4 + n) - (4 + n)) as nat);
    assert(a == lf + tf + payload + z);
    assert(a.subrange(0, 2) =~= lf);
    assert(a.subrange(2, 4) =~= tf);
    assert(a.subrange(4, n + 4) =~= payload);
    assert forall|i: int| n + 4 <= i < a.len() implies #[trigger] a[i] == 0 by {
        assert(a[i] == z[i - n - 4]);
    }
}

/// The layout of a generic-netlink request: the 16-byte netlink header
/// (the length of the whole message, type, flags, sequence number, port
/// id), the 4-byte generic header (command, version, two zero bytes), then
/// the attributes from byte 20.
pub proof fn lemma_genl_msg_layout(
    nlmsg_type: u16,
    nlmsg_flags: u16,
    nlmsg_seq: u32,
    nlmsg_pid: u32,
    cmd: u8,
    version: u8,
    attrs: Seq<(u16, Seq<u8>)>,
)
    ensures
        ({
            let m = genl_msg_bytes(nlmsg_type, nlmsg_flags, nlmsg_seq, nlmsg_pid, cmd, version, attrs);
            &&& m.len() == 20 + attrs_bytes(attrs).len()
            &&& m.len() < 0x1_0000_0000 ==> m.subrange(0, 4) == ne_bytes_u32(m.len() as u32)
            &&& m.subrange(4, 6) == ne_bytes_u16(nlmsg_type)
            &&& m.subrange(6, 8) == ne_bytes_u16(nlmsg_flags)
            &&& m.subrange(8, 12) == ne_bytes_u32(nlmsg_seq)
            &&& m.subrange(12, 16) == ne_bytes_u32(nlmsg_pid)
            &&& m[16] == cmd
            &&& m[17] == version
            &&& m[18] == 0 && m[19] == 0
            &&& m.subrange(20, m.len() as int) == attrs_bytes(attrs)
        }),
{
    lemma_ne_roundtrip();
    let m = genl_msg_bytes(nlmsg_type, nlmsg_flags, nlmsg_seq, nlmsg_pid, cmd, version, attrs);
    let body = attrs_bytes(attrs);
    let total = (NLMSGHDR_LEN + GENLMSGHDR_LEN + body.len()) % 0x1_0000_0000;
    let z = ne_bytes_u16(0);
    assert(m.subrange(0, 4) =~= ne_bytes_u32(total as u32));
    assert(m.subrange(4, 6) =~= ne_bytes_u16(nlmsg_type));
    assert(m.subrange(6, 8) =~= ne_bytes_u16(nlmsg_flags));
    assert(m.subrange(8, 12) =~= ne_bytes_u32(nlmsg_seq));
    assert(m.subrange(12, 16) =~= ne_bytes_u32(nlmsg_pid));
    assert(m.subrange(18, 20) =~= z);
    assert(z == seq![0u8, 0u8]) by {
        assert((0u16 % 256) as u8 == 0 && (0u16 / 256) as u8 == 0);
        assert(ne_bytes_u16(0) =~= seq![0u8, 0u8]);
    }
    assert(m[18] == z[0] && m[19] == z[1]);
    assert(m.subrange(20, m.len() as int) =~= body);
}

/// Appends one attribute: header, payload and padding.
pub fn push_nlattr(buf: &mut Vec<u8>, attr_type: u16, payload: &[u8])
    ensures
        final(buf)@ == old(buf)@ + nlattr_bytes(attr_type, payload@),
{
    proof { lemma_ne_roundtrip(); }
    let len_field: u16 = ((payload.len() % 65536 + NLATTR_LEN) % 65536) as u16;
    proof { lemma_len_field(payload@.len() as int); }
    push_u16_ne(buf, len_field);
    push_u16_ne(buf, attr_type);
    push_bytes(buf, payload);
    let pad: usize = (NLA_ALIGNTO - payload.len() % NLA_ALIGNTO) % NLA_ALIGNTO;
    proof { lemma_pad(payload@.len() as int); }
    let ghost before = buf@;
    let mut i: usize = 0;
    while i < pad
        invariant
            0 <= i <= pad,
            buf@ =~= before + zeros(i as nat),
        decreases pad - i,
    {
        buf.push(0);
        assert(zeros((i + 1) as nat) =~= zeros(i as nat).push(0));
        i = i + 1;
    }
}

/// Builds a generic-netlink request message.
pub fn build_packet_genl_msg(
    nlmsg_type: u16,
    nlmsg_flags: u16,
    nlmsg_seq: u32,
    nlmsg_pid: u32,
    cmd: u8,
    version: u8,
    attrs: &[(u16, Vec<u8>)],
) -> (msg: Vec<u8>)
    ensures
        msg@ == genl_msg_bytes(
            nlmsg_type,
            nlmsg_flags,
            nlmsg_seq,
            nlmsg_pid,
            cmd,
            version,
            attrs_view(attrs@),
        ),
{
    let mut attrs_buf: Vec<u8> = Vec::new();
    let mut i: usize = 0;
    while i < attrs.len()
        invariant
            0 <= i <= attrs@.len(),
            attrs_buf@ == attrs_bytes(attrs_view(attrs@.take(i as int))),
        decreases attrs@.len() - i,
    {
        proof {
            lemma_attrs_bytes_append(attrs_view(attrs@.take(i as int)), (attrs@[i as int].0, attrs@[i as int].1@));
            assert(attrs_view(attrs@.take(i + 1)) =~= attrs_view(attrs@.take(i as int)).push(
                (attrs@[i as int].0, attrs@[i as int].1@),
            ));
        }
        push_nlattr(&mut attrs_buf, attrs[i].0, attrs[i].1.as_slice());
        i = i + 1;
    }
    assert(attrs@.take(attrs@.len() as int) =~= attrs@);
    let total: u32 = ((attrs_buf.len() as u64 % 0x1_0000_0000 + (NLMSGHDR_LEN + GENLMSGHDR_LEN) as u64)
        % 0x1_0000_0000) as u32;
    let mut buf: Vec<u8> = Vec::new();
    push_u32_ne(&mut buf, total);
    push_u16_ne(&mut buf, nlmsg_type);
    push_u16_ne(&mut buf, nlmsg_flags);
    push_u32_ne(&mut buf, nlmsg_seq);
    push_u32_ne(&mut buf, nlmsg_pid);
    buf.push(cmd);
    buf.push(version);
    push_u16_ne(&mut buf, 0);
    push_bytes(&mut buf, attrs_buf.as_slice());
    assert(buf@ =~= genl_msg_bytes(
        nlmsg_type,
        nlmsg_flags,
        nlmsg_seq,
        nlmsg_pid,
        cmd,
        version,
        attrs_view(attrs@),
    ));
    buf
}


/// The header of a netlink message.
#[derive(Clone, Copy, Debug, PartialEq, Eq, Structural)]
pub struct NlMsgHdr {
    pub nlmsg_len: u32,
    pub nlmsg_type: u16,
    pub nlmsg_flags: u16,
    pub nlmsg_seq: u32,
    pub nlmsg_pid: u32,
}

/// The generic-netlink header that follows the netlink header.
#[derive(Clone, Copy, Debug, PartialEq, Eq, Structural)]
pub struct GenlMsgHdr {
    pub cmd: u8,
    pub version: u8,
    pub reserved: u16,
}

/// The netlink header stored at `off` in `s`.
pub open spec fn nlmsghdr_at(s: Seq<u8>, off: int) -> NlMsgHdr {
    NlMsgHdr {
        nlmsg_len: u32_of_ne(s.subrange(off, off + 4)),
        nlmsg_type: u16_of_ne(s.subrange(off + 4, off + 6)),
        nlmsg_flags: u16_of_ne(s.subrange(off + 6, off + 8)),
        nlmsg_seq: u32_of_ne(s.subrange(off + 8, off + 12)),
        nlmsg_pid: u32_of_ne(s.subrange(off + 12, off + 16)),
    }
}

/// The generic-netlink header stored at `off` in `s`.
pub open spec fn genlhdr_at(s: Seq<u8>, off: int) -> GenlMsgHdr {
    GenlMsgHdr {
        cmd: s[off],
        version: s[off + 1],
        reserved: u16_of_ne(s.subrange(off + 2, off + 4)),
    }
}

/// Reads the netlink header at `offset`, if the buffer holds one there.
pub fn parse_nlmsghdr(buf: &[u8], offset: usize) -> (r: Option<NlMsgHdr>)
    ensures
        r is Some <==> offset + NLMSGHDR_LEN <= buf@.len(),
        r matches Some(h) ==> h == nlmsghdr_at(buf@, offset as int),
{
    if offset > buf.len() || buf.len() - offset < NLMSGHDR_LEN {
        return None;
    }
    Some(
        NlMsgHdr {
            nlmsg_len: read_u32_ne(buf, offset),
            nlmsg_type: read_u16_ne(buf, offset + 4),
            nlmsg_flags: read_u16_ne(buf, offset + 6),
            nlmsg_seq: read_u32_ne(buf, offset + 8),
            nlmsg_pid: read_u32_ne(buf, offset + 12),
        },
    )
}

/// Reads the generic-netlink header at `offset`, if the buffer holds one
/// there.
pub fn parse_genlhdr(buf: &[u8], offset: usize) -> (r: Option<GenlMsgHdr>)
    ensures
        r is Some <==> offset + GENLMSGHDR_LEN <= buf@.len(),
        r matches Some(h) ==> h == genlhdr_at(buf@, offset as int),
{
    if offset > buf.len() || buf.len() - offset < GENLMSGHDR_LEN {
        return None;
    }
    Some(
        GenlMsgHdr {
            cmd: buf[offset],
            version: buf[offset + 1],
            reserved: read_u16_ne(buf, offset + 2),
        },
    )
}

/// The attributes found in `data`: each starts with a header giving its
/// length (header included) and type; the next one starts at the length
/// rounded up to four. The walk stops at a length shorter than a header or
/// longer than what is left, and after an attribute whose padding runs past
/// the end.
pub open spec fn spec_parse_attrs(data: Seq<u8>) -> Seq<(u16, Seq<u8>)>
    decreases data.len(),
{
    if data.len() < 4 {
        seq![]
    } else {
        let len = u16_of_ne(data.subrange(0, 2)) as int;
        let ty = u16_of_ne(data.subrange(2, 4));
        if len < 4 || len > data.len() {
            seq![]
        } else {
            let step = align4(len);
            let item = (ty, data.subrange(4, len));
            if step > data.len() {
                seq![item]
            } else {
                seq![item] + spec_parse_attrs(data.subrange(step, data.len() as int))
            }
        }
    }
}

/// Splits an attribute area into (type, payload) pairs.
pub fn parse_attrs(data: &[u8]) -> (out: Vec<(u16, Vec<u8>)>)
    ensures
        attrs_view(out@) == spec_parse_attrs(data@),
{
    let mut out: Vec<(u16, Vec<u8>)> = Vec::new();
    let mut pos: usize = 0;
    assert(data@.subrange(0, data@.len() as int) =~= data@);
    assert(attrs_view(out@) + spec_parse_attrs(data@) =~= spec_parse_attrs(data@));
    while pos <= data.len() && data.len() - pos >= NLATTR_LEN
        invariant
            pos <= data@.len(),
            attrs_view(out@) + spec_parse_attrs(data@.subrange(pos as int, data@.len() as int))
                == spec_parse_attrs(data@),
        decreases data@.len() - pos,
    {
        let ghost rest = data@.subrange(pos as int, data@.len() as int);
        let nla_len = read_u16_ne(data, pos) as usize;
        let nla_type = read_u16_ne(data, pos + 2);
        assert(rest.subrange(0, 2) =~= data@.subrange(pos as int, pos + 2));
        assert(rest.subrange(2, 4) =~= data@.subrange(pos + 2, pos + 4));
        if nla_len < NLATTR_LEN || nla_len > data.len() - pos {
            assert(spec_parse_attrs(rest) == Seq::<(u16, Seq<u8>)>::empty());
            assert(attrs_view(out@) + spec_parse_attrs(rest) =~= attrs_view(out@));
            return out;
        }
        let mut payload: Vec<u8> = Vec::new();
        let mut j: usize = pos + NLATTR_LEN;
        let end: usize = pos + nla_len;
        while j < end
            invariant
                end == pos + nla_len,
                pos + NLATTR_LEN <= j <= end <= data@.len(),
                payload@ =~= data@.subrange(pos + 4, j as int),
            decreases end - j,
        {
            payload.push(data[j]);
            j = j + 1;
        }
        assert(payload@ =~= rest.subrange(4, nla_len as int));
        let ghost old_out = out@;
        out.push((nla_type, payload));
        assert(attrs_view(out@) =~= attrs_view(old_out).push((nla_type, payload@)));
        let step = nla_align(nla_len);
        if step > data.len() - pos {
            assert(spec_parse_attrs(rest) == seq![(nla_type, payload@)]);
            assert(attrs_view(out@) =~= attrs_view(old_out) + spec_parse_attrs(rest));
            return out;
        }
        assert(rest.subrange(step as int, rest.len() as int) =~= data@.subrange(
            pos + step,
            data@.len() as int,
        ));
        assert(attrs_view(out@) + spec_parse_attrs(data@.subrange(pos + step, data@.len() as int))
            =~= attrs_view(old_out) + spec_parse_attrs(rest));
        pos = pos + step;
    }
    assert(spec_parse_attrs(data@.subrange(pos as int, data@.len() as int)) == Seq::<
        (u16, Seq<u8>),
    >::empty());
    assert(attrs_view(out@) + Seq::<(u16, Seq<u8>)>::empty() =~= attrs_view(out@));
    out
}


/// Attributes written by `push_nlattr` are read back by `parse_attrs`
/// exactly as they were written, provided each one's length fits the 16-bit
/// length field.
pub proof fn lemma_attrs_roundtrip(attrs: Seq<(u16, Seq<u8>)>)
    requires
        forall|i: int| 0 <= i < attrs.len() ==> #[trigger] attrs[i].1.len() + 4 < 65536,
    ensures
        spec_parse_attrs(attrs_bytes(attrs)) == attrs,
    decreases attrs.len(),
{
    lemma_ne_roundtrip();
    if attrs.len() == 0 {
        assert(attrs_bytes(attrs) =~= Seq::<u8>::empty());
        assert(attrs =~= Seq::<(u16, Seq<u8>)>::empty());
    } else {
        let t = attrs[0].0;
        let p = attrs[0].1;
        let head = nlattr_bytes(t, p);
        let tail = attrs_bytes(attrs.drop_first());
        let data = attrs_bytes(attrs);
        assert(data == head + tail);
        let len = 4 + p.len() as int;
        assert(len < 65536);
        assert((len % 65536) as u16 == len as u16);
        lemma_pad(p.len() as int);
        assert(head.len() == align4(len));
        assert(data.subrange(0, 2) =~= ne_bytes_u16(len as u16));
        assert(data.subrange(2, 4) =~= ne_bytes_u16(t));
        assert(data.subrange(4, len) =~= p);
        assert(data.subrange(align4(len), data.len() as int) =~= tail);
        assert forall|i: int| 0 <= i < attrs.drop_first().len() implies #[trigger] attrs.drop_first()[i].1.len() + 4 < 65536 by {
            assert(attrs.drop_first()[i] == attrs[i + 1]);
        }
        lemma_attrs_roundtrip(attrs.drop_first());
        assert(spec_parse_attrs(data) == seq![(t, p)] + spec_parse_attrs(tail));
        assert(seq![(t, p)] + attrs.drop_first() =~= attrs);
    }
}


/// A request built by `build_packet_genl_msg` is read back by the header
/// and attribute parsers: the netlink header gives the message length and
/// the fields it was built with, the generic header gives the command and
/// version, and the attribute area gives the attributes.
pub proof fn lemma_genl_msg_roundtrip(
    nlmsg_type: u16,
    nlmsg_flags: u16,
    nlmsg_seq: u32,
    nlmsg_pid: u32,
    cmd: u8,
    version: u8,
    attrs: Seq<(u16, Seq<u8>)>,
)
    requires
        forall|i: int| 0 <= i < attrs.len() ==> #[trigger] attrs[i].1.len() + 4 < 65536,
        attrs_bytes(attrs).len() + 20 < 0x1_0000_0000,
    ensures
        ({
            let m = genl_msg_bytes(nlmsg_type, nlmsg_flags, nlmsg_seq, nlmsg_pid, cmd, version, attrs);
            &&& m.len() >= 20
            &&& nlmsghdr_at(m, 0) == (NlMsgHdr {
                nlmsg_len: m.len() as u32,
                nlmsg_type,
                nlmsg_flags,
                nlmsg_seq,
                nlmsg_pid,
            })
            &&& genlhdr_at(m, 16) == (GenlMsgHdr { cmd, version, reserved: 0 })
            &&& spec_parse_attrs(m.subrange(20, m.len() as int)) == attrs
        }),
{
    lemma_ne_roundtrip();
    lemma_attrs_roundtrip(attrs);
    let body = attrs_bytes(attrs);
    let m = genl_msg_bytes(nlmsg_type, nlmsg_flags, nlmsg_seq, nlmsg_pid, cmd, version, attrs);
    let total = (20 + body.len()) % 0x1_0000_0000;
    assert(total == 20 + body.len());
    assert(m.len() == 20 + body.len());
    assert(m.subrange(0, 4) =~= ne_bytes_u32(total as u32));
    assert(m.subrange(4, 6) =~= ne_bytes_u16(nlmsg_type));
    assert(m.subrange(6, 8) =~= ne_bytes_u16(nlmsg_flags));
    assert(m.subrange(8, 12) =~= ne_bytes_u32(nlmsg_seq));
    assert(m.subrange(12, 16) =~= ne_bytes_u32(nlmsg_pid));
    assert(m.subrange(18, 20) =~= ne_bytes_u16(0));
    assert(m.subrange(20, m.len() as int) =~= body);
}

/// Why talking to the kernel module failed.
#[derive(Clone, Copy, Debug, PartialEq, Eq, Structural)]
pub enum NlError {
    /// An `NLMSG_ERROR` reply too short to hold an error code.
    ShortErrorPayload,
    /// The kernel refused the request with this `errno`.
    Errno(i32),
    /// A reply header whose length is shorter than the header itself.
    InvalidLength,
    /// A reply whose header claims more bytes than were received.
    Truncated,
    /// A reply too short to hold a generic-netlink header.
    BadGenlHeader,
    /// A reply whose claimed length ends inside its generic-netlink header.
    MalformedFrame,
    /// The kernel does not know the requested generic-netlink family.
    FamilyNotFound,
    /// The dump ended without the requested attribute.
    NoResponse,
    /// The requested attribute is too small for the expected structure.
    TooSmall,
}

/// How a failure of the module's interface is reported (a refusal by the
/// kernel only as `netlink error`; its `errno` is a separate detail).
pub open spec fn nl_error_text(e: NlError) -> Seq<char> {
    match e {
        NlError::ShortErrorPayload => "short NLMSG_ERROR payload"@,
        NlError::Errno(_) => "netlink error"@,
        NlError::InvalidLength => "invalid nlmsg_len"@,
        NlError::Truncated => "truncated netlink message"@,
        NlError::BadGenlHeader => "bad genlhdr"@,
        NlError::MalformedFrame => "malformed netlink message"@,
        NlError::FamilyNotFound => "generic netlink family not found"@,
        NlError::NoResponse => "no response"@,
        NlError::TooSmall => "received data too small for struct"@,
    }
}

impl NlError {
    /// How this failure is reported.
    pub fn message(&self) -> (s: &'static str)
        ensures
            s@ == nl_error_text(*self),
    {
        match self {
            NlError::ShortErrorPayload => "short NLMSG_ERROR payload",
            NlError::Errno(_) => "netlink error",
            NlError::InvalidLength => "invalid nlmsg_len",
            NlError::Truncated => "truncated netlink message",
            NlError::BadGenlHeader => "bad genlhdr",
            NlError::MalformedFrame => "malformed netlink message",
            NlError::FamilyNotFound => "generic netlink family not found",
            NlError::NoResponse => "no response",
            NlError::TooSmall => "received data too small for struct",
        }
    }
}

/// What the payload of an `NLMSG_ERROR` message says: too short, success
/// (error code 0), or the negated error code.
pub open spec fn spec_check_nlmsg_error(payload: Seq<u8>) -> Result<(), NlError> {
    if payload.len() < NLMSGERR_LEN {
        Err(NlError::ShortErrorPayload)
    } else {
        let code = u32_of_ne(payload.subrange(0, 4)) as i32;
        if code == 0 {
            Ok(())
        } else {
            Err(NlError::Errno(if code == i32::MIN { i32::MIN } else { (-code) as i32 }))
        }
    }
}

/// How an `NLMSG_ERROR` payload is read: one shorter than 20 bytes is
/// refused; otherwise its first four bytes hold the kernel's code, 0 for
/// success and the negated `errno` for a refusal, which is reported as that
/// positive `errno`.
pub proof fn lemma_nlmsg_error_code(code: i32, rest: Seq<u8>)
    ensures
        rest.len() < 16 ==> spec_check_nlmsg_error(ne_bytes_u32(code as u32) + rest) == Err::<(), NlError>(
            NlError::ShortErrorPayload,
        ),
        rest.len() >= 16 && code == 0 ==> spec_check_nlmsg_error(ne_bytes_u32(code as u32) + rest) == Ok::<
            (),
            NlError,
        >(()),
        rest.len() >= 16 && code < 0 && code != i32::MIN ==> spec_check_nlmsg_error(ne_bytes_u32(code as u32) + rest)
            == Err::<(), NlError>(NlError::Errno(-code as i32)),
{
    lemma_ne_roundtrip();
    let p = ne_bytes_u32(code as u32) + rest;
    assert(p.subrange(0, 4) =~= ne_bytes_u32(code as u32));
    assert((code as u32) as i32 == code) by (bit_vector);
}

/// Reads the result that an `NLMSG_ERROR` message carries.
/// The error code is negated with wrap-around, as a release build of the
/// negation does.
pub fn check_nlmsg_error(payload: &[u8]) -> (r: Result<(), NlError>)
    ensures
        r == spec_check_nlmsg_error(payload@),
{
    if payload.len() < NLMSGERR_LEN {
        return Err(NlError::ShortErrorPayload);
    }
    let code = read_u32_ne(payload, 0) as i32;
    if code == 0 {
        return Ok(());
    }
    if code == i32::MIN {
        Err(NlError::Errno(i32::MIN))
    } else {
        Err(NlError::Errno(-code))
    }
}


/// What the caller of a request waits for in the kernel's replies.
#[derive(Clone, Copy, Debug, PartialEq, Eq, Structural)]
pub enum ReplyMode {
    /// The numeric id of a generic-netlink family (a `CTRL_CMD_GETFAMILY`
    /// request).
    FamilyId,
    /// The acknowledgement of a request sent with `NLM_F_ACK`.
    Ack,
    /// The first attribute of type `attr_type`, which must hold at least
    /// `size` bytes.
    Single { attr_type: u16, size: usize },
    /// Every attribute of type `attr_type` that holds at least `size` bytes,
    /// until the dump ends.
    Dump { attr_type: u16, size: usize },
    /// Every attribute of type `attr_type`, as a NUL-terminated string,
    /// until the dump ends.
    DumpStrings { attr_type: u16 },
}

/// Where a received buffer leaves the exchange.
#[derive(Clone, Copy, Debug, PartialEq, Eq, Structural)]
pub enum ReplyStatus {
    /// Nothing decisive in this buffer: receive the next one.
    NeedMore,
    /// The request was acknowledged, or the dump is complete.
    Finished,
    /// The requested family has this id.
    FamilyId(u16),
    /// The requested attribute was found; it is the last item.
    Found,
    /// The exchange failed.
    Failed(NlError),
}

/// The outcome of scanning one received buffer: the items collected, in
/// order, and where the exchange stands.
#[derive(Debug)]
pub struct ScanResult {
    pub items: Vec<Vec<u8>>,
    pub status: ReplyStatus,
}

/// The items of a scan as plain values.
pub open spec fn items_view(items: Seq<Vec<u8>>) -> Seq<Seq<u8>> {
    items.map_values(|v: Vec<u8>| v@)
}

/// The id carried by the first `CTRL_ATTR_FAMILY_ID` attribute holding at
/// least two bytes.
pub open spec fn family_in(attrs: Seq<(u16, Seq<u8>)>) -> Option<u16>
    decreases attrs.len(),
{
    if attrs.len() == 0 {
        None
    } else if attrs[0].0 == CTRL_ATTR_FAMILY_ID && attrs[0].1.len() >= 2 {
        Some(u16_of_ne(attrs[0].1.subrange(0, 2)))
    } else {
        family_in(attrs.drop_first())
    }
}

/// What the first attribute of type `ty` decides: too small, or found with
/// its first `size` bytes.
pub open spec fn single_in(attrs: Seq<(u16, Seq<u8>)>, ty: u16, size: nat) -> Option<
    (Seq<Seq<u8>>, ReplyStatus),
>
    decreases attrs.len(),
{
    if attrs.len() == 0 {
        None
    } else if attrs[0].0 == ty {
        if attrs[0].1.len() < size {
            Some((seq![], ReplyStatus::Failed(NlError::TooSmall)))
        } else {
            Some((seq![attrs[0].1.take(size as int)], ReplyStatus::Found))
        }
    } else {
        single_in(attrs.drop_first(), ty, size)
    }
}

/// The first `size` bytes of each attribute of type `ty` holding at least
/// `size` bytes.
pub open spec fn dump_items(attrs: Seq<(u16, Seq<u8>)>, ty: u16, size: nat) -> Seq<Seq<u8>>
    decreases attrs.len(),
{
    if attrs.len() == 0 {
        seq![]
    } else {
        let rest = dump_items(attrs.drop_first(), ty, size);
        if attrs[0].0 == ty && attrs[0].1.len() >= size {
            seq![attrs[0].1.take(size as int)] + rest
        } else {
            rest
        }
    }
}

/// The bytes of `p` before its first NUL byte (all of `p` if it has none).
pub open spec fn up_to_nul(p: Seq<u8>) -> Seq<u8>
    decreases p.len(),
{
    if p.len() == 0 {
        seq![]
    } else if p[0] == 0 {
        seq![]
    } else {
        seq![p[0]] + up_to_nul(p.drop_first())
    }
}

/// The NUL-terminated strings held by the attributes of type `ty`.
pub open spec fn string_items(attrs: Seq<(u16, Seq<u8>)>, ty: u16) -> Seq<Seq<u8>>
    decreases attrs.len(),
{
    if attrs.len() == 0 {
        seq![]
    } else {
        let rest = string_items(attrs.drop_first(), ty);
        if attrs[0].0 == ty {
            seq![up_to_nul(attrs[0].1)] + rest
        } else {
            rest
        }
    }
}

/// What one reply message with the expected sequence number decides: items
/// it contributes and, if the exchange stops there, how.
pub open spec fn frame_action(rx: Seq<u8>, off: int, h: NlMsgHdr, mode: ReplyMode) -> (
    Seq<Seq<u8>>,
    Option<ReplyStatus>,
) {
    let end = off + h.nlmsg_len;
    if h.nlmsg_type == NLMSG_ERROR {
        match spec_check_nlmsg_error(rx.subrange(off + 16, end)) {
            Err(e) => (seq![], Some(ReplyStatus::Failed(e))),
            Ok(()) => match mode {
                ReplyMode::Ack => (seq![], Some(ReplyStatus::Finished)),
                _ => (seq![], None),
            },
        }
    } else if h.nlmsg_type == NLMSG_DONE {
        match mode {
            ReplyMode::FamilyId => (seq![], Some(ReplyStatus::Failed(NlError::FamilyNotFound))),
            ReplyMode::Single { .. } => (seq![], Some(ReplyStatus::Failed(NlError::NoResponse))),
            _ => (seq![], Some(ReplyStatus::Finished)),
        }
    } else if mode is Ack {
        (seq![], None)
    } else if rx.len() < off + 20 {
        (seq![], Some(ReplyStatus::Failed(NlError::BadGenlHeader)))
    } else if h.nlmsg_len < 20 {
        (seq![], Some(ReplyStatus::Failed(NlError::MalformedFrame)))
    } else {
        let attrs = spec_parse_attrs(rx.subrange(off + 20, end));
        match mode {
            ReplyMode::FamilyId => match family_in(attrs) {
                Some(id) => (seq![], Some(ReplyStatus::FamilyId(id))),
                None => (seq![], None),
            },
            ReplyMode::Single { attr_type, size } => match single_in(attrs, attr_type, size as nat) {
                Some((items, st)) => (items, Some(st)),
                None => (seq![], None),
            },
            ReplyMode::Dump { attr_type, size } => (dump_items(attrs, attr_type, size as nat), None),
            ReplyMode::DumpStrings { attr_type } => (string_items(attrs, attr_type), None),
            ReplyMode::Ack => (seq![], None),
        }
    }
}

/// Scans the reply messages of `rx` from `off`: messages with another
/// sequence number are skipped; a header shorter than itself or longer
/// than the buffer fails the exchange; the others are handled by
/// `frame_action` until one stops the exchange.
pub open spec fn scan_from(rx: Seq<u8>, off: nat, seq: u32, mode: ReplyMode) -> (
    Seq<Seq<u8>>,
    ReplyStatus,
)
    decreases rx.len() - off,
{
    if off + 16 > rx.len() {
        (seq![], ReplyStatus::NeedMore)
    } else {
        let h = nlmsghdr_at(rx, off as int);
        if h.nlmsg_len < 16 {
            (seq![], ReplyStatus::Failed(NlError::InvalidLength))
        } else if off + h.nlmsg_len > rx.len() {
            (seq![], ReplyStatus::Failed(NlError::Truncated))
        } else {
            let next = (off + align4(h.nlmsg_len as int)) as nat;
            let rest = if next > rx.len() {
                (Seq::<Seq<u8>>::empty(), ReplyStatus::NeedMore)
            } else {
                scan_from(rx, next, seq, mode)
            };
            if h.nlmsg_seq != seq {
                rest
            } else {
                let (items, stop) = frame_action(rx, off as int, h, mode);
                match stop {
                    Some(st) => (items, st),
                    None => (items + rest.0, rest.1),
                }
            }
        }
    }
}


proof fn lemma_skip_step<T>(s: Seq<T>, i: int)
    requires
        0 <= i < s.len(),
    ensures
        s.skip(i).len() > 0,
        s.skip(i)[0] == s[i],
        s.skip(i).drop_first() =~= s.skip(i + 1),
{
}

fn find_family(attrs: &Vec<(u16, Vec<u8>)>) -> (r: Option<u16>)
    ensures
        r == family_in(attrs_view(attrs@)),
{
    let ghost v = attrs_view(attrs@);
    let mut i: usize = 0;
    assert(v.skip(0) =~= v);
    while i < attrs.len()
        invariant
            0 <= i <= attrs@.len(),
            v == attrs_view(attrs@),
            family_in(v) == family_in(v.skip(i as int)),
        decreases attrs@.len() - i,
    {
        proof { lemma_skip_step(v, i as int); }
        let (ty, payload) = (attrs[i].0, &attrs[i].1);
        if ty == CTRL_ATTR_FAMILY_ID && payload.len() >= 2 {
            let id = read_u16_ne(payload.as_slice(), 0);
            return Some(id);
        }
        i = i + 1;
    }
    None
}

fn find_single(attrs: &Vec<(u16, Vec<u8>)>, ty: u16, size: usize) -> (r: Option<(Vec<Vec<u8>>, ReplyStatus)>)
    ensures
        match r {
            None => single_in(attrs_view(attrs@), ty, size as nat) is None,
            Some((items, st)) => single_in(attrs_view(attrs@), ty, size as nat) == Some((items_view(items@), st)),
        },
{
    let ghost v = attrs_view(attrs@);
    let mut i: usize = 0;
    assert(v.skip(0) =~= v);
    while i < attrs.len()
        invariant
            0 <= i <= attrs@.len(),
            v == attrs_view(attrs@),
            single_in(v, ty, size as nat) == single_in(v.skip(i as int), ty, size as nat),
        decreases attrs@.len() - i,
    {
        proof { lemma_skip_step(v, i as int); }
        if attrs[i].0 == ty {
            let payload = &attrs[i].1;
            if payload.len() < size {
                let items: Vec<Vec<u8>> = Vec::new();
                assert(items_view(items@) =~= Seq::<Seq<u8>>::empty());
                return Some((items, ReplyStatus::Failed(NlError::TooSmall)));
            }
            let mut item: Vec<u8> = Vec::new();
            push_bytes(&mut item, &payload.as_slice()[0..size]);
            let mut items: Vec<Vec<u8>> = Vec::new();
            items.push(item);
            assert(items_view(items@) =~= seq![payload@.take(size as int)]);
            return Some((items, ReplyStatus::Found));
        }
        i = i + 1;
    }
    None
}

fn collect_dump(attrs: &Vec<(u16, Vec<u8>)>, ty: u16, size: usize, items: &mut Vec<Vec<u8>>)
    ensures
        items_view(final(items)@) == items_view(old(items)@) + dump_items(attrs_view(attrs@), ty, size as nat),
{
    let ghost v = attrs_view(attrs@);
    let mut i: usize = 0;
    assert(v.skip(0) =~= v);
    assert(items_view(items@) =~= items_view(old(items)@));
    while i < attrs.len()
        invariant
            0 <= i <= attrs@.len(),
            v == attrs_view(attrs@),
            items_view(items@) + dump_items(v.skip(i as int), ty, size as nat)
                == items_view(old(items)@) + dump_items(v, ty, size as nat),
        decreases attrs@.len() - i,
    {
        proof { lemma_skip_step(v, i as int); }
        let ghost before = items@;
        if attrs[i].0 == ty && attrs[i].1.len() >= size {
            let mut item: Vec<u8> = Vec::new();
            push_bytes(&mut item, &attrs[i].1.as_slice()[0..size]);
            items.push(item);
            assert(items_view(items@) =~= items_view(before).push(attrs[i as int].1@.take(size as int)));
            assert(items_view(items@) + dump_items(v.skip(i + 1), ty, size as nat)
                =~= items_view(before) + dump_items(v.skip(i as int), ty, size as nat));
        }
        i = i + 1;
    }
    assert(v.skip(attrs@.len() as int) =~= Seq::<(u16, Seq<u8>)>::empty());
    assert(items_view(items@) + Seq::<Seq<u8>>::empty() =~= items_view(items@));
}

/// The bytes of `p` before its first NUL byte.
pub fn nul_prefix(p: &[u8]) -> (r: Vec<u8>)
    ensures
        r@ == up_to_nul(p@),
{
    let mut r: Vec<u8> = Vec::new();
    let mut i: usize = 0;
    assert(p@.skip(0) =~= p@);
    while i < p.len()
        invariant
            0 <= i <= p@.len(),
            r@ + up_to_nul(p@.skip(i as int)) == up_to_nul(p@),
        decreases p@.len() - i,
    {
        proof { lemma_skip_step(p@, i as int); }
        if p[i] == 0 {
            assert(r@ + Seq::<u8>::empty() =~= r@);
            return r;
        }
        let ghost before = r@;
        r.push(p[i]);
        assert(r@ + up_to_nul(p@.skip(i + 1)) =~= before + up_to_nul(p@.skip(i as int)));
        i = i + 1;
    }
    assert(p@.skip(p@.len() as int) =~= Seq::<u8>::empty());
    assert(r@ + Seq::<u8>::empty() =~= r@);
    r
}

fn collect_strings(attrs: &Vec<(u16, Vec<u8>)>, ty: u16, items: &mut Vec<Vec<u8>>)
    ensures
        items_view(final(items)@) == items_view(old(items)@) + string_items(attrs_view(attrs@), ty),
{
    let ghost v = attrs_view(attrs@);
    let mut i: usize = 0;
    assert(v.skip(0) =~= v);
    assert(items_view(items@) =~= items_view(old(items)@));
    while i < attrs.len()
        invariant
            0 <= i <= attrs@.len(),
            v == attrs_view(attrs@),
            items_view(items@) + string_items(v.skip(i as int), ty)
                == items_view(old(items)@) + string_items(v, ty),
        decreases attrs@.len() - i,
    {
        proof { lemma_skip_step(v, i as int); }
        let ghost before = items@;
        if attrs[i].0 == ty {
            let item = nul_prefix(attrs[i].1.as_slice());
            items.push(item);
            assert(items_view(items@) =~= items_view(before).push(up_to_nul(attrs[i as int].1@)));
            assert(items_view(items@) + string_items(v.skip(i + 1), ty)
                =~= items_view(before) + string_items(v.skip(i as int), ty));
        }
        i = i + 1;
    }
    assert(v.skip(attrs@.len() as int) =~= Seq::<(u16, Seq<u8>)>::empty());
    assert(items_view(items@) + Seq::<Seq<u8>>::empty() =~= items_view(items@));
}


fn handle_frame(
    rx: &[u8],
    off: usize,
    len: usize,
    h: NlMsgHdr,
    mode: ReplyMode,
    items: &mut Vec<Vec<u8>>,
) -> (stop: Option<ReplyStatus>)
    requires
        off + 16 <= rx@.len(),
        len == h.nlmsg_len,
        h == nlmsghdr_at(rx@, off as int),
        16 <= h.nlmsg_len,
        off + h.nlmsg_len <= rx@.len(),
    ensures
        ({
            let (its, st) = frame_action(rx@, off as int, h, mode);
            &&& items_view(final(items)@) == items_view(old(items)@) + its
            &&& stop == st
        }),
{
    let _ = rx.len();
    let end: usize = off + len;
    assert(items_view(old(items)@) + Seq::<Seq<u8>>::empty() =~= items_view(old(items)@));
    if h.nlmsg_type == NLMSG_ERROR {
        match check_nlmsg_error(&rx[off + NLMSGHDR_LEN..end]) {
            Err(e) => {
                return Some(ReplyStatus::Failed(e));
            },
            Ok(()) => {
                return match mode {
                    ReplyMode::Ack => Some(ReplyStatus::Finished),
                    _ => None,
                };
            },
        }
    }
    if h.nlmsg_type == NLMSG_DONE {
        return match mode {
            ReplyMode::FamilyId => Some(ReplyStatus::Failed(NlError::FamilyNotFound)),
            ReplyMode::Single { .. } => Some(ReplyStatus::Failed(NlError::NoResponse)),
            _ => Some(ReplyStatus::Finished),
        };
    }
    if let ReplyMode::Ack = mode {
        return None;
    }
    let genl_off = off + NLMSGHDR_LEN;
    match parse_genlhdr(rx, genl_off) {
        None => {
            return Some(ReplyStatus::Failed(NlError::BadGenlHeader));
        },
        Some(_) => {},
    }
    let attrs_off = genl_off + GENLMSGHDR_LEN;
    if attrs_off > end {
        return Some(ReplyStatus::Failed(NlError::MalformedFrame));
    }
    let attrs = parse_attrs(&rx[attrs_off..end]);
    match mode {
        ReplyMode::FamilyId => match find_family(&attrs) {
            Some(id) => Some(ReplyStatus::FamilyId(id)),
            None => None,
        },
        ReplyMode::Single { attr_type, size } => match find_single(&attrs, attr_type, size) {
            Some((found, st)) => {
                let mut found = found;
                items.append(&mut found);
                assert(items_view(items@) =~= items_view(old(items)@) + single_in(
                    attrs_view(attrs@),
                    attr_type,
                    size as nat,
                ).unwrap().0);
                Some(st)
            },
            None => None,
        },
        ReplyMode::Dump { attr_type, size } => {
            collect_dump(&attrs, attr_type, size, items);
            None
        },
        ReplyMode::DumpStrings { attr_type } => {
            collect_strings(&attrs, attr_type, items);
            None
        },
        ReplyMode::Ack => None,
    }
}

proof fn lemma_pad_exact(len: int)
    requires
        len >= 0,
    ensures
        (4 - len % 4) % 4 == align4(len) - len,
{
}

/// Scans one buffer of replies to the request numbered `seq`, as `mode`
/// asks: the items found, in order, and where the exchange stands
/// (`NeedMore` when nothing in the buffer decided it).
pub fn scan_reply(rx: &[u8], seq: u32, mode: ReplyMode) -> (r: ScanResult)
    ensures
        (items_view(r.items@), r.status) == scan_from(rx@, 0, seq, mode),
{
    let mut items: Vec<Vec<u8>> = Vec::new();
    let mut off: usize = 0;
    assert(items_view(items@) + scan_from(rx@, 0, seq, mode).0 =~= scan_from(rx@, 0, seq, mode).0);
    loop
        invariant
            off <= rx@.len(),
            scan_from(rx@, 0, seq, mode) == (
                items_view(items@) + scan_from(rx@, off as nat, seq, mode).0,
                scan_from(rx@, off as nat, seq, mode).1,
            ),
        decreases rx@.len() - off,
    {
        let ghost cur = scan_from(rx@, off as nat, seq, mode);
        if rx.len() - off < NLMSGHDR_LEN {
            assert(items_view(items@) + Seq::<Seq<u8>>::empty() =~= items_view(items@));
            return ScanResult { items, status: ReplyStatus::NeedMore };
        }
        let h = match parse_nlmsghdr(rx, off) {
            Some(h) => h,
            None => {
                return ScanResult { items, status: ReplyStatus::NeedMore };
            },
        };
        let len = h.nlmsg_len as usize;
        if len < NLMSGHDR_LEN {
            assert(items_view(items@) + Seq::<Seq<u8>>::empty() =~= items_view(items@));
            return ScanResult { items, status: ReplyStatus::Failed(NlError::InvalidLength) };
        }
        if len > rx.len() - off {
            assert(items_view(items@) + Seq::<Seq<u8>>::empty() =~= items_view(items@));
            return ScanResult { items, status: ReplyStatus::Failed(NlError::Truncated) };
        }
        let pad: usize = (NLMSG_ALIGNTO - len % NLMSG_ALIGNTO) % NLMSG_ALIGNTO;
        proof { lemma_pad_exact(len as int); }
        let fits = pad <= rx.len() - off - len;
        let ghost next = (off + align4(len as int)) as nat;
        if h.nlmsg_seq == seq {
            let ghost before = items@;
            let stop = handle_frame(rx, off, len, h, mode, &mut items);
            match stop {
                Some(st) => {
                    return ScanResult { items, status: st };
                },
                None => {},
            }
            assert(items_view(items@) =~= items_view(before) + frame_action(rx@, off as int, h, mode).0);
        }
        if !fits {
            assert(items_view(items@) + Seq::<Seq<u8>>::empty() =~= items_view(items@));
            return ScanResult { items, status: ReplyStatus::NeedMore };
        }
        off = off + len + pad;
        assert(off == next);
    }
}


/// The sequence numbers and port id of one netlink connection.
pub struct NetlinkSeq {
    pub seq: u32,
    pub pid: u32,
}

impl NetlinkSeq {
    /// A fresh connection: the first request is numbered 1, and the kernel
    /// assigns the port id (0).
    pub fn new() -> (s: Self)
        ensures
            s.seq == 1,
            s.pid == 0,
    {
        NetlinkSeq { seq: 1, pid: 0 }
    }

    /// Takes the next sequence number; numbers wrap around after `u32::MAX`.
    pub fn next_seq(&mut self) -> (s: u32)
        ensures
            s == old(self).seq,
            final(self).seq == (old(self).seq + 1) % 0x1_0000_0000,
            final(self).pid == old(self).pid,
    {
        let s = self.seq;
        self.seq = if self.seq == u32::MAX { 0 } else { self.seq + 1 };
        s
    }
}

/// The flags of a request, with or without an acknowledgement asked for.
pub open spec fn request_flags(ack: bool) -> u16 {
    if ack { NLM_F_REQUEST | NLM_F_ACK } else { NLM_F_REQUEST }
}

/// `s` followed by a NUL byte, as the kernel expects string attributes.
pub open spec fn nul_terminated(s: &str) -> Seq<u8> {
    s.spec_bytes().push(0)
}

fn nul_terminated_bytes(s: &str) -> (r: Vec<u8>)
    ensures
        r@ == nul_terminated(s),
{
    let mut r: Vec<u8> = Vec::new();
    push_bytes(&mut r, s.as_bytes());
    r.push(0);
    r
}

/// The request asking the kernel's generic-netlink controller for the id
/// of the family named `family_name`.
pub fn family_request(seq: u32, pid: u32, family_name: &str) -> (msg: Vec<u8>)
    ensures
        msg@ == genl_msg_bytes(
            GENL_ID_CTRL,
            NLM_F_REQUEST,
            seq,
            pid,
            CTRL_CMD_GETFAMILY,
            1,
            seq![(CTRL_ATTR_FAMILY_NAME, nul_terminated(family_name))],
        ),
{
    let name = nul_terminated_bytes(family_name);
    let attrs = vec![(CTRL_ATTR_FAMILY_NAME, name)];
    let msg = build_packet_genl_msg(GENL_ID_CTRL, NLM_F_REQUEST, seq, pid, CTRL_CMD_GETFAMILY, 1, attrs.as_slice());
    assert(attrs_view(attrs@) =~= seq![(CTRL_ATTR_FAMILY_NAME, nul_terminated(family_name))]);
    msg
}

/// The request carrying one structure as attribute `attr_type` of command
/// `cmd` to the module.
pub fn struct_request(
    family_id: u16,
    seq: u32,
    pid: u32,
    cmd: u8,
    attr_type: u16,
    payload: &[u8],
    ack: bool,
) -> (msg: Vec<u8>)
    ensures
        msg@ == genl_msg_bytes(
            family_id,
            request_flags(ack),
            seq,
            pid,
            cmd,
            TUTU_GENL_VERSION,
            seq![(attr_type, payload@)],
        ),
{
    let mut data: Vec<u8> = Vec::new();
    push_bytes(&mut data, payload);
    let flags = if ack { NLM_F_REQUEST | NLM_F_ACK } else { NLM_F_REQUEST };
    let attrs = vec![(attr_type, data)];
    let msg = build_packet_genl_msg(family_id, flags, seq, pid, cmd, TUTU_GENL_VERSION, attrs.as_slice());
    assert(attrs_view(attrs@) =~= seq![(attr_type, payload@)]);
    msg
}

/// The request carrying one NUL-terminated string as attribute `attr_type`
/// of command `cmd` to the module.
pub fn string_request(
    family_id: u16,
    seq: u32,
    pid: u32,
    cmd: u8,
    attr_type: u16,
    data: &str,
    ack: bool,
) -> (msg: Vec<u8>)
    ensures
        msg@ == genl_msg_bytes(
            family_id,
            request_flags(ack),
            seq,
            pid,
            cmd,
            TUTU_GENL_VERSION,
            seq![(attr_type, nul_terminated(data))],
        ),
{
    let bytes = nul_terminated_bytes(data);
    let flags = if ack { NLM_F_REQUEST | NLM_F_ACK } else { NLM_F_REQUEST };
    let attrs = vec![(attr_type, bytes)];
    let msg = build_packet_genl_msg(family_id, flags, seq, pid, cmd, TUTU_GENL_VERSION, attrs.as_slice());
    assert(attrs_view(attrs@) =~= seq![(attr_type, nul_terminated(data))]);
    msg
}

/// The request asking command `cmd` for one structure, optionally sending
/// `in_data` as attribute `attr_type`.
pub fn query_request(
    family_id: u16,
    seq: u32,
    pid: u32,
    cmd: u8,
    attr_type: u16,
    in_data: Option<&[u8]>,
) -> (msg: Vec<u8>)
    ensures
        msg@ == genl_msg_bytes(
            family_id,
            NLM_F_REQUEST,
            seq,
            pid,
            cmd,
            TUTU_GENL_VERSION,
            match in_data {
                Some(d) => seq![(attr_type, d@)],
                None => seq![],
            },
        ),
{
    let mut attrs: Vec<(u16, Vec<u8>)> = Vec::new();
    match in_data {
        Some(d) => {
            let mut data: Vec<u8> = Vec::new();
            push_bytes(&mut data, d);
            attrs.push((attr_type, data));
            assert(attrs_view(attrs@) =~= seq![(attr_type, d@)]);
        },
        None => {
            assert(attrs_view(attrs@) =~= Seq::<(u16, Seq<u8>)>::empty());
        },
    }
    build_packet_genl_msg(family_id, NLM_F_REQUEST, seq, pid, cmd, TUTU_GENL_VERSION, attrs.as_slice())
}

/// The request asking command `cmd` to dump all its entries.
pub fn dump_request(family_id: u16, seq: u32, pid: u32, cmd: u8) -> (msg: Vec<u8>)
    ensures
        msg@ == genl_msg_bytes(
            family_id,
            NLM_F_REQUEST | NLM_F_DUMP,
            seq,
            pid,
            cmd,
            TUTU_GENL_VERSION,
            seq![],
        ),
{
    let attrs: Vec<(u16, Vec<u8>)> = Vec::new();
    assert(attrs_view(attrs@) =~= Seq::<(u16, Seq<u8>)>::empty());
    build_packet_genl_msg(family_id, NLM_F_REQUEST | NLM_F_DUMP, seq, pid, cmd, TUTU_GENL_VERSION, attrs.as_slice())
}

/// The text of a string that a dump of the module lists (the bytes before
/// its NUL, as `scan_reply` collects them), read as UTF-8 with invalid
/// sequences replaced.
pub fn string_item(item: &[u8]) -> (s: String)
    ensures
        s@ == utf8_lossy(item@),
        valid_utf8(item@) ==> s@ == decode_utf8(item@),
{
    lossy_string(item)
}

}
