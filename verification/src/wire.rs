//! Host byte order and network byte order for the integers that travel in
//! netlink messages and protocol structures.

use vstd::bytes::*;
use vstd::endian::{endianness, Endian};
use vstd::prelude::*;

verus! {

/// The two bytes of `x`, least significant first.
pub open spec fn le_bytes_u16(x: u16) -> Seq<u8> {
    seq![(x % 256) as u8, (x / 256) as u8]
}

/// The two bytes of `x` in the host's byte order.
pub open spec fn ne_bytes_u16(x: u16) -> Seq<u8> {
    let le = le_bytes_u16(x);
    match endianness() {
        Endian::Little => le,
        Endian::Big => seq![le[1], le[0]],
    }
}

/// The value of two bytes read most significant first.
pub open spec fn u16_of_be(s: Seq<u8>) -> u16 {
    (s[0] * 256 + s[1]) as u16
}

/// The value of two bytes read in the host's byte order.
pub open spec fn u16_of_ne(s: Seq<u8>) -> u16 {
    match endianness() {
        Endian::Little => u16_of_be(seq![s[1], s[0]]),
        Endian::Big => u16_of_be(s),
    }
}

/// The four bytes of `x` in the host's byte order.
pub open spec fn ne_bytes_u32(x: u32) -> Seq<u8> {
    let le = spec_u32_to_le_bytes(x);
    match endianness() {
        Endian::Little => le,
        Endian::Big => seq![le[3], le[2], le[1], le[0]],
    }
}

/// The value of four bytes read in the host's byte order.
pub open spec fn u32_of_ne(s: Seq<u8>) -> u32 {
    match endianness() {
        Endian::Little => spec_u32_from_le_bytes(s),
        Endian::Big => spec_u32_from_le_bytes(seq![s[3], s[2], s[1], s[0]]),
    }
}

/// The eight bytes of `x` in the host's byte order.
pub open spec fn ne_bytes_u64(x: u64) -> Seq<u8> {
    let le = spec_u64_to_le_bytes(x);
    match endianness() {
        Endian::Little => le,
        Endian::Big => seq![le[7], le[6], le[5], le[4], le[3], le[2], le[1], le[0]],
    }
}

/// The value of eight bytes read in the host's byte order.
pub open spec fn u64_of_ne(s: Seq<u8>) -> u64 {
    match endianness() {
        Endian::Little => spec_u64_from_le_bytes(s),
        Endian::Big => spec_u64_from_le_bytes(seq![s[7], s[6], s[5], s[4], s[3], s[2], s[1], s[0]]),
    }
}

/// `x` with its two bytes exchanged.
pub open spec fn swap16(x: u16) -> u16 {
    ((x % 256) * 256 + x / 256) as u16
}

/// `x` in network byte order (big endian), as `u16::to_be` gives it.
pub open spec fn to_network_order(x: u16) -> u16 {
    match endianness() {
        Endian::Little => swap16(x),
        Endian::Big => x,
    }
}

/// Encoding a value in host byte order and reading it back gives the value;
/// reading bytes and encoding the value gives the bytes.
pub proof fn lemma_ne_roundtrip()
    ensures
        forall|x: u16| #[trigger] ne_bytes_u16(x).len() == 2 && u16_of_ne(ne_bytes_u16(x)) == x,
        forall|s: Seq<u8>| s.len() == 2 ==> #[trigger] ne_bytes_u16(u16_of_ne(s)) == s,
        forall|x: u32| #[trigger] ne_bytes_u32(x).len() == 4 && u32_of_ne(ne_bytes_u32(x)) == x,
        forall|s: Seq<u8>| s.len() == 4 ==> #[trigger] ne_bytes_u32(u32_of_ne(s)) == s,
        forall|x: u64| #[trigger] ne_bytes_u64(x).len() == 8 && u64_of_ne(ne_bytes_u64(x)) == x,
        forall|s: Seq<u8>| s.len() == 8 ==> #[trigger] ne_bytes_u64(u64_of_ne(s)) == s,
{
    lemma_auto_spec_u32_to_from_le_bytes();
    lemma_auto_spec_u64_to_from_le_bytes();
    assert forall|x: u16| #[trigger] ne_bytes_u16(x).len() == 2 && u16_of_ne(ne_bytes_u16(x)) == x by {
        assert((x % 256) as u8 == x % 256 && (x / 256) as u8 == x / 256);
    }
    assert forall|s: Seq<u8>| s.len() == 2 implies #[trigger] ne_bytes_u16(u16_of_ne(s)) == s by {
        let v = u16_of_ne(s);
        match endianness() {
            Endian::Little => {
                assert(v == s[1] * 256 + s[0]);
                assert(v % 256 == s[0] && v / 256 == s[1]);
            },
            Endian::Big => {
                assert(v == s[0] * 256 + s[1]);
                assert(v % 256 == s[1] && v / 256 == s[0]);
            },
        }
        assert(ne_bytes_u16(v) =~= s);
    }
    assert forall|x: u32| #[trigger] ne_bytes_u32(x).len() == 4 && u32_of_ne(ne_bytes_u32(x)) == x by {
        let le = spec_u32_to_le_bytes(x);
        let b = seq![le[3], le[2], le[1], le[0]];
        assert(seq![b[3], b[2], b[1], b[0]] =~= le);
    }
    assert forall|s: Seq<u8>| s.len() == 4 implies #[trigger] ne_bytes_u32(u32_of_ne(s)) == s by {
        let r = seq![s[3], s[2], s[1], s[0]];
        assert(spec_u32_to_le_bytes(spec_u32_from_le_bytes(r)) == r);
        assert(seq![r[3], r[2], r[1], r[0]] =~= s);
    }
    assert forall|x: u64| #[trigger] ne_bytes_u64(x).len() == 8 && u64_of_ne(ne_bytes_u64(x)) == x by {
        let le = spec_u64_to_le_bytes(x);
        let b = seq![le[7], le[6], le[5], le[4], le[3], le[2], le[1], le[0]];
        assert(seq![b[7], b[6], b[5], b[4], b[3], b[2], b[1], b[0]] =~= le);
    }
    assert forall|s: Seq<u8>| s.len() == 8 implies #[trigger] ne_bytes_u64(u64_of_ne(s)) == s by {
        let r = seq![s[7], s[6], s[5], s[4], s[3], s[2], s[1], s[0]];
        assert(spec_u64_to_le_bytes(spec_u64_from_le_bytes(r)) == r);
        assert(seq![r[7], r[6], r[5], r[4], r[3], r[2], r[1], r[0]] =~= s);
    }
}

/// `u16::to_ne_bytes`: the memory representation of `x` in host byte order.
#[verifier::external_body]
fn u16_to_ne_bytes(x: u16) -> (b: [u8; 2])
    ensures
        b@ == ne_bytes_u16(x),
{
    x.to_ne_bytes()
}

/// `u16::from_ne_bytes`: the integer whose host-order representation is `b`.
#[verifier::external_body]
fn u16_from_ne_bytes(b: [u8; 2]) -> (x: u16)
    ensures
        x == u16_of_ne(b@),
{
    u16::from_ne_bytes(b)
}

/// `u32::to_ne_bytes`: the memory representation of `x` in host byte order.
#[verifier::external_body]
fn u32_to_ne_bytes(x: u32) -> (b: [u8; 4])
    ensures
        b@ == ne_bytes_u32(x),
{
    x.to_ne_bytes()
}

/// `u32::from_ne_bytes`: the integer whose host-order representation is `b`.
#[verifier::external_body]
fn u32_from_ne_bytes(b: [u8; 4]) -> (x: u32)
    ensures
        x == u32_of_ne(b@),
{
    u32::from_ne_bytes(b)
}

/// `u64::to_ne_bytes`: the memory representation of `x` in host byte order.
#[verifier::external_body]
fn u64_to_ne_bytes(x: u64) -> (b: [u8; 8])
    ensures
        b@ == ne_bytes_u64(x),
{
    x.to_ne_bytes()
}

/// `u64::from_ne_bytes`: the integer whose host-order representation is `b`.
#[verifier::external_body]
fn u64_from_ne_bytes(b: [u8; 8]) -> (x: u64)
    ensures
        x == u64_of_ne(b@),
{
    u64::from_ne_bytes(b)
}

/// `u16::to_be`: on a little-endian host the bytes are swapped, on a
/// big-endian host the value is returned as it is.
#[verifier::external_body]
fn u16_to_be(x: u16) -> (r: u16)
    ensures
        r == to_network_order(x),
{
    x.to_be()
}

/// `u16::from_be`: on a little-endian host the bytes are swapped, on a
/// big-endian host the value is returned as it is.
#[verifier::external_body]
fn u16_from_be(x: u16) -> (r: u16)
    ensures
        r == to_network_order(x),
{
    u16::from_be(x)
}

/// Converts a port or identifier from host to network byte order.
pub fn htons(v: u16) -> (r: u16)
    ensures
        r == to_network_order(v),
{
    u16_to_be(v)
}

/// Converts a port or identifier from network to host byte order.
pub fn ntohs(v: u16) -> (r: u16)
    ensures
        r == to_network_order(v),
{
    u16_from_be(v)
}

/// Converting to network order and back gives the value unchanged, in
/// either direction.
pub proof fn lemma_htons_ntohs(v: u16)
    ensures
        to_network_order(to_network_order(v)) == v,
{
    assert(swap16(swap16(v)) == v) by (nonlinear_arith)
        requires v < 65536;
}

/// Network byte order is the value of the host's two bytes read most
/// significant first: `ntohs(x) == u16::from_be_bytes(x.to_ne_bytes())`,
/// and the same for `htons`.
pub proof fn lemma_network_order_bytes(x: u16)
    ensures
        to_network_order(x) == u16_of_be(ne_bytes_u16(x)),
{
    assert((x % 256) as u8 == x % 256 && (x / 256) as u8 == x / 256);
}

/// A value in network byte order lies in memory most significant byte
/// first, whatever the host's byte order.
pub proof fn lemma_network_order_in_memory(v: u16)
    ensures
        ne_bytes_u16(to_network_order(v)) == seq![(v / 256) as u8, (v % 256) as u8],
{
    let y = to_network_order(v);
    match endianness() {
        Endian::Little => {
            assert(y == (v % 256) * 256 + v / 256);
            assert(y % 256 == v / 256 && y / 256 == v % 256);
        },
        Endian::Big => {},
    }
    assert(ne_bytes_u16(y) =~= seq![(v / 256) as u8, (v % 256) as u8]);
}

/// Appends `x` in host byte order.
pub fn push_u16_ne(buf: &mut Vec<u8>, x: u16)
    ensures
        final(buf)@ == old(buf)@ + ne_bytes_u16(x),
{
    proof { lemma_ne_roundtrip(); }
    let b = u16_to_ne_bytes(x);
    buf.push(b[0]);
    buf.push(b[1]);
    assert(buf@ =~= old(buf)@ + ne_bytes_u16(x));
}

/// Appends `x` in host byte order.
pub fn push_u32_ne(buf: &mut Vec<u8>, x: u32)
    ensures
        final(buf)@ == old(buf)@ + ne_bytes_u32(x),
{
    proof { lemma_ne_roundtrip(); }
    let b = u32_to_ne_bytes(x);
    buf.push(b[0]);
    buf.push(b[1]);
    buf.push(b[2]);
    buf.push(b[3]);
    assert(buf@ =~= old(buf)@ + ne_bytes_u32(x));
}

/// Appends `x` in host byte order.
pub fn push_u64_ne(buf: &mut Vec<u8>, x: u64)
    ensures
        final(buf)@ == old(buf)@ + ne_bytes_u64(x),
{
    proof { lemma_ne_roundtrip(); }
    let b = u64_to_ne_bytes(x);
    let mut i: usize = 0;
    while i < 8
        invariant
            0 <= i <= 8,
            b@ == ne_bytes_u64(x),
            b@.len() == 8,
            buf@ =~= old(buf)@ + b@.take(i as int),
        decreases 8 - i,
    {
        buf.push(b[i]);
        i = i + 1;
    }
    assert(b@.take(8) =~= b@);
}

/// Appends all of `bytes`.
pub fn push_bytes(buf: &mut Vec<u8>, bytes: &[u8])
    ensures
        final(buf)@ == old(buf)@ + bytes@,
{
    let mut i: usize = 0;
    while i < bytes.len()
        invariant
            0 <= i <= bytes@.len(),
            buf@ =~= old(buf)@ + bytes@.take(i as int),
        decreases bytes@.len() - i,
    {
        buf.push(bytes[i]);
        i = i + 1;
    }
    assert(bytes@.take(bytes@.len() as int) =~= bytes@);
}

/// Reads two bytes at `off` in host byte order.
pub fn read_u16_ne(buf: &[u8], off: usize) -> (x: u16)
    requires
        off + 2 <= buf@.len(),
    ensures
        x == u16_of_ne(buf@.subrange(off as int, off + 2)),
{
    let b: [u8; 2] = [buf[off], buf[off + 1]];
    assert(b@ =~= buf@.subrange(off as int, off + 2));
    u16_from_ne_bytes(b)
}

/// Reads four bytes at `off` in host byte order.
pub fn read_u32_ne(buf: &[u8], off: usize) -> (x: u32)
    requires
        off + 4 <= buf@.len(),
    ensures
        x == u32_of_ne(buf@.subrange(off as int, off + 4)),
{
    let b: [u8; 4] = [buf[off], buf[off + 1], buf[off + 2], buf[off + 3]];
    assert(b@ =~= buf@.subrange(off as int, off + 4));
    u32_from_ne_bytes(b)
}

/// Reads eight bytes at `off` in host byte order.
pub fn read_u64_ne(buf: &[u8], off: usize) -> (x: u64)
    requires
        off + 8 <= buf@.len(),
    ensures
        x == u64_of_ne(buf@.subrange(off as int, off + 8)),
{
    let b: [u8; 8] = [
        buf[off],
        buf[off + 1],
        buf[off + 2],
        buf[off + 3],
        buf[off + 4],
        buf[off + 5],
        buf[off + 6],
        buf[off + 7],
    ];
    assert(b@ =~= buf@.subrange(off as int, off + 8));
    u64_from_ne_bytes(b)
}


/// The eight bytes of `x` in big-endian order.
pub open spec fn be_bytes_u64(x: u64) -> Seq<u8> {
    let le = spec_u64_to_le_bytes(x);
    seq![le[7], le[6], le[5], le[4], le[3], le[2], le[1], le[0]]
}

/// The value of eight bytes read in big-endian order.
pub open spec fn u64_of_be(s: Seq<u8>) -> u64 {
    spec_u64_from_le_bytes(seq![s[7], s[6], s[5], s[4], s[3], s[2], s[1], s[0]])
}

/// Encoding a value in big-endian order and reading it back gives the
/// value.
pub proof fn lemma_be_roundtrip(x: u64)
    ensures
        be_bytes_u64(x).len() == 8,
        u64_of_be(be_bytes_u64(x)) == x,
{
    lemma_auto_spec_u64_to_from_le_bytes();
    let le = spec_u64_to_le_bytes(x);
    let b = be_bytes_u64(x);
    assert(seq![b[7], b[6], b[5], b[4], b[3], b[2], b[1], b[0]] =~= le);
}

/// Big-endian order puts the most significant byte first: byte `k` of the
/// eight is `x` shifted right by `8 * (7 - k)` bits, cut to a byte.
pub proof fn lemma_be_bytes_layout(x: u64)
    ensures
        be_bytes_u64(x) == seq![
            ((x >> 56) & 0xff) as u8,
            ((x >> 48) & 0xff) as u8,
            ((x >> 40) & 0xff) as u8,
            ((x >> 32) & 0xff) as u8,
            ((x >> 24) & 0xff) as u8,
            ((x >> 16) & 0xff) as u8,
            ((x >> 8) & 0xff) as u8,
            (x & 0xff) as u8,
        ],
{
    spec_u64_to_le_bytes_to_open(x);
    assert(be_bytes_u64(x) =~= seq![
        ((x >> 56) & 0xff) as u8,
        ((x >> 48) & 0xff) as u8,
        ((x >> 40) & 0xff) as u8,
        ((x >> 32) & 0xff) as u8,
        ((x >> 24) & 0xff) as u8,
        ((x >> 16) & 0xff) as u8,
        ((x >> 8) & 0xff) as u8,
        (x & 0xff) as u8,
    ]);
}

/// The representation of `x` in big-endian order.
fn u64_to_be_bytes(x: u64) -> (b: [u8; 8])
    ensures
        b@ == be_bytes_u64(x),
{
    proof { spec_u64_to_le_bytes_to_open(x); }
    let b: [u8; 8] = [
        ((x >> 56) & 0xff) as u8,
        ((x >> 48) & 0xff) as u8,
        ((x >> 40) & 0xff) as u8,
        ((x >> 32) & 0xff) as u8,
        ((x >> 24) & 0xff) as u8,
        ((x >> 16) & 0xff) as u8,
        ((x >> 8) & 0xff) as u8,
        (x & 0xff) as u8,
    ];
    assert(b@ =~= be_bytes_u64(x));
    b
}

/// The integer whose big-endian representation is `b`.
fn u64_from_be_bytes(b: [u8; 8]) -> (x: u64)
    ensures
        x == u64_of_be(b@),
{
    let (b0, b1, b2, b3, b4, b5, b6, b7) = (b[0], b[1], b[2], b[3], b[4], b[5], b[6], b[7]);
    let x: u64 = (b0 as u64) << 56 | (b1 as u64) << 48 | (b2 as u64) << 40 | (b3 as u64) << 32
        | (b4 as u64) << 24 | (b5 as u64) << 16 | (b6 as u64) << 8 | (b7 as u64);
    proof {
        spec_u64_to_le_bytes_to_open(x);
        lemma_auto_spec_u64_to_from_le_bytes();
        assert(((x >> 56) & 0xff) as u8 == b0 && ((x >> 48) & 0xff) as u8 == b1 && ((x >> 40) & 0xff) as u8
            == b2 && ((x >> 32) & 0xff) as u8 == b3 && ((x >> 24) & 0xff) as u8 == b4 && ((x >> 16) & 0xff) as u8
            == b5 && ((x >> 8) & 0xff) as u8 == b6 && (x & 0xff) as u8 == b7) by (bit_vector)
            requires
                x == (b0 as u64) << 56 | (b1 as u64) << 48 | (b2 as u64) << 40 | (b3 as u64) << 32 | (b4 as u64)
                    << 24 | (b5 as u64) << 16 | (b6 as u64) << 8 | (b7 as u64),
        ;
        assert(spec_u64_to_le_bytes(x) =~= seq![b@[7], b@[6], b@[5], b@[4], b@[3], b@[2], b@[1], b@[0]]);
    }
    x
}

/// Appends `x` in big-endian order.
pub fn push_u64_be(buf: &mut Vec<u8>, x: u64)
    ensures
        final(buf)@ == old(buf)@ + be_bytes_u64(x),
{
    proof { lemma_be_roundtrip(x); }
    let b = u64_to_be_bytes(x);
    push_bytes(buf, b.as_slice());
}

/// Reads eight bytes at `off` in big-endian order.
pub fn read_u64_be(buf: &[u8], off: usize) -> (x: u64)
    requires
        off + 8 <= buf@.len(),
    ensures
        x == u64_of_be(buf@.subrange(off as int, off + 8)),
{
    let b: [u8; 8] = [
        buf[off],
        buf[off + 1],
        buf[off + 2],
        buf[off + 3],
        buf[off + 4],
        buf[off + 5],
        buf[off + 6],
        buf[off + 7],
    ];
    assert(b@ =~= buf@.subrange(off as int, off + 8));
    u64_from_be_bytes(b)
}

}
