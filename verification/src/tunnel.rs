//! The remote-control packet: a command or a response, padded, encrypted
//! with XChaCha20-Poly1305 under a key derived from a pre-shared key with
//! Argon2id, and framed with its salt, time stamp and nonce; and the window
//! that refuses replayed packets.

use crate::wire::{be_bytes_u64, lemma_be_roundtrip, push_bytes, push_u64_be, read_u64_be, u64_of_be};
use chacha20poly1305::aead::{Aead, KeyInit, Payload};
use rand::RngCore;
use std::collections::VecDeque;
use vstd::prelude::*;
use vstd::utf8::encode_utf8;

verus! {

/// Port the server listens on unless told otherwise.
pub const DEFAULT_SERVER_PORT: u16 = 7000;

/// Seconds by which a packet's time stamp may differ from the clock.
pub const DEFAULT_WINDOW: u32 = 30;

/// How many packets the replay window remembers.
pub const DEFAULT_REPLAY_MAX: u32 = 1024;

/// Bytes of the salt of the key derivation.
pub const SALT_LEN: usize = 16;

/// Bytes of the time stamp.
pub const TS_LEN: usize = 8;

/// Bytes of the nonce.
pub const NONCE_LEN: usize = 24;

/// Bytes of the key.
pub const KEYB: usize = 32;

/// Bytes of the authentication tag.
pub const TAG: usize = 16;

/// Largest plaintext (command or response) a packet carries.
pub const MAX_PT_SIZE: usize = 4096;

/// Largest packet.
pub const MAX_CT_SIZE: usize = SALT_LEN + TS_LEN + NONCE_LEN + MAX_PT_SIZE + TAG;

/// Smallest packet: the header and the tag of an empty plaintext.
pub const MIN_LEN: usize = SALT_LEN + TS_LEN + NONCE_LEN + TAG;

/// Bytes before the ciphertext: salt, time stamp, nonce.
pub const HEADER_LEN: usize = SALT_LEN + TS_LEN + NONCE_LEN;

/// Passes of the key derivation.
pub const KDF_T_COST: u32 = 2;

/// Lanes of the key derivation.
pub const KDF_P_COST: u32 = 1;

/// Memory of the key derivation, in bytes, unless the environment sets it.
pub const DEFAULT_PWHASH_MEMLIMIT: usize = 67108864;

#[verifier::external_type_specification]
#[verifier::external_body]
pub struct ExArgon2Error(argon2::Error);

#[verifier::external_type_specification]
#[verifier::external_body]
pub struct ExAeadError(chacha20poly1305::Error);

/// The output of Argon2id (version 0x13) over password `pwd` and `salt`,
/// with `m_cost` KiB of memory, `t_cost` passes, `p_cost` lanes and
/// `out_len` bytes of output.
pub uninterp spec fn argon2id_output(
    pwd: Seq<u8>,
    salt: Seq<u8>,
    m_cost: u32,
    t_cost: u32,
    p_cost: u32,
    out_len: nat,
) -> Seq<u8>;

/// The inputs that Argon2 accepts: at least 8 KiB of memory and 8 KiB per
/// lane, at least one pass, 1 to 2^24 - 1 lanes, 4 to 2^32 - 1 bytes of
/// output, a password below 2^32 bytes and a salt of 8 to 2^32 - 1 bytes.
pub open spec fn argon2_accepts(
    pwd_len: nat,
    salt_len: nat,
    m_cost: u32,
    t_cost: u32,
    p_cost: u32,
    out_len: nat,
) -> bool {
    &&& m_cost >= 8
    &&& m_cost >= 8 * p_cost
    &&& t_cost >= 1
    &&& 1 <= p_cost <= 0xFF_FFFF
    &&& 4 <= out_len <= 0xFFFF_FFFF
    &&& pwd_len <= 0xFFFF_FFFF
    &&& 8 <= salt_len <= 0xFFFF_FFFF
}

/// `argon2::Params::new` and `Argon2::hash_password_into` with Argon2id,
/// version 0x13: fills `out` with the derived bytes. It succeeds exactly
/// on the inputs that `argon2_accepts` describes, and then `out` holds the
/// named output; otherwise `out` is left as it was. The computation
/// allocates `m_cost` KiB, and where that memory cannot be had the process
/// aborts; that is not stated here.
#[verifier::external_body]
fn argon2id_hash_into(
    pwd: &[u8],
    salt: &[u8],
    m_cost: u32,
    t_cost: u32,
    p_cost: u32,
    out: &mut [u8; 32],
) -> (r: Result<(), argon2::Error>)
    requires
        p_cost <= 0x1FFF_FFFF,
    ensures
        r is Ok <==> argon2_accepts(pwd@.len(), salt@.len(), m_cost, t_cost, p_cost, old(out)@.len()),
        r is Ok ==> final(out)@ == argon2id_output(pwd@, salt@, m_cost, t_cost, p_cost, old(out)@.len()),
        r is Err ==> final(out)@ == old(out)@,
{
    let params = argon2::Params::new(m_cost, t_cost, p_cost, Some(out.len()))?;
    argon2::Argon2::new(argon2::Algorithm::Argon2id, argon2::Version::V0x13, params)
        .hash_password_into(pwd, salt, out.as_mut_slice())
}

/// The ciphertext (with its tag appended) that XChaCha20-Poly1305 gives
/// for `msg` under `key`, `nonce` and associated data `aad`.
pub uninterp spec fn xchacha_seal(key: Seq<u8>, nonce: Seq<u8>, aad: Seq<u8>, msg: Seq<u8>) -> Seq<u8>;

/// The plaintext that XChaCha20-Poly1305 recovers from `ct` under `key`,
/// `nonce` and associated data `aad`, or `None` where the tag does not
/// authenticate it.
pub uninterp spec fn xchacha_open(key: Seq<u8>, nonce: Seq<u8>, aad: Seq<u8>, ct: Seq<u8>) -> Option<
    Seq<u8>,
>;

/// `XChaCha20Poly1305::new` and `Aead::encrypt`: encrypts `msg` and appends
/// the 16-byte tag. It fails only for a message of 2^32 - 1 blocks of 64
/// bytes or more. As for any AEAD, decrypting the result under the same
/// key, nonce and associated data gives the message back.
#[verifier::external_body]
fn xchacha_encrypt(key: &[u8; 32], nonce: &[u8; 24], aad: &[u8], msg: &[u8]) -> (r: Result<
    Vec<u8>,
    chacha20poly1305::Error,
>)
    ensures
        r is Ok <==> msg@.len() / 64 < 0xFFFF_FFFF,
        r matches Ok(ct) ==> {
            &&& ct@ == xchacha_seal(key@, nonce@, aad@, msg@)
            &&& ct@.len() == msg@.len() + 16
            &&& xchacha_open(key@, nonce@, aad@, ct@) == Some(msg@)
        },
{
    let cipher = chacha20poly1305::XChaCha20Poly1305::new(chacha20poly1305::Key::from_slice(key));
    cipher.encrypt(chacha20poly1305::XNonce::from_slice(nonce), Payload { msg, aad })
}

/// `XChaCha20Poly1305::new` and `Aead::decrypt`: checks the tag at the end
/// of `ct` and decrypts the rest. A ciphertext shorter than the tag is
/// refused.
#[verifier::external_body]
fn xchacha_decrypt(key: &[u8; 32], nonce: &[u8; 24], aad: &[u8], ct: &[u8]) -> (r: Result<
    Vec<u8>,
    chacha20poly1305::Error,
>)
    ensures
        match r {
            Ok(pt) => xchacha_open(key@, nonce@, aad@, ct@) == Some(pt@),
            Err(_) => xchacha_open(key@, nonce@, aad@, ct@) is None,
        },
        ct@.len() < 16 ==> r is Err,
{
    let cipher = chacha20poly1305::XChaCha20Poly1305::new(chacha20poly1305::Key::from_slice(key));
    cipher.decrypt(chacha20poly1305::XNonce::from_slice(nonce), Payload { msg: ct, aad })
}

/// `RngCore::fill_bytes` on the thread's random number generator: fills
/// `buf` with random bytes.
#[verifier::external_body]
fn fill_random<const N: usize>(buf: &mut [u8; N]) {
    rand::thread_rng().fill_bytes(buf)
}

/// `rand::random::<u8>`: a random byte.
#[verifier::external_body]
pub(crate) fn random_byte() -> u8 {
    rand::random::<u8>()
}

/// `SystemTime::elapsed` on `UNIX_EPOCH`: the time since 1970 in whole
/// seconds, zero for a clock set before 1970. Nothing is stated of it: it
/// is the clock.
#[verifier::external_body]
fn seconds_since_epoch() -> u64 {
    match std::time::UNIX_EPOCH.elapsed() {
        Ok(d) => d.as_secs(),
        Err(_) => 0,
    }
}

/// The current time in seconds since 1970.
pub fn current_unix_time() -> i64 {
    let s = seconds_since_epoch();
    s as i64
}

/// Why a packet could not be made or was refused.
#[derive(Clone, Copy, Debug, PartialEq, Eq)]
pub enum TunnelError {
    /// The salt given to the key derivation is not 16 bytes long.
    InvalidSaltLength,
    /// The memory limit is too small for the key derivation.
    KdfParams(argon2::Error),
    /// The key derivation refused the pre-shared key or the salt.
    KdfDerive(argon2::Error),
    /// The plaintext is too long to encrypt.
    Encrypt(chacha20poly1305::Error),
    /// The packet is shorter than a header and a tag.
    ShortPacket,
    /// The packet is not authentic under the pre-shared key.
    DecryptAuth,
    /// The packet is outside the time window or was seen before.
    Replay,
}

/// The memory cost, in KiB, of a memory limit given in bytes (cut to 32 bits).
pub open spec fn kdf_m_cost(memlimit: usize) -> u32 {
    (memlimit / 1024) as u32
}

/// Whether the key derivation succeeds for a pre-shared key of `psk_len`
/// bytes under `memlimit` with a 16-byte salt.
pub open spec fn kdf_ok(psk_len: nat, memlimit: usize) -> bool {
    argon2_accepts(psk_len, 16, kdf_m_cost(memlimit), 2, 1, 32)
}

/// The key that pre-shared key `psk` and `salt` give under `memlimit`.
pub open spec fn packet_key(psk: Seq<u8>, salt: Seq<u8>, memlimit: usize) -> Seq<u8> {
    argon2id_output(psk, salt, kdf_m_cost(memlimit), 2, 1, 32)
}

/// The key of the protocol: Argon2id (version 0x13) over the pre-shared
/// key and the 16-byte salt, with the memory limit in KiB, two passes, one
/// lane and 32 bytes of output; it can be derived exactly where Argon2
/// accepts those parameters.
pub proof fn lemma_packet_key_parameters(psk: Seq<u8>, salt: Seq<u8>, memlimit: usize)
    ensures
        packet_key(psk, salt, memlimit) == argon2id_output(psk, salt, (memlimit / 1024) as u32, 2, 1, 32),
        kdf_ok(psk.len(), memlimit) == argon2_accepts(psk.len(), 16, (memlimit / 1024) as u32, 2, 1, 32),
{
}

/// Derives the packet key from the pre-shared key and a 16-byte salt, with
/// two passes, one lane and `memlimit` bytes of memory.
pub fn psk2key(psk: &str, salt: &[u8], memlimit: usize) -> (r: Result<[u8; 32], TunnelError>)
    ensures
        salt@.len() != 16 ==> r == Err::<[u8; 32], TunnelError>(TunnelError::InvalidSaltLength),
        salt@.len() == 16 && kdf_m_cost(memlimit) < 8 ==> r matches Err(TunnelError::KdfParams(_)),
        salt@.len() == 16 && kdf_m_cost(memlimit) >= 8 && !kdf_ok(encode_utf8(psk@).len(), memlimit)
            ==> r matches Err(TunnelError::KdfDerive(_)),
        salt@.len() == 16 && kdf_ok(encode_utf8(psk@).len(), memlimit) ==> (r matches Ok(k) && k@
            == packet_key(encode_utf8(psk@), salt@, memlimit)),
        salt@.len() == 16 && kdf_ok(encode_utf8(psk@).len(), memlimit) ==> (r matches Ok(k) && k@
            == argon2id_output(encode_utf8(psk@), salt@, (memlimit / 1024) as u32, 2, 1, 32)),
        r is Ok <==> salt@.len() == 16 && argon2_accepts(
            encode_utf8(psk@).len(),
            16,
            (memlimit / 1024) as u32,
            2,
            1,
            32,
        ),
{
    if salt.len() != SALT_LEN {
        return Err(TunnelError::InvalidSaltLength);
    }
    let m_cost = (memlimit / 1024) as u32;
    let mut key: [u8; 32] = [0; 32];
    match argon2id_hash_into(psk.as_bytes(), salt, m_cost, KDF_T_COST, KDF_P_COST, &mut key) {
        Ok(()) => Ok(key),
        Err(e) => if m_cost < 8 {
            Err(TunnelError::KdfParams(e))
        } else {
            Err(TunnelError::KdfDerive(e))
        },
    }
}


/// The associated data of a packet: its salt and its time stamp.
pub open spec fn packet_aad(salt: Seq<u8>, ts: i64) -> Seq<u8> {
    salt + be_bytes_u64(ts as u64)
}

/// The packet that carries `msg`: the salt, the time stamp (big endian),
/// the nonce, and the ciphertext under the key that the pre-shared key and
/// the salt give, authenticated together with salt and time stamp.
pub open spec fn sealed_packet(
    psk: Seq<u8>,
    memlimit: usize,
    salt: Seq<u8>,
    ts: i64,
    nonce: Seq<u8>,
    msg: Seq<u8>,
) -> Seq<u8> {
    salt + be_bytes_u64(ts as u64) + nonce + xchacha_seal(
        packet_key(psk, salt, memlimit),
        nonce,
        packet_aad(salt, ts),
        msg,
    )
}

/// The salt of a packet.
pub open spec fn packet_salt(p: Seq<u8>) -> Seq<u8> {
    p.subrange(0, 16)
}

/// The time stamp of a packet.
pub open spec fn packet_ts(p: Seq<u8>) -> i64 {
    u64_of_be(p.subrange(16, 24)) as i64
}

/// The nonce of a packet.
pub open spec fn packet_nonce(p: Seq<u8>) -> Seq<u8> {
    p.subrange(24, 48)
}

/// The ciphertext of a packet.
pub open spec fn packet_ct(p: Seq<u8>) -> Seq<u8> {
    p.subrange(48, p.len() as int)
}

/// The layout of a packet: bytes 0..16 are the salt, 16..24 the time stamp
/// in big-endian order, 24..48 the nonce, and the rest the ciphertext of
/// the message under the key that Argon2id derives (two passes, one lane,
/// 32 bytes), authenticated together with the first 24 bytes; and reading
/// the header back gives the salt, the time stamp and the nonce.
pub proof fn lemma_sealed_packet_layout(
    psk: Seq<u8>,
    memlimit: usize,
    salt: Seq<u8>,
    ts: i64,
    nonce: Seq<u8>,
    msg: Seq<u8>,
)
    requires
        salt.len() == 16,
        nonce.len() == 24,
    ensures
        ({
            let p = sealed_packet(psk, memlimit, salt, ts, nonce, msg);
            &&& p.subrange(0, 16) == salt
            &&& p.subrange(16, 24) == be_bytes_u64(ts as u64)
            &&& p.subrange(24, 48) == nonce
            &&& p.subrange(48, p.len() as int) == xchacha_seal(
                argon2id_output(psk, salt, (memlimit / 1024) as u32, 2, 1, 32),
                nonce,
                p.subrange(0, 24),
                msg,
            )
            &&& packet_salt(p) == salt
            &&& packet_ts(p) == ts
            &&& packet_nonce(p) == nonce
        }),
{
    lemma_be_roundtrip(ts as u64);
    let p = sealed_packet(psk, memlimit, salt, ts, nonce, msg);
    let tb = be_bytes_u64(ts as u64);
    assert(p.subrange(0, 16) =~= salt);
    assert(p.subrange(16, 24) =~= tb);
    assert(p.subrange(24, 48) =~= nonce);
    assert(p.subrange(0, 24) =~= packet_aad(salt, ts));
    assert(p.subrange(48, p.len() as int) =~= xchacha_seal(
        packet_key(psk, salt, memlimit),
        nonce,
        packet_aad(salt, ts),
        msg,
    ));
    assert((ts as u64) as i64 == ts) by (bit_vector);
}

/// What a packet opens to under the pre-shared key: its plaintext, nonce
/// and time stamp, or `None` where it is not authentic. (For packets at
/// least as long as a header and a tag, and a key derivation that
/// succeeds.)
pub open spec fn open_packet(psk: Seq<u8>, memlimit: usize, p: Seq<u8>) -> Option<(Seq<u8>, Seq<u8>, i64)> {
    match xchacha_open(
        packet_key(psk, packet_salt(p), memlimit),
        packet_nonce(p),
        p.subrange(0, 24),
        packet_ct(p),
    ) {
        Some(pt) => Some((pt, packet_nonce(p), packet_ts(p))),
        None => None,
    }
}

/// Reading the header back from a sealed packet gives what went in.
proof fn lemma_sealed_header(salt: Seq<u8>, ts: i64, nonce: Seq<u8>, ct: Seq<u8>)
    requires
        salt.len() == 16,
        nonce.len() == 24,
    ensures
        ({
            let p = salt + be_bytes_u64(ts as u64) + nonce + ct;
            &&& p.len() == 48 + ct.len()
            &&& packet_salt(p) == salt
            &&& p.subrange(0, 24) == packet_aad(salt, ts)
            &&& packet_ts(p) == ts
            &&& packet_nonce(p) == nonce
            &&& packet_ct(p) == ct
        }),
{
    lemma_be_roundtrip(ts as u64);
    let b = be_bytes_u64(ts as u64);
    let p = salt + b + nonce + ct;
    assert(packet_salt(p) =~= salt);
    assert(p.subrange(0, 24) =~= salt + b);
    assert(p.subrange(16, 24) =~= b);
    assert(packet_nonce(p) =~= nonce);
    assert(packet_ct(p) =~= ct);
    let t = ts;
    assert((t as u64) as i64 == t) by (bit_vector);
}

/// Builds the packet that carries `payload` with the given salt, nonce and
/// time stamp. Opening the packet gives back the payload, the nonce and
/// the time stamp.
pub fn seal_packet(
    psk: &str,
    payload: &[u8],
    memlimit: usize,
    salt: &[u8; 16],
    nonce: &[u8; 24],
    ts: i64,
) -> (r: Result<Vec<u8>, TunnelError>)
    ensures
        kdf_m_cost(memlimit) < 8 ==> r matches Err(TunnelError::KdfParams(_)),
        kdf_m_cost(memlimit) >= 8 && !kdf_ok(encode_utf8(psk@).len(), memlimit) ==> r matches Err(
            TunnelError::KdfDerive(_),
        ),
        kdf_ok(encode_utf8(psk@).len(), memlimit) && payload@.len() / 64 >= 0xFFFF_FFFF ==> r matches Err(
            TunnelError::Encrypt(_),
        ),
        kdf_ok(encode_utf8(psk@).len(), memlimit) && payload@.len() / 64 < 0xFFFF_FFFF ==> (r matches Ok(p)
            && p@ == sealed_packet(encode_utf8(psk@), memlimit, salt@, ts, nonce@, payload@)),
        r matches Ok(p) ==> p@.len() == HEADER_LEN + payload@.len() + TAG && open_packet(
            encode_utf8(psk@),
            memlimit,
            p@,
        ) == Some((payload@, nonce@, ts)),
{
    let key = psk2key(psk, salt.as_slice(), memlimit)?;
    let mut aad: Vec<u8> = Vec::new();
    push_bytes(&mut aad, salt.as_slice());
    push_u64_be(&mut aad, ts as u64);
    let ct = match xchacha_encrypt(&key, nonce, aad.as_slice(), payload) {
        Ok(ct) => ct,
        Err(e) => {
            return Err(TunnelError::Encrypt(e));
        },
    };
    let mut packet: Vec<u8> = Vec::new();
    push_bytes(&mut packet, salt.as_slice());
    push_u64_be(&mut packet, ts as u64);
    push_bytes(&mut packet, nonce.as_slice());
    push_bytes(&mut packet, ct.as_slice());
    proof {
        lemma_sealed_header(salt@, ts, nonce@, ct@);
        assert(aad@ == packet_aad(salt@, ts));
        assert(packet@ =~= salt@ + be_bytes_u64(ts as u64) + nonce@ + ct@);
    }
    Ok(packet)
}

/// Builds the packet that carries `payload`, with a fresh random salt and
/// nonce and the current time as its time stamp; gives the packet, its
/// nonce and its time stamp. Opening the packet gives back the payload.
pub fn encrypt_packet(psk: &str, payload: &[u8], memlimit: usize) -> (r: Result<
    (Vec<u8>, [u8; 24], i64),
    TunnelError,
>)
    ensures
        kdf_m_cost(memlimit) < 8 ==> r matches Err(TunnelError::KdfParams(_)),
        kdf_m_cost(memlimit) >= 8 && !kdf_ok(encode_utf8(psk@).len(), memlimit) ==> r matches Err(
            TunnelError::KdfDerive(_),
        ),
        kdf_ok(encode_utf8(psk@).len(), memlimit) && payload@.len() / 64 >= 0xFFFF_FFFF ==> r matches Err(
            TunnelError::Encrypt(_),
        ),
        kdf_ok(encode_utf8(psk@).len(), memlimit) && payload@.len() / 64 < 0xFFFF_FFFF ==> r is Ok,
        r matches Ok((p, nonce, ts)) ==> {
            &&& p@ == sealed_packet(encode_utf8(psk@), memlimit, packet_salt(p@), ts, nonce@, payload@)
            &&& p@.len() == HEADER_LEN + payload@.len() + TAG
            &&& open_packet(encode_utf8(psk@), memlimit, p@) == Some((payload@, nonce@, ts))
        },
{
    let ts = current_unix_time();
    let mut salt: [u8; 16] = [0; 16];
    let mut nonce: [u8; 24] = [0; 24];
    fill_random(&mut salt);
    fill_random(&mut nonce);
    let p = seal_packet(psk, payload, memlimit, &salt, &nonce, ts)?;
    proof {
        lemma_sealed_header(
            salt@,
            ts,
            nonce@,
            xchacha_seal(packet_key(encode_utf8(psk@), salt@, memlimit), nonce@, packet_aad(salt@, ts), payload@),
        );
    }
    Ok((p, nonce, ts))
}

/// The header and ciphertext of a packet.
pub struct PacketParts {
    pub salt: [u8; 16],
    pub ts: i64,
    pub nonce: [u8; 24],
    /// Salt and time stamp as they stand in the packet.
    pub aad: Vec<u8>,
    pub ct: Vec<u8>,
}

/// Takes a packet at least as long as a header and a tag apart.
pub fn packet_parts(pkt: &[u8]) -> (r: PacketParts)
    requires
        pkt@.len() >= MIN_LEN,
    ensures
        r.salt@ == packet_salt(pkt@),
        r.ts == packet_ts(pkt@),
        r.nonce@ == packet_nonce(pkt@),
        r.aad@ == pkt@.subrange(0, 24),
        r.ct@ == packet_ct(pkt@),
{
    let mut salt: [u8; 16] = [0; 16];
    let mut i: usize = 0;
    while i < 16
        invariant
            0 <= i <= 16,
            pkt@.len() >= MIN_LEN,
            forall|j: int| 0 <= j < i ==> salt@[j] == pkt@[j],
        decreases 16 - i,
    {
        salt[i] = pkt[i];
        i = i + 1;
    }
    assert(salt@ =~= packet_salt(pkt@));
    let ts = read_u64_be(pkt, 16) as i64;
    let mut nonce: [u8; 24] = [0; 24];
    let mut k: usize = 0;
    while k < 24
        invariant
            0 <= k <= 24,
            pkt@.len() >= MIN_LEN,
            forall|j: int| 0 <= j < k ==> nonce@[j] == pkt@[24 + j],
        decreases 24 - k,
    {
        nonce[k] = pkt[24 + k];
        k = k + 1;
    }
    assert(nonce@ =~= packet_nonce(pkt@));
    let mut aad: Vec<u8> = Vec::new();
    let mut a: usize = 0;
    while a < 24
        invariant
            0 <= a <= 24,
            pkt@.len() >= MIN_LEN,
            aad@ == pkt@.subrange(0, a as int),
        decreases 24 - a,
    {
        aad.push(pkt[a]);
        assert(aad@ =~= pkt@.subrange(0, a + 1));
        a = a + 1;
    }
    let mut ct: Vec<u8> = Vec::new();
    let mut c: usize = 48;
    while c < pkt.len()
        invariant
            48 <= c <= pkt@.len(),
            ct@ == pkt@.subrange(48, c as int),
        decreases pkt@.len() - c,
    {
        ct.push(pkt[c]);
        assert(ct@ =~= pkt@.subrange(48, c + 1));
        c = c + 1;
    }
    PacketParts { salt, ts, nonce, aad, ct }
}

/// What the parts of a packet open to under the pre-shared key.
pub open spec fn open_parts_spec(psk: Seq<u8>, memlimit: usize, salt: Seq<u8>, nonce: Seq<u8>, aad: Seq<u8>, ct: Seq<u8>) -> Option<Seq<u8>> {
    xchacha_open(packet_key(psk, salt, memlimit), nonce, aad, ct)
}

/// Derives the key from the packet's salt and decrypts the ciphertext.
pub fn open_parts(psk: &str, parts: &PacketParts, memlimit: usize) -> (r: Result<Vec<u8>, TunnelError>)
    ensures
        kdf_m_cost(memlimit) < 8 ==> r matches Err(TunnelError::KdfParams(_)),
        kdf_m_cost(memlimit) >= 8 && !kdf_ok(encode_utf8(psk@).len(), memlimit) ==> r matches Err(
            TunnelError::KdfDerive(_),
        ),
        kdf_ok(encode_utf8(psk@).len(), memlimit) ==> match open_parts_spec(
            encode_utf8(psk@),
            memlimit,
            parts.salt@,
            parts.nonce@,
            parts.aad@,
            parts.ct@,
        ) {
            Some(pt) => r matches Ok(p) && p@ == pt,
            None => r == Err::<Vec<u8>, TunnelError>(TunnelError::DecryptAuth),
        },
{
    let key = psk2key(psk, parts.salt.as_slice(), memlimit)?;
    match xchacha_decrypt(&key, &parts.nonce, parts.aad.as_slice(), parts.ct.as_slice()) {
        Ok(pt) => Ok(pt),
        Err(_) => Err(TunnelError::DecryptAuth),
    }
}

/// Opens a packet: gives its plaintext, nonce and time stamp. A packet
/// shorter than a header and a tag is refused, and so is one that is not
/// authentic under the pre-shared key.
pub fn decrypt_packet(psk: &str, pkt_in: &[u8], memlimit: usize) -> (r: Result<
    (Vec<u8>, [u8; 24], i64),
    TunnelError,
>)
    ensures
        pkt_in@.len() < MIN_LEN ==> r == Err::<(Vec<u8>, [u8; 24], i64), TunnelError>(
            TunnelError::ShortPacket,
        ),
        pkt_in@.len() >= MIN_LEN && kdf_m_cost(memlimit) < 8 ==> r matches Err(TunnelError::KdfParams(_)),
        pkt_in@.len() >= MIN_LEN && kdf_m_cost(memlimit) >= 8 && !kdf_ok(encode_utf8(psk@).len(), memlimit)
            ==> r matches Err(TunnelError::KdfDerive(_)),
        pkt_in@.len() >= MIN_LEN && kdf_ok(encode_utf8(psk@).len(), memlimit) ==> match open_packet(
            encode_utf8(psk@),
            memlimit,
            pkt_in@,
        ) {
            Some((pt, nonce, ts)) => r matches Ok((p, n, t)) && p@ == pt && n@ == nonce && t == ts,
            None => r == Err::<(Vec<u8>, [u8; 24], i64), TunnelError>(TunnelError::DecryptAuth),
        },
{
    if pkt_in.len() < MIN_LEN {
        return Err(TunnelError::ShortPacket);
    }
    let parts = packet_parts(pkt_in);
    let pt = open_parts(psk, &parts, memlimit)?;
    Ok((pt, parts.nonce, parts.ts))
}

/// A packet that the replay window remembers.
#[derive(Clone, Copy, Debug, PartialEq, Eq)]
pub struct ReplayEntry {
    pub ts: i64,
    pub nonce: [u8; 24],
}

/// The packets seen lately: those whose time stamp is within `window`
/// seconds of the clock, at most `max_size` of them.
#[derive(Debug)]
pub struct ReplayWindow {
    window: u32,
    max_size: u32,
    entries: VecDeque<ReplayEntry>,
}

/// The state of a replay window.
pub struct ReplayWindowV {
    pub window: u32,
    pub max_size: u32,
    /// Oldest first.
    pub entries: Seq<ReplayEntry>,
}

impl View for ReplayWindow {
    type V = ReplayWindowV;

    closed spec fn view(&self) -> ReplayWindowV {
        ReplayWindowV { window: self.window, max_size: self.max_size, entries: self.entries@ }
    }
}

/// Whether time stamp `ts` is within `window` seconds of `now`, either way.
pub open spec fn in_window(now: i64, ts: i64, window: u32) -> bool {
    -(window as int) <= now - ts <= window as int
}

/// Whether an entry is still within the window at `now`.
pub open spec fn still_fresh(e: ReplayEntry, now: i64, window: u32) -> bool {
    e.ts + window >= now
}

/// Whether the window remembers a packet with this time stamp and nonce.
pub open spec fn seen(entries: Seq<ReplayEntry>, ts: i64, nonce: Seq<u8>) -> bool {
    exists|i: int| 0 <= i < entries.len() && #[trigger] entries[i].ts == ts && entries[i].nonce@ == nonce
}

/// What checking a packet does at time `now`: one outside the window is
/// refused and changes nothing; otherwise the entries no longer in the
/// window are forgotten and the packet is accepted unless it is
/// remembered.
pub open spec fn spec_replay_check(w: ReplayWindowV, now: i64, ts: i64, nonce: Seq<u8>) -> (bool, ReplayWindowV) {
    if !in_window(now, ts, w.window) {
        (false, w)
    } else {
        let kept = w.entries.filter(|e: ReplayEntry| still_fresh(e, now, w.window));
        (!seen(kept, ts, nonce), ReplayWindowV { entries: kept, ..w })
    }
}

/// The last `max` elements of `s` (all of them if there are fewer).
pub open spec fn keep_last(s: Seq<ReplayEntry>, max: u32) -> Seq<ReplayEntry> {
    if s.len() > max {
        s.subrange(s.len() - max, s.len() as int)
    } else {
        s
    }
}

/// What remembering a packet does: it is added as the newest entry, and
/// the oldest entries beyond `max_size` are forgotten.
pub open spec fn spec_replay_add(w: ReplayWindowV, ts: i64, nonce: [u8; 24]) -> ReplayWindowV {
    ReplayWindowV { entries: keep_last(w.entries.push(ReplayEntry { ts, nonce }), w.max_size), ..w }
}

/// Whether two nonces are equal.
fn same_nonce(a: &[u8; 24], b: &[u8; 24]) -> (r: bool)
    ensures
        r == (a@ == b@),
{
    let mut i: usize = 0;
    while i < 24
        invariant
            0 <= i <= 24,
            forall|j: int| 0 <= j < i ==> a@[j] == b@[j],
        decreases 24 - i,
    {
        if a[i] != b[i] {
            return false;
        }
        i = i + 1;
    }
    assert(a@ =~= b@);
    true
}

impl ReplayWindow {
    /// An empty window of `window` seconds remembering at most `max_size`
    /// packets.
    pub fn new(window: u32, max_size: u32) -> (r: Self)
        ensures
            r@ == (ReplayWindowV { window, max_size, entries: seq![] }),
    {
        ReplayWindow { window, max_size, entries: VecDeque::new() }
    }

    /// An empty window of `window` seconds remembering at most `max_size`
    /// packets.
    pub fn init(window: u32, max_size: u32) -> (r: Self)
        ensures
            r@ == (ReplayWindowV { window, max_size, entries: seq![] }),
    {
        Self::new(window, max_size)
    }

    /// Checks a packet with time stamp `ts` and nonce `nonce` at time `now`:
    /// `true` where it may be accepted.
    pub fn replay_check_at(&mut self, now: i64, ts: i64, nonce: &[u8; 24]) -> (r: bool)
        ensures
            (r, final(self)@) == spec_replay_check(old(self)@, now, ts, nonce@),
            final(self)@.entries.len() <= old(self)@.entries.len(),
    {
        let d: i128 = now as i128 - ts as i128;
        let dist: i128 = if d < 0 { -d } else { d };
        if dist > self.window as i128 {
            return false;
        }
        let ghost pred = |e: ReplayEntry| still_fresh(e, now, self.window);
        let ghost old_entries = self.entries@;
        let mut kept: VecDeque<ReplayEntry> = VecDeque::new();
        let mut i: usize = 0;
        while i < self.entries.len()
            invariant
                i <= old_entries.len(),
                self.entries@ == old_entries,
                pred == (|e: ReplayEntry| still_fresh(e, now, self.window)),
                kept@ == old_entries.take(i as int).filter(pred),
                kept@.len() <= i,
            decreases old_entries.len() - i,
        {
            let e = self.entries[i];
            proof {
                assert(old_entries.take(i + 1) =~= old_entries.take(i as int).push(e));
                old_entries.take(i as int).lemma_filter_push(e, pred);
            }
            if e.ts as i128 + self.window as i128 >= now as i128 {
                kept.push_back(e);
            }
            i = i + 1;
        }
        assert(old_entries.take(old_entries.len() as int) =~= old_entries);
        self.entries = kept;
        proof {
            old_entries.lemma_filter_len(pred);
        }
        let mut j: usize = 0;
        while j < self.entries.len()
            invariant
                self.window == old(self).window,
                self.max_size == old(self).max_size,
                old_entries == old(self)@.entries,
                self.entries@ == old_entries.filter(pred),
                pred == (|e: ReplayEntry| still_fresh(e, now, self.window)),
                in_window(now, ts, self.window),
                self.entries@.len() <= old_entries.len(),
                j <= self.entries@.len(),
                forall|k: int| 0 <= k < j ==> !(self.entries@[k].ts == ts && self.entries@[k].nonce@ == nonce@),
            decreases self.entries@.len() - j,
        {
            let e = self.entries[j];
            if e.ts == ts && same_nonce(&e.nonce, nonce) {
                return false;
            }
            j = j + 1;
        }
        true
    }

    /// Checks a packet with time stamp `ts` and nonce `nonce` against the
    /// current time: `true` where it may be accepted.
    pub fn replay_check(&mut self, ts: i64, nonce: &[u8; 24]) -> (r: bool)
        ensures
            exists|now: i64| (r, final(self)@) == #[trigger] spec_replay_check(old(self)@, now, ts, nonce@),
    {
        let now = current_unix_time();
        let r = self.replay_check_at(now, ts, nonce);
        assert((r, self@) == spec_replay_check(old(self)@, now, ts, nonce@));
        r
    }

    /// Remembers a packet with time stamp `ts` and nonce `nonce`.
    pub fn replay_add(&mut self, ts: i64, nonce: &[u8; 24])
        ensures
            final(self)@ == spec_replay_add(old(self)@, ts, *nonce),
            final(self)@.entries.len() <= final(self)@.max_size,
    {
        let e = ReplayEntry { ts, nonce: *nonce };
        let ghost s = self.entries@.push(e);
        self.entries.push_back(e);
        while self.entries.len() > self.max_size as usize
            invariant
                self.window == old(self).window,
                self.max_size == old(self).max_size,
                s == old(self)@.entries.push(ReplayEntry { ts, nonce: *nonce }),
                self.entries@.len() <= s.len(),
                self.entries@ == s.subrange(s.len() - self.entries@.len(), s.len() as int),
                self.entries@.len() >= self.max_size || self.entries@ == s,
            decreases self.entries@.len(),
        {
            let _ = self.entries.pop_front();
        }
        assert(self.entries@ =~= keep_last(s, self.max_size));
    }
}

/// Whether the window remembers the packet with time stamp `ts` and nonce
/// `nonce` among its newest `k` entries.
pub open spec fn remembered_within(entries: Seq<ReplayEntry>, ts: i64, nonce: Seq<u8>, k: nat) -> bool {
    exists|i: int|
        0 <= i < entries.len() && entries.len() - i <= k && #[trigger] entries[i].ts == ts && entries[i].nonce@
            == nonce
}

/// An element that the filter keeps stays, and no more elements follow it
/// than followed it before.
proof fn lemma_filter_position(s: Seq<ReplayEntry>, pred: spec_fn(ReplayEntry) -> bool, i: int) -> (j: int)
    requires
        0 <= i < s.len(),
        pred(s[i]),
    ensures
        0 <= j < s.filter(pred).len(),
        s.filter(pred)[j] == s[i],
        s.filter(pred).len() - j <= s.len() - i,
    decreases s.len(),
{
    let d = s.drop_last();
    assert(s =~= d.push(s.last()));
    d.lemma_filter_push(s.last(), pred);
    if i == s.len() - 1 {
        s.filter(pred).len() - 1
    } else {
        let j = lemma_filter_position(d, pred, i);
        assert(d[i] == s[i]);
        j
    }
}

/// A packet that the window remembers is refused at any time: outside the
/// window by its time stamp, inside it because its entry is still fresh.
pub proof fn lemma_remembered_refused(w: ReplayWindowV, now: i64, ts: i64, nonce: Seq<u8>, k: nat)
    requires
        remembered_within(w.entries, ts, nonce, k),
    ensures
        !spec_replay_check(w, now, ts, nonce).0,
{
    if in_window(now, ts, w.window) {
        let i = choose|i: int|
            0 <= i < w.entries.len() && w.entries.len() - i <= k && #[trigger] w.entries[i].ts == ts
                && w.entries[i].nonce@ == nonce;
        let pred = |e: ReplayEntry| still_fresh(e, now, w.window);
        assert(pred(w.entries[i]));
        let j = lemma_filter_position(w.entries, pred, i);
        let kept = w.entries.filter(pred);
        assert(kept[j].ts == ts && kept[j].nonce@ == nonce);
        assert(seen(kept, ts, nonce));
    }
}

/// Remembering a packet puts it among the newest entry, as long as the
/// window remembers anything.
pub proof fn lemma_add_remembers(w: ReplayWindowV, ts: i64, nonce: [u8; 24])
    requires
        w.max_size >= 1,
    ensures
        remembered_within(spec_replay_add(w, ts, nonce).entries, ts, nonce@, 1),
        spec_replay_add(w, ts, nonce).window == w.window,
        spec_replay_add(w, ts, nonce).max_size == w.max_size,
{
    let e = spec_replay_add(w, ts, nonce).entries;
    let s = w.entries.push(ReplayEntry { ts, nonce });
    assert(s[s.len() - 1] == ReplayEntry { ts, nonce });
    if s.len() > w.max_size {
        assert(e.len() == w.max_size);
        assert(e[e.len() - 1] == s[s.len() - 1]);
    } else {
        assert(e == s);
    }
    let i = e.len() - 1;
    assert(e[i].ts == ts && e[i].nonce@ == nonce@);
    assert(0 <= i < e.len() && e.len() - i <= 1);
}

/// Remembering another packet moves a remembered one back by one entry;
/// it stays while it is among the newest `max_size`.
pub proof fn lemma_add_keeps(w: ReplayWindowV, ts2: i64, nonce2: [u8; 24], ts: i64, nonce: Seq<u8>, k: nat)
    requires
        remembered_within(w.entries, ts, nonce, k),
        k + 1 <= w.max_size,
    ensures
        remembered_within(spec_replay_add(w, ts2, nonce2).entries, ts, nonce, k + 1),
{
    let i = choose|i: int|
        0 <= i < w.entries.len() && w.entries.len() - i <= k && #[trigger] w.entries[i].ts == ts
            && w.entries[i].nonce@ == nonce;
    let s = w.entries.push(ReplayEntry { ts: ts2, nonce: nonce2 });
    let e = spec_replay_add(w, ts2, nonce2).entries;
    assert(s[i] == w.entries[i]);
    if s.len() > w.max_size {
        let d = s.len() - w.max_size;
        assert(e[i - d] == s[i]);
        assert(e.len() - (i - d) == s.len() - i);
    } else {
        assert(e[i] == s[i]);
    }
}

/// Checking any packet at a time when a remembered packet is within the
/// window keeps it remembered, and moves it back no further.
pub proof fn lemma_check_keeps(
    w: ReplayWindowV,
    now: i64,
    ts2: i64,
    nonce2: Seq<u8>,
    ts: i64,
    nonce: Seq<u8>,
    k: nat,
)
    requires
        remembered_within(w.entries, ts, nonce, k),
        in_window(now, ts, w.window),
    ensures
        remembered_within(spec_replay_check(w, now, ts2, nonce2).1.entries, ts, nonce, k),
        spec_replay_check(w, now, ts2, nonce2).1.window == w.window,
        spec_replay_check(w, now, ts2, nonce2).1.max_size == w.max_size,
{
    if in_window(now, ts2, w.window) {
        let i = choose|i: int|
            0 <= i < w.entries.len() && w.entries.len() - i <= k && #[trigger] w.entries[i].ts == ts
                && w.entries[i].nonce@ == nonce;
        let pred = |e: ReplayEntry| still_fresh(e, now, w.window);
        assert(pred(w.entries[i]));
        let j = lemma_filter_position(w.entries, pred, i);
        let kept = w.entries.filter(pred);
        assert(kept[j].ts == ts && kept[j].nonce@ == nonce);
    }
}

/// When a packet is accepted: exactly when its time stamp is at most
/// `window` seconds from `now`, either way, and no entry that is still
/// fresh (time stamp plus `window` not before `now`) has its time stamp
/// and nonce. A packet outside the window leaves the window as it was;
/// otherwise the window keeps exactly its fresh entries.
pub proof fn lemma_replay_check_decides(w: ReplayWindowV, now: i64, ts: i64, nonce: Seq<u8>)
    ensures
        spec_replay_check(w, now, ts, nonce).0 <==> (now - w.window <= ts <= now + w.window && forall|i: int|
            0 <= i < w.entries.len() && w.entries[i].ts + w.window >= now ==> !(#[trigger] w.entries[i].ts == ts
                && w.entries[i].nonce@ == nonce)),
        !(now - w.window <= ts <= now + w.window) ==> spec_replay_check(w, now, ts, nonce).1 == w,
        now - w.window <= ts <= now + w.window ==> forall|e: ReplayEntry|
            #[trigger] spec_replay_check(w, now, ts, nonce).1.entries.contains(e) <==> (w.entries.contains(e)
                && e.ts + w.window >= now),
        spec_replay_check(w, now, ts, nonce).1.window == w.window,
        spec_replay_check(w, now, ts, nonce).1.max_size == w.max_size,
{
    if in_window(now, ts, w.window) {
        let pred = |e: ReplayEntry| still_fresh(e, now, w.window);
        let kept = w.entries.filter(pred);
        if seen(kept, ts, nonce) {
            let j = choose|j: int| 0 <= j < kept.len() && #[trigger] kept[j].ts == ts && kept[j].nonce@ == nonce;
            w.entries.lemma_filter_pred(pred, j);
            assert(kept.contains(kept[j]));
            w.entries.lemma_filter_contains_rev(pred, kept[j]);
            let i = choose|i: int| 0 <= i < w.entries.len() && w.entries[i] == kept[j];
            assert(w.entries[i].ts == ts && w.entries[i].nonce@ == nonce && w.entries[i].ts + w.window >= now);
        } else {
            assert forall|i: int|
                0 <= i < w.entries.len() && w.entries[i].ts + w.window >= now implies !(#[trigger] w.entries[i].ts
                == ts && w.entries[i].nonce@ == nonce) by {
                if w.entries[i].ts == ts && w.entries[i].nonce@ == nonce {
                    assert(pred(w.entries[i]));
                    let j = lemma_filter_position(w.entries, pred, i);
                    assert(kept[j].ts == ts && kept[j].nonce@ == nonce);
                }
            }
        }
        assert forall|e: ReplayEntry| #[trigger] kept.contains(e) <==> (w.entries.contains(e) && e.ts + w.window
            >= now) by {
            if kept.contains(e) {
                w.entries.lemma_filter_contains_rev(pred, e);
                let j = choose|j: int| 0 <= j < kept.len() && kept[j] == e;
                w.entries.lemma_filter_pred(pred, j);
            }
            if w.entries.contains(e) && e.ts + w.window >= now {
                let i = choose|i: int| 0 <= i < w.entries.len() && w.entries[i] == e;
                w.entries.lemma_filter_contains(pred, i);
            }
        }
    }
}

/// A packet that the window remembered is refused when it comes again,
/// at any time, as long as the window remembers at least one packet.
pub proof fn lemma_replayed_packet_refused(w: ReplayWindowV, now: i64, ts: i64, nonce: [u8; 24])
    requires
        w.max_size >= 1,
    ensures
        !spec_replay_check(spec_replay_add(w, ts, nonce), now, ts, nonce@).0,
{
    lemma_add_remembers(w, ts, nonce);
    lemma_remembered_refused(spec_replay_add(w, ts, nonce), now, ts, nonce@, 1);
}

/// `n` padding bytes (`#`).
pub open spec fn hashes(n: nat) -> Seq<u8> {
    Seq::new(n, |i: int| 35u8)
}

/// A plaintext without the `#` padding at its end.
pub open spec fn strip_padding(s: Seq<u8>) -> Seq<u8>
    decreases s.len(),
{
    if s.len() > 0 && s.last() == 35u8 {
        strip_padding(s.drop_last())
    } else {
        s
    }
}

/// Removes the `#` padding at the end of a plaintext.
pub fn remove_padding(pt: &mut Vec<u8>)
    ensures
        final(pt)@ == strip_padding(old(pt)@),
{
    while pt.len() > 0 && pt[pt.len() - 1] == 35
        invariant
            strip_padding(pt@) == strip_padding(old(pt)@),
        decreases pt@.len(),
    {
        let _ = pt.pop();
    }
}

/// Padding added to a text that does not end in `#` is removed again, and
/// nothing more.
pub proof fn lemma_strip_padding(s: Seq<u8>, n: nat)
    requires
        s.len() == 0 || s.last() != 35u8,
    ensures
        strip_padding(s + hashes(n)) == s,
    decreases n,
{
    if n == 0 {
        assert(s + hashes(0) =~= s);
    } else {
        let t = s + hashes(n);
        assert(t.last() == 35u8);
        assert(t.drop_last() =~= s + hashes((n - 1) as nat));
        lemma_strip_padding(s, (n - 1) as nat);
    }
}

/// How much padding a command of `len` bytes gets for the random byte `r`:
/// `r` bytes, but never beyond 4095 bytes in all.
pub open spec fn command_pad_len(len: nat, r: u8) -> nat {
    if len + r > MAX_PT_SIZE - 1 {
        if len > MAX_PT_SIZE - 1 {
            0
        } else {
            (MAX_PT_SIZE - 1 - len) as nat
        }
    } else {
        r as nat
    }
}

/// A command padded for the random byte `r`.
pub open spec fn padded_command_bytes(s: Seq<u8>, r: u8) -> Seq<u8> {
    s + hashes(command_pad_len(s.len(), r))
}

/// Appends `n` padding bytes.
fn push_hashes(buf: &mut Vec<u8>, n: usize)
    ensures
        final(buf)@ == old(buf)@ + hashes(n as nat),
{
    let mut i: usize = 0;
    while i < n
        invariant
            i <= n,
            buf@ == old(buf)@ + hashes(i as nat),
        decreases n - i,
    {
        buf.push(35);
        assert(buf@ =~= old(buf)@ + hashes((i + 1) as nat));
        i = i + 1;
    }
}

/// How a command is padded: the command is kept as it is and followed only
/// by `#`; there are `r` of them where that keeps the plaintext within 4095
/// bytes, otherwise just enough to reach 4095 bytes (none for a command
/// that long already).
pub proof fn lemma_command_padding(s: Seq<u8>, r: u8)
    ensures
        padded_command_bytes(s, r).subrange(0, s.len() as int) == s,
        forall|i: int|
            s.len() <= i < padded_command_bytes(s, r).len() ==> #[trigger] padded_command_bytes(s, r)[i] == 35u8,
        s.len() + r <= 4095 ==> padded_command_bytes(s, r).len() == s.len() + r,
        s.len() <= 4095 < s.len() + r ==> padded_command_bytes(s, r).len() == 4095,
        s.len() >= 4095 ==> padded_command_bytes(s, r) == s,
{
    let p = padded_command_bytes(s, r);
    assert(p.subrange(0, s.len() as int) =~= s);
    if s.len() >= 4095 {
        assert(p =~= s);
    }
}

/// How a response is padded: a response shorter than 4094 bytes gets `r`
/// `#` where it stays below 4096 bytes, otherwise just enough to reach 4095
/// bytes; a longer one gets none.
pub proof fn lemma_response_padding(len: nat, r: u8)
    ensures
        len < 4094 && len + r < 4096 ==> response_pad_len(len, r) == r,
        len < 4094 && len + r >= 4096 ==> len + response_pad_len(len, r) == 4095,
        len >= 4094 ==> response_pad_len(len, r) == 0,
        response_pad_len(len, r) <= r,
{
}

/// The bytes of a command padded for the random byte `r`.
pub fn padded_command(script: &str, r: u8) -> (cmd: Vec<u8>)
    ensures
        cmd@ == padded_command_bytes(encode_utf8(script@), r),
{
    let bytes = script.as_bytes();
    let mut cmd: Vec<u8> = Vec::new();
    push_bytes(&mut cmd, bytes);
    let len = cmd.len();
    let mut pad_len: usize = r as usize;
    if len > MAX_PT_SIZE - 1 - pad_len {
        pad_len = if len > MAX_PT_SIZE - 1 { 0 } else { MAX_PT_SIZE - 1 - len };
    }
    push_hashes(&mut cmd, pad_len);
    cmd
}

/// The bytes of a command, padded with a random number of `#` (fewer
/// than 256, and never beyond 4095 bytes in all).
pub fn build_padded_cmd(script: &str) -> (cmd: Vec<u8>)
    ensures
        exists|r: u8| cmd@ == #[trigger] padded_command_bytes(encode_utf8(script@), r),
{
    let r = random_byte();
    let cmd = padded_command(script, r);
    assert(cmd@ == padded_command_bytes(encode_utf8(script@), r));
    cmd
}

/// How much padding a response of `len` bytes gets for the random byte
/// `r`: only responses shorter than 4094 bytes are padded, by `r` bytes,
/// but to fewer than 4096 bytes in all.
pub open spec fn response_pad_len(len: nat, r: u8) -> nat {
    if len < MAX_PT_SIZE - 2 {
        if len + r >= MAX_PT_SIZE {
            (MAX_PT_SIZE - len - 1) as nat
        } else {
            r as nat
        }
    } else {
        0
    }
}

/// Pads a response for the random byte `r`.
pub fn pad_response(resp: &mut Vec<u8>, r: u8)
    ensures
        final(resp)@ == old(resp)@ + hashes(response_pad_len(old(resp)@.len(), r)),
{
    let len = resp.len();
    if len < MAX_PT_SIZE - 2 {
        let mut pad_len: usize = r as usize;
        if len + pad_len >= MAX_PT_SIZE {
            pad_len = MAX_PT_SIZE - len - 1;
        }
        push_hashes(resp, pad_len);
    } else {
        assert(old(resp)@ + hashes(0) =~= old(resp)@);
    }
}

/// What a command printed, as the response carries it: its output and
/// then its error output, cut to 4096 bytes.
pub open spec fn response_bytes(out: Seq<u8>, err: Seq<u8>) -> Seq<u8> {
    let all = out + err;
    if all.len() > MAX_PT_SIZE {
        all.take(MAX_PT_SIZE as int)
    } else {
        all
    }
}

/// What a command printed, as the response carries it.
pub fn command_response(stdout: &[u8], stderr: &[u8]) -> (r: Vec<u8>)
    ensures
        r@ == response_bytes(stdout@, stderr@),
{
    let mut r: Vec<u8> = Vec::new();
    push_bytes(&mut r, stdout);
    push_bytes(&mut r, stderr);
    if r.len() > MAX_PT_SIZE {
        r.truncate(MAX_PT_SIZE);
    }
    r
}

} // verus!
