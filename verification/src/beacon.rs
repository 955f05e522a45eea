//! Coordinator beacons: the UDP datagram a coordinator broadcasts so that
//! agents on the LAN can find it, and the token hash that lets an agent tell
//! its own cluster's beacons apart without the token ever being sent.
use vstd::prelude::*;
use vstd::utf8::encode_utf8;

verus! {

/// Magic bytes that open every beacon datagram ("ARCH").
pub const BEACON_MAGIC: [u8; 4] = [0x41u8, 0x52u8, 0x43u8, 0x48u8];

/// Default UDP port for beacon broadcast/listen.
pub const BEACON_PORT: u16 = 9877;

/// Maximum beacon datagram size.
pub const BEACON_MAX_SIZE: usize = 512;

/// FNV-1a 64-bit offset basis.
pub const FNV_OFFSET: u64 = 0xcbf2_9ce4_8422_2325;

/// FNV-1a 64-bit prime.
pub const FNV_PRIME: u64 = 0x0100_0000_01b3;

/// Beacon payload broadcast by the coordinator.
#[derive(Debug)]
pub struct CoordinatorBeacon {
    /// The gRPC port the coordinator is listening on.
    pub grpc_port: u16,
    /// The 8 bytes of the FNV-1a hash of the cluster token.
    pub token_hash: [u8; 8],
    /// Coordinator hostname for display.
    pub hostname: String,
    /// Coordinator node ID.
    pub client_id: String,
}

pub open spec fn magic_seq() -> Seq<u8> {
    seq![0x41u8, 0x52u8, 0x43u8, 0x48u8]
}

/// One FNV-1a step: xor in the byte, then multiply modulo 2^64.
pub open spec fn fnv_step(h: u64, b: u8) -> u64 {
    (((h ^ (b as u64)) as nat * FNV_PRIME as nat) % 0x1_0000_0000_0000_0000nat) as u64
}

/// The 64-bit FNV-1a hash of a byte string.
pub open spec fn fnv1a(bytes: Seq<u8>) -> u64
    decreases bytes.len(),
{
    if bytes.len() == 0 {
        FNV_OFFSET
    } else {
        fnv_step(fnv1a(bytes.drop_last()), bytes.last())
    }
}

/// The little-endian bytes of a 64-bit number.
pub open spec fn le_bytes(h: u64) -> Seq<u8> {
    seq![
        h as u8,
        (h >> 8u64) as u8,
        (h >> 16u64) as u8,
        (h >> 24u64) as u8,
        (h >> 32u64) as u8,
        (h >> 40u64) as u8,
        (h >> 48u64) as u8,
        (h >> 56u64) as u8,
    ]
}

/// The token hash of a token: the little-endian FNV-1a hash of its UTF-8 bytes.
pub open spec fn token_hash_of(token: Seq<char>) -> Seq<u8> {
    le_bytes(fnv1a(encode_utf8(token)))
}

/// Compute the 8-byte token hash for beacon matching.
/// Uses FNV-1a — NOT cryptographic, only for filtering beacons.
pub fn hash_token(token: &str) -> (r: [u8; 8])
    ensures
        r@ == token_hash_of(token@),
{
    let bytes = token.as_bytes();
    let mut h: u64 = FNV_OFFSET;
    let mut i: usize = 0;
    while i < bytes.len()
        invariant
            bytes@ == encode_utf8(token@),
            i <= bytes@.len(),
            h == fnv1a(bytes@.take(i as int)),
        decreases bytes@.len() - i,
    {
        proof {
            assert(bytes@.take(i + 1).drop_last() =~= bytes@.take(i as int));
        }
        h = h ^ (bytes[i] as u64);
        h = h.wrapping_mul(FNV_PRIME);
        i = i + 1;
    }
    assert(bytes@.take(bytes@.len() as int) =~= bytes@);
    let r: [u8; 8] = [
        h as u8,
        (h >> 8u64) as u8,
        (h >> 16u64) as u8,
        (h >> 24u64) as u8,
        (h >> 32u64) as u8,
        (h >> 40u64) as u8,
        (h >> 48u64) as u8,
        (h >> 56u64) as u8,
    ];
    assert(r@ =~= le_bytes(h));
    r
}

/// Whether a beacon was sent for the cluster with the given token.
pub fn beacon_matches_token(beacon: &CoordinatorBeacon, token: &str) -> (r: bool)
    ensures
        r == (beacon.token_hash@ == token_hash_of(token@)),
{
    let h = hash_token(token);
    let mut i: usize = 0;
    while i < 8
        invariant
            h@ == token_hash_of(token@),
            i <= 8,
            forall|k: int| 0 <= k < i ==> beacon.token_hash@[k] == h@[k],
        decreases 8 - i,
    {
        if beacon.token_hash[i] != h[i] {
            return false;
        }
        i = i + 1;
    }
    assert(beacon.token_hash@ =~= h@);
    true
}

/// A beacon datagram: the magic bytes followed by the encoded beacon.
pub fn beacon_datagram(payload: &[u8]) -> (r: Vec<u8>)
    ensures
        r@ == magic_seq() + payload@,
{
    let mut buf: Vec<u8> = Vec::new();
    buf.push(0x41u8);
    buf.push(0x52u8);
    buf.push(0x43u8);
    buf.push(0x48u8);
    let mut i: usize = 0;
    while i < payload.len()
        invariant
            i <= payload@.len(),
            buf@ == magic_seq() + payload@.take(i as int),
        decreases payload@.len() - i,
    {
        buf.push(payload[i]);
        i = i + 1;
        assert(buf@ =~= magic_seq() + payload@.take(i as int));
    }
    assert(payload@.take(payload@.len() as int) =~= payload@);
    buf
}

/// The encoded beacon inside a datagram, or `None` when the datagram is
/// shorter than the magic bytes or does not start with them.
pub fn beacon_payload(data: &[u8]) -> (r: Option<Vec<u8>>)
    ensures
        match r {
            Some(p) => data@.len() >= 4 && data@.take(4) == magic_seq() && p@ == data@.skip(4),
            None => data@.len() < 4 || data@.take(4) != magic_seq(),
        },
{
    if data.len() < 4 {
        return None;
    }
    if data[0] != 0x41u8 || data[1] != 0x52u8 || data[2] != 0x43u8 || data[3] != 0x48u8 {
        assert(data@.take(4)[0] == data@[0]);
        assert(data@.take(4)[1] == data@[1]);
        assert(data@.take(4)[2] == data@[2]);
        assert(data@.take(4)[3] == data@[3]);
        return None;
    }
    assert(data@.take(4) =~= magic_seq());
    let mut out: Vec<u8> = Vec::new();
    let mut i: usize = 4;
    while i < data.len()
        invariant
            4 <= i <= data@.len(),
            out@ == data@.subrange(4, i as int),
        decreases data@.len() - i,
    {
        out.push(data[i]);
        i = i + 1;
        assert(out@ =~= data@.subrange(4, i as int));
    }
    Some(out)
}

/// A datagram read back gives the encoded beacon that was framed.
pub proof fn lemma_datagram_roundtrip(payload: Seq<u8>)
    ensures
        (magic_seq() + payload).len() >= 4,
        (magic_seq() + payload).take(4) == magic_seq(),
        (magic_seq() + payload).skip(4) == payload,
{
    assert((magic_seq() + payload).take(4) =~= magic_seq());
    assert((magic_seq() + payload).skip(4) =~= payload);
}

} // verus!
