//! The NTP packet (RFC 5905 header, 48 bytes): its wire format and the
//! conversion between NTP timestamps and UTC instants.
use vstd::prelude::*;
use crate::time::{UtcInstant, chrono_accepts, MIN_UNIX_SECS, MAX_UNIX_SECS};

verus! {

/// The UDP port of NTP servers.
pub const NTP_PORT: u16 = 123;
/// Seconds from the NTP epoch (1900-01-01) to the Unix epoch (1970-01-01).
pub const NTP_EPOCH_UNIX_OFFSET: i64 = 2_208_988_800;
/// The mode field of a server reply.
pub const NTP_MODE_SERVER: u8 = 4;

/// An NTP packet header.
#[derive(Clone, Copy, Debug, PartialEq, Eq, Structural)]
pub struct NtpPacket {
    pub li: u8,
    pub vn: u8,
    pub mode: u8,
    pub stratum: u8,
    pub poll: i8,
    pub precision: i8,
    pub root_delay: u32,
    pub root_dispersion: u32,
    pub reference_id: u32,
    pub reference_timestamp: u64,
    pub originate_timestamp: u64,
    pub receive_timestamp: u64,
    pub transmit_timestamp: u64,
}

/// The big-endian bytes of a 32-bit word.
pub open spec fn be32(x: u32) -> Seq<u8> {
    seq![(x >> 24u32) as u8, (x >> 16u32) as u8, (x >> 8u32) as u8, x as u8]
}

/// The big-endian bytes of a 64-bit word.
pub open spec fn be64(x: u64) -> Seq<u8> {
    seq![
        (x >> 56u32) as u8, (x >> 48u32) as u8, (x >> 40u32) as u8, (x >> 32u32) as u8,
        (x >> 24u32) as u8, (x >> 16u32) as u8, (x >> 8u32) as u8, x as u8,
    ]
}

/// The 32-bit word stored big-endian at `at`.
pub open spec fn read_be32(b: Seq<u8>, at: int) -> u32 {
    ((b[at] as u32) << 24u32) | ((b[at + 1] as u32) << 16u32) | ((b[at + 2] as u32) << 8u32) | (b[at + 3] as u32)
}

/// The 64-bit word stored big-endian at `at`.
pub open spec fn read_be64(b: Seq<u8>, at: int) -> u64 {
    ((b[at] as u64) << 56u32) | ((b[at + 1] as u64) << 48u32) | ((b[at + 2] as u64) << 40u32)
        | ((b[at + 3] as u64) << 32u32) | ((b[at + 4] as u64) << 24u32) | ((b[at + 5] as u64) << 16u32)
        | ((b[at + 6] as u64) << 8u32) | (b[at + 7] as u64)
}

/// The 48 bytes of a packet on the wire: leap indicator (2 bits), version (3 bits) and
/// mode (3 bits) share the first byte; all words are big-endian.
pub open spec fn encode_packet(p: NtpPacket) -> Seq<u8> {
    seq![((p.li << 6u8) | (p.vn << 3u8) | p.mode), p.stratum, p.poll as u8, p.precision as u8]
        + be32(p.root_delay) + be32(p.root_dispersion) + be32(p.reference_id)
        + be64(p.reference_timestamp) + be64(p.originate_timestamp)
        + be64(p.receive_timestamp) + be64(p.transmit_timestamp)
}

/// The packet that 48 bytes on the wire describe.
pub open spec fn decode_packet(b: Seq<u8>) -> NtpPacket {
    NtpPacket {
        li: (b[0] >> 6u8) & 3u8,
        vn: (b[0] >> 3u8) & 7u8,
        mode: b[0] & 7u8,
        stratum: b[1],
        poll: b[2] as i8,
        precision: b[3] as i8,
        root_delay: read_be32(b, 4),
        root_dispersion: read_be32(b, 8),
        reference_id: read_be32(b, 12),
        reference_timestamp: read_be64(b, 16),
        originate_timestamp: read_be64(b, 24),
        receive_timestamp: read_be64(b, 32),
        transmit_timestamp: read_be64(b, 40),
    }
}

impl NtpPacket {
    /// The leap indicator, version and mode fit their bit fields.
    pub open spec fn fits_wire(self) -> bool {
        self.li < 4 && self.vn < 8 && self.mode < 8
    }

    /// Serializes the packet into its 48 wire bytes.
    pub fn to_bytes(&self) -> (bytes: [u8; 48])
        ensures
            bytes@ == encode_packet(*self),
            be_number(bytes@.subrange(4, 8)) == self.root_delay,
            be_number(bytes@.subrange(8, 12)) == self.root_dispersion,
            be_number(bytes@.subrange(12, 16)) == self.reference_id,
            be_number(bytes@.subrange(16, 24)) == self.reference_timestamp,
            be_number(bytes@.subrange(24, 32)) == self.originate_timestamp,
            be_number(bytes@.subrange(32, 40)) == self.receive_timestamp,
            be_number(bytes@.subrange(40, 48)) == self.transmit_timestamp,
    {
        let bytes: [u8; 48] = [
            ((self.li << 6u8) | (self.vn << 3u8) | self.mode),
            self.stratum,
            self.poll as u8,
            self.precision as u8,
            (self.root_delay >> 24u32) as u8,
            (self.root_delay >> 16u32) as u8,
            (self.root_delay >> 8u32) as u8,
            self.root_delay as u8,
            (self.root_dispersion >> 24u32) as u8,
            (self.root_dispersion >> 16u32) as u8,
            (self.root_dispersion >> 8u32) as u8,
            self.root_dispersion as u8,
            (self.reference_id >> 24u32) as u8,
            (self.reference_id >> 16u32) as u8,
            (self.reference_id >> 8u32) as u8,
            self.reference_id as u8,
            (self.reference_timestamp >> 56u32) as u8,
            (self.reference_timestamp >> 48u32) as u8,
            (self.reference_timestamp >> 40u32) as u8,
            (self.reference_timestamp >> 32u32) as u8,
            (self.reference_timestamp >> 24u32) as u8,
            (self.reference_timestamp >> 16u32) as u8,
            (self.reference_timestamp >> 8u32) as u8,
            self.reference_timestamp as u8,
            (self.originate_timestamp >> 56u32) as u8,
            (self.originate_timestamp >> 48u32) as u8,
            (self.originate_timestamp >> 40u32) as u8,
            (self.originate_timestamp >> 32u32) as u8,
            (self.originate_timestamp >> 24u32) as u8,
            (self.originate_timestamp >> 16u32) as u8,
            (self.originate_timestamp >> 8u32) as u8,
            self.originate_timestamp as u8,
            (self.receive_timestamp >> 56u32) as u8,
            (self.receive_timestamp >> 48u32) as u8,
            (self.receive_timestamp >> 40u32) as u8,
            (self.receive_timestamp >> 32u32) as u8,
            (self.receive_timestamp >> 24u32) as u8,
            (self.receive_timestamp >> 16u32) as u8,
            (self.receive_timestamp >> 8u32) as u8,
            self.receive_timestamp as u8,
            (self.transmit_timestamp >> 56u32) as u8,
            (self.transmit_timestamp >> 48u32) as u8,
            (self.transmit_timestamp >> 40u32) as u8,
            (self.transmit_timestamp >> 32u32) as u8,
            (self.transmit_timestamp >> 24u32) as u8,
            (self.transmit_timestamp >> 16u32) as u8,
            (self.transmit_timestamp >> 8u32) as u8,
            self.transmit_timestamp as u8,
        ];
        assert(bytes@ =~= encode_packet(*self));
        proof {
            lemma_encode_layout(*self);
        }
        bytes
    }

    /// Deserializes 48 wire bytes; every byte string is a packet.
    pub fn from_bytes(bytes: &[u8; 48]) -> (r: Result<NtpPacket, crate::sync::SyncError>)
        ensures
            r == Ok::<NtpPacket, crate::sync::SyncError>(decode_packet(bytes@)),
            r matches Ok(p) && p.root_delay == be_number(bytes@.subrange(4, 8))
                && p.root_dispersion == be_number(bytes@.subrange(8, 12))
                && p.reference_id == be_number(bytes@.subrange(12, 16))
                && p.reference_timestamp == be_number(bytes@.subrange(16, 24))
                && p.originate_timestamp == be_number(bytes@.subrange(24, 32))
                && p.receive_timestamp == be_number(bytes@.subrange(32, 40))
                && p.transmit_timestamp == be_number(bytes@.subrange(40, 48)),
    {
        proof {
            lemma_decode_layout(bytes@);
        }
        Ok(NtpPacket {
            li: (bytes[0] >> 6u8) & 3u8,
            vn: (bytes[0] >> 3u8) & 7u8,
            mode: bytes[0] & 7u8,
            stratum: bytes[1],
            poll: bytes[2] as i8,
            precision: bytes[3] as i8,
            root_delay: read_u32(bytes, 4),
            root_dispersion: read_u32(bytes, 8),
            reference_id: read_u32(bytes, 12),
            reference_timestamp: read_u64(bytes, 16),
            originate_timestamp: read_u64(bytes, 24),
            receive_timestamp: read_u64(bytes, 32),
            transmit_timestamp: read_u64(bytes, 40),
        })
    }
}

fn read_u32(bytes: &[u8; 48], at: usize) -> (r: u32)
    requires
        at + 4 <= 48,
    ensures
        r == read_be32(bytes@, at as int),
{
    ((bytes[at] as u32) << 24u32) | ((bytes[at + 1] as u32) << 16u32) | ((bytes[at + 2] as u32) << 8u32) | (bytes[at + 3] as u32)
}

fn read_u64(bytes: &[u8; 48], at: usize) -> (r: u64)
    requires
        at + 8 <= 48,
    ensures
        r == read_be64(bytes@, at as int),
{
    ((bytes[at] as u64) << 56u32) | ((bytes[at + 1] as u64) << 48u32) | ((bytes[at + 2] as u64) << 40u32)
        | ((bytes[at + 3] as u64) << 32u32) | ((bytes[at + 4] as u64) << 24u32) | ((bytes[at + 5] as u64) << 16u32)
        | ((bytes[at + 6] as u64) << 8u32) | (bytes[at + 7] as u64)
}

} // verus!

verus! {

proof fn lemma_be32_word(x: u32)
    ensures
        ((((x >> 24u32) as u8) as u32) << 24u32) | ((((x >> 16u32) as u8) as u32) << 16u32)
            | ((((x >> 8u32) as u8) as u32) << 8u32) | ((x as u8) as u32) == x,
{
    assert(((((x >> 24u32) as u8) as u32) << 24u32) | ((((x >> 16u32) as u8) as u32) << 16u32)
        | ((((x >> 8u32) as u8) as u32) << 8u32) | ((x as u8) as u32) == x) by (bit_vector);
}

proof fn lemma_be64_word(x: u64)
    ensures
        ((((x >> 56u32) as u8) as u64) << 56u32) | ((((x >> 48u32) as u8) as u64) << 48u32)
            | ((((x >> 40u32) as u8) as u64) << 40u32) | ((((x >> 32u32) as u8) as u64) << 32u32)
            | ((((x >> 24u32) as u8) as u64) << 24u32) | ((((x >> 16u32) as u8) as u64) << 16u32)
            | ((((x >> 8u32) as u8) as u64) << 8u32) | ((x as u8) as u64) == x,
{
    assert(((((x >> 56u32) as u8) as u64) << 56u32) | ((((x >> 48u32) as u8) as u64) << 48u32)
        | ((((x >> 40u32) as u8) as u64) << 40u32) | ((((x >> 32u32) as u8) as u64) << 32u32)
        | ((((x >> 24u32) as u8) as u64) << 24u32) | ((((x >> 16u32) as u8) as u64) << 16u32)
        | ((((x >> 8u32) as u8) as u64) << 8u32) | ((x as u8) as u64) == x) by (bit_vector);
}

proof fn lemma_be32_bytes(b0: u8, b1: u8, b2: u8, b3: u8)
    ensures
        ({
            let x = ((b0 as u32) << 24u32) | ((b1 as u32) << 16u32) | ((b2 as u32) << 8u32) | (b3 as u32);
            (x >> 24u32) as u8 == b0 && (x >> 16u32) as u8 == b1 && (x >> 8u32) as u8 == b2 && x as u8 == b3
        }),
{
    assert({
        let x = ((b0 as u32) << 24u32) | ((b1 as u32) << 16u32) | ((b2 as u32) << 8u32) | (b3 as u32);
        (x >> 24u32) as u8 == b0 && (x >> 16u32) as u8 == b1 && (x >> 8u32) as u8 == b2 && x as u8 == b3
    }) by (bit_vector);
}

proof fn lemma_be64_bytes(b0: u8, b1: u8, b2: u8, b3: u8, b4: u8, b5: u8, b6: u8, b7: u8)
    ensures
        ({
            let x = ((b0 as u64) << 56u32) | ((b1 as u64) << 48u32) | ((b2 as u64) << 40u32)
                | ((b3 as u64) << 32u32) | ((b4 as u64) << 24u32) | ((b5 as u64) << 16u32)
                | ((b6 as u64) << 8u32) | (b7 as u64);
            &&& (x >> 56u32) as u8 == b0 && (x >> 48u32) as u8 == b1 && (x >> 40u32) as u8 == b2
            &&& (x >> 32u32) as u8 == b3 && (x >> 24u32) as u8 == b4 && (x >> 16u32) as u8 == b5
            &&& (x >> 8u32) as u8 == b6 && x as u8 == b7
        }),
{
    assert({
        let x = ((b0 as u64) << 56u32) | ((b1 as u64) << 48u32) | ((b2 as u64) << 40u32)
            | ((b3 as u64) << 32u32) | ((b4 as u64) << 24u32) | ((b5 as u64) << 16u32)
            | ((b6 as u64) << 8u32) | (b7 as u64);
        &&& (x >> 56u32) as u8 == b0 && (x >> 48u32) as u8 == b1 && (x >> 40u32) as u8 == b2
        &&& (x >> 32u32) as u8 == b3 && (x >> 24u32) as u8 == b4 && (x >> 16u32) as u8 == b5
        &&& (x >> 8u32) as u8 == b6 && x as u8 == b7
    }) by (bit_vector);
}

proof fn lemma_first_byte(li: u8, vn: u8, mode: u8)
    requires
        li < 4,
        vn < 8,
        mode < 8,
    ensures
        ((((li << 6u8) | (vn << 3u8) | mode) >> 6u8) & 3u8) == li,
        ((((li << 6u8) | (vn << 3u8) | mode) >> 3u8) & 7u8) == vn,
        (((li << 6u8) | (vn << 3u8) | mode) & 7u8) == mode,
{
    assert(li < 4 && vn < 8 && mode < 8 ==> ((((li << 6u8) | (vn << 3u8) | mode) >> 6u8) & 3u8) == li
        && ((((li << 6u8) | (vn << 3u8) | mode) >> 3u8) & 7u8) == vn
        && (((li << 6u8) | (vn << 3u8) | mode) & 7u8) == mode) by (bit_vector);
}

proof fn lemma_first_byte_fields(b: u8)
    ensures
        (((b >> 6u8) & 3u8) << 6u8) | (((b >> 3u8) & 7u8) << 3u8) | (b & 7u8) == b,
{
    assert((((b >> 6u8) & 3u8) << 6u8) | (((b >> 3u8) & 7u8) << 3u8) | (b & 7u8) == b) by (bit_vector);
}

proof fn lemma_signed_byte(x: i8, b: u8)
    ensures
        (x as u8) as i8 == x,
        (b as i8) as u8 == b,
{
    assert((x as u8) as i8 == x) by (bit_vector);
    assert((b as i8) as u8 == b) by (bit_vector);
}

/// The number that the first `n` bytes of `s` write in base 256, most
/// significant byte first.
pub open spec fn be_prefix(s: Seq<u8>, n: nat) -> nat
    decreases n,
{
    if n == 0 { 0 } else { be_prefix(s, (n - 1) as nat) * 256 + s[n - 1] as nat }
}

/// The number that `s` writes in base 256, most significant byte first.
pub open spec fn be_number(s: Seq<u8>) -> nat {
    be_prefix(s, s.len())
}

proof fn lemma_be64_number(x: u64)
    ensures
        be_number(be64(x)) == x,
{
    let s = be64(x);
    assert(x >> 8u32 == x / 256 && x >> 16u32 == (x >> 8u32) / 256 && x >> 24u32 == (x >> 16u32) / 256
        && x >> 32u32 == (x >> 24u32) / 256 && x >> 40u32 == (x >> 32u32) / 256
        && x >> 48u32 == (x >> 40u32) / 256 && x >> 56u32 == (x >> 48u32) / 256 && x >> 56u32 < 256) by (bit_vector);
    assert(((x >> 56u32) as u8) as u64 == (x >> 56u32) % 256 && ((x >> 48u32) as u8) as u64 == (x >> 48u32) % 256
        && ((x >> 40u32) as u8) as u64 == (x >> 40u32) % 256 && ((x >> 32u32) as u8) as u64 == (x >> 32u32) % 256
        && ((x >> 24u32) as u8) as u64 == (x >> 24u32) % 256 && ((x >> 16u32) as u8) as u64 == (x >> 16u32) % 256
        && ((x >> 8u32) as u8) as u64 == (x >> 8u32) % 256 && (x as u8) as u64 == x % 256) by (bit_vector);
    vstd::arithmetic::div_mod::lemma_fundamental_div_mod(x as int, 256);
    vstd::arithmetic::div_mod::lemma_fundamental_div_mod((x >> 8u32) as int, 256);
    vstd::arithmetic::div_mod::lemma_fundamental_div_mod((x >> 16u32) as int, 256);
    vstd::arithmetic::div_mod::lemma_fundamental_div_mod((x >> 24u32) as int, 256);
    vstd::arithmetic::div_mod::lemma_fundamental_div_mod((x >> 32u32) as int, 256);
    vstd::arithmetic::div_mod::lemma_fundamental_div_mod((x >> 40u32) as int, 256);
    vstd::arithmetic::div_mod::lemma_fundamental_div_mod((x >> 48u32) as int, 256);
    reveal_with_fuel(be_prefix, 9);
    assert(be_prefix(s, 1) == x >> 56u32);
    assert(be_prefix(s, 2) == x >> 48u32);
    assert(be_prefix(s, 3) == x >> 40u32);
    assert(be_prefix(s, 4) == x >> 32u32);
    assert(be_prefix(s, 5) == x >> 24u32);
    assert(be_prefix(s, 6) == x >> 16u32);
    assert(be_prefix(s, 7) == x >> 8u32);
}

proof fn lemma_be32_number(x: u32)
    ensures
        be_number(be32(x)) == x,
{
    let s = be32(x);
    assert(x >> 8u32 == x / 256 && x >> 16u32 == (x >> 8u32) / 256 && x >> 24u32 == (x >> 16u32) / 256
        && x >> 24u32 < 256) by (bit_vector);
    assert(((x >> 24u32) as u8) as u32 == (x >> 24u32) % 256 && ((x >> 16u32) as u8) as u32 == (x >> 16u32) % 256
        && ((x >> 8u32) as u8) as u32 == (x >> 8u32) % 256 && (x as u8) as u32 == x % 256) by (bit_vector);
    vstd::arithmetic::div_mod::lemma_fundamental_div_mod(x as int, 256);
    vstd::arithmetic::div_mod::lemma_fundamental_div_mod((x >> 8u32) as int, 256);
    vstd::arithmetic::div_mod::lemma_fundamental_div_mod((x >> 16u32) as int, 256);
    reveal_with_fuel(be_prefix, 5);
    assert(be_prefix(s, 1) == x >> 24u32);
    assert(be_prefix(s, 2) == x >> 16u32);
    assert(be_prefix(s, 3) == x >> 8u32);
}

proof fn lemma_word64_at(b: Seq<u8>, at: int)
    requires
        0 <= at,
        at + 8 <= b.len(),
    ensures
        be_number(b.subrange(at, at + 8)) == read_be64(b, at),
{
    lemma_be64_bytes(b[at], b[at + 1], b[at + 2], b[at + 3], b[at + 4], b[at + 5], b[at + 6], b[at + 7]);
    assert(be64(read_be64(b, at)) =~= b.subrange(at, at + 8));
    lemma_be64_number(read_be64(b, at));
}

proof fn lemma_word32_at(b: Seq<u8>, at: int)
    requires
        0 <= at,
        at + 4 <= b.len(),
    ensures
        be_number(b.subrange(at, at + 4)) == read_be32(b, at),
{
    lemma_be32_bytes(b[at], b[at + 1], b[at + 2], b[at + 3]);
    assert(be32(read_be32(b, at)) =~= b.subrange(at, at + 4));
    lemma_be32_number(read_be32(b, at));
}

/// Where each field of a packet read from 48 wire bytes `b` comes from (RFC 5905):
/// byte 0 holds the leap indicator (top two bits), version (next three) and mode
/// (low three); bytes 1, 2, 3 the stratum, poll and precision; the big-endian
/// numbers of bytes 4..8, 8..12 and 12..16 the root delay, root dispersion and
/// reference id; and those of bytes 16..24, 24..32, 32..40 and 40..48 the
/// reference, originate, receive and transmit timestamps.
pub proof fn lemma_decode_layout(b: Seq<u8>)
    requires
        b.len() == 48,
    ensures
        decode_packet(b).li == b[0] / 64,
        decode_packet(b).vn == (b[0] / 8) % 8,
        decode_packet(b).mode == b[0] % 8,
        decode_packet(b).stratum == b[1],
        decode_packet(b).poll as u8 == b[2],
        decode_packet(b).precision as u8 == b[3],
        decode_packet(b).root_delay == be_number(b.subrange(4, 8)),
        decode_packet(b).root_dispersion == be_number(b.subrange(8, 12)),
        decode_packet(b).reference_id == be_number(b.subrange(12, 16)),
        decode_packet(b).reference_timestamp == be_number(b.subrange(16, 24)),
        decode_packet(b).originate_timestamp == be_number(b.subrange(24, 32)),
        decode_packet(b).receive_timestamp == be_number(b.subrange(32, 40)),
        decode_packet(b).transmit_timestamp == be_number(b.subrange(40, 48)),
{
    let b0 = b[0];
    assert((b0 >> 6u8) & 3u8 == b0 / 64 && (b0 >> 3u8) & 7u8 == (b0 / 8) % 8 && b0 & 7u8 == b0 % 8) by (bit_vector);
    lemma_signed_byte(0, b[2]);
    lemma_signed_byte(0, b[3]);
    lemma_word32_at(b, 4);
    lemma_word32_at(b, 8);
    lemma_word32_at(b, 12);
    lemma_word64_at(b, 16);
    lemma_word64_at(b, 24);
    lemma_word64_at(b, 32);
    lemma_word64_at(b, 40);
}

/// Where encoding puts each field of a packet: the same places that reading
/// takes them from (byte 0 as stated where the leap indicator, version and mode
/// fit their bits).
pub proof fn lemma_encode_layout(p: NtpPacket)
    ensures
        encode_packet(p).len() == 48,
        p.fits_wire() ==> encode_packet(p)[0] == p.li * 64 + p.vn * 8 + p.mode,
        encode_packet(p)[1] == p.stratum,
        encode_packet(p)[2] == p.poll as u8,
        encode_packet(p)[3] == p.precision as u8,
        be_number(encode_packet(p).subrange(4, 8)) == p.root_delay,
        be_number(encode_packet(p).subrange(8, 12)) == p.root_dispersion,
        be_number(encode_packet(p).subrange(12, 16)) == p.reference_id,
        be_number(encode_packet(p).subrange(16, 24)) == p.reference_timestamp,
        be_number(encode_packet(p).subrange(24, 32)) == p.originate_timestamp,
        be_number(encode_packet(p).subrange(32, 40)) == p.receive_timestamp,
        be_number(encode_packet(p).subrange(40, 48)) == p.transmit_timestamp,
{
    let e = encode_packet(p);
    let (li, vn, mode) = (p.li, p.vn, p.mode);
    assert(li < 4 && vn < 8 && mode < 8 ==> (li << 6u8) | (vn << 3u8) | mode == li * 64 + vn * 8 + mode) by (bit_vector);
    assert(e.subrange(4, 8) =~= be32(p.root_delay));
    assert(e.subrange(8, 12) =~= be32(p.root_dispersion));
    assert(e.subrange(12, 16) =~= be32(p.reference_id));
    assert(e.subrange(16, 24) =~= be64(p.reference_timestamp));
    assert(e.subrange(24, 32) =~= be64(p.originate_timestamp));
    assert(e.subrange(32, 40) =~= be64(p.receive_timestamp));
    assert(e.subrange(40, 48) =~= be64(p.transmit_timestamp));
    lemma_be32_number(p.root_delay);
    lemma_be32_number(p.root_dispersion);
    lemma_be32_number(p.reference_id);
    lemma_be64_number(p.reference_timestamp);
    lemma_be64_number(p.originate_timestamp);
    lemma_be64_number(p.receive_timestamp);
    lemma_be64_number(p.transmit_timestamp);
}

/// Decoding the wire bytes of a packet gives the packet back, provided its leap
/// indicator, version and mode fit their bit fields.
pub proof fn lemma_packet_roundtrip(p: NtpPacket)
    requires
        p.fits_wire(),
    ensures
        decode_packet(encode_packet(p)) == p,
{
    let e = encode_packet(p);
    assert(e.len() == 48);
    lemma_first_byte(p.li, p.vn, p.mode);
    lemma_signed_byte(p.poll, 0);
    lemma_signed_byte(p.precision, 0);
    lemma_be32_word(p.root_delay);
    lemma_be32_word(p.root_dispersion);
    lemma_be32_word(p.reference_id);
    lemma_be64_word(p.reference_timestamp);
    lemma_be64_word(p.originate_timestamp);
    lemma_be64_word(p.receive_timestamp);
    lemma_be64_word(p.transmit_timestamp);
    let d = decode_packet(e);
    assert(d.root_delay == p.root_delay);
    assert(d.root_dispersion == p.root_dispersion);
    assert(d.reference_id == p.reference_id);
    assert(d.reference_timestamp == p.reference_timestamp);
    assert(d.originate_timestamp == p.originate_timestamp);
    assert(d.receive_timestamp == p.receive_timestamp);
    assert(d.transmit_timestamp == p.transmit_timestamp);
}

/// Encoding the packet that 48 bytes describe gives those bytes back: every
/// byte string is the encoding of exactly one packet.
pub proof fn lemma_bytes_roundtrip(b: Seq<u8>)
    requires
        b.len() == 48,
    ensures
        encode_packet(decode_packet(b)) == b,
{
    let p = decode_packet(b);
    lemma_first_byte_fields(b[0]);
    lemma_signed_byte(0, b[2]);
    lemma_signed_byte(0, b[3]);
    lemma_be32_bytes(b[4], b[5], b[6], b[7]);
    lemma_be32_bytes(b[8], b[9], b[10], b[11]);
    lemma_be32_bytes(b[12], b[13], b[14], b[15]);
    lemma_be64_bytes(b[16], b[17], b[18], b[19], b[20], b[21], b[22], b[23]);
    lemma_be64_bytes(b[24], b[25], b[26], b[27], b[28], b[29], b[30], b[31]);
    lemma_be64_bytes(b[32], b[33], b[34], b[35], b[36], b[37], b[38], b[39]);
    lemma_be64_bytes(b[40], b[41], b[42], b[43], b[44], b[45], b[46], b[47]);
    assert(encode_packet(p) =~= b);
}

} // verus!

verus! {

/// The 32-bit binary fraction of a second that `nanos` nanoseconds make, rounded down.
pub open spec fn ntp_fraction(nanos: int) -> int {
    nanos * 0x1_0000_0000 / 1_000_000_000
}

/// The NTP timestamp of an instant: seconds since 1900 within the current
/// 2^32-second era in the high word, the binary fraction in the low word.
pub open spec fn ntp_timestamp_of(t: UtcInstant) -> u64 {
    (((t.secs + NTP_EPOCH_UNIX_OFFSET) % 0x1_0000_0000) * 0x1_0000_0000 + ntp_fraction(t.nanos as int)) as u64
}

/// The Unix instant that an NTP timestamp of era 0 denotes, the fraction
/// rounded down to whole nanoseconds.
pub open spec fn unix_instant_of(ts: u64) -> UtcInstant {
    UtcInstant {
        secs: (ts / 0x1_0000_0000 - NTP_EPOCH_UNIX_OFFSET) as i64,
        nanos: ((ts % 0x1_0000_0000) * 1_000_000_000 / 0x1_0000_0000) as u32,
    }
}

/// The request a client sends: version 3, client mode, every field zero but the
/// transmit timestamp, which is `now`.
pub open spec fn client_request(now: UtcInstant) -> NtpPacket {
    NtpPacket {
        li: 0,
        vn: 3,
        mode: 3,
        stratum: 0,
        poll: 0,
        precision: 0,
        root_delay: 0,
        root_dispersion: 0,
        reference_id: 0,
        reference_timestamp: 0,
        originate_timestamp: 0,
        receive_timestamp: 0,
        transmit_timestamp: ntp_timestamp_of(now),
    }
}

proof fn lemma_shift_or(hi: u64, lo: u64)
    requires
        hi < 0x1_0000_0000,
        lo < 0x1_0000_0000,
    ensures
        (hi << 32u64) | lo == hi * 0x1_0000_0000 + lo,
{
    assert(hi < 0x1_0000_0000 && lo < 0x1_0000_0000 ==> (hi << 32u64) | lo == hi * 0x1_0000_0000 + lo) by (bit_vector);
}

proof fn lemma_split_word(ts: u64)
    ensures
        ts >> 32u64 == ts / 0x1_0000_0000,
        ts & 0xFFFF_FFFFu64 == ts % 0x1_0000_0000,
{
    assert(ts >> 32u64 == ts / 0x1_0000_0000) by (bit_vector);
    assert(ts & 0xFFFF_FFFFu64 == ts % 0x1_0000_0000) by (bit_vector);
}

impl NtpPacket {
    /// The request packet a client sends at `now`.
    pub fn new_client_request(now: UtcInstant) -> (p: NtpPacket)
        requires
            now.wf(),
        ensures
            p == client_request(now),
    {
        let unix_seconds = now.secs + NTP_EPOCH_UNIX_OFFSET;
        let era_seconds: u64 = if unix_seconds >= 0 {
            (unix_seconds as u64) % 0x1_0000_0000
        } else {
            let below = ((-unix_seconds) as u64) % 0x1_0000_0000;
            let e = if below == 0 { 0 } else { 0x1_0000_0000 - below };
            proof {
                let u = unix_seconds as int;
                assert(e == u % 0x1_0000_0000) by (nonlinear_arith)
                    requires
                        u < 0,
                        below == (-u) % 0x1_0000_0000,
                        e == (if below == 0 { 0 } else { 0x1_0000_0000 - below });
            }
            e
        };
        let nanos = now.nanos as u64;
        assert(nanos << 32u64 == nanos * 0x1_0000_0000) by (bit_vector)
            requires nanos < 1_000_000_000;
        let fraction = (nanos << 32u64) / 1_000_000_000;
        assert(fraction < 0x1_0000_0000) by (nonlinear_arith)
            requires fraction == nanos * 0x1_0000_0000 / 1_000_000_000, nanos < 1_000_000_000;
        proof {
            lemma_shift_or(era_seconds, fraction);
        }
        let transmit_timestamp = (era_seconds << 32u64) | fraction;
        NtpPacket {
            li: 0,
            vn: 3,
            mode: 3,
            stratum: 0,
            poll: 0,
            precision: 0,
            root_delay: 0,
            root_dispersion: 0,
            reference_id: 0,
            reference_timestamp: 0,
            originate_timestamp: 0,
            receive_timestamp: 0,
            transmit_timestamp,
        }
    }

    /// The server's transmit time as a UTC instant (NTP era 0).
    pub fn parse_transmit_time(&self) -> (r: Result<UtcInstant, crate::sync::SyncError>)
        ensures
            r == Ok::<UtcInstant, crate::sync::SyncError>(unix_instant_of(self.transmit_timestamp)),
            unix_instant_of(self.transmit_timestamp).wf(),
    {
        let ts = self.transmit_timestamp;
        proof {
            lemma_split_word(ts);
        }
        let seconds = (ts >> 32u64) as i64;
        let fraction = ts & 0xFFFF_FFFFu64;
        let unix_seconds = seconds - NTP_EPOCH_UNIX_OFFSET;
        let scaled = fraction * 1_000_000_000;
        proof {
            lemma_split_word(scaled);
        }
        let nanos = (scaled >> 32u64) as u32;
        assert(scaled / 0x1_0000_0000 < 1_000_000_000) by (nonlinear_arith)
            requires scaled == fraction * 1_000_000_000, fraction < 0x1_0000_0000;
        match UtcInstant::from_timestamp(unix_seconds, nanos) {
            Some(t) => Ok(t),
            None => Err(crate::sync::SyncError::NtpTimeOutOfRange),
        }
    }
}

/// The transmit time of a server's reply; a reply in another mode is refused.
pub fn read_server_reply(bytes: &[u8; 48]) -> (r: Result<UtcInstant, crate::sync::SyncError>)
    ensures
        decode_packet(bytes@).mode != NTP_MODE_SERVER ==> r == Err::<UtcInstant, crate::sync::SyncError>(
            crate::sync::SyncError::InvalidNtpMode(decode_packet(bytes@).mode)),
        decode_packet(bytes@).mode == NTP_MODE_SERVER ==> r == Ok::<UtcInstant, crate::sync::SyncError>(
            unix_instant_of(decode_packet(bytes@).transmit_timestamp)),
{
    let response = NtpPacket::from_bytes(bytes)?;
    if response.mode != NTP_MODE_SERVER {
        return Err(crate::sync::SyncError::InvalidNtpMode(response.mode));
    }
    response.parse_transmit_time()
}

/// A client's timestamp, read back, gives the same second and the nanoseconds
/// at most one less (exactly the same when they are zero), for every instant in
/// NTP era 0 (from 1900 up to 2036-02-07T06:28:16Z).
pub proof fn lemma_timestamp_roundtrip(t: UtcInstant)
    requires
        t.wf(),
        -NTP_EPOCH_UNIX_OFFSET <= t.secs < 0x1_0000_0000 - NTP_EPOCH_UNIX_OFFSET,
    ensures
        unix_instant_of(ntp_timestamp_of(t)).secs == t.secs,
        t.nanos - 1 <= unix_instant_of(ntp_timestamp_of(t)).nanos <= t.nanos,
        t.nanos == 0 ==> unix_instant_of(ntp_timestamp_of(t)).nanos == 0,
{
    let s = t.secs + NTP_EPOCH_UNIX_OFFSET;
    let n = t.nanos as int;
    let f = ntp_fraction(n);
    assert(0 <= f < 0x1_0000_0000) by (nonlinear_arith)
        requires f == n * 0x1_0000_0000 / 1_000_000_000, 0 <= n < 1_000_000_000;
    assert(s % 0x1_0000_0000 == s);
    let ts = s * 0x1_0000_0000 + f;
    assert(ts / 0x1_0000_0000 == s && ts % 0x1_0000_0000 == f) by (nonlinear_arith)
        requires ts == s * 0x1_0000_0000 + f, 0 <= f < 0x1_0000_0000, 0 <= s;
    let m = f * 1_000_000_000 / 0x1_0000_0000;
    assert(n - 1 <= m <= n) by (nonlinear_arith)
        requires
            f == n * 0x1_0000_0000 / 1_000_000_000,
            m == f * 1_000_000_000 / 0x1_0000_0000,
            0 <= n < 1_000_000_000,
    {
        assert(f * 1_000_000_000 <= n * 0x1_0000_0000);
        assert(n * 0x1_0000_0000 < (f + 1) * 1_000_000_000);
        assert(m * 0x1_0000_0000 <= f * 1_000_000_000);
        assert(f * 1_000_000_000 < (m + 1) * 0x1_0000_0000);
    }
    if n == 0 {
        assert(f == 0);
    }
}

} // verus!
