use vstd::prelude::*;

use crate::error::SonicPipeError;

verus! {

/// Version byte written into every packet header.
pub const PROTOCOL_VERSION: u8 = 1;

/// Largest payload a packet may carry, in bytes.
pub const MAX_PAYLOAD_SIZE: usize = 1024;

/// Bytes in the packet header: version, two length bytes, flags.
pub const HEADER_SIZE: usize = 4;

/// The CRC-32 (ISO-HDLC polynomial) of a byte sequence. The checksum is a
/// function of the bytes alone; its value is not spelled out here, only
/// named, and every contract of this module speaks of it through this name.
pub uninterp spec fn crc32_of(data: Seq<u8>) -> u32;

/// Relies on `crc32fast::hash`: the CRC-32 (ISO-HDLC) of the bytes,
/// deterministic in the bytes alone.
#[verifier::external_body]
fn crc32(data: &Vec<u8>) -> (r: u32)
    ensures
        r == crc32_of(data@),
{
    crc32fast::hash(data.as_slice())
}

/// The value of two bytes read big-endian.
pub open spec fn be16_val(b0: u8, b1: u8) -> int {
    b0 * 256 + b1
}

/// The two big-endian bytes of a 16-bit value.
pub open spec fn spec_be16(v: u16) -> Seq<u8> {
    seq![(v / 256) as u8, (v % 256) as u8]
}

/// The value of four bytes read big-endian.
pub open spec fn be32_val(b0: u8, b1: u8, b2: u8, b3: u8) -> int {
    ((b0 * 256 + b1) * 256 + b2) * 256 + b3
}

/// The four big-endian bytes of a 32-bit value.
pub open spec fn spec_be32(v: u32) -> Seq<u8> {
    seq![
        (v / 0x1000000) as u8,
        ((v / 0x10000) % 256) as u8,
        ((v / 256) % 256) as u8,
        (v % 256) as u8,
    ]
}

/// The four big-endian bytes of a 32-bit value, as a vector.
pub fn be32_bytes(v: u32) -> (r: Vec<u8>)
    ensures
        r@ == spec_be32(v),
{
    proof {
        assert(v / 0x1000000 < 256) by (nonlinear_arith);
        assert((v / 0x10000) % 256 < 256 && (v / 256) % 256 < 256 && v % 256 < 256)
            by (nonlinear_arith);
    }
    let mut r: Vec<u8> = Vec::new();
    r.push((v / 0x1000000) as u8);
    r.push(((v / 0x10000) % 256) as u8);
    r.push(((v / 256) % 256) as u8);
    r.push((v % 256) as u8);
    proof {
        assert(r@ =~= spec_be32(v));
    }
    r
}

/// Reading back the big-endian bytes of a 16-bit value gives the value.
pub proof fn lemma_be16_round_trip(v: u16)
    ensures
        be16_val(spec_be16(v)[0], spec_be16(v)[1]) == v,
{
    vstd::arithmetic::div_mod::lemma_fundamental_div_mod(v as int, 256);
}

/// Reading back the big-endian bytes of a 32-bit value gives the value.
pub proof fn lemma_be32_round_trip(v: u32)
    ensures
        be32_val(spec_be32(v)[0], spec_be32(v)[1], spec_be32(v)[2], spec_be32(v)[3]) == v,
{
    let d0 = (v as int) / 0x1000000;
    let d1 = ((v as int) / 0x10000) % 256;
    let d2 = ((v as int) / 256) % 256;
    let d3 = (v as int) % 256;
    assert(d0 * 0x1000000 + d1 * 0x10000 + d2 * 256 + d3 == v) by {
        vstd::arithmetic::div_mod::lemma_fundamental_div_mod(v as int, 256);
        vstd::arithmetic::div_mod::lemma_fundamental_div_mod((v as int) / 256, 256);
        vstd::arithmetic::div_mod::lemma_fundamental_div_mod((v as int) / 0x10000, 256);
        vstd::arithmetic::div_mod::lemma_div_denominator(v as int, 256, 256);
        vstd::arithmetic::div_mod::lemma_div_denominator(v as int, 0x10000, 256);
    }
    assert(d0 < 256) by {
        vstd::arithmetic::div_mod::lemma_div_is_ordered(v as int, 0xffffffff, 0x1000000);
    }
    assert(((d0 * 256 + d1) * 256 + d2) * 256 + d3 == d0 * 0x1000000 + d1 * 0x10000 + d2 * 256
        + d3) by (nonlinear_arith);
}

/// Four bytes are determined by their big-endian value.
pub proof fn lemma_be32_val_injective(a0: u8, a1: u8, a2: u8, a3: u8, b0: u8, b1: u8, b2: u8, b3: u8)
    requires
        be32_val(a0, a1, a2, a3) == be32_val(b0, b1, b2, b3),
    ensures
        a0 == b0 && a1 == b1 && a2 == b2 && a3 == b3,
{
    let x = be32_val(a0, a1, a2, a3);
    let qa2 = (a0 * 256 + a1) * 256 + a2;
    let qb2 = (b0 * 256 + b1) * 256 + b2;
    vstd::arithmetic::div_mod::lemma_fundamental_div_mod_converse(x, 256, qa2, a3 as int);
    vstd::arithmetic::div_mod::lemma_fundamental_div_mod_converse(x, 256, qb2, b3 as int);
    let qa1 = a0 * 256 + a1;
    let qb1 = b0 * 256 + b1;
    vstd::arithmetic::div_mod::lemma_fundamental_div_mod_converse(qa2, 256, qa1, a2 as int);
    vstd::arithmetic::div_mod::lemma_fundamental_div_mod_converse(qb2, 256, qb1, b2 as int);
    vstd::arithmetic::div_mod::lemma_fundamental_div_mod_converse(qa1, 256, a0 as int, a1 as int);
    vstd::arithmetic::div_mod::lemma_fundamental_div_mod_converse(qb1, 256, b0 as int, b1 as int);
}

/// A self-describing frame: header, payload, and a CRC-32 trailer computed
/// over the payload alone.
#[derive(Debug, Clone)]
pub struct Packet {
    pub version: u8,
    pub payload_len: u16,
    pub flags: u8,
    pub payload: Vec<u8>,
    pub checksum: u32,
}

impl Packet {
    /// The recorded length matches the payload.
    pub open spec fn wf(self) -> bool {
        self.payload_len == self.payload@.len()
    }

    /// The wire form: `version || payload_len || flags || payload || checksum`,
    /// all multi-byte integers big-endian.
    pub open spec fn spec_serialize(self) -> Seq<u8> {
        seq![self.version] + spec_be16(self.payload_len) + seq![self.flags] + self.payload@
            + spec_be32(self.checksum)
    }

    /// Builds a packet over `payload`: version 1, flags 0, and the CRC-32 of
    /// the payload as checksum. Rejects payloads over `MAX_PAYLOAD_SIZE`.
    pub fn new(payload: Vec<u8>) -> (r: Result<Packet, SonicPipeError>)
        ensures
            payload@.len() > 1024 ==> (r matches Err(e) && e == SonicPipeError::InvalidPacket),
            payload@.len() <= 1024 ==> (r matches Ok(p) && p.version == 1 && p.payload_len
                == payload@.len() && p.flags == 0 && p.payload@ == payload@ && p.checksum
                == crc32_of(payload@) && p.wf()),
    {
        if payload.len() > MAX_PAYLOAD_SIZE {
            return Err(SonicPipeError::InvalidPacket);
        }
        let checksum = crc32(&payload);
        Ok(Packet {
            version: PROTOCOL_VERSION,
            payload_len: payload.len() as u16,
            flags: 0,
            payload,
            checksum,
        })
    }

    /// Writes the wire form of the packet.
    pub fn serialize(&self) -> (r: Vec<u8>)
        ensures
            r@ == self.spec_serialize(),
    {
        let mut data: Vec<u8> = Vec::new();
        data.push(self.version);
        proof {
            assert(self.payload_len / 256 < 256) by (nonlinear_arith);
        }
        data.push((self.payload_len / 256) as u8);
        data.push((self.payload_len % 256) as u8);
        data.push(self.flags);
        let ghost prefix = seq![self.version] + spec_be16(self.payload_len) + seq![self.flags];
        proof {
            assert(data@ =~= prefix);
        }
        let mut i: usize = 0;
        while i < self.payload.len()
            invariant
                i <= self.payload@.len(),
                data@ == prefix + self.payload@.take(i as int),
            decreases self.payload@.len() - i,
        {
            data.push(self.payload[i]);
            proof {
                assert(data@ =~= prefix + self.payload@.take(i as int + 1));
            }
            i = i + 1;
        }
        proof {
            assert(self.payload@.take(self.payload@.len() as int) =~= self.payload@);
        }
        let c = self.checksum;
        proof {
            assert(c / 0x1000000 < 256) by (nonlinear_arith);
            assert((c / 0x10000) % 256 < 256 && (c / 256) % 256 < 256 && c % 256 < 256)
                by (nonlinear_arith);
        }
        data.push((c / 0x1000000) as u8);
        data.push(((c / 0x10000) % 256) as u8);
        data.push(((c / 256) % 256) as u8);
        data.push((c % 256) as u8);
        proof {
            assert(data@ =~= self.spec_serialize());
        }
        data
    }

    /// The parse of a wire packet: the fields on success, or the error the
    /// parser reports.
    pub open spec fn spec_deserialize(data: Seq<u8>) -> Result<
        (u8, u16, u8, Seq<u8>, u32),
        SonicPipeError,
    > {
        if data.len() < 8 {
            Err(SonicPipeError::InvalidPacket)
        } else {
            let plen = be16_val(data[1], data[2]);
            if data.len() < plen + 8 {
                Err(SonicPipeError::InvalidPacket)
            } else {
                let payload = data.subrange(4, 4 + plen);
                let stored = be32_val(
                    data[4 + plen],
                    data[5 + plen],
                    data[6 + plen],
                    data[7 + plen],
                );
                if stored != crc32_of(payload) {
                    Err(SonicPipeError::ChecksumMismatch)
                } else {
                    Ok((data[0], plen as u16, data[3], payload, stored as u32))
                }
            }
        }
    }

    /// Parses a wire packet: requires at least a full header and trailer,
    /// a buffer long enough for the declared payload, and a matching CRC.
    /// Unknown flags are ignored and any version is accepted but recorded.
    pub fn deserialize(data: &[u8]) -> (r: Result<Packet, SonicPipeError>)
        ensures
            match Self::spec_deserialize(data@) {
                Ok(t) => r matches Ok(p) && p.version == t.0 && p.payload_len == t.1 && p.flags
                    == t.2 && p.payload@ == t.3 && p.checksum == t.4 && p.wf(),
                Err(e) => r matches Err(e2) && e2 == e,
            },
    {
        if data.len() < 8 {
            return Err(SonicPipeError::InvalidPacket);
        }
        let version = data[0];
        let payload_len: u16 = (data[1] as u16) * 256 + (data[2] as u16);
        let flags = data[3];
        let payload_end: usize = 4 + payload_len as usize;
        if data.len() < payload_end + 4 {
            return Err(SonicPipeError::InvalidPacket);
        }
        let payload_slice = vstd::slice::slice_subrange(data, 4, payload_end);
        let payload = vstd::slice::slice_to_vec(payload_slice);
        let computed = crc32(&payload);
        let stored: u32 = (data[payload_end] as u32) * 0x1000000 + (data[payload_end + 1] as u32)
            * 0x10000 + (data[payload_end + 2] as u32) * 256 + (data[payload_end + 3] as u32);
        if stored != computed {
            return Err(SonicPipeError::ChecksumMismatch);
        }
        Ok(Packet { version, payload_len, flags, payload, checksum: stored })
    }
}

/// Packet round trip: a packet whose recorded length matches its payload,
/// whose payload is within the size limit, and whose checksum is the CRC-32
/// of its payload parses back from its own wire form with the same fields.
pub proof fn lemma_packet_round_trip(p: Packet)
    requires
        p.wf(),
        p.payload@.len() <= 1024,
        p.checksum == crc32_of(p.payload@),
    ensures
        Packet::spec_deserialize(p.spec_serialize()) == Ok::<_, SonicPipeError>(
            (p.version, p.payload_len, p.flags, p.payload@, p.checksum),
        ),
{
    let s = p.spec_serialize();
    let plen = p.payload_len as int;
    assert(s.len() == 8 + plen);
    lemma_be16_round_trip(p.payload_len);
    assert(s[1] == spec_be16(p.payload_len)[0] && s[2] == spec_be16(p.payload_len)[1]);
    assert(be16_val(s[1], s[2]) == plen);
    assert(s.subrange(4, 4 + plen) =~= p.payload@);
    lemma_be32_round_trip(p.checksum);
    assert(s[4 + plen] == spec_be32(p.checksum)[0]);
    assert(s[5 + plen] == spec_be32(p.checksum)[1]);
    assert(s[6 + plen] == spec_be32(p.checksum)[2]);
    assert(s[7 + plen] == spec_be32(p.checksum)[3]);
    assert(be32_val(s[4 + plen], s[5 + plen], s[6 + plen], s[7 + plen]) == p.checksum);
    assert(s[0] == p.version && s[3] == p.flags);
}

/// Corruption of the checksum trailer is detected: a wire packet altered at
/// exactly one byte of its four checksum bytes parses to a checksum
/// mismatch, never to a packet.
pub proof fn lemma_checksum_corruption_detected(p: Packet, t: Seq<u8>, j: int)
    requires
        p.wf(),
        p.payload@.len() <= 1024,
        p.checksum == crc32_of(p.payload@),
        t.len() == p.spec_serialize().len(),
        4 + p.payload@.len() <= j < t.len(),
        t[j] != p.spec_serialize()[j],
        forall|i: int| 0 <= i < t.len() && i != j ==> t[i] == p.spec_serialize()[i],
    ensures
        Packet::spec_deserialize(t) == Err::<(u8, u16, u8, Seq<u8>, u32), _>(
            SonicPipeError::ChecksumMismatch,
        ),
{
    let s = p.spec_serialize();
    let plen = p.payload_len as int;
    assert(s.len() == 8 + plen);
    lemma_be16_round_trip(p.payload_len);
    assert(t[1] == s[1] && t[2] == s[2]);
    assert(be16_val(t[1], t[2]) == plen);
    assert(t.subrange(4, 4 + plen) =~= p.payload@);
    lemma_be32_round_trip(p.checksum);
    let c0 = t[4 + plen];
    let c1 = t[5 + plen];
    let c2 = t[6 + plen];
    let c3 = t[7 + plen];
    if be32_val(c0, c1, c2, c3) == p.checksum {
        lemma_be32_val_injective(
            c0, c1, c2, c3,
            s[4 + plen], s[5 + plen], s[6 + plen], s[7 + plen],
        );
        assert(t[j] == s[j]);
        assert(false);
    }
}

} // verus!
