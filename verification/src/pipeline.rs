use vstd::prelude::*;

use crate::Config;
use crate::codec::{
    compress, decompress, lemma_codeword_uniform, lemma_concat_shards_uniform, lz4_framed_of,
    spec_codeword, spec_rs_decode, spec_rs_encode, spec_shard_size, ReedSolomonCodec,
};
use crate::error::SonicPipeError;
use crate::modulation::{spec_demodulate, spec_modulate, MFSKDemodulator, MFSKModulator};
use crate::protocol::{crc32_of, spec_be16, spec_be32, Packet};

verus! {

/// The largest compressed payload a frame can carry: the encoded block of a
/// compressed payload holds `8 + 12 * ceil(len / 8)` bytes and must fit the
/// packet's 1024-byte payload limit.
pub const MAX_COMPRESSED_SIZE: usize = 672;

/// The wire packet of a payload: version 1, flags 0, the Reed-Solomon
/// encoding of the compressed payload, and its CRC-32 trailer.
pub open spec fn spec_frame_bytes(data: Seq<u8>) -> Seq<u8> {
    let payload = spec_rs_encode(lz4_framed_of(data));
    seq![1u8] + spec_be16(payload.len() as u16) + seq![0u8] + payload + spec_be32(
        crc32_of(payload))
}

/// The whole sender: compress, encode, packetize, modulate. Succeeds exactly
/// when the compressed payload fits one frame, and then emits the one
/// transmission whose packet carries the encoded block.
pub fn encode(data: &[u8], config: &Config) -> (r: Result<Vec<i16>, SonicPipeError>)
    requires
        config.wf(),
        data@.len() < 0x80000000,
    ensures
        lz4_framed_of(data@).len() <= 672 ==> (r matches Ok(v) && v@ == spec_modulate(
            spec_frame_bytes(data@), *config)),
        lz4_framed_of(data@).len() > 672 ==> (r matches Err(e) && e
            == SonicPipeError::InvalidPacket),
{
    let compressed = compress(data);
    if compressed.len() > MAX_COMPRESSED_SIZE {
        return Err(SonicPipeError::InvalidPacket);
    }
    let ecc = match ReedSolomonCodec::new() {
        Ok(c) => c,
        Err(_) => vstd::pervasive::unreached(),
    };
    let encoded = match ecc.encode(compressed.as_slice()) {
        Ok(v) => v,
        Err(_) => vstd::pervasive::unreached(),
    };
    proof {
        let c = lz4_framed_of(data@);
        let s = spec_shard_size(c.len() as int);
        assert(1 <= s <= 84) by {
            vstd::arithmetic::div_mod::lemma_div_is_ordered(8, c.len() as int + 7, 8);
            vstd::arithmetic::div_mod::lemma_div_is_ordered(c.len() as int + 7, 679, 8);
        }
        lemma_codeword_uniform(c, s);
        lemma_concat_shards_uniform(spec_codeword(c), s);
        assert(encoded@.len() == 8 + 12 * s);
        assert(encoded@.len() <= 1016);
    }
    let packet = match Packet::new(encoded) {
        Ok(p) => p,
        Err(_) => vstd::pervasive::unreached(),
    };
    let packet_data = packet.serialize();
    let modulator = MFSKModulator::new(*config);
    let samples = modulator.modulate(packet_data.as_slice());
    proof {
        assert(packet.spec_serialize() =~= spec_frame_bytes(data@));
    }
    Ok(samples)
}

/// The receiver up to decompression: the demodulated frame parsed as a
/// packet and Reed-Solomon decoded, or the first error on that way.
pub open spec fn spec_decode_stages(samples: Seq<i16>, cfg: Config) -> Result<
    Seq<u8>,
    SonicPipeError,
> {
    match spec_demodulate(samples, cfg.mode, cfg.spec_symbol_samples()) {
        None => Err(SonicPipeError::NoWakeUpTone),
        Some(bytes) => match Packet::spec_deserialize(bytes) {
            Err(e) => Err(e),
            Ok(t) => spec_rs_decode(t.3),
        },
    }
}

/// The whole receiver: demodulate, depacketize, decode, decompress. Every
/// stage's error is surfaced verbatim; a recovered block that is a
/// compressor output decompresses to the original bytes.
pub fn decode(samples: &[i16], config: &Config) -> (r: Result<Vec<u8>, SonicPipeError>)
    requires
        config.wf(),
        samples@.len() <= 100000000,
    ensures
        spec_decode_stages(samples@, *config) matches Err(e) ==> (r matches Err(e2) && e2 == e),
        spec_decode_stages(samples@, *config) matches Ok(d) ==> ((forall|y: Seq<u8>|
            y.len() <= u32::MAX && d == #[trigger] lz4_framed_of(y) ==> (r matches Ok(v) && v@
            == y)) && (r matches Err(e) ==> e == SonicPipeError::Compression)),
{
    let demodulator = MFSKDemodulator::new(*config);
    let raw = match demodulator.demodulate(samples) {
        Some(d) => d,
        None => {
            return Err(SonicPipeError::NoWakeUpTone);
        },
    };
    let packet = match Packet::deserialize(raw.as_slice()) {
        Ok(p) => p,
        Err(e) => {
            return Err(e);
        },
    };
    let ecc = match ReedSolomonCodec::new() {
        Ok(c) => c,
        Err(_) => vstd::pervasive::unreached(),
    };
    let decoded = match ecc.decode(packet.payload.as_slice()) {
        Ok(d) => d,
        Err(e) => {
            return Err(e);
        },
    };
    decompress(decoded.as_slice())
}

} // verus!
