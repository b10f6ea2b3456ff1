use sonic_pipe::codec::{compress, decompress, ReedSolomonCodec};
use sonic_pipe::error::SonicPipeError;

fn lcg_bytes(mut seed: u64, len: usize) -> Vec<u8> {
    let mut out = Vec::with_capacity(len);
    for _ in 0..len {
        seed = seed.wrapping_mul(6364136223846793005).wrapping_add(1442695040888963407);
        out.push((seed >> 33) as u8);
    }
    out
}

#[test]
fn test_compression_roundtrip() {
    let data = b"Hello, Sonic-Pipe! This is a test message.";
    let compressed = compress(data);
    let decompressed = decompress(&compressed).unwrap();
    assert_eq!(decompressed, data);
}

#[test]
fn test_compression_roundtrip_arbitrary() {
    let cases: Vec<Vec<u8>> = vec![
        Vec::new(),
        vec![0u8],
        vec![0u8; 4096],
        b"aaaaaaaaaaaaaaaaaaaaaaaaaaaaaaaaaaaaaa".to_vec(),
        lcg_bytes(42, 1000),
        lcg_bytes(7, 65537),
    ];
    for data in cases {
        let compressed = compress(&data);
        assert!(compressed.len() >= 4);
        let decompressed = decompress(&compressed).unwrap();
        assert_eq!(decompressed, data);
    }
}

#[test]
fn test_decompress_rejects_garbage() {
    // A length prefix that promises far more than the body delivers.
    let garbage = vec![0xFF, 0xFF, 0xFF, 0x7F, 1, 2, 3];
    assert!(matches!(
        decompress(&garbage),
        Err(SonicPipeError::Compression)
    ));
}

#[test]
fn test_reed_solomon_roundtrip() {
    let codec = ReedSolomonCodec::new().unwrap();
    let data = b"Test data for Reed-Solomon encoding";
    let encoded = codec.encode(data).unwrap();
    let decoded = codec.decode(&encoded).unwrap();
    assert_eq!(decoded, data);
}

#[test]
fn test_reed_solomon_roundtrip_sizes() {
    let codec = ReedSolomonCodec::new().unwrap();
    for len in [1usize, 2, 7, 8, 9, 16, 64, 100, 672, 1024] {
        let data = lcg_bytes(len as u64, len);
        let encoded = codec.encode(&data).unwrap();
        assert_eq!(encoded.len(), 8 + 12 * ((len + 7) / 8));
        let decoded = codec.decode(&encoded).unwrap();
        assert_eq!(decoded, data, "length {}", len);
    }
}

#[test]
fn test_reed_solomon_block_layout() {
    let codec = ReedSolomonCodec::new().unwrap();
    let encoded = codec.encode(&[1, 2, 3]).unwrap();
    // original_len = 3, shard_size = 1, then 8 data shards and 4 parity shards.
    assert_eq!(encoded.len(), 20);
    assert_eq!(&encoded[0..8], &[0, 0, 0, 3, 0, 0, 0, 1]);
    assert_eq!(&encoded[8..16], &[1, 2, 3, 0, 0, 0, 0, 0]);
}

#[test]
fn test_reed_solomon_rejects_empty() {
    let codec = ReedSolomonCodec::new().unwrap();
    assert!(matches!(
        codec.encode(&[]),
        Err(SonicPipeError::ErrorCorrection)
    ));
}

#[test]
fn test_reed_solomon_decode_errors() {
    let codec = ReedSolomonCodec::new().unwrap();
    // Too short for the header.
    assert!(matches!(
        codec.decode(&[0, 0, 0, 1]),
        Err(SonicPipeError::ErrorCorrection)
    ));
    // Header promises more shard bytes than the buffer holds.
    let encoded = codec.encode(&[9; 40]).unwrap();
    assert!(matches!(
        codec.decode(&encoded[..encoded.len() - 1]),
        Err(SonicPipeError::ErrorCorrection)
    ));
    // A zero shard size is rejected.
    assert!(matches!(
        codec.decode(&[0, 0, 0, 0, 0, 0, 0, 0]),
        Err(SonicPipeError::ErrorCorrection)
    ));
}
