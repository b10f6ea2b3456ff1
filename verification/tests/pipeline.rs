use sonic_pipe::error::SonicPipeError;
use sonic_pipe::pipeline::{decode, encode};
use sonic_pipe::Config;

fn lcg_bytes(mut seed: u64, len: usize) -> Vec<u8> {
    let mut out = Vec::with_capacity(len);
    for _ in 0..len {
        seed = seed.wrapping_mul(6364136223846793005).wrapping_add(1442695040888963407);
        out.push((seed >> 33) as u8);
    }
    out
}

#[test]
fn test_pipeline_text_roundtrip() {
    let config = Config::default();
    let message = "Hello, Sonic-Pipe!";
    let samples = encode(message.as_bytes(), &config).unwrap();
    let decoded = decode(&samples, &config).unwrap();
    assert_eq!(decoded, message.as_bytes());
}

#[test]
fn test_pipeline_binary_roundtrip() {
    let config = Config::default();
    let data = lcg_bytes(3, 200);
    let samples = encode(&data, &config).unwrap();
    let decoded = decode(&samples, &config).unwrap();
    assert_eq!(decoded, data);
}

#[test]
fn test_pipeline_compressible_payload() {
    // Highly repetitive kilobyte: it compresses far below the frame limit
    // and travels through the whole chain unchanged.
    let config = Config::default();
    let data = vec![0x42u8; 1024];
    let samples = encode(&data, &config).unwrap();
    let decoded = decode(&samples, &config).unwrap();
    assert_eq!(decoded, data);
}

#[test]
fn test_pipeline_rejects_incompressible_overflow() {
    // A kilobyte of noise does not compress; its encoded block cannot fit
    // the packet payload limit and the sender reports an invalid packet.
    let config = Config::default();
    let data = lcg_bytes(11, 1024);
    assert!(matches!(
        encode(&data, &config),
        Err(SonicPipeError::InvalidPacket)
    ));
}

#[test]
fn test_decode_silence_reports_no_wake_up() {
    let config = Config::default();
    let silence = vec![0i16; 48000];
    assert!(matches!(
        decode(&silence, &config),
        Err(SonicPipeError::NoWakeUpTone)
    ));
}
