use sonic_pipe::error::SonicPipeError;
use sonic_pipe::protocol::{Packet, HEADER_SIZE, MAX_PAYLOAD_SIZE, PROTOCOL_VERSION};

#[test]
fn test_packet_roundtrip() {
    let payload = b"Hello, Sonic-Pipe!".to_vec();
    let packet = Packet::new(payload.clone()).unwrap();
    let serialized = packet.serialize();
    let deserialized = Packet::deserialize(&serialized).unwrap();

    assert_eq!(deserialized.version, PROTOCOL_VERSION);
    assert_eq!(deserialized.payload, payload);
}

#[test]
fn test_packet_wire_layout() {
    let payload = b"abc".to_vec();
    let packet = Packet::new(payload.clone()).unwrap();
    let serialized = packet.serialize();
    assert_eq!(serialized.len(), HEADER_SIZE + 3 + 4);
    assert_eq!(serialized[0], 1);
    assert_eq!(serialized[1], 0);
    assert_eq!(serialized[2], 3);
    assert_eq!(serialized[3], 0);
    assert_eq!(&serialized[4..7], b"abc");
    // CRC-32 (ISO-HDLC) of "abc", big-endian.
    assert_eq!(&serialized[7..11], &[0x35, 0x24, 0x41, 0xC2]);
}

#[test]
fn test_packet_empty_payload() {
    let packet = Packet::new(Vec::new()).unwrap();
    let serialized = packet.serialize();
    assert_eq!(serialized.len(), 8);
    let back = Packet::deserialize(&serialized).unwrap();
    assert_eq!(back.payload.len(), 0);
}

#[test]
fn test_packet_rejects_oversize() {
    let payload = vec![7u8; MAX_PAYLOAD_SIZE + 1];
    match Packet::new(payload) {
        Err(SonicPipeError::InvalidPacket) => {}
        other => panic!("expected InvalidPacket, got {:?}", other.map(|p| p.payload_len)),
    }
    let exact = vec![7u8; MAX_PAYLOAD_SIZE];
    assert!(Packet::new(exact).is_ok());
}

#[test]
fn test_packet_too_short() {
    assert!(matches!(
        Packet::deserialize(&[1, 0, 0, 0, 0, 0, 0]),
        Err(SonicPipeError::InvalidPacket)
    ));
    // Header promises more payload than the buffer holds.
    assert!(matches!(
        Packet::deserialize(&[1, 0, 9, 0, 0, 0, 0, 0]),
        Err(SonicPipeError::InvalidPacket)
    ));
}

#[test]
fn test_packet_detects_corruption() {
    let payload = b"corruption probe".to_vec();
    let packet = Packet::new(payload.clone()).unwrap();
    let serialized = packet.serialize();
    // Flip every single bit of the payload and checksum regions in turn;
    // each flip must be rejected as a checksum mismatch.
    for byte in 4..serialized.len() {
        for bit in 0..8 {
            let mut corrupted = serialized.clone();
            corrupted[byte] ^= 1 << bit;
            match Packet::deserialize(&corrupted) {
                Err(SonicPipeError::ChecksumMismatch) => {}
                other => panic!(
                    "flip at byte {} bit {} gave {:?}",
                    byte,
                    bit,
                    other.map(|p| p.payload_len)
                ),
            }
        }
    }
}

#[test]
fn test_checksum_trailer_flip() {
    let payload = b"abc".to_vec();
    let packet = Packet::new(payload).unwrap();
    let mut serialized = packet.serialize();
    let last = serialized.len() - 1;
    serialized[last] ^= 0xFF;
    assert!(matches!(
        Packet::deserialize(&serialized),
        Err(SonicPipeError::ChecksumMismatch)
    ));
}
