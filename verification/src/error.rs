use vstd::prelude::*;

verus! {

/// The error taxonomy of the acoustic modem. Every fallible operation of the
/// library reports exactly one of these kinds; errors are surfaced verbatim
/// and never retried.
#[derive(Debug, Clone, Copy, PartialEq, Eq, Structural)]
pub enum SonicPipeError {
    /// No usable audio device, or the driver rejected the configuration.
    AudioDevice,
    /// A failure while building a transmission.
    Encoding,
    /// A failure while reading a received transmission.
    Decoding,
    /// LZ4 compression or decompression failure.
    Compression,
    /// Reed-Solomon shard count mismatch, short input, or uncorrectable data.
    ErrorCorrection,
    /// Packet payload over the limit, or a header inconsistent with the buffer.
    InvalidPacket,
    /// The CRC-32 over the payload does not match the packet trailer.
    ChecksumMismatch,
    /// The receiver saw no wake-up tone in the captured samples.
    NoWakeUpTone,
    /// Capture did not reach its completion predicate before the deadline.
    Timeout,
}

} // verus!
