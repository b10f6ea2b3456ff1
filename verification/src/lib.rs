use vstd::prelude::*;

pub mod codec;
pub mod dsp;
pub mod error;
pub mod modulation;
pub mod pipeline;
pub mod protocol;

verus! {

/// Samples per second of every waveform the modem produces or reads.
pub const SAMPLE_RATE: u32 = 48000;

/// Default duration of one 16-FSK symbol, in milliseconds.
pub const DEFAULT_SYMBOL_DURATION_MS: u32 = 50;

/// Number of distinct data tones; one symbol carries one nibble.
pub const NUM_TONES: usize = 16;

/// Frequency of the wake-up tone that frames every transmission, in Hz.
pub const WAKE_UP_FREQUENCY: u32 = 18500;

/// Duration of the wake-up tone, in milliseconds.
pub const WAKE_UP_DURATION_MS: u32 = 100;

/// Default tone amplitude, in units of 1/32768 of full scale (half volume).
pub const DEFAULT_VOLUME: u16 = 16384;

/// Full-scale tone amplitude, in units of 1/32768 of full scale.
pub const MAX_VOLUME: u16 = 32768;

/// The physical band a transmission uses.
#[derive(Debug, Clone, Copy, PartialEq, Eq, Structural)]
pub enum TransmissionMode {
    /// Tones from 1000 Hz to 2500 Hz, in steps of 100 Hz.
    Audible,
    /// Tones from 17000 Hz to 19250 Hz, in steps of 150 Hz.
    Ultrasonic,
}

impl TransmissionMode {
    /// Frequency of tone 0 of this mode, in Hz.
    pub open spec fn spec_base_frequency(self) -> u32 {
        match self {
            TransmissionMode::Audible => 1000,
            TransmissionMode::Ultrasonic => 17000,
        }
    }

    /// Distance between adjacent tones of this mode, in Hz.
    pub open spec fn spec_frequency_step(self) -> u32 {
        match self {
            TransmissionMode::Audible => 100,
            TransmissionMode::Ultrasonic => 150,
        }
    }

    pub fn base_frequency(&self) -> (r: u32)
        ensures
            r == self.spec_base_frequency(),
    {
        match self {
            TransmissionMode::Audible => 1000,
            TransmissionMode::Ultrasonic => 17000,
        }
    }

    pub fn frequency_step(&self) -> (r: u32)
        ensures
            r == self.spec_frequency_step(),
    {
        match self {
            TransmissionMode::Audible => 100,
            TransmissionMode::Ultrasonic => 150,
        }
    }
}

/// Immutable settings for one transmission.
#[derive(Debug, Clone, Copy, PartialEq, Eq, Structural)]
pub struct Config {
    pub mode: TransmissionMode,
    /// Duration of one symbol in milliseconds; 20 to 200 is acceptable.
    pub symbol_duration_ms: u32,
    /// Samples per second; fixed at 48000, all timings derive from it.
    pub sample_rate: u32,
    /// Linear tone amplitude in units of 1/32768 of full scale.
    pub volume: u16,
}

impl Config {
    /// The settings every modulator and demodulator relies on.
    pub open spec fn wf(self) -> bool {
        &&& self.sample_rate == SAMPLE_RATE
        &&& 20 <= self.symbol_duration_ms <= 200
        &&& self.volume <= MAX_VOLUME
    }

    /// Samples in one symbol window.
    pub open spec fn spec_symbol_samples(self) -> int {
        48 * self.symbol_duration_ms
    }
}

impl Default for Config {
    /// Audible mode, 50 ms symbols, 48 kHz, half volume.
    fn default() -> (c: Config)
        ensures
            c.wf(),
            c == (Config {
                mode: TransmissionMode::Audible,
                symbol_duration_ms: DEFAULT_SYMBOL_DURATION_MS,
                sample_rate: SAMPLE_RATE,
                volume: DEFAULT_VOLUME,
            }),
    {
        Config {
            mode: TransmissionMode::Audible,
            symbol_duration_ms: DEFAULT_SYMBOL_DURATION_MS,
            sample_rate: SAMPLE_RATE,
            volume: DEFAULT_VOLUME,
        }
    }
}

} // verus!
