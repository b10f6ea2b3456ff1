use sonic_pipe::modulation::{MFSKDemodulator, MFSKModulator};
use sonic_pipe::{Config, TransmissionMode, DEFAULT_VOLUME, SAMPLE_RATE};

fn lcg_bytes(mut seed: u64, len: usize) -> Vec<u8> {
    let mut out = Vec::with_capacity(len);
    for _ in 0..len {
        seed = seed.wrapping_mul(6364136223846793005).wrapping_add(1442695040888963407);
        out.push((seed >> 33) as u8);
    }
    out
}

fn sine_i16(freq: f64, len: usize) -> Vec<i16> {
    (0..len)
        .map(|i| {
            let t = i as f64 / SAMPLE_RATE as f64;
            (32767.0 * (2.0 * std::f64::consts::PI * freq * t).sin()).round() as i16
        })
        .collect()
}

#[test]
fn test_modulation_roundtrip() {
    let config = Config::default();
    let modulator = MFSKModulator::new(config);
    let demodulator = MFSKDemodulator::new(config);

    let data = vec![0xAB, 0xCD, 0x12, 0x34];
    let samples = modulator.modulate(&data);
    let decoded = demodulator.demodulate(&samples);

    assert!(decoded.is_some());
    assert_eq!(decoded.unwrap(), data);
}

#[test]
fn test_goertzel() {
    let config = Config::default();
    let demodulator = MFSKDemodulator::new(config);

    // A full-scale 1000 Hz sine over 4800 samples. Magnitudes are in Q15
    // sample units, so the original's absolute floor of 0.1 is 3276.
    let samples = sine_i16(1000.0, 4800);

    let magnitude = demodulator.goertzel(&samples, 1000);
    assert!(magnitude > 3276);

    let other_magnitude = demodulator.goertzel(&samples, 2000);
    assert!(magnitude > other_magnitude * 5);
}

#[test]
fn test_modulation_roundtrip_lengths() {
    let config = Config::default();
    let modulator = MFSKModulator::new(config);
    let demodulator = MFSKDemodulator::new(config);
    for len in [1usize, 2, 5, 64] {
        let data = lcg_bytes(1000 + len as u64, len);
        let samples = modulator.modulate(&data);
        let decoded = demodulator.demodulate(&samples);
        assert_eq!(decoded, Some(data), "length {}", len);
    }
}

#[test]
fn test_modulation_roundtrip_symbol_durations() {
    for symbol_duration_ms in [20u32, 100, 200] {
        let config = Config {
            symbol_duration_ms,
            ..Config::default()
        };
        let modulator = MFSKModulator::new(config);
        let demodulator = MFSKDemodulator::new(config);
        let data = vec![0x00, 0xFF, 0x0F, 0xF0, 0x77];
        let samples = modulator.modulate(&data);
        assert_eq!(demodulator.demodulate(&samples), Some(data));
    }
}

#[test]
fn test_modulate_frame_layout() {
    let config = Config::default();
    let modulator = MFSKModulator::new(config);
    let data = vec![0x5A, 0x3C];
    let samples = modulator.modulate(&data);
    // wake-up + 20 ms silence + two symbols per byte + trailing wake-up
    assert_eq!(samples.len(), 4800 + 960 + 2 * 2 * 2400 + 4800);
    // The guard silence after the leading wake-up tone is exactly zero.
    assert!(samples[4800..5760].iter().all(|&s| s == 0));
    // The fade starts every tone at zero amplitude.
    assert_eq!(samples[0], 0);
}

#[test]
fn test_generate_tone_envelope() {
    let config = Config::default();
    let modulator = MFSKModulator::new(config);
    let tone = modulator.generate_tone(1000, 50);
    assert_eq!(tone.len(), 2400);
    // Half volume keeps every sample within half of full scale.
    assert!(tone.iter().all(|&s| -16384 <= s && s <= 16384));
    // The first samples ramp up from silence.
    assert_eq!(tone[0], 0);
    assert!(tone[1].unsigned_abs() < 200);
}

#[test]
fn test_detect_symbol_tones() {
    let config = Config::default();
    let demodulator = MFSKDemodulator::new(config);
    let modulator = MFSKModulator::new(config);
    for nibble in 0..16u8 {
        let freq = 1000 + 100 * nibble as u32;
        let tone = modulator.generate_tone(freq, 50);
        assert_eq!(demodulator.detect_symbol(&tone), nibble);
    }
}

#[test]
fn test_wake_up_false_positive_suppression() {
    // One second of uniform noise under amplitude 0.01 (327 in Q15).
    let mut seed: u64 = 1;
    let mut noise: Vec<i16> = Vec::with_capacity(48000);
    for _ in 0..48000 {
        seed = seed.wrapping_mul(6364136223846793005).wrapping_add(1442695040888963407);
        noise.push(((seed >> 33) as i64 % 655 - 327) as i16);
    }
    let config = Config::default();
    let demodulator = MFSKDemodulator::new(config);
    assert_eq!(demodulator.detect_wake_up(&noise), None);
}

#[test]
fn test_demodulate_idempotent() {
    let config = Config::default();
    let modulator = MFSKModulator::new(config);
    let demodulator = MFSKDemodulator::new(config);
    let data = vec![0xDE, 0xAD, 0xBE, 0xEF];
    let samples = modulator.modulate(&data);
    let first = demodulator.demodulate(&samples);
    let second = demodulator.demodulate(&samples);
    assert_eq!(first, second);
    assert_eq!(first, Some(data));

    // Volume plays no part in demodulation.
    let quiet = Config {
        volume: 100,
        ..Config::default()
    };
    let quiet_demodulator = MFSKDemodulator::new(quiet);
    assert_eq!(quiet_demodulator.demodulate(&samples), first);
}

#[test]
fn test_ultrasonic_wake_collision() {
    // In the ultrasonic table tone 10 sits at 17000 + 10 * 150 = 18500 Hz,
    // the wake-up frequency itself, so the wake-up tone never rises above
    // the strongest data tone and no frame is detected.
    let config = Config {
        mode: TransmissionMode::Ultrasonic,
        ..Config::default()
    };
    let modulator = MFSKModulator::new(config);
    let demodulator = MFSKDemodulator::new(config);
    let data = vec![0xAB, 0xCD];
    let samples = modulator.modulate(&data);
    assert_eq!(demodulator.demodulate(&samples), None);
}

#[test]
fn test_frequency_tables() {
    let audible = MFSKModulator::new(Config::default());
    let freqs = audible.get_frequencies();
    assert_eq!(freqs.len(), 16);
    assert_eq!(freqs[0], 1000);
    assert_eq!(freqs[15], 2500);

    let ultrasonic = MFSKModulator::new(Config {
        mode: TransmissionMode::Ultrasonic,
        volume: DEFAULT_VOLUME,
        ..Config::default()
    });
    let freqs = ultrasonic.get_frequencies();
    assert_eq!(freqs[0], 17000);
    assert_eq!(freqs[15], 19250);
}
