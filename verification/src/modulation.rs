use vstd::prelude::*;

use crate::{Config, TransmissionMode, WAKE_UP_DURATION_MS, WAKE_UP_FREQUENCY};
use crate::dsp::{
    lemma_trunc_div_lower, lemma_trunc_div_upper, sine_interp, sine_interp_exec, spec_isqrt,
    trunc_div, trunc_div_i64, trunc_div_i128, isqrt_u128,
};

verus! {

/// Frequency of tone `i` of a mode, in Hz.
pub open spec fn spec_freq(mode: TransmissionMode, i: int) -> u32 {
    (mode.spec_base_frequency() + i * mode.spec_frequency_step()) as u32
}

/// Every tone of the table lies well inside the band the DSP accepts.
pub proof fn lemma_freq_bounds(mode: TransmissionMode, i: int)
    requires
        0 <= i < 16,
    ensures
        1000 <= spec_freq(mode, i) <= 19250,
{
    assert(0 <= i * mode.spec_frequency_step() <= 15 * 150) by (nonlinear_arith)
        requires 0 <= i < 16, 0 <= mode.spec_frequency_step() <= 150;
}

/// The sixteen tone frequencies of a mode.
pub fn frequency_table(mode: TransmissionMode) -> (r: Vec<u32>)
    ensures
        r@.len() == 16,
        forall|i: int| 0 <= i < 16 ==> r@[i] == spec_freq(mode, i),
{
    let base = mode.base_frequency();
    let step = mode.frequency_step();
    let mut r: Vec<u32> = Vec::new();
    let mut i: u32 = 0;
    while i < 16
        invariant
            i <= 16,
            r@.len() == i,
            base == mode.spec_base_frequency(),
            step == mode.spec_frequency_step(),
            forall|k: int| 0 <= k < i ==> r@[k] == spec_freq(mode, k),
        decreases 16 - i,
    {
        proof {
            lemma_freq_bounds(mode, i as int);
        }
        r.push(base + i * step);
        i = i + 1;
    }
    r
}

/// Phase of sample `i` of a tone at `freq` Hz, in interpolation units.
pub open spec fn spec_tone_phase(freq: u32, i: int) -> int {
    (freq * i * 32) / 25 % 61440
}

/// The linear 5 ms fade ramp: the numerator over 240 of the envelope.
pub open spec fn spec_fade(n: int, i: int) -> int {
    if i < 240 {
        i
    } else if i > n - 240 {
        n - i
    } else {
        240
    }
}

/// Sample `i` of an `n`-sample tone at `freq` Hz and the given volume:
/// the faded, volume-scaled sine value, in Q15.
pub open spec fn spec_tone_sample(freq: u32, volume: u16, n: int, i: int) -> i16 {
    trunc_div(sine_interp(spec_tone_phase(freq, i)) * volume * spec_fade(n, i), 503316480) as i16
}

/// A whole tone: `48 * duration_ms` samples with a 5 ms fade at each edge.
pub open spec fn spec_tone(freq: u32, duration_ms: u32, volume: u16) -> Seq<i16> {
    Seq::new((48 * duration_ms) as nat, |i: int| spec_tone_sample(freq, volume,
        48 * duration_ms, i))
}

/// The 20 ms guard silence after the leading wake-up tone.
pub open spec fn spec_silence() -> Seq<i16> {
    Seq::new(960, |i: int| 0i16)
}

/// The two symbols of one byte: high nibble first, then low nibble.
pub open spec fn spec_byte_tones(b: u8, cfg: Config) -> Seq<i16> {
    spec_tone(spec_freq(cfg.mode, ((b >> 4) & 0xf) as int), cfg.symbol_duration_ms, cfg.volume)
        + spec_tone(spec_freq(cfg.mode, (b & 0xf) as int), cfg.symbol_duration_ms, cfg.volume)
}

/// The symbol tones of a payload, byte after byte.
pub open spec fn spec_payload_tones(data: Seq<u8>, cfg: Config) -> Seq<i16>
    decreases data.len(),
{
    if data.len() == 0 {
        Seq::empty()
    } else {
        spec_byte_tones(data[0], cfg) + spec_payload_tones(data.skip(1), cfg)
    }
}

/// Modulating one more byte appends its two symbol tones.
pub proof fn lemma_payload_tones_snoc(data: Seq<u8>, cfg: Config, i: int)
    requires
        0 <= i < data.len(),
    ensures
        spec_payload_tones(data.take(i + 1), cfg) == spec_payload_tones(data.take(i), cfg)
            + spec_byte_tones(data[i], cfg),
    decreases i,
{
    if i == 0 {
        assert(data.take(1).skip(1) =~= Seq::<u8>::empty());
        assert(data.take(0) =~= Seq::<u8>::empty());
        assert(spec_payload_tones(data.take(1), cfg) =~= spec_payload_tones(data.take(0), cfg)
            + spec_byte_tones(data[0], cfg));
    } else {
        let tail = data.skip(1);
        lemma_payload_tones_snoc(tail, cfg, i - 1);
        assert(data.take(i + 1).skip(1) =~= tail.take(i));
        assert(data.take(i).skip(1) =~= tail.take(i - 1));
        assert(data.take(i + 1)[0] == data[0] && data.take(i)[0] == data[0]);
        assert(tail[i - 1] == data[i]);
        assert(spec_payload_tones(data.take(i + 1), cfg) == spec_byte_tones(data[0], cfg)
            + (spec_payload_tones(tail.take(i - 1), cfg) + spec_byte_tones(data[i], cfg)));
        assert(spec_byte_tones(data[0], cfg) + (spec_payload_tones(tail.take(i - 1), cfg)
            + spec_byte_tones(data[i], cfg)) =~= (spec_byte_tones(data[0], cfg)
            + spec_payload_tones(tail.take(i - 1), cfg)) + spec_byte_tones(data[i], cfg));
    }
}

/// One whole transmission: wake-up tone, guard silence, two symbols per
/// byte, trailing wake-up tone.
pub open spec fn spec_modulate(data: Seq<u8>, cfg: Config) -> Seq<i16> {
    spec_tone(WAKE_UP_FREQUENCY, WAKE_UP_DURATION_MS, cfg.volume) + spec_silence()
        + spec_payload_tones(data, cfg) + spec_tone(WAKE_UP_FREQUENCY, WAKE_UP_DURATION_MS,
        cfg.volume)
}

/// The 16-FSK modulator: turns bytes into audio samples.
pub struct MFSKModulator {
    pub config: Config,
    pub frequencies: Vec<u32>,
}

impl MFSKModulator {
    /// The configuration is acceptable and the tone table matches the mode.
    pub open spec fn wf(self) -> bool {
        &&& self.config.wf()
        &&& self.frequencies@.len() == 16
        &&& forall|i: int| 0 <= i < 16 ==> self.frequencies@[i] == spec_freq(self.config.mode, i)
    }

    pub fn new(config: Config) -> (r: MFSKModulator)
        requires
            config.wf(),
        ensures
            r.wf(),
            r.config == config,
    {
        let frequencies = frequency_table(config.mode);
        MFSKModulator { config, frequencies }
    }

    /// The tone frequencies this modulator emits.
    pub fn get_frequencies(&self) -> (r: &Vec<u32>)
        ensures
            r@ == self.frequencies@,
    {
        &self.frequencies
    }

    /// A raised-edge sine tone: `sin(2*pi*freq*i/48000)`, scaled by the
    /// configured volume and a linear 5 ms fade at both edges.
    pub fn generate_tone(&self, frequency: u32, duration_ms: u32) -> (r: Vec<i16>)
        requires
            self.wf(),
            1 <= frequency <= 24000,
            5 <= duration_ms <= 2000,
        ensures
            r@ == spec_tone(frequency, duration_ms, self.config.volume),
    {
        let n: usize = (48 * duration_ms) as usize;
        let volume = self.config.volume;
        let mut samples: Vec<i16> = Vec::new();
        let mut i: usize = 0;
        while i < n
            invariant
                i <= n,
                n == 48 * duration_ms,
                240 <= n <= 96000,
                1 <= frequency <= 24000,
                volume <= 32768,
                samples@.len() == i,
                forall|k: int|
                    0 <= k < i ==> samples@[k] == spec_tone_sample(frequency, volume,
                        n as int, k),
            decreases n - i,
        {
            proof {
                assert(0 <= (frequency as int) * (i as int) && (frequency as int) * (i as int)
                    * 32 <= 24000 * 96000 * 32) by (nonlinear_arith)
                    requires 1 <= frequency <= 24000, 0 <= i < 96000;
            }
            let p: u64 = (frequency as u64) * (i as u64) * 32 / 25 % 61440;
            let v: i64 = sine_interp_exec(p);
            let fade: i64 = if i < 240 {
                i as i64
            } else if i > n - 240 {
                (n - i) as i64
            } else {
                240
            };
            proof {
                assert(p == spec_tone_phase(frequency, i as int));
                assert(fade == spec_fade(n as int, i as int));
                assert(0 <= fade <= 240);
                assert(-2097152 * 32768 <= v * (volume as i64) <= 2097088 * 32768)
                    by (nonlinear_arith)
                    requires
                        -2097152 <= v <= 2097088,
                        0 <= volume <= 32768;
                assert(-2097152 * 32768 * 240 <= v * (volume as i64) * fade <= 2097088 * 32768
                    * 240) by (nonlinear_arith)
                    requires
                        -2097152 <= v <= 2097088,
                        0 <= volume <= 32768,
                        0 <= fade <= 240;
                assert(2097088 * 32768 * 240 < (32767 + 1) * 503316480) by (nonlinear_arith);
                assert(-((32768 + 1) * 503316480) < -2097152 * 32768 * 240) by (nonlinear_arith);
            }
            let prod: i64 = v * (volume as i64) * fade;
            proof {
                lemma_trunc_div_upper(prod as int, 503316480, 32767);
                lemma_trunc_div_lower(prod as int, 503316480, 32768);
            }
            let q: i64 = trunc_div_i64(prod, 503316480);
            samples.push(q as i16);
            i = i + 1;
        }
        proof {
            assert(samples@ =~= spec_tone(frequency, duration_ms, self.config.volume));
        }
        samples
    }

    /// The 100 ms wake-up tone at the reserved frequency.
    pub fn generate_wake_up_tone(&self) -> (r: Vec<i16>)
        requires
            self.wf(),
        ensures
            r@ == spec_tone(WAKE_UP_FREQUENCY, WAKE_UP_DURATION_MS, self.config.volume),
    {
        self.generate_tone(WAKE_UP_FREQUENCY, WAKE_UP_DURATION_MS)
    }

    /// Emits a whole transmission for the payload: leading wake-up tone,
    /// 20 ms of silence, then for every byte the tone of its high nibble and
    /// the tone of its low nibble, and a trailing wake-up tone.
    pub fn modulate(&self, data: &[u8]) -> (r: Vec<i16>)
        requires
            self.wf(),
            data@.len() <= 1000000,
        ensures
            r@ == spec_modulate(data@, self.config),
    {
        let cfg = self.config;
        let mut samples = self.generate_wake_up_tone();
        let ghost wake = spec_tone(WAKE_UP_FREQUENCY, WAKE_UP_DURATION_MS, cfg.volume);
        let mut z: usize = 0;
        while z < 960
            invariant
                z <= 960,
                samples@.len() == wake.len() + z,
                wake == spec_tone(WAKE_UP_FREQUENCY, WAKE_UP_DURATION_MS, cfg.volume),
                samples@ =~= wake + spec_silence().take(z as int),
            decreases 960 - z,
        {
            samples.push(0);
            proof {
                assert(samples@ =~= wake + spec_silence().take(z as int + 1));
            }
            z = z + 1;
        }
        proof {
            assert(spec_silence().take(960) =~= spec_silence());
            assert(data@.take(0) =~= Seq::<u8>::empty());
        }
        let mut bi: usize = 0;
        while bi < data.len()
            invariant
                bi <= data@.len(),
                self.wf(),
                cfg == self.config,
                data@.len() <= 1000000,
                wake == spec_tone(WAKE_UP_FREQUENCY, WAKE_UP_DURATION_MS, cfg.volume),
                samples@ == wake + spec_silence() + spec_payload_tones(data@.take(bi as int),
                    cfg),
            decreases data@.len() - bi,
        {
            let b = data[bi];
            let hi: usize = ((b >> 4) & 0x0f) as usize;
            let lo: usize = (b & 0x0f) as usize;
            proof {
                assert((b >> 4) & 0x0f < 16 && b & 0x0f < 16) by (bit_vector);
                lemma_freq_bounds(cfg.mode, hi as int);
                lemma_freq_bounds(cfg.mode, lo as int);
            }
            let mut t1 = self.generate_tone(self.frequencies[hi], cfg.symbol_duration_ms);
            samples.append(&mut t1);
            let mut t2 = self.generate_tone(self.frequencies[lo], cfg.symbol_duration_ms);
            samples.append(&mut t2);
            proof {
                lemma_payload_tones_snoc(data@, cfg, bi as int);
                assert(samples@ =~= wake + spec_silence() + spec_payload_tones(data@.take(
                    bi as int + 1), cfg));
            }
            bi = bi + 1;
        }
        proof {
            assert(data@.take(data@.len() as int) =~= data@);
        }
        let mut t3 = self.generate_wake_up_tone();
        samples.append(&mut t3);
        proof {
            assert(samples@ =~= spec_modulate(data@, cfg));
        }
        samples
    }
}

/// The Goertzel coefficient for `freq` over an `n`-sample window: twice the
/// cosine of the bin frequency, in Q15 (so the Q15 cosine value itself).
pub open spec fn spec_goertzel_coeff(freq: u32, n: int) -> int {
    let k = (freq * n + 24000) / 48000;
    let p = ((k * 61440 + n / 2) / n + 15360) % 61440;
    trunc_div(sine_interp(p) + 32, 64)
}

/// Saturation bound of the Goertzel recurrence state.
pub open spec fn spec_clamp(v: int) -> int {
    if v > 0x200000000000 {
        0x200000000000
    } else if v < -0x200000000000 {
        -0x200000000000
    } else {
        v
    }
}

/// The two-register Goertzel recurrence over a window, with the coefficient
/// in Q15 and saturation at the clamp bound.
pub open spec fn spec_goertzel_state(xs: Seq<i16>, c: int) -> (int, int)
    decreases xs.len(),
{
    if xs.len() == 0 {
        (0, 0)
    } else {
        let prev = spec_goertzel_state(xs.drop_last(), c);
        (spec_clamp(xs.last() + trunc_div(2 * c * prev.0, 32768) - prev.1), prev.0)
    }
}

/// Both registers of the recurrence stay within the clamp bound.
pub proof fn lemma_goertzel_state_bounded(xs: Seq<i16>, c: int)
    ensures
        -0x200000000000 <= spec_goertzel_state(xs, c).0 <= 0x200000000000,
        -0x200000000000 <= spec_goertzel_state(xs, c).1 <= 0x200000000000,
    decreases xs.len(),
{
    if xs.len() > 0 {
        lemma_goertzel_state_bounded(xs.drop_last(), c);
    }
}

/// The squared magnitude of the window at the coefficient's bin.
pub open spec fn spec_goertzel_power(xs: Seq<i16>, c: int) -> int {
    let st = spec_goertzel_state(xs, c);
    let p = st.0 * st.0 + st.1 * st.1 - trunc_div(2 * c * st.0 * st.1, 32768);
    if p < 0 {
        0
    } else {
        p
    }
}

/// The Goertzel magnitude estimate of `freq` in the window, in Q15 sample
/// units.
pub open spec fn spec_goertzel(xs: Seq<i16>, freq: u32) -> int {
    spec_isqrt(spec_goertzel_power(xs, spec_goertzel_coeff(freq, xs.len() as int)))
}

/// The strongest tone of the first `i` tones of the mode's table: the index
/// of the first maximum, and its magnitude.
pub open spec fn spec_scan_best(xs: Seq<i16>, mode: TransmissionMode, i: int) -> (int, int)
    decreases i,
{
    if i <= 0 {
        (0, 0)
    } else {
        let prev = spec_scan_best(xs, mode, i - 1);
        let m = spec_goertzel(xs, spec_freq(mode, i - 1));
        if m > prev.1 {
            (i - 1, m)
        } else {
            prev
        }
    }
}

/// The scan keeps its index among the tones and its magnitude non-negative.
pub proof fn lemma_scan_best_bounds(xs: Seq<i16>, mode: TransmissionMode, i: int)
    requires
        0 <= i,
    ensures
        0 <= spec_scan_best(xs, mode, i).0 < if i == 0 { 1int } else { i },
        0 <= spec_scan_best(xs, mode, i).1,
    decreases i,
{
    if i > 0 {
        lemma_scan_best_bounds(xs, mode, i - 1);
    }
}

/// A window reads as a wake-up marker: the wake-up tone is above the
/// absolute floor and half again above the strongest data tone.
pub open spec fn spec_is_wake(xs: Seq<i16>, mode: TransmissionMode) -> bool {
    let w = spec_goertzel(xs, WAKE_UP_FREQUENCY);
    let d = spec_scan_best(xs, mode, 16).1;
    w > 327 && 2 * w > 3 * d
}

/// The sliding wake-up search from offset `i`: the sample index one wake-up
/// duration past the first half-window that reads as a wake-up marker.
pub open spec fn spec_detect_from(xs: Seq<i16>, mode: TransmissionMode, i: int) -> Option<int>
    decreases xs.len() + 2400 - i,
{
    if i + 2400 > xs.len() {
        None
    } else if spec_is_wake(xs.subrange(i, i + 2400), mode) {
        Some(i + 4800)
    } else {
        spec_detect_from(xs, mode, i + 600)
    }
}

/// The nibbles read from fixed-stride symbol windows starting at `pos`,
/// stopping at the buffer's end or at a trailing wake-up marker.
pub open spec fn spec_read_nibbles(xs: Seq<i16>, mode: TransmissionMode, sym: int, pos: int)
    -> Seq<u8>
    decreases xs.len() - pos,
{
    if sym < 1 || pos < 0 || pos + sym > xs.len() {
        Seq::empty()
    } else {
        let w = xs.subrange(pos, pos + sym);
        if spec_is_wake(w, mode) {
            Seq::empty()
        } else {
            seq![spec_scan_best(w, mode, 16).0 as u8] + spec_read_nibbles(xs, mode, sym,
                pos + sym)
        }
    }
}

/// Pairing nibbles into bytes, high nibble first; a trailing unpaired
/// nibble is discarded.
pub open spec fn spec_pair_nibbles(nibs: Seq<u8>) -> Seq<u8>
    decreases nibs.len(),
{
    if nibs.len() < 2 {
        Seq::empty()
    } else {
        seq![(nibs[0] << 4) | (nibs[1] & 0x0f)] + spec_pair_nibbles(nibs.skip(2))
    }
}

/// The whole demodulation: sync on the wake-up tone, skip the guard
/// silence, read symbols to the trailing marker, pair nibbles into bytes;
/// no frame or no bytes give nothing.
pub open spec fn spec_demodulate(xs: Seq<i16>, mode: TransmissionMode, sym: int) -> Option<
    Seq<u8>,
> {
    match spec_detect_from(xs, mode, 0) {
        None => None,
        Some(st) => {
            let bytes = spec_pair_nibbles(spec_read_nibbles(xs, mode, sym, st + 960));
            if bytes.len() == 0 {
                None
            } else {
                Some(bytes)
            }
        },
    }
}

/// The 16-FSK demodulator: reads bytes back out of audio samples.
pub struct MFSKDemodulator {
    pub config: Config,
    pub frequencies: Vec<u32>,
}

impl MFSKDemodulator {
    /// The configuration is acceptable and the tone table matches the mode.
    pub open spec fn wf(self) -> bool {
        &&& self.config.wf()
        &&& self.frequencies@.len() == 16
        &&& forall|i: int| 0 <= i < 16 ==> self.frequencies@[i] == spec_freq(self.config.mode, i)
    }

    pub fn new(config: Config) -> (r: MFSKDemodulator)
        requires
            config.wf(),
        ensures
            r.wf(),
            r.config == config,
    {
        let frequencies = frequency_table(config.mode);
        MFSKDemodulator { config, frequencies }
    }

    /// The tone frequencies this demodulator listens for.
    pub fn get_frequencies(&self) -> (r: &Vec<u32>)
        ensures
            r@ == self.frequencies@,
    {
        &self.frequencies
    }

    /// The Goertzel magnitude of `target_freq` over the window, evaluated at
    /// the bin nearest the target, in O(n) with fixed-point state.
    pub fn goertzel(&self, samples: &[i16], target_freq: u32) -> (r: u64)
        requires
            self.wf(),
            1 <= target_freq <= 24000,
            1 <= samples@.len() <= 100000000,
        ensures
            r as int == spec_goertzel(samples@, target_freq),
            r < 0x800000000000,
    {
        let n: usize = samples.len();
        proof {
            assert(0 <= (target_freq as int) * (n as int) <= 24000 * 100000000)
                by (nonlinear_arith)
                requires 1 <= target_freq <= 24000, 1 <= n <= 100000000;
        }
        let k: u64 = ((target_freq as u64) * (n as u64) + 24000) / 48000;
        proof {
            assert(k <= 50000001) by {
                vstd::arithmetic::div_mod::lemma_div_is_ordered(
                    (target_freq as int) * (n as int) + 24000, 2400000024000int,
                    48000);
            }
            assert(0 <= (k as int) * 61440 <= 50000001 * 61440) by (nonlinear_arith)
                requires 0 <= k <= 50000001;
        }
        let p: u64 = ((k * 61440 + (n as u64) / 2) / (n as u64) + 15360) % 61440;
        let c64: i64 = sine_interp_exec(p);
        proof {
            lemma_trunc_div_upper(c64 as int + 32, 64, 32767);
            lemma_trunc_div_lower(c64 as int + 32, 64, 32767);
        }
        let c: i64 = trunc_div_i64(c64 + 32, 64);
        let ghost ci = spec_goertzel_coeff(target_freq, samples@.len() as int);
        proof {
            assert(c == ci);
            assert(-32767 <= c <= 32767);
        }
        let mut s1: i64 = 0;
        let mut s2: i64 = 0;
        let mut i: usize = 0;
        proof {
            assert(samples@.take(0) =~= Seq::<i16>::empty());
        }
        while i < n
            invariant
                i <= n,
                n == samples@.len(),
                -32767 <= c <= 32767,
                c == ci,
                (s1 as int, s2 as int) == spec_goertzel_state(samples@.take(i as int), ci),
                -0x200000000000 <= s1 <= 0x200000000000,
                -0x200000000000 <= s2 <= 0x200000000000,
            decreases n - i,
        {
            proof {
                assert(-32767 * 2 <= 2 * (c as int) <= 32767 * 2) by (nonlinear_arith)
                    requires -32767 <= c <= 32767;
                assert(-0x200000000000 * 32767 * 2 <= 2 * (c as int) * (s1 as int)
                    <= 0x200000000000 * 32767 * 2) by (nonlinear_arith)
                    requires
                        -32767 * 2 <= 2 * (c as int) <= 32767 * 2,
                        -0x200000000000 <= s1 <= 0x200000000000;
                assert(0x200000000000 * 32767 * 2 < (0x400000000000 + 1) * 32768)
                    by (nonlinear_arith);
                lemma_trunc_div_upper(2 * (c as int) * (s1 as int), 32768, 0x400000000000);
                lemma_trunc_div_lower(2 * (c as int) * (s1 as int), 32768, 0x400000000000);
            }
            let prod: i64 = 2 * c * s1;
            let q: i64 = trunc_div_i64(prod, 32768);
            let x: i64 = samples[i] as i64;
            let sum: i64 = x + q - s2;
            let s0: i64 = if sum > 0x200000000000 {
                0x200000000000
            } else if sum < -0x200000000000 {
                -0x200000000000
            } else {
                sum
            };
            proof {
                assert(samples@.take(i as int + 1).drop_last() =~= samples@.take(i as int));
                assert(samples@.take(i as int + 1).last() == samples@[i as int]);
            }
            s2 = s1;
            s1 = s0;
            i = i + 1;
        }
        proof {
            assert(samples@.take(n as int) =~= samples@);
        }
        let a1: i128 = s1 as i128;
        let a2: i128 = s2 as i128;
        let cw: i128 = c as i128;
        proof {
            assert(-32767 * 2 <= 2 * (cw as int) <= 32767 * 2) by (nonlinear_arith)
                requires -32767 <= cw <= 32767;
            assert(-0x200000000000 * 32767 * 2 <= 2 * (cw as int) * (a1 as int)
                <= 0x200000000000 * 32767 * 2) by (nonlinear_arith)
                requires
                    -32767 <= cw <= 32767,
                    -0x200000000000 <= a1 <= 0x200000000000;
            assert(-0x200000000000 * 0x200000000000 * 32767 * 2 <= 2 * (cw as int) * (a1 as int)
                * (a2 as int) <= 0x200000000000 * 0x200000000000 * 32767 * 2)
                by (nonlinear_arith)
                requires
                    -0x200000000000 * 32767 * 2 <= 2 * (cw as int) * (a1 as int)
                        <= 0x200000000000 * 32767 * 2,
                    -0x200000000000 <= a2 <= 0x200000000000;
            assert(0x200000000000 * 0x200000000000 * 32767 * 2 < (
                0x80000000000000000000000 + 1) * 32768) by (nonlinear_arith);
            lemma_trunc_div_upper(2 * (cw as int) * (a1 as int) * (a2 as int), 32768,
                0x80000000000000000000000);
            lemma_trunc_div_lower(2 * (cw as int) * (a1 as int) * (a2 as int), 32768,
                0x80000000000000000000000);
            assert(0 <= a1 * a1 <= 0x200000000000 * 0x200000000000 && 0 <= a2 * a2
                <= 0x200000000000 * 0x200000000000) by (nonlinear_arith)
                requires
                    -0x200000000000 <= a1 <= 0x200000000000,
                    -0x200000000000 <= a2 <= 0x200000000000;
        }
        let cross: i128 = trunc_div_i128(2 * cw * a1 * a2, 32768);
        let pw: i128 = a1 * a1 + a2 * a2 - cross;
        let pw2: i128 = if pw < 0 {
            0
        } else {
            pw
        };
        proof {
            assert(pw2 as int == spec_goertzel_power(samples@, ci));
            assert((pw2 as int) < 0x400000000000000000000000);
        }
        isqrt_u128(pw2 as u128)
    }

    /// The strongest data tone of the window: its index in the tone table
    /// and its magnitude.
    fn scan_tones(&self, samples: &[i16]) -> (r: (u8, u64))
        requires
            self.wf(),
            1 <= samples@.len() <= 100000000,
        ensures
            r.0 as int == spec_scan_best(samples@, self.config.mode, 16).0,
            r.1 as int == spec_scan_best(samples@, self.config.mode, 16).1,
            r.0 < 16,
            r.1 < 0x800000000000,
    {
        let mode = self.config.mode;
        let mut best_idx: u8 = 0;
        let mut best_mag: u64 = 0;
        let mut i: usize = 0;
        while i < 16
            invariant
                i <= 16,
                self.wf(),
                mode == self.config.mode,
                1 <= samples@.len() <= 100000000,
                best_idx as int == spec_scan_best(samples@, mode, i as int).0,
                best_mag as int == spec_scan_best(samples@, mode, i as int).1,
                best_idx < 16,
                best_mag < 0x800000000000,
            decreases 16 - i,
        {
            proof {
                lemma_freq_bounds(mode, i as int);
                lemma_scan_best_bounds(samples@, mode, i as int + 1);
            }
            let m = self.goertzel(samples, self.frequencies[i]);
            if m > best_mag {
                best_mag = m;
                best_idx = i as u8;
            }
            i = i + 1;
        }
        (best_idx, best_mag)
    }

    /// The index of the strongest data tone of the window; the first tone
    /// wins a tie.
    pub fn detect_symbol(&self, samples: &[i16]) -> (r: u8)
        requires
            self.wf(),
            1 <= samples@.len() <= 100000000,
        ensures
            r as int == spec_scan_best(samples@, self.config.mode, 16).0,
            r < 16,
    {
        let (idx, _mag) = self.scan_tones(samples);
        idx
    }

    /// Slides a 50 ms half-wake window over the buffer in 12.5 ms steps and
    /// returns the sample index one full wake-up duration past the first
    /// window that reads as a wake-up marker.
    pub fn detect_wake_up(&self, samples: &[i16]) -> (r: Option<usize>)
        requires
            self.wf(),
            samples@.len() <= 100000000,
        ensures
            match r {
                Some(idx) => spec_detect_from(samples@, self.config.mode, 0) == Some(
                    idx as int) && idx <= samples@.len() + 2400,
                None => spec_detect_from(samples@, self.config.mode, 0) is None,
            },
    {
        let mode = self.config.mode;
        let mut i: usize = 0;
        while i + 2400 <= samples.len()
            invariant
                self.wf(),
                mode == self.config.mode,
                samples@.len() <= 100000000,
                i <= samples@.len(),
                spec_detect_from(samples@, mode, 0) == spec_detect_from(samples@, mode,
                    i as int),
            decreases samples@.len() - i,
        {
            let window = vstd::slice::slice_subrange(samples, i, i + 2400);
            let wake_mag = self.goertzel(window, WAKE_UP_FREQUENCY);
            let (_, data_mag) = self.scan_tones(window);
            if wake_mag > 327 && 2 * wake_mag > 3 * data_mag {
                return Some(i + 4800);
            }
            i = i + 600;
        }
        None
    }

    /// Demodulates a capture: synchronises on the wake-up tone, skips the
    /// 20 ms guard, classifies fixed-stride symbol windows until the
    /// trailing wake-up marker or the end of the buffer, and pairs the
    /// nibbles into bytes. Nothing decodable gives `None`.
    pub fn demodulate(&self, samples: &[i16]) -> (r: Option<Vec<u8>>)
        requires
            self.wf(),
            samples@.len() <= 100000000,
        ensures
            match r {
                Some(v) => spec_demodulate(samples@, self.config.mode,
                    self.config.spec_symbol_samples()) == Some(v@) && v@.len() > 0,
                None => spec_demodulate(samples@, self.config.mode,
                    self.config.spec_symbol_samples()) is None,
            },
    {
        let mode = self.config.mode;
        let start_pos = match self.detect_wake_up(samples) {
            Some(p) => p,
            None => {
                return None;
            },
        };
        let symbol_samples: usize = (48 * self.config.symbol_duration_ms) as usize;
        let ghost sym = self.config.spec_symbol_samples();
        let mut pos: usize = start_pos + 960;
        let ghost pos0 = pos as int;
        let mut nibbles: Vec<u8> = Vec::new();
        proof {
            assert(spec_read_nibbles(samples@, mode, sym, pos0) =~= Seq::<u8>::empty()
                + spec_read_nibbles(samples@, mode, sym, pos as int));
        }
        while pos + symbol_samples <= samples.len()
            invariant
                self.wf(),
                mode == self.config.mode,
                sym == self.config.spec_symbol_samples(),
                symbol_samples == sym,
                960 <= symbol_samples <= 9600,
                samples@.len() <= 100000000,
                pos0 <= pos,
                pos <= samples@.len() + 3360,
                spec_read_nibbles(samples@, mode, sym, pos0) == nibbles@ + spec_read_nibbles(
                    samples@, mode, sym, pos as int),
            ensures
                spec_read_nibbles(samples@, mode, sym, pos0) == nibbles@ + spec_read_nibbles(
                    samples@, mode, sym, pos as int),
                spec_read_nibbles(samples@, mode, sym, pos as int) == Seq::<u8>::empty(),
            decreases samples@.len() + sym - pos,
        {
            let window = vstd::slice::slice_subrange(samples, pos, pos + symbol_samples);
            let wake_mag = self.goertzel(window, WAKE_UP_FREQUENCY);
            let (symbol, data_mag) = self.scan_tones(window);
            if 2 * wake_mag > 3 * data_mag && wake_mag > 327 {
                proof {
                    assert(spec_read_nibbles(samples@, mode, sym, pos as int)
                        =~= Seq::<u8>::empty());
                }
                break ;
            }
            nibbles.push(symbol);
            proof {
                assert(nibbles@ + spec_read_nibbles(samples@, mode, sym, pos as int + sym)
                    =~= (nibbles@.drop_last() + seq![symbol]) + spec_read_nibbles(samples@,
                    mode, sym, pos as int + sym));
                assert(nibbles@.drop_last() + (seq![symbol] + spec_read_nibbles(samples@,
                    mode, sym, pos as int + sym)) =~= (nibbles@.drop_last() + seq![symbol])
                    + spec_read_nibbles(samples@, mode, sym, pos as int + sym));
            }
            pos = pos + symbol_samples;
        }
        proof {
            assert(nibbles@ =~= spec_read_nibbles(samples@, mode, sym, pos0));
        }
        let ghost nibs = nibbles@;
        let mut data: Vec<u8> = Vec::new();
        let mut ni: usize = 0;
        proof {
            assert(nibs.skip(0) =~= nibs);
        }
        while nibbles.len() - ni >= 2
            invariant
                ni <= nibbles@.len(),
                nibbles@ == nibs,
                spec_pair_nibbles(nibs) == data@ + spec_pair_nibbles(nibs.skip(ni as int)),
            decreases nibbles@.len() - ni,
        {
            let b: u8 = (nibbles[ni] << 4) | (nibbles[ni + 1] & 0x0f);
            data.push(b);
            proof {
                assert(nibs.skip(ni as int).skip(2) =~= nibs.skip(ni as int + 2));
                assert(nibs.skip(ni as int)[0] == nibs[ni as int]);
                assert(nibs.skip(ni as int)[1] == nibs[ni as int + 1]);
                assert(data@ + spec_pair_nibbles(nibs.skip(ni as int + 2)) =~= (
                    data@.drop_last() + seq![b]) + spec_pair_nibbles(nibs.skip(ni as int
                    + 2)));
                assert(data@.drop_last() + (seq![b] + spec_pair_nibbles(nibs.skip(ni as int
                    + 2))) =~= (data@.drop_last() + seq![b]) + spec_pair_nibbles(nibs.skip(
                    ni as int + 2)));
            }
            ni = ni + 2;
        }
        proof {
            assert(spec_pair_nibbles(nibs.skip(ni as int)) =~= Seq::<u8>::empty());
            assert(data@ =~= spec_pair_nibbles(nibs));
        }
        if data.len() == 0 {
            None
        } else {
            Some(data)
        }
    }
}

/// Demodulation is deterministic and carries no state: it is a pure
/// function of the samples, the mode and the symbol width, so two runs over
/// one buffer agree, whatever the configured volume.
pub proof fn lemma_demodulate_deterministic(c1: Config, c2: Config, xs: Seq<i16>)
    requires
        c1.mode == c2.mode,
        c1.symbol_duration_ms == c2.symbol_duration_ms,
    ensures
        spec_demodulate(xs, c1.mode, c1.spec_symbol_samples()) == spec_demodulate(xs, c2.mode,
            c2.spec_symbol_samples()),
{
}

} // verus!
