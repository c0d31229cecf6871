//! The resolved parameter snapshot the engine consumes each sample.
//!
//! The surrounding host owns ranges, units and automation curves; the
//! engine only ever sees plain values: Q20 fixed point for levels and
//! normalized amounts, hertz and milliseconds as integers.

use vstd::prelude::*;
use crate::fixed::{UNIT, clamp_spec, clamp_i64};

verus! {

#[derive(PartialEq, Eq, Clone, Copy, Debug)]
pub enum WaveType {
    Sine,
    Saw,
    Square,
    Triangle,
}

#[derive(PartialEq, Eq, Clone, Copy, Debug)]
pub enum FilterMode {
    Off,
    LowPass,
    BandPass,
    HighPass,
}

/// One snapshot of every timbral parameter, already resolved to plain
/// units.
pub struct VitsParams {
    /// Master linear gain, Q20, in `[0, 2]`.
    pub gain: i64,
    /// Maximum polyphony, `1..=64`.
    pub max_voices: u32,
    pub wave: WaveType,
    /// Crossfade between the two oscillators, Q20, in `[0, 1]`.
    pub osc_mix: i64,
    /// Detune of the second oscillator in cents, `0..=50`.
    pub detune: u32,
    /// Envelope attack in milliseconds, `0..=2000`.
    pub attack_ms: u64,
    /// Envelope decay in milliseconds, `1..=4000`.
    pub decay_ms: u64,
    /// Envelope sustain level, Q20, in `[0, 1]`.
    pub sustain: i64,
    /// Envelope release in milliseconds, `1..=8000`.
    pub release_ms: u64,
    pub filter_mode: FilterMode,
    /// Filter cutoff in hertz, `20..=20000`.
    pub cutoff_hz: u64,
    /// Resonance amount, Q20, in `[0, 1]`; quality is `1 + 7 r`.
    pub resonance: i64,
    /// Depth scaling per-voice cutoff modulation, Q20, in `[-1, 1]`.
    pub mod_cutoff: i64,
    /// Depth scaling per-voice gain modulation, Q20, in `[-1, 1]`.
    pub mod_gain: i64,
}

impl VitsParams {
    /// Every field within its declared range.
    pub open spec fn wf(self) -> bool {
        &&& 0 <= self.gain <= 2 * UNIT
        &&& 1 <= self.max_voices <= 64
        &&& 0 <= self.osc_mix <= UNIT
        &&& self.detune <= 50
        &&& self.attack_ms <= 2000
        &&& 1 <= self.decay_ms <= 4000
        &&& 0 <= self.sustain <= UNIT
        &&& 1 <= self.release_ms <= 8000
        &&& 20 <= self.cutoff_hz <= 20000
        &&& 0 <= self.resonance <= UNIT
        &&& -UNIT <= self.mod_cutoff <= UNIT
        &&& -UNIT <= self.mod_gain <= UNIT
    }

    /// The factory initial patch.
    pub open spec fn default_spec() -> VitsParams {
        VitsParams {
            gain: 838861,  // 0.8
            max_voices: 32,
            wave: WaveType::Saw,
            osc_mix: 524288,  // 0.5
            detune: 6,
            attack_ms: 5,
            decay_ms: 80,
            sustain: 734003,  // 0.7
            release_ms: 150,
            filter_mode: FilterMode::LowPass,
            cutoff_hz: 1600,
            resonance: 209715,  // 0.2
            mod_cutoff: 0,
            mod_gain: 0,
        }
    }

    /// Build a snapshot from raw values, clamping each into its
    /// declared range, exactly as the host's parameter system would.
    pub fn with_values(
        gain: i64,
        max_voices: u32,
        wave: WaveType,
        osc_mix: i64,
        detune: u32,
        attack_ms: u64,
        decay_ms: u64,
        sustain: i64,
        release_ms: u64,
        filter_mode: FilterMode,
        cutoff_hz: u64,
        resonance: i64,
        mod_cutoff: i64,
        mod_gain: i64,
    ) -> (r: VitsParams)
        ensures
            r.gain == clamp_spec(gain as int, 0, 2 * UNIT),
            r.max_voices == clamp_spec(max_voices as int, 1, 64),
            r.wave == wave,
            r.osc_mix == clamp_spec(osc_mix as int, 0, UNIT as int),
            r.detune == clamp_spec(detune as int, 0, 50),
            r.attack_ms == clamp_spec(attack_ms as int, 0, 2000),
            r.decay_ms == clamp_spec(decay_ms as int, 1, 4000),
            r.sustain == clamp_spec(sustain as int, 0, UNIT as int),
            r.release_ms == clamp_spec(release_ms as int, 1, 8000),
            r.filter_mode == filter_mode,
            r.cutoff_hz == clamp_spec(cutoff_hz as int, 20, 20000),
            r.resonance == clamp_spec(resonance as int, 0, UNIT as int),
            r.mod_cutoff == clamp_spec(mod_cutoff as int, -UNIT as int, UNIT as int),
            r.mod_gain == clamp_spec(mod_gain as int, -UNIT as int, UNIT as int),
            r.wf(),
    {
        VitsParams {
            gain: clamp_i64(gain, 0, 2 * UNIT),
            max_voices: if max_voices < 1 {
                1
            } else if max_voices > 64 {
                64
            } else {
                max_voices
            },
            wave,
            osc_mix: clamp_i64(osc_mix, 0, UNIT),
            detune: if detune > 50 {
                50
            } else {
                detune
            },
            attack_ms: if attack_ms > 2000 {
                2000
            } else {
                attack_ms
            },
            decay_ms: if decay_ms < 1 {
                1
            } else if decay_ms > 4000 {
                4000
            } else {
                decay_ms
            },
            sustain: clamp_i64(sustain, 0, UNIT),
            release_ms: if release_ms < 1 {
                1
            } else if release_ms > 8000 {
                8000
            } else {
                release_ms
            },
            filter_mode,
            cutoff_hz: if cutoff_hz < 20 {
                20
            } else if cutoff_hz > 20000 {
                20000
            } else {
                cutoff_hz
            },
            resonance: clamp_i64(resonance, 0, UNIT),
            mod_cutoff: clamp_i64(mod_cutoff, -UNIT, UNIT),
            mod_gain: clamp_i64(mod_gain, -UNIT, UNIT),
        }
    }
}

impl Default for VitsParams {
    /// The factory initial patch.
    fn default() -> (r: Self)
        ensures
            r == VitsParams::default_spec(),
            r.wf(),
    {
        VitsParams {
            gain: 838861,
            max_voices: 32,
            wave: WaveType::Saw,
            osc_mix: 524288,
            detune: 6,
            attack_ms: 5,
            decay_ms: 80,
            sustain: 734003,
            release_ms: 150,
            filter_mode: FilterMode::LowPass,
            cutoff_hz: 1600,
            resonance: 209715,
            mod_cutoff: 0,
            mod_gain: 0,
        }
    }
}

} // verus!
