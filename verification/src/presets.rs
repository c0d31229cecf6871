//! Factory presets: named parameter snapshots.

use vstd::prelude::*;
use crate::params::{VitsParams, WaveType, FilterMode};

verus! {

/// A named factory patch.
pub struct Preset {
    pub name: &'static str,
    pub values: VitsParams,
}

/// The soft pad patch: slow stages, gentle filter.
pub open spec fn soft_saw_pad_spec() -> VitsParams {
    VitsParams {
        gain: 943718,  // 0.9
        max_voices: 32,
        wave: WaveType::Saw,
        osc_mix: 524288,  // 0.5
        detune: 8,
        attack_ms: 300,
        decay_ms: 1200,
        sustain: 838861,  // 0.8
        release_ms: 2000,
        filter_mode: FilterMode::LowPass,
        cutoff_hz: 1200,
        resonance: 157286,  // 0.15
        mod_cutoff: 0,
        mod_gain: 0,
    }
}

/// The pluck patch: instant attack, no sustain.
pub open spec fn pluck_spec() -> VitsParams {
    VitsParams {
        gain: 838861,  // 0.8
        max_voices: 32,
        wave: WaveType::Square,
        osc_mix: 524288,  // 0.5
        detune: 3,
        attack_ms: 2,
        decay_ms: 180,
        sustain: 0,
        release_ms: 120,
        filter_mode: FilterMode::LowPass,
        cutoff_hz: 2200,
        resonance: 262144,  // 0.25
        mod_cutoff: 0,
        mod_gain: 0,
    }
}

/// The built-in patches. Every one is a well-formed snapshot.
pub fn factory_presets() -> (r: Vec<Preset>)
    ensures
        r.len() == 3,
        forall|i: int| 0 <= i < r.len() ==> (#[trigger] r[i].values).wf(),
        r[0].values == VitsParams::default_spec(),
        r[1].values == soft_saw_pad_spec(),
        r[2].values == pluck_spec(),
{
    let mut v: Vec<Preset> = Vec::new();
    v.push(Preset { name: "Init", values: VitsParams::default() });
    v.push(
        Preset {
            name: "Soft Saw Pad",
            values: VitsParams::with_values(
                943718,  // gain 0.9
                32,
                WaveType::Saw,
                524288,  // osc mix 0.5
                8,
                300,
                1200,
                838861,  // sustain 0.8
                2000,
                FilterMode::LowPass,
                1200,
                157286,  // resonance 0.15
                0,
                0,
            ),
        },
    );
    v.push(
        Preset {
            name: "Pluck",
            values: VitsParams::with_values(
                838861,  // gain 0.8
                32,
                WaveType::Square,
                524288,  // osc mix 0.5
                3,
                2,
                180,
                0,
                120,
                FilterMode::LowPass,
                2200,
                262144,  // resonance 0.25
                0,
                0,
            ),
        },
    );
    v
}

} // verus!
