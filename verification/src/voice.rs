//! One synthesizer voice: ADSR envelope, two detuned oscillators, a
//! triangle integrator, the filter, and the soft clipper, rendered one
//! sample per call.

use vstd::prelude::*;
use crate::fixed::{UNIT, div_tz, clamp_spec, clamp_i64, lemma_abs_mul_bound, lemma_div_tz_range};
use crate::dsp::{
    PolyBlepOsc, Wave, ZdfSvf, FilterMode as DMode, fast_tanh, fast_tanh_spec, wrap_phase,
    sine_shape_spec, saw_blep_spec, square_blep_spec, svf_out_spec, svf_step_spec, g_spec,
    r_coeff_spec, HALF_PERIOD, STATE_MAX, MAX_FREQ_MILLIHZ, TANH_IN_MAX,
};
use crate::params::{FilterMode, WaveType};
use vstd::arithmetic::div_mod::{
    lemma_div_pos_is_pos, lemma_div_is_ordered, lemma_multiply_divide_le,
    lemma_fundamental_div_mod,
};

verus! {

#[derive(Clone, Copy, Debug)]
pub enum EnvStage {
    Idle,
    Attack,
    Decay,
    Sustain,
    Release,
}

/// The four-stage amplitude envelope. Durations are in samples; the
/// sustain level and the running level are Q20 in `[0, 1]`.
pub struct Adsr {
    /// Sample rate in hertz.
    pub sr: u32,
    /// Attack length in samples.
    pub a: u64,
    /// Decay length in samples.
    pub d: u64,
    /// Sustain level, Q20.
    pub s: i64,
    /// Release length in samples.
    pub r: u64,
    /// Current output level, Q20.
    pub level: i64,
    pub state: EnvStage,
}

/// The per-sample ramp of a stage of the given length in samples: the
/// reciprocal of the length, in Q20. A length of at most one sample
/// ramps in a single step, and a length beyond the fixed-point
/// resolution still moves one quantum per sample, so every stage
/// finishes in finitely many samples.
pub open spec fn stage_ramp_spec(len: int) -> int {
    if len <= 1 {
        UNIT as int
    } else if UNIT as int / len < 1 {
        1
    } else {
        UNIT as int / len
    }
}

/// The envelope after one sample: each stage ramps by the reciprocal
/// of its length and hands over when its target level is crossed. A
/// length of at most one sample ramps in a single step.
pub open spec fn adsr_step_spec(e: Adsr) -> Adsr {
    match e.state {
        EnvStage::Idle => Adsr { level: 0, ..e },
        EnvStage::Attack => {
            let inc: int = stage_ramp_spec(e.a as int);
            if e.level + inc >= UNIT {
                Adsr { level: UNIT, state: EnvStage::Decay, ..e }
            } else {
                Adsr { level: (e.level + inc) as i64, ..e }
            }
        },
        EnvStage::Decay => {
            let dec: int = stage_ramp_spec(e.d as int);
            if e.level - dec <= e.s {
                Adsr { level: e.s, state: EnvStage::Sustain, ..e }
            } else {
                Adsr { level: (e.level - dec) as i64, ..e }
            }
        },
        EnvStage::Sustain => e,
        EnvStage::Release => {
            let rel: int = stage_ramp_spec(e.r as int);
            if e.level - rel <= 0 {
                Adsr { level: 0, state: EnvStage::Idle, ..e }
            } else {
                Adsr { level: (e.level - rel) as i64, ..e }
            }
        },
    }
}

/// The envelope after `n` samples.
pub open spec fn adsr_steps_spec(e: Adsr, n: nat) -> Adsr
    decreases n,
{
    if n == 0 {
        e
    } else {
        adsr_step_spec(adsr_steps_spec(e, (n - 1) as nat))
    }
}

/// What `is_idle` reports: a voice is silent when the envelope has
/// reached Idle or its level has hit zero.
pub open spec fn adsr_is_idle_spec(e: Adsr) -> bool {
    e.state is Idle || e.level <= 0
}

impl Adsr {
    /// Structural bounds every envelope keeps.
    pub open spec fn wf(self) -> bool {
        &&& self.sr >= 1
        &&& 0 <= self.s <= UNIT
        &&& 0 <= self.level <= UNIT
    }

    pub fn new(sr: u32) -> (r: Self)
        requires
            sr >= 1,
        ensures
            r.sr == sr,
            r.a == 0,
            r.d == 0,
            r.s == 734003,
            r.r == 0,
            r.level == 0,
            r.state is Idle,
            r.wf(),
    {
        Self { sr, a: 0, d: 0, s: 734003, r: 0, level: 0, state: EnvStage::Idle }
    }

    /// Convert stage times in milliseconds to sample counts at the
    /// envelope's sample rate, and clamp the sustain level.
    pub fn set_ms(&mut self, a: u64, d: u64, s: i64, r: u64)
        requires
            old(self).wf(),
            a <= 1_000_000,
            d <= 1_000_000,
            r <= 1_000_000,
        ensures
            final(self).a == a * old(self).sr / 1000,
            final(self).d == d * old(self).sr / 1000,
            final(self).s == clamp_spec(s as int, 0, UNIT as int),
            final(self).r == r * old(self).sr / 1000,
            final(self).sr == old(self).sr,
            final(self).level == old(self).level,
            final(self).state == old(self).state,
            final(self).wf(),
    {
        let sr64: u64 = self.sr as u64;
        proof {
            lemma_abs_mul_bound(a as int, sr64 as int, 1_000_000, 0xffff_ffff);
            lemma_abs_mul_bound(d as int, sr64 as int, 1_000_000, 0xffff_ffff);
            lemma_abs_mul_bound(r as int, sr64 as int, 1_000_000, 0xffff_ffff);
        }
        self.a = a * sr64 / 1000;
        self.d = d * sr64 / 1000;
        self.s = clamp_i64(s, 0, UNIT);
        self.r = r * sr64 / 1000;
    }

    /// Hard retrigger: enter Attack from any stage, from the current
    /// level.
    pub fn note_on(&mut self)
        ensures
            *final(self) == (Adsr { state: EnvStage::Attack, ..*old(self) }),
    {
        self.state = EnvStage::Attack;
    }

    /// Enter Release, unless the envelope is already Idle.
    pub fn note_off(&mut self)
        ensures
            (old(self).state is Idle ==> *final(self) == *old(self)),
            (!(old(self).state is Idle) ==> *final(self) == (Adsr {
                state: EnvStage::Release,
                ..*old(self)
            })),
    {
        if !matches!(self.state, EnvStage::Idle) {
            self.state = EnvStage::Release;
        }
    }

    /// One envelope sample; returns the new level.
    pub fn next(&mut self) -> (r: i64)
        requires
            old(self).wf(),
        ensures
            *final(self) == adsr_step_spec(*old(self)),
            r == final(self).level,
            0 <= r <= UNIT,
            final(self).wf(),
    {
        match self.state {
            EnvStage::Idle => {
                self.level = 0;
            },
            EnvStage::Attack => {
                let inc: i64 = if self.a <= 1 {
                    UNIT
                } else {
                    proof {
                        lemma_div_pos_is_pos(UNIT as int, self.a as int);
                        lemma_multiply_divide_le(UNIT as int, self.a as int, UNIT as int);
                    }
                    let q: i64 = (UNIT as u64 / self.a) as i64;
                    if q < 1 {
                        1
                    } else {
                        q
                    }
                };
                self.level = self.level + inc;
                if self.level >= UNIT {
                    self.level = UNIT;
                    self.state = EnvStage::Decay;
                }
            },
            EnvStage::Decay => {
                let dec: i64 = if self.d <= 1 {
                    UNIT
                } else {
                    proof {
                        lemma_div_pos_is_pos(UNIT as int, self.d as int);
                        lemma_multiply_divide_le(UNIT as int, self.d as int, UNIT as int);
                    }
                    let q: i64 = (UNIT as u64 / self.d) as i64;
                    if q < 1 {
                        1
                    } else {
                        q
                    }
                };
                self.level = self.level - dec;
                if self.level <= self.s {
                    self.level = self.s;
                    self.state = EnvStage::Sustain;
                }
            },
            EnvStage::Sustain => {},
            EnvStage::Release => {
                let rel: i64 = if self.r <= 1 {
                    UNIT
                } else {
                    proof {
                        lemma_div_pos_is_pos(UNIT as int, self.r as int);
                        lemma_multiply_divide_le(UNIT as int, self.r as int, UNIT as int);
                    }
                    let q: i64 = (UNIT as u64 / self.r) as i64;
                    if q < 1 {
                        1
                    } else {
                        q
                    }
                };
                self.level = self.level - rel;
                if self.level <= 0 {
                    self.level = 0;
                    self.state = EnvStage::Idle;
                }
            },
        }
        self.level
    }

    /// Whether the envelope contributes silence.
    pub fn is_idle(&self) -> (r: bool)
        ensures
            r == adsr_is_idle_spec(*self),
    {
        matches!(self.state, EnvStage::Idle) || self.level <= 0
    }
}

/// While the attack ramp is still rising, step `k` of an attack from
/// level zero sits exactly at `k` increments.
proof fn lemma_attack_partial(e: Adsr, k: nat)
    requires
        e.wf(),
        e.state is Attack,
        e.level == 0,
        2 <= e.a,
        UNIT as int % e.a as int == 0,
        k < e.a,
    ensures
        adsr_steps_spec(e, k) == (Adsr {
            level: (k * (UNIT as int / e.a as int)) as i64,
            ..e
        }),
        k * (UNIT as int / e.a as int) <= UNIT - (UNIT as int / e.a as int),
    decreases k,
{
    let inc: int = UNIT as int / e.a as int;
    lemma_fundamental_div_mod(UNIT as int, e.a as int);
    lemma_div_pos_is_pos(UNIT as int, e.a as int);
    lemma_divisor_within_unit(e.a as int);
    assert(e.a * inc == UNIT);
    assert(stage_ramp_spec(e.a as int) == inc);
    assert(inc >= 1) by (nonlinear_arith)
        requires
            e.a * inc == UNIT,
            e.a >= 2,
            inc >= 0,
            UNIT >= 1,
    ;
    if k == 0 {
        assert(adsr_steps_spec(e, 0) == e);
        assert((e.a - 1) * inc == e.a * inc - inc) by (nonlinear_arith);
        assert(0 * inc == 0) by (nonlinear_arith);
    } else {
        lemma_attack_partial(e, (k - 1) as nat);
        let prev = adsr_steps_spec(e, (k - 1) as nat);
        assert((k - 1) * inc + inc == k * inc) by (nonlinear_arith);
        assert(k * inc <= (e.a - 1) * inc) by (nonlinear_arith)
            requires
                k <= e.a - 1,
                inc >= 0,
        ;
        assert((e.a - 1) * inc == e.a * inc - inc) by (nonlinear_arith);
        assert(prev.level + inc < UNIT);
        assert(adsr_steps_spec(e, k) == adsr_step_spec(prev));
    }
}

/// An attack of `a` samples started from level zero reaches level one
/// and hands over to Decay after exactly `a` samples, when `a` divides
/// the fixed-point unit evenly.
pub proof fn lemma_attack_completes(e: Adsr)
    requires
        e.wf(),
        e.state is Attack,
        e.level == 0,
        1 <= e.a,
        UNIT as int % e.a as int == 0,
    ensures
        adsr_steps_spec(e, e.a as nat).level == UNIT,
        (adsr_steps_spec(e, e.a as nat).state is Decay),
{
    if e.a == 1 {
        assert(adsr_steps_spec(e, 1) == adsr_step_spec(adsr_steps_spec(e, 0)));
        assert(adsr_steps_spec(e, 0) == e);
    } else {
        let inc: int = UNIT as int / e.a as int;
        lemma_attack_partial(e, (e.a - 1) as nat);
        let prev = adsr_steps_spec(e, (e.a - 1) as nat);
        lemma_fundamental_div_mod(UNIT as int, e.a as int);
        lemma_divisor_within_unit(e.a as int);
        assert(stage_ramp_spec(e.a as int) == inc);
        assert((e.a - 1) * inc + inc == e.a * inc) by (nonlinear_arith);
        assert(prev.level + inc >= UNIT);
        assert(adsr_steps_spec(e, e.a as nat) == adsr_step_spec(prev));
    }
}

/// A release of `r` samples reaches level zero and stage Idle after at
/// most `r` samples, whatever level it starts from, when `r` divides
/// the fixed-point unit evenly; once Idle, it stays Idle.
pub proof fn lemma_release_reaches_idle(e: Adsr, k: nat)
    requires
        e.wf(),
        e.state is Release,
        1 <= e.r,
        UNIT as int % e.r as int == 0,
        k >= e.r,
    ensures
        adsr_steps_spec(e, k).level == 0,
        (adsr_steps_spec(e, k).state is Idle),
    decreases k,
{
    let rel: int = stage_ramp_spec(e.r as int);
    lemma_fundamental_div_mod(UNIT as int, e.r as int);
    lemma_div_pos_is_pos(UNIT as int, e.r as int);
    lemma_divisor_within_unit(e.r as int);
    assert(e.r * rel >= UNIT) by (nonlinear_arith)
        requires
            (e.r <= 1 && rel == UNIT && e.r == 1) || (e.r >= 2 && rel == UNIT as int / e.r as int
                && e.r * rel + (UNIT as int % e.r as int) == UNIT && UNIT as int % e.r as int
                == 0),
    ;
    lemma_release_invariant(e, k);
    let f = adsr_steps_spec(e, k);
    if f.state is Release {
        assert(k * rel >= e.r * rel) by (nonlinear_arith)
            requires
                k >= e.r,
                rel >= 0,
        ;
        assert(false);
    }
}

/// After `k` release samples the envelope is either already Idle at
/// level zero, or still in Release with exactly `k` decrements taken
/// off the starting level.
proof fn lemma_release_invariant(e: Adsr, k: nat)
    requires
        e.wf(),
        e.state is Release,
        1 <= e.r,
    ensures
        ({
            let rel: int = stage_ramp_spec(e.r as int);
            let f = adsr_steps_spec(e, k);
            f.r == e.r && ((f.state is Idle && f.level == 0) || (f.state is Release && f.level
                == e.level - k * rel && f.level >= 0 && (k >= 1 ==> f.level > 0)))
        }),
    decreases k,
{
    let rel: int = stage_ramp_spec(e.r as int);
    lemma_div_pos_is_pos(UNIT as int, e.r as int);
    if k == 0 {
        assert(0 * rel == 0) by (nonlinear_arith);
        assert(adsr_steps_spec(e, 0) == e);
    } else {
        lemma_release_invariant(e, (k - 1) as nat);
        let prev = adsr_steps_spec(e, (k - 1) as nat);
        assert((k - 1) * rel + rel == k * rel) by (nonlinear_arith);
        assert(adsr_steps_spec(e, k) == adsr_step_spec(prev));
    }
}

/// A decay of `d` samples that starts from full level settles exactly
/// on the sustain level, in stage Sustain, after at most `d` samples,
/// when `d` divides the fixed-point unit evenly; Sustain then holds.
pub proof fn lemma_decay_reaches_sustain(e: Adsr, k: nat)
    requires
        e.wf(),
        e.state is Decay,
        e.level == UNIT,
        1 <= e.d,
        UNIT as int % e.d as int == 0,
        k >= e.d,
    ensures
        adsr_steps_spec(e, k).level == e.s,
        (adsr_steps_spec(e, k).state is Sustain),
    decreases k,
{
    let dec: int = stage_ramp_spec(e.d as int);
    lemma_fundamental_div_mod(UNIT as int, e.d as int);
    lemma_div_pos_is_pos(UNIT as int, e.d as int);
    lemma_divisor_within_unit(e.d as int);
    assert(e.d * dec >= UNIT) by (nonlinear_arith)
        requires
            (e.d <= 1 && dec == UNIT && e.d == 1) || (e.d >= 2 && dec == UNIT as int / e.d as int
                && e.d * dec + (UNIT as int % e.d as int) == UNIT && UNIT as int % e.d as int
                == 0),
    ;
    lemma_decay_invariant(e, k);
    let f = adsr_steps_spec(e, k);
    if f.state is Decay {
        assert(k * dec >= e.d * dec) by (nonlinear_arith)
            requires
                k >= e.d,
                dec >= 0,
        ;
        assert(false);
    }
}

/// After `k` decay samples the envelope is either already settled on
/// the sustain level, or still decaying with exactly `k` decrements
/// taken off the full level.
proof fn lemma_decay_invariant(e: Adsr, k: nat)
    requires
        e.wf(),
        e.state is Decay,
        e.level == UNIT,
        1 <= e.d,
    ensures
        ({
            let dec: int = stage_ramp_spec(e.d as int);
            let f = adsr_steps_spec(e, k);
            f.d == e.d && f.s == e.s && ((f.state is Sustain && f.level == e.s) || (f.state
                is Decay && f.level == e.level - k * dec && f.level >= e.s && (k >= 1 ==> f.level
                > e.s)))
        }),
    decreases k,
{
    let dec: int = stage_ramp_spec(e.d as int);
    lemma_div_pos_is_pos(UNIT as int, e.d as int);
    if k == 0 {
        assert(0 * dec == 0) by (nonlinear_arith);
        assert(adsr_steps_spec(e, 0) == e);
    } else {
        lemma_decay_invariant(e, (k - 1) as nat);
        let prev = adsr_steps_spec(e, (k - 1) as nat);
        assert((k - 1) * dec + dec == k * dec) by (nonlinear_arith);
        assert(adsr_steps_spec(e, k) == adsr_step_spec(prev));
    }
}

/// A divisor of the fixed-point unit is at most the unit, so its
/// stage ramp is the exact reciprocal.
proof fn lemma_divisor_within_unit(len: int)
    requires
        1 <= len,
        UNIT as int % len == 0,
    ensures
        len <= UNIT,
        stage_ramp_spec(len) == if len <= 1 {
            UNIT as int
        } else {
            UNIT as int / len
        },
{
    if len > UNIT {
        vstd::arithmetic::div_mod::lemma_small_mod(UNIT as nat, len as nat);
        assert(false);
    }
    if len >= 2 {
        lemma_div_is_ordered(len, UNIT as int, len);
        vstd::arithmetic::div_mod::lemma_div_by_self(len);
    }
}

/// Away from the instant of a retrigger or a note-off at level zero,
/// `is_idle` answers exactly "is the stage Idle": whenever the level
/// is positive, and in the Idle stage itself.
pub proof fn lemma_is_idle_iff_stage(e: Adsr)
    requires
        e.level > 0 || e.state is Idle,
    ensures
        adsr_is_idle_spec(e) == (e.state is Idle),
{
}

/// Frequencies of the twelve topmost MIDI notes (120 to 131) in
/// milli-hertz; every lower octave halves them.
pub open spec fn note_base_mhz_spec(k: int) -> int {
    if k == 0 {
        8372018
    } else if k == 1 {
        8869844
    } else if k == 2 {
        9397273
    } else if k == 3 {
        9956063
    } else if k == 4 {
        10548082
    } else if k == 5 {
        11175303
    } else if k == 6 {
        11839822
    } else if k == 7 {
        12543854
    } else if k == 8 {
        13289750
    } else if k == 9 {
        14080000
    } else if k == 10 {
        14917240
    } else {
        15804266
    }
}

/// The halvings below the top octave: two to the `10 - o` for octave
/// `o`, saturating at the top.
pub open spec fn note_octave_div_spec(o: int) -> int {
    if o <= 0 {
        1024
    } else if o == 1 {
        512
    } else if o == 2 {
        256
    } else if o == 3 {
        128
    } else if o == 4 {
        64
    } else if o == 5 {
        32
    } else if o == 6 {
        16
    } else if o == 7 {
        8
    } else if o == 8 {
        4
    } else if o == 9 {
        2
    } else {
        1
    }
}

/// The frequency of a MIDI note in milli-hertz: equal temperament
/// around 440 Hz at note 69.
pub open spec fn note_freq_spec(n: int) -> int {
    note_base_mhz_spec(n % 12) / note_octave_div_spec(n / 12)
}

/// Equal-tempered MIDI note frequency in milli-hertz, from a
/// twelve-entry top-octave table halved per octave below.
pub fn midi_note_to_freq_mhz(note: u8) -> (f: u64)
    ensures
        f == note_freq_spec(note as int),
        8175 <= f <= 15804266,
        note == 69 ==> f == 440000,
{
    let k: u8 = note % 12;
    let o: u8 = note / 12;
    let base: u64 = if k == 0 {
        8372018
    } else if k == 1 {
        8869844
    } else if k == 2 {
        9397273
    } else if k == 3 {
        9956063
    } else if k == 4 {
        10548082
    } else if k == 5 {
        11175303
    } else if k == 6 {
        11839822
    } else if k == 7 {
        12543854
    } else if k == 8 {
        13289750
    } else if k == 9 {
        14080000
    } else if k == 10 {
        14917240
    } else {
        15804266
    };
    let div: u64 = if o == 0 {
        1024
    } else if o == 1 {
        512
    } else if o == 2 {
        256
    } else if o == 3 {
        128
    } else if o == 4 {
        64
    } else if o == 5 {
        32
    } else if o == 6 {
        16
    } else if o == 7 {
        8
    } else if o == 8 {
        4
    } else if o == 9 {
        2
    } else {
        1
    };
    base / div
}

/// First-order ratio of one cent of detune, Q30: `2^(c/1200) - 1`
/// approximated as `c ln 2 / 1200`.
pub const CENT_RATIO_Q30: i64 = 620161;

/// Q30 unit used by the detune ratio.
pub const Q30: i64 = 0x4000_0000;

/// The frequency offset of a detune in cents, milli-hertz.
pub open spec fn detune_offset_spec(freq: int, cents: int) -> int {
    (freq * cents * CENT_RATIO_Q30) / Q30 as int
}

/// The second oscillator's frequency: the detuned fundamental,
/// floored at one hertz.
pub open spec fn osc2_freq_spec(freq: int, cents: int) -> int {
    let f2 = freq + detune_offset_spec(freq, cents);
    if f2 < 1000 {
        1000
    } else {
        f2
    }
}

/// The state of a freshly constructed voice slot: silent, untuned,
/// with cleared envelope, oscillator, integrator and filter state.
pub open spec fn fresh_voice_spec(sr: u32) -> Voice {
    Voice {
        active: false,
        note: 0,
        channel: 0,
        note_id: None,
        freq: 0,
        vel: 0,
        env: Adsr { sr, a: 0, d: 0, s: 734003, r: 0, level: 0, state: EnvStage::Idle },
        osc1: PolyBlepOsc { sr, phase: 0, incr: 0, wave: Wave::Saw },
        osc2: PolyBlepOsc { sr, phase: 0, incr: 0, wave: Wave::Saw },
        tri_accum: 0,
        filt: ZdfSvf { sr, ic1eq: 0, ic2eq: 0, g: 0, r: UNIT, mode: DMode::LP },
        releasing: false,
        poly_gain_norm: 0,
        poly_cut_norm: 0,
        age: 0,
    }
}

/// One voice: the complete signal chain for one sounding note.
pub struct Voice {
    pub active: bool,
    pub note: u8,
    pub channel: u8,
    /// Host-supplied identifier of this note instance.
    pub note_id: Option<i32>,
    /// Fundamental frequency in milli-hertz.
    pub freq: u64,
    /// Velocity, Q20 in `[0, 1]`.
    pub vel: i64,
    pub env: Adsr,
    pub osc1: PolyBlepOsc,
    pub osc2: PolyBlepOsc,
    /// Leaky integrator state for triangle synthesis, Q20.
    pub tri_accum: i64,
    pub filt: ZdfSvf,
    pub releasing: bool,
    /// Per-voice normalized gain offset, Q20 in `[-1, 1]`.
    pub poly_gain_norm: i64,
    /// Per-voice normalized cutoff offset, Q20 in `[-1, 1]`.
    pub poly_cut_norm: i64,
    /// Frame counter value at the start of this note, for stealing.
    pub age: u64,
}

/// The hard-sync dispatch from the host-facing waveform to the
/// oscillator core: triangle is built from a bandlimited square.
pub open spec fn map_wave_spec(w: WaveType) -> Wave {
    match w {
        WaveType::Sine => Wave::Sine,
        WaveType::Saw => Wave::Saw,
        WaveType::Square => Wave::Square,
        WaveType::Triangle => Wave::Square,
    }
}

pub open spec fn map_mode_spec(m: FilterMode) -> DMode {
    match m {
        FilterMode::Off => DMode::Off,
        FilterMode::LowPass => DMode::LP,
        FilterMode::BandPass => DMode::BP,
        FilterMode::HighPass => DMode::HP,
    }
}

/// The oscillator after its phase advance.
pub open spec fn osc_next_spec(o: PolyBlepOsc) -> PolyBlepOsc {
    PolyBlepOsc { phase: wrap_phase(o.phase + o.incr) as u64, ..o }
}

/// The sample an oscillator produces for the given waveform.
pub open spec fn osc_sample_spec(o: PolyBlepOsc, w: WaveType) -> int {
    match w {
        WaveType::Sine => sine_shape_spec(o.t_spec()),
        WaveType::Saw => saw_blep_spec(o.t_spec(), o.dt_spec()),
        WaveType::Square => square_blep_spec(o.t_spec(), o.dt_spec()),
        WaveType::Triangle => square_blep_spec(o.t_spec(), o.dt_spec()),
    }
}

/// The linear crossfade of the two oscillators, Q20.
pub open spec fn mix_samples_spec(s1: int, s2: int, mix: int) -> int {
    div_tz(s1 * (UNIT - mix) + s2 * mix, UNIT as int)
}

/// The integration constant of the triangle: the normalized frequency
/// clamped into a stable band.
pub open spec fn tri_k_spec(freq: int, sr: int) -> int {
    clamp_spec(freq * UNIT / (sr * 1000), 105, 471859)
}

/// The largest magnitude the leaky integrator can reach: the fixed
/// point of `(b + f) * 0.9995 == b` at the largest per-sample feed
/// `f = 2 * 0.45 * 3.0`, i.e. 1999 times that feed. The leak alone
/// keeps the integrator inside this bound; no saturation is applied.
pub const TRI_ACCUM_MAX: i64 = 5_659_476_846;

/// The integrator state after one square sample: integrate, then leak
/// half a permille to keep DC drift from accumulating.
pub open spec fn tri_next_spec(tri: int, sq: int, k: int) -> int {
    let fed = tri + div_tz(2 * k * sq, UNIT as int);
    div_tz(fed * 9995, 10000)
}

/// The triangle output: the integrator clamped to 1.2 and scaled by
/// 0.8.
pub open spec fn tri_out_spec(tri: int) -> int {
    div_tz(clamp_spec(tri, -1258291, 1258291) * 4, 5)
}

/// The signal entering the voice's filter, and the new integrator
/// state: the oscillator crossfade, routed through the leaky
/// integrator for the triangle waveform.
pub open spec fn voice_sig_spec(v: Voice, wave: WaveType, mix: int) -> (int, int) {
    let s1 = osc_sample_spec(v.osc1, wave);
    let s2 = osc_sample_spec(v.osc2, wave);
    let m = mix_samples_spec(s1, s2, mix);
    if wave is Triangle {
        let k = tri_k_spec(v.freq as int, v.osc1.sr as int);
        let t2 = tri_next_spec(v.tri_accum as int, m, k);
        (tri_out_spec(t2), t2)
    } else {
        (m, v.tri_accum as int)
    }
}

/// The filter input: the signal scaled by the stepped envelope level
/// and the velocity.
pub open spec fn voice_pre_spec(v: Voice, wave: WaveType, mix: int) -> int {
    let sig = voice_sig_spec(v, wave, mix).0;
    let e2 = adsr_step_spec(v.env);
    div_tz(div_tz(sig * e2.level, UNIT as int) * v.vel, UNIT as int)
}

/// The voice's output sample: filtered, scaled by the resolved gain,
/// and soft clipped.
pub open spec fn voice_out_spec(v: Voice, wave: WaveType, mix: int, gain: int) -> int {
    let pre = voice_pre_spec(v, wave, mix);
    let flt = svf_out_spec(v.filt, pre);
    fast_tanh_spec(div_tz(flt * gain, UNIT as int))
}

impl Voice {
    /// Structural bounds every voice keeps.
    pub open spec fn wf(self) -> bool {
        &&& self.env.wf()
        &&& self.osc1.wf()
        &&& self.osc2.wf()
        &&& self.filt.wf()
        &&& 0 <= self.vel <= UNIT
        &&& self.freq <= MAX_FREQ_MILLIHZ
        &&& -TRI_ACCUM_MAX <= self.tri_accum <= TRI_ACCUM_MAX
        &&& -UNIT <= self.poly_gain_norm <= UNIT
        &&& -UNIT <= self.poly_cut_norm <= UNIT
    }

    pub fn new(sr: u32) -> (r: Self)
        requires
            sr >= 1,
        ensures
            r == fresh_voice_spec(sr),
            r.active == false,
            r.env.state is Idle,
            r.env.level == 0,
            r.wf(),
    {
        Self {
            active: false,
            note: 0,
            channel: 0,
            note_id: None,
            freq: 0,
            vel: 0,
            env: Adsr::new(sr),
            osc1: PolyBlepOsc::new(sr, Wave::Saw),
            osc2: PolyBlepOsc::new(sr, Wave::Saw),
            tri_accum: 0,
            filt: ZdfSvf::new(sr),
            releasing: false,
            poly_gain_norm: 0,
            poly_cut_norm: 0,
            age: 0,
        }
    }

    fn map_wave(w: WaveType) -> (r: Wave)
        ensures
            r == map_wave_spec(w),
    {
        match w {
            WaveType::Sine => Wave::Sine,
            WaveType::Saw => Wave::Saw,
            WaveType::Square => Wave::Square,
            WaveType::Triangle => Wave::Square,
        }
    }

    fn map_mode(m: FilterMode) -> (r: DMode)
        ensures
            r == map_mode_spec(m),
    {
        match m {
            FilterMode::Off => DMode::Off,
            FilterMode::LowPass => DMode::LP,
            FilterMode::BandPass => DMode::BP,
            FilterMode::HighPass => DMode::HP,
        }
    }

    /// Reinitialize the voice for a new note: set pitch and detune,
    /// retrigger the envelope, zero the per-note state, and clear the
    /// filter registers so no state leaks from the previous note.
    pub fn start(
        &mut self,
        channel: u8,
        note: u8,
        velocity: i64,
        wave: WaveType,
        detune_cents: u32,
        sr: u32,
    )
        requires
            old(self).wf(),
            0 <= velocity <= UNIT,
            detune_cents <= 1200,
            sr >= 1,
        ensures
            final(self).active == true,
            final(self).channel == channel,
            final(self).note == note,
            final(self).note_id is None,
            final(self).vel == velocity,
            final(self).freq == note_freq_spec(note as int),
            final(self).env == (Adsr { state: EnvStage::Attack, ..old(self).env }),
            final(self).osc1.phase == 0,
            final(self).osc2.phase == HALF_PERIOD,
            final(self).osc1.sr == sr,
            final(self).osc2.sr == sr,
            final(self).osc1.wave == map_wave_spec(wave),
            final(self).osc2.wave == map_wave_spec(wave),
            final(self).osc1.incr == (note_freq_spec(note as int) * crate::dsp::PERIOD) as int / (
            sr * 1000) as int,
            final(self).osc2.incr == (osc2_freq_spec(note_freq_spec(note as int), detune_cents as int)
                * crate::dsp::PERIOD) as int / (sr * 1000) as int,
            final(self).releasing == false,
            final(self).poly_gain_norm == 0,
            final(self).poly_cut_norm == 0,
            final(self).tri_accum == 0,
            final(self).filt == (ZdfSvf { ic1eq: 0, ic2eq: 0, ..old(self).filt }),
            final(self).age == old(self).age,
            final(self).wf(),
    {
        self.active = true;
        self.channel = channel;
        self.note = note;
        self.note_id = None;
        self.vel = velocity;
        self.freq = midi_note_to_freq_mhz(note);
        self.env.note_on();

        let w = Self::map_wave(wave);
        self.osc1.wave = w;
        self.osc2.wave = w;
        self.osc1.sr = sr;
        self.osc2.sr = sr;
        self.osc1.phase = 0;
        self.osc2.phase = HALF_PERIOD;
        self.osc1.set_freq(self.freq);
        proof {
            lemma_abs_mul_bound(self.freq as int, detune_cents as int, 16000000int, 1200int);
            lemma_abs_mul_bound(
                (self.freq * detune_cents) as int,
                CENT_RATIO_Q30 as int,
                16000000int * 1200,
                CENT_RATIO_Q30 as int,
            );
            lemma_div_tz_range(
                self.freq * detune_cents * CENT_RATIO_Q30,
                Q30 as int,
                16000000int * 1200 * (CENT_RATIO_Q30 as int),
            );
        }
        let dt: i64 = (((self.freq as i128) * (detune_cents as i128) * (CENT_RATIO_Q30 as i128)) / (
        Q30 as i128)) as i64;
        let f2: u64 = if (self.freq as i128 + dt as i128) < 1000 {
            1000
        } else {
            (self.freq as i128 + dt as i128) as u64
        };
        self.osc2.set_freq(f2);

        self.filt.ic1eq = 0;
        self.filt.ic2eq = 0;

        self.releasing = false;
        self.poly_gain_norm = 0;
        self.poly_cut_norm = 0;
        self.tri_accum = 0;
    }

    /// Idempotent: the first call on an active voice sends the
    /// envelope into Release; later calls change nothing.
    pub fn release(&mut self)
        ensures
            ((old(self).active && !old(self).releasing) ==> *final(self) == (Voice {
                releasing: true,
                env: if old(self).env.state is Idle {
                    old(self).env
                } else {
                    Adsr { state: EnvStage::Release, ..old(self).env }
                },
                ..*old(self)
            })),
            (!(old(self).active && !old(self).releasing) ==> *final(self) == *old(self)),
    {
        if self.active && !self.releasing {
            self.releasing = true;
            self.env.note_off();
        }
    }

    /// Configure the filter from the base cutoff plus this voice's
    /// modulation offset, clamped into the audible, Nyquist-safe band.
    pub fn set_filter(
        &mut self,
        q: i64,
        mode: FilterMode,
        sr: u32,
        cutoff_offset_mhz: i64,
        cutoff_base_mhz: u64,
    )
        requires
            old(self).wf(),
            sr >= 1,
            -100_000_000 <= cutoff_offset_mhz <= 100_000_000,
            cutoff_base_mhz <= 100_000_000,
        ensures
            *final(self) == (Voice {
                filt: ZdfSvf {
                    g: crate::dsp::g_spec(
                        resolved_cutoff_spec(
                            cutoff_base_mhz as int,
                            cutoff_offset_mhz as int,
                            sr as int,
                        ),
                        old(self).filt.sr as int,
                    ) as i64,
                    r: r_coeff_spec(q as int) as i64,
                    mode: map_mode_spec(mode),
                    ..old(self).filt
                },
                ..*old(self)
            }),
            final(self).wf(),
    {
        let hi_raw: i64 = (sr as i64) * 490;
        let hi: i64 = if hi_raw < 20000 {
            20000
        } else {
            hi_raw
        };
        let sum: i64 = (cutoff_base_mhz as i64) + cutoff_offset_mhz;
        let cutoff: i64 = clamp_i64(sum, 20000, hi);
        self.filt.set(cutoff as u64, q, Self::map_mode(mode));
    }

    /// The leaky integrator that shapes a bandlimited square into a
    /// triangle.
    fn triangle_from_square(&mut self, sq: i64, freq: u64, sr: u32) -> (r: i64)
        requires
            old(self).wf(),
            -3 * UNIT <= sq <= 3 * UNIT,
            freq <= MAX_FREQ_MILLIHZ,
            sr >= 1,
        ensures
            *final(self) == (Voice {
                tri_accum: tri_next_spec(
                    old(self).tri_accum as int,
                    sq as int,
                    tri_k_spec(freq as int, sr as int),
                ) as i64,
                ..*old(self)
            }),
            r == tri_out_spec(final(self).tri_accum as int),
            -UNIT <= r <= UNIT,
            final(self).wf(),
    {
        proof {
            lemma_abs_mul_bound(freq as int, UNIT as int, MAX_FREQ_MILLIHZ as int, UNIT as int);
            lemma_div_pos_is_pos(freq * UNIT, (sr as int) * 1000);
            assert(freq * UNIT <= ((sr as int) * 1000) * ((MAX_FREQ_MILLIHZ as int) * UNIT))
                by (nonlinear_arith)
                requires
                    0 <= freq * UNIT <= (MAX_FREQ_MILLIHZ as int) * UNIT,
                    sr >= 1,
            ;
            lemma_multiply_divide_le(
                freq * UNIT,
                (sr as int) * 1000,
                (MAX_FREQ_MILLIHZ as int) * UNIT,
            );
        }
        let k_raw: i64 = (((freq as i128) * (UNIT as i128)) / ((sr as i128) * 1000)) as i64;
        let k: i64 = clamp_i64(k_raw, 105, 471859);
        proof {
            lemma_abs_mul_bound(2 * k, sq as int, 2int * 471859, 3 * UNIT);
            lemma_div_tz_range(2 * k * sq, UNIT as int, (2int * 471859) * (3 * UNIT));
        }
        let fed: i64 = self.tri_accum + (2 * k * sq) / UNIT;
        proof {
            lemma_abs_mul_bound(fed as int, 9995int, TRI_ACCUM_MAX + 2_831_154, 9995int);
            lemma_div_tz_range(fed * 9995, 10000int, (TRI_ACCUM_MAX + 2_831_154) * 9995);
        }
        let leaked: i64 = (fed * 9995) / 10000;
        self.tri_accum = leaked;
        let clipped: i64 = clamp_i64(self.tri_accum, -1258291, 1258291);
        proof {
            lemma_div_tz_range(clipped * 4, 5int, 1258291int * 4);
        }
        (clipped * 4) / 5
    }

    /// Render one sample. Advances the envelope first; a voice whose
    /// envelope has gone idle deactivates itself and emits silence.
    /// Otherwise both oscillators advance, their crossfade (integrated
    /// for the triangle) passes through the filter, the envelope,
    /// velocity and gain scalings, and the soft clipper.
    pub fn render(&mut self, wave: WaveType, osc_mix: i64, gain: i64) -> (r: i64)
        requires
            old(self).wf(),
            0 <= osc_mix <= UNIT,
            0 <= gain <= 2 * UNIT,
        ensures
            final(self).env == adsr_step_spec(old(self).env),
            (adsr_is_idle_spec(adsr_step_spec(old(self).env)) ==> r == 0 && *final(self) == (Voice {
                active: false,
                releasing: false,
                env: adsr_step_spec(old(self).env),
                ..*old(self)
            })),
            (!adsr_is_idle_spec(adsr_step_spec(old(self).env)) ==> r == voice_out_spec(
                *old(self),
                wave,
                osc_mix as int,
                gain as int,
            ) && *final(self) == (Voice {
                env: adsr_step_spec(old(self).env),
                osc1: osc_next_spec(old(self).osc1),
                osc2: osc_next_spec(old(self).osc2),
                tri_accum: voice_sig_spec(*old(self), wave, osc_mix as int).1 as i64,
                filt: svf_step_spec(old(self).filt, voice_pre_spec(*old(self), wave, osc_mix as int)),
                ..*old(self)
            })),
            -TANH_IN_MAX <= r <= TANH_IN_MAX,
            final(self).wf(),
    {
        let e: i64 = self.env.next();
        if self.env.is_idle() {
            self.active = false;
            self.releasing = false;
            return 0;
        }

        let s1: i64 = match wave {
            WaveType::Sine => self.osc1.next_sine(),
            WaveType::Saw => self.osc1.next_saw_blep(),
            _ => self.osc1.next_square_blep(),
        };
        let s2: i64 = match wave {
            WaveType::Sine => self.osc2.next_sine(),
            WaveType::Saw => self.osc2.next_saw_blep(),
            _ => self.osc2.next_square_blep(),
        };

        proof {
            let m: int = osc_mix as int;
            lemma_abs_mul_bound(s1 as int, UNIT - m, 3 * UNIT, UNIT - m);
            lemma_abs_mul_bound(s2 as int, m, 3 * UNIT, m);
            assert((3 * UNIT) * (UNIT - m) + (3 * UNIT) * m == (3 * UNIT) * UNIT)
                by (nonlinear_arith);
            lemma_div_tz_range(s1 * (UNIT - m) + s2 * m, UNIT as int, (3 * UNIT) * UNIT);
        }
        let mut osc: i64 = (s1 * (UNIT - osc_mix) + s2 * osc_mix) / UNIT;
        if matches!(wave, WaveType::Triangle) {
            let f = self.freq;
            let o_sr = self.osc1.sr;
            let ghost m0: int = osc as int;
            osc = self.triangle_from_square(osc, f, o_sr);
            proof {
                let pair = voice_sig_spec(*old(self), wave, osc_mix as int);
                let k: int = tri_k_spec(old(self).freq as int, old(self).osc1.sr as int);
                lemma_abs_mul_bound(2 * k, m0, 2int * 471859, 3 * UNIT);
                lemma_div_tz_range(2 * k * m0, UNIT as int, (2int * 471859) * (3 * UNIT));
                let fed: int = old(self).tri_accum + div_tz(2 * k * m0, UNIT as int);
                lemma_abs_mul_bound(fed, 9995int, TRI_ACCUM_MAX + 2_831_154, 9995int);
                lemma_div_tz_range(fed * 9995, 10000int, (TRI_ACCUM_MAX + 2_831_154) * 9995);
                assert(self.tri_accum == pair.1 as i64);
                assert(osc == pair.0);
            }
        }

        proof {
            lemma_abs_mul_bound(osc as int, e as int, 3 * UNIT, UNIT as int);
            lemma_div_tz_range(osc * e, UNIT as int, (3 * UNIT) * UNIT);
            lemma_abs_mul_bound(
                div_tz(osc * e, UNIT as int),
                self.vel as int,
                3 * UNIT,
                UNIT as int,
            );
            lemma_div_tz_range(
                div_tz(osc * e, UNIT as int) * self.vel,
                UNIT as int,
                (3 * UNIT) * UNIT,
            );
        }
        let pre: i64 = ((osc * e) / UNIT * self.vel) / UNIT;
        let y: i64 = self.filt.process(pre);
        proof {
            lemma_abs_mul_bound(y as int, gain as int, 16 * STATE_MAX, 2 * UNIT);
            lemma_div_tz_range(y * gain, UNIT as int, (16 * STATE_MAX) * (2 * UNIT));
        }
        let z: i64 = (y * gain) / UNIT;
        fast_tanh(z)
    }
}

/// The cutoff after additive modulation, clamped to the audible,
/// Nyquist-safe band, milli-hertz.
pub open spec fn resolved_cutoff_spec(base: int, offset: int, sr: int) -> int {
    let hi = if sr * 490 < 20000 {
        20000
    } else {
        sr * 490
    };
    clamp_spec(base + offset, 20000, hi)
}

} // verus!
