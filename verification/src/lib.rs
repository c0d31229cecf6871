//! Fixed-point polyphonic synthesizer core: bandlimited oscillators, a
//! zero-delay-feedback state-variable filter, an ADSR envelope per
//! voice, and a voice pool that drains sample-accurate note events,
//! steals voices under finite polyphony, and mixes the result into a
//! stereo stream.

pub mod dsp;
pub mod fixed;
pub mod params;
pub mod presets;
pub mod voice;

use vstd::prelude::*;
use crate::fixed::{UNIT, div_tz, clamp_i64, mul_div, lemma_div_tz_exact};
use crate::params::VitsParams;
use crate::dsp::TANH_IN_MAX;
use crate::voice::{
    Voice, Adsr, EnvStage, note_freq_spec, adsr_step_spec, adsr_is_idle_spec, map_wave_spec,
    map_mode_spec, osc2_freq_spec, osc_next_spec, voice_sig_spec, voice_pre_spec, voice_out_spec,
    resolved_cutoff_spec,
};
use crate::dsp::{PolyBlepOsc, ZdfSvf, PERIOD, HALF_PERIOD, g_spec, r_coeff_spec, svf_step_spec};
use crate::fixed::clamp_spec;
use vstd::arithmetic::div_mod::{
    lemma_div_pos_is_pos, lemma_div_is_ordered, lemma_multiply_divide_le, lemma_div_multiples_vanish,
    lemma_div_denominator,
};

verus! {

/// A timed event at the engine's boundary, sample-accurate within the
/// current block. The engine consumes note and modulation events and
/// emits voice-termination events.
#[derive(Clone, Copy, Debug)]
pub enum NoteEvent {
    NoteOn { timing: u32, channel: u8, note: u8, velocity: i64, voice_id: Option<i32> },
    NoteOff { timing: u32, channel: u8, note: u8, voice_id: Option<i32> },
    PolyModulation { timing: u32, voice_id: i32, poly_modulation_id: u32, normalized_offset: i64 },
    VoiceTerminated { timing: u32, voice_id: Option<i32>, channel: u8, note: u8 },
}

/// One stereo output sample, Q20.
#[derive(Clone, Copy, Debug)]
pub struct Frame {
    pub l: i64,
    pub r: i64,
}

/// The event's sample offset within the block.
pub open spec fn event_timing_spec(e: NoteEvent) -> u32 {
    match e {
        NoteEvent::NoteOn { timing, .. } => timing,
        NoteEvent::NoteOff { timing, .. } => timing,
        NoteEvent::PolyModulation { timing, .. } => timing,
        NoteEvent::VoiceTerminated { timing, .. } => timing,
    }
}

/// How many voices of the pool are active.
pub open spec fn num_active_prefix(s: Seq<Voice>, n: int) -> int
    decreases n,
{
    if n <= 0 {
        0
    } else {
        num_active_prefix(s, n - 1) + if s[n - 1].active {
            1int
        } else {
            0int
        }
    }
}

/// How many voices of the pool are active.
pub open spec fn num_active(s: Seq<Voice>) -> int {
    num_active_prefix(s, s.len() as int)
}

/// Replacing one slot changes the active count exactly by the change
/// in that slot's flag.
pub proof fn lemma_num_active_update(s: Seq<Voice>, i: int, v: Voice)
    requires
        0 <= i < s.len(),
    ensures
        num_active(s.update(i, v)) == num_active(s) + (if v.active {
            1int
        } else {
            0int
        }) - (if s[i].active {
            1int
        } else {
            0int
        }),
{
    lemma_num_active_update_prefix(s, i, v, s.len() as int);
}

proof fn lemma_num_active_update_prefix(s: Seq<Voice>, i: int, v: Voice, n: int)
    requires
        0 <= i < s.len(),
        n <= s.len(),
    ensures
        num_active_prefix(s.update(i, v), n) == num_active_prefix(s, n) + if i < n {
            (if v.active {
                1int
            } else {
                0int
            }) - (if s[i].active {
                1int
            } else {
                0int
            })
        } else {
            0int
        },
    decreases n,
{
    if n > 0 {
        lemma_num_active_update_prefix(s, i, v, n - 1);
    }
}

/// The integer square root.
pub open spec fn isqrt_spec(x: nat) -> nat
    decreases x,
{
    if x == 0 {
        0
    } else {
        let p = isqrt_spec((x - 1) as nat);
        if (p + 1) * (p + 1) <= x {
            p + 1
        } else {
            p
        }
    }
}

/// The integer square root is the floor of the real one: it brackets
/// its argument between consecutive squares.
pub proof fn lemma_isqrt_spec_bracket(x: nat)
    ensures
        isqrt_spec(x) * isqrt_spec(x) <= x,
        x < (isqrt_spec(x) + 1) * (isqrt_spec(x) + 1),
    decreases x,
{
    if x > 0 {
        lemma_isqrt_spec_bracket((x - 1) as nat);
        let p = isqrt_spec((x - 1) as nat);
        if (p + 1) * (p + 1) <= x {
            assert(isqrt_spec(x) == p + 1);
            assert(x < ((p + 1) + 1) * ((p + 1) + 1)) by (nonlinear_arith)
                requires
                    x - 1 < (p + 1) * (p + 1),
                    (p + 1) * (p + 1) <= x,
                    p >= 0,
            ;
        } else {
            assert(isqrt_spec(x) == p);
            assert(p * p <= x - 1);
        }
    } else {
        assert(isqrt_spec(0nat) == 0);
        assert((0nat + 1) * (0nat + 1) == 1) by (nonlinear_arith);
    }
}

/// The loudness-compensation factor as a value: one over the square
/// root of the pool size, Q20, capped at one.
pub open spec fn mix_scale_spec(n: int) -> int
    recommends
        1 <= n,
{
    let r = isqrt_spec((n * ((UNIT as int) * (UNIT as int))) as nat) as int;
    let raw = ((UNIT as int) * (UNIT as int)) / r;
    if raw > UNIT {
        UNIT as int
    } else {
        raw
    }
}

/// The loudness-compensation factor `min(1, 1 / sqrt(n))` in Q20,
/// computed from the integer square root of `n` in Q40. For a pool
/// whose size is a perfect square the factor is exact.
pub fn mix_scale(n: usize) -> (s: i64)
    requires
        1 <= n <= 64,
    ensures
        0 < s <= UNIT,
        s == mix_scale_spec(n as int),
        forall|root: int|
            1 <= root && #[trigger] (root * root) == n ==> s == UNIT as int / root,
        forall|root: int|
            0 <= root && #[trigger] (root * root) <= n * ((UNIT as int) * (UNIT as int)) && n * ((
            UNIT as int) * (UNIT as int)) < (root + 1) * (root + 1) ==> s == (
            if ((UNIT as int) * (UNIT as int)) / root > UNIT {
                UNIT as int
            } else {
                ((UNIT as int) * (UNIT as int)) / root
            }),
{
    let x: u64 = (n as u64) * ((UNIT as u64) * (UNIT as u64));
    let r0: u64 = isqrt64(x);
    proof {
        lemma_isqrt_spec_bracket(x as nat);
        assert(r0 == isqrt_spec(x as nat)) by (nonlinear_arith)
            requires
                r0 * r0 <= x < (r0 + 1) * (r0 + 1),
                isqrt_spec(x as nat) * isqrt_spec(x as nat) <= x < (isqrt_spec(x as nat) + 1) * (
                isqrt_spec(x as nat) + 1),
                r0 >= 0,
                isqrt_spec(x as nat) >= 0,
        ;
        assert(r0 >= UNIT && r0 <= 8 * UNIT) by (nonlinear_arith)
            requires
                r0 * r0 <= x < (r0 + 1) * (r0 + 1),
                (UNIT as int) * (UNIT as int) <= x <= 64 * ((UNIT as int) * (UNIT as int)),
                UNIT > 0,
                r0 >= 0,
        ;
        lemma_div_pos_is_pos((UNIT as int) * (UNIT as int), r0 as int);
        lemma_div_is_ordered_helper(r0 as int);
        lemma_div_is_ordered(r0 as int, (UNIT as int) * (UNIT as int), r0 as int);
        vstd::arithmetic::div_mod::lemma_div_by_self(r0 as int);
    }
    let raw: u64 = ((UNIT as u64) * (UNIT as u64)) / r0;
    let s: i64 = if raw > UNIT as u64 {
        UNIT
    } else {
        raw as i64
    };
    proof {
        assert forall|root: int| 1 <= root && #[trigger] (root * root) == n implies s == UNIT as int
            / root by {
            assert(r0 == root * UNIT) by (nonlinear_arith)
                requires
                    r0 * r0 <= x < (r0 + 1) * (r0 + 1),
                    x == n * ((UNIT as int) * (UNIT as int)),
                    root * root == n,
                    1 <= root,
                    UNIT > 0,
                    r0 >= 0,
            ;
            lemma_div_denominator((UNIT as int) * (UNIT as int), UNIT as int, root);
            lemma_div_multiples_vanish(UNIT as int, UNIT as int);
            assert((UNIT as int) * root == root * UNIT) by (nonlinear_arith);
            assert(UNIT as int / root <= UNIT);
        }
        assert forall|root: int|
            0 <= root && #[trigger] (root * root) <= n * ((UNIT as int) * (UNIT as int)) && n * ((
            UNIT as int) * (UNIT as int)) < (root + 1) * (root + 1) implies s == (
        if ((UNIT as int) * (UNIT as int)) / root > UNIT {
            UNIT as int
        } else {
            ((UNIT as int) * (UNIT as int)) / root
        }) by {
            assert(root == r0) by (nonlinear_arith)
                requires
                    r0 * r0 <= x < (r0 + 1) * (r0 + 1),
                    root * root <= x < (root + 1) * (root + 1),
                    root >= 0,
                    r0 >= 0,
            ;
        }
    }
    s
}

/// `UNIT * UNIT / r <= UNIT` when `r >= UNIT`.
proof fn lemma_div_is_ordered_helper(r: int)
    requires
        r >= UNIT,
    ensures
        ((UNIT as int) * (UNIT as int)) / r <= UNIT,
{
    assert((UNIT as int) * (UNIT as int) <= r * UNIT) by (nonlinear_arith)
        requires
            r >= UNIT,
            UNIT > 0,
    ;
    lemma_multiply_divide_le((UNIT as int) * (UNIT as int), r, UNIT as int);
}

/// The integer square root, by bisection.
fn isqrt64(x: u64) -> (r: u64)
    requires
        x <= 0x4000_0000_0000,
    ensures
        r * r <= x < (r + 1) * (r + 1),
{
    let mut lo: u64 = 0;
    let mut hi: u64 = 0x80_0001;
    proof {
        assert((0x80_0001u64 as int) * (0x80_0001u64 as int) > 0x4000_0000_0000) by (nonlinear_arith);
    }
    while lo + 1 < hi
        invariant
            lo < hi,
            hi <= 0x80_0001,
            lo * lo <= x,
            x < hi * hi,
        decreases hi - lo,
    {
        let mid: u64 = (lo + hi) / 2;
        proof {
            assert(lo < mid < hi) by (nonlinear_arith)
                requires
                    mid == (lo + hi) / 2int,
                    lo + 1 < hi,
            ;
            assert(mid * mid <= 0x4000_0000_0000_0000) by (nonlinear_arith)
                requires
                    mid <= 0x80_0001,
                    mid >= 0,
            ;
        }
        if mid * mid <= x {
            lo = mid;
        } else {
            hi = mid;
        }
    }
    lo
}

/// With pool capacity `c` a perfect square whose root divides the
/// fixed-point unit, a full-scale sum of `c` unit-amplitude voices,
/// scaled by the loudness-compensation factor `1 / sqrt(c)`, lands
/// exactly on `sqrt(c)`: the compensation formula is exact, not just
/// directionally right.
pub proof fn lemma_output_scale_exact(c: int, root: int, sum: int)
    requires
        1 <= root,
        root * root == c,
        UNIT as int % root == 0,
        sum == c * UNIT,
    ensures
        div_tz(sum * (UNIT as int / root), UNIT as int) == root * UNIT,
{
    let u0: int = UNIT as int / root;
    vstd::arithmetic::div_mod::lemma_fundamental_div_mod(UNIT as int, root);
    assert(root * u0 == UNIT);
    assert(sum * u0 == (UNIT as int) * (root * UNIT)) by (nonlinear_arith)
        requires
            sum == (root * root) * UNIT,
            root * u0 == UNIT,
    ;
    lemma_div_tz_exact(root * UNIT, UNIT as int);
}

/// The synthesizer: a fixed-capacity pool of voices, a parameter
/// snapshot, and a block counter that serves as the stealing clock.
pub struct Vitsel {
    pub params: VitsParams,
    pub sample_rate: u32,
    pub voices: Vec<Voice>,
    pub frame_counter: u64,
}

impl Vitsel {
    /// Structural bounds the engine keeps.
    pub open spec fn wf(self) -> bool {
        &&& self.sample_rate >= 1
        &&& self.params.wf()
        &&& self.voices.len() <= 64
        &&& forall|i: int| 0 <= i < self.voices.len() ==> (#[trigger] self.voices[i]).wf()
    }

    /// Rebuild the pool so its size equals the max-voices parameter:
    /// growing appends fresh silent voices, shrinking truncates from
    /// the top, discarding whatever those slots were playing.
    pub fn resize_voice_pool(&mut self)
        requires
            old(self).wf(),
        ensures
            final(self).voices.len() == old(self).params.max_voices,
            final(self).voices@ == resize_pool_spec(
                old(self).voices@,
                old(self).params.max_voices as int,
                old(self).sample_rate,
            ),
            forall|i: int|
                0 <= i < old(self).voices.len() && i < final(self).voices.len()
                    ==> final(self).voices[i] == old(self).voices[i],
            forall|i: int|
                old(self).voices.len() <= i < final(self).voices.len() ==> !(
                #[trigger] final(self).voices[i]).active,
            final(self).params == old(self).params,
            final(self).sample_rate == old(self).sample_rate,
            final(self).frame_counter == old(self).frame_counter,
            final(self).wf(),
    {
        let n: usize = self.params.max_voices as usize;
        if n > self.voices.len() {
            while self.voices.len() < n
                invariant
                    self.voices.len() <= n <= 64,
                    self.sample_rate >= 1,
                    old(self).voices.len() <= self.voices.len(),
                    forall|i: int|
                        0 <= i < old(self).voices.len() ==> self.voices[i] == old(self).voices[i],
                    forall|i: int|
                        old(self).voices.len() <= i < self.voices.len() ==> #[trigger] self.voices[i]
                            == crate::voice::fresh_voice_spec(old(self).sample_rate),
                    forall|i: int|
                        old(self).voices.len() <= i < self.voices.len() ==> !(
                        #[trigger] self.voices[i]).active,
                    forall|i: int| 0 <= i < self.voices.len() ==> (#[trigger] self.voices[i]).wf(),
                    self.params == old(self).params,
                    self.frame_counter == old(self).frame_counter,
                    self.sample_rate == old(self).sample_rate,
                decreases n - self.voices.len(),
            {
                let v = Voice::new(self.sample_rate);
                self.voices.push(v);
            }
            proof {
                assert(self.voices@ =~= resize_pool_spec(
                    old(self).voices@,
                    n as int,
                    old(self).sample_rate,
                ));
            }
        } else {
            self.voices.truncate(n);
            proof {
                assert(self.voices@ =~= resize_pool_spec(
                    old(self).voices@,
                    n as int,
                    old(self).sample_rate,
                ));
            }
        }
    }

    /// The stealing policy: the first inactive slot if any, otherwise
    /// the slot with the smallest age, ties broken by the lowest
    /// index.
    pub fn alloc_voice(&self) -> (slot: usize)
        requires
            self.voices.len() >= 1,
        ensures
            slot == alloc_slot_spec(self.voices@),
            slot < self.voices.len(),
            (exists|j: int|
                0 <= j < self.voices.len() && !(#[trigger] self.voices[j]).active) ==> (!self.voices[
                slot as int].active && forall|k: int|
                0 <= k < slot ==> (#[trigger] self.voices[k]).active),
            (forall|j: int| 0 <= j < self.voices.len() ==> (#[trigger] self.voices[j]).active) ==> (
            forall|j: int|
                0 <= j < self.voices.len() ==> self.voices[slot as int].age <= (
                #[trigger] self.voices[j]).age) && (forall|k: int|
                0 <= k < slot ==> (#[trigger] self.voices[k]).age > self.voices[slot as int].age),
    {
        let n: usize = self.voices.len();
        let mut i: usize = 0;
        while i < n
            invariant
                i <= n,
                n == self.voices.len(),
                forall|k: int| 0 <= k < i ==> (#[trigger] self.voices[k]).active,
                first_inactive_from_spec(self.voices@, 0) == first_inactive_from_spec(
                    self.voices@,
                    i as int,
                ),
            decreases n - i,
        {
            if !self.voices[i].active {
                return i;
            }
            i = i + 1;
        }
        let mut best_i: usize = 0;
        let mut best_age: u64 = self.voices[0].age;
        let mut j: usize = 1;
        while j < n
            invariant
                1 <= j <= n,
                n == self.voices.len(),
                best_i < j,
                best_age == self.voices[best_i as int].age,
                forall|k: int| 0 <= k < j ==> best_age <= (#[trigger] self.voices[k]).age,
                forall|k: int| 0 <= k < best_i ==> (#[trigger] self.voices[k]).age > best_age,
                first_inactive_from_spec(self.voices@, 0) == -1,
                oldest_slot_from_spec(self.voices@, j as int, best_i as int)
                    == oldest_slot_from_spec(self.voices@, 1, 0),
            decreases n - j,
        {
            if self.voices[j].age < best_age {
                best_age = self.voices[j].age;
                best_i = j;
            }
            j = j + 1;
        }
        best_i
    }

    /// Reinitialize every voice slot and restart the age clock.
    pub fn reset(&mut self)
        requires
            old(self).wf(),
        ensures
            final(self).frame_counter == 0,
            final(self).voices.len() == old(self).voices.len(),
            forall|i: int|
                0 <= i < final(self).voices.len() ==> #[trigger] final(self).voices[i]
                    == crate::voice::fresh_voice_spec(old(self).sample_rate),
            forall|i: int|
                0 <= i < final(self).voices.len() ==> !(#[trigger] final(self).voices[i]).active
                    && final(self).voices[i].env.state is Idle,
            final(self).params == old(self).params,
            final(self).sample_rate == old(self).sample_rate,
            final(self).wf(),
    {
        self.frame_counter = 0;
        let n: usize = self.voices.len();
        let mut i: usize = 0;
        while i < n
            invariant
                i <= n,
                n == self.voices.len(),
                self.sample_rate >= 1,
                self.sample_rate == old(self).sample_rate,
                self.params == old(self).params,
                self.params.wf(),
                self.voices.len() <= 64,
                forall|k: int|
                    0 <= k < i ==> #[trigger] self.voices[k] == crate::voice::fresh_voice_spec(
                        old(self).sample_rate,
                    ),
                forall|k: int|
                    0 <= k < i ==> !(#[trigger] self.voices[k]).active && self.voices[k].env.state
                        is Idle,
                forall|k: int| 0 <= k < n ==> (#[trigger] self.voices[k]).wf(),
                self.frame_counter == 0,
            decreases n - i,
        {
            let sr: u32 = self.sample_rate;
            let fresh = Voice::new(sr);
            let slot = &mut self.voices[i];
            *slot = fresh;
            i = i + 1;
        }
    }

    /// Allocate a slot by the stealing policy, configure its envelope
    /// from the snapshot, and start the note in it. When an inactive
    /// slot exists the active count grows by one; when the pool is
    /// full, one sounding voice (the oldest, lowest index first) is
    /// stolen and the count stays put.
    fn handle_note_on(
        &mut self,
        channel: u8,
        note: u8,
        velocity: i64,
        voice_id: Option<i32>,
    ) -> (slot: usize)
        requires
            old(self).wf(),
            old(self).voices.len() >= 1,
        ensures
            slot < old(self).voices.len(),
            final(self).voices.len() == old(self).voices.len(),
            forall|i: int|
                0 <= i < final(self).voices.len() && i != slot ==> final(self).voices[i] == old(
                    self,
                ).voices[i],
            final(self).voices[slot as int].active,
            final(self).voices[slot as int].channel == channel,
            final(self).voices[slot as int].note == note,
            final(self).voices[slot as int].note_id == voice_id,
            final(self).voices[slot as int].age == old(self).frame_counter,
            (final(self).voices[slot as int].env.state is Attack),
            final(self).voices[slot as int].env.s == crate::fixed::clamp_spec(
                old(self).params.sustain as int,
                0,
                UNIT as int,
            ),
            final(self).voices[slot as int].vel == crate::fixed::clamp_spec(
                velocity as int,
                0,
                UNIT as int,
            ),
            !final(self).voices[slot as int].releasing,
            final(self).voices[slot as int] == started_voice_spec(
                old(self).voices[slot as int],
                channel,
                note,
                velocity,
                voice_id,
                old(self).params,
                old(self).sample_rate,
                old(self).frame_counter,
            ),
            final(self).voices@ == note_on_pool_spec(
                old(self).voices@,
                channel,
                note,
                velocity,
                voice_id,
                old(self).params,
                old(self).sample_rate,
                old(self).frame_counter,
            ),
            final(self).voices[slot as int].freq == note_freq_spec(note as int),
            (exists|j: int|
                0 <= j < old(self).voices.len() && !(#[trigger] old(self).voices[j]).active) ==> (
            !old(self).voices[slot as int].active && (forall|k: int|
                0 <= k < slot ==> (#[trigger] old(self).voices[k]).active) && num_active(
                final(self).voices@,
            ) == num_active(old(self).voices@) + 1),
            (forall|j: int|
                0 <= j < old(self).voices.len() ==> (#[trigger] old(self).voices[j]).active) ==> ((
            forall|j: int|
                0 <= j < old(self).voices.len() ==> old(self).voices[slot as int].age <= (
                #[trigger] old(self).voices[j]).age) && (forall|k: int|
                0 <= k < slot ==> (#[trigger] old(self).voices[k]).age > old(
                    self,
                ).voices[slot as int].age) && num_active(final(self).voices@) == num_active(
                old(self).voices@,
            )),
            final(self).params == old(self).params,
            final(self).sample_rate == old(self).sample_rate,
            final(self).frame_counter == old(self).frame_counter,
            final(self).wf(),
    {
        let slot: usize = self.alloc_voice();
        let age: u64 = self.frame_counter;
        let wave = self.params.wave;
        let det: u32 = self.params.detune;
        let sr: u32 = self.sample_rate;
        let a_ms: u64 = self.params.attack_ms;
        let d_ms: u64 = self.params.decay_ms;
        let sus: i64 = self.params.sustain;
        let r_ms: u64 = self.params.release_ms;
        let vel: i64 = clamp_i64(velocity, 0, UNIT);
        let v = &mut self.voices[slot];
        v.env.set_ms(a_ms, d_ms, sus, r_ms);
        v.start(channel, note, vel, wave, det, sr);
        v.note_id = voice_id;
        v.age = age;
        proof {
            lemma_num_active_update(old(self).voices@, slot as int, self.voices@[slot as int]);
            assert(self.voices@ =~= old(self).voices@.update(slot as int, self.voices@[slot as int]));
            assert(self.voices@ =~= note_on_pool_spec(
                old(self).voices@,
                channel,
                note,
                velocity,
                voice_id,
                old(self).params,
                old(self).sample_rate,
                old(self).frame_counter,
            ));
        }
        slot
    }

    /// Release every active voice matching the channel and note; an
    /// event that carries a voice identifier releases only the voice
    /// holding that identifier, one without releases them all.
    fn handle_note_off(&mut self, channel: u8, note: u8, voice_id: Option<i32>)
        requires
            old(self).wf(),
        ensures
            final(self).voices.len() == old(self).voices.len(),
            forall|i: int|
                0 <= i < final(self).voices.len() ==> final(self).voices[i] == (
                if note_off_match_spec(old(self).voices[i], channel, note, voice_id) {
                    released_voice_spec(#[trigger] old(self).voices[i])
                } else {
                    old(self).voices[i]
                }),
            final(self).voices@ == note_off_pool_spec(old(self).voices@, channel, note, voice_id),
            final(self).params == old(self).params,
            final(self).sample_rate == old(self).sample_rate,
            final(self).frame_counter == old(self).frame_counter,
            final(self).wf(),
    {
        let n: usize = self.voices.len();
        let mut i: usize = 0;
        while i < n
            invariant
                i <= n,
                n == self.voices.len(),
                old(self).voices.len() == n,
                forall|k: int|
                    i <= k < n ==> #[trigger] self.voices[k] == old(self).voices[k],
                forall|k: int|
                    0 <= k < i ==> #[trigger] self.voices[k] == (if note_off_match_spec(
                        old(self).voices[k],
                        channel,
                        note,
                        voice_id,
                    ) {
                        released_voice_spec(old(self).voices[k])
                    } else {
                        old(self).voices[k]
                    }),
                forall|k: int| 0 <= k < n ==> (#[trigger] self.voices[k]).wf(),
                self.params == old(self).params,
                self.sample_rate == old(self).sample_rate,
                self.frame_counter == old(self).frame_counter,
            decreases n - i,
        {
            let matches_id: bool = match voice_id {
                Some(id) => match self.voices[i].note_id {
                    Some(nid) => nid == id,
                    None => false,
                },
                None => true,
            };
            if self.voices[i].active && self.voices[i].channel == channel && self.voices[i].note
                == note && matches_id {
                let v = &mut self.voices[i];
                v.release();
            }
            i = i + 1;
        }
        proof {
            assert(self.voices@ =~= note_off_pool_spec(old(self).voices@, channel, note, voice_id));
        }
    }

    /// Write a normalized per-voice modulation offset into the voice
    /// whose identifier matches: target one is gain, target two is
    /// cutoff, anything else is ignored.
    fn handle_poly_mod(&mut self, voice_id: i32, poly_modulation_id: u32, normalized_offset: i64)
        requires
            old(self).wf(),
        ensures
            final(self).voices.len() == old(self).voices.len(),
            forall|i: int|
                0 <= i < final(self).voices.len() ==> final(self).voices[i] == poly_mod_voice_spec(
                    #[trigger] old(self).voices[i],
                    voice_id,
                    poly_modulation_id,
                    normalized_offset as int,
                ),
            final(self).voices@ == poly_mod_pool_spec(
                old(self).voices@,
                voice_id,
                poly_modulation_id,
                normalized_offset as int,
            ),
            final(self).params == old(self).params,
            final(self).sample_rate == old(self).sample_rate,
            final(self).frame_counter == old(self).frame_counter,
            final(self).wf(),
    {
        let off: i64 = clamp_i64(normalized_offset, -UNIT, UNIT);
        let n: usize = self.voices.len();
        let mut i: usize = 0;
        while i < n
            invariant
                i <= n,
                n == self.voices.len(),
                old(self).voices.len() == n,
                forall|k: int|
                    i <= k < n ==> #[trigger] self.voices[k] == old(self).voices[k],
                forall|k: int|
                    0 <= k < i ==> #[trigger] self.voices[k] == poly_mod_voice_spec(
                        old(self).voices[k],
                        voice_id,
                        poly_modulation_id,
                        normalized_offset as int,
                    ),
                forall|k: int| 0 <= k < n ==> (#[trigger] self.voices[k]).wf(),
                off == crate::fixed::clamp_spec(normalized_offset as int, -UNIT as int, UNIT as int),
                -UNIT <= off <= UNIT,
                self.params == old(self).params,
                self.sample_rate == old(self).sample_rate,
                self.frame_counter == old(self).frame_counter,
            decreases n - i,
        {
            let matches_id: bool = match self.voices[i].note_id {
                Some(nid) => nid == voice_id,
                None => false,
            };
            if self.voices[i].active && matches_id {
                if poly_modulation_id == 1 {
                    let v = &mut self.voices[i];
                    v.poly_gain_norm = off;
                } else if poly_modulation_id == 2 {
                    let v = &mut self.voices[i];
                    v.poly_cut_norm = off;
                }
            }
            i = i + 1;
        }
        proof {
            assert(self.voices@ =~= poly_mod_pool_spec(
                old(self).voices@,
                voice_id,
                poly_modulation_id,
                normalized_offset as int,
            ));
        }
    }
}

/// An envelope that cannot fall silent on its own: it is attacking,
/// or it has reached its decay or sustain path with a positive level
/// and a positive sustain target.
pub open spec fn lively_env_spec(e: Adsr) -> bool {
    1 <= e.s && (e.state is Attack || ((e.state is Decay || e.state is Sustain) && e.level >= 1))
}

/// A voice that keeps sounding as long as nobody releases it.
pub open spec fn lively_voice_spec(v: Voice) -> bool {
    v.active && lively_env_spec(v.env)
}

/// One envelope sample keeps a lively envelope lively and audible:
/// the ramp moves at least one quantum, so an attack leaves the
/// silent region immediately, and decay never undershoots a positive
/// sustain target.
pub proof fn lemma_lively_env_step(e: Adsr)
    requires
        e.wf(),
        lively_env_spec(e),
    ensures
        lively_env_spec(adsr_step_spec(e)),
        !adsr_is_idle_spec(adsr_step_spec(e)),
{
}

/// A block whose only event is a note starting at its first sample.
pub open spec fn single_opening_note_spec(events: Seq<NoteEvent>) -> bool {
    events.len() == 1 && events[0] is NoteOn && event_timing_spec(events[0]) == 0
}

/// The per-voice work of one rendered sample: the filter is
/// reconfigured from the snapshot and the voice's modulation offsets,
/// the resolved gain is clamped into its range, and the voice renders;
/// returns the new voice and its output sample (silence for a voice
/// whose envelope just went idle).
pub open spec fn voice_tick_spec(v: Voice, p: VitsParams, sr: u32) -> (Voice, int) {
    let cut_off = div_tz(
        div_tz(v.poly_cut_norm * p.mod_cutoff, UNIT as int) * 20_000_000,
        UNIT as int,
    );
    let gain_eff = clamp_spec(
        p.gain + div_tz(
            div_tz(v.poly_gain_norm * p.mod_gain, UNIT as int) * (2 * UNIT),
            UNIT as int,
        ),
        0,
        2 * UNIT,
    );
    let vf = Voice {
        filt: ZdfSvf {
            g: g_spec(
                resolved_cutoff_spec(p.cutoff_hz * 1000, cut_off, sr as int),
                v.filt.sr as int,
            ) as i64,
            r: r_coeff_spec((UNIT + 7 * p.resonance) as int) as i64,
            mode: map_mode_spec(p.filter_mode),
            ..v.filt
        },
        ..v
    };
    let e2 = adsr_step_spec(vf.env);
    if adsr_is_idle_spec(e2) {
        (Voice { active: false, releasing: false, env: e2, ..vf }, 0)
    } else {
        (
            Voice {
                env: e2,
                osc1: osc_next_spec(vf.osc1),
                osc2: osc_next_spec(vf.osc2),
                tri_accum: voice_sig_spec(vf, p.wave, p.osc_mix as int).1 as i64,
                filt: svf_step_spec(vf.filt, voice_pre_spec(vf, p.wave, p.osc_mix as int)),
                ..vf
            },
            voice_out_spec(vf, p.wave, p.osc_mix as int, gain_eff as int),
        )
    }
}

/// The pool after rendering slots `0..upto` of one sample, and the
/// mono sum of their outputs; inactive slots contribute silence and
/// stay untouched.
pub open spec fn pool_tick_spec(s: Seq<Voice>, p: VitsParams, sr: u32, upto: int) -> (
    Seq<Voice>,
    int,
)
    decreases upto,
{
    if upto <= 0 {
        (s, 0)
    } else {
        let prev = pool_tick_spec(s, p, sr, upto - 1);
        if s[upto - 1].active {
            let t = voice_tick_spec(s[upto - 1], p, sr);
            (prev.0.update(upto - 1, t.0), prev.1 + t.1)
        } else {
            prev
        }
    }
}

/// The render pass touches each slot once: beyond `upto` the pool is
/// the input pool, and the length never changes.
pub proof fn lemma_pool_tick_frame(s: Seq<Voice>, p: VitsParams, sr: u32, upto: int)
    requires
        upto <= s.len(),
    ensures
        pool_tick_spec(s, p, sr, upto).0.len() == s.len(),
        forall|j: int|
            upto <= j < s.len() ==> #[trigger] pool_tick_spec(s, p, sr, upto).0[j] == s[j],
    decreases upto,
{
    if upto > 0 {
        lemma_pool_tick_frame(s, p, sr, upto - 1);
    }
}

/// The termination events one rendered sample emits: one per voice
/// that went from sounding to silent, carrying that voice's identity
/// and the sample's timing.
pub open spec fn pool_terminations_spec(
    s: Seq<Voice>,
    p: VitsParams,
    sr: u32,
    t: u32,
    upto: int,
) -> Seq<NoteEvent>
    decreases upto,
{
    if upto <= 0 {
        Seq::empty()
    } else {
        let prev = pool_terminations_spec(s, p, sr, t, upto - 1);
        if s[upto - 1].active && !voice_tick_spec(s[upto - 1], p, sr).0.active {
            prev.push(
                NoteEvent::VoiceTerminated {
                    timing: t,
                    voice_id: s[upto - 1].note_id,
                    channel: s[upto - 1].channel,
                    note: s[upto - 1].note,
                },
            )
        } else {
            prev
        }
    }
}

/// How many queued events fire at sample `t`, scanning from `cursor`:
/// the run of consecutive events whose timing equals `t`.
pub open spec fn drain_count_spec(events: Seq<NoteEvent>, cursor: int, t: u32) -> int
    decreases events.len() - cursor,
{
    if cursor < 0 || cursor >= events.len() {
        0
    } else if event_timing_spec(events[cursor]) != t {
        0
    } else {
        1 + drain_count_spec(events, cursor + 1, t)
    }
}

/// One event applied to the pool: a note-on claims a slot by the
/// stealing policy, a note-off releases its matches, a modulation
/// event writes its offset; anything else changes nothing.
pub open spec fn apply_event_spec(
    s: Seq<Voice>,
    e: NoteEvent,
    p: VitsParams,
    sr: u32,
    age: u64,
) -> Seq<Voice> {
    match e {
        NoteEvent::NoteOn { channel, note, velocity, voice_id, .. } => {
            if s.len() == 0 {
                s
            } else {
                note_on_pool_spec(s, channel, note, velocity, voice_id, p, sr, age)
            }
        },
        NoteEvent::NoteOff { channel, note, voice_id, .. } => note_off_pool_spec(
            s,
            channel,
            note,
            voice_id,
        ),
        NoteEvent::PolyModulation { voice_id, poly_modulation_id, normalized_offset, .. } => poly_mod_pool_spec(
            s,
            voice_id,
            poly_modulation_id,
            normalized_offset as int,
        ),
        NoteEvent::VoiceTerminated { .. } => s,
    }
}

/// `count` queued events applied to the pool in order from `cursor`.
pub open spec fn apply_events_spec(
    s: Seq<Voice>,
    events: Seq<NoteEvent>,
    cursor: int,
    count: int,
    p: VitsParams,
    sr: u32,
    age: u64,
) -> Seq<Voice>
    decreases count,
{
    if count <= 0 || cursor < 0 || cursor >= events.len() {
        s
    } else {
        apply_events_spec(
            apply_event_spec(s, events[cursor], p, sr, age),
            events,
            cursor + 1,
            count - 1,
            p,
            sr,
            age,
        )
    }
}

/// Applying one more event extends the fold at its tail.
pub proof fn lemma_apply_events_snoc(
    s: Seq<Voice>,
    events: Seq<NoteEvent>,
    cursor: int,
    count: int,
    p: VitsParams,
    sr: u32,
    age: u64,
)
    requires
        0 <= cursor,
        0 <= count,
        cursor + count < events.len(),
    ensures
        apply_events_spec(s, events, cursor, count + 1, p, sr, age) == apply_event_spec(
            apply_events_spec(s, events, cursor, count, p, sr, age),
            events[cursor + count],
            p,
            sr,
            age,
        ),
    decreases count,
{
    if count > 0 {
        lemma_apply_events_snoc(
            apply_event_spec(s, events[cursor], p, sr, age),
            events,
            cursor + 1,
            count - 1,
            p,
            sr,
            age,
        );
    } else {
        let applied = apply_event_spec(s, events[cursor], p, sr, age);
        assert(apply_events_spec(s, events, cursor, 0, p, sr, age) == s);
        assert(apply_events_spec(applied, events, cursor + 1, 0, p, sr, age) == applied);
    }
}

/// The whole block, sample by sample: each sample drains the events
/// due at it, renders every active voice, scales the mono sum by the
/// loudness-compensation factor into one stereo frame, and emits one
/// termination event per voice that fell silent. Returns the final
/// pool, the events consumed, the frames, and the terminations.
pub open spec fn block_run_spec(
    s: Seq<Voice>,
    events: Seq<NoteEvent>,
    p: VitsParams,
    sr: u32,
    age: u64,
    samples: int,
) -> (Seq<Voice>, int, Seq<Frame>, Seq<NoteEvent>)
    decreases samples,
{
    if samples <= 0 {
        (s, 0, Seq::empty(), Seq::empty())
    } else {
        let prev = block_run_spec(s, events, p, sr, age, samples - 1);
        let t = (samples - 1) as u32;
        let n = drain_count_spec(events, prev.1, t);
        let sd = apply_events_spec(prev.0, events, prev.1, n, p, sr, age);
        let rt = pool_tick_spec(sd, p, sr, sd.len() as int);
        let out = div_tz(rt.1 * mix_scale_spec(sd.len() as int), UNIT as int) as i64;
        (
            rt.0,
            prev.1 + n,
            prev.2.push(Frame { l: out, r: out }),
            prev.3 + pool_terminations_spec(sd, p, sr, t, sd.len() as int),
        )
    }
}

impl Default for Vitsel {
    /// A fresh engine: factory parameters, a 44100 Hz clock, and a
    /// silent pool sized to the default polyphony.
    fn default() -> (r: Self)
        ensures
            r.wf(),
            r.params == VitsParams::default_spec(),
            r.sample_rate == 44100,
            r.voices.len() == r.params.max_voices,
            forall|i: int| 0 <= i < r.voices.len() ==> !(#[trigger] r.voices[i]).active,
            r.frame_counter == 0,
    {
        let params = VitsParams::default();
        let n: usize = params.max_voices as usize;
        let mut voices: Vec<Voice> = Vec::new();
        while voices.len() < n
            invariant
                voices.len() <= n <= 64,
                forall|k: int|
                    0 <= k < voices.len() ==> (#[trigger] voices[k]).wf() && !voices[k].active,
            decreases n - voices.len(),
        {
            let v = Voice::new(44100);
            voices.push(v);
        }
        Vitsel { params, sample_rate: 44100, voices, frame_counter: 0 }
    }
}

/// The event's sample offset within the block.
fn event_timing(e: &NoteEvent) -> (t: u32)
    ensures
        t == event_timing_spec(*e),
{
    match e {
        NoteEvent::NoteOn { timing, .. } => *timing,
        NoteEvent::NoteOff { timing, .. } => *timing,
        NoteEvent::PolyModulation { timing, .. } => *timing,
        NoteEvent::VoiceTerminated { timing, .. } => *timing,
    }
}

impl Vitsel {
    /// Process one audio block: resize the pool if the polyphony
    /// parameter moved, then, sample by sample, drain the events
    /// scheduled at that sample, render every active voice, sum the
    /// voices and scale the sum by the loudness compensation factor.
    /// Returns one stereo frame per sample and one termination event
    /// for every voice that fell silent during the block. Events must
    /// be ordered by their timing; stragglers are left unconsumed.
    /// The contract pins the frames, the emitted events and the final
    /// pool to `block_run_spec`, the per-sample fold of exactly that
    /// schedule.
    pub fn process(&mut self, events: &Vec<NoteEvent>, num_samples: usize) -> (out: (
        Vec<Frame>,
        Vec<NoteEvent>,
    ))
        requires
            old(self).wf(),
            num_samples <= 0x7fff_ffff,
        ensures
            final(self).wf(),
            out.0.len() == num_samples,
            final(self).voices.len() == final(self).params.max_voices,
            final(self).params == old(self).params,
            final(self).sample_rate == old(self).sample_rate,
            forall|k: int| 0 <= k < out.1.len() ==> (#[trigger] out.1[k]) is VoiceTerminated,
            forall|k: int|
                0 <= k < out.0.len() ==> -(64 * TANH_IN_MAX) <= (#[trigger] out.0[k]).l <= 64
                    * TANH_IN_MAX && -(64 * TANH_IN_MAX) <= out.0[k].r <= 64 * TANH_IN_MAX,
            forall|k: int| 0 <= k < out.0.len() ==> (#[trigger] out.0[k]).l == out.0[k].r,
            (events.len() == 0 && (forall|i: int|
                0 <= i < old(self).voices.len() ==> !(#[trigger] old(self).voices[i]).active))
                ==> ((forall|k: int| 0 <= k < out.0.len() ==> (#[trigger] out.0[k]).l == 0) && (
            forall|i: int|
                0 <= i < final(self).voices.len() ==> !(#[trigger] final(self).voices[i]).active)),
            (single_opening_note_spec(events@) && num_samples >= 1 && old(self).params.sustain
                >= 1) ==> (exists|i: int|
                0 <= i < final(self).voices.len() && (#[trigger] final(self).voices[i]).active),
            final(self).frame_counter == (if old(self).frame_counter == 0xffff_ffff_ffff_ffff {
                0u64
            } else {
                (old(self).frame_counter + 1) as u64
            }),
            ({
                let vs = resize_pool_spec(
                    old(self).voices@,
                    old(self).params.max_voices as int,
                    old(self).sample_rate,
                );
                let tr = block_run_spec(
                    vs,
                    events@,
                    old(self).params,
                    old(self).sample_rate,
                    final(self).frame_counter,
                    num_samples as int,
                );
                final(self).voices@ == tr.0 && out.0@ == tr.2 && out.1@ == tr.3
            }),
    {
        self.frame_counter = self.frame_counter.wrapping_add(1);
        let ghost quiet: bool = events.len() == 0 && (forall|i: int|
            0 <= i < old(self).voices.len() ==> !(#[trigger] old(self).voices[i]).active);
        let ghost sounding: bool = single_opening_note_spec(events@) && num_samples >= 1 && old(
            self,
        ).params.sustain >= 1;
        let ghost mut wj: int = 0;
        let desired: usize = self.params.max_voices as usize;
        if desired != self.voices.len() {
            self.resize_voice_pool();
        }
        proof {
            assert(quiet ==> forall|i: int|
                0 <= i < self.voices.len() ==> !(#[trigger] self.voices[i]).active);
            assert(self.voices@ =~= resize_pool_spec(
                old(self).voices@,
                old(self).params.max_voices as int,
                old(self).sample_rate,
            ));
        }
        let ghost vs0: Seq<Voice> = self.voices@;
        let ghost age: u64 = self.frame_counter;

        let nv: usize = self.voices.len();
        let wave = self.params.wave;
        let osc_mix: i64 = self.params.osc_mix;
        let q: i64 = UNIT + 7 * self.params.resonance;
        let fmode = self.params.filter_mode;
        let cutoff_base: u64 = self.params.cutoff_hz * 1000;
        let mod_cut: i64 = self.params.mod_cutoff;
        let mod_gain: i64 = self.params.mod_gain;
        let base_gain: i64 = self.params.gain;
        let sr: u32 = self.sample_rate;
        let scale: i64 = mix_scale(nv);

        let mut frames: Vec<Frame> = Vec::new();
        let mut terminated: Vec<NoteEvent> = Vec::new();
        let mut cursor: usize = 0;
        let mut idx: usize = 0;
        while idx < num_samples
            invariant
                idx <= num_samples,
                num_samples <= 0x7fff_ffff,
                frames.len() == idx,
                cursor <= events.len(),
                self.wf(),
                self.voices.len() == nv,
                1 <= nv <= 64,
                self.params.max_voices == nv,
                self.params == old(self).params,
                self.sample_rate == old(self).sample_rate,
                sr == self.sample_rate,
                0 <= osc_mix <= UNIT,
                0 <= base_gain <= 2 * UNIT,
                -UNIT <= mod_cut <= UNIT,
                -UNIT <= mod_gain <= UNIT,
                cutoff_base <= 100_000_000,
                0 < scale <= UNIT,
                forall|k: int| 0 <= k < terminated.len() ==> (#[trigger] terminated[k])
                    is VoiceTerminated,
                forall|k: int|
                    0 <= k < frames.len() ==> -(64 * TANH_IN_MAX) <= (#[trigger] frames[k]).l <= 64
                        * TANH_IN_MAX && -(64 * TANH_IN_MAX) <= frames[k].r <= 64 * TANH_IN_MAX,
                forall|k: int| 0 <= k < frames.len() ==> (#[trigger] frames[k]).l == frames[k].r,
                quiet ==> events.len() == 0,
                quiet ==> (forall|i: int|
                    0 <= i < self.voices.len() ==> !(#[trigger] self.voices[i]).active),
                quiet ==> (forall|k: int| 0 <= k < frames.len() ==> (#[trigger] frames[k]).l == 0),
                sounding ==> single_opening_note_spec(events@) && old(self).params.sustain >= 1,
                sounding ==> ((idx == 0 && cursor == 0) || (0 <= wj < nv && lively_voice_spec(
                    self.voices[wj],
                ))),
                age == self.frame_counter,
                scale == mix_scale_spec(nv as int),
                wave == old(self).params.wave,
                osc_mix == old(self).params.osc_mix,
                q == UNIT + 7 * old(self).params.resonance,
                fmode == old(self).params.filter_mode,
                cutoff_base == old(self).params.cutoff_hz * 1000,
                mod_cut == old(self).params.mod_cutoff,
                mod_gain == old(self).params.mod_gain,
                base_gain == old(self).params.gain,
                ({
                    let tr = block_run_spec(
                        vs0,
                        events@,
                        old(self).params,
                        old(self).sample_rate,
                        age,
                        idx as int,
                    );
                    self.voices@ == tr.0 && cursor == tr.1 && frames@ == tr.2 && terminated@
                        == tr.3
                }),
            decreases num_samples - idx,
        {
            let ghost sv: Seq<Voice> = self.voices@;
            let ghost c0: int = cursor as int;
            while cursor < events.len() && event_timing(&events[cursor]) == idx as u32
                invariant
                    cursor <= events.len(),
                    self.wf(),
                    self.voices.len() == nv,
                    1 <= nv <= 64,
                    self.params.max_voices == nv,
                    self.params == old(self).params,
                    self.sample_rate == old(self).sample_rate,
                    sr == self.sample_rate,
                    quiet ==> events.len() == 0,
                    quiet ==> (forall|i: int|
                        0 <= i < self.voices.len() ==> !(#[trigger] self.voices[i]).active),
                    sounding ==> single_opening_note_spec(events@) && old(self).params.sustain
                        >= 1,
                    sounding ==> ((idx == 0 && cursor == 0) || (0 <= wj < nv && lively_voice_spec(
                        self.voices[wj],
                    ))),
                    age == self.frame_counter,
                    0 <= c0 <= cursor <= events.len(),
                    drain_count_spec(events@, c0, idx as u32) == (cursor - c0) + drain_count_spec(
                        events@,
                        cursor as int,
                        idx as u32,
                    ),
                    self.voices@ == apply_events_spec(
                        sv,
                        events@,
                        c0,
                        cursor - c0,
                        old(self).params,
                        old(self).sample_rate,
                        age,
                    ),
                decreases events.len() - cursor,
            {
                proof {
                    assert(drain_count_spec(events@, cursor as int, idx as u32) == 1
                        + drain_count_spec(events@, cursor + 1, idx as u32));
                }
                let ev: NoteEvent = events[cursor];
                match ev {
                    NoteEvent::NoteOn { channel, note, velocity, voice_id, .. } => {
                        let slot = self.handle_note_on(channel, note, velocity, voice_id);
                        proof {
                            if sounding {
                                wj = slot as int;
                            }
                        }
                    },
                    NoteEvent::NoteOff { channel, note, voice_id, .. } => {
                        self.handle_note_off(channel, note, voice_id);
                    },
                    NoteEvent::PolyModulation {
                        voice_id,
                        poly_modulation_id,
                        normalized_offset,
                        ..
                    } => {
                        self.handle_poly_mod(voice_id, poly_modulation_id, normalized_offset);
                    },
                    _ => {},
                }
                proof {
                    lemma_apply_events_snoc(
                        sv,
                        events@,
                        c0,
                        cursor - c0,
                        old(self).params,
                        old(self).sample_rate,
                        age,
                    );
                }
                cursor = cursor + 1;
            }

            let ghost vd: Seq<Voice> = self.voices@;
            let ghost nconsumed: int = cursor - c0;
            let ghost term0: Seq<NoteEvent> = terminated@;
            proof {
                assert(drain_count_spec(events@, cursor as int, idx as u32) == 0);
                assert(nconsumed == drain_count_spec(events@, c0, idx as u32));
                assert(terminated@ =~= term0 + pool_terminations_spec(
                    vd,
                    old(self).params,
                    old(self).sample_rate,
                    idx as u32,
                    0,
                ));
            }

            let mut l: i64 = 0;
            let mut r_sum: i64 = 0;
            let mut vi: usize = 0;
            while vi < nv
                invariant
                    vi <= nv,
                    self.wf(),
                    self.voices.len() == nv,
                    1 <= nv <= 64,
                    self.params.max_voices == nv,
                    self.params == old(self).params,
                    self.sample_rate == old(self).sample_rate,
                    sr == self.sample_rate,
                    0 <= osc_mix <= UNIT,
                    0 <= base_gain <= 2 * UNIT,
                    -UNIT <= mod_cut <= UNIT,
                    -UNIT <= mod_gain <= UNIT,
                    cutoff_base <= 100_000_000,
                    idx < num_samples <= 0x7fff_ffff,
                    -(vi as int) * TANH_IN_MAX <= l <= (vi as int) * TANH_IN_MAX,
                    -(vi as int) * TANH_IN_MAX <= r_sum <= (vi as int) * TANH_IN_MAX,
                    l == r_sum,
                    quiet ==> (forall|i: int|
                        0 <= i < self.voices.len() ==> !(#[trigger] self.voices[i]).active),
                    quiet ==> l == 0,
                    sounding ==> (0 <= wj < nv && lively_voice_spec(self.voices[wj])),
                    forall|k: int| 0 <= k < terminated.len() ==> (#[trigger] terminated[k])
                        is VoiceTerminated,
                    age == self.frame_counter,
                    vd.len() == nv,
                    wave == old(self).params.wave,
                    osc_mix == old(self).params.osc_mix,
                    q == UNIT + 7 * old(self).params.resonance,
                    fmode == old(self).params.filter_mode,
                    cutoff_base == old(self).params.cutoff_hz * 1000,
                    mod_cut == old(self).params.mod_cutoff,
                    mod_gain == old(self).params.mod_gain,
                    base_gain == old(self).params.gain,
                    self.voices@ == pool_tick_spec(
                        vd,
                        old(self).params,
                        old(self).sample_rate,
                        vi as int,
                    ).0,
                    l == pool_tick_spec(vd, old(self).params, old(self).sample_rate, vi as int).1,
                    terminated@ == term0 + pool_terminations_spec(
                        vd,
                        old(self).params,
                        old(self).sample_rate,
                        idx as u32,
                        vi as int,
                    ),
                decreases nv - vi,
            {
                proof {
                    lemma_pool_tick_frame(vd, old(self).params, old(self).sample_rate, vi as int);
                    assert(self.voices@[vi as int] == vd[vi as int]);
                }
                if self.voices[vi].active {
                    proof {
                        if sounding && wj == vi as int {
                            lemma_lively_env_step(self.voices[vi as int].env);
                        }
                        crate::fixed::lemma_abs_mul_bound(
                            self.voices[vi as int].poly_cut_norm as int,
                            mod_cut as int,
                            UNIT as int,
                            UNIT as int,
                        );
                        crate::fixed::lemma_div_tz_range(
                            self.voices[vi as int].poly_cut_norm * mod_cut,
                            UNIT as int,
                            (UNIT as int) * UNIT,
                        );
                    }
                    let eff_cut: i64 = mul_div(self.voices[vi].poly_cut_norm, mod_cut, UNIT);
                    proof {
                        crate::fixed::lemma_abs_mul_bound(
                            eff_cut as int,
                            20_000_000,
                            UNIT as int,
                            20_000_000,
                        );
                        crate::fixed::lemma_div_tz_range(
                            eff_cut * 20_000_000,
                            UNIT as int,
                            (UNIT as int) * 20_000_000,
                        );
                    }
                    let cut_off: i64 = mul_div(eff_cut, 20_000_000, UNIT);
                    proof {
                        crate::fixed::lemma_abs_mul_bound(
                            self.voices[vi as int].poly_gain_norm as int,
                            mod_gain as int,
                            UNIT as int,
                            UNIT as int,
                        );
                        crate::fixed::lemma_div_tz_range(
                            self.voices[vi as int].poly_gain_norm * mod_gain,
                            UNIT as int,
                            (UNIT as int) * UNIT,
                        );
                    }
                    let eff_gain: i64 = mul_div(self.voices[vi].poly_gain_norm, mod_gain, UNIT);
                    proof {
                        crate::fixed::lemma_abs_mul_bound(
                            eff_gain as int,
                            (2 * UNIT) as int,
                            UNIT as int,
                            (2 * UNIT) as int,
                        );
                        crate::fixed::lemma_div_tz_range(
                            eff_gain * (2 * UNIT),
                            UNIT as int,
                            (UNIT as int) * (2 * UNIT),
                        );
                    }
                    let gain_off: i64 = mul_div(eff_gain, 2 * UNIT, UNIT);
                    let gain_eff: i64 = clamp_i64(base_gain + gain_off, 0, 2 * UNIT);
                    let v = &mut self.voices[vi];
                    v.set_filter(q, fmode, sr, cut_off, cutoff_base);
                    let y: i64 = v.render(wave, osc_mix, gain_eff);
                    let now_active: bool = v.active;
                    let nid: Option<i32> = v.note_id;
                    let ch: u8 = v.channel;
                    let nt: u8 = v.note;
                    proof {
                        let t = voice_tick_spec(
                            vd[vi as int],
                            old(self).params,
                            old(self).sample_rate,
                        );
                        assert(self.voices@[vi as int] == t.0);
                        assert(y == t.1);
                        assert(self.voices@ =~= pool_tick_spec(
                            vd,
                            old(self).params,
                            old(self).sample_rate,
                            vi as int + 1,
                        ).0);
                    }
                    l = l + y;
                    r_sum = r_sum + y;
                    if !now_active {
                        terminated.push(
                            NoteEvent::VoiceTerminated {
                                timing: idx as u32,
                                voice_id: nid,
                                channel: ch,
                                note: nt,
                            },
                        );
                    }
                    proof {
                        assert(terminated@ =~= term0 + pool_terminations_spec(
                            vd,
                            old(self).params,
                            old(self).sample_rate,
                            idx as u32,
                            vi as int + 1,
                        ));
                    }
                }
                vi = vi + 1;
            }

            proof {
                crate::fixed::lemma_abs_mul_bound(
                    l as int,
                    scale as int,
                    64 * TANH_IN_MAX,
                    UNIT as int,
                );
                crate::fixed::lemma_abs_mul_bound(
                    r_sum as int,
                    scale as int,
                    64 * TANH_IN_MAX,
                    UNIT as int,
                );
                crate::fixed::lemma_div_tz_range(
                    l * scale,
                    UNIT as int,
                    (64 * TANH_IN_MAX) * UNIT,
                );
                crate::fixed::lemma_div_tz_range(
                    r_sum * scale,
                    UNIT as int,
                    (64 * TANH_IN_MAX) * UNIT,
                );
            }
            proof {
                if quiet {
                    assert(0 * scale == 0) by (nonlinear_arith);
                }
            }
            let out_l: i64 = mul_div(l, scale, UNIT);
            let out_r: i64 = mul_div(r_sum, scale, UNIT);
            frames.push(Frame { l: out_l, r: out_r });
            proof {
                let p0 = old(self).params;
                let sr0 = old(self).sample_rate;
                let tr = block_run_spec(vs0, events@, p0, sr0, age, idx as int);
                let trn = block_run_spec(vs0, events@, p0, sr0, age, idx as int + 1);
                assert(sv == tr.0 && c0 == tr.1);
                assert(vd == apply_events_spec(
                    tr.0,
                    events@,
                    tr.1,
                    drain_count_spec(events@, tr.1, idx as u32),
                    p0,
                    sr0,
                    age,
                ));
                assert(vd.len() == nv);
                assert(self.voices@ == trn.0);
                assert(cursor == trn.1);
                assert(frames@ =~= trn.2);
                assert(terminated@ =~= trn.3);
            }
            idx = idx + 1;
        }
        proof {
            if sounding {
                assert(self.voices[wj].active);
            }
        }
        (frames, terminated)
    }
}

/// The index of the first inactive slot at or past `i`, or minus one
/// if every slot from `i` on is sounding.
pub open spec fn first_inactive_from_spec(s: Seq<Voice>, i: int) -> int
    recommends
        0 <= i <= s.len(),
    decreases s.len() - i,
{
    if i < 0 || i >= s.len() {
        -1
    } else if !s[i].active {
        i
    } else {
        first_inactive_from_spec(s, i + 1)
    }
}

/// The slot with the smallest age among `best` and everything from
/// `i` on; a strictly smaller age displaces the running best, so ties
/// keep the lowest index.
pub open spec fn oldest_slot_from_spec(s: Seq<Voice>, i: int, best: int) -> int
    recommends
        0 <= best < s.len(),
        0 <= i <= s.len(),
    decreases s.len() - i,
{
    if i < 0 || i >= s.len() {
        best
    } else if s[i].age < s[best].age {
        oldest_slot_from_spec(s, i + 1, i)
    } else {
        oldest_slot_from_spec(s, i + 1, best)
    }
}

/// The slot a note-on claims: the first inactive slot, or, with the
/// pool full, the oldest voice at the lowest index.
pub open spec fn alloc_slot_spec(s: Seq<Voice>) -> int
    recommends
        s.len() >= 1,
{
    let f = first_inactive_from_spec(s, 0);
    if f >= 0 {
        f
    } else {
        oldest_slot_from_spec(s, 1, 0)
    }
}

/// What a note-on leaves in the slot it claimed: the envelope timed
/// from the snapshot and retriggered from the slot's current level,
/// both oscillators tuned to the note (the second a few cents up, half
/// a cycle out of phase), the filter registers cleared, and the
/// per-note state reset.
pub open spec fn started_voice_spec(
    v: Voice,
    channel: u8,
    note: u8,
    velocity: i64,
    voice_id: Option<i32>,
    p: VitsParams,
    sr: u32,
    age: u64,
) -> Voice {
    let freq = note_freq_spec(note as int);
    Voice {
        active: true,
        channel,
        note,
        note_id: voice_id,
        freq: freq as u64,
        vel: clamp_spec(velocity as int, 0, UNIT as int) as i64,
        env: Adsr {
            state: EnvStage::Attack,
            a: (p.attack_ms * v.env.sr / 1000) as u64,
            d: (p.decay_ms * v.env.sr / 1000) as u64,
            s: clamp_spec(p.sustain as int, 0, UNIT as int) as i64,
            r: (p.release_ms * v.env.sr / 1000) as u64,
            level: v.env.level,
            sr: v.env.sr,
        },
        osc1: PolyBlepOsc {
            sr,
            phase: 0,
            incr: ((freq * PERIOD) / (sr * 1000)) as u64,
            wave: map_wave_spec(p.wave),
        },
        osc2: PolyBlepOsc {
            sr,
            phase: HALF_PERIOD,
            incr: ((osc2_freq_spec(freq, p.detune as int) * PERIOD) / (sr * 1000)) as u64,
            wave: map_wave_spec(p.wave),
        },
        tri_accum: 0,
        filt: ZdfSvf { ic1eq: 0, ic2eq: 0, ..v.filt },
        releasing: false,
        poly_gain_norm: 0,
        poly_cut_norm: 0,
        age,
    }
}

/// The pool after a resize: truncated from the top, or padded with
/// fresh silent voices.
pub open spec fn resize_pool_spec(s: Seq<Voice>, n: int, sr: u32) -> Seq<Voice>
    recommends
        n >= 0,
{
    if n <= s.len() {
        s.take(n)
    } else {
        s + Seq::new((n - s.len()) as nat, |i: int| crate::voice::fresh_voice_spec(sr))
    }
}

/// The pool after a note-off event: every matching voice released.
pub open spec fn note_off_pool_spec(
    s: Seq<Voice>,
    channel: u8,
    note: u8,
    voice_id: Option<i32>,
) -> Seq<Voice> {
    Seq::new(
        s.len(),
        |i: int|
            if note_off_match_spec(s[i], channel, note, voice_id) {
                released_voice_spec(s[i])
            } else {
                s[i]
            },
    )
}

/// The pool after a poly-modulation event.
pub open spec fn poly_mod_pool_spec(
    s: Seq<Voice>,
    voice_id: i32,
    target: u32,
    offset: int,
) -> Seq<Voice> {
    Seq::new(s.len(), |i: int| poly_mod_voice_spec(s[i], voice_id, target, offset))
}

/// The pool after a note-on event: the claimed slot restarted, every
/// other slot untouched.
pub open spec fn note_on_pool_spec(
    s: Seq<Voice>,
    channel: u8,
    note: u8,
    velocity: i64,
    voice_id: Option<i32>,
    p: VitsParams,
    sr: u32,
    age: u64,
) -> Seq<Voice> {
    let slot = alloc_slot_spec(s);
    s.update(slot, started_voice_spec(s[slot], channel, note, velocity, voice_id, p, sr, age))
}

/// Whether a note-off event addresses this voice: it must be active
/// on the event's channel and note, and carry the event's identifier
/// if the event has one.
pub open spec fn note_off_match_spec(v: Voice, channel: u8, note: u8, voice_id: Option<i32>) -> bool {
    v.active && v.channel == channel && v.note == note && (voice_id is None || v.note_id
        == voice_id)
}

/// What `release` leaves of a voice.
pub open spec fn released_voice_spec(v: Voice) -> Voice {
    if v.active && !v.releasing {
        Voice {
            releasing: true,
            env: if v.env.state is Idle {
                v.env
            } else {
                Adsr { state: EnvStage::Release, ..v.env }
            },
            ..v
        }
    } else {
        v
    }
}

/// What a poly-modulation event leaves of a voice.
pub open spec fn poly_mod_voice_spec(v: Voice, voice_id: i32, target: u32, offset: int) -> Voice {
    if v.active && v.note_id == Some(voice_id) {
        if target == 1 {
            Voice { poly_gain_norm: crate::fixed::clamp_spec(offset, -UNIT as int, UNIT as int) as i64, ..v }
        } else if target == 2 {
            Voice { poly_cut_norm: crate::fixed::clamp_spec(offset, -UNIT as int, UNIT as int) as i64, ..v }
        } else {
            v
        }
    } else {
        v
    }
}

} // verus!
