//! Audio-rate DSP primitives: a PolyBLEP bandlimited oscillator, a
//! zero-delay-feedback state-variable filter, and a rational soft clipper.
//!
//! Phase is kept as a `u64` fraction of one cycle scaled by `PERIOD`;
//! sample values are Q20 fixed point (`fixed::UNIT` is 1.0).

use vstd::prelude::*;
use crate::fixed::{UNIT, div_tz, clamp_spec, clamp_i64, lemma_abs_mul_bound, lemma_div_tz_range};
use vstd::arithmetic::div_mod::{
    lemma_div_pos_is_pos, lemma_div_is_ordered, lemma_multiply_divide_lt,
    lemma_multiply_divide_le, lemma_div_multiples_vanish,
};

verus! {

/// One full oscillator cycle of phase (2 to the 32nd).
pub const PERIOD: u64 = 0x1_0000_0000;

/// Half a cycle: the Nyquist phase increment.
pub const HALF_PERIOD: u64 = 0x8000_0000;

/// Half a cycle in Q20 normalized phase.
pub const HALF_UNIT: i64 = 0x80000;

/// Phase units per Q20 step (`PERIOD / UNIT`).
pub const PHASE_PER_Q20: u64 = 0x1000;

/// Upper bound on frequencies `set_freq` accepts, in milli-hertz.
pub const MAX_FREQ_MILLIHZ: u64 = 100_000_000;

/// Upper bound on the phase increment that `set_freq` can produce.
pub const MAX_INCR: u64 = 0x2_0000_0000_0000;

#[derive(Clone, Copy)]
pub enum Wave {
    Sine,
    Saw,
    Square,
}

pub struct PolyBlepOsc {
    /// Sample rate in hertz.
    pub sr: u32,
    /// Current phase, in `[0, PERIOD)`.
    pub phase: u64,
    /// Phase step per sample.
    pub incr: u64,
    pub wave: Wave,
}

/// Phase folded back into one cycle by repeated subtraction.
pub open spec fn wrap_phase(x: int) -> int
    recommends
        x >= 0,
    decreases x,
{
    if x < PERIOD {
        x
    } else if x - PERIOD >= 0 {
        wrap_phase(x - PERIOD)
    } else {
        0
    }
}

/// The PolyBLEP residual for normalized phase `t` and phase step `dt`,
/// both Q20: a quadratic correction near each wrap of `t`.
pub open spec fn poly_blep_spec(t: int, dt: int) -> int
    recommends
        0 <= t < UNIT,
        0 <= dt,
{
    if t < dt {
        let u = (t * UNIT) / dt;
        u + u - (u * u) / (UNIT as int) - UNIT
    } else if t > UNIT - dt {
        let u = div_tz((t - UNIT) * UNIT, dt);
        (u * u) / (UNIT as int) + u + u + UNIT
    } else {
        0
    }
}

/// The naive sawtooth ramp at normalized phase `t`: `2 t - 1` in Q20.
pub open spec fn saw_ramp_spec(t: int) -> int {
    2 * t - UNIT
}

/// A parabolic approximation of `sin(2 pi t / UNIT)` in Q20: one
/// parabola per half cycle, exact at the quarter-cycle points.
pub open spec fn sine_shape_spec(t: int) -> int
    recommends
        0 <= t < UNIT,
{
    if t < HALF_UNIT {
        (16 * t * (HALF_UNIT - t)) / (UNIT as int)
    } else {
        -((16 * (t - HALF_UNIT) * (UNIT - t)) / (UNIT as int))
    }
}

/// The bandlimited sawtooth sample at normalized phase `t`, step `dt`.
pub open spec fn saw_blep_spec(t: int, dt: int) -> int {
    saw_ramp_spec(t) - poly_blep_spec(t, dt)
}

/// The second BLEP tap for the square wave sits half a cycle away.
pub open spec fn shifted_half_spec(t: int) -> int {
    if t < HALF_UNIT {
        t + HALF_UNIT
    } else {
        t - HALF_UNIT
    }
}

/// The bandlimited square sample at normalized phase `t`, step `dt`.
pub open spec fn square_blep_spec(t: int, dt: int) -> int {
    let base: int = if t < HALF_UNIT {
        UNIT as int
    } else {
        -(UNIT as int)
    };
    base + poly_blep_spec(t, dt) - poly_blep_spec(shifted_half_spec(t), dt)
}

impl PolyBlepOsc {
    /// Structural bounds every oscillator keeps.
    pub open spec fn wf(self) -> bool {
        &&& self.sr >= 1
        &&& self.phase < PERIOD
        &&& self.incr <= MAX_INCR
    }

    /// Normalized phase in Q20.
    pub open spec fn t_spec(self) -> int {
        self.phase as int / PHASE_PER_Q20 as int
    }

    /// Normalized phase step in Q20.
    pub open spec fn dt_spec(self) -> int {
        self.incr as int / PHASE_PER_Q20 as int
    }

    pub fn new(sr: u32, wave: Wave) -> (r: Self)
        requires
            sr >= 1,
        ensures
            r.sr == sr,
            r.phase == 0,
            r.incr == 0,
            r.wave == wave,
            r.wf(),
    {
        Self { sr, phase: 0, incr: 0, wave }
    }

    /// Recompute the phase increment for frequency `f` in milli-hertz:
    /// `incr = f / sr * PERIOD`. A zero frequency stalls the phase, by
    /// design; frequencies below half the sample rate keep the step
    /// under half a cycle.
    pub fn set_freq(&mut self, f: u64)
        requires
            old(self).wf(),
            f <= MAX_FREQ_MILLIHZ,
        ensures
            final(self).incr == (f * PERIOD) as int / (old(self).sr * 1000) as int,
            final(self).sr == old(self).sr,
            final(self).phase == old(self).phase,
            final(self).wave == old(self).wave,
            final(self).wf(),
            2 * f < 1000 * old(self).sr ==> final(self).incr < HALF_PERIOD,
            f == 0 ==> final(self).incr == 0,
    {
        let den: u64 = (self.sr as u64) * 1000;
        let incr: u64 = (f * PERIOD) / den;
        proof {
            assert(f * PERIOD <= den * MAX_INCR) by (nonlinear_arith)
                requires
                    f <= MAX_FREQ_MILLIHZ,
                    den >= 1000,
            ;
            lemma_multiply_divide_le(f * PERIOD, den as int, MAX_INCR as int);
            if 2 * f < 1000 * self.sr {
                assert((f * PERIOD) < den * HALF_PERIOD) by (nonlinear_arith)
                    requires
                        2 * f < 1000 * self.sr,
                        den == self.sr * 1000,
                        PERIOD == 2 * HALF_PERIOD,
                ;
                lemma_multiply_divide_lt(f * PERIOD, den as int, HALF_PERIOD as int);
            }
            if f == 0 {
                assert(0int / den as int == 0) by (nonlinear_arith)
                    requires
                        den > 0,
                ;
            }
        }
        self.incr = incr;
    }

    /// Advance phase by one step and wrap it back into one cycle.
    fn advance(&mut self)
        requires
            old(self).wf(),
        ensures
            final(self).phase == wrap_phase(old(self).phase + old(self).incr),
            final(self).phase < PERIOD,
            final(self).sr == old(self).sr,
            final(self).incr == old(self).incr,
            final(self).wave == old(self).wave,
            final(self).wf(),
    {
        let ghost start: int = self.phase + self.incr;
        self.phase = self.phase + self.incr;
        while self.phase >= PERIOD
            invariant
                wrap_phase(self.phase as int) == wrap_phase(start),
                self.phase <= start,
                self.sr == old(self).sr,
                self.incr == old(self).incr,
                self.wave == old(self).wave,
            decreases self.phase,
        {
            self.phase = self.phase - PERIOD;
        }
    }

    /// Normalized phase and step, both Q20.
    fn t_dt(&self) -> (r: (i64, i64))
        requires
            self.wf(),
        ensures
            r.0 == self.t_spec(),
            r.1 == self.dt_spec(),
            0 <= r.0 < UNIT,
            0 <= r.1,
    {
        proof {
            lemma_multiply_divide_lt(self.phase as int, PHASE_PER_Q20 as int, UNIT as int);
            lemma_div_pos_is_pos(self.phase as int, PHASE_PER_Q20 as int);
            lemma_div_pos_is_pos(self.incr as int, PHASE_PER_Q20 as int);
            lemma_div_is_ordered(self.incr as int, MAX_INCR as int, PHASE_PER_Q20 as int);
            assert(((MAX_INCR / PHASE_PER_Q20) as int) < 0x7fff_ffff_ffff_ffff);
        }
        let t: i64 = (self.phase / PHASE_PER_Q20) as i64;
        let dt: i64 = (self.incr / PHASE_PER_Q20) as i64;
        (t, dt)
    }

    /// The PolyBLEP residual. Within half a step of the wrap it pulls
    /// the edge onto a bandlimited step; elsewhere it is zero. The
    /// residual on the rising side lies in `[-1, 0]`, on the falling
    /// side in `[0, 1]`.
    fn poly_blep(t: i64, dt: i64) -> (r: i64)
        requires
            0 <= t < UNIT,
            0 <= dt,
        ensures
            r == poly_blep_spec(t as int, dt as int),
            t < dt ==> -UNIT <= r <= 0,
            t >= dt && t > UNIT - dt ==> 0 <= r <= UNIT,
            t >= dt && t <= UNIT - dt ==> r == 0,
    {
        if t < dt {
            let u: i64 = (t * UNIT) / dt;
            proof {
                lemma_div_pos_is_pos(t * UNIT, dt as int);
                assert(t * UNIT < dt * UNIT) by (nonlinear_arith)
                    requires
                        t < dt,
                        UNIT > 0,
                ;
                lemma_multiply_divide_lt(t * UNIT, dt as int, UNIT as int);
                // 0 <= u < UNIT now known.
                lemma_div_pos_is_pos(u * u, UNIT as int);
                assert(u * u <= u * UNIT) by (nonlinear_arith)
                    requires
                        0 <= u <= UNIT,
                ;
                lemma_div_is_ordered(u * u, u * UNIT, UNIT as int);
                lemma_div_multiples_vanish(u as int, UNIT as int);
                assert(u * UNIT == UNIT * u) by (nonlinear_arith);
                // So (u * u) / UNIT <= u.
                assert((2 * u - UNIT) * UNIT <= u * u) by (nonlinear_arith);
                lemma_div_is_ordered((2 * u - UNIT) * UNIT, u * u, UNIT as int);
                lemma_div_multiples_vanish(2 * u - UNIT, UNIT as int);
                assert((2 * u - UNIT) * UNIT == UNIT * (2 * u - UNIT)) by (nonlinear_arith);
                // So (u * u) / UNIT >= 2 * u - UNIT.
            }
            u + u - (u * u) / UNIT - UNIT
        } else if t > UNIT - dt {
            let num: i64 = (t - UNIT) * UNIT;
            let u: i64 = num / dt;
            proof {
                let m: int = UNIT - t;
                assert(num == -(m * UNIT)) by (nonlinear_arith)
                    requires
                        m == UNIT - t,
                        num == (t - UNIT) * UNIT,
                ;
                lemma_div_pos_is_pos(m * UNIT, dt as int);
                assert(m * UNIT < dt * UNIT) by (nonlinear_arith)
                    requires
                        m < dt,
                        UNIT > 0,
                ;
                lemma_multiply_divide_lt(m * UNIT, dt as int, UNIT as int);
                assert(u == -((m * UNIT) / dt as int));
                // So -UNIT < u <= 0.
                assert(u * u >= 0) by (nonlinear_arith);
                lemma_div_pos_is_pos(u * u, UNIT as int);
                let v: int = -u;
                assert(u * u == v * v) by (nonlinear_arith)
                    requires
                        v == -u,
                ;
                assert(v * v <= v * UNIT) by (nonlinear_arith)
                    requires
                        0 <= v <= UNIT,
                ;
                lemma_div_is_ordered(v * v, v * UNIT, UNIT as int);
                lemma_div_multiples_vanish(v as int, UNIT as int);
                assert(v * UNIT == UNIT * v) by (nonlinear_arith);
                // So (u * u) / UNIT <= v = -u.
                assert((2 * v - UNIT) * UNIT <= v * v) by (nonlinear_arith);
                lemma_div_is_ordered((2 * v - UNIT) * UNIT, v * v, UNIT as int);
                lemma_div_multiples_vanish(2 * v - UNIT, UNIT as int);
                assert((2 * v - UNIT) * UNIT == UNIT * (2 * v - UNIT)) by (nonlinear_arith);
                // So (u * u) / UNIT >= 2 * v - UNIT.
            }
            (u * u) / UNIT + u + u + UNIT
        } else {
            0
        }
    }

    /// One bandlimited square sample; advances the phase.
    pub fn next_square_blep(&mut self) -> (r: i64)
        requires
            old(self).wf(),
        ensures
            r == square_blep_spec(old(self).t_spec(), old(self).dt_spec()),
            final(self).phase == wrap_phase(old(self).phase + old(self).incr),
            final(self).sr == old(self).sr,
            final(self).incr == old(self).incr,
            final(self).wave == old(self).wave,
            final(self).wf(),
            old(self).incr <= HALF_PERIOD ==> -UNIT <= r <= UNIT,
            -3 * UNIT <= r <= 3 * UNIT,
    {
        let (t, dt) = self.t_dt();
        let y0: i64 = if t < HALF_UNIT { UNIT } else { -UNIT };
        let t2: i64 = if t < HALF_UNIT { t + HALF_UNIT } else { t - HALF_UNIT };
        let b1: i64 = Self::poly_blep(t, dt);
        let b2: i64 = Self::poly_blep(t2, dt);
        proof {
            if self.incr <= HALF_PERIOD {
                lemma_div_is_ordered(self.incr as int, HALF_PERIOD as int, PHASE_PER_Q20 as int);
                assert(HALF_PERIOD as int / PHASE_PER_Q20 as int == HALF_UNIT);
            }
        }
        let y: i64 = y0 + b1 - b2;
        self.advance();
        y
    }

    /// One bandlimited sawtooth sample; advances the phase.
    pub fn next_saw_blep(&mut self) -> (r: i64)
        requires
            old(self).wf(),
        ensures
            r == saw_blep_spec(old(self).t_spec(), old(self).dt_spec()),
            final(self).phase == wrap_phase(old(self).phase + old(self).incr),
            final(self).sr == old(self).sr,
            final(self).incr == old(self).incr,
            final(self).wave == old(self).wave,
            final(self).wf(),
            old(self).incr <= HALF_PERIOD ==> -UNIT <= r <= UNIT,
            -3 * UNIT <= r <= 3 * UNIT,
    {
        let (t, dt) = self.t_dt();
        let ramp: i64 = 2 * t - UNIT;
        let b: i64 = Self::poly_blep(t, dt);
        proof {
            if self.incr <= HALF_PERIOD {
                lemma_div_is_ordered(self.incr as int, HALF_PERIOD as int, PHASE_PER_Q20 as int);
                assert(HALF_PERIOD as int / PHASE_PER_Q20 as int == HALF_UNIT);
            }
        }
        let y: i64 = ramp - b;
        self.advance();
        y
    }

    /// One sine sample from the parabolic shape; advances the phase.
    pub fn next_sine(&mut self) -> (r: i64)
        requires
            old(self).wf(),
        ensures
            r == sine_shape_spec(old(self).t_spec()),
            final(self).phase == wrap_phase(old(self).phase + old(self).incr),
            final(self).sr == old(self).sr,
            final(self).incr == old(self).incr,
            final(self).wave == old(self).wave,
            final(self).wf(),
            -UNIT <= r <= UNIT,
    {
        let (t, _dt) = self.t_dt();
        let y: i64 = if t < HALF_UNIT {
            proof {
                lemma_sine_parabola_bounds(t as int);
                lemma_div_pos_is_pos(16 * t * (HALF_UNIT - t), UNIT as int);
                lemma_multiply_divide_le(16 * t * (HALF_UNIT - t), UNIT as int, UNIT as int);
            }
            let p: i64 = 16 * t * (HALF_UNIT - t);
            p / UNIT
        } else {
            proof {
                let a: int = t - HALF_UNIT;
                assert(UNIT - t == HALF_UNIT - a);
                lemma_sine_parabola_bounds(a);
                assert(16 * (t - HALF_UNIT) * (UNIT - t) == 16 * a * (HALF_UNIT - a));
                lemma_div_pos_is_pos(16 * (t - HALF_UNIT) * (UNIT - t), UNIT as int);
                lemma_multiply_divide_le(16 * (t - HALF_UNIT) * (UNIT - t), UNIT as int, UNIT as int);
            }
            let p: i64 = 16 * (t - HALF_UNIT) * (UNIT - t);
            -(p / UNIT)
        };
        self.advance();
        y
    }
}

/// For `0 <= a <= HALF_UNIT`, the parabola `16 a (HALF_UNIT - a)`
/// stays within `[0, UNIT * UNIT]`: its peak, at the quarter cycle,
/// is exactly one.
proof fn lemma_sine_parabola_bounds(a: int)
    requires
        0 <= a <= HALF_UNIT,
    ensures
        0 <= 16 * a * (HALF_UNIT - a) <= UNIT * UNIT,
{
    assert(0 <= 16 * a * (HALF_UNIT - a) <= 4 * HALF_UNIT * HALF_UNIT) by (nonlinear_arith)
        requires
            0 <= a <= HALF_UNIT,
    ;
}

/// Bound on the filter's internal state registers, Q20 (1024.0).
pub const STATE_MAX: i64 = 0x4000_0000;

/// Bound on the filter's warp coefficient `g`, Q20 (32.0).
pub const G_MAX: i64 = 0x200_0000;

/// Lower clamp of the damping coefficient, Q20 (about 0.02).
pub const R_COEFF_MIN: i64 = 20972;

/// Upper clamp of the damping coefficient, Q20 (10.0).
pub const R_COEFF_MAX: i64 = 0xA0_0000;

/// Floor on the resonance quality factor, Q20 (about 0.05).
pub const Q_FLOOR: i64 = 52429;

/// Lower clamp of normalized cutoff, Q20 (about 0.00001).
pub const F_NORM_MIN: i64 = 10;

/// Upper clamp of normalized cutoff, Q20 (0.49).
pub const F_NORM_MAX: i64 = 513802;

/// Largest input sample `fast_tanh` accepts, Q20 (65536.0).
pub const TANH_IN_MAX: i64 = 0x10_0000_0000;

/// The rational soft clip `x (27 + x^2) / (27 + 9 x^2)` in Q20: a
/// cheap approximation of the hyperbolic tangent near the origin.
pub open spec fn fast_tanh_spec(x: int) -> int {
    div_tz(x * (27 * UNIT * UNIT + x * x), 27 * UNIT * UNIT + 9 * (x * x))
}

/// Soft clipper used at the end of the voice chain. Never grows a
/// sample's magnitude.
pub fn fast_tanh(x: i64) -> (r: i64)
    requires
        -TANH_IN_MAX <= x <= TANH_IN_MAX,
    ensures
        r == fast_tanh_spec(x as int),
        x >= 0 ==> 0 <= r <= x,
        x < 0 ==> x <= r <= 0,
{
    let xi: i128 = x as i128;
    let c27: i128 = 27 * (UNIT as i128) * (UNIT as i128);
    proof {
        lemma_abs_mul_bound(xi as int, xi as int, TANH_IN_MAX as int, TANH_IN_MAX as int);
    }
    let x2: i128 = xi * xi;
    proof {
        assert(x2 >= 0) by (nonlinear_arith)
            requires
                x2 == xi * xi,
        ;
        lemma_abs_mul_bound(
            xi as int,
            c27 + x2,
            TANH_IN_MAX as int,
            c27 + TANH_IN_MAX * TANH_IN_MAX,
        );
    }
    let num: i128 = xi * (c27 + x2);
    let den: i128 = c27 + 9 * x2;
    proof {
        let xx: int = x as int;
        if x >= 0 {
            assert(num >= 0) by (nonlinear_arith)
                requires
                    num == xx * (c27 + xx * xx),
                    c27 > 0,
                    xx >= 0,
            ;
        } else {
            assert(num <= 0) by (nonlinear_arith)
                requires
                    num == xx * (c27 + xx * xx),
                    c27 > 0,
                    xx < 0,
            ;
        }
    }
    let y: i128 = num / den;
    proof {
        let xx: int = x as int;
        if x >= 0 {
            assert(num <= den * xx) by (nonlinear_arith)
                requires
                    num == xx * (c27 + xx * xx),
                    den == c27 + 9 * (xx * xx),
                    c27 > 0,
                    xx >= 0,
            ;
            lemma_div_pos_is_pos(num as int, den as int);
            lemma_multiply_divide_le(num as int, den as int, xx);
        } else {
            assert(-num <= den * (-xx)) by (nonlinear_arith)
                requires
                    num == xx * (c27 + xx * xx),
                    den == c27 + 9 * (xx * xx),
                    c27 > 0,
                    xx < 0,
            ;
            lemma_div_pos_is_pos(-(num as int), den as int);
            lemma_multiply_divide_le(-(num as int), den as int, -xx);
        }
    }
    y as i64
}

#[derive(Clone, Copy)]
pub enum FilterMode {
    Off,
    LP,
    BP,
    HP,
}

/// Zero-delay-feedback (topology-preserving transform) state-variable
/// filter. The implicit feedback equation is solved in closed form
/// each sample; the two integrator registers are the entire state.
pub struct ZdfSvf {
    /// Sample rate in hertz.
    pub sr: u32,
    /// First integrator state, Q20, within `STATE_MAX`.
    pub ic1eq: i64,
    /// Second integrator state, Q20, within `STATE_MAX`.
    pub ic2eq: i64,
    /// Frequency-warp coefficient `tan(pi f_norm)`, Q20.
    pub g: i64,
    /// Damping coefficient `1 / Q`, Q20.
    pub r: i64,
    pub mode: FilterMode,
}

/// Normalized cutoff clamped into the stable range, Q20.
pub open spec fn f_norm_spec(cutoff_mhz: int, sr: int) -> int
    recommends
        sr >= 1,
{
    clamp_spec(cutoff_mhz * UNIT / (sr * 1000), F_NORM_MIN as int, F_NORM_MAX as int)
}

/// A rational approximation of `sin(pi y / UNIT)` on the first half
/// cycle, Q20: exact at zero and at the peak.
pub open spec fn half_sine_spec(y: int) -> int
    recommends
        0 <= y < UNIT,
{
    (16 * y * (UNIT - y) * UNIT) / (5 * UNIT * UNIT - 4 * y * (UNIT - y))
}

/// The warp coefficient `tan(pi f_norm)` as a sine/cosine quotient,
/// clamped into `[0, G_MAX]`.
pub open spec fn g_spec(cutoff_mhz: int, sr: int) -> int {
    let f = f_norm_spec(cutoff_mhz, sr);
    let s = half_sine_spec(f);
    let c = half_sine_spec(HALF_UNIT - f);
    clamp_spec((s * UNIT) / c, 0, G_MAX as int)
}

/// The damping coefficient `clamp(1 / max(q, 0.05), 0.02, 10)`, Q20.
pub open spec fn r_coeff_spec(q: int) -> int {
    let qc = if q < Q_FLOOR { Q_FLOOR as int } else { q };
    clamp_spec((UNIT * UNIT) / qc, R_COEFF_MIN as int, R_COEFF_MAX as int)
}

/// The closed-form feedback gain `1 / (1 + g (g + r))`, Q20.
pub open spec fn svf_h_spec(s: ZdfSvf) -> int {
    div_tz(UNIT * UNIT * UNIT, UNIT * UNIT + s.g * (s.g + s.r))
}

/// The band-pass tap solved without delay, clamped into the state range.
pub open spec fn svf_v1_spec(s: ZdfSvf, x: int) -> int {
    clamp_spec(
        div_tz(svf_h_spec(s) * (s.ic1eq * UNIT + s.g * (x - s.ic2eq)), UNIT * UNIT),
        -STATE_MAX as int,
        STATE_MAX as int,
    )
}

/// The low-pass tap, clamped into the state range.
pub open spec fn svf_v2_spec(s: ZdfSvf, x: int) -> int {
    clamp_spec(
        s.ic2eq + div_tz(s.g * svf_v1_spec(s, x), UNIT as int),
        -STATE_MAX as int,
        STATE_MAX as int,
    )
}

/// The filter state after one sample: trapezoidal register updates
/// `2 v - state`, or the state untouched when the filter is off.
pub open spec fn svf_step_spec(s: ZdfSvf, x: int) -> ZdfSvf {
    if s.mode is Off {
        s
    } else {
        let v1 = svf_v1_spec(s, x);
        let v2 = svf_v2_spec(s, x);
        ZdfSvf {
            ic1eq: clamp_spec(2 * v1 - s.ic1eq, -STATE_MAX as int, STATE_MAX as int) as i64,
            ic2eq: clamp_spec(2 * v2 - s.ic2eq, -STATE_MAX as int, STATE_MAX as int) as i64,
            ..s
        }
    }
}

/// The output sample: the tap selected by the mode, or the input
/// unchanged when the filter is off.
pub open spec fn svf_out_spec(s: ZdfSvf, x: int) -> int {
    match s.mode {
        FilterMode::Off => x,
        FilterMode::LP => svf_v2_spec(s, x),
        FilterMode::BP => svf_v1_spec(s, x),
        FilterMode::HP => x - div_tz(s.r * svf_v1_spec(s, x), UNIT as int) - svf_v2_spec(s, x),
    }
}

impl ZdfSvf {
    /// Structural bounds every filter keeps.
    pub open spec fn wf(self) -> bool {
        &&& self.sr >= 1
        &&& -STATE_MAX <= self.ic1eq <= STATE_MAX
        &&& -STATE_MAX <= self.ic2eq <= STATE_MAX
        &&& 0 <= self.g <= G_MAX
        &&& R_COEFF_MIN <= self.r <= R_COEFF_MAX
    }

    pub fn new(sr: u32) -> (r: Self)
        requires
            sr >= 1,
        ensures
            r.sr == sr,
            r.ic1eq == 0,
            r.ic2eq == 0,
            r.g == 0,
            r.r == UNIT,
            r.mode is LP,
            r.wf(),
    {
        Self { sr, ic1eq: 0, ic2eq: 0, g: 0, r: UNIT, mode: FilterMode::LP }
    }

    /// The Bhaskara-style half-cycle sine, Q20.
    fn half_sine(y: i64) -> (r: i64)
        requires
            0 <= y < UNIT,
        ensures
            r == half_sine_spec(y as int),
            0 <= r <= UNIT,
            1 <= y <= HALF_UNIT ==> 1 <= r,
    {
        let yi: i128 = y as i128;
        let ui: i128 = UNIT as i128;
        proof {
            lemma_abs_mul_bound(yi as int, ui - yi, UNIT as int, UNIT as int);
        }
        let prod: i128 = yi * (ui - yi);
        proof {
            lemma_abs_mul_bound(16 * prod, ui as int, 16 * UNIT * UNIT, UNIT as int);
        }
        let num: i128 = 16 * prod * ui;
        let den: i128 = 5 * ui * ui - 4 * prod;
        proof {
            let yy: int = y as int;
            let uu: int = UNIT as int;
            assert(0 <= yy * (uu - yy) && 4 * (yy * (uu - yy)) <= uu * uu) by (nonlinear_arith)
                requires
                    0 <= yy < uu,
            ;
            assert(num == 16 * yy * (uu - yy) * uu) by (nonlinear_arith)
                requires
                    num == 16 * (yy * (uu - yy)) * uu,
            ;
            assert(den == 5 * uu * uu - 4 * yy * (uu - yy)) by (nonlinear_arith)
                requires
                    den == 5 * uu * uu - 4 * (yy * (uu - yy)),
            ;
            assert(num <= den * uu) by (nonlinear_arith)
                requires
                    num == 16 * (yy * (uu - yy)) * uu,
                    den == 5 * uu * uu - 4 * (yy * (uu - yy)),
                    4 * (yy * (uu - yy)) <= uu * uu,
                    0 <= yy * (uu - yy),
                    uu > 0,
            ;
            lemma_div_pos_is_pos(num as int, den as int);
            lemma_multiply_divide_le(num as int, den as int, uu);
            if 1 <= y && y <= HALF_UNIT {
                assert(yy * (uu - yy) >= HALF_UNIT) by (nonlinear_arith)
                    requires
                        1 <= yy <= HALF_UNIT,
                        uu == 2 * HALF_UNIT,
                ;
                assert(num >= den) by (nonlinear_arith)
                    requires
                        num == 16 * (yy * (uu - yy)) * ui,
                        den == 5 * ui * ui - 4 * (yy * (uu - yy)),
                        yy * (uu - yy) >= HALF_UNIT,
                        ui == 2 * HALF_UNIT,
                        HALF_UNIT > 0,
                ;
                lemma_div_is_ordered(den as int, num as int, den as int);
                vstd::arithmetic::div_mod::lemma_div_by_self(den as int);
            }
        }
        (num / den) as i64
    }

    /// Recompute coefficients for a cutoff in milli-hertz, a quality
    /// factor `q` in Q20, and a response mode. The cutoff is clamped
    /// to the Nyquist-safe range, the damping to its stable range.
    pub fn set(&mut self, cutoff_mhz: u64, q: i64, mode: FilterMode)
        requires
            old(self).wf(),
        ensures
            final(self).g == g_spec(cutoff_mhz as int, old(self).sr as int),
            final(self).r == r_coeff_spec(q as int),
            final(self).mode == mode,
            final(self).sr == old(self).sr,
            final(self).ic1eq == old(self).ic1eq,
            final(self).ic2eq == old(self).ic2eq,
            final(self).wf(),
    {
        proof {
            lemma_abs_mul_bound(cutoff_mhz as int, UNIT as int, 0xffff_ffff_ffff_ffff, UNIT as int);
        }
        let num: u128 = (cutoff_mhz as u128) * (UNIT as u128);
        let den: u128 = (self.sr as u128) * 1000;
        let raw: u128 = num / den;
        let f: i64 = if raw < F_NORM_MIN as u128 {
            F_NORM_MIN
        } else if raw > F_NORM_MAX as u128 {
            F_NORM_MAX
        } else {
            raw as i64
        };
        let s: i64 = Self::half_sine(f);
        let c: i64 = Self::half_sine(HALF_UNIT - f);
        proof {
            lemma_abs_mul_bound(s as int, UNIT as int, UNIT as int, UNIT as int);
            lemma_div_pos_is_pos(s * UNIT, c as int);
            assert(s * UNIT <= c * (UNIT * UNIT)) by (nonlinear_arith)
                requires
                    0 <= s <= UNIT,
                    c >= 1,
            ;
            lemma_multiply_divide_le(s * UNIT, c as int, UNIT * UNIT);
        }
        let g_raw: i64 = (((s as i128) * (UNIT as i128)) / (c as i128)) as i64;
        self.g = clamp_i64(g_raw, 0, G_MAX);
        let qc: i64 = if q < Q_FLOOR {
            Q_FLOOR
        } else {
            q
        };
        proof {
            lemma_div_pos_is_pos(UNIT * UNIT, qc as int);
            lemma_multiply_divide_le(UNIT * UNIT, qc as int, UNIT * UNIT);
        }
        let r_raw: i64 = (((UNIT as i128) * (UNIT as i128)) / (qc as i128)) as i64;
        self.r = clamp_i64(r_raw, R_COEFF_MIN, R_COEFF_MAX);
        self.mode = mode;
    }

    /// One sample through the filter. Off is an exact passthrough that
    /// leaves the state untouched; every other mode solves the
    /// zero-delay feedback equation and updates both registers.
    pub fn process(&mut self, x: i64) -> (y: i64)
        requires
            old(self).wf(),
            -STATE_MAX <= x <= STATE_MAX,
        ensures
            y == svf_out_spec(*old(self), x as int),
            *final(self) == svf_step_spec(*old(self), x as int),
            final(self).wf(),
            old(self).mode is Off ==> y == x && *final(self) == *old(self),
            -16 * STATE_MAX <= y <= 16 * STATE_MAX,
    {
        if matches!(self.mode, FilterMode::Off) {
            return x;
        }
        let gi: i128 = self.g as i128;
        let ri: i128 = self.r as i128;
        let s1: i128 = self.ic1eq as i128;
        let s2: i128 = self.ic2eq as i128;
        let xi: i128 = x as i128;
        let u: i128 = UNIT as i128;
        let u2: i128 = u * u;
        proof {
            lemma_abs_mul_bound(gi as int, gi + ri, G_MAX as int, (G_MAX + R_COEFF_MAX) as int);
        }
        let den: i128 = u2 + gi * (gi + ri);
        proof {
            lemma_div_pos_is_pos(u2 * u, den as int);
            assert(u2 * u <= den * u) by (nonlinear_arith)
                requires
                    den >= u2,
                    u > 0,
            ;
            lemma_multiply_divide_le(u2 * u, den as int, u as int);
        }
        let h: i128 = (u2 * u) / den;
        proof {
            lemma_abs_mul_bound(s1 as int, u as int, STATE_MAX as int, UNIT as int);
            lemma_abs_mul_bound(gi as int, xi - s2, G_MAX as int, 2 * STATE_MAX);
        }
        let inner: i128 = s1 * u + gi * (xi - s2);
        proof {
            lemma_abs_mul_bound(
                h as int,
                inner as int,
                UNIT as int,
                STATE_MAX * UNIT + G_MAX * 2 * STATE_MAX,
            );
        }
        let v1_raw: i128 = (h * inner) / u2;
        let smax: i128 = STATE_MAX as i128;
        let v1: i64 = if v1_raw < -smax {
            -STATE_MAX
        } else if v1_raw > smax {
            STATE_MAX
        } else {
            v1_raw as i64
        };
        proof {
            lemma_abs_mul_bound(gi as int, v1 as int, G_MAX as int, STATE_MAX as int);
        }
        let v2_raw: i128 = s2 + (gi * (v1 as i128)) / u;
        let v2: i64 = if v2_raw < -smax {
            -STATE_MAX
        } else if v2_raw > smax {
            STATE_MAX
        } else {
            v2_raw as i64
        };
        let n1_raw: i128 = 2 * (v1 as i128) - s1;
        let n1: i64 = if n1_raw < -smax {
            -STATE_MAX
        } else if n1_raw > smax {
            STATE_MAX
        } else {
            n1_raw as i64
        };
        let n2_raw: i128 = 2 * (v2 as i128) - s2;
        let n2: i64 = if n2_raw < -smax {
            -STATE_MAX
        } else if n2_raw > smax {
            STATE_MAX
        } else {
            n2_raw as i64
        };
        proof {
            lemma_abs_mul_bound(ri as int, v1 as int, R_COEFF_MAX as int, STATE_MAX as int);
            lemma_div_tz_range(ri * (v1 as i128), UNIT as int, R_COEFF_MAX * STATE_MAX);
        }
        let out: i64 = match self.mode {
            FilterMode::LP => v2,
            FilterMode::BP => v1,
            FilterMode::HP => ((xi - (ri * (v1 as i128)) / u - (v2 as i128)) as i64),
            FilterMode::Off => x,
        };
        self.ic1eq = n1;
        self.ic2eq = n2;
        out
    }
}

/// The cutoff-to-zero limit of the low-pass response: at `g == 0` the
/// low-pass output is exactly the second state register and the state
/// no longer moves, so from a reset state the output is pinned to
/// zero however long the filter runs.
pub proof fn lemma_lowpass_cutoff_zero(s: ZdfSvf, x: int)
    requires
        s.wf(),
        s.g == 0,
        s.mode is LP,
    ensures
        svf_out_spec(s, x) == s.ic2eq,
        svf_step_spec(s, x) == s,
{
    let u2: int = UNIT * UNIT;
    assert(UNIT * UNIT + s.g * (s.g + s.r) == u2) by (nonlinear_arith)
        requires
            s.g == 0,
            u2 == UNIT * UNIT,
    ;
    crate::fixed::lemma_div_tz_exact(UNIT as int, u2);
    assert(u2 * UNIT == UNIT * UNIT * UNIT) by (nonlinear_arith)
        requires
            u2 == UNIT * UNIT,
    ;
    assert(svf_h_spec(s) == UNIT);
    assert(UNIT * (s.ic1eq * UNIT + s.g * (x - s.ic2eq)) == u2 * s.ic1eq) by (nonlinear_arith)
        requires
            s.g == 0,
            u2 == UNIT * UNIT,
    ;
    crate::fixed::lemma_div_tz_exact(s.ic1eq as int, u2);
    assert(u2 * s.ic1eq == s.ic1eq * u2) by (nonlinear_arith);
    assert(div_tz(u2 * s.ic1eq, u2) == s.ic1eq);
    assert(svf_v1_spec(s, x) == s.ic1eq);
    assert(s.g * svf_v1_spec(s, x) == 0) by (nonlinear_arith)
        requires
            s.g == 0,
    ;
    assert(div_tz(0, UNIT as int) == 0);
    assert(svf_v2_spec(s, x) == s.ic2eq);
}

/// The Nyquist-end limit of the low-pass response: with the warp
/// coefficient at the value the Nyquist cutoff clamp produces and unit
/// damping, a cleared filter passes at least ninety-six percent of any
/// in-range input through its low-pass tap (minus a fixed-point
/// quantum of slack), and never more than the input: as the cutoff
/// reaches its ceiling the filter approaches the identity.
pub proof fn lemma_lowpass_nyquist_tracks(s: ZdfSvf, x: int)
    requires
        s.wf(),
        s.mode is LP,
        s.ic1eq == 0,
        s.ic2eq == 0,
        s.g == 32820485,
        s.r == UNIT,
        0 <= x <= UNIT,
    ensures
        svf_out_spec(s, x) <= x,
        96 * x <= 100 * svf_out_spec(s, x) + 3400,
{
    let g: int = 32820485;
    let u: int = UNIT as int;
    let u2: int = u * u;
    let u3: int = u2 * u;
    let den: int = u2 + g * (g + u);
    assert(den == 1112698520142361) by (nonlinear_arith)
        requires
            den == (1048576 * 1048576) + 32820485 * (32820485 + 1048576),
    ;
    assert(u3 == 1152921504606846976) by (nonlinear_arith)
        requires
            u2 == 1048576 * 1048576,
            u3 == u2 * 1048576,
    ;
    assert(div_tz(u3, den) == 1036);
    assert(svf_h_spec(s) == 1036);
    let h: int = 1036;
    let kk: int = 34002022460;
    assert(s.ic1eq * u + s.g * (x - s.ic2eq) == g * x) by (nonlinear_arith)
        requires
            s.ic1eq == 0,
            s.ic2eq == 0,
            s.g == g,
    ;
    assert(h * (g * x) == kk * x) by (nonlinear_arith)
        requires
            h == 1036,
            g == 32820485,
            kk == 34002022460,
    ;
    let v1: int = div_tz(kk * x, u2);
    assert(kk * x >= 0) by (nonlinear_arith)
        requires
            kk > 0,
            x >= 0,
    ;
    assert(kk * x <= kk * u) by (nonlinear_arith)
        requires
            kk > 0,
            x <= u,
    ;
    lemma_div_pos_is_pos(kk * x, u2);
    lemma_div_is_ordered(kk * x, kk * u, u2);
    assert((kk * u) / u2 == 32426);
    assert(v1 <= 32426);
    // The band-pass tap never reaches its clamp.
    assert(svf_v1_spec(s, x) == v1);
    vstd::arithmetic::div_mod::lemma_fundamental_div_mod(kk * x, u2);
    assert(u2 * v1 <= kk * x && kk * x < u2 * (v1 + 1));
    let v2: int = div_tz(g * v1, u as int);
    assert(g * v1 >= 0 && g * v1 <= g * 32426) by (nonlinear_arith)
        requires
            g > 0,
            0 <= v1 <= 32426,
    ;
    lemma_div_pos_is_pos(g * v1, u);
    lemma_div_is_ordered(g * v1, g * 32426, u);
    assert((g * 32426) / u == 1014935);
    assert(v2 <= 1014935);
    // The low-pass tap never reaches its clamp either.
    assert(svf_v2_spec(s, x) == v2);
    vstd::arithmetic::div_mod::lemma_fundamental_div_mod(g * v1, u);
    assert(u * v2 <= g * v1 && g * v1 < u * (v2 + 1));
    // Upper bound: the output never exceeds the input.
    assert(v2 <= x) by (nonlinear_arith)
        requires
            u * v2 <= g * v1,
            u2 * v1 <= kk * x,
            g == 32820485,
            kk == 34002022460,
            u == 1048576,
            u2 == u * u,
            u3 == u2 * u,
            u3 == 1152921504606846976,
            v1 >= 0,
            v2 >= 0,
            x >= 0,
    ;
    // Lower bound: at least ninety-six percent, minus the quantum slack.
    assert(96 * x <= 100 * v2 + 3400) by (nonlinear_arith)
        requires
            g * v1 < u * (v2 + 1),
            kk * x < u2 * (v1 + 1),
            g == 32820485,
            kk == 34002022460,
            u == 1048576,
            u2 == u * u,
            v1 >= 0,
            v2 >= 0,
            0 <= x <= u,
    ;
}

/// The complementary limit at the other end of the dial: at `g == 0`
/// the high-pass tap passes the input through untouched once the
/// state registers are clear, and leaves them clear.
pub proof fn lemma_highpass_cutoff_zero(s: ZdfSvf, x: int)
    requires
        s.wf(),
        s.g == 0,
        s.mode is HP,
        s.ic1eq == 0,
        s.ic2eq == 0,
    ensures
        svf_out_spec(s, x) == x,
        svf_step_spec(s, x) == s,
{
    let u2: int = UNIT * UNIT;
    assert(UNIT * UNIT + s.g * (s.g + s.r) == u2) by (nonlinear_arith)
        requires
            s.g == 0,
            u2 == UNIT * UNIT,
    ;
    crate::fixed::lemma_div_tz_exact(UNIT as int, u2);
    assert(u2 * UNIT == UNIT * UNIT * UNIT) by (nonlinear_arith)
        requires
            u2 == UNIT * UNIT,
    ;
    assert(svf_h_spec(s) == UNIT);
    assert(UNIT * (s.ic1eq * UNIT + s.g * (x - s.ic2eq)) == 0) by (nonlinear_arith)
        requires
            s.g == 0,
            s.ic1eq == 0,
    ;
    assert(div_tz(0, u2) == 0);
    assert(svf_v1_spec(s, x) == 0);
    assert(s.g * svf_v1_spec(s, x) == 0) by (nonlinear_arith)
        requires
            s.g == 0,
    ;
    assert(div_tz(0, UNIT as int) == 0);
    assert(svf_v2_spec(s, x) == 0);
    assert(s.r * 0 == 0) by (nonlinear_arith);
}

/// A phase below one cycle wraps to itself; one within two cycles
/// wraps by a single subtraction. With a positive step under one cycle
/// the wrapped phase never repeats: this is the strict advance of the
/// oscillator phase.
pub proof fn lemma_phase_strictly_advances(p: int, i: int)
    requires
        0 <= p < PERIOD,
        0 < i < PERIOD,
    ensures
        0 <= wrap_phase(p + i) < PERIOD,
        wrap_phase(p + i) != p,
        p + i < PERIOD ==> wrap_phase(p + i) == p + i,
        p + i >= PERIOD ==> wrap_phase(p + i) == p + i - PERIOD,
{
    if p + i < PERIOD {
        assert(wrap_phase(p + i) == p + i);
    } else {
        assert(wrap_phase(p + i) == wrap_phase(p + i - PERIOD));
        assert(p + i - PERIOD < PERIOD);
        assert(wrap_phase(p + i - PERIOD) == p + i - PERIOD);
    }
}

} // verus!
