use vstd::prelude::*;

use crate::engine::{Block, DynBlock, SampleConstant, StereoFrame};
use crate::fixed::{
    clamp, div_trunc, div_trunc_i128, floor_sqrt, lemma_floor_sqrt_at_most_unit,
    lemma_floor_sqrt_exists, sqrt_floor, Sample, UNIT,
};

verus! {

/// A phase angle: `PHASE_CYCLE` stands for a full turn (2π), so every value lies in one cycle.
pub type Phase = u32;

/// Number of phase units in one full cycle.
pub open spec fn phase_cycle() -> int {
    0x1_0000_0000
}

/// Phase advance for one sample at frequency `freq` (millihertz) and `rate` samples per
/// second: `freq / rate` of a cycle, rounded toward zero.
pub open spec fn phase_step(freq: int, rate: int) -> int {
    div_trunc(freq * phase_cycle(), 1000 * rate)
}

/// The phase after one step, wrapped into one cycle.
pub open spec fn advance_phase(phase: Phase, freq: Sample, rate: u32) -> Phase {
    ((phase + phase_step(freq as int, rate as int)) % phase_cycle()) as Phase
}

/// A phase accumulator: yields its phase, then advances it by `freq / sample_rate` of a
/// cycle, where `freq` is read from its frequency node at that step.
pub struct Phasor<F: Block<Output = Sample>> {
    pub freq: F,
    pub phase: Phase,
    pub sample_rate: u32,
}

impl<F: Block<Output = Sample>> Phasor<F> {
    pub fn new(freq: F, sample_rate: u32) -> (r: Phasor<F>)
        ensures
            r == (Phasor { freq, phase: 0, sample_rate }),
    {
        Phasor { freq, phase: 0, sample_rate }
    }
}

impl<F: Block<Output = Sample>> Block for Phasor<F> {
    type Output = Phase;

    open spec fn wf(&self) -> bool {
        self.freq.wf() && self.sample_rate > 0
    }

    open spec fn next_output(&self) -> Phase {
        self.phase
    }

    open spec fn stepped(&self) -> Self {
        Phasor {
            freq: self.freq.stepped(),
            phase: advance_phase(self.phase, self.freq.next_output(), self.sample_rate),
            sample_rate: self.sample_rate,
        }
    }

    fn process(&mut self) -> (r: Phase) {
        let f = self.freq.process();
        let step = div_trunc_i128(f as i128 * 0x1_0000_0000, 1000 * self.sample_rate as u128);
        let ret = self.phase;
        // The step is below 2^54 in size, so adding 2^64 keeps the sum positive.
        let shifted: i128 = ret as i128 + step + 0x1_0000_0000_0000_0000;
        proof {
            assert(-0x40_0000_0000_0000 <= step <= 0x40_0000_0000_0000) by (nonlinear_arith)
                requires
                    step == div_trunc(f * phase_cycle(), 1000 * self.sample_rate),
                    -0x8000_0000 <= f <= 0x7fff_ffff,
                    self.sample_rate >= 1,
            ;
            vstd::arithmetic::div_mod::lemma_mod_multiples_vanish(
                0x1_0000_0000,
                ret + step,
                phase_cycle(),
            );
        }
        self.phase = ((shifted as u128) % 0x1_0000_0000) as u32;
        ret
    }
}

/// Fixed-point scale (2^24) of a position within a quarter cycle.
pub open spec fn quarter_scale() -> int {
    0x100_0000
}

/// One step of Horner's rule: `c - q × z / 2^24`, with `c` and `q` scaled by 2^30.
pub open spec fn horner_step(c: int, q: int, z: int) -> int {
    c - q * z / quarter_scale()
}

/// `sin(π x / 2)` for `x` in `[0, 2^24]` (a quarter cycle), scaled by 2^30: the Taylor series
/// of the sine up to its `x⁹` term, with the coefficients `(π/2)^k / k!` rounded to 2^30,
/// evaluated by Horner's rule on `z = x²`, each product rounded down.
pub open spec fn quarter_sine(x: int) -> int {
    let z = x * x / quarter_scale();
    let q7 = horner_step(5026995, 172272, z);
    let q5 = horner_step(85569306, q7, z);
    let q3 = horner_step(693598668, q5, z);
    let q1 = horner_step(1686629713, q3, z);
    q1 * x / quarter_scale()
}

/// Sine of `phase` in 16.16 fixed point. The phase is folded into the first quadrant
/// (mirrored in the second and fourth, negated in the third and fourth), read to 2^24 steps
/// per quadrant, and `quarter_sine` is rounded to the nearest 16.16 step. The result stays
/// within one step (1/65536) of `sin`: the series leaves out less than 4e-6, and the roundings
/// add less than half a step.
pub open spec fn sine(phase: Phase) -> int {
    let quadrant = phase as int / 0x4000_0000;
    let w = phase as int % 0x4000_0000;
    let pos = if quadrant % 2 == 0 {
        w
    } else {
        0x4000_0000 - w
    };
    let v = (quarter_sine(pos / 64) + 0x2000) / 0x4000;
    if quadrant < 2 {
        v
    } else {
        -v
    }
}

/// `q × z / 2^24` lies between zero and `q` when `z` is at most 2^24.
proof fn lemma_scale_down(q: int, z: int)
    requires
        0 <= q,
        0 <= z <= quarter_scale(),
    ensures
        0 <= q * z / quarter_scale() <= q,
{
    assert(0 <= q * z / quarter_scale() <= q) by (nonlinear_arith)
        requires
            0 <= q,
            0 <= z <= quarter_scale(),
    ;
}

/// The terms of Horner's rule stay between zero and their coefficients.
proof fn lemma_quarter_sine_bounded(x: int)
    requires
        0 <= x <= quarter_scale(),
    ensures
        0 <= x * x / quarter_scale() <= quarter_scale(),
        0 <= quarter_sine(x) <= 1686629713,
{
    assert(0 <= x * x / quarter_scale() <= quarter_scale()) by (nonlinear_arith)
        requires
            0 <= x <= quarter_scale(),
    ;
    let z = x * x / quarter_scale();
    lemma_scale_down(172272, z);
    let q7 = horner_step(5026995, 172272, z);
    lemma_scale_down(q7, z);
    let q5 = horner_step(85569306, q7, z);
    lemma_scale_down(q5, z);
    let q3 = horner_step(693598668, q5, z);
    lemma_scale_down(q3, z);
    let q1 = horner_step(1686629713, q3, z);
    lemma_scale_down(q1, x);
}

/// The fixed-point sine stays within twice full scale (it reaches full scale at the
/// quarter turns).
pub proof fn lemma_sine_bounded(phase: Phase)
    ensures
        -2 * UNIT <= sine(phase) <= 2 * UNIT,
{
    let quadrant = phase as int / 0x4000_0000;
    let w = phase as int % 0x4000_0000;
    let pos = if quadrant % 2 == 0 {
        w
    } else {
        0x4000_0000 - w
    };
    lemma_quarter_sine_bounded(pos / 64);
}

/// Fixed-point sine of a phase.
pub fn sine_of(phase: Phase) -> (r: Sample)
    ensures
        r == sine(phase),
        -2 * UNIT <= r <= 2 * UNIT,
{
    proof {
        lemma_sine_bounded(phase);
    }
    let quadrant: u32 = phase / 0x4000_0000;
    let w: u32 = phase % 0x4000_0000;
    let pos: u32 = if quadrant % 2 == 0 {
        w
    } else {
        0x4000_0000 - w
    };
    let x: u128 = (pos / 64) as u128;
    proof {
        lemma_quarter_sine_bounded(x as int);
    }
    let z: u128 = x * x / 0x100_0000;
    proof {
        lemma_scale_down(172272, z as int);
    }
    let q7: u128 = 5026995 - 172272 * z / 0x100_0000;
    proof {
        lemma_scale_down(q7 as int, z as int);
    }
    let q5: u128 = 85569306 - q7 * z / 0x100_0000;
    proof {
        lemma_scale_down(q5 as int, z as int);
    }
    let q3: u128 = 693598668 - q5 * z / 0x100_0000;
    proof {
        lemma_scale_down(q3 as int, z as int);
    }
    let q1: u128 = 1686629713 - q3 * z / 0x100_0000;
    proof {
        lemma_scale_down(q1 as int, x as int);
    }
    let v: u128 = (q1 * x / 0x100_0000 + 0x2000) / 0x4000;
    if quadrant < 2 {
        v as i32
    } else {
        -(v as i32)
    }
}

/// A sine oscillator: each step reads a phase and then an amplitude from its two nodes and
/// yields `amplitude × sin(phase)`, held to the range of a sample.
pub struct SineOsc<P: Block<Output = Phase>, A: Block<Output = Sample>> {
    pub phase: P,
    pub amplitude: A,
}

/// `amplitude × s` for a full-scale fixed-point `s`, rounded toward zero.
pub open spec fn scaled(amplitude: int, s: int) -> int {
    div_trunc(amplitude * s, UNIT as int)
}

impl<P: Block<Output = Phase>, A: Block<Output = Sample>> Block for SineOsc<P, A> {
    type Output = Sample;

    open spec fn wf(&self) -> bool {
        self.phase.wf() && self.amplitude.wf()
    }

    open spec fn next_output(&self) -> Sample {
        clamp(
            scaled(self.amplitude.next_output() as int, sine(self.phase.next_output())),
            i32::MIN as int,
            i32::MAX as int,
        ) as Sample
    }

    open spec fn stepped(&self) -> Self {
        SineOsc { phase: self.phase.stepped(), amplitude: self.amplitude.stepped() }
    }

    fn process(&mut self) -> (r: Sample) {
        let p = self.phase.process();
        let a = self.amplitude.process();
        let s = sine_of(p);
        assert(-0x1_0000_0000_0000 <= a * s <= 0x1_0000_0000_0000) by (nonlinear_arith)
            requires
                -0x8000_0000 <= a <= 0x7fff_ffff,
                -2 * UNIT <= s <= 2 * UNIT,
        ;
        let v = div_trunc_i128(a as i128 * s as i128, 0x1_0000);
        if v > i32::MAX as i128 {
            i32::MAX
        } else if v < i32::MIN as i128 {
            i32::MIN
        } else {
            v as i32
        }
    }
}

impl<P: Block<Output = Phase>, A: Block<Output = Sample>> SineOsc<P, A> {
    pub fn new(phase: P, amplitude: A) -> (r: SineOsc<P, A>)
        ensures
            r == (SineOsc { phase, amplitude }),
    {
        SineOsc { phase, amplitude }
    }
}

/// The oscillator at a fixed frequency (millihertz) and amplitude, starting at phase zero.
pub open spec fn fixed_sine(
    frequency: Sample,
    amplitude: Sample,
    sample_rate: u32,
) -> SineOsc<Phasor<SampleConstant>, SampleConstant> {
    SineOsc {
        phase: Phasor { freq: SampleConstant { value: frequency }, phase: 0, sample_rate },
        amplitude: SampleConstant { value: amplitude },
    }
}

impl SineOsc<Phasor<SampleConstant>, SampleConstant> {
    pub fn new_fixed(frequency: Sample, amplitude: Sample, sample_rate: u32) -> (r: SineOsc<
        Phasor<SampleConstant>,
        SampleConstant,
    >)
        ensures
            r == fixed_sine(frequency, amplitude, sample_rate),
    {
        let phase = Phasor::new(SampleConstant { value: frequency }, sample_rate);
        SineOsc { phase, amplitude: SampleConstant { value: amplitude } }
    }
}

/// Panning position held to `[-UNIT, UNIT]` (full left to full right).
pub open spec fn pan_position(p: int) -> int {
    clamp(p, -UNIT as int, UNIT as int)
}

/// Left weight of the equal-power law, `sqrt((1 - p) / 2)`, in 16.16 fixed point.
pub open spec fn pan_left(p: int) -> int {
    floor_sqrt((UNIT - pan_position(p)) * UNIT / 2)
}

/// Right weight of the equal-power law, `sqrt((1 + p) / 2)`, in 16.16 fixed point.
pub open spec fn pan_right(p: int) -> int {
    floor_sqrt((UNIT + pan_position(p)) * UNIT / 2)
}

/// Equal-power panning: at every position the squared weights add up to full power, up to
/// the rounding of the two square roots.
pub proof fn equal_power_panning(p: int)
    requires
        -UNIT <= p <= UNIT,
    ensures
        UNIT * UNIT - 4 * UNIT - 2 < pan_left(p) * pan_left(p) + pan_right(p) * pan_right(p)
            <= UNIT * UNIT,
        0 <= pan_left(p) <= UNIT,
        0 <= pan_right(p) <= UNIT,
{
    let a = (UNIT - p) * UNIT / 2;
    let b = (UNIT + p) * UNIT / 2;
    assert(a == (UNIT - p) * 0x8000 && b == (UNIT + p) * 0x8000) by (nonlinear_arith)
        requires
            a == (UNIT - p) * UNIT / 2,
            b == (UNIT + p) * UNIT / 2,
    ;
    assert(0 <= a <= UNIT * UNIT && 0 <= b <= UNIT * UNIT && a + b == UNIT * UNIT)
        by (nonlinear_arith)
        requires
            a == (UNIT - p) * 0x8000,
            b == (UNIT + p) * 0x8000,
            -UNIT <= p <= UNIT,
    ;
    lemma_floor_sqrt_exists(a);
    lemma_floor_sqrt_exists(b);
    lemma_floor_sqrt_at_most_unit(a);
    lemma_floor_sqrt_at_most_unit(b);
    let l = floor_sqrt(a);
    let r = floor_sqrt(b);
    assert(l * l + r * r > a + b - 4 * UNIT - 2) by (nonlinear_arith)
        requires
            a < (l + 1) * (l + 1),
            b < (r + 1) * (r + 1),
            0 <= l <= UNIT,
            0 <= r <= UNIT,
    ;
}

/// One channel of a panned voice: `x × gain × weight`, rounded toward zero.
pub open spec fn mix_channel(x: int, gain: int, weight: int) -> int {
    div_trunc(x * gain * weight, UNIT * UNIT)
}

/// The frame that a mono value `x` at linear `gain` gives at panning position `p`.
pub open spec fn panned(x: Sample, gain: Sample, p: Sample) -> StereoFrame {
    StereoFrame {
        left: mix_channel(x as int, gain as int, pan_left(p as int)) as i64,
        right: mix_channel(x as int, gain as int, pan_right(p as int)) as i64,
    }
}

/// Size of one rounded channel: `|x × gain × weight| / UNIT²` rounded down, so `channel² × UNIT⁴`
/// is at most `(x × gain)² × weight²` and `(|channel| + 1)² × UNIT⁴` is above it.
proof fn lemma_channel_power(x: int, gain: int, weight: int)
    requires
        weight >= 0,
    ensures
        mix_channel(x, gain, weight) * mix_channel(x, gain, weight) * (UNIT * UNIT) * (UNIT * UNIT)
            <= (x * gain) * (x * gain) * (weight * weight),
        ({
            let c = mix_channel(x, gain, weight);
            let ac = if c >= 0 { c } else { -c };
            (x * gain) * (x * gain) * (weight * weight) < (ac + 1) * (ac + 1) * (UNIT * UNIT) * (
            UNIT * UNIT)
        }),
{
    let m = if x * gain >= 0 { x * gain } else { -(x * gain) };
    let a = x * gain * weight;
    let d = UNIT * UNIT;
    assert(m * weight == (if a >= 0 { a } else { -a })) by (nonlinear_arith)
        requires
            m == (if x * gain >= 0 { x * gain } else { -(x * gain) }),
            a == x * gain * weight,
            weight >= 0,
    ;
    let q = (m * weight) / d;
    assert(mix_channel(x, gain, weight) == q || mix_channel(x, gain, weight) == -q);
    assert(0 <= q * d <= m * weight) by (nonlinear_arith)
        requires
            q == (m * weight) / d,
            d > 0,
            m >= 0,
            weight >= 0,
    ;
    assert(q * q * d * d <= (m * weight) * (m * weight)) by (nonlinear_arith)
        requires
            0 <= q * d <= m * weight,
            d > 0,
    ;
    assert(m * m == (x * gain) * (x * gain)) by (nonlinear_arith)
        requires
            m == (if x * gain >= 0 { x * gain } else { -(x * gain) }),
    ;
    assert((m * weight) * (m * weight) == (x * gain) * (x * gain) * (weight * weight))
        by (nonlinear_arith)
        requires
            m * m == (x * gain) * (x * gain),
    ;
    let c = mix_channel(x, gain, weight);
    assert(c * c == q * q) by (nonlinear_arith)
        requires
            c == q || c == -q,
    ;
    let ac = if c >= 0 { c } else { -c };
    assert(ac == q);
    assert(m * weight < (q + 1) * d) by (nonlinear_arith)
        requires
            q == (m * weight) / d,
            d > 0,
            m * weight >= 0,
    ;
    assert((m * weight) * (m * weight) < (q + 1) * (q + 1) * d * d) by (nonlinear_arith)
        requires
            0 <= m * weight < (q + 1) * d,
    ;
}

/// Equal power on whole frames: the two channels of a panned value carry the power of
/// `x × gain`, up to the rounding of each channel and of the weights:
/// `(left² + right²) × UNIT² ≤ (x × gain)²` and
/// `((|left| + 1)² + (|right| + 1)²) × UNIT⁴ > (x × gain)² × (UNIT² - 4 UNIT - 2)`.
pub proof fn panning_bounds_power(x: Sample, gain: Sample, p: Sample)
    ensures
        ({
            let f = panned(x, gain, p);
            (f.left * f.left + f.right * f.right) * (UNIT * UNIT) <= (x * gain) * (x * gain)
        }),
        ({
            let f = panned(x, gain, p);
            let al = if f.left >= 0 { f.left as int } else { -f.left };
            let ar = if f.right >= 0 { f.right as int } else { -f.right };
            ((al + 1) * (al + 1) + (ar + 1) * (ar + 1)) * (UNIT * UNIT) * (UNIT * UNIT) > (x
                * gain) * (x * gain) * (UNIT * UNIT - 4 * UNIT - 2)
        }),
{
    let c = pan_position(p as int);
    equal_power_panning(c);
    assert(pan_position(c) == c);
    let wl = pan_left(p as int);
    let wr = pan_right(p as int);
    lemma_channel_power(x as int, gain as int, wl);
    lemma_channel_power(x as int, gain as int, wr);
    let l = mix_channel(x as int, gain as int, wl);
    let r = mix_channel(x as int, gain as int, wr);
    let e = (x * gain) * (x * gain);
    let d = UNIT * UNIT;
    assert(e >= 0) by (nonlinear_arith)
        requires
            e == (x * gain) * (x * gain),
    ;
    assert(e * (wl * wl) + e * (wr * wr) <= e * d) by (nonlinear_arith)
        requires
            wl * wl + wr * wr <= d,
            e >= 0,
    ;
    assert((l * l + r * r) * d <= e) by (nonlinear_arith)
        requires
            l * l * d * d <= e * (wl * wl),
            r * r * d * d <= e * (wr * wr),
            e * (wl * wl) + e * (wr * wr) <= e * d,
            d > 0,
    ;
    assert(-0x40_0000_0000_0000 <= l <= 0x40_0000_0000_0000
        && -0x40_0000_0000_0000 <= r <= 0x40_0000_0000_0000) by {
        lemma_mix_channel_bounded(x, gain, wl);
        lemma_mix_channel_bounded(x, gain, wr);
    }
    let al = if l >= 0 { l } else { -l };
    let ar = if r >= 0 { r } else { -r };
    let d2 = d * d;
    assert(e * (wl * wl + wr * wr) >= e * (d - 4 * UNIT - 2)) by (nonlinear_arith)
        requires
            wl * wl + wr * wr > d - 4 * UNIT - 2,
            e >= 0,
    ;
    assert(((al + 1) * (al + 1) + (ar + 1) * (ar + 1)) * d2 > e * (d - 4 * UNIT - 2))
        by (nonlinear_arith)
        requires
            e * (wl * wl) < (al + 1) * (al + 1) * d * d,
            e * (wr * wr) < (ar + 1) * (ar + 1) * d * d,
            e * (wl * wl + wr * wr) >= e * (d - 4 * UNIT - 2),
            d2 == d * d,
    ;
}

/// A rounded channel fits well inside an `i64`.
proof fn lemma_mix_channel_bounded(x: Sample, gain: Sample, weight: int)
    requires
        0 <= weight <= UNIT,
    ensures
        -0x40_0000_0000_0000 <= mix_channel(x as int, gain as int, weight) <= 0x40_0000_0000_0000,
{
    let xg = x * gain;
    assert(-0x4000_0000_0000_0000 * UNIT <= xg * weight <= 0x4000_0000_0000_0000 * UNIT)
        by (nonlinear_arith)
        requires
            xg == x * gain,
            -0x8000_0000 <= x <= 0x7fff_ffff,
            -0x8000_0000 <= gain <= 0x7fff_ffff,
            0 <= weight <= UNIT,
    ;
    assert(-0x40_0000_0000_0000 <= div_trunc(xg * weight, UNIT * UNIT) <= 0x40_0000_0000_0000)
        by (nonlinear_arith)
        requires
            -0x4000_0000_0000_0000 * UNIT <= xg * weight <= 0x4000_0000_0000_0000 * UNIT,
    ;
}

/// Equal-power weight `sqrt((UNIT + s) / 2)` for a clamped position `s` (`s = -p` gives
/// the left weight).
fn pan_weight(s: i64) -> (r: i64)
    requires
        -UNIT <= s <= UNIT,
    ensures
        r == floor_sqrt((UNIT + s) * UNIT / 2),
        0 <= r <= UNIT,
{
    let n: i64 = (0x1_0000 + s) * 0x8000;
    assert(n == (UNIT + s) * UNIT / 2 && 0 <= n <= UNIT * UNIT) by (nonlinear_arith)
        requires
            n == (UNIT + s) * 0x8000,
            -UNIT <= s <= UNIT,
    ;
    proof {
        lemma_floor_sqrt_at_most_unit(n as int);
    }
    sqrt_floor(n as u128) as i64
}

/// `x × gain × weight` scaled back by `UNIT²`, rounded toward zero.
fn mix_value(x: Sample, gain: Sample, weight: i64) -> (r: i64)
    requires
        0 <= weight <= UNIT,
    ensures
        r == mix_channel(x as int, gain as int, weight as int),
{
    assert(-0x4000_0000_0000_0000 <= x * gain <= 0x4000_0000_0000_0000) by (nonlinear_arith)
        requires
            -0x8000_0000 <= x <= 0x7fff_ffff,
            -0x8000_0000 <= gain <= 0x7fff_ffff,
    ;
    let xg: i128 = x as i128 * gain as i128;
    assert(-0x4000_0000_0000_0000 * UNIT <= xg * weight <= 0x4000_0000_0000_0000 * UNIT)
        by (nonlinear_arith)
        requires
            -0x4000_0000_0000_0000 <= xg <= 0x4000_0000_0000_0000,
            0 <= weight <= UNIT,
    ;
    let v = div_trunc_i128(xg * weight as i128, 0x1_0000_0000);
    assert(-0x40_0000_0000_0000 <= v <= 0x40_0000_0000_0000) by (nonlinear_arith)
        requires
            v == div_trunc(xg * weight, UNIT * UNIT),
            -0x4000_0000_0000_0000 * UNIT <= xg * weight <= 0x4000_0000_0000_0000 * UNIT,
    ;
    v as i64
}

/// Equal-power mono-to-stereo panner: each step reads the input, then a linear gain, then a
/// panning position (`-UNIT` full left, `UNIT` full right; values outside are held to that
/// range), and yields `left = x × gain × sqrt((1 - p) / 2)`, `right = x × gain × sqrt((1 + p) / 2)`.
pub struct MonoToStereoMix<
    I: Block<Output = Sample>,
    A: Block<Output = Sample>,
    P: Block<Output = Sample>,
> {
    pub input: I,
    pub amplitude: A,
    pub panning: P,
}

impl<
    I: Block<Output = Sample>,
    A: Block<Output = Sample>,
    P: Block<Output = Sample>,
> Block for MonoToStereoMix<I, A, P> {
    type Output = StereoFrame;

    open spec fn wf(&self) -> bool {
        self.input.wf() && self.amplitude.wf() && self.panning.wf()
    }

    open spec fn next_output(&self) -> StereoFrame {
        panned(
            self.input.next_output(),
            self.amplitude.next_output(),
            self.panning.next_output(),
        )
    }

    open spec fn stepped(&self) -> Self {
        MonoToStereoMix {
            input: self.input.stepped(),
            amplitude: self.amplitude.stepped(),
            panning: self.panning.stepped(),
        }
    }

    fn process(&mut self) -> (r: StereoFrame) {
        let x = self.input.process();
        let g = self.amplitude.process();
        let p = self.panning.process();
        let s: i64 = if p < -0x1_0000 {
            -0x1_0000
        } else if p > 0x1_0000 {
            0x1_0000
        } else {
            p as i64
        };
        let wl = pan_weight(-s);
        let wr = pan_weight(s);
        assert((UNIT + -s) * UNIT / 2 == (UNIT - s) * UNIT / 2);
        StereoFrame { left: mix_value(x, g, wl), right: mix_value(x, g, wr) }
    }
}

impl<
    I: Block<Output = Sample>,
    A: Block<Output = Sample>,
    P: Block<Output = Sample>,
> MonoToStereoMix<I, A, P> {
    pub fn new(input: I, amplitude: A, panning: P) -> (r: MonoToStereoMix<I, A, P>)
        ensures
            r == (MonoToStereoMix { input, amplitude, panning }),
    {
        MonoToStereoMix { input, amplitude, panning }
    }
}

/// A panner over a boxed input at a fixed gain and panning position.
pub open spec fn fixed_mix<B: Block<Output = Sample>>(
    input: B,
    amplitude: Sample,
    panning: Sample,
) -> MonoToStereoMix<DynBlock<B>, SampleConstant, SampleConstant> {
    MonoToStereoMix {
        input: DynBlock { block: Box::new(input) },
        amplitude: SampleConstant { value: amplitude },
        panning: SampleConstant { value: panning },
    }
}

impl<B: Block<Output = Sample>> MonoToStereoMix<DynBlock<B>, SampleConstant, SampleConstant> {
    pub fn new_fixed(input: B, amplitude: Sample, panning: Sample) -> (r: MonoToStereoMix<
        DynBlock<B>,
        SampleConstant,
        SampleConstant,
    >)
        ensures
            r == fixed_mix(input, amplitude, panning),
    {
        MonoToStereoMix {
            input: DynBlock { block: Box::new(input) },
            amplitude: SampleConstant { value: amplitude },
            panning: SampleConstant { value: panning },
        }
    }
}

} // verus!
