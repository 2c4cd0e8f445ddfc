use synthgraph::blocks::{sine_of, MonoToStereoMix, Phasor, SineOsc};
use synthgraph::engine::{supersaw_gain, AudioGraph, Block, SampleConstant, SineVoice, StereoFrame, StereoOutput};
use synthgraph::fixed::{div_trunc_i128, sqrt_floor, UNIT};

const CYCLE: u64 = 1 << 32;

fn voice_frequency(v: &SineVoice) -> i32 {
    v.input.block.phase.freq.value
}

fn voice_gain(v: &SineVoice) -> i32 {
    v.amplitude.value
}

fn voice_panning(v: &SineVoice) -> i32 {
    v.panning.value
}

#[test]
fn phasor_yields_then_advances_and_wraps() {
    // 3 Hz at 4 samples per second: three quarters of a cycle per step.
    let mut p = Phasor::new(SampleConstant { value: 3000 }, 4);
    let got: Vec<u32> = (0..5).map(|_| p.process()).collect();
    assert_eq!(got, vec![0, 3221225472, 2147483648, 1073741824, 0]);
}

#[test]
fn phasor_negative_frequency_wraps_into_cycle() {
    let mut p = Phasor::new(SampleConstant { value: -1000 }, 4);
    let got: Vec<u32> = (0..4).map(|_| p.process()).collect();
    assert_eq!(got, vec![0, 3221225472, 2147483648, 1073741824]);
}

#[test]
fn phasor_stays_in_cycle_over_many_steps() {
    let mut p = Phasor::new(SampleConstant { value: 12_345_678 }, 44100);
    for _ in 0..100_000 {
        let r = p.process();
        assert!((r as u64) < CYCLE);
    }
    assert!((p.phase as u64) < CYCLE);
}

#[test]
fn sine_of_key_phases() {
    assert_eq!(sine_of(0), 0);
    assert_eq!(sine_of(1 << 30), UNIT);
    assert_eq!(sine_of(1 << 31), 0);
    assert_eq!(sine_of(3 << 30), -UNIT);
    assert_eq!(sine_of(39370533), 3773);
}

#[test]
fn sine_of_stays_within_one_step_of_sin() {
    let mut phase: u64 = 0;
    let mut worst: f64 = 0.0;
    while phase < CYCLE {
        let s = sine_of(phase as u32) as f64;
        let exact = (UNIT as f64) * (phase as f64 * 2.0 * std::f64::consts::PI / CYCLE as f64).sin();
        worst = worst.max((s - exact).abs());
        phase += 10_007;
    }
    for &phase in &[(1u64 << 30) - 1, (1 << 30) + 1, (3 << 30) - 1, CYCLE - 1, CYCLE / 12, CYCLE / 8] {
        let s = sine_of(phase as u32) as f64;
        let exact = (UNIT as f64) * (phase as f64 * 2.0 * std::f64::consts::PI / CYCLE as f64).sin();
        worst = worst.max((s - exact).abs());
    }
    assert!(worst <= 1.0, "{}", worst);
}

#[test]
fn sine_osc_scales_by_amplitude() {
    let mut osc = SineOsc::new_fixed(1000, UNIT / 2, 4);
    assert_eq!(osc.process(), 0);
    assert_eq!(osc.process(), UNIT / 2);
    assert_eq!(osc.process(), 0);
    assert_eq!(osc.process(), -UNIT / 2);
}

#[test]
fn sqrt_floor_values() {
    assert_eq!(sqrt_floor(0), 0);
    assert_eq!(sqrt_floor(1), 1);
    assert_eq!(sqrt_floor(15), 3);
    assert_eq!(sqrt_floor(16), 4);
    assert_eq!(sqrt_floor(1 << 31), 46340);
    assert_eq!(sqrt_floor(1 << 100), 1 << 50);
}

#[test]
fn div_trunc_rounds_toward_zero() {
    assert_eq!(div_trunc_i128(7, 2), 3);
    assert_eq!(div_trunc_i128(-7, 2), -3);
    assert_eq!(div_trunc_i128(-8, 2), -4);
}

#[test]
fn center_panning_splits_equally() {
    let mut m = MonoToStereoMix::new_fixed(SampleConstant { value: UNIT }, UNIT, 0);
    assert_eq!(m.process(), StereoFrame { left: 46340, right: 46340 });
}

#[test]
fn hard_panning_and_clamped_position() {
    let mut l = MonoToStereoMix::new_fixed(SampleConstant { value: UNIT }, UNIT, -UNIT);
    assert_eq!(l.process(), StereoFrame { left: UNIT as i64, right: 0 });
    let mut r = MonoToStereoMix::new_fixed(SampleConstant { value: UNIT }, UNIT, 3 * UNIT);
    assert_eq!(r.process(), StereoFrame { left: 0, right: UNIT as i64 });
}

#[test]
fn equal_power_over_panning_range() {
    let unit = UNIT as i64;
    for p in (-UNIT..=UNIT).step_by(997) {
        let mut m = MonoToStereoMix::new_fixed(SampleConstant { value: UNIT }, UNIT, p);
        let f = m.process();
        let power = f.left * f.left + f.right * f.right;
        assert!(power <= unit * unit, "p {}", p);
        assert!(power > unit * unit - 4 * unit - 2, "p {}", p);
    }
}

#[test]
fn mix_applies_gain_and_sign() {
    let mut m = MonoToStereoMix::new_fixed(SampleConstant { value: -UNIT }, UNIT / 4, -UNIT);
    assert_eq!(m.process(), StereoFrame { left: -(UNIT as i64) / 4, right: 0 });
}

#[test]
fn empty_output_is_silent() {
    let mut out: StereoOutput<SineVoice> = StereoOutput::new(vec![]);
    for _ in 0..10 {
        assert_eq!(out.process(), StereoFrame { left: 0, right: 0 });
    }
}

#[test]
fn first_frame_of_a_sine_is_silent_and_phase_advances() {
    let mut g = AudioGraph::new(48000);
    g.add_sine(440_000, UNIT, 0);
    assert_eq!(g.output.blocks.len(), 1);
    assert_eq!(g.output.process(), StereoFrame { left: 0, right: 0 });
    assert_eq!(g.output.blocks[0].input.block.phase.phase, 39370533);
    // sqrt(0.5) × sin(2π × 440 / 48000) ≈ 0.0407039, that is 2667.6 steps.
    let second = g.output.process();
    assert_eq!(second, StereoFrame { left: 2667, right: 2667 });
    let expected = 0.5f64.sqrt() * (2.0 * std::f64::consts::PI * 440.0 / 48000.0).sin();
    assert!((second.left as f64 / UNIT as f64 - expected).abs() < 2.0 / UNIT as f64);
}

#[test]
fn fixed_oscillator_follows_sin_of_accumulated_phase() {
    let mut osc = SineOsc::new_fixed(440_000, UNIT, 48000);
    for k in 0..2000u64 {
        let out = osc.process() as f64;
        let theta = 2.0 * std::f64::consts::PI * 440.0 * k as f64 / 48000.0;
        // The phase advances by a whole number of turn units per step, slightly short of the
        // exact increment, which drifts by under a step over these samples.
        assert!((out - UNIT as f64 * theta.sin()).abs() <= 2.0, "k {} out {}", k, out);
    }
}

#[test]
fn sawtooth_at_nyquist_boundary_adds_one_voice() {
    let mut g = AudioGraph::new(4000);
    g.add_naive_sawtooth(1_000_000, UNIT, 0);
    assert_eq!(g.output.blocks.len(), 1);
    assert_eq!(voice_frequency(&g.output.blocks[0]), 1_000_000);
    assert_eq!(voice_gain(&g.output.blocks[0]), UNIT);
}

#[test]
fn sawtooth_harmonics_stop_below_nyquist() {
    let mut g = AudioGraph::new(48000);
    g.add_naive_sawtooth(440_000, UNIT, UNIT / 2);
    let n = g.output.blocks.len();
    assert_eq!(n, 54);
    assert_eq!(n as i64, (24_000_000 - 1) / 440_000);
    for (i, v) in g.output.blocks.iter().enumerate() {
        assert_eq!(voice_frequency(v), 440_000 * (i as i32 + 1));
        assert!(voice_frequency(v) < 24_000_000);
        assert_eq!(voice_gain(v), UNIT / (i as i32 + 1));
        assert_eq!(voice_panning(v), UNIT / 2);
    }
}

#[test]
fn sawtooth_with_degenerate_frequency_adds_nothing() {
    let mut g = AudioGraph::new(48000);
    g.add_naive_sawtooth(0, UNIT, 0);
    g.add_naive_sawtooth(-5_000, UNIT, 0);
    g.add_naive_sawtooth(24_000_000, UNIT, 0);
    assert_eq!(g.output.blocks.len(), 0);
}

#[test]
fn ensemble_gain_formula() {
    assert_eq!(supersaw_gain(UNIT, 1), UNIT);
    assert_eq!(supersaw_gain(UNIT, 4), UNIT / 2);
    assert_eq!(supersaw_gain(UNIT, 16), UNIT / 4);
    assert_eq!(supersaw_gain(-UNIT, 4), -UNIT / 2);
    // sqrt(2) in 16.16 is 92681.
    assert_eq!(supersaw_gain(UNIT, 2), ((UNIT as i64) * (UNIT as i64) / 92681) as i32);
}

#[test]
fn supersaw_with_given_draws() {
    let mut g = AudioGraph::new(4000);
    // Two voices: one detuned up by half the variance, one down by the full variance.
    let draws = vec![(UNIT / 2, -UNIT), (-UNIT, UNIT)];
    g.add_supersaw_with(500_000, 200_000, UNIT, &draws);
    let saw_gain = supersaw_gain(UNIT, 2);
    let freqs: Vec<i32> = g.output.blocks.iter().map(voice_frequency).collect();
    // 600 Hz has harmonics 600, 1200, 1800; 300 Hz has 300 .. 1800.
    assert_eq!(freqs, vec![600_000, 1_200_000, 1_800_000, 300_000, 600_000, 900_000, 1_200_000, 1_500_000, 1_800_000]);
    assert_eq!(voice_gain(&g.output.blocks[0]), saw_gain);
    assert_eq!(voice_gain(&g.output.blocks[1]), saw_gain / 2);
    assert_eq!(voice_panning(&g.output.blocks[0]), -UNIT);
    assert_eq!(voice_panning(&g.output.blocks[3]), UNIT);
}

#[test]
fn supersaw_with_no_draws_adds_nothing() {
    let mut g = AudioGraph::new(48000);
    g.add_supersaw_with(440_000, 1000, UNIT, &vec![]);
    g.add_supersaw(440_000, 1000, 0, UNIT);
    assert_eq!(g.output.blocks.len(), 0);
}

#[test]
fn supersaw_draws_stay_in_range_and_vary() {
    let mut g = AudioGraph::new(4000);
    // 1500 Hz at 4000 Hz has one harmonic per voice, so each voice is one saw.
    g.add_supersaw(1_500_000, 100_000, 64, UNIT);
    assert_eq!(g.output.blocks.len(), 64);
    let saw_gain = supersaw_gain(UNIT, 64);
    assert_eq!(saw_gain, UNIT / 8);
    let mut pans = Vec::new();
    for v in &g.output.blocks {
        let f = voice_frequency(v);
        assert!((1_400_000..=1_600_000).contains(&f), "{}", f);
        assert!((-UNIT..=UNIT).contains(&voice_panning(v)));
        assert_eq!(voice_gain(v), saw_gain);
        pans.push(voice_panning(v));
    }
    pans.sort();
    pans.dedup();
    assert!(pans.len() > 1);
}

#[test]
fn output_is_clamped_with_many_loud_voices() {
    let mut g = AudioGraph::new(48000);
    for k in 0..12 {
        g.add_sine(100_000 + 37_000 * k, 4 * UNIT, (k - 6) * 9000);
    }
    g.add_naive_sawtooth(55_000, 8 * UNIT, UNIT);
    let mut saw_clip = false;
    for _ in 0..2000 {
        let f = g.output.process();
        assert!((-(UNIT as i64)..=UNIT as i64).contains(&f.left));
        assert!((-(UNIT as i64)..=UNIT as i64).contains(&f.right));
        saw_clip |= f.left.abs() == UNIT as i64 || f.right.abs() == UNIT as i64;
    }
    assert!(saw_clip);
}

#[test]
fn render_interleaves_successive_frames() {
    let mut a = AudioGraph::new(4);
    a.add_sine(1000, UNIT, -UNIT);
    let mut b = AudioGraph::new(4);
    b.add_sine(1000, UNIT, -UNIT);
    let mut buf = vec![7; 8];
    a.output.render(&mut buf);
    let mut expected = Vec::new();
    for _ in 0..4 {
        let f = b.output.process();
        expected.push(f.left as i32);
        expected.push(f.right as i32);
    }
    assert_eq!(buf, expected);
    assert_eq!(buf, vec![0, 0, UNIT, 0, 0, 0, -UNIT, 0]);
}

#[test]
fn panning_never_adds_power() {
    let unit = UNIT as i128;
    for &(x, gain) in &[(12_345, 3 * UNIT), (-UNIT, UNIT / 3), (i32::MAX, i32::MIN), (7, 9)] {
        for p in (-UNIT..=UNIT).step_by(4099) {
            let mut m = MonoToStereoMix::new_fixed(SampleConstant { value: x }, gain, p);
            let f = m.process();
            let (l, r) = (f.left as i128, f.right as i128);
            let xg = x as i128 * gain as i128;
            assert!((l * l + r * r) * unit * unit <= xg * xg, "x {} gain {} p {}", x, gain, p);
            // The lower bound's products fit an i128 only for moderate `x × gain`.
            if xg.abs() < 1 << 40 {
                let (al, ar) = (l.abs() + 1, r.abs() + 1);
                assert!((al * al + ar * ar) * unit * unit * unit * unit > xg * xg * (unit * unit - 4 * unit - 2));
            }
        }
    }
}

#[test]
fn ensemble_power_matches_one_voice() {
    let unit = UNIT as i128;
    for &gain in &[UNIT, 12_345, -3 * UNIT, 1, i32::MAX] {
        for n in 1..200usize {
            let e = supersaw_gain(gain, n) as i128;
            let (g, nn) = (gain as i128, n as i128);
            assert!(nn * e * e * unit <= g * g * (unit + 3), "gain {} n {}", gain, n);
            assert!(nn * (e.abs() + 1) * (e.abs() + 1) > g * g, "gain {} n {}", gain, n);
        }
    }
}

#[test]
fn mix_does_not_depend_on_node_order() {
    let mut a = AudioGraph::new(48000);
    let mut b = AudioGraph::new(48000);
    let voices = [(220_000, UNIT / 2, -UNIT / 3), (330_000, UNIT / 3, UNIT), (1_000_000, UNIT / 5, 0)];
    for &(f, g, p) in voices.iter() {
        a.add_sine(f, g, p);
    }
    for &(f, g, p) in voices.iter().rev() {
        b.add_sine(f, g, p);
    }
    for _ in 0..500 {
        assert_eq!(a.output.process(), b.output.process());
    }
}
