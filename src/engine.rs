use vstd::prelude::*;

use crate::blocks::{
    fixed_mix, fixed_sine, phase_cycle, phase_step, scaled, MonoToStereoMix, Phasor, SineOsc,
};
use crate::fixed::{
    clamp, div_trunc, div_trunc_i128, floor_sqrt, lemma_div_trunc_shrinks, lemma_floor_sqrt_exists,
    sqrt_floor, Sample, UNIT,
};
use rand::Rng;

verus! {

/// A stateful signal node: each call of `process` advances it by one time step and yields
/// one output.
///
/// A node is modelled as a deterministic machine: `next_output` is what the next step
/// yields and `stepped` is the state it leaves behind.
pub trait Block: Sized {
    type Output;

    /// The node's well-formedness.
    spec fn wf(&self) -> bool;

    /// The output of the next step.
    spec fn next_output(&self) -> Self::Output;

    /// The node after one step.
    spec fn stepped(&self) -> Self;

    fn process(&mut self) -> (r: Self::Output)
        requires
            old(self).wf(),
        ensures
            r == old(self).next_output(),
            *final(self) == old(self).stepped(),
            final(self).wf(),
    ;
}

/// One stereo frame: the left and the right channel, in 16.16 fixed point.
#[derive(Clone, Copy, Debug, PartialEq, Eq, Structural)]
pub struct StereoFrame {
    pub left: i64,
    pub right: i64,
}

/// A node that yields the same value at every step.
pub struct SampleConstant {
    pub value: Sample,
}

impl Block for SampleConstant {
    type Output = Sample;

    open spec fn wf(&self) -> bool {
        true
    }

    open spec fn next_output(&self) -> Sample {
        self.value
    }

    open spec fn stepped(&self) -> Self {
        *self
    }

    fn process(&mut self) -> (r: Sample) {
        self.value
    }
}

/// An owned, boxed handle to a node; processing it processes the node inside.
pub struct DynBlock<B: Block> {
    pub block: Box<B>,
}

impl<B: Block> Block for DynBlock<B> {
    type Output = B::Output;

    open spec fn wf(&self) -> bool {
        self.block.wf()
    }

    open spec fn next_output(&self) -> B::Output {
        self.block.next_output()
    }

    open spec fn stepped(&self) -> Self {
        DynBlock { block: Box::new(self.block.stepped()) }
    }

    fn process(&mut self) -> (r: B::Output) {
        self.block.process()
    }
}

/// Left-channel sum of the next outputs of `nodes`.
pub open spec fn sum_left<N: Block<Output = StereoFrame>>(nodes: Seq<N>) -> int
    decreases nodes.len(),
{
    if nodes.len() == 0 {
        0
    } else {
        sum_left(nodes.drop_last()) + nodes.last().next_output().left
    }
}

/// Right-channel sum of the next outputs of `nodes`.
pub open spec fn sum_right<N: Block<Output = StereoFrame>>(nodes: Seq<N>) -> int
    decreases nodes.len(),
{
    if nodes.len() == 0 {
        0
    } else {
        sum_right(nodes.drop_last()) + nodes.last().next_output().right
    }
}

/// The frame that a collection of nodes yields at its next step: the sum of their frames,
/// each channel held to `[-UNIT, UNIT]`.
pub open spec fn mixed_frame<N: Block<Output = StereoFrame>>(nodes: Seq<N>) -> StereoFrame {
    StereoFrame {
        left: clamp(sum_left(nodes), -UNIT as int, UNIT as int) as i64,
        right: clamp(sum_right(nodes), -UNIT as int, UNIT as int) as i64,
    }
}

/// Taking one node out of a collection takes its frame out of the sums.
proof fn lemma_sum_remove<N: Block<Output = StereoFrame>>(nodes: Seq<N>, i: int)
    requires
        0 <= i < nodes.len(),
    ensures
        sum_left(nodes) == sum_left(nodes.remove(i)) + nodes[i].next_output().left,
        sum_right(nodes) == sum_right(nodes.remove(i)) + nodes[i].next_output().right,
    decreases nodes.len(),
{
    if i < nodes.len() - 1 {
        lemma_sum_remove(nodes.drop_last(), i);
        assert(nodes.remove(i).drop_last() =~= nodes.drop_last().remove(i));
        assert(nodes.remove(i).last() == nodes.last());
    } else {
        assert(nodes.remove(i) =~= nodes.drop_last());
    }
}

/// The mix does not depend on the order of the nodes: the same nodes in any order give the
/// same sums and the same frame.
pub proof fn mix_order_independent<N: Block<Output = StereoFrame>>(a: Seq<N>, b: Seq<N>)
    requires
        a.to_multiset() == b.to_multiset(),
    ensures
        sum_left(a) == sum_left(b),
        sum_right(a) == sum_right(b),
        mixed_frame(a) == mixed_frame(b),
    decreases a.len(),
{
    a.to_multiset_ensures();
    b.to_multiset_ensures();
    if a.len() == 0 {
        assert(b.len() == 0);
    } else {
        let last = a.len() - 1;
        let x = a[last];
        assert(a.contains(x));
        assert(a.to_multiset().count(x) > 0);
        assert(b.to_multiset().count(x) > 0);
        assert(b.contains(x));
        let j = choose|j: int| 0 <= j < b.len() && b[j] == x;
        assert(a.remove(last) =~= a.drop_last());
        a.drop_last().to_multiset_ensures();
        assert(a.drop_last().to_multiset() == b.remove(j).to_multiset());
        mix_order_independent(a.drop_last(), b.remove(j));
        lemma_sum_remove(b, j);
    }
}

/// `node` after `k` steps.
pub open spec fn steps<N: Block>(node: N, k: nat) -> N
    decreases k,
{
    if k == 0 {
        node
    } else {
        steps(node, (k - 1) as nat).stepped()
    }
}

/// Phase wrap: however many steps a phase accumulator has taken, with any frequencies, the
/// phase it yields lies in one cycle, and each step moves it by the frequency's step modulo
/// the cycle.
pub proof fn phase_wrap<F: Block<Output = Sample>>(phasor: Phasor<F>, k: nat)
    ensures
        steps(phasor, k).sample_rate == phasor.sample_rate,
        0 <= steps(phasor, k).next_output() < phase_cycle(),
        steps(phasor, k + 1).next_output() == (steps(phasor, k).next_output() + phase_step(
            steps(phasor, k).freq.next_output() as int,
            phasor.sample_rate as int,
        )) % phase_cycle(),
    decreases k,
{
    if k > 0 {
        phase_wrap(phasor, (k - 1) as nat);
    }
    let here = steps(phasor, k);
    assert(steps(phasor, k + 1) == here.stepped());
    assert(0 <= (here.phase + phase_step(here.freq.next_output() as int, here.sample_rate as int))
        % phase_cycle() < phase_cycle());
}

/// Every node of `nodes` after `k` steps.
pub open spec fn all_steps<N: Block>(nodes: Seq<N>, k: nat) -> Seq<N> {
    Seq::new(nodes.len(), |i: int| steps(nodes[i], k))
}

/// The root of a graph: sums the frames of all its nodes at each step and limits the sum to
/// full scale. Nodes are only ever added.
pub struct StereoOutput<N: Block<Output = StereoFrame>> {
    pub blocks: Vec<N>,
}

impl<N: Block<Output = StereoFrame>> StereoOutput<N> {
    /// All nodes are well formed.
    pub open spec fn wf(&self) -> bool {
        forall|i: int| 0 <= i < self.blocks@.len() ==> (#[trigger] self.blocks@[i]).wf()
    }

    pub fn new(blocks: Vec<N>) -> (r: StereoOutput<N>)
        ensures
            r.blocks@ == blocks@,
    {
        StereoOutput { blocks }
    }

    /// Steps every node once and yields the sum of their frames, held to full scale.
    pub fn process(&mut self) -> (r: StereoFrame)
        requires
            old(self).wf(),
        ensures
            r == mixed_frame(old(self).blocks@),
            -UNIT <= r.left <= UNIT,
            -UNIT <= r.right <= UNIT,
            old(self).blocks@.len() == 0 ==> r == (StereoFrame { left: 0, right: 0 }),
            final(self).blocks@.len() == old(self).blocks@.len(),
            forall|i: int|
                0 <= i < old(self).blocks@.len() ==> final(self).blocks@[i] == (
                #[trigger] old(self).blocks@[i]).stepped(),
            final(self).wf(),
    {
        let ghost start = self.blocks@;
        let mut left: i128 = 0;
        let mut right: i128 = 0;
        let mut i: usize = 0;
        while i < self.blocks.len()
            invariant
                i <= start.len(),
                self.blocks@.len() == start.len(),
                forall|j: int| 0 <= j < i ==> self.blocks@[j] == (#[trigger] start[j]).stepped(),
                forall|j: int| 0 <= j < start.len() ==> (#[trigger] self.blocks@[j]).wf(),
                forall|j: int| i <= j < start.len() ==> self.blocks@[j] == start[j],
                left == sum_left(start.take(i as int)),
                right == sum_right(start.take(i as int)),
                -(i as int) * 0x8000_0000_0000_0000 <= left <= (i as int) * 0x8000_0000_0000_0000,
                -(i as int) * 0x8000_0000_0000_0000 <= right <= (i as int)
                    * 0x8000_0000_0000_0000,
            decreases start.len() - i,
        {
            let f = self.blocks[i].process();
            assert(start.take(i + 1).drop_last() == start.take(i as int));
            left = left + f.left as i128;
            right = right + f.right as i128;
            i = i + 1;
        }
        assert(start.take(i as int) == start);
        let l: i64 = if left < -0x1_0000 {
            -0x1_0000
        } else if left > 0x1_0000 {
            0x1_0000
        } else {
            left as i64
        };
        let r: i64 = if right < -0x1_0000 {
            -0x1_0000
        } else if right > 0x1_0000 {
            0x1_0000
        } else {
            right as i64
        };
        StereoFrame { left: l, right: r }
    }

    /// Fills an interleaved two-channel buffer, one frame (left, then right) per step.
    pub fn render(&mut self, buffer: &mut Vec<Sample>)
        requires
            old(self).wf(),
            old(buffer)@.len() % 2 == 0,
        ensures
            final(buffer)@.len() == old(buffer)@.len(),
            forall|k: int|
                0 <= k < old(buffer)@.len() / 2 ==> {
                    let frame = #[trigger] mixed_frame(all_steps(old(self).blocks@, k as nat));
                    &&& final(buffer)@[2 * k] == frame.left
                    &&& final(buffer)@[2 * k + 1] == frame.right
                },
            final(self).blocks@ == all_steps(old(self).blocks@, (old(buffer)@.len() / 2) as nat),
            final(self).wf(),
    {
        let ghost start = self.blocks@;
        let ghost frames = buffer@.len() / 2;
        let mut k: usize = 0;
        while k < buffer.len() / 2
            invariant
                self.wf(),
                self.blocks@ == all_steps(start, k as nat),
                buffer@.len() == 2 * frames,
                k <= frames,
                forall|j: int|
                    0 <= j < k ==> {
                        let frame = #[trigger] mixed_frame(all_steps(start, j as nat));
                        &&& buffer@[2 * j] == frame.left
                        &&& buffer@[2 * j + 1] == frame.right
                    },
            decreases frames - k,
        {
            let ghost prev = self.blocks@;
            let frame = self.process();
            buffer[2 * k] = frame.left as i32;
            buffer[2 * k + 1] = frame.right as i32;
            assert forall|i: int| 0 <= i < start.len() implies self.blocks@[i] == steps(
                start[i],
                (k + 1) as nat,
            ) by {
                assert(prev[i] == steps(start[i], k as nat));
                assert(self.blocks@[i] == prev[i].stepped());
            }
            assert(self.blocks@ =~= all_steps(start, (k + 1) as nat));
            k = k + 1;
        }
    }
}

/// Highest sample rate (Hz) whose Nyquist frequency in millihertz fits in a sample.
pub const MAX_SAMPLE_RATE: u32 = 4_294_967;

/// One voice of a graph: a fixed sine oscillator behind a fixed panner.
pub type SineVoice = MonoToStereoMix<
    DynBlock<SineOsc<Phasor<SampleConstant>, SampleConstant>>,
    SampleConstant,
    SampleConstant,
>;

/// The voice for a sine at `frequency` (millihertz), linear `gain` and `panning`.
pub open spec fn sine_voice(frequency: Sample, gain: Sample, panning: Sample, sample_rate: u32) -> SineVoice {
    fixed_mix(fixed_sine(frequency, UNIT, sample_rate), gain, panning)
}

/// Half the sample rate, in millihertz.
pub open spec fn nyquist(sample_rate: u32) -> int {
    sample_rate * 500
}

/// Number of harmonics `n ≥ 1` of `frequency` that lie strictly below the Nyquist frequency;
/// none for a frequency that is not positive.
pub open spec fn harmonic_count(frequency: Sample, sample_rate: u32) -> nat {
    if frequency <= 0 {
        0
    } else {
        ((nyquist(sample_rate) - 1) / (frequency as int)) as nat
    }
}

/// The voices of a sawtooth by harmonic stacking: harmonic `n` at `n × frequency` with gain
/// `gain / n`, for every harmonic below the Nyquist frequency.
pub open spec fn saw_voices(frequency: Sample, gain: Sample, panning: Sample, sample_rate: u32) -> Seq<SineVoice> {
    Seq::new(
        harmonic_count(frequency, sample_rate),
        |i: int|
            sine_voice(
                (frequency * (i + 1)) as Sample,
                div_trunc(gain as int, i + 1) as Sample,
                panning,
                sample_rate,
            ),
    )
}

/// Harmonic truncation: the sawtooth keeps exactly the harmonics below the Nyquist frequency,
/// `floor((sample_rate / 2 - 1 mHz) / frequency)` of them.
pub proof fn harmonic_truncation(frequency: Sample, sample_rate: u32)
    requires
        0 < sample_rate <= MAX_SAMPLE_RATE,
    ensures
        frequency > 0 ==> harmonic_count(frequency, sample_rate) == (nyquist(sample_rate) - 1) / (frequency as int),
        frequency <= 0 ==> harmonic_count(frequency, sample_rate) == 0,
        forall|n: int|
            1 <= n <= harmonic_count(frequency, sample_rate) ==> #[trigger] (frequency * n) < nyquist(sample_rate),
        frequency > 0 ==> frequency * (harmonic_count(frequency, sample_rate) + 1) >= nyquist(sample_rate),
{
    if frequency > 0 {
        let f = frequency as int;
        let m = nyquist(sample_rate) - 1;
        let c = m / f;
        assert(f * c <= m < f * (c + 1)) by (nonlinear_arith)
            requires
                f > 0,
                m >= 0,
                c == m / f,
        ;
        assert forall|n: int| 1 <= n <= c implies #[trigger] (frequency * n) < nyquist(sample_rate) by {
            assert(f * n <= f * c) by (nonlinear_arith)
                requires
                    f > 0,
                    n <= c,
            ;
        }
    }
}

/// Per-voice gain of an ensemble of `num_saws` voices: `gain / sqrt(num_saws)`, so that their
/// summed power matches one voice at `gain`.
pub open spec fn ensemble_gain(gain: Sample, num_saws: nat) -> int {
    div_trunc(gain * UNIT, floor_sqrt(num_saws * UNIT * UNIT))
}

/// Ensemble loudness: `num_saws` voices at the per-voice gain `e` carry the power of one voice
/// at `gain`, up to the rounding of `e` and of the square root:
/// `num_saws × e² × UNIT ≤ gain² × (UNIT + 3)` and `num_saws × (|e| + 1)² > gain²`.
pub proof fn ensemble_loudness(gain: Sample, num_saws: nat)
    requires
        num_saws >= 1,
    ensures
        ({
            let e = ensemble_gain(gain, num_saws);
            &&& num_saws * (e * e) * UNIT <= (gain * gain) * (UNIT + 3)
            &&& num_saws * ((if e >= 0 { e } else { -e }) + 1) * ((if e >= 0 { e } else { -e })
                + 1) > gain * gain
        }),
{
    let n = num_saws as int;
    let u = UNIT as int;
    let g = gain as int;
    let big = n * u * u;
    assert(big >= u * u) by (nonlinear_arith)
        requires
            big == n * u * u,
            n >= 1,
    ;
    lemma_floor_sqrt_exists(big);
    let r = floor_sqrt(big);
    assert(r >= u) by (nonlinear_arith)
        requires
            big < (r + 1) * (r + 1),
            big >= u * u,
            r >= 0,
            u > 0,
    ;
    let e = ensemble_gain(gain, num_saws);
    let m = if g >= 0 { g * u } else { -(g * u) };
    let ae = if e >= 0 { e } else { -e };
    assert(m * m == (g * g) * (u * u)) by (nonlinear_arith)
        requires
            m == (if g >= 0 { g * u } else { -(g * u) }),
    ;
    assert(m >= 0 && ae == m / r);
    assert(ae * r <= m < (ae + 1) * r) by (nonlinear_arith)
        requires
            ae == m / r,
            m >= 0,
            r > 0,
    ;
    assert(e * e == ae * ae) by (nonlinear_arith)
        requires
            ae == (if e >= 0 { e } else { -e }),
    ;
    // Upper side.
    assert(ae * ae * (r * r) <= m * m) by (nonlinear_arith)
        requires
            0 <= ae * r <= m,
    ;
    assert(u * ((r + 1) * (r + 1)) <= (u + 3) * (r * r)) by (nonlinear_arith)
        requires
            r >= u,
            u > 0,
    ;
    let a2 = ae * ae;
    assert(big * a2 * u <= (u + 3) * (r * r) * a2) by (nonlinear_arith)
        requires
            big < (r + 1) * (r + 1),
            u * ((r + 1) * (r + 1)) <= (u + 3) * (r * r),
            a2 >= 0,
            u > 0,
    ;
    assert((u + 3) * (r * r) * a2 <= (u + 3) * (m * m)) by (nonlinear_arith)
        requires
            a2 * (r * r) <= m * m,
            u > 0,
    ;
    assert(n * a2 * u <= (g * g) * (u + 3)) by (nonlinear_arith)
        requires
            n * u * u * a2 * u <= (u + 3) * ((g * g) * (u * u)),
            u > 0,
            a2 >= 0,
    ;
    // Lower side.
    assert(m * m < (ae + 1) * (ae + 1) * (r * r)) by (nonlinear_arith)
        requires
            0 <= m < (ae + 1) * r,
    ;
    assert((ae + 1) * (ae + 1) * (r * r) <= (ae + 1) * (ae + 1) * big) by (nonlinear_arith)
        requires
            r * r <= big,
    ;
    assert(g * g < n * (ae + 1) * (ae + 1)) by (nonlinear_arith)
        requires
            (g * g) * (u * u) < (ae + 1) * (ae + 1) * (n * u * u),
            u > 0,
    ;
}

/// `center` moved by `detune × variance`, where `detune` runs over `[-UNIT, UNIT]`, held to
/// the range of a sample.
pub open spec fn detuned(center: Sample, variance: Sample, detune: Sample) -> Sample {
    clamp(center + scaled(detune as int, variance as int), i32::MIN as int, i32::MAX as int) as Sample
}

/// The voices of an ensemble: for each draw `(detune, panning)`, a sawtooth at the detuned
/// frequency and that panning, all at `saw_gain`.
pub open spec fn supersaw_voices(
    center: Sample,
    variance: Sample,
    saw_gain: Sample,
    draws: Seq<(Sample, Sample)>,
    sample_rate: u32,
) -> Seq<SineVoice>
    decreases draws.len(),
{
    if draws.len() == 0 {
        Seq::empty()
    } else {
        supersaw_voices(center, variance, saw_gain, draws.drop_last(), sample_rate) + saw_voices(
            detuned(center, variance, draws.last().0),
            saw_gain,
            draws.last().1,
            sample_rate,
        )
    }
}

/// Per-voice gain of an ensemble of `num_saws` voices at `gain`.
pub fn supersaw_gain(gain: Sample, num_saws: usize) -> (r: Sample)
    requires
        num_saws >= 1,
    ensures
        r == ensemble_gain(gain, num_saws as nat),
{
    let n: u128 = num_saws as u128 * 0x1_0000_0000;
    let root = sqrt_floor(n);
    assert(root >= 0x1_0000) by (nonlinear_arith)
        requires
            n == num_saws * 0x1_0000_0000,
            num_saws >= 1,
            n < (root + 1) * (root + 1),
            root >= 0,
    ;
    proof {
        lemma_div_trunc_shrinks(gain * UNIT, root as int);
        vstd::arithmetic::div_mod::lemma_div_is_ordered_by_denominator(
            if gain >= 0 { gain * UNIT } else { -(gain * UNIT) },
            0x1_0000,
            root as int,
        );
    }
    div_trunc_i128(gain as i128 * 0x1_0000, root as u128) as i32
}

/// Relies on `rand::Rng::gen_range` over `lo..=hi` with `rand::thread_rng`: a value of the
/// inclusive range, which must not be empty.
#[verifier::external_body]
fn uniform_between(lo: i32, hi: i32) -> (r: i32)
    requires
        lo <= hi,
    ensures
        lo <= r <= hi,
{
    rand::thread_rng().gen_range(lo..=hi)
}

/// A running synthesis graph: its output aggregator and its fixed sample rate (Hz).
pub struct AudioGraph {
    pub output: StereoOutput<SineVoice>,
    pub sample_rate: u32,
}

impl AudioGraph {
    /// The sample rate is usable and every voice is well formed.
    pub open spec fn wf(&self) -> bool {
        &&& 0 < self.sample_rate <= MAX_SAMPLE_RATE
        &&& self.output.wf()
    }

    /// An empty graph at `sample_rate`.
    pub fn new(sample_rate: u32) -> (r: AudioGraph)
        requires
            0 < sample_rate <= MAX_SAMPLE_RATE,
        ensures
            r.wf(),
            r.sample_rate == sample_rate,
            r.output.blocks@.len() == 0,
    {
        AudioGraph { output: StereoOutput::new(Vec::new()), sample_rate }
    }

    /// Adds one sine voice at `frequency` (millihertz), linear `gain` and `panning`.
    pub fn add_sine(&mut self, frequency: Sample, gain: Sample, panning: Sample)
        requires
            old(self).wf(),
        ensures
            final(self).wf(),
            final(self).sample_rate == old(self).sample_rate,
            final(self).output.blocks@ == old(self).output.blocks@.push(
                sine_voice(frequency, gain, panning, old(self).sample_rate),
            ),
    {
        let sine_block = SineOsc::new_fixed(frequency, 0x1_0000, self.sample_rate);
        let voice = MonoToStereoMix::new_fixed(sine_block, gain, panning);
        self.output.blocks.push(voice);
    }

    /// Adds a sawtooth at `frequency` (millihertz), linear `gain` and `panning` as a stack of
    /// harmonics: harmonic `n` at `n × frequency` and gain `gain / n`, while it lies below the
    /// Nyquist frequency. A frequency that is not positive adds nothing.
    pub fn add_naive_sawtooth(&mut self, frequency: Sample, gain: Sample, panning: Sample)
        requires
            old(self).wf(),
        ensures
            final(self).wf(),
            final(self).sample_rate == old(self).sample_rate,
            final(self).output.blocks@ == old(self).output.blocks@ + saw_voices(
                frequency,
                gain,
                panning,
                old(self).sample_rate,
            ),
    {
        if frequency <= 0 {
            assert(saw_voices(frequency, gain, panning, self.sample_rate) =~= Seq::empty());
            assert(self.output.blocks@ =~= self.output.blocks@ + Seq::empty());
            return;
        }
        let ghost start = self.output.blocks@;
        let ghost voices = saw_voices(frequency, gain, panning, self.sample_rate);
        proof {
            harmonic_truncation(frequency, self.sample_rate);
        }
        let nyq: i64 = self.sample_rate as i64 * 500;
        let mut n: i64 = 1;
        while (frequency as i64) * n < nyq
            invariant
                self.wf(),
                self.sample_rate == old(self).sample_rate,
                nyq == nyquist(self.sample_rate),
                nyq <= 0x7fff_ffff,
                frequency > 0,
                1 <= n <= harmonic_count(frequency, self.sample_rate) + 1,
                frequency * (n - 1) < nyq,
                frequency * n < nyq + frequency,
                frequency * (harmonic_count(frequency, self.sample_rate) + 1) >= nyq,
                voices == saw_voices(frequency, gain, panning, self.sample_rate),
                self.output.blocks@ == start + voices.take(n - 1),
            decreases nyq - n,
        {
            assert(n <= frequency * n) by (nonlinear_arith)
                requires
                    frequency >= 1,
                    n >= 1,
            ;
            let ghost count = harmonic_count(frequency, self.sample_rate) as int;
            assert(n <= count) by (nonlinear_arith)
                requires
                    frequency >= 1,
                    frequency * n < nyq,
                    frequency * (count + 1) >= nyq,
            ;
            proof {
                lemma_div_trunc_shrinks(gain as int, n as int);
            }
            let harmonic_gain = div_trunc_i128(gain as i128, n as u128) as i32;
            self.add_sine(((frequency as i64) * n) as i32, harmonic_gain, panning);
            assert(voices.take(n as int) =~= voices.take(n - 1).push(voices[n - 1]));
            assert(frequency * (n + 1) < nyq + frequency) by (nonlinear_arith)
                requires
                    frequency * n < nyq,
            ;
            n = n + 1;
        }
        assert(voices.take(n - 1) =~= voices);
    }

    /// Adds an ensemble of detuned sawtooth voices, one per draw `(detune, panning)`, where
    /// `detune` scales `variance` (`UNIT` stands for one), all at the per-voice gain
    /// `gain / sqrt(number of draws)`.
    pub fn add_supersaw_with(
        &mut self,
        center_frequency: Sample,
        variance: Sample,
        gain: Sample,
        draws: &Vec<(Sample, Sample)>,
    )
        requires
            old(self).wf(),
        ensures
            final(self).wf(),
            final(self).sample_rate == old(self).sample_rate,
            draws@.len() == 0 ==> final(self).output.blocks@ == old(self).output.blocks@,
            draws@.len() > 0 ==> final(self).output.blocks@ == old(self).output.blocks@
                + supersaw_voices(
                center_frequency,
                variance,
                ensemble_gain(gain, draws@.len()) as Sample,
                draws@,
                old(self).sample_rate,
            ),
    {
        if draws.len() == 0 {
            return;
        }
        let saw_gain = supersaw_gain(gain, draws.len());
        let ghost start = self.output.blocks@;
        let mut i: usize = 0;
        while i < draws.len()
            invariant
                self.wf(),
                self.sample_rate == old(self).sample_rate,
                i <= draws@.len(),
                self.output.blocks@ == start + supersaw_voices(
                    center_frequency,
                    variance,
                    saw_gain,
                    draws@.take(i as int),
                    self.sample_rate,
                ),
            decreases draws@.len() - i,
        {
            let (detune, panning) = draws[i];
            assert(-0x4000_0000_0000_0000 <= detune * variance <= 0x4000_0000_0000_0000)
                by (nonlinear_arith)
                requires
                    -0x8000_0000 <= detune <= 0x7fff_ffff,
                    -0x8000_0000 <= variance <= 0x7fff_ffff,
            ;
            let shift: i128 = div_trunc_i128(detune as i128 * variance as i128, 0x1_0000);
            proof {
                lemma_div_trunc_shrinks(detune * variance, UNIT as int);
            }
            let moved: i128 = center_frequency as i128 + shift;
            let frequency: i32 = if moved > i32::MAX as i128 {
                i32::MAX
            } else if moved < i32::MIN as i128 {
                i32::MIN
            } else {
                moved as i32
            };
            self.add_naive_sawtooth(frequency, saw_gain, panning);
            assert(draws@.take(i + 1).drop_last() =~= draws@.take(i as int));
            assert(self.output.blocks@ =~= start + supersaw_voices(
                center_frequency,
                variance,
                saw_gain,
                draws@.take(i + 1),
                self.sample_rate,
            ));
            i = i + 1;
        }
        assert(draws@.take(i as int) =~= draws@);
    }

    /// Adds an ensemble of `num_saws` sawtooth voices around `center_frequency`, each detuned
    /// by a uniformly drawn fraction of `variance` in `[-1, 1]` and panned to a uniformly drawn
    /// position, all at the per-voice gain `gain / sqrt(num_saws)`.
    pub fn add_supersaw(
        &mut self,
        center_frequency: Sample,
        variance: Sample,
        num_saws: usize,
        gain: Sample,
    )
        requires
            old(self).wf(),
        ensures
            final(self).wf(),
            final(self).sample_rate == old(self).sample_rate,
            num_saws == 0 ==> final(self).output.blocks@ == old(self).output.blocks@,
            num_saws > 0 ==> exists|draws: Seq<(Sample, Sample)>|
                {
                    &&& draws.len() == num_saws
                    &&& forall|k: int|
                        0 <= k < draws.len() ==> -UNIT <= (#[trigger] draws[k]).0 <= UNIT
                            && -UNIT <= draws[k].1 <= UNIT
                    &&& final(self).output.blocks@ == old(self).output.blocks@ + supersaw_voices(
                        center_frequency,
                        variance,
                        ensemble_gain(gain, num_saws as nat) as Sample,
                        draws,
                        old(self).sample_rate,
                    )
                },
    {
        let mut draws: Vec<(Sample, Sample)> = Vec::new();
        let mut i: usize = 0;
        while i < num_saws
            invariant
                i <= num_saws,
                draws@.len() == i,
                forall|k: int|
                    0 <= k < draws@.len() ==> -UNIT <= (#[trigger] draws@[k]).0 <= UNIT
                        && -UNIT <= draws@[k].1 <= UNIT,
            decreases num_saws - i,
        {
            let detune = uniform_between(-0x1_0000, 0x1_0000);
            let panning = uniform_between(-0x1_0000, 0x1_0000);
            draws.push((detune, panning));
            i = i + 1;
        }
        self.add_supersaw_with(center_frequency, variance, gain, &draws);
    }
}

} // verus!
