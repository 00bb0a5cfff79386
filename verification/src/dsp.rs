//! The processor graph: parameters, generators, effects and containers.
//!
//! Nodes own their children, so the graph is a tree that the client pulls
//! from the root.  Every knob is a [`Parameter`]: a baseline plus modulator
//! generators whose outputs are added on every read.  Generators honour the
//! shared-output invariant: pulled with a fan-out count `k`, they advance
//! their internal clock only every `k` calls and replay the cached sample in
//! between.
//!
//! The contract of every `tick` is a step relation (`gen_step`, `fx_step`,
//! `param_step`): an exact description of the new state and output in terms
//! of the old, existentially quantified only over the effective parameter
//! values (which may involve modulators) and the one genuinely
//! nondeterministic ingredient, the noise generator's random draw.

use vstd::prelude::*;
use crate::fixed::{
    FP_ONE, div_trunc, sat64, fp_add, fp_sub, fp_mul, fp_div, fp_abs, add_s, sub_s, mul_s, div_s,
    abs_s, div_i128, mod_euclid, sat_narrow,
};
use crate::math::{sin_turn_spec, sin_turn, cos_turn_spec, cos_turn, pow_q48_spec, pow_q48};
use vstd::arithmetic::mul::lemma_mul_upper_bound;
use vstd::arithmetic::div_mod::lemma_mod_bound;

verus! {

//==========================================================================
// Data model
//==========================================================================

/// The thread-local random generator of the `rand` crate, declared so that
/// the noise node can hold one; its values are opaque to verification.
#[verifier::external_type_specification]
#[verifier::external_body]
pub struct ExThreadRng(rand::rngs::ThreadRng);

/// A modulatable scalar knob: a baseline value plus modulator generators.
pub struct Parameter {
    pub value: i64,
    pub modulators: Vec<GenNode>,
}

/// The kinds of noise the noise generator can produce.
#[derive(Clone, Copy)]
pub enum NoiseKind {
    White,
}

/// A white-noise generator with a modulatable amplitude.
pub struct Noise {
    pub kind: NoiseKind,
    pub amplitude: Parameter,
    pub enabled: Parameter,
    pub rng: rand::rngs::ThreadRng,
    pub multi_hold: i64,
    pub multi_index: usize,
}

/// The wave shapes the oscillator can produce.
#[derive(Clone, Copy)]
pub enum WaveKind {
    Sine,
    Triangle,
    Square,
    Saw,
}

/// A periodic wave generator with modulatable frequency and amplitude.
pub struct Oscillator {
    pub kind: WaveKind,
    pub frequency: Parameter,
    pub amplitude: Parameter,
    pub enabled: Parameter,
    pub step: u64,
    pub sample_rate: u64,
    pub multi_hold: i64,
    pub multi_index: usize,
}

/// The phase of an ADSR envelope, with the sample count inside it.
#[derive(Clone, Copy)]
pub enum ADSRState {
    Attack(u64),
    Decay(u64),
    Sustain,
    Release(u64),
    Off,
}

/// An attack-decay-sustain-release envelope generator.
pub struct ADSR {
    pub state: ADSRState,
    pub enabled: Parameter,
    pub attack: u64,
    pub attack_curve: i64,
    pub peak: i64,
    pub decay: u64,
    pub decay_curve: i64,
    pub sustain: i64,
    pub release: u64,
    pub release_curve: i64,
    pub sample_rate: u64,
    pub multi_hold: i64,
    pub multi_index: usize,
}

/// One generator feeding one effect chain; itself a generator.
pub struct Chain {
    pub module: Box<GenNode>,
    pub fx_chain: FxChain,
    pub enabled: Parameter,
    pub multi_hold: i64,
    pub multi_index: usize,
}

/// A parallel mix of generators: enabled children are summed, absent
/// children contribute nothing.
pub struct Parallel {
    pub modules: Vec<GenNode>,
    pub enabled: Parameter,
    pub multi_hold: i64,
    pub multi_index: usize,
}

/// Any generator node.
pub enum GenNode {
    Osc(Oscillator),
    Noise(Noise),
    Env(ADSR),
    Chain(Chain),
    Par(Parallel),
}

/// An amplifier with a modulatable gain.
pub struct Amplifier {
    pub amplitude: Parameter,
    pub enabled: Parameter,
}

/// The absolute-value effect.
pub struct Absolute {}

/// The pointwise sample maps the operator effect can apply.
pub enum OpKind {
    Abs,
    Threshold(i64),
    Clip(i64, i64),
    MulAdd(i64, i64),
}

/// An effect applying one pure pointwise map to each sample.
pub struct Operator {
    pub op: OpKind,
    pub enabled: Parameter,
}

/// Hold-and-emit decimation by a modulatable factor.
pub struct DownSample {
    pub hold: i64,
    pub step: u64,
    pub factor: Parameter,
    pub enabled: Parameter,
}

/// The derived outputs of the first-order all-pass section.
#[derive(Clone, Copy)]
pub enum FirstOrderFilterKind {
    AllPass,
    LowPass,
    HighPass,
}

/// A first-order filter with a modulatable cut-off; the coefficient is
/// recomputed lazily when the cut-off changes.
pub struct FirstOrderFilter {
    pub kind: FirstOrderFilterKind,
    pub cut_off: Parameter,
    pub enabled: Parameter,
    pub old_cut_off: i64,
    pub coefficient: i64,
    pub buffer: i64,
    pub sample_rate: u64,
}

/// The derived outputs of the second-order all-pass section.
#[derive(Clone, Copy)]
pub enum SecondOrderFilterKind {
    AllPass,
    BandStop,
    BandPass,
}

/// A second-order filter with modulatable cut-off and bandwidth parameter.
pub struct SecondOrderFilter {
    pub kind: SecondOrderFilterKind,
    pub cut_off: Parameter,
    pub curve: Parameter,
    pub enabled: Parameter,
    pub old_cut_off: i64,
    pub old_curve: i64,
    pub d: i64,
    pub c: i64,
    pub buffer0: i64,
    pub buffer1: i64,
    pub sample_rate: u64,
}

/// A first-order lag with separate upward and downward time constants.
pub struct Slide {
    pub slide_up: Parameter,
    pub slide_down: Parameter,
    pub enabled: Parameter,
    pub buffer: i64,
}

/// A ring-buffer moving average over the most recent samples.
pub struct MovingAverage {
    pub window_size: usize,
    pub processed: usize,
    pub index: usize,
    pub buffer: Vec<i64>,
    pub enabled: Parameter,
}

/// An ordered list of effects applied in series.
pub struct FxChain {
    pub effects: Vec<FxNode>,
    pub enabled: Parameter,
}

/// Any effect node.
pub enum FxNode {
    Amp(Amplifier),
    Abs(Absolute),
    Op(Operator),
    Down(DownSample),
    First(FirstOrderFilter),
    Second(SecondOrderFilter),
    Slide(Slide),
    Avg(MovingAverage),
    Chain(FxChain),
}

//==========================================================================
// Specification helpers
//==========================================================================

/// A trivially true marker wrapped around existential witnesses so that the
/// quantifier has a stable trigger: the step relations are recursive, and
/// recursive functions carry a fuel argument that blocks direct matching.
pub open spec fn wit<A>(x: A) -> bool {
    true
}

/// The sample an optional generator output contributes to a sum.
pub open spec fn val_or_zero(o: Option<i64>) -> int {
    match o {
        Some(v) => v as int,
        None => 0,
    }
}

/// The shared-output counter after one pull with fan-out `k`:
/// `(index + 1) mod k`, with stray counters folded back to zero.
pub open spec fn bump_spec(idx: int, k: int) -> int {
    if k <= 1 {
        0
    } else if idx >= k - 1 {
        0
    } else {
        idx + 1
    }
}

/// Left fold of the saturating sum of optional outputs over `acc`.
pub open spec fn souts(outs: Seq<Option<i64>>, acc: int) -> int
    decreases outs.len(),
{
    if outs.len() == 0 {
        acc
    } else {
        souts(outs.skip(1), fp_add(acc, val_or_zero(outs[0])))
    }
}

//==========================================================================
// Step relations: the exact semantics of one tick
//==========================================================================

/// Each modulator ticked once, in order, with a fan-out count of one.
pub open spec fn gens_step_all(pres: Seq<GenNode>, posts: Seq<GenNode>, outs: Seq<Option<i64>>)
    -> bool
    decreases pres,
{
    &&& posts.len() == pres.len()
    &&& outs.len() == pres.len()
    &&& forall|i: int| 0 <= i < pres.len() ==> gen_step(pres[i], posts[i], 1, #[trigger] outs[i])
}

/// The quantifier-free body of [`param_step`], with the modulator outputs
/// explicit.
pub open spec fn param_core(pre: Parameter, post: Parameter, outs: Seq<Option<i64>>, out: int)
    -> bool
    decreases pre, 0int,
{
    &&& post.value == pre.value
    &&& gens_step_all(pre.modulators@, post.modulators@, outs)
    &&& out == souts(outs, pre.value as int)
}

/// Reading a parameter ticks every modulator once and adds the outputs
/// (absent ones as zero) onto the baseline.
pub open spec fn param_step(pre: Parameter, post: Parameter, out: int) -> bool
    decreases pre, 1int,
{
    exists|outs: Seq<Option<i64>>| #[trigger] wit(outs) && param_core(pre, post, outs, out)
}

/// The number of samples in one oscillator cycle: `sample_rate / frequency`
/// truncated, saturated onto `u64`, and zero for non-positive frequencies.
pub open spec fn osc_cycle(sample_rate: int, freq: int) -> int {
    if freq <= 0 {
        0
    } else {
        let q = (sample_rate * (FP_ONE as int)) / freq;
        if q > u64::MAX {
            u64::MAX as int
        } else {
            q
        }
    }
}

/// The oscillator's raw wave value at phase `step`, before amplitude.
pub open spec fn osc_wave(
    kind: WaveKind,
    step: int,
    sample_rate: int,
    freq: int,
    amp: int,
) -> int {
    let n = osc_cycle(sample_rate, freq);
    let w = match kind {
        WaveKind::Sine => if freq <= 0 || sample_rate <= 0 {
            0
        } else {
            sin_turn_spec(
                (step * freq) % (sample_rate * (FP_ONE as int)),
                sample_rate * (FP_ONE as int),
            )
        },
        WaveKind::Square => if n == 0 {
            0
        } else if step < n / 2 {
            FP_ONE as int
        } else {
            -(FP_ONE as int)
        },
        WaveKind::Saw => if n == 0 {
            0
        } else {
            sat64(div_trunc(2 * (FP_ONE as int) * step, n) - FP_ONE as int)
        },
        WaveKind::Triangle => if n == 0 {
            0
        } else if step < n / 2 {
            sat64(div_trunc(4 * (FP_ONE as int) * step, n) - FP_ONE as int)
        } else {
            sat64(div_trunc(4 * (FP_ONE as int) * (n - step), n) - FP_ONE as int)
        },
    };
    fp_mul(w, amp)
}

/// The oscillator's phase counter after an active tick: advance and wrap at
/// the cycle length.
pub open spec fn osc_next_step(step: int, sample_rate: int, freq: int) -> int {
    let n = osc_cycle(sample_rate, freq);
    if n == 0 {
        0
    } else if step >= n - 1 {
        0
    } else {
        step + 1
    }
}

/// The quantifier-free body of [`osc_step`], with the effective parameter
/// values explicit.
pub open spec fn osc_core(
    pre: Oscillator,
    post: Oscillator,
    k: int,
    out: Option<i64>,
    amp: int,
    freq: int,
    en: int,
) -> bool
    decreases pre, 0int,
{
    &&& post.kind == pre.kind
    &&& post.sample_rate == pre.sample_rate
    &&& param_step(pre.amplitude, post.amplitude, amp)
    &&& param_step(pre.frequency, post.frequency, freq)
    &&& param_step(pre.enabled, post.enabled, en)
    &&& if en == 0 {
                out is None && post.step == pre.step && post.multi_hold == pre.multi_hold
                    && post.multi_index == pre.multi_index
            } else {
                post.multi_index == bump_spec(pre.multi_index as int, k)
                    && if post.multi_index != 0 {
                        out == Some(pre.multi_hold) && post.multi_hold == pre.multi_hold
                            && post.step == pre.step
                    } else {
                        post.multi_hold as int == osc_wave(
                            pre.kind,
                            pre.step as int,
                            pre.sample_rate as int,
                            freq,
                            amp,
                        ) && post.step as int == osc_next_step(
                            pre.step as int,
                            pre.sample_rate as int,
                            freq,
                        ) && out == Some(post.multi_hold)
                    }
            }
}

/// One oscillator tick.
pub open spec fn osc_step(pre: Oscillator, post: Oscillator, k: int, out: Option<i64>) -> bool
    decreases pre, 1int,
{
    exists|amp: int, freq: int, en: int|
        #![trigger wit(amp), wit(freq), wit(en)]
        wit(amp) && wit(freq) && wit(en) && osc_core(pre, post, k, out, amp, freq, en)
}

/// The quantifier-free body of [`noise_step`].
pub open spec fn noise_core(
    pre: Noise,
    post: Noise,
    k: int,
    out: Option<i64>,
    amp: int,
    en: int,
) -> bool
    decreases pre, 0int,
{
    &&& post.kind == pre.kind
    &&& param_step(pre.amplitude, post.amplitude, amp)
    &&& param_step(pre.enabled, post.enabled, en)
    &&& if en == 0 {
                out is None && post.multi_hold == pre.multi_hold && post.multi_index
                    == pre.multi_index
            } else {
                post.multi_index == bump_spec(pre.multi_index as int, k)
                    && if post.multi_index != 0 {
                        out == Some(pre.multi_hold) && post.multi_hold == pre.multi_hold
                    } else {
                        (if fp_abs(amp) == 0 {
                            post.multi_hold == 0
                        } else {
                            -fp_abs(amp) <= post.multi_hold < fp_abs(amp)
                        }) && out == Some(post.multi_hold)
                    }
            }
}

/// One noise tick: an active draw lands inside the effective amplitude's
/// magnitude; which value it takes is not specified.
pub open spec fn noise_step(pre: Noise, post: Noise, k: int, out: Option<i64>) -> bool
    decreases pre, 1int,
{
    exists|amp: int, en: int|
        #![trigger wit(amp), wit(en)]
        wit(amp) && wit(en) && noise_core(pre, post, k, out, amp, en)
}

/// The number of samples in `ms` milliseconds, rounded to nearest and
/// saturated onto `u64`.
pub open spec fn ms_samples(ms: int, sample_rate: int) -> int {
    let q = (ms * sample_rate + 500) / 1000;
    if q > u64::MAX {
        u64::MAX as int
    } else {
        q
    }
}

/// The ratio `step / n` as a Q48 value clamped into `[0, 1]`.
pub open spec fn adsr_ratio(step: int, n: int) -> int {
    if n <= 0 || step >= n {
        FP_ONE as int
    } else {
        div_trunc(step * (FP_ONE as int), n)
    }
}

/// The envelope level produced in the given state.
pub open spec fn adsr_level(pre: ADSR) -> int {
    match pre.state {
        ADSRState::Attack(st) => {
            let n = ms_samples(pre.attack as int, pre.sample_rate as int);
            fp_mul(pre.peak as int, pow_q48_spec(adsr_ratio(st as int, n), pre.attack_curve as int))
        },
        ADSRState::Decay(st) => {
            let n = ms_samples(pre.decay as int, pre.sample_rate as int);
            fp_sub(
                pre.peak as int,
                fp_mul(
                    fp_sub(pre.peak as int, pre.sustain as int),
                    pow_q48_spec(adsr_ratio(st as int, n), pre.decay_curve as int),
                ),
            )
        },
        ADSRState::Sustain => pre.sustain as int,
        ADSRState::Release(st) => {
            let n = ms_samples(pre.release as int, pre.sample_rate as int);
            fp_sub(
                pre.sustain as int,
                fp_mul(
                    pre.sustain as int,
                    pow_q48_spec(adsr_ratio(st as int, n), pre.release_curve as int),
                ),
            )
        },
        ADSRState::Off => 0,
    }
}

/// The envelope state after an active tick: time-driven transitions out of
/// the attack, decay and release phases.
pub open spec fn adsr_next(pre: ADSR) -> ADSRState {
    match pre.state {
        ADSRState::Attack(st) => {
            let n = ms_samples(pre.attack as int, pre.sample_rate as int);
            if st >= n {
                ADSRState::Decay(0)
            } else {
                ADSRState::Attack((st + 1) as u64)
            }
        },
        ADSRState::Decay(st) => {
            let n = ms_samples(pre.decay as int, pre.sample_rate as int);
            if st >= n {
                ADSRState::Sustain
            } else {
                ADSRState::Decay((st + 1) as u64)
            }
        },
        ADSRState::Sustain => ADSRState::Sustain,
        ADSRState::Release(st) => {
            let n = ms_samples(pre.release as int, pre.sample_rate as int);
            if st >= n {
                ADSRState::Off
            } else {
                ADSRState::Release((st + 1) as u64)
            }
        },
        ADSRState::Off => ADSRState::Off,
    }
}

/// Whether an envelope's configuration fields are unchanged.
pub open spec fn adsr_config_eq(pre: ADSR, post: ADSR) -> bool {
    &&& post.attack == pre.attack
    &&& post.attack_curve == pre.attack_curve
    &&& post.peak == pre.peak
    &&& post.decay == pre.decay
    &&& post.decay_curve == pre.decay_curve
    &&& post.sustain == pre.sustain
    &&& post.release == pre.release
    &&& post.release_curve == pre.release_curve
    &&& post.sample_rate == pre.sample_rate
}

/// The quantifier-free body of [`adsr_step`].
pub open spec fn adsr_core(pre: ADSR, post: ADSR, k: int, out: Option<i64>, en: int) -> bool
    decreases pre, 0int,
{
    &&& adsr_config_eq(pre, post)
    &&& param_step(pre.enabled, post.enabled, en)
    &&& if en == 0 {
            out is None && post.state == pre.state && post.multi_hold == pre.multi_hold
                && post.multi_index == pre.multi_index
        } else {
            post.multi_index == bump_spec(pre.multi_index as int, k)
                && if post.multi_index != 0 {
                    out == Some(pre.multi_hold) && post.multi_hold == pre.multi_hold
                        && post.state == pre.state
                } else {
                    post.multi_hold as int == adsr_level(pre) && post.state == adsr_next(pre)
                        && out == Some(post.multi_hold)
                }
        }
}

/// One envelope tick.
pub open spec fn adsr_step(pre: ADSR, post: ADSR, k: int, out: Option<i64>) -> bool
    decreases pre, 1int,
{
    exists|en: int| #[trigger] wit(en) && adsr_core(pre, post, k, out, en)
}

/// The quantifier-free body of [`chain_step`].
pub open spec fn chain_core(
    pre: Chain,
    post: Chain,
    k: int,
    out: Option<i64>,
    en: int,
    mod_out: Option<i64>,
    fx_out: int,
) -> bool
    decreases pre, 0int,
{
    &&& param_step(pre.enabled, post.enabled, en)
    &&& if en == 0 {
            out is None && *post.module == *pre.module && post.fx_chain == pre.fx_chain
                && post.multi_hold == pre.multi_hold && post.multi_index == pre.multi_index
        } else {
            post.multi_index == bump_spec(pre.multi_index as int, k)
                && if post.multi_index != 0 {
                    out == Some(pre.multi_hold) && post.multi_hold == pre.multi_hold
                        && *post.module == *pre.module && post.fx_chain == pre.fx_chain
                } else {
                    gen_step(*pre.module, *post.module, 1, mod_out) && match mod_out {
                        None => out is None && post.fx_chain == pre.fx_chain && post.multi_hold
                            == pre.multi_hold,
                        Some(s) => fxchain_step(pre.fx_chain, post.fx_chain, s as int, fx_out)
                            && post.multi_hold as int == fx_out && out == Some(post.multi_hold),
                    }
                }
        }
}

/// One chain tick: pull the inner generator once, feed its sample through
/// the effect chain; an absent inner sample propagates as absent.
pub open spec fn chain_step(pre: Chain, post: Chain, k: int, out: Option<i64>) -> bool
    decreases pre, 1int,
{
    exists|en: int, mod_out: Option<i64>, fx_out: int|
        #![trigger wit(en), wit(mod_out), wit(fx_out)]
        wit(en) && wit(mod_out) && wit(fx_out) && chain_core(pre, post, k, out, en, mod_out,
            fx_out)
}

/// The quantifier-free body of [`par_step`].
pub open spec fn par_core(
    pre: Parallel,
    post: Parallel,
    k: int,
    out: Option<i64>,
    en: int,
    outs: Seq<Option<i64>>,
) -> bool
    decreases pre, 0int,
{
    &&& param_step(pre.enabled, post.enabled, en)
    &&& if en == 0 {
            out is None && post.modules@ == pre.modules@ && post.multi_hold == pre.multi_hold
                && post.multi_index == pre.multi_index
        } else {
            post.multi_index == bump_spec(pre.multi_index as int, k)
                && if post.multi_index != 0 {
                    out == Some(pre.multi_hold) && post.multi_hold == pre.multi_hold
                        && post.modules@ == pre.modules@
                } else {
                    gens_step_all(pre.modules@, post.modules@, outs) && post.multi_hold as int
                        == souts(outs, 0) && out == Some(post.multi_hold)
                }
        }
}

/// One parallel-mix tick: every child pulled once, present outputs summed.
pub open spec fn par_step(pre: Parallel, post: Parallel, k: int, out: Option<i64>) -> bool
    decreases pre, 1int,
{
    exists|en: int, outs: Seq<Option<i64>>|
        #![trigger wit(en), wit(outs)]
        wit(en) && wit(outs) && par_core(pre, post, k, out, en, outs)
}

/// One generator tick, whatever the node.
pub open spec fn gen_step(pre: GenNode, post: GenNode, k: int, out: Option<i64>) -> bool
    decreases pre,
{
    match pre {
        GenNode::Osc(po) => post matches GenNode::Osc(qo) && osc_step(po, qo, k, out),
        GenNode::Noise(pn) => post matches GenNode::Noise(qn) && noise_step(pn, qn, k, out),
        GenNode::Env(pe) => post matches GenNode::Env(qe) && adsr_step(pe, qe, k, out),
        GenNode::Chain(pc) => post matches GenNode::Chain(qc) && chain_step(pc, qc, k, out),
        GenNode::Par(pp) => post matches GenNode::Par(qp) && par_step(pp, qp, k, out),
    }
}

/// The quantifier-free body of [`amp_step`].
pub open spec fn amp_core(pre: Amplifier, post: Amplifier, x: int, out: int, a: int, en: int)
    -> bool
    decreases pre, 0int,
{
    &&& param_step(pre.amplitude, post.amplitude, a)
    &&& param_step(pre.enabled, post.enabled, en)
    &&& out == if en == 0 {
        x
    } else {
        fp_mul(a, x)
    }
}

/// One amplifier tick: scale by the effective gain unless bypassed.
pub open spec fn amp_step(pre: Amplifier, post: Amplifier, x: int, out: int) -> bool
    decreases pre, 1int,
{
    exists|a: int, en: int|
        #![trigger wit(a), wit(en)]
        wit(a) && wit(en) && amp_core(pre, post, x, out, a, en)
}

/// The pointwise map an operator applies.
pub open spec fn op_apply(op: OpKind, x: int) -> int {
    match op {
        OpKind::Abs => fp_abs(x),
        OpKind::Threshold(t) => if x > t {
            FP_ONE as int
        } else {
            0
        },
        OpKind::Clip(lo, hi) => if x < lo {
            lo as int
        } else if x > hi {
            hi as int
        } else {
            x
        },
        OpKind::MulAdd(a, b) => fp_add(fp_mul(a as int, x), b as int),
    }
}

/// The quantifier-free body of [`op_step`].
pub open spec fn op_core(pre: Operator, post: Operator, x: int, out: int, en: int) -> bool
    decreases pre, 0int,
{
    &&& post.op == pre.op
    &&& param_step(pre.enabled, post.enabled, en)
    &&& out == if en == 0 {
        x
    } else {
        op_apply(pre.op, x)
    }
}

/// One operator tick.
pub open spec fn op_step(pre: Operator, post: Operator, x: int, out: int) -> bool
    decreases pre, 1int,
{
    exists|en: int| #[trigger] wit(en) && op_core(pre, post, x, out, en)
}

/// The decimation factor a Q48 effective value denotes: its integer part,
/// with non-positive values giving zero.
pub open spec fn down_factor(f: int) -> int {
    if f <= 0 {
        0
    } else {
        div_trunc(f, FP_ONE as int)
    }
}

/// The quantifier-free body of [`down_step`].
pub open spec fn down_core(pre: DownSample, post: DownSample, x: int, out: int, f: int, en: int)
    -> bool
    decreases pre, 0int,
{
    &&& param_step(pre.factor, post.factor, f)
    &&& param_step(pre.enabled, post.enabled, en)
    &&& if en == 0 {
            out == x && post.hold == pre.hold && post.step == pre.step
        } else {
            let ff = if down_factor(f) == 0 {
                1
            } else {
                down_factor(f)
            };
            let latched = (pre.step as int) % ff == 0;
            let held = if latched {
                x
            } else {
                pre.hold as int
            };
            let base = if latched {
                0
            } else {
                pre.step as int
            };
            post.hold as int == held && post.step as int == (if base == u64::MAX {
                0
            } else {
                base + 1
            }) && out == held
        }
}

/// One down-sampler tick: latch on every `factor`-th step, else replay.
pub open spec fn down_step(pre: DownSample, post: DownSample, x: int, out: int) -> bool
    decreases pre, 1int,
{
    exists|f: int, en: int|
        #![trigger wit(f), wit(en)]
        wit(f) && wit(en) && down_core(pre, post, x, out, f, en)
}

/// The first-order all-pass coefficient for a cut-off at a sample rate:
/// `(t - 1) / (t + 1)` with `t = tan(pi * cut_off / sample_rate)`.
pub open spec fn foc_coefficient(cut_off: int, sample_rate: int) -> int {
    if sample_rate <= 0 {
        0
    } else {
        let den = 2 * sample_rate * (FP_ONE as int);
        let num = cut_off % den;
        let t = fp_div(sin_turn_spec(num, den), cos_turn_spec(num, den));
        fp_div(fp_sub(t, FP_ONE as int), fp_add(t, FP_ONE as int))
    }
}

/// Half a sample value, truncated.
pub open spec fn half(v: int) -> int {
    div_trunc(v, 2)
}

/// The quantifier-free body of [`first_step`].
pub open spec fn first_core(
    pre: FirstOrderFilter,
    post: FirstOrderFilter,
    x: int,
    out: int,
    co: int,
    en: int,
) -> bool
    decreases pre, 0int,
{
    &&& post.kind == pre.kind
    &&& post.sample_rate == pre.sample_rate
    &&& param_step(pre.cut_off, post.cut_off, co)
    &&& param_step(pre.enabled, post.enabled, en)
    &&& if en == 0 {
            out == x && post.old_cut_off == pre.old_cut_off && post.coefficient == pre.coefficient
                && post.buffer == pre.buffer
        } else {
            let c = if co != pre.old_cut_off {
                foc_coefficient(co, pre.sample_rate as int)
            } else {
                pre.coefficient as int
            };
            let ap = fp_add(fp_mul(c, x), pre.buffer as int);
            post.old_cut_off as int == co && post.coefficient as int == c && post.buffer as int
                == fp_sub(x, fp_mul(c, ap)) && out == match pre.kind {
                FirstOrderFilterKind::AllPass => ap,
                FirstOrderFilterKind::HighPass => half(fp_sub(x, ap)),
                FirstOrderFilterKind::LowPass => half(fp_add(x, ap)),
            }
        }
}

/// One first-order filter tick.
pub open spec fn first_step(pre: FirstOrderFilter, post: FirstOrderFilter, x: int, out: int)
    -> bool
    decreases pre, 1int,
{
    exists|co: int, en: int|
        #![trigger wit(co), wit(en)]
        wit(co) && wit(en) && first_core(pre, post, x, out, co, en)
}

/// The second-order section's frequency coefficient:
/// `-cos(2 * pi * cut_off / sample_rate)`.
pub open spec fn soc_d(cut_off: int, sample_rate: int) -> int {
    if sample_rate <= 0 {
        0
    } else {
        let den = sample_rate * (FP_ONE as int);
        -cos_turn_spec(cut_off % den, den)
    }
}

/// The second-order section's bandwidth coefficient:
/// `(t - 1) / (t + 1)` with `t = tan(pi * curve)`.
pub open spec fn soc_c(curve: int) -> int {
    let den = 2 * (FP_ONE as int);
    let num = curve % den;
    let t = fp_div(sin_turn_spec(num, den), cos_turn_spec(num, den));
    fp_div(fp_sub(t, FP_ONE as int), fp_add(t, FP_ONE as int))
}

/// The quantifier-free body of [`second_step`].
pub open spec fn second_core(
    pre: SecondOrderFilter,
    post: SecondOrderFilter,
    x: int,
    out: int,
    co: int,
    cu: int,
    en: int,
) -> bool
    decreases pre, 0int,
{
    &&& post.kind == pre.kind
    &&& post.sample_rate == pre.sample_rate
    &&& param_step(pre.cut_off, post.cut_off, co)
    &&& param_step(pre.curve, post.curve, cu)
    &&& param_step(pre.enabled, post.enabled, en)
    &&& if en == 0 {
            out == x && post.old_cut_off == pre.old_cut_off && post.old_curve == pre.old_curve
                && post.d == pre.d && post.c == pre.c && post.buffer0 == pre.buffer0
                && post.buffer1 == pre.buffer1
        } else {
            let d = if co != pre.old_cut_off {
                soc_d(co, pre.sample_rate as int)
            } else {
                pre.d as int
            };
            let c = if cu != pre.old_curve {
                soc_c(cu)
            } else {
                pre.c as int
            };
            let dc = fp_mul(d, fp_sub(FP_ONE as int, c));
            let v = fp_add(fp_sub(x, fp_mul(dc, pre.buffer0 as int)), fp_mul(c, pre.buffer1 as int));
            let ap = fp_add(fp_sub(fp_mul(dc, pre.buffer0 as int), fp_mul(c, v)), pre.buffer1 as int);
            post.old_cut_off as int == co && post.old_curve as int == cu && post.d as int == d
                && post.c as int == c && post.buffer1 == pre.buffer0 && post.buffer0 as int == v
                && out == match pre.kind {
                SecondOrderFilterKind::AllPass => ap,
                SecondOrderFilterKind::BandPass => half(fp_sub(x, ap)),
                SecondOrderFilterKind::BandStop => half(fp_add(x, ap)),
            }
        }
}

/// One second-order filter tick.
pub open spec fn second_step(pre: SecondOrderFilter, post: SecondOrderFilter, x: int, out: int)
    -> bool
    decreases pre, 1int,
{
    exists|co: int, cu: int, en: int|
        #![trigger wit(co), wit(cu), wit(en)]
        wit(co) && wit(cu) && wit(en) && second_core(pre, post, x, out, co, cu, en)
}

/// The quantifier-free body of [`slide_step`].
pub open spec fn slide_core(
    pre: Slide,
    post: Slide,
    x: int,
    out: int,
    up: int,
    down: int,
    en: int,
) -> bool
    decreases pre, 0int,
{
    &&& param_step(pre.slide_up, post.slide_up, up)
    &&& param_step(pre.slide_down, post.slide_down, down)
    &&& param_step(pre.enabled, post.enabled, en)
    &&& if en == 0 {
            out == x && post.buffer == pre.buffer
        } else {
            let delta = fp_sub(x, pre.buffer as int);
            let s = if delta > 0 {
                up
            } else {
                down
            };
            post.buffer as int == fp_add(pre.buffer as int, fp_div(delta, s)) && out
                == post.buffer as int
        }
}

/// One slide tick: move the buffer toward the input by the fraction given
/// by the upward or downward time constant.
pub open spec fn slide_step(pre: Slide, post: Slide, x: int, out: int) -> bool
    decreases pre, 1int,
{
    exists|up: int, down: int, en: int|
        #![trigger wit(up), wit(down), wit(en)]
        wit(up) && wit(down) && wit(en) && slide_core(pre, post, x, out, up, down, en)
}

/// Whether a moving average's ring buffer is internally consistent.
pub open spec fn ma_ok(m: MovingAverage) -> bool {
    &&& m.window_size >= 1
    &&& m.buffer@.len() == m.window_size
    &&& m.index < m.window_size
    &&& m.processed <= m.window_size
}

/// The ring-buffer position `i` steps back from `idx` in a window of `w`.
pub open spec fn ring_index(idx: int, i: int, w: int) -> int {
    if idx - i < 0 {
        w + idx - i
    } else {
        idx - i
    }
}

/// The saturating sum of the `p` most recent ring-buffer entries, folded in
/// the order the implementation visits them.
pub open spec fn ring_sum(buf: Seq<i64>, idx: int, w: int, i: int, p: int, acc: int) -> int
    decreases p - i,
{
    if i >= p {
        acc
    } else {
        ring_sum(buf, idx, w, i + 1, p, fp_add(acc, buf[ring_index(idx, i, w)] as int))
    }
}

/// The quantifier-free body of [`avg_step`].
pub open spec fn avg_core(pre: MovingAverage, post: MovingAverage, x: int, out: int, en: int)
    -> bool
    decreases pre, 0int,
{
    &&& post.window_size == pre.window_size
    &&& param_step(pre.enabled, post.enabled, en)
    &&& if en == 0 || !ma_ok(pre) {
            out == x && post.processed == pre.processed && post.index == pre.index && post.buffer@
                == pre.buffer@
        } else {
            let idx = if pre.index == pre.window_size - 1 {
                0int
            } else {
                pre.index + 1
            };
            let p = if pre.processed < pre.window_size {
                pre.processed + 1
            } else {
                pre.processed as int
            };
            post.index == idx && post.processed == p && post.buffer@ == pre.buffer@.update(
                idx,
                post.buffer@[idx],
            ) && post.buffer@[idx] as int == x && out == div_trunc(
                ring_sum(post.buffer@, idx, pre.window_size as int, 0, p, 0),
                p,
            )
        }
}

/// One moving-average tick: store the input over the oldest slot and emit
/// the mean of the `processed` most recent samples.
pub open spec fn avg_step(pre: MovingAverage, post: MovingAverage, x: int, out: int) -> bool
    decreases pre, 1int,
{
    exists|en: int| #[trigger] wit(en) && avg_core(pre, post, x, out, en)
}

/// The effects of a chain applied in series: the output of each is the
/// input of the next.
pub open spec fn fxs_step(pres: Seq<FxNode>, posts: Seq<FxNode>, x: int, out: int) -> bool
    decreases pres,
{
    if posts.len() != pres.len() {
        false
    } else if pres.len() == 0 {
        out == x
    } else {
        exists|mid: int|
            #[trigger] wit(mid) && fx_step(pres[0], posts[0], x, mid) && fxs_step(
                pres.skip(1),
                posts.skip(1),
                mid,
                out,
            )
    }
}

/// The quantifier-free body of [`fxchain_step`].
pub open spec fn fxchain_core(pre: FxChain, post: FxChain, x: int, out: int, en: int) -> bool
    decreases pre, 0int,
{
    &&& param_step(pre.enabled, post.enabled, en)
    &&& if en == 0 {
        out == x && post.effects@ == pre.effects@
    } else {
        fxs_step(pre.effects@, post.effects@, x, out)
    }
}

/// One effect-chain tick.
pub open spec fn fxchain_step(pre: FxChain, post: FxChain, x: int, out: int) -> bool
    decreases pre, 1int,
{
    exists|en: int| #[trigger] wit(en) && fxchain_core(pre, post, x, out, en)
}

/// One effect tick, whatever the node.
pub open spec fn fx_step(pre: FxNode, post: FxNode, x: int, out: int) -> bool
    decreases pre,
{
    match pre {
        FxNode::Amp(p) => post matches FxNode::Amp(q) && amp_step(p, q, x, out),
        FxNode::Abs(p) => post matches FxNode::Abs(q) && out == fp_abs(x),
        FxNode::Op(p) => post matches FxNode::Op(q) && op_step(p, q, x, out),
        FxNode::Down(p) => post matches FxNode::Down(q) && down_step(p, q, x, out),
        FxNode::First(p) => post matches FxNode::First(q) && first_step(p, q, x, out),
        FxNode::Second(p) => post matches FxNode::Second(q) && second_step(p, q, x, out),
        FxNode::Slide(p) => post matches FxNode::Slide(q) && slide_step(p, q, x, out),
        FxNode::Avg(p) => post matches FxNode::Avg(q) && avg_step(p, q, x, out),
        FxNode::Chain(p) => post matches FxNode::Chain(q) && fxchain_step(p, q, x, out),
    }
}


//==========================================================================
// Witness introduction for the step relations
//==========================================================================

/// Package explicit witnesses into [`param_step`].
proof fn lemma_param_intro(pre: Parameter, post: Parameter, outs: Seq<Option<i64>>, out: int)
    requires
        param_core(pre, post, outs, out),
    ensures
        param_step(pre, post, out),
{
    assert(wit(outs));
}

/// Package explicit witnesses into [`osc_step`].
proof fn lemma_osc_intro(
    pre: Oscillator,
    post: Oscillator,
    k: int,
    out: Option<i64>,
    amp: int,
    freq: int,
    en: int,
)
    requires
        osc_core(pre, post, k, out, amp, freq, en),
    ensures
        osc_step(pre, post, k, out),
{
    assert(wit(amp));
    assert(wit(freq));
    assert(wit(en));
}

/// Package explicit witnesses into [`noise_step`].
proof fn lemma_noise_intro(pre: Noise, post: Noise, k: int, out: Option<i64>, amp: int, en: int)
    requires
        noise_core(pre, post, k, out, amp, en),
    ensures
        noise_step(pre, post, k, out),
{
    assert(wit(amp));
    assert(wit(en));
}

/// Package explicit witnesses into [`adsr_step`].
proof fn lemma_adsr_intro(pre: ADSR, post: ADSR, k: int, out: Option<i64>, en: int)
    requires
        adsr_core(pre, post, k, out, en),
    ensures
        adsr_step(pre, post, k, out),
{
    assert(wit(en));
}

/// Package explicit witnesses into [`chain_step`].
proof fn lemma_chain_intro(
    pre: Chain,
    post: Chain,
    k: int,
    out: Option<i64>,
    en: int,
    mod_out: Option<i64>,
    fx_out: int,
)
    requires
        chain_core(pre, post, k, out, en, mod_out, fx_out),
    ensures
        chain_step(pre, post, k, out),
{
    assert(wit(en));
    assert(wit(mod_out));
    assert(wit(fx_out));
}

/// Package explicit witnesses into [`par_step`].
proof fn lemma_par_intro(
    pre: Parallel,
    post: Parallel,
    k: int,
    out: Option<i64>,
    en: int,
    outs: Seq<Option<i64>>,
)
    requires
        par_core(pre, post, k, out, en, outs),
    ensures
        par_step(pre, post, k, out),
{
    assert(wit(en));
    assert(wit(outs));
}

/// Package explicit witnesses into [`amp_step`].
proof fn lemma_amp_intro(pre: Amplifier, post: Amplifier, x: int, out: int, a: int, en: int)
    requires
        amp_core(pre, post, x, out, a, en),
    ensures
        amp_step(pre, post, x, out),
{
    assert(wit(a));
    assert(wit(en));
}

/// Package explicit witnesses into [`op_step`].
proof fn lemma_op_intro(pre: Operator, post: Operator, x: int, out: int, en: int)
    requires
        op_core(pre, post, x, out, en),
    ensures
        op_step(pre, post, x, out),
{
    assert(wit(en));
}

/// Package explicit witnesses into [`down_step`].
proof fn lemma_down_intro(pre: DownSample, post: DownSample, x: int, out: int, f: int, en: int)
    requires
        down_core(pre, post, x, out, f, en),
    ensures
        down_step(pre, post, x, out),
{
    assert(wit(f));
    assert(wit(en));
}

/// Package explicit witnesses into [`first_step`].
proof fn lemma_first_intro(
    pre: FirstOrderFilter,
    post: FirstOrderFilter,
    x: int,
    out: int,
    co: int,
    en: int,
)
    requires
        first_core(pre, post, x, out, co, en),
    ensures
        first_step(pre, post, x, out),
{
    assert(wit(co));
    assert(wit(en));
}

/// Package explicit witnesses into [`second_step`].
proof fn lemma_second_intro(
    pre: SecondOrderFilter,
    post: SecondOrderFilter,
    x: int,
    out: int,
    co: int,
    cu: int,
    en: int,
)
    requires
        second_core(pre, post, x, out, co, cu, en),
    ensures
        second_step(pre, post, x, out),
{
    assert(wit(co));
    assert(wit(cu));
    assert(wit(en));
}

/// Package explicit witnesses into [`slide_step`].
proof fn lemma_slide_intro(pre: Slide, post: Slide, x: int, out: int, up: int, down: int, en: int)
    requires
        slide_core(pre, post, x, out, up, down, en),
    ensures
        slide_step(pre, post, x, out),
{
    assert(wit(up));
    assert(wit(down));
    assert(wit(en));
}

/// Package explicit witnesses into [`avg_step`].
proof fn lemma_avg_intro(pre: MovingAverage, post: MovingAverage, x: int, out: int, en: int)
    requires
        avg_core(pre, post, x, out, en),
    ensures
        avg_step(pre, post, x, out),
{
    assert(wit(en));
}

/// Package explicit witnesses into [`fxchain_step`].
proof fn lemma_fxchain_intro(pre: FxChain, post: FxChain, x: int, out: int, en: int)
    requires
        fxchain_core(pre, post, x, out, en),
    ensures
        fxchain_step(pre, post, x, out),
{
    assert(wit(en));
}

//==========================================================================
// Executable helpers
//==========================================================================

/// Advance a shared-output counter by one pull with fan-out `k`.
fn bump(idx: usize, k: usize) -> (r: usize)
    ensures
        r as int == bump_spec(idx as int, k as int),
{
    if k <= 1 {
        0
    } else if idx >= k - 1 {
        0
    } else {
        idx + 1
    }
}

/// Appending one output to a fold adds its contribution at the end.
proof fn lemma_souts_push(outs: Seq<Option<i64>>, o: Option<i64>, acc: int)
    ensures
        souts(outs.push(o), acc) == fp_add(souts(outs, acc), val_or_zero(o)),
    decreases outs.len(),
{
    if outs.len() == 0 {
        assert(outs.push(o)[0] == o);
        assert(outs.push(o).skip(1) =~= Seq::<Option<i64>>::empty());
        assert(souts(outs.push(o), acc) == souts(
            Seq::<Option<i64>>::empty(),
            fp_add(acc, val_or_zero(o)),
        ));
        assert(souts(Seq::<Option<i64>>::empty(), fp_add(acc, val_or_zero(o))) == fp_add(
            acc,
            val_or_zero(o),
        ));
    } else {
        assert(outs.push(o)[0] == outs[0]);
        assert(outs.push(o).skip(1) =~= outs.skip(1).push(o));
        lemma_souts_push(outs.skip(1), o, fp_add(acc, val_or_zero(outs[0])));
        assert(souts(outs.push(o), acc) == souts(
            outs.skip(1).push(o),
            fp_add(acc, val_or_zero(outs[0])),
        ));
        assert(souts(outs, acc) == souts(outs.skip(1), fp_add(acc, val_or_zero(outs[0]))));
    }
}

/// Relies on rand::thread_rng: a fresh handle to the thread-local generator.
#[verifier::external_body]
fn fresh_rng() -> rand::rngs::ThreadRng {
    rand::thread_rng()
}

/// Relies on rand::Rng::gen_range: a uniform draw in the half-open range
/// `lo..hi`, which panics only when the range is empty.
#[verifier::external_body]
fn draw_in_range(rng: &mut rand::rngs::ThreadRng, lo: i64, hi: i64) -> (r: i64)
    requires
        lo < hi,
    ensures
        lo <= r < hi,
{
    rand::Rng::gen_range(rng, lo..hi)
}

//==========================================================================
// Parameters
//==========================================================================

impl Parameter {
    /// A parameter with the given baseline and no modulators.
    pub fn new(value: i64) -> (r: Parameter)
        ensures
            r.value == value,
            r.modulators@.len() == 0,
    {
        Parameter { value, modulators: Vec::new() }
    }

    /// Attach one more modulator generator.
    pub fn add_modulator(&mut self, modulator: GenNode)
        ensures
            final(self).value == old(self).value,
            final(self).modulators@ == old(self).modulators@.push(modulator),
    {
        self.modulators.push(modulator);
    }

    /// The effective value: the baseline plus every modulator's output,
    /// each modulator ticked once.
    pub fn real_value(&mut self) -> (r: i64)
        ensures
            param_step(*old(self), *final(self), r as int),
        decreases *old(self),
    {
        let ghost mut outs: Seq<Option<i64>> = Seq::empty();
        let mut value: i64 = self.value;
        let n: usize = self.modulators.len();
        let mut i: usize = 0;
        while i < n
            invariant
                n == self.modulators.len(),
                n == old(self).modulators@.len(),
                self.value == old(self).value,
                i <= n,
                outs.len() == i as int,
                forall|j: int| i <= j < n ==> self.modulators@[j] == old(self).modulators@[j],
                forall|j: int|
                    0 <= j < i ==> gen_step(
                        old(self).modulators@[j],
                        self.modulators@[j],
                        1,
                        #[trigger] outs[j],
                    ),
                value as int == souts(outs, old(self).value as int),
            decreases n - i,
        {
            proof {
                assert(decreases_to!(*old(self) => old(self).modulators));
                assert(decreases_to!(old(self).modulators => old(self).modulators@));
                assert(decreases_to!(old(self).modulators@ => old(self).modulators@[i as int]));
            }
            let r = self.modulators[i].tick(1);
            let v = match r {
                Some(x) => add_s(value, x),
                None => value,
            };
            proof {
                lemma_souts_push(outs, r, old(self).value as int);
                outs = outs.push(r);
            }
            value = v;
            i = i + 1;
        }
        proof {
            assert(gens_step_all(old(self).modulators@, self.modulators@, outs));
            lemma_param_intro(*old(self), *self, outs, value as int);
        }
        value
    }
}

//==========================================================================
// Generators
//==========================================================================

impl Noise {
    /// A noise generator with the given amplitude baseline.
    pub fn new(kind: NoiseKind, amplitude: i64) -> (r: Noise)
        ensures
            r.kind == kind,
            r.amplitude.value == amplitude,
            r.amplitude.modulators@.len() == 0,
            r.enabled.value == FP_ONE,
            r.enabled.modulators@.len() == 0,
            r.multi_hold == 0,
            r.multi_index == 0,
    {
        Noise {
            kind,
            amplitude: Parameter::new(amplitude),
            enabled: Parameter::new(FP_ONE),
            rng: fresh_rng(),
            multi_hold: 0,
            multi_index: 0,
        }
    }

    /// Pull one sample with the given fan-out count.
    pub fn tick(&mut self, nb_connected: usize) -> (r: Option<i64>)
        ensures
            noise_step(*old(self), *final(self), nb_connected as int, r),
        decreases *old(self),
    {
        let amplitude = self.amplitude.real_value();
        let en = self.enabled.real_value();
        if en == 0 {
            proof {
                lemma_noise_intro(*old(self), *self, nb_connected as int, None::<i64>,
                    amplitude as int, en as int);
            }
            return None;
        }
        self.multi_index = bump(self.multi_index, nb_connected);
        if self.multi_index != 0 {
            proof {
                lemma_noise_intro(*old(self), *self, nb_connected as int,
                    Some(old(self).multi_hold), amplitude as int, en as int);
            }
            return Some(self.multi_hold);
        }
        let m = abs_s(amplitude);
        self.multi_hold = if m > 0 {
            draw_in_range(&mut self.rng, -m, m)
        } else {
            0
        };
        proof {
            lemma_noise_intro(*old(self), *self, nb_connected as int, Some(self.multi_hold),
                amplitude as int, en as int);
        }
        Some(self.multi_hold)
    }
}

/// The oscillator cycle length in samples, saturated onto `u64`.
fn osc_cycle_exec(sample_rate: u64, freq: i64) -> (r: u64)
    ensures
        r as int == osc_cycle(sample_rate as int, freq as int),
{
    if freq <= 0 {
        0
    } else {
        proof {
            lemma_mul_upper_bound(sample_rate as int, u64::MAX as int, FP_ONE as int,
                FP_ONE as int);
        }
        let q: u128 = (sample_rate as u128 * (FP_ONE as u128)) / (freq as u128);
        if q > u64::MAX as u128 {
            u64::MAX
        } else {
            q as u64
        }
    }
}

/// The oscillator's raw wave value times the amplitude.
fn osc_wave_exec(kind: WaveKind, step: u64, sample_rate: u64, freq: i64, amp: i64) -> (r: i64)
    ensures
        r as int == osc_wave(kind, step as int, sample_rate as int, freq as int, amp as int),
{
    let n = osc_cycle_exec(sample_rate, freq);
    let w: i64 = match kind {
        WaveKind::Sine => {
            if freq <= 0 || sample_rate == 0 {
                0
            } else {
                let den: u128 = sample_rate as u128 * (FP_ONE as u128);
                proof {
                    lemma_mul_upper_bound(step as int, u64::MAX as int, freq as int,
                        i64::MAX as int);
                    lemma_mul_upper_bound(sample_rate as int, u64::MAX as int, FP_ONE as int,
                        FP_ONE as int);
                    lemma_mod_bound(step as int * freq as int, den as int);
                }
                let num: u128 = ((step as u128) * (freq as u128)) % den;
                sin_turn(num, den)
            }
        },
        WaveKind::Square => {
            if n == 0 {
                0
            } else if step < n / 2 {
                FP_ONE
            } else {
                -FP_ONE
            }
        },
        WaveKind::Saw => {
            if n == 0 {
                0
            } else {
                proof {
                    crate::fixed::lemma_mul_abs_bound(2 * FP_ONE as int, step as int,
                        2 * FP_ONE as int, u64::MAX as int);
                }
                let v: i128 = div_i128(2 * (FP_ONE as i128) * (step as i128), n as i128);
                sat_narrow(v - FP_ONE as i128)
            }
        },
        WaveKind::Triangle => {
            if n == 0 {
                0
            } else if step < n / 2 {
                proof {
                    crate::fixed::lemma_mul_abs_bound(4 * FP_ONE as int, step as int,
                        4 * FP_ONE as int, u64::MAX as int);
                }
                let v: i128 = div_i128(4 * (FP_ONE as i128) * (step as i128), n as i128);
                sat_narrow(v - FP_ONE as i128)
            } else {
                proof {
                    crate::fixed::lemma_mul_abs_bound(4 * FP_ONE as int,
                        n as int - step as int, 4 * FP_ONE as int, u64::MAX as int);
                }
                let v: i128 = div_i128(
                    4 * (FP_ONE as i128) * (n as i128 - step as i128),
                    n as i128,
                );
                sat_narrow(v - FP_ONE as i128)
            }
        },
    };
    mul_s(w, amp)
}

impl Oscillator {
    /// An oscillator with the given shape, frequency and amplitude.
    pub fn new(kind: WaveKind, frequency: i64, amplitude: i64, sample_rate: u64) -> (r: Oscillator)
        ensures
            r.kind == kind,
            r.frequency.value == frequency,
            r.frequency.modulators@.len() == 0,
            r.amplitude.value == amplitude,
            r.amplitude.modulators@.len() == 0,
            r.enabled.value == FP_ONE,
            r.enabled.modulators@.len() == 0,
            r.sample_rate == sample_rate,
            r.step == 0,
            r.multi_hold == 0,
            r.multi_index == 0,
    {
        Oscillator {
            kind,
            frequency: Parameter::new(frequency),
            amplitude: Parameter::new(amplitude),
            enabled: Parameter::new(FP_ONE),
            sample_rate,
            step: 0,
            multi_hold: 0,
            multi_index: 0,
        }
    }

    /// Pull one sample with the given fan-out count.
    pub fn tick(&mut self, nb_connected: usize) -> (r: Option<i64>)
        ensures
            osc_step(*old(self), *final(self), nb_connected as int, r),
        decreases *old(self),
    {
        let amplitude = self.amplitude.real_value();
        let frequency = self.frequency.real_value();
        let en = self.enabled.real_value();
        if en == 0 {
            proof {
                lemma_osc_intro(*old(self), *self, nb_connected as int, None::<i64>,
                    amplitude as int, frequency as int, en as int);
            }
            return None;
        }
        self.multi_index = bump(self.multi_index, nb_connected);
        if self.multi_index != 0 {
            proof {
                lemma_osc_intro(*old(self), *self, nb_connected as int,
                    Some(old(self).multi_hold), amplitude as int, frequency as int, en as int);
            }
            return Some(self.multi_hold);
        }
        self.multi_hold = osc_wave_exec(self.kind, self.step, self.sample_rate, frequency,
            amplitude);
        let n = osc_cycle_exec(self.sample_rate, frequency);
        self.step = if n == 0 {
            0
        } else if self.step >= n - 1 {
            0
        } else {
            self.step + 1
        };
        proof {
            lemma_osc_intro(*old(self), *self, nb_connected as int, Some(self.multi_hold),
                amplitude as int, frequency as int, en as int);
        }
        Some(self.multi_hold)
    }
}

/// The number of samples in `ms` milliseconds, rounded to nearest.
fn ms_samples_exec(ms: u64, sample_rate: u64) -> (r: u64)
    ensures
        r as int == ms_samples(ms as int, sample_rate as int),
{
    proof {
        lemma_mul_upper_bound(ms as int, u64::MAX as int, sample_rate as int, u64::MAX as int);
    }
    let q: u128 = (ms as u128 * sample_rate as u128 + 500) / 1000;
    if q > u64::MAX as u128 {
        u64::MAX
    } else {
        q as u64
    }
}

/// The clamped Q48 ratio `step / n`.
fn adsr_ratio_exec(step: u64, n: u64) -> (r: i64)
    ensures
        r as int == adsr_ratio(step as int, n as int),
{
    if n == 0 || step >= n {
        FP_ONE
    } else {
        proof {
            crate::math::lemma_div_trunc_shrinks(
                step as int * FP_ONE as int,
                n as int,
                FP_ONE as int,
            );
        }
        proof {
            lemma_mul_upper_bound(step as int, u64::MAX as int, FP_ONE as int, FP_ONE as int);
        }
        let v: i128 = div_i128((step as i128) * (FP_ONE as i128), n as i128);
        v as i64
    }
}

impl ADSR {
    /// An envelope with the given millisecond phase lengths, curve
    /// exponents and levels, starting in the off state.
    pub fn new(
        attack: u64,
        attack_curve: i64,
        peak: i64,
        decay: u64,
        decay_curve: i64,
        sustain: i64,
        release: u64,
        release_curve: i64,
        sample_rate: u64,
    ) -> (r: ADSR)
        ensures
            r.state is Off,
            r.enabled.value == FP_ONE,
            r.enabled.modulators@.len() == 0,
            r.attack == attack,
            r.attack_curve == attack_curve,
            r.peak == peak,
            r.decay == decay,
            r.decay_curve == decay_curve,
            r.sustain == sustain,
            r.release == release,
            r.release_curve == release_curve,
            r.sample_rate == sample_rate,
            r.multi_hold == 0,
            r.multi_index == 0,
    {
        ADSR {
            state: ADSRState::Off,
            enabled: Parameter::new(FP_ONE),
            attack,
            attack_curve,
            peak,
            decay,
            decay_curve,
            sustain,
            release,
            release_curve,
            sample_rate,
            multi_hold: 0,
            multi_index: 0,
        }
    }

    /// Pull one sample with the given fan-out count.
    pub fn tick(&mut self, nb_connected: usize) -> (r: Option<i64>)
        ensures
            adsr_step(*old(self), *final(self), nb_connected as int, r),
        decreases *old(self),
    {
        let en = self.enabled.real_value();
        if en == 0 {
            proof {
                lemma_adsr_intro(*old(self), *self, nb_connected as int, None::<i64>, en as int);
            }
            return None;
        }
        self.multi_index = bump(self.multi_index, nb_connected);
        if self.multi_index != 0 {
            proof {
                lemma_adsr_intro(*old(self), *self, nb_connected as int,
                    Some(old(self).multi_hold), en as int);
            }
            return Some(self.multi_hold);
        }
        let level: i64 = match self.state {
            ADSRState::Attack(st) => {
                let n = ms_samples_exec(self.attack, self.sample_rate);
                let v = mul_s(self.peak, pow_q48(adsr_ratio_exec(st, n), self.attack_curve));
                self.state = if st >= n {
                    ADSRState::Decay(0)
                } else {
                    ADSRState::Attack(st + 1)
                };
                v
            },
            ADSRState::Decay(st) => {
                let n = ms_samples_exec(self.decay, self.sample_rate);
                let v = sub_s(
                    self.peak,
                    mul_s(
                        sub_s(self.peak, self.sustain),
                        pow_q48(adsr_ratio_exec(st, n), self.decay_curve),
                    ),
                );
                self.state = if st >= n {
                    ADSRState::Sustain
                } else {
                    ADSRState::Decay(st + 1)
                };
                v
            },
            ADSRState::Sustain => self.sustain,
            ADSRState::Release(st) => {
                let n = ms_samples_exec(self.release, self.sample_rate);
                let v = sub_s(
                    self.sustain,
                    mul_s(self.sustain, pow_q48(adsr_ratio_exec(st, n), self.release_curve)),
                );
                self.state = if st >= n {
                    ADSRState::Off
                } else {
                    ADSRState::Release(st + 1)
                };
                v
            },
            ADSRState::Off => 0,
        };
        self.multi_hold = level;
        proof {
            lemma_adsr_intro(*old(self), *self, nb_connected as int, Some(self.multi_hold),
                en as int);
        }
        Some(self.multi_hold)
    }
}

impl Chain {
    /// Wrap a generator together with an initially empty effect chain.
    pub fn new(module: GenNode) -> (r: Chain)
        ensures
            *r.module == module,
            r.fx_chain.effects@.len() == 0,
            r.fx_chain.enabled.value == FP_ONE,
            r.fx_chain.enabled.modulators@.len() == 0,
            r.enabled.value == FP_ONE,
            r.enabled.modulators@.len() == 0,
            r.multi_hold == 0,
            r.multi_index == 0,
    {
        Chain {
            module: Box::new(module),
            fx_chain: FxChain::new(),
            enabled: Parameter::new(FP_ONE),
            multi_hold: 0,
            multi_index: 0,
        }
    }

    /// Pull one sample with the given fan-out count.
    pub fn tick(&mut self, nb_connected: usize) -> (r: Option<i64>)
        ensures
            chain_step(*old(self), *final(self), nb_connected as int, r),
        decreases *old(self),
    {
        let en = self.enabled.real_value();
        if en == 0 {
            proof {
                lemma_chain_intro(*old(self), *self, nb_connected as int, None::<i64>, en as int,
                    None::<i64>, 0);
            }
            return None;
        }
        self.multi_index = bump(self.multi_index, nb_connected);
        if self.multi_index != 0 {
            proof {
                lemma_chain_intro(*old(self), *self, nb_connected as int,
                    Some(old(self).multi_hold), en as int, None::<i64>, 0);
            }
            return Some(self.multi_hold);
        }
        let inner = self.module.tick(1);
        match inner {
            None => {
                proof {
                    lemma_chain_intro(*old(self), *self, nb_connected as int, None::<i64>,
                        en as int, None::<i64>, 0);
                }
                None
            },
            Some(sample) => {
                let out = self.fx_chain.tick(sample);
                self.multi_hold = out;
                proof {
                    lemma_chain_intro(*old(self), *self, nb_connected as int,
                        Some(self.multi_hold), en as int, Some(sample), out as int);
                }
                Some(self.multi_hold)
            },
        }
    }
}

impl Parallel {
    /// An empty parallel mix.
    pub fn new() -> (r: Parallel)
        ensures
            r.modules@.len() == 0,
            r.enabled.value == FP_ONE,
            r.enabled.modulators@.len() == 0,
            r.multi_hold == 0,
            r.multi_index == 0,
    {
        Parallel {
            modules: Vec::new(),
            enabled: Parameter::new(FP_ONE),
            multi_hold: 0,
            multi_index: 0,
        }
    }

    /// Add one generator to the mix.
    pub fn add(&mut self, module: GenNode)
        ensures
            final(self).modules@ == old(self).modules@.push(module),
            final(self).enabled == old(self).enabled,
            final(self).multi_hold == old(self).multi_hold,
            final(self).multi_index == old(self).multi_index,
    {
        self.modules.push(module);
    }

    /// Pull one sample with the given fan-out count.
    pub fn tick(&mut self, nb_connected: usize) -> (r: Option<i64>)
        ensures
            par_step(*old(self), *final(self), nb_connected as int, r),
        decreases *old(self),
    {
        let en = self.enabled.real_value();
        if en == 0 {
            proof {
                lemma_par_intro(*old(self), *self, nb_connected as int, None::<i64>, en as int,
                    Seq::empty());
            }
            return None;
        }
        self.multi_index = bump(self.multi_index, nb_connected);
        if self.multi_index != 0 {
            proof {
                lemma_par_intro(*old(self), *self, nb_connected as int,
                    Some(old(self).multi_hold), en as int, Seq::empty());
            }
            return Some(self.multi_hold);
        }
        let ghost snap = *self;
        let ghost mut outs: Seq<Option<i64>> = Seq::empty();
        let mut acc: i64 = 0;
        let n: usize = self.modules.len();
        let mut i: usize = 0;
        while i < n
            invariant
                n == self.modules.len(),
                n == old(self).modules@.len(),
                self.enabled == snap.enabled,
                self.multi_index == snap.multi_index,
                self.multi_hold == snap.multi_hold,
                i <= n,
                outs.len() == i as int,
                forall|j: int| i <= j < n ==> self.modules@[j] == old(self).modules@[j],
                forall|j: int|
                    0 <= j < i ==> gen_step(
                        old(self).modules@[j],
                        self.modules@[j],
                        1,
                        #[trigger] outs[j],
                    ),
                acc as int == souts(outs, 0),
            decreases n - i,
        {
            proof {
                assert(decreases_to!(*old(self) => old(self).modules));
                assert(decreases_to!(old(self).modules => old(self).modules@));
                assert(decreases_to!(old(self).modules@ => old(self).modules@[i as int]));
            }
            let r = self.modules[i].tick(1);
            let v = match r {
                Some(x) => add_s(acc, x),
                None => acc,
            };
            proof {
                lemma_souts_push(outs, r, 0);
                outs = outs.push(r);
            }
            acc = v;
            i = i + 1;
        }
        self.multi_hold = acc;
        proof {
            assert(gens_step_all(old(self).modules@, self.modules@, outs));
            lemma_par_intro(*old(self), *self, nb_connected as int, Some(self.multi_hold),
                en as int, outs);
        }
        Some(self.multi_hold)
    }
}

impl GenNode {
    /// Pull one sample from whatever generator this node holds.
    pub fn tick(&mut self, nb_connected: usize) -> (r: Option<i64>)
        ensures
            gen_step(*old(self), *final(self), nb_connected as int, r),
        decreases *old(self),
    {
        match self {
            GenNode::Osc(o) => o.tick(nb_connected),
            GenNode::Noise(g) => g.tick(nb_connected),
            GenNode::Env(e) => e.tick(nb_connected),
            GenNode::Chain(c) => c.tick(nb_connected),
            GenNode::Par(p) => p.tick(nb_connected),
        }
    }
}

//==========================================================================
// Effects
//==========================================================================

impl Amplifier {
    /// An amplifier with the given gain baseline.
    pub fn new(amplitude: i64) -> (r: Amplifier)
        ensures
            r.amplitude.value == amplitude,
            r.amplitude.modulators@.len() == 0,
            r.enabled.value == FP_ONE,
            r.enabled.modulators@.len() == 0,
    {
        Amplifier { amplitude: Parameter::new(amplitude), enabled: Parameter::new(FP_ONE) }
    }

    /// Scale one sample by the effective gain.
    pub fn tick(&mut self, sample: i64) -> (r: i64)
        ensures
            amp_step(*old(self), *final(self), sample as int, r as int),
        decreases *old(self),
    {
        let amplitude = self.amplitude.real_value();
        let en = self.enabled.real_value();
        if en == 0 {
            proof {
                lemma_amp_intro(*old(self), *self, sample as int, sample as int, amplitude as int,
                    en as int);
            }
            return sample;
        }
        let r = mul_s(amplitude, sample);
        proof {
            lemma_amp_intro(*old(self), *self, sample as int, r as int, amplitude as int,
                en as int);
        }
        r
    }
}

impl Absolute {
    /// The absolute-value effect.
    pub fn new() -> (r: Absolute)
        ensures
            r == (Absolute {  }),
    {
        Absolute {  }
    }

    /// The magnitude of one sample.
    pub fn tick(&mut self, sample: i64) -> (r: i64)
        ensures
            r as int == fp_abs(sample as int),
    {
        abs_s(sample)
    }
}

/// Apply a pointwise operator map to one sample.
fn op_apply_exec(op: &OpKind, sample: i64) -> (r: i64)
    ensures
        r as int == op_apply(*op, sample as int),
{
    match op {
        OpKind::Abs => abs_s(sample),
        OpKind::Threshold(t) => if sample > *t {
            FP_ONE
        } else {
            0
        },
        OpKind::Clip(lo, hi) => if sample < *lo {
            *lo
        } else if sample > *hi {
            *hi
        } else {
            sample
        },
        OpKind::MulAdd(a, b) => add_s(mul_s(*a, sample), *b),
    }
}

impl Operator {
    /// An operator effect applying the given pointwise map.
    pub fn new(op: OpKind) -> (r: Operator)
        ensures
            r.op == op,
            r.enabled.value == FP_ONE,
            r.enabled.modulators@.len() == 0,
    {
        Operator { op, enabled: Parameter::new(FP_ONE) }
    }

    /// Apply the map to one sample.
    pub fn tick(&mut self, sample: i64) -> (r: i64)
        ensures
            op_step(*old(self), *final(self), sample as int, r as int),
        decreases *old(self),
    {
        let en = self.enabled.real_value();
        if en == 0 {
            proof {
                lemma_op_intro(*old(self), *self, sample as int, sample as int, en as int);
            }
            return sample;
        }
        let r = op_apply_exec(&self.op, sample);
        proof {
            lemma_op_intro(*old(self), *self, sample as int, r as int, en as int);
        }
        r
    }
}

impl DownSample {
    /// A down-sampler latching every `factor`-th input.
    pub fn new(factor: u8) -> (r: DownSample)
        ensures
            r.hold == 0,
            r.step == 0,
            r.factor.value == factor as int * FP_ONE,
            r.factor.modulators@.len() == 0,
            r.enabled.value == FP_ONE,
            r.enabled.modulators@.len() == 0,
    {
        DownSample {
            hold: 0,
            step: 0,
            factor: Parameter::new(factor as i64 * FP_ONE),
            enabled: Parameter::new(FP_ONE),
        }
    }

    /// Latch or replay one sample.
    pub fn tick(&mut self, sample: i64) -> (r: i64)
        ensures
            down_step(*old(self), *final(self), sample as int, r as int),
        decreases *old(self),
    {
        let factor = self.factor.real_value();
        let en = self.enabled.real_value();
        if en == 0 {
            proof {
                lemma_down_intro(*old(self), *self, sample as int, sample as int, factor as int,
                    en as int);
            }
            return sample;
        }
        let f: u64 = if factor <= 0 {
            0
        } else {
            (factor / FP_ONE) as u64
        };
        let ff: u64 = if f == 0 {
            1
        } else {
            f
        };
        if self.step % ff == 0 {
            self.hold = sample;
            self.step = 0;
        }
        self.step = if self.step == u64::MAX {
            0
        } else {
            self.step + 1
        };
        proof {
            lemma_down_intro(*old(self), *self, sample as int, self.hold as int, factor as int,
                en as int);
        }
        self.hold
    }
}

/// The first-order all-pass coefficient for a cut-off at a sample rate.
fn foc_coefficient_exec(cut_off: i64, sample_rate: u64) -> (r: i64)
    ensures
        r as int == foc_coefficient(cut_off as int, sample_rate as int),
{
    if sample_rate == 0 {
        0
    } else {
        proof {
            lemma_mul_upper_bound(2 * sample_rate as int, 2 * u64::MAX as int, FP_ONE as int,
                FP_ONE as int);
        }
        let den: i128 = 2 * (sample_rate as i128) * (FP_ONE as i128);
        let num: i128 = mod_euclid(cut_off as i128, den);
        let sv = sin_turn(num as u128, den as u128);
        let cv = cos_turn(num as u128, den as u128);
        let t = div_s(sv, cv);
        div_s(sub_s(t, FP_ONE), add_s(t, FP_ONE))
    }
}

impl FirstOrderFilter {
    /// A first-order filter; the stale `old_cut_off` forces a coefficient
    /// computation on the first active tick.
    pub fn new(kind: FirstOrderFilterKind, cut_off: i64, sample_rate: u64) -> (r: FirstOrderFilter)
        ensures
            r.kind == kind,
            r.cut_off.value == cut_off,
            r.cut_off.modulators@.len() == 0,
            r.enabled.value == FP_ONE,
            r.enabled.modulators@.len() == 0,
            r.old_cut_off as int == sat64(cut_off + 1),
            r.coefficient == 0,
            r.buffer == 0,
            r.sample_rate == sample_rate,
    {
        FirstOrderFilter {
            kind,
            cut_off: Parameter::new(cut_off),
            enabled: Parameter::new(FP_ONE),
            old_cut_off: add_s(cut_off, 1),
            coefficient: 0,
            buffer: 0,
            sample_rate,
        }
    }

    /// Filter one sample.
    pub fn tick(&mut self, sample: i64) -> (r: i64)
        ensures
            first_step(*old(self), *final(self), sample as int, r as int),
        decreases *old(self),
    {
        let cut_off = self.cut_off.real_value();
        let en = self.enabled.real_value();
        if en == 0 {
            proof {
                lemma_first_intro(*old(self), *self, sample as int, sample as int, cut_off as int,
                    en as int);
            }
            return sample;
        }
        if cut_off != self.old_cut_off {
            self.old_cut_off = cut_off;
            self.coefficient = foc_coefficient_exec(cut_off, self.sample_rate);
        } else {
            self.old_cut_off = cut_off;
        }
        let ap = add_s(mul_s(self.coefficient, sample), self.buffer);
        self.buffer = sub_s(sample, mul_s(self.coefficient, ap));
        let r = match self.kind {
            FirstOrderFilterKind::AllPass => ap,
            FirstOrderFilterKind::HighPass => sub_s(sample, ap) / 2,
            FirstOrderFilterKind::LowPass => add_s(sample, ap) / 2,
        };
        proof {
            lemma_first_intro(*old(self), *self, sample as int, r as int, cut_off as int,
                en as int);
        }
        r
    }
}

/// The second-order section's frequency coefficient.
fn soc_d_exec(cut_off: i64, sample_rate: u64) -> (r: i64)
    ensures
        r as int == soc_d(cut_off as int, sample_rate as int),
{
    if sample_rate == 0 {
        0
    } else {
        proof {
            lemma_mul_upper_bound(sample_rate as int, u64::MAX as int, FP_ONE as int,
                FP_ONE as int);
        }
        let den: i128 = (sample_rate as i128) * (FP_ONE as i128);
        let num: i128 = mod_euclid(cut_off as i128, den);
        let cv = cos_turn(num as u128, den as u128);
        -cv
    }
}

/// The second-order section's bandwidth coefficient.
fn soc_c_exec(curve: i64) -> (r: i64)
    ensures
        r as int == soc_c(curve as int),
{
    let den: i128 = 2 * (FP_ONE as i128);
    let num: i128 = mod_euclid(curve as i128, den);
    let sv = sin_turn(num as u128, den as u128);
    let cv = cos_turn(num as u128, den as u128);
    let t = div_s(sv, cv);
    div_s(sub_s(t, FP_ONE), add_s(t, FP_ONE))
}

impl SecondOrderFilter {
    /// A second-order filter; both stale `old_*` fields force coefficient
    /// computations on the first active tick.
    pub fn new(
        kind: SecondOrderFilterKind,
        cut_off: i64,
        curve: i64,
        sample_rate: u64,
    ) -> (r: SecondOrderFilter)
        ensures
            r.kind == kind,
            r.cut_off.value == cut_off,
            r.cut_off.modulators@.len() == 0,
            r.curve.value == curve,
            r.curve.modulators@.len() == 0,
            r.enabled.value == FP_ONE,
            r.enabled.modulators@.len() == 0,
            r.old_cut_off as int == sat64(cut_off + 1),
            r.old_curve as int == sat64(curve + 1),
            r.d == 0,
            r.c == 0,
            r.buffer0 == 0,
            r.buffer1 == 0,
            r.sample_rate == sample_rate,
    {
        SecondOrderFilter {
            kind,
            cut_off: Parameter::new(cut_off),
            curve: Parameter::new(curve),
            enabled: Parameter::new(FP_ONE),
            old_cut_off: add_s(cut_off, 1),
            old_curve: add_s(curve, 1),
            d: 0,
            c: 0,
            buffer0: 0,
            buffer1: 0,
            sample_rate,
        }
    }

    /// Filter one sample.
    pub fn tick(&mut self, sample: i64) -> (r: i64)
        ensures
            second_step(*old(self), *final(self), sample as int, r as int),
        decreases *old(self),
    {
        let cut_off = self.cut_off.real_value();
        let curve = self.curve.real_value();
        let en = self.enabled.real_value();
        if en == 0 {
            proof {
                lemma_second_intro(*old(self), *self, sample as int, sample as int, cut_off as int,
                    curve as int, en as int);
            }
            return sample;
        }
        if cut_off != self.old_cut_off {
            self.old_cut_off = cut_off;
            self.d = soc_d_exec(cut_off, self.sample_rate);
        } else {
            self.old_cut_off = cut_off;
        }
        if curve != self.old_curve {
            self.old_curve = curve;
            self.c = soc_c_exec(curve);
        } else {
            self.old_curve = curve;
        }
        let dc = mul_s(self.d, sub_s(FP_ONE, self.c));
        let v = add_s(sub_s(sample, mul_s(dc, self.buffer0)), mul_s(self.c, self.buffer1));
        let ap = add_s(sub_s(mul_s(dc, self.buffer0), mul_s(self.c, v)), self.buffer1);
        self.buffer1 = self.buffer0;
        self.buffer0 = v;
        let r = match self.kind {
            SecondOrderFilterKind::AllPass => ap,
            SecondOrderFilterKind::BandPass => sub_s(sample, ap) / 2,
            SecondOrderFilterKind::BandStop => add_s(sample, ap) / 2,
        };
        proof {
            lemma_second_intro(*old(self), *self, sample as int, r as int, cut_off as int,
                curve as int, en as int);
        }
        r
    }
}

impl Slide {
    /// A slide with the given upward and downward time constants.
    pub fn new(slide_up: i64, slide_down: i64) -> (r: Slide)
        ensures
            r.slide_up.value == slide_up,
            r.slide_up.modulators@.len() == 0,
            r.slide_down.value == slide_down,
            r.slide_down.modulators@.len() == 0,
            r.enabled.value == FP_ONE,
            r.enabled.modulators@.len() == 0,
            r.buffer == 0,
    {
        Slide {
            slide_up: Parameter::new(slide_up),
            slide_down: Parameter::new(slide_down),
            enabled: Parameter::new(FP_ONE),
            buffer: 0,
        }
    }

    /// Lag one sample toward the input.
    pub fn tick(&mut self, sample: i64) -> (r: i64)
        ensures
            slide_step(*old(self), *final(self), sample as int, r as int),
        decreases *old(self),
    {
        let up = self.slide_up.real_value();
        let down = self.slide_down.real_value();
        let en = self.enabled.real_value();
        if en == 0 {
            proof {
                lemma_slide_intro(*old(self), *self, sample as int, sample as int, up as int,
                    down as int, en as int);
            }
            return sample;
        }
        let delta = sub_s(sample, self.buffer);
        let slide = if delta > 0 {
            up
        } else {
            down
        };
        self.buffer = add_s(self.buffer, div_s(delta, slide));
        proof {
            lemma_slide_intro(*old(self), *self, sample as int, self.buffer as int, up as int,
                down as int, en as int);
        }
        self.buffer
    }
}

/// The ring-buffer position `i` steps back from `idx`, computed without
/// overflow.
fn ring_index_exec(idx: usize, i: usize, w: usize) -> (r: usize)
    requires
        idx < w,
        i <= w,
    ensures
        r as int == ring_index(idx as int, i as int, w as int),
        r < w,
{
    if i > idx {
        w - (i - idx)
    } else {
        idx - i
    }
}

impl MovingAverage {
    /// A moving average over a window of the given size.
    pub fn new(window_size: usize) -> (r: MovingAverage)
        requires
            window_size >= 1,
        ensures
            r.window_size == window_size,
            r.processed == 0,
            r.index == 0,
            r.buffer@.len() == window_size,
            forall|j: int| 0 <= j < window_size ==> r.buffer@[j] == 0,
            r.enabled.value == FP_ONE,
            r.enabled.modulators@.len() == 0,
            ma_ok(r),
    {
        let mut buffer: Vec<i64> = Vec::new();
        let mut j: usize = 0;
        while j < window_size
            invariant
                j <= window_size,
                buffer@.len() == j,
                forall|t: int| 0 <= t < j ==> buffer@[t] == 0,
            decreases window_size - j,
        {
            buffer.push(0);
            j = j + 1;
        }
        MovingAverage {
            window_size,
            processed: 0,
            index: 0,
            buffer,
            enabled: Parameter::new(FP_ONE),
        }
    }

    /// Resize the window, keeping as many of the most recent samples as
    /// fit: after the call the newest kept sample sits just below the write
    /// index, the processed count is truncated to what was kept, and the
    /// remaining slots are zero.  An inconsistent ring is reset to a fresh
    /// zero state of the new size.
    pub fn set_window_size(&mut self, window_size: usize)
        requires
            window_size >= 1,
        ensures
            final(self).window_size == window_size,
            final(self).enabled == old(self).enabled,
            ma_ok(*final(self)),
            ({
                let kept = if ma_ok(*old(self)) {
                    if old(self).processed < window_size {
                        old(self).processed as int
                    } else {
                        window_size as int
                    }
                } else {
                    0
                };
                &&& final(self).processed == kept
                &&& final(self).index == (if kept == 0 {
                    0int
                } else {
                    kept - 1
                })
                &&& final(self).buffer@.len() == window_size
                &&& forall|i: int|
                    0 <= i < kept ==> final(self).buffer@[#[trigger] (kept - 1 - i)] == old(
                        self,
                    ).buffer@[ring_index(old(self).index as int, i, old(self).window_size as int)]
                &&& forall|j: int| kept <= j < window_size ==> final(self).buffer@[j] == 0
            }),
    {
        let consistent = self.window_size >= 1 && self.buffer.len() == self.window_size
            && self.index < self.window_size && self.processed <= self.window_size;
        let kept: usize = if consistent {
            if self.processed < window_size {
                self.processed
            } else {
                window_size
            }
        } else {
            0
        };
        let mut new_buffer: Vec<i64> = Vec::new();
        let mut j: usize = 0;
        while j < window_size
            invariant
                j <= window_size,
                new_buffer@.len() == j,
                forall|t: int| 0 <= t < j ==> new_buffer@[t] == 0,
            decreases window_size - j,
        {
            new_buffer.push(0);
            j = j + 1;
        }
        let mut i: usize = 0;
        while i < kept
            invariant
                i <= kept,
                kept <= window_size,
                kept > 0 ==> kept <= self.processed <= self.window_size,
                kept > 0 ==> ma_ok(*self),
                *self == *old(self),
                new_buffer@.len() == window_size,
                forall|t: int|
                    0 <= t < i ==> new_buffer@[#[trigger] (kept - 1 - t)] == self.buffer@[
                        ring_index(self.index as int, t, self.window_size as int)],
                forall|t: int| kept <= t < window_size ==> new_buffer@[t] == 0,
                forall|t: int| i <= t < kept ==> new_buffer@[#[trigger] (kept - 1 - t)] == 0,
            decreases kept - i,
        {
            let src = ring_index_exec(self.index, i, self.window_size);
            new_buffer[kept - 1 - i] = self.buffer[src];
            i = i + 1;
        }
        self.window_size = window_size;
        self.buffer = new_buffer;
        self.processed = kept;
        self.index = if kept == 0 {
            0
        } else {
            kept - 1
        };
    }

    /// Store one sample and emit the mean of the most recent ones.
    pub fn tick(&mut self, sample: i64) -> (r: i64)
        ensures
            avg_step(*old(self), *final(self), sample as int, r as int),
        decreases *old(self),
    {
        let en = self.enabled.real_value();
        let consistent = self.window_size >= 1 && self.buffer.len() == self.window_size
            && self.index < self.window_size && self.processed <= self.window_size;
        if en == 0 || !consistent {
            proof {
                lemma_avg_intro(*old(self), *self, sample as int, sample as int, en as int);
            }
            return sample;
        }
        let idx: usize = if self.index == self.window_size - 1 {
            0
        } else {
            self.index + 1
        };
        self.index = idx;
        self.buffer[idx] = sample;
        if self.processed < self.window_size {
            self.processed = self.processed + 1;
        }
        let p = self.processed;
        let w = self.window_size;
        let ghost snap = *self;
        let mut sum: i64 = 0;
        let mut i: usize = 0;
        while i < p
            invariant
                i <= p,
                *self == snap,
                p == self.processed,
                w == self.window_size,
                ma_ok(*self),
                idx == self.index,
                1 <= p <= w,
                ring_sum(self.buffer@, idx as int, w as int, 0, p as int, 0) == ring_sum(
                    self.buffer@,
                    idx as int,
                    w as int,
                    i as int,
                    p as int,
                    sum as int,
                ),
            decreases p - i,
        {
            let ri = ring_index_exec(idx, i, w);
            sum = add_s(sum, self.buffer[ri]);
            i = i + 1;
        }
        proof {
            assert(ring_sum(self.buffer@, idx as int, w as int, 0, p as int, 0) == sum as int);
            crate::fixed::lemma_div_trunc_bounds(sum as int, p as int);
        }
        let out: i128 = div_i128(sum as i128, p as i128);
        proof {
            lemma_avg_intro(*old(self), *self, sample as int, out as int, en as int);
        }
        out as i64
    }
}

//==========================================================================
// Effect chains
//==========================================================================

/// Chaining indexed per-effect steps through intermediate samples yields
/// the fold relation of the whole chain.
proof fn lemma_fxs_chain(pres: Seq<FxNode>, posts: Seq<FxNode>, mids: Seq<int>)
    requires
        posts.len() == pres.len(),
        mids.len() == pres.len() + 1,
        forall|j: int|
            0 <= j < pres.len() ==> fx_step(pres[j], posts[j], #[trigger] mids[j], mids[j + 1]),
    ensures
        fxs_step(pres, posts, mids[0], mids[pres.len() as int]),
    decreases pres.len(),
{
    if pres.len() != 0 {
        assert forall|j: int| 0 <= j < pres.skip(1).len() implies fx_step(
            pres.skip(1)[j],
            posts.skip(1)[j],
            #[trigger] mids.skip(1)[j],
            mids.skip(1)[j + 1],
        ) by {
            assert(pres.skip(1)[j] == pres[j + 1]);
            assert(posts.skip(1)[j] == posts[j + 1]);
            assert(mids.skip(1)[j] == mids[j + 1]);
            assert(mids.skip(1)[j + 1] == mids[j + 2]);
            assert(fx_step(pres[j + 1], posts[j + 1], mids[j + 1], mids[j + 2]));
        }
        lemma_fxs_chain(pres.skip(1), posts.skip(1), mids.skip(1));
        assert(mids.skip(1)[0] == mids[1]);
        assert(mids.skip(1)[(pres.len() - 1) as int] == mids[pres.len() as int]);
        assert(fx_step(pres[0], posts[0], mids[0], mids[1]));
        assert(fxs_step(pres.skip(1), posts.skip(1), mids[1], mids[pres.len() as int]));
        assert(wit(mids[1]));
        assert(exists|mid: int|
            #[trigger] wit(mid) && fx_step(pres[0], posts[0], mids[0], mid) && fxs_step(
                pres.skip(1),
                posts.skip(1),
                mid,
                mids[pres.len() as int],
            ));
    }
}

impl FxChain {
    /// An empty effect chain.
    pub fn new() -> (r: FxChain)
        ensures
            r.effects@.len() == 0,
            r.enabled.value == FP_ONE,
            r.enabled.modulators@.len() == 0,
    {
        FxChain { effects: Vec::new(), enabled: Parameter::new(FP_ONE) }
    }

    /// Put an effect at the front of the chain.
    pub fn insert(&mut self, effect: FxNode)
        ensures
            final(self).effects@ == seq![effect].add(old(self).effects@),
            final(self).enabled == old(self).enabled,
    {
        self.effects.insert(0, effect);
    }

    /// Put an effect at the back of the chain.
    pub fn append(&mut self, effect: FxNode)
        ensures
            final(self).effects@ == old(self).effects@.push(effect),
            final(self).enabled == old(self).enabled,
    {
        self.effects.push(effect);
    }

    /// Run one sample through every effect in order.
    pub fn tick(&mut self, sample: i64) -> (r: i64)
        ensures
            fxchain_step(*old(self), *final(self), sample as int, r as int),
        decreases *old(self),
    {
        let en = self.enabled.real_value();
        if en == 0 {
            proof {
                lemma_fxchain_intro(*old(self), *self, sample as int, sample as int, en as int);
            }
            return sample;
        }
        let ghost snap = *self;
        let ghost mut mids: Seq<int> = seq![sample as int];
        let mut cur: i64 = sample;
        let n: usize = self.effects.len();
        let mut i: usize = 0;
        while i < n
            invariant
                n == self.effects.len(),
                n == old(self).effects@.len(),
                self.enabled == snap.enabled,
                i <= n,
                mids.len() == i + 1,
                mids[0] == sample as int,
                cur as int == mids[i as int],
                forall|j: int| i <= j < n ==> self.effects@[j] == old(self).effects@[j],
                forall|j: int|
                    0 <= j < i ==> fx_step(
                        old(self).effects@[j],
                        self.effects@[j],
                        #[trigger] mids[j],
                        mids[j + 1],
                    ),
            decreases n - i,
        {
            proof {
                assert(decreases_to!(*old(self) => old(self).effects));
                assert(decreases_to!(old(self).effects => old(self).effects@));
                assert(decreases_to!(old(self).effects@ => old(self).effects@[i as int]));
            }
            let next = self.effects[i].tick(cur);
            proof {
                mids = mids.push(next as int);
            }
            cur = next;
            i = i + 1;
        }
        proof {
            lemma_fxs_chain(old(self).effects@, self.effects@, mids);
            lemma_fxchain_intro(*old(self), *self, sample as int, cur as int, en as int);
        }
        cur
    }
}

impl FxNode {
    /// Run one sample through whatever effect this node holds.
    pub fn tick(&mut self, sample: i64) -> (r: i64)
        ensures
            fx_step(*old(self), *final(self), sample as int, r as int),
        decreases *old(self),
    {
        match self {
            FxNode::Amp(a) => a.tick(sample),
            FxNode::Abs(a) => a.tick(sample),
            FxNode::Op(o) => o.tick(sample),
            FxNode::Down(d) => d.tick(sample),
            FxNode::First(f) => f.tick(sample),
            FxNode::Second(f) => f.tick(sample),
            FxNode::Slide(sl) => sl.tick(sample),
            FxNode::Avg(m) => m.tick(sample),
            FxNode::Chain(c) => c.tick(sample),
        }
    }
}

//==========================================================================
// Construction facade
//==========================================================================

/// Mix a stereo pair down to one mono sample: half of each channel.
pub fn stereo_to_mono(left: i64, right: i64) -> (r: i64)
    ensures
        r as int == fp_add(half(left as int), half(right as int)),
{
    add_s(left / 2, right / 2)
}

/// A construction facade keyed by the shared sample rate.
pub struct DSPBuilder {
    pub sample_rate: u64,
}

impl DSPBuilder {
    /// A builder whose nodes run at the given sample rate.
    pub fn new(sample_rate: u64) -> (r: DSPBuilder)
        ensures
            r.sample_rate == sample_rate,
    {
        DSPBuilder { sample_rate }
    }

    /// An empty effect chain.
    pub fn build_fx_chain(&self) -> (r: FxChain)
        ensures
            r.effects@.len() == 0,
            r.enabled.value == FP_ONE,
            r.enabled.modulators@.len() == 0,
    {
        FxChain::new()
    }

    /// A chain wrapping the given generator.
    pub fn build_chain(&self, module: GenNode) -> (r: Chain)
        ensures
            *r.module == module,
            r.fx_chain.effects@.len() == 0,
            r.enabled.value == FP_ONE,
            r.multi_hold == 0,
            r.multi_index == 0,
    {
        Chain::new(module)
    }

    /// An empty parallel mix.
    pub fn build_parallel(&self) -> (r: Parallel)
        ensures
            r.modules@.len() == 0,
            r.enabled.value == FP_ONE,
            r.multi_hold == 0,
            r.multi_index == 0,
    {
        Parallel::new()
    }

    /// A noise generator.
    pub fn build_noise(&self, kind: NoiseKind, amplitude: i64) -> (r: Noise)
        ensures
            r.kind == kind,
            r.amplitude.value == amplitude,
            r.enabled.value == FP_ONE,
            r.multi_hold == 0,
            r.multi_index == 0,
    {
        Noise::new(kind, amplitude)
    }

    /// An oscillator at this builder's sample rate.
    pub fn build_oscillator(&self, kind: WaveKind, frequency: i64, amplitude: i64)
        -> (r: Oscillator)
        ensures
            r.kind == kind,
            r.frequency.value == frequency,
            r.amplitude.value == amplitude,
            r.enabled.value == FP_ONE,
            r.sample_rate == self.sample_rate,
            r.step == 0,
            r.multi_hold == 0,
            r.multi_index == 0,
    {
        Oscillator::new(kind, frequency, amplitude, self.sample_rate)
    }

    /// An envelope at this builder's sample rate.
    pub fn build_adsr(
        &self,
        attack: u64,
        attack_curve: i64,
        peak: i64,
        decay: u64,
        decay_curve: i64,
        sustain: i64,
        release: u64,
        release_curve: i64,
    ) -> (r: ADSR)
        ensures
            r.state is Off,
            r.attack == attack,
            r.attack_curve == attack_curve,
            r.peak == peak,
            r.decay == decay,
            r.decay_curve == decay_curve,
            r.sustain == sustain,
            r.release == release,
            r.release_curve == release_curve,
            r.sample_rate == self.sample_rate,
            r.enabled.value == FP_ONE,
            r.multi_hold == 0,
            r.multi_index == 0,
    {
        ADSR::new(attack, attack_curve, peak, decay, decay_curve, sustain, release,
            release_curve, self.sample_rate)
    }

    /// A hold-and-emit down-sampler.
    pub fn build_down_sample(&self, factor: u8) -> (r: DownSample)
        ensures
            r.hold == 0,
            r.step == 0,
            r.factor.value == factor as int * FP_ONE,
            r.enabled.value == FP_ONE,
    {
        DownSample::new(factor)
    }

    /// A first-order filter at this builder's sample rate.
    pub fn build_first_order_filter(&self, kind: FirstOrderFilterKind, cut_off: i64)
        -> (r: FirstOrderFilter)
        ensures
            r.kind == kind,
            r.cut_off.value == cut_off,
            r.enabled.value == FP_ONE,
            r.old_cut_off as int == sat64(cut_off + 1),
            r.coefficient == 0,
            r.buffer == 0,
            r.sample_rate == self.sample_rate,
    {
        FirstOrderFilter::new(kind, cut_off, self.sample_rate)
    }

    /// A second-order filter at this builder's sample rate.
    pub fn build_second_order_filter(&self, kind: SecondOrderFilterKind, cut_off: i64, curve: i64)
        -> (r: SecondOrderFilter)
        ensures
            r.kind == kind,
            r.cut_off.value == cut_off,
            r.curve.value == curve,
            r.enabled.value == FP_ONE,
            r.old_cut_off as int == sat64(cut_off + 1),
            r.old_curve as int == sat64(curve + 1),
            r.d == 0,
            r.c == 0,
            r.buffer0 == 0,
            r.buffer1 == 0,
            r.sample_rate == self.sample_rate,
    {
        SecondOrderFilter::new(kind, cut_off, curve, self.sample_rate)
    }

    /// A moving average over the given window.
    pub fn build_moving_average(&self, window_size: usize) -> (r: MovingAverage)
        requires
            window_size >= 1,
        ensures
            r.window_size == window_size,
            r.processed == 0,
            r.index == 0,
            r.enabled.value == FP_ONE,
            ma_ok(r),
    {
        MovingAverage::new(window_size)
    }

    /// The absolute-value effect.
    pub fn build_absolute(&self) -> (r: Absolute)
        ensures
            r == (Absolute {  }),
    {
        Absolute::new()
    }

    /// An amplifier.
    pub fn build_amplifier(&self, amplitude: i64) -> (r: Amplifier)
        ensures
            r.amplitude.value == amplitude,
            r.enabled.value == FP_ONE,
    {
        Amplifier::new(amplitude)
    }

    /// An operator applying the given pointwise map.
    pub fn build_operator(&self, op: OpKind) -> (r: Operator)
        ensures
            r.op == op,
            r.enabled.value == FP_ONE,
    {
        Operator::new(op)
    }

    /// A slide with the given time constants.
    pub fn build_slide(&self, slide_up: i64, slide_down: i64) -> (r: Slide)
        ensures
            r.slide_up.value == slide_up,
            r.slide_down.value == slide_down,
            r.enabled.value == FP_ONE,
            r.buffer == 0,
    {
        Slide::new(slide_up, slide_down)
    }
}

} // verus!
