//! The engine's cross-cutting laws, stated and proved over the step
//! relations of [`crate::dsp`].

use vstd::prelude::*;
use crate::dsp::{
    GenNode, Parameter, MovingAverage, FirstOrderFilter, FirstOrderFilterKind, gen_step,
    param_step, param_core, bump_spec, souts, osc_core, noise_core, adsr_core, chain_core,
    par_core, wit, osc_step, noise_step, adsr_step, chain_step, par_step, avg_step, avg_core,
    ma_ok, ring_sum, ring_index, first_step, first_core, half, FxChain, fxchain_step,
    fxchain_core, fxs_step,
};
use crate::fixed::{FP_ONE, fp_add, fp_sub, fp_mul, div_trunc, abs_int};
use vstd::arithmetic::div_mod::lemma_div_is_ordered;
use vstd::arithmetic::mul::{lemma_mul_inequality, lemma_mul_unary_negation};
use vstd::arithmetic::div_mod::{
    lemma_mod_bound, lemma_fundamental_div_mod, lemma_fundamental_div_mod_converse,
    lemma_mod_add_multiples_vanish,
};
use vstd::arithmetic::mul::{
    lemma_mul_is_commutative, lemma_mul_is_distributive_add_other_way,
    lemma_mul_is_distributive_sub_other_way,
};

verus! {

/// A parameter is `fixed` when it has no modulators: reading it always
/// yields its baseline and leaves it unchanged.
pub open spec fn param_fixed(p: Parameter) -> bool {
    p.modulators@.len() == 0
}

/// Reading a fixed parameter yields the baseline and preserves fixedness.
pub proof fn lemma_param_fixed(pre: Parameter, post: Parameter, out: int)
    requires
        param_step(pre, post, out),
        param_fixed(pre),
    ensures
        out == pre.value,
        post.value == pre.value,
        param_fixed(post),
{
    let outs = choose|outs: Seq<Option<i64>>|
        #[trigger] wit(outs) && param_core(pre, post, outs, out);
    assert(outs.len() == 0);
    assert(souts(outs, pre.value as int) == pre.value as int);
}

/// The shared-output counter of a generator node.
pub open spec fn g_idx(g: GenNode) -> int {
    match g {
        GenNode::Osc(o) => o.multi_index as int,
        GenNode::Noise(n) => n.multi_index as int,
        GenNode::Env(e) => e.multi_index as int,
        GenNode::Chain(c) => c.multi_index as int,
        GenNode::Par(p) => p.multi_index as int,
    }
}

/// The cached sample of a generator node.
pub open spec fn g_hold(g: GenNode) -> i64 {
    match g {
        GenNode::Osc(o) => o.multi_hold,
        GenNode::Noise(n) => n.multi_hold,
        GenNode::Env(e) => e.multi_hold,
        GenNode::Chain(c) => c.multi_hold,
        GenNode::Par(p) => p.multi_hold,
    }
}

/// The enable switch of a generator node.
pub open spec fn g_enabled(g: GenNode) -> Parameter {
    match g {
        GenNode::Osc(o) => o.enabled,
        GenNode::Noise(n) => n.enabled,
        GenNode::Env(e) => e.enabled,
        GenNode::Chain(c) => c.enabled,
        GenNode::Par(p) => p.enabled,
    }
}

/// A generator that is plainly on: its enable switch has no modulators and
/// a non-zero baseline.
pub open spec fn plainly_on(g: GenNode) -> bool {
    param_fixed(g_enabled(g)) && g_enabled(g).value != 0
}

/// A generator tree that always produces: the node is plainly on, and so
/// is every inner generator a chain wraps (a disabled inner generator makes
/// a chain return absent).
pub open spec fn fully_on(g: GenNode) -> bool
    decreases g,
{
    plainly_on(g) && match g {
        GenNode::Chain(c) => fully_on(*c.module),
        _ => true,
    }
}

/// One tick of a fully-on generator obeys the shared-output protocol:
/// the counter advances modulo the fan-out, a mid-cycle pull replays the
/// cached sample unchanged, and a cycle-start pull emits the new cache.
pub proof fn lemma_gen_sync(pre: GenNode, post: GenNode, k: int, out: Option<i64>)
    requires
        gen_step(pre, post, k, out),
        fully_on(pre),
    ensures
        fully_on(post),
        g_idx(post) == bump_spec(g_idx(pre), k),
        g_idx(post) != 0 ==> out == Some(g_hold(pre)) && g_hold(post) == g_hold(pre),
        g_idx(post) == 0 ==> out == Some(g_hold(post)),
    decreases pre,
{
    match pre {
        GenNode::Osc(po) => {
            let qo = post->Osc_0;
            assert(osc_step(po, qo, k, out));
            let (amp, freq, en) = choose|amp: int, freq: int, en: int|
                #![trigger wit(amp), wit(freq), wit(en)]
                wit(amp) && wit(freq) && wit(en) && osc_core(po, qo, k, out, amp, freq, en);
            lemma_param_fixed(po.enabled, qo.enabled, en);
        },
        GenNode::Noise(pn) => {
            let qn = post->Noise_0;
            assert(noise_step(pn, qn, k, out));
            let (amp, en) = choose|amp: int, en: int|
                #![trigger wit(amp), wit(en)]
                wit(amp) && wit(en) && noise_core(pn, qn, k, out, amp, en);
            lemma_param_fixed(pn.enabled, qn.enabled, en);
        },
        GenNode::Env(pe) => {
            let qe = post->Env_0;
            assert(adsr_step(pe, qe, k, out));
            let en = choose|en: int| #[trigger] wit(en) && adsr_core(pe, qe, k, out, en);
            lemma_param_fixed(pe.enabled, qe.enabled, en);
        },
        GenNode::Chain(pc) => {
            let qc = post->Chain_0;
            assert(chain_step(pc, qc, k, out));
            let (en, mod_out, fx_out) = choose|en: int, mod_out: Option<i64>, fx_out: int|
                #![trigger wit(en), wit(mod_out), wit(fx_out)]
                wit(en) && wit(mod_out) && wit(fx_out) && chain_core(pc, qc, k, out, en,
                    mod_out, fx_out);
            lemma_param_fixed(pc.enabled, qc.enabled, en);
            if bump_spec(pc.multi_index as int, k) == 0 {
                lemma_gen_sync(*pc.module, *qc.module, 1, mod_out);
            }
        },
        GenNode::Par(pp) => {
            let qp = post->Par_0;
            assert(par_step(pp, qp, k, out));
            let (en, outs) = choose|en: int, outs: Seq<Option<i64>>|
                #![trigger wit(en), wit(outs)]
                wit(en) && wit(outs) && par_core(pp, qp, k, out, en, outs);
            lemma_param_fixed(pp.enabled, qp.enabled, en);
        },
    }
}

/// A run of one generator: `outs[i]` is what the `i`-th of a row of pulls
/// with fan-out `k` returned, taking the node from `states[i]` to
/// `states[i + 1]`.
pub open spec fn gen_run(states: Seq<GenNode>, outs: Seq<Option<i64>>, k: int) -> bool {
    &&& states.len() == outs.len() + 1
    &&& forall|i: int|
        0 <= i < outs.len() ==> gen_step(states[i], states[i + 1], k, #[trigger] outs[i])
}

/// Stepping a counter value `m % k` is congruent to counting: it yields
/// `(m + 1) % k`.
proof fn lemma_bump_mod(m: int, k: int)
    requires
        k >= 1,
        m >= 0,
    ensures
        bump_spec(m % k, k) == (m + 1) % k,
{
    lemma_mod_bound(m, k);
    lemma_mod_bound(m + 1, k);
    lemma_fundamental_div_mod(m, k);
    lemma_mul_is_commutative(k, m / k);
    let r = m % k;
    let q = m / k;
    if r == k - 1 {
        lemma_mul_is_commutative(k, q + 1);
        lemma_mul_is_distributive_add_other_way(k, q, 1);
        lemma_fundamental_div_mod_converse(m + 1, k, q + 1, 0);
    } else {
        lemma_fundamental_div_mod_converse(m + 1, k, q, r + 1);
    }
}

/// Along a run of a fully-on generator that starts one pull before a cycle
/// boundary, the node stays fully on and its counter counts pulls modulo
/// the fan-out.
proof fn lemma_run_state(states: Seq<GenNode>, outs: Seq<Option<i64>>, k: int, i: int)
    requires
        gen_run(states, outs, k),
        k >= 1,
        fully_on(states[0]),
        g_idx(states[0]) == k - 1,
        0 <= i <= outs.len(),
    ensures
        fully_on(states[i]),
        g_idx(states[i]) == (i + k - 1) % k,
    decreases i,
{
    if i == 0 {
        lemma_mod_bound(k - 1, k);
        lemma_fundamental_div_mod_converse(k - 1, k, 0, k - 1);
    } else {
        lemma_run_state(states, outs, k, i - 1);
        lemma_gen_sync(states[i - 1], states[i], k, outs[i - 1]);
        lemma_bump_mod(i + k - 2, k);
    }
}

/// The shared-output law: over `outs.len()` successive pulls with fan-out
/// `k` of a fully-on generator that starts one pull before a cycle
/// boundary, every pull inside a cycle replays the cycle's first output,
/// so the run is each logical sample repeated `k` times:
/// `outs[i] == outs[k * (i / k)]`.
pub proof fn fan_out_replay(states: Seq<GenNode>, outs: Seq<Option<i64>>, k: int, i: int)
    requires
        gen_run(states, outs, k),
        k >= 1,
        fully_on(states[0]),
        g_idx(states[0]) == k - 1,
        0 <= i < outs.len(),
    ensures
        outs[i] == outs[k * (i / k)],
    decreases i,
{
    lemma_mod_bound(i, k);
    lemma_fundamental_div_mod(i, k);
    lemma_mul_is_commutative(k, i / k);
    let r = i % k;
    let q = i / k;
    if r == 0 {
        assert(k * (i / k) == i);
    } else {
        lemma_run_state(states, outs, k, i);
        lemma_run_state(states, outs, k, i - 1);
        lemma_gen_sync(states[i], states[i + 1], k, outs[i]);
        lemma_gen_sync(states[i - 1], states[i], k, outs[i - 1]);
        lemma_bump_mod(i + k - 1, k);
        lemma_bump_mod(i + k - 2, k);
        assert((i + k) % k == r) by {
            lemma_mod_add_multiples_vanish(i, k);
        }
        assert((i + k - 1) % k == r - 1) by {
            lemma_mod_add_multiples_vanish(i - 1, k);
            lemma_fundamental_div_mod_converse(i - 1, k, q, r - 1);
        }
        assert(g_idx(states[i + 1]) == r);
        assert(outs[i] == Some(g_hold(states[i])));
        if r == 1 {
            assert(g_idx(states[i]) == 0);
            assert(outs[i - 1] == Some(g_hold(states[i])));
            lemma_fundamental_div_mod_converse(i - 1, k, q, 0);
            assert(k * ((i - 1) / k) == i - 1) by {
                lemma_mul_is_commutative(k, (i - 1) / k);
            }
            assert(outs[i] == outs[i - 1]);
            assert((i - 1) / k == q);
        } else {
            assert(g_idx(states[i]) == r - 1);
            assert(g_idx(states[i]) != 0);
            assert(outs[i - 1] == Some(g_hold(states[i - 1])));
            assert(g_hold(states[i]) == g_hold(states[i - 1]));
            fan_out_replay(states, outs, k, i - 1);
            lemma_fundamental_div_mod_converse(i - 1, k, q, r - 1);
            assert((i - 1) / k == q);
        }
    }
}

/// A moving average that is plainly on: its enable switch is fixed and
/// non-zero.
pub open spec fn ma_on(m: MovingAverage) -> bool {
    param_fixed(m.enabled) && m.enabled.value != 0
}

/// One tick of a plainly-on, consistent moving average, with the
/// existential parameter read eliminated.
proof fn lemma_avg_fixed(pre: MovingAverage, post: MovingAverage, x: int, out: int)
    requires
        avg_step(pre, post, x, out),
        ma_on(pre),
        ma_ok(pre),
    ensures
        ma_on(post),
        ma_ok(post),
        post.window_size == pre.window_size,
        post.index as int == (if pre.index == pre.window_size - 1 {
            0int
        } else {
            pre.index + 1
        }),
        post.processed as int == (if pre.processed < pre.window_size {
            pre.processed + 1
        } else {
            pre.processed as int
        }),
        post.buffer@.len() == pre.buffer@.len(),
        post.buffer@[post.index as int] as int == x,
        forall|j: int|
            0 <= j < pre.buffer@.len() && j != post.index ==> post.buffer@[j] == pre.buffer@[j],
        out == div_trunc(
            ring_sum(
                post.buffer@,
                post.index as int,
                pre.window_size as int,
                0,
                post.processed as int,
                0,
            ),
            post.processed as int,
        ),
{
    let en = choose|en: int| #[trigger] wit(en) && avg_core(pre, post, x, out, en);
    lemma_param_fixed(pre.enabled, post.enabled, en);
}

/// A run of one moving average over the inputs `xs`.
pub open spec fn ma_run(states: Seq<MovingAverage>, xs: Seq<i64>, outs: Seq<i64>) -> bool {
    &&& states.len() == xs.len() + 1
    &&& outs.len() == xs.len()
    &&& forall|i: int|
        0 <= i < xs.len() ==> #[trigger] avg_step(
            states[i],
            states[i + 1],
            xs[i] as int,
            outs[i] as int,
        )
}

/// The saturating sum of the `p` inputs ending at tick `t`, newest first:
/// `xs[t-1], xs[t-2], ...`, folded from `acc`.
pub open spec fn recent_sum(xs: Seq<i64>, t: int, i: int, p: int, acc: int) -> int
    decreases p - i,
{
    if i >= p {
        acc
    } else {
        recent_sum(xs, t, i + 1, p, fp_add(acc, xs[t - 1 - i] as int))
    }
}

/// The ring slot `i` steps behind tick `t` is `(t - i) % w`.
proof fn lemma_ring_pos(t: int, i: int, w: int)
    requires
        w >= 1,
        0 <= i <= w,
        i <= t,
    ensures
        (t - i) % w == ring_index(t % w, i, w),
{
    lemma_mod_bound(t, w);
    lemma_fundamental_div_mod(t, w);
    lemma_mul_is_commutative(w, t / w);
    let r = t % w;
    let q = t / w;
    if r - i >= 0 {
        lemma_fundamental_div_mod_converse(t - i, w, q, r - i);
    } else {
        lemma_mul_is_distributive_sub_other_way(w, q, 1);
        lemma_fundamental_div_mod_converse(t - i, w, q - 1, w + r - i);
    }
}

/// Slots less than a window apart are distinct ring positions.
proof fn lemma_ring_distinct(t: int, i: int, w: int)
    requires
        w >= 1,
        1 <= i < w,
        i <= t,
    ensures
        (t - i) % w != t % w,
{
    lemma_ring_pos(t, i, w);
    lemma_mod_bound(t, w);
}

/// Along a run of a plainly-on, fresh moving average, the ring buffer
/// holds exactly the most recent inputs: after `t` ticks the write index
/// is `t % w`, `min(t, w)` samples are populated, and the sample `i` steps
/// back is `xs[t - 1 - i]`.
proof fn lemma_ma_trace(states: Seq<MovingAverage>, xs: Seq<i64>, outs: Seq<i64>, t: int)
    requires
        ma_run(states, xs, outs),
        ma_on(states[0]),
        ma_ok(states[0]),
        states[0].processed == 0,
        states[0].index == 0,
        0 <= t <= xs.len(),
    ensures
        ma_on(states[t]),
        ma_ok(states[t]),
        states[t].window_size == states[0].window_size,
        states[t].buffer@.len() == states[0].window_size,
        states[t].processed as int == (if t < states[0].window_size {
            t
        } else {
            states[0].window_size as int
        }),
        states[t].index as int == t % (states[0].window_size as int),
        forall|i: int|
            0 <= i < states[t].processed ==> states[t].buffer@[#[trigger] ((t - i) % (
            states[0].window_size as int))] as int == xs[t - 1 - i] as int,
    decreases t,
{
    let w = states[0].window_size as int;
    if t == 0 {
        lemma_mod_bound(0, w);
        lemma_fundamental_div_mod_converse(0, w, 0, 0);
    } else {
        lemma_ma_trace(states, xs, outs, t - 1);
        assert(avg_step(states[t - 1], states[t - 1 + 1], xs[t - 1] as int, outs[t - 1] as int));
        lemma_avg_fixed(states[t - 1], states[t], xs[t - 1] as int, outs[t - 1] as int);
        lemma_bump_mod(t - 1, w);
        assert(bump_spec((t - 1) % w, w) == t % w);
        lemma_mod_bound(t - 1, w);
        assert(states[t].index as int == t % w);
        lemma_ring_pos(t, 0, w);
        assert(states[t].buffer@[(t - 0) % w] as int == xs[t - 1] as int);
        assert forall|i: int| 1 <= i < states[t].processed implies states[t].buffer@[#[trigger] ((t
            - i) % w)] as int == xs[t - 1 - i] as int by {
            lemma_ring_distinct(t, i, w);
            lemma_mod_bound(t - i, w);
            lemma_ring_pos(t - 1, i - 1, w);
            assert((t - i) % w == ring_index((t - 1) % w, i - 1, w));
            assert(states[t - 1].buffer@[(t - 1 - (i - 1)) % w] as int == xs[t - 1 - i] as int);
        }
    }
}

/// The ring fold over a populated buffer equals the fold over the recent
/// inputs themselves.
proof fn lemma_ring_recent(buf: Seq<i64>, xs: Seq<i64>, t: int, w: int, i: int, p: int, acc: int)
    requires
        w >= 1,
        0 <= i <= p <= w,
        p <= t <= xs.len(),
        buf.len() == w,
        forall|j: int| 0 <= j < p ==> buf[#[trigger] ((t - j) % w)] as int == xs[t - 1 - j] as int,
    ensures
        ring_sum(buf, t % w, w, i, p, acc) == recent_sum(xs, t, i, p, acc),
    decreases p - i,
{
    if i < p {
        lemma_ring_pos(t, i, w);
        lemma_mod_bound(t - i, w);
        lemma_ring_recent(buf, xs, t, w, i + 1, p, fp_add(acc, xs[t - 1 - i] as int));
    }
}

/// The moving-average law: once at least a full window of inputs has been
/// accepted, the output is the saturating sum of the most recent `w`
/// inputs divided by `w`.
pub proof fn moving_average_mean(states: Seq<MovingAverage>, xs: Seq<i64>, outs: Seq<i64>)
    requires
        ma_run(states, xs, outs),
        ma_on(states[0]),
        ma_ok(states[0]),
        states[0].processed == 0,
        states[0].index == 0,
        states[0].window_size <= xs.len(),
    ensures
        ({
            let t = xs.len() as int;
            let w = states[0].window_size as int;
            outs[t - 1] as int == div_trunc(recent_sum(xs, t, 0, w, 0), w)
        }),
{
    let t = xs.len() as int;
    let w = states[0].window_size as int;
    lemma_ma_trace(states, xs, outs, t - 1);
    lemma_ma_trace(states, xs, outs, t);
    assert(avg_step(states[t - 1], states[t - 1 + 1], xs[t - 1] as int, outs[t - 1] as int));
    lemma_avg_fixed(states[t - 1], states[t], xs[t - 1] as int, outs[t - 1] as int);
    assert(states[t].processed as int == w);
    assert(states[t].index as int == t % w);
    lemma_ring_recent(states[t].buffer@, xs, t, w, 0, w, 0);
}

/// Division by a positive constant preserves order.
proof fn lemma_div_trunc_mono(a: int, b: int, d: int)
    requires
        a <= b,
        d > 0,
    ensures
        div_trunc(a, d) <= div_trunc(b, d),
{
    if a >= 0 {
        lemma_div_is_ordered(a, b, d);
    } else if b < 0 {
        lemma_div_is_ordered(-b, -a, d);
    } else {
        vstd::arithmetic::div_mod::lemma_div_pos_is_pos(b, d);
        vstd::arithmetic::div_mod::lemma_div_pos_is_pos(-a, d);
    }
}

/// Multiplying by a non-positive factor reverses order, through the whole
/// saturating sample product.
proof fn lemma_fp_mul_antitone(c: int, a: int, b: int)
    requires
        c <= 0,
        a <= b,
    ensures
        fp_mul(c, b) <= fp_mul(c, a),
{
    lemma_mul_inequality(a, b, -c);
    lemma_mul_is_commutative(a, -c);
    lemma_mul_is_commutative(b, -c);
    lemma_mul_unary_negation(c, a);
    lemma_mul_unary_negation(c, b);
    lemma_div_trunc_mono(c * b, c * a, FP_ONE as int);
}

/// A sample product by a factor of magnitude at most one never grows the
/// magnitude.
proof fn lemma_fp_mul_shrinks(c: int, v: int)
    requires
        -(FP_ONE as int) <= c <= 0,
        -0x7fff_ffff_ffff_ffff <= v <= 0x7fff_ffff_ffff_ffff,
    ensures
        -abs_int(v) <= fp_mul(c, v) <= abs_int(v),
{
    crate::fixed::lemma_mul_abs_bound(c, v, FP_ONE as int, abs_int(v));
    lemma_mul_is_commutative(FP_ONE as int, abs_int(v));
    crate::math::lemma_div_trunc_shrinks(c * v, FP_ONE as int, abs_int(v));
}

/// One low-pass update with a non-positive coefficient, as a function of
/// the lag buffer: the next buffer value.
pub open spec fn lp_next_buffer(c: int, x: int, b: int) -> int {
    fp_sub(x, fp_mul(c, fp_add(fp_mul(c, x), b)))
}

/// One low-pass update: the emitted sample.
pub open spec fn lp_output(c: int, x: int, b: int) -> int {
    half(fp_add(x, fp_add(fp_mul(c, x), b)))
}

/// The low-pass update is monotone in the lag buffer when the coefficient
/// is non-positive.
proof fn lemma_lp_mono(c: int, x: int, b1: int, b2: int)
    requires
        c <= 0,
        b1 <= b2,
    ensures
        lp_next_buffer(c, x, b1) <= lp_next_buffer(c, x, b2),
        lp_output(c, x, b1) <= lp_output(c, x, b2),
{
    let ap1 = fp_add(fp_mul(c, x), b1);
    let ap2 = fp_add(fp_mul(c, x), b2);
    lemma_fp_mul_antitone(c, ap1, ap2);
    lemma_div_trunc_mono(fp_add(x, ap1), fp_add(x, ap2), 2);
}

/// A first-order filter that is plainly on with a settled coefficient: the
/// cut-off and enable switches are fixed, the enable is non-zero, and the
/// cut-off equals the remembered one, so the coefficient is not recomputed.
pub open spec fn lp_settled(f: FirstOrderFilter) -> bool {
    &&& param_fixed(f.cut_off)
    &&& param_fixed(f.enabled)
    &&& f.enabled.value != 0
    &&& f.cut_off.value == f.old_cut_off
    &&& f.kind == FirstOrderFilterKind::LowPass
}

/// One tick of a settled low-pass, with the parameter reads eliminated.
proof fn lemma_first_fixed(pre: FirstOrderFilter, post: FirstOrderFilter, x: int, out: int)
    requires
        first_step(pre, post, x, out),
        lp_settled(pre),
    ensures
        lp_settled(post),
        post.coefficient == pre.coefficient,
        post.old_cut_off == pre.old_cut_off,
        post.cut_off.value == pre.cut_off.value,
        post.enabled.value == pre.enabled.value,
        post.buffer as int == lp_next_buffer(pre.coefficient as int, x, pre.buffer as int),
        out == lp_output(pre.coefficient as int, x, pre.buffer as int),
{
    let (co, en) = choose|co: int, en: int|
        #![trigger wit(co), wit(en)]
        wit(co) && wit(en) && first_core(pre, post, x, out, co, en);
    lemma_param_fixed(pre.cut_off, post.cut_off, co);
    lemma_param_fixed(pre.enabled, post.enabled, en);
}

/// A run of one first-order filter over a constant input.
pub open spec fn lp_run(states: Seq<FirstOrderFilter>, x: i64, outs: Seq<i64>) -> bool {
    &&& states.len() == outs.len() + 1
    &&& forall|i: int|
        0 <= i < outs.len() ==> #[trigger] first_step(states[i], states[i + 1], x as int,
            outs[i] as int)
}

/// Along a constant-input run of a settled low-pass with a non-positive
/// coefficient and an empty lag buffer, the buffers never decrease.
proof fn lemma_lp_buffers_ordered(states: Seq<FirstOrderFilter>, x: i64, outs: Seq<i64>, i: int)
    requires
        lp_run(states, x, outs),
        lp_settled(states[0]),
        -FP_ONE <= states[0].coefficient <= 0,
        states[0].buffer == 0,
        x >= 0,
        0 <= i <= outs.len(),
    ensures
        lp_settled(states[i]),
        states[i].coefficient == states[0].coefficient,
        i < states.len() - 1 ==> states[i].buffer <= states[i + 1].buffer,
        states[i].buffer >= 0,
    decreases i,
{
    let c = states[0].coefficient as int;
    if i == 0 {
        if 0 < states.len() - 1 {
            assert(first_step(states[0], states[0int + 1], x as int, outs[0] as int));
            lemma_first_fixed(states[0], states[1], x as int, outs[0] as int);
            let m = fp_mul(c, x as int);
            lemma_fp_mul_shrinks(c, x as int);
            lemma_fp_mul_shrinks(c, fp_add(m, 0));
        }
    } else {
        lemma_lp_buffers_ordered(states, x, outs, i - 1);
        assert(first_step(states[i - 1], states[i - 1 + 1], x as int, outs[i - 1] as int));
        lemma_first_fixed(states[i - 1], states[i], x as int, outs[i - 1] as int);
        if i < states.len() - 1 {
            assert(first_step(states[i], states[i + 1], x as int, outs[i] as int));
            lemma_first_fixed(states[i], states[i + 1], x as int, outs[i] as int);
            lemma_lp_mono(c, x as int, states[i - 1].buffer as int, states[i].buffer as int);
        }
        lemma_lp_mono(c, x as int, 0, states[i - 1].buffer as int);
        lemma_fp_mul_shrinks(c, x as int);
        lemma_fp_mul_shrinks(c, fp_add(fp_mul(c, x as int), 0));
    }
}

/// The step-response law: feeding a constant non-negative input to a
/// settled low-pass whose coefficient lies in `[-1, 0]` (cut-offs up to a
/// quarter of the sample rate) and whose lag buffer starts empty produces
/// a non-decreasing output sequence.
pub proof fn low_pass_step_response_monotone(
    states: Seq<FirstOrderFilter>,
    x: i64,
    outs: Seq<i64>,
    i: int,
)
    requires
        lp_run(states, x, outs),
        lp_settled(states[0]),
        -FP_ONE <= states[0].coefficient <= 0,
        states[0].buffer == 0,
        x >= 0,
        0 <= i < outs.len() - 1,
    ensures
        outs[i] <= outs[i + 1],
{
    let c = states[0].coefficient as int;
    lemma_lp_buffers_ordered(states, x, outs, i);
    lemma_lp_buffers_ordered(states, x, outs, i + 1);
    assert(first_step(states[i], states[i + 1], x as int, outs[i] as int));
    lemma_first_fixed(states[i], states[i + 1], x as int, outs[i] as int);
    assert(first_step(states[i + 1], states[i + 1 + 1], x as int, outs[i + 1] as int));
    lemma_first_fixed(states[i + 1], states[i + 2], x as int, outs[i + 1] as int);
    lemma_lp_mono(c, x as int, states[i].buffer as int, states[i + 1].buffer as int);
}

/// The series law: when its enable switch is plainly on, an effect chain's
/// tick is exactly its members' ticks applied in series — the chain output
/// relates to the input through the fold in which each effect's output is
/// the next effect's input.
pub proof fn chain_applies_in_series(pre: FxChain, post: FxChain, x: int, out: int)
    requires
        fxchain_step(pre, post, x, out),
        param_fixed(pre.enabled),
        pre.enabled.value != 0,
    ensures
        fxs_step(pre.effects@, post.effects@, x, out),
{
    let en = choose|en: int| #[trigger] wit(en) && fxchain_core(pre, post, x, out, en);
    lemma_param_fixed(pre.enabled, post.enabled, en);
}

/// With zero input, one low-pass update shrinks a non-negative lag buffer
/// toward zero.
proof fn lemma_lp_zero_step(c: int, b: int)
    requires
        -(FP_ONE as int) <= c <= 0,
        0 <= b <= i64::MAX,
    ensures
        0 <= lp_next_buffer(c, 0, b) <= b,
{
    vstd::arithmetic::div_mod::lemma_div_of0(FP_ONE as int);
    assert(fp_mul(c, 0) == 0);
    lemma_fp_mul_shrinks(c, b);
    vstd::arithmetic::mul::lemma_mul_nonnegative(-c, b);
    lemma_mul_unary_negation(c, b);
    crate::fixed::lemma_abs_mul(c, b);
    vstd::arithmetic::div_mod::lemma_div_pos_is_pos(abs_int(c * b), FP_ONE as int);
}

/// On the zero tail of an impulse, the low-pass lag buffer decays: it
/// stays non-negative and never grows.
proof fn lemma_lp_buffers_decay(states: Seq<FirstOrderFilter>, outs: Seq<i64>, i: int)
    requires
        lp_run(states, 0, outs),
        lp_settled(states[0]),
        -FP_ONE <= states[0].coefficient <= 0,
        states[0].buffer >= 0,
        0 <= i <= outs.len(),
    ensures
        lp_settled(states[i]),
        states[i].coefficient == states[0].coefficient,
        states[i].buffer >= 0,
        i < states.len() - 1 ==> states[i + 1].buffer <= states[i].buffer,
    decreases i,
{
    let c = states[0].coefficient as int;
    if i == 0 {
        if 0 < states.len() - 1 {
            assert(first_step(states[0], states[0int + 1], 0, outs[0] as int));
            lemma_first_fixed(states[0], states[1], 0, outs[0] as int);
            lemma_lp_zero_step(c, states[0].buffer as int);
        }
    } else {
        lemma_lp_buffers_decay(states, outs, i - 1);
        assert(first_step(states[i - 1], states[i - 1 + 1], 0, outs[i - 1] as int));
        lemma_first_fixed(states[i - 1], states[i], 0, outs[i - 1] as int);
        lemma_lp_zero_step(c, states[i - 1].buffer as int);
        if i < states.len() - 1 {
            assert(first_step(states[i], states[i + 1], 0, outs[i] as int));
            lemma_first_fixed(states[i], states[i + 1], 0, outs[i] as int);
            lemma_lp_zero_step(c, states[i].buffer as int);
        }
    }
}

/// The impulse-response law for the tail: once the impulse sample has
/// passed (leaving a non-negative lag buffer) and the input has returned to
/// zero, a settled low-pass with coefficient in `[-1, 0]` emits a
/// non-negative, non-increasing sample sequence.
pub proof fn low_pass_impulse_tail_decays(
    states: Seq<FirstOrderFilter>,
    outs: Seq<i64>,
    i: int,
)
    requires
        lp_run(states, 0, outs),
        lp_settled(states[0]),
        -FP_ONE <= states[0].coefficient <= 0,
        states[0].buffer >= 0,
        0 <= i < outs.len() - 1,
    ensures
        outs[i + 1] <= outs[i],
        outs[i] >= 0,
{
    let c = states[0].coefficient as int;
    lemma_lp_buffers_decay(states, outs, i);
    lemma_lp_buffers_decay(states, outs, i + 1);
    assert(first_step(states[i], states[i + 1], 0, outs[i] as int));
    lemma_first_fixed(states[i], states[i + 1], 0, outs[i] as int);
    assert(first_step(states[i + 1], states[i + 1 + 1], 0, outs[i + 1] as int));
    lemma_first_fixed(states[i + 1], states[i + 2], 0, outs[i + 1] as int);
    lemma_lp_mono(c, 0, states[i + 1].buffer as int, states[i].buffer as int);
    vstd::arithmetic::div_mod::lemma_div_of0(FP_ONE as int);
    assert(fp_mul(c, 0) == 0);
    vstd::arithmetic::div_mod::lemma_div_pos_is_pos(
        fp_add(0, fp_add(fp_mul(c, 0), states[i].buffer as int)),
        2,
    );
}

} // verus!
