//! Radix-2 Fourier transform and windowed spectrum analyser.
//!
//! Complex values carry Q48 fixed-point components.  The forward transform
//! is the classic decimation-in-frequency recursion, normalised by the
//! transform size; the inverse recursion flips the twiddle sign and keeps
//! the real parts.  Every contract states the exact integer computation,
//! whose twiddle factors come from the polynomial kernels in [`crate::math`].

use vstd::prelude::*;
use crate::fixed::{
    FP_ONE, div_trunc, fp_add, fp_sub, fp_mul, add_s, sub_s, mul_s, div_i128, mod_euclid,
    lemma_div_trunc_bounds, lemma_mul_abs_bound,
};
use crate::math::{sin_turn_spec, sin_turn, cos_turn_spec, cos_turn};
use vstd::arithmetic::mul::lemma_mul_upper_bound;

verus! {

/// A complex sample with Q48 real and imaginary parts.
#[derive(Clone, Copy)]
pub struct Complex {
    pub re: i64,
    pub im: i64,
}

/// The view of a complex sample as a pair of unbounded integers.
pub open spec fn cpx_v(c: Complex) -> (int, int) {
    (c.re as int, c.im as int)
}

/// The view of a complex vector.
pub open spec fn cseq_v(s: Seq<Complex>) -> Seq<(int, int)> {
    s.map_values(|c: Complex| cpx_v(c))
}

/// The view of a sample vector.
pub open spec fn iseq_v(s: Seq<i64>) -> Seq<int> {
    s.map_values(|v: i64| v as int)
}

/// Complex addition, componentwise and saturating.
pub open spec fn c_add(a: (int, int), b: (int, int)) -> (int, int) {
    (fp_add(a.0, b.0), fp_add(a.1, b.1))
}

/// Complex multiplication over the saturating Q48 operations.
pub open spec fn c_mul(a: (int, int), b: (int, int)) -> (int, int) {
    (fp_sub(fp_mul(a.0, b.0), fp_mul(a.1, b.1)), fp_add(fp_mul(a.0, b.1), fp_mul(a.1, b.0)))
}

/// The unit phasor `exp(sign * 2*pi*i * (k / size))`: negative sign for the
/// forward transform, positive for the inverse.
pub open spec fn twiddle(k: int, size: int, inverse: bool) -> (int, int) {
    let n = k % size;
    let c = cos_turn_spec(n, size);
    let s = sin_turn_spec(n, size);
    if inverse {
        (c, s)
    } else {
        (c, -s)
    }
}

/// Whether `n` is a power of two.
pub open spec fn is_pow2(n: int) -> bool
    decreases n,
{
    if n <= 0 {
        false
    } else if n == 1 {
        true
    } else {
        n % 2 == 0 && is_pow2(n / 2)
    }
}

/// The radix-2 decimation-in-frequency recursion over the strided slice
/// `start, start + step, ...` of length `size`.
pub open spec fn fft_spec(
    input: Seq<(int, int)>,
    inverse: bool,
    size: int,
    step: int,
    start: int,
) -> Seq<(int, int)>
    decreases size,
{
    if size <= 0 {
        Seq::empty()
    } else if size == 1 {
        seq![input[start]]
    } else {
        let h = size / 2;
        let g = fft_spec(input, inverse, h, 2 * step, start);
        let hh = fft_spec(input, inverse, h, 2 * step, start + step);
        Seq::new(size as nat, |i: int| c_add(g[i % h], c_mul(twiddle(i, size, inverse), hh[i % h])))
    }
}

/// Saturating complex addition.
pub fn cadd(a: Complex, b: Complex) -> (r: Complex)
    ensures
        cpx_v(r) == c_add(cpx_v(a), cpx_v(b)),
{
    Complex { re: add_s(a.re, b.re), im: add_s(a.im, b.im) }
}

/// Saturating complex multiplication.
pub fn cmul(a: Complex, b: Complex) -> (r: Complex)
    ensures
        cpx_v(r) == c_mul(cpx_v(a), cpx_v(b)),
{
    Complex {
        re: sub_s(mul_s(a.re, b.re), mul_s(a.im, b.im)),
        im: add_s(mul_s(a.re, b.im), mul_s(a.im, b.re)),
    }
}

/// The unit phasor for bucket `k` of a transform of the given size.
fn twiddle_exec(k: usize, size: usize, inverse: bool) -> (r: Complex)
    requires
        size >= 1,
    ensures
        cpx_v(r) == twiddle(k as int, size as int, inverse),
{
    let n: usize = k % size;
    let c = cos_turn(n as u128, size as u128);
    let s = sin_turn(n as u128, size as u128);
    Complex {
        re: c,
        im: if inverse {
            s
        } else {
            -s
        },
    }
}

/// Run the radix-2 recursion over a strided slice of the input.
fn fft_rec(input: &Vec<Complex>, inverse: bool, size: usize, step: usize, start: usize) -> (r:
    Vec<Complex>)
    requires
        1 <= size,
        1 <= step,
        start < step,
        is_pow2(size as int),
        size * step <= input@.len(),
    ensures
        r@.len() == size,
        cseq_v(r@) == fft_spec(cseq_v(input@), inverse, size as int, step as int, start as int),
    decreases size,
{
    proof {
        assert(1 * step <= size * step) by (nonlinear_arith)
            requires
                1 <= size,
                0 <= step,
        ;
    }
    if size == 1 {
        let mut out: Vec<Complex> = Vec::new();
        out.push(input[start]);
        proof {
            assert(cseq_v(out@) =~= fft_spec(cseq_v(input@), inverse, 1, step as int,
                start as int));
        }
        out
    } else {
        let h: usize = size / 2;
        proof {
            assert(size as int % 2 == 0 && size as int / 2 >= 1);
            assert(h * (2 * step) == size * step && 2 * step <= size * step) by (nonlinear_arith)
                requires
                    h == size as int / 2,
                    size as int % 2 == 0,
                    size >= 2,
                    step >= 1,
            ;
        }
        let input_len: usize = input.len();
        proof {
            assert(size * step <= input_len);
        }
        let g = fft_rec(input, inverse, h, 2 * step, start);
        let hh = fft_rec(input, inverse, h, 2 * step, start + step);
        let ghost target = fft_spec(cseq_v(input@), inverse, size as int, step as int,
            start as int);
        let mut out: Vec<Complex> = Vec::new();
        let mut i: usize = 0;
        while i < size
            invariant
                i <= size,
                h == size as int / 2,
                size as int % 2 == 0,
                2 <= size,
                out@.len() == i,
                g@.len() == h,
                hh@.len() == h,
                cseq_v(g@) == fft_spec(cseq_v(input@), inverse, h as int, 2 * step as int,
                    start as int),
                cseq_v(hh@) == fft_spec(cseq_v(input@), inverse, h as int, 2 * step as int,
                    start as int + step as int),
                target == fft_spec(cseq_v(input@), inverse, size as int, step as int,
                    start as int),
                target.len() == size,
                forall|j: int| 0 <= j < i ==> cpx_v(out@[j]) == target[j],
            decreases size - i,
        {
            let w = twiddle_exec(i, size, inverse);
            let v = cadd(g[i % h], cmul(w, hh[i % h]));
            proof {
                assert(cseq_v(g@)[(i as int) % (h as int)] == cpx_v(g@[(i as int) % (h as int)]));
                assert(cseq_v(hh@)[(i as int) % (h as int)] == cpx_v(
                    hh@[(i as int) % (h as int)],
                ));
                assert(target[i as int] == c_add(
                    cseq_v(g@)[(i as int) % (h as int)],
                    c_mul(
                        twiddle(i as int, size as int, inverse),
                        cseq_v(hh@)[(i as int) % (h as int)],
                    ),
                ));
            }
            out.push(v);
            i = i + 1;
        }
        proof {
            assert(cseq_v(out@) =~= target);
        }
        out
    }
}

/// How the analyser tapers its buffer before transforming it.
pub enum WindowMode {
    ZeroPadding,
    Hann,
}

/// The Hann taper `sin^2(pi * i / n)` as a Q48 factor.
pub open spec fn hann_factor(i: int, n: int) -> int {
    let s = sin_turn_spec(i % (2 * n), 2 * n);
    fp_mul(s, s)
}

/// The analyser's buffer after accepting `xs`: copied, tapered when the
/// Hann mode is chosen, and zero-padded up to `size`.
pub open spec fn windowed(xs: Seq<int>, mode: WindowMode, size: int) -> Seq<int> {
    Seq::new(
        size as nat,
        |i: int|
            if i < xs.len() {
                match mode {
                    WindowMode::ZeroPadding => xs[i],
                    WindowMode::Hann => fp_mul(hann_factor(i, xs.len() as int), xs[i]),
                }
            } else {
                0
            },
    )
}

/// The normalised forward bins of a buffer: the radix-2 transform divided
/// by the size.
pub open spec fn bins_of(buf: Seq<int>, size: int, inverse: bool) -> Seq<(int, int)> {
    let raw = fft_spec(buf.map_values(|v: int| (v, 0int)), inverse, size, 1, 0);
    Seq::new(size as nat, |i: int| (div_trunc(raw[i].0, size), div_trunc(raw[i].1, size)))
}

/// The single-bin probe the analyser computes for a frequency: the sum of
/// `buf[i] * exp(-2*pi*i * f*i/sample_rate)` over the buffer, divided by the
/// size.
pub open spec fn probe_sum(buf: Seq<int>, sample_rate: int, f: int, upto: int) -> (int, int)
    decreases upto,
{
    if upto <= 0 {
        (0, 0)
    } else {
        let den = sample_rate * (FP_ONE as int);
        let n = (f * (upto - 1)) % den;
        let w = (cos_turn_spec(n, den), -sin_turn_spec(n, den));
        c_add(probe_sum(buf, sample_rate, f, upto - 1), c_mul((buf[upto - 1], 0int), w))
    }
}

/// A fixed-size spectrum analyser: a window taper, a sample buffer and
/// memoised transform bins.
pub struct FourierTransform {
    pub window_mode: WindowMode,
    pub size: usize,
    pub sample_rate: u64,
    pub buffer: Vec<i64>,
    pub bins: Vec<Complex>,
    pub bins_calculated: bool,
}

/// The structural invariant of the analyser: the buffer always holds
/// exactly `size` samples.
pub open spec fn ft_ok(ft: FourierTransform) -> bool {
    ft.buffer@.len() == ft.size
}

impl FourierTransform {
    /// An analyser for transforms of the given size.
    pub fn new(window_mode: WindowMode, size: usize, sample_rate: u64) -> (r: FourierTransform)
        ensures
            r.window_mode == window_mode,
            r.size == size,
            r.sample_rate == sample_rate,
            iseq_v(r.buffer@) =~= Seq::new(size as nat, |i: int| 0int),
            r.bins@.len() == 0,
            r.bins_calculated == false,
            ft_ok(r),
    {
        let mut buffer: Vec<i64> = Vec::new();
        let mut j: usize = 0;
        while j < size
            invariant
                j <= size,
                buffer@.len() == j,
                forall|t: int| 0 <= t < j ==> buffer@[t] == 0,
            decreases size - j,
        {
            buffer.push(0);
            j = j + 1;
        }
        FourierTransform {
            window_mode,
            size,
            sample_rate,
            buffer,
            bins: Vec::new(),
            bins_calculated: false,
        }
    }

    /// Accept a batch of samples: fails when there are more than `size`,
    /// otherwise loads the tapered, zero-padded buffer and invalidates the
    /// memoised bins.
    pub fn process(&mut self, samples: &Vec<i64>) -> (r: Result<(), ()>)
        requires
            ft_ok(*old(self)),
        ensures
            ft_ok(*final(self)),
            final(self).window_mode == old(self).window_mode,
            final(self).size == old(self).size,
            final(self).sample_rate == old(self).sample_rate,
            samples@.len() > old(self).size ==> r is Err && *final(self) == *old(self),
            samples@.len() <= old(self).size ==> r is Ok && final(self).bins_calculated == false
                && final(self).bins@ == old(self).bins@ && iseq_v(final(self).buffer@)
                =~= windowed(iseq_v(samples@), old(self).window_mode, old(self).size as int),
    {
        let nb: usize = samples.len();
        if nb > self.size {
            return Result::Err(());
        }
        let ghost target = windowed(iseq_v(samples@), self.window_mode, self.size as int);
        let mut i: usize = 0;
        while i < self.size
            invariant
                i <= self.size,
                nb == samples@.len() <= self.size,
                ft_ok(*self),
                self.window_mode == old(self).window_mode,
                self.size == old(self).size,
                self.sample_rate == old(self).sample_rate,
                self.bins@ == old(self).bins@,
                self.bins_calculated == old(self).bins_calculated,
                target == windowed(iseq_v(samples@), self.window_mode, self.size as int),
                forall|t: int| 0 <= t < i ==> self.buffer@[t] as int == target[t],
            decreases self.size - i,
        {
            let v: i64 = if i < nb {
                match self.window_mode {
                    WindowMode::ZeroPadding => samples[i],
                    WindowMode::Hann => {
                        proof {
                            vstd::arithmetic::div_mod::lemma_small_mod(
                                i as nat,
                                (2 * nb as int) as nat,
                            );
                        }
                        let den: u128 = 2 * (nb as u128);
                        let s = sin_turn(i as u128, den);
                        mul_s(mul_s(s, s), samples[i])
                    },
                }
            } else {
                0
            };
            self.buffer[i] = v;
            i = i + 1;
        }
        self.bins_calculated = false;
        Result::Ok(())
    }

    /// The memoised normalised forward transform of the buffer.
    pub fn bins(&mut self) -> (r: Vec<Complex>)
        requires
            ft_ok(*old(self)),
            old(self).size == 0 || is_pow2(old(self).size as int),
        ensures
            ft_ok(*final(self)),
            final(self).size == old(self).size,
            final(self).buffer@ == old(self).buffer@,
            final(self).window_mode == old(self).window_mode,
            final(self).sample_rate == old(self).sample_rate,
            final(self).bins_calculated,
            r@ == final(self).bins@,
            !old(self).bins_calculated ==> cseq_v(r@) =~= bins_of(
                iseq_v(old(self).buffer@),
                old(self).size as int,
                false,
            ),
            old(self).bins_calculated ==> r@ == old(self).bins@,
    {
        self.compute_bins();
        self.bins.clone()
    }

    /// The real inverse transform of the current bins.
    pub fn inverse(&mut self) -> (r: Vec<i64>)
        requires
            ft_ok(*old(self)),
            old(self).size == 0 || is_pow2(old(self).size as int),
            old(self).bins_calculated ==> old(self).bins@.len() == 0 || is_pow2(
                old(self).bins@.len() as int,
            ),
        ensures
            ft_ok(*final(self)),
            final(self).size == old(self).size,
            final(self).bins_calculated,
            r@.len() == final(self).bins@.len(),
            ({
                let inv = fft_spec(
                    cseq_v(final(self).bins@),
                    true,
                    final(self).bins@.len() as int,
                    1,
                    0,
                );
                forall|i: int| 0 <= i < r@.len() ==> r@[i] as int == inv[i].0
            }),
    {
        self.compute_bins();
        let n: usize = self.bins.len();
        if n == 0 {
            let out: Vec<i64> = Vec::new();
            return out;
        }
        let raw = fft_rec(&self.bins, true, n, 1, 0);
        let ghost inv = fft_spec(cseq_v(self.bins@), true, n as int, 1, 0);
        let mut out: Vec<i64> = Vec::new();
        let mut i: usize = 0;
        while i < n
            invariant
                i <= n,
                raw@.len() == n,
                cseq_v(raw@) == inv,
                out@.len() == i,
                forall|t: int| 0 <= t < i ==> out@[t] as int == inv[t].0,
            decreases n - i,
        {
            proof {
                assert(cseq_v(raw@)[i as int] == cpx_v(raw@[i as int]));
            }
            out.push(raw[i].re);
            i = i + 1;
        }
        out
    }

    /// Probe one frequency: the squared magnitude and the phase in degrees
    /// of the buffer's correlation with that frequency's phasor.
    pub fn analyse(&self, frequency: i64) -> (r: (i64, i64))
        requires
            ft_ok(*self),
            self.sample_rate >= 1,
        ensures
            ({
                let s = probe_sum(
                    iseq_v(self.buffer@),
                    self.sample_rate as int,
                    frequency as int,
                    self.size as int,
                );
                let re = if self.size == 0 {
                    s.0
                } else {
                    div_trunc(s.0, self.size as int)
                };
                let im = if self.size == 0 {
                    s.1
                } else {
                    div_trunc(s.1, self.size as int)
                };
                r.0 as int == fp_add(fp_mul(re, re), fp_mul(im, im)) && r.1 as int
                    == crate::math::atan2_deg_spec(im, re)
            }),
    {
        let mut acc = Complex { re: 0, im: 0 };
        let n: usize = self.size;
        let mut i: usize = 0;
        proof {
            lemma_mul_upper_bound(self.sample_rate as int, u64::MAX as int, FP_ONE as int,
                FP_ONE as int);
        }
        let den: i128 = (self.sample_rate as i128) * (FP_ONE as i128);
        while i < n
            invariant
                i <= n,
                n == self.size,
                ft_ok(*self),
                self.sample_rate >= 1,
                den == self.sample_rate as int * FP_ONE as int,
                0 < den <= 0x1_0000_0000_0000_0000_0000_0000_0000,
                cpx_v(acc) == probe_sum(
                    iseq_v(self.buffer@),
                    self.sample_rate as int,
                    frequency as int,
                    i as int,
                ),
            decreases n - i,
        {
            proof {
                lemma_mul_abs_bound(frequency as int, i as int, 0x8000_0000_0000_0000, u64::MAX as int);
            }
            let phase: i128 = mod_euclid((frequency as i128) * (i as i128), den);
            let c = cos_turn(phase as u128, den as u128);
            let s = sin_turn(phase as u128, den as u128);
            let w = Complex { re: c, im: -s };
            let sample = Complex { re: self.buffer[i], im: 0 };
            acc = cadd(acc, cmul(sample, w));
            i = i + 1;
        }
        let re: i64 = if n == 0 {
            acc.re
        } else {
            proof {
                lemma_div_trunc_bounds(acc.re as int, n as int);
                lemma_div_trunc_bounds(acc.im as int, n as int);
            }
            div_i128(acc.re as i128, n as i128) as i64
        };
        let im: i64 = if n == 0 {
            acc.im
        } else {
            div_i128(acc.im as i128, n as i128) as i64
        };
        let power = add_s(mul_s(re, re), mul_s(im, im));
        let phase = crate::math::atan2_deg(im, re);
        (power, phase)
    }

    /// Compute and memoise the normalised forward bins if they are stale.
    fn compute_bins(&mut self)
        requires
            ft_ok(*old(self)),
            old(self).size == 0 || is_pow2(old(self).size as int),
        ensures
            ft_ok(*final(self)),
            final(self).size == old(self).size,
            final(self).buffer@ == old(self).buffer@,
            final(self).window_mode == old(self).window_mode,
            final(self).sample_rate == old(self).sample_rate,
            final(self).bins_calculated,
            !old(self).bins_calculated ==> cseq_v(final(self).bins@) =~= bins_of(
                iseq_v(old(self).buffer@),
                old(self).size as int,
                false,
            ),
            old(self).bins_calculated ==> final(self).bins@ == old(self).bins@,
    {
        if self.bins_calculated {
            return ;
        }
        self.bins_calculated = true;
        let n: usize = self.size;
        if n == 0 {
            self.bins = Vec::new();
            proof {
                assert(cseq_v(self.bins@) =~= bins_of(iseq_v(self.buffer@), 0, false));
            }
            return ;
        }
        let mut cin: Vec<Complex> = Vec::new();
        let mut i: usize = 0;
        while i < n
            invariant
                i <= n,
                n == self.size,
                ft_ok(*self),
                cin@.len() == i,
                forall|t: int|
                    0 <= t < i ==> cpx_v(cin@[t]) == (self.buffer@[t] as int, 0int),
            decreases n - i,
        {
            cin.push(Complex { re: self.buffer[i], im: 0 });
            i = i + 1;
        }
        proof {
            assert(cseq_v(cin@) =~= iseq_v(self.buffer@).map_values(|v: int| (v, 0int)));
        }
        let raw = fft_rec(&cin, false, n, 1, 0);
        let ghost rawv = fft_spec(iseq_v(self.buffer@).map_values(|v: int| (v, 0int)), false,
            n as int, 1, 0);
        let mut bins: Vec<Complex> = Vec::new();
        let mut j: usize = 0;
        while j < n
            invariant
                j <= n,
                n >= 1,
                raw@.len() == n,
                cseq_v(raw@) == rawv,
                bins@.len() == j,
                forall|t: int|
                    0 <= t < j ==> cpx_v(bins@[t]) == (
                        div_trunc(rawv[t].0, n as int),
                        div_trunc(rawv[t].1, n as int),
                    ),
            decreases n - j,
        {
            proof {
                assert(cseq_v(raw@)[j as int] == cpx_v(raw@[j as int]));
                lemma_div_trunc_bounds(raw@[j as int].re as int, n as int);
                lemma_div_trunc_bounds(raw@[j as int].im as int, n as int);
            }
            let re = div_i128(raw[j].re as i128, n as i128) as i64;
            let im = div_i128(raw[j].im as i128, n as i128) as i64;
            bins.push(Complex { re, im });
            j = j + 1;
        }
        self.bins = bins;
        proof {
            assert(cseq_v(self.bins@) =~= bins_of(iseq_v(self.buffer@), n as int, false));
        }
    }
}

} // verus!
