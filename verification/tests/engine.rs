// End-to-end checks of the effect chain, the simple effects and the
// Fourier analyser, run against the real dependencies.

use dsp_graph::FP_ONE;
use dsp_graph::dsp::{
    Absolute, Amplifier, Chain, DSPBuilder, DownSample, FirstOrderFilterKind, FxChain, FxNode,
    GenNode, MovingAverage, Noise, NoiseKind, OpKind, Operator, Oscillator, Parallel, Parameter,
    SecondOrderFilterKind, Slide, WaveKind, ADSR, ADSRState,
};
use dsp_graph::fft::{Complex, FourierTransform, WindowMode};
use dsp_graph::fixed::{add_s, div_s, sub_s};

const SAMPLE_RATE: u64 = 44100;
const NB_SAMPLES_FFT_TESTS: usize = 4096;

fn q(x: f64) -> i64 {
    (x * FP_ONE as f64) as i64
}

fn to_f(x: i64) -> f64 {
    x as f64 / FP_ONE as f64
}

fn fft_samples() -> Vec<i64> {
    let raw: [i64; 32] = [
        41, 42, 16, 31, 33, 18, 20, 22, 15, 33, 44, 11, 19, 27, 32, 21, 41, 47, 17, 39, 45, 17,
        5, 2, 10, 9, 32, 38, 26, 0, 19, 34,
    ];
    raw.iter().map(|&v| v * FP_ONE).collect()
}

fn prepare_fft_test() -> (Vec<i64>, FourierTransform) {
    let mut noise = vec![0i64; NB_SAMPLES_FFT_TESTS];
    let mut rng = rand::thread_rng();
    for sample in noise.iter_mut() {
        *sample = q(rand::Rng::gen_range(&mut rng, -1.0..1.0));
    }
    let mut fourier = FourierTransform::new(WindowMode::Hann, NB_SAMPLES_FFT_TESTS, SAMPLE_RATE);
    assert!(fourier.process(&noise).is_ok());
    (noise, fourier)
}

#[test]
fn fx_chain_2_samples() {
    let dsp_builder = DSPBuilder::new(SAMPLE_RATE);
    let mut fx_chain = dsp_builder.build_fx_chain();
    let fx_1 = dsp_builder.build_operator(OpKind::MulAdd(FP_ONE, FP_ONE));
    let fx_2 = dsp_builder.build_operator(OpKind::MulAdd(2 * FP_ONE, 0));
    fx_chain.append(FxNode::Op(fx_2));
    fx_chain.insert(FxNode::Op(fx_1));

    let mut actual = fx_chain.tick(2 * FP_ONE);
    assert_eq!(actual, 6 * FP_ONE); // (2 + 1) * 2 = 6
    actual = fx_chain.tick(10 * FP_ONE);
    assert_eq!(actual, 22 * FP_ONE); // (10 + 1) * 2 = 22
}

#[test]
fn amplifier_3_samples() {
    let dsp_builder = DSPBuilder::new(SAMPLE_RATE);
    let mut absolute = dsp_builder.build_amplifier(5 * FP_ONE);

    let mut actual = absolute.tick(2 * FP_ONE);
    assert_eq!(actual, 10 * FP_ONE);
    actual = absolute.tick(-3 * FP_ONE);
    assert_eq!(actual, -15 * FP_ONE);
    actual = absolute.tick(0);
    assert_eq!(actual, 0);
}

#[test]
fn operator_3_samples() {
    let dsp_builder = DSPBuilder::new(SAMPLE_RATE);
    let mut operator = dsp_builder.build_operator(OpKind::MulAdd(4 * FP_ONE, 2 * FP_ONE));

    let mut actual = operator.tick(2 * FP_ONE);
    assert_eq!(actual, 10 * FP_ONE);
    actual = operator.tick(-3 * FP_ONE);
    assert_eq!(actual, -10 * FP_ONE);
    actual = operator.tick(0);
    assert_eq!(actual, 2 * FP_ONE);
}

#[test]
fn down_sample_5_samples() {
    let dsp_builder = DSPBuilder::new(SAMPLE_RATE);
    let mut down_sample = dsp_builder.build_down_sample(3);

    let mut actual = down_sample.tick(2 * FP_ONE);
    assert_eq!(actual, 2 * FP_ONE);
    actual = down_sample.tick(-3 * FP_ONE);
    assert_eq!(actual, 2 * FP_ONE);
    actual = down_sample.tick(0);
    assert_eq!(actual, 2 * FP_ONE);
    actual = down_sample.tick(10 * FP_ONE);
    assert_eq!(actual, 10 * FP_ONE);
    actual = down_sample.tick(9 * FP_ONE);
    assert_eq!(actual, 10 * FP_ONE);
}

#[test]
fn first_order_filter_low_pass_5khz_fft() {
    let dsp_builder = DSPBuilder::new(SAMPLE_RATE);
    let mut filter = dsp_builder.build_first_order_filter(FirstOrderFilterKind::LowPass,
        5000 * FP_ONE);

    let (mut noise, mut fourier) = prepare_fft_test();
    let amp_start0 = to_f(fourier.analyse(100 * FP_ONE).0);
    let amp_break0 = to_f(fourier.analyse(5000 * FP_ONE).0);
    let amp_nyquist0 = to_f(fourier.analyse(22050 * FP_ONE).0);

    for sample in noise.iter_mut() {
        *sample = filter.tick(*sample);
    }
    assert!(fourier.process(&noise).is_ok());
    let amp_start = (to_f(fourier.analyse(100 * FP_ONE).0) - amp_start0) / amp_start0;
    let amp_break = (to_f(fourier.analyse(5000 * FP_ONE).0) - amp_break0) / amp_break0;
    let amp_nyquist = (to_f(fourier.analyse(22050 * FP_ONE).0) - amp_nyquist0) / amp_nyquist0;

    println!("Reduction in phase at 100Hz : {}", amp_start);
    println!("Reduction in phase at 5KHz : {}", amp_break);
    println!("Reduction in phase at 22.05KHz : {}", amp_nyquist);
    assert!(amp_start.abs() <= 0.01);
    assert!((0.5 - amp_break.abs()) <= 0.01);
    assert!((1.0 - amp_nyquist.abs()) <= 0.01);
}

#[test]
fn second_order_filter_band_stop_5khz_fft() {
    let dsp_builder = DSPBuilder::new(SAMPLE_RATE);
    let mut filter = dsp_builder.build_second_order_filter(SecondOrderFilterKind::BandStop,
        5000 * FP_ONE, q(0.022));

    let (mut noise, mut fourier) = prepare_fft_test();
    let amp_start0 = to_f(fourier.analyse(100 * FP_ONE).0);
    let amp_break0 = to_f(fourier.analyse(5000 * FP_ONE).0);
    let amp_nyquist0 = to_f(fourier.analyse(22050 * FP_ONE).0);

    for sample in noise.iter_mut() {
        *sample = filter.tick(*sample);
    }
    assert!(fourier.process(&noise).is_ok());
    let amp_start = (to_f(fourier.analyse(100 * FP_ONE).0) - amp_start0) / amp_start0;
    let amp_break = (to_f(fourier.analyse(5000 * FP_ONE).0) - amp_break0) / amp_break0;
    let amp_nyquist = (to_f(fourier.analyse(22050 * FP_ONE).0) - amp_nyquist0) / amp_nyquist0;

    println!("Reduction in phase at 100Hz : {}", amp_start);
    println!("Reduction in phase at 5KHz : {}", amp_break);
    println!("Reduction in phase at 22.05KHz : {}", amp_nyquist);
    assert!(amp_start.abs() <= 0.01);
    assert!(1.0 - amp_break.abs() <= 0.01);
    assert!(amp_nyquist.abs() <= 0.01);
}

#[test]
fn slide_1_for_up_down_4_samples() {
    let dsp_builder = DSPBuilder::new(SAMPLE_RATE);
    let mut slide = dsp_builder.build_slide(FP_ONE, FP_ONE);

    let mut actual = slide.tick(2 * FP_ONE);
    assert_eq!(actual, 2 * FP_ONE);
    actual = slide.tick(3 * FP_ONE);
    assert_eq!(actual, 3 * FP_ONE);
    actual = slide.tick(FP_ONE);
    assert_eq!(actual, FP_ONE);
    actual = slide.tick(-4 * FP_ONE);
    assert_eq!(actual, -4 * FP_ONE);
}

#[test]
fn slide_distinct_up_down_4_samples() {
    let slide_up: i64 = FP_ONE / 2;
    let slide_down: i64 = FP_ONE / 3;
    let dsp_builder = DSPBuilder::new(SAMPLE_RATE);
    let mut slide = dsp_builder.build_slide(slide_up, slide_down);

    // The expected values follow the slide recurrence
    // `buf <- buf + (in - buf) / s` over the engine's own sample arithmetic.
    let mut expected: i64 = 0;
    for input in [2 * FP_ONE, 3 * FP_ONE, FP_ONE, -4 * FP_ONE] {
        let delta = sub_s(input, expected);
        let s = if delta > 0 { slide_up } else { slide_down };
        expected = add_s(expected, div_s(delta, s));
        let actual = slide.tick(input);
        assert_eq!(actual, expected);
    }
}

#[test]
fn fft_0_samples() {
    let samples: Vec<i64> = Vec::new();
    let mut fourier = FourierTransform::new(WindowMode::ZeroPadding, 0, SAMPLE_RATE);
    assert!(fourier.process(&samples).is_ok());
    let actual = fourier.bins();
    assert!(actual.len() == 0);
}

#[test]
fn fft_32_samples() {
    let delta = q(0.001);
    let mut fourier = FourierTransform::new(WindowMode::ZeroPadding, 32, SAMPLE_RATE);
    assert!(fourier.process(&fft_samples()).is_ok());

    let expected: Vec<(f64, f64)> = vec![
        (806., 0.), (-21.801, -49.683),
        (122.017, -17.125), (-16.353, 50.703),
        (4.506, -110.075), (52.573, -57.875),
        (86.86, 78.106), (56.461, 18.509),
        (45., 5.), (-39.959, 94.453),
        (51.182, -85.475), (-29.244, -19.497),
        (-36.506, -44.075), (7.166, 15.341),
        (-32.058, -48.706), (-8.842, -7.479),
        (24., 0.), (-8.842, 7.479),
        (-32.058, 48.706), (7.166, -15.341),
        (-36.506, 44.075), (-29.244, 19.497),
        (51.182, 85.475), (-39.959, -94.453),
        (45., -5.), (56.461, -18.509),
        (86.86, -78.106), (52.573, 57.875),
        (4.506, 110.075), (-16.353, -50.703),
        (122.017, 17.125), (-21.801, 49.683),
    ];
    let actual = fourier.bins();
    assert_eq!(actual.len(), expected.len());
    for (af, ef) in actual.iter().zip(expected.iter()) {
        let er = q(ef.0 / 32.0);
        let ei = q(ef.1 / 32.0);
        assert!(af.re >= er - delta && af.re <= er + delta);
        assert!(af.im >= ei - delta && af.im <= ei + delta);
    }
}

#[test]
fn fft_ifft_32_samples() {
    let delta = q(0.0000000001);
    let samples = fft_samples();
    let mut fourier = FourierTransform::new(WindowMode::ZeroPadding, 32, SAMPLE_RATE);
    assert!(fourier.process(&samples).is_ok());

    let actual = fourier.inverse();
    assert_eq!(actual.len(), samples.len());
    for (aa, ea) in actual.iter().zip(samples.iter()) {
        assert!(*aa >= *ea - delta);
        assert!(*aa <= *ea + delta);
    }
}

#[test]
fn fft_specific_frequency() {
    let delta = q(0.1);
    let mut fourier = FourierTransform::new(WindowMode::ZeroPadding, 32, SAMPLE_RATE);
    assert!(fourier.process(&fft_samples()).is_ok());

    let (actual, _) = fourier.analyse(q(1.0 * 44100.0 / 32.0));
    let expected = q((-21.801f64 / 32.0).powi(2) + (-49.683f64 / 32.0).powi(2));
    assert!((actual - expected).abs() <= delta);
}
