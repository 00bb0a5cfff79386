// Behavioural checks of the individual processors, the composition
// containers, the fixed-point kernels and the PCM encoding.

use dsp_graph::dsp::{
    ADSRState, DSPBuilder, FxNode, GenNode, NoiseKind, OpKind, WaveKind, stereo_to_mono,
};
use dsp_graph::fft::{FourierTransform, WindowMode};
use dsp_graph::math::{pow_q48, sin_turn};
use dsp_graph::wav::{pcm16_of_sample, wav_header};
use dsp_graph::FP_ONE;

const SAMPLE_RATE: u64 = 44100;

fn q(x: f64) -> i64 {
    (x * FP_ONE as f64) as i64
}

#[test]
fn absolute_3_samples() {
    let builder = DSPBuilder::new(SAMPLE_RATE);
    let mut absolute = builder.build_absolute();
    assert_eq!(absolute.tick(4 * FP_ONE), 4 * FP_ONE);
    assert_eq!(absolute.tick(-6 * FP_ONE), 6 * FP_ONE);
    assert_eq!(absolute.tick(42 * FP_ONE), 42 * FP_ONE);
}

#[test]
fn operator_threshold() {
    let builder = DSPBuilder::new(SAMPLE_RATE);
    let mut operator = builder.build_operator(OpKind::Threshold(3 * FP_ONE));
    assert_eq!(operator.tick(4 * FP_ONE), FP_ONE);
    assert_eq!(operator.tick(FP_ONE), 0);
}

#[test]
fn amplifier_rescaled() {
    let builder = DSPBuilder::new(SAMPLE_RATE);
    let mut amp = builder.build_amplifier(2 * FP_ONE);
    assert_eq!(amp.tick(4 * FP_ONE), 8 * FP_ONE);
    assert_eq!(amp.tick(-6 * FP_ONE), -12 * FP_ONE);
    amp.amplitude.value = FP_ONE / 2;
    assert_eq!(amp.tick(-10 * FP_ONE), -5 * FP_ONE);
}

#[test]
fn moving_average_window_3() {
    let builder = DSPBuilder::new(SAMPLE_RATE);
    let mut avg = builder.build_moving_average(3);
    let inputs: [i64; 5] = [4, -6, -16, 46, 3];
    let expected: [i64; 5] = [4, -1, -6, 8, 11];
    for (x, e) in inputs.iter().zip(expected.iter()) {
        assert_eq!(avg.tick(*x * FP_ONE), *e * FP_ONE);
    }
}

#[test]
fn down_sample_factor_2() {
    let builder = DSPBuilder::new(SAMPLE_RATE);
    let mut down = builder.build_down_sample(2);
    let inputs: [i64; 4] = [4, -6, -16, 42];
    let expected: [i64; 4] = [4, 4, -16, -16];
    for (x, e) in inputs.iter().zip(expected.iter()) {
        assert_eq!(down.tick(*x * FP_ONE), *e * FP_ONE);
    }
}

#[test]
fn fan_out_replays_each_sample() {
    let builder = DSPBuilder::new(SAMPLE_RATE);
    // A saw wave four samples per cycle produces a different sample on
    // every active tick.
    let mut osc = builder.build_oscillator(WaveKind::Saw, q(44100.0 / 4.0), FP_ONE);
    // Start one pull before a cycle boundary so the first pull computes.
    osc.multi_index = 1;
    let mut outs: Vec<i64> = Vec::new();
    for _ in 0..8 {
        outs.push(osc.tick(2).unwrap());
    }
    for i in 0..8 {
        assert_eq!(outs[i], outs[2 * (i / 2)]);
    }
    assert_ne!(outs[0], outs[2]);
    assert_ne!(outs[2], outs[4]);
}

#[test]
fn oscillator_square_and_sine() {
    let builder = DSPBuilder::new(SAMPLE_RATE);
    let mut square = builder.build_oscillator(WaveKind::Square, q(44100.0 / 4.0), FP_ONE);
    let outs: Vec<i64> = (0..4).map(|_| square.tick(1).unwrap()).collect();
    assert_eq!(outs, vec![FP_ONE, FP_ONE, -FP_ONE, -FP_ONE]);

    let mut sine = builder.build_oscillator(WaveKind::Sine, q(44100.0 / 4.0), FP_ONE);
    let outs: Vec<i64> = (0..4).map(|_| sine.tick(1).unwrap()).collect();
    let eps = q(1e-9);
    let expected: [i64; 4] = [0, FP_ONE, 0, -FP_ONE];
    for (a, e) in outs.iter().zip(expected.iter()) {
        assert!((a - e).abs() <= eps, "sine sample {} vs {}", a, e);
    }
}

#[test]
fn disabled_nodes_bypass() {
    let builder = DSPBuilder::new(SAMPLE_RATE);
    let mut amp = builder.build_amplifier(2 * FP_ONE);
    amp.enabled.value = 0;
    assert_eq!(amp.tick(7 * FP_ONE), 7 * FP_ONE);

    let mut osc = builder.build_oscillator(WaveKind::Saw, q(440.0), FP_ONE);
    osc.enabled.value = 0;
    assert!(osc.tick(1).is_none());
}

#[test]
fn noise_stays_inside_amplitude() {
    let builder = DSPBuilder::new(SAMPLE_RATE);
    let mut noise = builder.build_noise(NoiseKind::White, FP_ONE);
    for _ in 0..100 {
        let v = noise.tick(1).unwrap();
        assert!(-FP_ONE <= v && v < FP_ONE);
    }
    let mut silent = builder.build_noise(NoiseKind::White, 0);
    assert_eq!(silent.tick(1), Some(0));
}

#[test]
fn adsr_attack_ramps_up() {
    let builder = DSPBuilder::new(1000);
    // 10 ms at 1 kHz is ten samples per phase; linear curves.
    let mut adsr = builder.build_adsr(10, FP_ONE, FP_ONE, 10, FP_ONE, FP_ONE / 2, 10, FP_ONE);
    adsr.state = ADSRState::Attack(0);
    let eps = q(1e-5);
    let mut previous: i64 = -1;
    for i in 0..10 {
        let v = adsr.tick(1).unwrap();
        let expected = q(i as f64 / 10.0);
        assert!((v - expected).abs() <= eps, "attack sample {i}: {v} vs {expected}");
        assert!(v >= previous);
        previous = v;
    }
}

#[test]
fn parallel_sums_and_chain_applies_effects() {
    let builder = DSPBuilder::new(SAMPLE_RATE);
    let mut low = builder.build_adsr(0, FP_ONE, FP_ONE, 0, FP_ONE, q(0.25), 0, FP_ONE);
    low.state = ADSRState::Sustain;
    let mut high = builder.build_adsr(0, FP_ONE, FP_ONE, 0, FP_ONE, q(0.5), 0, FP_ONE);
    high.state = ADSRState::Sustain;

    let mut parallel = builder.build_parallel();
    parallel.add(GenNode::Env(low));
    parallel.add(GenNode::Env(high));

    let mut chain = builder.build_chain(GenNode::Par(parallel));
    chain.fx_chain.append(FxNode::Amp(builder.build_amplifier(2 * FP_ONE)));
    assert_eq!(chain.tick(1), Some(q(1.5)));
}

#[test]
fn parameter_adds_modulator_outputs() {
    let builder = DSPBuilder::new(SAMPLE_RATE);
    let mut sustained = builder.build_adsr(0, FP_ONE, FP_ONE, 0, FP_ONE, q(0.25), 0, FP_ONE);
    sustained.state = ADSRState::Sustain;
    let mut amp = builder.build_amplifier(FP_ONE);
    amp.amplitude.add_modulator(GenNode::Env(sustained));
    // Effective gain 1.25 on an input of 4.
    assert_eq!(amp.tick(4 * FP_ONE), 5 * FP_ONE);
}

#[test]
fn analyser_rejects_oversized_batches() {
    let mut fourier = FourierTransform::new(WindowMode::ZeroPadding, 4, SAMPLE_RATE);
    let too_many = vec![FP_ONE; 5];
    assert!(fourier.process(&too_many).is_err());
    let fits = vec![FP_ONE; 3];
    assert!(fourier.process(&fits).is_ok());
}

#[test]
fn hann_window_tapers_buffer() {
    let mut fourier = FourierTransform::new(WindowMode::Hann, 4, SAMPLE_RATE);
    let ones = vec![FP_ONE; 4];
    assert!(fourier.process(&ones).is_ok());
    let eps = q(1e-9);
    let expected = [0, q(0.5), FP_ONE, q(0.5)];
    for (a, e) in fourier.buffer.iter().zip(expected.iter()) {
        assert!((a - e).abs() <= eps, "hann factor {} vs {}", a, e);
    }
}

#[test]
fn stereo_downmix_halves_each_channel() {
    assert_eq!(stereo_to_mono(4 * FP_ONE, 2 * FP_ONE), 3 * FP_ONE);
}

#[test]
fn pcm_encoding_is_asymmetric() {
    assert_eq!(pcm16_of_sample(0), 0);
    assert_eq!(pcm16_of_sample(FP_ONE), 32767 / 2);
    assert_eq!(pcm16_of_sample(-FP_ONE), -16384);
    assert_eq!(pcm16_of_sample(i64::MAX), i16::MAX);
    assert_eq!(pcm16_of_sample(i64::MIN), i16::MIN);
}

#[test]
fn wav_header_is_canonical() {
    let header = wav_header(88200, 44100);
    assert_eq!(header.len(), 44);
    assert_eq!(&header[0..4], b"RIFF");
    assert_eq!(&header[8..12], b"WAVE");
    assert_eq!(&header[12..16], b"fmt ");
    assert_eq!(header[22], 2); // stereo
    let rate = u32::from_le_bytes([header[24], header[25], header[26], header[27]]);
    assert_eq!(rate, 44100);
    let data = u32::from_le_bytes([header[40], header[41], header[42], header[43]]);
    assert_eq!(data, 88200 * 4);
}

#[test]
fn kernel_accuracy_spot_checks() {
    let eps = q(1e-9);
    let s = sin_turn(1, 4);
    assert!((s - FP_ONE).abs() <= eps);
    let s = sin_turn(1, 12);
    assert!((s - q(0.5)).abs() <= eps);
    let p = pow_q48(q(0.25), q(0.5));
    assert!((p - q(0.5)).abs() <= eps);
    let p = pow_q48(q(0.7), FP_ONE);
    assert!((p - q(0.7)).abs() <= eps);
}

#[test]
fn moving_average_resize_keeps_recent_samples() {
    let builder = DSPBuilder::new(SAMPLE_RATE);
    let mut avg = builder.build_moving_average(3);
    for x in [1i64, 2, 3, 4] {
        avg.tick(x * FP_ONE);
    }
    // Shrinking keeps the two most recent samples (3 and 4).
    avg.set_window_size(2);
    assert_eq!(avg.tick(10 * FP_ONE), 7 * FP_ONE); // (10 + 4) / 2

    let mut avg = builder.build_moving_average(2);
    avg.tick(5 * FP_ONE);
    avg.tick(7 * FP_ONE);
    // Growing keeps both samples and opens a third slot.
    avg.set_window_size(3);
    assert_eq!(avg.tick(3 * FP_ONE), 5 * FP_ONE); // (3 + 7 + 5) / 3
}
