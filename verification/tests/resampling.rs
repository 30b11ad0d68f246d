//! Rate conversion: the library says which samples meet which taps, and the
//! sums are taken here.

use noican::signal::block::{BlockStage, FrameProcessor, StageError};
use noican::signal::capture::{InputResampler, MAX_NATIVE_RATE, MIN_NATIVE_RATE};
use noican::signal::framed::FramedStage;
use noican::signal::mix::IntensityControl;
use noican::signal::resample::{
    gcd, taps_for_factor, Decimator, Interpolator, PolyphasePlan, PolyphaseResampler,
};
use noican::signal::runner::{Direct, RateConverter};
use noican::signal::switch::SwitchingEngine;

fn bits(samples: &[f32]) -> Vec<u32> {
    samples.iter().map(|sample| sample.to_bits()).collect()
}

fn floats(samples: &[u32]) -> Vec<f32> {
    samples.iter().map(|sample| f32::from_bits(*sample)).collect()
}

fn bessel(x: f64) -> f64 {
    let mut sum = 1.0f64;
    let mut term = 1.0f64;
    for k in 1..64 {
        let ratio = x / 2.0 / k as f64;
        term *= ratio * ratio;
        sum += term;
    }
    sum
}

/// A Kaiser-windowed sinc lowpass with unity gain at zero frequency.
fn lowpass(taps: usize, cutoff: f64) -> Vec<f32> {
    let middle = (taps - 1) as f64 / 2.0;
    let mut design = Vec::new();
    let mut gain = 0.0f64;
    for i in 0..taps {
        let x = i as f64 - middle;
        let sinc = if x == 0.0 {
            2.0 * cutoff
        } else {
            (2.0 * std::f64::consts::PI * cutoff * x).sin() / (std::f64::consts::PI * x)
        };
        let part = x / middle;
        let window = bessel(9.0 * (1.0 - part * part).max(0.0).sqrt()) / bessel(9.0);
        gain += sinc * window;
        design.push(sinc * window);
    }
    design.iter().map(|tap| (tap / gain) as f32).collect()
}

fn decimate(decimator: &mut Decimator, factor: usize, input: &[f32], output: &mut Vec<f32>) {
    let taps = lowpass(taps_for_factor(factor), 0.45 / factor as f64);
    let work = decimator.process(&bits(input));
    for index in 0..input.len() / factor {
        let newest = decimator.newest(index, input.len());
        let mut sum = 0.0f32;
        for (k, tap) in taps.iter().enumerate() {
            sum = tap.mul_add(f32::from_bits(work[newest - k]), sum);
        }
        output.push(sum);
    }
}

fn interpolate(interpolator: &mut Interpolator, factor: usize, input: &[f32], output: &mut Vec<f32>) {
    let count = taps_for_factor(factor);
    let taps = lowpass(count, 0.45 / factor as f64);
    let length = count.div_ceil(factor);
    let mut phases = vec![vec![0.0f32; length]; factor];
    for (i, tap) in taps.iter().enumerate() {
        let (phase, place) = interpolator.phase_of(i);
        phases[phase][place] = tap * factor as f32;
    }
    let work = interpolator.process(&bits(input));
    for n in 0..input.len() {
        let newest = length - 1 + n;
        for phase in &phases {
            let mut sum = 0.0f32;
            for (m, coefficient) in phase.iter().enumerate() {
                sum = coefficient.mul_add(f32::from_bits(work[newest - m]), sum);
            }
            output.push(sum);
        }
    }
}

fn sine(rate: u32, freq: f32, len: usize) -> Vec<f32> {
    (0..len)
        .map(|n| {
            let phase = 2.0 * std::f64::consts::PI * f64::from(freq) * n as f64 / f64::from(rate);
            (phase.sin() * 0.5) as f32
        })
        .collect()
}

#[test]
fn round_trip_by_three_preserves_sine() {
    let factor = 3;
    let input = sine(48_000, 1000.0, 14_400);
    let mut decim = Decimator::new(factor);
    let mut interp = Interpolator::new(factor);
    let mut low = Vec::new();
    decimate(&mut decim, factor, &input, &mut low);
    assert_eq!(low.len(), input.len() / factor);
    let mut high = Vec::new();
    interpolate(&mut interp, factor, &low, &mut high);
    assert_eq!(high.len(), input.len());

    let delay = decim.delay_input_samples() + interp.delay_output_samples();
    let start = delay + 500;
    let mut err_energy = 0.0f64;
    let mut sig_energy = 0.0f64;
    for n in start..input.len() {
        let out = f64::from(high[n]);
        let reference = f64::from(input[n - delay]);
        err_energy = (out - reference).mul_add(out - reference, err_energy);
        sig_energy += reference * reference;
    }
    let snr_db = 10.0 * (sig_energy / err_energy).log10();
    assert!(snr_db > 50.0, "SNR too low: {snr_db} dB");
}

#[test]
fn chunked_streaming_matches_single_call() {
    let factor = 3;
    let input = sine(48_000, 700.0, 4800);
    let mut one = Vec::new();
    decimate(&mut Decimator::new(factor), factor, &input, &mut one);

    let mut chunked = Vec::new();
    let mut decim = Decimator::new(factor);
    for chunk in input.chunks(480) {
        decimate(&mut decim, factor, chunk, &mut chunked);
    }
    assert_eq!(one, chunked);
}

fn bank(plan: &PolyphasePlan) -> Vec<Vec<f32>> {
    let count = plan.num_phases as usize;
    let widest = plan.num_phases.max(plan.step) as f64;
    let taps = lowpass(plan.num_taps as usize, 0.45 / widest);
    let mut phases = vec![vec![0.0f32; plan.phase_len as usize]; count];
    for (i, tap) in taps.iter().enumerate() {
        phases[i % count][i / count] = tap * count as f32;
    }
    phases
}

fn polyphase(
    resampler: &mut PolyphaseResampler,
    phases: &[Vec<f32>],
    input: &[f32],
    output: &mut Vec<f32>,
) {
    let positions = resampler.process(&bits(input));
    let samples = resampler.samples();
    for position in positions {
        let mut sum = 0.0f32;
        for (m, coefficient) in phases[position.phase].iter().enumerate() {
            sum = coefficient.mul_add(f32::from_bits(samples[position.base - m]), sum);
        }
        output.push(sum);
    }
    resampler.retire();
}

fn convert(from: u32, to: u32, input: &[f32], chunk: usize) -> Vec<f32> {
    let phases = bank(&PolyphasePlan::new(from, to));
    let mut resampler = PolyphaseResampler::new(from, to);
    let mut output = Vec::new();
    for piece in input.chunks(chunk) {
        polyphase(&mut resampler, &phases, piece, &mut output);
    }
    output
}

fn sine_snr_db(output: &[f32], rate: u32, freq: f64, delay: usize, skip: usize) -> f64 {
    let mut err = 0.0f64;
    let mut sig = 0.0f64;
    for (n, out) in output.iter().enumerate().skip(skip) {
        let position = (n - delay) as f64;
        let reference =
            (2.0 * std::f64::consts::PI * freq * position / f64::from(rate)).sin() * 0.5;
        err += (f64::from(*out) - reference).powi(2);
        sig += reference * reference;
    }
    10.0 * (sig / err).log10()
}

fn rms(samples: &[f32]) -> f64 {
    let energy: f64 = samples.iter().map(|s| f64::from(*s).powi(2)).sum();
    (energy / samples.len() as f64).sqrt()
}

#[test]
fn polyphase_reduces_ratios_and_reports_integer_delays() {
    let cases = [
        (44_100u32, (160u64, 147u64)),
        (22_050, (320, 147)),
        (11_025, (640, 147)),
        (16_000, (3, 1)),
        (24_000, (2, 1)),
        (8_000, (6, 1)),
        (32_000, (3, 2)),
        (48_000, (1, 1)),
        (88_200, (80, 147)),
        (96_000, (1, 2)),
    ];
    for (rate, ratio) in cases {
        let resampler = PolyphaseResampler::new(rate, 48_000);
        assert_eq!(resampler.ratio(), ratio, "{rate} Hz");
        if ratio.1 == 1 {
            assert_eq!(
                resampler.delay_output_samples() as usize,
                (taps_for_factor(ratio.0 as usize) - 1) / 2,
                "{rate} Hz"
            );
        }
    }
    assert_eq!(
        PolyphaseResampler::new(44_100, 48_000).delay_output_samples(),
        22
    );
}

#[test]
fn polyphase_output_count_follows_the_ratio() {
    for (rate, chunk) in [
        (44_100u32, 441usize),
        (22_050, 480),
        (96_000, 512),
        (16_000, 160),
    ] {
        let input = vec![0u32; rate as usize * 2];
        let mut resampler = PolyphaseResampler::new(rate, 48_000);
        let mut count = 0;
        for piece in input.chunks(chunk) {
            count += resampler.process(piece).len();
            resampler.retire();
        }
        let expected = input.len() * 48_000 / rate as usize;
        assert!(
            count.abs_diff(expected) <= 3,
            "{rate} Hz: {count} outputs, expected about {expected}"
        );
    }
}

#[test]
fn polyphase_preserves_a_sine_at_every_capture_rate() {
    for rate in [
        8_000u32, 11_025, 16_000, 22_050, 24_000, 32_000, 44_100, 48_000, 88_200, 96_000,
    ] {
        let input = sine(rate, 1000.0, rate as usize);
        let delay = PolyphaseResampler::new(rate, 48_000).delay_output_samples() as usize;
        let output = convert(rate, 48_000, &input, 480);
        let snr = sine_snr_db(&output, 48_000, 1000.0, delay, 2 * delay + 500);
        assert!(snr > 50.0, "{rate} Hz: SNR too low: {snr} dB");
    }
}

#[test]
fn polyphase_downsampling_suppresses_aliasing() {
    let above = sine(96_000, 30_000.0, 96_000);
    let output = convert(96_000, 48_000, &above, 480);
    let leak_db = 20.0 * (rms(&output[4800..]) / (0.5 / std::f64::consts::SQRT_2)).log10();
    assert!(leak_db < -50.0, "30 kHz tone leaked at {leak_db} dB");

    let inside = sine(96_000, 5000.0, 96_000);
    let delay = PolyphaseResampler::new(96_000, 48_000).delay_output_samples() as usize;
    let output = convert(96_000, 48_000, &inside, 480);
    let snr = sine_snr_db(&output, 48_000, 5000.0, delay, 2 * delay + 500);
    assert!(snr > 50.0, "5 kHz tone SNR too low: {snr} dB");
}

#[test]
fn polyphase_upsampling_keeps_the_top_of_the_band() {
    let input = sine(44_100, 15_000.0, 44_100);
    let delay = PolyphaseResampler::new(44_100, 48_000).delay_output_samples() as usize;
    let output = convert(44_100, 48_000, &input, 480);
    let snr = sine_snr_db(&output, 48_000, 15_000.0, delay, 2 * delay + 500);
    assert!(snr > 60.0, "15 kHz tone SNR too low: {snr} dB");
}

#[test]
fn polyphase_chunks_do_not_matter() {
    let input = sine(44_100, 700.0, 22_050);
    let one = convert(44_100, 48_000, &input, input.len());
    let chunked = convert(44_100, 48_000, &input, 97);
    assert_eq!(one, chunked);
}

#[test]
fn polyphase_reset_restarts_the_stream() {
    let input = sine(44_100, 1000.0, 4410);
    let phases = bank(&PolyphasePlan::new(44_100, 48_000));
    let mut resampler = PolyphaseResampler::new(44_100, 48_000);
    let mut first = Vec::new();
    polyphase(&mut resampler, &phases, &input, &mut first);
    resampler.reset();
    let mut second = Vec::new();
    polyphase(&mut resampler, &phases, &input, &mut second);
    assert_eq!(first, second);
}

#[test]
fn the_divisor_is_the_greatest() {
    assert_eq!(gcd(44_100, 48_000), 300);
    assert_eq!(gcd(7, 0), 7);
    assert_eq!(gcd(0, 7), 7);
    assert_eq!(gcd(13, 8), 1);
}

fn pseudo_speech(rate: u32, len: usize) -> Vec<f32> {
    (0..len)
        .map(|n| {
            let t = n as f32 / rate as f32;
            let f0 = (3.0 * t).sin().mul_add(20.0, 130.0);
            let phase = 2.0 * std::f32::consts::PI * f0 * t;
            let voiced: f32 = (1..=8u32)
                .map(|h| {
                    let harmonic = h as f32;
                    (phase * harmonic).sin() / harmonic
                })
                .sum();
            let envelope = 0.5f32.mul_add((2.0 * std::f32::consts::PI * 2.5 * t).sin(), 0.5);
            voiced * envelope * 0.15
        })
        .collect()
}

fn correlation_at(reference: &[f32], delayed: &[f32], lag: usize) -> f64 {
    let overlap = reference.len().min(delayed.len().saturating_sub(lag));
    let mut dot = 0.0f64;
    let mut energy_ref = 0.0f64;
    let mut energy_del = 0.0f64;
    for index in 0..overlap {
        let a = f64::from(reference[index]);
        let b = f64::from(delayed[index + lag]);
        dot = a.mul_add(b, dot);
        energy_ref = a.mul_add(a, energy_ref);
        energy_del = b.mul_add(b, energy_del);
    }
    let denom = (energy_ref * energy_del).sqrt();
    if denom > 0.0 {
        dot / denom
    } else {
        0.0
    }
}

fn capture(resampler: &mut InputResampler, phases: &[Vec<f32>], input: &[f32]) -> Vec<f32> {
    let mut output = Vec::new();
    let positions = resampler.process(&bits(input));
    let samples = resampler.samples();
    for position in positions {
        let mut sum = 0.0f32;
        for (m, coefficient) in phases[position.phase].iter().enumerate() {
            sum = coefficient.mul_add(f32::from_bits(samples[position.base - m]), sum);
        }
        output.push(sum);
    }
    resampler.retire();
    output
}

#[test]
fn input_resampler_reports_its_exact_delay_for_every_rate() {
    let cases = [
        (24_000u32, (2u64, 1u64)),
        (16_000, (3, 1)),
        (12_000, (4, 1)),
        (8_000, (6, 1)),
        (44_100, (160, 147)),
        (22_050, (320, 147)),
        (11_025, (640, 147)),
        (88_200, (80, 147)),
        (96_000, (1, 2)),
    ];
    for (native, ratio) in cases {
        let mut resampler = InputResampler::new(native).expect("supported rate");
        assert_eq!(resampler.ratio(), ratio, "{native} Hz");
        assert_eq!(resampler.native_rate(), native);
        let phases = bank(&PolyphasePlan::new(native, 48_000));
        let captured = pseudo_speech(native, native as usize);
        let mut output = Vec::new();
        for chunk in captured.chunks(480) {
            output.extend(capture(&mut resampler, &phases, chunk));
        }
        let delay = resampler.delay_output_samples() as usize;
        let reference = pseudo_speech(48_000, output.len());
        let best = (0..=2 * delay + 500)
            .map(|lag| (lag, correlation_at(&reference, &output, lag)))
            .fold((0usize, f64::MIN), |best, next| {
                if next.1 > best.1 {
                    next
                } else {
                    best
                }
            });
        assert_eq!(
            best.0, delay,
            "{native} Hz: cross-correlation peak off the reported delay"
        );
        assert!(best.1 > 0.999, "{native} Hz: correlation too low: {}", best.1);
    }
}

#[test]
fn input_resampler_rejects_rates_outside_the_supported_range() {
    for rate in [0u32, 7_999, 192_001, u32::MAX] {
        match InputResampler::new(rate) {
            Err(StageError::Unsupported(message)) => assert!(
                message.contains(&rate.to_string()),
                "unhelpful message for {rate} Hz: {message}"
            ),
            other => panic!("must be rejected: {other:?}"),
        }
    }
    for rate in [MIN_NATIVE_RATE, 44_100, 48_000, MAX_NATIVE_RATE] {
        assert!(InputResampler::new(rate).is_ok(), "{rate} Hz must be accepted");
    }
}

#[test]
fn input_resampler_converts_native_counts_to_engine_samples() {
    let at_44k = InputResampler::new(44_100).expect("supported rate");
    assert_eq!(at_44k.to_engine_samples(147), 160);
    assert_eq!(at_44k.to_engine_samples(441), 480);
    assert_eq!(at_44k.to_engine_samples(0), 0);
    let at_16k = InputResampler::new(16_000).expect("supported rate");
    assert_eq!(at_16k.to_engine_samples(160), 480);
    let at_96k = InputResampler::new(96_000).expect("supported rate");
    assert_eq!(at_96k.to_engine_samples(961), 481);
}

#[test]
fn input_resampler_chunked_matches_single_call() {
    for (native, chunk) in [(16_000u32, 160usize), (44_100, 97)] {
        let input = sine(native, 440.0, 4800);
        let phases = bank(&PolyphasePlan::new(native, 48_000));
        let mut whole = InputResampler::new(native).expect("supported rate");
        let one = capture(&mut whole, &phases, &input);

        let mut chunked = Vec::new();
        let mut resampler = InputResampler::new(native).expect("supported rate");
        for piece in input.chunks(chunk) {
            chunked.extend(capture(&mut resampler, &phases, piece));
        }
        assert_eq!(one, chunked, "{native} Hz");
        resampler.reset();
        assert_eq!(capture(&mut resampler, &phases, &input), one);
    }
}

/// Silent stage with a reported latency, standing in for a model.
struct Silent {
    latency: usize,
}

impl BlockStage for Silent {
    type State = ();

    fn id(&self) -> String {
        "silent".to_owned()
    }

    fn process_block(&mut self, input: &[u32], output: &mut [u32]) -> Result<(), StageError> {
        if input.len() != output.len() {
            return Err(StageError::BufferLen {
                expected: input.len(),
                got: output.len(),
            });
        }
        output.fill(0);
        Ok(())
    }

    fn latency_samples(&self) -> usize {
        self.latency
    }

    fn reset(&mut self) {}
}

fn check_alignment(native_rate: u32) {
    let captured = pseudo_speech(native_rate, native_rate as usize * 2);
    let mut resampler = InputResampler::new(native_rate).expect("supported rate");
    let phases = bank(&PolyphasePlan::new(native_rate, 48_000));
    let stage_latency = 1234;
    let (_publisher, mut engine) = SwitchingEngine::new(
        Silent {
            latency: stage_latency,
        },
        240,
        IntensityControl::new(0.5f32.to_bits()).reader(),
    )
    .expect("engine builds");

    let mut engine_input = Vec::new();
    for chunk in captured.chunks(160) {
        engine_input.extend(capture(&mut resampler, &phases, chunk));
    }
    let mut engine_output = Vec::new();
    for block in engine_input.chunks(480) {
        let mut wet = vec![0u32; block.len()];
        let plan = engine
            .process_block(&bits(block), &mut wet)
            .expect("engine block");
        let share = f32::from_bits(plan.to);
        for (wet, dry) in wet.iter().zip(&plan.dry) {
            let half = share.mul_add(f32::from_bits(*wet), (1.0 - share) * f32::from_bits(*dry));
            engine_output.push(half);
        }
    }

    for n in stage_latency + 500..engine_output.len() {
        let expected = engine_input[n - stage_latency] * 0.5;
        assert!(
            (engine_output[n] - expected).abs() < 1e-5,
            "{native_rate} Hz, sample {n}: {} != {expected}",
            engine_output[n]
        );
    }
    let mut best = (0usize, f64::MIN);
    for lag in 0..=4800 {
        let corr = correlation_at(&engine_input, &engine_output, lag);
        if corr > best.1 {
            best = (lag, corr);
        }
    }
    assert_eq!(
        best.0, stage_latency,
        "{native_rate} Hz: residual dry/wet misalignment"
    );
    assert!(
        best.1 > 0.999,
        "{native_rate} Hz: correlation too low: {}",
        best.1
    );
}

#[test]
fn strength_alignment_survives_the_input_resampler() {
    for native_rate in [16_000u32, 44_100] {
        check_alignment(native_rate);
    }
}

/// Identity frame processor at an arbitrary rate and frame size.
struct Identity {
    rate: u32,
    frame: usize,
}

impl FrameProcessor for Identity {
    fn id(&self) -> String {
        "identity".to_owned()
    }
    fn sample_rate(&self) -> u32 {
        self.rate
    }
    fn frame_len(&self) -> usize {
        self.frame
    }
    fn output_delay(&self) -> usize {
        0
    }
    fn process_frame(&mut self, input: &[u32], output: &mut [u32]) -> Result<(), StageError> {
        output.copy_from_slice(input);
        Ok(())
    }
    fn reset(&mut self) {}
}

/// Decimates or interpolates by an integer factor.
enum ByThree {
    Down(Decimator),
    Up(Interpolator),
}

impl RateConverter for ByThree {
    fn max_output_len(&self, len: usize) -> usize {
        match self {
            ByThree::Down(_) => len / 3,
            ByThree::Up(_) => len * 3,
        }
    }
    fn group_delay_input_samples(&self) -> usize {
        match self {
            ByThree::Down(decimator) => decimator.delay_input_samples(),
            ByThree::Up(interpolator) => interpolator.delay_output_samples() / 3,
        }
    }
    fn group_delay_output_samples(&self) -> usize {
        match self {
            ByThree::Down(decimator) => decimator.delay_input_samples() / 3,
            ByThree::Up(interpolator) => interpolator.delay_output_samples(),
        }
    }
    fn process(&mut self, input: &[u32], output: &mut Vec<u32>) {
        let mut converted = Vec::new();
        match self {
            ByThree::Down(decimator) => decimate(decimator, 3, &floats(input), &mut converted),
            ByThree::Up(interpolator) => {
                interpolate(interpolator, 3, &floats(input), &mut converted);
            }
        }
        output.extend(bits(&converted));
    }
    fn reset(&mut self) {
        match self {
            ByThree::Down(decimator) => decimator.reset(),
            ByThree::Up(interpolator) => interpolator.reset(),
        }
    }
}

fn sixteen() -> FramedStage<Identity, ByThree> {
    FramedStage::new(
        Identity {
            rate: 16_000,
            frame: 160,
        },
        ByThree::Down(Decimator::new(3)),
        ByThree::Up(Interpolator::new(3)),
    )
    .expect("valid config")
}

fn run_blocks<S: BlockStage>(stage: &mut S, input: &[f32], block: usize) -> Vec<f32> {
    let mut out = vec![0u32; input.len()];
    for (i, o) in bits(input).chunks(block).zip(out.chunks_mut(block)) {
        stage.process_block(i, o).expect("processing failed");
    }
    floats(&out)
}

#[test]
fn native_rate_identity_is_pure_delay() {
    let mut stage = FramedStage::new(
        Identity {
            rate: 48_000,
            frame: 480,
        },
        Direct,
        Direct,
    )
    .expect("valid config");
    assert_eq!(stage.latency_samples(), 480);
    let input = sine(48_000, 440.0, 4800);
    let out = run_blocks(&mut stage, &input, 128);
    for n in 480..input.len() {
        assert!((out[n] - input[n - 480]).abs() < 1e-6, "mismatch at {n}");
    }
    assert!(out[..480].iter().all(|s| *s == 0.0));
}

#[test]
fn resampled_identity_matches_reported_latency() {
    let mut stage = sixteen();
    let delay = stage.latency_samples();
    assert_eq!(delay, 480 + 60 + 60);
    let input = sine(48_000, 1000.0, 19_200);
    let out = run_blocks(&mut stage, &input, 128);
    let mut err = 0.0f64;
    let mut sig = 0.0f64;
    for n in delay + 500..input.len() {
        let e = f64::from(out[n]) - f64::from(input[n - delay]);
        err += e * e;
        sig += f64::from(input[n - delay]).powi(2);
    }
    let snr_db = 10.0 * (sig / err).log10();
    assert!(snr_db > 50.0, "SNR too low: {snr_db} dB");
}

#[test]
fn irregular_block_sizes_work() {
    let mut stage = sixteen();
    let input = sine(48_000, 350.0, 9700);
    let out = run_blocks(&mut stage, &input, 97);
    assert_eq!(out.len(), input.len());
    assert!(out.iter().all(|s| s.is_finite()));
}

#[test]
fn a_rate_that_does_not_divide_the_engine_rate_is_refused() {
    let refused = FramedStage::new(
        Identity {
            rate: 44_100,
            frame: 441,
        },
        Direct,
        Direct,
    );
    match refused {
        Err(StageError::Unsupported(message)) => assert_eq!(
            message,
            "sample rate 44100 Hz does not divide the 48000 Hz engine rate"
        ),
        _ => panic!("must be refused"),
    }
}

#[test]
fn the_wrapped_processor_can_be_reached() {
    let mut stage = sixteen();
    assert_eq!(stage.processor().frame_len(), 160);
    stage.processor_mut().rate = 16_000;
    assert_eq!(stage.id(), "identity");
    let mut short = [0u32; 3];
    assert!(matches!(
        stage.process_block(&[0u32; 4], &mut short),
        Err(StageError::BufferLen {
            expected: 4,
            got: 3
        })
    ));
    stage.reset();
}
