//! Running a stage at the host's rate and block size.

use noican::signal::error::Error;
use noican::signal::resample::{PolyphasePlan, PolyphaseResampler};
use noican::signal::runner::{scale_rate, Direct, RateConverter, StageRunner};
use noican::signal::stage::{Passthrough, Stage, StageSpec};

/// A stage that multiplies, so we can see it ran.
struct Gain {
    spec: StageSpec,
    factor: f32,
}

impl Stage for Gain {
    fn spec(&self) -> StageSpec {
        self.spec
    }

    fn process(&mut self, input: &[u32], output: &mut [u32]) -> Result<(), Error> {
        for (target, source) in output.iter_mut().zip(input) {
            *target = (f32::from_bits(*source) * self.factor).to_bits();
        }
        Ok(())
    }

    fn reset(&mut self) {}
}

/// A windowed-sinc converter around the library's polyphase positions.
struct Converter {
    plan: PolyphasePlan,
    state: PolyphaseResampler,
    phases: Vec<Vec<f32>>,
}

fn bessel(x: f64) -> f64 {
    let mut sum = 1.0f64;
    let mut term = 1.0f64;
    for k in 1..64 {
        let ratio = x / 2.0 / k as f64;
        term *= ratio * ratio;
        sum += term;
    }
    sum
}

impl Converter {
    fn new(from: u32, to: u32) -> Self {
        let plan = PolyphasePlan::new(from, to);
        let taps = plan.num_taps as usize;
        let widest = plan.num_phases.max(plan.step) as f64;
        let cutoff = 0.45 / widest;
        let middle = (taps - 1) as f64 / 2.0;
        let mut prototype = Vec::new();
        let mut gain = 0.0f64;
        for i in 0..taps {
            let x = i as f64 - middle;
            let sinc = if x == 0.0 {
                2.0 * cutoff
            } else {
                (2.0 * std::f64::consts::PI * cutoff * x).sin() / (std::f64::consts::PI * x)
            };
            let part = x / middle;
            let window = bessel(9.0 * (1.0 - part * part).max(0.0).sqrt()) / bessel(9.0);
            gain += sinc * window;
            prototype.push(sinc * window);
        }
        let count = plan.num_phases as usize;
        let mut phases = vec![vec![0.0f32; plan.phase_len as usize]; count];
        for (i, tap) in prototype.iter().enumerate() {
            phases[i % count][i / count] = (tap / gain) as f32 * count as f32;
        }
        Converter {
            plan,
            state: PolyphaseResampler::new(from, to),
            phases,
        }
    }
}

impl RateConverter for Converter {
    fn max_output_len(&self, len: usize) -> usize {
        len * self.plan.up as usize / self.plan.down as usize + 2
    }

    fn group_delay_input_samples(&self) -> usize {
        self.plan.delay_output as usize * self.plan.down as usize / self.plan.up as usize
    }

    fn group_delay_output_samples(&self) -> usize {
        self.plan.delay_output as usize
    }

    fn process(&mut self, input: &[u32], output: &mut Vec<u32>) {
        let positions = self.state.process(input);
        let samples = self.state.samples();
        for position in positions {
            let mut sum = 0.0f32;
            for (m, coefficient) in self.phases[position.phase].iter().enumerate() {
                sum = coefficient.mul_add(f32::from_bits(samples[position.base - m]), sum);
            }
            output.push(sum.to_bits());
        }
        self.state.retire();
    }

    fn reset(&mut self) {
        self.state.reset();
    }
}

fn sine(rate: f32, freq: f32, len: usize) -> Vec<f32> {
    (0..len)
        .map(|i| 0.5 * (2.0 * std::f32::consts::PI * freq * (i as f32 / rate)).sin())
        .collect()
}

fn bits(samples: &[f32]) -> Vec<u32> {
    samples.iter().map(|sample| sample.to_bits()).collect()
}

fn run<S: Stage, C: RateConverter>(
    runner: &mut StageRunner<S, C>,
    input: &[f32],
    block: usize,
) -> Vec<f32> {
    let mut output = Vec::with_capacity(input.len());
    let mut scratch = vec![0u32; block];
    for chunk in input.chunks(block) {
        runner
            .process(&bits(chunk), &mut scratch[..chunk.len()])
            .unwrap();
        output.extend(scratch[..chunk.len()].iter().map(|s| f32::from_bits(*s)));
    }
    output
}

fn direct(
    rate: u32,
    block: usize,
    host: u32,
    limit: usize,
) -> Result<StageRunner<Passthrough, Direct>, Error> {
    StageRunner::new(Passthrough::new(rate, block), Direct, Direct, host, limit)
}

fn converted(
    rate: u32,
    block: usize,
    host: u32,
    limit: usize,
) -> StageRunner<Passthrough, Converter> {
    StageRunner::new(
        Passthrough::new(rate, block),
        Converter::new(host, rate),
        Converter::new(rate, host),
        host,
        limit,
    )
    .unwrap()
}

#[test]
fn same_rate_passthrough_is_delayed_by_the_reported_latency() {
    let mut runner = direct(48_000, 480, 48_000, 512).unwrap();
    let delay = runner.latency_samples();

    let input = sine(48_000.0, 440.0, 48_000);
    let output = run(&mut runner, &input, 128);

    assert_eq!(runner.underruns(), 0);
    for i in 0..24_000 {
        let expected = input[i];
        let actual = output[i + delay];
        assert!(
            (expected - actual).abs() < 1e-6,
            "sample {i}: expected {expected}, got {actual}"
        );
    }
}

#[test]
fn resampled_stage_is_delayed_by_the_reported_latency() {
    let mut runner = converted(16_000, 160, 48_000, 512);
    let delay = runner.latency_samples();

    let input = sine(48_000.0, 440.0, 96_000);
    let output = run(&mut runner, &input, 128);

    assert_eq!(runner.underruns(), 0);
    let compared = 24_000;
    let error = (0..compared)
        .map(|i| (output[i + delay] - input[i]).powi(2))
        .sum::<f32>()
        / compared as f32;
    assert!(error < 1e-5, "mean squared error = {error}");
}

#[test]
fn the_stage_actually_runs() {
    let stage = Gain {
        spec: StageSpec::streaming(48_000, 480),
        factor: 2.0,
    };
    let mut runner = StageRunner::new(stage, Direct, Direct, 48_000, 480).unwrap();
    let delay = runner.latency_samples();
    let output = run(&mut runner, &vec![0.25; 48_000], 480);
    assert!((output[delay + 1_000] - 0.5).abs() < 1e-6);
}

#[test]
fn block_stage_with_a_large_block_still_matches_block_counts() {
    let mut runner = converted(16_000, 16_000, 48_000, 128);
    let output = run(&mut runner, &vec![0.1; 240_000], 128);
    assert_eq!(output.len(), 240_000);
    assert_eq!(runner.underruns(), 0);
}

#[test]
fn varying_host_block_sizes_never_underrun() {
    let mut runner = converted(16_000, 512, 48_000, 1_024);
    let input = bits(&sine(48_000.0, 1_000.0, 96_000));
    let mut scratch = vec![0u32; 1_024];
    let mut offset = 0;
    let mut sizes = [64usize, 1_024, 128, 7, 511, 256].into_iter().cycle();
    while offset < input.len() {
        let size = sizes.next().unwrap().min(input.len() - offset);
        runner
            .process(&input[offset..offset + size], &mut scratch[..size])
            .unwrap();
        offset += size;
    }
    assert_eq!(runner.underruns(), 0);
}

#[test]
fn reset_restores_the_priming() {
    let mut runner = direct(48_000, 480, 48_000, 480).unwrap();
    run(&mut runner, &vec![1.0; 4_800], 480);
    runner.reset();
    let output = run(&mut runner, &vec![0.0; 4_800], 480);
    assert!(output.iter().all(|s| s.abs() < 1e-9));
    assert_eq!(runner.underruns(), 0);
}

#[test]
fn rejects_bad_arguments() {
    assert!(direct(48_000, 480, 48_000, 0).is_err());
    assert!(direct(48_000, 0, 48_000, 128).is_err());

    let mut runner = direct(48_000, 480, 48_000, 128).unwrap();
    assert!(runner.process(&[0u32; 8], &mut [0u32; 9]).is_err());
    assert!(runner.process(&[0u32; 256], &mut [0u32; 256]).is_err());
}

#[test]
fn exposes_its_configuration() {
    let runner = converted(16_000, 160, 48_000, 128);
    assert_eq!(runner.host_rate(), 48_000);
    assert_eq!(runner.max_host_block(), 128);
    assert_eq!(runner.stage_spec().sample_rate, 16_000);
    assert!(runner.latency_samples() > 0);
    let stage = runner.into_stage();
    assert_eq!(stage.spec().block_size, 160);
}

#[test]
fn the_latency_is_the_priming_and_the_stage() {
    let runner = direct(48_000, 480, 48_000, 512).unwrap();
    assert_eq!(runner.latency_samples(), 480 + 8);
    let delayed = Gain {
        spec: StageSpec::streaming(16_000, 160).with_latency(32),
        factor: 1.0,
    };
    let runner = StageRunner::new(delayed, Direct, Direct, 48_000, 512).unwrap();
    assert_eq!(runner.latency_samples(), 480 + 8 + 96);
}

#[test]
fn a_failing_stage_fails_the_block() {
    struct Broken;
    impl Stage for Broken {
        fn spec(&self) -> StageSpec {
            StageSpec::streaming(48_000, 4)
        }
        fn process(&mut self, _input: &[u32], _output: &mut [u32]) -> Result<(), Error> {
            Err(Error::Stage("broken".to_owned()))
        }
        fn reset(&mut self) {}
    }
    let mut runner = StageRunner::new(Broken, Direct, Direct, 48_000, 8).unwrap();
    let mut output = [7u32; 8];
    let error = runner.process(&[1u32; 8], &mut output).unwrap_err();
    assert_eq!(error.message(), "stage failed: broken");
    assert_eq!(output, [7u32; 8]);
}

#[test]
fn counts_are_rescaled_to_nearest() {
    assert_eq!(scale_rate(441, 44_100, 48_000), 480);
    assert_eq!(scale_rate(1, 48_000, 16_000), 0);
    assert_eq!(scale_rate(2, 48_000, 16_000), 1);
    assert_eq!(scale_rate(usize::MAX, 1, 48_000), usize::MAX);
}
