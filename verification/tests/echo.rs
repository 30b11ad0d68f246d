//! The preview's echo canceller: the library decides when, `sonora` cancels.

use noican::device::aec::SelfMonitorAec;
use noican::device::monitor::MonitorState;
use noican::device::worker::WORKER_BLOCK_SAMPLES;
use noican::signal::block::{BlockStage, StageError};
use noican::signal::mix::IntensityControl;
use noican::signal::switch::SwitchingEngine;
use realfft::num_complex::Complex64;
use realfft::RealFftPlanner;
use sonora::config::EchoCanceller;
use sonora::{AudioProcessing, Config, StreamConfig};

const RATE: usize = 48_000;
const BLOCK: usize = WORKER_BLOCK_SAMPLES;
const STREAM: StreamConfig = StreamConfig::new(48_000, 1);

/// A canceller with directly controllable state and generation.
struct Canceller {
    apm: AudioProcessing,
    schedule: SelfMonitorAec,
    state: MonitorState,
    generation: u64,
}

fn aec(state: MonitorState) -> Canceller {
    let apm = AudioProcessing::builder()
        .config(Config {
            echo_canceller: Some(EchoCanceller::default()),
            ..Default::default()
        })
        .capture_config(STREAM)
        .render_config(STREAM)
        .build();
    Canceller {
        apm,
        schedule: SelfMonitorAec::new(),
        state,
        generation: 0,
    }
}

impl Canceller {
    fn process_capture(&mut self, block: &mut [f32]) {
        let step = self
            .schedule
            .process_capture(self.state, self.generation, block.len());
        if step.reset {
            self.apm.initialize(STREAM, STREAM, STREAM, STREAM);
        }
        if step.cancel {
            let mut output = vec![0.0f32; BLOCK];
            let cancelled = self
                .apm
                .process_capture_f32(&[&*block], &mut [&mut output[..]]);
            if cancelled.is_ok() {
                block.copy_from_slice(&output);
            }
        }
    }

    fn feed_render(&mut self, block: &[f32], teed: bool) {
        if self.schedule.feed_render(block.len(), teed) {
            let mut output = vec![0.0f32; BLOCK];
            let fed = self.apm.process_render_f32(&[block], &mut [&mut output[..]]);
            assert!(fed.is_ok());
        }
    }
}

/// Speech-like signal: gliding fundamental, harmonics, syllabic envelope.
fn pseudo_speech(len: usize, seed: f32) -> Vec<f32> {
    (0..len)
        .map(|n| {
            let t = n as f32 / RATE as f32;
            let f0 = ((3.0 + seed) * t).sin().mul_add(20.0, 130.0 + seed);
            let phase = 2.0 * std::f32::consts::PI * f0 * t;
            let voiced: f32 = (1..=8u32)
                .map(|h| {
                    let harmonic = h as f32;
                    (phase * harmonic).sin() / harmonic
                })
                .sum();
            let envelope = 0.5f32.mul_add((2.0 * std::f32::consts::PI * 2.5 * t).sin(), 0.5);
            voiced * envelope * 0.15
        })
        .collect()
}

/// Band-limited noise without a period.
fn speech_band_noise(len: usize) -> Vec<f32> {
    let mut lcg: u64 = 0x2545_F491_4F6C_DD1D;
    let mut noise: Vec<f32> = (0..len)
        .map(|_| {
            lcg = lcg.wrapping_mul(6_364_136_223_846_793_005).wrapping_add(1);
            let value = (lcg >> 33) as f32 / (1u64 << 31) as f32 - 0.5;
            value * 0.4
        })
        .collect();
    for _ in 0..4 {
        let mut state = 0.0f32;
        for sample in &mut noise {
            state = 0.23f32.mul_add(*sample - state, state);
            *sample = state;
        }
    }
    noise
}

fn power(samples: &[f32]) -> f64 {
    samples.iter().map(|s| f64::from(*s) * f64::from(*s)).sum()
}

fn erle_db(echo: &[f32], out: &[f32]) -> f64 {
    10.0 * (power(echo) / power(out).max(1e-12)).log10()
}

/// Energy of every prefix.
fn prefix_energy(samples: &[f32]) -> Vec<f64> {
    let mut sums = vec![0.0f64];
    for sample in samples {
        let last = sums[sums.len() - 1];
        sums.push(last + f64::from(*sample) * f64::from(*sample));
    }
    sums
}

/// Sums of `reference[i] * delayed[i + lag]` for every lag up to a bound.
fn products(reference: &[f32], delayed: &[f32], max_lag: usize) -> Vec<f64> {
    let size = (reference.len() + delayed.len() + max_lag).next_power_of_two();
    let mut planner = RealFftPlanner::<f64>::new();
    let forward = planner.plan_fft_forward(size);
    let inverse = planner.plan_fft_inverse(size);
    let transform = |samples: &[f32]| -> Vec<Complex64> {
        let mut time = vec![0.0f64; size];
        for (slot, sample) in time.iter_mut().zip(samples) {
            *slot = f64::from(*sample);
        }
        let mut bins = forward.make_output_vec();
        forward.process(&mut time, &mut bins).expect("forward");
        bins
    };
    let first = transform(reference);
    let mut bins: Vec<Complex64> = transform(delayed)
        .iter()
        .zip(&first)
        .map(|(b, a)| b * a.conj())
        .collect();
    bins[0].im = 0.0;
    let last = bins.len() - 1;
    bins[last].im = 0.0;
    let mut time = inverse.make_output_vec();
    inverse.process(&mut bins, &mut time).expect("inverse");
    time[..=max_lag].iter().map(|x| x / size as f64).collect()
}

/// Lag of the peak normalized cross-correlation.
fn best_lag(reference: &[f32], delayed: &[f32], max_lag: usize) -> (usize, f64) {
    let dots = products(reference, delayed, max_lag);
    let of_reference = prefix_energy(reference);
    let of_delayed = prefix_energy(delayed);
    let mut best = (0, f64::MIN);
    for (lag, dot) in dots.iter().enumerate() {
        let overlap = reference.len().min(delayed.len().saturating_sub(lag));
        let energy_ref = of_reference[overlap];
        let energy_del = of_delayed[overlap + lag] - of_delayed[lag];
        let denom = (energy_ref * energy_del).sqrt();
        let corr = if denom > 0.0 { dot / denom } else { 0.0 };
        if corr > best.1 {
            best = (lag, corr);
        }
    }
    best
}

fn run_echo_session(aec: &mut Canceller, near: &[f32], far: &[f32], teed: bool) -> Vec<f32> {
    let mut out = vec![0.0f32; near.len()];
    for (index, (near_block, far_block)) in near.chunks(BLOCK).zip(far.chunks(BLOCK)).enumerate() {
        let output_block = &mut out[index * BLOCK..index * BLOCK + near_block.len()];
        output_block.copy_from_slice(near_block);
        aec.process_capture(output_block);
        aec.feed_render(far_block, teed);
    }
    out
}

/// What the microphone hears of a session, and the echo in it.
fn speaker_session(far: &[f32], voice: &[f32], delay: usize, gain: f32) -> (Vec<f32>, Vec<f32>) {
    let len = far.len();
    let mut near = vec![0.0f32; len];
    let mut echo = vec![0.0f32; len];
    for n in 0..len {
        let echoed = if n >= delay { far[n - delay] * gain } else { 0.0 };
        echo[n] = echoed;
        near[n] = echoed + voice.get(n).copied().unwrap_or(0.0);
    }
    (near, echo)
}

#[test]
fn the_canceller_is_send() {
    fn assert_send<T: Send>() {}
    assert_send::<Canceller>();
}

#[test]
fn bypass_is_bit_exact_unless_playing() {
    for state in [MonitorState::Off, MonitorState::Tripped] {
        let mut canceller = aec(state);
        let block = pseudo_speech(BLOCK, 0.0);
        let mut processed = block.clone();
        canceller.process_capture(&mut processed);
        canceller.feed_render(&block, false);
        assert_eq!(processed, block, "{state:?} must be a bit-exact bypass");
    }
}

#[test]
fn converged_erle_exceeds_threshold() {
    let total = RATE * 10;
    let far = pseudo_speech(total, 40.0);
    let (near, echo) = speaker_session(&far, &[], 2_880, 0.5);
    let mut canceller = aec(MonitorState::Playing);
    let out = run_echo_session(&mut canceller, &near, &far, true);
    let tail = total - RATE * 2..total;
    let erle = erle_db(&echo[tail.clone()], &out[tail]);
    assert!(erle > 20.0, "converged ERLE too low: {erle:.1} dB");
}

#[test]
fn double_talk_preserves_the_near_speech() {
    let total = RATE * 10;
    let far = pseudo_speech(total, 40.0);
    let voice = pseudo_speech(total, 0.0);
    let (near, _echo) = speaker_session(&far, &voice, 2_880, 0.5);
    let mut canceller = aec(MonitorState::Playing);
    let out = run_echo_session(&mut canceller, &near, &far, true);
    let tail = total - RATE * 2..total;
    let ratio_db = 10.0 * (power(&out[tail.clone()]) / power(&voice[tail])).log10();
    assert!(
        ratio_db.abs() < 6.0,
        "double-talk output {ratio_db:.1} dB off the near speech level"
    );
}

#[test]
fn self_monitor_reference_preserves_the_live_voice() {
    let total = RATE * 10;
    let voice = pseudo_speech(total, 0.0);
    let mut far = vec![0.0f32; total];
    far[960..total].copy_from_slice(&voice[..total - 960]);
    let (near, _echo) = speaker_session(&far, &voice, 2_880, 0.5);
    let mut canceller = aec(MonitorState::Playing);
    let out = run_echo_session(&mut canceller, &near, &far, true);
    let tail = total - RATE * 2..total;
    let ratio_db = 10.0 * (power(&out[tail.clone()]) / power(&voice[tail])).log10();
    assert!(
        ratio_db.abs() < 6.0,
        "live voice {ratio_db:.1} dB off through the self-monitor reference"
    );
}

#[test]
fn generation_bump_resets_and_reconverges_on_a_new_echo_path() {
    let total = RATE * 10;
    let far = pseudo_speech(total, 40.0);
    let mut canceller = aec(MonitorState::Playing);

    let (near_old, _echo) = speaker_session(&far, &[], 2_880, 0.5);
    let _converged = run_echo_session(&mut canceller, &near_old, &far, true);

    canceller.generation += 1;
    let (near_new, echo_new) = speaker_session(&far, &[], 4_800, 0.5);
    let out = run_echo_session(&mut canceller, &near_new, &far, true);
    let tail = total - RATE * 2..total;
    let erle = erle_db(&echo_new[tail.clone()], &out[tail]);
    assert!(erle > 20.0, "post-reset ERLE too low: {erle:.1} dB");
}

/// Silent stage with a reported latency, standing in for a model.
struct Silent {
    latency: usize,
}

impl BlockStage for Silent {
    type State = ();

    fn id(&self) -> String {
        "silent".to_owned()
    }

    fn process_block(&mut self, input: &[u32], output: &mut [u32]) -> Result<(), StageError> {
        if input.len() != output.len() {
            return Err(StageError::BufferLen {
                expected: input.len(),
                got: output.len(),
            });
        }
        output.fill(0);
        Ok(())
    }

    fn latency_samples(&self) -> usize {
        self.latency
    }

    fn reset(&mut self) {}
}

#[test]
fn dry_wet_alignment_survives_the_aec() {
    let total = RATE * 10;
    let microphone = speech_band_noise(total);
    let stage_latency = 1_234;
    let (_publisher, mut engine) = SwitchingEngine::new(
        Silent {
            latency: stage_latency,
        },
        240,
        IntensityControl::new(0.5f32.to_bits()).reader(),
    )
    .expect("engine builds");
    let mut canceller = aec(MonitorState::Playing);

    let mut engine_input = vec![0.0f32; total];
    let mut engine_output = vec![0.0f32; total];
    for index in 0..total / BLOCK {
        let range = index * BLOCK..(index + 1) * BLOCK;
        let input_block = &mut engine_input[range.clone()];
        input_block.copy_from_slice(&microphone[range.clone()]);
        canceller.process_capture(input_block);
        let input: Vec<u32> = engine_input[range.clone()]
            .iter()
            .map(|sample| sample.to_bits())
            .collect();
        let mut wet = vec![0u32; BLOCK];
        let plan = engine.process_block(&input, &mut wet).expect("engine block");
        let share = f32::from_bits(plan.to);
        let output_block = &mut engine_output[range];
        for ((slot, wet), dry) in output_block.iter_mut().zip(&wet).zip(&plan.dry) {
            *slot = share.mul_add(f32::from_bits(*wet), (1.0 - share) * f32::from_bits(*dry));
        }
        canceller.feed_render(output_block, true);
    }

    let tail = total - RATE * 3;
    let (lag, corr) = best_lag(&engine_input[tail..], &engine_output[tail..], 2_400);
    assert_eq!(lag, stage_latency, "residual dry/wet misalignment");
    assert!(corr > 0.9, "alignment correlation too low: {corr:.3}");

    let (aec_lag, aec_corr) = best_lag(&microphone[tail..], &engine_input[tail..], 2_400);
    assert!(
        aec_lag < 720,
        "AEC capture delay {aec_lag} samples exceeds 15 ms"
    );
    assert!(
        aec_corr > 0.25,
        "AEC capture correlation too low: {aec_corr:.3}"
    );
}

#[test]
fn non_worker_block_lengths_fail_open() {
    let mut canceller = aec(MonitorState::Playing);
    let mut block = vec![0.1f32; BLOCK];
    canceller.process_capture(&mut block);
    let mut short = vec![0.25f32; 100];
    let reference = short.clone();
    canceller.process_capture(&mut short);
    assert_eq!(short, reference, "short blocks pass through untouched");
}
