//! The live engine: status, bridge, ramps, workers and offline clips.

use std::sync::atomic::AtomicU64;
use std::sync::Arc;

use noican::engine::bridge::AudioBridge;
use noican::engine::engine::{Engine, EngineConfig, Worker};
use noican::engine::error::Error;
use noican::engine::offline::{align_output, process_clip, DelayCompensation};
use noican::engine::rate::{
    plan_clip, resample_clip, scale_samples, ClipConversion, FixedResampler, RateAdapter,
};
use noican::engine::stage::{
    validate_frame_lengths, AudioStage, EnrollmentRequirement, StageDescriptor, StageError,
    StageKind, PIPELINE_FRAME_SAMPLES, PIPELINE_SAMPLE_RATE,
};
use noican::engine::status::Status;
use noican::engine::switch::{RampGain, SwitchRamp};
use noican::signal::runner::Direct;
use noican::signal::stage::{Passthrough, Stage, StageSpec};

fn bits(samples: &[f32]) -> Vec<u32> {
    samples.iter().map(|sample| sample.to_bits()).collect()
}

fn floats(samples: &[u32]) -> Vec<f32> {
    samples.iter().map(|sample| f32::from_bits(*sample)).collect()
}

#[test]
fn peaks_are_read_and_clear() {
    let mut status = Status::new();
    status.observe_input(&bits(&[0.1, -0.6, 0.3]));
    status.observe_output(&bits(&[0.2]));

    let first = status.snapshot();
    assert_eq!(first.input_peak, 0.6f32.to_bits());
    assert_eq!(first.output_peak, 0.2f32.to_bits());

    let second = status.snapshot();
    assert_eq!(second.input_peak, 0);
    assert_eq!(second.output_peak, 0);
}

#[test]
fn peaks_end_at_full_scale() {
    let mut status = Status::new();
    status.observe_input(&[2.0f32.to_bits()]);
    status.observe_output(&[f32::NEG_INFINITY.to_bits()]);
    let snapshot = status.snapshot();
    assert_eq!(snapshot.input_peak, 1.0f32.to_bits());
    assert_eq!(snapshot.output_peak, 1.0f32.to_bits());
}

#[test]
fn peaks_keep_the_loudest_between_reads() {
    let mut status = Status::new();
    status.observe_input(&bits(&[0.9]));
    status.observe_input(&bits(&[0.1]));
    assert_eq!(status.snapshot().input_peak, 0.9f32.to_bits());
}

#[test]
fn flags_and_counters_round_trip() {
    let mut status = Status::new();
    assert!(!status.is_running());
    status.set_running(true);
    status.set_bypassed(true);
    status.set_switching(true);
    status.set_latency_ms(21.5f32.to_bits());
    status.add_dropout();
    status.add_dropout();
    status.add_idle_poll();

    let snapshot = status.snapshot();
    assert!(snapshot.running && snapshot.bypassed && snapshot.switching);
    assert_eq!(snapshot.dropouts, 2);
    assert_eq!(snapshot.idle_polls, 1);
    assert_eq!(snapshot.latency_ms, 21.5f32.to_bits());
    assert!(status.is_bypassed());
}

fn bridge(capacity: usize) -> (AudioBridge, rtrb::Consumer<u32>, rtrb::Producer<u32>) {
    let (to_producer, to_consumer) = rtrb::RingBuffer::new(capacity);
    let (from_producer, from_consumer) = rtrb::RingBuffer::new(capacity);
    (
        AudioBridge::new(
            to_producer,
            from_consumer,
            Status::new(),
            Arc::new(AtomicU64::new(0)),
        ),
        to_consumer,
        from_producer,
    )
}

#[test]
fn input_reaches_the_inference_side() {
    let (mut bridge, mut inference_input, _out) = bridge(64);
    let mut output = [0u32; 4];
    bridge.process(&bits(&[0.1, 0.2, 0.3, 0.4]), &mut output);

    let received: Vec<u32> = (0..4).map(|_| inference_input.pop().unwrap()).collect();
    assert_eq!(floats(&received), vec![0.1, 0.2, 0.3, 0.4]);
}

#[test]
fn an_empty_output_queue_is_a_dropout_not_a_stall() {
    let (mut bridge, _in, _out) = bridge(64);
    let mut output = [9.0f32.to_bits(); 4];
    assert!(!bridge.process(&[0u32; 4], &mut output));
    assert_eq!(output, [0u32; 4]);
    assert_eq!(bridge.report().dropouts, 1);
}

#[test]
fn a_filled_output_queue_is_delivered_whole() {
    let (mut bridge, _in, mut inference_output) = bridge(64);
    for value in [0.5f32, 0.25, -0.25, -0.5] {
        inference_output.push(value.to_bits()).unwrap();
    }
    let mut output = [0u32; 4];
    assert!(bridge.process(&[0u32; 4], &mut output));
    assert_eq!(floats(&output), [0.5, 0.25, -0.25, -0.5]);
    assert_eq!(bridge.report().dropouts, 0);
}

#[test]
fn a_full_input_queue_drops_rather_than_growing_latency() {
    let (mut bridge, mut inference_input, _out) = bridge(4);
    let mut output = [0u32; 8];
    bridge.process(&bits(&[1.0; 8]), &mut output);
    bridge.process(&bits(&[1.0; 8]), &mut output);
    let mut count = 0;
    while inference_input.pop().is_ok() {
        count += 1;
    }
    assert_eq!(count, 4);
}

#[test]
fn a_partially_filled_output_queue_is_padded() {
    let (mut bridge, _in, mut inference_output) = bridge(64);
    inference_output.push(0.75f32.to_bits()).unwrap();
    let mut output = [9.0f32.to_bits(); 3];
    assert!(!bridge.process(&[0u32; 3], &mut output));
    assert_eq!(floats(&output), [0.75, 0.0, 0.0]);
    assert_eq!(bridge.report().dropouts, 1);
}

#[test]
fn flush_discards_pending_output() {
    let (mut bridge, _in, mut inference_output) = bridge(64);
    for _ in 0..8 {
        inference_output.push(1.0f32.to_bits()).unwrap();
    }
    bridge.flush();
    let mut output = [9.0f32.to_bits(); 4];
    assert!(!bridge.process(&[0u32; 4], &mut output));
    assert_eq!(output, [0u32; 4]);
}

#[test]
fn levels_are_published() {
    let (mut bridge, _in, mut inference_output) = bridge(64);
    inference_output.push(0.4f32.to_bits()).unwrap();
    let mut output = [0u32; 1];
    bridge.process(&bits(&[-0.8]), &mut output);
    let snapshot = bridge.report();
    assert_eq!(snapshot.input_peak, 0.8f32.to_bits());
    assert_eq!(snapshot.output_peak, 0.4f32.to_bits());
}

fn raised_cosine(gain: RampGain) -> f32 {
    if gain.length == 0 {
        return 1.0;
    }
    let fraction = gain.position as f32 / gain.length as f32;
    0.5f32.mul_add(-(fraction * std::f32::consts::PI).cos(), 0.5)
}

fn run(ramp: &mut SwitchRamp, count: usize) -> (Vec<f32>, Option<usize>) {
    let mut gains = Vec::with_capacity(count);
    let mut swap_at = None;
    for index in 0..count {
        if ramp.wants_swap() {
            swap_at = Some(index);
        }
        gains.push(raised_cosine(ramp.next_gain()));
    }
    (gains, swap_at)
}

#[test]
fn idle_ramp_is_unity() {
    let mut ramp = SwitchRamp::new(64);
    assert!(!ramp.is_switching());
    let (gains, swap) = run(&mut ramp, 16);
    assert!(gains.iter().all(|gain| (gain - 1.0).abs() < 1e-6));
    assert_eq!(swap, None);
}

#[test]
fn a_switch_dips_to_silence_and_returns() {
    let fade = 32;
    let priming = 100;
    let mut ramp = SwitchRamp::new(fade);
    ramp.begin(priming);
    assert!(ramp.is_switching());

    let (gains, swap) = run(&mut ramp, fade + priming + fade + 8);

    assert_eq!(swap, Some(fade));
    assert!(gains[fade - 1].abs() < 1e-6, "fade-out did not reach zero");
    for (offset, gain) in gains[fade..fade + priming].iter().enumerate() {
        assert!(gain.abs() < 1e-9, "priming sample {offset} was not silent");
    }
    assert!((gains[fade + priming + fade - 1] - 1.0).abs() < 1e-6);
    assert!(gains[fade + priming + fade..]
        .iter()
        .all(|g| (g - 1.0).abs() < 1e-6));
    assert!(!ramp.is_switching());
}

#[test]
fn the_ramp_is_monotonic_and_bounded() {
    let mut ramp = SwitchRamp::new(64);
    ramp.begin(32);
    let (gains, _) = run(&mut ramp, 64 + 32 + 64);
    assert!(gains.iter().all(|g| (0.0..=1.0).contains(g)));
    for pair in gains[..64].windows(2) {
        assert!(pair[1] <= pair[0] + 1e-6);
    }
    for pair in gains[64 + 32..].windows(2) {
        assert!(pair[1] >= pair[0] - 1e-6);
    }
}

#[test]
fn no_step_exceeds_a_small_increment() {
    let mut ramp = SwitchRamp::new(1_440);
    ramp.begin(2_400);
    let (gains, _) = run(&mut ramp, 1_440 + 2_400 + 1_440 + 100);
    for pair in gains.windows(2) {
        assert!(
            (pair[1] - pair[0]).abs() < 0.01,
            "gain jumped from {} to {}",
            pair[0],
            pair[1]
        );
    }
}

#[test]
fn restarting_mid_fade_does_not_jump() {
    let mut ramp = SwitchRamp::new(64);
    ramp.begin(0);
    let (first, _) = run(&mut ramp, 64 + 20);
    let gain_before = *first.last().unwrap();

    ramp.begin(16);
    let (second, _) = run(&mut ramp, 4);
    assert!(
        (second[0] - gain_before).abs() < 0.05,
        "restart jumped from {gain_before} to {}",
        second[0]
    );
}

#[test]
fn a_restart_while_silent_stays_silent() {
    let mut ramp = SwitchRamp::new(8);
    ramp.begin(20);
    let (first, _) = run(&mut ramp, 8 + 5);
    assert_eq!(*first.last().unwrap(), 0.0);
    ramp.begin(4);
    let (second, _) = run(&mut ramp, 4);
    assert!(second.iter().all(|gain| *gain == 0.0), "{second:?}");
}

#[test]
fn a_zero_length_fade_still_requests_the_swap() {
    let mut ramp = SwitchRamp::new(0);
    ramp.begin(0);
    assert!(ramp.wants_swap());
    assert!(!ramp.wants_swap());
    assert!(!ramp.is_switching());
    assert!((raised_cosine(ramp.next_gain()) - 1.0).abs() < 1e-6);
    assert_eq!(ramp.fade_samples(), 0);
}

#[test]
fn a_zero_length_fade_holds_the_silence_it_was_asked_for() {
    let mut ramp = SwitchRamp::new(0);
    ramp.begin(3);
    assert!(ramp.wants_swap());
    for _ in 0..3 {
        assert!(ramp.is_switching());
        assert!(raised_cosine(ramp.next_gain()).abs() < 1e-6);
    }
    assert!(!ramp.is_switching());
    assert!((raised_cosine(ramp.next_gain()) - 1.0).abs() < 1e-6);
}

/// A stage that writes a constant, so a test can tell which one is active.
struct Constant {
    spec: StageSpec,
    value: f32,
}

impl Constant {
    fn new(value: f32, block: usize) -> Self {
        Constant {
            spec: StageSpec::streaming(48_000, block),
            value,
        }
    }
}

impl Stage for Constant {
    fn spec(&self) -> StageSpec {
        self.spec
    }

    fn process(
        &mut self,
        _input: &[u32],
        output: &mut [u32],
    ) -> Result<(), noican::signal::error::Error> {
        output.fill(self.value.to_bits());
        Ok(())
    }

    fn reset(&mut self) {}
}

fn config() -> EngineConfig {
    EngineConfig {
        max_device_block: 256,
        inference_block: 128,
        fade_samples: 64,
        queue_capacity: 4_096,
        ..EngineConfig::default()
    }
}

/// One step of the inference thread.
fn step(worker: &mut Worker<Constant, Direct>) -> bool {
    if !worker.read_block() {
        return false;
    }
    assert!(worker.run_model().is_none());
    let plan = worker.apply_ramp();
    let mut block = floats(worker.output_block());
    for (sample, gain) in block.iter_mut().zip(&plan.gains) {
        *sample *= raised_cosine(*gain);
    }
    worker.send_block(&bits(&block));
    true
}

/// Drives the device and the inference thread in turn.
fn pump(
    bridge: &mut AudioBridge,
    worker: &mut Worker<Constant, Direct>,
    level: f32,
    blocks: usize,
) -> Vec<f32> {
    let input = vec![level.to_bits(); 128];
    let mut output = vec![0u32; 128];
    let mut all = Vec::new();
    for _ in 0..blocks {
        if bridge.process(&input, &mut output) {
            all.extend(floats(&output));
        }
        while step(worker) {}
    }
    all
}

#[test]
fn rejects_an_inconsistent_configuration() {
    let reasons = [
        EngineConfig {
            sample_rate: 0,
            ..config()
        },
        EngineConfig {
            inference_block: 0,
            ..config()
        },
        EngineConfig {
            queue_capacity: 8,
            ..config()
        },
    ];
    for broken in reasons {
        assert!(matches!(
            Engine::<Passthrough, Direct>::new(broken),
            Err(Error::InvalidConfiguration(_))
        ));
    }
    let message = EngineConfig {
        queue_capacity: 8,
        ..config()
    }
    .validate()
    .unwrap_err()
    .message();
    assert_eq!(
        message,
        "invalid configuration: queue_capacity (8) must be at least twice max_device_block (256)"
    );
}

#[test]
fn starting_twice_is_an_error() {
    let mut engine = Engine::new(config()).unwrap();
    let _halves = engine
        .start(Passthrough::new(48_000, 128), Direct, Direct)
        .unwrap();
    assert!(engine.is_running());
    assert!(matches!(
        engine.start(Passthrough::new(48_000, 128), Direct, Direct),
        Err(Error::AlreadyRunning)
    ));
}

#[test]
fn switching_a_stopped_engine_is_an_error() {
    let mut engine = Engine::new(config()).unwrap();
    assert!(matches!(
        engine.set_stage(Passthrough::new(48_000, 128), Direct, Direct),
        Err(Error::NotRunning)
    ));
}

#[test]
fn audio_flows_through_the_active_stage() {
    let mut engine = Engine::new(config()).unwrap();
    let (mut worker, mut bridge) = engine.start(Constant::new(0.5, 128), Direct, Direct).unwrap();
    let all = pump(&mut bridge, &mut worker, 0.0, 200);
    assert!(
        all.iter().any(|sample| (sample - 0.5).abs() < 1e-6),
        "the constant stage never reached the output"
    );
    assert!(engine.snapshot().running);
}

#[test]
fn a_switch_reaches_the_output_without_a_click() {
    let mut engine = Engine::new(config()).unwrap();
    let (mut worker, mut bridge) = engine.start(Constant::new(0.5, 128), Direct, Direct).unwrap();
    pump(&mut bridge, &mut worker, 0.0, 100);

    engine
        .set_stage(Constant::new(-0.5, 128), Direct, Direct)
        .unwrap();
    let all = pump(&mut bridge, &mut worker, 0.0, 400);
    assert!(
        all.iter().any(|sample| (sample + 0.5).abs() < 1e-6),
        "the second stage never reached the output"
    );
    let largest = all
        .windows(2)
        .fold(0.0f32, |largest, pair| largest.max((pair[1] - pair[0]).abs()));
    assert!(largest < 0.1, "output stepped by {largest} during the switch");
    assert!(!worker.is_switching());
    engine.drain_retired();
}

#[test]
fn bypass_passes_the_input_through() {
    let mut engine = Engine::new(config()).unwrap();
    let (mut worker, mut bridge) = engine.start(Constant::new(0.5, 128), Direct, Direct).unwrap();
    engine.set_bypass(true);
    let all = pump(&mut bridge, &mut worker, 0.25, 200);
    assert!(
        all.iter().any(|sample| (sample - 0.25).abs() < 1e-6),
        "bypass did not pass the input through"
    );
    assert!(engine.snapshot().bypassed);
    engine.set_bypass(false);
    let all = pump(&mut bridge, &mut worker, 0.25, 200);
    assert!(
        all.iter().any(|sample| (sample - 0.5).abs() < 1e-6),
        "the model did not come back"
    );
}

#[test]
fn the_engine_shows_what_both_halves_report() {
    let mut engine = Engine::new(config()).unwrap();
    let (mut worker, mut bridge) = engine.start(Constant::new(0.5, 128), Direct, Direct).unwrap();
    let latency = (worker.latency_samples() as f32 / 48_000.0) * 1000.0;
    assert!(latency > 0.0);
    assert_eq!(engine.snapshot().latency_ms, latency.to_bits());

    let mut output = [0u32; 128];
    assert!(!bridge.process(&[2.0f32.to_bits(); 128], &mut output));
    engine.observe_bridge(bridge.report());
    let shown = engine.snapshot();
    assert_eq!(shown.dropouts, 1);
    assert_eq!(shown.input_peak, 1.0f32.to_bits(), "peaks end at full scale");
    assert_eq!(shown.output_peak, 0);
    assert_eq!(engine.snapshot().input_peak, 0, "peaks are read and cleared");

    while step(&mut worker) {}
    engine.observe_worker(worker.report());
    assert_eq!(engine.snapshot().idle_polls, 1);
    assert!(!engine.snapshot().switching);

    engine
        .set_stage(Constant::new(-0.5, 77), Direct, Direct)
        .unwrap();
    pump(&mut bridge, &mut worker, 0.0, 2);
    engine.observe_worker(worker.report());
    let shown = engine.snapshot();
    assert!(shown.switching);
    pump(&mut bridge, &mut worker, 0.0, 400);
    engine.observe_worker(worker.report());
    let shown = engine.snapshot();
    assert!(!shown.switching);
    let switched = (worker.latency_samples() as f32 / 48_000.0) * 1000.0;
    assert_ne!(switched, latency);
    assert_eq!(shown.latency_ms, switched.to_bits());
}

#[test]
fn a_flush_empties_both_directions() {
    let mut engine = Engine::new(config()).unwrap();
    let (mut worker, mut bridge) = engine.start(Constant::new(0.5, 128), Direct, Direct).unwrap();
    pump(&mut bridge, &mut worker, 0.0, 50);
    bridge.process(&[7u32; 200], &mut []);
    bridge.flush();
    let mut output = [9u32; 1];
    assert!(!bridge.process(&[], &mut output));
    assert_eq!(output, [0]);
    assert!(!worker.read_block(), "nothing is left for the model");

    bridge.process(&[7u32; 100], &mut []);
    bridge.flush();
    bridge.process(&[8u32; 128], &mut []);
    assert!(worker.read_block(), "what came after the flush is there");
    assert!(worker.run_model_as(true).is_none());
    assert_eq!(worker.output_block(), [8u32; 128], "and nothing from before it");
    assert!(!worker.read_block());
}

#[test]
fn a_worker_discards_up_to_a_mark() {
    let mut engine = Engine::new(config()).unwrap();
    let (mut worker, mut bridge) = engine.start(Constant::new(0.5, 128), Direct, Direct).unwrap();
    let ramp: Vec<u32> = (0..256).collect();
    bridge.process(&ramp, &mut []);
    assert!(!worker.read_block_past(129), "one sample is missing after the mark");
    bridge.process(&[256], &mut []);
    assert!(worker.read_block_past(129));
    assert!(worker.run_model_as(true).is_none());
    assert_eq!(worker.output_block()[0], 129);
    assert!(!worker.read_block_past(5), "an old mark changes nothing");
}

/// A stage that refuses every block.
struct Failing;

impl Stage for Failing {
    fn spec(&self) -> StageSpec {
        StageSpec::streaming(48_000, 128)
    }

    fn process(
        &mut self,
        _input: &[u32],
        _output: &mut [u32],
    ) -> Result<(), noican::signal::error::Error> {
        Err(noican::signal::error::Error::Stage("refused".to_owned()))
    }

    fn reset(&mut self) {}
}

#[test]
fn a_failing_model_lets_the_microphone_through_and_says_why() {
    let mut engine = Engine::new(config()).unwrap();
    let (mut worker, mut bridge) = engine.start(Failing, Direct, Direct).unwrap();
    bridge.process(&[7u32; 128], &mut []);
    assert!(worker.read_block());
    match worker.run_model() {
        Some(noican::signal::error::Error::Stage(reason)) => assert_eq!(reason, "refused"),
        other => panic!("the failure was expected: {other:?}"),
    }
    assert_eq!(worker.output_block(), [7u32; 128]);
}

#[test]
fn stopping_returns_the_active_runner_for_disposal() {
    let mut engine = Engine::new(config()).unwrap();
    let (mut worker, mut bridge) = engine.start(Constant::new(0.5, 128), Direct, Direct).unwrap();
    pump(&mut bridge, &mut worker, 0.0, 50);
    worker.retire_everything();
    engine.stop();
    assert!(!engine.is_running());
    assert!(!engine.snapshot().running);
    engine.stop();
}

#[test]
fn draining_leaves_the_engine_as_it_was() {
    let mut engine = Engine::new(config()).unwrap();
    engine.drain_retired();
    let (worker, _bridge) = engine.start(Constant::new(0.5, 128), Direct, Direct).unwrap();
    worker.retire_everything();
    engine.drain_retired();
    engine.drain_retired();
    assert!(engine.is_running());
    engine.stop();
}

#[test]
fn switches_requested_too_fast_are_refused() {
    let mut engine = Engine::new(config()).unwrap();
    let _halves = engine.start(Constant::new(0.5, 128), Direct, Direct).unwrap();
    for _ in 0..4 {
        engine
            .set_stage(Constant::new(0.1, 128), Direct, Direct)
            .unwrap();
    }
    let error = engine
        .set_stage(Constant::new(0.1, 128), Direct, Direct)
        .unwrap_err();
    assert!(matches!(error, Error::SwitchInFlight));
    assert_eq!(
        error.message(),
        "a stage switch is already in flight; try again once the ramp completes"
    );
}

struct PassthroughStage {
    descriptor: StageDescriptor,
}

impl AudioStage for PassthroughStage {
    type State = ();

    fn descriptor(&self) -> StageDescriptor {
        self.descriptor
    }

    fn process_frame(&mut self, input: &[u32], output: &mut [u32]) -> Result<(), StageError> {
        validate_frame_lengths(self.descriptor, input, output)?;
        output.copy_from_slice(input);
        Ok(())
    }

    fn reset(&mut self) -> Result<(), StageError> {
        Ok(())
    }
}

fn descriptor(id: &'static str, sample_rate: u32, frame_samples: usize) -> StageDescriptor {
    StageDescriptor {
        id,
        display_name: id,
        kind: StageKind::NoiseSuppression,
        sample_rate,
        frame_samples,
        algorithmic_delay_samples: 0,
        tail_frames: 0,
        enrollment: EnrollmentRequirement::NotNeeded,
    }
}

/// Averages or repeats three samples.
struct ByThree {
    takes: usize,
    gives: usize,
}

impl FixedResampler for ByThree {
    fn input_frames_next(&self) -> usize {
        self.takes
    }
    fn output_frames_next(&self) -> usize {
        self.gives
    }
    fn output_delay(&self) -> usize {
        0
    }
    fn process(&mut self, input: &[u32]) -> Result<Vec<u32>, StageError> {
        let samples = floats(input);
        if self.takes > self.gives {
            Ok(bits(
                &samples
                    .chunks(3)
                    .map(|chunk| chunk.iter().sum::<f32>() / 3.0)
                    .collect::<Vec<f32>>(),
            ))
        } else {
            Ok(bits(
                &samples.iter().flat_map(|s| [*s; 3]).collect::<Vec<f32>>(),
            ))
        }
    }
    fn reset(&mut self) {}
}

#[test]
fn offline_path_preserves_aligned_passthrough() {
    let native = PassthroughStage {
        descriptor: descriptor("passthrough", PIPELINE_SAMPLE_RATE, PIPELINE_FRAME_SAMPLES),
    };
    let mut adapted = RateAdapter::new(native, Direct, Direct).unwrap();
    let input: Vec<f32> = (0u16..1_000)
        .map(|sample| f32::from(sample) / 1_000.0)
        .collect();
    let output = process_clip(&mut adapted, &bits(&input), DelayCompensation::Remove).unwrap();
    assert_eq!(floats(&output), input);
}

#[test]
fn frame_adapter_buffers_non_divisible_model_frames() {
    let native = PassthroughStage {
        descriptor: descriptor("wide-frame", PIPELINE_SAMPLE_RATE, 512),
    };
    let mut adapted = RateAdapter::new(native, Direct, Direct).unwrap();
    let input = [0.5f32.to_bits(); PIPELINE_FRAME_SAMPLES];
    let mut first = [0u32; PIPELINE_FRAME_SAMPLES];
    let mut second = [0u32; PIPELINE_FRAME_SAMPLES];
    let mut third = [0u32; PIPELINE_FRAME_SAMPLES];
    adapted.process_frame(&input, &mut first).unwrap();
    adapted.process_frame(&input, &mut second).unwrap();
    adapted.process_frame(&input, &mut third).unwrap();
    assert!(first.iter().all(|sample| *sample == 0));
    assert!(second.iter().all(|sample| *sample == 0));
    assert!(third.iter().any(|sample| *sample != 0));
}

#[test]
fn rate_adapter_absorbs_sixteen_kilohertz_stage() {
    let native = PassthroughStage {
        descriptor: descriptor("sixteen-k", 16_000, 160),
    };
    let mut adapted = RateAdapter::new(
        native,
        ByThree {
            takes: 480,
            gives: 160,
        },
        ByThree {
            takes: 160,
            gives: 480,
        },
    )
    .unwrap();
    assert_eq!(adapted.descriptor().sample_rate, PIPELINE_SAMPLE_RATE);
    assert_eq!(adapted.descriptor().frame_samples, PIPELINE_FRAME_SAMPLES);
    let input = [0.25f32.to_bits(); PIPELINE_FRAME_SAMPLES];
    let mut output = [0u32; PIPELINE_FRAME_SAMPLES];
    for _ in 0..4 {
        adapted.process_frame(&input, &mut output).unwrap();
    }
    let heard = floats(&output);
    assert!(heard.iter().all(|sample| sample.is_finite()));
    assert!(heard.iter().any(|sample| sample.abs() > 0.01));
}

#[test]
fn frames_of_the_wrong_length_are_refused() {
    let native = descriptor("x", 16_000, 160);
    let error = validate_frame_lengths(native, &[0; 160], &[0; 159]).unwrap_err();
    assert_eq!(
        error.message(),
        "stage x expected 160 samples, received 159"
    );
    let mut stage = PassthroughStage { descriptor: native };
    assert!(process_clip(&mut stage, &[0], DelayCompensation::Preserve).is_err());
}

#[test]
fn stage_errors_describe_themselves() {
    let stage = "m";
    let message = "why".to_owned();
    assert_eq!(
        StageError::InvalidConfiguration { stage, message }.message(),
        "invalid stage configuration for m: why"
    );
    let message = "why".to_owned();
    assert_eq!(
        StageError::Backend { stage, message }.message(),
        "m backend failed: why"
    );
    assert_eq!(
        StageError::Resampling("why".to_owned()).message(),
        "sample-rate conversion failed: why"
    );
}

#[test]
fn a_stage_without_a_rate_is_refused() {
    for (rate, frame) in [(0u32, 480usize), (48_000, 0)] {
        let native = PassthroughStage {
            descriptor: descriptor("broken", rate, frame),
        };
        assert!(RateAdapter::new(native, Direct, Direct).is_err());
    }
}

#[test]
fn the_output_is_cut_and_padded() {
    let samples = vec![1u32, 2, 3, 4];
    assert_eq!(align_output(&samples, 2, 4), [3, 4, 0, 0]);
    assert_eq!(align_output(&samples, 9, 2), [0, 0]);
}

#[test]
fn clips_get_the_length_their_rate_asks_for() {
    assert!(plan_clip(0, 48_000).is_err());
    assert_eq!(
        plan_clip(48_000, 48_000).unwrap(),
        ClipConversion::Unchanged
    );
    assert_eq!(plan_clip(16_000, 48_000).unwrap(), ClipConversion::Convert);
    let longer = resample_clip(2, 16_000, 48_000, vec![1, 2, 3, 4, 5, 6, 7]).unwrap();
    assert_eq!(longer, [1, 2, 3, 4, 5, 6]);
    let shorter = resample_clip(2, 16_000, 48_000, vec![1, 2]).unwrap();
    assert_eq!(shorter, [1, 2, 0, 0, 0, 0]);
    assert!(resample_clip(usize::MAX, 16_000, 48_000, Vec::new()).is_err());
    assert!(scale_samples(usize::MAX, 1, 2).is_err());
}
