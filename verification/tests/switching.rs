//! Click-free switching and the strength control, with the gains applied here.

use noican::signal::block::{BlockStage, StageError};
use noican::signal::level::{block_peak, is_finite, magnitude};
use noican::signal::mix::{DryLine, IntensityControl, IntensityReader, DRY_RING_CAPACITY};
use noican::signal::switch::{
    PreparedStage, StagePublisher, SwitchingEngine, Transition, MAX_FADE_SAMPLES,
};

fn bits(samples: &[f32]) -> Vec<u32> {
    samples.iter().map(|sample| sample.to_bits()).collect()
}

fn floats(samples: &[u32]) -> Vec<f32> {
    samples.iter().map(|sample| f32::from_bits(*sample)).collect()
}

/// Emits a constant value regardless of input, with a reported latency.
struct Constant {
    id: &'static str,
    value: f32,
    latency: usize,
}

impl BlockStage for Constant {
    type State = ();

    fn id(&self) -> String {
        self.id.to_owned()
    }

    fn process_block(&mut self, input: &[u32], output: &mut [u32]) -> Result<(), StageError> {
        if input.len() != output.len() {
            return Err(StageError::BufferLen {
                expected: input.len(),
                got: output.len(),
            });
        }
        output.fill(self.value.to_bits());
        Ok(())
    }

    fn latency_samples(&self) -> usize {
        self.latency
    }

    fn reset(&mut self) {}
}

fn constant(id: &'static str, value: f32) -> Constant {
    Constant {
        id,
        value,
        latency: 0,
    }
}

/// Blends the delayed dry samples into the wet ones, ramping to the target.
fn blend(smoothed: &mut f32, target: f32, dry: &[f32], wet: &mut [f32]) {
    let step = (target - *smoothed) / wet.len() as f32;
    let mut intensity = *smoothed;
    for (out, delayed) in wet.iter_mut().zip(dry) {
        intensity += step;
        *out = intensity.mul_add(*out, (1.0 - intensity) * delayed);
    }
    *smoothed = target;
}

/// An engine with its gains applied.
struct Player {
    engine: SwitchingEngine<Constant>,
}

impl Player {
    fn new(initial: Constant, fade: usize, intensity: f32) -> (StagePublisher<Constant>, Self) {
        let control = IntensityControl::new(intensity.to_bits());
        let (publisher, engine) =
            SwitchingEngine::new(initial, fade, control.reader()).expect("engine builds");
        (publisher, Player { engine })
    }

    fn play(&mut self, input: &[f32]) -> Vec<f32> {
        let mut output = vec![0u32; input.len()];
        let plan = self
            .engine
            .process_block(&bits(input), &mut output)
            .expect("block");
        let mut wet = floats(&output);
        let mut smoothed = f32::from_bits(plan.from);
        blend(&mut smoothed, f32::from_bits(plan.to), &floats(&plan.dry), &mut wet);
        for (sample, gain) in wet.iter_mut().zip(&plan.gains) {
            *sample *= *gain as f32 / plan.fade as f32;
        }
        wet
    }
}

#[test]
fn zero_fade_is_rejected() {
    assert!(matches!(
        SwitchingEngine::new(constant("a", 1.0), 0, IntensityControl::default().reader()),
        Err(StageError::Unsupported(_))
    ));
}

#[test]
fn oversized_fade_is_rejected() {
    let control = IntensityControl::default();
    match SwitchingEngine::new(constant("a", 1.0), MAX_FADE_SAMPLES + 1, control.reader()) {
        Err(StageError::Unsupported(message)) => assert_eq!(
            message,
            "switch fade of 65536 samples exceeds the supported maximum of 65535"
        ),
        _ => panic!("must be refused"),
    }
    assert!(
        SwitchingEngine::new(constant("a", 1.0), MAX_FADE_SAMPLES, control.reader()).is_ok()
    );
}

#[test]
fn generations_count_up_and_start_over() {
    let (generation, stage) = PreparedStage::after(7, constant("a", 1.0)).into_parts();
    assert_eq!((generation, stage.id), (8, "a"));
    let (generation, _stage) = PreparedStage::after(u64::MAX, constant("b", 1.0)).into_parts();
    assert_eq!(generation, 0);
}

#[test]
fn an_output_of_another_length_is_refused() {
    let (publisher, mut engine) =
        SwitchingEngine::new(constant("a", 1.0), 480, IntensityControl::default().reader())
            .expect("the fade is valid");
    publisher.publish(constant("b", 2.0));
    match engine.process_block(&[0; 480], &mut [0; 479]) {
        Err(StageError::BufferLen { expected, got }) => assert_eq!((expected, got), (480, 479)),
        _ => panic!("must be refused"),
    }
    assert_eq!(engine.transition(), Transition::FadeOut { remaining: 480 });
    assert_eq!(engine.active_id(), "a");
}

#[test]
fn switch_fades_out_then_in_without_discontinuity() {
    let fade = 240;
    let (publisher, mut player) = Player::new(constant("a", 1.0), fade, 1.0);
    let input = [0.0f32; 480];

    let output = player.play(&input);
    assert!(output.iter().all(|s| (*s - 1.0).abs() < 1e-6));
    assert_eq!(player.engine.active_id(), "a");

    assert!(publisher.publish(constant("b", -1.0)).is_none());

    let output = player.play(&input);
    assert!((output[0] - 1.0).abs() < 1e-2);
    assert!(output[fade..].iter().all(|s| s.abs() < 1e-6));
    assert_eq!(player.engine.active_id(), "b");

    let output = player.play(&input);
    assert!(output[0].abs() < 1e-2);
    assert!((output[fade] - -1.0).abs() < 1e-6);
    assert_eq!(player.engine.active_generation(), 1);

    let output = player.play(&input);
    assert!(output.iter().all(|s| (*s - -1.0).abs() < 1e-6));
    assert_eq!(player.engine.transition(), Transition::Stable);
}

#[test]
fn publishing_twice_supersedes_the_unconsumed_stage() {
    let (publisher, mut player) = Player::new(constant("a", 1.0), 4, 1.0);
    assert!(publisher.publish(constant("b", 2.0)).is_none());
    assert_eq!(
        publisher.publish(constant("c", 3.0)).as_deref(),
        Some("b")
    );

    player.play(&[0.0; 16]);
    assert_eq!(player.engine.active_id(), "c");
    assert_eq!(player.engine.active_generation(), 2);
}

#[test]
fn fade_spans_multiple_short_blocks() {
    let (publisher, mut player) = Player::new(constant("a", 1.0), 32, 1.0);
    assert!(publisher.publish(constant("b", 1.0)).is_none());
    let mut all = Vec::new();
    for _ in 0..12 {
        all.extend(player.play(&[0.0; 8]));
    }
    for pair in all.windows(2) {
        assert!(
            (pair[1] - pair[0]).abs() <= 1.0 / 16.0 + 1e-6,
            "discontinuity {} -> {}",
            pair[0],
            pair[1]
        );
    }
    assert_eq!(player.engine.active_id(), "b");
    assert!(all.last().is_some_and(|s| (*s - 1.0).abs() < 1e-6));
}

#[test]
fn partial_intensity_blends_the_delay_compensated_dry_signal() {
    let latency = 100;
    let silent = Constant {
        id: "silent",
        value: 0.0,
        latency,
    };
    let (_publisher, mut player) = Player::new(silent, 240, 0.5);
    let input: Vec<f32> = (0..960).map(|n| n as f32 * 1e-3).collect();
    let mut output = Vec::new();
    for chunk in input.chunks(480) {
        output.extend(player.play(chunk));
    }
    for n in latency..960 {
        let expected = input[n - latency] * 0.5;
        assert!(
            (output[n] - expected).abs() < 1e-5,
            "sample {n}: {} != {expected}",
            output[n]
        );
    }
}

#[test]
fn switching_between_latencies_at_partial_intensity_stays_click_free() {
    let old = Constant {
        id: "old",
        value: 0.2,
        latency: 48,
    };
    let (publisher, mut player) = Player::new(old, 240, 0.5);
    assert!(publisher
        .publish(Constant {
            id: "new",
            value: 0.2,
            latency: 2000,
        })
        .is_none());
    let input: Vec<f32> = (0..4800).map(|n| n as f32 * 1e-4).collect();
    let mut all = Vec::new();
    for chunk in input.chunks(480) {
        all.extend(player.play(chunk));
    }
    assert_eq!(player.engine.active_id(), "new");
    for (n, pair) in all.windows(2).enumerate() {
        assert!(
            (pair[1] - pair[0]).abs() <= 0.5 / 240.0 + 1e-6,
            "discontinuity at {n}: {} -> {}",
            pair[0],
            pair[1]
        );
    }
}

#[test]
fn published_stage_switches_through_short_mute() {
    let (publisher, mut player) = Player::new(constant("one", 1.0), 240, 1.0);
    let input = [0.0f32; 480];
    assert!(player.play(&input).iter().all(|sample| *sample == 1.0));
    assert!(publisher.publish(constant("minus-one", -1.0)).is_none());

    let output = player.play(&input);
    assert_eq!(output[0], 1.0);
    assert_eq!(output[240], 0.0);
    assert_eq!(player.engine.active_id(), "minus-one");

    let output = player.play(&input);
    assert_eq!(output[0], 0.0);
    assert_eq!(output[240], -1.0);

    assert!(player.play(&input).iter().all(|sample| *sample == -1.0));
    assert_eq!(player.engine.active_generation(), 1);
}

#[test]
fn control_defaults_to_full_and_clamps() {
    let mut control = IntensityControl::default();
    assert_eq!(control.get(), 1.0f32.to_bits());
    control.set(0.25f32.to_bits());
    assert_eq!(control.get(), 0.25f32.to_bits());
    control.set(7.0f32.to_bits());
    assert_eq!(control.get(), 1.0f32.to_bits(), "clamps high");
    control.set((-3.0f32).to_bits());
    assert!(f32::from_bits(control.get()).abs() < f32::EPSILON, "clamps low");
}

#[test]
fn readers_share_the_value_of_their_control() {
    let mut control = IntensityControl::new(0.5f32.to_bits());
    let reader = control.reader();
    let other = reader.clone();
    assert_eq!(reader.get(), 0.5f32.to_bits());
    control.set(0.0f32.to_bits());
    assert_eq!(reader.get(), 0);
    assert_eq!(other.get(), 0);
    control.set(f32::NAN.to_bits());
    assert_eq!(other.get(), 0);
    assert_eq!(control.get(), 0);
}

#[test]
fn a_block_ramps_from_where_the_last_one_ended() {
    let mut control = IntensityControl::new(1.0f32.to_bits());
    let (_publisher, mut engine) =
        SwitchingEngine::new(constant("a", 1.0), 480, control.reader()).expect("engine builds");
    let mut output = [0u32; 4];
    control.set(0.25f32.to_bits());
    let plan = engine.process_block(&[0; 4], &mut output).expect("block");
    assert_eq!((plan.from, plan.to), (1.0f32.to_bits(), 0.25f32.to_bits()));
    control.set(0.75f32.to_bits());
    let empty = engine.process_block(&[], &mut []).expect("block");
    assert_eq!((empty.from, empty.to), (0.25f32.to_bits(), 0.25f32.to_bits()));
    let plan = engine.process_block(&[0; 4], &mut output).expect("block");
    assert_eq!((plan.from, plan.to), (0.25f32.to_bits(), 0.75f32.to_bits()));
}

#[test]
fn a_cloned_publisher_reaches_the_same_engine() {
    let (publisher, mut engine) =
        SwitchingEngine::new(constant("a", 1.0), 480, IntensityControl::default().reader())
            .expect("engine builds");
    let other = publisher.clone();
    assert!(publisher.publish(constant("b", 2.0)).is_none());
    assert_eq!(other.publish(constant("c", 3.0)), Some("b".to_owned()));
    engine.process_block(&[0; 480], &mut [0; 480]).expect("block");
    assert_eq!(engine.active_id(), "c");
    assert_eq!(engine.active_generation(), 2);
}

#[test]
fn non_finite_values_are_ignored() {
    let mut control = IntensityControl::new(0.5f32.to_bits());
    control.set(f32::NAN.to_bits());
    assert_eq!(control.get(), 0.5f32.to_bits());
    control.set(f32::INFINITY.to_bits());
    assert_eq!(control.get(), 0.5f32.to_bits());
    assert_eq!(
        IntensityControl::new(f32::NAN.to_bits()).get(),
        1.0f32.to_bits(),
        "a non-finite initial value falls back to fully processed"
    );
}

fn ramp(len: usize) -> Vec<f32> {
    (0..len).map(|n| n as f32 * 1e-3).collect()
}

/// A mixer around the dry line.
struct Mixer {
    line: DryLine,
    control: IntensityReader,
    smoothed: f32,
}

impl Mixer {
    fn new(control: IntensityReader) -> Self {
        let smoothed = f32::from_bits(control.get());
        Mixer {
            line: DryLine::new(),
            control,
            smoothed,
        }
    }

    fn mix(&mut self, dry: &[f32], wet: &mut [f32], delay: usize) {
        let delayed = floats(&self.line.delay_block(&bits(dry), delay));
        let target = f32::from_bits(self.control.get());
        blend(&mut self.smoothed, target, &delayed, wet);
    }
}

#[test]
fn full_intensity_is_bit_identical_wet() {
    let mut mixer = Mixer::new(IntensityControl::new(1.0f32.to_bits()).reader());
    let dry = ramp(480);
    let wet_reference: Vec<f32> = dry.iter().map(|s| s * -2.0).collect();
    let mut wet = wet_reference.clone();
    mixer.mix(&dry, &mut wet, 100);
    assert_eq!(wet, wet_reference, "100% must not alter the wet path");
}

#[test]
fn zero_intensity_is_the_delayed_dry_signal() {
    let mut mixer = Mixer::new(IntensityControl::new(0.0f32.to_bits()).reader());
    let delay = 37;
    let dry = ramp(480);
    let mut wet = vec![0.5f32; 480];
    mixer.mix(&dry, &mut wet, delay);
    for (n, out) in wet.iter().enumerate() {
        let expected = if n < delay { 0.0 } else { dry[n - delay] };
        assert!(
            (out - expected).abs() < 1e-6,
            "sample {n}: {out} != {expected}"
        );
    }
}

#[test]
fn half_intensity_blends_aligned_paths() {
    let delay = 64;
    let mut mixer = Mixer::new(IntensityControl::new(0.5f32.to_bits()).reader());
    let dry = ramp(960);
    let mut wet = vec![0.0f32; 960];
    for n in delay..960 {
        wet[n] = -dry[n - delay];
    }
    mixer.mix(&dry, &mut wet, delay);
    for (n, out) in wet.iter().enumerate().skip(delay) {
        assert!(out.abs() < 1e-6, "sample {n} should cancel, got {out}");
    }
}

#[test]
fn intensity_changes_ramp_without_steps() {
    let mut control = IntensityControl::new(1.0f32.to_bits());
    let mut mixer = Mixer::new(control.reader());
    let dry = [1.0f32; 480];
    let mut previous = 0.0f32;
    for target in [1.0f32, 0.0, 1.0] {
        control.set(target.to_bits());
        let mut wet = [0.0f32; 480];
        mixer.mix(&dry, &mut wet, 0);
        for sample in wet {
            assert!(
                (sample - previous).abs() <= 1.0 / 480.0 + 1e-4,
                "zipper step {previous} -> {sample}"
            );
            previous = sample;
        }
    }
}

#[test]
fn oversized_delay_is_clamped_not_out_of_range() {
    let mut mixer = Mixer::new(IntensityControl::new(0.0f32.to_bits()).reader());
    let dry = ramp(480);
    let mut wet = vec![0.0f32; 480];
    mixer.mix(&dry, &mut wet, usize::MAX);
    assert!(wet.iter().all(|s| s.is_finite()));
    assert!(
        wet.iter().all(|s| s.abs() < f32::EPSILON),
        "history beyond the clamped delay is silence"
    );
}

#[test]
fn dry_history_is_fed_even_at_full_intensity() {
    let mut control = IntensityControl::new(1.0f32.to_bits());
    let mut mixer = Mixer::new(control.reader());
    let dry = vec![0.75f32; 480];
    let mut wet = vec![0.0f32; 480];
    mixer.mix(&dry, &mut wet, 0);
    control.set(0.0f32.to_bits());
    let mut wet = vec![0.0f32; 480];
    mixer.mix(&dry, &mut wet, 240);
    assert!(
        (wet[479] - 0.75).abs() < 1e-4,
        "delayed dry must come from fed history, got {}",
        wet[479]
    );
}

#[test]
fn a_delay_reaches_as_far_as_the_history() {
    let mut line = DryLine::new();
    let stream: Vec<u32> = (1..=DRY_RING_CAPACITY as u32 + 10).collect();
    let mut last = Vec::new();
    for chunk in stream.chunks(1_000) {
        last = line.delay_block(chunk, usize::MAX);
    }
    assert_eq!(*last.last().unwrap(), 11);
}

#[test]
fn loudness_orders_samples_without_arithmetic() {
    assert_eq!(magnitude((-0.5f32).to_bits()), 0.5f32.to_bits());
    assert!(is_finite(f32::MAX.to_bits()));
    assert!(!is_finite(f32::NEG_INFINITY.to_bits()));
    assert!(!is_finite(f32::NAN.to_bits()));
    let block = bits(&[0.25, -0.75, f32::NAN, 0.5]);
    assert_eq!(block_peak(&block), 0.75f32.to_bits());
    assert_eq!(block_peak(&[]), 0);
}
