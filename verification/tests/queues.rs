//! Sample queues and the plain stages.

use noican::signal::error::Error;
use noican::signal::ring::SampleQueue;
use noican::signal::stage::{Passthrough, Stage, StageCapability, StageSpec};

fn bits(samples: &[f32]) -> Vec<u32> {
    samples.iter().map(|sample| sample.to_bits()).collect()
}

fn floats(samples: &[u32]) -> Vec<f32> {
    samples.iter().map(|sample| f32::from_bits(*sample)).collect()
}

#[test]
fn push_and_pop_round_trip() {
    let mut queue = SampleQueue::new(8);
    assert_eq!(queue.push(&bits(&[1.0, 2.0, 3.0])), 3);
    assert_eq!(queue.len(), 3);

    let mut out = [0u32; 2];
    assert_eq!(queue.pop(&mut out), 2);
    assert_eq!(floats(&out), [1.0, 2.0]);
    assert_eq!(queue.len(), 1);
}

#[test]
fn wraps_around_the_backing_buffer() {
    let mut queue = SampleQueue::new(4);
    queue.push(&bits(&[1.0, 2.0, 3.0]));
    let mut out = [0u32; 3];
    queue.pop(&mut out);

    assert_eq!(queue.push(&bits(&[4.0, 5.0, 6.0, 7.0])), 4);
    let mut out = [0u32; 4];
    assert_eq!(queue.pop(&mut out), 4);
    assert_eq!(floats(&out), [4.0, 5.0, 6.0, 7.0]);
}

#[test]
fn reports_short_push_when_full() {
    let mut queue = SampleQueue::new(2);
    assert_eq!(queue.push(&bits(&[1.0, 2.0, 3.0])), 2);
    assert_eq!(queue.vacancy(), 0);
    assert_eq!(queue.push(&bits(&[4.0])), 0);
}

#[test]
fn reports_short_pop_when_empty() {
    let mut queue = SampleQueue::new(4);
    queue.push(&bits(&[1.0]));
    let mut out = [9.0f32.to_bits(); 3];
    assert_eq!(queue.pop(&mut out), 1);
    assert_eq!(floats(&out), [1.0, 9.0, 9.0]);
    assert!(queue.is_empty());
}

#[test]
fn silence_and_discard() {
    let mut queue = SampleQueue::new(4);
    assert_eq!(queue.push_silence(3), 3);
    assert_eq!(queue.discard(2), 2);
    assert_eq!(queue.len(), 1);
    queue.clear();
    assert_eq!(queue.capacity(), 4);
    assert!(queue.is_empty());
}

#[test]
fn an_empty_queue_discards_nothing() {
    let mut queue = SampleQueue::new(3);
    assert_eq!(queue.discard(5), 0);
    assert_eq!(queue.push_silence(9), 3);
    assert_eq!(queue.discard(9), 3);
    assert!(queue.is_empty());
}

#[test]
fn passthrough_copies_input() {
    let mut stage = Passthrough::new(48_000, 4);
    let input = bits(&[0.1, -0.2, 0.3, -0.4]);
    let mut output = [0u32; 4];
    stage.process(&input, &mut output).unwrap();
    assert_eq!(input, output);
}

#[test]
fn passthrough_rejects_mismatched_buffers() {
    let mut stage = Passthrough::new(48_000, 4);
    let mut output = [0u32; 3];
    assert!(stage.process(&[0u32; 4], &mut output).is_err());
}

#[test]
fn passthrough_rejects_buffers_of_another_size() {
    let mut stage = Passthrough::new(48_000, 4);
    let mut output = [7u32; 3];
    match stage.process(&[0u32; 3], &mut output) {
        Err(Error::BufferLength { expected, actual }) => assert_eq!((expected, actual), (4, 3)),
        other => panic!("must be refused: {other:?}"),
    }
    assert_eq!(output, [7; 3], "a refused block is left alone");
    match stage.process(&[0u32; 4], &mut output) {
        Err(Error::BufferLength { expected, actual }) => assert_eq!((expected, actual), (4, 3)),
        other => panic!("must be refused: {other:?}"),
    }
}

#[test]
fn spec_reports_durations() {
    let spec = StageSpec::streaming(48_000, 480).with_latency(1_920);
    assert!((f32::from_bits(spec.block_duration_ms()) - 10.0).abs() < 1e-4);
    assert!((f32::from_bits(spec.latency_ms()) - 40.0).abs() < 1e-4);
    assert!(spec.capability.is_realtime());
    assert!(!StageCapability::Block.is_realtime());
    let block = spec.with_capability(StageCapability::Block);
    assert!(!block.capability.is_realtime());
    assert_eq!(block.latency_samples, 1_920);
}

#[test]
fn errors_describe_themselves() {
    let mismatch = Error::BufferLength {
        expected: 4,
        actual: 3,
    };
    assert_eq!(
        mismatch.message(),
        "buffer length mismatch: expected 4 samples, got 3"
    );
    assert_eq!(
        Error::InvalidConfiguration("no hop".to_owned()).message(),
        "invalid configuration: no hop"
    );
    assert_eq!(
        Error::Stage("gone".to_owned()).message(),
        "stage failed: gone"
    );
}

#[test]
fn durations_are_rounded_as_single_precision_numbers() {
    let counts = [
        1usize, 2, 3, 7, 479, 480, 481, 1_023, 44_101, 65_537, 16_777_215, 16_777_216, 16_777_217,
        16_777_219, 33_554_435, 4_294_967_295, 123_456_789_012_345, usize::MAX,
    ];
    let rates = [
        1u32, 3, 7, 8_000, 11_025, 16_000, 44_100, 47_999, 48_000, 96_000, 192_000, 16_777_217,
        u32::MAX,
    ];
    for count in counts {
        for rate in rates {
            let expected = (count as f32 / rate as f32) * 1000.0;
            let spec = StageSpec::streaming(rate, count);
            assert_eq!(spec.block_duration_ms(), expected.to_bits(), "{count} at {rate}");
        }
    }
    assert_eq!(StageSpec::streaming(48_000, 0).block_duration_ms(), 0);
    let endless = StageSpec::streaming(0, 4);
    assert_eq!(endless.block_duration_ms(), f32::INFINITY.to_bits());
    assert!(f32::from_bits(endless.latency_ms()).is_nan());
}
