//! The transport: callbacks, the inference worker, starting and stopping.

use noican::device::callback::{
    render_geometry, vet_render_buffer, CallbackContext, CaptureContext, MonitorContext,
    MONITOR_PRIME_SAMPLES, NO_ERR, PARAM_ERR,
};
use noican::device::error::CoreAudioError;
use noican::device::lifecycle::{Cleanup, StartStep, Startup, Transport, UnitRole};
use noican::device::monitor::{MonitorState, MonitorTee};
use noican::device::runtime::{
    device_uid, length_before_zero, monitor_pair, monitor_target_device, EnableStep, Runtime,
};
use noican::device::worker::{
    count_between_clocks, drain_native, BlockAssembler, BlockSinks, PendingBlocks, SplitStep,
    SplitWorker, WorkerStep, NATIVE_CHUNK_SAMPLES, OUTPUT_PRIME_SAMPLES, WORKER_BLOCK_SAMPLES,
};

fn bits(samples: &[f32]) -> Vec<u32> {
    samples.iter().map(|sample| sample.to_bits()).collect()
}

#[test]
fn a_cycle_moves_captured_frames_on_and_duplicates_engine_samples() {
    let (input, mut captured) = rtrb::RingBuffer::new(8);
    let (mut engine, output) = rtrb::RingBuffer::new(8);
    let mut context = CallbackContext::new(input, output);
    assert_eq!(context.begin_cycle(1, true, 3, 4), Ok(12));

    engine.push(10).unwrap();
    engine.push(20).unwrap();
    let geometry = render_geometry(24, 2, 3);
    let mut samples = [9u32; 6];
    assert_eq!(
        context.render(true, &[1, 2, 3, 4], &mut samples, geometry, 3),
        NO_ERR
    );
    assert_eq!(samples, [10, 10, 20, 20, 0, 0]);
    assert_eq!(captured.pop(), Ok(1));
    assert_eq!(captured.pop(), Ok(2));
    assert_eq!(captured.pop(), Ok(3));
    assert!(captured.pop().is_err());
    let counters = context.counters();
    assert!(!counters.faulted && counters.output_primed);
    assert_eq!((counters.frames, counters.underruns), (3, 0));
}

#[test]
fn only_a_dry_cycle_after_playback_is_an_underrun() {
    let (input, _captured) = rtrb::RingBuffer::new(8);
    let (mut engine, output) = rtrb::RingBuffer::new(8);
    let mut context = CallbackContext::new(input, output);
    let geometry = render_geometry(8, 1, 2);
    let mut samples = [0u32; 2];
    context.render(true, &[0, 0], &mut samples, geometry, 2);
    assert_eq!(context.counters().underruns, 0, "start-up latency");
    engine.push(5).unwrap();
    context.render(true, &[0, 0], &mut samples, geometry, 2);
    assert_eq!(samples, [5, 0]);
    assert_eq!(context.counters().underruns, 0, "a partial shortfall");
    context.render(true, &[0, 0], &mut samples, geometry, 2);
    assert_eq!(context.counters().underruns, 1);
    context.reset_underruns();
    assert_eq!(context.counters().underruns, 0);
    assert_eq!(context.counters().frames, 6);
}

#[test]
fn a_failed_capture_renders_silence_and_faults() {
    let (input, mut captured) = rtrb::RingBuffer::new(8);
    let (mut engine, output) = rtrb::RingBuffer::new(8);
    let mut context = CallbackContext::new(input, output);
    engine.push(5).unwrap();
    let mut samples = [7u32; 2];
    let status = context.render(false, &[1, 2], &mut samples, render_geometry(8, 1, 2), 2);
    assert_eq!(status, NO_ERR);
    assert_eq!(samples, [0, 0]);
    assert!(context.counters().faulted);
    assert!(captured.pop().is_err());
    assert_eq!(context.counters().frames, 0);
}

#[test]
fn unusable_buffers_are_refused() {
    let (input, _captured) = rtrb::RingBuffer::new(8);
    let (_engine, output) = rtrb::RingBuffer::new(8);
    let mut context = CallbackContext::new(input, output);
    assert_eq!(context.begin_cycle(0, true, 3, 4), Err(PARAM_ERR));
    assert_eq!(context.begin_cycle(1, false, 3, 4), Err(PARAM_ERR));
    assert_eq!(context.begin_cycle(1, true, 5, 4), Err(PARAM_ERR));
    assert!(context.counters().faulted);
    assert_eq!(vet_render_buffer(0, true), PARAM_ERR);
    assert_eq!(vet_render_buffer(1, false), PARAM_ERR);
    assert_eq!(vet_render_buffer(1, true), NO_ERR);
}

#[test]
fn the_capture_unit_hands_its_frames_on() {
    let (input, mut captured) = rtrb::RingBuffer::new(2);
    let mut context = CaptureContext::new(input);
    assert_eq!(context.begin_cycle(0, 4), Ok(None));
    assert_eq!(context.begin_cycle(3, 4), Ok(Some(12)));
    assert_eq!(context.begin_cycle(5, 4), Err(PARAM_ERR));
    assert!(context.faulted());
    assert_eq!(context.capture(true, &[1, 2, 3, 4], 3), NO_ERR);
    assert_eq!(captured.pop(), Ok(1));
    assert_eq!(captured.pop(), Ok(2));
    assert!(captured.pop().is_err(), "overrun drops samples");
    assert_eq!(context.frames(), 3);
    assert_eq!(context.capture(false, &[1, 2, 3, 4], 3), NO_ERR);
    assert_eq!(context.frames(), 3);
}

#[test]
fn the_monitor_waits_for_a_stock_of_samples() {
    let (mut engine, output) = rtrb::RingBuffer::new(4_800);
    let mut context = MonitorContext::new(output);
    let geometry = render_geometry(16, 2, 2);
    let mut samples = [9u32; 4];
    engine.push(1).unwrap();
    context.render(&mut samples, geometry);
    assert_eq!(samples, [0; 4], "not enough to start");
    for value in 2..=MONITOR_PRIME_SAMPLES as u32 {
        engine.push(value).unwrap();
    }
    context.render(&mut samples, geometry);
    assert_eq!(samples, [1, 1, 2, 2]);
    assert!(context.primed());
    let mut rest = vec![0u32; MONITOR_PRIME_SAMPLES];
    let frames = MONITOR_PRIME_SAMPLES as u32;
    context.render(&mut rest, render_geometry(4 * frames, 1, frames));
    assert_eq!(rest[0], 3);
    assert_eq!(rest[MONITOR_PRIME_SAMPLES - 2], 0);
    assert!(!context.primed(), "an underrun waits for a new stock");
    engine.push(77).unwrap();
    context.render(&mut samples, geometry);
    assert_eq!(samples, [0; 4]);
    for value in 2..MONITOR_PRIME_SAMPLES as u32 {
        engine.push(value).unwrap();
    }
    context.render(&mut samples, geometry);
    assert_eq!(samples, [0; 4], "one sample short of the stock");
    engine.push(78).unwrap();
    for _ in 0..MONITOR_PRIME_SAMPLES / 2 {
        context.render(&mut samples, geometry);
        assert!(samples.iter().all(|sample| *sample != 0), "a stocked ring plays on");
    }
    assert!(context.primed());
    context.render(&mut samples, geometry);
    assert_eq!(samples, [0; 4]);
    assert!(!context.primed());
}

#[test]
fn samples_are_gathered_into_blocks() {
    let (mut producer, mut consumer) = rtrb::RingBuffer::new(2_000);
    let mut assembler = BlockAssembler::new();
    assert_eq!(assembler.pull(&mut consumer), WorkerStep::Wait);
    for value in 0..1_000u32 {
        producer.push(value).unwrap();
    }
    let mut blocks = Vec::new();
    loop {
        match assembler.pull(&mut consumer) {
            WorkerStep::Wait => break,
            WorkerStep::Gather => {}
            WorkerStep::Run => blocks.push(assembler.block().to_vec()),
        }
    }
    assert_eq!(blocks.len(), 2);
    assert_eq!(blocks[0], (0..480).collect::<Vec<u32>>());
    assert_eq!(blocks[1], (480..960).collect::<Vec<u32>>());
    assert_eq!(assembler.take(None), WorkerStep::Wait);
}

fn sinks(capacity: usize) -> (BlockSinks, rtrb::Consumer<u32>, rtrb::Consumer<u32>) {
    let (monitor, preview) = rtrb::RingBuffer::new(4_800);
    let (producer, consumer) = rtrb::RingBuffer::new(capacity);
    (
        BlockSinks::new(MonitorTee::new(monitor, true, false), producer),
        consumer,
        preview,
    )
}

#[test]
fn a_block_is_fanned_out() {
    let (mut sinks, mut output, mut preview) = sinks(8);
    let mut block = bits(&[0.5, -0.25]);
    assert!(sinks.finish_block(true, &bits(&[1.0, 0.0]), &mut block, 0, 0));
    assert_eq!(output.pop(), Ok(0.5f32.to_bits()));
    assert_eq!(output.pop(), Ok((-0.25f32).to_bits()));
    assert_eq!(preview.pop(), Ok(0.5f32.to_bits()));
    assert_eq!(sinks.levels(), (1.0f32.to_bits(), 0.5f32.to_bits()));
    assert!(!sinks.faulted());

    let mut failed = bits(&[0.5, -0.25]);
    assert!(sinks.finish_block(false, &bits(&[0.1]), &mut failed, 0, 0));
    assert_eq!(failed, [0, 0]);
    assert_eq!(output.pop(), Ok(0));
    assert!(sinks.faulted());

    sinks.set_preview(false, false);
    assert!(!sinks.finish_block(true, &bits(&[0.1]), &mut block, 0, 0));
    sinks.close();
    assert_eq!(sinks.levels(), (0, 0));
}

#[test]
fn the_split_worker_bridges_two_rates() {
    let (mut microphone, input) = rtrb::RingBuffer::new(4_000);
    let (sinks, mut output, _preview) = sinks(48_000);
    let mut worker = SplitWorker::new(input, sinks, 3);
    for _ in 0..OUTPUT_PRIME_SAMPLES {
        assert_eq!(output.pop(), Ok(0));
    }
    assert!(matches!(worker.begin_pass(false), SplitStep::Wait));
    assert!(matches!(worker.begin_pass(true), SplitStep::Stop));
    for value in 0..500u32 {
        microphone.push(value).unwrap();
    }
    let chunk = match worker.begin_pass(false) {
        SplitStep::Convert(chunk) => chunk,
        other => panic!("unexpected step: {other:?}"),
    };
    assert_eq!(chunk.len(), NATIVE_CHUNK_SAMPLES);
    let converted: Vec<u32> = chunk.iter().flat_map(|value| [*value; 3]).collect();
    worker.converted(&converted);
    let mut blocks = 0;
    while let Some(block) = worker.next_block() {
        assert_eq!(block.len(), WORKER_BLOCK_SAMPLES);
        let mut processed = block.clone();
        let total = worker
            .finish_block(true, &block, &mut processed, 0, 0)
            .expect("a small total");
        blocks += 1;
        let waiting = 3 * NATIVE_CHUNK_SAMPLES - blocks * WORKER_BLOCK_SAMPLES;
        assert_eq!(total, blocks * WORKER_BLOCK_SAMPLES + waiting + 20 * 3);
    }
    assert_eq!(blocks, 3);
}

#[test]
fn native_samples_are_drained_in_chunks() {
    let (mut producer, mut consumer) = rtrb::RingBuffer::new(1_000);
    for value in 0..600u32 {
        producer.push(value).unwrap();
    }
    assert_eq!(drain_native(&mut consumer).len(), 480);
    let rest = drain_native(&mut consumer);
    assert_eq!(rest.len(), 120);
    assert_eq!(rest[0], 480);
    assert!(drain_native(&mut consumer).is_empty());
    let mut pending = PendingBlocks::new();
    pending.extend(&rest);
    assert!(pending.next_block().is_none());
    assert_eq!(pending.len(), 120);
}

#[test]
fn what_lies_between_the_clocks_is_counted() {
    assert_eq!(count_between_clocks(100, 40, 7, 5, 3), Some(82));
    assert_eq!(count_between_clocks(1, 1, 0, usize::MAX, 2), Some(usize::MAX));
    assert_eq!(count_between_clocks(2, 1, 0, usize::MAX, 2), None);
}

/// Runs a startup until the step with this number fails.
fn fail_at(mut startup: Startup, steps: usize) -> Vec<Cleanup> {
    for _ in 0..steps {
        assert!(startup.next_step().is_some());
        startup.advance();
    }
    startup.fail()
}

#[test]
fn a_failed_start_releases_what_it_acquired() {
    assert!(fail_at(Startup::aggregate(), 0).is_empty());
    assert_eq!(
        fail_at(Startup::aggregate(), 2),
        [
            Cleanup::Dispose(UnitRole::Aggregate),
            Cleanup::ReleaseSemaphore
        ]
    );
    assert_eq!(
        fail_at(Startup::aggregate(), 8),
        [
            Cleanup::JoinWorker,
            Cleanup::Free(UnitRole::Aggregate),
            Cleanup::Uninitialize(UnitRole::Aggregate),
            Cleanup::Dispose(UnitRole::Aggregate),
            Cleanup::ReleaseSemaphore,
        ]
    );
    assert_eq!(
        fail_at(Startup::split(), 15),
        [
            Cleanup::Stop(UnitRole::Capture),
            Cleanup::JoinWorker,
            Cleanup::Free(UnitRole::Output),
            Cleanup::Uninitialize(UnitRole::Output),
            Cleanup::Dispose(UnitRole::Output),
            Cleanup::Free(UnitRole::Capture),
            Cleanup::Uninitialize(UnitRole::Capture),
            Cleanup::Dispose(UnitRole::Capture),
            Cleanup::ReleaseSemaphore,
        ]
    );
    assert_eq!(
        fail_at(Startup::monitor(), 4),
        [
            Cleanup::Free(UnitRole::Monitor),
            Cleanup::Dispose(UnitRole::Monitor)
        ]
    );
}

#[test]
fn a_transport_is_taken_down_callbacks_first() {
    assert_eq!(
        Transport::Aggregate.take_down(),
        [
            Cleanup::Stop(UnitRole::Aggregate),
            Cleanup::JoinWorker,
            Cleanup::Uninitialize(UnitRole::Aggregate),
            Cleanup::Dispose(UnitRole::Aggregate),
            Cleanup::Free(UnitRole::Aggregate),
        ]
    );
    assert_eq!(Transport::Split.take_down().len(), 9);
    assert_eq!(Transport::Preview.take_down().len(), 4);
}

#[test]
fn a_native_start_checks_the_rate_first() {
    let (startup, converter) = Runtime::start_native(16_000).expect("a telephony rate");
    assert_eq!(converter.ratio(), (3, 1));
    assert_eq!(startup.next_step(), Some(StartStep::CreateSemaphore));
    match Runtime::start_native(7_999) {
        Err(CoreAudioError::Worker(reason)) => assert!(reason.contains("7999"), "{reason}"),
        other => panic!("unexpected: {}", other.is_ok()),
    }
    assert_eq!(
        Runtime::start().next_step(),
        Some(StartStep::CreateSemaphore)
    );
}

#[test]
fn the_preview_can_be_toggled_while_running() {
    let (control, mut tee) = monitor_pair();
    let mut runtime = Runtime::new(Transport::Aggregate, control, "routed".to_owned());
    assert!(runtime.is_running());
    assert_eq!(runtime.routing_description(), "routed");
    assert_eq!(runtime.monitor_device(), None);
    assert!(!runtime.is_monitoring());
    match runtime.set_monitor(true) {
        Ok((Some(EnableStep::StartUnit), false)) => {}
        _ => panic!("a unit must be started"),
    }
    tee.set_flags(true, false);
    tee.feed(&[1, 2, 3]);
    let mut consumer = runtime.lend_monitor().expect("the ring is parked");
    assert!(consumer.pop().is_err(), "stale samples are dropped");
    runtime.monitor_started(42);
    assert_eq!(runtime.monitor_device(), Some(42));
    assert!(runtime.is_monitoring());
    match runtime.set_monitor(true) {
        Ok((Some(EnableStep::Rearmed), false)) => {}
        _ => panic!("the unit is still up"),
    }
    match runtime.lend_monitor() {
        Err(CoreAudioError::Monitor(reason)) => {
            assert_eq!(reason, "the monitor ring consumer is unavailable");
        }
        _ => panic!("the ring is lent"),
    }
    match runtime.set_monitor(false) {
        Ok((None, true)) => {}
        _ => panic!("the unit must be stopped"),
    }
    runtime.monitor_parked(consumer);
    assert_eq!(runtime.monitor_device(), None);
    assert!(!runtime.is_monitoring());

    let plan = runtime.stop();
    assert!(!plan.stop_monitor);
    assert_eq!(plan.cleanup.len(), 5);
    assert!(!runtime.is_running());
    assert!(runtime.stop().cleanup.is_empty(), "a second stop is harmless");
    assert!(matches!(
        runtime.set_monitor(true),
        Err(CoreAudioError::NotRunning)
    ));
}

#[test]
fn a_trip_disarms_until_the_next_toggle() {
    let (mut control, _tee) = monitor_pair();
    assert_eq!(control.state(), MonitorState::Off);
    let consumer = control.lend().expect("parked");
    control.started(7);
    assert_eq!(control.state(), MonitorState::Playing);
    control.trip();
    assert_eq!(control.state(), MonitorState::Tripped);
    assert_eq!(control.active_device(), Some(7), "the unit stays up");
    assert_eq!(control.begin_enable(), EnableStep::Rearmed);
    assert_eq!(control.state(), MonitorState::Playing);
    assert!(control.disable());
    control.park(consumer);
    assert!(!control.disable(), "disabling twice changes nothing");
    assert_eq!(control.state(), MonitorState::Off);
}

#[test]
fn the_runtime_shows_what_was_counted() {
    let (control, _tee) = monitor_pair();
    let mut runtime = Runtime::new(Transport::Split, control, String::new());
    runtime.observe(true, 480, 2, true);
    runtime.record_block(11_000_000);
    assert!(runtime.is_faulted() && runtime.worker_realtime());
    assert_eq!(runtime.frames_processed(), 480);
    assert_eq!(runtime.output_underruns(), 2);
    assert_eq!(runtime.worker_blocks(), 1);
    assert_eq!(runtime.worker_blocks_over_budget(), 1);
    assert_eq!(runtime.worker_block_max_ns(), 11_000_000);
    runtime.reset_debug_stats();
    assert_eq!(runtime.output_underruns(), 0);
    assert_eq!(runtime.worker_blocks(), 0);
    assert_eq!(runtime.frames_processed(), 480);
}

#[test]
fn the_default_output_is_vetted() {
    assert!(matches!(
        monitor_target_device(0, None, "", None),
        Err(CoreAudioError::Monitor(_))
    ));
    assert_eq!(monitor_target_device(9, None, "usb", None).unwrap(), 9);
    assert!(monitor_target_device(9, None, "BlackHole", None).is_err());
}

#[test]
fn a_uid_ends_at_the_first_zero_byte() {
    assert_eq!(device_uid(true, b"Built-In\0junk"), "Built-In");
    assert_eq!(device_uid(true, b"caf\xc3\xa9"), "caf\u{e9}");
    assert_eq!(device_uid(true, b"bad\xff"), "bad\u{fffd}");
    assert_eq!(device_uid(false, b"ignored"), "");
    assert_eq!(length_before_zero(b"ab\0"), 2);
    assert_eq!(length_before_zero(b"ab"), 2);
}
