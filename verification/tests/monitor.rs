//! The preview monitor: which outputs it may use, and what stops it.

use noican::device::aec::{CaptureStep, SelfMonitorAec};
use noican::device::error::CoreAudioError;
use noican::device::monitor::{
    classify_monitor_target, fourcc, is_loopback_uid, is_noican_loopback_uid, HowlGuard,
    MonitorState, MonitorTee, DATA_SOURCE_INTERNAL_SPEAKER, HOWL_PEAK_THRESHOLD, HOWL_TRIP_BLOCKS,
    TRANSPORT_TYPE_AGGREGATE, TRANSPORT_TYPE_BUILT_IN, TRANSPORT_TYPE_VIRTUAL,
};
use noican::device::observe::{
    saturating_elapsed_ns, StreamLevels, WorkerBlockStats, BLOCK_BUDGET_NS,
};

fn bits(samples: &[f32]) -> Vec<u32> {
    samples.iter().map(|sample| sample.to_bits()).collect()
}

fn tee(capacity: usize, enabled: bool) -> (MonitorTee, rtrb::Consumer<u32>) {
    let (producer, consumer) = rtrb::RingBuffer::new(capacity);
    (MonitorTee::new(producer, enabled, false), consumer)
}

#[test]
fn tee_delivers_identical_samples_when_enabled() {
    let (mut tee, mut consumer) = tee(16, true);
    let block = [0.1_f32, -0.5, 0.25, 1.0];
    assert!(tee.feed(&bits(&block)));
    for &expected in &block {
        let delivered = f32::from_bits(consumer.pop().expect("teed sample is present"));
        assert!((delivered - expected).abs() < f32::EPSILON);
    }
    assert!(consumer.pop().is_err(), "no extra samples were teed");
}

#[test]
fn tee_is_skipped_when_disabled() {
    let (mut tee, mut consumer) = tee(16, false);
    assert!(!tee.feed(&bits(&[0.5, -0.5])));
    assert!(consumer.pop().is_err(), "disarmed tee must not write");
}

#[test]
fn tee_overrun_discards_instead_of_blocking() {
    let (mut tee, mut consumer) = tee(2, true);
    let block = bits(&[1.0_f32, 2.0, 3.0, 4.0]);
    assert!(tee.feed(&block));
    assert_eq!(consumer.pop().expect("first sample"), 1.0f32.to_bits());
    assert_eq!(consumer.pop().expect("second sample"), 2.0f32.to_bits());
    assert!(consumer.pop().is_err());
}

#[test]
fn sustained_clipping_disarms_the_tee_and_raises_the_trip_flag() {
    let (mut tee, _consumer) = tee(4, true);
    let loud = bits(&[1.0_f32; 4]);
    for _ in 0..HOWL_TRIP_BLOCKS - 1 {
        assert!(tee.feed(&loud));
        assert!(!tee.tripped(), "below the trip length");
    }
    assert!(tee.feed(&loud), "the tripping block itself is still teed");
    assert!(tee.tripped(), "trip flag raised");
    assert!(!tee.enabled(), "tee disarmed itself");
    assert!(!tee.feed(&loud), "no further blocks are teed");
}

#[test]
fn rearming_after_a_trip_requires_a_fresh_sustained_run() {
    let (mut tee, _consumer) = tee(4, true);
    let loud = bits(&[1.0_f32; 4]);
    for _ in 0..HOWL_TRIP_BLOCKS {
        let _teed = tee.feed(&loud);
    }
    assert!(tee.tripped());
    tee.set_flags(true, false);
    for _ in 0..HOWL_TRIP_BLOCKS - 1 {
        assert!(tee.feed(&loud));
        assert!(!tee.tripped(), "run restarted from zero");
    }
}

#[test]
fn howl_guard_trips_only_after_a_sustained_run() {
    let mut guard = HowlGuard::new();
    let loud = bits(&[1.0_f32; 4]);
    for _ in 0..HOWL_TRIP_BLOCKS - 1 {
        assert!(!guard.observe(&loud), "below the trip length");
    }
    assert!(guard.observe(&loud), "trips exactly at the trip length");
    assert!(!guard.observe(&loud));
}

#[test]
fn howl_guard_resets_on_quiet_blocks_and_explicit_reset() {
    let mut guard = HowlGuard::new();
    let loud = bits(&[1.0_f32; 4]);
    for _ in 0..HOWL_TRIP_BLOCKS - 1 {
        let _tripped = guard.observe(&loud);
    }
    assert!(!guard.observe(&bits(&[0.5_f32; 4])));
    for _ in 0..HOWL_TRIP_BLOCKS - 1 {
        assert!(!guard.observe(&loud), "run restarted from zero");
    }
    guard.reset();
    for _ in 0..HOWL_TRIP_BLOCKS - 1 {
        assert!(!guard.observe(&loud), "reset cleared the run");
    }
}

#[test]
fn howl_guard_ignores_loud_speech_with_dips() {
    let mut guard = HowlGuard::new();
    for _ in 0..20 {
        for _ in 0..HOWL_TRIP_BLOCKS / 2 {
            assert!(!guard.observe(&bits(&[1.0_f32; 4])));
        }
        assert!(!guard.observe(&bits(&[0.2_f32; 4])));
    }
}

#[test]
fn the_threshold_is_the_level_it_says() {
    assert_eq!(HOWL_PEAK_THRESHOLD, 0.98_f32.to_bits());
    let mut guard = HowlGuard::default();
    for _ in 0..HOWL_TRIP_BLOCKS - 1 {
        assert!(!guard.observe(&bits(&[-0.98])));
    }
    assert!(guard.observe(&bits(&[-0.98])));
}

#[test]
fn classify_refuses_virtual_and_loopback_uids() {
    assert!(matches!(
        classify_monitor_target(TRANSPORT_TYPE_VIRTUAL, "JoyCastDevice_UID", None),
        Err(CoreAudioError::MonitorLoopbackOutput { .. })
    ));
    assert!(matches!(
        classify_monitor_target(0, "BlackHole2ch_UID", None),
        Err(CoreAudioError::MonitorLoopbackOutput { .. })
    ));
    assert!(matches!(
        classify_monitor_target(0, "BlackHole16ch_UID", None),
        Err(CoreAudioError::MonitorLoopbackOutput { .. })
    ));
    assert!(matches!(
        classify_monitor_target(0, "COM.LIGHTSOUND.NOICAN.2ch", None),
        Err(CoreAudioError::MonitorLoopbackOutput { .. })
    ));
}

#[test]
fn classify_refuses_aggregate_and_multi_output_devices() {
    assert!(matches!(
        classify_monitor_target(TRANSPORT_TYPE_AGGREGATE, "~:AMS2_StackedOutput:0", None),
        Err(CoreAudioError::MonitorAggregateOutput { .. })
    ));
}

#[test]
fn classify_refuses_internal_speakers_but_allows_the_headphone_jack() {
    assert!(matches!(
        classify_monitor_target(
            TRANSPORT_TYPE_BUILT_IN,
            "BuiltInSpeakerDevice",
            Some(DATA_SOURCE_INTERNAL_SPEAKER)
        ),
        Err(CoreAudioError::MonitorSpeakerOutput)
    ));
    let headphone_jack = fourcc(*b"hdpn");
    assert!(classify_monitor_target(
        TRANSPORT_TYPE_BUILT_IN,
        "BuiltInHeadphoneOutputDevice",
        Some(headphone_jack)
    )
    .is_ok());
}

#[test]
fn classify_fails_open_where_it_cannot_classify() {
    let bluetooth = fourcc(*b"blue");
    let usb = fourcc(*b"usb ");
    assert!(classify_monitor_target(bluetooth, "AB-CD-EF-01-02-03:output", None).is_ok());
    assert!(classify_monitor_target(usb, "SomeUSBDAC_UID", Some(0)).is_ok());
    assert!(classify_monitor_target(0, "", None).is_ok());
    assert!(
        classify_monitor_target(TRANSPORT_TYPE_BUILT_IN, "BuiltInSpeakerDevice", None).is_ok(),
        "unreadable data source fails open on the built-in device"
    );
}

#[test]
fn the_refused_uid_is_kept() {
    match classify_monitor_target(TRANSPORT_TYPE_AGGREGATE, "Stack:0", None) {
        Err(CoreAudioError::MonitorAggregateOutput { uid }) => assert_eq!(uid, "Stack:0"),
        other => panic!("unexpected: {other:?}"),
    }
}

#[test]
fn codes_are_big_endian() {
    assert_eq!(fourcc(*b"virt"), TRANSPORT_TYPE_VIRTUAL);
    assert_eq!(fourcc(*b"grup"), TRANSPORT_TYPE_AGGREGATE);
    assert_eq!(fourcc(*b"bltn"), TRANSPORT_TYPE_BUILT_IN);
    assert_eq!(fourcc(*b"ispk"), DATA_SOURCE_INTERNAL_SPEAKER);
    assert_eq!(fourcc([0, 0, 1, 2]), 258);
}

#[test]
fn loopback_uids_are_told_by_content_or_prefix() {
    assert!(is_noican_loopback_uid("Com.Lightsound.Noican.Out"));
    assert!(is_noican_loopback_uid("my BlackHole device"));
    assert!(!is_noican_loopback_uid("blackhole"));
    assert!(!is_noican_loopback_uid("x com.lightsound.noican."));
    assert!(!is_noican_loopback_uid("com.lightsound.noican"));
    assert!(!is_loopback_uid("COM.LIGHTSOUND.NOICAN.", "something else"));
    assert!(is_loopback_uid("whatever", "com.lightsound.noican.1"));
}

#[test]
fn levels_report_the_known_peak_and_clamp_to_unity() {
    let mut levels = StreamLevels::new();
    levels.update(&bits(&[0.0, -0.5, 0.25]), &bits(&[0.0, 2.0, -3.0]), 0, 0);
    assert!(
        (f32::from_bits(levels.input()) - 0.5).abs() < f32::EPSILON,
        "peak of |-0.5|"
    );
    assert!(
        (f32::from_bits(levels.output()) - 1.0).abs() < f32::EPSILON,
        "out-of-range peaks clamp to 1.0"
    );
}

#[test]
fn silence_reads_zero_and_reset_clears() {
    let mut levels = StreamLevels::default();
    assert_eq!(levels.input(), 0);
    assert_eq!(levels.output(), 0);
    levels.update(&bits(&[0.0; 480]), &bits(&[0.0; 480]), 0, 0);
    assert_eq!(levels.input(), 0, "silence stays at zero");
    levels.update(&bits(&[0.8]), &bits(&[0.4]), 0, 0);
    levels.reset();
    assert_eq!(levels.input(), 0);
    assert_eq!(levels.output(), 0);
}

/// One decay step, as the worker computes it between blocks.
fn decayed(level: u32) -> u32 {
    (f32::from_bits(level) * 0.9).to_bits()
}

#[test]
fn levels_decay_exponentially_over_silent_blocks() {
    let mut levels = StreamLevels::new();
    levels.update(&bits(&[1.0]), &bits(&[1.0]), 0, 0);
    let mut previous = f32::from_bits(levels.input());
    for _ in 0..10 {
        let (input, output) = (decayed(levels.input()), decayed(levels.output()));
        levels.update(&bits(&[0.0]), &bits(&[0.0]), input, output);
        let current = f32::from_bits(levels.input());
        assert!(current < previous, "levels fall monotonically");
        assert!(
            previous.mul_add(-0.9, current).abs() < 1e-6,
            "one decay step per block"
        );
        previous = current;
    }
    let expected = 0.9_f32.powi(10);
    assert!((previous - expected).abs() < 1e-4);
}

#[test]
fn nan_samples_do_not_poison_the_meter() {
    let mut levels = StreamLevels::new();
    levels.update(&bits(&[f32::NAN, 0.25]), &bits(&[f32::NAN]), 0, 0);
    assert!((f32::from_bits(levels.input()) - 0.25).abs() < f32::EPSILON);
    assert_eq!(levels.output(), 0);
}

#[test]
fn block_stats_count_blocks_budget_violations_and_the_maximum() {
    let mut stats = WorkerBlockStats::new();
    assert_eq!(stats.blocks(), 0);
    assert_eq!(stats.over_budget(), 0);
    assert_eq!(stats.max_ns(), 0);

    stats.record(1_000_000);
    stats.record(BLOCK_BUDGET_NS);
    stats.record(BLOCK_BUDGET_NS + 1);
    stats.record(21_500_000);
    stats.record(2_000_000);

    assert_eq!(stats.blocks(), 5);
    assert_eq!(stats.over_budget(), 2);
    assert_eq!(stats.max_ns(), 21_500_000);
}

#[test]
fn block_stats_reset_zeroes_every_counter() {
    let mut stats = WorkerBlockStats::default();
    stats.record(15_000_000);
    stats.reset();
    assert_eq!(stats.blocks(), 0);
    assert_eq!(stats.over_budget(), 0);
    assert_eq!(stats.max_ns(), 0);
}

#[test]
fn elapsed_time_saturates() {
    assert_eq!(saturating_elapsed_ns(17), 17);
    assert_eq!(saturating_elapsed_ns(u128::MAX), u64::MAX);
}

#[test]
fn the_schedule_is_send() {
    fn assert_send<T: Send>() {}
    assert_send::<SelfMonitorAec>();
}

#[test]
fn nothing_is_cancelled_unless_playing() {
    for state in [MonitorState::Off, MonitorState::Tripped] {
        let mut canceller = SelfMonitorAec::new();
        let step = canceller.process_capture(state, 0, 480);
        assert_eq!(
            step,
            CaptureStep {
                reset: false,
                cancel: false
            }
        );
        assert!(!canceller.feed_render(480, false));
        assert!(!canceller.feed_render(480, true));
    }
}

#[test]
fn a_new_generation_resets_the_canceller() {
    let mut canceller = SelfMonitorAec::new();
    let engaged = canceller.process_capture(MonitorState::Playing, 0, 480);
    assert!(engaged.reset && engaged.cancel);
    let steady = canceller.process_capture(MonitorState::Playing, 0, 480);
    assert!(!steady.reset && steady.cancel);
    let bumped = canceller.process_capture(MonitorState::Playing, 1, 480);
    assert!(bumped.reset && bumped.cancel);
    canceller.process_capture(MonitorState::Tripped, 1, 480);
    let again = canceller.process_capture(MonitorState::Playing, 1, 480);
    assert!(again.reset && again.cancel);
}

#[test]
fn blocks_of_another_length_are_left_alone() {
    let mut canceller = SelfMonitorAec::new();
    canceller.process_capture(MonitorState::Playing, 0, 480);
    let short = canceller.process_capture(MonitorState::Playing, 0, 100);
    assert!(!short.cancel, "short blocks pass through untouched");
    assert!(!canceller.feed_render(100, true));
    assert!(canceller.feed_render(480, true));
    assert!(!canceller.feed_render(480, false));
}
