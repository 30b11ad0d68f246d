//! Where the render stream goes, and how much of a buffer a callback writes.

use noican::device::callback::{
    capture_byte_size, render_geometry, RenderGeometry, MAX_CALLBACK_FRAMES,
};
use noican::device::error::{
    check_monitor_device, check_monitor_target, check_status, CoreAudioError,
};
use noican::device::routing::{
    channel_map_bytes, render_channel_map, split_render_channels, VirtualOutputChannels,
    UNMAPPED_CHANNEL,
};
use noican::device::units::{
    applied_map_request, bind_output_auhal, configure_auhal, configure_capture_auhal,
    configure_monitor_auhal, configure_output_auhal, describe_applied_channel_map, pcm_format, set_render_channel_map,
    worker_policy, AppliedMap, PropertyValue,
};

#[test]
fn capture_size_is_four_bytes_per_frame_within_capacity() {
    assert_eq!(capture_byte_size(0, MAX_CALLBACK_FRAMES), Some(0));
    assert_eq!(capture_byte_size(256, MAX_CALLBACK_FRAMES), Some(1_024));
    assert_eq!(
        capture_byte_size(MAX_CALLBACK_FRAMES, MAX_CALLBACK_FRAMES),
        Some(16_384)
    );
}

#[test]
fn capture_size_refuses_frames_beyond_the_buffer() {
    assert_eq!(
        capture_byte_size(MAX_CALLBACK_FRAMES + 1, MAX_CALLBACK_FRAMES),
        None
    );
    assert_eq!(capture_byte_size(1, 0), None);
}

#[test]
fn render_geometry_uses_the_buffer_channel_count() {
    let geometry = render_geometry(2_048, 2, 256);
    assert_eq!(
        geometry,
        RenderGeometry {
            channels: 2,
            frames: 256
        }
    );
    assert_eq!(geometry.samples(), 512);
    assert_eq!(
        render_geometry(2_048, 1, 256),
        RenderGeometry {
            channels: 1,
            frames: 256
        }
    );
}

#[test]
fn render_geometry_never_exceeds_the_buffer() {
    assert_eq!(render_geometry(800, 2, 256).frames, 100);
    assert_eq!(render_geometry(804, 2, 256).frames, 100);
    assert_eq!(render_geometry(0, 2, 256).frames, 0);
}

#[test]
fn render_geometry_treats_zero_channels_as_mono() {
    let geometry = render_geometry(1_024, 0, 256);
    assert_eq!(geometry.channels, 1);
    assert_eq!(geometry.frames, 256);
}

#[test]
fn split_render_format_follows_the_virtual_output_width() {
    assert_eq!(split_render_channels(2).expect("stereo"), 2);
    assert_eq!(split_render_channels(1).expect("mono"), 1);
    assert_eq!(split_render_channels(16).expect("wide"), 16);
}

#[test]
fn split_render_format_refuses_a_channelless_virtual_output() {
    let error = split_render_channels(0).expect_err("must refuse");
    assert!(
        matches!(error, CoreAudioError::OutputRouting(_)),
        "unexpected error kind: {error:?}"
    );
    let message = error.message();
    assert!(
        message.starts_with("virtual output routing failed")
            && message.contains("no output channels")
            && message.contains("split transport"),
        "unhelpful message: {message}"
    );
}

#[test]
fn built_in_microphone_layout_feeds_both_virtual_output_channels() {
    let target = VirtualOutputChannels::new(0, 2).expect("valid range");
    assert_eq!(render_channel_map(2, target).expect("map"), vec![0, 1]);
}

#[test]
fn headphone_microphone_layout_skips_the_microphone_outputs() {
    let target = VirtualOutputChannels::new(2, 2).expect("valid range");
    assert_eq!(
        render_channel_map(4, target).expect("map"),
        vec![UNMAPPED_CHANNEL, UNMAPPED_CHANNEL, 0, 1]
    );
}

#[test]
fn multichannel_interface_layout_is_handled() {
    let target = VirtualOutputChannels::new(8, 2).expect("valid range");
    let map = render_channel_map(10, target).expect("map");
    assert_eq!(map.len(), 10);
    assert!(map[..8].iter().all(|&entry| entry == UNMAPPED_CHANNEL));
    assert_eq!(&map[8..], &[0, 1]);
}

#[test]
fn single_channel_virtual_output_keeps_the_mono_shape() {
    let target = VirtualOutputChannels::new(0, 1).expect("valid range");
    assert_eq!(render_channel_map(1, target).expect("map"), vec![0]);
    let target = VirtualOutputChannels::new(2, 1).expect("valid range");
    assert_eq!(
        render_channel_map(3, target).expect("map"),
        vec![UNMAPPED_CHANNEL, UNMAPPED_CHANNEL, 0]
    );
}

#[test]
fn every_virtual_output_channel_is_fed_one_to_one() {
    for (first, count) in [(0u32, 1u32), (0, 2), (2, 2), (6, 8)] {
        let target = VirtualOutputChannels::new(first, count).expect("valid range");
        let map = render_channel_map(first + count, target).expect("map");
        let fed: Vec<(usize, i32)> = map
            .iter()
            .enumerate()
            .filter(|&(_, &entry)| entry != UNMAPPED_CHANNEL)
            .map(|(index, &entry)| (index, entry))
            .collect();
        let expected: Vec<(usize, i32)> = (0..count)
            .map(|i| {
                (
                    usize::try_from(first + i).expect("small"),
                    i32::try_from(i).expect("small"),
                )
            })
            .collect();
        assert_eq!(fed, expected, "layout first={first} count={count}");
        let mut clients: Vec<i32> = fed.iter().map(|&(_, client)| client).collect();
        clients.dedup();
        assert_eq!(clients.len(), fed.len());
    }
}

#[test]
fn layout_mismatch_refuses_instead_of_guessing() {
    let target = VirtualOutputChannels::new(2, 2).expect("valid range");
    for device_channels in [2u32, 3, 5] {
        let error = render_channel_map(device_channels, target).expect_err("must refuse");
        assert!(
            matches!(error, CoreAudioError::OutputRouting(_)),
            "unexpected error kind: {error:?}"
        );
        let message = error.message();
        assert!(
            message.contains(&device_channels.to_string()) && message.contains("2..4"),
            "unhelpful message: {message}"
        );
    }
}

#[test]
fn empty_or_overflowing_ranges_are_rejected() {
    assert!(matches!(
        VirtualOutputChannels::new(0, 0),
        Err(CoreAudioError::OutputRouting(_))
    ));
    assert!(matches!(
        VirtualOutputChannels::new(u32::MAX, 1),
        Err(CoreAudioError::OutputRouting(_))
    ));
    let range = VirtualOutputChannels::new(3, 4).expect("valid range");
    assert_eq!(range.first(), 3);
    assert_eq!(range.count(), 4);
    assert_eq!(range.end(), 7);
}

#[test]
fn a_map_is_four_bytes_per_entry() {
    assert_eq!(channel_map_bytes(10).unwrap(), 40);
    assert!(matches!(
        channel_map_bytes(usize::MAX),
        Err(CoreAudioError::OutputRouting(_))
    ));
}

#[test]
fn device_errors_describe_themselves() {
    let failed = check_status(-10_851, "AudioUnitInitialize").unwrap_err();
    assert_eq!(
        failed.message(),
        "AudioUnitInitialize failed with OSStatus -10851"
    );
    assert!(check_status(0, "AudioUnitInitialize").is_ok());
    assert_eq!(
        check_status(i32::MIN, "x").unwrap_err().message(),
        "x failed with OSStatus -2147483648"
    );
    assert_eq!(
        check_monitor_target().unwrap_err().message(),
        "AUHAL is available only on macOS"
    );
    assert!(check_monitor_device(7).is_err());
    assert_eq!(
        CoreAudioError::MissingAuHal.message(),
        "kAudioUnitSubType_HALOutput is unavailable"
    );
    assert_eq!(
        CoreAudioError::Worker("gone".to_owned()).message(),
        "audio processing worker failed: gone"
    );
    assert_eq!(
        CoreAudioError::NotRunning.message(),
        "the engine transport is not running"
    );
    assert_eq!(
        CoreAudioError::Monitor("gone".to_owned()).message(),
        "preview monitor failed: gone"
    );
    assert_eq!(
        CoreAudioError::MonitorLoopbackOutput {
            uid: "a".to_owned()
        }
        .message(),
        "the system output is a virtual loopback device"
    );
    assert_eq!(
        CoreAudioError::MonitorAggregateOutput {
            uid: "a".to_owned()
        }
        .message(),
        "the system output is a multi-output device"
    );
    assert_eq!(
        CoreAudioError::MonitorSpeakerOutput.message(),
        "the built-in speakers would feed back"
    );
}

#[test]
fn the_aggregate_unit_renders_one_channel_per_virtual_output_channel() {
    let target = VirtualOutputChannels::new(2, 2).expect("valid range");
    let writes = configure_auhal(77, target);
    let operations: Vec<&str> = writes.iter().map(|write| write.operation).collect();
    assert_eq!(
        operations,
        [
            "enable AUHAL input",
            "enable AUHAL output",
            "select Aggregate Device",
            "set AUHAL capture format",
            "set AUHAL render format",
            "set AUHAL frame bound",
        ]
    );
    assert_eq!(writes[2].property, 2_000);
    assert_eq!(writes[2].value, PropertyValue::Number(77));
    assert_eq!(writes[4].value, PropertyValue::Format(pcm_format(2)));
    assert_eq!(pcm_format(2).bytes_per_frame, 8);
    assert_eq!(writes[5].value, PropertyValue::Number(4_096));

    let map = set_render_channel_map(4, target).unwrap();
    assert_eq!(map.map, vec![-1, -1, 0, 1]);
    assert_eq!(map.bytes, 16);
    assert_eq!(
        map.description,
        "aggregate output channels 4, virtual output at channels 2..4, \
         channel map requested [-1, -1, 0, 1]"
    );
    assert!(set_render_channel_map(5, target).is_err());
}

#[test]
fn the_other_units_enable_one_direction() {
    let capture = configure_capture_auhal(5, 16_000);
    assert_eq!(capture.len(), 5);
    assert_eq!(capture[0].value, PropertyValue::Number(1));
    assert_eq!(capture[1].value, PropertyValue::Number(0));
    match capture[3].value {
        PropertyValue::Format(format) => {
            assert_eq!(format.sample_rate, 16_000);
            assert_eq!(format.channels_per_frame, 1);
        }
        PropertyValue::Number(_) => panic!("the format was expected"),
    }
    let output = bind_output_auhal(6);
    assert_eq!(output.len(), 3);
    assert_eq!(output[0].value, PropertyValue::Number(0));
    assert_eq!(output[2].value, PropertyValue::Number(6));
    for channels in [1, 2, 16] {
        let format = configure_output_auhal(channels).unwrap();
        assert_eq!(format.value, PropertyValue::Format(pcm_format(channels)));
    }
    assert!(configure_output_auhal(0).is_err());
    let monitor = configure_monitor_auhal(7);
    assert_eq!(monitor[2].operation, "select monitor output device");
    assert_eq!(monitor[2].value, PropertyValue::Number(7));
}

#[test]
fn the_applied_map_is_described_whatever_was_read() {
    assert_eq!(applied_map_request(Some(3)).unwrap(), (3, 12));
    let unreadable = applied_map_request(None).unwrap_err();
    assert_eq!(
        describe_applied_channel_map(&unreadable),
        "channel map read back: device format unreadable"
    );
    let too_long = applied_map_request(Some(u32::MAX)).unwrap_err();
    assert_eq!(
        describe_applied_channel_map(&too_long),
        "channel map read back: size overflow"
    );
    assert_eq!(
        describe_applied_channel_map(&AppliedMap::Failed { status: -50 }),
        "channel map read back after initialize: unreadable (OSStatus -50)"
    );
    let read = AppliedMap::Read {
        entries: vec![-1, 0, 1],
        filled: 8,
        device_channels: 3,
    };
    assert_eq!(
        describe_applied_channel_map(&read),
        "channel map read back after initialize [-1, 0] (device output channels then 3)"
    );
    let nothing = AppliedMap::Read {
        entries: vec![0],
        filled: 3,
        device_channels: 1,
    };
    assert_eq!(
        describe_applied_channel_map(&nothing),
        "channel map read back after initialize [] (device output channels then 1)"
    );
}

#[test]
fn the_worker_declares_its_cadence_in_clock_ticks() {
    let policy = worker_policy(true, 125, 3).expect("usable time base");
    assert_eq!(policy.period, 240_000);
    assert_eq!(policy.computation, 120_000);
    assert_eq!(policy.constraint, 240_000);
    assert_eq!(policy.preemptible, 1);
    assert!(worker_policy(false, 125, 3).is_none());
    assert!(worker_policy(true, 0, 3).is_none());
    assert!(worker_policy(true, 125, 0).is_none());
    assert_eq!(
        worker_policy(true, 1, u32::MAX).expect("usable").period,
        u32::MAX
    );
}
