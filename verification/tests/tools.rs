//! The logic behind the command-line tools.

use noican::engine::offline::DelayCompensation;
use noican::engine::rate::{plan_clip, resample_clip, ClipConversion};
use noican::signal::block::{BlockStage, StageError};
use noican::signal::resample::{PolyphasePlan, PolyphaseResampler};
use noican::signal::runner::{scale_rate, Direct, RateConverter};
use noican::signal::stage::Passthrough;
use noican::tools::audio::{
    first_decodable, frame_layout, needs_conversion, reader_for, unsupported_container,
    wav_encoding, PacketEvent, PacketStep, Reader, TrackReader, WavEncoding,
};
use noican::tools::batch::{
    batch_verdict, check_embedding, check_output, comparison_manifest, count_failures,
    deduplicate, delay_label, hexadecimal, input_identifier, model_result, output_path, sha256_hex,
    ModelResult, ModelStatus,
};
use noican::tools::commands::{
    catalog_line, default_model_ids, fetch_verdict, first_failure, goes_on, human_bytes, probe_length, select,
    should_redraw, verify_summary, written_summary,
};
use noican::tools::eval::{
    blind_order, build_mixture, measured, mixture_seed, segment_length, trim_silence, Region,
    Regions, REGION_GUARD, TRIM_FRAME,
};
use noican::tools::manifest::{render_manifest, Row, REFERENCE_NAME};
use noican::tools::offline::{
    delay_window, finish, lags, pick_lag, render, search_limit, Alignment, DelayWindow, Outcome,
};
use noican::tools::process::run_stage_aligned;
use noican::tools::report::{
    blind_set, clipping_warning, render_csv, render_table, sir_dir_name, sir_error_message,
    validate_sirs, MetricRow, SirError, SirRatio,
};
use realfft::num_complex::Complex64;
use realfft::RealFftPlanner;

fn bits(samples: &[f32]) -> Vec<u32> {
    samples.iter().map(|sample| sample.to_bits()).collect()
}

fn floats(samples: &[u32]) -> Vec<f32> {
    samples.iter().map(|sample| f32::from_bits(*sample)).collect()
}

fn names(items: &[&str]) -> Vec<String> {
    items.iter().map(|item| (*item).to_owned()).collect()
}

#[test]
fn input_identifier_is_stable_and_safe() {
    let path = std::path::Path::new("room sample?.wav");
    let stem = path.file_stem().and_then(|value| value.to_str());
    let identifier = input_identifier(stem, "0123456789abcdef0123456789abcdef");
    assert_eq!(identifier, "room_sample_-01234567");
}

#[test]
fn an_input_without_a_stem_has_a_name_too() {
    assert_eq!(input_identifier(None, "abc"), "input-abc");
    assert_eq!(input_identifier(Some("a.b_c-9Z"), ""), "a.b_c-9Z-");
    let straddling = "1234567\u{e9}9";
    assert_eq!(
        input_identifier(Some("\u{e9}"), straddling),
        format!("_-{straddling}")
    );
    assert_eq!(
        input_identifier(Some("x"), "123456\u{e9}9"),
        "x-123456\u{e9}"
    );
}

#[test]
fn model_selection_deduplicates_in_place() {
    let mut models = names(&["UlUnas", "UlUnas", "DeepFilterNet3"]);
    deduplicate(&mut models);
    assert_eq!(models, ["UlUnas", "DeepFilterNet3"]);
    let mut models = names(&["c", "a", "c", "b", "a"]);
    deduplicate(&mut models);
    assert_eq!(models, ["c", "a", "b"]);
}

#[test]
fn digests_are_lower_case_hexadecimal() {
    assert_eq!(hexadecimal(&[0, 15, 16, 255]), "000f10ff");
    assert_eq!(
        sha256_hex(b"abc"),
        "ba7816bf8f01cfea414140de5dae2223b00361a396177a9cb410ff61f20015ad"
    );
}

#[test]
fn failed_runs_are_counted_and_reported() {
    let outcomes: Vec<ModelResult> = [
        Ok(("a/output.wav".to_owned(), "00".to_owned())),
        Err("gone".to_owned()),
        Err("gone".to_owned()),
    ]
    .into_iter()
    .map(|outcome| model_result("m".to_owned(), "M".to_owned(), 16_000, outcome))
    .collect();
    assert_eq!(outcomes[0].status, ModelStatus::Complete);
    assert_eq!(outcomes[0].output_sha256.as_deref(), Some("00"));
    assert_eq!(outcomes[1].error.as_deref(), Some("gone"));
    assert!(outcomes[1].output.is_none());
    assert_eq!(count_failures(&outcomes), 2);
    let manifest = comparison_manifest(
        "in.wav".to_owned(),
        "ab".to_owned(),
        5,
        DelayCompensation::Remove,
        outcomes,
    );
    assert_eq!(manifest.schema_version, 1);
    assert_eq!(manifest.sample_rate, 48_000);
    assert_eq!(manifest.delay_compensation, "remove");
    assert_eq!(manifest.models.len(), 3);
    assert!(batch_verdict(0).is_ok());
    assert_eq!(
        batch_verdict(2).unwrap_err(),
        "2 model run(s) failed; successful outputs and failure details were retained"
    );
    assert_eq!(delay_label(DelayCompensation::Preserve), "preserve");
    assert_eq!(delay_label(DelayCompensation::Remove), "remove");
    assert_eq!(output_path("hush"), "hush/output.wav");
}

#[test]
fn outputs_and_embeddings_are_checked() {
    assert!(check_output("m", &bits(&[0.0, -1.0])).is_ok());
    assert_eq!(
        check_output("m", &bits(&[0.0, f32::NAN])).unwrap_err(),
        "model m produced non-finite audio"
    );
    assert!(check_embedding("e.json", 192, 192).is_ok());
    assert_eq!(
        check_embedding("e.json", 3, 192).unwrap_err(),
        "embedding e.json contains 3 values, expected 192"
    );
}

fn catalog() -> Vec<String> {
    names(&["fastenhancer-t", "gtcrn", "ul-unas"])
}

#[test]
fn empty_selection_means_everything() {
    assert_eq!(select(&Vec::new(), &catalog()).unwrap().len(), catalog().len());
}

#[test]
fn named_selection_preserves_order() {
    let selected = select(&names(&["gtcrn", "fastenhancer-t"]), &catalog()).unwrap();
    assert_eq!(catalog()[selected[0]], "gtcrn");
    assert_eq!(catalog()[selected[1]], "fastenhancer-t");
}

#[test]
fn unknown_selection_lists_the_alternatives() {
    let error = select(&names(&["nope"]), &catalog()).unwrap_err();
    assert!(error.contains("unknown model `nope`"), "{error}");
    assert!(error.contains("fastenhancer-t"), "{error}");
    assert_eq!(
        error,
        "unknown model `nope`. Available: fastenhancer-t, gtcrn, ul-unas"
    );
}

#[test]
fn byte_counts_are_readable() {
    assert_eq!(human_bytes(512), "512 B");
    assert_eq!(human_bytes(1_536), "1.5 KiB");
    assert_eq!(human_bytes(10_485_760), "10.0 MiB");
}

#[test]
fn byte_counts_round_like_floating_point() {
    let mut counts: Vec<u64> = vec![0, 1023, 1024, 1075, 1126, 1280, 1_048_575, 1_048_576];
    counts.extend([u64::MAX, (1 << 53) + 1, (1 << 60) + 12_345, 1 << 40]);
    counts.extend((0..2_000).map(|i| i * 51_203 + 1_024));
    counts.extend((0..2_000).map(|i| i * 4_611_686_018_427_387 + 3));
    for bytes in counts {
        let units = ["B", "KiB", "MiB", "GiB"];
        let mut scaled = bytes as f64;
        let mut unit = 0;
        while scaled >= 1024.0 && unit + 1 < units.len() {
            scaled /= 1024.0;
            unit += 1;
        }
        let expected = if unit == 0 {
            format!("{bytes} B")
        } else {
            format!("{scaled:.1} {}", units[unit])
        };
        assert_eq!(human_bytes(bytes), expected);
    }
}

#[test]
fn commands_end_with_a_summary() {
    assert_eq!(
        default_model_ids(&catalog(), &vec![true, false, true]),
        ["passthrough", "fastenhancer-t", "ul-unas"]
    );
    assert!(fetch_verdict(&Vec::new()).is_ok());
    assert_eq!(
        fetch_verdict(&names(&["a", "b"])).unwrap_err(),
        "failed to fetch: a, b"
    );
    assert_eq!(verify_summary(3, 1), "3 verified, 1 not downloaded");
    assert_eq!(
        catalog_line("gtcrn", "GTCRN", 16_000, "noise", true),
        format!(
            "{:<18} {:<28} {:>6}  {:<20} {}",
            "gtcrn", "GTCRN", "16 k", "noise", "present"
        )
    );
    assert_eq!(probe_length(48_000, 6), 288_000);
    assert_eq!(written_summary(1, "out"), "1 model written to out");
    assert_eq!(written_summary(2, "out"), "2 models written to out");
}

#[test]
fn progress_is_redrawn_in_steps_and_at_the_end() {
    assert!(!should_redraw(4_194_303, 0, None));
    assert!(should_redraw(4_194_304, 0, None));
    assert!(should_redraw(10, 9, Some(10)));
    assert!(!should_redraw(10, 9, Some(11)));
}

fn rms(samples: &[f32]) -> f64 {
    if samples.is_empty() {
        return 0.0;
    }
    let energy: f64 = samples.iter().map(|s| f64::from(*s).powi(2)).sum();
    (energy / samples.len() as f64).sqrt()
}

fn sine(freq: f64, amplitude: f64, len: usize) -> Vec<f32> {
    (0..len)
        .map(|n| {
            let phase = 2.0 * std::f64::consts::PI * freq * n as f64 / 48_000.0;
            (amplitude * phase.sin()) as f32
        })
        .collect()
}

fn trim(samples: &[f32]) -> Region {
    let threshold = 10f64.powf(-50.0 / 20.0);
    let loud: Vec<bool> = samples
        .chunks_exact(TRIM_FRAME)
        .map(|frame| rms(frame) >= threshold)
        .collect();
    trim_silence(&loud)
}

#[test]
fn trim_silence_removes_only_the_quiet_ends() {
    let mut x = vec![0.0f32; 480 * 5];
    x.extend(sine(440.0, 0.3, 480 * 10));
    x.extend(vec![0.0f32; 480 * 3]);
    x.extend(vec![0.0f32; 480 * 2]);
    x.extend(sine(440.0, 0.3, 480 * 4));
    x.extend(vec![0.0f32; 480 * 7 + 100]);
    let kept = trim(&x);
    assert_eq!(kept.end - kept.start, 480 * (10 + 3 + 2 + 4));
    assert_eq!(kept.start, 480 * 5);
}

#[test]
fn trim_silence_of_silence_is_empty() {
    let kept = trim(&vec![1e-6f32; 4800]);
    assert_eq!(kept.start, kept.end);
}

/// Uniform noise in plus or minus `amplitude`.
fn noise(amplitude: f32, len: usize, mut state: u32) -> Vec<f32> {
    (0..len)
        .map(|_| {
            state ^= state << 13;
            state ^= state >> 17;
            state ^= state << 5;
            let uniform = state as f32 / u32::MAX as f32;
            uniform.mul_add(2.0, -1.0) * amplitude
        })
        .collect()
}

#[test]
fn build_mixture_lays_out_three_regions_at_the_exact_sir() {
    let l = 4800;
    let target = sine(250.0, 0.3, 3 * l);
    let interferer = noise(0.5, 3 * l, 11);
    let mixture = build_mixture(&bits(&target), &bits(&interferer), l).expect("valid");
    assert_eq!(
        mixture.regions,
        Regions {
            target_only: Region { start: 0, end: l },
            both: Region {
                start: l,
                end: 2 * l
            },
            interferer_only: Region {
                start: 2 * l,
                end: 3 * l
            },
        }
    );
    // The gain that brings the first segment of the interferer 6 dB below the
    // second segment of the voice, from the recordings themselves.
    let wanted = rms(&target[l..2 * l]) / 10f64.powf(6.0 / 20.0);
    let gain = (wanted / rms(&interferer[..l])) as f32;
    let voice = floats(&mixture.target);
    let input: Vec<f32> = voice
        .iter()
        .zip(floats(&mixture.interferer))
        .map(|(t, i)| t + i * gain)
        .collect();
    assert_eq!(input.len(), 3 * l);
    assert_eq!(input[..l], target[..l], "the first region is the voice alone");
    assert_eq!(voice[..2 * l], target[..2 * l]);
    assert!(voice[2 * l..].iter().all(|s| *s == 0.0));
    let track: Vec<f32> = input.iter().zip(&voice).map(|(i, t)| i - t).collect();
    assert!(track[..l].iter().all(|s| *s == 0.0));
    // The library has laid the right segments over each other.
    let sir = 20.0 * (rms(&voice[l..2 * l]) / rms(&track[l..2 * l])).log10();
    assert!((sir - 6.0).abs() < 0.01, "SIR in the overlap: {sir}");
    for (got, want) in track[2 * l..].iter().zip(&interferer[l..2 * l]) {
        assert!((got - want * gain).abs() <= 1e-6);
    }
}

#[test]
fn build_mixture_rejects_short_material() {
    let short = bits(&sine(250.0, 0.3, 100));
    let long = bits(&sine(250.0, 0.3, 10_000));
    assert_eq!(
        build_mixture(&short, &long, 1000).unwrap_err(),
        "target recording too short: 100 samples, need 2000"
    );
    assert_eq!(
        build_mixture(&long, &short, 1000).unwrap_err(),
        "interferer recording too short: 100 samples, need 2000"
    );
    assert_eq!(
        build_mixture(&long, &long, 0).unwrap_err(),
        "segment length must be positive"
    );
}

#[test]
fn evaluate_skips_the_region_guard() {
    let region = Region {
        start: 96_000,
        end: 144_000,
    };
    let range = measured(region, 144_000);
    assert_eq!(range.start, 96_000 + REGION_GUARD);
    assert!(range.start > 96_000 + 9_600);
    assert_eq!(range.end, 144_000);
    assert_eq!(
        measured(region, 100_000),
        Region {
            start: 100_000,
            end: 100_000
        }
    );
    assert_eq!(
        measured(Region { start: 5, end: 10 }, 100),
        Region { start: 10, end: 10 }
    );
}

#[test]
fn the_segment_follows_the_material() {
    assert_eq!(segment_length(960_000, 240_000, 500_000), Some(120_000));
    assert_eq!(segment_length(72_000, 240_000, 240_000), Some(72_000));
    assert_eq!(segment_length(960_000, 95_998, 500_000), None);
    assert_eq!(segment_length(47_999, 240_000, 240_000), None);
}

#[test]
fn blind_order_is_a_deterministic_permutation() {
    let a = blind_order(7, 1);
    let b = blind_order(7, 1);
    assert_eq!(a, b);
    let mut sorted = a.clone();
    sorted.sort_unstable();
    assert_eq!(sorted, (0..7).collect::<Vec<usize>>());
    assert_ne!(blind_order(7, 2), a);
    assert!(blind_order(0, 1).is_empty());
    assert_eq!(blind_order(1, 1), vec![0]);
    assert_eq!(a, EXPECTED_ORDER);
    assert_eq!(mixture_seed(u64::MAX, 2), 1);
}

const EXPECTED_ORDER: [usize; 7] = [0, 3, 5, 4, 2, 6, 1];

#[test]
fn sir_dir_names_are_signed_and_zero_padded() {
    assert_eq!(sir_dir_name(12), "sir+12");
    assert_eq!(sir_dir_name(6), "sir+06");
    assert_eq!(sir_dir_name(0), "sir+00");
    assert_eq!(sir_dir_name(-6), "sir-06");
    assert_eq!(sir_dir_name(-123), "sir-123");
    assert_eq!(sir_dir_name(i64::MIN), "sir-9223372036854775808");
}

fn sirs(values: &[f64]) -> Vec<SirRatio> {
    values
        .iter()
        .map(|value| SirRatio {
            bits: value.to_bits(),
            whole_db: value.round() as i64,
            shown: value.to_string(),
        })
        .collect()
}

#[test]
fn sirs_that_share_a_directory_name_are_rejected() {
    validate_sirs(&sirs(&[12.0, 6.0, 0.0, -6.0])).expect("distinct whole-dB values");
    let pair = sirs(&[6.0, 6.4]);
    let error = validate_sirs(&pair).expect_err("6 and 6.4 both round to sir+06");
    assert_eq!(error, SirError::Collision(0, 1));
    let message = sir_error_message(&pair, error);
    assert!(message.contains("sir+06"), "{message}");
    assert_eq!(
        message,
        "--sir 6 and 6.4 would both be written to sir+06/ \
         (directory names are whole dB); pass values at least 1 dB apart"
    );
    assert_eq!(validate_sirs(&sirs(&[])), Err(SirError::Empty));
    assert_eq!(
        validate_sirs(&sirs(&[f64::NAN])),
        Err(SirError::NotFinite(0))
    );
    assert_eq!(
        validate_sirs(&sirs(&[1.0, f64::INFINITY])),
        Err(SirError::NotFinite(1))
    );
    assert_eq!(
        validate_sirs(&sirs(&[f64::NEG_INFINITY])),
        Err(SirError::NotFinite(0))
    );
    assert_eq!(
        sir_error_message(&sirs(&[f64::INFINITY]), SirError::NotFinite(0)),
        "--sir inf is not a finite number of dB"
    );
    assert_eq!(
        sir_error_message(&[], SirError::Empty),
        "--sir needs at least one value"
    );
}

#[test]
fn clipping_is_reported_only_above_full_scale() {
    assert!(clipping_warning("x", &bits(&[0.0, 1.0, -1.0]), "+0.0").is_none());
    let peak = format!("{:+.1}", 20.0 * 1.5f64.log10());
    let warning =
        clipping_warning("SIR +0 dB: mixture", &bits(&[0.2, -1.5]), &peak).expect("clips");
    assert!(
        warning.starts_with("SIR +0 dB: mixture: WARNING"),
        "{warning}"
    );
    assert!(warning.contains("+3.5 dBFS"), "{warning}");
}

#[test]
fn the_blind_key_names_every_model_once() {
    let models: Vec<String> = (0..30).map(|i| format!("model-{i}")).collect();
    let entries = blind_set("sir+06", &models, 7);
    let order = blind_order(30, 7);
    assert_eq!(entries.len(), 30);
    assert_eq!(entries[0].name, "A");
    assert_eq!(entries[25].name, "Z");
    assert_eq!(entries[26].name, "A1");
    for (entry, model) in entries.iter().zip(order) {
        assert_eq!(entry.model, model);
        assert_eq!(
            entry.key_line,
            format!("sir+06/blind/{}.wav = model-{model}", entry.name)
        );
    }
    let mut file_names: Vec<&String> = entries.iter().map(|entry| &entry.name).collect();
    file_names.sort_unstable();
    file_names.dedup();
    assert_eq!(file_names.len(), 30);
}

fn metric_row() -> MetricRow {
    MetricRow {
        model_id: "passthrough".to_owned(),
        sir_db: "6".to_owned(),
        high_band_retention: "0.00".to_owned(),
        own_voice_level: "0.00".to_owned(),
        own_voice_si_sdr: "100.00".to_owned(),
        both_si_sdr: "6.00".to_owned(),
        interferer_residual: "0.00".to_owned(),
        interferer_residual_high: "0.00".to_owned(),
        latency_ms: "0.00".to_owned(),
        block_p50_ms: "0.010".to_owned(),
        block_p99_ms: "0.020".to_owned(),
    }
}

#[test]
fn csv_has_one_line_per_row_plus_header() {
    let rows = vec![metric_row()];
    let csv = render_csv(&rows);
    let lines: Vec<&str> = csv.lines().collect();
    assert_eq!(lines.len(), 2);
    assert!(lines[0].starts_with("model,sir_db,"));
    assert!(lines[1].starts_with("passthrough,6,0.00,0.00,100.00,6.00,"));
    let table = render_table(&rows);
    assert_eq!(table.len(), 4);
    assert_eq!(
        table[3],
        format!(
            "{:<18} {:>5} {:>6} dB {:>5} dB {:>7} dB {:>8} dB {:>6} dB {:>6} dB {:>5} ms {:>5}/{:<5}",
            "passthrough",
            "6",
            "0.00",
            "0.00",
            "100.00",
            "6.00",
            "0.00",
            "0.00",
            "0.00",
            "0.010",
            "0.020"
        )
    );
}

fn row(underruns: u64) -> Row {
    Row {
        file_name: "fastenhancer-t.wav".to_owned(),
        display_name: "FastEnhancer T (48 kHz)".to_owned(),
        native_rate: 48_000,
        measured_delay_ms: Some(format!("{:.1}", 21.3)),
        model_delay_native: Some(512),
        speed_factor: format!("{:.1}", 32.5),
        peak: format!("{:.3}", 0.812),
        rms_dbfs: Some(format!("{:.1}", -18.4)),
        underruns,
        aligned_by: 1_024,
    }
}

#[test]
fn manifest_records_the_reference_and_each_row() {
    let manifest = render_manifest("/tmp/sample.wav", "1.00", 48_000, &[row(0)]);
    assert!(manifest.contains(REFERENCE_NAME));
    assert!(manifest.contains("fastenhancer-t.wav"));
    assert!(manifest.contains("512 samples @ 48000 Hz"));
    assert!(manifest.contains("32.5x"));
    assert!(manifest.contains("No output underruns"));
    assert!(manifest.starts_with("# noican comparison\n\n- Input: `/tmp/sample.wav`\n"));
    assert!(manifest.contains(
        "| `fastenhancer-t.wav` | FastEnhancer T (48 kHz) | 48 kHz | 21.3 ms | \
         512 samples @ 48000 Hz | 1024 samples | 32.5x | 0.812 | -18.4 dBFS |\n"
    ));
}

#[test]
fn manifest_calls_out_underruns() {
    let manifest = render_manifest("in.wav", "1.00", 48_000, &[row(3)]);
    assert!(manifest.contains("**3 output underruns.**"), "{manifest}");
    let both = render_manifest("in.wav", "1.00", 48_000, &[row(3), row(4)]);
    assert!(both.contains("**7 output underruns.**"), "{both}");
}

#[test]
fn manifest_admits_when_a_delay_could_not_be_measured() {
    let mut unmeasured = row(0);
    unmeasured.measured_delay_ms = None;
    unmeasured.model_delay_native = None;
    unmeasured.rms_dbfs = None;
    let manifest = render_manifest("in.wav", "0.10", 48_000, &[unmeasured]);
    assert!(manifest.contains("not measurable"));
    assert!(manifest.contains("unknown"));
    assert!(manifest.contains("silent"));
}

#[test]
fn scale_rounds_to_nearest() {
    assert_eq!(scale_rate(480, 48_000, 16_000), 160);
    assert_eq!(scale_rate(160, 16_000, 48_000), 480);
    assert_eq!(scale_rate(7, 48_000, 48_000), 7);
}

/// The lag at which two signals agree best, inside the library's window.
/// Sums of `reference[i] * delayed[i + lag]` for every lag up to a bound.
fn products(reference: &[f32], delayed: &[f32], count: usize) -> Vec<f64> {
    let size = (reference.len() + delayed.len()).next_power_of_two();
    let mut planner = RealFftPlanner::<f64>::new();
    let forward = planner.plan_fft_forward(size);
    let inverse = planner.plan_fft_inverse(size);
    let transform = |samples: &[f32]| -> Vec<Complex64> {
        let mut time = vec![0.0f64; size];
        for (slot, sample) in time.iter_mut().zip(samples) {
            *slot = f64::from(*sample);
        }
        let mut bins = forward.make_output_vec();
        forward.process(&mut time, &mut bins).expect("forward");
        bins
    };
    let first = transform(reference);
    let mut bins: Vec<Complex64> = transform(delayed)
        .iter()
        .zip(&first)
        .map(|(b, a)| b * a.conj())
        .collect();
    bins[0].im = 0.0;
    let last = bins.len() - 1;
    bins[last].im = 0.0;
    let mut time = inverse.make_output_vec();
    inverse.process(&mut bins, &mut time).expect("inverse");
    time[..count].iter().map(|x| x / size as f64).collect()
}

fn measure_delay(
    reference: &[f32],
    processed: &[f32],
    rate: u32,
    max_lag: usize,
) -> Option<usize> {
    let window = delay_window(reference.len(), processed.len(), rate, max_lag)?;
    let part = &reference[window.start..window.start + window.len];
    let energy: f64 = part.iter().map(|s| f64::from(*s).powi(2)).sum();
    if energy <= 0.0 {
        return None;
    }
    let count = lags(window, processed.len(), max_lag);
    let searched = &processed[window.start..];
    let mut sums = vec![0.0f64];
    for sample in searched {
        sums.push(sums[sums.len() - 1] + f64::from(*sample).powi(2));
    }
    let scores: Vec<Option<u64>> = products(part, searched, count)
        .iter()
        .enumerate()
        .map(|(lag, dot)| {
            let other = sums[lag + window.len] - sums[lag];
            if other <= 0.0 {
                None
            } else {
                Some((dot / (energy * other).sqrt()).to_bits())
            }
        })
        .collect();
    pick_lag(&scores)
}

fn speech_like(rate: u32, seconds: u32) -> Vec<f32> {
    let length = probe_length(rate, seconds) as usize;
    let tone = |frequency: f32, t: f32| (2.0 * std::f32::consts::PI * frequency * t).sin();
    (0..length)
        .map(|index| {
            let t = index as f32 / rate as f32;
            let envelope = 0.5f32.mul_add(tone(2.5, t), 0.5);
            0.25 * envelope * (tone(180.0, t) + 0.6 * tone(420.0, t) + 0.3 * tone(900.0, t))
        })
        .collect()
}

#[test]
fn a_large_delay_needs_a_search_limit_that_reaches_it() {
    let rate = 48_000;
    let reference = speech_like(rate, 5);
    let delay = 30_000;
    let mut processed = vec![0.0f32; delay];
    processed.extend_from_slice(&reference);

    assert_eq!(
        measure_delay(&reference, &processed, rate, delay + 100),
        Some(delay)
    );
    let short = measure_delay(&reference, &processed, rate, 1_000);
    assert!(
        short.is_none_or(|lag| lag <= 1_000),
        "the reported lag escaped the search limit: {short:?}"
    );
}

#[test]
fn measures_an_injected_delay() {
    let rate = 48_000;
    let reference = speech_like(rate, 5);
    let delay = 1_234;
    let mut processed = vec![0.0f32; delay];
    processed.extend_from_slice(&reference);
    assert_eq!(
        measure_delay(&reference, &processed, rate, 4_000),
        Some(delay)
    );
}

#[test]
fn refuses_to_guess_on_silence_or_short_clips() {
    let rate = 48_000;
    assert!(measure_delay(&[0.0; 100], &[0.0; 100], rate, 4_000).is_none());
    let silence = vec![0.0f32; rate as usize * 5];
    assert!(measure_delay(&silence, &silence, rate, 4_000).is_none());
}

#[test]
fn the_highest_correlation_wins() {
    let score = |value: f64| Some(value.to_bits());
    assert_eq!(pick_lag(&[]), None);
    assert_eq!(
        pick_lag(&[score(0.3), None, score(0.9), score(0.9), score(-1.0)]),
        Some(2)
    );
    assert_eq!(pick_lag(&[score(0.19), score(-0.5)]), None);
    assert_eq!(pick_lag(&[score(0.2)]), Some(0));
    assert_eq!(pick_lag(&[score(f64::NAN), score(0.5)]), Some(1));
    assert_eq!(pick_lag(&[score(-f64::NAN), score(f64::NEG_INFINITY)]), None);
}

#[test]
fn the_measuring_window_lies_in_the_middle() {
    assert_eq!(
        delay_window(480_000, 500_000, 48_000, 4_000),
        Some(DelayWindow {
            start: 192_000,
            len: 96_000
        })
    );
    assert_eq!(
        delay_window(4_001, 8_000, 48_000, 100),
        Some(DelayWindow {
            start: 1_000,
            len: 2_000
        })
    );
    assert_eq!(delay_window(2_047, 8_000, 48_000, 100), None);
    let window = DelayWindow {
        start: 10,
        len: 20,
    };
    assert_eq!(lags(window, 100, 5), 6);
    assert_eq!(lags(window, 33, 5), 4);
    assert_eq!(lags(window, 29, 5), 0);
}

fn run(rate: u32, clip: &[f32], alignment: Alignment) -> Outcome {
    let stage = Passthrough::new(rate, 480);
    let rendering = render(stage, Direct, Direct, &bits(clip), rate).unwrap();
    let limit = search_limit(rendering.reported_delay, rate);
    let delay = measure_delay(clip, &floats(&rendering.samples), rate, limit);
    finish(rendering, clip.len(), rate, alignment, delay)
}

#[test]
fn passthrough_output_matches_the_input_after_alignment() {
    let rate = 48_000;
    let clip = speech_like(rate, 4);
    let outcome = run(rate, &clip, Alignment::Measured);

    assert_eq!(outcome.underruns, 0);
    assert_eq!(outcome.samples.len(), clip.len());
    assert_eq!(outcome.measured_delay, Some(outcome.reported_delay));
    assert_eq!(outcome.model_delay_native, Some(0));
    assert_eq!(floats(&outcome.samples), clip);
}

fn bessel(x: f64) -> f64 {
    let mut sum = 1.0f64;
    let mut term = 1.0f64;
    for k in 1..64 {
        let ratio = x / 2.0 / f64::from(k);
        term *= ratio * ratio;
        sum += term;
    }
    sum
}

/// A converter at the exact ratio of two rates.
struct Polyphase {
    plan: PolyphasePlan,
    phases: Vec<Vec<f32>>,
    state: PolyphaseResampler,
}

impl Polyphase {
    fn new(from: u32, to: u32) -> Self {
        let plan = PolyphasePlan::new(from, to);
        let count = plan.num_phases as usize;
        let cutoff = 0.45 / plan.num_phases.max(plan.step) as f64;
        let middle = (plan.num_taps - 1) as f64 / 2.0;
        let taps: Vec<f64> = (0..plan.num_taps)
            .map(|i| {
                let x = i as f64 - middle;
                let sinc = if x == 0.0 {
                    2.0 * cutoff
                } else {
                    (2.0 * std::f64::consts::PI * cutoff * x).sin() / (std::f64::consts::PI * x)
                };
                let part = x / middle;
                sinc * bessel(9.0 * (1.0 - part * part).max(0.0).sqrt()) / bessel(9.0)
            })
            .collect();
        let gain: f64 = taps.iter().sum();
        let mut phases = vec![vec![0.0f32; plan.phase_len as usize]; count];
        for (i, tap) in taps.iter().enumerate() {
            phases[i % count][i / count] = (tap / gain) as f32 * count as f32;
        }
        Polyphase {
            plan,
            phases,
            state: PolyphaseResampler::new(from, to),
        }
    }
}

impl RateConverter for Polyphase {
    fn max_output_len(&self, len: usize) -> usize {
        len * self.plan.up as usize / self.plan.down as usize + 2
    }

    fn group_delay_input_samples(&self) -> usize {
        self.plan.delay_output as usize * self.plan.down as usize / self.plan.up as usize
    }

    fn group_delay_output_samples(&self) -> usize {
        self.plan.delay_output as usize
    }

    fn process(&mut self, input: &[u32], output: &mut Vec<u32>) {
        let positions = self.state.process(input);
        let samples = self.state.samples();
        for position in positions {
            let mut sum = 0.0f32;
            for (m, coefficient) in self.phases[position.phase].iter().enumerate() {
                sum += coefficient * f32::from_bits(samples[position.base - m]);
            }
            output.push(sum.to_bits());
        }
        self.state.retire();
    }

    fn reset(&mut self) {
        self.state.reset();
    }
}

#[test]
fn a_resampled_stage_round_trips_within_tolerance() {
    let rate = 48_000;
    let clip = speech_like(rate, 4);
    let stage = Passthrough::new(16_000, 160);
    let down = Polyphase::new(rate, 16_000);
    let up = Polyphase::new(16_000, rate);
    let rendering = render(stage, down, up, &bits(&clip), rate).unwrap();
    let limit = search_limit(rendering.reported_delay, rate);
    let delay = measure_delay(&clip, &floats(&rendering.samples), rate, limit);
    let outcome = finish(rendering, clip.len(), rate, Alignment::Measured, delay);
    assert_eq!(outcome.underruns, 0);
    let reported = outcome.reported_delay;
    let measured = outcome.measured_delay.expect("measurable");
    assert!(
        measured.abs_diff(reported) <= 4,
        "measured {measured}, reported {reported}"
    );
}

#[test]
fn resampling_a_clip_changes_its_rate() {
    let clip = speech_like(48_000, 1);
    assert_eq!(plan_clip(48_000, 16_000).unwrap(), ClipConversion::Convert);
    let mut converted = Vec::new();
    Polyphase::new(48_000, 16_000).process(&bits(&clip), &mut converted);
    let fitted = resample_clip(clip.len(), 48_000, 16_000, converted).unwrap();
    assert_eq!(fitted.len(), 16_000);
    assert_eq!(
        plan_clip(48_000, 48_000).unwrap(),
        ClipConversion::Unchanged
    );
}

#[test]
fn alignment_modes_differ_as_documented() {
    let rate = 48_000;
    let clip = speech_like(rate, 3);
    let none = run(rate, &clip, Alignment::Unaligned);
    assert_eq!(none.trimmed, 0);

    let reported = run(rate, &clip, Alignment::Reported);
    assert_eq!(reported.trimmed, reported.reported_delay);
}

#[test]
fn a_stage_without_a_block_cannot_be_rendered() {
    let stage = Passthrough::new(48_000, 0);
    assert!(render(stage, Direct, Direct, &[0; 10], 48_000).is_err());
}

/// Delays its input by a fixed number of samples.
struct Delay {
    held: Vec<u32>,
}

impl BlockStage for Delay {
    type State = ();

    fn id(&self) -> String {
        "delay".to_owned()
    }

    fn process_block(&mut self, input: &[u32], output: &mut [u32]) -> Result<(), StageError> {
        if input.len() != output.len() {
            return Err(StageError::BufferLen {
                expected: input.len(),
                got: output.len(),
            });
        }
        if input.first() == Some(&u32::MAX) {
            return Err(StageError::Unsupported("refused".to_owned()));
        }
        let mut all = self.held.clone();
        all.extend_from_slice(input);
        output.copy_from_slice(&all[..input.len()]);
        self.held = all[input.len()..].to_vec();
        Ok(())
    }

    fn latency_samples(&self) -> usize {
        self.held.len()
    }

    fn reset(&mut self) {
        self.held.fill(0);
    }
}

#[test]
fn a_delaying_stage_comes_back_aligned() {
    for (delay, len) in [(0usize, 480usize), (1, 481), (700, 1_001), (37, 0)] {
        let mut stage = Delay {
            held: vec![0; delay],
        };
        let input: Vec<u32> = (1..=len as u32).collect();
        assert_eq!(run_stage_aligned(&mut stage, &input).unwrap(), input);
    }
    let mut stage = Delay { held: Vec::new() };
    assert!(run_stage_aligned(&mut stage, &[u32::MAX]).is_err());
}

#[test]
fn wav_files_are_told_by_their_extension() {
    assert_eq!(reader_for(Some("wav")), Reader::Wav);
    assert_eq!(reader_for(Some("WaV")), Reader::Wav);
    assert_eq!(reader_for(Some("m4a")), Reader::Container);
    assert_eq!(reader_for(None), Reader::Container);
}

#[test]
fn wav_encodings_are_told_apart() {
    assert_eq!(wav_encoding(true, 32).unwrap(), WavEncoding::Float);
    assert_eq!(
        wav_encoding(false, 16).unwrap(),
        WavEncoding::Integer { scale: 32_768 }
    );
    assert_eq!(
        wav_encoding(false, 1).unwrap(),
        WavEncoding::Integer { scale: 1 }
    );
    assert_eq!(
        wav_encoding(false, 32).unwrap(),
        WavEncoding::Integer { scale: 1 << 31 }
    );
    assert_eq!(
        wav_encoding(true, 64).unwrap_err(),
        "unsupported WAV encoding: Float 64 bit"
    );
    assert_eq!(
        wav_encoding(false, 33).unwrap_err(),
        "unsupported WAV encoding: Int 33 bit"
    );
}

#[test]
fn partial_frames_are_dropped() {
    assert_eq!(frame_layout(7, 2), (3, 2));
    assert_eq!(frame_layout(7, 0), (7, 1));
    assert!(needs_conversion(44_100));
    assert!(!needs_conversion(48_000));
    assert_eq!(first_decodable(&[false, true, true]), Some(1));
    assert_eq!(first_decodable(&[false]), None);
}

#[test]
fn packets_of_other_tracks_are_skipped() {
    let mut reader = TrackReader::new(3);
    assert_eq!(reader.next(PacketEvent::Packet(2)), PacketStep::Skip);
    assert_eq!(reader.next(PacketEvent::Packet(3)), PacketStep::Decode);
    assert_eq!(reader.next(PacketEvent::EndOfFile), PacketStep::Finish);
    assert_eq!(reader.next(PacketEvent::Failed), PacketStep::Fail);
    reader.decoded(&[1, 2]);
    reader.decoded(&[]);
    reader.decoded(&[3]);
    assert_eq!(reader.finish("x.m4a").unwrap(), [1, 2, 3]);
    assert_eq!(
        TrackReader::new(1).finish("x.m4a").unwrap_err(),
        "no audio frames decoded from x.m4a"
    );
}

#[test]
fn unsupported_input_suggests_afconvert() {
    let message = unsupported_container("not-audio.bin");
    assert!(message.contains("afconvert"), "unhelpful error: {message}");
}

#[test]
fn a_comparison_stops_at_the_first_failure_unless_told_otherwise() {
    assert!(goes_on(false, false));
    assert!(goes_on(true, true));
    assert!(!goes_on(true, false));
    assert_eq!(first_failure(&[false, true, true]), Some(1));
    assert_eq!(first_failure(&[false, false]), None);
}
