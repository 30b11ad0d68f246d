//! Framing of the short-time transform, with the transform done here.

use noican::signal::error::Error;
use noican::signal::stft::{Bin, Spectrum, StftAnalyzer, StftConfig, StftSynthesizer};
use noican::signal::window::WindowKind;

fn bits(samples: &[f32]) -> Vec<u32> {
    samples.iter().map(|sample| sample.to_bits()).collect()
}

fn window(kind: WindowKind, length: usize) -> Vec<f32> {
    let n = length as f32;
    let pi = std::f32::consts::PI;
    (0..length)
        .map(|i| {
            let hann = 0.5f32.mul_add(-(2.0 * pi * i as f32 / n).cos(), 0.5);
            match kind {
                WindowKind::Vorbis => {
                    let s = (0.5 * pi * (i as f32 + 0.5) / (n / 2.0)).sin();
                    (0.5 * pi * s * s).sin()
                }
                WindowKind::Hann => hann,
                WindowKind::HannSqrt => hann.sqrt(),
            }
        })
        .collect()
}

fn config(window: WindowKind) -> StftConfig {
    StftConfig {
        n_fft: 960,
        hop: 480,
        window,
    }
}

/// Transforms the analyzer's frame into a spectrum.
fn analyze(analyzer: &mut StftAnalyzer, block: &[f32], frame: &mut Spectrum) {
    analyzer.process(&bits(block), frame).unwrap();
    let setup = analyzer.config();
    let weights = window(setup.window, setup.n_fft);
    let fft = realfft::RealFftPlanner::<f32>::new().plan_fft_forward(setup.n_fft);
    let mut time: Vec<f32> = analyzer
        .samples()
        .iter()
        .zip(&weights)
        .map(|(sample, weight)| f32::from_bits(*sample) * weight)
        .collect();
    let mut bins = fft.make_output_vec();
    fft.process(&mut time, &mut bins).unwrap();
    for (index, bin) in bins.iter().enumerate() {
        frame.set_bin(
            index,
            Bin {
                re: bin.re.to_bits(),
                im: bin.im.to_bits(),
            },
        );
    }
}

/// Transforms a spectrum back and releases one hop.
fn synthesize(synthesizer: &mut StftSynthesizer, frame: &Spectrum) -> Vec<f32> {
    let setup = synthesizer.config();
    let input = synthesizer.transform_input(frame, setup.hop).unwrap();
    let weights = window(setup.window, setup.n_fft);
    let fft = realfft::RealFftPlanner::<f32>::new().plan_fft_inverse(setup.n_fft);
    let mut bins = fft.make_input_vec();
    for (index, bin) in bins.iter_mut().enumerate() {
        bin.re = f32::from_bits(input.bin(index).re);
        bin.im = f32::from_bits(input.bin(index).im);
    }
    let mut time = fft.make_output_vec();
    fft.process(&mut bins, &mut time).unwrap();
    let mixed: Vec<u32> = synthesizer
        .accumulated()
        .iter()
        .zip(time.iter().zip(&weights))
        .map(|(held, (sample, weight))| {
            (sample / setup.n_fft as f32)
                .mul_add(*weight, f32::from_bits(*held))
                .to_bits()
        })
        .collect();
    let released = synthesizer.release(&mixed);
    released
        .iter()
        .enumerate()
        .map(|(offset, sample)| {
            let envelope: f32 = (0..setup.n_fft / setup.hop)
                .map(|frame| weights[offset + frame * setup.hop].powi(2))
                .sum();
            if envelope > 1e-8 {
                f32::from_bits(*sample) / envelope
            } else {
                0.0
            }
        })
        .collect()
}

fn sine(rate: f32, freq: f32, len: usize) -> Vec<f32> {
    (0..len)
        .map(|i| 0.5 * (2.0 * std::f32::consts::PI * freq * (i as f32 / rate)).sin())
        .collect()
}

#[test]
fn round_trip_is_transparent_for_every_window() {
    for kind in [WindowKind::Vorbis, WindowKind::Hann, WindowKind::HannSqrt] {
        let input = sine(48_000.0, 440.0, 9_600);
        let setup = config(kind);
        let mut analyzer = StftAnalyzer::new(setup).unwrap();
        let mut synthesizer = StftSynthesizer::new(setup).unwrap();
        let mut frame = Spectrum::zeroed(setup.bins());
        let mut output = Vec::new();
        for block in input.chunks_exact(setup.hop) {
            analyze(&mut analyzer, block, &mut frame);
            output.extend(synthesize(&mut synthesizer, &frame));
        }
        for i in 960..960 + 4_800 {
            let expected = input[i - 480];
            let actual = output[i];
            assert!(
                (expected - actual).abs() < 1e-4,
                "{kind:?} sample {i}: expected {expected}, got {actual}"
            );
        }
    }
}

#[test]
fn analysis_matches_numpy_rfft() {
    let setup = StftConfig {
        n_fft: 512,
        hop: 256,
        window: WindowKind::Hann,
    };
    let mut analyzer = StftAnalyzer::new(setup).unwrap();
    let mut frame = Spectrum::zeroed(setup.bins());
    let input: Vec<f32> = (0..setup.hop * 5)
        .map(|i| {
            let x = (i as f64 * 12.9898).sin() * 43758.5453;
            let fraction = (x - x.floor()) as f32;
            fraction.mul_add(2.0, -1.0)
        })
        .collect();
    for block in input.chunks_exact(setup.hop) {
        analyze(&mut analyzer, block, &mut frame);
    }
    let expected = [
        (0.676_762f32, 0.0f32),
        (-1.845_93, 8.304_72),
        (-4.531_114, -7.977_563),
        (13.242_738, 9.550_798),
        (-9.170_159, -12.430_621),
        (-1.742_136, 5.288_396),
    ];
    for (index, (re, im)) in expected.into_iter().enumerate() {
        let bin = frame.bin(index);
        let (actual_re, actual_im) = (f32::from_bits(bin.re), f32::from_bits(bin.im));
        assert!(
            (actual_re - re).abs() < 1e-4 && (actual_im - im).abs() < 1e-4,
            "bin {index}: expected {re}+{im}i, got {actual_re}+{actual_im}i"
        );
    }
}

fn power(frame: &Spectrum, index: usize) -> f32 {
    let bin = frame.bin(index);
    f32::from_bits(bin.re).powi(2) + f32::from_bits(bin.im).powi(2)
}

#[test]
fn a_tone_lands_in_its_own_bin() {
    let setup = config(WindowKind::Vorbis);
    let bin = 50;
    let freq = 48_000.0 * bin as f32 / setup.n_fft as f32;
    let input = sine(48_000.0, freq, setup.hop * 6);
    let mut analyzer = StftAnalyzer::new(setup).unwrap();
    let mut frame = Spectrum::zeroed(setup.bins());
    for block in input.chunks_exact(setup.hop) {
        analyze(&mut analyzer, block, &mut frame);
    }
    assert_eq!(frame.len(), 481);
    assert!(!frame.is_empty());
    let peak = (0..frame.len())
        .max_by(|a, b| power(&frame, *a).total_cmp(&power(&frame, *b)))
        .unwrap();
    assert_eq!(peak, bin);
    let peak_power = power(&frame, bin);
    for index in 0..frame.len() {
        if index.abs_diff(bin) > 3 {
            assert!(
                power(&frame, index) < peak_power * 1e-4,
                "bin {index} holds {} against a peak of {peak_power}",
                power(&frame, index)
            );
        }
    }
}

#[test]
fn rejects_invalid_configurations() {
    let bad_hop = StftConfig {
        n_fft: 960,
        hop: 7,
        window: WindowKind::Vorbis,
    };
    assert!(StftAnalyzer::new(bad_hop).is_err());
    assert!(StftSynthesizer::new(bad_hop).is_err());

    let odd = StftConfig {
        n_fft: 15,
        hop: 5,
        window: WindowKind::Hann,
    };
    assert!(StftAnalyzer::new(odd).is_err());

    let zero = StftConfig {
        n_fft: 0,
        hop: 0,
        window: WindowKind::Hann,
    };
    assert!(StftAnalyzer::new(zero).is_err());
}

#[test]
fn rejects_mismatched_buffers() {
    let setup = config(WindowKind::Vorbis);
    let mut analyzer = StftAnalyzer::new(setup).unwrap();
    let mut synthesizer = StftSynthesizer::new(setup).unwrap();
    let mut frame = Spectrum::zeroed(setup.bins());

    assert!(matches!(
        analyzer.process(&[0u32; 10], &frame),
        Err(Error::BufferLength {
            expected: 480,
            actual: 10
        })
    ));
    let wrong_bins = Spectrum::zeroed(3);
    assert!(analyzer.process(&vec![0u32; 480], &wrong_bins).is_err());
    assert!(synthesizer.transform_input(&wrong_bins, 480).is_err());
    assert!(synthesizer.transform_input(&frame, 7).is_err());

    frame.copy_from(&Spectrum::zeroed(setup.bins()));
    assert_eq!(analyzer.config(), setup);
    assert_eq!(synthesizer.config(), setup);
    analyzer.reset();
    synthesizer.reset();
}

#[test]
fn the_edge_bins_are_made_real() {
    let setup = StftConfig {
        n_fft: 4,
        hop: 2,
        window: WindowKind::Hann,
    };
    let synthesizer = StftSynthesizer::new(setup).unwrap();
    let mut frame = Spectrum::zeroed(3);
    for index in 0..3 {
        frame.set_bin(
            index,
            Bin {
                re: 10 + index as u32,
                im: 20 + index as u32,
            },
        );
    }
    let input = synthesizer.transform_input(&frame, 2).unwrap();
    assert_eq!(input.as_interleaved(), [10, 0, 11, 21, 12, 0]);
}

#[test]
fn metadata_names_round_trip() {
    for kind in [WindowKind::Vorbis, WindowKind::Hann, WindowKind::HannSqrt] {
        let name = kind.onnx_metadata_name();
        assert_eq!(WindowKind::from_onnx_metadata_name(name), Some(kind));
    }
    assert_eq!(WindowKind::from_onnx_metadata_name("blackman"), None);
    assert_eq!(
        WindowKind::from_onnx_metadata_name("hanning"),
        Some(WindowKind::Hann)
    );
    assert_eq!(
        WindowKind::from_onnx_metadata_name("sqrt_hann"),
        Some(WindowKind::HannSqrt)
    );
}

#[test]
fn bins_can_be_written_in_a_row() {
    let mut spectrum = Spectrum::zeroed(2);
    spectrum.as_interleaved_mut().copy_from_slice(&[1, 2, 3, 4]);
    assert_eq!(spectrum.bin(1), Bin { re: 3, im: 4 });
    assert_eq!(spectrum.as_interleaved(), [1, 2, 3, 4]);
    assert_eq!(spectrum.len(), 2);
}
