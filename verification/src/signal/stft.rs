//! Streaming short-time Fourier transform frames.
//!
//! The transforms themselves run outside; here are the frames: which samples a
//! transform sees, which bins it gets, and which samples a synthesis releases.

use vstd::prelude::*;
use vstd::string::*;

use crate::signal::error::Error;
use crate::signal::ring;
use crate::signal::window::WindowKind;
use crate::text;
use crate::text::push_decimal;

verus! {

/// One complex value, as two bit patterns.
#[derive(Debug, Clone, Copy, PartialEq, Eq, Structural)]
pub struct Bin {
    /// Real part.
    pub re: u32,
    /// Imaginary part.
    pub im: u32,
}

/// A one-sided spectrum, stored as interleaved real and imaginary parts.
#[derive(Debug)]
pub struct Spectrum {
    bins: Vec<u32>,
}

impl View for Spectrum {
    type V = Seq<Bin>;

    closed spec fn view(&self) -> Seq<Bin> {
        Seq::new(
            self.bins@.len() / 2,
            |i: int| Bin { re: self.bins@[2 * i], im: self.bins@[2 * i + 1] },
        )
    }
}

impl Spectrum {
    /// Whether every bin has both parts.
    pub closed spec fn wf(&self) -> bool {
        self.bins@.len() % 2 == 0
    }

    /// The parts in a row.
    pub closed spec fn interleaved(&self) -> Seq<u32> {
        self.bins@
    }

    /// A spectrum of `bins` zero bins.
    pub fn zeroed(bins: usize) -> (spectrum: Self)
        requires
            bins * 2 <= usize::MAX,
        ensures
            spectrum.wf(),
            spectrum@ == Seq::new(bins as nat, |i: int| Bin { re: 0, im: 0 }),
    {
        let spectrum = Spectrum { bins: vec![0; bins * 2] };
        assert(spectrum@ =~= Seq::new(bins as nat, |i: int| Bin { re: 0, im: 0 }));
        spectrum
    }

    /// Number of bins.
    pub fn len(&self) -> (len: usize)
        ensures
            len == self@.len(),
    {
        self.bins.len() / 2
    }

    /// Whether there are no bins.
    pub fn is_empty(&self) -> (empty: bool)
        requires
            self.wf(),
        ensures
            empty == (self@.len() == 0),
    {
        self.bins.len() == 0
    }

    /// The parts in a row: real, imaginary, real, imaginary.
    pub fn as_interleaved(&self) -> (parts: &[u32])
        ensures
            parts@ == self.interleaved(),
            self.wf() ==> parts@.len() == 2 * self@.len(),
            forall|i: int|
                0 <= i < self@.len() ==> #[trigger] self@[i] == (Bin {
                    re: parts@[2 * i],
                    im: parts@[2 * i + 1],
                }),
    {
        self.bins.as_slice()
    }

    /// The parts in a row, to be overwritten.
    pub fn as_interleaved_mut(&mut self) -> (parts: &mut [u32])
        ensures
            parts@ == old(self).interleaved(),
            final(self).interleaved() == final(parts)@,
            final(parts)@.len() == parts@.len() ==> {
                &&& final(self).wf() == old(self).wf()
                &&& final(self)@.len() == old(self)@.len()
            },
            forall|i: int|
                0 <= i < final(self)@.len() ==> #[trigger] final(self)@[i] == (Bin {
                    re: final(parts)@[2 * i],
                    im: final(parts)@[2 * i + 1],
                }),
    {
        self.bins.as_mut_slice()
    }

    /// One bin.
    pub fn bin(&self, index: usize) -> (bin: Bin)
        requires
            index < self@.len(),
        ensures
            bin == self@[index as int],
    {
        assert(self.bins.len() == self.bins@.len());
        Bin { re: self.bins[index * 2], im: self.bins[index * 2 + 1] }
    }

    /// Overwrites one bin.
    pub fn set_bin(&mut self, index: usize, value: Bin)
        requires
            index < old(self)@.len(),
        ensures
            final(self).wf() == old(self).wf(),
            final(self)@ == old(self)@.update(index as int, value),
    {
        assert(self.bins.len() == self.bins@.len());
        self.bins[index * 2] = value.re;
        self.bins[index * 2 + 1] = value.im;
        assert(self@ =~= old(self)@.update(index as int, value));
    }

    /// Overwrites every bin with those of a spectrum of the same size.
    pub fn copy_from(&mut self, other: &Self)
        requires
            old(self).wf(),
            other.wf(),
            old(self)@.len() == other@.len(),
        ensures
            final(self).wf(),
            final(self)@ == other@,
    {
        let mut i: usize = 0;
        while i < other.bins.len()
            invariant
                i <= other.bins@.len() == self.bins@.len(),
                forall|k: int| 0 <= k < i ==> self.bins@[k] == other.bins@[k],
            decreases other.bins@.len() - i,
        {
            self.bins[i] = other.bins[i];
            i = i + 1;
        }
        assert(self.bins@ =~= other.bins@);
        assert(self@ =~= other@);
    }
}

/// Size, hop and window of a transform.
#[derive(Debug, Clone, Copy, PartialEq, Eq, Structural)]
pub struct StftConfig {
    /// Transform length.
    pub n_fft: usize,
    /// Samples between frames.
    pub hop: usize,
    /// Window shape.
    pub window: WindowKind,
}

impl StftConfig {
    /// Whether the transform length is even and a multiple of the hop.
    pub open spec fn valid(&self) -> bool {
        self.n_fft > 0 && self.hop > 0 && self.n_fft % 2 == 0 && self.n_fft % self.hop == 0
    }

    /// The message for a configuration that is not valid.
    pub open spec fn complaint(&self) -> Seq<char> {
        if self.n_fft == 0 || self.hop == 0 {
            "n_fft and hop must be non-zero"@
        } else if self.n_fft % 2 != 0 {
            "n_fft must be even (got "@ + text::decimal(self.n_fft as nat) + ")"@
        } else {
            "hop ("@ + text::decimal(self.hop as nat) + ") must divide n_fft ("@ + text::decimal(
                self.n_fft as nat,
            ) + ")"@
        }
    }

    /// Bins of a one-sided spectrum.
    pub fn bins(&self) -> (bins: usize)
        ensures
            bins == self.n_fft / 2 + 1,
    {
        self.n_fft / 2 + 1
    }

    /// Refuses a configuration that no transform can serve.
    pub fn validate(&self) -> (result: Result<(), Error>)
        ensures
            match result {
                Ok(()) => self.valid(),
                Err(Error::InvalidConfiguration(reason)) => !self.valid() && reason@
                    == self.complaint(),
                Err(_) => false,
            },
    {
        if self.n_fft == 0 || self.hop == 0 {
            return Err(Error::InvalidConfiguration("n_fft and hop must be non-zero".to_owned()));
        }
        if self.n_fft % 2 != 0 {
            let mut reason = "n_fft must be even (got ".to_owned();
            push_decimal(&mut reason, self.n_fft as u64);
            reason.append(")");
            return Err(Error::InvalidConfiguration(reason));
        }
        if self.n_fft % self.hop != 0 {
            let mut reason = "hop (".to_owned();
            push_decimal(&mut reason, self.hop as u64);
            reason.append(") must divide n_fft (");
            push_decimal(&mut reason, self.n_fft as u64);
            reason.append(")");
            return Err(Error::InvalidConfiguration(reason));
        }
        Ok(())
    }
}

/// A hop divides a valid transform length, so it is no longer than it.
proof fn lemma_hop_fits(config: StftConfig)
    requires
        config.valid(),
    ensures
        config.hop <= config.n_fft,
{
    if config.hop > config.n_fft {
        vstd::arithmetic::div_mod::lemma_small_mod(config.n_fft as nat, config.hop as nat);
    }
}

/// Moves the samples of `frame` to the front by `hop` and puts `tail` behind
/// them.
fn shifted(frame: &Vec<u32>, hop: usize, tail: &[u32]) -> (result: Vec<u32>)
    requires
        hop <= frame@.len(),
        tail@.len() == hop,
    ensures
        result@ == frame@.skip(hop as int) + tail@,
{
    let mut result: Vec<u32> = Vec::with_capacity(frame.len());
    let mut i: usize = hop;
    while i < frame.len()
        invariant
            hop <= i <= frame@.len(),
            result@ == frame@.subrange(hop as int, i as int),
        decreases frame@.len() - i,
    {
        result.push(frame[i]);
        i = i + 1;
        assert(result@ =~= frame@.subrange(hop as int, i as int));
    }
    assert(result@ =~= frame@.skip(hop as int));
    result.extend_from_slice(tail);
    assert(result@ =~= frame@.skip(hop as int) + tail@);
    result
}

/// The frame of the analysis transform: the last `n_fft` samples.
#[derive(Debug)]
pub struct StftAnalyzer {
    config: StftConfig,
    history: Vec<u32>,
}

impl StftAnalyzer {
    /// The configuration.
    pub closed spec fn setup(&self) -> StftConfig {
        self.config
    }

    /// The samples the transform sees, oldest first.
    pub closed spec fn frame(&self) -> Seq<u32> {
        self.history@
    }

    /// Whether the frame has the transform's length.
    pub closed spec fn wf(&self) -> bool {
        self.config.valid() && self.history@.len() == self.config.n_fft
    }

    /// Creates an analyzer with a silent frame.
    pub fn new(config: StftConfig) -> (result: Result<Self, Error>)
        ensures
            match result {
                Ok(analyzer) => {
                    &&& config.valid()
                    &&& analyzer.wf()
                    &&& analyzer.setup() == config
                    &&& analyzer.frame() == ring::silence(config.n_fft as nat)
                },
                Err(Error::InvalidConfiguration(reason)) => !config.valid() && reason@
                    == config.complaint(),
                Err(_) => false,
            },
    {
        match config.validate() {
            Ok(()) => {
                let history: Vec<u32> = vec![0; config.n_fft];
                assert(history@ =~= ring::silence(config.n_fft as nat));
                Ok(StftAnalyzer { config, history })
            },
            Err(error) => Err(error),
        }
    }

    /// The configuration.
    pub fn config(&self) -> (config: StftConfig)
        ensures
            config == self.setup(),
    {
        self.config
    }

    /// The samples the transform sees, oldest first.
    pub fn samples(&self) -> (samples: &[u32])
        ensures
            samples@ == self.frame(),
    {
        self.history.as_slice()
    }

    /// Silences the frame.
    pub fn reset(&mut self)
        requires
            old(self).wf(),
        ensures
            final(self).wf(),
            final(self).setup() == old(self).setup(),
            final(self).frame() == ring::silence(old(self).setup().n_fft as nat),
    {
        self.history = vec![0; self.config.n_fft];
        assert(self.history@ =~= ring::silence(self.config.n_fft as nat));
    }

    /// Appends one hop of samples to the frame, for a transform that fills
    /// `out`.
    pub fn process(&mut self, input: &[u32], out: &Spectrum) -> (result: Result<(), Error>)
        requires
            old(self).wf(),
        ensures
            final(self).wf(),
            final(self).setup() == old(self).setup(),
            if input@.len() != old(self).setup().hop {
                &&& result == Err::<(), Error>(
                    Error::BufferLength {
                        expected: old(self).setup().hop,
                        actual: input@.len() as usize,
                    },
                )
                &&& final(self).frame() == old(self).frame()
            } else if out@.len() != old(self).setup().n_fft / 2 + 1 {
                &&& result == Err::<(), Error>(
                    Error::BufferLength {
                        expected: (old(self).setup().n_fft / 2 + 1) as usize,
                        actual: out@.len() as usize,
                    },
                )
                &&& final(self).frame() == old(self).frame()
            } else {
                &&& result is Ok
                &&& final(self).frame() == old(self).frame().skip(input@.len() as int) + input@
            },
    {
        if input.len() != self.config.hop {
            return Err(Error::BufferLength { expected: self.config.hop, actual: input.len() });
        }
        if out.len() != self.config.bins() {
            return Err(Error::BufferLength { expected: self.config.bins(), actual: out.len() });
        }
        proof {
            lemma_hop_fits(self.config);
        }
        self.history = shifted(&self.history, self.config.hop, input);
        Ok(())
    }
}

/// A spectrum whose first and last bins are purely real, as a real inverse
/// transform requires.
pub open spec fn real_edges(bins: Seq<Bin>) -> Seq<Bin> {
    let first = bins.update(0, Bin { im: 0, ..bins[0] });
    first.update(first.len() - 1, Bin { im: 0, ..first[first.len() - 1] })
}

/// The accumulator of the synthesis transform.
#[derive(Debug)]
pub struct StftSynthesizer {
    config: StftConfig,
    accumulator: Vec<u32>,
}

impl StftSynthesizer {
    /// The configuration.
    pub closed spec fn setup(&self) -> StftConfig {
        self.config
    }

    /// The overlapping frames that were not released yet.
    pub closed spec fn pending(&self) -> Seq<u32> {
        self.accumulator@
    }

    /// Whether the accumulator has the transform's length.
    pub closed spec fn wf(&self) -> bool {
        self.config.valid() && self.accumulator@.len() == self.config.n_fft
    }

    /// Creates a synthesizer with a silent accumulator.
    pub fn new(config: StftConfig) -> (result: Result<Self, Error>)
        ensures
            match result {
                Ok(synthesizer) => {
                    &&& config.valid()
                    &&& synthesizer.wf()
                    &&& synthesizer.setup() == config
                    &&& synthesizer.pending() == ring::silence(config.n_fft as nat)
                },
                Err(Error::InvalidConfiguration(reason)) => !config.valid() && reason@
                    == config.complaint(),
                Err(_) => false,
            },
    {
        match config.validate() {
            Ok(()) => {
                let accumulator: Vec<u32> = vec![0; config.n_fft];
                assert(accumulator@ =~= ring::silence(config.n_fft as nat));
                Ok(StftSynthesizer { config, accumulator })
            },
            Err(error) => Err(error),
        }
    }

    /// The configuration.
    pub fn config(&self) -> (config: StftConfig)
        ensures
            config == self.setup(),
    {
        self.config
    }

    /// The overlapping frames that were not released yet.
    pub fn accumulated(&self) -> (samples: &[u32])
        ensures
            samples@ == self.pending(),
    {
        self.accumulator.as_slice()
    }

    /// Silences the accumulator.
    pub fn reset(&mut self)
        requires
            old(self).wf(),
        ensures
            final(self).wf(),
            final(self).setup() == old(self).setup(),
            final(self).pending() == ring::silence(old(self).setup().n_fft as nat),
    {
        self.accumulator = vec![0; self.config.n_fft];
        assert(self.accumulator@ =~= ring::silence(self.config.n_fft as nat));
    }

    /// The bins an inverse transform gets for `frame`, when its result goes to
    /// an output of `out_len` samples: those of the frame, with the residual
    /// imaginary parts of the two real bins dropped.
    pub fn transform_input(&self, frame: &Spectrum, out_len: usize) -> (result: Result<
        Spectrum,
        Error,
    >)
        requires
            self.wf(),
            frame.wf(),
        ensures
            if frame@.len() != self.setup().n_fft / 2 + 1 {
                result == Err::<Spectrum, Error>(
                    Error::BufferLength {
                        expected: (self.setup().n_fft / 2 + 1) as usize,
                        actual: frame@.len() as usize,
                    },
                )
            } else if out_len != self.setup().hop {
                result == Err::<Spectrum, Error>(
                    Error::BufferLength { expected: self.setup().hop, actual: out_len },
                )
            } else {
                &&& result matches Ok(bins)
                &&& bins.wf()
                &&& bins@ == real_edges(frame@)
            },
    {
        if frame.len() != self.config.bins() {
            return Err(Error::BufferLength { expected: self.config.bins(), actual: frame.len() });
        }
        if out_len != self.config.hop {
            return Err(Error::BufferLength { expected: self.config.hop, actual: out_len });
        }
        let count: usize = frame.len();
        assert(frame.bins.len() == frame.bins@.len());
        let mut bins = Spectrum::zeroed(count);
        bins.copy_from(frame);
        let first: Bin = bins.bin(0);
        bins.set_bin(0, Bin { re: first.re, im: 0 });
        let last: Bin = bins.bin(count - 1);
        bins.set_bin(count - 1, Bin { re: last.re, im: 0 });
        Ok(bins)
    }

    /// Takes the accumulator with the newest frame added, releases its first
    /// hop and keeps the rest for the frames that overlap it.
    pub fn release(&mut self, mixed: &[u32]) -> (released: Vec<u32>)
        requires
            old(self).wf(),
            mixed@.len() == old(self).setup().n_fft,
        ensures
            final(self).wf(),
            final(self).setup() == old(self).setup(),
            released@ == mixed@.take(old(self).setup().hop as int),
            final(self).pending() == mixed@.skip(old(self).setup().hop as int) + ring::silence(
                old(self).setup().hop as nat,
            ),
    {
        let hop: usize = self.config.hop;
        proof {
            lemma_hop_fits(self.config);
        }
        let mut whole: Vec<u32> = Vec::with_capacity(mixed.len());
        whole.extend_from_slice(mixed);
        assert(whole@ =~= mixed@);
        let zeros: Vec<u32> = vec![0; hop];
        assert(zeros@ =~= ring::silence(hop as nat));
        self.accumulator = shifted(&whole, hop, zeros.as_slice());
        whole.truncate(hop);
        assert(whole@ =~= mixed@.take(hop as int));
        whole
    }
}

/// The frame always holds the last `n_fft` samples of the stream: appending
/// hops one after another shifts the frame by their total length.
pub proof fn law_frames_slide(frame: Seq<u32>, first: Seq<u32>, second: Seq<u32>)
    requires
        first.len() + second.len() <= frame.len(),
    ensures
        (frame.skip(first.len() as int) + first).skip(second.len() as int) + second == frame.skip(
            (first.len() + second.len()) as int,
        ) + (first + second),
{
    assert((frame.skip(first.len() as int) + first).skip(second.len() as int) + second
        =~= frame.skip((first.len() + second.len()) as int) + (first + second));
}

/// Before an inverse transform only the imaginary parts of the first and of the last
/// bin are dropped; every other part stays as it is.
pub proof fn law_only_edges_become_real(bins: Seq<Bin>, k: int)
    requires
        0 <= k < bins.len(),
    ensures
        real_edges(bins).len() == bins.len(),
        real_edges(bins)[k].re == bins[k].re,
        k == 0 || k == bins.len() - 1 ==> real_edges(bins)[k].im == 0,
        0 < k < bins.len() - 1 ==> real_edges(bins)[k] == bins[k],
{
}

/// A valid transform is made of whole hops and has a middle bin.
pub proof fn law_a_valid_transform_is_made_of_hops(config: StftConfig, hops: int)
    requires
        config.hop > 0,
        hops > 0,
        config.n_fft == hops * config.hop,
    ensures
        config.valid() <==> config.n_fft % 2 == 0,
{
    vstd::arithmetic::div_mod::lemma_mod_multiples_basic(hops, config.hop as int);
    assert(hops * config.hop > 0) by (nonlinear_arith)
        requires
            hops > 0,
            config.hop > 0,
    ;
}

} // verus!
