//! Analysis windows used by the short-time Fourier front-ends.
//!
//! Each published model was trained with one specific window, so the window is
//! part of the model contract rather than a tunable.

use vstd::prelude::*;

use crate::text::same_text;

verus! {

/// A window shape.
#[derive(Debug, Clone, Copy, PartialEq, Eq, Structural)]
pub enum WindowKind {
    /// The Vorbis power-complementary window.
    Vorbis,
    /// A periodic Hann window.
    Hann,
    /// The square root of a periodic Hann window.
    HannSqrt,
}

impl WindowKind {
    /// The name this window has in model metadata.
    pub open spec fn metadata_name(self) -> Seq<char> {
        match self {
            WindowKind::Vorbis => "vorbis"@,
            WindowKind::Hann => "hann"@,
            WindowKind::HannSqrt => "hann_sqrt"@,
        }
    }

    /// The window a metadata name stands for: the three names, and the two
    /// spellings that exporters also use.
    pub open spec fn named(name: Seq<char>) -> Option<WindowKind> {
        if name == "vorbis"@ {
            Some(WindowKind::Vorbis)
        } else if name == "hann"@ || name == "hanning"@ {
            Some(WindowKind::Hann)
        } else if name == "hann_sqrt"@ || name == "sqrt_hann"@ {
            Some(WindowKind::HannSqrt)
        } else {
            None
        }
    }

    /// The name this window has in model metadata.
    pub fn onnx_metadata_name(self) -> (name: &'static str)
        ensures
            name@ == self.metadata_name(),
    {
        match self {
            WindowKind::Vorbis => "vorbis",
            WindowKind::Hann => "hann",
            WindowKind::HannSqrt => "hann_sqrt",
        }
    }

    /// Reads a window from model metadata.
    pub fn from_onnx_metadata_name(name: &str) -> (kind: Option<Self>)
        ensures
            kind == Self::named(name@),
    {
        if same_text(name, "vorbis") {
            Some(WindowKind::Vorbis)
        } else if same_text(name, "hann") || same_text(name, "hanning") {
            Some(WindowKind::Hann)
        } else if same_text(name, "hann_sqrt") || same_text(name, "sqrt_hann") {
            Some(WindowKind::HannSqrt)
        } else {
            None
        }
    }
}

/// Reading a window's metadata name gives that window back.
pub proof fn law_metadata_names_round_trip(kind: WindowKind)
    ensures
        WindowKind::named(kind.metadata_name()) == Some(kind),
{
    reveal_strlit("vorbis");
    reveal_strlit("hann");
    reveal_strlit("hanning");
    reveal_strlit("hann_sqrt");
    reveal_strlit("sqrt_hann");
    assert("vorbis"@.len() == 6);
    assert("hann"@.len() == 4);
    assert("hanning"@.len() == 7);
    assert("hann_sqrt"@.len() == 9);
    assert("vorbis"@[0] == 'v');
    assert("hann_sqrt"@[0] == 'h');
}

} // verus!
