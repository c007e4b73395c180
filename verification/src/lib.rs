pub mod color;
pub mod halftone;
pub mod lineart;
pub mod raster;
pub mod svg;
pub mod text;
pub mod tone;

use vstd::prelude::*;

verus! {

/// What a generation call does for a given output path.
pub enum GenAction {
    /// The output document already exists: the whole pipeline is
    /// short-circuited — no clustering, masking, or tracing work — and the
    /// existing file is left unchanged.
    Skip,
    /// No document exists yet: generate one.
    Generate,
}

/// The idempotency guard at the top of every generation entry point: an
/// existing output document means a deliberate, side-effect-free skip.
pub fn generation_action(output_exists: bool) -> (r: GenAction)
    ensures
        r is Skip <==> output_exists,
{
    if output_exists {
        GenAction::Skip
    } else {
        GenAction::Generate
    }
}

/// The three mask kinds the external tracer is invoked for, each with its own
/// fixed parameters.
#[derive(Clone, Copy)]
pub enum TraceMode {
    /// One color cluster's mask: smooth curves, fine speckle filter.
    Color,
    /// One tone band's mask: coarser, fewer artifacts at low tone counts.
    Tone,
    /// The single line-art mask.
    LineArt,
}

/// The discard-speckle-size threshold handed to the tracer for each mask kind.
pub fn trace_speckle_size(mode: TraceMode) -> (r: u32)
    ensures
        r == match mode {
            TraceMode::Color => 2u32,
            TraceMode::Tone => 8u32,
            TraceMode::LineArt => 10u32,
        },
{
    match mode {
        TraceMode::Color => 2,
        TraceMode::Tone => 8,
        TraceMode::LineArt => 10,
    }
}

/// The corner-smoothing parameter handed to the tracer, in tenths; line-art
/// keeps the tracer's default.
pub fn trace_corner_tenths(mode: TraceMode) -> (r: Option<u32>)
    ensures
        r == match mode {
            TraceMode::Color => Some(8u32),
            TraceMode::Tone => Some(10u32),
            TraceMode::LineArt => None::<u32>,
        },
{
    match mode {
        TraceMode::Color => Some(8),
        TraceMode::Tone => Some(10),
        TraceMode::LineArt => None,
    }
}

/// A fatal error of the generation pipeline.
#[derive(Debug)]
pub enum GenError {
    /// No pixel of the source image was above the visibility threshold,
    /// so no color clustering is possible.
    NoVisiblePixels,
    /// The external tracing engine failed on the line-art mask.
    TraceFailed,
}

impl GenError {
    /// A human-readable description of the error.
    pub fn message(&self) -> (r: &'static str)
        ensures
            r@ =~= match self {
                GenError::NoVisiblePixels => "No visible pixels found for color quantization"@,
                GenError::TraceFailed => "Potrace failed for lineart"@,
            },
    {
        match self {
            GenError::NoVisiblePixels => "No visible pixels found for color quantization",
            GenError::TraceFailed => "Potrace failed for lineart",
        }
    }
}

} // verus!
