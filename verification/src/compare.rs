//! Structural similarity of the small grayscale samples, and the fixed
//! merge threshold.
//!
//! The metric itself is the MSSIM implementation of the `image-compare`
//! crate; its score is a deterministic function of the two pixel buffers
//! and is carried around here as the bit pattern of the IEEE 754 double.
//! A non-negative finite double compares exactly like its bit pattern, so
//! the threshold test is ordinary integer arithmetic on those bits and the
//! classification of a pair of samples is a pure function of their bytes.

use vstd::prelude::*;

verus! {

/// Side length of every similarity sample: a sample is always this exact
/// square, so any two samples can be compared.
pub const SAMPLE_DIM: u32 = 200;

/// A small, fixed-size, square grayscale downscale of a decoded candidate,
/// used only for comparisons, never for display.
#[derive(Clone)]
pub struct SimSample {
    pub data: Vec<u8>,
}

impl SimSample {
    /// One byte per pixel of the fixed square.
    pub open spec fn wf(self) -> bool {
        self.data@.len() == SAMPLE_DIM * SAMPLE_DIM
    }
}

/// The MSSIM score of two equally-sized grayscale buffers, as the bits of
/// the IEEE 754 double the metric computes. A function of the buffers alone.
pub uninterp spec fn mssim_score_bits(a: Seq<u8>, b: Seq<u8>) -> u64;

/// Relies on `image_compare::gray_similarity_structure` with the
/// `MSSIMSimple` algorithm and on `image::GrayImage::from_raw`: a buffer of
/// exactly `width * height` bytes yields a grayscale image, the comparison
/// of two images of equal dimensions always returns `Ok`, and its score
/// depends on the two pixel buffers alone (the windows are averaged in a
/// fixed order). The score is returned as its bit pattern, `f64::to_bits`.
#[verifier::external_body]
fn mssim_bits(a: &SimSample, b: &SimSample) -> (r: u64)
    requires
        a.wf(),
        b.wf(),
    ensures
        r == mssim_score_bits(a.data@, b.data@),
{
    let first = image::GrayImage::from_raw(SAMPLE_DIM, SAMPLE_DIM, a.data.clone()).unwrap();
    let second = image::GrayImage::from_raw(SAMPLE_DIM, SAMPLE_DIM, b.data.clone()).unwrap();
    let sim = image_compare::gray_similarity_structure(
        &image_compare::Algorithm::MSSIMSimple,
        &first,
        &second,
    ).unwrap();
    sim.score.to_bits()
}

/// The bit pattern of the merge threshold, the double 0.3.
pub const THRESHOLD_BITS: u64 = 0x3FD3333333333333;

/// The least bit pattern whose exponent is all ones: patterns at or above
/// this, below the sign bit, are infinities and NaNs.
pub const EXPONENT_ALL_ONES_BITS: u64 = 0x7FF0000000000000;

/// Whether a score, given as the bits of an IEEE 754 double, exceeds the
/// merge threshold. A finite non-negative double orders exactly like its
/// bit pattern, so for every real score this is "score strictly above the
/// threshold"; a negative score (sign bit set, pattern above the sign bit)
/// never passes, and neither does an infinity or a NaN.
pub open spec fn passes_threshold(bits: u64) -> bool {
    THRESHOLD_BITS < bits < EXPONENT_ALL_ONES_BITS
}

/// The executable threshold test. Deterministic: a pure function of the
/// score bits, so a pair of samples at exactly the threshold is classified
/// the same way on every run.
pub fn score_passes_threshold(bits: u64) -> (r: bool)
    ensures
        r == passes_threshold(bits),
{
    THRESHOLD_BITS < bits && bits < EXPONENT_ALL_ONES_BITS
}

/// Whether two samples are judged visually near-duplicate: their MSSIM
/// score exceeds the merge threshold.
pub open spec fn similar(a: Seq<u8>, b: Seq<u8>) -> bool {
    passes_threshold(mssim_score_bits(a, b))
}

/// Compare two samples against the merge threshold.
pub fn samples_similar(a: &SimSample, b: &SimSample) -> (r: bool)
    requires
        a.wf(),
        b.wf(),
    ensures
        r == similar(a.data@, b.data@),
{
    score_passes_threshold(mssim_bits(a, b))
}

} // verus!
