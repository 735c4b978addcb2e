//! The extraction pipeline: validate a raw RGBA buffer, decode it into
//! color samples, cluster the samples, and derive the palette.
//!
//! Every four consecutive bytes of the input buffer form one RGBA
//! pixel; the alpha byte is discarded. A buffer whose length is not a
//! multiple of four, a request for zero palette entries, an empty
//! buffer, and an image whose declared dimensions disagree with its
//! buffer length are each rejected with a descriptive error before any
//! clustering runs.

use vstd::prelude::*;
use vstd::arithmetic::div_mod::lemma_fundamental_div_mod;
use vstd::arithmetic::div_mod::lemma_mod_multiples_basic;
use crate::color::Color;
use crate::cluster::average_color;
use crate::cluster::cluster;
use crate::stats::PaletteResult;
use crate::stats::lemma_percentages_sum;
use crate::stats::sum_u32;

verus! {

/// Why a palette request was rejected before clustering.
#[derive(Clone, Copy, Debug, PartialEq, Eq, Structural)]
pub enum PaletteError {
    /// The pixel buffer's length is not a multiple of four, so it is
    /// not a whole number of RGBA pixels.
    InvalidBufferLength,
    /// Zero palette entries were requested.
    ZeroClusters,
    /// The buffer decodes to no samples at all.
    EmptyInput,
    /// The declared width and height do not match the buffer length.
    DimensionMismatch,
}

impl PaletteError {
    /// A descriptive, fixed message for this rejection.
    pub fn message(&self) -> (m: &'static str)
        ensures
            self is InvalidBufferLength ==> m@ == "Pixel data must be RGBA format (length divisible by 4)"@,
            self is ZeroClusters ==> m@ == "Number of colors (k) must be greater than 0"@,
            self is EmptyInput ==> m@ == "No valid pixels found"@,
            self is DimensionMismatch ==> m@ == "Image data length doesn't match the declared dimensions"@,
    {
        match self {
            PaletteError::InvalidBufferLength => "Pixel data must be RGBA format (length divisible by 4)",
            PaletteError::ZeroClusters => "Number of colors (k) must be greater than 0",
            PaletteError::EmptyInput => "No valid pixels found",
            PaletteError::DimensionMismatch => "Image data length doesn't match the declared dimensions",
        }
    }
}

/// The color samples an RGBA byte buffer decodes to: one per four
/// bytes, alpha discarded.
pub open spec fn decoded(pixels: Seq<u8>) -> Seq<Color> {
    Seq::new(
        (pixels.len() / 4) as nat,
        |i: int|
            Color { r: pixels[4 * i], g: pixels[4 * i + 1], b: pixels[4 * i + 2] },
    )
}

/// Strips a whole-pixel RGBA buffer down to its color samples.
pub fn decode_rgba(pixels: &[u8]) -> (samples: Vec<Color>)
    requires
        pixels@.len() % 4 == 0,
    ensures
        samples@ == decoded(pixels@),
        samples@.len() == pixels@.len() / 4,
{
    let n: usize = pixels.len();
    let count: usize = n / 4;
    proof {
        lemma_fundamental_div_mod(n as int, 4);
    }
    let mut samples: Vec<Color> = Vec::new();
    let mut i: usize = 0;
    while i < count
        invariant
            n == pixels@.len(),
            count == n / 4,
            n == 4 * count,
            i <= count,
            samples@.len() == i,
            forall|p: int|
                0 <= p < i ==> #[trigger] samples@[p] == (Color {
                    r: pixels@[4 * p],
                    g: pixels@[4 * p + 1],
                    b: pixels@[4 * p + 2],
                }),
        decreases count - i,
    {
        let base: usize = 4 * i;
        let sample = Color { r: pixels[base], g: pixels[base + 1], b: pixels[base + 2] };
        samples.push(sample);
        i += 1;
    }
    proof {
        assert(samples@ =~= decoded(pixels@));
    }
    samples
}

/// The palette extractor: per-run tuning parameters for the clustering
/// loop. One instance may serve many extraction calls; a run reads the
/// parameters and shares no other state across calls.
pub struct PaletteExtractor {
    /// Iteration cap for the clustering loop.
    pub max_iter: usize,
    /// Total centroid movement below which the loop stops early.
    pub converge: u64,
    /// Observational only: no behavior of the extraction depends on it.
    pub verbose: bool,
}

impl PaletteExtractor {
    /// A fresh extractor with the default tuning: at most 20
    /// iterations, convergence threshold 5.
    pub fn new() -> (e: PaletteExtractor)
        ensures
            e.max_iter == 20,
            e.converge == 5,
            !e.verbose,
    {
        PaletteExtractor { max_iter: 20, converge: 5, verbose: false }
    }

    /// Replaces the iteration cap.
    pub fn set_max_iterations(&mut self, max_iter: usize)
        ensures
            final(self).max_iter == max_iter,
            final(self).converge == old(self).converge,
            final(self).verbose == old(self).verbose,
    {
        self.max_iter = max_iter;
    }

    /// Replaces the convergence threshold.
    pub fn set_convergence(&mut self, converge: u64)
        ensures
            final(self).converge == converge,
            final(self).max_iter == old(self).max_iter,
            final(self).verbose == old(self).verbose,
    {
        self.converge = converge;
    }

    /// Switches the observational verbosity flag.
    pub fn set_verbose(&mut self, verbose: bool)
        ensures
            final(self).verbose == verbose,
            final(self).max_iter == old(self).max_iter,
            final(self).converge == old(self).converge,
    {
        self.verbose = verbose;
    }

    /// Extracts a palette of `k` colors from a flat RGBA pixel buffer.
    ///
    /// Rejects, in this order: a buffer length that is not a multiple
    /// of four, a request for zero colors, and an empty buffer. On any
    /// acceptable input it succeeds with exactly `k` entries whose
    /// shares are each at most 100% and together fall short of exactly
    /// 100% by less than `k` hundredths of a percent.
    pub fn extract_palette_from_pixels(&self, pixels: &[u8], k: usize) -> (res: Result<
        PaletteResult,
        PaletteError,
    >)
        ensures
            (res matches Err(e) && e is InvalidBufferLength) <==> pixels@.len() % 4 != 0,
            (res matches Err(e) && e is ZeroClusters) <==> (pixels@.len() % 4 == 0 && k == 0),
            (res matches Err(e) && e is EmptyInput) <==> (pixels@.len() % 4 == 0 && k >= 1
                && pixels@.len() == 0),
            res is Ok <==> (pixels@.len() % 4 == 0 && k >= 1 && pixels@.len() > 0),
            res matches Ok(palette) ==> {
                &&& palette.colors@.len() == k
                &&& palette.percentages@.len() == k
                &&& forall|c: int| 0 <= c < k ==> #[trigger] palette.percentages@[c] <= 10000
                &&& 10000 - k < sum_u32(palette.percentages@) <= 10000
            },
            k == 1 && self.max_iter >= 1 ==> (res matches Ok(palette) ==> palette.colors@[0]
                == average_color(decoded(pixels@))),
    {
        if pixels.len() % 4 != 0 {
            return Err(PaletteError::InvalidBufferLength);
        }
        if k == 0 {
            return Err(PaletteError::ZeroClusters);
        }
        proof {
            lemma_fundamental_div_mod(pixels@.len() as int, 4);
        }
        let samples = decode_rgba(pixels);
        if samples.len() == 0 {
            return Err(PaletteError::EmptyInput);
        }
        let total = samples.len();
        let outcome = cluster(&samples, k, self.max_iter, self.converge, 0);
        let palette = crate::stats::derive(&outcome, k, total);
        proof {
            lemma_percentages_sum(outcome.indices@, k as int, total as int);
        }
        Ok(palette)
    }

    /// Extracts a palette from an image-shaped buffer after checking
    /// that the declared `width * height` RGBA pixels fill it exactly.
    pub fn extract_palette_from_image_data(
        &self,
        image_data: &[u8],
        width: u32,
        height: u32,
        k: usize,
    ) -> (res: Result<PaletteResult, PaletteError>)
        ensures
            res matches Err(e) && e is DimensionMismatch <==> image_data@.len() != (width as int)
                * (height as int) * 4,
            image_data@.len() == (width as int) * (height as int) * 4 ==> {
                &&& (res matches Err(e) && e is ZeroClusters <==> k == 0)
                &&& (res matches Err(e) && e is EmptyInput <==> k >= 1 && image_data@.len() == 0)
                &&& (res is Ok <==> k >= 1 && image_data@.len() > 0)
            },
            res matches Ok(palette) ==> {
                &&& palette.colors@.len() == k
                &&& palette.percentages@.len() == k
                &&& forall|c: int| 0 <= c < k ==> #[trigger] palette.percentages@[c] <= 10000
                &&& 10000 - k < sum_u32(palette.percentages@) <= 10000
            },
    {
        proof {
            assert((width as int) * (height as int) <= 0xffff_ffff * 0xffff_ffff)
                by (nonlinear_arith)
                requires
                    width <= 0xffff_ffffu32,
                    height <= 0xffff_ffffu32,
            ;
            assert((width as int) * (height as int) >= 0) by (nonlinear_arith)
                requires
                    width >= 0,
                    height >= 0,
            ;
        }
        let expected: u128 = (width as u128) * (height as u128) * 4;
        if (image_data.len() as u128) != expected {
            return Err(PaletteError::DimensionMismatch);
        }
        proof {
            lemma_mod_multiples_basic((width as int) * (height as int), 4);
            assert((width as int) * (height as int) * 4 % 4 == 0);
        }
        self.extract_palette_from_pixels(image_data, k)
    }

    /// Extracts the single dominant color of a buffer: the palette of
    /// size one, which is the truncating channel average's cluster
    /// representative of all samples.
    pub fn extract_dominant_color(&self, pixels: &[u8]) -> (res: Result<Color, PaletteError>)
        ensures
            res matches Err(e) && e is InvalidBufferLength <==> pixels@.len() % 4 != 0,
            res matches Err(e) && e is EmptyInput <==> pixels@.len() % 4 == 0 && pixels@.len()
                == 0,
            res is Ok <==> pixels@.len() % 4 == 0 && pixels@.len() > 0,
            self.max_iter >= 1 ==> (res matches Ok(color) ==> color == average_color(
                decoded(pixels@),
            )),
    {
        let palette = match self.extract_palette_from_pixels(pixels, 1) {
            Ok(palette) => palette,
            Err(e) => {
                return Err(e);
            },
        };
        match palette.get_color(0) {
            Some(color) => Ok(color),
            None => Err(PaletteError::EmptyInput),
        }
    }
}

} // verus!
