//! The hash pipeline: from an image file to a rendered fingerprint.
//!
//! Decoding and resampling are the image crate's work, reached through
//! one trusted wrapper; everything after it — averaging, thresholding,
//! packing — is verified over the plain pixel values.

use crate::buffer::HashBuilder;
use crate::error::HashError;
use crate::model::{avg_of, hash_bits, lemma_sum_of_bound, sum_of};
use vstd::prelude::*;

verus! {

/// Relies on `image::open` (decode the file at the path, reporting any
/// read or format failure), `DynamicImage::resize_exact` (resample to
/// exactly `width` x `height` pixels with the triangle filter), and
/// `imageops::grayscale` with `ImageBuffer::into_raw` (convert to
/// single-channel luma and hand out one byte per pixel, in raster
/// order). On success the grid therefore holds exactly `width * height`
/// intensity values.
#[verifier::external_body]
fn decode_resize_luma(path: &str, width: u32, height: u32) -> (r: Result<Vec<u8>, image::ImageError>)
    requires
        width as int * height as int <= usize::MAX,
    ensures
        r matches Ok(pixels) ==> pixels@.len() == width as int * height as int,
{
    match image::open(path) {
        Ok(img) => Ok(
            image::imageops::grayscale(
                &img.resize_exact(width, height, image::imageops::FilterType::Triangle),
            ).into_raw(),
        ),
        Err(e) => Err(e),
    }
}

/// Hashes a grayscale grid of `width * height` intensity values in
/// raster order: every pixel contributes one bit, set exactly when its
/// intensity reaches the grid's average (the floor of sum over count).
pub fn hash_from_pixels(pixels: &Vec<u8>, width: u32, height: u32) -> (r: Result<
    crate::buffer::Hash,
    HashError,
>)
    requires
        width > 0,
        height > 0,
        pixels@.len() == width as int * height as int,
    ensures
        r matches Ok(h) && h.wf() && h@ == hash_bits(pixels@),
{
    let n = pixels.len();
    let mut sum: u128 = 0;
    let mut i: usize = 0;
    while i < n
        invariant
            n == pixels@.len(),
            i <= n,
            sum == sum_of(pixels@.take(i as int)),
            sum <= 255 * i,
        decreases n - i,
    {
        proof {
            assert(pixels@.take(i + 1).drop_last() =~= pixels@.take(i as int));
        }
        sum = sum + pixels[i] as u128;
        i = i + 1;
    }
    proof {
        assert(pixels@.take(n as int) =~= pixels@);
        vstd::arithmetic::mul::lemma_mul_strictly_positive(width as int, height as int);
    }
    let avg_wide: u128 = sum / (n as u128);
    proof {
        lemma_sum_of_bound(pixels@);
        vstd::arithmetic::div_mod::lemma_div_is_ordered(
            sum as int,
            255 * n as int,
            n as int,
        );
        vstd::arithmetic::div_mod::lemma_div_multiples_vanish(255, n as int);
    }
    let avg: u8 = avg_wide as u8;
    let mut builder = HashBuilder::new(n);
    let mut j: usize = 0;
    while j < n
        invariant
            n == pixels@.len(),
            j <= n,
            avg == avg_of(pixels@),
            builder.wf(),
            builder.target() == n,
            builder@ == hash_bits(pixels@).take(j as int),
        decreases n - j,
    {
        builder.add_bit(pixels[j] >= avg);
        proof {
            assert(builder@ =~= hash_bits(pixels@).take(j + 1));
        }
        j = j + 1;
    }
    proof {
        assert(builder@ =~= hash_bits(pixels@));
    }
    builder.finalize()
}

/// Turns one image file into a fingerprint of `width * height` bits.
///
/// Decodes the file at `path`, resamples it to exactly `width` x
/// `height` grayscale pixels, and hashes the grid. The only failure is
/// the decoder's, passed through as [`HashError::DecoderError`]; on
/// success the fingerprint is the average-hash of some grid of
/// `width * height` intensities — the one the decoder produced.
pub fn hash_img(path: &str, width: u32, height: u32) -> (r: Result<crate::buffer::Hash, HashError>)
    requires
        width > 0,
        height > 0,
        width as int * height as int <= usize::MAX,
    ensures
        r matches Ok(h) ==> h.wf() && h@.len() == width as int * height as int && exists|
            g: Seq<u8>,
        |
            g.len() == width as int * height as int && h@ == #[trigger] hash_bits(g),
        r matches Err(e) ==> e is DecoderError,
{
    match decode_resize_luma(path, width, height) {
        Ok(pixels) => {
            let r = hash_from_pixels(&pixels, width, height);
            proof {
                let h = r->Ok_0;
                assert(h@ == hash_bits(pixels@));
            }
            r
        },
        Err(e) => Err(HashError::from(e)),
    }
}

} // verus!
