//! Failure values of the hash computation.

use vstd::prelude::*;

verus! {

/// Declares `image::ImageError`, the error type of the image crate's
/// decoding entry points, so that it can travel through this crate's
/// own error type. The value is opaque here; callers that want to show
/// it use the image crate's own formatting.
#[verifier::external_type_specification]
#[verifier::external_body]
pub struct ExImageError(image::ImageError);

/// Why a hash computation failed.
#[derive(Debug)]
pub enum HashError {
    /// The buffer was finalized before it reached its declared target
    /// size: a logic error in how the buffer was driven.
    NotEnoughBits,
    /// The image could not be read or decoded; carries the decoder's
    /// own report.
    DecoderError(image::ImageError),
}

impl From<image::ImageError> for HashError {
    fn from(e: image::ImageError) -> (r: Self) {
        HashError::DecoderError(e)
    }
}

impl vstd::std_specs::convert::FromSpecImpl<image::ImageError> for HashError {
    open spec fn obeys_from_spec() -> bool {
        true
    }

    open spec fn from_spec(e: image::ImageError) -> Self {
        HashError::DecoderError(e)
    }
}

} // verus!
